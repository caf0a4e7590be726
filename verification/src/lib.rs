//! Lines of text as vector graphics.
//!
//! Each character of a line is looked up in a font face. The outline of its
//! glyph is written as a path description, the glyphs are set side by side by
//! their advances, and the line becomes one SVG document.
//!
//! - `scalar` and `decimal`: coordinates, and how numbers are written.
//! - `outline`: the outline visitor, from drawing events to a path description.
//! - `font`: what is asked of the font face.
//! - `layout`: the line compositor, from glyphs to paths, width and height.
//! - `document`: the document emitter, from a composed line to SVG text.
//! - `output`: the names of the files that the documents are written to.
//!
//! The face is read by `ttf_parser` and the document is written by
//! `xmlwriter`. Each call into them stands in a function of its own, marked
//! `external_body`, whose contract is relied on and not proved.

pub mod decimal;
pub mod document;
pub mod font;
pub mod layout;
pub mod outline;
pub mod output;
pub mod scalar;
