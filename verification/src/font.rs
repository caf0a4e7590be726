//! The font face, as far as a line of text needs it: which glyph a character
//! maps to, how far a glyph advances, and the box around its outline.
//!
//! The face is a `ttf_parser::Face`. What it holds is not proved here: the
//! functions marked `external_body` state what this library relies on.

use vstd::prelude::*;
use ttf_parser::FaceParsingError;
use crate::layout::{BoundingBox, Glyph};
use crate::outline::DrawEvent;

verus! {

/// `ttf_parser::Face`: a parsed font face. The proofs see nothing inside it.
#[verifier::external_type_specification]
#[verifier::external_body]
pub struct ExFace<'a>(ttf_parser::Face<'a>);

/// Why the bytes of a font are no face.
#[derive(Clone, Copy, Debug, PartialEq, Eq)]
pub enum FontError {
    /// A table reaches beyond the end of the font.
    MalformedFont,
    /// The font does not begin as any known kind of font does.
    UnknownMagic,
    /// The collection holds fewer faces than were asked for.
    FaceIndexOutOfBounds,
    /// The `head` table is missing or malformed.
    NoHeadTable,
    /// The `hhea` table is missing or malformed.
    NoHheaTable,
    /// The `maxp` table is missing or malformed.
    NoMaxpTable,
}

/// Why the bytes `data` do not hold a face number `index`; `None` where they do.
pub uninterp spec fn face_refusal(data: Seq<u8>, index: u32) -> Option<FontError>;

/// `ttf_parser::Face::from_slice`: reads the table directory of the face number
/// `index` in `data` and checks the tables that every face must have. Whether
/// it refuses, and why, depends on the bytes and the index alone, which
/// `face_refusal` names.
#[verifier::external_body]
fn face_from_slice<'a>(data: &'a [u8], index: u32) -> (parsed: Result<
    ttf_parser::Face<'a>,
    FontError,
>)
    ensures
        match parsed {
            Ok(_) => face_refusal(data@, index) is None,
            Err(error) => face_refusal(data@, index) == Some(error),
        },
{
    match ttf_parser::Face::from_slice(data, index) {
        Ok(face) => Ok(face),
        Err(FaceParsingError::MalformedFont) => Err(FontError::MalformedFont),
        Err(FaceParsingError::UnknownMagic) => Err(FontError::UnknownMagic),
        Err(FaceParsingError::FaceIndexOutOfBounds) => Err(FontError::FaceIndexOutOfBounds),
        Err(FaceParsingError::NoHeadTable) => Err(FontError::NoHeadTable),
        Err(FaceParsingError::NoHheaTable) => Err(FontError::NoHheaTable),
        Err(FaceParsingError::NoMaxpTable) => Err(FontError::NoMaxpTable),
    }
}

/// Opens the first face of the font in `data`.
pub fn open_face<'a>(data: &'a [u8]) -> (opened: Result<ttf_parser::Face<'a>, FontError>)
    ensures
        match opened {
            Ok(_) => face_refusal(data@, 0) is None,
            Err(error) => face_refusal(data@, 0) == Some(error),
        },
{
    face_from_slice(data, 0)
}

/// The character map of a face: the glyph of every character that it maps.
pub uninterp spec fn face_glyphs(face: ttf_parser::Face) -> Map<char, u16>;

/// The horizontal advances of a face: the advance of every glyph that has one.
pub uninterp spec fn face_advances(face: ttf_parser::Face) -> Map<u16, u16>;

/// The bounding boxes of a face: the box of every glyph that has an outline.
pub uninterp spec fn face_boxes(face: ttf_parser::Face) -> Map<u16, BoundingBox>;

/// What a table holds under a key, if anything.
pub open spec fn entry<K, V>(table: Map<K, V>, key: K) -> Option<V> {
    if table.contains_key(key) {
        Some(table[key])
    } else {
        None
    }
}

/// `ttf_parser::Face::glyph_index`: the glyph that the face's Unicode character
/// maps give for `c`, or `None` where they give none. The result depends on the
/// face and the character alone, which `face_glyphs` names.
#[verifier::external_body]
fn glyph_index(face: &ttf_parser::Face, c: char) -> (id: Option<u16>)
    ensures
        id == entry(face_glyphs(*face), c),
{
    face.glyph_index(c).map(|glyph| glyph.0)
}

/// `ttf_parser::Face::glyph_hor_advance`: the horizontal advance of the glyph
/// `id`, or `None` where the face has none for it. The result depends on the
/// face and the glyph alone, which `face_advances` names.
#[verifier::external_body]
fn glyph_hor_advance(face: &ttf_parser::Face, id: u16) -> (advance: Option<u16>)
    ensures
        advance == entry(face_advances(*face), id),
{
    face.glyph_hor_advance(ttf_parser::GlyphId(id))
}

/// `ttf_parser::Face::glyph_bounding_box`: the tight box around the outline of
/// the glyph `id`, or `None` where the glyph has no outline. The result depends
/// on the face and the glyph alone, which `face_boxes` names.
#[verifier::external_body]
fn glyph_bounding_box(face: &ttf_parser::Face, id: u16) -> (bounds: Option<BoundingBox>)
    ensures
        bounds == entry(face_boxes(*face), id),
{
    match face.glyph_bounding_box(ttf_parser::GlyphId(id)) {
        Some(rect) => Some(
            BoundingBox {
                x_min: rect.x_min,
                y_min: rect.y_min,
                x_max: rect.x_max,
                y_max: rect.y_max,
            },
        ),
        None => None,
    }
}

/// The glyphs of the characters of `line` that `glyphs` maps, in the order of
/// the characters. A character without a glyph leaves no trace.
pub open spec fn mapped_glyphs(glyphs: Map<char, u16>, line: Seq<char>) -> Seq<u16>
    decreases line.len(),
{
    if line.len() == 0 {
        Seq::empty()
    } else {
        let before = mapped_glyphs(glyphs, line.drop_last());
        match entry(glyphs, line.last()) {
            Some(id) => before.push(id),
            None => before,
        }
    }
}

/// A line none of whose characters has a glyph resolves to no glyph at all.
pub proof fn lemma_unmapped_line(glyphs: Map<char, u16>, line: Seq<char>)
    requires
        forall|i: int| 0 <= i < line.len() ==> !glyphs.contains_key(#[trigger] line[i]),
    ensures
        mapped_glyphs(glyphs, line).len() == 0,
    decreases line.len(),
{
    if line.len() > 0 {
        lemma_unmapped_line(glyphs, line.drop_last());
        assert(!glyphs.contains_key(line[line.len() - 1]));
    }
}

/// Resolves the characters of `line` to glyphs of `face`, dropping every
/// character that the face does not map.
pub fn line_glyphs(face: &ttf_parser::Face, line: &str) -> (ids: Vec<u16>)
    ensures
        ids@ == mapped_glyphs(face_glyphs(*face), line@),
{
    let mut ids: Vec<u16> = Vec::new();
    for c in chars: line.chars()
        invariant
            chars.seq() == line@,
            ids@ == mapped_glyphs(face_glyphs(*face), line@.take(chars.index())),
    {
        assert(line@.take(chars.index() + 1).drop_last() =~= line@.take(chars.index()));
        if let Some(id) = glyph_index(face, c) {
            ids.push(id);
        }
    }
    assert(line@.take(line@.len() as int) =~= line@);
    ids
}

/// The glyph `id` of `face` with the given outline: its advance, or 0 where
/// the face gives none, and its bounding box, if it has one.
pub open spec fn glyph_of(face: ttf_parser::Face, id: u16, outline: Option<Vec<DrawEvent>>) -> Glyph {
    Glyph {
        advance: match entry(face_advances(face), id) {
            Some(advance) => advance,
            None => 0,
        },
        bounds: entry(face_boxes(face), id),
        outline,
    }
}

/// Looks up what `face` says of the glyph `id`, and joins it with the glyph's
/// `outline`.
pub fn measure_glyph(face: &ttf_parser::Face, id: u16, outline: Option<Vec<DrawEvent>>) -> (glyph:
    Glyph)
    ensures
        glyph == glyph_of(*face, id, outline),
{
    let advance = match glyph_hor_advance(face, id) {
        Some(advance) => advance,
        None => 0,
    };
    Glyph { advance, bounds: glyph_bounding_box(face, id), outline }
}

} // verus!
