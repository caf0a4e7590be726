//! The document emitter: a composed line as one SVG document, a root element
//! with the line's size and one `path` child for each glyph path.
//!
//! The text is written by an `xmlwriter::XmlWriter`. This module proves which
//! elements and attributes the writer is given, and in which order; how the
//! writer spells them is the writer's business.

use vstd::prelude::*;
use crate::decimal::{integer_text, natural_text, push_integer, push_natural};
use crate::layout::{LayoutView, LineLayout, PathView};

verus! {

/// `xmlwriter::XmlWriter`: a document in the writing. The proofs see nothing
/// inside it.
#[verifier::external_type_specification]
#[verifier::external_body]
pub struct ExXmlWriter(xmlwriter::XmlWriter);

/// One thing that a writer was asked to write.
pub enum XmlEvent {
    /// The start of an element of the given name.
    Start(Seq<char>),
    /// An attribute, by name and value, of the element that was started last.
    Attribute(Seq<char>, Seq<char>),
    /// The end of the innermost element that is still open.
    End,
}

/// The writing so far: everything that a writer was asked to write since it
/// was made, in order.
pub uninterp spec fn xml_events(writer: xmlwriter::XmlWriter) -> Seq<XmlEvent>;

/// The text of the document that a writer makes of `events`, with single
/// quotes round attribute values and four spaces of indentation.
pub uninterp spec fn xml_text(events: Seq<XmlEvent>) -> Seq<char>;

/// Whether a writer that has written `events` is inside a start tag, where an
/// attribute can follow.
pub open spec fn in_start_tag(events: Seq<XmlEvent>) -> bool {
    events.len() > 0 && !(events.last() is End)
}

/// `xmlwriter::XmlWriter::new`, with the default options but for single quotes:
/// a writer that has written nothing.
#[verifier::external_body]
fn new_writer() -> (writer: xmlwriter::XmlWriter)
    ensures
        xml_events(writer) == Seq::<XmlEvent>::empty(),
{
    xmlwriter::XmlWriter::new(
        xmlwriter::Options { use_single_quote: true, ..xmlwriter::Options::default() },
    )
}

/// `xmlwriter::XmlWriter::start_element`: starts an element inside the
/// innermost open one, after closing the start tag that the writer is in.
#[verifier::external_body]
fn start_element(writer: &mut xmlwriter::XmlWriter, name: &str)
    ensures
        xml_events(*final(writer)) == xml_events(*old(writer)).push(XmlEvent::Start(name@)),
{
    writer.start_element(name)
}

/// `xmlwriter::XmlWriter::write_attribute`: adds an attribute to the start tag
/// that the writer is in. Outside a start tag the method panics.
#[verifier::external_body]
fn write_attribute(writer: &mut xmlwriter::XmlWriter, name: &str, value: &str)
    requires
        in_start_tag(xml_events(*old(writer))),
    ensures
        xml_events(*final(writer)) == xml_events(*old(writer)).push(
            XmlEvent::Attribute(name@, value@),
        ),
{
    writer.write_attribute(name, value)
}

/// `xmlwriter::XmlWriter::end_element`: closes the innermost open element.
#[verifier::external_body]
fn end_element(writer: &mut xmlwriter::XmlWriter)
    ensures
        xml_events(*final(writer)) == xml_events(*old(writer)).push(XmlEvent::End),
{
    writer.end_element()
}

/// `xmlwriter::XmlWriter::end_document`: closes what is still open and hands
/// out the text. The text depends on what was written alone, which `xml_text`
/// names.
#[verifier::external_body]
fn end_document(writer: xmlwriter::XmlWriter) -> (text: String)
    ensures
        text@ == xml_text(xml_events(writer)),
{
    writer.end_document()
}

/// One line as a document: its size and its paths, in visual order.
#[derive(Clone, Debug, PartialEq, Eq)]
pub struct OutputDocument {
    pub width: u128,
    pub height: i32,
    pub paths: Vec<String>,
}

/// What an `OutputDocument` stands for.
pub struct DocumentView {
    pub width: nat,
    pub height: int,
    pub paths: Seq<Seq<char>>,
}

/// The texts of a run of strings, in order.
pub open spec fn texts(strings: Seq<String>) -> Seq<Seq<char>> {
    strings.map_values(|string: String| string@)
}

impl View for OutputDocument {
    type V = DocumentView;

    open spec fn view(&self) -> DocumentView {
        DocumentView {
            width: self.width as nat,
            height: self.height as int,
            paths: texts(self.paths@),
        }
    }
}

/// The document of a layout: the same size, and the text of each path; the
/// offsets are part of the texts already.
pub open spec fn document_of(layout: LayoutView) -> DocumentView {
    DocumentView {
        width: layout.width,
        height: layout.height,
        paths: layout.paths.map_values(|path: PathView| path.text),
    }
}

/// The children of the root element: for each path one `path` element whose
/// only attribute, `d`, is the path description.
pub open spec fn path_events(paths: Seq<Seq<char>>) -> Seq<XmlEvent>
    decreases paths.len(),
{
    if paths.len() == 0 {
        Seq::empty()
    } else {
        path_events(paths.drop_last()) + seq![
            XmlEvent::Start("path"@),
            XmlEvent::Attribute("d"@, paths.last()),
            XmlEvent::End,
        ]
    }
}

/// All that is written for a document: the root element `svg` with its
/// namespace, `width` and `height`, then the paths, then the root's end.
pub open spec fn document_events(document: DocumentView) -> Seq<XmlEvent> {
    seq![
        XmlEvent::Start("svg"@),
        XmlEvent::Attribute("xmlns"@, "http://www.w3.org/2000/svg"@),
        XmlEvent::Attribute("width"@, natural_text(document.width)),
        XmlEvent::Attribute("height"@, integer_text(document.height)),
    ] + path_events(document.paths) + seq![XmlEvent::End]
}

/// Wraps a composed line into a document.
pub fn emit(layout: LineLayout) -> (document: OutputDocument)
    ensures
        document@ == document_of(layout@),
{
    let width = layout.width;
    let height = layout.height;
    let ghost given = layout.paths@;
    let mut paths: Vec<String> = Vec::new();
    for path in each: layout.paths
        invariant
            each.seq() == given,
            texts(paths@) == document_of(layout@).paths.take(each.index()),
    {
        let ghost before = paths@;
        paths.push(path.text);
        assert(texts(paths@) =~= texts(before).push(path.text@));
        assert(document_of(layout@).paths.take(each.index() + 1) =~= document_of(
            layout@,
        ).paths.take(each.index()).push(path.text@));
    }
    assert(document_of(layout@).paths.take(given.len() as int) =~= document_of(layout@).paths);
    OutputDocument { width, height, paths }
}

impl OutputDocument {
    /// The document as SVG text.
    pub fn to_svg(&self) -> (text: String)
        ensures
            text@ == xml_text(document_events(self@)),
    {
        let mut writer = new_writer();
        start_element(&mut writer, "svg");
        write_attribute(&mut writer, "xmlns", "http://www.w3.org/2000/svg");
        let mut width = String::new();
        push_natural(&mut width, self.width);
        write_attribute(&mut writer, "width", width.as_str());
        let mut height = String::new();
        push_integer(&mut height, self.height as i64);
        write_attribute(&mut writer, "height", height.as_str());
        let ghost head = xml_events(writer);
        assert(head =~= seq![
            XmlEvent::Start("svg"@),
            XmlEvent::Attribute("xmlns"@, "http://www.w3.org/2000/svg"@),
            XmlEvent::Attribute("width"@, natural_text(self.width as nat)),
            XmlEvent::Attribute("height"@, integer_text(self.height as int)),
        ]);
        for i in 0..self.paths.len()
            invariant
                xml_events(writer) == head + path_events(texts(self.paths@).take(i as int)),
        {
            start_element(&mut writer, "path");
            write_attribute(&mut writer, "d", self.paths[i].as_str());
            end_element(&mut writer);
            assert(texts(self.paths@).take(i + 1).drop_last() =~= texts(self.paths@).take(i as int));
        }
        assert(texts(self.paths@).take(self.paths.len() as int) =~= texts(self.paths@));
        end_element(&mut writer);
        assert(xml_events(writer) =~= document_events(self@));
        end_document(writer)
    }
}

} // verus!
