//! The line compositor: the glyphs of one line set side by side, each at the
//! sum of the advances before it, and the box that holds them all.

use vstd::prelude::*;
use crate::font::{
    face_glyphs, glyph_of, lemma_unmapped_line, line_glyphs, mapped_glyphs, measure_glyph,
};
use crate::outline::{path_text, render, DrawEvent};

verus! {

/// The smallest upright rectangle around a glyph's outline, in font units.
#[derive(Clone, Copy, Debug, PartialEq, Eq)]
pub struct BoundingBox {
    pub x_min: i16,
    pub y_min: i16,
    pub x_max: i16,
    pub y_max: i16,
}

impl BoundingBox {
    /// The box's height: how far its top lies above its bottom.
    pub open spec fn extent(self) -> int {
        self.y_max - self.y_min
    }

    /// The box's height.
    pub fn height(&self) -> (height: i32)
        ensures
            height == self.extent(),
    {
        self.y_max as i32 - self.y_min as i32
    }
}

/// What the font says of one glyph of a line.
#[derive(Clone, Debug, PartialEq, Eq)]
pub struct Glyph {
    /// The distance that the glyph reserves before the next one begins.
    pub advance: u16,
    /// The box around the glyph's outline, where the font gives one.
    pub bounds: Option<BoundingBox>,
    /// The glyph's outline; `None` for a glyph that draws nothing, such as a space.
    pub outline: Option<Vec<DrawEvent>>,
}

/// The rendered path of one glyph, and the offset that it was rendered at.
#[derive(Clone, Debug, PartialEq, Eq)]
pub struct GlyphPath {
    pub text: String,
    pub offset: u128,
}

/// A composed line: its paths from left to right, and its size.
#[derive(Clone, Debug, PartialEq, Eq)]
pub struct LineLayout {
    pub paths: Vec<GlyphPath>,
    pub width: u128,
    pub height: i32,
}

/// What a `GlyphPath` stands for.
pub struct PathView {
    pub text: Seq<char>,
    pub offset: nat,
}

/// What a `LineLayout` stands for.
pub struct LayoutView {
    pub paths: Seq<PathView>,
    pub width: nat,
    pub height: int,
}

impl View for GlyphPath {
    type V = PathView;

    open spec fn view(&self) -> PathView {
        PathView { text: self.text@, offset: self.offset as nat }
    }
}

/// The views of a run of paths, in order.
pub open spec fn path_views(paths: Seq<GlyphPath>) -> Seq<PathView> {
    paths.map_values(|path: GlyphPath| path@)
}

impl View for LineLayout {
    type V = LayoutView;

    open spec fn view(&self) -> LayoutView {
        LayoutView {
            paths: path_views(self.paths@),
            width: self.width as nat,
            height: self.height as int,
        }
    }
}

/// The sum of the advances of `glyphs`: the running offset behind the last of them.
pub open spec fn total_advance(glyphs: Seq<Glyph>) -> nat
    decreases glyphs.len(),
{
    if glyphs.len() == 0 {
        0
    } else {
        total_advance(glyphs.drop_last()) + glyphs.last().advance as nat
    }
}

/// The greatest height among the boxes of `glyphs`; `None` where no glyph has a box.
pub open spec fn tallest(glyphs: Seq<Glyph>) -> Option<int>
    decreases glyphs.len(),
{
    if glyphs.len() == 0 {
        None
    } else {
        let before = tallest(glyphs.drop_last());
        match (glyphs.last().bounds, before) {
            (None, _) => before,
            (Some(bounds), None) => Some(bounds.extent()),
            (Some(bounds), Some(height)) => Some(
                if height >= bounds.extent() {
                    height
                } else {
                    bounds.extent()
                },
            ),
        }
    }
}

/// The paths of `glyphs`: one for each glyph that has an outline, rendered at
/// the sum of the advances of all glyphs before it.
pub open spec fn line_paths(glyphs: Seq<Glyph>) -> Seq<PathView>
    decreases glyphs.len(),
{
    if glyphs.len() == 0 {
        Seq::empty()
    } else {
        let before = glyphs.drop_last();
        match glyphs.last().outline {
            Some(events) => line_paths(before).push(
                PathView {
                    text: path_text(events@, total_advance(before)),
                    offset: total_advance(before),
                },
            ),
            None => line_paths(before),
        }
    }
}

/// The layout of a line of `glyphs`: its paths, the sum of its advances as its
/// width, and its greatest box height, or 0 without any box, as its height.
pub open spec fn layout_of(glyphs: Seq<Glyph>) -> LayoutView {
    LayoutView {
        paths: line_paths(glyphs),
        width: total_advance(glyphs),
        height: match tallest(glyphs) {
            Some(height) => height,
            None => 0,
        },
    }
}

/// No advance is more than 65535, so the sum of `glyphs.len()` of them is bounded.
pub proof fn lemma_total_advance_bound(glyphs: Seq<Glyph>)
    ensures
        total_advance(glyphs) <= 65535 * glyphs.len(),
    decreases glyphs.len(),
{
    if glyphs.len() > 0 {
        lemma_total_advance_bound(glyphs.drop_last());
    }
}

/// The running offset in front of the glyph at `index`: the sum of the
/// advances of the glyphs before it.
pub open spec fn offset_before(glyphs: Seq<Glyph>, index: int) -> nat {
    total_advance(glyphs.take(index))
}

/// How many of the glyphs in front of `index` have a path: the place, among the
/// paths of the line, of the path of the glyph at `index`.
pub open spec fn paths_before(glyphs: Seq<Glyph>, index: int) -> int {
    line_paths(glyphs.take(index)).len() as int
}

/// The layout of no glyphs: no path, no width, no height.
pub open spec fn blank_layout() -> LayoutView {
    LayoutView { paths: Seq::empty(), width: 0, height: 0 }
}

/// The running offset starts at 0, and the width of a line is the running
/// offset behind its last glyph.
pub proof fn lemma_width_is_final_offset(glyphs: Seq<Glyph>)
    ensures
        offset_before(glyphs, 0) == 0,
        layout_of(glyphs).width == offset_before(glyphs, glyphs.len() as int),
{
    assert(glyphs.take(glyphs.len() as int) =~= glyphs);
}

/// Each glyph moves the running offset on by its advance.
pub proof fn lemma_offset_step(glyphs: Seq<Glyph>, index: int)
    requires
        0 <= index < glyphs.len(),
    ensures
        offset_before(glyphs, index + 1) == offset_before(glyphs, index) + glyphs[index].advance,
{
    assert(glyphs.take(index + 1).drop_last() =~= glyphs.take(index));
}

/// The running offset never decreases along the line.
pub proof fn lemma_offsets_never_decrease(glyphs: Seq<Glyph>, earlier: int, later: int)
    requires
        0 <= earlier <= later <= glyphs.len(),
    ensures
        offset_before(glyphs, earlier) <= offset_before(glyphs, later),
    decreases later - earlier,
{
    if earlier < later {
        lemma_offsets_never_decrease(glyphs, earlier, later - 1);
        lemma_offset_step(glyphs, later - 1);
    }
}

/// The paths of the first glyphs of a line are the first paths of the line.
pub proof fn lemma_paths_of_prefix(glyphs: Seq<Glyph>, index: int)
    requires
        0 <= index <= glyphs.len(),
    ensures
        paths_before(glyphs, index) <= line_paths(glyphs).len(),
        line_paths(glyphs.take(index)) == line_paths(glyphs).take(paths_before(glyphs, index)),
    decreases glyphs.len(),
{
    if index == glyphs.len() {
        assert(glyphs.take(index) =~= glyphs);
        assert(line_paths(glyphs).take(line_paths(glyphs).len() as int) =~= line_paths(glyphs));
    } else {
        let before = glyphs.drop_last();
        lemma_paths_of_prefix(before, index);
        assert(before.take(index) =~= glyphs.take(index));
        assert(line_paths(glyphs).take(paths_before(glyphs, index)) =~= line_paths(before).take(
            paths_before(glyphs, index),
        ));
    }
}

/// What one glyph adds to a line. With an outline it adds one path, behind the
/// paths of the glyphs before it: the outline rendered at the running offset
/// in front of the glyph, so before the glyph's own advance is added. Without
/// an outline it adds no path. Either way it adds its advance to the running
/// offset.
pub proof fn lemma_glyph_in_line(glyphs: Seq<Glyph>, index: int)
    requires
        0 <= index < glyphs.len(),
    ensures
        offset_before(glyphs, index + 1) == offset_before(glyphs, index) + glyphs[index].advance,
        match glyphs[index].outline {
            Some(events) => {
                &&& paths_before(glyphs, index + 1) == paths_before(glyphs, index) + 1
                &&& paths_before(glyphs, index) < line_paths(glyphs).len()
                &&& line_paths(glyphs)[paths_before(glyphs, index)] == PathView {
                    text: path_text(events@, offset_before(glyphs, index)),
                    offset: offset_before(glyphs, index),
                }
            },
            None => paths_before(glyphs, index + 1) == paths_before(glyphs, index),
        },
{
    lemma_offset_step(glyphs, index);
    lemma_paths_of_prefix(glyphs, index + 1);
    let upto = glyphs.take(index + 1);
    assert(upto.drop_last() =~= glyphs.take(index));
    assert(upto.last() == glyphs[index]);
    match glyphs[index].outline {
        Some(events) => {
            let path = PathView {
                text: path_text(events@, offset_before(glyphs, index)),
                offset: offset_before(glyphs, index),
            };
            assert(line_paths(upto) == line_paths(glyphs.take(index)).push(path));
            assert(line_paths(upto)[paths_before(glyphs, index)] == path);
            assert(line_paths(glyphs).take(paths_before(glyphs, index + 1))[paths_before(
                glyphs,
                index,
            )] == line_paths(glyphs)[paths_before(glyphs, index)]);
        },
        None => {
            assert(line_paths(upto) == line_paths(glyphs.take(index)));
        },
    }
}

/// The offsets of the paths of a line never decrease from left to right, and
/// none exceeds the width of the line.
pub proof fn lemma_path_offsets_ordered(glyphs: Seq<Glyph>, left: int, right: int)
    requires
        0 <= left <= right < line_paths(glyphs).len(),
    ensures
        line_paths(glyphs)[left].offset <= line_paths(glyphs)[right].offset <= layout_of(
            glyphs,
        ).width,
    decreases glyphs.len(),
{
    let before = glyphs.drop_last();
    if right < line_paths(before).len() {
        lemma_path_offsets_ordered(before, left, right);
    } else if left < right {
        lemma_path_offsets_ordered(before, left, left);
    }
}

/// The height of the box of a glyph, if it has one.
pub open spec fn box_height(glyph: Glyph) -> Option<int> {
    match glyph.bounds {
        Some(bounds) => Some(bounds.extent()),
        None => None,
    }
}

/// The height of a line is 0 where no glyph has a box. Else it is the height
/// of the box of one of its glyphs, and no box of the line is higher.
pub proof fn lemma_height_is_greatest(glyphs: Seq<Glyph>)
    ensures
        match tallest(glyphs) {
            None => {
                &&& layout_of(glyphs).height == 0
                &&& forall|i: int| 0 <= i < glyphs.len() ==> box_height(#[trigger] glyphs[i]) is None
            },
            Some(height) => {
                &&& layout_of(glyphs).height == height
                &&& exists|i: int|
                    0 <= i < glyphs.len() && box_height(#[trigger] glyphs[i]) == Some(height)
                &&& forall|i: int|
                    0 <= i < glyphs.len() && box_height(#[trigger] glyphs[i]) is Some
                        ==> box_height(glyphs[i])->0 <= height
            },
        },
    decreases glyphs.len(),
{
    if glyphs.len() > 0 {
        let before = glyphs.drop_last();
        let last = glyphs.len() - 1;
        lemma_height_is_greatest(before);
        assert(forall|i: int| 0 <= i < before.len() ==> before[i] == glyphs[i]);
        match tallest(glyphs) {
            None => {},
            Some(height) => {
                if box_height(glyphs[last]) == Some(height) {
                } else {
                    let i = choose|i: int|
                        0 <= i < before.len() && box_height(#[trigger] before[i]) == Some(height);
                    assert(box_height(glyphs[i]) == Some(height));
                }
            },
        }
    }
}

/// A line without glyphs has the blank layout.
pub proof fn lemma_no_glyphs_no_layout(glyphs: Seq<Glyph>)
    requires
        glyphs.len() == 0,
    ensures
        layout_of(glyphs) == blank_layout(),
{
}

/// Composes a line from its glyphs, in visual order.
pub fn compose_line(glyphs: &Vec<Glyph>) -> (layout: LineLayout)
    ensures
        layout@ == layout_of(glyphs@),
{
    let mut paths: Vec<GlyphPath> = Vec::new();
    let mut offset: u128 = 0;
    let mut height: Option<i32> = None;
    assert(path_views(paths@) =~= line_paths(glyphs@.take(0)));
    for i in 0..glyphs.len()
        invariant
            offset == total_advance(glyphs@.take(i as int)),
            path_views(paths@) == line_paths(glyphs@.take(i as int)),
            match height {
                Some(h) => tallest(glyphs@.take(i as int)) == Some(h as int),
                None => tallest(glyphs@.take(i as int)) is None,
            },
    {
        let glyph = &glyphs[i];
        proof {
            lemma_total_advance_bound(glyphs@.take(i as int));
            assert(glyphs@.take(i + 1).drop_last() =~= glyphs@.take(i as int));
        }
        if let Some(bounds) = &glyph.bounds {
            let extent = bounds.height();
            height = match height {
                Some(h) => Some(if h >= extent { h } else { extent }),
                None => Some(extent),
            };
        }
        if let Some(events) = &glyph.outline {
            let ghost before = paths@;
            let path = GlyphPath { text: render(events, offset), offset };
            paths.push(path);
            assert(path_views(paths@) =~= path_views(before).push(path@));
        }
        offset = offset + glyph.advance as u128;
    }
    assert(glyphs@.take(glyphs.len() as int) =~= glyphs@);
    LineLayout {
        paths,
        width: offset,
        height: match height {
            Some(h) => h,
            None => 0,
        },
    }
}

/// Whether `glyphs` are the glyphs of `line` in `face`: one for each character
/// that the face maps, in order, with what the face says of it and an outline
/// that `outline_of` gave for it.
pub open spec fn glyphs_of_line<F: Fn(u16) -> Option<Vec<DrawEvent>>>(
    face: ttf_parser::Face,
    line: Seq<char>,
    outline_of: F,
    glyphs: Seq<Glyph>,
) -> bool {
    let ids = mapped_glyphs(face_glyphs(face), line);
    &&& glyphs.len() == ids.len()
    &&& forall|i: int|
        0 <= i < ids.len() ==> {
            &&& #[trigger] glyphs[i] == glyph_of(face, ids[i], glyphs[i].outline)
            &&& call_ensures(outline_of, (ids[i],), glyphs[i].outline)
        }
}

/// Composes a line of text set in `face`. Each character that the face maps
/// becomes a glyph; `outline_of` is asked once for each glyph's outline, in
/// visual order, and answers `None` for a glyph that draws nothing.
pub fn compose_text<F: Fn(u16) -> Option<Vec<DrawEvent>>>(
    face: &ttf_parser::Face,
    line: &str,
    outline_of: F,
) -> (layout: LineLayout)
    requires
        forall|id: u16| call_requires(outline_of, (id,)),
    ensures
        exists|glyphs: Seq<Glyph>| #[trigger]
            glyphs_of_line(*face, line@, outline_of, glyphs) && layout@ == layout_of(glyphs),
{
    let ids = line_glyphs(face, line);
    let mut glyphs: Vec<Glyph> = Vec::new();
    for i in 0..ids.len()
        invariant
            ids@ == mapped_glyphs(face_glyphs(*face), line@),
            forall|id: u16| call_requires(outline_of, (id,)),
            glyphs.len() == i,
            forall|k: int|
                0 <= k < i ==> {
                    &&& #[trigger] glyphs[k] == glyph_of(*face, ids[k], glyphs[k].outline)
                    &&& call_ensures(outline_of, (ids[k],), glyphs[k].outline)
                },
    {
        let outline = outline_of(ids[i]);
        glyphs.push(measure_glyph(face, ids[i], outline));
    }
    let layout = compose_line(&glyphs);
    assert(glyphs_of_line(*face, line@, outline_of, glyphs@));
    layout
}

/// A line of which the face maps no character is laid out as nothing: no
/// path, width 0 and height 0, whatever the outlines of the face are.
pub proof fn lemma_unmapped_line_is_blank<F: Fn(u16) -> Option<Vec<DrawEvent>>>(
    face: ttf_parser::Face,
    line: Seq<char>,
    outline_of: F,
    glyphs: Seq<Glyph>,
)
    requires
        forall|i: int| 0 <= i < line.len() ==> !face_glyphs(face).contains_key(#[trigger] line[i]),
        glyphs_of_line(face, line, outline_of, glyphs),
    ensures
        layout_of(glyphs) == blank_layout(),
{
    lemma_unmapped_line(face_glyphs(face), line);
}

} // verus!
