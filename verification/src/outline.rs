//! The outline visitor: the drawing events of one glyph, written as a path
//! description. Every point is moved right by the glyph's offset and mirrored
//! from the font's upward y axis to the downward one of the output.

use vstd::prelude::*;
use vstd::string::*;
use crate::scalar::{fixed_text, is_number_char, lemma_fixed_text_chars, push_fixed, Scalar};

verus! {

/// The largest horizontal offset that a path is rendered at.
pub const MAX_OFFSET: u128 = 0xFFFF_FFFF_FFFF_FFFF_FFFF_FFFF;

/// One step of a glyph's outline, in font units with the y axis pointing up.
#[derive(Clone, Copy, Debug, PartialEq, Eq)]
pub enum DrawEvent {
    /// Starts a contour at a point.
    MoveTo { x: Scalar, y: Scalar },
    /// A straight line to a point.
    LineTo { x: Scalar, y: Scalar },
    /// A quadratic curve to a point, bent towards one control point.
    QuadTo { cx: Scalar, cy: Scalar, x: Scalar, y: Scalar },
    /// A cubic curve to a point, bent towards two control points.
    CubicTo { c1x: Scalar, c1y: Scalar, c2x: Scalar, c2y: Scalar, x: Scalar, y: Scalar },
    /// Ends a contour.
    Close,
}

/// The text of the horizontal coordinate `x` moved right by `offset` font
/// units. A sum of zero is written without a sign.
pub open spec fn shifted_text(x: Scalar, offset: nat) -> Seq<char> {
    let steps = x.steps() + offset * 65536;
    if steps < 0 {
        fixed_text(true, (-steps) as nat)
    } else {
        fixed_text(false, steps as nat)
    }
}

/// The text of the vertical coordinate `y` mirrored at the baseline: the same
/// magnitude with the other sign, so that a zero on the baseline is written `-0`.
pub open spec fn mirrored_text(y: Scalar) -> Seq<char> {
    fixed_text(!y.negative, y.magnitude as nat)
}

/// The two coordinates of a point in the output, each followed by a space.
pub open spec fn point_text(x: Scalar, y: Scalar, offset: nat) -> Seq<char> {
    shifted_text(x, offset) + seq![' '] + mirrored_text(y) + seq![' ']
}

/// The path command of one event: its letter, a space, and its points in
/// order, control points first.
pub open spec fn command_text(event: DrawEvent, offset: nat) -> Seq<char> {
    match event {
        DrawEvent::MoveTo { x, y } => seq!['M', ' '] + point_text(x, y, offset),
        DrawEvent::LineTo { x, y } => seq!['L', ' '] + point_text(x, y, offset),
        DrawEvent::QuadTo { cx, cy, x, y } => seq!['Q', ' '] + point_text(cx, cy, offset)
            + point_text(x, y, offset),
        DrawEvent::CubicTo { c1x, c1y, c2x, c2y, x, y } => seq!['C', ' '] + point_text(
            c1x,
            c1y,
            offset,
        ) + point_text(c2x, c2y, offset) + point_text(x, y, offset),
        DrawEvent::Close => seq!['Z', ' '],
    }
}

/// The path description of an outline: the commands of its events, in order.
pub open spec fn path_text(events: Seq<DrawEvent>, offset: nat) -> Seq<char>
    decreases events.len(),
{
    if events.len() == 0 {
        Seq::empty()
    } else {
        path_text(events.drop_last(), offset) + command_text(events.last(), offset)
    }
}

/// Appends a space to `text`.
fn push_space(text: &mut String)
    ensures
        final(text)@ == old(text)@.push(' '),
{
    proof {
        reveal_strlit(" ");
    }
    text.append(" ");
}

/// Appends a command letter and the space behind it to `text`.
fn push_letter(text: &mut String, letter: &str)
    requires
        letter@.len() == 1,
    ensures
        final(text)@ == old(text)@ + seq![letter@[0], ' '],
{
    text.append(letter);
    push_space(text);
}

/// Appends the output coordinates of the point (`x`, `y`) to `text`.
fn push_point(text: &mut String, x: Scalar, y: Scalar, offset: u128)
    requires
        offset <= MAX_OFFSET,
    ensures
        final(text)@ == old(text)@ + point_text(x, y, offset as nat),
{
    let shift: u128 = offset * 65536;
    let distance: u128 = x.magnitude as u128;
    if !x.negative {
        push_fixed(text, false, shift + distance);
    } else if distance > shift {
        push_fixed(text, true, distance - shift);
    } else {
        push_fixed(text, false, shift - distance);
    }
    push_space(text);
    let mirrored = y.flipped();
    push_fixed(text, mirrored.negative, mirrored.magnitude as u128);
    push_space(text);
}

/// The visitor of one glyph's outline: the path description so far, and the
/// offset that the glyph is set at.
pub struct Builder {
    /// The commands of the events seen so far.
    pub buffer: String,
    /// The glyph's distance from the start of the line, in font units.
    pub offset: u128,
}

impl Builder {
    /// A visitor that has seen no event.
    pub fn new(offset: u128) -> (builder: Builder)
        ensures
            builder.buffer@ == Seq::<char>::empty(),
            builder.offset == offset,
    {
        Builder { buffer: String::new(), offset }
    }

    /// Starts a contour: `M`, then the point.
    pub fn move_to(&mut self, x: Scalar, y: Scalar)
        requires
            old(self).offset <= MAX_OFFSET,
        ensures
            final(self).offset == old(self).offset,
            final(self).buffer@ == old(self).buffer@ + command_text(
                DrawEvent::MoveTo { x, y },
                old(self).offset as nat,
            ),
    {
        proof {
            reveal_strlit("M");
        }
        push_letter(&mut self.buffer, "M");
        push_point(&mut self.buffer, x, y, self.offset);
    }

    /// Draws a line: `L`, then the end point.
    pub fn line_to(&mut self, x: Scalar, y: Scalar)
        requires
            old(self).offset <= MAX_OFFSET,
        ensures
            final(self).offset == old(self).offset,
            final(self).buffer@ == old(self).buffer@ + command_text(
                DrawEvent::LineTo { x, y },
                old(self).offset as nat,
            ),
    {
        proof {
            reveal_strlit("L");
        }
        push_letter(&mut self.buffer, "L");
        push_point(&mut self.buffer, x, y, self.offset);
    }

    /// Draws a quadratic curve: `Q`, the control point, then the end point.
    pub fn quad_to(&mut self, x1: Scalar, y1: Scalar, x: Scalar, y: Scalar)
        requires
            old(self).offset <= MAX_OFFSET,
        ensures
            final(self).offset == old(self).offset,
            final(self).buffer@ == old(self).buffer@ + command_text(
                DrawEvent::QuadTo { cx: x1, cy: y1, x, y },
                old(self).offset as nat,
            ),
    {
        proof {
            reveal_strlit("Q");
        }
        push_letter(&mut self.buffer, "Q");
        push_point(&mut self.buffer, x1, y1, self.offset);
        push_point(&mut self.buffer, x, y, self.offset);
    }

    /// Draws a cubic curve: `C`, the two control points, then the end point.
    pub fn curve_to(&mut self, x1: Scalar, y1: Scalar, x2: Scalar, y2: Scalar, x: Scalar, y: Scalar)
        requires
            old(self).offset <= MAX_OFFSET,
        ensures
            final(self).offset == old(self).offset,
            final(self).buffer@ == old(self).buffer@ + command_text(
                DrawEvent::CubicTo { c1x: x1, c1y: y1, c2x: x2, c2y: y2, x, y },
                old(self).offset as nat,
            ),
    {
        proof {
            reveal_strlit("C");
        }
        push_letter(&mut self.buffer, "C");
        push_point(&mut self.buffer, x1, y1, self.offset);
        push_point(&mut self.buffer, x2, y2, self.offset);
        push_point(&mut self.buffer, x, y, self.offset);
    }

    /// Ends a contour: `Z`, with no coordinates, whatever came before.
    pub fn close(&mut self)
        ensures
            final(self).offset == old(self).offset,
            final(self).buffer@ == old(self).buffer@ + seq!['Z', ' '],
    {
        proof {
            reveal_strlit("Z");
        }
        push_letter(&mut self.buffer, "Z");
    }

    /// Hands one event to the method that is named after it.
    pub fn feed(&mut self, event: DrawEvent)
        requires
            old(self).offset <= MAX_OFFSET,
        ensures
            final(self).offset == old(self).offset,
            final(self).buffer@ == old(self).buffer@ + command_text(event, old(self).offset as nat),
    {
        match event {
            DrawEvent::MoveTo { x, y } => self.move_to(x, y),
            DrawEvent::LineTo { x, y } => self.line_to(x, y),
            DrawEvent::QuadTo { cx, cy, x, y } => self.quad_to(cx, cy, x, y),
            DrawEvent::CubicTo { c1x, c1y, c2x, c2y, x, y } => self.curve_to(c1x, c1y, c2x, c2y, x, y),
            DrawEvent::Close => self.close(),
        }
    }
}

/// Renders the outline `events` of a glyph set at `offset`: the empty text for
/// an outline without events.
pub fn render(events: &Vec<DrawEvent>, offset: u128) -> (path: String)
    requires
        offset <= MAX_OFFSET,
    ensures
        path@ == path_text(events@, offset as nat),
{
    let mut builder = Builder::new(offset);
    for i in 0..events.len()
        invariant
            builder.offset == offset,
            offset <= MAX_OFFSET,
            builder.buffer@ == path_text(events@.take(i as int), offset as nat),
    {
        builder.feed(events[i]);
        assert(events@.take(i + 1).drop_last() =~= events@.take(i as int));
    }
    assert(events@.take(events.len() as int) =~= events@);
    builder.buffer
}

/// The path of two runs of events, one after the other, is the path of the
/// first followed by the path of the second.
pub proof fn lemma_path_of_joined(first: Seq<DrawEvent>, second: Seq<DrawEvent>, offset: nat)
    ensures
        path_text(first + second, offset) == path_text(first, offset) + path_text(second, offset),
    decreases second.len(),
{
    if second.len() == 0 {
        assert(first + second =~= first);
        assert(path_text(first, offset) + path_text(second, offset) =~= path_text(first, offset));
    } else {
        lemma_path_of_joined(first, second.drop_last(), offset);
        assert((first + second).drop_last() =~= first + second.drop_last());
        assert((first + second).last() == second.last());
        assert(path_text(first + second, offset) =~= path_text(first, offset) + path_text(
            second,
            offset,
        ));
    }
}

/// An outline that begins with a move to (`x`, `y`) is rendered as a text that
/// begins with exactly `M`, `x` moved right by the offset and `y` mirrored, a
/// space behind each; the rest of the outline follows.
pub proof fn lemma_first_command(events: Seq<DrawEvent>, offset: nat, x: Scalar, y: Scalar)
    requires
        events.len() > 0,
        events[0] == (DrawEvent::MoveTo { x, y }),
    ensures
        path_text(events, offset) == seq!['M', ' '] + shifted_text(x, offset) + seq![' ']
            + mirrored_text(y) + seq![' '] + path_text(events.drop_first(), offset),
{
    let head = seq![events[0]];
    assert(events =~= head + events.drop_first());
    lemma_path_of_joined(head, events.drop_first(), offset);
    assert(head.drop_last().len() == 0);
    assert(path_text(head.drop_last(), offset) =~= Seq::<char>::empty());
    assert(path_text(head, offset) =~= command_text(events[0], offset));
    assert(command_text(events[0], offset) =~= seq!['M', ' '] + shifted_text(x, offset) + seq![' ']
        + mirrored_text(y) + seq![' ']);
}

/// A close adds `Z` and a space to the path, and no coordinate, whatever the
/// events before it are: also where no contour was begun.
pub proof fn lemma_close_adds_z(events: Seq<DrawEvent>, offset: nat)
    ensures
        path_text(events.push(DrawEvent::Close), offset) == path_text(events, offset) + seq![
            'Z',
            ' ',
        ],
{
    assert(events.push(DrawEvent::Close).drop_last() =~= events);
}

/// Whether `c` can stand in a path description: a command letter, a space, or
/// a character of a number.
pub open spec fn is_path_char(c: char) -> bool {
    c == 'M' || c == 'L' || c == 'Q' || c == 'C' || c == 'Z' || c == ' ' || is_number_char(c)
}

/// Whether `text` holds nothing but what can stand in a path description.
pub open spec fn is_plain(text: Seq<char>) -> bool {
    forall|i: int| 0 <= i < text.len() ==> is_path_char(#[trigger] text[i])
}

/// The coordinates of a point are written with plain characters.
proof fn lemma_point_is_plain(x: Scalar, y: Scalar, offset: nat)
    ensures
        is_plain(point_text(x, y, offset)),
{
    let steps = x.steps() + offset * 65536;
    let shifted = shifted_text(x, offset);
    let mirrored = mirrored_text(y);
    if steps < 0 {
        lemma_fixed_text_chars(true, (-steps) as nat);
    } else {
        lemma_fixed_text_chars(false, steps as nat);
    }
    lemma_fixed_text_chars(!y.negative, y.magnitude as nat);
    assert forall|i: int| 0 <= i < point_text(x, y, offset).len() implies is_path_char(
        #[trigger] point_text(x, y, offset)[i],
    ) by {
        let c = point_text(x, y, offset)[i];
        if i < shifted.len() {
            assert(c == shifted[i]);
        } else if i == shifted.len() {
            assert(c == ' ');
        } else if i < shifted.len() + 1 + mirrored.len() {
            assert(c == mirrored[i - shifted.len() - 1]);
        } else {
            assert(c == ' ');
        }
    }
}

/// Plain texts in a row make a plain text.
proof fn lemma_plain_joined(front: Seq<char>, back: Seq<char>)
    requires
        is_plain(front),
        is_plain(back),
    ensures
        is_plain(front + back),
{
    assert forall|i: int| 0 <= i < (front + back).len() implies is_path_char(
        #[trigger] (front + back)[i],
    ) by {
        if i < front.len() {
            assert((front + back)[i] == front[i]);
        } else {
            assert((front + back)[i] == back[i - front.len()]);
        }
    }
}

/// A path description holds nothing but command letters, spaces, digits,
/// minus signs and points: no quote, and nothing else that a document would
/// have to write otherwise than it stands.
pub proof fn lemma_path_is_plain(events: Seq<DrawEvent>, offset: nat)
    ensures
        is_plain(path_text(events, offset)),
    decreases events.len(),
{
    if events.len() > 0 {
        lemma_path_is_plain(events.drop_last(), offset);
        let command = command_text(events.last(), offset);
        match events.last() {
            DrawEvent::MoveTo { x, y } => {
                lemma_point_is_plain(x, y, offset);
                lemma_plain_joined(seq!['M', ' '], point_text(x, y, offset));
            },
            DrawEvent::LineTo { x, y } => {
                lemma_point_is_plain(x, y, offset);
                lemma_plain_joined(seq!['L', ' '], point_text(x, y, offset));
            },
            DrawEvent::QuadTo { cx, cy, x, y } => {
                lemma_point_is_plain(cx, cy, offset);
                lemma_point_is_plain(x, y, offset);
                lemma_plain_joined(seq!['Q', ' '], point_text(cx, cy, offset));
                lemma_plain_joined(
                    seq!['Q', ' '] + point_text(cx, cy, offset),
                    point_text(x, y, offset),
                );
            },
            DrawEvent::CubicTo { c1x, c1y, c2x, c2y, x, y } => {
                lemma_point_is_plain(c1x, c1y, offset);
                lemma_point_is_plain(c2x, c2y, offset);
                lemma_point_is_plain(x, y, offset);
                lemma_plain_joined(seq!['C', ' '], point_text(c1x, c1y, offset));
                lemma_plain_joined(
                    seq!['C', ' '] + point_text(c1x, c1y, offset),
                    point_text(c2x, c2y, offset),
                );
                lemma_plain_joined(
                    seq!['C', ' '] + point_text(c1x, c1y, offset) + point_text(c2x, c2y, offset),
                    point_text(x, y, offset),
                );
            },
            DrawEvent::Close => {},
        }
        lemma_plain_joined(path_text(events.drop_last(), offset), command);
    }
}

/// Rendering is a function of the events and the offset: any two texts that
/// `render` can give for the same events at the same offset are the same,
/// character for character.
pub proof fn lemma_render_is_deterministic(
    events: Seq<DrawEvent>,
    offset: nat,
    first: Seq<char>,
    second: Seq<char>,
)
    requires
        first == path_text(events, offset),
        second == path_text(events, offset),
    ensures
        first == second,
{
}

} // verus!
