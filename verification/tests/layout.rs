use text_to_svg::layout::{compose_line, BoundingBox, Glyph, GlyphPath, LineLayout};
use text_to_svg::outline::{render, DrawEvent};
use text_to_svg::scalar::Scalar;

fn boxed(height: i16) -> Option<BoundingBox> {
    Some(BoundingBox { x_min: 0, y_min: 0, x_max: 4, y_max: height })
}

fn stroke(top: i32) -> Vec<DrawEvent> {
    vec![
        DrawEvent::MoveTo { x: Scalar::from_units(1), y: Scalar::from_units(0) },
        DrawEvent::LineTo { x: Scalar::from_units(1), y: Scalar::from_units(top) },
        DrawEvent::Close,
    ]
}

fn drawn(advance: u16, height: i16) -> Glyph {
    Glyph { advance, bounds: boxed(height), outline: Some(stroke(height as i32)) }
}

fn blank(advance: u16) -> Glyph {
    Glyph { advance, bounds: None, outline: None }
}

#[test]
fn a_line_without_glyphs_is_blank() {
    let layout = compose_line(&Vec::new());
    assert_eq!(layout, LineLayout { paths: Vec::new(), width: 0, height: 0 });
}

#[test]
fn the_second_glyph_is_set_behind_the_advance_of_the_first() {
    let layout = compose_line(&vec![drawn(10, 8), drawn(5, 8)]);
    assert_eq!(layout.paths.len(), 2);
    assert_eq!(layout.paths[0].offset, 0);
    assert_eq!(layout.paths[1].offset, 10);
    assert_eq!(layout.paths[0].text, "M 1 -0 L 1 -8 Z ");
    assert_eq!(layout.paths[1].text, "M 11 -0 L 11 -8 Z ");
    assert_eq!(layout.width, 15);
}

#[test]
fn fox_is_twenty_wide_and_ten_high() {
    let f = drawn(5, 10);
    let o = drawn(8, 6);
    let x = drawn(7, 10);
    let layout = compose_line(&vec![f, o, x]);
    assert_eq!(layout.width, 20);
    assert_eq!(layout.height, 10);
    assert_eq!(
        layout.paths,
        vec![
            GlyphPath { text: "M 1 -0 L 1 -10 Z ".to_string(), offset: 0 },
            GlyphPath { text: "M 6 -0 L 6 -6 Z ".to_string(), offset: 5 },
            GlyphPath { text: "M 14 -0 L 14 -10 Z ".to_string(), offset: 13 },
        ]
    );
}

#[test]
fn the_width_is_the_sum_of_the_advances() {
    let advances = [0u16, 1, 65535, 12, 700, 65535];
    let glyphs: Vec<Glyph> = advances.iter().map(|advance| drawn(*advance, 3)).collect();
    let layout = compose_line(&glyphs);
    let mut running: u128 = 0;
    for (glyph, path) in glyphs.iter().zip(layout.paths.iter()) {
        assert_eq!(path.offset, running);
        running += glyph.advance as u128;
    }
    assert_eq!(layout.width, running);
    assert_eq!(layout.width, 131783);
}

#[test]
fn offsets_never_decrease_and_end_at_the_width() {
    let glyphs = vec![drawn(3, 1), blank(0), drawn(0, 1), drawn(9, 1), blank(4), drawn(2, 1)];
    let layout = compose_line(&glyphs);
    let offsets: Vec<u128> = layout.paths.iter().map(|path| path.offset).collect();
    assert_eq!(offsets, vec![0, 3, 3, 16]);
    assert!(offsets.windows(2).all(|pair| pair[0] <= pair[1]));
    assert!(offsets.iter().all(|offset| *offset <= layout.width));
    assert_eq!(layout.width, 18);
}

#[test]
fn a_glyph_without_outline_adds_its_advance_but_no_path() {
    let layout = compose_line(&vec![drawn(10, 2), blank(4), drawn(6, 2)]);
    assert_eq!(layout.paths.len(), 2);
    assert_eq!(layout.paths[1].offset, 14);
    assert_eq!(layout.paths[1].text, "M 15 -0 L 15 -2 Z ");
    assert_eq!(layout.width, 20);
}

#[test]
fn a_line_of_spaces_has_width_but_no_path_and_no_height() {
    let layout = compose_line(&vec![blank(250), blank(250), blank(250)]);
    assert_eq!(layout, LineLayout { paths: Vec::new(), width: 750, height: 0 });
}

#[test]
fn an_outline_without_events_is_an_empty_path() {
    let empty = Glyph { advance: 3, bounds: None, outline: Some(Vec::new()) };
    let layout = compose_line(&vec![drawn(2, 1), empty]);
    assert_eq!(layout.paths.len(), 2);
    assert_eq!(layout.paths[1], GlyphPath { text: String::new(), offset: 2 });
    assert_eq!(layout.width, 5);
}

#[test]
fn each_path_is_the_outline_rendered_at_its_offset() {
    let glyphs = vec![drawn(11, 5), blank(3), drawn(8, 7)];
    let layout = compose_line(&glyphs);
    assert_eq!(layout.paths[0].text, render(&stroke(5), 0));
    assert_eq!(layout.paths[1].text, render(&stroke(7), 14));
}

#[test]
fn the_height_is_that_of_the_highest_box() {
    let boxes = vec![
        Glyph { advance: 1, bounds: boxed(3), outline: None },
        Glyph { advance: 1, bounds: None, outline: Some(stroke(50)) },
        Glyph { advance: 1, bounds: boxed(12), outline: None },
        Glyph { advance: 1, bounds: boxed(7), outline: None },
    ];
    assert_eq!(compose_line(&boxes).height, 12);
}

#[test]
fn the_height_is_zero_without_any_box() {
    let glyphs = vec![Glyph { advance: 9, bounds: None, outline: Some(stroke(40)) }];
    assert_eq!(compose_line(&glyphs).height, 0);
}

#[test]
fn a_height_is_the_distance_from_bottom_to_top() {
    let descender = BoundingBox { x_min: -3, y_min: -200, x_max: 9, y_max: 500 };
    assert_eq!(descender.height(), 700);
    let widest = BoundingBox { x_min: 0, y_min: i16::MIN, x_max: 0, y_max: i16::MAX };
    assert_eq!(widest.height(), 65535);
    let upside_down = BoundingBox { x_min: 0, y_min: i16::MAX, x_max: 0, y_max: i16::MIN };
    assert_eq!(upside_down.height(), -65535);
    let flat = BoundingBox { x_min: 0, y_min: 5, x_max: 9, y_max: 5 };
    assert_eq!(flat.height(), 0);
}

#[test]
fn a_single_box_gives_the_height_even_below_zero() {
    let upside_down = BoundingBox { x_min: 0, y_min: 10, x_max: 0, y_max: 4 };
    let glyphs = vec![Glyph { advance: 1, bounds: Some(upside_down), outline: None }];
    assert_eq!(compose_line(&glyphs).height, -6);
}

#[test]
fn a_long_line_is_wider_than_sixteen_bits() {
    let glyphs: Vec<Glyph> = (0..200).map(|_| blank(1000)).collect();
    assert_eq!(compose_line(&glyphs).width, 200_000);
}
