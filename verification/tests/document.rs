use text_to_svg::document::{emit, OutputDocument};
use text_to_svg::layout::{compose_line, BoundingBox, Glyph, GlyphPath, LineLayout};
use text_to_svg::outline::DrawEvent;
use text_to_svg::scalar::Scalar;

fn path(text: &str, offset: u128) -> GlyphPath {
    GlyphPath { text: text.to_string(), offset }
}

#[test]
fn the_document_keeps_size_and_paths() {
    let layout = LineLayout {
        paths: vec![path("M 0 -0 Z ", 0), path("M 5 -0 Z ", 5)],
        width: 13,
        height: 10,
    };
    let document = emit(layout);
    assert_eq!(
        document,
        OutputDocument {
            width: 13,
            height: 10,
            paths: vec!["M 0 -0 Z ".to_string(), "M 5 -0 Z ".to_string()],
        }
    );
}

#[test]
fn a_blank_line_is_a_root_without_children() {
    let document = emit(LineLayout { paths: Vec::new(), width: 0, height: 0 });
    assert_eq!(document.paths.len(), 0);
    assert_eq!(
        document.to_svg(),
        "<svg xmlns='http://www.w3.org/2000/svg' width='0' height='0'/>\n"
    );
}

#[test]
fn each_path_is_a_child_with_one_attribute() {
    let document = OutputDocument {
        width: 20,
        height: 10,
        paths: vec![
            "M 1 -0 L 1 -10 Z ".to_string(),
            "M 6 -0 L 6 -6 Z ".to_string(),
            "M 14 -0 L 14 -10 Z ".to_string(),
        ],
    };
    assert_eq!(
        document.to_svg(),
        "<svg xmlns='http://www.w3.org/2000/svg' width='20' height='10'>\n    \
         <path d='M 1 -0 L 1 -10 Z '/>\n    \
         <path d='M 6 -0 L 6 -6 Z '/>\n    \
         <path d='M 14 -0 L 14 -10 Z '/>\n\
         </svg>\n"
    );
}

#[test]
fn fox_becomes_a_document_of_three_paths() {
    let stroke = |top: i32| {
        vec![
            DrawEvent::MoveTo { x: Scalar::from_units(0), y: Scalar::from_units(0) },
            DrawEvent::LineTo { x: Scalar::from_units(0), y: Scalar::from_units(top) },
        ]
    };
    let glyph = |advance: u16, height: i16| Glyph {
        advance,
        bounds: Some(BoundingBox { x_min: 0, y_min: 0, x_max: 1, y_max: height }),
        outline: Some(stroke(height as i32)),
    };
    let layout = compose_line(&vec![glyph(5, 10), glyph(8, 6), glyph(7, 10)]);
    assert_eq!(layout.paths[1].offset, 5);
    assert_eq!(layout.paths[2].offset, 13);
    let document = emit(layout);
    assert_eq!(document.width, 20);
    assert_eq!(document.height, 10);
    assert_eq!(document.paths, vec!["M 0 -0 L 0 -10 ", "M 5 -0 L 5 -6 ", "M 13 -0 L 13 -10 "]);
    let text = document.to_svg();
    assert_eq!(text.matches("<path ").count(), 3);
    assert_eq!(
        text,
        "<svg xmlns='http://www.w3.org/2000/svg' width='20' height='10'>\n    \
         <path d='M 0 -0 L 0 -10 '/>\n    \
         <path d='M 5 -0 L 5 -6 '/>\n    \
         <path d='M 13 -0 L 13 -10 '/>\n\
         </svg>\n"
    );
}

#[test]
fn an_empty_path_is_still_a_child() {
    let document = OutputDocument { width: 3, height: 0, paths: vec![String::new()] };
    assert_eq!(
        document.to_svg(),
        "<svg xmlns='http://www.w3.org/2000/svg' width='3' height='0'>\n    <path d=''/>\n</svg>\n"
    );
}

#[test]
fn a_negative_height_is_written_with_its_sign() {
    let document = OutputDocument { width: 131070, height: -6, paths: Vec::new() };
    assert_eq!(
        document.to_svg(),
        "<svg xmlns='http://www.w3.org/2000/svg' width='131070' height='-6'/>\n"
    );
}

#[test]
fn the_largest_size_is_written() {
    let document = OutputDocument { width: u128::MAX, height: i32::MIN, paths: Vec::new() };
    assert_eq!(
        document.to_svg(),
        format!(
            "<svg xmlns='http://www.w3.org/2000/svg' width='{}' height='{}'/>\n",
            u128::MAX,
            i32::MIN
        )
    );
}

#[test]
fn a_quote_in_a_path_is_escaped_by_the_writer() {
    let document = OutputDocument { width: 1, height: 1, paths: vec!["a'b\"c".to_string()] };
    assert_eq!(
        document.to_svg(),
        "<svg xmlns='http://www.w3.org/2000/svg' width='1' height='1'>\n    \
         <path d='a&apos;b\"c'/>\n</svg>\n"
    );
}
