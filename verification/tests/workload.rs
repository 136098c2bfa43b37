use glyphy::geometry::{ArcEndpoint, Point, MOVE_TO};
use glyphy::outline::{convert_outline_to_arcs, Contour, Curve, Outline};
use glyphy::workload::{
    cell_of, field_side, font_distance_field_creation, font_distance_field_creation_at_size,
    small_font_arc_conversion, small_font_distance_field_creation, FIELD_TENTHS, MAX_FIELD_SIDE,
    SMALL_FONT_SIZE,
};

fn pt(x: i64, y: i64) -> Point {
    Point::new(x, y)
}

fn ep(x: i64, y: i64, d: i64) -> ArcEndpoint {
    ArcEndpoint { p: pt(x, y), d }
}

fn squares() -> Outline {
    Outline {
        contours: vec![
            Contour {
                start: pt(0, 0),
                curves: vec![
                    Curve::Line(pt(640, 0)),
                    Curve::Line(pt(640, 640)),
                    Curve::Line(pt(0, 640)),
                ],
            },
            Contour {
                start: pt(160, 160),
                curves: vec![
                    Curve::Line(pt(160, 480)),
                    Curve::Line(pt(480, 480)),
                    Curve::Line(pt(480, 160)),
                ],
            },
        ],
    }
}

const SQUARES_FIELD: [u8; 144] = [
    0, 0, 0, 0, 0, 0, 0, 0, 0, 0, 0, 1, 0, 0, 0, 0, 0, 0, 0, 0, 0, 0, 0, 1, 0, 0, 0, 0, 0, 0, 0,
    0, 0, 0, 0, 1, 0, 0, 0, 0, 0, 0, 0, 0, 0, 0, 0, 1, 0, 0, 0, 0, 1, 1, 1, 0, 0, 0, 0, 1, 0, 0,
    0, 0, 1, 2, 1, 0, 0, 0, 0, 1, 0, 0, 0, 0, 1, 1, 1, 0, 0, 0, 0, 1, 0, 0, 0, 0, 0, 0, 0, 0, 0,
    0, 0, 1, 0, 0, 0, 0, 0, 0, 0, 0, 0, 0, 0, 1, 0, 0, 0, 0, 0, 0, 0, 0, 0, 0, 0, 1, 0, 0, 0, 0,
    0, 0, 0, 0, 0, 0, 0, 1, 1, 1, 1, 1, 1, 1, 1, 1, 1, 1, 1, 1,
];

#[test]
fn constants_of_the_workloads() {
    assert_eq!(SMALL_FONT_SIZE, 12);
    assert_eq!(FIELD_TENTHS, 3);
    assert_eq!(MAX_FIELD_SIDE, 16384);
}

#[test]
fn a_distance_becomes_a_byte() {
    assert_eq!(cell_of(-1), 0);
    assert_eq!(cell_of(i64::MIN), 0);
    assert_eq!(cell_of(0), 0);
    assert_eq!(cell_of(63), 0);
    assert_eq!(cell_of(64), 1);
    assert_eq!(cell_of(127), 1);
    assert_eq!(cell_of(128), 2);
    assert_eq!(cell_of(254 * 64 + 63), 254);
    assert_eq!(cell_of(255 * 64), 255);
    assert_eq!(cell_of(1_000_000), 255);
    assert_eq!(cell_of(i64::MAX), 255);
}

#[test]
fn a_field_is_three_tenths_of_the_glyph() {
    assert_eq!(field_side(0), 0);
    assert_eq!(field_side(3), 0);
    assert_eq!(field_side(4), 1);
    assert_eq!(field_side(10), 3);
    assert_eq!(field_side(40), 12);
    assert_eq!(field_side(99), 29);
    assert_eq!(field_side(u32::MAX), 1288490188);
}

#[test]
fn field_of_two_squares() {
    let list = small_font_arc_conversion(&squares());
    assert_eq!(list, convert_outline_to_arcs(&squares()));
    assert_eq!(list.len(), 10);
    let field = font_distance_field_creation(&list, 40, 40);
    assert_eq!(field, SQUARES_FIELD.to_vec());
    // row 5, column 5 is the sample at (320, 320), the middle of the hole
    assert_eq!(field[5 * 12 + 5], 2);
}

#[test]
fn field_of_the_small_font() {
    let list = small_font_arc_conversion(&squares());
    // 2560 units are 40 pixels; the top of the bitmap at -28 makes 40 rows of pixels
    let field = small_font_distance_field_creation(&list, 2560, -28);
    assert_eq!(field, SQUARES_FIELD.to_vec());
    let same = font_distance_field_creation_at_size(&list, 12, 2560 + 63, -28);
    assert_eq!(same, field);
    let wide = font_distance_field_creation_at_size(&list, 20, 2560, 10);
    assert_eq!(wide.len(), 12 * 3);
    assert_eq!(wide, SQUARES_FIELD[..36].to_vec());
}

#[test]
fn field_without_rows_or_columns_is_empty() {
    let list = small_font_arc_conversion(&squares());
    assert!(font_distance_field_creation(&list, 0, 40).is_empty());
    assert!(font_distance_field_creation(&list, 40, 3).is_empty());
    assert!(small_font_distance_field_creation(&list, 2560, 12).is_empty());
}

#[test]
fn field_of_no_arcs_is_far_everywhere() {
    let none: Vec<ArcEndpoint> = Vec::new();
    assert_eq!(font_distance_field_creation(&none, 10, 10), vec![255u8; 9]);
    let lone = vec![ep(0, 0, MOVE_TO)];
    assert_eq!(font_distance_field_creation(&lone, 10, 7), vec![255u8; 6]);
}

#[test]
fn field_of_a_glyph_with_curves() {
    let outline = Outline {
        contours: vec![Contour {
            start: pt(0, 0),
            curves: vec![
                Curve::Line(pt(1000, 0)),
                Curve::Bezier2(pt(1000, 500), pt(500, 500)),
                Curve::Bezier3(pt(0, 500), pt(0, 250), pt(0, 0)),
            ],
        }],
    };
    let list = small_font_arc_conversion(&outline);
    let field = font_distance_field_creation(&list, 60, 30);
    let expected: [u8; 162] = [
        0, 0, 0, 0, 0, 0, 0, 0, 0, 0, 0, 0, 0, 0, 0, 0, 0, 1, 0, 0, 0, 0, 0, 0, 0, 0, 0, 0, 0, 0,
        0, 0, 0, 0, 0, 1, 0, 0, 0, 0, 0, 0, 0, 0, 0, 0, 0, 0, 0, 0, 0, 0, 0, 1, 0, 0, 0, 0, 0, 0,
        0, 0, 0, 0, 0, 0, 0, 0, 0, 0, 0, 1, 0, 0, 0, 0, 0, 0, 0, 0, 0, 0, 0, 0, 0, 0, 0, 0, 1, 1,
        0, 0, 0, 0, 0, 0, 0, 0, 0, 0, 0, 0, 0, 0, 0, 0, 1, 2, 1, 0, 0, 0, 0, 0, 0, 0, 0, 0, 0, 0,
        0, 0, 0, 1, 1, 2, 1, 1, 0, 0, 0, 0, 0, 0, 0, 0, 0, 0, 0, 0, 1, 1, 2, 3, 2, 1, 1, 0, 0, 0,
        0, 0, 0, 0, 0, 0, 0, 1, 1, 2, 3, 3,
    ];
    assert_eq!(field, expected.to_vec());
}
