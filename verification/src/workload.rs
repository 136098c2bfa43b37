//! The two workloads of a glyph renderer on a small font: the conversion of
//! an outline to arcs, and the sampling of a distance field from the arcs.
//!
//! The field has one byte for each sample. The samples stand a pixel apart,
//! the first at the origin, row by row; each byte is the signed distance at
//! its sample in whole pixels, limited to the range of a byte, so that a
//! sample inside the glyph gives zero.

use vstd::prelude::*;
use vstd::arithmetic::div_mod::lemma_fundamental_div_mod_converse;
use crate::arc_list::{arc_list_arcs, spec_arcs};
use crate::geometry::{ArcEndpoint, Point, arc_list_wf};
use crate::outline::{Outline, UNITS_PER_PIXEL, convert_outline_to_arcs, spec_convert};
use crate::sdf::{sdf_from_arcs, spec_sdf};

verus! {

/// The font size of the small-font workloads.
pub const SMALL_FONT_SIZE: i32 = 12;

/// The side of a field is this many tenths of the side of the glyph.
pub const FIELD_TENTHS: u32 = 3;

/// The longest side of a field: its samples stay within the range of the
/// lattice.
pub const MAX_FIELD_SIDE: u32 = 16384;

/// The number of samples along a side of the field of a glyph whose side is
/// `glyph_side` pixels long.
pub open spec fn spec_field_side(glyph_side: int) -> int {
    (glyph_side * FIELD_TENTHS) / 10
}

/// The byte for a signed distance in lattice units: the distance in whole
/// pixels, zero for a sample on or inside the outline and 255 for one that is
/// 255 pixels or more away.
pub open spec fn spec_cell_of(dist: int) -> u8 {
    if dist <= 0 {
        0
    } else if dist / (UNITS_PER_PIXEL as int) >= 255 {
        255
    } else {
        (dist / (UNITS_PER_PIXEL as int)) as u8
    }
}

/// The point of the sample in column `x` and row `y`.
pub open spec fn spec_sample_point(x: int, y: int) -> Point {
    Point { x: (x * UNITS_PER_PIXEL) as i64, y: (y * UNITS_PER_PIXEL) as i64 }
}

/// The byte of the field of `list` in column `x` and row `y`.
pub open spec fn spec_cell(list: Seq<ArcEndpoint>, x: int, y: int) -> u8 {
    spec_cell_of(spec_sdf(list, spec_sample_point(x, y)))
}

/// `field` is the field of `list` with `width` columns and `height` rows.
pub open spec fn is_field(field: Seq<u8>, list: Seq<ArcEndpoint>, width: int, height: int) -> bool {
    &&& field.len() == width * height
    &&& forall|k: int|
        0 <= k < field.len() ==> #[trigger] field[k] == spec_cell(list, k % width, k / width)
}

/// The byte for the signed distance `dist`.
pub fn cell_of(dist: i64) -> (cell: u8)
    ensures
        cell == spec_cell_of(dist as int),
{
    if dist <= 0 {
        0
    } else if dist / UNITS_PER_PIXEL >= 255 {
        255
    } else {
        (dist / UNITS_PER_PIXEL) as u8
    }
}

/// The number of samples along a side of the field of a glyph whose side is
/// `glyph_side` pixels long.
pub fn field_side(glyph_side: u32) -> (side: u64)
    ensures
        side == spec_field_side(glyph_side as int),
{
    (glyph_side as u64 * FIELD_TENTHS as u64) / 10
}

/// The distance field of the arc list `endpoints` for a glyph that is
/// `glyph_width` pixels wide and `glyph_height` pixels high.
pub fn font_distance_field_creation(endpoints: &[ArcEndpoint], glyph_width: u32, glyph_height: u32) -> (field:
    Vec<u8>)
    requires
        arc_list_wf(endpoints@),
        spec_field_side(glyph_width as int) <= MAX_FIELD_SIDE,
        spec_field_side(glyph_height as int) <= MAX_FIELD_SIDE,
    ensures
        is_field(
            field@,
            endpoints@,
            spec_field_side(glyph_width as int),
            spec_field_side(glyph_height as int),
        ),
{
    let width: usize = field_side(glyph_width) as usize;
    let height: usize = field_side(glyph_height) as usize;
    let arcs = arc_list_arcs(endpoints);
    let mut field: Vec<u8> = Vec::new();
    let mut y: usize = 0;
    while y < height
        invariant
            0 <= y <= height <= 16384,
            0 <= width <= 16384,
            arcs@ == spec_arcs(endpoints@),
            crate::arc_list::arcs_wf(arcs@),
            field@.len() == y * width,
            forall|k: int|
                0 <= k < field@.len() ==> #[trigger] field@[k] == spec_cell(
                    endpoints@,
                    k % (width as int),
                    k / (width as int),
                ),
        decreases height - y,
    {
        let mut x: usize = 0;
        while x < width
            invariant
                0 <= y < height <= 16384,
                0 <= x <= width <= 16384,
                arcs@ == spec_arcs(endpoints@),
                crate::arc_list::arcs_wf(arcs@),
                field@.len() == y * width + x,
                forall|k: int|
                    0 <= k < field@.len() ==> #[trigger] field@[k] == spec_cell(
                        endpoints@,
                        k % (width as int),
                        k / (width as int),
                    ),
            decreases width - x,
        {
            let point = Point { x: (x as i64) * UNITS_PER_PIXEL, y: (y as i64) * UNITS_PER_PIXEL };
            let dist: i64 = sdf_from_arcs(arcs.as_slice(), &point);
            proof {
                lemma_fundamental_div_mod_converse(
                    y * width + x,
                    width as int,
                    y as int,
                    x as int,
                );
                assert(y * width == width * y) by (nonlinear_arith);
            }
            field.push(cell_of(dist));
            x += 1;
        }
        proof {
            assert(y * width + width == (y + 1) * width) by (nonlinear_arith);
        }
        y += 1;
    }
    proof {
        assert(height * width == width * height) by (nonlinear_arith);
    }
    field
}

/// The distance field of a glyph of the font size `font_size`, from the arc
/// list of the glyph, the width of the glyph in lattice units and the row of
/// the top of its bitmap: the glyph is `metrics_width / UNITS_PER_PIXEL`
/// pixels wide and `font_size - bitmap_top` pixels high.
pub fn font_distance_field_creation_at_size(
    endpoints: &[ArcEndpoint],
    font_size: i32,
    metrics_width: u32,
    bitmap_top: i32,
) -> (field: Vec<u8>)
    requires
        arc_list_wf(endpoints@),
        bitmap_top <= font_size,
        spec_field_side(metrics_width as int / UNITS_PER_PIXEL as int) <= MAX_FIELD_SIDE,
        spec_field_side(font_size - bitmap_top) <= MAX_FIELD_SIDE,
    ensures
        is_field(
            field@,
            endpoints@,
            spec_field_side(metrics_width as int / UNITS_PER_PIXEL as int),
            spec_field_side(font_size - bitmap_top),
        ),
{
    let glyph_width: u32 = metrics_width / 64;
    let glyph_height: u32 = (font_size as i64 - bitmap_top as i64) as u32;
    font_distance_field_creation(endpoints, glyph_width, glyph_height)
}

/// The distance field of a glyph of the small font.
pub fn small_font_distance_field_creation(endpoints: &[ArcEndpoint], metrics_width: u32, bitmap_top: i32) -> (field:
    Vec<u8>)
    requires
        arc_list_wf(endpoints@),
        bitmap_top <= SMALL_FONT_SIZE,
        spec_field_side(metrics_width as int / UNITS_PER_PIXEL as int) <= MAX_FIELD_SIDE,
        spec_field_side(SMALL_FONT_SIZE - bitmap_top) <= MAX_FIELD_SIDE,
    ensures
        is_field(
            field@,
            endpoints@,
            spec_field_side(metrics_width as int / UNITS_PER_PIXEL as int),
            spec_field_side(SMALL_FONT_SIZE - bitmap_top),
        ),
{
    font_distance_field_creation_at_size(endpoints, SMALL_FONT_SIZE, metrics_width, bitmap_top)
}

/// The arc list of a glyph of the small font: the size of the font does not
/// enter, for an outline comes in lattice units whatever the size.
pub fn small_font_arc_conversion(outline: &Outline) -> (endpoints: Vec<ArcEndpoint>)
    requires
        outline.wf(),
    ensures
        endpoints@ == spec_convert(*outline),
        arc_list_wf(endpoints@),
{
    convert_outline_to_arcs(outline)
}

} // verus!
