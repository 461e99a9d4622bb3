//! Simple palette-indexed pictures, for making GIF files to try the toolkit on.

use vstd::prelude::*;

verus! {

/// A region of a picture.
#[derive(Debug, Clone, Copy, PartialEq, Eq, Structural)]
pub enum Shape {
    /// The pixels with `left <= x < right` and `top <= y < bottom`.
    Rectangle { left: u16, right: u16, top: u16, bottom: u16 },
    /// The pixels whose distance from (`center_x`, `center_y`), squared, is
    /// below `radius_squared`.
    Disc { center_x: i32, center_y: i32, radius_squared: u32 },
}

impl Shape {
    /// The shape covers the pixel in column `x` and row `y`.
    pub open spec fn covers(self, x: int, y: int) -> bool {
        match self {
            Shape::Rectangle { left, right, top, bottom } => left <= x < right && top <= y
                < bottom,
            Shape::Disc { center_x, center_y, radius_squared } => (x - center_x) * (x - center_x)
                + (y - center_y) * (y - center_y) < radius_squared,
        }
    }

    /// Tells whether the shape covers the pixel in column `x` and row `y`.
    pub fn contains(&self, x: u16, y: u16) -> (inside: bool)
        ensures
            inside == self.covers(x as int, y as int),
    {
        match self {
            Shape::Rectangle { left, right, top, bottom } => *left <= x && x < *right && *top <= y
                && y < *bottom,
            Shape::Disc { center_x, center_y, radius_squared } => {
                let dx: i128 = x as i128 - *center_x as i128;
                let dy: i128 = y as i128 - *center_y as i128;
                assert(0 <= dx * dx <= 0x1_0000_0000 * 0x1_0000_0000 && 0 <= dy * dy
                    <= 0x1_0000_0000 * 0x1_0000_0000) by (nonlinear_arith)
                    requires
                        -0x1_0000_0000 <= dx <= 0x1_0000_0000,
                        -0x1_0000_0000 <= dy <= 0x1_0000_0000,
                ;
                dx * dx + dy * dy < *radius_squared as i128
            },
        }
    }
}

/// Position of the pixel in column `x` and row `y` in a row-major buffer.
pub open spec fn cell(width: int, x: int, y: int) -> int {
    y * width + x
}

/// The colour index of a pixel of a picture that shows `shape` in colour
/// `index` on a ground of colour 0.
pub open spec fn painted(shape: Shape, index: u8, x: int, y: int) -> u8 {
    if shape.covers(x, y) {
        index
    } else {
        0
    }
}

/// Pixels of earlier rows, and earlier pixels of the same row, come first.
proof fn lemma_cell_order(width: int, x: int, y: int, xx: int, yy: int)
    requires
        0 <= x <= width,
        0 <= xx < width,
        0 <= yy,
        yy < y || (yy == y && xx < x),
    ensures
        0 <= cell(width, xx, yy) < cell(width, x, y),
{
    assert(0 <= yy * width && (yy < y ==> yy * width + width <= y * width)) by (nonlinear_arith)
        requires
            0 <= yy,
            0 <= width,
            yy <= y,
    ;
}

/// Paints `shape` in colour `index` on a ground of colour 0: one byte for each
/// pixel of a `width` x `height` picture, row after row.
pub fn paint(width: u16, height: u16, shape: Shape, index: u8) -> (pixels: Vec<u8>)
    ensures
        pixels@.len() == width * height,
        forall|x: int, y: int|
            0 <= x < width && 0 <= y < height ==> pixels@[#[trigger] cell(width as int, x, y)]
                == painted(shape, index, x, y),
{
    let mut pixels: Vec<u8> = Vec::new();
    let mut y: u16 = 0;
    while y < height
        invariant
            y <= height,
            pixels@.len() == cell(width as int, 0, y as int),
            forall|xx: int, yy: int|
                0 <= xx < width && 0 <= yy < y ==> pixels@[#[trigger] cell(width as int, xx, yy)]
                    == painted(shape, index, xx, yy),
        decreases height - y,
    {
        let mut x: u16 = 0;
        while x < width
            invariant
                x <= width,
                y < height,
                pixels@.len() == cell(width as int, x as int, y as int),
                forall|xx: int, yy: int|
                    0 <= xx < width && 0 <= yy && (yy < y || (yy == y && xx < x))
                        ==> pixels@[#[trigger] cell(width as int, xx, yy)] == painted(
                        shape,
                        index,
                        xx,
                        yy,
                    ),
            decreases width - x,
        {
            let ghost before = pixels@;
            let value: u8 = if shape.contains(x, y) {
                index
            } else {
                0
            };
            pixels.push(value);
            assert forall|xx: int, yy: int|
                0 <= xx < width && 0 <= yy && (yy < y || (yy == y && xx < x + 1))
                implies pixels@[#[trigger] cell(width as int, xx, yy)] == painted(
                shape,
                index,
                xx,
                yy,
            ) by {
                if yy < y || xx < x {
                    lemma_cell_order(width as int, x as int, y as int, xx, yy);
                    assert(pixels@[cell(width as int, xx, yy)] == before[cell(width as int, xx, yy)]);
                }
            }
            x = x + 1;
        }
        assert(cell(width as int, width as int, y as int) == cell(width as int, 0, y as int + 1))
            by (nonlinear_arith);
        y = y + 1;
    }
    assert(cell(width as int, 0, height as int) == width * height) by (nonlinear_arith);
    pixels
}

} // verus!
