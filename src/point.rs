use vstd::prelude::*;

verus! {

/// A sample point in window space, on the integer pixel lattice.
///
/// Pixel `(x, y)` of a field stands at the point `(x, y)`: the origin is the
/// top-left pixel, and a pixel is addressed by its top-left corner.
#[derive(Clone, Copy, Debug, PartialEq, Eq, Structural)]
pub struct Point {
    pub x: i32,
    pub y: i32,
}

/// An RGBA colour, one byte per channel.
#[derive(Clone, Copy, Debug, PartialEq, Eq, Structural)]
pub struct Color {
    pub r: u8,
    pub g: u8,
    pub b: u8,
    pub a: u8,
}

impl Point {
    pub fn new(x: i32, y: i32) -> (r: Point)
        ensures
            r.x == x,
            r.y == y,
    {
        Point { x, y }
    }
}

impl Color {
    pub fn new(r: u8, g: u8, b: u8, a: u8) -> (c: Color)
        ensures
            c.r == r,
            c.g == g,
            c.b == b,
            c.a == a,
    {
        Color { r, g, b, a }
    }
}

/// Squared Euclidean distance from pixel `(x, y)` to `p`.
pub open spec fn dist_sq(x: int, y: int, p: Point) -> int {
    (x - p.x) * (x - p.x) + (y - p.y) * (y - p.y)
}

/// Squared distance from pixel `(x, y)` to `p`, computed exactly.
pub fn distance_sq(x: u32, y: u32, p: Point) -> (r: u128)
    ensures
        r as int == dist_sq(x as int, y as int, p),
{
    let dx: i64 = x as i64 - p.x as i64;
    let dy: i64 = y as i64 - p.y as i64;
    assert(-0x8000_0000 < dx < 0x2_0000_0000);
    assert(-0x8000_0000 < dy < 0x2_0000_0000);
    let ax: u128 = if dx < 0 { (-dx) as u128 } else { dx as u128 };
    let ay: u128 = if dy < 0 { (-dy) as u128 } else { dy as u128 };
    assert(ax * ax == dx * dx && ax * ax < 0x4_0000_0000_0000_0000) by (nonlinear_arith)
        requires
            ax == dx || ax == -dx,
            0 <= ax < 0x2_0000_0000,
    ;
    assert(ay * ay == dy * dy && ay * ay < 0x4_0000_0000_0000_0000) by (nonlinear_arith)
        requires
            ay == dy || ay == -dy,
            0 <= ay < 0x2_0000_0000,
    ;
    ax * ax + ay * ay
}

} // verus!
