use vstd::prelude::*;
use vstd::arithmetic::div_mod::lemma_fundamental_div_mod_converse;
use crate::point::{Color, Point};
use crate::remap::{alpha_of, remap_alpha};
use crate::select::{dists, kth_of, kth_nearest_dist_sq, min_of, nearest_dist_sq};

verus! {

/// How a pixel's value is derived from the point set.
#[derive(Clone, Copy, Debug, PartialEq, Eq, Structural)]
pub enum Mode {
    /// Distance to the nearest point.
    Nearest,
    /// Distance to the point at this 0-based index once the points are
    /// sorted by distance, nearest first.
    KthNearest(usize),
    /// No distances: every pixel takes the configured constant colour.
    Constant,
}

/// Everything but the grid size and the points that a field depends on.
#[derive(Clone, Copy, Debug, PartialEq, Eq, Structural)]
pub struct FieldConfig {
    pub mode: Mode,
    /// Distances at or beyond this clamp map to alpha 255.
    pub max_dist: u32,
    /// Colour of the distance modes; its alpha is replaced per pixel.
    pub base: Color,
    /// Colour of every pixel in `Mode::Constant`.
    pub constant: Color,
}

/// Why a field cannot be generated.
#[derive(Clone, Copy, Debug, PartialEq, Eq, Structural)]
pub enum FieldError {
    /// Width or height is zero.
    EmptyGrid,
    /// A distance mode was asked for with a clamp of zero.
    ZeroMaxDist,
    /// `Mode::Nearest` was asked for without any point.
    NoPoints,
    /// `Mode::KthNearest(k)` was asked for with no more than `k` points.
    RankOutOfRange,
}

impl FieldConfig {
    /// A configuration of mode `mode`, clamp `max_dist` and opaque black as
    /// both the base and the constant colour.
    pub fn new(mode: Mode, max_dist: u32) -> (r: FieldConfig)
        ensures
            r.mode == mode,
            r.max_dist == max_dist,
            r.base == (Color { r: 0, g: 0, b: 0, a: 255 }),
            r.constant == (Color { r: 0, g: 0, b: 0, a: 255 }),
    {
        let black = Color { r: 0, g: 0, b: 0, a: 255 };
        FieldConfig { mode, max_dist, base: black, constant: black }
    }
}

/// What is wrong with `cfg` for a set of `n` points, if anything.
pub open spec fn config_error(cfg: FieldConfig, n: int) -> Option<FieldError> {
    match cfg.mode {
        Mode::Constant => None,
        Mode::Nearest => if cfg.max_dist == 0 {
            Some(FieldError::ZeroMaxDist)
        } else if n == 0 {
            Some(FieldError::NoPoints)
        } else {
            None
        },
        Mode::KthNearest(k) => if cfg.max_dist == 0 {
            Some(FieldError::ZeroMaxDist)
        } else if k >= n {
            Some(FieldError::RankOutOfRange)
        } else {
            None
        },
    }
}

/// What is wrong with a request for a `width` by `height` field over `n`
/// points, if anything.
pub open spec fn request_error(width: int, height: int, n: int, cfg: FieldConfig) -> Option<
    FieldError,
> {
    if width == 0 || height == 0 {
        Some(FieldError::EmptyGrid)
    } else {
        config_error(cfg, n)
    }
}

/// The squared distance that decides pixel `(x, y)` in a distance mode.
pub open spec fn field_dist_sq(mode: Mode, pts: Seq<Point>, x: int, y: int) -> u128 {
    match mode {
        Mode::KthNearest(k) => kth_of(dists(x, y, pts), k as int),
        _ => min_of(dists(x, y, pts)),
    }
}

/// The colour of pixel `(x, y)`.
pub open spec fn pixel_spec(cfg: FieldConfig, pts: Seq<Point>, x: int, y: int) -> Color {
    match cfg.mode {
        Mode::Constant => cfg.constant,
        _ => Color {
            r: cfg.base.r,
            g: cfg.base.g,
            b: cfg.base.b,
            a: alpha_of(field_dist_sq(cfg.mode, pts, x, y) as int, cfg.max_dist as int) as u8,
        },
    }
}

/// Channel `ch` of `c`, in the order red, green, blue, alpha.
pub open spec fn channel(c: Color, ch: int) -> u8 {
    if ch == 0 {
        c.r
    } else if ch == 1 {
        c.g
    } else if ch == 2 {
        c.b
    } else {
        c.a
    }
}

/// Byte `i` of a row-major RGBA field of width `w`.
pub open spec fn field_byte(w: int, pts: Seq<Point>, cfg: FieldConfig, i: int) -> u8 {
    channel(pixel_spec(cfg, pts, (i / 4) % w, (i / 4) / w), i % 4)
}

/// The whole field: `width * height` pixels, row by row from the top, four
/// bytes each.
pub open spec fn field(width: int, height: int, pts: Seq<Point>, cfg: FieldConfig) -> Seq<u8> {
    Seq::new((4 * width * height) as nat, |i: int| field_byte(width, pts, cfg, i))
}

/// Whether `r` is what a request for a `width` by `height` field over `pts`
/// returns: the field when the request is valid, else the error it breaks.
pub open spec fn outcome(
    width: int,
    height: int,
    pts: Seq<Point>,
    cfg: FieldConfig,
    r: Result<Vec<u8>, FieldError>,
) -> bool {
    match r {
        Ok(v) => request_error(width, height, pts.len() as int, cfg) is None && v@ == field(
            width,
            height,
            pts,
            cfg,
        ),
        Err(e) => request_error(width, height, pts.len() as int, cfg) == Some(e),
    }
}

/// Checks the configuration against a set of `n` points.
fn check_config(cfg: FieldConfig, n: usize) -> (r: Option<FieldError>)
    ensures
        r == config_error(cfg, n as int),
{
    match cfg.mode {
        Mode::Constant => None,
        Mode::Nearest => if cfg.max_dist == 0 {
            Some(FieldError::ZeroMaxDist)
        } else if n == 0 {
            Some(FieldError::NoPoints)
        } else {
            None
        },
        Mode::KthNearest(k) => if cfg.max_dist == 0 {
            Some(FieldError::ZeroMaxDist)
        } else if k >= n {
            Some(FieldError::RankOutOfRange)
        } else {
            None
        },
    }
}

/// The colour of pixel `(x, y)`.
pub fn pixel_color(x: u32, y: u32, points: &[Point], cfg: FieldConfig) -> (r: Color)
    requires
        config_error(cfg, points@.len() as int) is None,
    ensures
        r == pixel_spec(cfg, points@, x as int, y as int),
{
    match cfg.mode {
        Mode::Constant => cfg.constant,
        Mode::Nearest => {
            let d = nearest_dist_sq(x, y, points);
            let a = remap_alpha(d, cfg.max_dist);
            Color { r: cfg.base.r, g: cfg.base.g, b: cfg.base.b, a }
        },
        Mode::KthNearest(k) => {
            let d = kth_nearest_dist_sq(x, y, points, k);
            let a = remap_alpha(d, cfg.max_dist);
            Color { r: cfg.base.r, g: cfg.base.g, b: cfg.base.b, a }
        },
    }
}

pub(crate) proof fn lemma_byte_index(w: int, x: int, y: int, ch: int)
    requires
        0 <= x < w,
        0 <= y,
        0 <= ch < 4,
    ensures
        (4 * (y * w + x) + ch) / 4 == y * w + x,
        (4 * (y * w + x) + ch) % 4 == ch,
        (y * w + x) % w == x,
        (y * w + x) / w == y,
{
    lemma_fundamental_div_mod_converse(4 * (y * w + x) + ch, 4, y * w + x, ch);
    lemma_fundamental_div_mod_converse(y * w + x, w, y, x);
}

/// Generates the field of a `width` by `height` window over `points`: a
/// row-major buffer of RGBA quadruplets, top row first.
pub fn generate_field(width: u32, height: u32, points: &[Point], cfg: FieldConfig) -> (r: Result<
    Vec<u8>,
    FieldError,
>)
    requires
        4 * width * height <= usize::MAX,
    ensures
        outcome(width as int, height as int, points@, cfg, r),
{
    if width == 0 || height == 0 {
        return Err(FieldError::EmptyGrid);
    }
    match check_config(cfg, points.len()) {
        Some(e) => {
            return Err(e);
        },
        None => {},
    }
    let ghost w = width as int;
    let ghost pts = points@;
    let mut out: Vec<u8> = Vec::new();
    let mut y: u32 = 0;
    while y < height
        invariant
            0 <= y <= height,
            w == width as int,
            pts == points@,
            config_error(cfg, pts.len() as int) is None,
            4 * width * height <= usize::MAX,
            out@.len() == 4 * (y * w),
            forall|i: int| 0 <= i < out@.len() ==> out@[i] == field_byte(w, pts, cfg, i),
        decreases height - y,
    {
        let mut x: u32 = 0;
        while x < width
            invariant
                0 <= y < height,
                0 <= x <= width,
                w == width as int,
                pts == points@,
                config_error(cfg, pts.len() as int) is None,
                4 * width * height <= usize::MAX,
                out@.len() == 4 * (y * w + x),
                forall|i: int| 0 <= i < out@.len() ==> out@[i] == field_byte(w, pts, cfg, i),
            decreases width - x,
        {
            let c = pixel_color(x, y, points, cfg);
            proof {
                lemma_byte_index(w, x as int, y as int, 0);
                lemma_byte_index(w, x as int, y as int, 1);
                lemma_byte_index(w, x as int, y as int, 2);
                lemma_byte_index(w, x as int, y as int, 3);
            }
            out.push(c.r);
            out.push(c.g);
            out.push(c.b);
            out.push(c.a);
            x = x + 1;
        }
        assert(4 * (y * w + w) == 4 * ((y + 1) * w)) by (nonlinear_arith);
        y = y + 1;
    }
    assert(4 * (height * w) == 4 * w * height) by (nonlinear_arith);
    assert(out@ =~= field(w, height as int, pts, cfg));
    Ok(out)
}

} // verus!
