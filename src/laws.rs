use vstd::prelude::*;
use crate::field::{
    FieldConfig, FieldError, Mode, channel, field, field_dist_sq, outcome, pixel_spec,
    request_error,
};
use crate::point::{Point, dist_sq};
use crate::remap::{alpha_of, lemma_alpha_at_zero, lemma_alpha_beyond_clamp, lemma_alpha_in_range};
use crate::select::{dists, lemma_dists_exact, lemma_kth_zero_is_min, lemma_min_of_is_least, min_of};

verus! {

/// Byte `ch` of pixel `(x, y)` in a field of width `w` and height `h` sits at
/// index `4 * (y * w + x) + ch`, inside the buffer.
pub proof fn lemma_field_pixel(
    w: int,
    h: int,
    pts: Seq<Point>,
    cfg: FieldConfig,
    x: int,
    y: int,
    ch: int,
)
    requires
        0 <= x < w,
        0 <= y < h,
        0 <= ch < 4,
    ensures
        4 * (y * w + x) + ch < field(w, h, pts, cfg).len(),
        field(w, h, pts, cfg)[4 * (y * w + x) + ch] == channel(pixel_spec(cfg, pts, x, y), ch),
{
    assert(4 * (y * w + x) + ch < 4 * w * h) by (nonlinear_arith)
        requires
            0 <= x < w,
            0 <= y < h,
            0 <= ch < 4,
    ;
    crate::field::lemma_byte_index(w, x, y, ch);
}

/// A field of width `w` and height `h` holds exactly `w * h * 4` bytes.
pub proof fn lemma_field_len(w: int, h: int, pts: Seq<Point>, cfg: FieldConfig)
    requires
        w >= 0,
        h >= 0,
    ensures
        field(w, h, pts, cfg).len() == w * h * 4,
{
    assert(4 * w * h == w * h * 4 && 4 * w * h >= 0) by (nonlinear_arith)
        requires
            w >= 0,
            h >= 0,
    ;
}

/// In the distance modes a pixel's alpha is its remapped distance, which
/// lies in `[0, 255]`: the byte holds it without wrapping.
pub proof fn lemma_alpha_clamped(cfg: FieldConfig, pts: Seq<Point>, x: int, y: int)
    requires
        !(cfg.mode is Constant),
    ensures
        0 <= alpha_of(field_dist_sq(cfg.mode, pts, x, y) as int, cfg.max_dist as int) <= 255,
        pixel_spec(cfg, pts, x, y).a as int == alpha_of(
            field_dist_sq(cfg.mode, pts, x, y) as int,
            cfg.max_dist as int,
        ),
{
    lemma_alpha_in_range(field_dist_sq(cfg.mode, pts, x, y) as int, cfg.max_dist as int);
}

/// In `Mode::Nearest`, a pixel that coincides with one of the points has
/// alpha 0.
pub proof fn lemma_nearest_on_point(
    w: int,
    h: int,
    pts: Seq<Point>,
    cfg: FieldConfig,
    x: int,
    y: int,
)
    requires
        cfg.mode is Nearest,
        cfg.max_dist > 0,
        0 <= x < w <= u32::MAX,
        0 <= y < h <= u32::MAX,
        exists|i: int| 0 <= i < pts.len() && #[trigger] pts[i].x == x && pts[i].y == y,
    ensures
        field(w, h, pts, cfg)[4 * (y * w + x) + 3] == 0,
{
    let ds = dists(x, y, pts);
    let j = choose|j: int| 0 <= j < pts.len() && #[trigger] pts[j].x == x && pts[j].y == y;
    lemma_dists_exact(x, y, pts);
    let (dx, dy) = (x - pts[j].x, y - pts[j].y);
    assert(dx * dx + dy * dy == 0) by (nonlinear_arith)
        requires
            dx == 0,
            dy == 0,
    ;
    assert(dist_sq(x, y, pts[j]) == 0);
    lemma_min_of_is_least(ds);
    assert(min_of(ds) <= ds[j]);
    lemma_alpha_at_zero(cfg.max_dist as int);
    lemma_field_pixel(w, h, pts, cfg, x, y, 3);
}

/// In `Mode::Nearest`, a pixel at distance at least `max_dist` from every
/// point has alpha 255.
pub proof fn lemma_nearest_far_from_all(
    w: int,
    h: int,
    pts: Seq<Point>,
    cfg: FieldConfig,
    x: int,
    y: int,
)
    requires
        cfg.mode is Nearest,
        pts.len() > 0,
        0 <= x < w <= u32::MAX,
        0 <= y < h <= u32::MAX,
        forall|i: int|
            0 <= i < pts.len() ==> #[trigger] dist_sq(x, y, pts[i]) >= cfg.max_dist
                * cfg.max_dist,
    ensures
        field(w, h, pts, cfg)[4 * (y * w + x) + 3] == 255,
{
    let ds = dists(x, y, pts);
    lemma_dists_exact(x, y, pts);
    lemma_min_of_is_least(ds);
    let j = choose|j: int| 0 <= j < ds.len() && ds[j] == min_of(ds);
    assert(ds[j] as int == dist_sq(x, y, pts[j]));
    lemma_alpha_beyond_clamp(min_of(ds) as int, cfg.max_dist as int);
    lemma_field_pixel(w, h, pts, cfg, x, y, 3);
}

/// `Mode::KthNearest(0)` gives the same field as `Mode::Nearest` over the
/// same non-empty point set.
pub proof fn lemma_kth_zero_is_nearest(
    w: int,
    h: int,
    pts: Seq<Point>,
    cfg: FieldConfig,
)
    requires
        cfg.mode is Nearest,
        pts.len() > 0,
    ensures
        field(w, h, pts, FieldConfig { mode: Mode::KthNearest(0), ..cfg }) == field(
            w,
            h,
            pts,
            cfg,
        ),
{
    let kcfg = FieldConfig { mode: Mode::KthNearest(0), ..cfg };
    assert forall|x: int, y: int| #[trigger] pixel_spec(kcfg, pts, x, y) == pixel_spec(
        cfg,
        pts,
        x,
        y,
    ) by {
        lemma_kth_zero_is_min(dists(x, y, pts));
    }
    assert(field(w, h, pts, kcfg) =~= field(w, h, pts, cfg));
}

/// `Mode::KthNearest(k)` with no more than `k` points is refused, whatever
/// the size and the clamp.
pub proof fn lemma_kth_out_of_range_refused(w: int, h: int, n: int, cfg: FieldConfig, k: usize)
    requires
        cfg.mode == Mode::KthNearest(k),
        k >= n,
    ensures
        request_error(w, h, n, cfg) is Some,
{
}

/// In `Mode::Constant` every pixel is the constant colour, whatever the
/// points and the size.
pub proof fn lemma_constant_field(w: int, h: int, pts: Seq<Point>, cfg: FieldConfig)
    requires
        cfg.mode is Constant,
    ensures
        forall|i: int|
            0 <= i < field(w, h, pts, cfg).len() ==> #[trigger] field(w, h, pts, cfg)[i]
                == channel(cfg.constant, i % 4),
{
}

/// `generate_field` is a function of its arguments: two results that both
/// meet its contract for the same arguments are the same.
pub proof fn lemma_generate_deterministic(
    w: int,
    h: int,
    pts: Seq<Point>,
    cfg: FieldConfig,
    r1: Result<Vec<u8>, FieldError>,
    r2: Result<Vec<u8>, FieldError>,
)
    requires
        outcome(w, h, pts, cfg, r1),
        outcome(w, h, pts, cfg, r2),
    ensures
        r1 is Ok <==> r2 is Ok,
        r1 is Ok ==> r1->Ok_0@ == r2->Ok_0@,
        r1 is Err ==> r1 == r2,
{
}

} // verus!
