use distance_field::field::{generate_field, pixel_color, FieldConfig, FieldError, Mode};
use distance_field::point::{distance_sq, Color, Point};
use distance_field::remap::remap_alpha;
use distance_field::select::{distances_sq, kth_nearest_dist_sq, nearest_dist_sq};

fn alphas(buf: &[u8]) -> Vec<u8> {
    buf.chunks(4).map(|px| px[3]).collect()
}

#[test]
fn example_row_of_three() {
    let pts = vec![Point::new(0, 0)];
    let cfg = FieldConfig::new(Mode::Nearest, 10);
    let buf = generate_field(3, 1, &pts, cfg).unwrap();
    assert_eq!(buf, vec![0, 0, 0, 0, 0, 0, 0, 25, 0, 0, 0, 51]);
}

#[test]
fn remap_rounds_down() {
    // 255 * 1 / 10 = 25.5 and 255 * 2 / 10 = 51
    assert_eq!(remap_alpha(1, 10), 25);
    assert_eq!(remap_alpha(4, 10), 51);
    // 255 * 2 / 17 = 30 exactly
    assert_eq!(remap_alpha(4, 17), 30);
    // sqrt(2) * 255 / 10 = 36.06...
    assert_eq!(remap_alpha(2, 10), 36);
    assert_eq!(remap_alpha(0, 10), 0);
    assert_eq!(remap_alpha(99, 10), 253);
    assert_eq!(remap_alpha(100, 10), 255);
    assert_eq!(remap_alpha(u128::MAX, 10), 255);
    assert_eq!(remap_alpha(340 * 340, 340), 255);
    assert_eq!(remap_alpha(170 * 170, 340), 127);
}

#[test]
fn buffer_length_is_four_bytes_per_pixel() {
    let pts = vec![Point::new(3, -2), Point::new(100, 40)];
    for (w, h) in [(1u32, 1u32), (5, 7), (13, 2)] {
        let buf = generate_field(w, h, &pts, FieldConfig::new(Mode::Nearest, 340)).unwrap();
        assert_eq!(buf.len(), (w * h * 4) as usize);
        let buf = generate_field(w, h, &pts, FieldConfig::new(Mode::KthNearest(1), 340)).unwrap();
        assert_eq!(buf.len(), (w * h * 4) as usize);
    }
}

#[test]
fn base_colour_kept_and_row_major_order() {
    let pts = vec![Point::new(0, 0)];
    let mut cfg = FieldConfig::new(Mode::Nearest, 4);
    cfg.base = Color::new(10, 20, 30, 40);
    let buf = generate_field(2, 2, &pts, cfg).unwrap();
    // pixels (0,0), (1,0), (0,1), (1,1): distances 0, 1, 1, sqrt(2)
    assert_eq!(alphas(&buf), vec![0, 63, 63, 90]);
    for px in buf.chunks(4) {
        assert_eq!(&px[..3], &[10, 20, 30]);
    }
}

#[test]
fn pixel_on_a_point_has_alpha_zero() {
    let pts = vec![Point::new(50, 50), Point::new(2, 3), Point::new(-40, 9)];
    let buf = generate_field(6, 5, &pts, FieldConfig::new(Mode::Nearest, 340)).unwrap();
    assert_eq!(buf[4 * (3 * 6 + 2) + 3], 0);
}

#[test]
fn pixel_far_from_every_point_has_alpha_255() {
    let pts = vec![Point::new(500, 500), Point::new(-400, 0)];
    let buf = generate_field(4, 4, &pts, FieldConfig::new(Mode::Nearest, 340)).unwrap();
    assert!(alphas(&buf).iter().all(|&a| a == 255));
}

#[test]
fn alpha_saturates_at_the_clamp() {
    let pts = vec![Point::new(0, 0)];
    let buf = generate_field(8, 1, &pts, FieldConfig::new(Mode::Nearest, 3)).unwrap();
    assert_eq!(alphas(&buf), vec![0, 85, 170, 255, 255, 255, 255, 255]);
}

#[test]
fn kth_zero_matches_nearest() {
    let pts = vec![Point::new(7, 1), Point::new(-3, 12), Point::new(20, 20), Point::new(4, 4)];
    let a = generate_field(16, 9, &pts, FieldConfig::new(Mode::Nearest, 30)).unwrap();
    let b = generate_field(16, 9, &pts, FieldConfig::new(Mode::KthNearest(0), 30)).unwrap();
    assert_eq!(a, b);
}

#[test]
fn kth_picks_the_second_nearest() {
    let pts = vec![Point::new(10, 0), Point::new(0, 0), Point::new(5, 0)];
    // from pixel (0, 0): squared distances 100, 0, 25
    assert_eq!(kth_nearest_dist_sq(0, 0, &pts, 0), 0);
    assert_eq!(kth_nearest_dist_sq(0, 0, &pts, 1), 25);
    assert_eq!(kth_nearest_dist_sq(0, 0, &pts, 2), 100);
    let buf = generate_field(1, 1, &pts, FieldConfig::new(Mode::KthNearest(1), 10)).unwrap();
    assert_eq!(buf[3], 127);
}

#[test]
fn kth_out_of_range_is_refused() {
    let pts = vec![Point::new(1, 1), Point::new(2, 2)];
    for k in [2usize, 3, 100] {
        let r = generate_field(4, 4, &pts, FieldConfig::new(Mode::KthNearest(k), 340));
        assert_eq!(r, Err(FieldError::RankOutOfRange));
    }
    let r = generate_field(4, 4, &[], FieldConfig::new(Mode::KthNearest(0), 340));
    assert_eq!(r, Err(FieldError::RankOutOfRange));
}

#[test]
fn constant_mode_fills_every_pixel() {
    let mut cfg = FieldConfig::new(Mode::Constant, 0);
    cfg.constant = Color::new(200, 100, 50, 25);
    let pts = vec![Point::new(1, 2)];
    for (w, h, p) in [(3u32, 2u32, &pts[..]), (1, 9, &[][..])] {
        let buf = generate_field(w, h, p, cfg).unwrap();
        assert_eq!(buf.len(), (w * h * 4) as usize);
        for px in buf.chunks(4) {
            assert_eq!(px, &[200, 100, 50, 25]);
        }
    }
}

#[test]
fn two_runs_give_the_same_bytes() {
    let pts = vec![Point::new(-200, 1000), Point::new(13, 17), Point::new(31, 2)];
    for mode in [Mode::Nearest, Mode::KthNearest(2), Mode::Constant] {
        let cfg = FieldConfig::new(mode, 25);
        assert_eq!(generate_field(20, 11, &pts, cfg), generate_field(20, 11, &pts, cfg));
    }
}

#[test]
fn invalid_requests_report_their_error() {
    let pts = vec![Point::new(1, 1)];
    let cfg = FieldConfig::new(Mode::Nearest, 10);
    assert_eq!(generate_field(0, 4, &pts, cfg), Err(FieldError::EmptyGrid));
    assert_eq!(generate_field(4, 0, &pts, cfg), Err(FieldError::EmptyGrid));
    assert_eq!(generate_field(0, 0, &pts, FieldConfig::new(Mode::Constant, 1)), Err(FieldError::EmptyGrid));
    assert_eq!(generate_field(4, 4, &pts, FieldConfig::new(Mode::Nearest, 0)), Err(FieldError::ZeroMaxDist));
    assert_eq!(generate_field(4, 4, &pts, FieldConfig::new(Mode::KthNearest(0), 0)), Err(FieldError::ZeroMaxDist));
    assert_eq!(generate_field(4, 4, &[], cfg), Err(FieldError::NoPoints));
}

#[test]
fn squared_distances_are_exact() {
    assert_eq!(distance_sq(0, 0, Point::new(3, 4)), 25);
    assert_eq!(distance_sq(10, 10, Point::new(-2, 5)), 144 + 25);
    assert_eq!(distance_sq(u32::MAX, u32::MAX, Point::new(i32::MIN, i32::MIN)), 2 * (1u128 << 32 | 0x7fff_ffff).pow(2));
    let pts = vec![Point::new(1, 0), Point::new(0, 2)];
    assert_eq!(distances_sq(0, 0, &pts), vec![1, 4]);
    assert_eq!(nearest_dist_sq(0, 0, &pts), 1);
    assert_eq!(nearest_dist_sq(0, 3, &pts), 1);
}

#[test]
fn pixel_colour_of_each_mode() {
    let pts = vec![Point::new(0, 0), Point::new(6, 8)];
    let near = pixel_color(6, 0, &pts, FieldConfig::new(Mode::Nearest, 12));
    assert_eq!(near, Color::new(0, 0, 0, 127));
    let second = pixel_color(0, 0, &pts, FieldConfig::new(Mode::KthNearest(1), 20));
    assert_eq!(second, Color::new(0, 0, 0, 127));
    let mut cfg = FieldConfig::new(Mode::Constant, 1);
    cfg.constant = Color::new(1, 2, 3, 4);
    assert_eq!(pixel_color(9, 9, &pts, cfg), Color::new(1, 2, 3, 4));
}
