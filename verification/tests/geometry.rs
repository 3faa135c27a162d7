use batch_crop::errors::CropError;
use batch_crop::geometry::{compute_crop, scale_range, CropWindow, Frac};

fn frac(num: u32, den: u32) -> Frac {
    Frac { num, den }
}

#[test]
fn scale_range_maps_halves() {
    assert_eq!(scale_range(frac(1, 2), 0, 100), 50);
    assert_eq!(scale_range(frac(0, 1), 0, 100), 0);
    assert_eq!(scale_range(frac(1, 1), 0, 100), 100);
    assert_eq!(scale_range(frac(1, 3), 0, 100), 33);
    assert_eq!(scale_range(frac(1, 2), 10, 20), 15);
}

#[test]
fn center_crop_of_square_image() {
    // 100x100 image, scale 0.5 capped at 1.0, centered anchor:
    // effective scale 0.5, crop sides 50, raw anchor 50, clamp keeps 50.
    let w = compute_crop(100, 100, frac(1, 2), frac(1, 2), frac(1, 2), frac(1, 1)).unwrap();
    assert_eq!(w, CropWindow { x: 50, y: 50, width: 50, height: 50 });
}

#[test]
fn origin_crop_with_full_scale_selects_whole_image() {
    let w = compute_crop(100, 80, frac(1, 1), frac(0, 1), frac(0, 1), frac(1, 1)).unwrap();
    assert_eq!(w, CropWindow { x: 0, y: 0, width: 100, height: 80 });
}

#[test]
fn degenerate_image_side_floors_at_two() {
    let w = compute_crop(1, 1, frac(1, 1), frac(0, 1), frac(0, 1), frac(1, 1)).unwrap();
    assert_eq!(w, CropWindow { x: 0, y: 0, width: 2, height: 2 });
}

#[test]
fn far_edge_anchor_clamps_to_edge() {
    // anchor (1,1): raw anchor 100, window 50 -> origin clamped to 50.
    let w = compute_crop(100, 100, frac(1, 2), frac(1, 1), frac(1, 1), frac(1, 1)).unwrap();
    assert_eq!(w, CropWindow { x: 50, y: 50, width: 50, height: 50 });
    assert_eq!(w.x + w.width, 100);
    assert_eq!(w.y + w.height, 100);
}

#[test]
fn out_of_range_coordinate_is_rejected() {
    // x_frac = 1.5 must be InvalidArgument, not clamped.
    let r = compute_crop(100, 100, frac(1, 2), frac(3, 2), frac(1, 2), frac(1, 1));
    assert_eq!(r, Err(CropError::InvalidArgument));
    let r = compute_crop(100, 100, frac(1, 2), frac(1, 2), frac(7, 4), frac(1, 1));
    assert_eq!(r, Err(CropError::InvalidArgument));
}

#[test]
fn out_of_range_scale_bound_is_rejected() {
    let r = compute_crop(100, 100, frac(1, 2), frac(1, 2), frac(1, 2), frac(5, 4));
    assert_eq!(r, Err(CropError::InvalidArgument));
}

#[test]
fn scale_beyond_bound_is_capped() {
    // scale 2.0 capped at 0.25: crop sides floor(100 * 0.25) = 25.
    let w = compute_crop(100, 100, frac(2, 1), frac(0, 1), frac(0, 1), frac(1, 4)).unwrap();
    assert_eq!(w, CropWindow { x: 0, y: 0, width: 25, height: 25 });
}

#[test]
fn tiny_scale_floors_sides_at_two() {
    let w = compute_crop(100, 100, frac(1, 1000), frac(0, 1), frac(0, 1), frac(1, 1)).unwrap();
    assert_eq!(w.width, 2);
    assert_eq!(w.height, 2);
}

#[test]
fn identical_inputs_give_identical_windows() {
    let a = compute_crop(640, 480, frac(3, 7), frac(2, 5), frac(4, 9), frac(9, 10));
    let b = compute_crop(640, 480, frac(3, 7), frac(2, 5), frac(4, 9), frac(9, 10));
    assert_eq!(a, b);
}

#[test]
fn anchor_truncates_toward_zero() {
    // raw anchor floor(1/3 * 100) = 33.
    let w = compute_crop(100, 100, frac(1, 4), frac(1, 3), frac(1, 3), frac(1, 1)).unwrap();
    assert_eq!(w, CropWindow { x: 33, y: 33, width: 25, height: 25 });
}
