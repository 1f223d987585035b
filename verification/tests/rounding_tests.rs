use api_mettwasser_xyz::buffer::Pixel;
use api_mettwasser_xyz::buffer::PixelBuffer;
use api_mettwasser_xyz::rounding::border_radius;
use api_mettwasser_xyz::rounding::radius;
use api_mettwasser_xyz::rounding::resolve_radii;
use api_mettwasser_xyz::rounding::round;
use api_mettwasser_xyz::rounding::Corner;
use api_mettwasser_xyz::rounding::RoundImageQueryParams;

fn opaque_white(w: u32, h: u32) -> PixelBuffer {
    PixelBuffer::new(
        w,
        h,
        Pixel {
            r: 255,
            g: 255,
            b: 255,
            a: 255,
        },
    )
}

fn params(
    auto: bool,
    corner_radius: u32,
    tl: Option<u32>,
    tr: Option<u32>,
    bl: Option<u32>,
    br: Option<u32>,
) -> RoundImageQueryParams {
    RoundImageQueryParams::new(String::new(), auto, corner_radius, tl, tr, bl, br)
}

#[test]
fn zero_radius_keeps_buffer() {
    let mut img = opaque_white(8, 8);
    border_radius(&mut img, 0, Corner::TopLeft);
    border_radius(&mut img, 0, Corner::BottomRight);
    for y in 0..8 {
        for x in 0..8 {
            assert_eq!(img.get(x, y).a, 255);
        }
    }
}

#[test]
fn zero_shared_radius_round_is_identity() {
    let mut img = opaque_white(10, 6);
    let res = round(&mut img, params(false, 0, None, None, None, None));
    assert!(res.is_ok());
    for y in 0..6 {
        for x in 0..10 {
            assert_eq!(img.get(x, y).a, 255);
        }
    }
}

#[test]
fn corner_pixel_cleared_for_radius_four_and_up() {
    for r in [4u32, 5, 6, 7, 8, 20] {
        let mut img = opaque_white(40, 40);
        border_radius(&mut img, r, Corner::TopLeft);
        assert_eq!(img.get(0, 0).a, 0, "radius {}", r);

        let mut img = opaque_white(40, 40);
        border_radius(&mut img, r, Corner::TopRight);
        assert_eq!(img.get(39, 0).a, 0, "radius {}", r);

        let mut img = opaque_white(40, 40);
        border_radius(&mut img, r, Corner::BottomLeft);
        assert_eq!(img.get(0, 39).a, 0, "radius {}", r);

        let mut img = opaque_white(40, 40);
        border_radius(&mut img, r, Corner::BottomRight);
        assert_eq!(img.get(39, 39).a, 0, "radius {}", r);
    }
}

#[test]
fn tiny_radius_keeps_partial_corner_alpha() {
    for r in [1u32, 2, 3] {
        let mut img = opaque_white(8, 8);
        border_radius(&mut img, r, Corner::TopLeft);
        assert!(img.get(0, 0).a > 0, "radius {}", r);
    }
}

#[test]
fn rotation_matches_top_right() {
    let n: u32 = 12;
    let r: u32 = 5;
    let mut a = opaque_white(n, n);
    border_radius(&mut a, r, Corner::TopLeft);
    let mut b = opaque_white(n, n);
    border_radius(&mut b, r, Corner::TopRight);
    for y in 0..n {
        for x in 0..n {
            // rotating `a` a quarter turn clockwise puts its pixel
            // (y, n - 1 - x) at position (x, y)
            assert_eq!(b.get(x, y).a, a.get(y, n - 1 - x).a, "at {} {}", x, y);
        }
    }
}

#[test]
fn diagonal_alpha_non_increasing() {
    let r: u32 = 12;
    let mut img = opaque_white(30, 30);
    border_radius(&mut img, r, Corner::TopLeft);
    let mut prev: u8 = 255;
    for k in 0..r {
        let cur = img.get(r - 1 - k, r - 1 - k).a;
        assert!(cur <= prev, "alpha rose walking outward at step {}", k);
        prev = cur;
    }
}

#[test]
fn alpha_values_in_range_after_round() {
    let mut img = opaque_white(50, 50);
    let res = round(&mut img, params(false, 10, None, None, None, None));
    assert!(res.is_ok());
    for y in 0..50 {
        for x in 0..50 {
            let p = img.get(x, y);
            assert!(p.a <= 255);
            assert_eq!((p.r, p.g, p.b), (255, 255, 255));
        }
    }
}

#[test]
fn opaque_square_rounded_with_shared_radius() {
    let r: i64 = 20;
    let mut img = opaque_white(100, 100);
    let res = round(&mut img, params(false, 20, None, None, None, None));
    assert!(res.is_ok());

    // the centre region is untouched
    assert_eq!(img.get(50, 50).a, 255);
    assert_eq!(img.get(20, 20).a, 255);

    // the four extreme corner pixels are fully transparent
    assert_eq!(img.get(0, 0).a, 0);
    assert_eq!(img.get(99, 0).a, 0);
    assert_eq!(img.get(0, 99).a, 0);
    assert_eq!(img.get(99, 99).a, 0);

    // within each corner block: pixels well inside the quarter-disk keep
    // alpha 255, pixels well outside drop to 0 (distances measured from the
    // circle centre, doubled to stay in integers)
    let centers = [(20i64, 20i64), (80, 20), (20, 80), (80, 80)];
    let in_block = |cx: i64, cy: i64, x: i64, y: i64| -> bool {
        (x - cx).abs() <= 20 && (y - cy).abs() <= 20 && (x < 20 || x > 79) && (y < 20 || y > 79)
    };
    for &(cx, cy) in &centers {
        for y in 0..100i64 {
            for x in 0..100i64 {
                if !in_block(cx, cy, x, y) {
                    continue;
                }
                let dx = 2 * x + 1 - 2 * cx;
                let dy = 2 * y + 1 - 2 * cy;
                let d2 = dx * dx + dy * dy;
                let a = img.get(x as u32, y as u32).a;
                if d2 <= (2 * (r - 1)) * (2 * (r - 1)) {
                    assert_eq!(a, 255, "inside pixel {} {} of corner {} {}", x, y, cx, cy);
                }
                if d2 >= (2 * (r + 1)) * (2 * (r + 1)) {
                    assert_eq!(a, 0, "outside pixel {} {} of corner {} {}", x, y, cx, cy);
                }
            }
        }
    }
}

#[test]
fn overlapping_radii_rejected() {
    let mut img = opaque_white(100, 100);
    let res = round(&mut img, params(false, 0, Some(60), Some(60), None, None));
    match res {
        Err(e) => {
            assert_eq!(e.code(), 400);
            assert_eq!(e.message(), "Radius out of range!");
        }
        Ok(_) => panic!("60 + 60 > 100 must be rejected"),
    }
    // nothing was touched
    for y in 0..100 {
        for x in 0..100 {
            assert_eq!(img.get(x, y).a, 255);
        }
    }
}

#[test]
fn height_pairing_rejected() {
    // left edge: top-left and bottom-left radii together exceed the height
    let mut img = opaque_white(100, 50);
    let res = round(&mut img, params(false, 0, Some(30), None, Some(30), None));
    assert!(res.is_err());
}

#[test]
fn auto_mode_uses_half_smaller_dimension() {
    let p = params(true, 3, Some(99), None, None, None);
    let radii = resolve_radii(50, 80, &p).unwrap();
    assert_eq!(radii, (25, 25, 25, 25));

    let mut img = opaque_white(50, 80);
    assert!(round(&mut img, p).is_ok());
    assert_eq!(img.get(0, 0).a, 0);
}

#[test]
fn manual_radii_from_overrides() {
    let p = params(false, 7, Some(2), None, None, Some(9));
    assert_eq!(p.top_left(), 2);
    assert_eq!(p.top_right(), 7);
    assert_eq!(p.bottom_left(), 7);
    assert_eq!(p.bottom_right(), 9);
    assert_eq!(p.list_corners(), (2, 7, 7, 9));
}

#[test]
fn query_defaults() {
    assert_eq!(radius(), 3);
    assert!(!api_mettwasser_xyz::rounding::auto());
}

#[test]
fn from_pixels_checks_dimensions() {
    let px = Pixel {
        r: 1,
        g: 2,
        b: 3,
        a: 4,
    };
    let data = vec![px; 6];
    let img = PixelBuffer::from_pixels(3, 2, data).unwrap();
    assert_eq!(img.width(), 3);
    assert_eq!(img.height(), 2);
    assert_eq!(img.get(2, 1), px);

    let data = vec![px; 5];
    assert!(PixelBuffer::from_pixels(3, 2, data).is_none());
    let data = vec![px; 0];
    assert!(PixelBuffer::from_pixels(0, 0, data).is_none());
}
