use api_mettwasser_xyz::buffer::Pixel;
use api_mettwasser_xyz::buffer::PixelBuffer;
use api_mettwasser_xyz::dominant::dominant_colors_of;
use api_mettwasser_xyz::random_color::RandomColorResponse;

fn px(r: u8, g: u8, b: u8) -> Pixel {
    Pixel { r, g, b, a: 255 }
}

#[test]
fn dominant_colors_ordered_by_count() {
    let data = vec![px(255, 0, 0), px(0, 0, 255), px(255, 0, 0), px(255, 0, 0)];
    let img = PixelBuffer::from_pixels(2, 2, data).unwrap();
    let entries = dominant_colors_of(&img);
    assert_eq!(entries.len(), 2);
    assert_eq!(entries[0].color, "#ff0000");
    assert_eq!(entries[0].pixels_counted, 3);
    assert_eq!(entries[0].color_name.as_deref(), Some("Red"));
    assert_eq!(entries[1].color, "#0000ff");
    assert_eq!(entries[1].pixels_counted, 1);
    assert_eq!(entries[1].color_name.as_deref(), Some("Blue"));
}

#[test]
fn dominant_colors_single_colour() {
    let img = PixelBuffer::new(3, 3, px(99, 132, 184));
    let entries = dominant_colors_of(&img);
    assert_eq!(entries.len(), 1);
    assert_eq!(entries[0].color, "#6384b8");
    assert_eq!(entries[0].pixels_counted, 9);
    assert_eq!(entries[0].color_name.as_deref(), Some("Marine Ink"));
}

#[test]
fn dominant_counts_are_non_increasing() {
    let data = vec![
        px(1, 1, 1),
        px(2, 2, 2),
        px(2, 2, 2),
        px(3, 3, 3),
        px(3, 3, 3),
        px(3, 3, 3),
    ];
    let img = PixelBuffer::from_pixels(3, 2, data).unwrap();
    let entries = dominant_colors_of(&img);
    assert_eq!(entries.len(), 3);
    assert!(entries[0].pixels_counted >= entries[1].pixels_counted);
    assert!(entries[1].pixels_counted >= entries[2].pixels_counted);
    assert_eq!(entries[0].pixels_counted, 3);
    assert_eq!(entries[2].pixels_counted, 1);
}

#[test]
fn random_color_is_consistent() {
    for _ in 0..5 {
        let resp = RandomColorResponse::new_random();
        assert!(resp.color_name.is_some());
        assert_eq!(resp.color_hex.len(), 7);
        assert!(resp.color_hex.starts_with('#'));
        assert_eq!(
            resp.preview_url,
            format!(
                "https://api.mettwasser.xyz/image/colorpreview?hex={}",
                &resp.color_hex[1..]
            )
        );
    }
}
