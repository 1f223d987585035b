use api_mettwasser_xyz::color::hex_color_value;
use api_mettwasser_xyz::color::preview_size;
use api_mettwasser_xyz::color::HexColor;
use api_mettwasser_xyz::color::PreviewSize;
use api_mettwasser_xyz::error::ErrorResponse;
use api_mettwasser_xyz::utils::bool_str;
use api_mettwasser_xyz::utils::check_content_length;
use api_mettwasser_xyz::utils::rgb_to_hex;
use api_mettwasser_xyz::utils::u32_to_string;

#[test]
fn rgb_hex_rendering() {
    assert_eq!(rgb_to_hex(&[99, 132, 184]), "#6384b8");
    assert_eq!(rgb_to_hex(&[0, 0, 0]), "#000000");
    assert_eq!(rgb_to_hex(&[255, 255, 255]), "#ffffff");
    assert_eq!(rgb_to_hex(&[1, 16, 160]), "#0110a0");
}

#[test]
fn hex_parsing() {
    assert_eq!(hex_color_value("#6384b8"), 0x6384b8);
    assert_eq!(hex_color_value("6384b8"), 0x6384b8);
    assert_eq!(hex_color_value("#FF"), 255);
    assert_eq!(hex_color_value("##f#f"), 255);
    assert_eq!(hex_color_value(""), 0);
    assert_eq!(hex_color_value("#"), 0);
    assert_eq!(hex_color_value("xyz"), 0);
    assert_eq!(hex_color_value("12 34"), 0);
    assert_eq!(hex_color_value("ffffffff"), u32::MAX);
    assert_eq!(hex_color_value("fffffffff"), 0);
}

#[test]
fn hex_color_conversions() {
    let c = HexColor::from(0x6384b8u32);
    assert_eq!((c.red, c.green, c.blue), (0x63, 0x84, 0xb8));
    let c = HexColor::from(String::from("#ff0080"));
    assert_eq!((c.red, c.green, c.blue), (255, 0, 128));
    let c = HexColor::from(String::from("not a colour"));
    assert_eq!((c.red, c.green, c.blue), (0, 0, 0));
    // only the low 24 bits matter
    let c = HexColor::from(0xff123456u32);
    assert_eq!((c.red, c.green, c.blue), (0x12, 0x34, 0x56));
}

#[test]
fn preview_sizes() {
    assert_eq!(PreviewSize::from(1u8), PreviewSize::Small);
    assert_eq!(PreviewSize::from(2u8), PreviewSize::Medium);
    assert_eq!(PreviewSize::from(3u8), PreviewSize::Large);
    assert_eq!(PreviewSize::from(0u8), PreviewSize::Small);
    assert_eq!(PreviewSize::from(200u8), PreviewSize::Small);
    assert_eq!(PreviewSize::Small.dimensions(), (128, 128));
    assert_eq!(PreviewSize::Medium.dimensions(), (256, 256));
    assert_eq!(PreviewSize::Large.dimensions(), (512, 512));
    assert_eq!(preview_size(), PreviewSize::Small);
}

#[test]
fn preview_query_resolves_to_colour_and_size() {
    let q = api_mettwasser_xyz::color::PreviewColorQueryParams {
        hex: String::from("#6384b8"),
        size: PreviewSize::Large,
    };
    let (c, s) = q.into_parts();
    assert_eq!((c.red, c.green, c.blue), (0x63, 0x84, 0xb8));
    assert_eq!(s, PreviewSize::Large);
}

#[test]
fn preview_buffer_is_solid_colour() {
    let c = HexColor::from(0x6384b8u32);
    let img = c.into_preview(PreviewSize::Small);
    assert_eq!(img.width(), 128);
    assert_eq!(img.height(), 128);
    for &(x, y) in &[(0u32, 0u32), (127, 0), (64, 64), (127, 127)] {
        let p = img.get(x, y);
        assert_eq!((p.r, p.g, p.b, p.a), (0x63, 0x84, 0xb8, 255));
    }
}

#[test]
fn u32_rendering() {
    assert_eq!(u32_to_string(0), "0");
    assert_eq!(u32_to_string(7), "7");
    assert_eq!(u32_to_string(10), "10");
    assert_eq!(u32_to_string(12345), "12345");
    assert_eq!(u32_to_string(4294967295), "4294967295");
}

#[test]
fn bool_rendering() {
    assert_eq!(bool_str(true), "true");
    assert_eq!(bool_str(false), "false");
}

#[test]
fn content_length_rule() {
    assert!(check_content_length(Some(0)).is_ok());
    assert!(check_content_length(Some(3 * 1024 * 1024)).is_ok());
    let e = check_content_length(Some(3 * 1024 * 1024 + 1)).unwrap_err();
    assert_eq!(e.code(), 400);
    assert_eq!(e.message(), "The requested content cannot exceed 3mb.");
    let e = check_content_length(None).unwrap_err();
    assert_eq!(e.code(), 400);
    assert_eq!(
        e.message(),
        "Couldn't retrieve the content length of the requested URL."
    );
}

#[test]
fn error_response_accessors() {
    let e = ErrorResponse::new(404, "missing");
    assert_eq!(e.code(), 404);
    assert_eq!(e.message(), "missing");
}
