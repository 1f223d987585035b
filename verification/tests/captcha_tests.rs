use api_mettwasser_xyz::captcha::build_captcha_url;
use api_mettwasser_xyz::captcha::captcha_text;
use api_mettwasser_xyz::captcha::difficulty;
use api_mettwasser_xyz::captcha::generate_captcha_response;
use api_mettwasser_xyz::captcha::validate_captcha_request;
use api_mettwasser_xyz::captcha::CaptchaQueryParams;

const CHARSET: &str = "ABCDEFGHJKLMNPQRSTUVWXYZabcdefghijkmnpqrstuvwxyz23456789";

#[test]
fn captcha_text_is_five_charset_chars() {
    for _ in 0..20 {
        let t = captcha_text();
        assert_eq!(t.chars().count(), 5);
        for c in t.chars() {
            assert!(CHARSET.contains(c), "unexpected character {:?}", c);
        }
    }
}

#[test]
fn difficulty_default() {
    assert_eq!(difficulty(), 5);
}

#[test]
fn captcha_validation() {
    assert!(validate_captcha_request(5, "abc").is_ok());
    assert!(validate_captcha_request(1, "a").is_ok());
    assert!(validate_captcha_request(10, "abcde").is_ok());

    let e = validate_captcha_request(0, "abc").unwrap_err();
    assert_eq!(e.code(), 400);
    assert_eq!(e.message(), "The difficulty must be in between 1 and 10.");
    let e = validate_captcha_request(11, "abc").unwrap_err();
    assert_eq!(e.message(), "The difficulty must be in between 1 and 10.");

    let e = validate_captcha_request(5, "").unwrap_err();
    assert_eq!(e.code(), 400);
    assert_eq!(e.message(), "Captcha text length has to 5 or less.");
    let e = validate_captcha_request(5, "abcdef").unwrap_err();
    assert_eq!(e.message(), "Captcha text length has to 5 or less.");
}

#[test]
fn captcha_response_url() {
    let params = CaptchaQueryParams {
        difficulty: 7,
        text: String::from("abc"),
        dark_mode: true,
    };
    let resp = generate_captcha_response(&params).unwrap();
    assert_eq!(resp.solution, "abc");
    assert_eq!(
        resp.url,
        "https://api.mettwasser.xyz/image/gen_captcha?text=abc&difficulty=7&darkMode=true"
    );
}

#[test]
fn captcha_url_rendering() {
    assert_eq!(
        build_captcha_url("Zx9", 10, false),
        "https://api.mettwasser.xyz/image/gen_captcha?text=Zx9&difficulty=10&darkMode=false"
    );
}

#[test]
fn captcha_response_rejects_bad_requests() {
    let params = CaptchaQueryParams {
        difficulty: 0,
        text: String::from("abc"),
        dark_mode: false,
    };
    assert!(generate_captcha_response(&params).is_err());
    let params = CaptchaQueryParams {
        difficulty: 5,
        text: String::from("toolong"),
        dark_mode: false,
    };
    assert!(generate_captcha_response(&params).is_err());
}
