//! Small shared helpers: hexadecimal and decimal rendering of numbers, and
//! the size rule applied to fetched content.

use vstd::prelude::*;

use crate::error::ErrorResponse;

verus! {

/// The lower-case hexadecimal digit for a value in `[0, 16)`.
pub open spec fn hex_digit(d: int) -> char {
    if d == 0 {
        '0'
    } else if d == 1 {
        '1'
    } else if d == 2 {
        '2'
    } else if d == 3 {
        '3'
    } else if d == 4 {
        '4'
    } else if d == 5 {
        '5'
    } else if d == 6 {
        '6'
    } else if d == 7 {
        '7'
    } else if d == 8 {
        '8'
    } else if d == 9 {
        '9'
    } else if d == 10 {
        'a'
    } else if d == 11 {
        'b'
    } else if d == 12 {
        'c'
    } else if d == 13 {
        'd'
    } else if d == 14 {
        'e'
    } else {
        'f'
    }
}

/// The two hexadecimal digits of one byte.
pub open spec fn hex_byte_chars(b: u8) -> Seq<char> {
    seq![hex_digit(b as int / 16), hex_digit(b as int % 16)]
}

/// The six hexadecimal digits of an RGB triple.
pub open spec fn spec_rgb_hex_plain(r: u8, g: u8, b: u8) -> Seq<char> {
    hex_byte_chars(r) + hex_byte_chars(g) + hex_byte_chars(b)
}

/// An RGB triple as `#rrggbb`.
pub open spec fn spec_rgb_to_hex(r: u8, g: u8, b: u8) -> Seq<char> {
    seq!['#'] + spec_rgb_hex_plain(r, g, b)
}

fn hex_digit_str(d: u8) -> (s: &'static str)
    requires
        d < 16,
    ensures
        s@ == seq![hex_digit(d as int)],
{
    let s: &'static str = match d {
        0 => "0",
        1 => "1",
        2 => "2",
        3 => "3",
        4 => "4",
        5 => "5",
        6 => "6",
        7 => "7",
        8 => "8",
        9 => "9",
        10 => "a",
        11 => "b",
        12 => "c",
        13 => "d",
        14 => "e",
        _ => "f",
    };
    proof {
        reveal_strlit("0");
        reveal_strlit("1");
        reveal_strlit("2");
        reveal_strlit("3");
        reveal_strlit("4");
        reveal_strlit("5");
        reveal_strlit("6");
        reveal_strlit("7");
        reveal_strlit("8");
        reveal_strlit("9");
        reveal_strlit("a");
        reveal_strlit("b");
        reveal_strlit("c");
        reveal_strlit("d");
        reveal_strlit("e");
        reveal_strlit("f");
        assert(s@ =~= seq![hex_digit(d as int)]);
    }
    s
}

/// One byte as two lower-case hexadecimal digits, appended to `out`.
fn push_hex_byte(out: &mut String, b: u8)
    ensures
        final(out)@ == old(out)@ + hex_byte_chars(b),
{
    out.append(hex_digit_str(b / 16));
    out.append(hex_digit_str(b % 16));
    proof {
        assert(final(out)@ =~= old(out)@ + hex_byte_chars(b));
    }
}

/// An RGB triple rendered as `#rrggbb`, lower case.
pub fn rgb_to_hex(rgb: &[u8; 3]) -> (s: String)
    ensures
        s@ == spec_rgb_to_hex(rgb@[0], rgb@[1], rgb@[2]),
{
    let mut s = String::new();
    s.append("#");
    proof {
        reveal_strlit("#");
        assert(s@ =~= seq!['#']);
    }
    push_hex_byte(&mut s, rgb[0]);
    push_hex_byte(&mut s, rgb[1]);
    push_hex_byte(&mut s, rgb[2]);
    proof {
        assert(s@ =~= spec_rgb_to_hex(rgb@[0], rgb@[1], rgb@[2]));
    }
    s
}

/// The decimal digit for a value in `[0, 10)`.
pub open spec fn dec_digit(d: int) -> char {
    if d == 0 {
        '0'
    } else if d == 1 {
        '1'
    } else if d == 2 {
        '2'
    } else if d == 3 {
        '3'
    } else if d == 4 {
        '4'
    } else if d == 5 {
        '5'
    } else if d == 6 {
        '6'
    } else if d == 7 {
        '7'
    } else if d == 8 {
        '8'
    } else {
        '9'
    }
}

/// The decimal digits of a non-negative number, most significant first.
pub open spec fn dec_digits(n: int) -> Seq<char>
    recommends
        n >= 0,
    decreases n,
{
    if n < 10 {
        seq![dec_digit(n)]
    } else {
        dec_digits(n / 10).push(dec_digit(n % 10))
    }
}

fn dec_digit_str(d: u32) -> (s: &'static str)
    requires
        d < 10,
    ensures
        s@ == seq![dec_digit(d as int)],
{
    let s: &'static str = match d {
        0 => "0",
        1 => "1",
        2 => "2",
        3 => "3",
        4 => "4",
        5 => "5",
        6 => "6",
        7 => "7",
        8 => "8",
        _ => "9",
    };
    proof {
        reveal_strlit("0");
        reveal_strlit("1");
        reveal_strlit("2");
        reveal_strlit("3");
        reveal_strlit("4");
        reveal_strlit("5");
        reveal_strlit("6");
        reveal_strlit("7");
        reveal_strlit("8");
        reveal_strlit("9");
        assert(s@ =~= seq![dec_digit(d as int)]);
    }
    s
}

/// A number rendered in decimal, without sign or padding.
pub fn u32_to_string(n: u32) -> (s: String)
    ensures
        s@ == dec_digits(n as int),
    decreases n,
{
    if n < 10 {
        String::from_str(dec_digit_str(n))
    } else {
        let mut s = u32_to_string(n / 10);
        s.append(dec_digit_str(n % 10));
        proof {
            assert(s@ =~= dec_digits(n as int));
        }
        s
    }
}

/// `true` or `false`, as text.
pub open spec fn spec_bool_str(b: bool) -> Seq<char> {
    if b {
        "true"@
    } else {
        "false"@
    }
}

/// Render a flag the way it appears in a query string.
pub fn bool_str(b: bool) -> (s: &'static str)
    ensures
        s@ == spec_bool_str(b),
{
    if b {
        "true"
    } else {
        "false"
    }
}

/// Largest content length accepted when fetching an image, in bytes.
pub open spec fn max_content_length() -> int {
    (3 * 1024 * 1024) as int
}

/// The rule applied to a fetched response before its body is read: the
/// length must be known and must not exceed three megabytes. Exactly the
/// offending condition is reported, as a user-correctable failure.
pub fn check_content_length(length: Option<u64>) -> (res: Result<(), ErrorResponse>)
    ensures
        match res {
            Ok(_) => length is Some && length->0 <= max_content_length(),
            Err(e) => {
                &&& e.spec_code() == 400
                &&& (match length {
                    Some(l) => l > max_content_length() && e.spec_message()
                        == "The requested content cannot exceed 3mb."@,
                    None => e.spec_message()
                        == "Couldn't retrieve the content length of the requested URL."@,
                })
            },
        },
{
    match length {
        Some(l) => {
            if l > 3 * 1024 * 1024 {
                Err(ErrorResponse::new(400, "The requested content cannot exceed 3mb."))
            } else {
                Ok(())
            }
        },
        None => Err(
            ErrorResponse::new(400, "Couldn't retrieve the content length of the requested URL."),
        ),
    }
}

} // verus!
