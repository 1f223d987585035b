//! Colour utilities: hex-triplet parsing, preview sizes, solid-colour
//! preview buffers, and the colour-name lookup.

use vstd::prelude::*;

use crate::buffer::Pixel;
use crate::buffer::PixelBuffer;

verus! {

/// Hexadecimal value of a digit character, or -1 for anything else.
pub open spec fn hexv(c: char) -> int {
    if 48 <= c as int <= 57 {
        c as int - 48
    } else if 97 <= c as int <= 102 {
        c as int - 87
    } else if 65 <= c as int <= 70 {
        c as int - 55
    } else {
        -1
    }
}

/// Every character is a hexadecimal digit.
pub open spec fn all_hex(s: Seq<char>) -> bool {
    forall|i: int| 0 <= i < s.len() ==> hexv(s[i]) >= 0
}

/// The number written by a sequence of hexadecimal digits, most significant
/// first.
pub open spec fn hex_value(s: Seq<char>) -> int
    decreases s.len(),
{
    if s.len() == 0 {
        0
    } else {
        hex_value(s.drop_last()) * 16 + hexv(s.last())
    }
}

/// The sequence with every `#` removed.
pub open spec fn strip_hash(s: Seq<char>) -> Seq<char>
    decreases s.len(),
{
    if s.len() == 0 {
        Seq::empty()
    } else {
        let rest = strip_hash(s.drop_last());
        if s.last() == '#' {
            rest
        } else {
            rest.push(s.last())
        }
    }
}

/// What a colour string is worth: strip the hash marks, then read the rest
/// as a hexadecimal number; an empty, malformed or overflowing string is
/// worth 0.
pub open spec fn spec_hex_color_value(s: Seq<char>) -> int {
    let d = strip_hash(s);
    if d.len() >= 1 && all_hex(d) && hex_value(d) <= u32::MAX {
        hex_value(d)
    } else {
        0
    }
}

/// A digit string's value is never negative.
proof fn lemma_hex_value_nonneg(s: Seq<char>)
    requires
        all_hex(s),
    ensures
        hex_value(s) >= 0,
    decreases s.len(),
{
    if s.len() > 0 {
        assert(all_hex(s.drop_last()));
        lemma_hex_value_nonneg(s.drop_last());
    }
}

fn hex_char_val(c: char) -> (res: Option<u32>)
    ensures
        match res {
            Some(d) => hexv(c) == d && d < 16,
            None => hexv(c) < 0,
        },
{
    let u = c as u32;
    if 48 <= u && u <= 57 {
        Some(u - 48)
    } else if 97 <= u && u <= 102 {
        Some(u - 87)
    } else if 65 <= u && u <= 70 {
        Some(u - 55)
    } else {
        None
    }
}

/// Read a colour string: hash marks are ignored, the remaining characters
/// must be hexadecimal digits of a number fitting 32 bits, and anything
/// else is worth 0.
pub fn hex_color_value(s: &str) -> (v: u32)
    ensures
        v == spec_hex_color_value(s@),
{
    let n: usize = s.unicode_len();
    let mut i: usize = 0;
    let mut has: bool = false;
    let mut bad: bool = false;
    let mut over: bool = false;
    let mut val: u32 = 0;
    while i < n
        invariant
            i <= n,
            n == s@.len(),
            has == (strip_hash(s@.take(i as int)).len() >= 1),
            bad == !all_hex(strip_hash(s@.take(i as int))),
            !bad ==> (over == (hex_value(strip_hash(s@.take(i as int))) > u32::MAX)),
            !bad && !over ==> val == hex_value(strip_hash(s@.take(i as int))),
        decreases n - i,
    {
        let ghost pre = strip_hash(s@.take(i as int));
        let c = s.get_char(i);
        proof {
            assert(s@.take(i as int + 1).drop_last() =~= s@.take(i as int));
            assert(s@.take(i as int + 1).last() == c);
        }
        let ghost cur = strip_hash(s@.take(i as int + 1));
        if c != '#' {
            proof {
                assert(cur == pre.push(c));
                assert(cur.drop_last() =~= pre);
                assert(cur.last() == c);
                assert(hex_value(cur) == hex_value(pre) * 16 + hexv(c));
                assert(all_hex(cur) <==> (all_hex(pre) && hexv(c) >= 0)) by {
                    if all_hex(pre) && hexv(c) >= 0 {
                        assert forall|k: int| 0 <= k < cur.len() implies hexv(cur[k]) >= 0 by {
                            if k < pre.len() {
                                assert(cur[k] == pre[k]);
                            }
                        }
                    }
                    if all_hex(cur) {
                        assert forall|k: int| 0 <= k < pre.len() implies hexv(pre[k]) >= 0 by {
                            assert(pre[k] == cur[k]);
                        }
                        assert(hexv(cur[cur.len() - 1]) >= 0);
                    }
                }
            }
            has = true;
            match hex_char_val(c) {
                None => {
                    bad = true;
                },
                Some(d) => {
                    if !bad {
                        proof {
                            if !over {
                                assert(hex_value(pre) == val);
                            } else {
                                lemma_hex_value_nonneg(pre);
                                assert(hex_value(pre) > u32::MAX);
                                assert(hex_value(cur) > u32::MAX);
                            }
                        }
                        if !over {
                            let nv: u64 = (val as u64) * 16 + (d as u64);
                            if nv > 0xffff_ffff {
                                over = true;
                            } else {
                                val = nv as u32;
                            }
                        }
                    }
                },
            }
        } else {
            proof {
                assert(cur == pre);
            }
        }
        i = i + 1;
    }
    proof {
        assert(s@.take(n as int) =~= s@);
    }
    if has && !bad && !over {
        val
    } else {
        0
    }
}

/// A 24-bit RGB colour.
#[derive(Clone, Copy, PartialEq, Eq, Structural, Debug)]
pub struct HexColor {
    pub red: u8,
    pub green: u8,
    pub blue: u8,
}

/// The colour encoded in the low 24 bits of a number.
pub open spec fn spec_color_of_u32(value: u32) -> HexColor {
    HexColor {
        red: ((value >> 16) & 0xff) as u8,
        green: ((value >> 8) & 0xff) as u8,
        blue: (value & 0xff) as u8,
    }
}

impl From<u32> for HexColor {
    /// The low 24 bits of `value`, split into the three channels.
    fn from(value: u32) -> (c: Self)
        ensures
            c == spec_color_of_u32(value),
    {
        let red = ((value >> 16) & 0xff) as u8;
        let green = ((value >> 8) & 0xff) as u8;
        let blue = (value & 0xff) as u8;
        HexColor { red, green, blue }
    }
}

impl vstd::std_specs::convert::FromSpecImpl<u32> for HexColor {
    open spec fn obeys_from_spec() -> bool {
        true
    }

    open spec fn from_spec(value: u32) -> HexColor {
        spec_color_of_u32(value)
    }
}

impl From<String> for HexColor {
    /// The colour written by a hex string such as `#6384b8`; hash marks are
    /// ignored and a malformed string reads as 0 (black).
    fn from(hex: String) -> (c: Self)
        ensures
            c == spec_color_of_u32(spec_hex_color_value(hex@) as u32),
    {
        let number = hex_color_value(hex.as_str());
        proof {
            if all_hex(strip_hash(hex@)) {
                lemma_hex_value_nonneg(strip_hash(hex@));
            }
        }
        HexColor::from(number)
    }
}

impl vstd::std_specs::convert::FromSpecImpl<String> for HexColor {
    open spec fn obeys_from_spec() -> bool {
        true
    }

    open spec fn from_spec(hex: String) -> HexColor {
        spec_color_of_u32(spec_hex_color_value(hex@) as u32)
    }
}

/// The side length, in pixels, of each preview size.
#[derive(Clone, Copy, PartialEq, Eq, Structural, Debug)]
pub enum PreviewSize {
    Small,
    Medium,
    Large,
}

/// The numbering of the preview sizes as they appear in a query: 1, 2, 3,
/// anything else reading as small.
pub open spec fn spec_preview_size_of_u8(value: u8) -> PreviewSize {
    if value == 2 {
        PreviewSize::Medium
    } else if value == 3 {
        PreviewSize::Large
    } else {
        PreviewSize::Small
    }
}

impl From<u8> for PreviewSize {
    fn from(value: u8) -> (s: Self)
        ensures
            s == spec_preview_size_of_u8(value),
    {
        match value {
            2 => PreviewSize::Medium,
            3 => PreviewSize::Large,
            _ => PreviewSize::Small,
        }
    }
}

impl vstd::std_specs::convert::FromSpecImpl<u8> for PreviewSize {
    open spec fn obeys_from_spec() -> bool {
        true
    }

    open spec fn from_spec(value: u8) -> PreviewSize {
        spec_preview_size_of_u8(value)
    }
}

/// The pixel dimensions of each preview size.
pub open spec fn spec_preview_dims(s: PreviewSize) -> (u32, u32) {
    match s {
        PreviewSize::Small => (128u32, 128u32),
        PreviewSize::Medium => (256u32, 256u32),
        PreviewSize::Large => (512u32, 512u32),
    }
}

impl PreviewSize {
    /// Width and height of a preview of this size.
    pub fn dimensions(self) -> (d: (u32, u32))
        ensures
            d == spec_preview_dims(self),
    {
        match self {
            PreviewSize::Small => (128, 128),
            PreviewSize::Medium => (256, 256),
            PreviewSize::Large => (512, 512),
        }
    }
}

/// Default preview size.
pub fn preview_size() -> (s: PreviewSize)
    ensures
        s == PreviewSize::Small,
{
    PreviewSize::Small
}

impl HexColor {
    /// A fully opaque preview buffer of the chosen size, every pixel this
    /// colour.
    pub fn into_preview(self, prev_size: PreviewSize) -> (img: PixelBuffer)
        ensures
            img.wf(),
            (img.spec_width(), img.spec_height()) == spec_preview_dims(prev_size),
            forall|k: int|
                0 <= k < img@.len() ==> img@[k] == (Pixel {
                    r: self.red,
                    g: self.green,
                    b: self.blue,
                    a: 255,
                }),
    {
        let (width, height) = prev_size.dimensions();
        PixelBuffer::new(width, height, Pixel { r: self.red, g: self.green, b: self.blue, a: 255 })
    }
}

/// A colour-preview request: the colour as a hex string, and how large the
/// preview should be.
#[derive(Debug)]
pub struct PreviewColorQueryParams {
    pub hex: String,
    pub size: PreviewSize,
}

impl PreviewColorQueryParams {
    /// The colour and size the request asks for.
    pub fn into_parts(self) -> (res: (HexColor, PreviewSize))
        ensures
            res.0 == spec_color_of_u32(spec_hex_color_value(self.hex@) as u32),
            res.1 == self.size,
    {
        let size = self.size;
        (HexColor::from(self.hex), size)
    }
}

/// The name the colour table gives an exact RGB triple, if any.
pub uninterp spec fn color_name_of(r: u8, g: u8, b: u8) -> Option<Seq<char>>;

/// Relies on color_names::rgb_to_color_name: a lookup in the crate's fixed
/// colour table, a function of the three channel values alone.
#[verifier::external_body]
pub(crate) fn color_name_lookup(r: u8, g: u8, b: u8) -> (res: Option<String>)
    ensures
        match res {
            Some(s) => color_name_of(r, g, b) == Some(s@),
            None => color_name_of(r, g, b) is None,
        },
{
    color_names::rgb_to_color_name(&[r, g, b]).map(|n| n.to_string())
}

} // verus!
