//! A random named colour, with its hex form and a preview link.

use vstd::prelude::*;

use crate::color::color_name_lookup;
use crate::color::color_name_of;
use crate::utils::rgb_to_hex;
use crate::utils::spec_rgb_hex_plain;
use crate::utils::spec_rgb_to_hex;
use rand::seq::IteratorRandom;

verus! {

/// A colour drawn at random from the colour table: its hex form, a link
/// that previews it, and its name.
#[derive(Debug)]
pub struct RandomColorResponse {
    pub color_hex: String,
    pub preview_url: String,
    pub color_name: Option<String>,
}

/// Relies on color_names::COLOR_MAP and rand: draws a random key of the
/// colour table. The table is a fixed, nonempty compile-time map, so a key
/// always exists, and looking any key up yields its name.
#[verifier::external_body]
fn random_palette_color() -> (rgb: (u8, u8, u8))
    ensures
        color_name_of(rgb.0, rgb.1, rgb.2) is Some,
{
    let c = color_names::COLOR_MAP.keys().choose(&mut rand::thread_rng()).unwrap();
    (c[0], c[1], c[2])
}

impl RandomColorResponse {
    /// Draw a random colour from the table. Whatever comes out, the reply
    /// is consistent: the hex form, the preview link and the name all
    /// describe one and the same RGB triple, and that triple has a name.
    pub fn new_random() -> (resp: Self)
        ensures
            exists|r: u8, g: u8, b: u8|
                {
                    &&& #[trigger] color_name_of(r, g, b) is Some
                    &&& resp.color_hex@ == spec_rgb_to_hex(r, g, b)
                    &&& resp.preview_url@ == "https://api.mettwasser.xyz/image/colorpreview?hex="@
                        + spec_rgb_hex_plain(r, g, b)
                    &&& (match resp.color_name {
                        Some(n) => color_name_of(r, g, b) == Some(n@),
                        None => color_name_of(r, g, b) is None,
                    })
                },
    {
        let (r, g, b) = random_palette_color();
        let color_name = color_name_lookup(r, g, b);
        let arr: [u8; 3] = [r, g, b];
        let color_hex = rgb_to_hex(&arr);
        let mut url = String::from_str("https://api.mettwasser.xyz/image/colorpreview?hex=");
        proof {
            assert(spec_rgb_to_hex(r, g, b).subrange(1, 7) =~= spec_rgb_hex_plain(r, g, b));
        }
        url.append(color_hex.as_str().substring_char(1, 7));
        let resp = RandomColorResponse { color_hex, preview_url: url, color_name };
        proof {
            assert({
                &&& color_name_of(r, g, b) is Some
                &&& resp.color_hex@ == spec_rgb_to_hex(r, g, b)
                &&& resp.preview_url@ == "https://api.mettwasser.xyz/image/colorpreview?hex="@
                    + spec_rgb_hex_plain(r, g, b)
                &&& (match resp.color_name {
                    Some(n) => color_name_of(r, g, b) == Some(n@),
                    None => color_name_of(r, g, b) is None,
                })
            });
        }
        resp
    }
}

} // verus!
