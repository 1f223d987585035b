//! Captcha requests: the random default text, the validation rules, and the
//! link to the image generator.

use vstd::prelude::*;

use crate::error::ErrorResponse;
use crate::utils::bool_str;
use crate::utils::dec_digits;
use crate::utils::spec_bool_str;
use crate::utils::u32_to_string;
use rand::Rng;

verus! {

/// The characters captcha text is drawn from: letters and digits that are
/// hard to mistake for one another.
pub open spec fn spec_charset() -> Seq<char> {
    "ABCDEFGHJKLMNPQRSTUVWXYZabcdefghijkmnpqrstuvwxyz23456789"@
}

fn charset() -> (s: &'static str)
    ensures
        s@ == spec_charset(),
        s@.len() == 56,
{
    let s = "ABCDEFGHJKLMNPQRSTUVWXYZabcdefghijkmnpqrstuvwxyz23456789";
    proof {
        reveal_strlit("ABCDEFGHJKLMNPQRSTUVWXYZabcdefghijkmnpqrstuvwxyz23456789");
    }
    s
}

/// Relies on rand::Rng::gen_range on the thread-local generator: the drawn
/// number lies in the given half-open range; the call panics only on an
/// empty range, which the precondition rules out.
#[verifier::external_body]
fn random_below(n: u32) -> (r: u32)
    requires
        n >= 1,
    ensures
        r < n,
{
    rand::thread_rng().gen_range(0..n)
}

/// A fresh random captcha text: five characters drawn from the charset.
pub fn captcha_text() -> (t: String)
    ensures
        t@.len() == 5,
        forall|k: int| 0 <= k < 5 ==> spec_charset().contains(#[trigger] t@[k]),
{
    let cs = charset();
    let mut t = String::new();
    let mut m: usize = 0;
    while m < 5
        invariant
            m <= 5,
            t@.len() == m,
            cs@ == spec_charset(),
            cs@.len() == 56,
            forall|k: int| 0 <= k < m ==> spec_charset().contains(#[trigger] t@[k]),
        decreases 5 - m,
    {
        let idx32 = random_below(56);
        let idx = idx32 as usize;
        let piece = cs.substring_char(idx, idx + 1);
        t.append(piece);
        proof {
            assert(piece@ == spec_charset().subrange(idx as int, idx as int + 1));
            assert(piece@[0] == spec_charset()[idx as int]);
        }
        m = m + 1;
    }
    t
}

/// Default captcha difficulty.
pub fn difficulty() -> (d: u32)
    ensures
        d == 5,
{
    5
}

/// A captcha request: how hard, what text, and which colour scheme.
#[derive(Debug, PartialEq, PartialOrd)]
pub struct CaptchaQueryParams {
    pub difficulty: u32,
    pub text: String,
    pub dark_mode: bool,
}

/// A generation request: like a captcha request, but nothing is optional.
#[derive(Debug, PartialEq, PartialOrd)]
pub struct GenCaptchaQueryParams {
    pub difficulty: u32,
    pub text: String,
    pub dark_mode: bool,
}

/// The reply to a captcha request: the solution and the link that renders it.
pub struct CaptchaResponse {
    pub solution: String,
    pub url: String,
}

/// The link that renders a captcha with the given text, difficulty and
/// colour scheme.
pub open spec fn spec_captcha_url(text: Seq<char>, difficulty: u32, dark: bool) -> Seq<char> {
    "https://api.mettwasser.xyz/image/gen_captcha?text="@ + text + "&difficulty="@ + dec_digits(
        difficulty as int,
    ) + "&darkMode="@ + spec_bool_str(dark)
}

/// Build the generator link for a captcha.
pub fn build_captcha_url(text: &str, difficulty: u32, dark_mode: bool) -> (url: String)
    ensures
        url@ == spec_captcha_url(text@, difficulty, dark_mode),
{
    let mut url = String::from_str("https://api.mettwasser.xyz/image/gen_captcha?text=");
    url.append(text);
    url.append("&difficulty=");
    let d = u32_to_string(difficulty);
    url.append(d.as_str());
    url.append("&darkMode=");
    url.append(bool_str(dark_mode));
    proof {
        assert(url@ =~= spec_captcha_url(text@, difficulty, dark_mode));
    }
    url
}

/// The rules every captcha request must meet: difficulty between 1 and 10,
/// text of one to five characters. Exactly the first offending rule is
/// reported, as a user-correctable failure.
pub fn validate_captcha_request(difficulty: u32, text: &str) -> (res: Result<(), ErrorResponse>)
    ensures
        match res {
            Ok(_) => 1 <= difficulty <= 10 && 1 <= text@.len() <= 5,
            Err(e) => {
                &&& e.spec_code() == 400
                &&& (if !(1 <= difficulty <= 10) {
                    e.spec_message() == "The difficulty must be in between 1 and 10."@
                } else {
                    !(1 <= text@.len() <= 5) && e.spec_message()
                        == "Captcha text length has to 5 or less."@
                })
            },
        },
{
    if difficulty < 1 || difficulty > 10 {
        return Err(ErrorResponse::new(400, "The difficulty must be in between 1 and 10."));
    }
    let len = text.unicode_len();
    if len < 1 || len > 5 {
        return Err(ErrorResponse::new(400, "Captcha text length has to 5 or less."));
    }
    Ok(())
}

/// Answer a captcha request: check the rules, then hand back the text as
/// the solution together with the link that renders it.
pub fn generate_captcha_response(params: &CaptchaQueryParams) -> (res: Result<
    CaptchaResponse,
    ErrorResponse,
>)
    ensures
        match res {
            Ok(resp) => {
                &&& 1 <= params.difficulty <= 10
                &&& 1 <= params.text@.len() <= 5
                &&& resp.solution@ == params.text@
                &&& resp.url@ == spec_captcha_url(
                    params.text@,
                    params.difficulty,
                    params.dark_mode,
                )
            },
            Err(e) => {
                &&& e.spec_code() == 400
                &&& (if !(1 <= params.difficulty <= 10) {
                    e.spec_message() == "The difficulty must be in between 1 and 10."@
                } else {
                    !(1 <= params.text@.len() <= 5) && e.spec_message()
                        == "Captcha text length has to 5 or less."@
                })
            },
        },
{
    match validate_captcha_request(params.difficulty, params.text.as_str()) {
        Err(e) => Err(e),
        Ok(_) => {
            let url = build_captcha_url(params.text.as_str(), params.difficulty, params.dark_mode);
            let solution = params.text.clone();
            Ok(CaptchaResponse { solution, url })
        },
    }
}

} // verus!
