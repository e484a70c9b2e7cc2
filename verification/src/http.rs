//! HTTP status codes: which of them mean success, and how one is named in a
//! message.
use vstd::prelude::*;

use crate::text;
use crate::text::decimal_text;

verus! {

/// The standard phrase of a status code, where the code has one.
pub uninterp spec fn reason_phrase(code: u16) -> Option<Seq<char>>;

/// `StatusCode::canonical_reason` of the `http` crate, which `reqwest`
/// re-exports: the standard phrase of a status code. The contract only claims
/// that the phrase is a function of the code; a number that is no status code
/// (below 100 or above 999) has none.
#[verifier::external_body]
fn canonical_reason(code: u16) -> (r: Option<&'static str>)
    ensures
        text::opt_str(r) == reason_phrase(code),
        !(100 <= code <= 999) ==> r is None,
{
    reqwest::StatusCode::from_u16(code).ok().and_then(|status| status.canonical_reason())
}

/// Whether a status code reports success.
pub open spec fn success(code: u16) -> bool {
    200 <= code < 300
}

pub fn is_success(code: u16) -> (r: bool)
    ensures
        r == success(code),
        r == (code / 100 == 2),
{
    200 <= code && code < 300
}

/// A status code with the phrase that names it: `404 Not Found`.
pub open spec fn status_text(code: u16) -> Seq<char> {
    text::decimal(code as nat) + " "@ + (match reason_phrase(code) {
        Some(phrase) => phrase,
        None => "<unknown status code>"@,
    })
}

/// Names a failing status in a message: `HTTP 404 Not Found`.
pub fn status_message(code: u16) -> (r: String)
    ensures
        r@ == "HTTP "@ + status_text(code),
        r@ == "HTTP "@ + text::decimal(code as nat) + " "@ + (if reason_phrase(code) is Some {
            reason_phrase(code)->0
        } else {
            "<unknown status code>"@
        }),
{
    let phrase = match canonical_reason(code) {
        Some(phrase) => phrase,
        None => "<unknown status code>",
    };
    let r = "HTTP ".to_string().concat(decimal_text(code as u64).as_str()).concat(" ").concat(
        phrase,
    );
    assert(r@ == "HTTP "@ + status_text(code));
    r
}

/// Success is reported by the codes of the second hundred, and by no others.
pub proof fn lemma_success(code: u16)
    ensures
        success(code) <==> code / 100 == 2,
{
}

/// A status names its code in decimal, then, after one space, the phrase that
/// goes with it.
pub proof fn lemma_status_text(code: u16)
    ensures
        ({
            let n = text::decimal(code as nat).len() as int;
            &&& status_text(code).take(n) == text::decimal(code as nat)
            &&& status_text(code)[n] == ' '
            &&& reason_phrase(code) matches Some(phrase) ==> status_text(code).skip(n + 1) == phrase
            &&& reason_phrase(code) is None ==> status_text(code).skip(n + 1)
                == "<unknown status code>"@
        }),
{
    reveal_strlit(" ");
    let n = text::decimal(code as nat).len() as int;
    let t = status_text(code);
    assert(t.take(n) =~= text::decimal(code as nat));
    if reason_phrase(code) is Some {
        assert(t.skip(n + 1) =~= reason_phrase(code)->0);
    } else {
        assert(t.skip(n + 1) =~= "<unknown status code>"@);
    }
}

} // verus!
