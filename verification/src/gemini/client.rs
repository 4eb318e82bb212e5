//! Reading the answer to a key-validation request (a GET of the model
//! resource). The request is made by the shell.

use vstd::prelude::*;
use super::{GeminiError, GeminiErrorView};
use crate::text::{
    ascii_lower, chars_of, concat, contains, contains_text, decimal, decimal_string, string_from_range,
    to_ascii_lower,
};

verus! {

pub const PROD_BASE_URL: &'static str = "https://generativelanguage.googleapis.com";

/// `url` without its trailing slashes, as `trim_end_matches('/')`.
pub open spec fn strip_trailing_slashes(url: Seq<char>) -> Seq<char>
    decreases url.len(),
{
    if url.len() > 0 && url.last() == '/' {
        strip_trailing_slashes(url.drop_last())
    } else {
        url
    }
}

/// The base URL with its trailing slashes removed.
pub fn normalized_base(url: &str) -> (r: String)
    ensures
        r@ == strip_trailing_slashes(url@),
{
    let c = chars_of(url);
    let mut j = c.len();
    assert(c@.subrange(0, j as int) =~= c@);
    while j > 0 && c[j - 1] == '/'
        invariant
            j <= c@.len(),
            c@ == url@,
            strip_trailing_slashes(url@) == strip_trailing_slashes(c@.subrange(0, j as int)),
        decreases j,
    {
        assert(c@.subrange(0, j as int).drop_last() =~= c@.subrange(0, j - 1));
        j -= 1;
    }
    string_from_range(&c, 0, j)
}

/// The model resource whose GET validates a key.
pub fn model_url(base: &str, model: &str) -> (r: String)
    ensures
        r@ == base@ + "/v1beta/models/"@ + model@,
{
    let s = concat(base, "/v1beta/models/");
    concat(s.as_str(), model)
}

/// "HTTP <status>", followed by ": <body>" when the body is not empty.
pub open spec fn response_detail(status: u16, body: Seq<char>) -> Seq<char> {
    if body.len() == 0 {
        "HTTP "@ + decimal(status as nat)
    } else {
        "HTTP "@ + decimal(status as nat) + ": "@ + body
    }
}

/// Whether a 400 answer says the key is invalid.
pub open spec fn says_key_invalid(detail: Seq<char>) -> bool {
    let d = detail.map_values(|c: char| ascii_lower(c));
    contains_text(d, "api_key_invalid"@) || contains_text(d, "api key not valid"@) || contains_text(
        d,
        "invalid api key"@,
    )
}

/// Reads a validation answer: 200 accepts the key; 401, 403, and a 400 whose
/// text says the key is invalid reject it; anything else is a server error
/// carrying the status and body.
pub fn validation_result(status: u16, body: &str) -> (r: Result<(), GeminiError>)
    ensures
        status == 200 ==> r is Ok,
        (status == 401 || status == 403) ==> r matches Err(GeminiError::Unauthorized),
        (status != 200 && status != 401 && status != 403) ==> {
            let detail = response_detail(status, body@);
            if status == 400 && says_key_invalid(detail) {
                r matches Err(GeminiError::Unauthorized)
            } else {
                r matches Err(e) && e@ == GeminiErrorView::Server(detail)
            }
        },
{
    if status == 200 {
        return Ok(());
    }
    if status == 401 || status == 403 {
        return Err(GeminiError::Unauthorized);
    }
    let head = concat("HTTP ", decimal_string(status as u64).as_str());
    let detail = if body.is_empty() {
        head
    } else {
        let with_colon = concat(head.as_str(), ": ");
        concat(with_colon.as_str(), body)
    };
    let dc = chars_of(detail.as_str());
    let mut lowered: Vec<char> = Vec::new();
    let mut i: usize = 0;
    while i < dc.len()
        invariant
            i <= dc@.len(),
            lowered@ == dc@.take(i as int).map_values(|c: char| ascii_lower(c)),
        decreases dc.len() - i,
    {
        lowered.push(to_ascii_lower(dc[i]));
        assert(lowered@ =~= dc@.take(i + 1).map_values(|c: char| ascii_lower(c)));
        i += 1;
    }
    assert(dc@.take(dc@.len() as int) =~= dc@);
    let p1 = chars_of("api_key_invalid");
    let p2 = chars_of("api key not valid");
    let p3 = chars_of("invalid api key");
    if status == 400 && (contains(&lowered, &p1) || contains(&lowered, &p2) || contains(&lowered, &p3)) {
        Err(GeminiError::Unauthorized)
    } else {
        Err(GeminiError::Server(detail))
    }
}

} // verus!
