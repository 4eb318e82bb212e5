//! Groq speech-to-text over plain REST. Rules: exactly one retry on network
//! or server failures, no retry on a rejected key. The requests themselves are
//! made by the shell; this module decides what a response means and whether
//! to try again.

use vstd::prelude::*;
use crate::json::{json_quote, json_string, json_string_at, read_json_string};
use crate::prompts::FORMAT_PROMPT;
use crate::text::{concat, decimal, decimal_string, trim, trimmed};

verus! {

pub const PROD_BASE_URL: &'static str = "https://api.groq.com";
/// Speech-to-text model used unless the settings name another.
pub const MODEL: &'static str = "whisper-large-v3-turbo";
/// Chat model of the optional formatting pass.
pub const FORMAT_MODEL: &'static str = "openai/gpt-oss-120b";
/// Attempts per request, the first included.
pub const MAX_ATTEMPTS: u32 = 2;

#[derive(Debug)]
pub enum GroqError {
    Unauthorized,
    Network(String),
    Server(String),
}

/// The meaning of an HTTP status from Groq: 200 means the body holds the
/// result, 401 and 403 a rejected key, anything else a server error
/// "HTTP <status>".
pub fn status_outcome(status: u16) -> (r: Result<(), GroqError>)
    ensures
        status == 200 ==> r is Ok,
        (status == 401 || status == 403) ==> r matches Err(GroqError::Unauthorized),
        (status != 200 && status != 401 && status != 403) ==> (r matches Err(GroqError::Server(d))
            && d@ == "HTTP "@ + decimal(status as nat)),
{
    if status == 200 {
        Ok(())
    } else if status == 401 || status == 403 {
        Err(GroqError::Unauthorized)
    } else {
        Err(GroqError::Server(concat("HTTP ", decimal_string(status as u64).as_str())))
    }
}

/// What follows an attempt.
#[derive(Debug)]
pub enum AttemptNext {
    /// Report this result.
    Done(Result<String, GroqError>),
    /// Try again.
    Retry,
}

/// After attempt number `attempt` (0 for the first) produced `result`: a
/// success or a rejected key ends the request; any other failure is retried
/// once and reported after the second attempt.
pub fn after_attempt(attempt: u32, result: Result<String, GroqError>) -> (n: AttemptNext)
    requires
        attempt < MAX_ATTEMPTS,
    ensures
        match result {
            Ok(t) => n == AttemptNext::Done(Ok(t)),
            Err(GroqError::Unauthorized) => n matches AttemptNext::Done(Err(GroqError::Unauthorized)),
            Err(e) => if attempt + 1 < MAX_ATTEMPTS {
                n is Retry
            } else {
                n == AttemptNext::Done(Err(e))
            },
        },
{
    match result {
        Ok(t) => AttemptNext::Done(Ok(t)),
        Err(GroqError::Unauthorized) => AttemptNext::Done(Err(GroqError::Unauthorized)),
        Err(e) => if attempt + 1 < MAX_ATTEMPTS {
            AttemptNext::Retry
        } else {
            AttemptNext::Done(Err(e))
        },
    }
}

/// The text a successful answer carries at `pointer`, trimmed; empty when
/// there is none there; a network error with the parse error's description
/// when the answer is not JSON.
pub open spec fn answer_text(body: Seq<char>, pointer: Seq<char>) -> Result<Seq<char>, Seq<char>> {
    match json_string_at(body, pointer) {
        Ok(Some(t)) => Ok(trim(t)),
        Ok(None) => Ok(Seq::empty()),
        Err(d) => Err(d),
    }
}

/// The outcome of an answer with `status` and `body`, whose text sits at
/// `pointer`.
pub open spec fn answer_outcome(status: u16, body: Seq<char>, pointer: Seq<char>, r: Result<String, GroqError>) -> bool {
    if status == 200 {
        match answer_text(body, pointer) {
            Ok(t) => r matches Ok(x) && x@ == t,
            Err(d) => r matches Err(GroqError::Network(x)) && x@ == d,
        }
    } else if status == 401 || status == 403 {
        r matches Err(GroqError::Unauthorized)
    } else {
        r matches Err(GroqError::Server(d)) && d@ == "HTTP "@ + decimal(status as nat)
    }
}

fn answer(status: u16, body: &str, pointer: &str) -> (r: Result<String, GroqError>)
    ensures
        answer_outcome(status, body@, pointer@, r),
{
    match status_outcome(status) {
        Ok(()) => match read_json_string(body, pointer) {
            Ok(Some(t)) => Ok(trimmed(t.as_str())),
            Ok(None) => Ok(String::new()),
            Err(d) => Err(GroqError::Network(d)),
        },
        Err(e) => Err(e),
    }
}

/// The transcript in a transcription answer: the `text` field, trimmed.
pub fn transcript_from_answer(status: u16, body: &str) -> (r: Result<String, GroqError>)
    ensures
        answer_outcome(status, body@, "/text"@, r),
{
    answer(status, body, "/text")
}

/// The cleaned-up text in a chat answer: the first choice's message
/// content, trimmed.
pub fn formatted_from_answer(status: u16, body: &str) -> (r: Result<String, GroqError>)
    ensures
        answer_outcome(status, body@, "/choices/0/message/content"@, r),
{
    answer(status, body, "/choices/0/message/content")
}

/// The text fields of a transcription request, in order: the model, English,
/// temperature 0, a JSON answer, and the vocabulary prompt when there is one.
pub open spec fn form_fields(model: Seq<char>, prompt: Seq<char>) -> Seq<(Seq<char>, Seq<char>)> {
    let base = seq![
        ("model"@, model),
        ("language"@, "en"@),
        ("temperature"@, "0"@),
        ("response_format"@, "json"@),
    ];
    if prompt.len() == 0 {
        base
    } else {
        base.push(("prompt"@, prompt))
    }
}

/// Executable form of [`form_fields`].
pub fn transcription_form_fields(model: &str, prompt: &str) -> (f: Vec<(&'static str, String)>)
    ensures
        f@.map_values(|p: (&'static str, String)| (p.0@, p.1@)) == form_fields(model@, prompt@),
{
    let mut f: Vec<(&'static str, String)> = Vec::new();
    f.push(("model", model.to_owned()));
    f.push(("language", "en".to_owned()));
    f.push(("temperature", "0".to_owned()));
    f.push(("response_format", "json".to_owned()));
    if !prompt.is_empty() {
        f.push(("prompt", prompt.to_owned()));
    }
    assert(f@.map_values(|p: (&'static str, String)| (p.0@, p.1@)) =~= form_fields(model@, prompt@));
    f
}

/// The chat request of the cleanup pass for `text`: the format prompt as
/// the system message, the text as the user message, temperature 0.3.
pub open spec fn format_body(text: Seq<char>) -> Seq<char> {
    "{\"messages\":[{\"content\":"@ + json_string(FORMAT_PROMPT@) + ",\"role\":\"system\"},{\"content\":"@
        + json_string(text) + ",\"role\":\"user\"}],\"model\":"@ + json_string(FORMAT_MODEL@)
        + ",\"temperature\":0.3}"@
}

/// Executable form of [`format_body`].
pub fn format_request_body(text: &str) -> (b: String)
    ensures
        b@ == format_body(text@),
{
    let a = concat("{\"messages\":[{\"content\":", json_quote(FORMAT_PROMPT).as_str());
    let b = concat(a.as_str(), ",\"role\":\"system\"},{\"content\":");
    let c = concat(b.as_str(), json_quote(text).as_str());
    let d = concat(c.as_str(), ",\"role\":\"user\"}],\"model\":");
    let e = concat(d.as_str(), json_quote(FORMAT_MODEL).as_str());
    concat(e.as_str(), ",\"temperature\":0.3}")
}

} // verus!
