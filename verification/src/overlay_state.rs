//! The overlay pill's timing and wording. The shell owns the window; these
//! are the durations it waits and the messages it shows.

use vstd::prelude::*;
use crate::gemini::GeminiError;
use crate::groq::GroqError;
use crate::text::copy_string;

verus! {

/// Fade-out duration.
pub const FADE_MS: u64 = 240;
/// How long the success state stays up.
pub const SUCCESS_HOLD_MS: u64 = 400;
/// How long an error stays up.
pub const ERROR_HOLD_MS: u64 = 2000;

/// The pill message and log detail of a Groq failure: a rejected key has
/// no detail, the others carry theirs.
pub open spec fn groq_pill(err: GroqError) -> (Seq<char>, Seq<char>) {
    match err {
        GroqError::Unauthorized => ("Invalid API key"@, Seq::empty()),
        GroqError::Network(d) => ("Couldn't reach Groq"@, d@),
        GroqError::Server(d) => ("Groq error"@, d@),
    }
}

/// The pill message and log detail of a Gemini failure, in the same shape
/// as [`groq_pill`].
pub open spec fn gemini_pill(err: GeminiError) -> (Seq<char>, Seq<char>) {
    match err {
        GeminiError::Unauthorized => ("Invalid API key"@, Seq::empty()),
        GeminiError::Network(d) => ("Couldn't reach Google"@, d@),
        GeminiError::Server(d) => ("Google error"@, d@),
    }
}

/// A Groq failure as the pill's short message and the detail for the log.
pub fn describe_error(err: &GroqError) -> (r: (&'static str, String))
    ensures
        (r.0@, r.1@) == groq_pill(*err),
{
    match err {
        GroqError::Unauthorized => ("Invalid API key", String::new()),
        GroqError::Network(detail) => ("Couldn't reach Groq", copy_string(detail)),
        GroqError::Server(detail) => ("Groq error", copy_string(detail)),
    }
}

/// A Gemini failure as the pill's short message and the detail for the log.
pub fn describe_gemini_error(err: &GeminiError) -> (r: (&'static str, String))
    ensures
        (r.0@, r.1@) == gemini_pill(*err),
{
    match err {
        GeminiError::Unauthorized => ("Invalid API key", String::new()),
        GeminiError::Network(detail) => ("Couldn't reach Google", copy_string(detail)),
        GeminiError::Server(detail) => ("Google error", copy_string(detail)),
    }
}

} // verus!
