use whispeross::gemini::GeminiError;
use whispeross::groq::GroqError;
use whispeross::overlay_state::{describe_error, describe_gemini_error, ERROR_HOLD_MS, FADE_MS, SUCCESS_HOLD_MS};

#[test]
fn error_descriptions_match_spec() {
    let (msg, detail) = describe_error(&GroqError::Unauthorized);
    assert_eq!(msg, "Invalid API key");
    assert_eq!(detail, "");

    let (msg, detail) = describe_error(&GroqError::Network("dns fail".into()));
    assert_eq!(msg, "Couldn't reach Groq");
    assert_eq!(detail, "dns fail");

    let (msg, detail) = describe_error(&GroqError::Server("HTTP 500".into()));
    assert_eq!(msg, "Groq error");
    assert_eq!(detail, "HTTP 500");
}

#[test]
fn durations_match_design() {
    assert_eq!(FADE_MS, 240);
    assert_eq!(SUCCESS_HOLD_MS, 400);
    assert_eq!(ERROR_HOLD_MS, 2000);
}

// Own tests.

#[test]
fn gemini_error_descriptions() {
    let (msg, detail) = describe_gemini_error(&GeminiError::Unauthorized);
    assert_eq!(msg, "Invalid API key");
    assert_eq!(detail, "");
    let (msg, detail) = describe_gemini_error(&GeminiError::Network("Live connection closed".into()));
    assert_eq!(msg, "Couldn't reach Google");
    assert_eq!(detail, "Live connection closed");
    let (msg, detail) = describe_gemini_error(&GeminiError::Server("HTTP 503".into()));
    assert_eq!(msg, "Google error");
    assert_eq!(detail, "HTTP 503");
}
