use whispeross::groq::{
    after_attempt, format_request_body, formatted_from_answer, status_outcome, transcript_from_answer,
    transcription_form_fields, AttemptNext, GroqError,
};
use whispeross::prompts::FORMAT_PROMPT;

#[test]
fn transcript_is_read_and_trimmed() {
    assert_eq!(transcript_from_answer(200, "{\"text\": \" hello world \"}").unwrap(), "hello world");
    assert_eq!(transcript_from_answer(200, "{\"other\": 1}").unwrap(), "");
    assert!(matches!(transcript_from_answer(200, "not json"), Err(GroqError::Network(_))));
    assert!(matches!(transcript_from_answer(401, ""), Err(GroqError::Unauthorized)));
    assert!(matches!(transcript_from_answer(403, ""), Err(GroqError::Unauthorized)));
    assert!(matches!(transcript_from_answer(500, "{}"), Err(GroqError::Server(d)) if d == "HTTP 500"));
}

#[test]
fn formatted_text_is_the_first_choice() {
    let body = "{\"choices\":[{\"message\":{\"content\":\"  Hello, world.  \"}},{\"message\":{\"content\":\"no\"}}]}";
    assert_eq!(formatted_from_answer(200, body).unwrap(), "Hello, world.");
    assert!(matches!(formatted_from_answer(429, body), Err(GroqError::Server(d)) if d == "HTTP 429"));
}

#[test]
fn vocabulary_prompt_field_only_when_present() {
    let fields = transcription_form_fields("whisper-large-v3-turbo", "");
    let names: Vec<&str> = fields.iter().map(|f| f.0).collect();
    assert_eq!(names, vec!["model", "language", "temperature", "response_format"]);
    assert_eq!(fields[0].1, "whisper-large-v3-turbo");
    assert_eq!(fields[1].1, "en");
    assert_eq!(fields[2].1, "0");
    assert_eq!(fields[3].1, "json");
    let fields = transcription_form_fields("whisper-large-v3", "WhisperOSS, Tauri");
    assert_eq!(fields.len(), 5);
    assert_eq!(fields[0].1, "whisper-large-v3");
    assert_eq!(fields[4], ("prompt", "WhisperOSS, Tauri".to_string()));
}

#[test]
fn format_request_is_the_chat_body() {
    let body: serde_json::Value = serde_json::from_str(&format_request_body("raw \"text\"")).unwrap();
    assert_eq!(body["model"], "openai/gpt-oss-120b");
    assert_eq!(body["temperature"], 0.3);
    assert_eq!(body["messages"][0]["role"], "system");
    assert_eq!(body["messages"][0]["content"], FORMAT_PROMPT);
    assert_eq!(body["messages"][1]["role"], "user");
    assert_eq!(body["messages"][1]["content"], "raw \"text\"");
}

#[test]
fn one_retry_and_never_after_a_rejected_key() {
    assert!(matches!(after_attempt(0, Err(GroqError::Network("x".into()))), AttemptNext::Retry));
    assert!(matches!(after_attempt(0, Err(GroqError::Server("x".into()))), AttemptNext::Retry));
    assert!(matches!(after_attempt(1, Err(GroqError::Server("HTTP 500".into()))), AttemptNext::Done(Err(GroqError::Server(e))) if e == "HTTP 500"));
    assert!(matches!(after_attempt(0, Err(GroqError::Unauthorized)), AttemptNext::Done(Err(GroqError::Unauthorized))));
    assert!(matches!(after_attempt(0, Ok("t".into())), AttemptNext::Done(Ok(t)) if t == "t"));
    assert!(status_outcome(200).is_ok());
}
