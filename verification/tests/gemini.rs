use whispeross::gemini::client::{model_url, normalized_base, validation_result};
use whispeross::gemini::live::{connect_error, handshake_error, server_event, setup_step, ConnectFailure, ServerEvent, SetupStep};
use whispeross::gemini::protocol::{
    activity_end_message, activity_start_message, audio_message, decode_server_message, decode_text_message, setup_message,
    WireFrame,
};
use whispeross::gemini::transcript_buffer::{ServerContent, ServerMessage, ServerSignal, TranscriptBuffer};
use whispeross::gemini::GeminiError;

fn parse(text: &str) -> serde_json::Value {
    serde_json::from_str(text).unwrap()
}

fn content(interim: Option<&str>, input: Option<&str>, turn: bool, generation: bool) -> ServerMessage {
    ServerMessage {
        setup_complete: false,
        go_away: false,
        server_content: Some(ServerContent {
            interim_text: interim.map(|s| s.to_string()),
            input_text: input.map(|s| s.to_string()),
            turn_complete: turn,
            generation_complete: generation,
        }),
    }
}

#[test]
fn tests_setup_selects_live_text_transcription_with_user_preferences() {
    let message = parse(&setup_message("gemini-3.5-transcribe-live", &vec!["WhisperOSS".into(), "Tauri".into()], true));

    assert_eq!(message["setup"]["model"], "models/gemini-3.5-transcribe-live");
    let modalities = &message["setup"]["generationConfig"]["responseModalities"];
    assert_eq!(modalities.as_array().unwrap().len(), 1);
    assert_eq!(modalities[0], "TEXT");
    assert_eq!(message["setup"]["inputAudioTranscription"]["mode"], "SMART");
    let vocabulary = &message["setup"]["inputAudioTranscription"]["customVocabulary"];
    assert_eq!(vocabulary.as_array().unwrap().len(), 2);
    assert_eq!(vocabulary[0], "WhisperOSS");
    assert_eq!(vocabulary[1], "Tauri");
    assert_eq!(message["setup"]["realtimeInputConfig"]["automaticActivityDetection"]["disabled"], true);
}

#[test]
fn tests_default_verbatim_setup_matches_minimal_live_sdk_request() {
    let message = parse(&setup_message("gemini-3.5-transcribe-live", &vec![], false));

    assert_eq!(message["setup"]["inputAudioTranscription"], serde_json::Value::Object(serde_json::Map::new()));
    assert_eq!(message["setup"]["realtimeInputConfig"]["automaticActivityDetection"]["disabled"], true);
}

#[test]
fn tests_audio_frame_is_little_endian_pcm_at_16khz() {
    let message = parse(&audio_message(&[0, 1, -1]));

    assert_eq!(message["realtimeInput"]["audio"]["mimeType"], "audio/pcm;rate=16000");
    assert_eq!(message["realtimeInput"]["audio"]["data"], "AAABAP__");
}

#[test]
fn final_transcript_supersedes_interim_text() {
    let mut transcript = TranscriptBuffer::default();
    assert_eq!(transcript.ingest(&content(Some("streaming phrase"), None, false, false)), ServerSignal::Continue);
    assert_eq!(transcript.text(), "streaming phrase");

    transcript.ingest(&content(None, Some("finalized complete sentence"), true, false));
    assert_eq!(transcript.text(), "finalized complete sentence");
}

#[test]
fn tests_unfinished_interim_is_not_lost_at_stream_end() {
    let mut transcript = TranscriptBuffer::default();
    transcript.ingest(&content(Some("trailing words"), None, false, false));

    assert_eq!(transcript.text(), "trailing words");
}

#[test]
fn tests_generation_complete_does_not_beat_late_transcription() {
    let mut transcript = TranscriptBuffer::default();

    assert_eq!(transcript.ingest(&content(None, None, false, true)), ServerSignal::GenerationComplete);
    transcript.ingest(&content(None, Some("arrived after generation"), true, false));
    assert_eq!(transcript.text(), "arrived after generation");
}

#[test]
fn gemini_setup_selects_live_text_transcription_with_user_preferences() {
    let message = parse(&setup_message("gemini-3.5-transcribe-live", &vec!["WhisperOSS".into(), "Tauri".into()], true));

    assert_eq!(message["setup"]["model"], "models/gemini-3.5-transcribe-live");
    let modalities = &message["setup"]["generationConfig"]["responseModalities"];
    assert_eq!(modalities.as_array().unwrap().len(), 1);
    assert_eq!(modalities[0], "TEXT");
    assert_eq!(message["setup"]["inputAudioTranscription"]["mode"], "SMART");
    let vocabulary = &message["setup"]["inputAudioTranscription"]["customVocabulary"];
    assert_eq!(vocabulary.as_array().unwrap().len(), 2);
    assert_eq!(vocabulary[0], "WhisperOSS");
    assert_eq!(vocabulary[1], "Tauri");
}

#[test]
fn gemini_default_verbatim_setup_matches_minimal_live_sdk_request() {
    let message = parse(&setup_message("gemini-3.5-transcribe-live", &vec![], false));

    assert_eq!(message["setup"]["inputAudioTranscription"], serde_json::Value::Object(serde_json::Map::new()));
}

#[test]
fn gemini_unfinished_interim_is_not_lost_at_stream_end() {
    let mut transcript = TranscriptBuffer::default();
    transcript.ingest(&content(Some("trailing words"), None, false, false));

    assert_eq!(transcript.text(), "trailing words");
}

#[test]
fn gemini_generation_complete_does_not_beat_late_transcription() {
    let mut transcript = TranscriptBuffer::default();

    assert_eq!(transcript.ingest(&content(None, None, false, true)), ServerSignal::GenerationComplete);
    transcript.ingest(&content(None, Some("arrived after generation"), true, false));
    assert_eq!(transcript.text(), "arrived after generation");
}

// Own tests.

#[test]
fn setup_vocabulary_without_smart_and_smart_without_vocabulary() {
    let m = parse(&setup_message("m", &vec!["a\"b".into()], false));
    assert_eq!(m["setup"]["inputAudioTranscription"]["customVocabulary"][0], "a\"b");
    assert!(m["setup"]["inputAudioTranscription"].get("mode").is_none());
    let m = parse(&setup_message("m", &vec![], true));
    assert_eq!(m["setup"]["inputAudioTranscription"]["mode"], "SMART");
    assert!(m["setup"]["inputAudioTranscription"].get("customVocabulary").is_none());
}

#[test]
fn activity_messages() {
    assert!(parse(&activity_start_message())["realtimeInput"]["activityStart"].is_object());
    assert!(parse(&activity_end_message())["realtimeInput"]["activityEnd"].is_object());
}

#[test]
fn transcript_signals_and_blank_final_text() {
    let mut t = TranscriptBuffer::default();
    let setup = ServerMessage { setup_complete: true, go_away: false, server_content: None };
    assert_eq!(t.ingest(&setup), ServerSignal::SetupComplete);
    let away = ServerMessage { setup_complete: false, go_away: true, server_content: None };
    assert_eq!(t.ingest(&away), ServerSignal::GoAway);
    t.ingest(&content(Some(" first "), None, false, false));
    // a blank final text clears the interim text but keeps nothing new
    t.ingest(&content(None, Some("   "), false, false));
    assert_eq!(t.text(), "");
    t.ingest(&content(None, Some(" done "), false, false));
    t.ingest(&content(Some("more"), None, false, false));
    assert_eq!(t.text(), "done");
}

#[test]
fn validation_answers() {
    assert!(validation_result(200, "").is_ok());
    assert!(matches!(validation_result(403, ""), Err(GeminiError::Unauthorized)));
    assert!(matches!(validation_result(401, "x"), Err(GeminiError::Unauthorized)));
    assert!(matches!(
        validation_result(400, "{\"error\":{\"status\":\"INVALID_ARGUMENT\",\"reason\":\"API_KEY_INVALID\"}}"),
        Err(GeminiError::Unauthorized)
    ));
    assert!(matches!(validation_result(400, "API key not valid. Please pass a valid API key."), Err(GeminiError::Unauthorized)));
    assert!(matches!(validation_result(400, "bad"), Err(GeminiError::Server(d)) if d == "HTTP 400: bad"));
    assert!(matches!(validation_result(503, ""), Err(GeminiError::Server(d)) if d == "HTTP 503"));
}

#[test]
fn urls() {
    assert_eq!(normalized_base("http://host///"), "http://host");
    assert_eq!(model_url("https://g.example", "gemini-3.5-transcribe-live"), "https://g.example/v1beta/models/gemini-3.5-transcribe-live");
}

#[test]
fn socket_errors() {
    assert!(matches!(handshake_error(Some(400)), GeminiError::Unauthorized));
    assert!(matches!(handshake_error(Some(500)), GeminiError::Server(d) if d == "Live handshake HTTP 500"));
    assert!(matches!(handshake_error(None), GeminiError::Network(d) if d == "Live WebSocket failed"));
    assert!(matches!(connect_error(ConnectFailure::InvalidEndpoint), GeminiError::Network(d) if d == "invalid Live endpoint"));
    assert!(matches!(connect_error(ConnectFailure::InvalidKey), GeminiError::Unauthorized));
    assert!(matches!(connect_error(ConnectFailure::ConnectTimedOut), GeminiError::Network(d) if d == "live connection timed out"));
    assert!(matches!(connect_error(ConnectFailure::SetupTimedOut), GeminiError::Network(d) if d == "Live setup timed out"));
    assert!(matches!(connect_error(ConnectFailure::Socket(Some(403))), GeminiError::Unauthorized));
}

#[test]
fn setup_steps() {
    let ready = ServerMessage { setup_complete: true, go_away: false, server_content: None };
    assert!(matches!(setup_step(ServerEvent::Message(ready)), SetupStep::Ready));
    let away = ServerMessage { setup_complete: false, go_away: true, server_content: None };
    assert!(matches!(setup_step(ServerEvent::Message(away)), SetupStep::Fail(GeminiError::Server(d)) if d == "Live session unavailable"));
    assert!(matches!(setup_step(ServerEvent::Message(content(Some("x"), None, false, false))), SetupStep::Wait));
    assert!(matches!(setup_step(ServerEvent::Ignored), SetupStep::Wait));
    assert!(matches!(setup_step(ServerEvent::Closed), SetupStep::Fail(GeminiError::Network(d)) if d == "Live connection closed during setup"));
    let bad = server_event(WireFrame::Text("not json".into()));
    assert!(matches!(setup_step(bad), SetupStep::Fail(GeminiError::Server(d)) if d == "invalid Live response"));
}

#[test]
fn decodes_transcription_text_and_turn_complete() {
    let text = r#"{"serverContent":{"inputTranscription":{"text":"early"},"turnComplete":true}}"#;
    let m = decode_server_message(&WireFrame::Text(text.into())).unwrap().unwrap();
    assert!(!m.setup_complete);
    assert!(!m.go_away);
    let c = m.server_content.unwrap();
    assert_eq!(c.input_text.as_deref(), Some("early"));
    assert_eq!(c.interim_text, None);
    assert!(c.turn_complete);
    assert!(!c.generation_complete);
}

#[test]
fn decodes_binary_frames_as_utf8_json() {
    let text = r#"{"setupComplete":{}}"#;
    let m = decode_server_message(&WireFrame::Binary(text.as_bytes().to_vec())).unwrap().unwrap();
    assert!(m.setup_complete);
    assert!(m.server_content.is_none());
    let away = decode_text_message(r#"{"goAway":{"timeLeft":"1s"}}"#).unwrap();
    assert!(away.go_away);
    let interim = r#"{"serverContent":{"interimInputTranscription":{"text":"hel"},"generationComplete":true}}"#;
    let c = decode_text_message(interim).unwrap().server_content.unwrap();
    assert_eq!(c.interim_text.as_deref(), Some("hel"));
    assert!(c.generation_complete);
    assert!(!c.turn_complete);
}

#[test]
fn non_json_frames_are_invalid_responses() {
    for frame in [WireFrame::Text("not json".into()), WireFrame::Binary(vec![0xff, 0xfe]), WireFrame::Binary(b"{".to_vec())] {
        assert!(matches!(decode_server_message(&frame), Err(GeminiError::Server(d)) if d == "invalid Live response"));
    }
    assert!(matches!(decode_server_message(&WireFrame::Control), Ok(None)));
    assert!(matches!(decode_server_message(&WireFrame::Close), Ok(None)));
}

#[test]
fn frames_become_server_events() {
    assert!(matches!(server_event(WireFrame::Close), ServerEvent::Closed));
    assert!(matches!(server_event(WireFrame::Control), ServerEvent::Ignored));
    let ev = server_event(WireFrame::Text(r#"{"serverContent":{"turnComplete":true}}"#.into()));
    assert!(matches!(ev, ServerEvent::Message(m) if m.server_content.as_ref().map(|c| c.turn_complete) == Some(true)));
    assert!(matches!(server_event(WireFrame::Binary(vec![0xc3])), ServerEvent::Failed(GeminiError::Server(d)) if d == "invalid Live response"));
}
