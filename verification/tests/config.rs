use whispeross::config::{live_model, migrate, Config, TranscriptionProvider, DEFAULT_GEMINI_MODEL, DEFAULT_GROQ_MODEL};

#[test]
fn defaults_match_spec() {
    let c = Config::default();
    assert_eq!(c.hotkey, vec!["ctrl".to_string(), "win".to_string()]);
    assert!(!c.use_formatter);
    assert!(!c.casual_mode);
    assert_eq!(c.input_device, None);
    assert_eq!(c.theme, "auto");
    assert!(c.run_on_startup);
    assert!(c.vocabulary.is_empty());
    assert_eq!(c.transcription_provider, TranscriptionProvider::Groq);
    assert_eq!(c.groq_model, DEFAULT_GROQ_MODEL);
    assert_eq!(c.gemini_model, DEFAULT_GEMINI_MODEL);
    assert_eq!(c.gemini_model, "gemini-3.5-transcribe-live");
    assert!(c.show_live_transcript);
}

// Own tests.

#[test]
fn saved_completed_audio_model_is_read_as_live() {
    let mut c = Config::default();
    c.gemini_model = "gemini-3.5-transcribe".to_string();
    c.theme = "dark".to_string();
    migrate(&mut c);
    assert_eq!(c.gemini_model, "gemini-3.5-transcribe-live");
    assert_eq!(c.theme, "dark");
    assert_eq!(live_model("custom-model"), "custom-model");
    assert_eq!(TranscriptionProvider::default(), TranscriptionProvider::Groq);
}
