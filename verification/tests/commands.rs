use whispeross::commands::{
    apply_provider_model, commit_key, gemini_key_rejection, groq_key_rejection, has_key_for, key_status, key_to_save,
    microphone_choice, normalize_theme, provider_from_name, sanitize_vocabulary, sanitized_model,
    STORE_FAILED_MESSAGE,
};
use whispeross::config::{Config, TranscriptionProvider};
use whispeross::gemini::GeminiError;
use whispeross::groq::GroqError;

#[test]
fn theme_normalization() {
    assert_eq!(normalize_theme("dark"), "dark");
    assert_eq!(normalize_theme("light"), "light");
    assert_eq!(normalize_theme("auto"), "auto");
    assert_eq!(normalize_theme("AUTO"), "auto");
    assert_eq!(normalize_theme("nonsense"), "auto");
    assert_eq!(normalize_theme(""), "auto");
}

#[test]
fn vocabulary_is_trimmed_and_deduplicated_case_insensitively() {
    let value = vec!["Whisper".to_string(), "whisper ".to_string(), "".to_string(), "Tauri".to_string()];
    assert_eq!(sanitize_vocabulary(value), vec!["Whisper", "Tauri"]);
}

#[test]
fn model_names_reject_values_that_could_change_the_request_path() {
    assert_eq!(sanitized_model("gemini-3.5-transcribe", "fallback"), "gemini-3.5-transcribe");
    assert_eq!(sanitized_model(" ../bad?key=x ", "fallback"), "fallback");
    assert_eq!(sanitized_model("", "fallback"), "fallback");
}

// Own tests.

#[test]
fn theme_case_is_ignored() {
    assert_eq!(normalize_theme("DaRk"), "dark");
    assert_eq!(normalize_theme("LIGHT"), "light");
    assert_eq!(normalize_theme(" dark"), "auto");
}

#[test]
fn vocabulary_dedup_uses_full_lowercasing() {
    let value = vec!["  Straße ".to_string(), "STRASSE".to_string(), "ÉCOLE".to_string(), "école".to_string()];
    assert_eq!(sanitize_vocabulary(value), vec!["Straße", "STRASSE", "ÉCOLE"]);
    assert_eq!(sanitize_vocabulary(vec![]), Vec::<String>::new());
    assert_eq!(sanitize_vocabulary(vec!["   ".to_string()]), Vec::<String>::new());
}

#[test]
fn model_names_are_trimmed() {
    assert_eq!(sanitized_model("  org/model_1.5  ", "fb"), "org/model_1.5");
    assert_eq!(sanitized_model("a b", "fb"), "fb");
}

#[test]
fn provider_names_select_gemini_only_by_name() {
    assert_eq!(provider_from_name("GEMINI"), TranscriptionProvider::Gemini);
    assert_eq!(provider_from_name("gemini"), TranscriptionProvider::Gemini);
    assert_eq!(provider_from_name("groq"), TranscriptionProvider::Groq);
    assert_eq!(provider_from_name("anything"), TranscriptionProvider::Groq);
}

#[test]
fn provider_model_goes_to_the_named_provider() {
    let mut c = Config::default();
    apply_provider_model(&mut c, "Gemini", " ../x?y ");
    assert_eq!(c.gemini_model, "gemini-3.5-transcribe-live");
    assert_eq!(c.groq_model, "whisper-large-v3-turbo");
    apply_provider_model(&mut c, "groq", "whisper-large-v3");
    assert_eq!(c.groq_model, "whisper-large-v3");
    assert_eq!(c.gemini_model, "gemini-3.5-transcribe-live");
}

#[test]
fn blank_microphone_means_default() {
    assert_eq!(microphone_choice(Some("  ".to_string())), None);
    assert_eq!(microphone_choice(None), None);
    assert_eq!(microphone_choice(Some(" USB Mic ".to_string())), Some(" USB Mic ".to_string()));
}

#[test]
fn key_status_and_selected_provider() {
    let s = key_status("g", "");
    assert!(s.groq);
    assert!(!s.gemini);
    assert!(has_key_for(TranscriptionProvider::Groq, "g", ""));
    assert!(!has_key_for(TranscriptionProvider::Gemini, "g", ""));
}

#[test]
fn key_to_save_is_trimmed_or_refused() {
    assert_eq!(key_to_save("  sk_abc \n"), Ok("sk_abc".to_string()));
    assert_eq!(key_to_save("   "), Err("Enter a key"));
}

#[test]
fn key_check_messages() {
    assert_eq!(groq_key_rejection(&GroqError::Unauthorized), "Groq rejected this key");
    assert_eq!(groq_key_rejection(&GroqError::Network("x".into())), "Couldn't reach Groq");
    assert_eq!(groq_key_rejection(&GroqError::Server("x".into())), "Groq error, try again");
    assert_eq!(gemini_key_rejection(&GeminiError::Unauthorized), "Google rejected this key");
    assert_eq!(gemini_key_rejection(&GeminiError::Network("x".into())), "Couldn't reach Google");
    assert_eq!(gemini_key_rejection(&GeminiError::Server("x".into())), "Google error, try again");
    assert_eq!(STORE_FAILED_MESSAGE, "Couldn't save to Credential Manager");
}

#[test]
fn normalized_theme_is_stable() {
    for v in ["dark", "LIGHT", "Auto", "x", ""] {
        let once = normalize_theme(v);
        assert_eq!(normalize_theme(&once), once);
    }
}

#[test]
fn model_names_with_dot_segments_are_refused() {
    assert_eq!(sanitized_model("../bad", "fallback"), "fallback");
    assert_eq!(sanitized_model("x/../../v1/files", "fallback"), "fallback");
    assert_eq!(sanitized_model("a/./b", "fallback"), "fallback");
    assert_eq!(sanitized_model("..", "fallback"), "fallback");
    assert_eq!(sanitized_model("models/..", "fallback"), "fallback");
    assert_eq!(sanitized_model("a..b", "fallback"), "a..b");
    assert_eq!(sanitized_model(".hidden", "fallback"), ".hidden");
    assert_eq!(sanitized_model("gemini-3.5/v2", "fallback"), "gemini-3.5/v2");
}

#[test]
fn a_key_is_taken_into_memory_only_once_stored() {
    let mut slot = String::from("old-key");
    assert_eq!(commit_key(&mut slot, "new-key".into(), false), Err(STORE_FAILED_MESSAGE));
    assert_eq!(slot, "old-key");
    assert_eq!(commit_key(&mut slot, "new-key".into(), true), Ok(()));
    assert_eq!(slot, "new-key");
}
