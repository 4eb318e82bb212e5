use whispeross::keys::{load_step, refreshed_key, resolve, Provider};

#[test]
fn store_wins_over_env() {
    assert_eq!(resolve(Some("sk_store".into()), Some("sk_env".into())), (Some("sk_store".into()), false));
}

#[test]
fn env_used_and_flagged_for_saving_when_store_empty() {
    assert_eq!(resolve(None, Some("  sk_env  ".into())), (Some("sk_env".into()), true));
}

#[test]
fn nothing_available() {
    assert_eq!(resolve(None, None), (None, false));
    assert_eq!(resolve(None, Some("   ".into())), (None, false));
}

#[test]
fn refresh_prefers_new_vault_key_and_flags_the_change() {
    assert_eq!(refreshed_key("sk_old", Some("sk_new".into())), ("sk_new".into(), true));
}

#[test]
fn refresh_with_unchanged_vault_key_is_not_a_change() {
    assert_eq!(refreshed_key("sk_same", Some("sk_same".into())), ("sk_same".into(), false));
}

#[test]
fn refresh_keeps_memory_key_when_vault_is_unreadable_or_blank() {
    assert_eq!(refreshed_key("sk_mem", None), ("sk_mem".into(), false));
    assert_eq!(refreshed_key("sk_mem", Some("   ".into())), ("sk_mem".into(), false));
}

// Own tests.

#[test]
fn blank_store_falls_through_to_env() {
    assert_eq!(resolve(Some("  ".into()), Some("sk_env".into())), (Some("sk_env".into()), true));
}

#[test]
fn provider_names() {
    assert_eq!(Provider::Groq.account(), "groq_api_key");
    assert_eq!(Provider::Gemini.account(), "gemini_api_key");
    assert_eq!(Provider::Groq.env_var(), "WHISPEROSS_GROQ_KEY");
    assert_eq!(Provider::Gemini.env_var(), "GEMINI_API_KEY");
    assert_eq!(Provider::Groq.log_name(), "groq");
    assert_eq!(Provider::Gemini.log_name(), "gemini");
}

#[test]
fn load_step_reports_where_the_key_came_from() {
    let s = load_step(Provider::Gemini, &Some("k".into()), true, true);
    assert!(s.store);
    assert_eq!(s.event.as_deref(), Some("gemini-key-bootstrapped-from-env"));
    let s = load_step(Provider::Groq, &Some("k".into()), false, true);
    assert!(!s.store);
    assert_eq!(s.event.as_deref(), Some("groq-key-from-credential-manager"));
    let s = load_step(Provider::Groq, &None, false, false);
    assert_eq!(s.event.as_deref(), Some("groq-key-missing"));
    let s = load_step(Provider::Groq, &Some("k".into()), true, false);
    assert!(!s.store);
    assert_eq!(s.event, None);
}
