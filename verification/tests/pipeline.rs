use whispeross::config::{Config, TranscriptionProvider};
use whispeross::gemini::GeminiError;
use whispeross::groq::GroqError;
use whispeross::hook::HookState;
use whispeross::hotkey_logic::Key;
use whispeross::pipeline::{
    apply_combo, capture_route, combo_from_config, final_text, formatting_mode, live_wait_timeout,
    needs_format_pass, on_fallback_device, paste_outcome, plan_start, refreshed_provider_key, silent_take,
    startup_prompt, sync_gemini_prewarm, transcript_source, transcript_step, tray_action, vocabulary_prompt,
    CaptureRoute, Dictation, Formatting, InterimStep, InterimView, ProviderFailure, StartPlan, StartRequest,
    StartupPrompt, TranscriptSource, TranscriptStep, TrayAction, ActiveCapture,
};

#[test]
fn gemini_capture_streams_with_live_model_and_selected_cleanup() {
    let route = capture_route(
        TranscriptionProvider::Gemini,
        "secret".into(),
        "gemini-3.5-transcribe-live".into(),
        vec!["WhisperOSS".into()],
        Formatting::Ai,
    );

    let CaptureRoute::Gemini(config) = route else {
        panic!("Gemini recording was buffered instead of streamed");
    };
    assert_eq!(config.model, "gemini-3.5-transcribe-live");
    assert_eq!(config.vocabulary, vec!["WhisperOSS"]);
    assert!(config.smart);
}

#[test]
fn formatting_truth_table() {
    assert!(matches!(formatting_mode(false, false), Formatting::Raw));
    assert!(matches!(formatting_mode(true, false), Formatting::Ai));
    assert!(matches!(formatting_mode(false, true), Formatting::Casual));
    assert!(matches!(formatting_mode(true, true), Formatting::Casual));
}

#[test]
fn fallback_detection() {
    let usb = Some("USB PnP Audio Device".to_string());
    let nvidia = Some("NVIDIA Broadcast".to_string());
    assert!(!on_fallback_device(&usb, &usb));
    assert!(on_fallback_device(&usb, &nvidia));
    assert!(on_fallback_device(&usb, &None));
    assert!(!on_fallback_device(&None, &nvidia));
    assert!(!on_fallback_device(&None, &None));
}

// Own tests.

#[test]
fn legacy_model_streams_as_live_and_groq_buffers() {
    let route = capture_route(TranscriptionProvider::Gemini, "k".into(), "gemini-3.5-transcribe".into(), vec![], Formatting::Casual);
    let CaptureRoute::Gemini(config) = route else { panic!("not streamed") };
    assert_eq!(config.model, "gemini-3.5-transcribe-live");
    assert!(!config.smart);
    let route = capture_route(TranscriptionProvider::Groq, "k".into(), "m".into(), vec![], Formatting::Ai);
    assert!(matches!(route, CaptureRoute::Buffered));
}

#[test]
fn prewarm_only_for_gemini_with_a_key() {
    let mut cfg = Config::default();
    assert!(sync_gemini_prewarm(&cfg, "k").is_none());
    cfg.transcription_provider = TranscriptionProvider::Gemini;
    assert!(sync_gemini_prewarm(&cfg, "").is_none());
    cfg.use_formatter = true;
    cfg.vocabulary = vec!["Tauri".into()];
    let w = sync_gemini_prewarm(&cfg, "k").unwrap();
    assert_eq!(w.key, "k");
    assert_eq!(w.model, "gemini-3.5-transcribe-live");
    assert_eq!(w.vocabulary, vec!["Tauri"]);
    assert!(w.smart);
    cfg.casual_mode = true;
    assert!(!sync_gemini_prewarm(&cfg, "k").unwrap().smart);
}

#[test]
fn refreshed_key_updates_memory() {
    let mut memory = "old".to_string();
    assert_eq!(refreshed_provider_key(&mut memory, Some("new".into())), ("new".to_string(), true));
    assert_eq!(memory, "new");
    assert_eq!(refreshed_provider_key(&mut memory, None), ("new".to_string(), false));
    assert_eq!(memory, "new");
}

#[test]
fn invalid_hotkey_falls_back_to_ctrl_win() {
    let (combo, defaulted) = combo_from_config(&["banana".to_string()]);
    assert_eq!(combo, vec![Key::Ctrl, Key::Win]);
    assert!(defaulted);
    let (combo, defaulted) = combo_from_config(&["ctrl".to_string(), "space".to_string()]);
    assert_eq!(combo, vec![Key::Ctrl, Key::Other(0x20)]);
    assert!(!defaulted);
}

#[test]
fn apply_combo_swallows_the_regular_key_behind_its_modifiers() {
    let mut hook = HookState::new();
    apply_combo(&mut hook, &[Key::Ctrl, Key::Alt, Key::Other(0x20)]);
    assert_eq!(hook.suppress_vk, 0x20);
    assert_eq!(hook.required_mods, 1 | 4);
    apply_combo(&mut hook, &[Key::Ctrl, Key::Win]);
    assert_eq!(hook.suppress_vk, 0);
    assert_eq!(hook.required_mods, 1 | 2);
}

fn request(provider: TranscriptionProvider, key: &str, mic: bool) -> StartRequest {
    StartRequest {
        provider,
        formatting: Formatting::Ai,
        vocabulary: vec!["WhisperOSS".into()],
        groq_model: "whisper-large-v3-turbo".into(),
        gemini_model: "gemini-3.5-transcribe".into(),
        show_live_transcript: true,
        key: key.into(),
        mic_healthy: mic,
    }
}

#[test]
fn start_checks_key_then_mic() {
    assert!(matches!(plan_start(request(TranscriptionProvider::Groq, "", false)), StartPlan::NeedKey));
    assert!(matches!(plan_start(request(TranscriptionProvider::Groq, "k", false)), StartPlan::NoMic));
    match plan_start(request(TranscriptionProvider::Groq, "k", true)) {
        StartPlan::Record { capture, route, stream_interim } => {
            assert!(matches!(route, CaptureRoute::Buffered));
            assert!(!stream_interim);
            assert_eq!(capture.groq_model, "whisper-large-v3-turbo");
        }
        _ => panic!("expected a recording"),
    }
    match plan_start(request(TranscriptionProvider::Gemini, "k", true)) {
        StartPlan::Record { capture, route, stream_interim } => {
            let CaptureRoute::Gemini(c) = route else { panic!("not streamed") };
            assert_eq!(c.model, "gemini-3.5-transcribe-live");
            assert!(c.smart);
            assert!(stream_interim);
            assert_eq!(capture.vocabulary, vec!["WhisperOSS"]);
        }
        _ => panic!("expected a recording"),
    }
}

fn capture(provider: TranscriptionProvider) -> ActiveCapture {
    ActiveCapture { provider, formatting: Formatting::Raw, vocabulary: vec![], groq_model: "m".into() }
}

#[test]
fn cancel_stops_live_only_for_gemini() {
    let mut d = Dictation::new();
    assert!(!d.cancel());
    d.began(capture(TranscriptionProvider::Gemini));
    assert!(d.cancel());
    assert!(d.finish().is_none());
    d.began(capture(TranscriptionProvider::Groq));
    assert!(!d.cancel());
    d.began(capture(TranscriptionProvider::Groq));
    assert!(d.finish().is_some());
    assert!(d.finish().is_none());
}

#[test]
fn silent_take_reports_only_on_fallback_device() {
    let s = silent_take(TranscriptionProvider::Gemini, &Some("USB".into()), &Some("Other".into()));
    assert!(s.cancel_live);
    assert_eq!(s.error, Some("Check your mic"));
    let s = silent_take(TranscriptionProvider::Groq, &None, &Some("Other".into()));
    assert!(!s.cancel_live);
    assert_eq!(s.error, None);
}

#[test]
fn vocabulary_prompt_joins_with_commas() {
    assert_eq!(vocabulary_prompt(&vec![]), "");
    assert_eq!(vocabulary_prompt(&vec!["WhisperOSS".into()]), "WhisperOSS");
    assert_eq!(vocabulary_prompt(&vec!["a".into(), "b".into(), "c".into()]), "a, b, c");
}

#[test]
fn ai_pass_only_for_groq_formal() {
    assert!(needs_format_pass(Formatting::Ai, TranscriptionProvider::Groq));
    assert!(!needs_format_pass(Formatting::Ai, TranscriptionProvider::Gemini));
    assert!(!needs_format_pass(Formatting::Casual, TranscriptionProvider::Groq));
    assert!(!needs_format_pass(Formatting::Raw, TranscriptionProvider::Groq));
}

#[test]
fn final_text_falls_back_to_raw() {
    assert_eq!(final_text(Formatting::Raw, "Hi, there.", None), "Hi, there.");
    assert_eq!(final_text(Formatting::Casual, "Hi, there.", None), "hi there");
    assert_eq!(final_text(Formatting::Ai, "raw", Some(Ok("Formatted.".into()))), "Formatted.");
    assert_eq!(final_text(Formatting::Ai, "raw", Some(Ok("".into()))), "raw");
    assert_eq!(final_text(Formatting::Ai, "raw", Some(Err(GroqError::Network("x".into())))), "raw");
    assert_eq!(final_text(Formatting::Ai, "raw", None), "raw");
}

#[test]
fn transcript_steps() {
    assert!(matches!(transcript_step(false, Ok("hi".into())), TranscriptStep::Discard));
    assert!(matches!(transcript_step(true, Ok("".into())), TranscriptStep::Empty));
    match transcript_step(true, Ok("hi".into())) {
        TranscriptStep::Paste(t) => assert_eq!(t, "hi"),
        _ => panic!("expected a paste"),
    }
    match transcript_step(false, Err(ProviderFailure::Groq(GroqError::Unauthorized))) {
        TranscriptStep::Fail { message, detail, open_key_settings } => {
            assert_eq!(message, "Invalid API key");
            assert_eq!(detail, "");
            assert!(open_key_settings);
        }
        _ => panic!("expected a failure"),
    }
    match transcript_step(true, Err(ProviderFailure::Gemini(GeminiError::Network("gone".into())))) {
        TranscriptStep::Fail { message, detail, open_key_settings } => {
            assert_eq!(message, "Couldn't reach Google");
            assert_eq!(detail, "gone");
            assert!(!open_key_settings);
        }
        _ => panic!("expected a failure"),
    }
}

#[test]
fn live_wait_and_paste_outcomes() {
    assert!(matches!(live_wait_timeout(), GeminiError::Network(d) if d == "Live finalization timed out"));
    assert_eq!(paste_outcome(true), None);
    assert_eq!(paste_outcome(false), Some("Couldn't paste safely"));
}

#[test]
fn interim_view_widens_once() {
    let mut v = InterimView::new();
    assert!(matches!(v.on_text(true, "   "), InterimStep::Skip));
    match v.on_text(true, " hello ") {
        InterimStep::Show { expand, text } => {
            assert!(expand);
            assert_eq!(text, "hello");
        }
        _ => panic!("expected text"),
    }
    match v.on_text(true, "hello world") {
        InterimStep::Show { expand, .. } => assert!(!expand),
        _ => panic!("expected text"),
    }
    assert!(matches!(v.on_text(false, "late"), InterimStep::Stop));
}

#[test]
fn startup_and_tray() {
    assert!(matches!(startup_prompt(TranscriptionProvider::Groq, "", "g"), StartupPrompt::FirstRun));
    assert!(matches!(startup_prompt(TranscriptionProvider::Gemini, "k", ""), StartupPrompt::SettingsAtKey));
    assert!(matches!(startup_prompt(TranscriptionProvider::Gemini, "", "g"), StartupPrompt::Quiet));
    assert!(matches!(tray_action("show"), TrayAction::ShowSettings));
    assert!(matches!(tray_action("quit"), TrayAction::Quit));
    assert!(matches!(tray_action("other"), TrayAction::Nothing));
}

#[test]
fn a_dictation_reaches_only_the_selected_provider() {
    for provider in [TranscriptionProvider::Gemini, TranscriptionProvider::Groq] {
        let StartPlan::Record { capture, route, stream_interim } = plan_start(request(provider, "k", true)) else {
            panic!("dictation refused");
        };
        let mut d = Dictation::new();
        d.began(capture);
        let finished = d.finish().expect("dictation in flight");
        match (provider, route, transcript_source(&finished)) {
            (TranscriptionProvider::Gemini, CaptureRoute::Gemini(_), TranscriptSource::GeminiLive) => {
                assert!(stream_interim)
            }
            (
                TranscriptionProvider::Groq,
                CaptureRoute::Buffered,
                TranscriptSource::Groq { model, prompt, format_pass },
            ) => {
                assert!(!stream_interim);
                assert_eq!(model, "whisper-large-v3-turbo");
                assert_eq!(prompt, "WhisperOSS");
                assert!(format_pass);
            }
            _ => panic!("dictation crossed providers"),
        }
    }
}

#[test]
fn groq_cleanup_runs_only_for_formal_formatting() {
    for (formatting, pass) in [(Formatting::Ai, true), (Formatting::Casual, false), (Formatting::Raw, false)] {
        let c = ActiveCapture {
            provider: TranscriptionProvider::Groq,
            formatting,
            vocabulary: vec!["a".into(), "b".into()],
            groq_model: "m".into(),
        };
        match transcript_source(&c) {
            TranscriptSource::Groq { model, prompt, format_pass } => {
                assert_eq!(model, "m");
                assert_eq!(prompt, "a, b");
                assert_eq!(format_pass, pass);
            }
            TranscriptSource::GeminiLive => panic!("Groq dictation sent to Gemini"),
        }
    }
}
