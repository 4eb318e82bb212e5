use whispeross::gemini::live::{
    server_event, CommandReply, FrontStep, LiveCommand, LiveEvent, LiveManager, ServerEvent, LIVE_FRAME_SAMPLES,
};
use whispeross::gemini::protocol::{activity_end_message, activity_start_message, audio_message, WireFrame};
use whispeross::gemini::transcript_buffer::{ServerContent, ServerMessage};
use whispeross::gemini::{GeminiError, LiveConfig};

fn config(key: &str) -> LiveConfig {
    LiveConfig {
        key: key.into(),
        model: "gemini-3.5-transcribe-live".into(),
        vocabulary: vec!["WhisperOSS".into()],
        smart: false,
    }
}

fn content(interim: Option<&str>, input: Option<&str>, turn: bool, generation: bool) -> ServerEvent {
    ServerEvent::Message(ServerMessage {
        setup_complete: false,
        go_away: false,
        server_content: Some(ServerContent {
            interim_text: interim.map(|s| s.to_string()),
            input_text: input.map(|s| s.to_string()),
            turn_complete: turn,
            generation_complete: generation,
        }),
    })
}

fn kind(m: &str) -> &'static str {
    let v: serde_json::Value = serde_json::from_str(m).unwrap();
    if v["realtimeInput"]["activityStart"].is_object() {
        "start"
    } else if v["realtimeInput"]["activityEnd"].is_object() {
        "end"
    } else if v["realtimeInput"]["audio"].is_object() {
        "audio"
    } else {
        "other"
    }
}

/// Streams what is due, connecting first when the controller asks to.
fn pump(m: &mut LiveManager, now: u64, connects: &mut usize) -> Vec<&'static str> {
    match m.prepare_front(now) {
        FrontStep::Skip => return vec![],
        FrontStep::Connect(_) => {
            *connects += 1;
            m.on_connected(now);
        }
        FrontStep::Ready => {}
    }
    let mut sent = Vec::new();
    while let Some(msg) = m.next_message(now) {
        sent.push(kind(&msg));
    }
    sent
}

fn start(m: &mut LiveManager, streaming: bool) -> u64 {
    match m.handle_command(LiveCommand::Start(config("test-key"), streaming)) {
        CommandReply::Started(id) => id,
        _ => panic!("not started"),
    }
}

fn finish(m: &mut LiveManager) -> u64 {
    match m.handle_command(LiveCommand::Finish) {
        CommandReply::FinishPending(id) => id,
        _ => panic!("not pending"),
    }
}

fn delivered(events: &[LiveEvent]) -> Vec<(u64, Result<String, String>)> {
    events
        .iter()
        .filter_map(|e| match e {
            LiveEvent::Deliver { id, result } => Some((
                *id,
                match result {
                    Ok(t) => Ok(t.clone()),
                    Err(e) => Err(format!("{e:?}")),
                },
            )),
            _ => None,
        })
        .collect()
}

#[test]
fn two_dictations_share_one_session() {
    let mut m = LiveManager::new(15_000);
    let mut connects = 0;
    for (n, expected) in ["first result", "second result"].into_iter().enumerate() {
        let id = start(&mut m, false);
        m.handle_command(LiveCommand::Audio(vec![700; 1_600], 16_000));
        assert_eq!(finish(&mut m), id);
        let sent = pump(&mut m, 100, &mut connects);
        assert_eq!(sent.first(), Some(&"start"));
        assert_eq!(sent.last(), Some(&"end"));
        // 1 600 samples plus 3 200 of trailing silence, in 640-sample frames
        assert_eq!(sent.iter().filter(|k| **k == "audio").count(), (1_600 + 3_200 + LIVE_FRAME_SAMPLES - 1) / LIVE_FRAME_SAMPLES);
        if n == 0 {
            m.on_server_event(content(None, None, false, true), 120);
            assert!(delivered(&m.take_events()).is_empty());
            m.on_server_event(content(None, Some(expected), false, false), 130);
        } else {
            m.on_server_event(content(None, Some(expected), true, false), 130);
        }
        assert_eq!(delivered(&m.take_events()), vec![(id, Ok(expected.to_string()))]);
    }
    assert_eq!(connects, 1);
    assert!(m.has_session());
}

#[test]
fn interim_text_is_streamed_and_the_stream_closed() {
    let mut m = LiveManager::new(15_000);
    let mut connects = 0;
    let id = start(&mut m, true);
    m.handle_command(LiveCommand::Audio(vec![700; 640], 16_000));
    pump(&mut m, 0, &mut connects);
    m.on_server_event(content(Some(" hello "), None, false, false), 10);
    let events = m.take_events();
    assert!(matches!(&events[..], [LiveEvent::Stream { id: i, text }] if *i == id && text == "hello"));
    finish(&mut m);
    pump(&mut m, 20, &mut connects);
    m.on_server_event(content(None, Some("hello world"), true, false), 30);
    let events = m.take_events();
    assert!(matches!(&events[0], LiveEvent::Stream { text, .. } if text == "hello world"));
    assert!(matches!(&events[1], LiveEvent::CloseStream { id: i } if *i == id));
    assert!(matches!(&events[2], LiveEvent::Deliver { id: i, result: Ok(t) } if *i == id && t == "hello world"));
}

#[test]
fn missing_final_transcript_is_reported_after_a_retry() {
    let mut m = LiveManager::new(100);
    let mut connects = 0;
    let id = start(&mut m, false);
    m.handle_command(LiveCommand::Audio(vec![700; 1_600], 16_000));
    finish(&mut m);
    pump(&mut m, 0, &mut connects);
    m.on_tick(150);
    assert!(!m.has_session());
    assert!(m.take_events().is_empty());
    // the retry streams everything again on a new session
    let sent = pump(&mut m, 150, &mut connects);
    assert_eq!(sent.first(), Some(&"start"));
    assert_eq!(sent.last(), Some(&"end"));
    m.on_tick(300);
    assert_eq!(delivered(&m.take_events()), vec![(id, Err("Network(\"Live finalization timed out\")".to_string()))]);
    assert_eq!(connects, 2);
}

#[test]
fn setup_failure_is_kept_until_the_caller_finishes() {
    let mut m = LiveManager::new(200);
    let id = start(&mut m, false);
    m.handle_command(LiveCommand::Audio(vec![700; 1_600], 16_000));
    assert!(matches!(m.prepare_front(0), FrontStep::Connect(_)));
    m.on_connect_failed(GeminiError::Network("Live connection closed during setup".into()));
    assert!(m.take_events().is_empty());
    // audio after the failure is dropped, and finishing hands over the error
    m.handle_command(LiveCommand::Audio(vec![700; 1_600], 16_000));
    match m.handle_command(LiveCommand::Finish) {
        CommandReply::FinishNow(Err(GeminiError::Network(d))) => assert_eq!(d, "Live connection closed during setup"),
        _ => panic!("expected the setup error"),
    }
    assert!(matches!(&m.take_events()[..], [LiveEvent::Forget { id: i }] if *i == id));
}

#[test]
fn rejected_key_is_not_retried() {
    let mut m = LiveManager::new(15_000);
    let mut connects = 0;
    let id = start(&mut m, false);
    finish(&mut m);
    pump(&mut m, 0, &mut connects);
    m.on_send_failed(GeminiError::Unauthorized);
    assert_eq!(delivered(&m.take_events()), vec![(id, Err("Unauthorized".to_string()))]);
}

#[test]
fn completion_without_text_waits_for_the_grace_period() {
    let mut m = LiveManager::new(15_000);
    let mut connects = 0;
    let id = start(&mut m, false);
    m.handle_command(LiveCommand::Audio(vec![700; 640], 16_000));
    finish(&mut m);
    pump(&mut m, 0, &mut connects);
    m.on_server_event(content(None, None, false, true), 1_000);
    m.on_tick(1_100);
    assert!(m.take_events().is_empty());
    m.on_tick(1_250);
    assert_eq!(delivered(&m.take_events()), vec![(id, Ok(String::new()))]);
}

#[test]
fn turn_complete_during_a_pause_does_not_end_the_dictation() {
    let mut m = LiveManager::new(15_000);
    let mut connects = 0;
    let id = start(&mut m, false);
    m.handle_command(LiveCommand::Audio(vec![700; 1_280], 16_000));
    pump(&mut m, 0, &mut connects);
    m.on_server_event(content(None, Some("first"), true, false), 10);
    assert!(m.take_events().is_empty());
    m.handle_command(LiveCommand::Audio(vec![700; 640], 16_000));
    finish(&mut m);
    let sent = pump(&mut m, 20, &mut connects);
    assert_eq!(sent.first(), Some(&"audio"));
    assert_eq!(sent.last(), Some(&"end"));
    m.on_server_event(content(None, Some("first and second"), true, false), 30);
    assert_eq!(delivered(&m.take_events()), vec![(id, Ok("first and second".to_string()))]);
    assert_eq!(connects, 1);
}

#[test]
fn cancelled_dictation_is_forgotten_without_a_result() {
    let mut m = LiveManager::new(15_000);
    let mut connects = 0;
    let id = start(&mut m, false);
    m.handle_command(LiveCommand::Audio(vec![700; 640], 16_000));
    pump(&mut m, 0, &mut connects);
    assert!(matches!(m.handle_command(LiveCommand::Cancel), CommandReply::Done));
    pump(&mut m, 10, &mut connects);
    m.on_server_event(content(None, Some("ignored"), true, false), 20);
    let events = m.take_events();
    assert!(delivered(&events).is_empty());
    assert!(matches!(&events[..], [LiveEvent::Forget { id: i }] if *i == id));
}

#[test]
fn finish_without_recording_is_refused() {
    let mut m = LiveManager::new(15_000);
    match m.handle_command(LiveCommand::Finish) {
        CommandReply::FinishNow(Err(GeminiError::Network(d))) => assert_eq!(d, "live transcription was not recording"),
        _ => panic!("expected a refusal"),
    }
}

#[test]
fn prewarm_opens_a_session_before_recording_and_reconnects_on_change() {
    let mut m = LiveManager::new(15_000);
    m.handle_command(LiveCommand::Warm(Some(config("test-key"))));
    let target = m.prewarm(0).expect("a session to open");
    assert_eq!(target.key, "test-key");
    m.on_prewarmed(target, 0);
    assert!(m.prewarm(10).is_none());
    // the dictation uses the warm session
    start(&mut m, false);
    assert!(matches!(m.prepare_front(20), FrontStep::Ready));
    finish(&mut m);
    let mut connects = 0;
    pump(&mut m, 20, &mut connects);
    m.on_server_event(content(None, Some("done"), true, false), 30);
    m.take_events();
    assert_eq!(connects, 0);
    // a changed configuration drops the idle session and warms a new one
    m.handle_command(LiveCommand::Warm(Some(config("other-key"))));
    assert!(!m.has_session());
    assert_eq!(m.prewarm(40).unwrap().key, "other-key");
    // a failed attempt is retried only after the back-off
    assert!(m.prewarm(1_000).is_none());
    assert!(m.prewarm(3_040).is_some());
}

#[test]
fn old_idle_session_is_dropped() {
    let mut m = LiveManager::new(15_000);
    m.handle_command(LiveCommand::Warm(Some(config("k"))));
    let t = m.prewarm(0).unwrap();
    m.on_prewarmed(t, 0);
    m.on_tick(539_999);
    assert!(m.has_session());
    m.on_tick(540_000);
    assert!(!m.has_session());
}

#[test]
fn a_result_is_delivered_once() {
    let mut m = LiveManager::new(15_000);
    let mut connects = 0;
    let id = start(&mut m, false);
    m.handle_command(LiveCommand::Audio(vec![700; 640], 16_000));
    finish(&mut m);
    pump(&mut m, 0, &mut connects);
    m.on_server_event(content(None, Some("once"), true, false), 10);
    m.on_server_event(content(None, Some("twice"), true, false), 20);
    m.on_tick(100_000);
    m.on_send_failed(GeminiError::Network("late".into()));
    assert_eq!(delivered(&m.take_events()), vec![(id, Ok("once".to_string()))]);
}

#[test]
fn go_away_retries_the_dictation_on_a_new_session() {
    let mut m = LiveManager::new(15_000);
    let mut connects = 0;
    let id = start(&mut m, false);
    m.handle_command(LiveCommand::Audio(vec![700; 640], 16_000));
    finish(&mut m);
    pump(&mut m, 0, &mut connects);
    m.on_server_event(
        ServerEvent::Message(ServerMessage { setup_complete: false, go_away: true, server_content: None }),
        10,
    );
    assert!(!m.has_session());
    let sent = pump(&mut m, 20, &mut connects);
    assert_eq!(sent.first(), Some(&"start"));
    m.on_server_event(content(None, Some("again"), true, false), 30);
    assert_eq!(delivered(&m.take_events()), vec![(id, Ok("again".to_string()))]);
    assert_eq!(connects, 2);
}

#[test]
fn undecodable_message_fails_the_session() {
    let mut m = LiveManager::new(15_000);
    let mut connects = 0;
    start(&mut m, false);
    finish(&mut m);
    pump(&mut m, 0, &mut connects);
    m.on_server_event(server_event(WireFrame::Text("not json".into())), 10);
    assert!(!m.has_session());
    pump(&mut m, 20, &mut connects);
    m.on_server_event(ServerEvent::Closed, 30);
    let d = delivered(&m.take_events());
    assert_eq!(d.len(), 1);
    assert_eq!(d[0].1, Err("Network(\"Live connection closed\")".to_string()));
}

#[test]
fn a_dictation_is_start_then_consecutive_frames_then_end() {
    let mut m = LiveManager::new(15_000);
    start(&mut m, false);
    let audio: Vec<i16> = (0..1_300).map(|i| (i % 200) as i16 - 100).collect();
    m.handle_command(LiveCommand::Audio(audio.clone(), 16_000));
    finish(&mut m);
    assert!(matches!(m.prepare_front(0), FrontStep::Connect(_)));
    m.on_connected(0);
    let mut sent = Vec::new();
    while let Some(msg) = m.next_message(5) {
        sent.push(msg);
    }
    let mut pcm = audio;
    pcm.extend(std::iter::repeat(0i16).take(3_200));
    let mut expected = vec![activity_start_message()];
    for chunk in pcm.chunks(LIVE_FRAME_SAMPLES) {
        expected.push(audio_message(chunk));
    }
    expected.push(activity_end_message());
    assert_eq!(sent.len(), 1 + 8 + 1);
    assert_eq!(sent, expected);
    assert_eq!(m.next_message(6), None);
}

#[test]
fn results_come_back_in_dictation_order() {
    let mut m = LiveManager::new(15_000);
    let mut connects = 0;
    let a = start(&mut m, false);
    m.handle_command(LiveCommand::Audio(vec![300; 640], 16_000));
    finish(&mut m);
    let b = start(&mut m, false);
    m.handle_command(LiveCommand::Audio(vec![300; 640], 16_000));
    finish(&mut m);
    assert!(a < b);
    pump(&mut m, 0, &mut connects);
    m.on_server_event(content(None, Some("one"), true, false), 10);
    pump(&mut m, 20, &mut connects);
    m.on_server_event(content(None, Some("two"), true, false), 30);
    assert_eq!(delivered(&m.take_events()), vec![(a, Ok("one".to_string())), (b, Ok("two".to_string()))]);
    assert_eq!(connects, 1);
}
