use whispeross::audio::{device_check, AudioEngine};

#[test]
fn recording_starts_with_the_preroll() {
    let mut e = AudioEngine::new();
    e.ingest(&[1, 2, 3, 4, 5], 3);
    e.start_recording();
    e.ingest(&[6, 7], 3);
    assert_eq!(e.stop_recording(), (vec![3, 4, 5, 6, 7], 16_000));
    assert_eq!(e.stop_recording(), (vec![], 16_000));
}

#[test]
fn ring_keeps_the_last_samples() {
    let mut e = AudioEngine::new();
    e.ingest(&[1, 2], 4);
    e.ingest(&[3, 4, 5, 6, 7], 4);
    e.start_recording();
    assert_eq!(e.stop_recording().0, vec![4, 5, 6, 7]);
}

#[test]
fn peak_is_the_largest_size_since_last_read() {
    let mut e = AudioEngine::new();
    e.ingest(&[10, -300, 20], 8);
    e.ingest(&[i16::MIN], 8);
    assert_eq!(e.take_peak(), 32_768);
    assert_eq!(e.take_peak(), 0);
    e.ingest(&[-5, 4], 8);
    assert_eq!(e.take_peak(), 5);
}

#[test]
fn device_switch_and_reset() {
    let mut e = AudioEngine::new();
    assert!(!e.is_healthy());
    e.set_healthy(true);
    e.set_rate(48_000);
    assert!(e.is_healthy());
    e.switch_device(Some("USB Mic".into()));
    e.switch_device(None);
    assert_eq!(e.take_device_request(), Some(None));
    assert_eq!(e.take_device_request(), None);
    e.ingest(&[1, 2, 3], 10);
    e.start_recording();
    assert!(e.is_recording());
    e.reset_buffers();
    assert!(!e.is_recording());
    assert_eq!(e.stop_recording(), (vec![], 48_000));
}

#[test]
fn a_take_is_the_preroll_and_every_block_in_order() {
    let mut e = AudioEngine::new();
    e.set_rate(44_100);
    e.ingest(&[9, 8, 7], 2);
    e.start_recording();
    e.ingest(&[1], 2);
    e.ingest(&[], 2);
    e.ingest(&[2, 3], 2);
    e.ingest(&[-4], 2);
    assert_eq!(e.stop_recording(), (vec![8, 7, 1, 2, 3, -4], 44_100));
    e.ingest(&[5, 6], 2);
    assert_eq!(e.stop_recording(), (vec![], 44_100));
}

#[test]
fn the_device_watch_falls_back_and_returns() {
    let usb = Some("USB Mic".to_string());
    let builtin = Some("Built-in".to_string());
    let both = vec![builtin.clone(), usb.clone()];
    let only_builtin = vec![builtin.clone(), None];
    // the picked device vanished: the stream went down, reopen on the default
    assert!(device_check(&usb, &usb, false, &only_builtin));
    // on the fallback while the picked device is still missing: stay
    assert!(!device_check(&usb, &builtin, true, &only_builtin));
    // the picked device is back: return to it
    assert!(device_check(&usb, &builtin, true, &both));
    // recording on the picked device, or on the default by choice: nothing to do
    assert!(!device_check(&usb, &usb, true, &both));
    assert!(!device_check(&None, &builtin, true, &both));
    assert!(device_check(&None, &None, false, &vec![]));
}
