use whispeross::clipboard::{
    ctrl_v_strokes, privacy_formats, snapshot_format_kept, text_len_before_nul, to_utf16z, ClipData, ClipboardOwner,
    RestoreStep,
};

#[test]
fn utf16z_is_null_terminated_utf16() {
    let v = to_utf16z("Hi ✓");
    assert_eq!(v.last(), Some(&0u16));
    assert_eq!(String::from_utf16_lossy(&v[..v.len() - 1]), "Hi ✓");
}

// Own tests.

#[test]
fn utf16z_encodes_astral_characters_as_surrogate_pairs() {
    let v = to_utf16z("a😀");
    assert_eq!(v, vec![0x61, 0xD83D, 0xDE00, 0]);
    let expected: Vec<u16> = "x€😀y".encode_utf16().chain(std::iter::once(0)).collect();
    assert_eq!(to_utf16z("x€😀y"), expected);
    assert_eq!(to_utf16z(""), vec![0]);
}

#[test]
fn text_ends_at_first_nul() {
    assert_eq!(text_len_before_nul(&[0x48, 0x69, 0, 0x41]), 2);
    assert_eq!(text_len_before_nul(&[0x48, 0x69]), 2);
    assert_eq!(text_len_before_nul(&[]), 0);
}

#[test]
fn privacy_formats_are_all_zero() {
    let f = privacy_formats();
    assert_eq!(
        f,
        vec![
            ("ExcludeClipboardContentFromMonitorProcessing", 0),
            ("CanIncludeInClipboardHistory", 0),
            ("CanUploadToCloudClipboard", 0),
        ]
    );
}

#[test]
fn ctrl_v_is_four_strokes() {
    assert_eq!(ctrl_v_strokes(), vec![(0x11, false), (0x56, false), (0x56, true), (0x11, true)]);
}

fn snapshot() -> Vec<ClipData> {
    let text: Vec<u8> = to_utf16z("before").iter().flat_map(|u| u.to_le_bytes()).collect();
    vec![
        ClipData { format: 13, data: text },
        ClipData { format: 8, data: vec![40, 0, 0, 0, 2, 0, 0, 0] },
        ClipData { format: 15, data: vec![20, 0, 0, 0, 0x43, 0x3A, 0x5C, 0, 0] },
        ClipData { format: 0xC0A1, data: b"{\\rtf1 hi}".to_vec() },
    ]
}

fn as_plain(entries: &[ClipData]) -> Vec<(u32, Vec<u8>)> {
    entries.iter().map(|e| (e.format, e.data.clone())).collect()
}

#[test]
fn staged_text_is_rendered_and_every_format_restored() {
    let mut c = ClipboardOwner::new();
    c.stage("hello", Some(snapshot()));
    assert!(!c.is_rendered());
    assert_eq!(c.render(), Some(to_utf16z("hello")));
    assert!(c.is_rendered());
    match c.restore(true) {
        RestoreStep::Write(Some(t)) => assert_eq!(as_plain(&t), as_plain(&snapshot())),
        RestoreStep::Write(None) => panic!("snapshot lost"),
        RestoreStep::Skip => panic!("restore skipped while the clipboard is ours"),
    }
    assert!(matches!(c.restore(true), RestoreStep::Write(None)));
}

#[test]
fn a_user_copy_in_between_is_never_overwritten() {
    let mut c = ClipboardOwner::new();
    c.stage("hello", Some(snapshot()));
    assert!(matches!(c.restore(false), RestoreStep::Skip));
    match c.restore(true) {
        RestoreStep::Write(Some(t)) => assert_eq!(t.len(), 4),
        _ => panic!("snapshot dropped by a skipped restore"),
    }
}

#[test]
fn nothing_to_restore_empties_the_clipboard() {
    let mut c = ClipboardOwner::new();
    c.stage("hello", None);
    match c.restore(true) {
        RestoreStep::Write(t) => assert!(t.is_none()),
        RestoreStep::Skip => panic!("restore skipped"),
    }
}

#[test]
fn byte_formats_are_kept_and_handle_formats_skipped() {
    for f in [1u32, 7, 8, 13, 15, 16, 17, 0xC000, 0xC0A1] {
        assert!(snapshot_format_kept(f), "format {f}");
    }
    for f in [2u32, 3, 9, 14, 0x80, 0x82, 0x83, 0x8E, 0x200, 0x2FF, 0x300, 0x3FF] {
        assert!(!snapshot_format_kept(f), "format {f}");
    }
}
