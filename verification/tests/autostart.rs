use whispeross::autostart::{is_enabled, reconcile_step, run_command, AutostartStep};

#[test]
fn run_value_is_the_quoted_executable() {
    assert_eq!(run_command("C:\\Apps\\WhisperOSS.exe"), "\"C:\\Apps\\WhisperOSS.exe\"");
}

#[test]
fn reconcile_matches_the_setting() {
    let registered = Some("\"C:\\old.exe\"".to_string());
    match reconcile_step(true, &registered, Some("C:\\new.exe")) {
        AutostartStep::Register(c) => assert_eq!(c, "\"C:\\new.exe\""),
        _ => panic!("expected a registration"),
    }
    assert!(matches!(reconcile_step(true, &None, None), AutostartStep::Keep));
    assert!(matches!(reconcile_step(false, &registered, None), AutostartStep::Remove));
    assert!(matches!(reconcile_step(false, &None, Some("x")), AutostartStep::Keep));
    assert!(is_enabled(&registered));
    assert!(!is_enabled(&None));
}
