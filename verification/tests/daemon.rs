use magicpad_companion::gestures::hold_tap;
use magicpad_companion::daemon::{
    autostart_body, daemon_precheck, daemon_status, enable_outcome, extract_fingers,
    group_file_lists_user, parse_event, session_in_input_group, uid_from_output, user_unit_body,
    DaemonProbes, GestureEvent, HINT_GROUP, HINT_SAVE, INPUT_GROUP_MISSING,
};

#[test]
fn parse_swipe_begin() {
    let line = " event3  GESTURE_SWIPE_BEGIN +0.1s  3";
    match parse_event(line) {
        Some(GestureEvent::SwipeBegin { fingers }) => assert_eq!(fingers, 3),
        other => panic!("{other:?}"),
    }
}

#[test]
fn parse_swipe_update_reads_fingers() {
    let line = " event3   GESTURE_SWIPE_UPDATE  +1.23s\t3\t 12.5/ -0.3 ( 12.5/ -0.3 unaccelerated)";
    match parse_event(line) {
        Some(GestureEvent::SwipeUpdate { fingers }) => assert_eq!(fingers, 3),
        other => panic!("unexpected {other:?}"),
    }
}

#[test]
fn parse_other_events() {
    assert!(matches!(
        parse_event("event3  GESTURE_SWIPE_END    +1.400s  4"),
        Some(GestureEvent::SwipeEnd { fingers: 4 })
    ));
    assert!(matches!(
        parse_event("event3  GESTURE_PINCH_BEGIN  +2.0s  2"),
        Some(GestureEvent::PinchBegin { fingers: 2 })
    ));
    assert!(matches!(
        parse_event("event3  GESTURE_PINCH_UPDATE +2.1s  2 1.05 (0.50/0.00 unaccelerated)"),
        Some(GestureEvent::PinchUpdate { fingers: 2 })
    ));
    assert!(matches!(
        parse_event("event3  GESTURE_PINCH_END +2.2s 2"),
        Some(GestureEvent::PinchEnd)
    ));
    assert!(matches!(
        parse_event("event3  GESTURE_HOLD_BEGIN   +3.0s  3"),
        Some(GestureEvent::HoldBegin { fingers: 3 })
    ));
    assert!(matches!(
        parse_event("event3  GESTURE_HOLD_END     +3.1s  3"),
        Some(GestureEvent::HoldEnd { fingers: 3 })
    ));
    assert!(parse_event("event3  POINTER_MOTION +1.0s 1.00/ 2.00").is_none());
    assert!(parse_event("").is_none());
}

#[test]
fn parse_defaults_when_no_finger_count() {
    // no count in 2..=5 after the event name: the per-event default applies
    assert!(matches!(
        parse_event("event3 GESTURE_SWIPE_BEGIN +0.1s"),
        Some(GestureEvent::SwipeBegin { fingers: 3 })
    ));
    assert!(matches!(
        parse_event("event3 GESTURE_SWIPE_END +0.1s 9"),
        Some(GestureEvent::SwipeEnd { fingers: 0 })
    ));
    assert!(matches!(
        parse_event("event3 gesture_pinch_begin +0.1s"),
        Some(GestureEvent::PinchBegin { fingers: 2 })
    ));
}

#[test]
fn extract_fingers_looks_ahead_four_words() {
    assert_eq!(extract_fingers("event3 GESTURE_HOLD_BEGIN +3.0s 4"), Some(4));
    assert_eq!(extract_fingers("event3 GESTURE_HOLD_BEGIN a b c d 4"), None);
    assert_eq!(extract_fingers("event3 GESTURE_HOLD_BEGIN 1 7 5"), Some(5));
    assert_eq!(extract_fingers("no gesture here 3"), None);
}

fn probes() -> DaemonProbes {
    DaemonProbes {
        on_linux: true,
        libinput_ok: true,
        wtype_ok: true,
        input_group: true,
        can_read: true,
        unit_installed: true,
        running: true,
    }
}

#[test]
fn daemon_status_running() {
    let s = daemon_status(probes());
    assert!(s.available && s.running);
    assert_eq!(s.message, "Gesture daemon is running");
}

#[test]
fn daemon_status_ready_and_setup() {
    let mut p = probes();
    p.running = false;
    let s = daemon_status(p);
    assert_eq!(s.message, format!("Setup needed: {HINT_SAVE}"));

    let mut p = probes();
    p.running = false;
    p.libinput_ok = false;
    p.wtype_ok = false;
    p.input_group = false;
    let s = daemon_status(p);
    assert_eq!(
        s.message,
        format!("Setup needed: install libinput-tools; install wtype; {HINT_GROUP}")
    );
    assert!(!s.libinput_ok && !s.wtype_ok && !s.input_group);

    let mut p = probes();
    p.can_read = false;
    let s = daemon_status(p);
    assert!(s.message.starts_with("Daemon process is up but cannot read the trackpad"));
}

#[test]
fn precheck_errors_in_order() {
    assert_eq!(
        daemon_precheck(false, false, false, false),
        Err("Gesture daemon is Linux-only".to_string())
    );
    assert_eq!(
        daemon_precheck(true, false, false, false),
        Err("libinput CLI missing. Run: sudo pacman -S libinput-tools".to_string())
    );
    assert_eq!(
        daemon_precheck(true, true, false, false),
        Err("wtype missing. Run: sudo pacman -S wtype".to_string())
    );
    assert_eq!(daemon_precheck(true, true, true, false), Err(INPUT_GROUP_MISSING.to_string()));
    assert_eq!(daemon_precheck(true, true, true, true), Ok(()));
}

#[test]
fn enable_outcome_messages() {
    assert_eq!(
        enable_outcome(true, "ignored"),
        Ok("Gesture daemon enabled and started (systemd --user)".to_string())
    );
    assert_eq!(
        enable_outcome(false, "unit not found"),
        Err("failed to start magicpad-gestures.service: unit not found".to_string())
    );
}

#[test]
fn unit_file_text() {
    let body = user_unit_body("/usr/bin/magicpad", true, None, None, 1000);
    assert!(body.contains("ExecStart=/usr/bin/sg input -c '/usr/bin/magicpad --gestures'\n"));
    assert!(body.contains("Environment=WAYLAND_DISPLAY=wayland-0\n"));
    assert!(body.contains("Environment=XDG_RUNTIME_DIR=/run/user/1000\n"));
    assert!(body.starts_with("[Unit]\n"));
    assert!(body.ends_with("WantedBy=default.target\n"));

    let body = user_unit_body(
        "/opt/mp",
        false,
        Some("wayland-1".to_string()),
        Some("/run/user/42".to_string()),
        7,
    );
    assert!(body.contains("ExecStart=/opt/mp --gestures\n"));
    assert!(body.contains("WAYLAND_DISPLAY=wayland-1\n"));
    assert!(body.contains("XDG_RUNTIME_DIR=/run/user/42\n"));
}

#[test]
fn autostart_text() {
    let body = autostart_body("/opt/mp");
    assert!(body.starts_with("[Desktop Entry]\n"));
    assert!(body.contains("Exec=/opt/mp --gestures\n"));
}

#[test]
fn input_group_membership() {
    assert!(session_in_input_group("wheel input audio\n"));
    assert!(!session_in_input_group("wheel inputs audio"));
    let groups = "root:x:0:\ninput:x:97:alice,bob\nwheel:x:998:carol\n";
    assert!(group_file_lists_user(groups, "bob"));
    assert!(group_file_lists_user(groups, "alice"));
    assert!(!group_file_lists_user(groups, "carol"));
    assert!(!group_file_lists_user(groups, ""));
}

#[test]
fn uid_parsing() {
    assert_eq!(uid_from_output(Some(" 1001\n".to_string())), 1001);
    assert_eq!(uid_from_output(Some("abc".to_string())), 1000);
    assert_eq!(uid_from_output(None), 1000);
}

#[test]
fn one_finger_hold_never_taps() {
    let begin = parse_event(" event7  GESTURE_HOLD_BEGIN +3.000s  1");
    let end = parse_event(" event7  GESTURE_HOLD_END +3.100s  1");
    assert!(matches!(begin, Some(GestureEvent::HoldBegin { fingers: 0 })));
    assert!(matches!(end, Some(GestureEvent::HoldEnd { fingers: 0 })));
    assert_eq!(hold_tap(0, 0, 100_000_000, 1_000_000_000), None);
    // a three-finger hold is a tap; the end line's count wins when it has one
    assert!(hold_tap(3, 0, 100_000_000, 1_000_000_000).is_some());
    assert!(hold_tap(0, 4, 100_000_000, 1_000_000_000).is_some());
    assert_eq!(hold_tap(3, 2, 100_000_000, 1_000_000_000), None);
}
