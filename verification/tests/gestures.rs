use magicpad_companion::gestures::{
    action_name, action_to_command, action_to_keys, daemon_map, detect_backend, fire_trigger,
    load_linux_map, maybe_fire_tap, pinch_decision, plan_action, remapper_mappings,
    swipe_decision, trigger_name, upgrade_pinch_bindings, wtype_args, xdotool_combo, ActionPlan,
    KeyChord, PinchDirection, SwipeDirection, BROWSER_BACK_COMMAND, BROWSER_FORWARD_COMMAND,
    SCREENSHOT_COMMAND,
};
use magicpad_companion::models::{GestureAction, GestureBinding, GestureMap, GestureTrigger};

const ALL_TRIGGERS: [GestureTrigger; 12] = [
    GestureTrigger::ThreeFingerSwipeLeft,
    GestureTrigger::ThreeFingerSwipeRight,
    GestureTrigger::ThreeFingerSwipeUp,
    GestureTrigger::ThreeFingerSwipeDown,
    GestureTrigger::ThreeFingerTap,
    GestureTrigger::FourFingerSwipeLeft,
    GestureTrigger::FourFingerSwipeRight,
    GestureTrigger::FourFingerSwipeUp,
    GestureTrigger::FourFingerSwipeDown,
    GestureTrigger::FourFingerTap,
    GestureTrigger::PinchIn,
    GestureTrigger::PinchOut,
];

#[test]
fn names_for_the_remapper_profile() {
    assert_eq!(trigger_name(GestureTrigger::ThreeFingerSwipeLeft), "3finger_swipe_left");
    assert_eq!(trigger_name(GestureTrigger::FourFingerTap), "4finger_tap");
    assert_eq!(trigger_name(GestureTrigger::PinchOut), "pinch_out");
    assert_eq!(action_name(GestureAction::NoAction), "none");
    assert_eq!(action_name(GestureAction::MissionControl), "overview");
    assert_eq!(action_name(GestureAction::Screenshot), "screenshot");
    assert_eq!(action_name(GestureAction::ZoomIn), "zoom_in");
}

#[test]
fn trigger_names_are_distinct() {
    for (i, a) in ALL_TRIGGERS.iter().enumerate() {
        for b in ALL_TRIGGERS.iter().skip(i + 1) {
            assert_ne!(trigger_name(*a), trigger_name(*b));
        }
    }
}

#[test]
fn zoom_and_desktop_chords() {
    let c = action_to_keys(GestureAction::ZoomIn).unwrap();
    assert_eq!(c.mods, vec!["ctrl"]);
    assert_eq!(c.key, "equal");
    let c = action_to_keys(GestureAction::ZoomOut).unwrap();
    assert_eq!(c.key, "minus");
    let c = action_to_keys(GestureAction::PrevDesktop).unwrap();
    assert_eq!(c.mods, vec!["logo"]);
    assert_eq!(c.key, "Prior");
    let c = action_to_keys(GestureAction::VolumeUp).unwrap();
    assert!(c.mods.is_empty());
    assert_eq!(c.key, "XF86AudioRaiseVolume");
    assert!(action_to_keys(GestureAction::NoAction).is_none());
    assert!(action_to_keys(GestureAction::Custom).is_none());
}

#[test]
fn commands_for_actions() {
    assert_eq!(action_to_command(GestureAction::Screenshot), Some(SCREENSHOT_COMMAND));
    assert!(SCREENSHOT_COMMAND.contains("org.buddiesofbudgie.BudgieScreenshot -i"));
    assert_eq!(
        action_to_command(GestureAction::VolumeDown),
        Some("pactl set-sink-volume @DEFAULT_SINK@ -5% 2>/dev/null || true")
    );
    assert_eq!(action_to_command(GestureAction::ZoomIn), None);
}

#[test]
fn wtype_presses_then_releases_in_reverse() {
    let c = KeyChord { mods: vec!["ctrl", "shift"], key: "t".to_string() };
    assert_eq!(wtype_args(&c), vec!["-M", "ctrl", "-M", "shift", "-k", "t", "-m", "shift", "-m", "ctrl"]);
    let c = KeyChord::super_key("Tab");
    assert_eq!(wtype_args(&c), vec!["-M", "logo", "-k", "Tab", "-m", "logo"]);
}

#[test]
fn xdotool_names() {
    assert_eq!(xdotool_combo(&KeyChord::super_key("Tab")), "super+Tab");
    let c = KeyChord { mods: vec!["control", "alt"], key: "Left".to_string() };
    assert_eq!(xdotool_combo(&c), "ctrl+alt+Left");
    let c = KeyChord { mods: vec![], key: "Print".to_string() };
    assert_eq!(xdotool_combo(&c), "Print");
}

#[test]
fn tap_needs_three_or_four_fingers() {
    assert_eq!(maybe_fire_tap(1, 100_000_000, 1_000_000_000), None);
    assert_eq!(maybe_fire_tap(2, 100_000_000, 1_000_000_000), None);
    assert_eq!(maybe_fire_tap(3, 100_000_000, 1_000_000_000), Some(GestureTrigger::ThreeFingerTap));
    assert_eq!(maybe_fire_tap(4, 450_000_000, 400_000_000), Some(GestureTrigger::FourFingerTap));
    assert_eq!(maybe_fire_tap(3, 450_000_001, 1_000_000_000), None);
    assert_eq!(maybe_fire_tap(3, 100_000_000, 399_999_999), None);
    assert_eq!(maybe_fire_tap(5, 100_000_000, 1_000_000_000), None);
}

#[test]
fn swipe_and_pinch_decisions() {
    assert_eq!(
        swipe_decision(3, Some(SwipeDirection::Left), 350_000_000),
        Some(GestureTrigger::ThreeFingerSwipeLeft)
    );
    assert_eq!(
        swipe_decision(4, Some(SwipeDirection::Down), 1_000_000_000),
        Some(GestureTrigger::FourFingerSwipeDown)
    );
    assert_eq!(swipe_decision(4, Some(SwipeDirection::Up), 349_999_999), None);
    assert_eq!(swipe_decision(2, Some(SwipeDirection::Up), 1_000_000_000), None);
    assert_eq!(swipe_decision(3, None, 1_000_000_000), None);
    assert_eq!(pinch_decision(Some(PinchDirection::In), 280_000_000), Some(GestureTrigger::PinchIn));
    assert_eq!(pinch_decision(Some(PinchDirection::Out), 300_000_000), Some(GestureTrigger::PinchOut));
    assert_eq!(pinch_decision(Some(PinchDirection::Out), 279_999_999), None);
    assert_eq!(pinch_decision(None, 1_000_000_000), None);
}

#[test]
fn fire_trigger_on_defaults() {
    let m = GestureMap::default();
    assert_eq!(fire_trigger(&m, GestureTrigger::ThreeFingerSwipeLeft), Some(0));
    assert_eq!(fire_trigger(&m, GestureTrigger::PinchOut), Some(11));
    // the 3-finger tap is bound to the screenshot tool; the 4-finger tap is unbound
    assert_eq!(fire_trigger(&m, GestureTrigger::ThreeFingerTap), Some(4));
    assert_eq!(fire_trigger(&m, GestureTrigger::FourFingerTap), None);
    let empty = GestureMap { bindings: vec![], backend: String::new() };
    assert_eq!(fire_trigger(&empty, GestureTrigger::PinchIn), None);
}

fn binding(trigger: GestureTrigger, action: GestureAction, custom: Option<&str>) -> GestureBinding {
    GestureBinding { trigger, action, custom: custom.map(|s| s.to_string()), available: true }
}

#[test]
fn plans_for_bindings() {
    match plan_action(&binding(GestureTrigger::FourFingerTap, GestureAction::Custom, Some("flameshot gui"))) {
        ActionPlan::Spawn(c) => assert_eq!(c, "flameshot gui"),
        _ => panic!("expected spawn"),
    }
    assert!(matches!(
        plan_action(&binding(GestureTrigger::FourFingerTap, GestureAction::Custom, None)),
        ActionPlan::Idle
    ));
    match plan_action(&binding(GestureTrigger::ThreeFingerTap, GestureAction::ZoomIn, Some("echo hi"))) {
        ActionPlan::Spawn(c) => assert_eq!(c, "echo hi"),
        _ => panic!("expected spawn"),
    }
    match plan_action(&binding(GestureTrigger::ThreeFingerTap, GestureAction::Screenshot, Some(""))) {
        ActionPlan::CommandThenKeys { command, keys } => {
            assert_eq!(command, Some(SCREENSHOT_COMMAND));
            assert_eq!(keys.unwrap().key, "Print");
        }
        _ => panic!("expected command then keys"),
    }
}

#[test]
fn remapper_lists_bound_bindings() {
    let m = GestureMap::default();
    let maps = remapper_mappings(&m);
    // only the 4-finger tap is unbound by default
    assert_eq!(maps.len(), 11);
    assert_eq!(maps[0].trigger, "3finger_swipe_left");
    assert_eq!(maps[0].action, "workspace_prev");
    assert_eq!(maps[4].trigger, "3finger_tap");
    assert_eq!(maps[4].action, "screenshot");
    assert_eq!(maps[10].trigger, "pinch_out");
    assert_eq!(maps[10].action, "zoom_in");
}

#[test]
fn backend_labels() {
    assert_eq!(detect_backend("Budgie:GNOME", false, false), "libinput-daemon (Budgie/labwc)");
    assert_eq!(detect_backend("", true, false), "libinput-daemon (Budgie/labwc)");
    assert_eq!(detect_backend("KDE", false, true), "libinput-daemon + input-remapper");
    assert_eq!(detect_backend("ubuntu:GNOME", false, false), "libinput-daemon (GNOME keys)");
    assert_eq!(detect_backend("KDE", false, false), "libinput-daemon");
}

#[test]
fn pinch_upgrade_and_loading() {
    let mut m = GestureMap {
        bindings: vec![
            binding(GestureTrigger::PinchIn, GestureAction::NoAction, None),
            binding(GestureTrigger::PinchOut, GestureAction::NoAction, None),
            binding(GestureTrigger::ThreeFingerTap, GestureAction::NoAction, None),
            binding(GestureTrigger::PinchIn, GestureAction::VolumeUp, None),
        ],
        backend: "x".to_string(),
    };
    upgrade_pinch_bindings(&mut m);
    assert_eq!(m.bindings[0].action, GestureAction::ZoomOut);
    assert_eq!(m.bindings[1].action, GestureAction::ZoomIn);
    assert_eq!(m.bindings[2].action, GestureAction::NoAction);
    assert_eq!(m.bindings[3].action, GestureAction::VolumeUp);
    assert_eq!(m.backend, "x");

    let loaded = load_linux_map(None, "libinput-daemon".to_string());
    assert_eq!(loaded.bindings.len(), 12);
    assert_eq!(loaded.backend, "libinput-daemon");

    let stored = GestureMap {
        bindings: vec![binding(GestureTrigger::PinchOut, GestureAction::NoAction, None)],
        backend: "old".to_string(),
    };
    let loaded = load_linux_map(Some(stored), "new".to_string());
    assert_eq!(loaded.backend, "new");
    assert_eq!(loaded.bindings[0].action, GestureAction::ZoomIn);

    let d = daemon_map(Some(GestureMap { bindings: vec![], backend: String::new() }));
    assert_eq!(d.backend, "libinput-daemon");
    let d = daemon_map(None);
    assert_eq!(d.backend, "libinput-daemon");
    assert_eq!(d.bindings.len(), 12);
}

#[test]
fn action_names_are_distinct() {
    let all = [
        GestureAction::NoAction,
        GestureAction::MissionControl,
        GestureAction::AppExpose,
        GestureAction::DesktopShow,
        GestureAction::NextDesktop,
        GestureAction::PrevDesktop,
        GestureAction::BrowserBack,
        GestureAction::BrowserForward,
        GestureAction::SwitchApp,
        GestureAction::NotificationCenter,
        GestureAction::VolumeUp,
        GestureAction::VolumeDown,
        GestureAction::MediaPlayPause,
        GestureAction::ZoomIn,
        GestureAction::ZoomOut,
        GestureAction::Screenshot,
        GestureAction::Custom,
    ];
    for (i, a) in all.iter().enumerate() {
        for b in all.iter().skip(i + 1) {
            assert_ne!(action_name(*a), action_name(*b));
        }
    }
}

#[test]
fn first_binding_of_a_trigger_decides() {
    let m = GestureMap {
        bindings: vec![
            binding(GestureTrigger::PinchIn, GestureAction::NoAction, None),
            binding(GestureTrigger::PinchIn, GestureAction::ZoomOut, None),
            binding(GestureTrigger::PinchOut, GestureAction::ZoomIn, None),
        ],
        backend: String::new(),
    };
    // the first PinchIn binding is unbound, so nothing fires
    assert_eq!(fire_trigger(&m, GestureTrigger::PinchIn), None);
    assert_eq!(fire_trigger(&m, GestureTrigger::PinchOut), Some(2));
}

#[test]
fn browser_navigation_cascade() {
    assert_eq!(action_to_command(GestureAction::BrowserBack), Some(BROWSER_BACK_COMMAND));
    assert_eq!(action_to_command(GestureAction::BrowserForward), Some(BROWSER_FORWARD_COMMAND));
    assert!(BROWSER_BACK_COMMAND.contains("XF86Back") && BROWSER_BACK_COMMAND.contains("click 8"));
    match plan_action(&binding(GestureTrigger::FourFingerSwipeLeft, GestureAction::BrowserBack, None)) {
        ActionPlan::CommandThenKeys { command, keys } => {
            assert_eq!(command, Some(BROWSER_BACK_COMMAND));
            let k = keys.unwrap();
            assert_eq!(k.mods, vec!["alt"]);
            assert_eq!(k.key, "Left");
        }
        _ => panic!("expected the cascade"),
    }
}
