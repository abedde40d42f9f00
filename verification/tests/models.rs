use magicpad_companion::error::{unsupported, AppError};
use magicpad_companion::models::{
    is_known_trackpad_pid, model_name_for_pid, GestureAction, GestureMap, GestureTrigger,
    PlatformKind, APPLE_VID,
};
use magicpad_companion::platform::{no_system_helpers, MacosBackend, StubBackend};

#[test]
fn model_names() {
    assert_eq!(model_name_for_pid(0x0324), "Magic Trackpad 3 (USB-C)");
    assert_eq!(model_name_for_pid(0x0265), "Magic Trackpad 2");
    assert_eq!(model_name_for_pid(0x030E), "Magic Trackpad 2 (USB)");
    assert_eq!(model_name_for_pid(0x0001), "Apple HID device (PID 0001)");
    assert_eq!(model_name_for_pid(0xBEEF), "Apple HID device (PID BEEF)");
    assert_eq!(APPLE_VID, 0x05AC);
}

#[test]
fn known_pids_are_exactly_the_named_ones() {
    for pid in 0..=u16::MAX {
        let generic = model_name_for_pid(pid).starts_with("Apple HID device (PID ");
        assert_eq!(is_known_trackpad_pid(pid), !generic, "pid {pid:04X}");
    }
    assert!(is_known_trackpad_pid(0x0229));
    assert!(!is_known_trackpad_pid(0x0326));
}

#[test]
fn default_gesture_map() {
    let m = GestureMap::default();
    assert_eq!(m.backend, "default");
    assert_eq!(m.bindings.len(), 12);
    for b in &m.bindings {
        assert!(b.available);
        assert!(b.custom.is_none());
    }
    let action = |t: GestureTrigger| m.bindings.iter().find(|b| b.trigger == t).unwrap().action;
    assert_eq!(action(GestureTrigger::ThreeFingerSwipeLeft), GestureAction::PrevDesktop);
    // the 3-finger tap opens the screenshot tool
    assert_eq!(action(GestureTrigger::ThreeFingerTap), GestureAction::Screenshot);
    assert_eq!(action(GestureTrigger::FourFingerTap), GestureAction::NoAction);
    assert_eq!(action(GestureTrigger::PinchIn), GestureAction::ZoomOut);
    assert_eq!(action(GestureTrigger::PinchOut), GestureAction::ZoomIn);
    // each trigger bound exactly once
    for (i, a) in m.bindings.iter().enumerate() {
        for b in m.bindings.iter().skip(i + 1) {
            assert_ne!(a.trigger, b.trigger);
        }
    }
}

#[test]
fn error_messages() {
    assert_eq!(AppError::msg("boom".to_string()).message(), "boom");
    assert_eq!(unsupported("x").message(), "not supported on this platform: x");
    assert_eq!(AppError::DeviceNotFound("t1".into()).message(), "device not found: t1");
    assert_eq!(AppError::Permission("root".into()).message(), "permission denied: root");
    let io = std::io::Error::new(std::io::ErrorKind::Other, "disk gone");
    assert_eq!(AppError::Io(io).message(), "io: disk gone");
    let json = serde_json::from_str::<u8>("x").unwrap_err();
    let m = AppError::Json(json).message();
    assert!(m.starts_with("json: "), "{m}");
    assert!(m.len() > "json: ".len());
}

#[test]
fn stub_backend() {
    let b = StubBackend::new();
    let p = b.platform_info("freebsd", "x86_64");
    assert_eq!(p.kind, PlatformKind::Other);
    assert_eq!(p.os_name, "freebsd");
    assert_eq!(p.capabilities, vec!["status_only".to_string()]);
    assert!(b.list_devices().unwrap().is_empty());
    assert!(b.battery("x").unwrap().is_none());
    match b.set_gestures(&GestureMap::default()) {
        Err(e) => assert_eq!(e.message(), "not supported on this platform: gestures not available on this OS"),
        Ok(()) => panic!("expected unsupported"),
    }
    assert!(matches!(b.install_driver(), Err(AppError::Unsupported(_))));
    let h = no_system_helpers();
    assert!(!h.success);
    assert_eq!(h.message, "No system helpers for this platform.");
}

#[test]
fn macos_backend() {
    let b = MacosBackend { config_dir: "/tmp/mp".to_string() };
    let p = b.platform_info("aarch64");
    assert_eq!(p.kind, PlatformKind::Macos);
    assert_eq!(p.desktop.as_deref(), Some("Aqua"));
    let g = b.get_gestures().unwrap();
    assert_eq!(g.backend, "macos_system");
    assert!(g.bindings.iter().all(|b| !b.available));
}
