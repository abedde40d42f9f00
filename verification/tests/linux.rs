use magicpad_companion::linux::{battery_from_supplies, capacity_percent, enumerate_devices, read_battery, InputNode, PowerSupplyEntry};
use magicpad_companion::linux::{
    battery_name_matches, candidate_rank, candidate_to_device, charging_from_status,
    detect_connection, extract_serial_hint, field_from_uevent, group_key, helpers_status,
    is_battery_type, is_magic_trackpad_name, is_trackpad_candidate, module_listed,
    os_release_value, parse_hid_name, phys_rank, pick_better_battery, select_candidates,
    HidCandidate, hid_candidate, hid_rank_fits,
};
use magicpad_companion::models::{BatteryInfo, ConnectionType, DriverState};

#[test]
fn uevent_fields() {
    let ue = "DRIVER=hid-multitouch\nHID_ID=0003:000005AC:00000324\nHID_NAME=Apple Inc. Magic Trackpad\nHID_PHYS=usb-0000:00:14.0-4/input0\nHID_UNIQ=\nHID_UNIQ2=X\n";
    assert_eq!(field_from_uevent(ue, "HID_NAME"), Some("Apple Inc. Magic Trackpad".to_string()));
    assert_eq!(field_from_uevent(ue, "HID_PHYS"), Some("usb-0000:00:14.0-4/input0".to_string()));
    // an empty value is skipped; the next line starting with the key counts
    assert_eq!(field_from_uevent(ue, "HID_UNIQ"), Some("2=X".to_string()));
    assert_eq!(field_from_uevent(ue, "MODALIAS"), None);
}

#[test]
fn serial_hints() {
    assert_eq!(extract_serial_hint("apple-trackpad:ABC123"), Some("ABC123".to_string()));
    assert_eq!(extract_serial_hint("input:ABC123"), Some("ABC123".to_string()));
    assert_eq!(extract_serial_hint("input:event7"), None);
    assert_eq!(extract_serial_hint("input:input12"), None);
    assert_eq!(extract_serial_hint("0003:05AC:0324.0005"), None);
}

fn bat(p: Option<u8>, c: Option<bool>) -> BatteryInfo {
    BatteryInfo { percent: p, charging: c, source: "power_supply".to_string() }
}

#[test]
fn charging_beats_capacity() {
    let r = pick_better_battery(None, bat(Some(10), None));
    assert_eq!(r.percent, Some(10));
    let r = pick_better_battery(Some(bat(Some(90), Some(false))), bat(Some(10), Some(true)));
    assert_eq!(r.percent, Some(10));
    let r = pick_better_battery(Some(bat(Some(90), None)), bat(Some(80), None));
    assert_eq!(r.percent, Some(90));
    // ties go to the new candidate
    let r = pick_better_battery(Some(bat(Some(50), None)), bat(Some(50), Some(false)));
    assert_eq!(r.charging, Some(false));
}

#[test]
fn power_supply_texts() {
    assert_eq!(charging_from_status("Charging"), Some(true));
    assert_eq!(charging_from_status("Full"), Some(false));
    assert_eq!(charging_from_status(" Not charging\n"), Some(false));
    assert_eq!(charging_from_status("Discharging"), Some(false));
    assert_eq!(charging_from_status("Unknown"), None);
    assert!(is_battery_type(" battery\n"));
    assert!(!is_battery_type("Mains"));
    assert!(battery_name_matches("hid-ABC-battery", &Some("ABC".to_string())));
    assert!(!battery_name_matches("hid-XYZ-battery", &Some("ABC".to_string())));
    assert!(battery_name_matches("anything", &None));
}

#[test]
fn hid_names() {
    assert_eq!(parse_hid_name("0003:05AC:0324.0005"), Some((0x05AC, 0x0324, 5)));
    assert_eq!(parse_hid_name("0005:05AC:0265.000A"), Some((0x05AC, 0x0265, 10)));
    assert_eq!(parse_hid_name("0003:046D:C52B.0001"), None);
    assert_eq!(parse_hid_name("bogus"), None);
}

#[test]
fn ranks() {
    assert_eq!(phys_rank(&Some("usb-0000:00:14.0-4/input0".to_string())), 0);
    assert_eq!(phys_rank(&Some("usb-0000:00:14.0-4/input2".to_string())), 2);
    assert_eq!(phys_rank(&None), 50);
    assert_eq!(candidate_rank(2, 5), 2005);
}

#[test]
fn trackpad_candidates() {
    assert!(is_trackpad_candidate(0x0324, &None, false, ""));
    assert!(is_trackpad_candidate(0x9999, &Some("Apple Magic TrackPad".to_string()), false, ""));
    assert!(is_trackpad_candidate(0x9999, &None, true, ""));
    assert!(is_trackpad_candidate(0x9999, &None, false, "HID_NAME=trackpad"));
    assert!(!is_trackpad_candidate(0x9999, &Some("Magic Keyboard".to_string()), false, ""));
    assert!(is_magic_trackpad_name("Apple Inc. Magic Trackpad"));
}

fn cand(fname: &str, uniq: Option<&str>, usb: Option<&str>, rank: u32) -> HidCandidate {
    HidCandidate {
        path: format!("/sys/devices/pci0000:00/0000:00:14.0/usb1/1-4/1-4:1.0/{fname}"),
        fname: fname.to_string(),
        vid: 0x05AC,
        pid: 0x0324,
        uniq: uniq.map(|s| s.to_string()),
        phys: Some("usb-0000:00:14.0-4/input0".to_string()),
        hid_name: Some("Apple Inc. Magic Trackpad".to_string()),
        rank,
        usb_parent: usb.map(|s| s.to_string()),
    }
}

#[test]
fn grouping_keys_and_devices() {
    let c = cand("0003:05AC:0324.0005", Some("SER1"), Some("/sys/usb1/1-4"), 5);
    let k: String = group_key(&c).into_iter().collect();
    assert_eq!(k, "uniq:SER1");
    let c2 = cand("0003:05AC:0324.0006", Some(""), Some("/sys/usb1/1-4"), 6);
    let k: String = group_key(&c2).into_iter().collect();
    assert_eq!(k, "usb:/sys/usb1/1-4");
    let c3 = cand("0003:05AC:0324.0007", None, None, 7);
    let k: String = group_key(&c3).into_iter().collect();
    assert_eq!(k, "vidpid:05AC:0324");

    let d = candidate_to_device(c);
    assert_eq!(d.id, "apple-trackpad:SER1");
    assert_eq!(d.name, "Apple Inc. Magic Trackpad");
    assert_eq!(d.model, "Magic Trackpad 3 (USB-C)");
    assert_eq!(d.connection, ConnectionType::UsbC);
    assert_eq!(d.driver_bound, Some(true));
    assert!(d.notes.contains(&"Serial SER1".to_string()));
    assert!(d.notes.contains(&"USB-C Magic Trackpad (A3120 lineage)".to_string()));
    let d3 = candidate_to_device(c3);
    assert_eq!(d3.id, "0003:05AC:0324.0007");
}

#[test]
fn one_candidate_per_key_lowest_rank() {
    let cs = vec![
        cand("a", Some("S"), None, 2005),
        cand("b", Some("S"), None, 5),
        cand("c", None, Some("/usb/1-4"), 9),
        cand("d", Some("S"), None, 5),
    ];
    assert_eq!(select_candidates(&cs), vec![1, 2]);
}

#[test]
fn connections() {
    assert_eq!(
        detect_connection("/sys/devices/virtual/misc/uhid/bluetooth/0005:05AC:0265.0001", 0x0265),
        ConnectionType::Bluetooth
    );
    assert_eq!(detect_connection("/sys/devices/pci0000:00/usb1/1-4", 0x0324), ConnectionType::UsbC);
    assert_eq!(detect_connection("/sys/devices/pci0000:00/usb1/1-4", 0x0265), ConnectionType::Usb);
    assert_eq!(detect_connection("/sys/devices/virtual", 0x0325), ConnectionType::UsbC);
    assert_eq!(detect_connection("/sys/devices/virtual", 0x0265), ConnectionType::Unknown);
}

#[test]
fn helper_status_text() {
    let s = helpers_status(false, true, false);
    assert_eq!(s.state, DriverState::NotInstalled);
    assert_eq!(s.name, "MagicPad Linux helpers (udev + remapper)");
    assert_eq!(s.detail, "udev rule: not installed · input-remapper: present · hid modules: check lsmod");
    assert!(s.can_install);
    assert!(!s.can_uninstall);
    let s = helpers_status(true, false, true);
    assert_eq!(s.state, DriverState::Installed);
    assert!(s.can_uninstall);
    assert_eq!(s.detail, "udev rule: installed · input-remapper: not found · hid modules: magicmouse/multitouch loaded");
}

#[test]
fn modules_and_os_release() {
    let mods = "hid_multitouch 45056 0 - Live 0x0\nusbhid 77824 0 - Live 0x0\n";
    assert!(module_listed(mods, "hid_multitouch"));
    assert!(!module_listed(mods, "hid_magicmouse"));
    let osr = "NAME=\"EndeavourOS\"\nPRETTY_NAME=\"EndeavourOS\"\nVERSION_ID=2024.06\n";
    assert_eq!(os_release_value(osr, "PRETTY_NAME="), Some("EndeavourOS".to_string()));
    assert_eq!(os_release_value(osr, "VERSION_ID="), Some("2024.06".to_string()));
    assert_eq!(os_release_value(osr, "BUILD_ID="), None);
}

fn supply(fname: &str, type_text: &str, model: &str, capacity: Option<&str>, status: &str) -> PowerSupplyEntry {
    PowerSupplyEntry {
        fname: fname.to_string(),
        path: format!("/sys/class/power_supply/{fname}"),
        type_text: type_text.to_string(),
        model: model.to_string(),
        capacity: capacity.map(|s| s.to_string()),
        status: status.to_string(),
    }
}

#[test]
fn batteries_from_power_supply() {
    assert_eq!(capacity_percent(&Some(" 87\n".to_string())), Some(87));
    assert_eq!(capacity_percent(&Some("300".to_string())), None);
    assert_eq!(capacity_percent(&None), None);

    let es = vec![
        supply("BAT0", "Battery", "Laptop", Some("50"), "Discharging"),
        supply("hid-SER1-battery", "Battery\n", "Magic Trackpad", Some("40"), "Discharging"),
        supply("hid-SER1-battery-2", "battery", "Magic Trackpad", Some("30"), "Charging"),
        supply("hid-OTHER-battery", "Battery", "Magic Trackpad", Some("99"), "Full"),
    ];
    // charging beats a higher capacity
    let b = battery_from_supplies(&es, &Some("SER1".to_string())).unwrap();
    assert_eq!(b.percent, Some(30));
    assert_eq!(b.charging, Some(true));
    assert_eq!(b.source, "/sys/class/power_supply/hid-SER1-battery-2");
    // without a serial every trackpad battery competes
    let b = battery_from_supplies(&es, &None).unwrap();
    assert_eq!(b.percent, Some(30));
    // an unknown serial falls back to any model naming a trackpad
    let b = battery_from_supplies(&es, &Some("NOPE".to_string())).unwrap();
    assert_eq!(b.percent, Some(30));
    let only_laptop = vec![supply("BAT0", "Battery", "Laptop", Some("50"), "Discharging")];
    assert!(battery_from_supplies(&only_laptop, &None).is_none());
    let r = read_battery("apple-trackpad:OTHER", &es).unwrap().unwrap();
    assert_eq!(r.percent, Some(99));
    assert_eq!(r.charging, Some(false));
}

#[test]
fn enumerate_from_sysfs_reads() {
    let cands = vec![
        cand("0003:05AC:0324.0006", Some("SER1"), Some("/sys/devices/pci0000:00/0000:00:14.0/usb1/1-4"), 1006),
        cand("0003:05AC:0324.0005", Some("SER1"), Some("/sys/devices/pci0000:00/0000:00:14.0/usb1/1-4"), 5),
    ];
    let nodes = vec![
        // under the USB parent of the HID device: covered
        InputNode {
            name: "Apple Inc. Magic Trackpad\n".to_string(),
            resolved: "/sys/devices/pci0000:00/0000:00:14.0/usb1/1-4/1-4:1.1/input/input9".to_string(),
            uniq: None,
            node: "input9".to_string(),
            class_path: "/sys/class/input/input9".to_string(),
            usb_parent: Some("/sys/devices/pci0000:00/0000:00:14.0/usb1/1-4".to_string()),
        },
        // a Bluetooth trackpad
        InputNode {
            name: "Magic Trackpad\n".to_string(),
            resolved: "/sys/devices/virtual/misc/uhid/bluetooth/input12".to_string(),
            uniq: Some("aa:bb".to_string()),
            node: "input12".to_string(),
            class_path: "/sys/class/input/input12".to_string(),
            usb_parent: None,
        },
        // not a trackpad
        InputNode {
            name: "AT Translated Set 2 keyboard".to_string(),
            resolved: "/sys/devices/platform/i8042/input3".to_string(),
            uniq: None,
            node: "input3".to_string(),
            class_path: "/sys/class/input/input3".to_string(),
            usb_parent: None,
        },
    ];
    let supplies = vec![supply("hid-SER1-battery", "Battery", "Magic Trackpad", Some("77"), "Discharging")];
    let ds = enumerate_devices(&cands, &nodes, &supplies);
    assert_eq!(ds.len(), 2, "{ds:?}");
    let ids: Vec<&str> = ds.iter().map(|d| d.id.as_str()).collect();
    // the input node under the HID device's USB parent adds nothing
    assert_eq!(ids, vec!["apple-trackpad:05AC:0000:AA:BB", "apple-trackpad:05AC:0324:SER1"]);
    assert_eq!(ds[0].connection, ConnectionType::Bluetooth);
    assert_eq!(ds[0].path.as_deref(), Some("/sys/class/input/input12"));
    assert_eq!(ds[1].connection, ConnectionType::UsbC);
    assert_eq!(ds[1].name, "Apple Inc. Magic Trackpad");
    // the serial-matched battery
    assert_eq!(ds[1].battery.as_ref().and_then(|b| b.percent), Some(77));
    assert_eq!(ds[1].battery.as_ref().map(|b| b.source.as_str()), Some("/sys/class/power_supply/hid-SER1-battery"));
}

#[test]
fn hid_candidate_from_node() {
    let uevent = "HID_ID=0003:000005AC:00000324\nHID_NAME=Apple Inc. Magic Trackpad\nHID_PHYS=usb-0000:00:14.0-4/input1\nHID_UNIQ=F0B3EC123456\n";
    assert!(hid_rank_fits("0003:05AC:0324.0005", uevent, false));
    let c = hid_candidate(
        "/sys/bus/hid/devices/0003:05AC:0324.0005".to_string(),
        "0003:05AC:0324.0005".to_string(),
        uevent,
        false,
        Some("/sys/devices/usb1/1-4".to_string()),
    )
    .expect("an Apple trackpad node");
    assert_eq!(c.vid, 0x05AC);
    assert_eq!(c.pid, 0x0324);
    assert_eq!(c.rank, 1005);
    assert_eq!(c.uniq.as_deref(), Some("F0B3EC123456"));
    assert_eq!(c.phys.as_deref(), Some("usb-0000:00:14.0-4/input1"));
    assert_eq!(c.usb_parent.as_deref(), Some("/sys/devices/usb1/1-4"));

    // A Logitech receiver is no candidate; nor is an Apple keyboard.
    assert!(hid_candidate("p".to_string(), "0003:046D:C52B.0001".to_string(), "", false, None).is_none());
    assert!(hid_candidate(
        "p".to_string(),
        "0003:05AC:0267.0002".to_string(),
        "HID_NAME=Apple Inc. Magic Keyboard\n",
        false,
        None
    )
    .is_none());
    // An input child named like a trackpad makes an unknown Apple product one.
    let k = hid_candidate("p".to_string(), "0003:05AC:0267.0002".to_string(), "", true, None).unwrap();
    assert_eq!(k.rank, 50002);
}
