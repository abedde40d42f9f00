use magicpad_companion::windows::{enumerate_devices, inf_search_start, inf_visit, registry_string, registry_strings, DirEntryInfo, SetupNode};
use magicpad_companion::models::{ConnectionType, DeviceInfo, DriverState};
use magicpad_companion::windows::{
    arch_dir, driver_status_from, extract_hex_after, merge_bluetooth, parse_vid_pid_from_instance,
    parse_vid_pid_from_strings, pnputil_result, setup_device, skip_unknown_product,
    sort_dedup_by_id, uninstall_result, wchar_to_string, RECOMMENDED_DRIVER_URL,
    UNINSTALL_INTRO,
};

fn chars(s: &str) -> Vec<char> {
    s.chars().collect()
}

#[test]
fn hex_after_key() {
    assert_eq!(extract_hex_after(&chars("HID\\VID_05AC&PID_0324&MI_01"), "VID_"), Some(0x05AC));
    assert_eq!(extract_hex_after(&chars("HID\\VID_05AC&PID_0324&MI_01"), "PID_"), Some(0x0324));
    assert_eq!(extract_hex_after(&chars("PID_12"), "PID_"), Some(0x12));
    assert_eq!(extract_hex_after(&chars("PID_XYZ"), "PID_"), None);
    assert_eq!(extract_hex_after(&chars("nothing"), "VID_"), None);
}

#[test]
fn vid_pid_from_ids() {
    assert_eq!(
        parse_vid_pid_from_instance("USB\\VID_05AC&PID_0324\\J84HRT00JQC0000509"),
        (Some(0x05AC), Some(0x0324))
    );
    assert_eq!(
        parse_vid_pid_from_instance("usb\\vid_05ac&pid_0265"),
        (Some(0x05AC), Some(0x0265))
    );
    let parts = vec![
        "HID\\VID_05AC&PID_0265&REV_0001".to_string(),
        "HID\\VID_05AC&UP:0001_U:0002".to_string(),
    ];
    assert_eq!(parse_vid_pid_from_strings(&parts), (Some(0x05AC), Some(0x0265)));
    assert_eq!(parse_vid_pid_from_strings(&vec![]), (None, None));
}

#[test]
fn wide_strings() {
    let buf: Vec<u16> = "Magic Trackpad".encode_utf16().chain([0u16, 65, 66]).collect();
    assert_eq!(wchar_to_string(&buf), "Magic Trackpad");
    let buf: Vec<u16> = "abc".encode_utf16().collect();
    assert_eq!(wchar_to_string(&buf), "abc");
    // an unpaired surrogate becomes U+FFFD
    assert_eq!(wchar_to_string(&vec![0xD800, 0x41, 0]), "\u{FFFD}A");
    // a surrogate pair is one character; a lone low surrogate is replaced
    let pair: Vec<u16> = "a\u{1F600}b".encode_utf16().collect();
    assert_eq!(wchar_to_string(&pair), "a\u{1F600}b");
    assert_eq!(wchar_to_string(&vec![0xDC00, 0x42]), "\u{FFFD}B");
}

#[test]
fn setup_nodes() {
    let d = setup_device(
        "USB\\VID_05AC&PID_0324\\J84HRT00JQC0000509".to_string(),
        "Apple USB Precision Touchpad".to_string(),
        Some(0x05AC),
        Some(0x0324),
    );
    assert_eq!(d.model, "Magic Trackpad 3 (USB-C)");
    assert_eq!(d.connection, ConnectionType::UsbC);
    assert_eq!(d.driver_bound, Some(true));
    assert_eq!(d.path.as_deref(), Some("USB\\VID_05AC&PID_0324\\J84HRT00JQC0000509"));

    let d = setup_device(
        "BTHENUM\\{00001124}_VID&000205AC_PID&0265".to_string(),
        "HID-compliant mouse".to_string(),
        None,
        Some(0x0265),
    );
    assert_eq!(d.connection, ConnectionType::Bluetooth);
    assert_eq!(d.vid, Some(0x05AC));
    assert_eq!(d.driver_bound, Some(false));

    assert!(skip_unknown_product(Some(0x9999), &chars("HID\\VID_05AC&PID_9999"), &chars("keyboard")));
    assert!(!skip_unknown_product(Some(0x9999), &chars("HID\\VID_05AC&PID_9999"), &chars("apple touchpad")));
    assert!(!skip_unknown_product(Some(0x0324), &chars("HID\\VID_05AC&PID_0324"), &chars("keyboard")));
}

fn dev(id: &str) -> DeviceInfo {
    DeviceInfo {
        id: id.to_string(),
        name: id.to_string(),
        model: String::new(),
        vid: None,
        pid: None,
        connection: ConnectionType::Unknown,
        connected: true,
        battery: None,
        driver_bound: None,
        path: None,
        notes: vec![],
    }
}

#[test]
fn dedup_and_merge() {
    let v = sort_dedup_by_id(vec![dev("b"), dev("a"), dev("b"), dev("c"), dev("a")]);
    let ids: Vec<&str> = v.iter().map(|d| d.id.as_str()).collect();
    assert_eq!(ids, vec!["a", "b", "c"]);
    let m = merge_bluetooth(vec![dev("a"), dev("b")], &vec![dev("b"), dev("z")]);
    let ids: Vec<&str> = m.iter().map(|d| d.id.as_str()).collect();
    assert_eq!(ids, vec!["a", "b", "z"]);
}

#[test]
fn driver_status_texts() {
    let s = driver_status_from(Some("Published Name: oem12.inf\nOriginal Name: AmtPtpDevice.inf".to_string()), Some(String::new()));
    assert_eq!(s.state, DriverState::Installed);
    assert_eq!(s.version.as_deref(), Some("detected"));
    assert!(s.can_uninstall);
    assert_eq!(s.recommended_source.as_deref(), Some(RECOMMENDED_DRIVER_URL));

    let s = driver_status_from(None, Some("Magic Utilities driver\nTrackpad++ Control".to_string()));
    assert_eq!(s.state, DriverState::Conflict);
    assert_eq!(s.conflicts, vec!["Magic Utilities".to_string(), "Trackpad++".to_string()]);
    assert_eq!(
        s.detail,
        "Conflicting software detected: Magic Utilities, Trackpad++. Uninstall before installing the Precision driver."
    );

    let s = driver_status_from(None, None);
    assert_eq!(s.state, DriverState::NotInstalled);
    assert!(!s.can_uninstall);
    assert_eq!(s.version, None);
}

#[test]
fn uninstall_and_install_outcomes() {
    let r = uninstall_result(Some("oem1.inf  Apple Touchpad\noem2.inf  Realtek Audio\noem3.inf AmtPtpDevice".to_string()));
    assert!(r.success && r.needs_reboot);
    assert_eq!(r.log_lines.len(), 3);
    assert_eq!(r.log_lines[0], UNINSTALL_INTRO);
    assert_eq!(r.log_lines[2], "oem3.inf AmtPtpDevice");
    let r = uninstall_result(None);
    assert_eq!(r.log_lines.len(), 1);

    let r = pnputil_result(true, " Driver package added.\n", "", vec!["Using INF: x.inf".to_string()]);
    assert!(r.success);
    assert_eq!(r.log_lines, vec!["Using INF: x.inf".to_string(), "Driver package added.".to_string()]);
    let r = pnputil_result(false, "", "Access denied", vec![]);
    assert!(!r.success);
    assert!(r.message.starts_with("pnputil failed."));
    assert_eq!(r.log_lines, vec!["Access denied".to_string()]);
}

#[test]
fn architecture_folders() {
    assert_eq!(arch_dir("x86_64"), "AMD64");
    assert_eq!(arch_dir("aarch64"), "ARM64");
    assert_eq!(arch_dir("x86"), "");
}

fn le_bytes(s: &str, extra_nuls: usize) -> Vec<u8> {
    let mut v: Vec<u8> = s.encode_utf16().flat_map(|u| u.to_le_bytes()).collect();
    v.extend(std::iter::repeat(0u8).take(2 * extra_nuls));
    v
}

#[test]
fn registry_properties() {
    assert_eq!(registry_string(&le_bytes("Apple Touchpad", 3)), "Apple Touchpad");
    let multi = le_bytes("HID\\VID_05AC&PID_0265\0HID\\VID_05AC\0", 4);
    assert_eq!(
        registry_strings(&multi),
        vec!["HID\\VID_05AC&PID_0265".to_string(), "HID\\VID_05AC".to_string()]
    );
    assert!(registry_strings(&le_bytes("", 2)).is_empty());
    // a string not ended by NUL is not listed
    assert!(registry_strings(&le_bytes("abc", 0)).is_empty());
}

#[test]
fn setup_nodes_to_devices() {
    let wide = |s: &str| -> Vec<u16> { s.encode_utf16().chain([0u16]).collect() };
    let nodes = vec![
        SetupNode {
            instance: wide("HID\\VID_05AC&PID_0324&MI_01\\9&305DF14F&0&0000"),
            description: Some(le_bytes("HID-compliant touch pad", 1)),
            hardware_ids: Some(le_bytes("HID\\VID_05AC&PID_0324&MI_01\0", 1)),
        },
        // same instance again: deduplicated
        SetupNode {
            instance: wide("HID\\VID_05AC&PID_0324&MI_01\\9&305DF14F&0&0000"),
            description: None,
            hardware_ids: None,
        },
        // Apple keyboard: unknown product, no pad in its names
        SetupNode {
            instance: wide("HID\\VID_05AC&PID_029C\\1"),
            description: Some(le_bytes("Magic Keyboard", 1)),
            hardware_ids: None,
        },
        // not Apple at all
        SetupNode {
            instance: wide("USB\\VID_046D&PID_C52B\\5"),
            description: Some(le_bytes("USB Receiver", 1)),
            hardware_ids: None,
        },
        // Bluetooth PTP recognised by its description
        SetupNode {
            instance: wide("BTHENUM\\{00001124}_LOCALMFG&004C\\8&1"),
            description: Some(le_bytes("Apple Precision Touchpad", 1)),
            hardware_ids: None,
        },
    ];
    let ds = enumerate_devices(&nodes, &vec![dev("ZZZ")]);
    let ids: Vec<&str> = ds.iter().map(|d| d.id.as_str()).collect();
    assert_eq!(
        ids,
        vec![
            "BTHENUM\\{00001124}_LOCALMFG&004C\\8&1",
            "HID\\VID_05AC&PID_0324&MI_01\\9&305DF14F&0&0000",
            "ZZZ"
        ]
    );
    assert_eq!(ds[0].connection, ConnectionType::Bluetooth);
    assert_eq!(ds[0].vid, Some(0x05AC));
    assert_eq!(ds[0].pid, None);
    assert_eq!(ds[0].model, "Apple Precision Touchpad");
    assert_eq!(ds[1].pid, Some(0x0324));
    assert_eq!(ds[1].connection, ConnectionType::UsbC);
    assert_eq!(ds[1].name, "HID-compliant touch pad");
}

fn entry(path: &str, is_dir: bool, ext: Option<&str>) -> DirEntryInfo {
    DirEntryInfo { path: path.to_string(), is_dir, extension: ext.map(|e| e.to_string()) }
}

#[test]
fn inf_search() {
    let stack = inf_search_start("drivers", Some("drivers/AMD64".to_string()));
    // the architecture folder is on top: it is searched first
    assert_eq!(stack, vec!["drivers".to_string(), "drivers/AMD64".to_string()]);
    assert_eq!(inf_search_start("drivers", None), vec!["drivers".to_string()]);

    let mut stack = vec!["drivers/AMD64".to_string()];
    let found = inf_visit(
        &mut stack,
        &vec![
            entry("drivers/readme.txt", false, Some("txt")),
            entry("drivers/ARM64", true, None),
            entry("drivers/AmtPtpDevice.INF", false, Some("INF")),
            entry("drivers/later", true, None),
        ],
    );
    assert_eq!(found.as_deref(), Some("drivers/AmtPtpDevice.INF"));
    assert_eq!(stack, vec!["drivers/AMD64".to_string(), "drivers/ARM64".to_string()]);

    let mut stack = vec![];
    assert_eq!(inf_visit(&mut stack, &vec![entry("a", true, None), entry("b.sys", false, Some("sys"))]), None);
    assert_eq!(stack, vec!["a".to_string()]);
}

#[test]
fn preferred_folder_inf_wins() {
    // root/ARM64/b.inf and root/AMD64/a.inf; the root lists ARM64 last
    let mut stack = inf_search_start("root", Some("root/AMD64".to_string()));
    let listing = |dir: &str| -> Vec<DirEntryInfo> {
        match dir {
            "root" => vec![entry("root/AMD64", true, None), entry("root/ARM64", true, None)],
            "root/AMD64" => vec![entry("root/AMD64/a.inf", false, Some("inf"))],
            "root/ARM64" => vec![entry("root/ARM64/b.inf", false, Some("inf"))],
            _ => vec![],
        }
    };
    let mut found = None;
    while let Some(dir) = stack.pop() {
        if let Some(f) = inf_visit(&mut stack, &listing(&dir)) {
            found = Some(f);
            break;
        }
    }
    assert_eq!(found.as_deref(), Some("root/AMD64/a.inf"));
}
