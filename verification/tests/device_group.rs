use magicpad_companion::device_group::collapse_physical_devices;
use magicpad_companion::models::{BatteryInfo, ConnectionType, DeviceInfo};

fn dev(id: &str, name: &str, path: &str) -> DeviceInfo {
    DeviceInfo {
        id: id.into(),
        name: name.into(),
        model: "Magic Trackpad 3 (USB-C)".into(),
        vid: Some(0x05AC),
        pid: Some(0x0324),
        connection: ConnectionType::UsbC,
        connected: true,
        battery: None,
        driver_bound: Some(false),
        path: Some(path.into()),
        notes: vec![],
    }
}

#[test]
fn collapses_windows_multi_interface() {
    let devices = vec![
        dev(
            "1",
            "HID-compliant mouse",
            r"HID\VID_05AC&PID_0324&MI_01&COL01\9&305DF14F&0&0000",
        ),
        dev(
            "2",
            "HID-compliant touch pad",
            r"HID\VID_05AC&PID_0324&MI_01&COL02\9&305DF14F&0&0001",
        ),
        dev(
            "3",
            "USB Composite Device",
            r"USB\VID_05AC&PID_0324\J84HRT00JQC0000509",
        ),
        dev(
            "4",
            "USB Input Device",
            r"USB\VID_05AC&PID_0324&MI_00\8&107BF680&0&0000",
        ),
        dev(
            "5",
            "HID-compliant vendor-defined device",
            r"HID\VID_05AC&PID_0324&MI_02\9&C86B38D&0&0000",
        ),
    ];
    let out = collapse_physical_devices(devices);
    assert_eq!(out.len(), 1, "expected one physical device, got {out:?}");
    assert!(
        out[0]
            .notes
            .iter()
            .any(|n| n.contains("Serial J84HRT00JQC0000509")),
        "notes: {:?}",
        out[0].notes
    );
    assert!(
        out[0].notes.iter().any(|n| n.contains("5 USB/HID")),
        "notes: {:?}",
        out[0].notes
    );
}

#[test]
fn one_serial_one_row() {
    let devices = vec![
        dev("a", "Magic Trackpad", r"USB\VID_05AC&PID_0324\J84HRT00JQC0000509"),
        dev("b", "Magic Trackpad", r"USB\VID_05AC&PID_0324\J84HRT00JQC0000509"),
        dev("c", "Magic Trackpad", r"USB\VID_05AC&PID_0324\J84HRT00JQC0000509"),
    ];
    let out = collapse_physical_devices(devices);
    assert_eq!(out.len(), 1);
    assert_eq!(out[0].id, "apple-trackpad:05AC:0324:J84HRT00JQC0000509");
}

#[test]
fn distinct_serials_stay_apart_and_sorted() {
    let devices = vec![
        dev("x", "Magic Trackpad", r"USB\VID_05AC&PID_0324\SERIALBBB1"),
        dev("y", "Magic Trackpad", r"USB\VID_05AC&PID_0324\SERIALAAA1"),
    ];
    let out = collapse_physical_devices(devices);
    assert_eq!(out.len(), 2);
    assert!(out[0].id < out[1].id);
    assert!(collapse_physical_devices(vec![]).is_empty());
}

#[test]
fn collapse_marks_ids_and_keeps_state() {
    let mut a = dev("a", "HID-compliant mouse", r"HID\VID_05AC&PID_0324&MI_01&COL01\9&1");
    a.connected = false;
    let mut b = dev("b", "USB Input Device", r"USB\VID_05AC&PID_0324&MI_00\8&2");
    b.connection = ConnectionType::Bluetooth;
    b.path = Some(r"BTHENUM\VID_05AC&PID_0265\7&3".into());
    b.pid = Some(0x0265);
    b.connected = true;
    b.battery = Some(BatteryInfo { percent: Some(80), charging: Some(false), source: "test".into() });
    let out = collapse_physical_devices(vec![a, b]);
    assert_eq!(out.len(), 2);
    assert!(out.iter().all(|d| d.id.starts_with("apple-trackpad:")), "{out:?}");
    assert!(out.iter().any(|d| d.connected));
    assert!(out.iter().any(|d| d.battery.is_some()));

    let mut c = dev("c", "HID-compliant mouse", r"HID\VID_05AC&PID_0324&MI_01&COL01\9&1");
    c.connected = false;
    let mut d = dev("d", "HID-compliant touch pad", r"HID\VID_05AC&PID_0324&MI_01&COL02\9&2");
    d.connected = false;
    let out = collapse_physical_devices(vec![c, d]);
    assert_eq!(out.len(), 1);
    assert!(!out[0].connected);
    assert!(out[0].battery.is_none());
    assert!(out[0].id.starts_with("apple-trackpad:"));
}
