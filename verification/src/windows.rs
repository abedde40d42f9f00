//! Windows 11 backend: the decisions behind SetupAPI enumeration, Precision
//! driver status / install / uninstall, and the platform report.
use vstd::prelude::*;

use crate::error::{unsupported, AppError, AppResult};
use crate::models::{
    opt_str_view, strings_view, BatteryInfo, ConnectionType, DeviceInfo, DeviceView,
    DriverActionResult, DriverState, DriverStatus, GestureMap, PlatformInfo, PlatformKind,
    APPLE_VID,
};
use crate::text::{
    append_str, chars_of, contains, contains_str, find, find_chars, is_hex, lines, lines_of, lower,
    lower_of, parse_hex, parse_hex_exec, string_of, subrange_chars, to_upper, trim, trim_str, upper,
    upper_of,
};

verus! {

// ---------------------------------------------------------------------------
// Hardware ids
// ---------------------------------------------------------------------------

/// Number of leading hex digits of `s`, at most four.
pub open spec fn lead_hex(s: Seq<char>, i: int) -> int
    decreases 4 - i,
{
    if i < 0 || i >= 4 || i >= s.len() || !is_hex(s[i]) {
        i
    } else {
        lead_hex(s, i + 1)
    }
}

proof fn lemma_lead_hex(s: Seq<char>, i: int)
    requires
        0 <= i <= 4,
        i <= s.len(),
    ensures
        i <= lead_hex(s, i) <= 4,
        lead_hex(s, i) <= s.len(),
    decreases 4 - i,
{
    if i < 4 && i < s.len() && is_hex(s[i]) {
        lemma_lead_hex(s, i + 1);
    }
}

/// The (up to four) hex digits after the first `key` in `s`, as a number.
pub open spec fn hex_after(s: Seq<char>, key: Seq<char>) -> Option<u16> {
    match find(s, key) {
        None => None,
        Some(i) => {
            let rest = s.skip(i + key.len());
            match parse_hex(rest.take(lead_hex(rest, 0)), 0xFFFF) {
                Some(v) => Some(v as u16),
                None => None,
            }
        },
    }
}

pub fn extract_hex_after(s: &Vec<char>, key: &str) -> (r: Option<u16>)
    ensures
        r == hex_after(s@, key@),
{
    let k = chars_of(key);
    let idx = match find_chars(s, &k) {
        Some(i) => i,
        None => {
            return None;
        },
    };
    assert(crate::text::match_at(s@, k@, idx as int));
    assert(idx + k@.len() <= s@.len());
    let klen = k.len();
    let slen = s.len();
    assert(idx as int + klen as int <= slen as int);
    let start: usize = idx + klen;
    let rest = subrange_chars(s, start, slen);
    assert(rest@ =~= s@.skip(idx + key@.len()));
    let mut n: usize = 0;
    while n < 4 && n < rest.len() && crate::text::char_is_hex(rest[n])
        invariant
            n <= 4,
            n <= rest.len(),
            lead_hex(rest@, 0) == lead_hex(rest@, n as int),
        decreases 4 - n,
    {
        n += 1;
    }
    let hex = subrange_chars(&rest, 0, n);
    assert(hex@ =~= rest@.take(lead_hex(rest@, 0)));
    match parse_hex_exec(&hex, 0xFFFF) {
        Some(v) => Some(v as u16),
        None => None,
    }
}

/// The last vendor / product id found over a list of hardware id strings.
pub open spec fn last_id(parts: Seq<Seq<char>>, key: Seq<char>, n: int) -> Option<u16>
    decreases n,
{
    if n <= 0 {
        None
    } else {
        match hex_after(upper(parts[n - 1]), key) {
            Some(v) => Some(v),
            None => last_id(parts, key, n - 1),
        }
    }
}

pub fn parse_vid_pid_from_strings(parts: &Vec<String>) -> (r: (Option<u16>, Option<u16>))
    ensures
        r.0 == last_id(strings_view(parts@), "VID_"@, parts.len() as int),
        r.1 == last_id(strings_view(parts@), "PID_"@, parts.len() as int),
{
    let ghost pv = strings_view(parts@);
    let mut vid: Option<u16> = None;
    let mut pid: Option<u16> = None;
    let mut i: usize = 0;
    while i < parts.len()
        invariant
            i <= parts.len(),
            pv == strings_view(parts@),
            vid == last_id(pv, "VID_"@, i as int),
            pid == last_id(pv, "PID_"@, i as int),
        decreases parts.len() - i,
    {
        let u = upper_of(parts[i].as_str());
        assert(u@ == upper(pv[i as int]));
        match extract_hex_after(&u, "VID_") {
            Some(v) => {
                vid = Some(v);
            },
            None => {},
        }
        match extract_hex_after(&u, "PID_") {
            Some(p) => {
                pid = Some(p);
            },
            None => {},
        }
        i += 1;
    }
    (vid, pid)
}

pub fn parse_vid_pid_from_instance(instance: &str) -> (r: (Option<u16>, Option<u16>))
    ensures
        r.0 == hex_after(upper(instance@), "VID_"@),
        r.1 == hex_after(upper(instance@), "PID_"@),
{
    let mut v: Vec<String> = Vec::new();
    v.push(instance.to_string());
    let r = parse_vid_pid_from_strings(&v);
    assert(strings_view(v@) =~= seq![instance@]);
    assert(last_id(seq![instance@], "VID_"@, 0) is None);
    assert(last_id(seq![instance@], "PID_"@, 0) is None);
    r
}

/// The lossy decoding of UTF-16 code units: a high surrogate followed by a
/// low one is one character, any other surrogate becomes U+FFFD, and every
/// other unit is the character with that code.
pub open spec fn utf16_lossy(u: Seq<u16>) -> Seq<char>
    decreases u.len(),
{
    if u.len() == 0 {
        Seq::empty()
    } else if 0xD800 <= u[0] <= 0xDBFF && u.len() >= 2 && 0xDC00 <= u[1] <= 0xDFFF {
        seq![(0x10000 + (u[0] - 0xD800) * 0x400 + (u[1] - 0xDC00)) as char] + utf16_lossy(
            u.skip(2),
        )
    } else if 0xD800 <= u[0] <= 0xDFFF {
        seq!['\u{FFFD}'] + utf16_lossy(u.skip(1))
    } else {
        seq![u[0] as char] + utf16_lossy(u.skip(1))
    }
}

/// `String::from_utf16_lossy` (decoding by `char::decode_utf16`, each error
/// replaced by U+FFFD): the result is the lossy decoding of the units.
#[verifier::external_body]
fn from_utf16_lossy(units: &[u16]) -> (r: String)
    ensures
        r@ == utf16_lossy(units@),
{
    String::from_utf16_lossy(units)
}

/// Index of the first NUL unit (the length when there is none).
pub open spec fn nul_pos(buf: Seq<u16>, i: int) -> int
    decreases buf.len() - i,
{
    if i >= buf.len() {
        buf.len() as int
    } else if buf[i] == 0 {
        i
    } else {
        nul_pos(buf, i + 1)
    }
}

/// A NUL-terminated UTF-16 buffer as a string.
pub fn wchar_to_string(buf: &Vec<u16>) -> (r: String)
    ensures
        r@ == utf16_lossy(buf@.take(nul_pos(buf@, 0))),
{
    let mut n: usize = 0;
    while n < buf.len() && buf[n] != 0
        invariant
            n <= buf.len(),
            nul_pos(buf@, 0) == nul_pos(buf@, n as int),
        decreases buf.len() - n,
    {
        n += 1;
    }
    let mut units: Vec<u16> = Vec::new();
    let mut i: usize = 0;
    while i < n
        invariant
            i <= n <= buf.len(),
            units@ == buf@.take(i as int),
        decreases n - i,
    {
        units.push(buf[i]);
        i += 1;
        assert(buf@.take(i as int) =~= buf@.take(i - 1).push(buf@[i - 1]));
    }
    from_utf16_lossy(units.as_slice())
}

// ---------------------------------------------------------------------------
// SetupAPI device decisions
// ---------------------------------------------------------------------------

/// An instance id naming Apple's vendor id.
pub fn is_apple_instance(upper: &Vec<char>) -> (r: bool)
    ensures
        r == (contains(upper@, "VID_05AC"@) || contains(upper@, "05AC"@)),
{
    contains_str(upper, "VID_05AC") || contains_str(upper, "05AC")
}

/// A lower-cased device description naming an Apple trackpad (Bluetooth PTP
/// devices are recognised this way).
pub open spec fn desc_names_apple_trackpad(desc: Seq<char>) -> bool {
    contains(desc, "magic trackpad"@) || (contains(desc, "apple"@) && contains(desc, "trackpad"@))
        || (contains(desc, "precision touchpad"@) && contains(desc, "apple"@))
}

pub fn describes_apple_trackpad(desc_lower: &Vec<char>) -> (r: bool)
    ensures
        r == desc_names_apple_trackpad(desc_lower@),
{
    contains_str(desc_lower, "magic trackpad") || (contains_str(desc_lower, "apple") && contains_str(
        desc_lower,
        "trackpad",
    )) || (contains_str(desc_lower, "precision touchpad") && contains_str(desc_lower, "apple"))
}

/// Whether an Apple node with an unknown product id is skipped: neither its
/// instance id nor its description names a track/touch pad.
pub fn skip_unknown_product(pid: Option<u16>, upper: &Vec<char>, desc_lower: &Vec<char>) -> (r: bool)
    ensures
        r == match pid {
            Some(p) => crate::models::known_model(p) is None && !contains(upper@, "TRACKPAD"@)
                && !contains(desc_lower@, "trackpad"@) && !contains(desc_lower@, "touchpad"@),
            None => false,
        },
{
    match pid {
        Some(p) => !crate::models::is_known_trackpad_pid(p) && !contains_str(upper, "TRACKPAD")
            && !contains_str(desc_lower, "trackpad") && !contains_str(desc_lower, "touchpad"),
        None => false,
    }
}

pub open spec fn setup_connection(upper: Seq<char>, pid: Option<u16>) -> ConnectionType {
    if contains(upper, "BTH"@) || contains(upper, "BLUETOOTH"@) {
        ConnectionType::Bluetooth
    } else if pid == Some(0x0324u16) || pid == Some(0x0325u16) {
        ConnectionType::UsbC
    } else if contains(upper, "USB"@) {
        ConnectionType::Usb
    } else {
        ConnectionType::Unknown
    }
}

/// The device reported for one SetupAPI node: `name` is its description
/// (or `Apple Magic Trackpad` when the property is missing).
pub open spec fn setup_device_view(instance: Seq<char>, name: Seq<char>, vid: Option<u16>, pid: Option<u16>) -> DeviceView {
    let u = upper(instance);
    DeviceView {
        id: instance,
        name,
        model: match pid {
            Some(p) => crate::models::model_name(p),
            None => name,
        },
        vid: match vid {
            Some(v) => Some(v),
            None => Some(APPLE_VID),
        },
        pid,
        connection: setup_connection(u, pid),
        connected: true,
        battery: None,
        driver_bound: Some(contains(u, "AMTPTP"@) || contains(lower(name), "precision touchpad"@)),
        path: Some(instance),
        notes: Seq::empty(),
    }
}

pub fn setup_device(instance: String, name: String, vid: Option<u16>, pid: Option<u16>) -> (d: DeviceInfo)
    ensures
        d@ == setup_device_view(instance@, name@, vid, pid),
{
    let u = upper_of(instance.as_str());
    let model = match pid {
        Some(p) => crate::models::model_name_for_pid(p),
        None => name.clone(),
    };
    let connection = if contains_str(&u, "BTH") || contains_str(&u, "BLUETOOTH") {
        ConnectionType::Bluetooth
    } else if pid == Some(0x0324u16) || pid == Some(0x0325u16) {
        ConnectionType::UsbC
    } else if contains_str(&u, "USB") {
        ConnectionType::Usb
    } else {
        ConnectionType::Unknown
    };
    let nl = lower_of(name.as_str());
    let driver_bound = contains_str(&u, "AMTPTP") || contains_str(&nl, "precision touchpad");
    let d = DeviceInfo {
        id: instance.clone(),
        name,
        model,
        vid: match vid {
            Some(v) => Some(v),
            None => Some(APPLE_VID),
        },
        pid,
        connection,
        connected: true,
        battery: None,
        driver_bound: Some(driver_bound),
        path: Some(instance),
        notes: Vec::new(),
    };
    assert(d@.notes =~= Seq::<Seq<char>>::empty());
    d
}

/// Consecutive devices with equal ids reduced to the first.
pub open spec fn dedup_ids(s: Seq<DeviceView>) -> Seq<DeviceView>
    decreases s.len(),
{
    if s.len() == 0 {
        s
    } else {
        let r = dedup_ids(s.drop_last());
        if r.len() > 0 && r.last().id == s.last().id {
            r
        } else {
            r.push(s.last())
        }
    }
}

proof fn lemma_dedup_last(s: Seq<DeviceView>)
    ensures
        s.len() > 0 ==> dedup_ids(s).len() > 0 && dedup_ids(s).last().id == s.last().id,
    decreases s.len(),
{
    if s.len() > 0 {
        lemma_dedup_last(s.drop_last());
    }
}

/// Sorted by id, duplicates (same id) dropped.
pub fn sort_dedup_by_id(v: Vec<DeviceInfo>) -> (r: Vec<DeviceInfo>)
    ensures
        crate::models::devices_view(r@) == dedup_ids(
            crate::device_group::sort_by_id(crate::models::devices_view(v@)),
        ),
{
    let sorted = crate::device_group::sort_devices_by_id(v);
    let ghost sv = crate::models::devices_view(sorted@);
    let mut out: Vec<DeviceInfo> = Vec::new();
    let mut i: usize = 0;
    while i < sorted.len()
        invariant
            i <= sorted.len(),
            sv == crate::models::devices_view(sorted@),
            crate::models::devices_view(out@) == dedup_ids(sv.take(i as int)),
        decreases sorted.len() - i,
    {
        assert(sv.take(i + 1).drop_last() =~= sv.take(i as int));
        assert(sv[i as int] == sorted@[i as int]@);
        proof {
            lemma_dedup_last(sv.take(i as int));
        }
        let same = if out.len() > 0 {
            let a = chars_of(out[out.len() - 1].id.as_str());
            let b = chars_of(sorted[i].id.as_str());
            assert(crate::models::devices_view(out@).last() == out@[out.len() - 1]@);
            crate::text::eq_chars(&a, &b)
        } else {
            false
        };
        if !same {
            let ghost before = out@;
            out.push(sorted[i].duplicate());
            assert(crate::models::devices_view(out@) =~= crate::models::devices_view(before).push(
                sv[i as int],
            ));
        }
        i += 1;
    }
    assert(sv.take(sorted.len() as int) =~= sv);
    out
}

/// No two neighbours share an id.
pub open spec fn adjacent_ids_differ(r: Seq<DeviceView>) -> bool {
    forall|k: int, l: int| 0 <= k && l == k + 1 && l < r.len() ==> (#[trigger] r[k]).id != (
    #[trigger] r[l]).id
}

/// No two devices share an id.
pub open spec fn ids_distinct(r: Seq<DeviceView>) -> bool {
    forall|i: int, j: int| 0 <= i < j < r.len() ==> (#[trigger] r[i]).id != (#[trigger] r[j]).id
}

/// Deduplicating a list sorted by id keeps it sorted and leaves no two
/// neighbours with the same id.
proof fn lemma_dedup_sorted(t: Seq<DeviceView>)
    requires
        crate::device_group::sorted_by_id(t),
    ensures
        crate::device_group::sorted_by_id(dedup_ids(t)),
        adjacent_ids_differ(dedup_ids(t)),
    decreases t.len(),
{
    if t.len() > 0 {
        let p = t.drop_last();
        assert(crate::device_group::sorted_by_id(p)) by {
            assert forall|i: int, j: int| 0 <= i < j < p.len() implies crate::device_group::chars_le(
                p[i].id,
                p[j].id,
            ) by {
                assert(p[i] == t[i] && p[j] == t[j]);
            }
        }
        lemma_dedup_sorted(p);
        lemma_dedup_last(p);
        let r = dedup_ids(p);
        if !(r.len() > 0 && r.last().id == t.last().id) {
            let x = t.last();
            let n = r.push(x);
            assert forall|i: int, j: int| 0 <= i < j < n.len() implies crate::device_group::chars_le(
                n[i].id,
                n[j].id,
            ) by {
                if j == r.len() {
                    assert(p.len() > 0);
                    assert(crate::device_group::chars_le(p.last().id, x.id));
                    if i < r.len() - 1 {
                        crate::device_group::lemma_chars_le_trans(r[i].id, r.last().id, x.id);
                    }
                } else {
                    assert(n[i] == r[i] && n[j] == r[j]);
                }
            }
            assert forall|k: int, l: int| 0 <= k && l == k + 1 && l < n.len() implies (
            #[trigger] n[k]).id != (#[trigger] n[l]).id by {
                if l < r.len() {
                    assert(n[k] == r[k] && n[l] == r[l]);
                }
            }
        }
    }
}

proof fn lemma_sorted_pair_differs(r: Seq<DeviceView>, i: int, j: int)
    requires
        crate::device_group::sorted_by_id(r),
        adjacent_ids_differ(r),
        0 <= i < j < r.len(),
    ensures
        r[i].id != r[j].id,
{
    let a = r[i].id;
    let b = r[i + 1].id;
    let c = r[j].id;
    assert(crate::device_group::chars_le(a, b));
    assert(a != b);
    if i + 1 < j {
        assert(crate::device_group::chars_le(b, c));
        if a == c {
            crate::device_group::lemma_chars_le_antisym(a, b);
        }
    }
}

/// In a list sorted by id whose neighbours differ in id, no two ids are equal.
proof fn lemma_sorted_adjacent_distinct(r: Seq<DeviceView>)
    requires
        crate::device_group::sorted_by_id(r),
        adjacent_ids_differ(r),
    ensures
        ids_distinct(r),
{
    assert forall|i: int, j: int| 0 <= i < j < r.len() implies (#[trigger] r[i]).id != (
    #[trigger] r[j]).id by {
        lemma_sorted_pair_differs(r, i, j);
    }
}

/// The Windows device list never shows two devices with the same id.
pub proof fn law_setup_ids_distinct(s: Seq<DeviceView>)
    ensures
        ids_distinct(dedup_ids(crate::device_group::sort_by_id(s))),
{
    let t = crate::device_group::sort_by_id(s);
    crate::device_group::lemma_sort_by_id(s);
    lemma_dedup_sorted(t);
    lemma_sorted_adjacent_distinct(dedup_ids(t));
}

/// Adds each extra device whose id is not yet present.
pub open spec fn add_missing(ds: Seq<DeviceView>, extra: Seq<DeviceView>) -> Seq<DeviceView>
    decreases extra.len(),
{
    if extra.len() == 0 {
        ds
    } else {
        let r = add_missing(ds, extra.drop_last());
        if exists|i: int| 0 <= i < r.len() && r[i].id == extra.last().id {
            r
        } else {
            r.push(extra.last())
        }
    }
}

pub fn merge_bluetooth(devices: Vec<DeviceInfo>, extra: &Vec<DeviceInfo>) -> (r: Vec<DeviceInfo>)
    ensures
        crate::models::devices_view(r@) == add_missing(
            crate::models::devices_view(devices@),
            crate::models::devices_view(extra@),
        ),
{
    let ghost d0 = crate::models::devices_view(devices@);
    let ghost ev = crate::models::devices_view(extra@);
    let mut out = devices;
    let mut j: usize = 0;
    while j < extra.len()
        invariant
            j <= extra.len(),
            ev == crate::models::devices_view(extra@),
            crate::models::devices_view(out@) == add_missing(d0, ev.take(j as int)),
        decreases extra.len() - j,
    {
        assert(ev.take(j + 1).drop_last() =~= ev.take(j as int));
        assert(ev[j as int] == extra@[j as int]@);
        let ghost ov = crate::models::devices_view(out@);
        let id = chars_of(extra[j].id.as_str());
        let mut k: usize = 0;
        let mut present = false;
        while k < out.len()
            invariant
                k <= out.len(),
                ov == crate::models::devices_view(out@),
                id@ == ev[j as int].id,
                present == exists|q: int| 0 <= q < k && ov[q].id == id@,
            decreases out.len() - k,
        {
            let o = chars_of(out[k].id.as_str());
            assert(ov[k as int] == out@[k as int]@);
            if crate::text::eq_chars(&o, &id) {
                present = true;
            }
            k += 1;
        }
        if !present {
            let ghost before = out@;
            out.push(extra[j].duplicate());
            assert(crate::models::devices_view(out@) =~= crate::models::devices_view(before).push(
                ev[j as int],
            ));
        }
        j += 1;
    }
    assert(ev.take(extra.len() as int) =~= ev);
    out
}

/// Battery level is not exposed by the Precision stack yet.
pub fn read_battery(device_id: &str) -> (r: AppResult<Option<BatteryInfo>>)
    ensures
        r matches Ok(b) && b is None,
{
    Ok(None)
}

// ---------------------------------------------------------------------------
// Registry properties and SetupAPI nodes
// ---------------------------------------------------------------------------

/// Little-endian UTF-16 code units of a byte buffer (a trailing odd byte is dropped).
pub open spec fn le_units(bytes: Seq<u8>) -> Seq<u16> {
    Seq::new(bytes.len() / 2, |i: int| (bytes[2 * i] + 256 * bytes[2 * i + 1]) as u16)
}

fn units_of_bytes(bytes: &Vec<u8>) -> (r: Vec<u16>)
    ensures
        r@ == le_units(bytes@),
{
    let mut r: Vec<u16> = Vec::new();
    let n = bytes.len() / 2;
    let mut i: usize = 0;
    while i < n
        invariant
            i <= n,
            n == bytes.len() / 2,
            r@.len() == i,
            forall|k: int| 0 <= k < i ==> r@[k] == le_units(bytes@)[k],
        decreases n - i,
    {
        let lo = bytes[2 * i] as u16;
        let hi = bytes[2 * i + 1] as u16;
        r.push(lo + 256 * hi);
        i += 1;
    }
    assert(r@ =~= le_units(bytes@));
    r
}

/// A string property: the units up to the first NUL, decoded.
pub open spec fn registry_text(bytes: Seq<u8>) -> Seq<char> {
    let u = le_units(bytes);
    utf16_lossy(u.take(nul_pos(u, 0)))
}

/// A string property read into a byte buffer.
pub fn registry_string(bytes: &Vec<u8>) -> (r: String)
    ensures
        r@ == registry_text(bytes@),
{
    let u = units_of_bytes(bytes);
    wchar_to_string(&u)
}

/// The strings of a multi-string property, from position `i` with `cur`
/// collected so far: each NUL ends a string, and an empty one ends the list.
pub open spec fn multi_from(u: Seq<u16>, i: int, cur: Seq<u16>) -> Seq<Seq<char>>
    decreases u.len() - i,
{
    if i < 0 || i >= u.len() {
        Seq::empty()
    } else if u[i] == 0 {
        if cur.len() == 0 {
            Seq::empty()
        } else {
            seq![utf16_lossy(cur)] + multi_from(u, i + 1, Seq::empty())
        }
    } else {
        multi_from(u, i + 1, cur.push(u[i]))
    }
}

pub open spec fn registry_texts(bytes: Seq<u8>) -> Seq<Seq<char>> {
    multi_from(le_units(bytes), 0, Seq::empty())
}

/// A multi-string property read into a byte buffer.
pub fn registry_strings(bytes: &Vec<u8>) -> (r: Vec<String>)
    ensures
        strings_view(r@) == registry_texts(bytes@),
{
    let u = units_of_bytes(bytes);
    let mut out: Vec<String> = Vec::new();
    let mut cur: Vec<u16> = Vec::new();
    let mut i: usize = 0;
    while i < u.len()
        invariant
            i <= u.len(),
            u@ == le_units(bytes@),
            strings_view(out@) + multi_from(u@, i as int, cur@) == registry_texts(bytes@),
        decreases u.len() - i,
    {
        if u[i] == 0 {
            if cur.len() == 0 {
                assert(multi_from(u@, i as int, cur@) =~= Seq::<Seq<char>>::empty());
                assert(strings_view(out@) + Seq::<Seq<char>>::empty() =~= strings_view(out@));
                return out;
            }
            let ghost before = strings_view(out@);
            let s = from_utf16_lossy(cur.as_slice());
            out.push(s);
            assert(strings_view(out@) =~= before.push(utf16_lossy(cur@)));
            assert(before + (seq![utf16_lossy(cur@)] + multi_from(u@, i + 1, Seq::empty()))
                =~= before.push(utf16_lossy(cur@)) + multi_from(u@, i + 1, Seq::empty()));
            cur = Vec::new();
            assert(cur@ =~= Seq::<u16>::empty());
        } else {
            cur.push(u[i]);
        }
        i += 1;
    }
    assert(multi_from(u@, i as int, cur@) =~= Seq::<Seq<char>>::empty());
    assert(strings_view(out@) + Seq::<Seq<char>>::empty() =~= strings_view(out@));
    out
}

/// One device of the SetupAPI device set, as read: its instance id buffer
/// and the raw bytes of its description and hardware-id properties (`None`
/// when a property could not be read).
pub struct SetupNode {
    pub instance: Vec<u16>,
    pub description: Option<Vec<u8>>,
    pub hardware_ids: Option<Vec<u8>>,
}

pub struct SetupView {
    pub instance: Seq<u16>,
    pub description: Option<Seq<u8>>,
    pub hardware_ids: Option<Seq<u8>>,
}

impl View for SetupNode {
    type V = SetupView;

    open spec fn view(&self) -> SetupView {
        SetupView {
            instance: self.instance@,
            description: match self.description {
                Some(b) => Some(b@),
                None => None,
            },
            hardware_ids: match self.hardware_ids {
                Some(b) => Some(b@),
                None => None,
            },
        }
    }
}

pub open spec fn setup_nodes_view(s: Seq<SetupNode>) -> Seq<SetupView> {
    s.map_values(|n: SetupNode| n@)
}

pub open spec fn node_instance(n: SetupView) -> Seq<char> {
    utf16_lossy(n.instance.take(nul_pos(n.instance, 0)))
}

pub open spec fn node_description(n: SetupView) -> Option<Seq<char>> {
    match n.description {
        Some(b) => Some(registry_text(b)),
        None => None,
    }
}

/// Vendor and product id: from the hardware ids when they give both, else
/// from the instance id.
pub open spec fn node_ids(n: SetupView) -> (Option<u16>, Option<u16>) {
    let hw = match n.hardware_ids {
        Some(b) => registry_texts(b),
        None => Seq::empty(),
    };
    let v = last_id(hw, "VID_"@, hw.len() as int);
    let p = last_id(hw, "PID_"@, hw.len() as int);
    if v is Some && p is Some {
        (v, p)
    } else {
        let u = upper(node_instance(n));
        (hex_after(u, "VID_"@), hex_after(u, "PID_"@))
    }
}

/// The device a SetupAPI node stands for, if it is an Apple trackpad.
pub open spec fn node_setup_device(n: SetupView) -> Option<DeviceView> {
    let inst = node_instance(n);
    let u = upper(inst);
    let d = lower(
        match node_description(n) {
            Some(t) => t,
            None => Seq::empty(),
        },
    );
    if !(contains(u, "VID_05AC"@) || contains(u, "05AC"@)) && !desc_names_apple_trackpad(d) {
        None
    } else {
        let ids = node_ids(n);
        let skip = match ids.1 {
            Some(p) => crate::models::known_model(p) is None && !contains(u, "TRACKPAD"@)
                && !contains(d, "trackpad"@) && !contains(d, "touchpad"@),
            None => false,
        };
        if skip {
            None
        } else {
            Some(
                setup_device_view(
                    inst,
                    match node_description(n) {
                        Some(t) => t,
                        None => "Apple Magic Trackpad"@,
                    },
                    ids.0,
                    ids.1,
                ),
            )
        }
    }
}

/// The devices of the nodes, in node order.
pub open spec fn setup_found(ns: Seq<SetupView>) -> Seq<DeviceView>
    decreases ns.len(),
{
    if ns.len() == 0 {
        Seq::empty()
    } else {
        match node_setup_device(ns.last()) {
            Some(d) => setup_found(ns.drop_last()).push(d),
            None => setup_found(ns.drop_last()),
        }
    }
}

fn setup_node_device(n: &SetupNode) -> (r: Option<DeviceInfo>)
    ensures
        match r {
            Some(d) => node_setup_device(n@) == Some(d@),
            None => node_setup_device(n@) is None,
        },
{
    let instance = wchar_to_string(&n.instance);
    let u = upper_of(instance.as_str());
    let desc: Option<String> = match &n.description {
        Some(b) => Some(registry_string(b)),
        None => None,
    };
    let dl: Vec<char> = match &desc {
        Some(t) => lower_of(t.as_str()),
        None => Vec::new(),
    };
    proof {
        assert(match desc {
            Some(t) => t@,
            None => Seq::<char>::empty(),
        } =~= match node_description(n@) {
            Some(t) => t,
            None => Seq::<char>::empty(),
        });
        if desc is None {
            assert(lower(Seq::<char>::empty()) =~= Seq::<char>::empty());
        }
    }
    if !is_apple_instance(&u) && !describes_apple_trackpad(&dl) {
        return None;
    }
    let hw: Vec<String> = match &n.hardware_ids {
        Some(b) => registry_strings(b),
        None => Vec::new(),
    };
    proof {
        if n.hardware_ids is None {
            assert(strings_view(hw@) =~= Seq::<Seq<char>>::empty());
        }
    }
    let from_hw = parse_vid_pid_from_strings(&hw);
    let ids = if from_hw.0.is_some() && from_hw.1.is_some() {
        from_hw
    } else {
        parse_vid_pid_from_instance(instance.as_str())
    };
    if skip_unknown_product(ids.1, &u, &dl) {
        return None;
    }
    let name: String = match desc {
        Some(t) => t,
        None => "Apple Magic Trackpad".to_string(),
    };
    Some(setup_device(instance, name, ids.0, ids.1))
}

/// The Apple trackpads among the SetupAPI nodes, sorted by id without duplicates.
pub fn setup_devices(nodes: &Vec<SetupNode>) -> (r: Vec<DeviceInfo>)
    ensures
        crate::models::devices_view(r@) == dedup_ids(
            crate::device_group::sort_by_id(setup_found(setup_nodes_view(nodes@))),
        ),
{
    let ghost ns = setup_nodes_view(nodes@);
    let mut out: Vec<DeviceInfo> = Vec::new();
    let mut i: usize = 0;
    while i < nodes.len()
        invariant
            i <= nodes.len(),
            ns == setup_nodes_view(nodes@),
            crate::models::devices_view(out@) == setup_found(ns.take(i as int)),
        decreases nodes.len() - i,
    {
        assert(ns.take(i + 1).drop_last() =~= ns.take(i as int));
        assert(ns.take(i + 1).last() == nodes@[i as int]@);
        let ghost before = crate::models::devices_view(out@);
        match setup_node_device(&nodes[i]) {
            Some(d) => {
                out.push(d);
                assert(crate::models::devices_view(out@) =~= before.push(d@));
            },
            None => {},
        }
        i += 1;
    }
    assert(ns.take(nodes.len() as int) =~= ns);
    sort_dedup_by_id(out)
}

/// The devices found: the SetupAPI trackpads, then each Bluetooth device
/// whose id is not listed yet.
pub fn enumerate_devices(nodes: &Vec<SetupNode>, bluetooth: &Vec<DeviceInfo>) -> (r: Vec<DeviceInfo>)
    ensures
        crate::models::devices_view(r@) == add_missing(
            dedup_ids(crate::device_group::sort_by_id(setup_found(setup_nodes_view(nodes@)))),
            crate::models::devices_view(bluetooth@),
        ),
{
    let found = setup_devices(nodes);
    merge_bluetooth(found, bluetooth)
}

// ---------------------------------------------------------------------------
// Precision driver
// ---------------------------------------------------------------------------

pub const RECOMMENDED_DRIVER_URL: &'static str =
    "https://github.com/vitoplantamura/MagicTrackpad2ForWindows/releases";

pub const RECOMMENDED_DRIVER_NAME: &'static str = "MagicTrackpad2ForWindows (vitoplantamura)";

pub const IMBUSHUO_URL: &'static str = "https://github.com/imbushuo/mac-precision-touchpad/releases";

/// `pnputil /enum-drivers` output (lower-cased) showing a Precision package.
pub open spec fn lists_precision_package(t: Seq<char>) -> bool {
    contains(t, "amtptp"@) || contains(t, "magic trackpad"@) || contains(t, "apple usb precision"@)
        || contains(t, "mac-precision"@)
}

/// Conflicting stacks named in `pnputil /enum-drivers` output (lower-cased).
pub open spec fn conflicts_in(t: Seq<char>) -> Seq<Seq<char>> {
    (if contains(t, "magic utilities"@) || contains(t, "magicutilities"@) {
        seq!["Magic Utilities"@]
    } else {
        Seq::empty()
    }) + (if contains(t, "trackpad++"@) || contains(t, "trackpadplusplus"@) {
        seq!["Trackpad++"@]
    } else {
        Seq::empty()
    })
}

pub open spec fn joined2(c: Seq<Seq<char>>) -> Seq<char> {
    if c.len() == 2 {
        c[0] + ", "@ + c[1]
    } else {
        c[0]
    }
}

/// The driver status from two runs of `pnputil /enum-drivers` (`None` when it
/// could not run): the first decides whether the package is installed, the
/// second names conflicting software.
pub open spec fn status_from(installed: Option<Seq<char>>, conflicts: Option<Seq<char>>) -> crate::models::DriverStatusView {
    let found = match installed {
        Some(t) => lists_precision_package(lower(t)),
        None => false,
    };
    let c = match conflicts {
        Some(t) => conflicts_in(lower(t)),
        None => Seq::empty(),
    };
    let state = if c.len() > 0 {
        DriverState::Conflict
    } else if found {
        DriverState::Installed
    } else {
        DriverState::NotInstalled
    };
    crate::models::DriverStatusView {
        state,
        name: RECOMMENDED_DRIVER_NAME@,
        version: if found {
            Some("detected"@)
        } else {
            None
        },
        detail: if c.len() > 0 {
            "Conflicting software detected: "@ + joined2(c)
                + ". Uninstall before installing the Precision driver."@
        } else if found {
            "Precision Touchpad driver package appears installed."@
        } else {
            "Looking for Apple USB Precision Touchpad / AmtPtp driver packages."@
        },
        can_install: true,
        can_uninstall: state == DriverState::Installed || state == DriverState::Outdated || state
            == DriverState::Conflict,
        recommended_source: Some(RECOMMENDED_DRIVER_URL@),
        conflicts: c,
    }
}

pub fn driver_status_from(installed: Option<String>, conflicts_text: Option<String>) -> (s: DriverStatus)
    ensures
        s@ == status_from(opt_str_view(installed), opt_str_view(conflicts_text)),
{
    let found = match &installed {
        Some(t) => {
            let l = lower_of(t.as_str());
            contains_str(&l, "amtptp") || contains_str(&l, "magic trackpad") || contains_str(
                &l,
                "apple usb precision",
            ) || contains_str(&l, "mac-precision")
        },
        None => false,
    };
    let mut conflicts: Vec<String> = Vec::new();
    match &conflicts_text {
        Some(t) => {
            let l = lower_of(t.as_str());
            if contains_str(&l, "magic utilities") || contains_str(&l, "magicutilities") {
                conflicts.push("Magic Utilities".to_string());
            }
            let ghost c1 = strings_view(conflicts@);
            if contains_str(&l, "trackpad++") || contains_str(&l, "trackpadplusplus") {
                conflicts.push("Trackpad++".to_string());
                assert(strings_view(conflicts@) =~= c1.push("Trackpad++"@));
            }
            assert(strings_view(conflicts@) =~= conflicts_in(lower(t@)));
        },
        None => {
            assert(strings_view(conflicts@) =~= Seq::<Seq<char>>::empty());
        },
    }
    let ghost cv = strings_view(conflicts@);
    let ghost spec_found = match opt_str_view(installed) {
        Some(t) => lists_precision_package(lower(t)),
        None => false,
    };
    let ghost spec_c = match opt_str_view(conflicts_text) {
        Some(t) => conflicts_in(lower(t)),
        None => Seq::<Seq<char>>::empty(),
    };
    assert(found == spec_found);
    assert(cv == spec_c);
    let state = if conflicts.len() > 0 {
        DriverState::Conflict
    } else if found {
        DriverState::Installed
    } else {
        DriverState::NotInstalled
    };
    let detail: String = if conflicts.len() > 0 {
        let mut d = chars_of("Conflicting software detected: ");
        append_str(&mut d, conflicts[0].as_str());
        if conflicts.len() == 2 {
            append_str(&mut d, ", ");
            append_str(&mut d, conflicts[1].as_str());
        }
        append_str(&mut d, ". Uninstall before installing the Precision driver.");
        assert(cv[0] == conflicts@[0]@);
        proof {
            if conflicts.len() == 2 {
                assert(cv[1] == conflicts@[1]@);
            }
        }
        string_of(&d)
    } else if found {
        "Precision Touchpad driver package appears installed.".to_string()
    } else {
        "Looking for Apple USB Precision Touchpad / AmtPtp driver packages.".to_string()
    };
    let st = DriverStatus {
        state,
        name: RECOMMENDED_DRIVER_NAME.to_string(),
        version: if found {
            Some("detected".to_string())
        } else {
            None
        },
        detail,
        can_install: true,
        can_uninstall: state == DriverState::Installed || state == DriverState::Outdated || state
            == DriverState::Conflict,
        recommended_source: Some(RECOMMENDED_DRIVER_URL.to_string()),
        conflicts,
    };
    let ghost want = status_from(opt_str_view(installed), opt_str_view(conflicts_text));
    assert(st@.state == want.state);
    assert(st@.version == want.version);
    assert(st@.detail == want.detail);
    assert(st@.conflicts == want.conflicts);
    assert(st@.can_uninstall == want.can_uninstall);
    st
}

/// A `pnputil` line naming an Apple Precision / Magic package.
pub open spec fn driver_line(l: Seq<char>) -> bool {
    let x = lower(l);
    contains(x, "amtptp"@) || contains(x, "magic"@) || (contains(x, "apple"@) && contains(
        x,
        "touchpad"@,
    ))
}

pub open spec fn driver_lines_of(ls: Seq<Seq<char>>) -> Seq<Seq<char>>
    decreases ls.len(),
{
    if ls.len() == 0 {
        Seq::empty()
    } else if driver_line(ls.last()) {
        driver_lines_of(ls.drop_last()).push(ls.last())
    } else {
        driver_lines_of(ls.drop_last())
    }
}

pub const UNINSTALL_INTRO: &'static str = "Automatic uninstall lists published driver packages; preferred tool is DriverStore Explorer or Device Manager.";

pub const UNINSTALL_MESSAGE: &'static str = "Review matching packages above. Use Device Manager → uninstall 'Apple USB Precision Touchpad' or DriverStore Explorer, then reboot.";

/// The uninstall guidance: the matching package lines of `pnputil
/// /enum-drivers` output (when it ran), after an introduction line.
pub fn uninstall_result(enum_output: Option<String>) -> (r: DriverActionResult)
    ensures
        r@.success,
        r@.message == UNINSTALL_MESSAGE@,
        r@.log_lines == seq![UNINSTALL_INTRO@] + match opt_str_view(enum_output) {
            Some(t) => driver_lines_of(lines(t)),
            None => Seq::empty(),
        },
        r@.needs_reboot,
{
    let mut log: Vec<String> = Vec::new();
    log.push(UNINSTALL_INTRO.to_string());
    assert(strings_view(log@) =~= seq![UNINSTALL_INTRO@]);
    match &enum_output {
        Some(t) => {
            let ls = lines_of(t.as_str());
            let ghost lv = ls@.map_values(|v: Vec<char>| v@);
            let mut i: usize = 0;
            while i < ls.len()
                invariant
                    i <= ls.len(),
                    lv == ls@.map_values(|v: Vec<char>| v@),
                    lv == lines(t@),
                    strings_view(log@) == seq![UNINSTALL_INTRO@] + driver_lines_of(
                        lv.take(i as int),
                    ),
                decreases ls.len() - i,
            {
                assert(lv.take(i + 1).drop_last() =~= lv.take(i as int));
                assert(lv[i as int] == ls@[i as int]@);
                let x = crate::text::to_lower(&ls[i]);
                if contains_str(&x, "amtptp") || contains_str(&x, "magic") || (contains_str(
                    &x,
                    "apple",
                ) && contains_str(&x, "touchpad")) {
                    let ghost before = strings_view(log@);
                    log.push(string_of(&ls[i]));
                    assert(strings_view(log@) =~= before.push(lv[i as int]));
                }
                i += 1;
            }
            assert(lv.take(ls.len() as int) =~= lv);
        },
        None => {
            assert(strings_view(log@) =~= seq![UNINSTALL_INTRO@] + Seq::<Seq<char>>::empty());
        },
    }
    DriverActionResult {
        success: true,
        message: UNINSTALL_MESSAGE.to_string(),
        log_lines: log,
        needs_reboot: true,
    }
}

/// The first lines of an install attempt.
pub fn install_intro_lines() -> (r: Vec<String>)
    ensures
        strings_view(r@) == seq![
            "Windows Precision driver install requested."@,
            "Recommended source: "@ + RECOMMENDED_DRIVER_URL@,
            "Fallback source: "@ + IMBUSHUO_URL@,
        ],
{
    let mut r: Vec<String> = Vec::new();
    r.push("Windows Precision driver install requested.".to_string());
    let mut a = chars_of("Recommended source: ");
    append_str(&mut a, RECOMMENDED_DRIVER_URL);
    r.push(string_of(&a));
    let mut b = chars_of("Fallback source: ");
    append_str(&mut b, IMBUSHUO_URL);
    r.push(string_of(&b));
    assert(strings_view(r@) =~= seq![
        "Windows Precision driver install requested."@,
        "Recommended source: "@ + RECOMMENDED_DRIVER_URL@,
        "Fallback source: "@ + IMBUSHUO_URL@,
    ]);
    r
}

pub const NO_INF_HELP: &'static str = "No local INF found. Download the AMD64/ARM64 package from Releases, extract it, then place under %LOCALAPPDATA%\\MagicPadCompanion\\drivers\\";

pub const NO_INF_RETRY: &'static str = "Then re-run Install, or right-click the INF → Install (as documented by upstream).";

/// No INF was found under the search paths.
pub fn missing_inf_result(log_lines: Vec<String>) -> (r: DriverActionResult)
    ensures
        !r@.success,
        r@.message == "Driver package not found locally. Open the download page, then retry."@,
        r@.log_lines == strings_view(log_lines@).push(NO_INF_HELP@).push(NO_INF_RETRY@),
        !r@.needs_reboot,
{
    let mut l = log_lines;
    let ghost b0 = strings_view(l@);
    l.push(NO_INF_HELP.to_string());
    l.push(NO_INF_RETRY.to_string());
    assert(strings_view(l@) =~= b0.push(NO_INF_HELP@).push(NO_INF_RETRY@));
    DriverActionResult {
        success: false,
        message: "Driver package not found locally. Open the download page, then retry.".to_string(),
        log_lines: l,
        needs_reboot: false,
    }
}

/// The log line naming the INF used.
pub fn using_inf_line(inf: &str) -> (r: String)
    ensures
        r@ == "Using INF: "@ + inf@,
{
    let mut v = chars_of("Using INF: ");
    append_str(&mut v, inf);
    string_of(&v)
}

pub open spec fn output_lines(stdout: Seq<char>, stderr: Seq<char>) -> Seq<Seq<char>> {
    (if stdout.len() > 0 {
        seq![trim(stdout)]
    } else {
        Seq::empty()
    }) + (if stderr.len() > 0 {
        seq![trim(stderr)]
    } else {
        Seq::empty()
    })
}

/// The outcome of `pnputil /add-driver <inf> /install`, given its exit status
/// and (lossily decoded) output.
pub fn pnputil_result(success: bool, stdout: &str, stderr: &str, log_lines: Vec<String>) -> (r: DriverActionResult)
    ensures
        r@.success == success,
        r@.message == if success {
            "Driver package submitted to Windows. Replug the trackpad if it does not appear."@
        } else {
            "pnputil failed. Run MagicPad Companion as Administrator and retry, or install the INF manually."@
        },
        r@.log_lines == strings_view(log_lines@) + output_lines(stdout@, stderr@),
        !r@.needs_reboot,
{
    let mut l = log_lines;
    let ghost b0 = strings_view(l@);
    if stdout.unicode_len() > 0 {
        l.push(string_of(&trim_str(stdout)));
    }
    let ghost b1 = strings_view(l@);
    if stderr.unicode_len() > 0 {
        l.push(string_of(&trim_str(stderr)));
    }
    assert(strings_view(l@) =~= b0 + output_lines(stdout@, stderr@));
    DriverActionResult {
        success,
        message: if success {
            "Driver package submitted to Windows. Replug the trackpad if it does not appear.".to_string()
        } else {
            "pnputil failed. Run MagicPad Companion as Administrator and retry, or install the INF manually.".to_string()
        },
        log_lines: l,
        needs_reboot: false,
    }
}

/// The architecture folder preferred when searching for an INF.
pub fn arch_dir(arch: &str) -> (r: &'static str)
    ensures
        r@ == if arch@ == "x86_64"@ {
            "AMD64"@
        } else if arch@ == "aarch64"@ {
            "ARM64"@
        } else {
            ""@
        },
{
    let a = chars_of(arch);
    if crate::text::eq_str(&a, "x86_64") {
        "AMD64"
    } else if crate::text::eq_str(&a, "aarch64") {
        "ARM64"
    } else {
        ""
    }
}

/// One entry of a directory listing: its path, whether it is a directory,
/// and its extension when it has one.
pub struct DirEntryInfo {
    pub path: String,
    pub is_dir: bool,
    pub extension: Option<String>,
}

pub struct DirEntryView {
    pub path: Seq<char>,
    pub is_dir: bool,
    pub extension: Option<Seq<char>>,
}

impl View for DirEntryInfo {
    type V = DirEntryView;

    open spec fn view(&self) -> DirEntryView {
        DirEntryView { path: self.path@, is_dir: self.is_dir, extension: opt_str_view(self.extension) }
    }
}

pub open spec fn dir_entries_view(s: Seq<DirEntryInfo>) -> Seq<DirEntryView> {
    s.map_values(|e: DirEntryInfo| e@)
}

/// A file whose extension is `inf` in any ASCII case.
pub open spec fn is_inf(e: DirEntryView) -> bool {
    !e.is_dir && match e.extension {
        Some(x) => lower(x) == "inf"@,
        None => false,
    }
}

/// The directories still to search (searched last-in first-out) and the INF
/// found, after the entries of one directory from `i` on are visited.
pub open spec fn visit_from(stack: Seq<Seq<char>>, es: Seq<DirEntryView>, i: int) -> (
    Seq<Seq<char>>,
    Option<Seq<char>>,
)
    decreases es.len() - i,
{
    if i < 0 || i >= es.len() {
        (stack, None)
    } else if es[i].is_dir {
        visit_from(stack.push(es[i].path), es, i + 1)
    } else if is_inf(es[i]) {
        (stack, Some(es[i].path))
    } else {
        visit_from(stack, es, i + 1)
    }
}

/// The directories to search at the start, the last searched first: the
/// architecture folder (when it exists) on top of the root, so that it is
/// searched, with everything under it, before the rest of the root.
pub fn inf_search_start(root: &str, preferred: Option<String>) -> (r: Vec<String>)
    ensures
        strings_view(r@) == match opt_str_view(preferred) {
            Some(p) => seq![root@, p],
            None => seq![root@],
        },
{
    let mut r: Vec<String> = Vec::new();
    r.push(root.to_string());
    match preferred {
        Some(p) => {
            let ghost before = strings_view(r@);
            r.push(p);
            assert(strings_view(r@) =~= before.push(opt_str_view(Some(p)).unwrap()));
        },
        None => {},
    }
    assert(strings_view(r@) =~= match opt_str_view(preferred) {
        Some(p) => seq![root@, p],
        None => seq![root@],
    });
    r
}

/// Visits the entries of one directory in order: each subdirectory is put on
/// the stack of directories to search, and the first INF file ends the search.
pub fn inf_visit(stack: &mut Vec<String>, entries: &Vec<DirEntryInfo>) -> (r: Option<String>)
    ensures
        (strings_view(final(stack)@), opt_str_view(r)) == visit_from(
            strings_view(old(stack)@),
            dir_entries_view(entries@),
            0,
        ),
{
    let ghost es = dir_entries_view(entries@);
    let ghost goal = visit_from(strings_view(stack@), es, 0);
    let mut found: Option<String> = None;
    let mut i: usize = 0;
    while i < entries.len() && found.is_none()
        invariant
            i <= entries.len(),
            es == dir_entries_view(entries@),
            match found {
                None => goal == visit_from(strings_view(stack@), es, i as int),
                Some(p) => goal == (strings_view(stack@), Some(p@)),
            },
        decreases entries.len() - i,
    {
        let e = &entries[i];
        assert(es[i as int] == e@);
        if e.is_dir {
            let ghost before = strings_view(stack@);
            stack.push(e.path.clone());
            assert(strings_view(stack@) =~= before.push(e@.path));
        } else {
            let is_inf_file = match &e.extension {
                Some(x) => {
                    let l = lower_of(x.as_str());
                    crate::text::eq_str(&l, "inf")
                },
                None => false,
            };
            if is_inf_file {
                assert(is_inf(es[i as int]));
                found = Some(e.path.clone());
            }
        }
        i += 1;
    }
    found
}


/// How an INF search ends: an INF found, the stack of folders emptied after
/// `n` folders were read, or no listing left to read.
pub enum SearchEnd {
    Found(Seq<char>),
    Emptied(nat),
    OutOfReads,
}

pub open spec fn end_after(r: SearchEnd, n: nat) -> SearchEnd {
    match r {
        SearchEnd::Emptied(m) => SearchEnd::Emptied(m + n),
        _ => r,
    }
}

/// The search from `stack`, where the `k`-th folder taken off the stack lists
/// `ls[k]` (empty when it cannot be read).
pub open spec fn inf_search(stack: Seq<Seq<char>>, ls: Seq<Seq<DirEntryView>>) -> SearchEnd
    decreases ls.len(),
{
    if stack.len() == 0 {
        SearchEnd::Emptied(0)
    } else if ls.len() == 0 {
        SearchEnd::OutOfReads
    } else {
        let v = visit_from(stack.drop_last(), ls[0], 0);
        match v.1 {
            Some(f) => SearchEnd::Found(f),
            None => end_after(inf_search(v.0, ls.drop_first()), 1),
        }
    }
}

/// The search from `base + s`: first the folders of `s` and everything
/// found under them, then, if that found nothing, the folders of `base`.
pub open spec fn then_search(r: SearchEnd, base: Seq<Seq<char>>, ls: Seq<Seq<DirEntryView>>) -> SearchEnd {
    match r {
        SearchEnd::Emptied(n) => end_after(inf_search(base, ls.skip(n as int)), n),
        _ => r,
    }
}

proof fn lemma_visit_on_base(base: Seq<Seq<char>>, s: Seq<Seq<char>>, es: Seq<DirEntryView>, i: int)
    ensures
        visit_from(base + s, es, i) == (base + visit_from(s, es, i).0, visit_from(s, es, i).1),
    decreases es.len() - i,
{
    if 0 <= i < es.len() {
        if es[i].is_dir {
            lemma_visit_on_base(base, s.push(es[i].path), es, i + 1);
            assert((base + s).push(es[i].path) =~= base + s.push(es[i].path));
        } else if !is_inf(es[i]) {
            lemma_visit_on_base(base, s, es, i + 1);
        }
    }
}

proof fn lemma_emptied_bound(s: Seq<Seq<char>>, ls: Seq<Seq<DirEntryView>>)
    ensures
        inf_search(s, ls) matches SearchEnd::Emptied(n) ==> n <= ls.len(),
    decreases ls.len(),
{
    if s.len() > 0 && ls.len() > 0 {
        let v = visit_from(s.drop_last(), ls[0], 0);
        lemma_emptied_bound(v.0, ls.drop_first());
    }
}

proof fn lemma_search_on_base(base: Seq<Seq<char>>, s: Seq<Seq<char>>, ls: Seq<Seq<DirEntryView>>)
    requires
        s.len() > 0,
    ensures
        inf_search(base + s, ls) == then_search(inf_search(s, ls), base, ls),
    decreases ls.len(),
{
    if ls.len() > 0 {
        assert((base + s).drop_last() =~= base + s.drop_last());
        lemma_visit_on_base(base, s.drop_last(), ls[0], 0);
        let v = visit_from(s.drop_last(), ls[0], 0);
        if v.1 is None {
            let rest = ls.drop_first();
            if v.0.len() > 0 {
                lemma_search_on_base(base, v.0, rest);
                lemma_emptied_bound(v.0, rest);
                match inf_search(v.0, rest) {
                    SearchEnd::Emptied(n) => {
                        assert(rest.skip(n as int) =~= ls.skip((n + 1) as int));
                    },
                    _ => {},
                }
            } else {
                assert(base + v.0 =~= base);
                assert(rest =~= ls.skip(1));
            }
        }
    }
}

/// The architecture folder is searched first, with everything under it: the
/// search from the start stack ends as the search of that folder alone does,
/// and goes on with the root only when that one found nothing. So the
/// preferred folder's INF wins whenever it has one.
pub proof fn law_preferred_folder_first(root: Seq<char>, preferred: Seq<char>, ls: Seq<Seq<DirEntryView>>)
    ensures
        inf_search(seq![root, preferred], ls) == then_search(
            inf_search(seq![preferred], ls),
            seq![root],
            ls,
        ),
        inf_search(seq![preferred], ls) matches SearchEnd::Found(f) ==> inf_search(
            seq![root, preferred],
            ls,
        ) == SearchEnd::Found(f),
{
    assert(seq![root] + seq![preferred] =~= seq![root, preferred]);
    lemma_search_on_base(seq![root], seq![preferred], ls);
}

// ---------------------------------------------------------------------------
// Backend
// ---------------------------------------------------------------------------

/// Windows backend: companion settings live in `settings_path`.
pub struct WindowsBackend {
    pub settings_path: String,
}

impl WindowsBackend {
    /// `os_env` is the `OS` environment variable when set.
    pub fn platform_info(&self, os_env: Option<String>, arch: &str) -> (p: PlatformInfo)
        ensures
            p@.kind == PlatformKind::Windows,
            p@.os_name == "Windows"@,
            p@.os_version == Some(
                match opt_str_view(os_env) {
                    Some(v) => v,
                    None => "Windows_NT"@,
                },
            ),
            p@.arch == arch@,
            p@.desktop is None,
            p@.capabilities == seq![
                "device_detect"@,
                "battery"@,
                "precision_driver"@,
                "settings"@,
                "gestures_system"@,
            ],
    {
        let mut caps: Vec<&'static str> = Vec::new();
        caps.push("device_detect");
        caps.push("battery");
        caps.push("precision_driver");
        caps.push("settings");
        caps.push("gestures_system");
        let c = crate::platform::capabilities(&caps);
        assert(caps@.map_values(|s: &'static str| s@) =~= seq![
            "device_detect"@,
            "battery"@,
            "precision_driver"@,
            "settings"@,
            "gestures_system"@,
        ]);
        let v = match os_env {
            Some(v) => v,
            None => "Windows_NT".to_string(),
        };
        PlatformInfo {
            kind: PlatformKind::Windows,
            os_name: "Windows".to_string(),
            os_version: Some(v),
            arch: arch.to_string(),
            desktop: None,
            capabilities: c,
        }
    }

    /// Multi-finger gestures are owned by the OS / PTP stack: the default
    /// bindings, all available, labelled `windows_precision`.
    pub fn get_gestures(&self) -> (r: AppResult<GestureMap>)
        ensures
            r matches Ok(m) && m@ == GestureMap::default_with("windows_precision"@, true),
    {
        Ok(GestureMap::defaults_with("windows_precision", true))
    }
}

/// Applying settings to the system is only possible on Windows itself.
pub fn apply_system_elsewhere() -> (r: AppResult<()>)
    ensures
        r matches Err(AppError::Unsupported(m)) && m@ == "Windows settings only"@,
{
    Err(unsupported("Windows settings only"))
}


/// Conflicting software always wins the report: the state is `Conflict`
/// exactly when some conflicting stack is listed, whether or not the
/// Precision package is found too, and the detail then names every one of
/// them. Magic Utilities in the listing is always reported as a conflict.
pub proof fn law_conflicts_always_reported(installed: Option<Seq<char>>, conflicts: Option<Seq<char>>)
    ensures
        (status_from(installed, conflicts).conflicts.len() > 0) <==> (status_from(
            installed,
            conflicts,
        ).state == DriverState::Conflict),
        status_from(installed, conflicts).conflicts.len() > 0 ==> crate::text::starts_with(
            status_from(installed, conflicts).detail,
            "Conflicting software detected: "@,
        ),
        forall|k: int|
            0 <= k < status_from(installed, conflicts).conflicts.len() ==> contains(
                status_from(installed, conflicts).detail,
                #[trigger] status_from(installed, conflicts).conflicts[k],
            ),
        (conflicts matches Some(t) && (contains(lower(t), "magic utilities"@) || contains(
            lower(t),
            "magicutilities"@,
        ))) ==> status_from(installed, conflicts).state == DriverState::Conflict
            && status_from(installed, conflicts).conflicts.contains("Magic Utilities"@),
{
    let s = status_from(installed, conflicts);
    let c = s.conflicts;
    let a = "Conflicting software detected: "@;
    let b = ". Uninstall before installing the Precision driver."@;
    assert(c.len() <= 2);
    if c.len() > 0 {
        assert(s.detail == a + joined2(c) + b);
        assert((a + joined2(c) + b).subrange(0, a.len() as int) =~= a);
        assert(crate::text::match_at(s.detail, c[0], a.len() as int)) by {
            if c.len() == 2 {
                assert(s.detail.subrange(a.len() as int, (a.len() + c[0].len()) as int) =~= c[0]);
            } else {
                assert(s.detail.subrange(a.len() as int, (a.len() + c[0].len()) as int) =~= c[0]);
            }
        }
        if c.len() == 2 {
            let i: int = (a.len() + c[0].len() + 2) as int;
            assert(", "@.len() == 2) by {
                reveal_strlit(", ");
            }
            assert(s.detail.subrange(i, (i + c[1].len()) as int) =~= c[1]);
            assert(crate::text::match_at(s.detail, c[1], i));
        }
    }
    if conflicts matches Some(t) && (contains(lower(t), "magic utilities"@) || contains(
        lower(t),
        "magicutilities"@,
    )) {
        assert(c[0] == "Magic Utilities"@);
    }
}

/// A node whose instance id names Bluetooth is reported as connected over
/// Bluetooth, whatever its product id; a Magic Trackpad 3 product that is not
/// on Bluetooth is reported as USB-C.
pub proof fn law_bluetooth_nodes_are_bluetooth(
    instance: Seq<char>,
    name: Seq<char>,
    vid: Option<u16>,
    pid: Option<u16>,
)
    ensures
        contains(upper(instance), "BTH"@) || contains(upper(instance), "BLUETOOTH"@)
            ==> setup_device_view(instance, name, vid, pid).connection == ConnectionType::Bluetooth,
        !(contains(upper(instance), "BTH"@) || contains(upper(instance), "BLUETOOTH"@)) && (pid
            == Some(0x0324u16) || pid == Some(0x0325u16)) ==> setup_device_view(
            instance,
            name,
            vid,
            pid,
        ).connection == ConnectionType::UsbC,
{
}

} // verus!
