//! Linux backend (EndeavourOS / Arch first): the decisions behind sysfs + udev
//! discovery, power-supply batteries, helper install and gesture apply.
use vstd::prelude::*;

use crate::error::{AppError, AppResult};
use crate::models::{
    opt_battery_view, opt_str_view, strings_view, BatteryInfo, BatteryView, ConnectionType,
    DeviceInfo, DeviceView, DriverActionResult, DriverState, DriverStatus, PlatformInfo,
    PlatformKind, APPLE_VID,
};
use crate::text::{
    append_chars, append_str, chars_of, contains, contains_str, hex4, hex4_chars, lines, lines_of,
    lower, lower_of, parse_hex, parse_hex_exec, parse_unsigned, parse_unsigned_exec, split,
    split_chars, starts_with, starts_with_str, string_of, strip_prefix, strip_prefix_chars, trim,
    trim_char, trim_char_exec, trim_end_char, trim_end_char_exec, trim_str,
};

verus! {

// ---------------------------------------------------------------------------
// uevent files and device ids
// ---------------------------------------------------------------------------

/// The value of `key` in a uevent text: the first line starting with `key`
/// whose remainder (after an optional `=`) is not empty.
pub open spec fn uevent_field_from(ls: Seq<Seq<char>>, key: Seq<char>, i: int) -> Option<Seq<char>>
    decreases ls.len() - i,
{
    if i < 0 || i >= ls.len() {
        None
    } else {
        match strip_prefix(ls[i], key) {
            Some(rest) => {
                let v = match strip_prefix(rest, "="@) {
                    Some(r) => r,
                    None => rest,
                };
                if v.len() > 0 {
                    Some(v)
                } else {
                    uevent_field_from(ls, key, i + 1)
                }
            },
            None => uevent_field_from(ls, key, i + 1),
        }
    }
}

pub open spec fn uevent_field(uevent: Seq<char>, key: Seq<char>) -> Option<Seq<char>> {
    uevent_field_from(lines(uevent), key, 0)
}

pub fn field_from_uevent(uevent: &str, key: &str) -> (r: Option<String>)
    ensures
        opt_str_view(r) == uevent_field(uevent@, key@),
{
    let ls = lines_of(uevent);
    let ghost lv = ls@.map_values(|v: Vec<char>| v@);
    let mut i: usize = 0;
    while i < ls.len()
        invariant
            i <= ls.len(),
            lv == ls@.map_values(|v: Vec<char>| v@),
            lv == lines(uevent@),
            uevent_field(uevent@, key@) == uevent_field_from(lv, key@, i as int),
        decreases ls.len() - i,
    {
        assert(lv[i as int] == ls@[i as int]@);
        match strip_prefix_chars(&ls[i], key) {
            Some(rest) => {
                let v = match strip_prefix_chars(&rest, "=") {
                    Some(r) => r,
                    None => rest,
                };
                if v.len() > 0 {
                    return Some(string_of(&v));
                }
            },
            None => {},
        }
        i += 1;
    }
    None
}

/// The serial a device id carries: `apple-trackpad:SERIAL`, or `input:SERIAL`
/// unless that names an `event…` / `input…` node.
pub open spec fn serial_hint(id: Seq<char>) -> Option<Seq<char>> {
    match strip_prefix(id, "apple-trackpad:"@) {
        Some(s) => Some(s),
        None => match strip_prefix(id, "input:"@) {
            Some(s) => if !starts_with(s, "event"@) && !starts_with(s, "input"@) {
                Some(s)
            } else {
                None
            },
            None => None,
        },
    }
}

pub fn extract_serial_hint(device_id: &str) -> (r: Option<String>)
    ensures
        opt_str_view(r) == serial_hint(device_id@),
{
    let id = chars_of(device_id);
    match strip_prefix_chars(&id, "apple-trackpad:") {
        Some(s) => Some(string_of(&s)),
        None => match strip_prefix_chars(&id, "input:") {
            Some(s) => {
                if !starts_with_str(&s, "event") && !starts_with_str(&s, "input") {
                    Some(string_of(&s))
                } else {
                    None
                }
            },
            None => None,
        },
    }
}

// ---------------------------------------------------------------------------
// Batteries (power_supply)
// ---------------------------------------------------------------------------

/// Charging first, then capacity (MT3 often exposes two HID batteries).
pub open spec fn battery_score(b: BatteryView) -> int {
    (match b.percent {
        Some(p) => p as int,
        None => 0,
    }) + if b.charging == Some(true) {
        200int
    } else {
        0
    }
}

/// The better of a previous best and a new candidate; ties go to the new one.
pub fn pick_better_battery(a: Option<BatteryInfo>, b: BatteryInfo) -> (r: BatteryInfo)
    ensures
        r@ == match opt_battery_view(a) {
            None => b@,
            Some(av) => if battery_score(b@) >= battery_score(av) {
                b@
            } else {
                av
            },
        },
{
    let a = match a {
        Some(a) => a,
        None => {
            return b;
        },
    };
    let sa: i32 = (match a.percent {
        Some(p) => p as i32,
        None => 0,
    }) + if a.charging == Some(true) {
        200
    } else {
        0
    };
    let sb: i32 = (match b.percent {
        Some(p) => p as i32,
        None => 0,
    }) + if b.charging == Some(true) {
        200
    } else {
        0
    };
    if sb >= sa {
        b
    } else {
        a
    }
}

/// `charging` from a power_supply `status` text.
pub open spec fn charging_of(status: Seq<char>) -> Option<bool> {
    let s = lower(trim(status));
    if s == "charging"@ {
        Some(true)
    } else if s == "full"@ || s == "discharging"@ || s == "not charging"@ {
        Some(false)
    } else {
        None
    }
}

pub fn charging_from_status(status: &str) -> (r: Option<bool>)
    ensures
        r == charging_of(status@),
{
    let t = trim_str(status);
    let s = crate::text::to_lower(&t);
    if crate::text::eq_str(&s, "charging") {
        Some(true)
    } else if crate::text::eq_str(&s, "full") || crate::text::eq_str(&s, "discharging")
        || crate::text::eq_str(&s, "not charging") {
        Some(false)
    } else {
        None
    }
}

/// A power_supply `type` of `Battery` (any ASCII case, surrounding space ignored).
pub fn is_battery_type(type_text: &str) -> (r: bool)
    ensures
        r == (lower(trim(type_text@)) == lower("Battery"@)),
{
    let t = trim_str(type_text);
    let l = crate::text::to_lower(&t);
    let b = lower_of("Battery");
    crate::text::eq_chars(&l, &b)
}

/// A power_supply entry that looks like a trackpad battery.
pub open spec fn trackpad_battery_like(model: Seq<char>, fname: Seq<char>) -> bool {
    contains(lower(model), "trackpad"@) || contains(lower(model), "magic"@) || contains(
        lower(fname),
        "trackpad"@,
    )
}

pub fn looks_like_trackpad_battery(model: &str, fname: &str) -> (r: bool)
    ensures
        r == trackpad_battery_like(model@, fname@),
{
    let m = lower_of(model);
    let f = lower_of(fname);
    contains_str(&m, "trackpad") || contains_str(&m, "magic") || contains_str(&f, "trackpad")
}

/// When a serial is known, only the entry named after it (`hid-SERIAL-battery`).
pub fn battery_name_matches(fname: &str, serial: &Option<String>) -> (r: bool)
    ensures
        r == match opt_str_view(*serial) {
            Some(s) => contains(fname@, s),
            None => true,
        },
{
    match serial {
        Some(s) => {
            let f = chars_of(fname);
            contains_str(&f, s.as_str())
        },
        None => true,
    }
}

/// The fallback pass (no serial-matched battery) accepts any model naming a trackpad.
pub fn fallback_battery_model(model: &str) -> (r: bool)
    ensures
        r == contains(lower(model@), "trackpad"@),
{
    let m = lower_of(model);
    contains_str(&m, "trackpad")
}

/// The serial used to match batteries: the first `Serial …` note, else the id's hint.
pub open spec fn note_serial_from(notes: Seq<Seq<char>>, i: int) -> Option<Seq<char>>
    decreases notes.len() - i,
{
    if i < 0 || i >= notes.len() {
        None
    } else {
        match strip_prefix(notes[i], "Serial "@) {
            Some(s) => Some(s),
            None => note_serial_from(notes, i + 1),
        }
    }
}

pub open spec fn battery_serial(d: DeviceView) -> Option<Seq<char>> {
    match note_serial_from(d.notes, 0) {
        Some(s) => Some(s),
        None => serial_hint(d.id),
    }
}

pub fn battery_serial_hint(d: &DeviceInfo) -> (r: Option<String>)
    ensures
        opt_str_view(r) == battery_serial(d@),
{
    let ghost nv = d@.notes;
    let mut i: usize = 0;
    while i < d.notes.len()
        invariant
            i <= d.notes.len(),
            nv == d@.notes,
            note_serial_from(nv, 0) == note_serial_from(nv, i as int),
        decreases d.notes.len() - i,
    {
        let n = chars_of(d.notes[i].as_str());
        assert(n@ == nv[i as int]);
        match strip_prefix_chars(&n, "Serial ") {
            Some(s) => {
                return Some(string_of(&s));
            },
            None => {},
        }
        i += 1;
    }
    extract_serial_hint(d.id.as_str())
}

/// The device a battery lookup by id matches against: the id, plus a
/// `Serial …` note when the id carries a serial.
pub fn battery_probe_device(device_id: &str) -> (d: DeviceInfo)
    ensures
        d@.id == device_id@,
        d@.name.len() == 0,
        d@.model.len() == 0,
        d@.vid is None,
        d@.pid is None,
        d@.connection == ConnectionType::Unknown,
        d@.connected,
        d@.battery is None,
        d@.driver_bound is None,
        d@.path is None,
        d@.notes == match serial_hint(device_id@) {
            Some(s) => seq!["Serial "@ + s],
            None => Seq::empty(),
        },
{
    let mut notes: Vec<String> = Vec::new();
    match extract_serial_hint(device_id) {
        Some(s) => {
            let mut n = chars_of("Serial ");
            append_str(&mut n, s.as_str());
            notes.push(string_of(&n));
        },
        None => {},
    }
    let d = DeviceInfo {
        id: device_id.to_string(),
        name: String::new(),
        model: String::new(),
        vid: None,
        pid: None,
        connection: ConnectionType::Unknown,
        connected: true,
        battery: None,
        driver_bound: None,
        path: None,
        notes,
    };
    assert(d@.notes =~= match serial_hint(device_id@) {
        Some(s) => seq!["Serial "@ + s],
        None => Seq::<Seq<char>>::empty(),
    });
    d
}

/// One entry of the power-supply class as read: each file's text (empty when
/// it could not be read); `capacity` is `None` when it could not be read.
pub struct PowerSupplyEntry {
    pub fname: String,
    pub path: String,
    pub type_text: String,
    pub model: String,
    pub capacity: Option<String>,
    pub status: String,
}

pub struct SupplyView {
    pub fname: Seq<char>,
    pub path: Seq<char>,
    pub type_text: Seq<char>,
    pub model: Seq<char>,
    pub capacity: Option<Seq<char>>,
    pub status: Seq<char>,
}

impl View for PowerSupplyEntry {
    type V = SupplyView;

    open spec fn view(&self) -> SupplyView {
        SupplyView {
            fname: self.fname@,
            path: self.path@,
            type_text: self.type_text@,
            model: self.model@,
            capacity: opt_str_view(self.capacity),
            status: self.status@,
        }
    }
}

pub open spec fn supplies_view(s: Seq<PowerSupplyEntry>) -> Seq<SupplyView> {
    s.map_values(|e: PowerSupplyEntry| e@)
}

/// The percentage in a `capacity` file: a decimal `u8`, surrounding space ignored.
pub open spec fn capacity_of(c: Option<Seq<char>>) -> Option<u8> {
    match c {
        Some(t) => match parse_unsigned(trim(t), 255) {
            Some(n) => Some(n as u8),
            None => None,
        },
        None => None,
    }
}

pub fn capacity_percent(c: &Option<String>) -> (r: Option<u8>)
    ensures
        r == capacity_of(opt_str_view(*c)),
{
    match c {
        Some(t) => {
            let tt = trim_str(t.as_str());
            match parse_unsigned_exec(&tt, 255) {
                Some(n) => Some(n as u8),
                None => None,
            }
        },
        None => None,
    }
}

/// The battery an entry describes.
pub open spec fn entry_battery(e: SupplyView) -> BatteryView {
    BatteryView { percent: capacity_of(e.capacity), charging: charging_of(e.status), source: e.path }
}

/// The better of a previous best and a new candidate; ties go to the new one.
pub open spec fn better(a: Option<BatteryView>, b: BatteryView) -> BatteryView {
    match a {
        None => b,
        Some(av) => if battery_score(b) >= battery_score(av) {
            b
        } else {
            av
        },
    }
}

/// The first pass accepts batteries that look like a trackpad's and, when a
/// serial is known, carry it in their name.
pub open spec fn strict_match(e: SupplyView, serial: Option<Seq<char>>) -> bool {
    &&& lower(trim(e.type_text)) == lower("Battery"@)
    &&& trackpad_battery_like(e.model, e.fname)
    &&& match serial {
        Some(s) => contains(e.fname, s),
        None => true,
    }
}

/// The best battery among the entries accepted by the first pass.
pub open spec fn strict_best(es: Seq<SupplyView>, serial: Option<Seq<char>>) -> Option<BatteryView>
    decreases es.len(),
{
    if es.len() == 0 {
        None
    } else {
        let b = strict_best(es.drop_last(), serial);
        if strict_match(es.last(), serial) {
            Some(better(b, entry_battery(es.last())))
        } else {
            b
        }
    }
}

/// The best battery among all entries whose model names a trackpad.
pub open spec fn fallback_best(es: Seq<SupplyView>) -> Option<BatteryView>
    decreases es.len(),
{
    if es.len() == 0 {
        None
    } else {
        let b = fallback_best(es.drop_last());
        if contains(lower(es.last().model), "trackpad"@) {
            Some(better(b, entry_battery(es.last())))
        } else {
            b
        }
    }
}

/// The battery of a device with serial `serial`: the first pass, and when it
/// finds nothing although a serial was known, the fallback pass.
pub open spec fn battery_for(es: Seq<SupplyView>, serial: Option<Seq<char>>) -> Option<BatteryView> {
    let b = strict_best(es, serial);
    if b is None && serial is Some {
        fallback_best(es)
    } else {
        b
    }
}

fn entry_to_battery(e: &PowerSupplyEntry) -> (r: BatteryInfo)
    ensures
        r@ == entry_battery(e@),
{
    BatteryInfo {
        percent: capacity_percent(&e.capacity),
        charging: charging_from_status(e.status.as_str()),
        source: e.path.clone(),
    }
}

/// The battery found among the power-supply entries for a device whose
/// serial (if known) is `serial`.
pub fn battery_from_supplies(entries: &Vec<PowerSupplyEntry>, serial: &Option<String>) -> (r:
    Option<BatteryInfo>)
    ensures
        opt_battery_view(r) == battery_for(supplies_view(entries@), opt_str_view(*serial)),
{
    let ghost es = supplies_view(entries@);
    let ghost sv = opt_str_view(*serial);
    let mut best: Option<BatteryInfo> = None;
    let mut i: usize = 0;
    while i < entries.len()
        invariant
            i <= entries.len(),
            es == supplies_view(entries@),
            sv == opt_str_view(*serial),
            opt_battery_view(best) == strict_best(es.take(i as int), sv),
        decreases entries.len() - i,
    {
        let e = &entries[i];
        assert(es.take(i + 1).drop_last() =~= es.take(i as int));
        assert(es.take(i + 1).last() == e@);
        if is_battery_type(e.type_text.as_str()) && looks_like_trackpad_battery(
            e.model.as_str(),
            e.fname.as_str(),
        ) && battery_name_matches(e.fname.as_str(), serial) {
            let b = entry_to_battery(e);
            best = Some(pick_better_battery(best, b));
        }
        i += 1;
    }
    assert(es.take(entries.len() as int) =~= es);
    if best.is_none() && serial.is_some() {
        let mut j: usize = 0;
        while j < entries.len()
            invariant
                j <= entries.len(),
                es == supplies_view(entries@),
                opt_battery_view(best) == fallback_best(es.take(j as int)),
            decreases entries.len() - j,
        {
            let e = &entries[j];
            assert(es.take(j + 1).drop_last() =~= es.take(j as int));
            assert(es.take(j + 1).last() == e@);
            if fallback_battery_model(e.model.as_str()) {
                let b = entry_to_battery(e);
                best = Some(pick_better_battery(best, b));
            }
            j += 1;
        }
        assert(es.take(entries.len() as int) =~= es);
    }
    best
}

// ---------------------------------------------------------------------------
// HID candidates
// ---------------------------------------------------------------------------

/// One Apple HID node under /sys/bus/hid/devices.
pub struct HidCandidate {
    pub path: String,
    pub fname: String,
    pub vid: u16,
    pub pid: u16,
    pub uniq: Option<String>,
    pub phys: Option<String>,
    pub hid_name: Option<String>,
    /// Prefer interface 0 / lower HID instance index as the primary face.
    pub rank: u32,
    pub usb_parent: Option<String>,
}

pub open spec fn is_name_sep(c: char) -> bool {
    c == ':' || c == '.'
}

pub open spec fn next_name_sep(s: Seq<char>, i: int) -> int
    decreases s.len() - i,
{
    if i >= s.len() {
        s.len() as int
    } else if is_name_sep(s[i]) {
        i
    } else {
        next_name_sep(s, i + 1)
    }
}

proof fn lemma_next_name_sep(s: Seq<char>, i: int, j: int)
    requires
        0 <= i <= j <= s.len(),
        forall|k: int| i <= k < j ==> !is_name_sep(s[k]),
        j < s.len() ==> is_name_sep(s[j]),
    ensures
        next_name_sep(s, i) == j,
    decreases j - i,
{
    if i < j {
        lemma_next_name_sep(s, i + 1, j);
    }
}

pub proof fn lemma_next_name_sep_bounds(s: Seq<char>, i: int)
    requires
        0 <= i <= s.len(),
    ensures
        i <= next_name_sep(s, i) <= s.len(),
    decreases s.len() - i,
{
    if i < s.len() && !is_name_sep(s[i]) {
        lemma_next_name_sep_bounds(s, i + 1);
    }
}

/// `s.split([':', '.'])` from `start` on.
pub open spec fn name_parts_from(s: Seq<char>, start: int) -> Seq<Seq<char>>
    decreases s.len() + 1 - start,
{
    if start < 0 || start > s.len() {
        Seq::empty()
    } else {
        let end = next_name_sep(s, start);
        if end >= s.len() {
            seq![s.subrange(start, s.len() as int)]
        } else {
            proof {
                lemma_next_name_sep_bounds(s, start);
            }
            seq![s.subrange(start, end)] + name_parts_from(s, end + 1)
        }
    }
}

fn name_parts(s: &Vec<char>) -> (r: Vec<Vec<char>>)
    ensures
        r@.map_values(|v: Vec<char>| v@) == name_parts_from(s@, 0),
        r@.len() >= 1,
{
    let ghost sv = s@;
    let mut out: Vec<Vec<char>> = Vec::new();
    let mut start: usize = 0;
    loop
        invariant
            start <= s.len(),
            sv == s@,
            out@.map_values(|v: Vec<char>| v@) + name_parts_from(sv, start as int)
                == name_parts_from(sv, 0),
        decreases s.len() + 1 - start,
    {
        let mut end = start;
        while end < s.len() && !(s[end] == ':' || s[end] == '.')
            invariant
                start <= end <= s.len(),
                sv == s@,
                forall|k: int| start <= k < end ==> !is_name_sep(sv[k]),
            decreases s.len() - end,
        {
            end += 1;
        }
        proof {
            lemma_next_name_sep(sv, start as int, end as int);
        }
        let piece = crate::text::subrange_chars(s, start, end);
        let ghost before = out@.map_values(|v: Vec<char>| v@);
        out.push(piece);
        assert(out@.map_values(|v: Vec<char>| v@) =~= before.push(piece@));
        if end >= s.len() {
            assert(before + name_parts_from(sv, start as int) =~= before.push(piece@));
            return out;
        }
        assert(before + name_parts_from(sv, start as int) =~= before.push(piece@)
            + name_parts_from(sv, end + 1));
        start = end + 1;
    }
}

/// `0003:05AC:0324.0005` → (vendor, product, instance); the instance is 999
/// when the last part is not hexadecimal. Only Apple nodes are accepted.
pub open spec fn hid_name_ids(fname: Seq<char>) -> Option<(u16, u16, u32)> {
    let parts = name_parts_from(fname, 0);
    if parts.len() < 3 {
        None
    } else {
        match (parse_hex(parts[1], 0xFFFF), parse_hex(parts[2], 0xFFFF)) {
            (Some(v), Some(p)) => if v != APPLE_VID {
                None
            } else {
                let inst: u32 = match parse_hex(parts.last(), u32::MAX as nat) {
                    Some(n) => n as u32,
                    None => 999,
                };
                Some((v as u16, p as u16, inst))
            },
            _ => None,
        }
    }
}

pub fn parse_hid_name(fname: &str) -> (r: Option<(u16, u16, u32)>)
    ensures
        r == hid_name_ids(fname@),
{
    let v = chars_of(fname);
    let parts = name_parts(&v);
    let ghost pv = parts@.map_values(|x: Vec<char>| x@);
    if parts.len() < 3 {
        return None;
    }
    assert(pv[1] == parts@[1]@ && pv[2] == parts@[2]@);
    assert(pv.last() == parts@[parts.len() - 1]@);
    let vid = match parse_hex_exec(&parts[1], 0xFFFF) {
        Some(x) => x,
        None => {
            return None;
        },
    };
    let pid = match parse_hex_exec(&parts[2], 0xFFFF) {
        Some(x) => x,
        None => {
            return None;
        },
    };
    if vid as u16 != APPLE_VID {
        return None;
    }
    let inst: u32 = match parse_hex_exec(&parts[parts.len() - 1], u32::MAX as u64) {
        Some(n) => n as u32,
        None => 999,
    };
    Some((vid as u16, pid as u16, inst))
}

/// Rank part from `HID_PHYS`: the number after `input` in its last `/` part
/// (50 when absent). Lower is preferred.
pub open spec fn phys_rank_of(phys: Option<Seq<char>>) -> u32 {
    match phys {
        None => 50,
        Some(p) => match strip_prefix(split(p, '/').last(), "input"@) {
            Some(r) => match parse_unsigned(r, u32::MAX as nat) {
                Some(v) => v as u32,
                None => 50,
            },
            None => 50,
        },
    }
}

pub fn phys_rank(phys: &Option<String>) -> (r: u32)
    ensures
        r == phys_rank_of(opt_str_view(*phys)),
{
    match phys {
        None => 50,
        Some(p) => {
            let v = chars_of(p.as_str());
            let parts = split_chars(&v, '/');
            proof {
                crate::text::lemma_pieces_nonempty(v@, '/', 0);
            }
            let ghost pv = parts@.map_values(|x: Vec<char>| x@);
            assert(pv.last() == parts@[parts.len() - 1]@);
            match strip_prefix_chars(&parts[parts.len() - 1], "input") {
                Some(r) => match parse_unsigned_exec(&r, u32::MAX as u64) {
                    Some(n) => n as u32,
                    None => 50,
                },
                None => 50,
            }
        },
    }
}

pub open spec fn saturating_mul_u32(a: u32, b: u32) -> int {
    if a * b > u32::MAX {
        u32::MAX as int
    } else {
        a * b
    }
}

/// Whether `phys_rank.saturating_mul(1000) + instance` fits in a `u32`.
pub fn saturating_rank_fits(phys_rank: u32, instance: u32) -> (r: bool)
    ensures
        r == (saturating_mul_u32(phys_rank, 1000) + instance <= u32::MAX),
{
    let m: u32 = if phys_rank > u32::MAX / 1000 {
        u32::MAX
    } else {
        phys_rank * 1000
    };
    instance <= u32::MAX - m
}

/// `phys_rank.saturating_mul(1000) + instance`.
pub fn candidate_rank(phys_rank: u32, instance: u32) -> (r: u32)
    requires
        saturating_mul_u32(phys_rank, 1000) + instance <= u32::MAX,
    ensures
        r == saturating_mul_u32(phys_rank, 1000) + instance,
{
    let m: u32 = if phys_rank > u32::MAX / 1000 {
        u32::MAX
    } else {
        phys_rank * 1000
    };
    m + instance
}

/// Whether a HID node's rank is computed without overflow: it is not an
/// Apple trackpad candidate, or `phys_rank * 1000` (saturating) plus its
/// instance fits in a `u32`. (Otherwise the rank computation overflows.)
pub open spec fn hid_rank_ok(fname: Seq<char>, uevent: Seq<char>, child_named_trackpad: bool) -> bool {
    match hid_name_ids(fname) {
        Some(ids) => trackpad_node(
            ids.1,
            uevent_field(uevent, "HID_NAME"@),
            child_named_trackpad,
            uevent,
        ) ==> saturating_mul_u32(phys_rank_of(uevent_field(uevent, "HID_PHYS"@)), 1000) + ids.2
            <= u32::MAX,
        None => true,
    }
}

pub fn hid_rank_fits(fname: &str, uevent: &str, child_named_trackpad: bool) -> (r: bool)
    ensures
        r == hid_rank_ok(fname@, uevent@, child_named_trackpad),
{
    match parse_hid_name(fname) {
        Some((_v, pid, instance)) => {
            let hid_name = field_from_uevent(uevent, "HID_NAME");
            if !is_trackpad_candidate(pid, &hid_name, child_named_trackpad, uevent) {
                return true;
            }
            let phys = field_from_uevent(uevent, "HID_PHYS");
            saturating_rank_fits(phys_rank(&phys), instance)
        },
        None => true,
    }
}

/// The candidate a node of the HID bus stands for, from its path, its name,
/// its uevent text, whether an input child is named like a trackpad, and the
/// USB device directory above it: an Apple node that is a trackpad, ranked.
pub fn hid_candidate(
    path: String,
    fname: String,
    uevent: &str,
    child_named_trackpad: bool,
    usb_parent: Option<String>,
) -> (r: Option<HidCandidate>)
    requires
        hid_rank_ok(fname@, uevent@, child_named_trackpad),
    ensures
        match hid_name_ids(fname@) {
            None => r is None,
            Some(ids) => if !trackpad_node(
                ids.1,
                uevent_field(uevent@, "HID_NAME"@),
                child_named_trackpad,
                uevent@,
            ) {
                r is None
            } else {
                r matches Some(c) && c.path@ == path@ && c.fname@ == fname@ && c.vid == ids.0
                    && c.pid == ids.1 && opt_str_view(c.uniq) == uevent_field(uevent@, "HID_UNIQ"@)
                    && opt_str_view(c.phys) == uevent_field(uevent@, "HID_PHYS"@)
                    && opt_str_view(c.hid_name) == uevent_field(uevent@, "HID_NAME"@) && c.rank
                    == saturating_mul_u32(phys_rank_of(uevent_field(uevent@, "HID_PHYS"@)), 1000)
                    + ids.2 && opt_str_view(c.usb_parent) == opt_str_view(usb_parent)
            },
        },
{
    let (vid, pid, instance) = match parse_hid_name(fname.as_str()) {
        Some(ids) => ids,
        None => {
            return None;
        },
    };
    let uniq = field_from_uevent(uevent, "HID_UNIQ");
    let phys = field_from_uevent(uevent, "HID_PHYS");
    let hid_name = field_from_uevent(uevent, "HID_NAME");
    if !is_trackpad_candidate(pid, &hid_name, child_named_trackpad, uevent) {
        return None;
    }
    let pr = phys_rank(&phys);
    let rank = candidate_rank(pr, instance);
    Some(HidCandidate { path, fname, vid, pid, uniq, phys, hid_name, rank, usb_parent })
}

/// Whether a HID node is a trackpad: a known product, a name or uevent
/// mentioning a trackpad, or an input child named like one.
pub open spec fn trackpad_node(pid: u16, hid_name: Option<Seq<char>>, child_named_trackpad: bool, uevent: Seq<char>) -> bool {
    crate::models::known_model(pid) is Some || (match hid_name {
        Some(n) => contains(lower(n), "trackpad"@),
        None => false,
    }) || child_named_trackpad || contains(lower(uevent), "trackpad"@)
}

pub fn is_trackpad_candidate(pid: u16, hid_name: &Option<String>, child_named_trackpad: bool, uevent: &str) -> (r: bool)
    ensures
        r == trackpad_node(pid, opt_str_view(*hid_name), child_named_trackpad, uevent@),
{
    if crate::models::is_known_trackpad_pid(pid) {
        return true;
    }
    let named = match hid_name {
        Some(n) => {
            let l = lower_of(n.as_str());
            contains_str(&l, "trackpad")
        },
        None => false,
    };
    if named || child_named_trackpad {
        return true;
    }
    let u = lower_of(uevent);
    contains_str(&u, "trackpad")
}

pub open spec fn candidate_key(c: HidCandidate) -> Seq<char> {
    match c.uniq {
        Some(u) if u@.len() > 0 => "uniq:"@ + u@,
        _ => match c.usb_parent {
            Some(p) => "usb:"@ + p@,
            None => "vidpid:"@ + hex4(c.vid) + ":"@ + hex4(c.pid),
        },
    }
}

/// The grouping key of a candidate: serial, else USB parent, else VID/PID.
pub fn group_key(c: &HidCandidate) -> (r: Vec<char>)
    ensures
        r@ == candidate_key(*c),
{
    match &c.uniq {
        Some(u) => {
            if u.as_str().unicode_len() > 0 {
                let mut k = chars_of("uniq:");
                append_str(&mut k, u.as_str());
                return k;
            }
        },
        None => {},
    }
    match &c.usb_parent {
        Some(p) => {
            let mut k = chars_of("usb:");
            append_str(&mut k, p.as_str());
            k
        },
        None => {
            let mut k = chars_of("vidpid:");
            append_chars(&mut k, &hex4_chars(c.vid));
            append_str(&mut k, ":");
            append_chars(&mut k, &hex4_chars(c.pid));
            k
        },
    }
}

/// The connection of a sysfs node: Bluetooth or USB by its path, else by
/// product (USB-C for the Magic Trackpad 3 IDs).
pub open spec fn connection_of(path: Seq<char>, pid: u16) -> ConnectionType {
    let s = lower(path);
    if contains(s, "bluetooth"@) {
        ConnectionType::Bluetooth
    } else if contains(s, "/usb"@) {
        if pid == 0x0324 || pid == 0x0325 {
            ConnectionType::UsbC
        } else {
            ConnectionType::Usb
        }
    } else if pid == 0x0324 || pid == 0x0325 {
        ConnectionType::UsbC
    } else {
        ConnectionType::Unknown
    }
}

/// `path` is the node's path as displayed. Every ancestor's path is a prefix
/// of it, so the path itself decides.
pub fn detect_connection(path: &str, pid: u16) -> (r: ConnectionType)
    ensures
        r == connection_of(path@, pid),
{
    let s = lower_of(path);
    if contains_str(&s, "bluetooth") {
        ConnectionType::Bluetooth
    } else if contains_str(&s, "/usb") {
        if pid == 0x0324 || pid == 0x0325 {
            ConnectionType::UsbC
        } else {
            ConnectionType::Usb
        }
    } else if pid == 0x0324 || pid == 0x0325 {
        ConnectionType::UsbC
    } else {
        ConnectionType::Unknown
    }
}

pub open spec fn candidate_notes(c: HidCandidate) -> Seq<Seq<char>> {
    (if connection_of(c.path@, c.pid) == ConnectionType::UsbC {
        seq!["USB-C Magic Trackpad (A3120 lineage)"@]
    } else {
        Seq::empty()
    }) + (match c.uniq {
        Some(u) => seq!["Serial "@ + u@],
        None => Seq::empty(),
    }) + (match c.phys {
        Some(p) => seq!["HID "@ + p@],
        None => Seq::empty(),
    })
}

/// The device a candidate stands for.
pub open spec fn candidate_device(c: HidCandidate) -> DeviceView {
    DeviceView {
        id: match c.uniq {
            Some(u) => "apple-trackpad:"@ + u@,
            None => match c.usb_parent {
                Some(p) => "apple-trackpad:"@ + p@,
                None => c.fname@,
            },
        },
        name: match c.hid_name {
            Some(n) if n@.len() > 0 => n@,
            _ => crate::models::model_name(c.pid),
        },
        model: crate::models::model_name(c.pid),
        vid: Some(c.vid),
        pid: Some(c.pid),
        connection: connection_of(c.path@, c.pid),
        connected: true,
        battery: None,
        driver_bound: Some(true),
        path: Some(c.path@),
        notes: candidate_notes(c),
    }
}

fn push_note(v: &mut Vec<String>, a: &str, b: &str)
    ensures
        strings_view(final(v)@) == strings_view(old(v)@).push(a@ + b@),
{
    let mut n = chars_of(a);
    append_str(&mut n, b);
    let ghost before = v@;
    v.push(string_of(&n));
    assert(strings_view(v@) =~= strings_view(before).push(a@ + b@));
}

pub fn candidate_to_device(c: HidCandidate) -> (d: DeviceInfo)
    ensures
        d@ == candidate_device(c),
{
    let model = crate::models::model_name_for_pid(c.pid);
    let connection = detect_connection(c.path.as_str(), c.pid);
    let name: String = match &c.hid_name {
        Some(n) => if n.as_str().unicode_len() > 0 {
            n.clone()
        } else {
            model.clone()
        },
        None => model.clone(),
    };
    let mut notes: Vec<String> = Vec::new();
    if connection == ConnectionType::UsbC {
        notes.push("USB-C Magic Trackpad (A3120 lineage)".to_string());
    }
    let ghost n1 = strings_view(notes@);
    match &c.uniq {
        Some(u) => push_note(&mut notes, "Serial ", u.as_str()),
        None => {},
    }
    let ghost n2 = strings_view(notes@);
    match &c.phys {
        Some(p) => push_note(&mut notes, "HID ", p.as_str()),
        None => {},
    }
    assert(strings_view(notes@) =~= candidate_notes(c));
    let id: String = match &c.uniq {
        Some(u) => {
            let mut k = chars_of("apple-trackpad:");
            append_str(&mut k, u.as_str());
            string_of(&k)
        },
        None => match &c.usb_parent {
            Some(p) => {
                let mut k = chars_of("apple-trackpad:");
                append_str(&mut k, p.as_str());
                string_of(&k)
            },
            None => c.fname.clone(),
        },
    };
    DeviceInfo {
        id,
        name,
        model,
        vid: Some(c.vid),
        pid: Some(c.pid),
        connection,
        connected: true,
        battery: None,
        driver_bound: Some(true),
        path: Some(c.path),
        notes,
    }
}


// ---------------------------------------------------------------------------
// Choosing one candidate per group
// ---------------------------------------------------------------------------

/// Position (in `r`) of the chosen candidate with key `k`, searching from `j`.
pub open spec fn chosen_pos(r: Seq<int>, keys: Seq<Seq<char>>, k: Seq<char>, j: int) -> Option<int>
    decreases r.len() - j,
{
    if j < 0 || j >= r.len() {
        None
    } else if keys[r[j]] == k {
        Some(j)
    } else {
        chosen_pos(r, keys, k, j + 1)
    }
}

/// Indices of the candidates kept, one per key in order of first appearance:
/// the lowest rank, the earliest among equal ranks.
pub open spec fn chosen(keys: Seq<Seq<char>>, ranks: Seq<u32>, n: int) -> Seq<int>
    decreases n,
{
    if n <= 0 {
        Seq::empty()
    } else {
        let r = chosen(keys, ranks, n - 1);
        let i = n - 1;
        match chosen_pos(r, keys, keys[i], 0) {
            Some(j) => if ranks[r[j]] <= ranks[i] {
                r
            } else {
                r.update(j, i)
            },
            None => r.push(i),
        }
    }
}

proof fn lemma_chosen_pos(r: Seq<int>, keys: Seq<Seq<char>>, k: Seq<char>, j: int)
    requires
        0 <= j,
    ensures
        chosen_pos(r, keys, k, j) matches Some(p) ==> j <= p < r.len() && keys[r[p]] == k,
    decreases r.len() - j,
{
    if j < r.len() {
        lemma_chosen_pos(r, keys, k, j + 1);
    }
}

proof fn lemma_chosen_bounds(keys: Seq<Seq<char>>, ranks: Seq<u32>, n: int)
    requires
        0 <= n,
    ensures
        forall|q: int| 0 <= q < chosen(keys, ranks, n).len() ==> 0 <= #[trigger] chosen(keys, ranks, n)[q] < n,
    decreases n,
{
    if n > 0 {
        lemma_chosen_bounds(keys, ranks, n - 1);
        let r = chosen(keys, ranks, n - 1);
        lemma_chosen_pos(r, keys, keys[n - 1], 0);
        let t = chosen(keys, ranks, n);
        assert forall|q: int| 0 <= q < t.len() implies 0 <= #[trigger] t[q] < n by {
            if q < r.len() {
                assert(0 <= r[q] < n - 1);
            }
        }
    }
}

fn find_chosen(
    r: &Vec<usize>,
    keyv: &Vec<Vec<char>>,
    k: &Vec<char>,
    Ghost(keys): Ghost<Seq<Seq<char>>>,
    Ghost(i): Ghost<int>,
) -> (pos: Option<usize>)
    requires
        keyv.len() == i,
        i <= keys.len(),
        forall|q: int| 0 <= q < i ==> (#[trigger] keyv@[q])@ == keys[q],
        forall|q: int| 0 <= q < r.len() ==> r@[q] < i,
    ensures
        match pos {
            Some(j) => chosen_pos(r@.map_values(|x: usize| x as int), keys, k@, 0) == Some(j as int)
                && j < r.len(),
            None => chosen_pos(r@.map_values(|x: usize| x as int), keys, k@, 0) is None,
        },
{
    let ghost rv = r@.map_values(|x: usize| x as int);
    let mut j: usize = 0;
    while j < r.len()
        invariant
            j <= r.len(),
            keyv.len() == i,
            forall|q: int| 0 <= q < i ==> (#[trigger] keyv@[q])@ == keys[q],
            forall|q: int| 0 <= q < r.len() ==> r@[q] < i,
            rv == r@.map_values(|x: usize| x as int),
            chosen_pos(rv, keys, k@, 0) == chosen_pos(rv, keys, k@, j as int),
        decreases r.len() - j,
    {
        assert(rv[j as int] == r@[j as int] as int);
        if crate::text::eq_chars(&keyv[r[j]], k) {
            return Some(j);
        }
        j += 1;
    }
    None
}

/// The candidates kept after grouping, by index into `cands`.
pub fn select_candidates(cands: &Vec<HidCandidate>) -> (r: Vec<usize>)
    ensures
        r@.map_values(|i: usize| i as int) == chosen(
            cands@.map_values(|c: HidCandidate| candidate_key(c)),
            cands@.map_values(|c: HidCandidate| c.rank),
            cands.len() as int,
        ),
        forall|q: int| 0 <= q < r.len() ==> r@[q] < cands.len(),
{
    let ghost keys = cands@.map_values(|c: HidCandidate| candidate_key(c));
    let ghost ranks = cands@.map_values(|c: HidCandidate| c.rank);
    let mut keyv: Vec<Vec<char>> = Vec::new();
    let mut r: Vec<usize> = Vec::new();
    let mut i: usize = 0;
    while i < cands.len()
        invariant
            i <= cands.len(),
            keys == cands@.map_values(|c: HidCandidate| candidate_key(c)),
            ranks == cands@.map_values(|c: HidCandidate| c.rank),
            keyv.len() == i,
            forall|q: int| 0 <= q < i ==> (#[trigger] keyv@[q])@ == keys[q],
            r@.map_values(|x: usize| x as int) == chosen(keys, ranks, i as int),
            forall|q: int| 0 <= q < r.len() ==> r@[q] < i,
        decreases cands.len() - i,
    {
        let k = group_key(&cands[i]);
        let ghost rv = r@.map_values(|x: usize| x as int);
        let pos = find_chosen(&r, &keyv, &k, Ghost(keys), Ghost(i as int));
        proof {
            lemma_chosen_pos(rv, keys, keys[i as int], 0);
        }
        match pos {
            Some(j) => {
                if cands[r[j]].rank > cands[i].rank {
                    r.set(j, i);
                    assert(r@.map_values(|x: usize| x as int) =~= rv.update(j as int, i as int));
                }
            },
            None => {
                r.push(i);
                assert(r@.map_values(|x: usize| x as int) =~= rv.push(i as int));
            },
        }
        keyv.push(k);
        i += 1;
    }
    r
}

// ---------------------------------------------------------------------------
// Input nodes (Bluetooth / other stacks)
// ---------------------------------------------------------------------------

/// An input node name that identifies a Magic Trackpad.
pub open spec fn names_magic_trackpad(name: Seq<char>) -> bool {
    let l = lower(trim(name));
    contains(l, "magic trackpad"@) || contains(l, "apple inc. magic trackpad"@)
}

pub fn is_magic_trackpad_name(name: &str) -> (r: bool)
    ensures
        r == names_magic_trackpad(name@),
{
    let t = trim_str(name);
    let l = crate::text::to_lower(&t);
    contains_str(&l, "magic trackpad") || contains_str(&l, "apple inc. magic trackpad")
}

/// Whether an input node (resolved path) lies under a reported device's path,
/// or the reverse, or under its USB parent directory.
pub open spec fn covers(path: Option<Seq<char>>, parent: Option<Seq<char>>, resolved: Seq<char>) -> bool {
    (match path {
        Some(p) => contains(resolved, trim_end_char(p, '/')) || contains(p, resolved),
        None => false,
    }) || (match parent {
        Some(u) => contains(resolved, u),
        None => false,
    })
}

/// `parents[i]` is the USB parent directory of `devices[i]`'s path, if any.
pub fn input_node_covered(devices: &Vec<DeviceInfo>, parents: &Vec<Option<String>>, resolved: &str) -> (r: bool)
    requires
        parents.len() == devices.len(),
    ensures
        r == exists|i: int|
            0 <= i < devices.len() && covers(
                devices@[i]@.path,
                opt_str_view(parents@[i]),
                resolved@,
            ),
{
    let rv = chars_of(resolved);
    let mut i: usize = 0;
    while i < devices.len()
        invariant
            i <= devices.len(),
            parents.len() == devices.len(),
            rv@ == resolved@,
            forall|k: int|
                0 <= k < i ==> !covers(devices@[k]@.path, opt_str_view(parents@[k]), resolved@),
        decreases devices.len() - i,
    {
        let by_path = match &devices[i].path {
            Some(p) => {
                let pv = chars_of(p.as_str());
                let t = trim_end_char_exec(&pv, '/');
                crate::text::contains_chars(&rv, &t) || crate::text::contains_chars(&pv, &rv)
            },
            None => false,
        };
        let by_parent = match &parents[i] {
            Some(u) => contains_str(&rv, u.as_str()),
            None => false,
        };
        if by_path || by_parent {
            return true;
        }
        i += 1;
    }
    false
}

/// Whether a serial already shows in some device's id or notes.
pub open spec fn serial_listed(ds: Seq<DeviceView>, u: Seq<char>) -> bool {
    exists|i: int|
        0 <= i < ds.len() && (contains(ds[i].id, u) || exists|n: int|
            0 <= n < ds[i].notes.len() && contains(ds[i].notes[n], u))
}

pub fn uniq_listed(devices: &Vec<DeviceInfo>, u: &str) -> (r: bool)
    ensures
        r == serial_listed(crate::models::devices_view(devices@), u@),
{
    let ghost ds = crate::models::devices_view(devices@);
    let uv = chars_of(u);
    let mut i: usize = 0;
    while i < devices.len()
        invariant
            i <= devices.len(),
            uv@ == u@,
            ds == crate::models::devices_view(devices@),
            forall|k: int|
                0 <= k < i ==> !(contains(ds[k].id, u@) || exists|n: int|
                    0 <= n < ds[k].notes.len() && contains(ds[k].notes[n], u@)),
        decreases devices.len() - i,
    {
        let d = &devices[i];
        assert(ds[i as int] == d@);
        let id = chars_of(d.id.as_str());
        if crate::text::contains_chars(&id, &uv) {
            return true;
        }
        let mut n: usize = 0;
        while n < d.notes.len()
            invariant
                n <= d.notes.len(),
                uv@ == u@,
                i < ds.len(),
                ds == crate::models::devices_view(devices@),
                ds[i as int] == d@,
                forall|q: int| 0 <= q < n ==> !contains(ds[i as int].notes[q], u@),
            decreases d.notes.len() - n,
        {
            let nv = chars_of(d.notes[n].as_str());
            assert(nv@ == ds[i as int].notes[n as int]);
            if crate::text::contains_chars(&nv, &uv) {
                assert(exists|q: int|
                    0 <= q < ds[i as int].notes.len() && contains(ds[i as int].notes[q], u@));
                assert(serial_listed(ds, u@));
                return true;
            }
            n += 1;
        }
        i += 1;
    }
    false
}

/// The connection of an input node: Bluetooth when its name or path says so.
pub fn input_connection(name_lower: &str, resolved: &str) -> (r: ConnectionType)
    ensures
        r == if contains(name_lower@, "bluetooth"@) || contains(resolved@, "bluetooth"@) {
            ConnectionType::Bluetooth
        } else {
            ConnectionType::Unknown
        },
{
    let n = chars_of(name_lower);
    let p = chars_of(resolved);
    if contains_str(&n, "bluetooth") || contains_str(&p, "bluetooth") {
        ConnectionType::Bluetooth
    } else {
        ConnectionType::Unknown
    }
}

/// The device reported for an input node named `name` (`node` is its
/// directory name under /sys/class/input).
pub fn input_device(name: &str, uniq: &Option<String>, node: &str, class_path: &str, connection: ConnectionType) -> (d: DeviceInfo)
    ensures
        d@.id == "input:"@ + match opt_str_view(*uniq) {
            Some(u) => u,
            None => node@,
        },
        d@.name == trim(name@),
        d@.model == "Magic Trackpad"@,
        d@.vid == Some(APPLE_VID),
        d@.pid is None,
        d@.connection == connection,
        d@.connected,
        d@.battery is None,
        d@.driver_bound == Some(true),
        d@.path == Some(class_path@),
        d@.notes == match opt_str_view(*uniq) {
            Some(u) => seq!["Serial "@ + u],
            None => Seq::empty(),
        },
{
    let mut id = chars_of("input:");
    let mut notes: Vec<String> = Vec::new();
    match uniq {
        Some(u) => {
            append_str(&mut id, u.as_str());
            push_note(&mut notes, "Serial ", u.as_str());
        },
        None => append_str(&mut id, node),
    }
    let t = trim_str(name);
    let d = DeviceInfo {
        id: string_of(&id),
        name: string_of(&t),
        model: "Magic Trackpad".to_string(),
        vid: Some(APPLE_VID),
        pid: None,
        connection,
        connected: true,
        battery: None,
        driver_bound: Some(true),
        path: Some(class_path.to_string()),
        notes,
    };
    assert(d@.notes =~= match opt_str_view(*uniq) {
        Some(u) => seq!["Serial "@ + u],
        None => Seq::<Seq<char>>::empty(),
    });
    d
}

/// The final device list: collapsed into physical devices, ordered by id.
pub fn finish_devices(devices: Vec<DeviceInfo>) -> (r: Vec<DeviceInfo>)
    ensures
        crate::models::devices_view(r@) == crate::device_group::sort_by_id(
            crate::device_group::collapse(crate::models::devices_view(devices@)),
        ),
{
    let c = crate::device_group::collapse_physical_devices(devices);
    crate::device_group::sort_devices_by_id(c)
}

impl HidCandidate {
    /// A field-by-field copy.
    pub fn duplicate(&self) -> (r: HidCandidate)
        ensures
            r.path@ == self.path@,
            r.fname@ == self.fname@,
            r.vid == self.vid,
            r.pid == self.pid,
            opt_str_view(r.uniq) == opt_str_view(self.uniq),
            opt_str_view(r.phys) == opt_str_view(self.phys),
            opt_str_view(r.hid_name) == opt_str_view(self.hid_name),
            r.rank == self.rank,
            opt_str_view(r.usb_parent) == opt_str_view(self.usb_parent),
            candidate_device(r) == candidate_device(*self),
    {
        HidCandidate {
            path: self.path.clone(),
            fname: self.fname.clone(),
            vid: self.vid,
            pid: self.pid,
            uniq: crate::models::copy_opt_string(&self.uniq),
            phys: crate::models::copy_opt_string(&self.phys),
            hid_name: crate::models::copy_opt_string(&self.hid_name),
            rank: self.rank,
            usb_parent: crate::models::copy_opt_string(&self.usb_parent),
        }
    }
}

/// One node of the input class named like a trackpad candidate, as read.
pub struct InputNode {
    /// Text of its `name` file (or `device/name`), empty when unreadable.
    pub name: String,
    /// Its canonical path.
    pub resolved: String,
    /// `HID_UNIQ` of its device, when present.
    pub uniq: Option<String>,
    /// Its directory name.
    pub node: String,
    /// Its path under the input class.
    pub class_path: String,
    /// The USB device directory above its path, when there is one.
    pub usb_parent: Option<String>,
}

pub struct InputView {
    pub name: Seq<char>,
    pub resolved: Seq<char>,
    pub uniq: Option<Seq<char>>,
    pub node: Seq<char>,
    pub class_path: Seq<char>,
    pub usb_parent: Option<Seq<char>>,
}

impl View for InputNode {
    type V = InputView;

    open spec fn view(&self) -> InputView {
        InputView {
            name: self.name@,
            resolved: self.resolved@,
            uniq: opt_str_view(self.uniq),
            node: self.node@,
            class_path: self.class_path@,
            usb_parent: opt_str_view(self.usb_parent),
        }
    }
}

pub open spec fn nodes_view(s: Seq<InputNode>) -> Seq<InputView> {
    s.map_values(|n: InputNode| n@)
}

/// The device an input node stands for.
pub open spec fn node_device(n: InputView) -> DeviceView {
    DeviceView {
        id: "input:"@ + match n.uniq {
            Some(u) => u,
            None => n.node,
        },
        name: trim(n.name),
        model: "Magic Trackpad"@,
        vid: Some(APPLE_VID),
        pid: None,
        connection: if contains(lower(trim(n.name)), "bluetooth"@) || contains(
            n.resolved,
            "bluetooth"@,
        ) {
            ConnectionType::Bluetooth
        } else {
            ConnectionType::Unknown
        },
        connected: true,
        battery: None,
        driver_bound: Some(true),
        path: Some(n.class_path),
        notes: match n.uniq {
            Some(u) => seq!["Serial "@ + u],
            None => Seq::empty(),
        },
    }
}

/// Whether a node's path is covered by one of the devices listed so far
/// (`ps[i]` being the USB parent of `ds[i]`).
pub open spec fn node_covered(ds: Seq<DeviceView>, ps: Seq<Option<Seq<char>>>, resolved: Seq<char>) -> bool {
    exists|i: int| 0 <= i < ds.len() && covers(ds[i].path, ps[i], resolved)
}

/// An input node adds a device when it names a Magic Trackpad, is not
/// covered by a listed device, and its serial is not listed yet.
pub open spec fn node_kept(ds: Seq<DeviceView>, ps: Seq<Option<Seq<char>>>, n: InputView) -> bool {
    &&& names_magic_trackpad(n.name)
    &&& !node_covered(ds, ps, n.resolved)
    &&& !(match n.uniq {
        Some(u) => serial_listed(ds, u),
        None => false,
    })
}

/// The devices (and their USB parents) after the input nodes are considered in order.
pub open spec fn with_nodes(
    ds: Seq<DeviceView>,
    ps: Seq<Option<Seq<char>>>,
    ns: Seq<InputView>,
) -> (Seq<DeviceView>, Seq<Option<Seq<char>>>)
    decreases ns.len(),
{
    if ns.len() == 0 {
        (ds, ps)
    } else {
        let prev = with_nodes(ds, ps, ns.drop_last());
        if node_kept(prev.0, prev.1, ns.last()) {
            (prev.0.push(node_device(ns.last())), prev.1.push(ns.last().usb_parent))
        } else {
            prev
        }
    }
}

/// The devices with a battery filled in wherever none was known.
pub open spec fn with_batteries(ds: Seq<DeviceView>, es: Seq<SupplyView>) -> Seq<DeviceView> {
    ds.map_values(
        |d: DeviceView|
            if d.battery is None {
                DeviceView { battery: battery_for(es, battery_serial(d)), ..d }
            } else {
                d
            },
    )
}

pub open spec fn candidate_keys(cs: Seq<HidCandidate>) -> Seq<Seq<char>> {
    cs.map_values(|c: HidCandidate| candidate_key(c))
}

pub open spec fn candidate_ranks(cs: Seq<HidCandidate>) -> Seq<u32> {
    cs.map_values(|c: HidCandidate| c.rank)
}

/// The devices of the candidates kept, one per group.
pub open spec fn hid_devices(cs: Seq<HidCandidate>) -> Seq<DeviceView> {
    chosen(candidate_keys(cs), candidate_ranks(cs), cs.len() as int).map_values(
        |i: int| candidate_device(cs[i]),
    )
}

pub open spec fn hid_parents(cs: Seq<HidCandidate>) -> Seq<Option<Seq<char>>> {
    chosen(candidate_keys(cs), candidate_ranks(cs), cs.len() as int).map_values(
        |i: int| opt_str_view(cs[i].usb_parent),
    )
}

/// The device list: HID candidates grouped, input nodes added, batteries
/// filled in, then collapsed into physical devices ordered by id.
pub open spec fn listed_devices(cs: Seq<HidCandidate>, ns: Seq<InputView>, es: Seq<SupplyView>) -> Seq<
    DeviceView,
> {
    let found = with_nodes(hid_devices(cs), hid_parents(cs), ns).0;
    crate::device_group::sort_by_id(crate::device_group::collapse(with_batteries(found, es)))
}

/// The battery of one device from the power-supply entries.
pub fn battery_for_device(d: &DeviceInfo, supplies: &Vec<PowerSupplyEntry>) -> (r: Option<BatteryInfo>)
    ensures
        opt_battery_view(r) == battery_for(supplies_view(supplies@), battery_serial(d@)),
{
    let serial = battery_serial_hint(d);
    battery_from_supplies(supplies, &serial)
}

/// The battery of the device with id `device_id`, matched by the serial its id carries.
pub fn read_battery(device_id: &str, supplies: &Vec<PowerSupplyEntry>) -> (r: AppResult<
    Option<BatteryInfo>,
>)
    ensures
        r matches Ok(b) && opt_battery_view(b) == battery_for(
            supplies_view(supplies@),
            battery_serial(
                DeviceView {
                    id: device_id@,
                    name: Seq::empty(),
                    model: Seq::empty(),
                    vid: None,
                    pid: None,
                    connection: ConnectionType::Unknown,
                    connected: true,
                    battery: None,
                    driver_bound: None,
                    path: None,
                    notes: match serial_hint(device_id@) {
                        Some(s) => seq!["Serial "@ + s],
                        None => Seq::empty(),
                    },
                },
            ),
        ),
{
    let d = battery_probe_device(device_id);
    Ok(battery_for_device(&d, supplies))
}

/// The devices found: the kept HID candidates, then the input nodes not
/// already covered, each given its battery, collapsed and ordered by id.
pub fn enumerate_devices(
    cands: &Vec<HidCandidate>,
    nodes: &Vec<InputNode>,
    supplies: &Vec<PowerSupplyEntry>,
) -> (r: Vec<DeviceInfo>)
    ensures
        crate::models::devices_view(r@) == listed_devices(
            cands@,
            nodes_view(nodes@),
            supplies_view(supplies@),
        ),
{
    let ghost cs = cands@;
    let ghost ns = nodes_view(nodes@);
    let ghost es = supplies_view(supplies@);
    let picks = select_candidates(cands);
    let ghost pv = picks@.map_values(|i: usize| i as int);
    let mut devices: Vec<DeviceInfo> = Vec::new();
    let mut parents: Vec<Option<String>> = Vec::new();
    let mut k: usize = 0;
    while k < picks.len()
        invariant
            k <= picks.len(),
            cs == cands@,
            pv == picks@.map_values(|i: usize| i as int),
            pv == chosen(candidate_keys(cs), candidate_ranks(cs), cs.len() as int),
            forall|q: int| 0 <= q < picks.len() ==> picks@[q] < cands.len(),
            crate::models::devices_view(devices@) == hid_devices(cs).take(k as int),
            parents@.map_values(|p: Option<String>| opt_str_view(p)) == hid_parents(cs).take(
                k as int,
            ),
        decreases picks.len() - k,
    {
        let c = cands[picks[k]].duplicate();
        let parent = crate::models::copy_opt_string(&c.usb_parent);
        let ghost dv0 = crate::models::devices_view(devices@);
        let ghost pp0 = parents@.map_values(|p: Option<String>| opt_str_view(p));
        let d = candidate_to_device(c);
        devices.push(d);
        parents.push(parent);
        assert(crate::models::devices_view(devices@) =~= dv0.push(d@));
        assert(parents@.map_values(|p: Option<String>| opt_str_view(p)) =~= pp0.push(
            opt_str_view(parent),
        ));
        assert(hid_devices(cs).take(k + 1) =~= hid_devices(cs).take(k as int).push(
            candidate_device(cs[pv[k as int]]),
        ));
        assert(hid_parents(cs).take(k + 1) =~= hid_parents(cs).take(k as int).push(
            opt_str_view(cs[pv[k as int]].usb_parent),
        ));
        k += 1;
    }
    assert(hid_devices(cs).take(picks.len() as int) =~= hid_devices(cs));
    assert(hid_parents(cs).take(picks.len() as int) =~= hid_parents(cs));
    let mut j: usize = 0;
    while j < nodes.len()
        invariant
            j <= nodes.len(),
            ns == nodes_view(nodes@),
            devices.len() == parents.len(),
            (crate::models::devices_view(devices@), parents@.map_values(
                |p: Option<String>| opt_str_view(p),
            )) == with_nodes(hid_devices(cs), hid_parents(cs), ns.take(j as int)),
        decreases nodes.len() - j,
    {
        let n = &nodes[j];
        let ghost dv0 = crate::models::devices_view(devices@);
        let ghost pp0 = parents@.map_values(|p: Option<String>| opt_str_view(p));
        assert(ns.take(j + 1).drop_last() =~= ns.take(j as int));
        assert(ns.take(j + 1).last() == n@);
        if is_magic_trackpad_name(n.name.as_str()) {
            let covered = input_node_covered(&devices, &parents, n.resolved.as_str());
            proof {
                assert(covered == node_covered(dv0, pp0, n@.resolved)) by {
                    if covered {
                        let i = choose|i: int|
                            0 <= i < devices.len() && covers(
                                devices@[i]@.path,
                                opt_str_view(parents@[i]),
                                n@.resolved,
                            );
                        assert(dv0[i] == devices@[i]@);
                        assert(pp0[i] == opt_str_view(parents@[i]));
                    }
                    if node_covered(dv0, pp0, n@.resolved) {
                        let i = choose|i: int|
                            0 <= i < dv0.len() && covers(dv0[i].path, pp0[i], n@.resolved);
                        assert(dv0[i] == devices@[i]@);
                        assert(pp0[i] == opt_str_view(parents@[i]));
                    }
                }
            }
            if !covered {
                let listed = match &n.uniq {
                    Some(u) => uniq_listed(&devices, u.as_str()),
                    None => false,
                };
                if !listed {
                    let t = trim_str(n.name.as_str());
                    let tl = crate::text::to_lower(&t);
                    let conn = input_connection(&string_of(&tl), n.resolved.as_str());
                    let d = input_device(
                        n.name.as_str(),
                        &n.uniq,
                        n.node.as_str(),
                        n.class_path.as_str(),
                        conn,
                    );
                    let parent = crate::models::copy_opt_string(&n.usb_parent);
                    devices.push(d);
                    parents.push(parent);
                    assert(crate::models::devices_view(devices@) =~= dv0.push(node_device(n@)));
                    assert(parents@.map_values(|p: Option<String>| opt_str_view(p)) =~= pp0.push(
                        n@.usb_parent,
                    ));
                }
            }
        }
        j += 1;
    }
    assert(ns.take(nodes.len() as int) =~= ns);
    let ghost found = crate::models::devices_view(devices@);
    let mut with_bat: Vec<DeviceInfo> = Vec::new();
    let mut m: usize = 0;
    while m < devices.len()
        invariant
            m <= devices.len(),
            es == supplies_view(supplies@),
            found == crate::models::devices_view(devices@),
            crate::models::devices_view(with_bat@) == with_batteries(found, es).take(m as int),
        decreases devices.len() - m,
    {
        let mut d = devices[m].duplicate();
        if d.battery.is_none() {
            d.battery = battery_for_device(&devices[m], supplies);
        }
        let ghost w0 = crate::models::devices_view(with_bat@);
        with_bat.push(d);
        assert(crate::models::devices_view(with_bat@) =~= w0.push(d@));
        assert(with_batteries(found, es).take(m + 1) =~= with_batteries(found, es).take(
            m as int,
        ).push(d@));
        m += 1;
    }
    assert(with_batteries(found, es).take(devices.len() as int) =~= with_batteries(found, es));
    finish_devices(with_bat)
}

// ---------------------------------------------------------------------------
// Helper install (udev rule) and status
// ---------------------------------------------------------------------------

pub const UDEV_RULE_NAME: &'static str = "99-magic-trackpad.rules";

pub const UDEV_DEST: &'static str = "/etc/udev/rules.d/99-magic-trackpad.rules";

pub open spec fn helpers_detail(udev: bool, remapper: bool, kernel: bool) -> Seq<char> {
    "udev rule: "@ + (if udev {
        "installed"@
    } else {
        "not installed"@
    }) + " · "@ + "input-remapper: "@ + (if remapper {
        "present"@
    } else {
        "not found"@
    }) + " · "@ + "hid modules: "@ + (if kernel {
        "magicmouse/multitouch loaded"@
    } else {
        "check lsmod"@
    })
}

/// Status of the Linux helpers from what is installed and loaded.
pub fn helpers_status(udev_installed: bool, remapper: bool, kernel_mod: bool) -> (s: DriverStatus)
    ensures
        s@.state == if udev_installed {
            DriverState::Installed
        } else {
            DriverState::NotInstalled
        },
        s@.name == "MagicPad Linux helpers (udev + remapper)"@,
        s@.version == Some("0.3.1"@),
        s@.detail == helpers_detail(udev_installed, remapper, kernel_mod),
        s@.can_install,
        s@.can_uninstall == udev_installed,
        s@.recommended_source == Some("packaging/linux"@),
        s@.conflicts.len() == 0,
{
    let mut d = chars_of("udev rule: ");
    append_str(&mut d, if udev_installed { "installed" } else { "not installed" });
    append_str(&mut d, " · ");
    append_str(&mut d, "input-remapper: ");
    append_str(&mut d, if remapper { "present" } else { "not found" });
    append_str(&mut d, " · ");
    append_str(&mut d, "hid modules: ");
    append_str(&mut d, if kernel_mod { "magicmouse/multitouch loaded" } else { "check lsmod" });
    DriverStatus {
        state: if udev_installed {
            DriverState::Installed
        } else {
            DriverState::NotInstalled
        },
        name: "MagicPad Linux helpers (udev + remapper)".to_string(),
        version: Some("0.3.1".to_string()),
        detail: string_of(&d),
        can_install: true,
        can_uninstall: udev_installed,
        recommended_source: Some("packaging/linux".to_string()),
        conflicts: Vec::new(),
    }
}

fn action_result(success: bool, message: &str, log_lines: Vec<String>, needs_reboot: bool) -> (r: DriverActionResult)
    ensures
        r@.success == success,
        r@.message == message@,
        r@.log_lines == strings_view(log_lines@),
        r@.needs_reboot == needs_reboot,
{
    DriverActionResult { success, message: message.to_string(), log_lines, needs_reboot }
}

/// How a root step (installing or removing the udev rule) is carried out.
#[derive(Debug, Clone, Copy, PartialEq, Eq, Structural)]
pub enum RootRoute {
    /// Through `pkexec` (graphical elevation).
    Pkexec,
    /// Directly: the process runs as root.
    Direct,
    /// Neither is available: the user finishes by hand.
    Manual,
}

/// `pkexec` is preferred when present, then running as root.
pub fn root_route(has_pkexec: bool, is_root: bool) -> (r: RootRoute)
    ensures
        r == if has_pkexec {
            RootRoute::Pkexec
        } else if is_root {
            RootRoute::Direct
        } else {
            RootRoute::Manual
        },
{
    if has_pkexec {
        RootRoute::Pkexec
    } else if is_root {
        RootRoute::Direct
    } else {
        RootRoute::Manual
    }
}

/// The rule file is not in the bundle.
pub fn missing_rule_result(log_lines: Vec<String>) -> (r: DriverActionResult)
    ensures
        !r@.success,
        r@.message == "udev rule source missing from bundle."@,
        r@.log_lines == strings_view(log_lines@).push(
            "Could not find 99-magic-trackpad.rules in package resources."@,
        ),
        !r@.needs_reboot,
{
    let mut l = log_lines;
    let ghost before = strings_view(l@);
    l.push("Could not find 99-magic-trackpad.rules in package resources.".to_string());
    assert(strings_view(l@) =~= before.push(
        "Could not find 99-magic-trackpad.rules in package resources."@,
    ));
    action_result(false, "udev rule source missing from bundle.", l, false)
}

/// The shell script run under `pkexec` to install the rule from `src`.
pub fn install_script(src: &str) -> (r: String)
    ensures
        r@ == "install -m 644 '"@ + src@ + "' '"@ + UDEV_DEST@
            + "' && udevadm control --reload-rules && udevadm trigger"@,
{
    let mut v = chars_of("install -m 644 '");
    append_str(&mut v, src);
    append_str(&mut v, "' '");
    append_str(&mut v, UDEV_DEST);
    append_str(&mut v, "' && udevadm control --reload-rules && udevadm trigger");
    string_of(&v)
}

/// The shell script run under `pkexec` to remove the rule.
pub fn uninstall_script() -> (r: String)
    ensures
        r@ == "rm -f '"@ + UDEV_DEST@ + "' && udevadm control --reload-rules && udevadm trigger"@,
{
    let mut v = chars_of("rm -f '");
    append_str(&mut v, UDEV_DEST);
    append_str(&mut v, "' && udevadm control --reload-rules && udevadm trigger");
    string_of(&v)
}

/// Without root, the rule copied to `dest` and the command to finish by hand.
pub fn staged_rule_result(log_lines: Vec<String>, dest: Option<&str>) -> (r: DriverActionResult)
    ensures
        !r@.success,
        r@.message == "Root privileges required for udev install. Rule staged for manual sudo."@,
        r@.log_lines == match dest {
            Some(d) => strings_view(log_lines@).push(
                "Copied rule to "@ + d@ + " (needs root to install system-wide)."@,
            ).push(
                "Run: sudo install -m 644 "@ + d@ + " "@ + UDEV_DEST@
                    + " && sudo udevadm control --reload-rules && sudo udevadm trigger"@,
            ),
            None => strings_view(log_lines@),
        },
        !r@.needs_reboot,
{
    let mut l = log_lines;
    match dest {
        Some(d) => {
            let mut copied = chars_of("Copied rule to ");
            append_str(&mut copied, d);
            append_str(&mut copied, " (needs root to install system-wide).");
            let ghost b1 = l@;
            l.push(string_of(&copied));
            assert(strings_view(l@) =~= strings_view(b1).push(copied@));
            let mut run = chars_of("Run: sudo install -m 644 ");
            append_str(&mut run, d);
            append_str(&mut run, " ");
            append_str(&mut run, UDEV_DEST);
            append_str(&mut run, " && sudo udevadm control --reload-rules && sudo udevadm trigger");
            let ghost b2 = l@;
            l.push(string_of(&run));
            assert(strings_view(l@) =~= strings_view(b2).push(run@));
        },
        None => {},
    }
    action_result(
        false,
        "Root privileges required for udev install. Rule staged for manual sudo.",
        l,
        false,
    )
}

/// After the rule install ran: success or failure, with the log so far.
pub fn install_result(ok: bool, log_lines: Vec<String>) -> (r: DriverActionResult)
    ensures
        r@.success == ok,
        r@.message == if ok {
            "Linux helpers installed. Replug the trackpad to apply udev rules."@
        } else {
            "Helper install did not complete successfully."@
        },
        r@.log_lines == strings_view(log_lines@),
        !r@.needs_reboot,
{
    if ok {
        action_result(true, "Linux helpers installed. Replug the trackpad to apply udev rules.", log_lines, false)
    } else {
        action_result(false, "Helper install did not complete successfully.", log_lines, false)
    }
}

/// Uninstall when no system rule is installed.
pub fn no_rule_installed_result() -> (r: DriverActionResult)
    ensures
        r@.success,
        r@.message == "No system udev rule installed."@,
        r@.log_lines.len() == 0,
        !r@.needs_reboot,
{
    action_result(true, "No system udev rule installed.", Vec::new(), false)
}

/// Uninstall without `pkexec` or root.
pub fn uninstall_needs_root_result() -> (r: DriverActionResult)
    ensures
        !r@.success,
        r@.message == "Root required to remove system udev rule."@,
        r@.log_lines == seq!["sudo rm "@ + UDEV_DEST@],
        !r@.needs_reboot,
{
    let mut l: Vec<String> = Vec::new();
    push_note(&mut l, "sudo rm ", UDEV_DEST);
    assert(strings_view(l@) =~= seq!["sudo rm "@ + UDEV_DEST@]);
    action_result(false, "Root required to remove system udev rule.", l, false)
}

/// After removing the rule.
pub fn uninstall_result(ok: bool) -> (r: DriverActionResult)
    ensures
        r@.success == ok,
        r@.message == if ok {
            "udev rule removed."@
        } else {
            "Failed to remove udev rule."@
        },
        r@.log_lines.len() == 0,
        !r@.needs_reboot,
{
    action_result(ok, if ok { "udev rule removed." } else { "Failed to remove udev rule." }, Vec::new(), false)
}

/// Whether `/proc/modules` text lists a module whose line starts with `name`.
pub fn module_listed(modules: &str, name: &str) -> (r: bool)
    ensures
        r == exists|i: int| 0 <= i < lines(modules@).len() && starts_with(lines(modules@)[i], name@),
{
    let ls = lines_of(modules);
    let ghost lv = ls@.map_values(|v: Vec<char>| v@);
    let mut i: usize = 0;
    while i < ls.len()
        invariant
            i <= ls.len(),
            lv == ls@.map_values(|v: Vec<char>| v@),
            lv == lines(modules@),
            forall|k: int| 0 <= k < i ==> !starts_with(lv[k], name@),
        decreases ls.len() - i,
    {
        assert(lv[i as int] == ls@[i as int]@);
        if starts_with_str(&ls[i], name) {
            return true;
        }
        i += 1;
    }
    false
}

// ---------------------------------------------------------------------------
// os-release and platform
// ---------------------------------------------------------------------------

/// The value of the first `KEY=` line of os-release text, quotes trimmed.
pub open spec fn os_release_from(ls: Seq<Seq<char>>, prefix: Seq<char>, i: int) -> Option<Seq<char>>
    decreases ls.len() - i,
{
    if i < 0 || i >= ls.len() {
        None
    } else {
        match strip_prefix(ls[i], prefix) {
            Some(v) => Some(trim_char(v, '"')),
            None => os_release_from(ls, prefix, i + 1),
        }
    }
}

pub fn os_release_value(text: &str, prefix: &str) -> (r: Option<String>)
    ensures
        opt_str_view(r) == os_release_from(lines(text@), prefix@, 0),
{
    let ls = lines_of(text);
    let ghost lv = ls@.map_values(|v: Vec<char>| v@);
    let mut i: usize = 0;
    while i < ls.len()
        invariant
            i <= ls.len(),
            lv == ls@.map_values(|v: Vec<char>| v@),
            lv == lines(text@),
            os_release_from(lv, prefix@, 0) == os_release_from(lv, prefix@, i as int),
        decreases ls.len() - i,
    {
        assert(lv[i as int] == ls@[i as int]@);
        match strip_prefix_chars(&ls[i], prefix) {
            Some(v) => {
                return Some(string_of(&trim_char_exec(&v, '"')));
            },
            None => {},
        }
        i += 1;
    }
    None
}

/// Linux backend: configuration lives under `config_dir`.
pub struct LinuxBackend {
    pub config_dir: String,
}

impl LinuxBackend {
    /// `desktop` is `XDG_CURRENT_DESKTOP` (else `DESKTOP_SESSION`),
    /// `os_release` the text of /etc/os-release when readable, `arch` the
    /// build target's architecture.
    pub fn platform_info(&self, desktop: Option<String>, os_release: Option<String>, arch: &str) -> (p: PlatformInfo)
        ensures
            p@.kind == PlatformKind::Linux,
            p@.os_name == match opt_str_view(os_release) {
                Some(t) => match os_release_from(lines(t), "PRETTY_NAME="@, 0) {
                    Some(n) => n,
                    None => "Linux"@,
                },
                None => "Linux"@,
            },
            p@.os_version == match opt_str_view(os_release) {
                Some(t) => os_release_from(lines(t), "VERSION_ID="@, 0),
                None => None,
            },
            p@.arch == arch@,
            p@.desktop == opt_str_view(desktop),
            p@.capabilities == seq![
                "device_detect"@,
                "battery"@,
                "libinput_settings"@,
                "udev_helpers"@,
                "input_remapper"@,
            ],
    {
        let (os_name, os_version) = match &os_release {
            Some(t) => {
                let n = match os_release_value(t.as_str(), "PRETTY_NAME=") {
                    Some(n) => n,
                    None => "Linux".to_string(),
                };
                (n, os_release_value(t.as_str(), "VERSION_ID="))
            },
            None => ("Linux".to_string(), None),
        };
        let mut caps: Vec<&'static str> = Vec::new();
        caps.push("device_detect");
        caps.push("battery");
        caps.push("libinput_settings");
        caps.push("udev_helpers");
        caps.push("input_remapper");
        let c = crate::platform::capabilities(&caps);
        assert(caps@.map_values(|s: &'static str| s@) =~= seq![
            "device_detect"@,
            "battery"@,
            "libinput_settings"@,
            "udev_helpers"@,
            "input_remapper"@,
        ]);
        PlatformInfo {
            kind: PlatformKind::Linux,
            os_name,
            os_version,
            arch: arch.to_string(),
            desktop,
            capabilities: c,
        }
    }
}

/// What applying gestures reports once the map is saved: the daemon's start
/// message, or its failure wrapped in a message error.
pub fn gestures_apply_outcome(daemon: Result<String, String>) -> (r: AppResult<String>)
    ensures
        match daemon {
            Ok(m) => r matches Ok(x) && x@ == m@,
            Err(e) => r matches Err(AppError::Message(x)) && x@
                == "Gestures saved, but daemon not started: "@ + e@,
        },
{
    match daemon {
        Ok(m) => Ok(m),
        Err(e) => {
            let mut v = chars_of("Gestures saved, but daemon not started: ");
            append_str(&mut v, e.as_str());
            Err(AppError::msg(string_of(&v)))
        },
    }
}

} // verus!
