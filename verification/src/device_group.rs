//! Collapse multi-interface HID/USB nodes into one logical Magic Trackpad.
//!
//! A single physical trackpad appears as many Windows SetupAPI / Linux HID
//! nodes (mouse boot protocol, multitouch, vendor, USB MI_*, composite parent).
use vstd::prelude::*;

use crate::models::{ConnectionType, DeviceInfo, DeviceView};
use crate::text::{
    append_chars, append_str, char_is_alnum, char_is_alpha, char_is_hex, chars_of, concat2,
    contains, find, find_chars, has_char, has_char_exec, hex4, hex4_chars, is_alnum, is_alpha,
    is_hex, lower, starts_with, starts_with_str, subrange_chars, to_upper, trim, trim_chars, upper,
    utf8_len, utf8_len_at_least, eq_str,
};

verus! {

// ---------------------------------------------------------------------------
// Physical identity of one node
// ---------------------------------------------------------------------------

/// The device path, or its id when it has no path.
pub open spec fn path_or_id(d: DeviceView) -> Seq<char> {
    match d.path {
        Some(p) => p,
        None => d.id,
    }
}

pub open spec fn is_sep(c: char) -> bool {
    c == '\\' || c == '/'
}

/// Index of the first path separator at or after `i` (the length when none).
pub open spec fn next_sep(u: Seq<char>, i: int) -> int
    decreases u.len() - i,
{
    if i >= u.len() {
        u.len() as int
    } else if is_sep(u[i]) {
        i
    } else {
        next_sep(u, i + 1)
    }
}

pub proof fn lemma_next_sep(u: Seq<char>, i: int)
    requires
        0 <= i <= u.len(),
    ensures
        i <= next_sep(u, i) <= u.len(),
        forall|k: int| i <= k < next_sep(u, i) ==> !is_sep(u[k]),
        next_sep(u, i) < u.len() ==> is_sep(u[next_sep(u, i)]),
    decreases u.len() - i,
{
    if i < u.len() && !is_sep(u[i]) {
        lemma_next_sep(u, i + 1);
    }
}

/// Path segments that are bus / interface tokens, never a serial number.
pub open spec fn is_bus_token(p: Seq<char>) -> bool {
    starts_with(p, "VID_"@) || starts_with(p, "PID_"@) || starts_with(p, "MI_"@) || starts_with(
        p,
        "COL"@,
    ) || p == "HID"@ || p == "USB"@ || p == "USBPRINT"@ || p == "BTHENUM"@ || p == "SWD"@
        || starts_with(p, "BTH"@)
}

pub open spec fn is_serial_char(c: char) -> bool {
    is_alnum(c) || c == '-' || c == '_'
}

/// A trimmed path segment accepted as a serial number: not empty, not a bus
/// token, no `&`, at least 8 bytes, only `[A-Za-z0-9_-]`, and some letter.
pub open spec fn serial_like(p: Seq<char>) -> bool {
    &&& p.len() > 0
    &&& !is_bus_token(p)
    &&& !has_char(p, '&')
    &&& utf8_len(p) >= 8
    &&& forall|i: int| 0 <= i < p.len() ==> is_serial_char(p[i])
    &&& exists|i: int| 0 <= i < p.len() && is_alpha(p[i])
}

/// The first segment (split on `\` and `/`, from `start` on) that looks like a serial.
pub open spec fn serial_from(u: Seq<char>, start: int) -> Option<Seq<char>>
    decreases u.len() + 1 - start,
{
    if start < 0 || start > u.len() {
        None
    } else {
        let end = next_sep(u, start);
        let part = trim(u.subrange(start, end));
        if serial_like(part) {
            Some(part)
        } else if end >= u.len() {
            None
        } else {
            proof {
                lemma_next_sep(u, start);
            }
            serial_from(u, end + 1)
        }
    }
}

/// `USB\VID_05AC&PID_0324\J84HRT00JQC0000509` → serial.
pub open spec fn path_serial(upper_path: Seq<char>) -> Option<Seq<char>> {
    serial_from(upper_path, 0)
}

/// The first note of the form `Serial <s>` with a non-empty trimmed `<s>`,
/// upper-cased.
pub open spec fn notes_serial(notes: Seq<Seq<char>>, i: int) -> Option<Seq<char>>
    decreases notes.len() - i,
{
    if i < 0 || i >= notes.len() {
        None
    } else if starts_with(notes[i], "Serial "@) && trim(notes[i].skip("Serial "@.len() as int)).len()
        > 0 {
        Some(upper(trim(notes[i].skip("Serial "@.len() as int))))
    } else {
        notes_serial(notes, i + 1)
    }
}

/// The serial of a node: from its (upper-cased) path or id, else from its notes.
pub open spec fn device_serial(d: DeviceView) -> Option<Seq<char>> {
    match path_serial(upper(path_or_id(d))) {
        Some(s) => Some(s),
        None => notes_serial(d.notes, 0),
    }
}

pub open spec fn all_hex(s: Seq<char>) -> bool {
    forall|i: int| 0 <= i < s.len() ==> is_hex(s[i])
}

/// Normalize `HID\VID_05AC&PID_0324&MI_01&COL01\…` → `VID_05AC&PID_0324`.
pub open spec fn windows_base(u: Seq<char>) -> Option<Seq<char>> {
    match find(u, "VID_"@) {
        None => None,
        Some(a) => {
            let t = u.skip(a);
            if t.len() >= 17 && all_hex(t.subrange(4, 8)) && t.subrange(8, 13) == "&PID_"@
                && all_hex(t.subrange(13, 17)) {
                Some("VID_"@ + upper(t.subrange(4, 8)) + "&PID_"@ + upper(t.subrange(13, 17)))
            } else {
                None
            }
        },
    }
}

pub open spec fn bucket(c: ConnectionType) -> Seq<char> {
    match c {
        ConnectionType::Bluetooth => "bt"@,
        ConnectionType::UsbC | ConnectionType::Usb => "usb"@,
        ConnectionType::Unknown => "unk"@,
    }
}

pub open spec fn opt_or_zero(o: Option<u16>) -> u16 {
    match o {
        Some(v) => v,
        None => 0,
    }
}

pub open spec fn vid_pid_tag(vid: u16, pid: u16) -> Seq<char> {
    hex4(vid) + ":"@ + hex4(pid) + ":"@
}

/// The stable physical grouping key of one node: an already-collapsed
/// `apple-trackpad:` id, else the serial, else the Windows VID/PID base with
/// the bus, else VID/PID with the bus.
pub open spec fn group_key(d: DeviceView) -> Seq<char> {
    let prefix = "apple-trackpad:"@;
    let vid = opt_or_zero(d.vid);
    let pid = opt_or_zero(d.pid);
    if starts_with(d.id, prefix) {
        let rest = d.id.skip(prefix.len() as int);
        if !has_char(rest, '/') && utf8_len(rest) >= 6 {
            "linux:"@ + rest
        } else {
            "linux:"@ + d.id
        }
    } else {
        match device_serial(d) {
            Some(s) => "serial:"@ + vid_pid_tag(vid, pid) + s,
            None => match windows_base(upper(path_or_id(d))) {
                Some(b) => "iface:"@ + b + ":"@ + bucket(d.connection),
                None => "vidpid:"@ + vid_pid_tag(vid, pid) + bucket(d.connection),
            },
        }
    }
}

// ---------------------------------------------------------------------------
// Executable identity helpers
// ---------------------------------------------------------------------------

fn path_or_id_chars(d: &DeviceInfo) -> (r: Vec<char>)
    ensures
        r@ == path_or_id(d@),
{
    match &d.path {
        Some(p) => chars_of(p.as_str()),
        None => chars_of(d.id.as_str()),
    }
}

fn is_bus_token_exec(p: &Vec<char>) -> (r: bool)
    ensures
        r == is_bus_token(p@),
{
    starts_with_str(p, "VID_") || starts_with_str(p, "PID_") || starts_with_str(p, "MI_")
        || starts_with_str(p, "COL") || eq_str(p, "HID") || eq_str(p, "USB") || eq_str(
        p,
        "USBPRINT",
    ) || eq_str(p, "BTHENUM") || eq_str(p, "SWD") || starts_with_str(p, "BTH")
}

fn serial_like_exec(p: &Vec<char>) -> (r: bool)
    ensures
        r == serial_like(p@),
{
    if p.len() == 0 || is_bus_token_exec(p) || has_char_exec(p, '&') || !utf8_len_at_least(p, 8) {
        return false;
    }
    let mut i: usize = 0;
    let mut any_alpha = false;
    while i < p.len()
        invariant
            i <= p.len(),
            forall|k: int| 0 <= k < i ==> is_serial_char(p@[k]),
            any_alpha == exists|k: int| 0 <= k < i && is_alpha(p@[k]),
        decreases p.len() - i,
    {
        let c = p[i];
        if !(char_is_alnum(c) || c == '-' || c == '_') {
            return false;
        }
        if char_is_alpha(c) {
            any_alpha = true;
        }
        i += 1;
    }
    any_alpha
}

/// First serial-looking segment of an upper-cased path.
fn extract_serial(upper_path: &Vec<char>) -> (r: Option<Vec<char>>)
    ensures
        match r {
            Some(s) => path_serial(upper_path@) == Some(s@),
            None => path_serial(upper_path@) is None,
        },
{
    let ghost u = upper_path@;
    let mut start: usize = 0;
    loop
        invariant
            start <= upper_path.len(),
            u == upper_path@,
            path_serial(u) == serial_from(u, start as int),
        decreases upper_path.len() + 1 - start,
    {
        let mut end: usize = start;
        while end < upper_path.len() && !(upper_path[end] == '\\' || upper_path[end] == '/')
            invariant
                start <= end <= upper_path.len(),
                u == upper_path@,
                forall|k: int| start <= k < end ==> !is_sep(u[k]),
            decreases upper_path.len() - end,
        {
            end += 1;
        }
        proof {
            lemma_next_sep_is(u, start as int, end as int);
        }
        let seg = subrange_chars(upper_path, start, end);
        let part = trim_chars(&seg);
        if serial_like_exec(&part) {
            return Some(part);
        }
        if end >= upper_path.len() {
            return None;
        }
        start = end + 1;
    }
}

proof fn lemma_next_sep_is(u: Seq<char>, i: int, j: int)
    requires
        0 <= i <= j <= u.len(),
        forall|k: int| i <= k < j ==> !is_sep(u[k]),
        j < u.len() ==> is_sep(u[j]),
    ensures
        next_sep(u, i) == j,
    decreases j - i,
{
    if i < j {
        lemma_next_sep_is(u, i + 1, j);
    }
}

fn extract_serial_from_notes(d: &DeviceInfo) -> (r: Option<Vec<char>>)
    ensures
        match r {
            Some(s) => notes_serial(d@.notes, 0) == Some(s@),
            None => notes_serial(d@.notes, 0) is None,
        },
{
    let prefix = chars_of("Serial ");
    let mut i: usize = 0;
    while i < d.notes.len()
        invariant
            i <= d.notes.len(),
            prefix@ == "Serial "@,
            notes_serial(d@.notes, 0) == notes_serial(d@.notes, i as int),
        decreases d.notes.len() - i,
    {
        let n = chars_of(d.notes[i].as_str());
        assert(n@ == d@.notes[i as int]);
        if starts_with_str(&n, "Serial ") {
            let rest = subrange_chars(&n, prefix.len(), n.len());
            assert(rest@ == n@.skip(prefix@.len() as int));
            let s = trim_chars(&rest);
            if s.len() > 0 {
                return Some(to_upper(&s));
            }
        }
        i += 1;
    }
    None
}

fn device_serial_exec(d: &DeviceInfo) -> (r: Option<Vec<char>>)
    ensures
        match r {
            Some(s) => device_serial(d@) == Some(s@),
            None => device_serial(d@) is None,
        },
{
    let p = path_or_id_chars(d);
    let u = to_upper(&p);
    match extract_serial(&u) {
        Some(s) => Some(s),
        None => extract_serial_from_notes(d),
    }
}

fn all_hex_range(s: &Vec<char>, from: usize, to: usize) -> (r: bool)
    requires
        from <= to <= s.len(),
    ensures
        r == all_hex(s@.subrange(from as int, to as int)),
{
    let mut i = from;
    while i < to
        invariant
            from <= i <= to <= s.len(),
            forall|k: int| from <= k < i ==> is_hex(s@[k]),
        decreases to - i,
    {
        if !char_is_hex(s[i]) {
            assert(!is_hex(s@.subrange(from as int, to as int)[i - from]));
            return false;
        }
        i += 1;
    }
    true
}

/// Normalize `HID\VID_05AC&PID_0324&MI_01&COL01\…` → `VID_05AC&PID_0324`.
fn windows_vid_pid_base(upper: &Vec<char>) -> (r: Option<Vec<char>>)
    ensures
        match r {
            Some(b) => windows_base(upper@) == Some(b@),
            None => windows_base(upper@) is None,
        },
{
    let key = chars_of("VID_");
    let vid_at = match find_chars(upper, &key) {
        Some(a) => a,
        None => {
            return None;
        },
    };
    let t = subrange_chars(upper, vid_at, upper.len());
    assert(t@ == upper@.skip(vid_at as int));
    if t.len() < 17 {
        return None;
    }
    if !all_hex_range(&t, 4, 8) {
        return None;
    }
    let mid = subrange_chars(&t, 8, 13);
    if !eq_str(&mid, "&PID_") {
        return None;
    }
    if !all_hex_range(&t, 13, 17) {
        return None;
    }
    let v = subrange_chars(&t, 4, 8);
    let p = subrange_chars(&t, 13, 17);
    let mut out = chars_of("VID_");
    append_chars(&mut out, &to_upper(&v));
    append_str(&mut out, "&PID_");
    append_chars(&mut out, &to_upper(&p));
    Some(out)
}

fn connection_bucket(c: ConnectionType) -> (r: &'static str)
    ensures
        r@ == bucket(c),
{
    match c {
        ConnectionType::Bluetooth => "bt",
        ConnectionType::UsbC | ConnectionType::Usb => "usb",
        ConnectionType::Unknown => "unk",
    }
}

fn vid_pid_tag_chars(vid: u16, pid: u16) -> (r: Vec<char>)
    ensures
        r@ == vid_pid_tag(vid, pid),
{
    let mut r = hex4_chars(vid);
    append_str(&mut r, ":");
    append_chars(&mut r, &hex4_chars(pid));
    append_str(&mut r, ":");
    r
}

fn physical_group_key(d: &DeviceInfo) -> (k: Vec<char>)
    ensures
        k@ == group_key(d@),
{
    let id = chars_of(d.id.as_str());
    let prefix = chars_of("apple-trackpad:");
    let vid = match d.vid {
        Some(v) => v,
        None => 0,
    };
    let pid = match d.pid {
        Some(v) => v,
        None => 0,
    };
    if starts_with_str(&id, "apple-trackpad:") {
        let rest = subrange_chars(&id, prefix.len(), id.len());
        assert(rest@ == d@.id.skip("apple-trackpad:"@.len() as int));
        if !has_char_exec(&rest, '/') && utf8_len_at_least(&rest, 6) {
            return concat2("linux:", &rest);
        }
        return concat2("linux:", &id);
    }
    match device_serial_exec(d) {
        Some(s) => {
            let mut k = concat2("serial:", &vid_pid_tag_chars(vid, pid));
            append_chars(&mut k, &s);
            k
        },
        None => {
            let p = path_or_id_chars(d);
            let u = to_upper(&p);
            match windows_vid_pid_base(&u) {
                Some(b) => {
                    let mut k = concat2("iface:", &b);
                    append_str(&mut k, ":");
                    append_str(&mut k, connection_bucket(d.connection));
                    k
                },
                None => {
                    let mut k = concat2("vidpid:", &vid_pid_tag_chars(vid, pid));
                    append_str(&mut k, connection_bucket(d.connection));
                    k
                },
            }
        },
    }
}


// ---------------------------------------------------------------------------
// Choosing the representative node
// ---------------------------------------------------------------------------

pub open spec fn flag(b: bool, w: int) -> int {
    if b {
        w
    } else {
        0
    }
}

/// Higher score = better representative for the physical device.
pub open spec fn interface_score(d: DeviceView) -> int {
    let name = lower(d.name);
    let path = upper(path_or_id(d));
    flag(contains(name, "precision touchpad"@), 200) + flag(contains(name, "magic trackpad"@), 150)
        + flag(contains(name, "touchpad"@) || contains(name, "trackpad"@), 80) + flag(
        contains(name, "mouse"@),
        20,
    ) - flag(contains(name, "vendor-defined"@), 10) + flag(d.driver_bound == Some(true), 100)
        + flag(d.battery is Some, 40) + flag(
        contains(path, "USB\\VID_"@) && !contains(path, "&MI_"@),
        90,
    ) - flag(contains(path, "&COL"@), 30) - flag(contains(path, "&MI_"@), 15) - flag(
        starts_with(path, "HID\\"@),
        5,
    )
}

fn interface_score_exec(d: &DeviceInfo) -> (s: i32)
    ensures
        s == interface_score(d@),
{
    let name = crate::text::lower_of(d.name.as_str());
    let p = path_or_id_chars(d);
    let path = to_upper(&p);
    let mut s: i32 = 0;
    if crate::text::contains_str(&name, "precision touchpad") {
        s += 200;
    }
    if crate::text::contains_str(&name, "magic trackpad") {
        s += 150;
    }
    if crate::text::contains_str(&name, "touchpad") || crate::text::contains_str(&name, "trackpad") {
        s += 80;
    }
    if crate::text::contains_str(&name, "mouse") {
        s += 20;
    }
    if crate::text::contains_str(&name, "vendor-defined") {
        s -= 10;
    }
    if d.driver_bound == Some(true) {
        s += 100;
    }
    if d.battery.is_some() {
        s += 40;
    }
    if crate::text::contains_str(&path, "USB\\VID_") && !crate::text::contains_str(&path, "&MI_") {
        s += 90;
    }
    if crate::text::contains_str(&path, "&COL") {
        s -= 30;
    }
    if crate::text::contains_str(&path, "&MI_") {
        s -= 15;
    }
    if starts_with_str(&path, "HID\\") {
        s -= 5;
    }
    s
}

/// Position at which a node of score `v` goes in a list sorted by
/// descending score: after every node scoring at least `v`.
pub open spec fn score_pos(s: Seq<DeviceView>, v: int, i: int) -> int
    decreases s.len() - i,
{
    if i >= s.len() || interface_score(s[i]) < v {
        i
    } else {
        score_pos(s, v, i + 1)
    }
}

pub proof fn lemma_score_pos(s: Seq<DeviceView>, v: int, i: int)
    requires
        0 <= i <= s.len(),
    ensures
        i <= score_pos(s, v, i) <= s.len(),
    decreases s.len() - i,
{
    if i < s.len() && interface_score(s[i]) >= v {
        lemma_score_pos(s, v, i + 1);
    }
}

/// Stable sort by descending interface score (insertion order).
pub open spec fn sort_by_score(s: Seq<DeviceView>) -> Seq<DeviceView>
    decreases s.len(),
{
    if s.len() == 0 {
        s
    } else {
        let r = sort_by_score(s.drop_last());
        r.insert(score_pos(r, interface_score(s.last()), 0), s.last())
    }
}

pub proof fn lemma_sort_by_score_len(s: Seq<DeviceView>)
    ensures
        sort_by_score(s).len() == s.len(),
    decreases s.len(),
{
    if s.len() > 0 {
        lemma_sort_by_score_len(s.drop_last());
        let r = sort_by_score(s.drop_last());
        lemma_score_pos(r, interface_score(s.last()), 0);
    }
}

/// Sorts the members by descending interface score, keeping equal scores in order.
fn sort_members(members: Vec<DeviceInfo>) -> (r: Vec<DeviceInfo>)
    ensures
        crate::models::devices_view(r@) == sort_by_score(crate::models::devices_view(members@)),
{
    let ghost ms = crate::models::devices_view(members@);
    let mut sorted: Vec<DeviceInfo> = Vec::new();
    let mut scores: Vec<i32> = Vec::new();
    let mut i: usize = 0;
    while i < members.len()
        invariant
            i <= members.len(),
            ms == crate::models::devices_view(members@),
            crate::models::devices_view(sorted@) == sort_by_score(ms.take(i as int)),
            scores.len() == sorted.len(),
            forall|k: int| 0 <= k < scores.len() ==> scores@[k] == interface_score(#[trigger] sorted@[k]@),
        decreases members.len() - i,
    {
        let d = members[i].duplicate();
        let sc = interface_score_exec(&d);
        let ghost sv = crate::models::devices_view(sorted@);
        let mut j: usize = 0;
        while j < sorted.len() && scores[j] >= sc
            invariant
                j <= sorted.len(),
                scores.len() == sorted.len(),
                sv == crate::models::devices_view(sorted@),
                forall|k: int| 0 <= k < scores.len() ==> scores@[k] == interface_score(#[trigger] sorted@[k]@),
                score_pos(sv, sc as int, 0) == score_pos(sv, sc as int, j as int),
            decreases sorted.len() - j,
        {
            j += 1;
        }
        assert(ms.take(i + 1).drop_last() =~= ms.take(i as int));
        assert(ms.take(i + 1).last() == d@);
        sorted.insert(j, d);
        scores.insert(j, sc);
        assert(crate::models::devices_view(sorted@) =~= sv.insert(j as int, d@));
        i += 1;
    }
    assert(ms.take(members.len() as int) =~= ms);
    sorted
}


// ---------------------------------------------------------------------------
// Merging one group into a single device
// ---------------------------------------------------------------------------

pub open spec fn first_battery(ms: Seq<DeviceView>, i: int) -> Option<crate::models::BatteryView>
    decreases ms.len() - i,
{
    if i < 0 || i >= ms.len() {
        None
    } else if ms[i].battery is Some {
        ms[i].battery
    } else {
        first_battery(ms, i + 1)
    }
}

pub open spec fn first_known_connection(ms: Seq<DeviceView>, i: int) -> Option<ConnectionType>
    decreases ms.len() - i,
{
    if i < 0 || i >= ms.len() {
        None
    } else if ms[i].connection != ConnectionType::Unknown {
        Some(ms[i].connection)
    } else {
        first_known_connection(ms, i + 1)
    }
}

pub open spec fn first_vid(ms: Seq<DeviceView>, i: int) -> Option<u16>
    decreases ms.len() - i,
{
    if i < 0 || i >= ms.len() {
        None
    } else if ms[i].vid is Some {
        ms[i].vid
    } else {
        first_vid(ms, i + 1)
    }
}

pub open spec fn first_pid(ms: Seq<DeviceView>, i: int) -> Option<u16>
    decreases ms.len() - i,
{
    if i < 0 || i >= ms.len() {
        None
    } else if ms[i].pid is Some {
        ms[i].pid
    } else {
        first_pid(ms, i + 1)
    }
}

/// A name that already identifies an Apple trackpad.
pub open spec fn trackpad_like_name(n: Seq<char>) -> bool {
    let l = lower(n);
    contains(l, "magic trackpad"@) || (contains(l, "apple"@) && contains(l, "trackpad"@)) || contains(
        l,
        "precision touchpad"@,
    )
}

pub open spec fn first_trackpad_name(ms: Seq<DeviceView>, i: int) -> Option<Seq<char>>
    decreases ms.len() - i,
{
    if i < 0 || i >= ms.len() {
        None
    } else if trackpad_like_name(ms[i].name) {
        Some(ms[i].name)
    } else {
        first_trackpad_name(ms, i + 1)
    }
}

pub open spec fn first_serial(ms: Seq<DeviceView>, i: int) -> Option<Seq<char>>
    decreases ms.len() - i,
{
    if i < 0 || i >= ms.len() {
        None
    } else if device_serial(ms[i]) is Some {
        device_serial(ms[i])
    } else {
        first_serial(ms, i + 1)
    }
}

/// The upper-cased path, empty when there is none.
pub open spec fn upper_path(d: DeviceView) -> Seq<char> {
    match d.path {
        Some(p) => upper(p),
        None => Seq::empty(),
    }
}

/// A USB composite parent (`USB\VID_…` without `&MI_`).
pub open spec fn usb_parent_like(d: DeviceView) -> bool {
    let u = upper_path(d);
    (contains(u, "USB\\VID_"@) || contains(u, "USB/VID_"@)) && !contains(u, "&MI_"@)
}

pub open spec fn first_usb_parent(ms: Seq<DeviceView>, i: int) -> Option<int>
    decreases ms.len() - i,
{
    if i < 0 || i >= ms.len() {
        None
    } else if usb_parent_like(ms[i]) {
        Some(i)
    } else {
        first_usb_parent(ms, i + 1)
    }
}

pub open spec fn first_non_collection(ms: Seq<DeviceView>, i: int) -> Option<int>
    decreases ms.len() - i,
{
    if i < 0 || i >= ms.len() {
        None
    } else if !contains(upper_path(ms[i]), "&COL"@) {
        Some(i)
    } else {
        first_non_collection(ms, i + 1)
    }
}

pub open spec fn merged_path(ms: Seq<DeviceView>) -> Option<Seq<char>> {
    let found = match first_usb_parent(ms, 0) {
        Some(j) => Some(j),
        None => first_non_collection(ms, 0),
    };
    let p = match found {
        Some(j) => ms[j].path,
        None => None,
    };
    match p {
        Some(x) => Some(x),
        None => ms[0].path,
    }
}

pub open spec fn merged_driver_bound(ms: Seq<DeviceView>) -> Option<bool> {
    if exists|i: int| 0 <= i < ms.len() && ms[i].driver_bound == Some(true) {
        Some(true)
    } else if exists|i: int| 0 <= i < ms.len() && ms[i].driver_bound == Some(false) {
        Some(false)
    } else {
        None
    }
}

pub open spec fn merged_model(ms: Seq<DeviceView>) -> Seq<char> {
    match first_pid(ms, 0) {
        Some(p) => crate::models::model_name(p),
        None => ms[0].model,
    }
}

pub open spec fn merged_name(ms: Seq<DeviceView>) -> Seq<char> {
    match first_trackpad_name(ms, 0) {
        Some(n) => n,
        None => if contains(lower(merged_model(ms)), "magic trackpad"@) {
            "Apple Inc. "@ + merged_model(ms)
        } else {
            ms[0].name
        },
    }
}

pub open spec fn merged_notes(ms: Seq<DeviceView>) -> Seq<Seq<char>> {
    let a: Seq<Seq<char>> = match first_serial(ms, 0) {
        Some(s) => seq!["Serial "@ + s],
        None => Seq::empty(),
    };
    let b: Seq<Seq<char>> = if ms.len() > 1 {
        seq![crate::text::dec(ms.len()) + " USB/HID interfaces collapsed into one device"@]
    } else {
        Seq::empty()
    };
    a + b
}

pub open spec fn merged_id(key: Seq<char>, ms: Seq<DeviceView>) -> Seq<char> {
    match first_serial(ms, 0) {
        Some(s) => "apple-trackpad:"@ + vid_pid_tag(
            opt_or_zero(first_vid(ms, 0)),
            opt_or_zero(first_pid(ms, 0)),
        ) + s,
        None => "apple-trackpad:"@ + key,
    }
}

/// One physical device from the nodes of a group, the best representative
/// (highest interface score) first.
pub open spec fn merge(key: Seq<char>, ms: Seq<DeviceView>) -> DeviceView {
    DeviceView {
        id: merged_id(key, ms),
        name: merged_name(ms),
        model: merged_model(ms),
        vid: first_vid(ms, 0),
        pid: first_pid(ms, 0),
        connection: match first_known_connection(ms, 0) {
            Some(c) => c,
            None => ms[0].connection,
        },
        connected: exists|i: int| 0 <= i < ms.len() && ms[i].connected,
        battery: first_battery(ms, 0),
        driver_bound: merged_driver_bound(ms),
        path: merged_path(ms),
        notes: merged_notes(ms),
    }
}

fn upper_path_chars(d: &DeviceInfo) -> (r: Vec<char>)
    ensures
        r@ == upper_path(d@),
{
    match &d.path {
        Some(p) => crate::text::upper_of(p.as_str()),
        None => {
            let r: Vec<char> = Vec::new();
            assert(r@ =~= upper(Seq::empty()));
            r
        },
    }
}

fn usb_parent_like_exec(d: &DeviceInfo) -> (r: bool)
    ensures
        r == usb_parent_like(d@),
{
    let u = upper_path_chars(d);
    (crate::text::contains_str(&u, "USB\\VID_") || crate::text::contains_str(&u, "USB/VID_"))
        && !crate::text::contains_str(&u, "&MI_")
}

fn trackpad_like_name_exec(n: &str) -> (r: bool)
    ensures
        r == trackpad_like_name(n@),
{
    let l = crate::text::lower_of(n);
    crate::text::contains_str(&l, "magic trackpad") || (crate::text::contains_str(&l, "apple")
        && crate::text::contains_str(&l, "trackpad")) || crate::text::contains_str(
        &l,
        "precision touchpad",
    )
}

/// Scans the members once for each merged field.
fn merge_fields(ms: &Vec<DeviceInfo>) -> (r: (
    Option<crate::models::BatteryInfo>,
    Option<ConnectionType>,
    Option<u16>,
    Option<u16>,
    bool,
    Option<bool>,
))
    ensures
        crate::models::opt_battery_view(r.0) == first_battery(crate::models::devices_view(ms@), 0),
        r.1 == first_known_connection(crate::models::devices_view(ms@), 0),
        r.2 == first_vid(crate::models::devices_view(ms@), 0),
        r.3 == first_pid(crate::models::devices_view(ms@), 0),
        r.4 == exists|i: int| 0 <= i < ms@.len() && crate::models::devices_view(ms@)[i].connected,
        r.5 == merged_driver_bound(crate::models::devices_view(ms@)),
{
    let ghost v = crate::models::devices_view(ms@);
    let mut battery: Option<crate::models::BatteryInfo> = None;
    let mut conn: Option<ConnectionType> = None;
    let mut vid: Option<u16> = None;
    let mut pid: Option<u16> = None;
    let mut connected = false;
    let mut any_true = false;
    let mut any_false = false;
    let mut i: usize = 0;
    while i < ms.len()
        invariant
            i <= ms.len(),
            v == crate::models::devices_view(ms@),
            battery is Some ==> crate::models::opt_battery_view(battery) == first_battery(v, 0),
            battery is None ==> first_battery(v, 0) == first_battery(v, i as int),
            conn is Some ==> conn == first_known_connection(v, 0),
            conn is None ==> first_known_connection(v, 0) == first_known_connection(v, i as int),
            vid is Some ==> vid == first_vid(v, 0),
            vid is None ==> first_vid(v, 0) == first_vid(v, i as int),
            pid is Some ==> pid == first_pid(v, 0),
            pid is None ==> first_pid(v, 0) == first_pid(v, i as int),
            connected == exists|k: int| 0 <= k < i && v[k].connected,
            any_true == exists|k: int| 0 <= k < i && v[k].driver_bound == Some(true),
            any_false == exists|k: int| 0 <= k < i && v[k].driver_bound == Some(false),
        decreases ms.len() - i,
    {
        let m = &ms[i];
        assert(v[i as int] == m@);
        if battery.is_none() && m.battery.is_some() {
            battery = crate::models::copy_opt_battery(&m.battery);
        }
        if conn.is_none() && m.connection != ConnectionType::Unknown {
            conn = Some(m.connection);
        }
        if vid.is_none() && m.vid.is_some() {
            vid = m.vid;
        }
        if pid.is_none() && m.pid.is_some() {
            pid = m.pid;
        }
        if m.connected {
            connected = true;
        }
        if m.driver_bound == Some(true) {
            any_true = true;
        }
        if m.driver_bound == Some(false) {
            any_false = true;
        }
        i += 1;
    }
    let driver = if any_true {
        Some(true)
    } else if any_false {
        Some(false)
    } else {
        None
    };
    (battery, conn, vid, pid, connected, driver)
}

fn first_trackpad_name_exec(ms: &Vec<DeviceInfo>) -> (r: Option<String>)
    ensures
        crate::models::opt_str_view(r) == first_trackpad_name(crate::models::devices_view(ms@), 0),
{
    let ghost v = crate::models::devices_view(ms@);
    let mut i: usize = 0;
    while i < ms.len()
        invariant
            i <= ms.len(),
            v == crate::models::devices_view(ms@),
            first_trackpad_name(v, 0) == first_trackpad_name(v, i as int),
        decreases ms.len() - i,
    {
        assert(v[i as int] == ms@[i as int]@);
        if trackpad_like_name_exec(ms[i].name.as_str()) {
            return Some(ms[i].name.clone());
        }
        i += 1;
    }
    None
}

fn first_serial_exec(ms: &Vec<DeviceInfo>) -> (r: Option<Vec<char>>)
    ensures
        match r {
            Some(s) => first_serial(crate::models::devices_view(ms@), 0) == Some(s@),
            None => first_serial(crate::models::devices_view(ms@), 0) is None,
        },
{
    let ghost v = crate::models::devices_view(ms@);
    let mut i: usize = 0;
    while i < ms.len()
        invariant
            i <= ms.len(),
            v == crate::models::devices_view(ms@),
            first_serial(v, 0) == first_serial(v, i as int),
        decreases ms.len() - i,
    {
        assert(v[i as int] == ms@[i as int]@);
        match device_serial_exec(&ms[i]) {
            Some(s) => {
                return Some(s);
            },
            None => {},
        }
        i += 1;
    }
    None
}

fn first_usb_parent_exec(ms: &Vec<DeviceInfo>) -> (r: Option<usize>)
    ensures
        match r {
            Some(k) => first_usb_parent(crate::models::devices_view(ms@), 0) == Some(k as int),
            None => first_usb_parent(crate::models::devices_view(ms@), 0) is None,
        },
{
    let ghost v = crate::models::devices_view(ms@);
    let mut i: usize = 0;
    while i < ms.len()
        invariant
            i <= ms.len(),
            v == crate::models::devices_view(ms@),
            first_usb_parent(v, 0) == first_usb_parent(v, i as int),
        decreases ms.len() - i,
    {
        assert(v[i as int] == ms@[i as int]@);
        if usb_parent_like_exec(&ms[i]) {
            return Some(i);
        }
        i += 1;
    }
    None
}

fn first_non_collection_exec(ms: &Vec<DeviceInfo>) -> (r: Option<usize>)
    ensures
        match r {
            Some(k) => first_non_collection(crate::models::devices_view(ms@), 0) == Some(k as int),
            None => first_non_collection(crate::models::devices_view(ms@), 0) is None,
        },
{
    let ghost v = crate::models::devices_view(ms@);
    let mut j: usize = 0;
    while j < ms.len()
        invariant
            j <= ms.len(),
            v == crate::models::devices_view(ms@),
            first_non_collection(v, 0) == first_non_collection(v, j as int),
        decreases ms.len() - j,
    {
        assert(v[j as int] == ms@[j as int]@);
        let u = upper_path_chars(&ms[j]);
        if !crate::text::contains_str(&u, "&COL") {
            return Some(j);
        }
        j += 1;
    }
    None
}

proof fn lemma_first_index_bounds(v: Seq<DeviceView>, i: int)
    requires
        0 <= i,
    ensures
        first_usb_parent(v, i) matches Some(k) ==> i <= k < v.len(),
        first_non_collection(v, i) matches Some(k) ==> i <= k < v.len(),
    decreases v.len() - i,
{
    if i < v.len() {
        lemma_first_index_bounds(v, i + 1);
    }
}

fn merged_path_exec(ms: &Vec<DeviceInfo>) -> (r: Option<String>)
    requires
        ms.len() > 0,
    ensures
        crate::models::opt_str_view(r) == merged_path(crate::models::devices_view(ms@)),
{
    let ghost v = crate::models::devices_view(ms@);
    proof {
        lemma_first_index_bounds(v, 0);
    }
    let found = match first_usb_parent_exec(ms) {
        Some(k) => Some(k),
        None => first_non_collection_exec(ms),
    };
    let p = match found {
        Some(k) => {
            assert(v[k as int] == ms@[k as int]@);
            crate::models::copy_opt_string(&ms[k].path)
        },
        None => None,
    };
    assert(v[0] == ms@[0]@);
    match p {
        Some(x) => Some(x),
        None => crate::models::copy_opt_string(&ms[0].path),
    }
}

/// Merges the members of one group (already sorted best-first) into one device.
fn merge_sorted(key: &Vec<char>, ms: &Vec<DeviceInfo>) -> (r: DeviceInfo)
    requires
        ms.len() > 0,
    ensures
        r@ == merge(key@, crate::models::devices_view(ms@)),
{
    let ghost v = crate::models::devices_view(ms@);
    let (battery, conn, vid, pid, connected, driver_bound) = merge_fields(ms);
    let connection = match conn {
        Some(c) => c,
        None => ms[0].connection,
    };
    let model: String = match pid {
        Some(p) => crate::models::model_name_for_pid(p),
        None => ms[0].model.clone(),
    };
    assert(model@ == merged_model(v));
    let name: String = match first_trackpad_name_exec(ms) {
        Some(n) => n,
        None => {
            let ml = crate::text::lower_of(model.as_str());
            if crate::text::contains_str(&ml, "magic trackpad") {
                let mut n = chars_of("Apple Inc. ");
                append_str(&mut n, model.as_str());
                crate::text::string_of(&n)
            } else {
                ms[0].name.clone()
            }
        },
    };
    let serial = first_serial_exec(ms);
    let path = merged_path_exec(ms);
    let mut notes: Vec<String> = Vec::new();
    let id: Vec<char>;
    match &serial {
        Some(s) => {
            let note = concat2("Serial ", s);
            notes.push(crate::text::string_of(&note));
            let vz = match vid {
                Some(x) => x,
                None => 0,
            };
            let pz = match pid {
                Some(x) => x,
                None => 0,
            };
            let mut k = concat2("apple-trackpad:", &vid_pid_tag_chars(vz, pz));
            append_chars(&mut k, s);
            id = k;
        },
        None => {
            id = concat2("apple-trackpad:", key);
        },
    }
    if ms.len() > 1 {
        let mut n = crate::text::dec_chars(ms.len());
        append_str(&mut n, " USB/HID interfaces collapsed into one device");
        notes.push(crate::text::string_of(&n));
    }
    assert(crate::models::strings_view(notes@) =~= merged_notes(v));
    DeviceInfo {
        id: crate::text::string_of(&id),
        name,
        model,
        vid,
        pid,
        connection,
        connected,
        battery,
        driver_bound,
        path,
        notes,
    }
}

/// Merges one group: its members sorted best-first, then folded into one device.
fn merge_group(key: &Vec<char>, members: Vec<DeviceInfo>) -> (r: DeviceInfo)
    requires
        members.len() > 0,
    ensures
        r@ == merge(key@, sort_by_score(crate::models::devices_view(members@))),
{
    proof {
        lemma_sort_by_score_len(crate::models::devices_view(members@));
    }
    let sorted = sort_members(members);
    merge_sorted(key, &sorted)
}


// ---------------------------------------------------------------------------
// Grouping
// ---------------------------------------------------------------------------

pub struct Group {
    pub key: Vec<char>,
    pub members: Vec<DeviceInfo>,
}

pub open spec fn group_view(g: Group) -> (Seq<char>, Seq<DeviceView>) {
    (g.key@, crate::models::devices_view(g.members@))
}

pub open spec fn groups_view(gs: Seq<Group>) -> Seq<(Seq<char>, Seq<DeviceView>)> {
    gs.map_values(|g: Group| group_view(g))
}

/// Index of the group with key `k`, searching from `i`.
pub open spec fn key_index(gs: Seq<(Seq<char>, Seq<DeviceView>)>, k: Seq<char>, i: int) -> Option<
    int,
>
    decreases gs.len() - i,
{
    if i < 0 || i >= gs.len() {
        None
    } else if gs[i].0 == k {
        Some(i)
    } else {
        key_index(gs, k, i + 1)
    }
}

/// Adds a node to the group of its key, opening a new group at the end when
/// the key is new.
pub open spec fn add_member(gs: Seq<(Seq<char>, Seq<DeviceView>)>, k: Seq<char>, d: DeviceView) -> Seq<
    (Seq<char>, Seq<DeviceView>),
> {
    match key_index(gs, k, 0) {
        Some(j) => gs.update(j, (k, gs[j].1.push(d))),
        None => gs.push((k, seq![d])),
    }
}

/// Pass 1: group by physical key, groups in order of first appearance.
pub open spec fn first_pass(ds: Seq<DeviceView>) -> Seq<(Seq<char>, Seq<DeviceView>)>
    decreases ds.len(),
{
    if ds.len() == 0 {
        Seq::empty()
    } else {
        add_member(first_pass(ds.drop_last()), group_key(ds.last()), ds.last())
    }
}

pub open spec fn is_kept_key(k: Seq<char>) -> bool {
    starts_with(k, "serial:"@) || starts_with(k, "linux:"@)
}

/// Keys of the serial groups, in group order.
pub open spec fn serial_keys(gs: Seq<(Seq<char>, Seq<DeviceView>)>) -> Seq<Seq<char>>
    decreases gs.len(),
{
    if gs.len() == 0 {
        Seq::empty()
    } else if starts_with(gs.last().0, "serial:"@) {
        serial_keys(gs.drop_last()).push(gs.last().0)
    } else {
        serial_keys(gs.drop_last())
    }
}

pub open spec fn matching_keys(sks: Seq<Seq<char>>, pat: Seq<char>) -> Seq<Seq<char>>
    decreases sks.len(),
{
    if sks.len() == 0 {
        Seq::empty()
    } else if contains(sks.last(), pat) {
        matching_keys(sks.drop_last(), pat).push(sks.last())
    } else {
        matching_keys(sks.drop_last(), pat)
    }
}

/// The serial group a non-serial group folds into: the only serial key that
/// names the group's VID/PID.
pub open spec fn attach_target(sks: Seq<Seq<char>>, g: (Seq<char>, Seq<DeviceView>)) -> Option<
    Seq<char>,
> {
    if is_kept_key(g.0) {
        None
    } else {
        match (first_vid(g.1, 0), first_pid(g.1, 0)) {
            (Some(v), Some(p)) => {
                let m = matching_keys(sks, vid_pid_tag(v, p));
                if m.len() == 1 {
                    Some(m[0])
                } else {
                    None
                }
            },
            _ => None,
        }
    }
}

/// Members of the groups that fold into key `k`, in group order.
pub open spec fn attached(
    gs: Seq<(Seq<char>, Seq<DeviceView>)>,
    sks: Seq<Seq<char>>,
    k: Seq<char>,
) -> Seq<DeviceView>
    decreases gs.len(),
{
    if gs.len() == 0 {
        Seq::empty()
    } else if attach_target(sks, gs.last()) == Some(k) {
        attached(gs.drop_last(), sks, k) + gs.last().1
    } else {
        attached(gs.drop_last(), sks, k)
    }
}

/// The serial and Linux groups of `prefix`, each extended by the groups of
/// `gs` that fold into it.
pub open spec fn extend_kept(
    prefix: Seq<(Seq<char>, Seq<DeviceView>)>,
    gs: Seq<(Seq<char>, Seq<DeviceView>)>,
    sks: Seq<Seq<char>>,
) -> Seq<(Seq<char>, Seq<DeviceView>)>
    decreases prefix.len(),
{
    if prefix.len() == 0 {
        Seq::empty()
    } else if is_kept_key(prefix.last().0) {
        extend_kept(prefix.drop_last(), gs, sks).push(
            (prefix.last().0, prefix.last().1 + attached(gs, sks, prefix.last().0)),
        )
    } else {
        extend_kept(prefix.drop_last(), gs, sks)
    }
}

/// The groups that neither are kept nor fold into a serial group.
pub open spec fn orphans(prefix: Seq<(Seq<char>, Seq<DeviceView>)>, sks: Seq<Seq<char>>) -> Seq<
    (Seq<char>, Seq<DeviceView>),
>
    decreases prefix.len(),
{
    if prefix.len() == 0 {
        Seq::empty()
    } else if !is_kept_key(prefix.last().0) && attach_target(sks, prefix.last()) is None {
        orphans(prefix.drop_last(), sks).push(prefix.last())
    } else {
        orphans(prefix.drop_last(), sks)
    }
}

/// Pass 2: non-serial groups folded into the unique serial group of their VID/PID.
pub open spec fn second_pass(gs: Seq<(Seq<char>, Seq<DeviceView>)>) -> Seq<
    (Seq<char>, Seq<DeviceView>),
> {
    extend_kept(gs, gs, serial_keys(gs)) + orphans(gs, serial_keys(gs))
}

pub open spec fn merge_all(gs: Seq<(Seq<char>, Seq<DeviceView>)>) -> Seq<DeviceView> {
    gs.map_values(|g: (Seq<char>, Seq<DeviceView>)| merge(g.0, sort_by_score(g.1)))
}

// ---------------------------------------------------------------------------
// Ordering by id
// ---------------------------------------------------------------------------

/// Lexicographic order of strings by code point (the order of `String`).
pub open spec fn chars_le(a: Seq<char>, b: Seq<char>) -> bool
    decreases a.len(),
{
    if a.len() == 0 {
        true
    } else if b.len() == 0 {
        false
    } else if (a[0] as u32) < (b[0] as u32) {
        true
    } else if (a[0] as u32) > (b[0] as u32) {
        false
    } else {
        chars_le(a.drop_first(), b.drop_first())
    }
}

/// Position at which `x` goes in a list sorted by id: after every element
/// whose id is at most `x`'s.
pub open spec fn id_pos(s: Seq<DeviceView>, x: DeviceView, i: int) -> int
    decreases s.len() - i,
{
    if i >= s.len() || !chars_le(s[i].id, x.id) {
        i
    } else {
        id_pos(s, x, i + 1)
    }
}

pub proof fn lemma_id_pos(s: Seq<DeviceView>, x: DeviceView, i: int)
    requires
        0 <= i <= s.len(),
    ensures
        i <= id_pos(s, x, i) <= s.len(),
    decreases s.len() - i,
{
    if i < s.len() && chars_le(s[i].id, x.id) {
        lemma_id_pos(s, x, i + 1);
    }
}

/// Stable sort by id (insertion order).
pub open spec fn sort_by_id(s: Seq<DeviceView>) -> Seq<DeviceView>
    decreases s.len(),
{
    if s.len() == 0 {
        s
    } else {
        let r = sort_by_id(s.drop_last());
        r.insert(id_pos(r, s.last(), 0), s.last())
    }
}

/// What `collapse_physical_devices` returns.
pub open spec fn collapse(ds: Seq<DeviceView>) -> Seq<DeviceView> {
    if ds.len() <= 1 {
        ds
    } else {
        sort_by_id(merge_all(second_pass(first_pass(ds))))
    }
}

fn chars_le_exec(a: &Vec<char>, b: &Vec<char>) -> (r: bool)
    ensures
        r == chars_le(a@, b@),
{
    let mut k: usize = 0;
    assert(a@.skip(0) =~= a@);
    assert(b@.skip(0) =~= b@);
    while k < a.len() && k < b.len() && (a[k] as u32) == (b[k] as u32)
        invariant
            k <= a.len(),
            k <= b.len(),
            chars_le(a@, b@) == chars_le(a@.skip(k as int), b@.skip(k as int)),
        decreases a.len() - k,
    {
        assert(a@.skip(k as int).drop_first() =~= a@.skip(k + 1));
        assert(b@.skip(k as int).drop_first() =~= b@.skip(k + 1));
        k += 1;
    }
    if k == a.len() {
        true
    } else if k == b.len() {
        false
    } else {
        (a[k] as u32) < (b[k] as u32)
    }
}

pub fn sort_devices_by_id(v: Vec<DeviceInfo>) -> (r: Vec<DeviceInfo>)
    ensures
        crate::models::devices_view(r@) == sort_by_id(crate::models::devices_view(v@)),
{
    let ghost vs = crate::models::devices_view(v@);
    let mut sorted: Vec<DeviceInfo> = Vec::new();
    let mut ids: Vec<Vec<char>> = Vec::new();
    let mut i: usize = 0;
    while i < v.len()
        invariant
            i <= v.len(),
            vs == crate::models::devices_view(v@),
            crate::models::devices_view(sorted@) == sort_by_id(vs.take(i as int)),
            ids.len() == sorted.len(),
            forall|k: int| 0 <= k < ids.len() ==> ids@[k]@ == (#[trigger] sorted@[k])@.id,
        decreases v.len() - i,
    {
        let d = v[i].duplicate();
        let id = chars_of(d.id.as_str());
        let ghost sv = crate::models::devices_view(sorted@);
        let mut j: usize = 0;
        while j < sorted.len() && chars_le_exec(&ids[j], &id)
            invariant
                j <= sorted.len(),
                ids.len() == sorted.len(),
                sv == crate::models::devices_view(sorted@),
                forall|k: int| 0 <= k < ids.len() ==> ids@[k]@ == (#[trigger] sorted@[k])@.id,
                id@ == d@.id,
                id_pos(sv, d@, 0) == id_pos(sv, d@, j as int),
            decreases sorted.len() - j,
        {
            j += 1;
        }
        assert(vs.take(i + 1).drop_last() =~= vs.take(i as int));
        assert(vs.take(i + 1).last() == d@);
        sorted.insert(j, d);
        ids.insert(j, id);
        assert(crate::models::devices_view(sorted@) =~= sv.insert(j as int, d@));
        i += 1;
    }
    assert(vs.take(v.len() as int) =~= vs);
    sorted
}


// ---------------------------------------------------------------------------
// Executable passes
// ---------------------------------------------------------------------------

fn copy_devices(v: &Vec<DeviceInfo>) -> (r: Vec<DeviceInfo>)
    ensures
        crate::models::devices_view(r@) == crate::models::devices_view(v@),
{
    let mut r: Vec<DeviceInfo> = Vec::new();
    append_devices(&mut r, v);
    assert(crate::models::devices_view(r@) =~= crate::models::devices_view(v@));
    r
}

fn append_devices(a: &mut Vec<DeviceInfo>, b: &Vec<DeviceInfo>)
    ensures
        crate::models::devices_view(final(a)@) == crate::models::devices_view(old(a)@)
            + crate::models::devices_view(b@),
{
    let ghost a0 = crate::models::devices_view(a@);
    let ghost bv = crate::models::devices_view(b@);
    let mut i: usize = 0;
    while i < b.len()
        invariant
            i <= b.len(),
            bv == crate::models::devices_view(b@),
            crate::models::devices_view(a@) == a0 + bv.take(i as int),
        decreases b.len() - i,
    {
        let ghost before = a@;
        a.push(b[i].duplicate());
        assert(crate::models::devices_view(a@) =~= crate::models::devices_view(before).push(
            bv[i as int],
        ));
        i += 1;
        assert(bv.take(i as int) =~= bv.take(i - 1).push(bv[i - 1]));
    }
    assert(bv.take(b.len() as int) =~= bv);
}

fn find_group(gs: &Vec<Group>, k: &Vec<char>) -> (r: Option<usize>)
    ensures
        match r {
            Some(j) => key_index(groups_view(gs@), k@, 0) == Some(j as int) && j < gs.len(),
            None => key_index(groups_view(gs@), k@, 0) is None,
        },
{
    let ghost g = groups_view(gs@);
    let mut i: usize = 0;
    while i < gs.len()
        invariant
            i <= gs.len(),
            g == groups_view(gs@),
            key_index(g, k@, 0) == key_index(g, k@, i as int),
        decreases gs.len() - i,
    {
        if crate::text::eq_chars(&gs[i].key, k) {
            return Some(i);
        }
        i += 1;
    }
    None
}

pub open spec fn groups_nonempty(gs: Seq<(Seq<char>, Seq<DeviceView>)>) -> bool {
    forall|j: int| 0 <= j < gs.len() ==> #[trigger] gs[j].1.len() > 0
}

proof fn lemma_first_pass_nonempty(ds: Seq<DeviceView>)
    ensures
        groups_nonempty(first_pass(ds)),
    decreases ds.len(),
{
    if ds.len() > 0 {
        let gs = first_pass(ds.drop_last());
        let k = group_key(ds.last());
        lemma_first_pass_nonempty(ds.drop_last());
        lemma_key_index_bounds(gs, k, 0);
        let r = first_pass(ds);
        assert(r == add_member(gs, k, ds.last()));
        assert forall|j: int| 0 <= j < r.len() implies #[trigger] r[j].1.len() > 0 by {
            match key_index(gs, k, 0) {
                Some(q) => {
                    if j != q {
                        assert(r[j] == gs[j]);
                        assert(gs[j].1.len() > 0);
                    } else {
                        assert(r[j].1 == gs[q].1.push(ds.last()));
                    }
                },
                None => {
                    if j < gs.len() {
                        assert(r[j] == gs[j]);
                        assert(gs[j].1.len() > 0);
                    } else {
                        assert(r[j].1 == seq![ds.last()]);
                    }
                },
            }
        }
    }
}

pub proof fn lemma_key_index_bounds(gs: Seq<(Seq<char>, Seq<DeviceView>)>, k: Seq<char>, i: int)
    requires
        0 <= i,
    ensures
        key_index(gs, k, i) matches Some(j) ==> i <= j < gs.len() && gs[j].0 == k,
    decreases gs.len() - i,
{
    if i < gs.len() {
        lemma_key_index_bounds(gs, k, i + 1);
    }
}

fn first_pass_exec(devices: &Vec<DeviceInfo>) -> (gs: Vec<Group>)
    ensures
        groups_view(gs@) == first_pass(crate::models::devices_view(devices@)),
{
    let ghost ds = crate::models::devices_view(devices@);
    let mut gs: Vec<Group> = Vec::new();
    let mut i: usize = 0;
    assert(groups_view(gs@) =~= first_pass(ds.take(0)));
    while i < devices.len()
        invariant
            i <= devices.len(),
            ds == crate::models::devices_view(devices@),
            groups_view(gs@) == first_pass(ds.take(i as int)),
        decreases devices.len() - i,
    {
        let d = devices[i].duplicate();
        let key = physical_group_key(&d);
        assert(ds.take(i + 1).drop_last() =~= ds.take(i as int));
        assert(ds.take(i + 1).last() == d@);
        let ghost before = groups_view(gs@);
        let ghost raw = gs@;
        match find_group(&gs, &key) {
            Some(j) => {
                proof {
                    lemma_key_index_bounds(before, key@, 0);
                }
                let mut g = gs.remove(j);
                assert(g == raw[j as int]);
                let ghost gm = g.members@;
                g.members.push(d);
                assert(crate::models::devices_view(g.members@) =~= crate::models::devices_view(
                    gm,
                ).push(d@));
                assert(group_view(g) == (key@, before[j as int].1.push(d@)));
                gs.insert(j, g);
                assert(gs@ =~= raw.update(j as int, g));
                assert(groups_view(gs@) =~= before.update(
                    j as int,
                    (key@, before[j as int].1.push(d@)),
                ));
            },
            None => {
                let mut ms: Vec<DeviceInfo> = Vec::new();
                ms.push(d);
                assert(crate::models::devices_view(ms@) =~= seq![d@]);
                let ng = Group { key, members: ms };
                assert(group_view(ng) == (key@, seq![d@]));
                gs.push(ng);
                assert(groups_view(gs@) =~= before.push((key@, seq![d@])));
            },
        }
        i += 1;
    }
    assert(ds.take(devices.len() as int) =~= ds);
    gs
}

fn serial_keys_exec(gs: &Vec<Group>) -> (r: Vec<Vec<char>>)
    ensures
        r@.map_values(|k: Vec<char>| k@) == serial_keys(groups_view(gs@)),
{
    let ghost g = groups_view(gs@);
    let mut r: Vec<Vec<char>> = Vec::new();
    let mut i: usize = 0;
    while i < gs.len()
        invariant
            i <= gs.len(),
            g == groups_view(gs@),
            r@.map_values(|k: Vec<char>| k@) == serial_keys(g.take(i as int)),
        decreases gs.len() - i,
    {
        assert(g.take(i + 1).drop_last() =~= g.take(i as int));
        if starts_with_str(&gs[i].key, "serial:") {
            let ghost before = r@;
            r.push(crate::text::copy_chars(&gs[i].key));
            assert(r@.map_values(|k: Vec<char>| k@) =~= before.map_values(|k: Vec<char>| k@).push(
                g[i as int].0,
            ));
        }
        i += 1;
    }
    assert(g.take(gs.len() as int) =~= g);
    r
}

fn attach_target_exec(sks: &Vec<Vec<char>>, g: &Group) -> (r: Option<Vec<char>>)
    ensures
        match r {
            Some(k) => attach_target(sks@.map_values(|k: Vec<char>| k@), group_view(*g)) == Some(
                k@,
            ),
            None => attach_target(sks@.map_values(|k: Vec<char>| k@), group_view(*g)) is None,
        },
{
    let ghost skv = sks@.map_values(|k: Vec<char>| k@);
    if starts_with_str(&g.key, "serial:") || starts_with_str(&g.key, "linux:") {
        return None;
    }
    let (_b, _c, vid, pid, _x, _y) = merge_fields(&g.members);
    let (v, p) = match (vid, pid) {
        (Some(v), Some(p)) => (v, p),
        _ => {
            return None;
        },
    };
    let pat = vid_pid_tag_chars(v, p);
    let mut matches: Vec<Vec<char>> = Vec::new();
    let mut i: usize = 0;
    while i < sks.len()
        invariant
            i <= sks.len(),
            skv == sks@.map_values(|k: Vec<char>| k@),
            matches@.map_values(|k: Vec<char>| k@) == matching_keys(skv.take(i as int), pat@),
        decreases sks.len() - i,
    {
        assert(skv.take(i + 1).drop_last() =~= skv.take(i as int));
        if crate::text::contains_chars(&sks[i], &pat) {
            let ghost before = matches@;
            matches.push(crate::text::copy_chars(&sks[i]));
            assert(matches@.map_values(|k: Vec<char>| k@) =~= before.map_values(
                |k: Vec<char>| k@,
            ).push(skv[i as int]));
        }
        i += 1;
    }
    assert(skv.take(sks.len() as int) =~= skv);
    if matches.len() == 1 {
        let ghost mv = matches@.map_values(|k: Vec<char>| k@);
        assert(mv[0] == matches@[0]@);
        Some(crate::text::copy_chars(&matches[0]))
    } else {
        None
    }
}

/// Appends to `members` the members of every group whose fold target is `key`.
fn collect_attached(
    gs: &Vec<Group>,
    targets: &Vec<Option<Vec<char>>>,
    key: &Vec<char>,
    members: &mut Vec<DeviceInfo>,
    Ghost(skv): Ghost<Seq<Seq<char>>>,
)
    requires
        targets.len() == gs.len(),
        forall|q: int|
            0 <= q < gs.len() ==> match #[trigger] targets@[q] {
                Some(k) => attach_target(skv, groups_view(gs@)[q]) == Some(k@),
                None => attach_target(skv, groups_view(gs@)[q]) is None,
            },
    ensures
        crate::models::devices_view(final(members)@) == crate::models::devices_view(old(members)@)
            + attached(groups_view(gs@), skv, key@),
{
    let ghost g = groups_view(gs@);
    let ghost m0 = crate::models::devices_view(members@);
    let mut j: usize = 0;
    assert(attached(g.take(0), skv, key@) =~= Seq::<DeviceView>::empty());
    assert(m0 + Seq::<DeviceView>::empty() =~= m0);
    while j < gs.len()
        invariant
            j <= gs.len(),
            g == groups_view(gs@),
            targets.len() == gs.len(),
            forall|q: int|
                0 <= q < gs.len() ==> match #[trigger] targets@[q] {
                    Some(k) => attach_target(skv, g[q]) == Some(k@),
                    None => attach_target(skv, g[q]) is None,
                },
            crate::models::devices_view(members@) == m0 + attached(g.take(j as int), skv, key@),
        decreases gs.len() - j,
    {
        assert(g.take(j + 1).drop_last() =~= g.take(j as int));
        assert(g[j as int] == group_view(gs@[j as int]));
        let hit = match &targets[j] {
            Some(t) => crate::text::eq_chars(t, key),
            None => false,
        };
        if hit {
            append_devices(members, &gs[j].members);
            assert(m0 + attached(g.take(j as int), skv, key@) + g[j as int].1 =~= m0 + (attached(
                g.take(j as int),
                skv,
                key@,
            ) + g[j as int].1));
        }
        j += 1;
    }
    assert(g.take(gs.len() as int) =~= g);
}

fn second_pass_exec(gs: &Vec<Group>) -> (r: Vec<Group>)
    requires
        groups_nonempty(groups_view(gs@)),
    ensures
        groups_view(r@) == second_pass(groups_view(gs@)),
        groups_nonempty(groups_view(r@)),
{
    let ghost g = groups_view(gs@);
    let sks = serial_keys_exec(gs);
    let ghost skv = sks@.map_values(|k: Vec<char>| k@);
    // The fold target of every group.
    let mut targets: Vec<Option<Vec<char>>> = Vec::new();
    let mut i: usize = 0;
    while i < gs.len()
        invariant
            i <= gs.len(),
            g == groups_view(gs@),
            skv == sks@.map_values(|k: Vec<char>| k@),
            targets.len() == i,
            forall|j: int|
                0 <= j < i ==> match #[trigger] targets@[j] {
                    Some(k) => attach_target(skv, g[j]) == Some(k@),
                    None => attach_target(skv, g[j]) is None,
                },
        decreases gs.len() - i,
    {
        let t = attach_target_exec(&sks, &gs[i]);
        targets.push(t);
        i += 1;
    }
    let mut out: Vec<Group> = Vec::new();
    // Kept groups, extended.
    let mut i: usize = 0;
    while i < gs.len()
        invariant
            i <= gs.len(),
            g == groups_view(gs@),
            groups_nonempty(g),
            skv == sks@.map_values(|k: Vec<char>| k@),
            targets.len() == gs.len(),
            forall|j: int|
                0 <= j < gs.len() ==> match #[trigger] targets@[j] {
                    Some(k) => attach_target(skv, g[j]) == Some(k@),
                    None => attach_target(skv, g[j]) is None,
                },
            groups_view(out@) == extend_kept(g.take(i as int), g, skv),
            groups_nonempty(groups_view(out@)),
        decreases gs.len() - i,
    {
        assert(g.take(i + 1).drop_last() =~= g.take(i as int));
        assert(g[i as int] == group_view(gs@[i as int]));
        if starts_with_str(&gs[i].key, "serial:") || starts_with_str(&gs[i].key, "linux:") {
            let key = crate::text::copy_chars(&gs[i].key);
            let mut members = copy_devices(&gs[i].members);
            collect_attached(gs, &targets, &key, &mut members, Ghost(skv));
            let ghost before = out@;
            out.push(Group { key, members });
            let ghost nv = (g[i as int].0, g[i as int].1 + attached(g, skv, g[i as int].0));
            assert(groups_view(out@) =~= groups_view(before).push(nv));
            assert(g[i as int].1.len() > 0);
            assert forall|q: int| 0 <= q < groups_view(out@).len() implies #[trigger] groups_view(
                out@,
            )[q].1.len() > 0 by {
                if q < before.len() {
                    assert(groups_view(out@)[q] == groups_view(before)[q]);
                }
            }
        }
        i += 1;
    }
    assert(g.take(gs.len() as int) =~= g);
    // Orphans.
    let ghost kept = groups_view(out@);
    let mut orph: Vec<Group> = Vec::new();
    let mut i: usize = 0;
    while i < gs.len()
        invariant
            i <= gs.len(),
            g == groups_view(gs@),
            groups_nonempty(g),
            skv == sks@.map_values(|k: Vec<char>| k@),
            targets.len() == gs.len(),
            forall|j: int|
                0 <= j < gs.len() ==> match #[trigger] targets@[j] {
                    Some(k) => attach_target(skv, g[j]) == Some(k@),
                    None => attach_target(skv, g[j]) is None,
                },
            groups_view(orph@) == orphans(g.take(i as int), skv),
            groups_nonempty(groups_view(orph@)),
        decreases gs.len() - i,
    {
        assert(g.take(i + 1).drop_last() =~= g.take(i as int));
        assert(g[i as int] == group_view(gs@[i as int]));
        let kept_key = starts_with_str(&gs[i].key, "serial:") || starts_with_str(
            &gs[i].key,
            "linux:",
        );
        if !kept_key && targets[i].is_none() {
            let ghost before = orph@;
            orph.push(Group {
                key: crate::text::copy_chars(&gs[i].key),
                members: copy_devices(&gs[i].members),
            });
            assert(groups_view(orph@) =~= groups_view(before).push(g[i as int]));
            assert(g[i as int].1.len() > 0);
            assert forall|q: int| 0 <= q < groups_view(orph@).len() implies #[trigger] groups_view(
                orph@,
            )[q].1.len() > 0 by {
                if q < before.len() {
                    assert(groups_view(orph@)[q] == groups_view(before)[q]);
                }
            }
        }
        i += 1;
    }
    assert(g.take(gs.len() as int) =~= g);
    let ghost o = groups_view(orph@);
    out.append(&mut orph);
    assert(groups_view(out@) =~= kept + o);
    assert forall|q: int| 0 <= q < groups_view(out@).len() implies #[trigger] groups_view(
        out@,
    )[q].1.len() > 0 by {
        if q < kept.len() {
            assert(groups_view(out@)[q] == kept[q]);
            assert(kept[q].1.len() > 0);
        } else {
            assert(groups_view(out@)[q] == o[q - kept.len()]);
            assert(o[q - kept.len()].1.len() > 0);
        }
    }
    out
}

/// Merge interface-level nodes into physical devices.
#[verifier::rlimit(40)]
pub fn collapse_physical_devices(devices: Vec<DeviceInfo>) -> (out: Vec<DeviceInfo>)
    ensures
        crate::models::devices_view(out@) == collapse(crate::models::devices_view(devices@)),
{
    if devices.len() <= 1 {
        return devices;
    }
    let ghost ds = crate::models::devices_view(devices@);
    // Pass 1: group by a stable physical key (serial when known, else VID/PID + bus).
    let gs = first_pass_exec(&devices);
    proof {
        lemma_first_pass_nonempty(ds);
    }
    // Pass 2: fold non-serial groups into a sole serial group for the same VID/PID.
    let fg = second_pass_exec(&gs);
    let ghost fv = groups_view(fg@);
    let mut merged: Vec<DeviceInfo> = Vec::new();
    let mut i: usize = 0;
    while i < fg.len()
        invariant
            i <= fg.len(),
            fv == groups_view(fg@),
            groups_nonempty(fv),
            crate::models::devices_view(merged@) == merge_all(fv.take(i as int)),
        decreases fg.len() - i,
    {
        assert(fv[i as int] == group_view(fg@[i as int]));
        assert(fv[i as int].1.len() > 0);
        let members = copy_devices(&fg[i].members);
        let d = merge_group(&fg[i].key, members);
        let ghost before = merged@;
        merged.push(d);
        assert(crate::models::devices_view(merged@) =~= crate::models::devices_view(before).push(
            d@,
        ));
        i += 1;
        assert(merge_all(fv.take(i as int)) =~= merge_all(fv.take(i - 1)).push(
            merge(fv[i - 1].0, sort_by_score(fv[i - 1].1)),
        ));
    }
    assert(fv.take(fg.len() as int) =~= fv);
    sort_devices_by_id(merged)
}


// ---------------------------------------------------------------------------
// Properties of the collapse
// ---------------------------------------------------------------------------

pub open spec fn sorted_by_id(s: Seq<DeviceView>) -> bool {
    forall|i: int, j: int| 0 <= i < j < s.len() ==> chars_le(s[i].id, s[j].id)
}

pub proof fn lemma_chars_le_total(a: Seq<char>, b: Seq<char>)
    ensures
        chars_le(a, b) || chars_le(b, a),
    decreases a.len(),
{
    if a.len() > 0 && b.len() > 0 && (a[0] as u32) == (b[0] as u32) {
        lemma_chars_le_total(a.drop_first(), b.drop_first());
    }
}

pub proof fn lemma_chars_le_trans(a: Seq<char>, b: Seq<char>, c: Seq<char>)
    requires
        chars_le(a, b),
        chars_le(b, c),
    ensures
        chars_le(a, c),
    decreases a.len(),
{
    if a.len() > 0 && b.len() > 0 && c.len() > 0 && (a[0] as u32) == (b[0] as u32) && (b[0] as u32)
        == (c[0] as u32) {
        lemma_chars_le_trans(a.drop_first(), b.drop_first(), c.drop_first());
    }
}

pub proof fn lemma_chars_le_antisym(a: Seq<char>, b: Seq<char>)
    requires
        chars_le(a, b),
        chars_le(b, a),
    ensures
        a == b,
    decreases a.len(),
{
    if a.len() > 0 && b.len() > 0 {
        vstd::utf8::char_u32_cast(a[0], a[0] as u32);
        vstd::utf8::char_u32_cast(b[0], b[0] as u32);
        assert(a[0] == b[0]);
        lemma_chars_le_antisym(a.drop_first(), b.drop_first());
        assert(a =~= seq![a[0]] + a.drop_first());
        assert(b =~= seq![b[0]] + b.drop_first());
    } else {
        assert(a =~= b);
    }
}

proof fn lemma_id_pos_props(s: Seq<DeviceView>, x: DeviceView, i: int)
    requires
        0 <= i <= s.len(),
    ensures
        forall|k: int| i <= k < id_pos(s, x, i) ==> chars_le(s[k].id, x.id),
        id_pos(s, x, i) < s.len() ==> !chars_le(s[id_pos(s, x, i)].id, x.id),
    decreases s.len() - i,
{
    if i < s.len() && chars_le(s[i].id, x.id) {
        lemma_id_pos_props(s, x, i + 1);
    }
}

pub proof fn lemma_sort_by_id(s: Seq<DeviceView>)
    ensures
        sorted_by_id(sort_by_id(s)),
        sort_by_id(s).len() == s.len(),
    decreases s.len(),
{
    if s.len() > 0 {
        let r = sort_by_id(s.drop_last());
        let x = s.last();
        lemma_sort_by_id(s.drop_last());
        lemma_id_pos(r, x, 0);
        lemma_id_pos_props(r, x, 0);
        let p = id_pos(r, x, 0);
        let t = r.insert(p, x);
        assert forall|i: int, j: int| 0 <= i < j < t.len() implies chars_le(t[i].id, t[j].id) by {
            if j < p {
                assert(t[i] == r[i] && t[j] == r[j]);
            } else if j == p {
                assert(t[i] == r[i]);
            } else if i == p {
                assert(t[j] == r[j - 1]);
                lemma_chars_le_total(r[p].id, x.id);
                if j - 1 > p {
                    lemma_chars_le_trans(x.id, r[p].id, r[j - 1].id);
                }
            } else if i < p {
                assert(t[i] == r[i] && t[j] == r[j - 1]);
            } else {
                assert(t[i] == r[i - 1] && t[j] == r[j - 1]);
            }
        }
    }
}

/// The physical devices come out ordered by id.
pub proof fn collapse_sorted_by_id(ds: Seq<DeviceView>)
    ensures
        sorted_by_id(collapse(ds)),
{
    if ds.len() > 1 {
        lemma_sort_by_id(merge_all(second_pass(first_pass(ds))));
    }
}


proof fn lemma_first_pass_len(ds: Seq<DeviceView>)
    ensures
        first_pass(ds).len() <= ds.len(),
    decreases ds.len(),
{
    if ds.len() > 0 {
        let gs = first_pass(ds.drop_last());
        let k = group_key(ds.last());
        lemma_first_pass_len(ds.drop_last());
        lemma_key_index_bounds(gs, k, 0);
        assert(first_pass(ds) == add_member(gs, k, ds.last()));
    }
}

proof fn lemma_second_pass_len(
    prefix: Seq<(Seq<char>, Seq<DeviceView>)>,
    gs: Seq<(Seq<char>, Seq<DeviceView>)>,
    sks: Seq<Seq<char>>,
)
    ensures
        extend_kept(prefix, gs, sks).len() + orphans(prefix, sks).len() <= prefix.len(),
    decreases prefix.len(),
{
    if prefix.len() > 0 {
        lemma_second_pass_len(prefix.drop_last(), gs, sks);
    }
}

proof fn lemma_sort_by_id_len(s: Seq<DeviceView>)
    ensures
        sort_by_id(s).len() == s.len(),
{
    lemma_sort_by_id(s);
}

/// Collapsing never yields more devices than it was given.
pub proof fn collapse_never_grows(ds: Seq<DeviceView>)
    ensures
        collapse(ds).len() <= ds.len(),
{
    if ds.len() > 1 {
        let gs = first_pass(ds);
        lemma_first_pass_len(ds);
        lemma_second_pass_len(gs, gs, serial_keys(gs));
        lemma_sort_by_id_len(merge_all(second_pass(gs)));
    }
}

proof fn lemma_first_pass_one_key(ds: Seq<DeviceView>, k: Seq<char>)
    requires
        ds.len() > 0,
        forall|i: int| 0 <= i < ds.len() ==> group_key(#[trigger] ds[i]) == k,
    ensures
        first_pass(ds) == seq![(k, ds)],
    decreases ds.len(),
{
    let p = ds.drop_last();
    if p.len() == 0 {
        assert(first_pass(p) =~= Seq::<(Seq<char>, Seq<DeviceView>)>::empty());
        assert(p.push(ds.last()) =~= ds);
        assert(first_pass(ds) =~= seq![(k, seq![ds.last()])]);
        assert(seq![ds.last()] =~= ds);
    } else {
        assert forall|i: int| 0 <= i < p.len() implies group_key(#[trigger] p[i]) == k by {
            assert(p[i] == ds[i]);
        }
        lemma_first_pass_one_key(p, k);
        assert(group_key(ds.last()) == k) by {
            assert(ds.last() == ds[ds.len() - 1]);
        }
        assert(key_index(seq![(k, p)], k, 0) == Some(0int));
        assert(p.push(ds.last()) =~= ds);
        assert(first_pass(ds) =~= seq![(k, ds)]);
    }
}

/// Interfaces that share one physical identity are shown as one device:
/// when every device has the same grouping key, the collapse yields exactly one.
pub proof fn law_one_identity_one_row(ds: Seq<DeviceView>, k: Seq<char>)
    requires
        ds.len() > 0,
        forall|i: int| 0 <= i < ds.len() ==> group_key(#[trigger] ds[i]) == k,
    ensures
        collapse(ds).len() == 1,
{
    if ds.len() > 1 {
        lemma_first_pass_one_key(ds, k);
        let gs = seq![(k, ds)];
        assert(gs.drop_last() =~= Seq::<(Seq<char>, Seq<DeviceView>)>::empty());
        let sks = serial_keys(gs);
        if is_kept_key(k) {
            assert(extend_kept(gs.drop_last(), gs, sks).len() == 0);
            assert(extend_kept(gs, gs, sks).len() == 1);
            assert(orphans(gs.drop_last(), sks).len() == 0);
            assert(orphans(gs, sks).len() == 0);
        } else {
            assert(!starts_with(k, "serial:"@));
            assert(gs.last().0 == k);
            assert(serial_keys(gs.drop_last()) =~= Seq::<Seq<char>>::empty());
            assert(sks =~= Seq::<Seq<char>>::empty());
            assert(attach_target(sks, gs.last()) is None) by {
                match (first_vid(ds, 0), first_pid(ds, 0)) {
                    (Some(v), Some(p)) => {
                        assert(matching_keys(sks, vid_pid_tag(v, p)).len() == 0);
                    },
                    _ => {},
                }
            }
            assert(extend_kept(gs.drop_last(), gs, sks).len() == 0);
            assert(extend_kept(gs, gs, sks).len() == 0);
            assert(orphans(gs.drop_last(), sks).len() == 0);
            assert(orphans(gs, sks).len() == 1);
        }
        assert(second_pass(gs).len() == 1);
        lemma_sort_by_id_len(merge_all(second_pass(gs)));
    }
}


/// A group merged into one device reports the Precision driver bound when
/// any of its nodes is bound, unbound only when none is bound and some node
/// is known unbound, and nothing when no node says.
pub proof fn law_merge_bound_driver_wins(key: Seq<char>, ms: Seq<DeviceView>)
    ensures
        (merge(key, ms).driver_bound == Some(true)) <==> (exists|i: int|
            0 <= i < ms.len() && (#[trigger] ms[i]).driver_bound == Some(true)),
        (merge(key, ms).driver_bound == Some(false)) <==> ((forall|i: int|
            0 <= i < ms.len() ==> (#[trigger] ms[i]).driver_bound != Some(true)) && exists|i: int|
            0 <= i < ms.len() && (#[trigger] ms[i]).driver_bound == Some(false)),
        (merge(key, ms).driver_bound is None) <==> (forall|i: int|
            0 <= i < ms.len() ==> (#[trigger] ms[i]).driver_bound is None),
{
    assert forall|i: int| 0 <= i < ms.len() && ms[i].driver_bound != Some(true)
        && ms[i].driver_bound != Some(false) implies (#[trigger] ms[i]).driver_bound is None by {
        match ms[i].driver_bound {
            Some(b) => {
                assert(b || !b);
            },
            None => {},
        }
    }
}

} // verus!
