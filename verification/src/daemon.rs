//! Linux multi-finger gesture daemon: reading `libinput debug-events` lines,
//! readiness reporting, and the files that start the daemon with the session.
use vstd::prelude::*;

use crate::gestures::{hold_fingers, tap_trigger_of};
use crate::models::GestureDaemonStatus;
use crate::text::{
    append_chars, append_str, chars_of, contains, contains_str, dec, dec_chars, lines, lines_of,
    parse_unsigned, parse_unsigned_exec, split, split_chars, string_of, to_upper, trim, trim_str,
    upper, words, words_of,
};

verus! {

// ---------------------------------------------------------------------------
// Events read from `libinput debug-events`
// ---------------------------------------------------------------------------

/// A gesture event line, without its motion values. A hold's finger count
/// is 0 when its line announces none from 2 to 5 (a one-finger hold).
#[derive(Debug, Clone, Copy, PartialEq, Eq, Structural)]
pub enum GestureEvent {
    SwipeBegin { fingers: u8 },
    SwipeUpdate { fingers: u8 },
    SwipeEnd { fingers: u8 },
    PinchBegin { fingers: u8 },
    PinchUpdate { fingers: u8 },
    PinchEnd,
    HoldBegin { fingers: u8 },
    HoldEnd { fingers: u8 },
}

/// Finger count announced after the `k`-th word: among the (at most four)
/// next words, the first that parses as a `u8` in 2..=5.
pub open spec fn fingers_after(ws: Seq<Seq<char>>, j: int, stop: int) -> Option<u8>
    decreases stop - j,
{
    if j >= stop || j >= ws.len() || j < 0 {
        None
    } else {
        match parse_unsigned(ws[j], 255) {
            Some(n) => if 2 <= n <= 5 {
                Some(n as u8)
            } else {
                fingers_after(ws, j + 1, stop)
            },
            None => fingers_after(ws, j + 1, stop),
        }
    }
}

/// After each word containing `GESTURE_` (from word `i` on), the announced
/// finger count, if any.
pub open spec fn fingers_from(ws: Seq<Seq<char>>, i: int) -> Option<u8>
    decreases ws.len() - i,
{
    if i < 0 || i >= ws.len() {
        None
    } else if contains(ws[i], "GESTURE_"@) && fingers_after(ws, i + 1, i + 5) is Some {
        fingers_after(ws, i + 1, i + 5)
    } else {
        fingers_from(ws, i + 1)
    }
}

/// The finger count of an event line.
pub open spec fn line_fingers(line: Seq<char>) -> Option<u8> {
    fingers_from(words(line), 0)
}

fn fingers_after_exec(ws: &Vec<Vec<char>>, from: usize, stop: usize) -> (r: Option<u8>)
    ensures
        r == fingers_after(ws@.map_values(|v: Vec<char>| v@), from as int, stop as int),
{
    let ghost wv = ws@.map_values(|v: Vec<char>| v@);
    let mut j = from;
    while j < stop && j < ws.len()
        invariant
            from <= j,
            wv == ws@.map_values(|v: Vec<char>| v@),
            fingers_after(wv, from as int, stop as int) == fingers_after(wv, j as int, stop as int),
        decreases stop - j,
    {
        assert(wv[j as int] == ws@[j as int]@);
        match parse_unsigned_exec(&ws[j], 255) {
            Some(n) => {
                if 2 <= n && n <= 5 {
                    return Some(n as u8);
                }
            },
            None => {},
        }
        j += 1;
    }
    None
}

/// The finger count of an event line, per the word after its `GESTURE_` field.
pub fn extract_fingers(line: &str) -> (r: Option<u8>)
    ensures
        r == line_fingers(line@),
{
    let v = chars_of(line);
    let ws = words_of(&v);
    let ghost wv = ws@.map_values(|v: Vec<char>| v@);
    let mut i: usize = 0;
    while i < ws.len()
        invariant
            i <= ws.len(),
            wv == ws@.map_values(|v: Vec<char>| v@),
            wv == words(line@),
            fingers_from(wv, 0) == fingers_from(wv, i as int),
        decreases ws.len() - i,
    {
        assert(wv[i as int] == ws@[i as int]@);
        if contains_str(&ws[i], "GESTURE_") {
            let stop = if i <= usize::MAX - 5 {
                i + 5
            } else {
                usize::MAX
            };
            assert(stop as int >= ws.len() || stop == i + 5);
            let f = fingers_after_exec(&ws, i + 1, stop);
            proof {
                lemma_fingers_after_stop(wv, i + 1, stop as int, i + 5);
            }
            if f.is_some() {
                return f;
            }
        }
        i += 1;
    }
    None
}

proof fn lemma_fingers_after_stop(ws: Seq<Seq<char>>, j: int, a: int, b: int)
    requires
        a == b || (a >= ws.len() && b >= ws.len()),
    ensures
        fingers_after(ws, j, a) == fingers_after(ws, j, b),
    decreases ws.len() - j,
{
    if a != b && j < ws.len() && j >= 0 {
        lemma_fingers_after_stop(ws, j + 1, a, b);
    }
}

pub open spec fn or_default(o: Option<u8>, d: u8) -> u8 {
    match o {
        Some(v) => v,
        None => d,
    }
}

/// The event a `libinput debug-events` line reports, if it is a gesture event.
pub open spec fn event_of(line: Seq<char>) -> Option<GestureEvent> {
    let u = upper(line);
    let f = line_fingers(line);
    if !contains(u, "GESTURE_"@) {
        None
    } else if contains(u, "GESTURE_SWIPE_BEGIN"@) {
        Some(GestureEvent::SwipeBegin { fingers: or_default(f, 3) })
    } else if contains(u, "GESTURE_SWIPE_END"@) {
        Some(GestureEvent::SwipeEnd { fingers: or_default(f, 0) })
    } else if contains(u, "GESTURE_SWIPE_UPDATE"@) {
        Some(GestureEvent::SwipeUpdate { fingers: or_default(f, 3) })
    } else if contains(u, "GESTURE_PINCH_BEGIN"@) {
        Some(GestureEvent::PinchBegin { fingers: or_default(f, 2) })
    } else if contains(u, "GESTURE_PINCH_END"@) {
        Some(GestureEvent::PinchEnd)
    } else if contains(u, "GESTURE_PINCH_UPDATE"@) {
        Some(GestureEvent::PinchUpdate { fingers: or_default(f, 2) })
    } else if contains(u, "GESTURE_HOLD_BEGIN"@) {
        Some(GestureEvent::HoldBegin { fingers: or_default(f, 0) })
    } else if contains(u, "GESTURE_HOLD_END"@) {
        Some(GestureEvent::HoldEnd { fingers: or_default(f, 0) })
    } else {
        None
    }
}

/// Parse a single libinput debug-events line, e.g.
/// `event3  GESTURE_SWIPE_BEGIN  +1.234s  3`.
pub fn parse_event(line: &str) -> (r: Option<GestureEvent>)
    ensures
        r == event_of(line@),
{
    let v = chars_of(line);
    let u = to_upper(&v);
    if !contains_str(&u, "GESTURE_") {
        return None;
    }
    let f = extract_fingers(line);
    let or = |d: u8| -> (x: u8)
        ensures
            x == or_default(f, d),
        {
            match f {
                Some(n) => n,
                None => d,
            }
        };
    if contains_str(&u, "GESTURE_SWIPE_BEGIN") {
        Some(GestureEvent::SwipeBegin { fingers: or(3) })
    } else if contains_str(&u, "GESTURE_SWIPE_END") {
        Some(GestureEvent::SwipeEnd { fingers: or(0) })
    } else if contains_str(&u, "GESTURE_SWIPE_UPDATE") {
        Some(GestureEvent::SwipeUpdate { fingers: or(3) })
    } else if contains_str(&u, "GESTURE_PINCH_BEGIN") {
        Some(GestureEvent::PinchBegin { fingers: or(2) })
    } else if contains_str(&u, "GESTURE_PINCH_END") {
        Some(GestureEvent::PinchEnd)
    } else if contains_str(&u, "GESTURE_PINCH_UPDATE") {
        Some(GestureEvent::PinchUpdate { fingers: or(2) })
    } else if contains_str(&u, "GESTURE_HOLD_BEGIN") {
        Some(GestureEvent::HoldBegin { fingers: or(0) })
    } else if contains_str(&u, "GESTURE_HOLD_END") {
        Some(GestureEvent::HoldEnd { fingers: or(0) })
    } else {
        None
    }
}

// ---------------------------------------------------------------------------
// Readiness
// ---------------------------------------------------------------------------

/// What the status report is computed from.
#[derive(Debug, Clone, Copy)]
pub struct DaemonProbes {
    /// Built for Linux.
    pub on_linux: bool,
    /// `libinput` is on the path.
    pub libinput_ok: bool,
    /// `wtype` or `xdotool` is on the path.
    pub wtype_ok: bool,
    /// The user is in the `input` group (session or account).
    pub input_group: bool,
    /// Some `/dev/input/event*` node can be opened (directly or under `sg input`).
    pub can_read: bool,
    /// The user systemd unit file exists.
    pub unit_installed: bool,
    /// The unit is active or a `--gestures` process runs.
    pub running: bool,
}

/// `parts` joined by `sep`.
pub open spec fn join(parts: Seq<Seq<char>>, sep: Seq<char>) -> Seq<char>
    decreases parts.len(),
{
    if parts.len() == 0 {
        Seq::empty()
    } else if parts.len() == 1 {
        parts[0]
    } else {
        join(parts.drop_last(), sep) + sep + parts.last()
    }
}

pub open spec fn opt_part(b: bool, s: Seq<char>) -> Seq<Seq<char>> {
    if b {
        seq![s]
    } else {
        Seq::empty()
    }
}

pub const HINT_LIBINPUT: &'static str = "install libinput-tools";

pub const HINT_WTYPE: &'static str = "install wtype";

pub const HINT_GROUP: &'static str =
    "sudo usermod -aG input $USER  (then re-login, or re-run install --gestures)";

pub const HINT_SESSION: &'static str =
    "session cannot open /dev/input yet — restart magicpad-gestures (uses sg input) or re-login";

pub const HINT_SAVE: &'static str = "click Save gestures to start the daemon";

/// The setup steps still missing, in order.
pub open spec fn setup_parts(p: DaemonProbes) -> Seq<Seq<char>> {
    opt_part(!p.libinput_ok, HINT_LIBINPUT@) + opt_part(!p.wtype_ok, HINT_WTYPE@) + opt_part(
        !p.input_group,
        HINT_GROUP@,
    ) + opt_part(p.input_group && !p.can_read, HINT_SESSION@) + opt_part(
        p.libinput_ok && p.wtype_ok && p.input_group && p.can_read && !p.running,
        HINT_SAVE@,
    )
}

pub open spec fn status_message(p: DaemonProbes) -> Seq<char> {
    if p.running && p.can_read {
        "Gesture daemon is running"@
    } else if p.running && !p.can_read {
        "Daemon process is up but cannot read the trackpad (input permissions). Restart the service after joining the input group."@
    } else if setup_parts(p).len() == 0 {
        "Ready — save gestures to start the daemon"@
    } else {
        "Setup needed: "@ + join(setup_parts(p), "; "@)
    }
}

pub fn join_strs(parts: &Vec<&'static str>, sep: &str) -> (r: Vec<char>)
    ensures
        r@ == join(parts@.map_values(|s: &'static str| s@), sep@),
{
    let ghost pv = parts@.map_values(|s: &'static str| s@);
    let mut r: Vec<char> = Vec::new();
    let mut i: usize = 0;
    assert(r@ =~= join(pv.take(0), sep@));
    while i < parts.len()
        invariant
            i <= parts.len(),
            pv == parts@.map_values(|s: &'static str| s@),
            r@ == join(pv.take(i as int), sep@),
        decreases parts.len() - i,
    {
        assert(pv.take(i + 1).drop_last() =~= pv.take(i as int));
        assert(pv[i as int] == parts@[i as int]@);
        if i > 0 {
            append_str(&mut r, sep);
        }
        append_str(&mut r, parts[i]);
        proof {
            if i == 0 {
                assert(pv.take(1).len() == 1);
                assert(r@ =~= pv.take(1)[0]);
            }
        }
        i += 1;
    }
    assert(pv.take(parts.len() as int) =~= pv);
    r
}

/// The readiness report of the gesture daemon.
pub fn daemon_status(p: DaemonProbes) -> (s: GestureDaemonStatus)
    ensures
        s.available == p.on_linux,
        s.running == p.running,
        s.libinput_ok == p.libinput_ok,
        s.wtype_ok == p.wtype_ok,
        s.input_group == p.input_group,
        s.unit_installed == p.unit_installed,
        s.message@ == status_message(p),
{
    let mut parts: Vec<&'static str> = Vec::new();
    if !p.libinput_ok {
        parts.push(HINT_LIBINPUT);
    }
    if !p.wtype_ok {
        parts.push(HINT_WTYPE);
    }
    if !p.input_group {
        parts.push(HINT_GROUP);
    } else if !p.can_read {
        parts.push(HINT_SESSION);
    }
    if p.libinput_ok && p.wtype_ok && p.input_group && p.can_read && !p.running {
        parts.push(HINT_SAVE);
    }
    assert(parts@.map_values(|s: &'static str| s@) =~= setup_parts(p));
    let message: String = if p.running && p.can_read {
        "Gesture daemon is running".to_string()
    } else if p.running && !p.can_read {
        "Daemon process is up but cannot read the trackpad (input permissions). Restart the service after joining the input group.".to_string()
    } else if parts.len() == 0 {
        "Ready — save gestures to start the daemon".to_string()
    } else {
        let mut m = chars_of("Setup needed: ");
        let j = join_strs(&parts, "; ");
        append_chars(&mut m, &j);
        string_of(&m)
    };
    GestureDaemonStatus {
        available: p.on_linux,
        running: p.running,
        libinput_ok: p.libinput_ok,
        wtype_ok: p.wtype_ok,
        input_group: p.input_group,
        unit_installed: p.unit_installed,
        message,
    }
}

/// Why the daemon cannot be started, checked in order, before any file is written.
pub open spec fn precheck_error(on_linux: bool, libinput_ok: bool, wtype_ok: bool, input_group: bool) -> Option<Seq<char>> {
    if !on_linux {
        Some("Gesture daemon is Linux-only"@)
    } else if !libinput_ok {
        Some("libinput CLI missing. Run: sudo pacman -S libinput-tools"@)
    } else if !wtype_ok {
        Some("wtype missing. Run: sudo pacman -S wtype"@)
    } else if !input_group {
        Some(INPUT_GROUP_MISSING@)
    } else {
        None
    }
}

pub const INPUT_GROUP_MISSING: &'static str =
    "Your user is not in the 'input' group (needed to read trackpad events). \
     Run:  sudo usermod -aG input $USER   then: \
     systemctl --user restart magicpad-gestures.service \
     (or log out and back in).";

pub fn daemon_precheck(on_linux: bool, libinput_ok: bool, wtype_ok: bool, input_group: bool) -> (r:
    Result<(), String>)
    ensures
        match r {
            Ok(()) => precheck_error(on_linux, libinput_ok, wtype_ok, input_group) is None,
            Err(e) => precheck_error(on_linux, libinput_ok, wtype_ok, input_group) == Some(e@),
        },
{
    if !on_linux {
        Err("Gesture daemon is Linux-only".to_string())
    } else if !libinput_ok {
        Err("libinput CLI missing. Run: sudo pacman -S libinput-tools".to_string())
    } else if !wtype_ok {
        Err("wtype missing. Run: sudo pacman -S wtype".to_string())
    } else if !input_group {
        Err(INPUT_GROUP_MISSING.to_string())
    } else {
        Ok(())
    }
}

/// The outcome of `systemctl --user enable --now magicpad-gestures.service`,
/// given whether it succeeded and what it wrote to stderr.
pub fn enable_outcome(success: bool, stderr: &str) -> (r: Result<String, String>)
    ensures
        success ==> (r matches Ok(m) && m@ == "Gesture daemon enabled and started (systemd --user)"@),
        !success ==> (r matches Err(e) && e@ == "failed to start magicpad-gestures.service: "@
            + stderr@),
{
    if success {
        Ok("Gesture daemon enabled and started (systemd --user)".to_string())
    } else {
        let mut m = chars_of("failed to start magicpad-gestures.service: ");
        append_str(&mut m, stderr);
        Err(string_of(&m))
    }
}

// ---------------------------------------------------------------------------
// Session files
// ---------------------------------------------------------------------------

pub const UNIT_HEAD: &'static str = "[Unit]\nDescription=MagicPad Companion multi-finger gesture daemon\nDocumentation=https://github.com/imcmurray/MagicPad3\nPartOf=graphical-session.target\nAfter=graphical-session.target\n\n[Service]\nType=simple\nExecStart=";

pub const UNIT_ENV: &'static str = "\nRestart=on-failure\nRestartSec=2\nEnvironment=RUST_LOG=info\nEnvironment=WAYLAND_DISPLAY=";

pub const UNIT_XDG: &'static str = "\nEnvironment=XDG_RUNTIME_DIR=";

pub const UNIT_TAIL: &'static str = "\n\n[Install]\nWantedBy=graphical-session.target\nWantedBy=default.target\n";

/// The command line the unit starts: under `sg input` when `sg` is available.
pub open spec fn unit_exec(exe: Seq<char>, has_sg: bool) -> Seq<char> {
    if has_sg {
        "/usr/bin/sg input -c '"@ + exe + " --gestures'"@
    } else {
        exe + " --gestures"@
    }
}

/// The text of `magicpad-gestures.service`. `wayland` and `xdg` are the
/// session's `WAYLAND_DISPLAY` and `XDG_RUNTIME_DIR` when set.
pub open spec fn unit_body(
    exe: Seq<char>,
    has_sg: bool,
    wayland: Option<Seq<char>>,
    xdg: Option<Seq<char>>,
    uid: u32,
) -> Seq<char> {
    let w = match wayland {
        Some(x) => x,
        None => "wayland-0"@,
    };
    let x = match xdg {
        Some(x) => x,
        None => "/run/user/"@ + dec(uid as nat),
    };
    UNIT_HEAD@ + unit_exec(exe, has_sg) + UNIT_ENV@ + w + UNIT_XDG@ + x + UNIT_TAIL@
}

pub fn user_unit_body(
    exe: &str,
    has_sg: bool,
    wayland: Option<String>,
    xdg: Option<String>,
    uid: u32,
) -> (r: String)
    ensures
        r@ == unit_body(
            exe@,
            has_sg,
            crate::models::opt_str_view(wayland),
            crate::models::opt_str_view(xdg),
            uid,
        ),
{
    let mut b = chars_of(UNIT_HEAD);
    if has_sg {
        append_str(&mut b, "/usr/bin/sg input -c '");
        append_str(&mut b, exe);
        append_str(&mut b, " --gestures'");
    } else {
        append_str(&mut b, exe);
        append_str(&mut b, " --gestures");
    }
    append_str(&mut b, UNIT_ENV);
    match &wayland {
        Some(w) => append_str(&mut b, w.as_str()),
        None => append_str(&mut b, "wayland-0"),
    }
    append_str(&mut b, UNIT_XDG);
    match &xdg {
        Some(x) => append_str(&mut b, x.as_str()),
        None => {
            append_str(&mut b, "/run/user/");
            append_chars(&mut b, &dec_chars(uid as usize));
        },
    }
    append_str(&mut b, UNIT_TAIL);
    string_of(&b)
}

pub const AUTOSTART_HEAD: &'static str = "[Desktop Entry]\nType=Application\nName=MagicPad Gestures\nComment=Multi-finger trackpad gestures for MagicPad Companion\nExec=";

pub const AUTOSTART_TAIL: &'static str = " --gestures\nX-GNOME-Autostart-enabled=true\nHidden=false\nNoDisplay=true\n";

/// The text of the XDG autostart entry `magicpad-gestures.desktop`.
pub fn autostart_body(exe: &str) -> (r: String)
    ensures
        r@ == AUTOSTART_HEAD@ + exe@ + AUTOSTART_TAIL@,
{
    let mut b = chars_of(AUTOSTART_HEAD);
    append_str(&mut b, exe);
    append_str(&mut b, AUTOSTART_TAIL);
    string_of(&b)
}

// ---------------------------------------------------------------------------
// Account and session facts
// ---------------------------------------------------------------------------

/// Whether `id -nG` printed the group `input`.
pub open spec fn lists_input_group(out: Seq<char>) -> bool {
    exists|k: int| 0 <= k < words(out).len() && words(out)[k] == "input"@
}

pub fn session_in_input_group(id_output: &str) -> (r: bool)
    ensures
        r == lists_input_group(id_output@),
{
    let v = chars_of(id_output);
    let ws = words_of(&v);
    let ghost wv = ws@.map_values(|v: Vec<char>| v@);
    let mut i: usize = 0;
    while i < ws.len()
        invariant
            i <= ws.len(),
            wv == ws@.map_values(|v: Vec<char>| v@),
            wv == words(id_output@),
            forall|k: int| 0 <= k < i ==> wv[k] != "input"@,
        decreases ws.len() - i,
    {
        assert(wv[i as int] == ws@[i as int]@);
        if crate::text::eq_str(&ws[i], "input") {
            return true;
        }
        i += 1;
    }
    false
}

/// The `k`-th `:`-separated field of a group-file line (empty when missing).
pub open spec fn group_field(line: Seq<char>, k: int) -> Seq<char> {
    let f = split(line, ':');
    if k < f.len() {
        f[k]
    } else {
        Seq::empty()
    }
}

/// Whether a group-file line lists `user` as a member of `input`.
pub open spec fn line_lists_member(line: Seq<char>, user: Seq<char>) -> bool {
    group_field(line, 0) == "input"@ && exists|m: int|
        0 <= m < split(group_field(line, 3), ',').len() && split(group_field(line, 3), ',')[m]
            == user
}

/// Whether `/etc/group` text lists `user` (non-empty) in the `input` group.
pub open spec fn group_file_lists(text: Seq<char>, user: Seq<char>) -> bool {
    user.len() > 0 && exists|l: int| 0 <= l < lines(text).len() && line_lists_member(lines(text)[l], user)
}

fn line_lists_member_exec(line: &Vec<char>, user: &Vec<char>) -> (r: bool)
    ensures
        r == line_lists_member(line@, user@),
{
    let fields = split_chars(line, ':');
    let ghost fv = fields@.map_values(|v: Vec<char>| v@);
    proof {
        crate::text::lemma_pieces_nonempty(line@, ':', 0);
    }
    assert(fv[0] == fields@[0]@);
    if !crate::text::eq_str(&fields[0], "input") {
        return false;
    }
    let members: Vec<char> = if fields.len() > 3 {
        assert(fv[3] == fields@[3]@);
        crate::text::copy_chars(&fields[3])
    } else {
        Vec::new()
    };
    assert(members@ =~= group_field(line@, 3));
    let ms = split_chars(&members, ',');
    let ghost mv = ms@.map_values(|v: Vec<char>| v@);
    let mut i: usize = 0;
    while i < ms.len()
        invariant
            i <= ms.len(),
            mv == ms@.map_values(|v: Vec<char>| v@),
            mv == split(group_field(line@, 3), ','),
            group_field(line@, 0) == "input"@,
            forall|k: int| 0 <= k < i ==> mv[k] != user@,
        decreases ms.len() - i,
    {
        assert(mv[i as int] == ms@[i as int]@);
        if crate::text::eq_chars(&ms[i], user) {
            assert(split(group_field(line@, 3), ',')[i as int] == user@);
            return true;
        }
        i += 1;
    }
    false
}

pub fn group_file_lists_user(text: &str, user: &str) -> (r: bool)
    ensures
        r == group_file_lists(text@, user@),
{
    let u = chars_of(user);
    if u.len() == 0 {
        return false;
    }
    let ls = lines_of(text);
    let ghost lv = ls@.map_values(|v: Vec<char>| v@);
    let mut i: usize = 0;
    while i < ls.len()
        invariant
            i <= ls.len(),
            u@ == user@,
            lv == ls@.map_values(|v: Vec<char>| v@),
            lv == lines(text@),
            user@.len() > 0,
            forall|k: int| 0 <= k < i ==> !line_lists_member(lv[k], user@),
        decreases ls.len() - i,
    {
        assert(lv[i as int] == ls@[i as int]@);
        if line_lists_member_exec(&ls[i], &u) {
            assert(line_lists_member(lines(text@)[i as int], user@));
            return true;
        }
        i += 1;
    }
    false
}

/// The numeric user id from `id -u` output (1000 when unavailable or unparsable).
pub open spec fn uid_of(out: Option<Seq<char>>) -> u32 {
    match out {
        Some(o) => match parse_unsigned(trim(o), u32::MAX as nat) {
            Some(v) => v as u32,
            None => 1000,
        },
        None => 1000,
    }
}

pub fn uid_from_output(out: Option<String>) -> (r: u32)
    ensures
        r == uid_of(crate::models::opt_str_view(out)),
{
    match &out {
        Some(o) => {
            let t = trim_str(o.as_str());
            match parse_unsigned_exec(&t, u32::MAX as u64) {
                Some(v) => v as u32,
                None => 1000,
            }
        },
        None => 1000,
    }
}

/// A hold whose begin and end lines announce neither three nor four fingers
/// (a one-finger click, say) never fires a tap, whatever its timing.
pub proof fn law_hold_without_tap_count_never_taps(
    begin: Seq<char>,
    end: Seq<char>,
    b: u8,
    e: u8,
    held_ns: u128,
    since_last_ns: u128,
)
    requires
        event_of(begin) == Some(GestureEvent::HoldBegin { fingers: b }),
        event_of(end) == Some(GestureEvent::HoldEnd { fingers: e }),
        line_fingers(begin) != Some(3u8) && line_fingers(begin) != Some(4u8),
        line_fingers(end) != Some(3u8) && line_fingers(end) != Some(4u8),
    ensures
        tap_trigger_of(hold_fingers(b, e), held_ns, since_last_ns) is None,
{
}

} // verus!
