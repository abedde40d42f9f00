//! Gesture bindings: names for the remapper profile, key chords and commands
//! for each action, and the decisions of the gesture daemon (which trigger a
//! swipe, tap or pinch fires, and what running a binding means).
use vstd::prelude::*;

use crate::models::{
    bindings_view, opt_str_view, BindingView, GestureAction, GestureBinding, GestureMap,
    GestureMapView, GestureTrigger,
};
use crate::text::{append_str, chars_of, contains, contains_str, lower, lower_of, string_of};

verus! {

// ---------------------------------------------------------------------------
// Names used in the input-remapper profile
// ---------------------------------------------------------------------------

pub open spec fn trigger_label(t: GestureTrigger) -> Seq<char> {
    match t {
        GestureTrigger::ThreeFingerSwipeLeft => "3finger_swipe_left"@,
        GestureTrigger::ThreeFingerSwipeRight => "3finger_swipe_right"@,
        GestureTrigger::ThreeFingerSwipeUp => "3finger_swipe_up"@,
        GestureTrigger::ThreeFingerSwipeDown => "3finger_swipe_down"@,
        GestureTrigger::ThreeFingerTap => "3finger_tap"@,
        GestureTrigger::FourFingerSwipeLeft => "4finger_swipe_left"@,
        GestureTrigger::FourFingerSwipeRight => "4finger_swipe_right"@,
        GestureTrigger::FourFingerSwipeUp => "4finger_swipe_up"@,
        GestureTrigger::FourFingerSwipeDown => "4finger_swipe_down"@,
        GestureTrigger::FourFingerTap => "4finger_tap"@,
        GestureTrigger::PinchIn => "pinch_in"@,
        GestureTrigger::PinchOut => "pinch_out"@,
    }
}

pub fn trigger_name(t: GestureTrigger) -> (r: &'static str)
    ensures
        r@ == trigger_label(t),
{
    match t {
        GestureTrigger::ThreeFingerSwipeLeft => "3finger_swipe_left",
        GestureTrigger::ThreeFingerSwipeRight => "3finger_swipe_right",
        GestureTrigger::ThreeFingerSwipeUp => "3finger_swipe_up",
        GestureTrigger::ThreeFingerSwipeDown => "3finger_swipe_down",
        GestureTrigger::ThreeFingerTap => "3finger_tap",
        GestureTrigger::FourFingerSwipeLeft => "4finger_swipe_left",
        GestureTrigger::FourFingerSwipeRight => "4finger_swipe_right",
        GestureTrigger::FourFingerSwipeUp => "4finger_swipe_up",
        GestureTrigger::FourFingerSwipeDown => "4finger_swipe_down",
        GestureTrigger::FourFingerTap => "4finger_tap",
        GestureTrigger::PinchIn => "pinch_in",
        GestureTrigger::PinchOut => "pinch_out",
    }
}

pub open spec fn action_label(a: GestureAction) -> Seq<char> {
    match a {
        GestureAction::NoAction => "none"@,
        GestureAction::MissionControl => "overview"@,
        GestureAction::AppExpose => "app_expose"@,
        GestureAction::DesktopShow => "show_desktop"@,
        GestureAction::NextDesktop => "workspace_next"@,
        GestureAction::PrevDesktop => "workspace_prev"@,
        GestureAction::BrowserBack => "browser_back"@,
        GestureAction::BrowserForward => "browser_forward"@,
        GestureAction::SwitchApp => "switch_app"@,
        GestureAction::NotificationCenter => "notifications"@,
        GestureAction::VolumeUp => "volume_up"@,
        GestureAction::VolumeDown => "volume_down"@,
        GestureAction::MediaPlayPause => "play_pause"@,
        GestureAction::ZoomIn => "zoom_in"@,
        GestureAction::ZoomOut => "zoom_out"@,
        GestureAction::Screenshot => "screenshot"@,
        GestureAction::Custom => "custom"@,
    }
}

pub fn action_name(a: GestureAction) -> (r: &'static str)
    ensures
        r@ == action_label(a),
{
    match a {
        GestureAction::NoAction => "none",
        GestureAction::MissionControl => "overview",
        GestureAction::AppExpose => "app_expose",
        GestureAction::DesktopShow => "show_desktop",
        GestureAction::NextDesktop => "workspace_next",
        GestureAction::PrevDesktop => "workspace_prev",
        GestureAction::BrowserBack => "browser_back",
        GestureAction::BrowserForward => "browser_forward",
        GestureAction::SwitchApp => "switch_app",
        GestureAction::NotificationCenter => "notifications",
        GestureAction::VolumeUp => "volume_up",
        GestureAction::VolumeDown => "volume_down",
        GestureAction::MediaPlayPause => "play_pause",
        GestureAction::ZoomIn => "zoom_in",
        GestureAction::ZoomOut => "zoom_out",
        GestureAction::Screenshot => "screenshot",
        GestureAction::Custom => "custom",
    }
}

/// One entry of the exported remapper profile.
pub struct RemapperMapping {
    pub trigger: &'static str,
    pub action: &'static str,
    pub custom: Option<String>,
}

pub struct MappingView {
    pub trigger: Seq<char>,
    pub action: Seq<char>,
    pub custom: Option<Seq<char>>,
}

impl View for RemapperMapping {
    type V = MappingView;

    open spec fn view(&self) -> MappingView {
        MappingView { trigger: self.trigger@, action: self.action@, custom: opt_str_view(self.custom) }
    }
}

/// The bound bindings (action other than none), in order, by name.
pub open spec fn mappings_of(bs: Seq<BindingView>) -> Seq<MappingView>
    decreases bs.len(),
{
    if bs.len() == 0 {
        Seq::empty()
    } else if bs.last().action != GestureAction::NoAction {
        mappings_of(bs.drop_last()).push(
            MappingView {
                trigger: trigger_label(bs.last().trigger),
                action: action_label(bs.last().action),
                custom: bs.last().custom,
            },
        )
    } else {
        mappings_of(bs.drop_last())
    }
}

/// The mapping table of the input-remapper profile.
pub fn remapper_mappings(map: &GestureMap) -> (r: Vec<RemapperMapping>)
    ensures
        r@.map_values(|m: RemapperMapping| m@) == mappings_of(map@.bindings),
{
    let ghost bs = map@.bindings;
    let mut r: Vec<RemapperMapping> = Vec::new();
    let mut i: usize = 0;
    while i < map.bindings.len()
        invariant
            i <= map.bindings.len(),
            bs == bindings_view(map.bindings@),
            r@.map_values(|m: RemapperMapping| m@) == mappings_of(bs.take(i as int)),
        decreases map.bindings.len() - i,
    {
        let b = &map.bindings[i];
        assert(bs.take(i + 1).drop_last() =~= bs.take(i as int));
        assert(bs.take(i + 1).last() == b@);
        if b.action != GestureAction::NoAction {
            let ghost before = r@;
            let m = RemapperMapping {
                trigger: trigger_name(b.trigger),
                action: action_name(b.action),
                custom: crate::models::copy_opt_string(&b.custom),
            };
            r.push(m);
            assert(r@.map_values(|m: RemapperMapping| m@) =~= before.map_values(
                |m: RemapperMapping| m@,
            ).push(m@));
        }
        i += 1;
    }
    assert(bs.take(map.bindings.len() as int) =~= bs);
    r
}

// ---------------------------------------------------------------------------
// Key chords and commands for actions
// ---------------------------------------------------------------------------

/// A key chord: modifiers held around one key.
#[derive(Debug, Clone)]
pub struct KeyChord {
    pub mods: Vec<&'static str>,
    pub key: String,
}

pub struct ChordView {
    pub mods: Seq<Seq<char>>,
    pub key: Seq<char>,
}

impl View for KeyChord {
    type V = ChordView;

    open spec fn view(&self) -> ChordView {
        ChordView { mods: self.mods@.map_values(|m: &'static str| m@), key: self.key@ }
    }
}

pub open spec fn chord(mods: Seq<Seq<char>>, key: Seq<char>) -> ChordView {
    ChordView { mods, key }
}

impl KeyChord {
    /// Super (logo) + `key`.
    pub fn super_key(key: &str) -> (c: KeyChord)
        ensures
            c@ == chord(seq!["logo"@], key@),
    {
        let mut mods: Vec<&'static str> = Vec::new();
        mods.push("logo");
        let c = KeyChord { mods, key: key.to_string() };
        assert(c@.mods =~= seq!["logo"@]);
        c
    }

    fn with_mod(m: &'static str, key: &str) -> (c: KeyChord)
        ensures
            c@ == chord(seq![m@], key@),
    {
        let mut mods: Vec<&'static str> = Vec::new();
        mods.push(m);
        let c = KeyChord { mods, key: key.to_string() };
        assert(c@.mods =~= seq![m@]);
        c
    }

    fn bare(key: &str) -> (c: KeyChord)
        ensures
            c@ == chord(Seq::empty(), key@),
    {
        let mods: Vec<&'static str> = Vec::new();
        let c = KeyChord { mods, key: key.to_string() };
        assert(c@.mods =~= Seq::<Seq<char>>::empty());
        c
    }
}

/// Wayland/X11 key chords matching Budgie+labwc defaults.
pub open spec fn chord_for(a: GestureAction) -> Option<ChordView> {
    match a {
        GestureAction::PrevDesktop => Some(chord(seq!["logo"@], "Prior"@)),
        GestureAction::NextDesktop => Some(chord(seq!["logo"@], "Next"@)),
        GestureAction::DesktopShow => Some(chord(seq!["logo"@], "d"@)),
        GestureAction::NotificationCenter => Some(chord(seq!["logo"@], "a"@)),
        GestureAction::SwitchApp => Some(chord(seq!["logo"@], "Tab"@)),
        GestureAction::MissionControl => Some(chord(seq!["logo"@], "Tab"@)),
        GestureAction::AppExpose => Some(chord(seq!["alt"@], "Tab"@)),
        GestureAction::BrowserBack => Some(chord(seq!["alt"@], "Left"@)),
        GestureAction::BrowserForward => Some(chord(seq!["alt"@], "Right"@)),
        GestureAction::VolumeUp => Some(chord(Seq::empty(), "XF86AudioRaiseVolume"@)),
        GestureAction::VolumeDown => Some(chord(Seq::empty(), "XF86AudioLowerVolume"@)),
        GestureAction::MediaPlayPause => Some(chord(Seq::empty(), "XF86AudioPlay"@)),
        GestureAction::ZoomIn => Some(chord(seq!["ctrl"@], "equal"@)),
        GestureAction::ZoomOut => Some(chord(seq!["ctrl"@], "minus"@)),
        GestureAction::Screenshot => Some(chord(Seq::empty(), "Print"@)),
        GestureAction::NoAction | GestureAction::Custom => None,
    }
}

pub fn action_to_keys(action: GestureAction) -> (r: Option<KeyChord>)
    ensures
        match r {
            Some(c) => chord_for(action) == Some(c@),
            None => chord_for(action) is None,
        },
{
    match action {
        GestureAction::PrevDesktop => Some(KeyChord::super_key("Prior")),
        GestureAction::NextDesktop => Some(KeyChord::super_key("Next")),
        GestureAction::DesktopShow => Some(KeyChord::super_key("d")),
        GestureAction::NotificationCenter => Some(KeyChord::super_key("a")),
        GestureAction::SwitchApp => Some(KeyChord::super_key("Tab")),
        GestureAction::MissionControl => Some(KeyChord::super_key("Tab")),
        GestureAction::AppExpose => Some(KeyChord::with_mod("alt", "Tab")),
        GestureAction::BrowserBack => Some(KeyChord::with_mod("alt", "Left")),
        GestureAction::BrowserForward => Some(KeyChord::with_mod("alt", "Right")),
        GestureAction::VolumeUp => Some(KeyChord::bare("XF86AudioRaiseVolume")),
        GestureAction::VolumeDown => Some(KeyChord::bare("XF86AudioLowerVolume")),
        GestureAction::MediaPlayPause => Some(KeyChord::bare("XF86AudioPlay")),
        GestureAction::ZoomIn => Some(KeyChord::with_mod("ctrl", "equal")),
        GestureAction::ZoomOut => Some(KeyChord::with_mod("ctrl", "minus")),
        GestureAction::Screenshot => Some(KeyChord::bare("Print")),
        GestureAction::NoAction | GestureAction::Custom => None,
    }
}

pub open spec fn command_for(a: GestureAction) -> Option<Seq<char>> {
    match a {
        GestureAction::VolumeUp => Some(
            "pactl set-sink-volume @DEFAULT_SINK@ +5% 2>/dev/null || true"@,
        ),
        GestureAction::VolumeDown => Some(
            "pactl set-sink-volume @DEFAULT_SINK@ -5% 2>/dev/null || true"@,
        ),
        GestureAction::Screenshot => Some(SCREENSHOT_COMMAND@),
        GestureAction::BrowserBack => Some(BROWSER_BACK_COMMAND@),
        GestureAction::BrowserForward => Some(BROWSER_FORWARD_COMMAND@),
        _ => None,
    }
}

/// Browser back without relying on Alt+Left alone: the `XF86Back` key, then
/// the back mouse button (`ydotool` on Wayland, `xdotool` on X11). Exits
/// non-zero when none is available so the caller falls back to Alt+Left.
pub const BROWSER_BACK_COMMAND: &'static str =
    "if command -v wtype >/dev/null && wtype -k XF86Back; then exit 0; \
     elif command -v ydotool >/dev/null && ydotool click 0xC3; then exit 0; \
     elif command -v xdotool >/dev/null && xdotool click 8; then exit 0; \
     else exit 1; fi";

/// Browser forward: the `XF86Forward` key, then the forward mouse button;
/// non-zero exit makes the caller fall back to Alt+Right.
pub const BROWSER_FORWARD_COMMAND: &'static str =
    "if command -v wtype >/dev/null && wtype -k XF86Forward; then exit 0; \
     elif command -v ydotool >/dev/null && ydotool click 0xC4; then exit 0; \
     elif command -v xdotool >/dev/null && xdotool click 9; then exit 0; \
     else exit 1; fi";

/// Budgie Screenshot interactive UI (EndeavourOS Budgie default). Exits
/// non-zero if no tool is found so the caller can fall back to the Print key.
pub const SCREENSHOT_COMMAND: &'static str =
    "if command -v org.buddiesofbudgie.BudgieScreenshot >/dev/null; then \
       org.buddiesofbudgie.BudgieScreenshot -i; \
     elif command -v dbus-send >/dev/null; then \
       dbus-send --type=method_call \
         --dest=org.buddiesofbudgie.BudgieScreenshotControl \
         /org/buddiesofbudgie/ScreenshotControl \
         org.buddiesofbudgie.BudgieScreenshotControl.StartMainWindow; \
     elif command -v gnome-screenshot >/dev/null; then \
       gnome-screenshot -i; \
     elif command -v flameshot >/dev/null; then \
       flameshot gui; \
     else exit 1; fi";

pub fn action_to_command(action: GestureAction) -> (r: Option<&'static str>)
    ensures
        match r {
            Some(c) => command_for(action) == Some(c@),
            None => command_for(action) is None,
        },
{
    match action {
        GestureAction::VolumeUp => Some(
            "pactl set-sink-volume @DEFAULT_SINK@ +5% 2>/dev/null || true",
        ),
        GestureAction::VolumeDown => Some(
            "pactl set-sink-volume @DEFAULT_SINK@ -5% 2>/dev/null || true",
        ),
        GestureAction::Screenshot => Some(SCREENSHOT_COMMAND),
        GestureAction::BrowserBack => Some(BROWSER_BACK_COMMAND),
        GestureAction::BrowserForward => Some(BROWSER_FORWARD_COMMAND),
        _ => None,
    }
}

// ---------------------------------------------------------------------------
// Key injection arguments
// ---------------------------------------------------------------------------

/// `-M m` for each modifier, in order.
pub open spec fn wtype_press(mods: Seq<Seq<char>>) -> Seq<Seq<char>>
    decreases mods.len(),
{
    if mods.len() == 0 {
        Seq::empty()
    } else {
        wtype_press(mods.drop_last()) + seq!["-M"@, mods.last()]
    }
}

/// `-m m` for each modifier, in reverse order.
pub open spec fn wtype_release(mods: Seq<Seq<char>>) -> Seq<Seq<char>>
    decreases mods.len(),
{
    if mods.len() == 0 {
        Seq::empty()
    } else {
        seq!["-m"@, mods.last()] + wtype_release(mods.drop_last())
    }
}

/// The arguments of `wtype` for a chord.
pub open spec fn wtype_argv(c: ChordView) -> Seq<Seq<char>> {
    wtype_press(c.mods) + seq!["-k"@, c.key] + wtype_release(c.mods)
}

fn push_str_arg(v: &mut Vec<String>, s: &str)
    ensures
        final(v)@.map_values(|x: String| x@) == old(v)@.map_values(|x: String| x@).push(s@),
{
    let ghost before = v@;
    v.push(s.to_string());
    assert(v@.map_values(|x: String| x@) =~= before.map_values(|x: String| x@).push(s@));
}

/// Builds the `wtype` arguments: press the modifiers, tap the key, release
/// the modifiers in reverse order.
pub fn wtype_args(c: &KeyChord) -> (r: Vec<String>)
    ensures
        r@.map_values(|x: String| x@) == wtype_argv(c@),
{
    let ghost mods = c@.mods;
    let mut r: Vec<String> = Vec::new();
    let mut i: usize = 0;
    assert(mods.take(0) =~= Seq::<Seq<char>>::empty());
    assert(r@.map_values(|x: String| x@) =~= Seq::<Seq<char>>::empty());
    while i < c.mods.len()
        invariant
            i <= c.mods.len(),
            mods == c@.mods,
            r@.map_values(|x: String| x@) == wtype_press(mods.take(i as int)),
        decreases c.mods.len() - i,
    {
        assert(mods.take(i + 1).drop_last() =~= mods.take(i as int));
        assert(mods[i as int] == c.mods@[i as int]@);
        let ghost p = r@.map_values(|x: String| x@);
        push_str_arg(&mut r, "-M");
        push_str_arg(&mut r, c.mods[i]);
        assert(p.push("-M"@).push(mods[i as int]) =~= p + seq!["-M"@, mods[i as int]]);
        i += 1;
    }
    assert(mods.take(c.mods.len() as int) =~= mods);
    let ghost p = r@.map_values(|x: String| x@);
    push_str_arg(&mut r, "-k");
    push_str_arg(&mut r, c.key.as_str());
    assert(p.push("-k"@).push(c.key@) =~= p + seq!["-k"@, c.key@]);
    let ghost head = r@.map_values(|x: String| x@);
    let mut j: usize = c.mods.len();
    assert(mods.take(j as int) =~= mods);
    while j > 0
        invariant
            j <= c.mods.len(),
            mods == c@.mods,
            head == wtype_press(mods) + seq!["-k"@, c@.key],
            r@.map_values(|x: String| x@) + wtype_release(mods.take(j as int)) == head
                + wtype_release(mods),
        decreases j,
    {
        assert(mods.take(j as int).drop_last() =~= mods.take(j - 1));
        assert(mods[j - 1] == c.mods@[j - 1]@);
        let ghost p = r@.map_values(|x: String| x@);
        push_str_arg(&mut r, "-m");
        push_str_arg(&mut r, c.mods[j - 1]);
        assert(p.push("-m"@).push(mods[j - 1]) + wtype_release(mods.take(j - 1)) =~= p
            + wtype_release(mods.take(j as int)));
        j -= 1;
    }
    assert(wtype_release(mods.take(0)) =~= Seq::<Seq<char>>::empty());
    assert(r@.map_values(|x: String| x@) =~= r@.map_values(|x: String| x@) + Seq::<
        Seq<char>,
    >::empty());
    r
}

/// The `xdotool` name of a `wtype` modifier.
pub open spec fn xdotool_mod(m: Seq<char>) -> Seq<char> {
    if m == "logo"@ || m == "super"@ {
        "super"@
    } else if m == "alt"@ {
        "alt"@
    } else if m == "ctrl"@ || m == "control"@ {
        "ctrl"@
    } else if m == "shift"@ {
        "shift"@
    } else {
        m
    }
}

/// The modifiers joined by `+` (a separator only after a non-empty prefix).
pub open spec fn xdotool_mods(mods: Seq<Seq<char>>) -> Seq<char>
    decreases mods.len(),
{
    if mods.len() == 0 {
        Seq::empty()
    } else {
        let p = xdotool_mods(mods.drop_last());
        let sep: Seq<char> = if p.len() > 0 {
            "+"@
        } else {
            Seq::empty()
        };
        p + sep + xdotool_mod(mods.last())
    }
}

/// The `xdotool key` argument for a chord, e.g. `super+Tab`.
pub open spec fn xdotool_combo_of(c: ChordView) -> Seq<char> {
    let p = xdotool_mods(c.mods);
    let sep: Seq<char> = if p.len() > 0 {
        "+"@
    } else {
        Seq::empty()
    };
    p + sep + c.key
}

fn xdotool_mod_exec(m: &str) -> (r: &str)
    ensures
        r@ == xdotool_mod(m@),
{
    let v = chars_of(m);
    if crate::text::eq_str(&v, "logo") || crate::text::eq_str(&v, "super") {
        "super"
    } else if crate::text::eq_str(&v, "alt") {
        "alt"
    } else if crate::text::eq_str(&v, "ctrl") || crate::text::eq_str(&v, "control") {
        "ctrl"
    } else if crate::text::eq_str(&v, "shift") {
        "shift"
    } else {
        m
    }
}

pub fn xdotool_combo(c: &KeyChord) -> (r: String)
    ensures
        r@ == xdotool_combo_of(c@),
{
    let ghost mods = c@.mods;
    let mut combo: Vec<char> = Vec::new();
    let mut i: usize = 0;
    assert(combo@ =~= xdotool_mods(mods.take(0)));
    while i < c.mods.len()
        invariant
            i <= c.mods.len(),
            mods == c@.mods,
            combo@ == xdotool_mods(mods.take(i as int)),
        decreases c.mods.len() - i,
    {
        assert(mods.take(i + 1).drop_last() =~= mods.take(i as int));
        assert(mods[i as int] == c.mods@[i as int]@);
        let ghost p = combo@;
        let xm = xdotool_mod_exec(c.mods[i]);
        if combo.len() > 0 {
            combo.push('+');
        }
        append_str(&mut combo, xm);
        proof {
            let sep: Seq<char> = if p.len() > 0 {
                "+"@
            } else {
                Seq::empty()
            };
            if p.len() > 0 {
                assert("+"@ =~= seq!['+']) by {
                    reveal_strlit("+");
                }
            }
            assert(combo@ =~= p + sep + xdotool_mod(mods[i as int]));
        }
        i += 1;
    }
    assert(mods.take(c.mods.len() as int) =~= mods);
    let ghost p = combo@;
    if combo.len() > 0 {
        combo.push('+');
    }
    append_str(&mut combo, c.key.as_str());
    proof {
        if p.len() > 0 {
            assert("+"@ =~= seq!['+']) by {
                reveal_strlit("+");
            }
            assert(combo@ =~= p + "+"@ + c.key@);
        } else {
            assert(combo@ =~= p + Seq::<char>::empty() + c.key@);
        }
    }
    string_of(&combo)
}

// ---------------------------------------------------------------------------
// Running a binding
// ---------------------------------------------------------------------------

/// What running a binding amounts to.
pub enum ActionPlan {
    /// Nothing to run.
    Idle,
    /// Spawn `sh -c <command>` and return.
    Spawn(String),
    /// Run the action's command (when there is one); when it is absent or does
    /// not succeed, inject the key chord (when there is one).
    CommandThenKeys { command: Option<&'static str>, keys: Option<KeyChord> },
}

pub open spec fn plan_matches(p: ActionPlan, b: BindingView) -> bool {
    if b.action == GestureAction::Custom {
        match b.custom {
            Some(cmd) => p matches ActionPlan::Spawn(c) && c@ == cmd,
            None => p is Idle,
        }
    } else if b.custom matches Some(cmd) && cmd.len() > 0 {
        p matches ActionPlan::Spawn(c) && c@ == b.custom->0
    } else {
        &&& p matches ActionPlan::CommandThenKeys { command, keys }
        &&& (match command {
            Some(c) => command_for(b.action) == Some(c@),
            None => command_for(b.action) is None,
        })
        &&& (match keys {
            Some(k) => chord_for(b.action) == Some(k@),
            None => chord_for(b.action) is None,
        })
    }
}

/// Custom bindings spawn their command; any other binding with a non-empty
/// custom command spawns it; otherwise the action's command and key chord.
pub fn plan_action(binding: &GestureBinding) -> (p: ActionPlan)
    ensures
        plan_matches(p, binding@),
{
    if binding.action == GestureAction::Custom {
        return match &binding.custom {
            Some(cmd) => ActionPlan::Spawn(cmd.clone()),
            None => ActionPlan::Idle,
        };
    }
    match &binding.custom {
        Some(cmd) => {
            if cmd.as_str().unicode_len() > 0 {
                return ActionPlan::Spawn(cmd.clone());
            }
        },
        None => {},
    }
    ActionPlan::CommandThenKeys {
        command: action_to_command(binding.action),
        keys: action_to_keys(binding.action),
    }
}

/// Index of the first binding for trigger `t`, from `i` on.
pub open spec fn binding_index(bs: Seq<BindingView>, t: GestureTrigger, i: int) -> Option<int>
    decreases bs.len() - i,
{
    if i < 0 || i >= bs.len() {
        None
    } else if bs[i].trigger == t {
        Some(i)
    } else {
        binding_index(bs, t, i + 1)
    }
}

/// The binding a trigger fires: its first binding, unless that is unbound.
pub open spec fn fired_binding(bs: Seq<BindingView>, t: GestureTrigger) -> Option<int> {
    match binding_index(bs, t, 0) {
        Some(i) => if bs[i].action != GestureAction::NoAction {
            Some(i)
        } else {
            None
        },
        None => None,
    }
}

/// The binding to execute for `trigger`, by index; `None` when the trigger is
/// not bound (nothing fires).
pub fn fire_trigger(map: &GestureMap, trigger: GestureTrigger) -> (r: Option<usize>)
    ensures
        match r {
            Some(i) => fired_binding(map@.bindings, trigger) == Some(i as int) && i
                < map.bindings.len(),
            None => fired_binding(map@.bindings, trigger) is None,
        },
{
    let ghost bs = map@.bindings;
    let mut i: usize = 0;
    while i < map.bindings.len()
        invariant
            i <= map.bindings.len(),
            bs == bindings_view(map.bindings@),
            binding_index(bs, trigger, 0) == binding_index(bs, trigger, i as int),
        decreases map.bindings.len() - i,
    {
        assert(bs[i as int] == map.bindings@[i as int]@);
        if map.bindings[i].trigger == trigger {
            if map.bindings[i].action == GestureAction::NoAction {
                return None;
            }
            return Some(i);
        }
        i += 1;
    }
    None
}

// ---------------------------------------------------------------------------
// Gesture decisions
// ---------------------------------------------------------------------------

#[derive(Debug, Clone, Copy, PartialEq, Eq, Structural)]
pub enum SwipeDirection {
    Left,
    Right,
    Up,
    Down,
}

#[derive(Debug, Clone, Copy, PartialEq, Eq, Structural)]
pub enum PinchDirection {
    /// Fingers together: zoom out.
    In,
    /// Fingers apart: zoom in.
    Out,
}

pub open spec fn swipe_trigger_of(fingers: u8, d: SwipeDirection) -> Option<GestureTrigger> {
    if fingers == 3 {
        Some(
            match d {
                SwipeDirection::Left => GestureTrigger::ThreeFingerSwipeLeft,
                SwipeDirection::Right => GestureTrigger::ThreeFingerSwipeRight,
                SwipeDirection::Up => GestureTrigger::ThreeFingerSwipeUp,
                SwipeDirection::Down => GestureTrigger::ThreeFingerSwipeDown,
            },
        )
    } else if fingers == 4 {
        Some(
            match d {
                SwipeDirection::Left => GestureTrigger::FourFingerSwipeLeft,
                SwipeDirection::Right => GestureTrigger::FourFingerSwipeRight,
                SwipeDirection::Up => GestureTrigger::FourFingerSwipeUp,
                SwipeDirection::Down => GestureTrigger::FourFingerSwipeDown,
            },
        )
    } else {
        None
    }
}

/// Minimum time between two fired swipes, in nanoseconds.
pub const SWIPE_DEBOUNCE_NS: u128 = 350_000_000;

/// Minimum time between two fired taps, in nanoseconds.
pub const TAP_DEBOUNCE_NS: u128 = 400_000_000;

/// Longest hold that still counts as a tap, in nanoseconds.
pub const TAP_MAX_HOLD_NS: u128 = 450_000_000;

/// Minimum time between two fired pinches, in nanoseconds.
pub const PINCH_DEBOUNCE_NS: u128 = 280_000_000;

pub open spec fn swipe_fired(fingers: u8, direction: Option<SwipeDirection>, since_last_ns: u128) -> Option<
    GestureTrigger,
> {
    match direction {
        Some(d) => if since_last_ns < SWIPE_DEBOUNCE_NS {
            None
        } else {
            swipe_trigger_of(fingers, d)
        },
        None => None,
    }
}

/// The trigger a finished swipe fires. `direction` is `None` when the swipe
/// stayed below the movement threshold; `since_last_ns` is the time since the
/// last fired gesture.
pub fn swipe_decision(fingers: u8, direction: Option<SwipeDirection>, since_last_ns: u128) -> (r:
    Option<GestureTrigger>)
    ensures
        r == swipe_fired(fingers, direction, since_last_ns),
{
    let d = match direction {
        Some(d) => d,
        None => {
            return None;
        },
    };
    if since_last_ns < SWIPE_DEBOUNCE_NS {
        return None;
    }
    if fingers == 3 {
        Some(
            match d {
                SwipeDirection::Left => GestureTrigger::ThreeFingerSwipeLeft,
                SwipeDirection::Right => GestureTrigger::ThreeFingerSwipeRight,
                SwipeDirection::Up => GestureTrigger::ThreeFingerSwipeUp,
                SwipeDirection::Down => GestureTrigger::ThreeFingerSwipeDown,
            },
        )
    } else if fingers == 4 {
        Some(
            match d {
                SwipeDirection::Left => GestureTrigger::FourFingerSwipeLeft,
                SwipeDirection::Right => GestureTrigger::FourFingerSwipeRight,
                SwipeDirection::Up => GestureTrigger::FourFingerSwipeUp,
                SwipeDirection::Down => GestureTrigger::FourFingerSwipeDown,
            },
        )
    } else {
        None
    }
}

pub open spec fn tap_trigger_of(fingers: u8, held_ns: u128, since_last_ns: u128) -> Option<
    GestureTrigger,
> {
    if held_ns > TAP_MAX_HOLD_NS || since_last_ns < TAP_DEBOUNCE_NS {
        None
    } else if fingers == 3 {
        Some(GestureTrigger::ThreeFingerTap)
    } else if fingers == 4 {
        Some(GestureTrigger::FourFingerTap)
    } else {
        None
    }
}

/// The trigger a multi-finger hold fires as a tap: a short hold of three or
/// four fingers, away from the last fired gesture.
pub fn maybe_fire_tap(fingers: u8, held_ns: u128, since_last_ns: u128) -> (r: Option<
    GestureTrigger,
>)
    ensures
        r == tap_trigger_of(fingers, held_ns, since_last_ns),
{
    if held_ns > TAP_MAX_HOLD_NS {
        return None;
    }
    if since_last_ns < TAP_DEBOUNCE_NS {
        return None;
    }
    if fingers == 3 {
        Some(GestureTrigger::ThreeFingerTap)
    } else if fingers == 4 {
        Some(GestureTrigger::FourFingerTap)
    } else {
        None
    }
}

pub open spec fn pinch_fired(direction: Option<PinchDirection>, since_last_ns: u128) -> Option<
    GestureTrigger,
> {
    if since_last_ns < PINCH_DEBOUNCE_NS {
        None
    } else {
        match direction {
            Some(PinchDirection::In) => Some(GestureTrigger::PinchIn),
            Some(PinchDirection::Out) => Some(GestureTrigger::PinchOut),
            None => None,
        }
    }
}

/// The finger count of a finished hold: the count on its end line, else the
/// one on its begin line (0 stands for no count).
pub open spec fn hold_fingers(begin_fingers: u8, end_fingers: u8) -> u8 {
    if end_fingers > 0 {
        end_fingers
    } else {
        begin_fingers
    }
}

/// The tap a finished hold fires: a short multi-finger hold counts as a tap.
/// `begin_fingers` and `end_fingers` are the counts of its begin and end lines.
pub fn hold_tap(begin_fingers: u8, end_fingers: u8, held_ns: u128, since_last_ns: u128) -> (r:
    Option<GestureTrigger>)
    ensures
        r == tap_trigger_of(hold_fingers(begin_fingers, end_fingers), held_ns, since_last_ns),
{
    let f = if end_fingers > 0 {
        end_fingers
    } else {
        begin_fingers
    };
    maybe_fire_tap(f, held_ns, since_last_ns)
}

/// The trigger a finished pinch fires. `direction` is `None` when the scale
/// stayed near 1.
pub fn pinch_decision(direction: Option<PinchDirection>, since_last_ns: u128) -> (r: Option<
    GestureTrigger,
>)
    ensures
        r == pinch_fired(direction, since_last_ns),
{
    if since_last_ns < PINCH_DEBOUNCE_NS {
        return None;
    }
    match direction {
        Some(PinchDirection::In) => Some(GestureTrigger::PinchIn),
        Some(PinchDirection::Out) => Some(GestureTrigger::PinchOut),
        None => None,
    }
}

// ---------------------------------------------------------------------------
// Loading and labelling maps
// ---------------------------------------------------------------------------

/// Older configs left pinch unbound; those bindings get zoom out / zoom in.
pub open spec fn upgraded(b: BindingView) -> BindingView {
    if b.trigger == GestureTrigger::PinchIn && b.action == GestureAction::NoAction {
        BindingView { action: GestureAction::ZoomOut, ..b }
    } else if b.trigger == GestureTrigger::PinchOut && b.action == GestureAction::NoAction {
        BindingView { action: GestureAction::ZoomIn, ..b }
    } else {
        b
    }
}

pub fn upgrade_pinch_bindings(map: &mut GestureMap)
    ensures
        final(map)@.backend == old(map)@.backend,
        final(map)@.bindings == old(map)@.bindings.map_values(|b: BindingView| upgraded(b)),
{
    let ghost old_bs = map@.bindings;
    let mut out: Vec<GestureBinding> = Vec::new();
    let mut i: usize = 0;
    while i < map.bindings.len()
        invariant
            i <= map.bindings.len(),
            old_bs == bindings_view(map.bindings@),
            bindings_view(out@) == old_bs.take(i as int).map_values(|b: BindingView| upgraded(b)),
        decreases map.bindings.len() - i,
    {
        let mut b = map.bindings[i].duplicate();
        if b.trigger == GestureTrigger::PinchIn && b.action == GestureAction::NoAction {
            b.action = GestureAction::ZoomOut;
        } else if b.trigger == GestureTrigger::PinchOut && b.action == GestureAction::NoAction {
            b.action = GestureAction::ZoomIn;
        }
        assert(b@ == upgraded(old_bs[i as int]));
        let ghost before = out@;
        out.push(b);
        assert(bindings_view(out@) =~= bindings_view(before).push(b@));
        i += 1;
        assert(old_bs.take(i as int).map_values(|b: BindingView| upgraded(b)) =~= old_bs.take(
            i - 1,
        ).map_values(|b: BindingView| upgraded(b)).push(upgraded(old_bs[i - 1])));
    }
    assert(old_bs.take(map.bindings.len() as int) =~= old_bs);
    map.bindings = out;
}

/// The backend label reported on Linux, from the desktop name and the tools found.
pub open spec fn backend_label(desktop: Seq<char>, has_labwc: bool, has_remapper: bool) -> Seq<
    char,
> {
    let d = lower(desktop);
    if contains(d, "budgie"@) || has_labwc {
        "libinput-daemon (Budgie/labwc)"@
    } else if has_remapper {
        "libinput-daemon + input-remapper"@
    } else if contains(d, "gnome"@) {
        "libinput-daemon (GNOME keys)"@
    } else {
        "libinput-daemon"@
    }
}

/// `desktop` is `XDG_CURRENT_DESKTOP` (empty when unset); `has_labwc` and
/// `has_remapper` say whether `labwc` and an input-remapper tool are on the path.
pub fn detect_backend(desktop: &str, has_labwc: bool, has_remapper: bool) -> (r: String)
    ensures
        r@ == backend_label(desktop@, has_labwc, has_remapper),
{
    let d = lower_of(desktop);
    if contains_str(&d, "budgie") || has_labwc {
        "libinput-daemon (Budgie/labwc)".to_string()
    } else if has_remapper {
        "libinput-daemon + input-remapper".to_string()
    } else if contains_str(&d, "gnome") {
        "libinput-daemon (GNOME keys)".to_string()
    } else {
        "libinput-daemon".to_string()
    }
}

/// A Linux map as loaded: the stored map (when there is one) with its backend
/// relabelled and its pinch bindings upgraded; otherwise the defaults.
pub open spec fn linux_loaded(stored: Option<GestureMapView>, backend: Seq<char>) -> GestureMapView {
    match stored {
        Some(m) => GestureMapView {
            bindings: m.bindings.map_values(|b: BindingView| upgraded(b)),
            backend,
        },
        None => GestureMap::default_with(backend, true),
    }
}

pub fn load_linux_map(stored: Option<GestureMap>, backend: String) -> (r: GestureMap)
    ensures
        r@ == linux_loaded(
            match stored {
                Some(m) => Some(m@),
                None => None,
            },
            backend@,
        ),
{
    match stored {
        Some(m) => {
            let mut m = m;
            m.backend = backend;
            upgrade_pinch_bindings(&mut m);
            m
        },
        None => {
            let mut m = GestureMap::defaults_with("", true);
            m.backend = backend;
            m
        },
    }
}

/// The map the daemon runs with: the stored map (backend defaulted when
/// empty) or the defaults, labelled `libinput-daemon`.
pub open spec fn daemon_loaded(stored: Option<GestureMapView>) -> GestureMapView {
    match stored {
        Some(m) => if m.backend.len() == 0 {
            GestureMapView { backend: "libinput-daemon"@, ..m }
        } else {
            m
        },
        None => GestureMap::default_with("libinput-daemon"@, true),
    }
}

pub fn daemon_map(stored: Option<GestureMap>) -> (r: GestureMap)
    ensures
        r@ == daemon_loaded(
            match stored {
                Some(m) => Some(m@),
                None => None,
            },
        ),
{
    match stored {
        Some(m) => {
            let mut m = m;
            if m.backend.as_str().unicode_len() == 0 {
                m.backend = "libinput-daemon".to_string();
            }
            m
        },
        None => GestureMap::defaults_with("libinput-daemon", true),
    }
}

/// A tap decision for fewer than three fingers is no tap, whatever its timing.
pub proof fn law_tap_needs_three_fingers(fingers: u8, held_ns: u128, since_last_ns: u128)
    requires
        fingers < 3,
    ensures
        tap_trigger_of(fingers, held_ns, since_last_ns) is None,
{
}

/// Distinct triggers have distinct names in the remapper profile.
pub proof fn law_trigger_names_distinct(a: GestureTrigger, b: GestureTrigger)
    requires
        a != b,
    ensures
        trigger_label(a) != trigger_label(b),
{
    reveal_strlit("3finger_swipe_left");
    reveal_strlit("3finger_swipe_right");
    reveal_strlit("3finger_swipe_up");
    reveal_strlit("3finger_swipe_down");
    reveal_strlit("3finger_tap");
    reveal_strlit("4finger_swipe_left");
    reveal_strlit("4finger_swipe_right");
    reveal_strlit("4finger_swipe_up");
    reveal_strlit("4finger_swipe_down");
    reveal_strlit("4finger_tap");
    reveal_strlit("pinch_in");
    reveal_strlit("pinch_out");
    let la = trigger_label(a);
    let lb = trigger_label(b);
    if la == lb {
        assert(la.len() == lb.len());
        assert(la[0] == lb[0]);
        if la.len() > 14 {
            assert(la[14] == lb[14]);
        }
    }
}

/// Distinct actions have distinct names in the remapper profile.
pub proof fn law_action_names_distinct(a: GestureAction, b: GestureAction)
    requires
        a != b,
    ensures
        action_label(a) != action_label(b),
{
    reveal_strlit("none");
    reveal_strlit("overview");
    reveal_strlit("app_expose");
    reveal_strlit("show_desktop");
    reveal_strlit("workspace_next");
    reveal_strlit("workspace_prev");
    reveal_strlit("browser_back");
    reveal_strlit("browser_forward");
    reveal_strlit("switch_app");
    reveal_strlit("notifications");
    reveal_strlit("volume_up");
    reveal_strlit("volume_down");
    reveal_strlit("play_pause");
    reveal_strlit("zoom_in");
    reveal_strlit("zoom_out");
    reveal_strlit("screenshot");
    reveal_strlit("custom");
    let la = action_label(a);
    let lb = action_label(b);
    if la == lb {
        assert(la.len() == lb.len());
        assert(la[0] == lb[0]);
        assert(la[1] == lb[1]);
        if la.len() > 10 {
            assert(la[10] == lb[10]);
        }
    }
}

/// Nothing fires within a gesture's debounce time of the last fired gesture.
pub proof fn law_debounce(
    fingers: u8,
    swipe: Option<SwipeDirection>,
    pinch: Option<PinchDirection>,
    held_ns: u128,
    since_last_ns: u128,
)
    ensures
        since_last_ns < SWIPE_DEBOUNCE_NS ==> swipe_fired(fingers, swipe, since_last_ns) is None,
        since_last_ns < TAP_DEBOUNCE_NS ==> tap_trigger_of(fingers, held_ns, since_last_ns) is None,
        since_last_ns < PINCH_DEBOUNCE_NS ==> pinch_fired(pinch, since_last_ns) is None,
{
}

/// A swipe fires only for three or four fingers, and then the trigger of
/// that finger count and direction.
pub proof fn law_swipe_fingers(fingers: u8, d: SwipeDirection, since_last_ns: u128)
    ensures
        swipe_fired(fingers, Some(d), since_last_ns) is Some ==> (fingers == 3 || fingers == 4),
        swipe_fired(fingers, Some(d), since_last_ns) is Some ==> swipe_fired(
            fingers,
            Some(d),
            since_last_ns,
        ) == swipe_trigger_of(fingers, d),
{
}

/// The binding a trigger fires is its first binding, and only when that
/// binding is bound to an action.
pub proof fn law_fired_binding(bs: Seq<BindingView>, t: GestureTrigger)
    ensures
        fired_binding(bs, t) matches Some(i) ==> 0 <= i < bs.len() && bs[i].trigger == t
            && bs[i].action != GestureAction::NoAction && forall|k: int|
            0 <= k < i ==> (#[trigger] bs[k]).trigger != t,
        (forall|k: int| 0 <= k < bs.len() ==> (#[trigger] bs[k]).trigger != t) ==> fired_binding(
            bs,
            t,
        ) is None,
{
    lemma_binding_index(bs, t, 0);
}

proof fn lemma_binding_index(bs: Seq<BindingView>, t: GestureTrigger, i: int)
    requires
        0 <= i,
    ensures
        binding_index(bs, t, i) matches Some(j) ==> i <= j < bs.len() && bs[j].trigger == t
            && forall|k: int| i <= k < j ==> (#[trigger] bs[k]).trigger != t,
        (forall|k: int| i <= k < bs.len() ==> (#[trigger] bs[k]).trigger != t) ==> binding_index(
            bs,
            t,
            i,
        ) is None,
    decreases bs.len() - i,
{
    if i < bs.len() {
        lemma_binding_index(bs, t, i + 1);
    }
}

/// Browser back and forward run a key and mouse-button cascade first and
/// inject Alt+Left / Alt+Right only when that fails.
pub proof fn law_browser_navigation_cascade(b: BindingView, p: ActionPlan)
    requires
        b.action == GestureAction::BrowserBack || b.action == GestureAction::BrowserForward,
        b.custom is None,
        plan_matches(p, b),
    ensures
        p matches ActionPlan::CommandThenKeys { command, keys } && (match command {
            Some(c) => c@ == (if b.action == GestureAction::BrowserBack {
                BROWSER_BACK_COMMAND@
            } else {
                BROWSER_FORWARD_COMMAND@
            }),
            None => false,
        }) && (match keys {
            Some(k) => k@ == chord(
                seq!["alt"@],
                if b.action == GestureAction::BrowserBack {
                    "Left"@
                } else {
                    "Right"@
                },
            ),
            None => false,
        }),
{
}

/// A map that was stored (under whatever backend label) loads back on Linux
/// with the current label and the same bindings, in order, except that an
/// unbound pinch in is bound to zoom out and an unbound pinch out to zoom in.
pub proof fn law_stored_map_loads_back(stored: GestureMapView, label: Seq<char>)
    ensures
        linux_loaded(Some(stored), label).backend == label,
        linux_loaded(Some(stored), label).bindings.len() == stored.bindings.len(),
        forall|i: int|
            0 <= i < stored.bindings.len() ==> {
                let b = #[trigger] stored.bindings[i];
                let l = linux_loaded(Some(stored), label).bindings[i];
                &&& l.trigger == b.trigger
                &&& l.custom == b.custom
                &&& l.available == b.available
                &&& l.action == if b.trigger == GestureTrigger::PinchIn && b.action
                    == GestureAction::NoAction {
                    GestureAction::ZoomOut
                } else if b.trigger == GestureTrigger::PinchOut && b.action
                    == GestureAction::NoAction {
                    GestureAction::ZoomIn
                } else {
                    b.action
                }
            },
{
}


/// The word a swipe direction has in trigger names.
pub open spec fn direction_word(d: SwipeDirection) -> Seq<char> {
    match d {
        SwipeDirection::Left => "left"@,
        SwipeDirection::Right => "right"@,
        SwipeDirection::Up => "up"@,
        SwipeDirection::Down => "down"@,
    }
}

/// A swipe of three or four fingers in direction `d`, past the debounce,
/// fires exactly the trigger named after that finger count and that
/// direction (four fingers to the left fire `4finger_swipe_left`); no other
/// finger count fires a swipe.
pub proof fn law_swipe_fires_its_own_trigger(fingers: u8, d: SwipeDirection, since_last_ns: u128)
    ensures
        (fingers == 3 || fingers == 4) && since_last_ns >= SWIPE_DEBOUNCE_NS ==> (swipe_fired(
            fingers,
            Some(d),
            since_last_ns,
        ) matches Some(t) && trigger_label(t) == (if fingers == 3 {
            "3finger_swipe_"@
        } else {
            "4finger_swipe_"@
        }) + direction_word(d)),
        !(fingers == 3 || fingers == 4) ==> swipe_fired(fingers, Some(d), since_last_ns) is None,
{
    reveal_strlit("3finger_swipe_");
    reveal_strlit("4finger_swipe_");
    reveal_strlit("left");
    reveal_strlit("right");
    reveal_strlit("up");
    reveal_strlit("down");
    reveal_strlit("3finger_swipe_left");
    reveal_strlit("3finger_swipe_right");
    reveal_strlit("3finger_swipe_up");
    reveal_strlit("3finger_swipe_down");
    reveal_strlit("4finger_swipe_left");
    reveal_strlit("4finger_swipe_right");
    reveal_strlit("4finger_swipe_up");
    reveal_strlit("4finger_swipe_down");
    assert("3finger_swipe_"@ + "left"@ =~= "3finger_swipe_left"@);
    assert("3finger_swipe_"@ + "right"@ =~= "3finger_swipe_right"@);
    assert("3finger_swipe_"@ + "up"@ =~= "3finger_swipe_up"@);
    assert("3finger_swipe_"@ + "down"@ =~= "3finger_swipe_down"@);
    assert("4finger_swipe_"@ + "left"@ =~= "4finger_swipe_left"@);
    assert("4finger_swipe_"@ + "right"@ =~= "4finger_swipe_right"@);
    assert("4finger_swipe_"@ + "up"@ =~= "4finger_swipe_up"@);
    assert("4finger_swipe_"@ + "down"@ =~= "4finger_swipe_down"@);
}

/// The action that undoes another: the previous and next desktop, browser
/// back and forward, volume down and up, zoom out and in.
pub open spec fn opposite_action(a: GestureAction) -> Option<GestureAction> {
    match a {
        GestureAction::NextDesktop => Some(GestureAction::PrevDesktop),
        GestureAction::PrevDesktop => Some(GestureAction::NextDesktop),
        GestureAction::BrowserForward => Some(GestureAction::BrowserBack),
        GestureAction::BrowserBack => Some(GestureAction::BrowserForward),
        GestureAction::VolumeUp => Some(GestureAction::VolumeDown),
        GestureAction::VolumeDown => Some(GestureAction::VolumeUp),
        GestureAction::ZoomIn => Some(GestureAction::ZoomOut),
        GestureAction::ZoomOut => Some(GestureAction::ZoomIn),
        _ => None,
    }
}

/// Two opposite actions both inject keys, with the same modifiers and never
/// the same key; switching desktops is Super with Page Down (`Next`) to go
/// to the next desktop and Page Up (`Prior`) to go back.
pub proof fn law_opposite_actions_inject_different_keys(a: GestureAction)
    ensures
        opposite_action(a) matches Some(b) ==> (chord_for(a) matches Some(ca) && chord_for(b) matches Some(
            cb,
        ) && ca.mods == cb.mods && ca.key != cb.key),
        chord_for(GestureAction::NextDesktop) == Some(chord(seq!["logo"@], "Next"@)),
        chord_for(GestureAction::PrevDesktop) == Some(chord(seq!["logo"@], "Prior"@)),
{
    reveal_strlit("Next");
    reveal_strlit("Prior");
    reveal_strlit("Left");
    reveal_strlit("Right");
    reveal_strlit("XF86AudioRaiseVolume");
    reveal_strlit("XF86AudioLowerVolume");
    reveal_strlit("equal");
    reveal_strlit("minus");
    assert("Next"@[0] != "Prior"@[0]);
    assert("Left"@[0] != "Right"@[0]);
    assert("XF86AudioRaiseVolume"@[10] != "XF86AudioLowerVolume"@[10]);
    assert("equal"@[0] != "minus"@[0]);
}

} // verus!
