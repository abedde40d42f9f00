//! Shared domain models for MagicPad Companion.
//! Platform backends map OS-specific state into these types.
use vstd::prelude::*;

use crate::text::{append_chars, append_str, chars_of, hex4, hex4_chars, string_of};

verus! {

/// Apple USB vendor ID.
pub const APPLE_VID: u16 = 0x05AC;

#[derive(Debug, Clone, Copy, PartialEq, Eq, Structural)]
pub enum ConnectionType {
    UsbC,
    Usb,
    Bluetooth,
    Unknown,
}

#[derive(Debug, Clone, Copy, PartialEq, Eq, Structural)]
pub enum PlatformKind {
    Windows,
    Linux,
    Macos,
    Other,
}

#[derive(Debug, Clone)]
pub struct BatteryInfo {
    pub percent: Option<u8>,
    pub charging: Option<bool>,
    pub source: String,
}

pub struct BatteryView {
    pub percent: Option<u8>,
    pub charging: Option<bool>,
    pub source: Seq<char>,
}

impl View for BatteryInfo {
    type V = BatteryView;

    open spec fn view(&self) -> BatteryView {
        BatteryView { percent: self.percent, charging: self.charging, source: self.source@ }
    }
}

impl BatteryInfo {
    /// A field-by-field copy.
    pub fn duplicate(&self) -> (r: BatteryInfo)
        ensures
            r@ == self@,
    {
        BatteryInfo { percent: self.percent, charging: self.charging, source: self.source.clone() }
    }
}

pub open spec fn opt_str_view(o: Option<String>) -> Option<Seq<char>> {
    match o {
        Some(s) => Some(s@),
        None => None,
    }
}

pub open spec fn opt_battery_view(o: Option<BatteryInfo>) -> Option<BatteryView> {
    match o {
        Some(b) => Some(b@),
        None => None,
    }
}

pub open spec fn strings_view(v: Seq<String>) -> Seq<Seq<char>> {
    v.map_values(|s: String| s@)
}

pub fn copy_opt_string(o: &Option<String>) -> (r: Option<String>)
    ensures
        opt_str_view(r) == opt_str_view(*o),
{
    match o {
        Some(s) => Some(s.clone()),
        None => None,
    }
}

pub fn copy_opt_battery(o: &Option<BatteryInfo>) -> (r: Option<BatteryInfo>)
    ensures
        opt_battery_view(r) == opt_battery_view(*o),
{
    match o {
        Some(b) => Some(b.duplicate()),
        None => None,
    }
}

pub fn copy_strings(v: &Vec<String>) -> (r: Vec<String>)
    ensures
        strings_view(r@) == strings_view(v@),
{
    let mut r: Vec<String> = Vec::new();
    let mut i: usize = 0;
    while i < v.len()
        invariant
            i <= v.len(),
            strings_view(r@) == strings_view(v@.take(i as int)),
        decreases v.len() - i,
    {
        r.push(v[i].clone());
        i += 1;
        assert(strings_view(v@.take(i as int)) =~= strings_view(v@.take(i - 1)).push(v@[i - 1]@));
        assert(strings_view(r@) =~= strings_view(v@.take(i - 1)).push(v@[i - 1]@));
    }
    assert(v@.take(v.len() as int) =~= v@);
    r
}

#[derive(Debug, Clone)]
pub struct DeviceInfo {
    pub id: String,
    pub name: String,
    pub model: String,
    pub vid: Option<u16>,
    pub pid: Option<u16>,
    pub connection: ConnectionType,
    pub connected: bool,
    pub battery: Option<BatteryInfo>,
    pub driver_bound: Option<bool>,
    pub path: Option<String>,
    pub notes: Vec<String>,
}

pub struct DeviceView {
    pub id: Seq<char>,
    pub name: Seq<char>,
    pub model: Seq<char>,
    pub vid: Option<u16>,
    pub pid: Option<u16>,
    pub connection: ConnectionType,
    pub connected: bool,
    pub battery: Option<BatteryView>,
    pub driver_bound: Option<bool>,
    pub path: Option<Seq<char>>,
    pub notes: Seq<Seq<char>>,
}

impl View for DeviceInfo {
    type V = DeviceView;

    open spec fn view(&self) -> DeviceView {
        DeviceView {
            id: self.id@,
            name: self.name@,
            model: self.model@,
            vid: self.vid,
            pid: self.pid,
            connection: self.connection,
            connected: self.connected,
            battery: opt_battery_view(self.battery),
            driver_bound: self.driver_bound,
            path: opt_str_view(self.path),
            notes: strings_view(self.notes@),
        }
    }
}

pub open spec fn devices_view(v: Seq<DeviceInfo>) -> Seq<DeviceView> {
    v.map_values(|d: DeviceInfo| d@)
}

impl DeviceInfo {
    /// A field-by-field copy.
    pub fn duplicate(&self) -> (r: DeviceInfo)
        ensures
            r@ == self@,
    {
        DeviceInfo {
            id: self.id.clone(),
            name: self.name.clone(),
            model: self.model.clone(),
            vid: self.vid,
            pid: self.pid,
            connection: self.connection,
            connected: self.connected,
            battery: copy_opt_battery(&self.battery),
            driver_bound: self.driver_bound,
            path: copy_opt_string(&self.path),
            notes: copy_strings(&self.notes),
        }
    }
}

#[derive(Debug, Clone, Copy, PartialEq, Eq, Structural)]
pub enum GestureTrigger {
    ThreeFingerSwipeLeft,
    ThreeFingerSwipeRight,
    ThreeFingerSwipeUp,
    ThreeFingerSwipeDown,
    ThreeFingerTap,
    FourFingerSwipeLeft,
    FourFingerSwipeRight,
    FourFingerSwipeUp,
    FourFingerSwipeDown,
    FourFingerTap,
    PinchIn,
    PinchOut,
}

#[derive(Debug, Clone, Copy, PartialEq, Eq, Structural)]
pub enum GestureAction {
    NoAction,
    MissionControl,
    AppExpose,
    DesktopShow,
    NextDesktop,
    PrevDesktop,
    BrowserBack,
    BrowserForward,
    SwitchApp,
    NotificationCenter,
    VolumeUp,
    VolumeDown,
    MediaPlayPause,
    /// Ctrl+=  — browser / document zoom in
    ZoomIn,
    /// Ctrl+-  — browser / document zoom out
    ZoomOut,
    /// Interactive screenshot tool (Budgie Screenshot and fallbacks).
    Screenshot,
    Custom,
}

#[derive(Debug, Clone)]
pub struct GestureBinding {
    pub trigger: GestureTrigger,
    pub action: GestureAction,
    /// Free-form payload for `Custom` (e.g. shell command key or remapper id)
    pub custom: Option<String>,
    pub available: bool,
}

pub struct BindingView {
    pub trigger: GestureTrigger,
    pub action: GestureAction,
    pub custom: Option<Seq<char>>,
    pub available: bool,
}

impl View for GestureBinding {
    type V = BindingView;

    open spec fn view(&self) -> BindingView {
        BindingView {
            trigger: self.trigger,
            action: self.action,
            custom: opt_str_view(self.custom),
            available: self.available,
        }
    }
}

impl GestureBinding {
    /// A field-by-field copy.
    pub fn duplicate(&self) -> (r: GestureBinding)
        ensures
            r@ == self@,
    {
        GestureBinding {
            trigger: self.trigger,
            action: self.action,
            custom: copy_opt_string(&self.custom),
            available: self.available,
        }
    }
}

pub open spec fn bindings_view(v: Seq<GestureBinding>) -> Seq<BindingView> {
    v.map_values(|b: GestureBinding| b@)
}

#[derive(Debug, Clone)]
pub struct GestureMap {
    pub bindings: Vec<GestureBinding>,
    pub backend: String,
}

pub struct GestureMapView {
    pub bindings: Seq<BindingView>,
    pub backend: Seq<char>,
}

impl View for GestureMap {
    type V = GestureMapView;

    open spec fn view(&self) -> GestureMapView {
        GestureMapView { bindings: bindings_view(self.bindings@), backend: self.backend@ }
    }
}

/// The twelve triggers in their canonical order, each with its default action.
pub open spec fn default_pairs() -> Seq<(GestureTrigger, GestureAction)> {
    seq![
        (GestureTrigger::ThreeFingerSwipeLeft, GestureAction::PrevDesktop),
        (GestureTrigger::ThreeFingerSwipeRight, GestureAction::NextDesktop),
        (GestureTrigger::ThreeFingerSwipeUp, GestureAction::MissionControl),
        (GestureTrigger::ThreeFingerSwipeDown, GestureAction::AppExpose),
        (GestureTrigger::ThreeFingerTap, GestureAction::Screenshot),
        (GestureTrigger::FourFingerSwipeLeft, GestureAction::BrowserBack),
        (GestureTrigger::FourFingerSwipeRight, GestureAction::BrowserForward),
        (GestureTrigger::FourFingerSwipeUp, GestureAction::DesktopShow),
        (GestureTrigger::FourFingerSwipeDown, GestureAction::NotificationCenter),
        (GestureTrigger::FourFingerTap, GestureAction::NoAction),
        (GestureTrigger::PinchIn, GestureAction::ZoomOut),
        (GestureTrigger::PinchOut, GestureAction::ZoomIn),
    ]
}

/// The default map: one available, uncustomized binding per default pair,
/// with backend `"default"`.
pub open spec fn default_gesture_map() -> GestureMapView {
    GestureMapView {
        bindings: default_pairs().map_values(
            |p: (GestureTrigger, GestureAction)|
                BindingView { trigger: p.0, action: p.1, custom: None, available: true },
        ),
        backend: "default"@,
    }
}

impl GestureMap {
    /// The default map with its backend replaced by `backend` and every
    /// binding's availability set to `available`.
    pub open spec fn default_with(backend: Seq<char>, available: bool) -> GestureMapView {
        GestureMapView {
            bindings: default_pairs().map_values(
                |p: (GestureTrigger, GestureAction)|
                    BindingView { trigger: p.0, action: p.1, custom: None, available: available },
            ),
            backend: backend,
        }
    }

    /// Builds the default bindings with the given backend name and availability.
    pub fn defaults_with(backend: &str, available: bool) -> (m: GestureMap)
        ensures
            m@ == GestureMap::default_with(backend@, available),
    {
        let mut bindings: Vec<GestureBinding> = Vec::new();
        let pairs: [(GestureTrigger, GestureAction); 12] = [
            (GestureTrigger::ThreeFingerSwipeLeft, GestureAction::PrevDesktop),
            (GestureTrigger::ThreeFingerSwipeRight, GestureAction::NextDesktop),
            (GestureTrigger::ThreeFingerSwipeUp, GestureAction::MissionControl),
            (GestureTrigger::ThreeFingerSwipeDown, GestureAction::AppExpose),
            (GestureTrigger::ThreeFingerTap, GestureAction::Screenshot),
            (GestureTrigger::FourFingerSwipeLeft, GestureAction::BrowserBack),
            (GestureTrigger::FourFingerSwipeRight, GestureAction::BrowserForward),
            (GestureTrigger::FourFingerSwipeUp, GestureAction::DesktopShow),
            (GestureTrigger::FourFingerSwipeDown, GestureAction::NotificationCenter),
            (GestureTrigger::FourFingerTap, GestureAction::NoAction),
            (GestureTrigger::PinchIn, GestureAction::ZoomOut),
            (GestureTrigger::PinchOut, GestureAction::ZoomIn),
        ];
        assert(pairs@ =~= default_pairs());
        let ghost target = GestureMap::default_with(backend@, available).bindings;
        let mut i: usize = 0;
        while i < 12
            invariant
                i <= 12,
                pairs@ == default_pairs(),
                target == GestureMap::default_with(backend@, available).bindings,
                bindings_view(bindings@) == target.take(i as int),
            decreases 12 - i,
        {
            let (t, a) = pairs[i];
            let ghost before = bindings@;
            let b = GestureBinding { trigger: t, action: a, custom: None, available };
            assert(b@ == target[i as int]);
            bindings.push(b);
            assert(bindings@ == before.push(b));
            assert(bindings_view(bindings@) =~= bindings_view(before).push(b@));
            i += 1;
            assert(target.take(i as int) =~= target.take(i - 1).push(target[i - 1]));
        }
        assert(target.take(12) =~= target);
        GestureMap { bindings, backend: backend.to_string() }
    }
}

impl Default for GestureMap {
    fn default() -> (m: GestureMap)
        ensures
            m@ == default_gesture_map(),
    {
        let m = GestureMap::defaults_with("default", true);
        assert(m@.bindings =~= default_gesture_map().bindings);
        m
    }
}

#[derive(Debug, Clone, Copy, PartialEq, Eq, Structural)]
pub enum DriverState {
    Unknown,
    NotInstalled,
    Installed,
    Outdated,
    Conflict,
    NotApplicable,
}

#[derive(Debug, Clone)]
pub struct DriverStatus {
    pub state: DriverState,
    pub name: String,
    pub version: Option<String>,
    pub detail: String,
    pub can_install: bool,
    pub can_uninstall: bool,
    pub recommended_source: Option<String>,
    pub conflicts: Vec<String>,
}

pub struct DriverStatusView {
    pub state: DriverState,
    pub name: Seq<char>,
    pub version: Option<Seq<char>>,
    pub detail: Seq<char>,
    pub can_install: bool,
    pub can_uninstall: bool,
    pub recommended_source: Option<Seq<char>>,
    pub conflicts: Seq<Seq<char>>,
}

impl View for DriverStatus {
    type V = DriverStatusView;

    open spec fn view(&self) -> DriverStatusView {
        DriverStatusView {
            state: self.state,
            name: self.name@,
            version: opt_str_view(self.version),
            detail: self.detail@,
            can_install: self.can_install,
            can_uninstall: self.can_uninstall,
            recommended_source: opt_str_view(self.recommended_source),
            conflicts: strings_view(self.conflicts@),
        }
    }
}

#[derive(Debug, Clone)]
pub struct DriverActionResult {
    pub success: bool,
    pub message: String,
    pub log_lines: Vec<String>,
    pub needs_reboot: bool,
}

pub struct DriverActionView {
    pub success: bool,
    pub message: Seq<char>,
    pub log_lines: Seq<Seq<char>>,
    pub needs_reboot: bool,
}

impl View for DriverActionResult {
    type V = DriverActionView;

    open spec fn view(&self) -> DriverActionView {
        DriverActionView {
            success: self.success,
            message: self.message@,
            log_lines: strings_view(self.log_lines@),
            needs_reboot: self.needs_reboot,
        }
    }
}

#[derive(Debug, Clone)]
pub struct PlatformInfo {
    pub kind: PlatformKind,
    pub os_name: String,
    pub os_version: Option<String>,
    pub arch: String,
    pub desktop: Option<String>,
    pub capabilities: Vec<String>,
}

pub struct PlatformView {
    pub kind: PlatformKind,
    pub os_name: Seq<char>,
    pub os_version: Option<Seq<char>>,
    pub arch: Seq<char>,
    pub desktop: Option<Seq<char>>,
    pub capabilities: Seq<Seq<char>>,
}

impl View for PlatformInfo {
    type V = PlatformView;

    open spec fn view(&self) -> PlatformView {
        PlatformView {
            kind: self.kind,
            os_name: self.os_name@,
            os_version: opt_str_view(self.os_version),
            arch: self.arch@,
            desktop: opt_str_view(self.desktop),
            capabilities: strings_view(self.capabilities@),
        }
    }
}

/// Linux gesture daemon readiness (Windows always reports unavailable).
#[derive(Debug, Clone)]
pub struct GestureDaemonStatus {
    pub available: bool,
    pub running: bool,
    pub libinput_ok: bool,
    pub wtype_ok: bool,
    pub input_group: bool,
    pub unit_installed: bool,
    pub message: String,
}

// ---------------------------------------------------------------------------
// Known product IDs
// ---------------------------------------------------------------------------

/// Known Magic Trackpad product IDs (USB / reported HID) and their model names.
pub open spec fn known_model(pid: u16) -> Option<Seq<char>> {
    if pid == 0x0324 {
        Some("Magic Trackpad 3 (USB-C)"@)
    } else if pid == 0x0325 {
        Some("Magic Trackpad 3 (USB-C, variant)"@)
    } else if pid == 0x0265 {
        Some("Magic Trackpad 2"@)
    } else if pid == 0x030E {
        Some("Magic Trackpad 2 (USB)"@)
    } else if pid == 0x024F {
        Some("Magic Trackpad 1 / early"@)
    } else if pid == 0x0229 {
        Some("Magic Trackpad (legacy)"@)
    } else {
        None
    }
}

pub open spec fn model_name(pid: u16) -> Seq<char> {
    match known_model(pid) {
        Some(n) => n,
        None => "Apple HID device (PID "@ + hex4(pid) + ")"@,
    }
}

fn known_model_name(pid: u16) -> (r: Option<&'static str>)
    ensures
        match r {
            Some(s) => known_model(pid) == Some(s@),
            None => known_model(pid) is None,
        },
{
    if pid == 0x0324 {
        Some("Magic Trackpad 3 (USB-C)")
    } else if pid == 0x0325 {
        Some("Magic Trackpad 3 (USB-C, variant)")
    } else if pid == 0x0265 {
        Some("Magic Trackpad 2")
    } else if pid == 0x030E {
        Some("Magic Trackpad 2 (USB)")
    } else if pid == 0x024F {
        Some("Magic Trackpad 1 / early")
    } else if pid == 0x0229 {
        Some("Magic Trackpad (legacy)")
    } else {
        None
    }
}

pub fn model_name_chars(pid: u16) -> (r: Vec<char>)
    ensures
        r@ == model_name(pid),
{
    match known_model_name(pid) {
        Some(s) => chars_of(s),
        None => {
            let mut r = chars_of("Apple HID device (PID ");
            let h = hex4_chars(pid);
            append_chars(&mut r, &h);
            append_str(&mut r, ")");
            r
        },
    }
}

/// Model name for a product ID; unknown IDs get a generic Apple HID label.
pub fn model_name_for_pid(pid: u16) -> (r: String)
    ensures
        r@ == model_name(pid),
{
    let v = model_name_chars(pid);
    string_of(&v)
}

/// Whether `pid` is one of the known Magic Trackpad product IDs.
pub fn is_known_trackpad_pid(pid: u16) -> (r: bool)
    ensures
        r == known_model(pid) is Some,
{
    pid == 0x0324 || pid == 0x0325 || pid == 0x0265 || pid == 0x030E || pid == 0x024F || pid
        == 0x0229
}

/// A product ID is a known trackpad exactly when its model name is not the
/// generic `Apple HID device (PID ....)` label.
pub proof fn law_known_iff_named(pid: u16)
    ensures
        (known_model(pid) is Some) <==> !crate::text::starts_with(
            model_name(pid),
            "Apple HID device (PID "@,
        ),
{
    let p = "Apple HID device (PID "@;
    reveal_strlit("Apple HID device (PID ");
    reveal_strlit(")");
    reveal_strlit("Magic Trackpad 3 (USB-C)");
    reveal_strlit("Magic Trackpad 3 (USB-C, variant)");
    reveal_strlit("Magic Trackpad 2");
    reveal_strlit("Magic Trackpad 2 (USB)");
    reveal_strlit("Magic Trackpad 1 / early");
    reveal_strlit("Magic Trackpad (legacy)");
    match known_model(pid) {
        Some(n) => {
            assert(n[0] == 'M');
            if crate::text::starts_with(model_name(pid), p) {
                assert(model_name(pid).subrange(0, p.len() as int)[0] == p[0]);
            }
        },
        None => {
            let m = model_name(pid);
            assert(m.subrange(0, p.len() as int) =~= p);
        },
    }
}

/// The default map binds every trigger, each exactly once.
pub proof fn law_default_map_binds_each_trigger_once(t: GestureTrigger)
    ensures
        exists|i: int|
            0 <= i < default_gesture_map().bindings.len()
                && (#[trigger] default_gesture_map().bindings[i]).trigger == t,
        forall|i: int, j: int|
            0 <= i < j < default_gesture_map().bindings.len() ==> (
            #[trigger] default_gesture_map().bindings[i]).trigger != (
            #[trigger] default_gesture_map().bindings[j]).trigger,
{
    let bs = default_gesture_map().bindings;
    let ps = default_pairs();
    assert(bs.len() == 12);
    assert forall|i: int| 0 <= i < 12 implies #[trigger] bs[i].trigger == ps[i].0 by {}
    let i: int = match t {
        GestureTrigger::ThreeFingerSwipeLeft => 0,
        GestureTrigger::ThreeFingerSwipeRight => 1,
        GestureTrigger::ThreeFingerSwipeUp => 2,
        GestureTrigger::ThreeFingerSwipeDown => 3,
        GestureTrigger::ThreeFingerTap => 4,
        GestureTrigger::FourFingerSwipeLeft => 5,
        GestureTrigger::FourFingerSwipeRight => 6,
        GestureTrigger::FourFingerSwipeUp => 7,
        GestureTrigger::FourFingerSwipeDown => 8,
        GestureTrigger::FourFingerTap => 9,
        GestureTrigger::PinchIn => 10,
        GestureTrigger::PinchOut => 11,
    };
    assert(bs[i].trigger == t);
}

/// In the default map the 3-finger tap opens the screenshot tool and the
/// 4-finger tap is left unbound.
pub proof fn law_default_taps()
    ensures
        default_gesture_map().bindings[4].trigger == GestureTrigger::ThreeFingerTap,
        default_gesture_map().bindings[4].action == GestureAction::Screenshot,
        default_gesture_map().bindings[9].trigger == GestureTrigger::FourFingerTap,
        default_gesture_map().bindings[9].action == GestureAction::NoAction,
{
}

} // verus!
