//! Backends whose behaviour is fixed: the stub for unsupported systems and macOS.
use vstd::prelude::*;

use crate::error::{unsupported, AppError, AppResult};
use crate::models::{
    BatteryInfo, DeviceInfo, DriverState, DriverStatus, DriverActionResult, GestureMap,
    PlatformInfo, PlatformKind,
};

verus! {

fn strings_of(items: &Vec<&'static str>) -> (r: Vec<String>)
    ensures
        crate::models::strings_view(r@) == items@.map_values(|s: &'static str| s@),
{
    let mut r: Vec<String> = Vec::new();
    let mut i: usize = 0;
    while i < items.len()
        invariant
            i <= items.len(),
            crate::models::strings_view(r@) == items@.take(i as int).map_values(
                |s: &'static str| s@,
            ),
        decreases items.len() - i,
    {
        let ghost before = r@;
        r.push(items[i].to_string());
        assert(crate::models::strings_view(r@) =~= crate::models::strings_view(before).push(
            items@[i as int]@,
        ));
        i += 1;
        assert(items@.take(i as int).map_values(|s: &'static str| s@) =~= items@.take(
            i - 1,
        ).map_values(|s: &'static str| s@).push(items@[i - 1]@));
    }
    assert(items@.take(items.len() as int) =~= items@);
    r
}

/// The capability names, as strings.
pub fn capabilities(items: &Vec<&'static str>) -> (r: Vec<String>)
    ensures
        crate::models::strings_view(r@) == items@.map_values(|s: &'static str| s@),
{
    strings_of(items)
}

/// The result of a driver action that does not apply here.
fn not_applicable<T>(detail: &str) -> (r: AppResult<T>)
    ensures
        r matches Err(AppError::Unsupported(m)) && m@ == detail@,
{
    Err(unsupported(detail))
}

// ---------------------------------------------------------------------------
// Unsupported systems
// ---------------------------------------------------------------------------

/// Backend for systems without trackpad support: status only.
pub struct StubBackend;

impl StubBackend {
    pub fn new() -> StubBackend {
        StubBackend
    }

    /// `os` and `arch` are the build target's names.
    pub fn platform_info(&self, os: &str, arch: &str) -> (p: PlatformInfo)
        ensures
            p@.kind == PlatformKind::Other,
            p@.os_name == os@,
            p@.os_version is None,
            p@.arch == arch@,
            p@.desktop is None,
            p@.capabilities == seq!["status_only"@],
    {
        let mut caps: Vec<&'static str> = Vec::new();
        caps.push("status_only");
        let c = capabilities(&caps);
        assert(caps@.map_values(|s: &'static str| s@) =~= seq!["status_only"@]);
        PlatformInfo {
            kind: PlatformKind::Other,
            os_name: os.to_string(),
            os_version: None,
            arch: arch.to_string(),
            desktop: None,
            capabilities: c,
        }
    }

    pub fn list_devices(&self) -> (r: AppResult<Vec<DeviceInfo>>)
        ensures
            r matches Ok(v) && v@.len() == 0,
    {
        Ok(Vec::new())
    }

    pub fn battery(&self, device_id: &str) -> (r: AppResult<Option<BatteryInfo>>)
        ensures
            r matches Ok(b) && b is None,
    {
        Ok(None)
    }

    pub fn get_gestures(&self) -> (r: AppResult<GestureMap>)
        ensures
            r matches Ok(m) && m@ == crate::models::default_gesture_map(),
    {
        Ok(GestureMap::default())
    }

    /// Settings cannot be applied here.
    pub fn set_settings_result(&self) -> (r: AppResult<()>)
        ensures
            r matches Err(AppError::Unsupported(m)) && m@ == "settings not available on this OS"@,
    {
        not_applicable("settings not available on this OS")
    }

    pub fn set_gestures(&self, gestures: &GestureMap) -> (r: AppResult<()>)
        ensures
            r matches Err(AppError::Unsupported(m)) && m@ == "gestures not available on this OS"@,
    {
        not_applicable("gestures not available on this OS")
    }

    pub fn driver_status(&self) -> (r: AppResult<DriverStatus>)
        ensures
            r matches Ok(s) && s@.state == DriverState::NotApplicable && s@.name == "N/A"@
                && s@.version is None && s@.detail == "No driver management on this platform."@
                && !s@.can_install && !s@.can_uninstall && s@.recommended_source is None
                && s@.conflicts.len() == 0,
    {
        Ok(
            DriverStatus {
                state: DriverState::NotApplicable,
                name: "N/A".to_string(),
                version: None,
                detail: "No driver management on this platform.".to_string(),
                can_install: false,
                can_uninstall: false,
                recommended_source: None,
                conflicts: Vec::new(),
            },
        )
    }

    pub fn install_driver(&self) -> (r: AppResult<DriverActionResult>)
        ensures
            r matches Err(AppError::Unsupported(m)) && m@ == "driver install N/A"@,
    {
        not_applicable("driver install N/A")
    }

    pub fn uninstall_driver(&self) -> (r: AppResult<DriverActionResult>)
        ensures
            r matches Err(AppError::Unsupported(m)) && m@ == "driver uninstall N/A"@,
    {
        not_applicable("driver uninstall N/A")
    }
}

/// The result of installing system helpers on a platform that has none.
pub fn no_system_helpers() -> (r: DriverActionResult)
    ensures
        !r@.success,
        r@.message == "No system helpers for this platform."@,
        r@.log_lines.len() == 0,
        !r@.needs_reboot,
{
    DriverActionResult {
        success: false,
        message: "No system helpers for this platform.".to_string(),
        log_lines: Vec::new(),
        needs_reboot: false,
    }
}

// ---------------------------------------------------------------------------
// macOS
// ---------------------------------------------------------------------------

/// macOS backend — graceful degradation. Native gestures and pairing live in
/// System Settings; status only.
pub struct MacosBackend {
    pub config_dir: String,
}

impl MacosBackend {
    pub fn platform_info(&self, arch: &str) -> (p: PlatformInfo)
        ensures
            p@.kind == PlatformKind::Macos,
            p@.os_name == "macOS"@,
            p@.os_version is None,
            p@.arch == arch@,
            p@.desktop == Some("Aqua"@),
            p@.capabilities == seq!["status_only"@, "battery_best_effort"@],
    {
        let mut caps: Vec<&'static str> = Vec::new();
        caps.push("status_only");
        caps.push("battery_best_effort");
        let c = capabilities(&caps);
        assert(caps@.map_values(|s: &'static str| s@) =~= seq![
            "status_only"@,
            "battery_best_effort"@,
        ]);
        PlatformInfo {
            kind: PlatformKind::Macos,
            os_name: "macOS".to_string(),
            os_version: None,
            arch: arch.to_string(),
            desktop: Some("Aqua".to_string()),
            capabilities: c,
        }
    }

    pub fn list_devices(&self) -> (r: AppResult<Vec<DeviceInfo>>)
        ensures
            r matches Ok(v) && v@.len() == 0,
    {
        Ok(Vec::new())
    }

    pub fn battery(&self, device_id: &str) -> (r: AppResult<Option<BatteryInfo>>)
        ensures
            r matches Ok(b) && b is None,
    {
        Ok(None)
    }

    /// What applying settings reports after they were saved locally.
    pub fn set_settings_result(&self) -> (r: AppResult<()>)
        ensures
            r matches Err(AppError::Unsupported(m)) && m@
                == "On macOS, change trackpad settings in System Settings → Trackpad. Values were saved locally only."@,
    {
        not_applicable(
            "On macOS, change trackpad settings in System Settings → Trackpad. Values were saved locally only.",
        )
    }

    /// The default bindings, none available, labelled `macos_system`.
    pub fn get_gestures(&self) -> (r: AppResult<GestureMap>)
        ensures
            r matches Ok(m) && m@ == GestureMap::default_with("macos_system"@, false),
    {
        Ok(GestureMap::defaults_with("macos_system", false))
    }

    pub fn set_gestures(&self, gestures: &GestureMap) -> (r: AppResult<()>)
        ensures
            r matches Err(AppError::Unsupported(m)) && m@
                == "Configure gestures in System Settings → Trackpad."@,
    {
        not_applicable("Configure gestures in System Settings → Trackpad.")
    }

    pub fn driver_status(&self) -> (r: AppResult<DriverStatus>)
        ensures
            r matches Ok(s) && s@.state == DriverState::NotApplicable && s@.name
                == "Apple native"@ && s@.version is None && s@.detail
                == "macOS includes first-party Magic Trackpad support. No third-party driver is required."@
                && !s@.can_install && !s@.can_uninstall && s@.recommended_source is None
                && s@.conflicts.len() == 0,
    {
        Ok(
            DriverStatus {
                state: DriverState::NotApplicable,
                name: "Apple native".to_string(),
                version: None,
                detail: "macOS includes first-party Magic Trackpad support. No third-party driver is required.".to_string(),
                can_install: false,
                can_uninstall: false,
                recommended_source: None,
                conflicts: Vec::new(),
            },
        )
    }

    pub fn install_driver(&self) -> (r: AppResult<DriverActionResult>)
        ensures
            r matches Err(AppError::Unsupported(m)) && m@ == "Not applicable on macOS"@,
    {
        not_applicable("Not applicable on macOS")
    }

    pub fn uninstall_driver(&self) -> (r: AppResult<DriverActionResult>)
        ensures
            r matches Err(AppError::Unsupported(m)) && m@ == "Not applicable on macOS"@,
    {
        not_applicable("Not applicable on macOS")
    }
}

} // verus!
