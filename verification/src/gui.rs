//! The desktop interface's decisions: the pairing state shown to the user,
//! which stable codes failures become, and the session and device summaries
//! the interface polls. None of them carries a device's stderr.

use std::fmt::Write;
use vstd::prelude::*;
use crate::adb_probe::{
    device_views, parse_devices, parse_devices_spec, CommandOutput, Device, DeviceState,
    DeviceStateView, DeviceView, ExecutionError, ExecutionErrorView,
};
use crate::ios::{ios_device_views, IosDevice, IosDeviceView};
use crate::ios_session::{ExitReason, IosSessionStatus, WdaIds};
use crate::scrcpy::SessionStatus;
use crate::text::{all_digits, chars_of, is_digit, is_digit_char, push_all, push_str, slice_of, string_from, trim, trim_str};
use crate::wireless::{WirelessError, WirelessErrorView, ROUND_TIMEOUT_SECS};

verus! {

// ---------------------------------------------------------------------------
// Pairing
// ---------------------------------------------------------------------------

/// Where the interface's pairing flow stands. Every started flow has its own
/// generation, so that a late result of an older flow can be recognised.
pub enum PairingState {
    Idle,
    Waiting { generation: u64, started: std::time::Instant },
    Succeeded { generation: u64, device_name: String },
    Failed { generation: u64, code: &'static str },
    Cancelling { generation: u64 },
}

/// A pairing flow's state as a value; the start time is left out.
pub enum PairingStateView {
    Idle,
    Waiting { generation: u64 },
    Succeeded { generation: u64, device_name: Seq<char> },
    Failed { generation: u64, code: Seq<char> },
    Cancelling { generation: u64 },
}

impl View for PairingState {
    type V = PairingStateView;

    open spec fn view(&self) -> PairingStateView {
        match self {
            PairingState::Idle => PairingStateView::Idle,
            PairingState::Waiting { generation, .. } => PairingStateView::Waiting {
                generation: *generation,
            },
            PairingState::Succeeded { generation, device_name } => PairingStateView::Succeeded {
                generation: *generation,
                device_name: device_name@,
            },
            PairingState::Failed { generation, code } => PairingStateView::Failed {
                generation: *generation,
                code: code@,
            },
            PairingState::Cancelling { generation } => PairingStateView::Cancelling {
                generation: *generation,
            },
        }
    }
}

pub open spec fn generation_spec(s: PairingStateView) -> u64 {
    match s {
        PairingStateView::Idle => 0,
        PairingStateView::Waiting { generation } => generation,
        PairingStateView::Succeeded { generation, .. } => generation,
        PairingStateView::Failed { generation, .. } => generation,
        PairingStateView::Cancelling { generation } => generation,
    }
}

/// The generation of the flow a state belongs to; 0 when idle.
pub fn pairing_generation(state: &PairingState) -> (r: u64)
    ensures
        r == generation_spec(state@),
{
    match state {
        PairingState::Idle => 0,
        PairingState::Waiting { generation, .. } => *generation,
        PairingState::Succeeded { generation, .. } => *generation,
        PairingState::Failed { generation, .. } => *generation,
        PairingState::Cancelling { generation } => *generation,
    }
}

/// A flow is active while it waits for the phone or is being cancelled.
pub fn pairing_is_active(state: &PairingState) -> (r: bool)
    ensures
        r == (state@ is Waiting || state@ is Cancelling),
{
    match state {
        PairingState::Waiting { .. } | PairingState::Cancelling { .. } => true,
        _ => false,
    }
}

/// The pairing status the interface polls.
#[derive(Debug, Clone, PartialEq, Eq)]
pub struct PairingStatusDto {
    pub generation: u64,
    pub state: String,
    pub remaining_secs: Option<u64>,
    pub device_name: Option<String>,
    pub error_code: Option<String>,
}

pub open spec fn opt_view(o: Option<String>) -> Option<Seq<char>> {
    match o {
        Some(s) => Some(s@),
        None => None,
    }
}

/// The status of a flow whose round started `elapsed` seconds ago: the
/// countdown runs from the round's own start, so a reload of the interface
/// does not restart it.
pub open spec fn status_spec(s: PairingStateView, elapsed: u64) -> (u64, Seq<char>, Option<u64>, Option<Seq<char>>, Option<Seq<char>>) {
    match s {
        PairingStateView::Idle => (0, "idle"@, None, None, None),
        PairingStateView::Waiting { generation } => (
            generation,
            "waiting"@,
            Some(if elapsed >= ROUND_TIMEOUT_SECS { 0 } else { (ROUND_TIMEOUT_SECS - elapsed) as u64 }),
            None,
            None,
        ),
        PairingStateView::Succeeded { generation, device_name } => (
            generation,
            "succeeded"@,
            None,
            Some(device_name),
            None,
        ),
        PairingStateView::Failed { generation, code } => (generation, "failed"@, None, None, Some(code)),
        PairingStateView::Cancelling { generation } => (generation, "cancelling"@, None, None, None),
    }
}

pub open spec fn dto_tuple(d: PairingStatusDto) -> (u64, Seq<char>, Option<u64>, Option<Seq<char>>, Option<Seq<char>>) {
    (d.generation, d.state@, d.remaining_secs, opt_view(d.device_name), opt_view(d.error_code))
}

/// The status of a flow, `elapsed_secs` after its round started.
pub fn pairing_status_at(state: &PairingState, elapsed_secs: u64) -> (r: PairingStatusDto)
    ensures
        dto_tuple(r) == status_spec(state@, elapsed_secs),
{
    match state {
        PairingState::Idle => PairingStatusDto {
            generation: 0,
            state: "idle".to_owned(),
            remaining_secs: None,
            device_name: None,
            error_code: None,
        },
        PairingState::Waiting { generation, .. } => PairingStatusDto {
            generation: *generation,
            state: "waiting".to_owned(),
            remaining_secs: Some(ROUND_TIMEOUT_SECS.saturating_sub(elapsed_secs)),
            device_name: None,
            error_code: None,
        },
        PairingState::Succeeded { generation, device_name } => PairingStatusDto {
            generation: *generation,
            state: "succeeded".to_owned(),
            remaining_secs: None,
            device_name: Some(device_name.clone()),
            error_code: None,
        },
        PairingState::Failed { generation, code } => PairingStatusDto {
            generation: *generation,
            state: "failed".to_owned(),
            remaining_secs: None,
            device_name: None,
            error_code: Some((*code).to_owned()),
        },
        PairingState::Cancelling { generation } => PairingStatusDto {
            generation: *generation,
            state: "cancelling".to_owned(),
            remaining_secs: None,
            device_name: None,
            error_code: None,
        },
    }
}

/// The status of a flow now. The clock decides how much of the countdown
/// is left; everything else is the state's own.
pub fn pairing_status_from(state: &PairingState) -> (r: PairingStatusDto)
    ensures
        exists|elapsed: u64| dto_tuple(r) == #[trigger] status_spec(state@, elapsed),
{
    let elapsed = match state {
        PairingState::Waiting { started, .. } => crate::host::elapsed_secs(started),
        _ => 0,
    };
    pairing_status_at(state, elapsed)
}

/// What a finished flow of `generation` does to the pairing state: a result
/// of an older or newer flow changes nothing; a flow being cancelled goes
/// idle; otherwise the flow ends succeeded or failed. The result says whether
/// the flow's cancel token is to be dropped.
pub open spec fn apply_result_spec(s: PairingStateView, generation: u64, result: Result<Seq<char>, Seq<char>>) -> (PairingStateView, bool) {
    if generation_spec(s) != generation {
        (s, false)
    } else if s is Cancelling {
        (PairingStateView::Idle, true)
    } else {
        match result {
            Ok(name) => (PairingStateView::Succeeded { generation, device_name: name }, true),
            Err(code) => (PairingStateView::Failed { generation, code }, true),
        }
    }
}

pub open spec fn result_views(r: Result<String, &'static str>) -> Result<Seq<char>, Seq<char>> {
    match r {
        Ok(s) => Ok(s@),
        Err(c) => Err(c@),
    }
}

/// A pairing worker reports its result for `generation`.
pub fn apply_pairing_result(state: &mut PairingState, generation: u64, result: Result<String, &'static str>) -> (clear_cancel: bool)
    ensures
        (final(state)@, clear_cancel) == apply_result_spec(old(state)@, generation, result_views(result)),
{
    if pairing_generation(state) != generation {
        return false;
    }
    let cancelling = match state {
        PairingState::Cancelling { .. } => true,
        _ => false,
    };
    if cancelling {
        *state = PairingState::Idle;
        return true;
    }
    *state = match result {
        Ok(name) => PairingState::Succeeded { generation, device_name: name },
        Err(code) => PairingState::Failed { generation, code },
    };
    true
}

/// A late result never overwrites the state of a newer flow.
pub proof fn law_late_result_changes_nothing(s: PairingStateView, generation: u64, result: Result<Seq<char>, Seq<char>>)
    requires
        generation_spec(s) != generation,
    ensures
        apply_result_spec(s, generation, result).0 == s,
{
}

/// The stable code of a pairing failure.
pub open spec fn pairing_code_spec(e: WirelessErrorView) -> Seq<char> {
    match e {
        WirelessErrorView::RoundTimedOut | WirelessErrorView::TimedOut => "pair_timed_out"@,
        WirelessErrorView::Cancelled => "pair_cancelled"@,
        _ => "pair_failed"@,
    }
}

/// The stable code the interface shows for a failed pairing.
pub fn pairing_error_code(error: &WirelessError) -> (r: &'static str)
    ensures
        r@ == pairing_code_spec(error@),
{
    match error {
        WirelessError::RoundTimedOut | WirelessError::TimedOut => "pair_timed_out",
        WirelessError::Cancelled => "pair_cancelled",
        _ => "pair_failed",
    }
}

/// A typed pairing address must be an IP literal (the host tells whether it
/// parses as one), the port nonzero and the code six ASCII digits.
pub fn validate_manual_inputs(host_is_ip_literal: bool, port: u16, code: &str) -> (r: Result<(), &'static str>)
    ensures
        r is Ok <==> (host_is_ip_literal && port != 0 && all_digits(code@) && code@.len() == 6),
        r matches Err(c) ==> c@ == "pair_failed"@,
{
    if !host_is_ip_literal {
        return Err("pair_failed");
    }
    let cs = chars_of(code);
    let mut i: usize = 0;
    while i < cs.len()
        invariant
            i <= cs.len(),
            cs@ == code@,
            host_is_ip_literal,
            forall|j: int| 0 <= j < i ==> is_digit(#[trigger] cs@[j]),
        decreases cs.len() - i,
    {
        if !is_digit_char(cs[i]) {
            assert(!is_digit(cs@[i as int]));
            return Err("pair_failed");
        }
        i = i + 1;
    }
    if port == 0 || cs.len() != 6 {
        return Err("pair_failed");
    }
    Ok(())
}

// ---------------------------------------------------------------------------
// Android sessions and devices
// ---------------------------------------------------------------------------

/// A scrcpy session as the interface lists it. A failure carries a fixed
/// marker, never the stderr tail, which may hold the device serial.
#[derive(Debug, Clone, PartialEq, Eq)]
pub struct SessionDto {
    pub device_id: String,
    pub state: String,
    pub exit_code: Option<i32>,
    pub stderr_tail: Option<String>,
}

/// The stable code the interface shows for a scrcpy session that could not
/// start.
pub fn session_error_code(error: &crate::scrcpy::Error) -> (r: &'static str)
    ensures
        r@ == match error@ {
            crate::scrcpy::ErrorView::ScrcpyNotFound => "scrcpy_not_found"@,
            crate::scrcpy::ErrorView::ScrcpyVersion(_) => "scrcpy_version"@,
            _ => "session_start_failed"@,
        },
{
    match error {
        crate::scrcpy::Error::ScrcpyNotFound(_) => "scrcpy_not_found",
        crate::scrcpy::Error::ScrcpyVersion(_) => "scrcpy_version",
        _ => "session_start_failed",
    }
}

/// The last `limit` characters.
pub fn truncate_tail(text: String, limit: usize) -> (r: String)
    ensures
        r@ == if text@.len() > limit { text@.skip(text@.len() - limit) } else { text@ },
{
    let cs = chars_of(text.as_str());
    if cs.len() > limit {
        let t = slice_of(cs.as_slice(), cs.len() - limit, cs.len());
        assert(t@ =~= text@.skip(text@.len() - limit));
        string_from(t.as_slice())
    } else {
        text
    }
}

/// A session as the interface lists it.
pub fn session_dto(device_id: String, status: SessionStatus) -> (r: SessionDto)
    ensures
        r.device_id@ == device_id@,
        match status {
            SessionStatus::Running => r.state@ == "running"@ && r.exit_code is None && r.stderr_tail is None,
            SessionStatus::Stopping => r.state@ == "stopping"@ && r.exit_code is None && r.stderr_tail is None,
            SessionStatus::Exited { code, .. } => r.state@ == "exited"@ && r.exit_code == Some(code) && r.stderr_tail is None,
            SessionStatus::Failed { .. } => r.state@ == "failed"@ && r.exit_code is None && opt_view(r.stderr_tail) == Some("session_failed"@),
        },
{
    match status {
        SessionStatus::Running => SessionDto {
            device_id,
            state: "running".to_owned(),
            exit_code: None,
            stderr_tail: None,
        },
        SessionStatus::Stopping => SessionDto {
            device_id,
            state: "stopping".to_owned(),
            exit_code: None,
            stderr_tail: None,
        },
        SessionStatus::Exited { code, .. } => SessionDto {
            device_id,
            state: "exited".to_owned(),
            exit_code: Some(code),
            stderr_tail: None,
        },
        SessionStatus::Failed { .. } => SessionDto {
            device_id,
            state: "failed".to_owned(),
            exit_code: None,
            stderr_tail: Some("session_failed".to_owned()),
        },
    }
}

pub open spec fn android_status_spec(s: DeviceStateView) -> Seq<char> {
    match s {
        DeviceStateView::Device => "available"@,
        DeviceStateView::Unauthorized => "unauthorized"@,
        DeviceStateView::Offline => "offline"@,
        DeviceStateView::Other(_) => "other"@,
    }
}

/// An adb device state as the device list shows it.
pub fn android_status(state: &DeviceState) -> (r: &'static str)
    ensures
        r@ == android_status_spec(state@),
{
    match state {
        DeviceState::Device => "available",
        DeviceState::Unauthorized => "unauthorized",
        DeviceState::Offline => "offline",
        DeviceState::Other(_) => "other",
    }
}

/// What `adb devices -l` means for the device list: the devices, or a code
/// that tells a missing adb and a timeout apart from other failures.
pub open spec fn android_devices_spec(o: Result<crate::adb_probe::CommandOutputView, ExecutionErrorView>) -> Result<Seq<DeviceView>, Seq<char>> {
    match o {
        Err(ExecutionErrorView::AdbNotFound) => Err("adb_not_found"@),
        Err(ExecutionErrorView::TimedOut(_)) => Err("adb_timed_out"@),
        Err(_) => Err("adb_failed"@),
        Ok(out) => if out.status != 0 {
            Err("adb_failed"@)
        } else {
            match parse_devices_spec(out.stdout) {
                Ok(ds) => Ok(ds),
                Err(_) => Err("adb_failed"@),
            }
        },
    }
}

/// The Android part of the device list, from `adb devices -l`.
pub fn android_devices(output: Result<CommandOutput, ExecutionError>) -> (r: Result<Vec<Device>, &'static str>)
    ensures
        match android_devices_spec(crate::adb_probe::result_view(output)) {
            Ok(ds) => r matches Ok(v) && device_views(v@) == ds,
            Err(c) => r matches Err(x) && x@ == c,
        },
{
    match output {
        Err(ExecutionError::AdbNotFound) => Err("adb_not_found"),
        Err(ExecutionError::TimedOut(_)) => Err("adb_timed_out"),
        Err(_) => Err("adb_failed"),
        Ok(out) => {
            if out.status != 0 {
                return Err("adb_failed");
            }
            match parse_devices(out.stdout.as_str()) {
                Ok(ds) => Ok(ds),
                Err(_) => Err("adb_failed"),
            }
        },
    }
}

/// One device as the interface lists it.
#[derive(Debug, Clone, PartialEq, Eq)]
pub struct DeviceDto {
    pub id: String,
    pub name: String,
    pub platform: String,
    pub status: String,
    pub detail: Option<String>,
}

/// The device list with a stable code for each platform whose discovery
/// failed.
#[derive(Debug, Clone, PartialEq, Eq)]
pub struct DeviceListDto {
    pub devices: Vec<DeviceDto>,
    pub android_error: Option<String>,
    pub ios_error: Option<String>,
}

pub open spec fn android_dto_spec(d: DeviceView) -> (Seq<char>, Seq<char>, Seq<char>, Seq<char>) {
    (d.serial, d.serial, "android"@, android_status_spec(d.state))
}

pub open spec fn ios_dto_spec(d: IosDeviceView) -> (Seq<char>, Seq<char>, Seq<char>, Seq<char>) {
    (d.id, d.name, "ios"@, "available"@)
}

pub open spec fn dto_view(d: DeviceDto) -> (Seq<char>, Seq<char>, Seq<char>, Seq<char>) {
    (d.id@, d.name@, d.platform@, d.status@)
}

pub open spec fn dto_views(v: Seq<DeviceDto>) -> Seq<(Seq<char>, Seq<char>, Seq<char>, Seq<char>)> {
    v.map_values(|d: DeviceDto| dto_view(d))
}

pub open spec fn android_entries(ds: Seq<DeviceView>) -> Seq<(Seq<char>, Seq<char>, Seq<char>, Seq<char>)> {
    ds.map_values(|d: DeviceView| android_dto_spec(d))
}

pub open spec fn ios_entries(ds: Seq<IosDeviceView>) -> Seq<(Seq<char>, Seq<char>, Seq<char>, Seq<char>)> {
    ds.map_values(|d: IosDeviceView| ios_dto_spec(d))
}

/// The combined device list: Android devices first (named by serial), then
/// iPhones (named by their short name); a platform that failed contributes
/// only its code.
pub fn device_list(android: Result<Vec<Device>, &'static str>, ios: Result<Vec<IosDevice>, String>) -> (r: DeviceListDto)
    ensures
        dto_views(r.devices@) == (match android {
            Ok(ds) => android_entries(device_views(ds@)),
            Err(_) => Seq::empty(),
        }) + (match ios {
            Ok(ds) => ios_entries(ios_device_views(ds@)),
            Err(_) => Seq::empty(),
        }),
        opt_view(r.android_error) == (match android {
            Ok(_) => None,
            Err(c) => Some(c@),
        }),
        opt_view(r.ios_error) == (match ios {
            Ok(_) => None,
            Err(c) => Some(c@),
        }),
        forall|i: int| 0 <= i < r.devices@.len() ==> (#[trigger] r.devices@[i]).detail is None,
{
    let mut devices: Vec<DeviceDto> = Vec::new();
    let android_error = match android {
        Ok(ds) => {
            let ghost dv = device_views(ds@);
            let mut i: usize = 0;
            while i < ds.len()
                invariant
                    i <= ds.len(),
                    dv == device_views(ds@),
                    dto_views(devices@) == android_entries(dv.take(i as int)),
                    forall|k: int| 0 <= k < devices@.len() ==> (#[trigger] devices@[k]).detail is None,
                decreases ds.len() - i,
            {
                assert(dv[i as int] == ds@[i as int]@);
                let d = DeviceDto {
                    id: ds[i].serial.clone(),
                    name: ds[i].serial.clone(),
                    platform: "android".to_owned(),
                    status: android_status(&ds[i].state).to_owned(),
                    detail: None,
                };
                proof {
                    assert(dto_views(devices@.push(d)) =~= dto_views(devices@).push(dto_view(d)));
                    assert(android_entries(dv.take(i + 1)) =~= android_entries(dv.take(i as int)).push(
                        android_dto_spec(dv[i as int]),
                    ));
                }
                devices.push(d);
                i = i + 1;
            }
            assert(dv.take(i as int) =~= dv);
            None
        },
        Err(code) => Some(code.to_owned()),
    };
    let ghost head = dto_views(devices@);
    let ios_error = match ios {
        Ok(ds) => {
            let ghost iv = ios_device_views(ds@);
            let mut i: usize = 0;
            while i < ds.len()
                invariant
                    i <= ds.len(),
                    iv == ios_device_views(ds@),
                    dto_views(devices@) == head + ios_entries(iv.take(i as int)),
                    forall|k: int| 0 <= k < devices@.len() ==> (#[trigger] devices@[k]).detail is None,
                decreases ds.len() - i,
            {
                assert(iv[i as int] == ds@[i as int]@);
                let d = DeviceDto {
                    id: ds[i].id.clone(),
                    name: ds[i].name.clone(),
                    platform: "ios".to_owned(),
                    status: "available".to_owned(),
                    detail: None,
                };
                proof {
                    assert(dto_views(devices@.push(d)) =~= dto_views(devices@).push(dto_view(d)));
                    assert(ios_entries(iv.take(i + 1)) =~= ios_entries(iv.take(i as int)).push(
                        ios_dto_spec(iv[i as int]),
                    ));
                }
                devices.push(d);
                i = i + 1;
            }
            assert(iv.take(i as int) =~= iv);
            None
        },
        Err(code) => {
            assert(head + Seq::empty() =~= head);
            Some(code)
        },
    };
    DeviceListDto { devices, android_error, ios_error }
}

// ---------------------------------------------------------------------------
// iPhone sessions
// ---------------------------------------------------------------------------

/// Default WebDriverAgent identifiers, used when none is configured.
pub const DEFAULT_WDA_BUNDLE_ID: &'static str = "com.facebook.WebDriverAgentRunner.xctrunner";

pub const DEFAULT_WDA_TESTRUNNER_ID: &'static str = "com.facebook.WebDriverAgentRunner.xctrunner";

pub const DEFAULT_WDA_XCTESTCONFIG: &'static str = "WebDriverAgentRunner.xctest";

/// A configured value, or the default when it is unset or blank.
pub open spec fn configured_or(value: Option<Seq<char>>, fallback: Seq<char>) -> Seq<char> {
    match value {
        Some(v) => if trim(v).len() > 0 { v } else { fallback },
        None => fallback,
    }
}

fn configured(value: Option<String>, fallback: &str) -> (r: String)
    ensures
        r@ == configured_or(opt_view(value), fallback@),
{
    match value {
        Some(v) => {
            let t = trim_str(v.as_str());
            if t.len() > 0 {
                v
            } else {
                fallback.to_owned()
            }
        },
        None => fallback.to_owned(),
    }
}

/// The WebDriverAgent identifiers from configured values; a blank value is
/// never handed to go-ios.
pub fn wda_ids_from(bundle_id: Option<String>, testrunner_id: Option<String>, xctestconfig: Option<String>) -> (r: WdaIds)
    ensures
        r.bundle_id@ == configured_or(opt_view(bundle_id), DEFAULT_WDA_BUNDLE_ID@),
        r.testrunner_id@ == configured_or(opt_view(testrunner_id), DEFAULT_WDA_TESTRUNNER_ID@),
        r.xctestconfig@ == configured_or(opt_view(xctestconfig), DEFAULT_WDA_XCTESTCONFIG@),
{
    WdaIds {
        bundle_id: configured(bundle_id, DEFAULT_WDA_BUNDLE_ID),
        testrunner_id: configured(testrunner_id, DEFAULT_WDA_TESTRUNNER_ID),
        xctestconfig: configured(xctestconfig, DEFAULT_WDA_XCTESTCONFIG),
    }
}

/// The interface's iPhone session slot: a start in progress, a start that
/// failed (kept until the next start, so its code can be shown), or a
/// running session as its handle last reported it.
#[derive(Debug, Clone, PartialEq, Eq)]
pub enum IosSlot {
    Starting,
    Failed { code: &'static str },
    Handle(IosSessionStatus),
}

/// The status a slot shows: placeholders stand for starting or failed.
pub fn slot_status(slot: &IosSlot) -> (r: IosSessionStatus)
    ensures
        match slot {
            IosSlot::Starting => r == IosSessionStatus::Starting,
            IosSlot::Failed { code } => r == (IosSessionStatus::Failed { code: *code }),
            IosSlot::Handle(s) => r == *s,
        },
{
    match slot {
        IosSlot::Starting => IosSessionStatus::Starting,
        IosSlot::Failed { code } => IosSessionStatus::Failed { code: *code },
        IosSlot::Handle(s) => copy_status(s),
    }
}

fn copy_status(s: &IosSessionStatus) -> (r: IosSessionStatus)
    ensures
        r == *s,
{
    match s {
        IosSessionStatus::Starting => IosSessionStatus::Starting,
        IosSessionStatus::Running { proxy_port } => IosSessionStatus::Running { proxy_port: *proxy_port },
        IosSessionStatus::Stopping => IosSessionStatus::Stopping,
        IosSessionStatus::Exited { reason } => IosSessionStatus::Exited {
            reason: match reason {
                ExitReason::Requested => ExitReason::Requested,
                ExitReason::ChildExited { which, code } => ExitReason::ChildExited { which: *which, code: *code },
                ExitReason::UpstreamClosed => ExitReason::UpstreamClosed,
            },
        },
        IosSessionStatus::Failed { code } => IosSessionStatus::Failed { code: *code },
    }
}

/// A session is live while it starts, runs or stops.
pub open spec fn live_spec(s: IosSessionStatus) -> bool {
    s is Starting || s is Running || s is Stopping
}

/// A session that starts, runs or stops still owns the device.
pub fn ios_session_is_live(status: &IosSessionStatus) -> (r: bool)
    ensures
        r == live_spec(*status),
{
    match status {
        IosSessionStatus::Starting | IosSessionStatus::Running { .. } | IosSessionStatus::Stopping => true,
        _ => false,
    }
}

/// A start in progress counts as live, so that a second start in that window
/// is refused.
pub fn ios_slot_is_live(slot: &IosSlot) -> (r: bool)
    ensures
        match slot {
            IosSlot::Starting => r,
            IosSlot::Failed { .. } => !r,
            IosSlot::Handle(s) => r == live_spec(*s),
        },
{
    match slot {
        IosSlot::Starting => true,
        IosSlot::Failed { .. } => false,
        IosSlot::Handle(s) => ios_session_is_live(s),
    }
}

/// The device window in points, as the interface shows it.
#[derive(Debug, Clone, Copy, PartialEq, Eq, Structural)]
pub struct WindowDto {
    pub width: u32,
    pub height: u32,
}

/// The iPhone session status the interface polls. It never holds a stderr
/// tail or the UDID.
#[derive(Debug, Clone, PartialEq, Eq)]
pub struct IosStatusDto {
    pub state: String,
    pub code: Option<String>,
    pub exit_reason: Option<String>,
    pub proxy_port: Option<u16>,
    pub fps: u32,
    pub locked: Option<bool>,
    pub window: Option<WindowDto>,
}

/// The status when no iPhone session exists.
pub fn ios_idle_dto() -> (r: IosStatusDto)
    ensures
        r.state@ == "idle"@,
        r.code is None,
        r.exit_reason is None,
        r.proxy_port is None,
        r.fps == 0,
        r.locked is None,
        r.window is None,
{
    IosStatusDto {
        state: "idle".to_owned(),
        code: None,
        exit_reason: None,
        proxy_port: None,
        fps: 0,
        locked: None,
        window: None,
    }
}

pub open spec fn exit_reason_text(r: ExitReason) -> Seq<char> {
    match r {
        ExitReason::Requested => "requested"@,
        ExitReason::ChildExited { .. } => "child_exited"@,
        ExitReason::UpstreamClosed => "upstream_closed"@,
    }
}

/// Whether a status DTO shows a status: the state's name, the proxy port
/// while running, the exit reason's name, or the failure's code.
pub open spec fn shows_status(r: IosStatusDto, s: IosSessionStatus) -> bool {
    match s {
        IosSessionStatus::Starting => r.state@ == "starting"@ && r.code is None && r.exit_reason is None && r.proxy_port is None,
        IosSessionStatus::Running { proxy_port } => r.state@ == "running"@ && r.code is None && r.exit_reason is None && r.proxy_port == Some(proxy_port),
        IosSessionStatus::Stopping => r.state@ == "stopping"@ && r.code is None && r.exit_reason is None && r.proxy_port is None,
        IosSessionStatus::Exited { reason } => r.state@ == "exited"@ && r.code is None && opt_view(r.exit_reason) == Some(exit_reason_text(reason)) && r.proxy_port is None,
        IosSessionStatus::Failed { code } => r.state@ == "failed"@ && opt_view(r.code) == Some(code@) && r.exit_reason is None && r.proxy_port is None,
    }
}

/// The status as the interface shows it: the state's name, the proxy port
/// while running, the exit reason's name, or the failure's code.
pub fn ios_status_dto(status: &IosSessionStatus) -> (r: IosStatusDto)
    ensures
        r.fps == 0,
        r.locked is None,
        r.window is None,
        shows_status(r, *status),
{
    let mut dto = ios_idle_dto();
    match status {
        IosSessionStatus::Starting => {
            dto.state = "starting".to_owned();
        },
        IosSessionStatus::Running { proxy_port } => {
            dto.state = "running".to_owned();
            dto.proxy_port = Some(*proxy_port);
        },
        IosSessionStatus::Stopping => {
            dto.state = "stopping".to_owned();
        },
        IosSessionStatus::Exited { reason } => {
            dto.state = "exited".to_owned();
            let text = match reason {
                ExitReason::Requested => "requested",
                ExitReason::ChildExited { .. } => "child_exited",
                ExitReason::UpstreamClosed => "upstream_closed",
            };
            dto.exit_reason = Some(text.to_owned());
        },
        IosSessionStatus::Failed { code } => {
            dto.state = "failed".to_owned();
            dto.code = Some((*code).to_owned());
        },
    }
    dto
}

/// The code the device list shows when iPhone discovery failed.
pub fn ios_list_error_code(error: &crate::ios::Error) -> (r: String)
    ensures
        r@ == crate::ios::code_spec(error@),
{
    match error {
        crate::ios::Error::IosNotFound(_) => "ios_not_found".to_owned(),
        other => other.code().to_owned(),
    }
}

/// The host platform's name as the interface knows it.
pub fn host_platform(macos: bool, windows: bool) -> (r: &'static str)
    ensures
        macos ==> r@ == "macos"@,
        !macos && windows ==> r@ == "windows"@,
        !macos && !windows ==> r@ == "linux"@,
{
    if macos {
        "macos"
    } else if windows {
        "windows"
    } else {
        "linux"
    }
}

/// The platform gate for starting an iPhone session. On Windows a session's
/// process tree cannot be reclaimed, so it is refused; on macOS the product
/// path is the system's iPhone Mirroring, and the WDA chain is allowed only
/// in a debug build with the development switch set.
pub fn ios_launch_allowed(windows: bool, macos: bool, debug_build: bool, dev_switch: bool) -> (r:
    Result<(), &'static str>)
    ensures
        windows ==> (r matches Err(c) && c@ == "windows_session_unsupported"@),
        !windows && macos && !(debug_build && dev_switch) ==> (r matches Err(c) && c@
            == "macos_uses_iphone_mirroring"@),
        !windows && (!macos || (debug_build && dev_switch)) ==> r is Ok,
{
    if windows {
        return Err("windows_session_unsupported");
    }
    if macos && !(debug_build && dev_switch) {
        return Err("macos_uses_iphone_mirroring");
    }
    Ok(())
}

// ---------------------------------------------------------------------------
// Frames per second
// ---------------------------------------------------------------------------

/// Nanoseconds below which two frame counts are too close to divide.
pub const MIN_FPS_INTERVAL_NANOS: u128 = 200000000;

/// Frames per second over an interval: the frame difference over the
/// elapsed time, rounded to the nearest integer (halves up) and capped at
/// `u32::MAX`. An interval under 200 ms keeps the previous value.
pub open spec fn fps_spec(delta: u64, elapsed_nanos: u128, last: u32) -> u32 {
    if elapsed_nanos < MIN_FPS_INTERVAL_NANOS {
        last
    } else {
        let a: int = delta * 1000000000;
        let e: int = elapsed_nanos as int;
        let q = a / e + if 2 * (a % e) >= e {
            1int
        } else {
            0int
        };
        if q > u32::MAX {
            u32::MAX
        } else {
            q as u32
        }
    }
}

/// `fps_spec` computed without overflow.
pub fn fps_from_elapsed(delta: u64, elapsed_nanos: u128, last: u32) -> (r: u32)
    ensures
        r == fps_spec(delta, elapsed_nanos, last),
{
    if elapsed_nanos < MIN_FPS_INTERVAL_NANOS {
        return last;
    }
    let a: u128 = (delta as u128) * 1000000000;
    let r: u128 = a % elapsed_nanos;
    let mut q: u128 = a / elapsed_nanos;
    assert(q <= a) by (nonlinear_arith)
        requires
            q == a / elapsed_nanos,
            elapsed_nanos >= 1,
    ;
    if r >= elapsed_nanos - r {
        q = q + 1;
    }
    if q > u32::MAX as u128 {
        u32::MAX
    } else {
        q as u32
    }
}

pub open spec fn saturating_diff(a: u64, b: u64) -> u64 {
    if a >= b {
        (a - b) as u64
    } else {
        0
    }
}

/// The nanoseconds from `earlier` to `now`, 0 when `now` is not later: what
/// `Instant::saturating_duration_since` gives, read with `Duration::as_nanos`.
/// It depends on the two instants alone.
pub uninterp spec fn nanos_since(now: std::time::Instant, earlier: std::time::Instant) -> u128;

/// Trusted: `Instant::saturating_duration_since` read out with
/// `Duration::as_nanos`. The result is named `nanos_since` of the instants.
#[verifier::external_body]
fn nanos_between(now: &std::time::Instant, earlier: &std::time::Instant) -> (r: u128)
    ensures
        r == nanos_since(*now, *earlier),
{
    now.saturating_duration_since(*earlier).as_nanos()
}

/// Frames per second from two frame counts: 0 without an earlier count;
/// otherwise `fps_spec` of the frame difference (never negative, when the
/// proxy restarted and its count fell) over the time from the earlier count
/// to `now`.
pub fn diff_fps(previous: Option<(u64, std::time::Instant)>, frames: u64, now: std::time::Instant, last: u32) -> (r: u32)
    ensures
        previous is None ==> r == 0,
        previous matches Some((p, at)) ==> r == fps_spec(
            saturating_diff(frames, p),
            nanos_since(now, at),
            last,
        ),
{
    match previous {
        None => 0,
        Some((previous_frames, previous_at)) => {
            let elapsed = nanos_between(&now, &previous_at);
            let delta = frames.saturating_sub(previous_frames);
            let r = fps_from_elapsed(delta, elapsed, last);
            assert(r == fps_spec(saturating_diff(frames, previous_frames), elapsed, last));
            r
        },
    }
}


// ---------------------------------------------------------------------------
// Command decisions
// ---------------------------------------------------------------------------

/// Starting a pairing flow: refused while one is active; otherwise the new
/// flow waits from `started`.
pub fn begin_pairing(state: &mut PairingState, generation: u64, started: std::time::Instant) -> (r: Result<(), &'static str>)
    ensures
        (old(state)@ is Waiting || old(state)@ is Cancelling) ==> (r matches Err(c) && c@ == "pairing_already_running"@ && final(state)@ == old(state)@),
        !(old(state)@ is Waiting || old(state)@ is Cancelling) ==> (r is Ok && final(state)@ == PairingStateView::Waiting { generation }),
{
    if pairing_is_active(state) {
        return Err("pairing_already_running");
    }
    *state = PairingState::Waiting { generation, started };
    Ok(())
}

/// Cancelling: a waiting flow becomes a cancelling one of the same
/// generation, and its cancel token is to be fired; any other state stays.
pub fn cancel_pairing(state: &mut PairingState) -> (fire: bool)
    ensures
        match old(state)@ {
            PairingStateView::Waiting { generation } => fire && final(state)@ == PairingStateView::Cancelling { generation },
            _ => !fire && final(state)@ == old(state)@,
        },
{
    let generation = match state {
        PairingState::Waiting { generation, .. } => *generation,
        _ => {
            return false;
        },
    };
    *state = PairingState::Cancelling { generation };
    true
}

/// A session that runs or is stopping keeps its device: a second start is
/// refused.
pub fn session_blocks_start(status: &SessionStatus) -> (r: bool)
    ensures
        r == (*status is Running || *status is Stopping),
{
    match status {
        SessionStatus::Running | SessionStatus::Stopping => true,
        _ => false,
    }
}

/// Characters of a failed session's stderr the interface may show.
pub const SESSION_TAIL_LIMIT: usize = 2000;

/// A session in the interface's list: a nonzero exit shows the last 2000
/// characters of stderr, a clean exit none; a failure shows only a marker.
pub fn session_entry(device_id: String, status: SessionStatus) -> (r: SessionDto)
    ensures
        r.device_id@ == device_id@,
        match status {
            SessionStatus::Running => r.state@ == "running"@ && r.exit_code is None && r.stderr_tail is None,
            SessionStatus::Stopping => r.state@ == "stopping"@ && r.exit_code is None && r.stderr_tail is None,
            SessionStatus::Exited { code, stderr_tail } => r.state@ == "exited"@ && r.exit_code == Some(code) && opt_view(r.stderr_tail) == if code != 0 {
                Some(if stderr_tail@.len() > 2000 { stderr_tail@.skip(stderr_tail@.len() - 2000) } else { stderr_tail@ })
            } else {
                None
            },
            SessionStatus::Failed { .. } => r.state@ == "failed"@ && r.exit_code is None && opt_view(r.stderr_tail) == Some("session_failed"@),
        },
{
    match status {
        SessionStatus::Exited { code, stderr_tail } => SessionDto {
            device_id,
            state: "exited".to_owned(),
            exit_code: Some(code),
            stderr_tail: if code != 0 {
                Some(truncate_tail(stderr_tail, SESSION_TAIL_LIMIT))
            } else {
                None
            },
        },
        SessionStatus::Failed { .. } => session_dto(
            device_id,
            SessionStatus::Failed { message: "session_failed".to_owned() },
        ),
        other => session_dto(device_id, other),
    }
}

/// Claiming the single iPhone session slot: refused while a session is
/// live; otherwise the slot holds a start in progress.
pub fn claim_ios_slot(slot: &mut Option<IosSlot>) -> (r: Result<(), &'static str>)
    ensures
        match *old(slot) {
            Some(IosSlot::Starting) => r matches Err(c) && c@ == "ios_session_already_running"@ && *final(slot) == *old(slot),
            Some(IosSlot::Handle(s)) => if live_spec(s) {
                r matches Err(c) && c@ == "ios_session_already_running"@ && *final(slot) == *old(slot)
            } else {
                r is Ok && *final(slot) == Some(IosSlot::Starting)
            },
            _ => r is Ok && *final(slot) == Some(IosSlot::Starting),
        },
{
    let live = match slot {
        Some(existing) => ios_slot_is_live(existing),
        None => false,
    };
    if live {
        return Err("ios_session_already_running");
    }
    *slot = Some(IosSlot::Starting);
    Ok(())
}

/// What the status poll remembers between polls: the last frame count and
/// when it was read, the frames per second last shown, and the last window
/// size.
pub struct IosMeta {
    pub frames: Option<(u64, std::time::Instant)>,
    pub fps: u32,
    pub window: Option<crate::wda::WindowSize>,
}

impl IosMeta {
    /// Nothing remembered yet.
    pub fn new() -> (r: Self)
        ensures
            r.frames is None,
            r.fps == 0,
            r.window is None,
    {
        IosMeta { frames: None, fps: 0, window: None }
    }
}

pub open spec fn window_dto(w: Option<crate::wda::WindowSize>) -> Option<WindowDto> {
    match w {
        Some(w) => Some(WindowDto { width: w.width, height: w.height }),
        None => None,
    }
}

/// One status poll: a session that is not running resets what the poll
/// remembers; a running one gets its frames per second from the frame
/// count, and the last known window size.
pub fn poll_ios_status(status: &IosSessionStatus, frames: u64, now: std::time::Instant, meta: &mut IosMeta) -> (r: IosStatusDto)
    ensures
        shows_status(r, *status),
        r.locked is None,
        !(*status is Running) ==> r.fps == 0 && r.window is None && final(meta).frames is None && final(meta).fps == 0 && final(meta).window is None,
        *status is Running ==> r.fps == final(meta).fps && r.window == window_dto(old(meta).window) && final(meta).window == old(meta).window && final(meta).frames == Some((frames, now)),
        *status is Running && old(meta).frames is None ==> r.fps == 0,
        *status is Running ==> (old(meta).frames matches Some((p, at)) ==> r.fps == fps_spec(saturating_diff(frames, p), nanos_since(now, at), old(meta).fps)),
{
    let mut dto = ios_status_dto(status);
    let running = match status {
        IosSessionStatus::Running { .. } => true,
        _ => false,
    };
    if !running {
        *meta = IosMeta::new();
        return dto;
    }
    let fps = diff_fps(meta.frames, frames, now, meta.fps);
    meta.fps = fps;
    meta.frames = Some((frames, now));
    dto.fps = fps;
    dto.window = match meta.window {
        Some(w) => Some(WindowDto { width: w.width, height: w.height }),
        None => None,
    };
    dto
}

/// The answers of the WDA poll: the lock state is shown as read; a window
/// size read replaces the remembered one, while a failed read keeps it.
pub fn apply_wda_poll(dto: &mut IosStatusDto, meta: &mut IosMeta, locked: Option<bool>, window: Option<crate::wda::WindowSize>)
    ensures
        final(dto).locked == locked,
        window is Some ==> final(dto).window == window_dto(window) && final(meta).window == window,
        window is None ==> final(dto).window == old(dto).window && final(meta).window == old(meta).window,
        final(dto).state == old(dto).state,
        final(dto).fps == old(dto).fps,
        final(meta).fps == old(meta).fps,
{
    dto.locked = locked;
    match window {
        Some(w) => {
            dto.window = Some(WindowDto { width: w.width, height: w.height });
            meta.window = Some(w);
        },
        None => {},
    }
}

// ---------------------------------------------------------------------------
// Screenshots
// ---------------------------------------------------------------------------

/// The pattern of the time stamp in a screenshot's file name; it sorts by time.
pub const SCREENSHOT_STAMP: &'static str = "%Y%m%d-%H%M%S";

/// What chrono writes for a local date and time under a strftime pattern
/// (`NaiveDateTime::format`), or `None` where chrono has no such date and
/// time or cannot write the pattern. It depends on its arguments alone.
pub uninterp spec fn chrono_formatted(
    year: i32,
    month: u32,
    day: u32,
    hour: u32,
    minute: u32,
    second: u32,
    pattern: Seq<char>,
) -> Option<Seq<char>>;

/// Leap years of the proleptic Gregorian calendar.
pub open spec fn is_leap_year(year: int) -> bool {
    (year % 4 == 0 && year % 100 != 0) || year % 400 == 0
}

/// The days of a month of the proleptic Gregorian calendar.
pub open spec fn days_in_month(year: int, month: int) -> int {
    if month == 2 {
        if is_leap_year(year) {
            29
        } else {
            28
        }
    } else if month == 4 || month == 6 || month == 9 || month == 11 {
        30
    } else {
        31
    }
}

/// A date of the years 0 to 9999 that the calendar has, with a time of day
/// in whole seconds.
pub open spec fn is_plain_local_time(year: i32, month: u32, day: u32, hour: u32, minute: u32, second: u32) -> bool {
    &&& 0 <= year <= 9999
    &&& 1 <= month <= 12
    &&& 1 <= day <= days_in_month(year as int, month as int)
    &&& hour < 24 && minute < 60 && second < 60
}

/// Trusted: chrono's `NaiveDate::from_ymd_opt` and `NaiveDate::and_hms_opt`
/// build the date and time from the plain fields (`None` where they refuse
/// them), and `NaiveDateTime::format` writes it under `pattern` (`None` where
/// writing fails). The result is named `chrono_formatted`; chrono's
/// documentation gives that such a date and time is written under the stamp
/// pattern `%Y%m%d-%H%M%S`, and that nothing is accepted with a month
/// outside 1 to 12, a day outside 1 to 31, or an hour, minute or second out
/// of range.
#[verifier::external_body]
fn local_time_text(year: i32, month: u32, day: u32, hour: u32, minute: u32, second: u32, pattern: &str) -> (r: Option<String>)
    ensures
        crate::wireless::opt_string_view(r) == chrono_formatted(year, month, day, hour, minute, second, pattern@),
        r is Some ==> 1 <= month <= 12 && 1 <= day <= 31 && hour < 24 && minute < 60 && second < 60,
        pattern@ == "%Y%m%d-%H%M%S"@ && is_plain_local_time(year, month, day, hour, minute, second) ==> r is Some,
{
    let date = match chrono::NaiveDate::from_ymd_opt(year, month, day) {
        Some(date) => date,
        None => return None,
    };
    let at = match date.and_hms_opt(hour, minute, second) {
        Some(at) => at,
        None => return None,
    };
    let mut text = String::new();
    match write!(text, "{}", at.format(pattern)) {
        Ok(()) => Some(text),
        Err(_) => None,
    }
}

/// The file name of a screenshot taken at the time stamp `stamp`.
pub fn screenshot_name_for(stamp: &str) -> (r: String)
    ensures
        r@ == "QuadControl-"@ + stamp@ + ".png"@,
{
    let mut name = String::new();
    push_str(&mut name, "QuadControl-");
    push_str(&mut name, stamp);
    push_str(&mut name, ".png");
    name
}

/// `QuadControl-YYYYmmdd-HHMMSS.png` for a screenshot taken at the given
/// local date and time: the stamp is chrono's writing of it under
/// `SCREENSHOT_STAMP`. `None` where chrono has no such date and time.
pub fn screenshot_file_name(year: i32, month: u32, day: u32, hour: u32, minute: u32, second: u32) -> (r: Option<String>)
    ensures
        match chrono_formatted(year, month, day, hour, minute, second, SCREENSHOT_STAMP@) {
            Some(t) => r matches Some(n) && n@ == "QuadControl-"@ + t + ".png"@,
            None => r is None,
        },
        is_plain_local_time(year, month, day, hour, minute, second) ==> r is Some,
{
    match local_time_text(year, month, day, hour, minute, second, SCREENSHOT_STAMP) {
        Some(stamp) => Some(screenshot_name_for(stamp.as_str())),
        None => None,
    }
}

} // verus!
