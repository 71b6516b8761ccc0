//! Passive ADB capability discovery.
//!
//! The probe accepts only three fixed commands. It never pairs, connects, opens a
//! device shell, restarts the ADB server, or changes device state. Running the
//! commands is the host's business (see [`CommandRunner`]); this module decides
//! what their output means.

use vstd::prelude::*;
use crate::text::{
    chars_of, contains, lower_seq, to_lower, contains_str, eq_str, lines, lines_of, parse_uint, parse_uint_exec,
    push_all, push_str, rfind_char, slice_of, starts_with, starts_with_exec, starts_with_str,
    string_from, trim, trim_exec, trim_str, views, words, words_of,
};

verus! {

/// Byte limit on each captured output stream of one command.
pub const OUTPUT_LIMIT: usize = 65536;

/// Seconds after which one command is killed.
pub const COMMAND_TIMEOUT_SECS: u64 = 5;

/// The only three commands the probe runs.
#[derive(Clone, Copy, Debug, PartialEq, Eq, Hash, Structural)]
pub enum AdbCommand {
    Version,
    DevicesLong,
    MdnsServices,
}

pub open spec fn command_args(c: AdbCommand) -> Seq<Seq<char>> {
    match c {
        AdbCommand::Version => seq!["version"@],
        AdbCommand::DevicesLong => seq!["devices"@, "-l"@],
        AdbCommand::MdnsServices => seq!["mdns"@, "services"@],
    }
}

pub open spec fn str_views(v: Seq<&str>) -> Seq<Seq<char>> {
    v.map_values(|s: &str| s@)
}

/// The `Debug` name of a command, as used in messages.
pub open spec fn command_name(c: AdbCommand) -> Seq<char> {
    match c {
        AdbCommand::Version => "Version"@,
        AdbCommand::DevicesLong => "DevicesLong"@,
        AdbCommand::MdnsServices => "MdnsServices"@,
    }
}

impl AdbCommand {
    /// The exact argument list handed to `adb`.
    pub fn args(self) -> (r: Vec<&'static str>)
        ensures
            str_views(r@) == command_args(self),
    {
        let r: Vec<&'static str> = match self {
            AdbCommand::Version => vec!["version"],
            AdbCommand::DevicesLong => vec!["devices", "-l"],
            AdbCommand::MdnsServices => vec!["mdns", "services"],
        };
        assert(str_views(r@) =~= command_args(self));
        r
    }

    /// The command's name in error messages.
    pub fn name(self) -> (r: &'static str)
        ensures
            r@ == command_name(self),
    {
        match self {
            AdbCommand::Version => "Version",
            AdbCommand::DevicesLong => "DevicesLong",
            AdbCommand::MdnsServices => "MdnsServices",
        }
    }
}

/// What one finished command produced.
#[derive(Clone, Debug, PartialEq, Eq)]
pub struct CommandOutput {
    pub status: i32,
    pub stdout: String,
    pub stderr: String,
}

/// A command's output as values: exit status, stdout and stderr.
pub struct CommandOutputView {
    pub status: i32,
    pub stdout: Seq<char>,
    pub stderr: Seq<char>,
}

impl View for CommandOutput {
    type V = CommandOutputView;

    open spec fn view(&self) -> CommandOutputView {
        CommandOutputView { status: self.status, stdout: self.stdout@, stderr: self.stderr@ }
    }
}

/// Why a command could not produce output.
#[derive(Clone, Debug, PartialEq, Eq)]
pub enum ExecutionError {
    AdbNotFound,
    TimedOut(AdbCommand),
    Io(String),
    OutputTooLarge(AdbCommand),
}

pub enum ExecutionErrorView {
    AdbNotFound,
    TimedOut(AdbCommand),
    Io(Seq<char>),
    OutputTooLarge(AdbCommand),
}

impl View for ExecutionError {
    type V = ExecutionErrorView;

    open spec fn view(&self) -> ExecutionErrorView {
        match self {
            ExecutionError::AdbNotFound => ExecutionErrorView::AdbNotFound,
            ExecutionError::TimedOut(c) => ExecutionErrorView::TimedOut(*c),
            ExecutionError::Io(s) => ExecutionErrorView::Io(s@),
            ExecutionError::OutputTooLarge(c) => ExecutionErrorView::OutputTooLarge(*c),
        }
    }
}

/// Decimal rendering of a natural number.
pub open spec fn dec(n: nat) -> Seq<char>
    decreases n,
{
    if n < 10 {
        seq![digit_char(n)]
    } else {
        dec(n / 10).push(digit_char(n % 10))
    }
}

pub open spec fn digit_char(d: nat) -> char {
    (('0' as u32) + d) as char
}

/// Decimal rendering of a signed number.
pub open spec fn dec_signed(n: int) -> Seq<char> {
    if n < 0 {
        seq!['-'] + dec((-n) as nat)
    } else {
        dec(n as nat)
    }
}

pub open spec fn execution_message(e: ExecutionErrorView) -> Seq<char> {
    match e {
        ExecutionErrorView::AdbNotFound => "adb executable was not found"@,
        ExecutionErrorView::TimedOut(c) => "adb "@ + command_name(c) + " timed out"@,
        ExecutionErrorView::Io(s) => "adb process error: "@ + s,
        ExecutionErrorView::OutputTooLarge(c) => "adb "@ + command_name(c)
            + " exceeded the 65536-byte output limit"@,
    }
}

fn push_digit(s: &mut String, d: u64)
    requires
        d < 10,
    ensures
        final(s)@ == old(s)@.push(digit_char(d as nat)),
{
    let c: char = match d {
        0 => '0',
        1 => '1',
        2 => '2',
        3 => '3',
        4 => '4',
        5 => '5',
        6 => '6',
        7 => '7',
        8 => '8',
        _ => '9',
    };
    let v: Vec<char> = vec![c];
    push_all(s, v.as_slice());
    assert(v@ =~= seq![c]);
}

/// Appends the decimal rendering of `n`.
pub fn push_decimal(s: &mut String, n: u64)
    ensures
        final(s)@ == old(s)@ + dec(n as nat),
    decreases n,
{
    if n >= 10 {
        push_decimal(s, n / 10);
        push_digit(s, n % 10);
        assert(s@ =~= old(s)@ + dec(n as nat));
    } else {
        push_digit(s, n);
        assert(s@ =~= old(s)@ + dec(n as nat));
    }
}

/// Appends the decimal rendering of a signed `n`.
pub fn push_signed(s: &mut String, n: i32)
    ensures
        final(s)@ == old(s)@ + dec_signed(n as int),
{
    if n < 0 {
        push_str(s, "-");
        let m: u64 = (0i64 - (n as i64)) as u64;
        push_decimal(s, m);
        assert(s@ =~= old(s)@ + dec_signed(n as int)) by {
            reveal_strlit("-");
        }
    } else {
        push_decimal(s, n as u64);
    }
}

impl ExecutionError {
    /// The human-readable description of the error.
    pub fn message(&self) -> (r: String)
        ensures
            r@ == execution_message(self@),
    {
        let mut s = String::new();
        match self {
            ExecutionError::AdbNotFound => push_str(&mut s, "adb executable was not found"),
            ExecutionError::TimedOut(c) => {
                push_str(&mut s, "adb ");
                push_str(&mut s, c.name());
                push_str(&mut s, " timed out");
            },
            ExecutionError::Io(e) => {
                push_str(&mut s, "adb process error: ");
                push_str(&mut s, e.as_str());
            },
            ExecutionError::OutputTooLarge(c) => {
                push_str(&mut s, "adb ");
                push_str(&mut s, c.name());
                push_str(&mut s, " exceeded the 65536-byte output limit");
            },
        }
        s
    }
}

/// Runs one of the three whitelisted commands. Implemented by the host; the
/// probe only decides what the outputs mean.
pub trait CommandRunner {
    /// Whether `answer` is an answer this runner may give to `command`. A
    /// runner that runs adb may answer anything, so this says only which
    /// command an answer belongs to.
    open spec fn answers(&self, command: AdbCommand, answer: Result<CommandOutputView, ExecutionErrorView>) -> bool {
        true
    }

    /// Runs `command` and hands back its answer.
    fn run(&self, command: AdbCommand) -> (r: Result<CommandOutput, ExecutionError>)
        ensures
            self.answers(command, result_view(r)),
    ;
}

/// The state `adb devices -l` reports for a device.
#[derive(Clone, Debug, PartialEq, Eq)]
pub enum DeviceState {
    Device,
    Offline,
    Unauthorized,
    Other(String),
}

pub enum DeviceStateView {
    Device,
    Offline,
    Unauthorized,
    Other(Seq<char>),
}

impl View for DeviceState {
    type V = DeviceStateView;

    open spec fn view(&self) -> DeviceStateView {
        match self {
            DeviceState::Device => DeviceStateView::Device,
            DeviceState::Offline => DeviceStateView::Offline,
            DeviceState::Unauthorized => DeviceStateView::Unauthorized,
            DeviceState::Other(s) => DeviceStateView::Other(s@),
        }
    }
}

/// How a device is attached, as far as the listing shows it.
#[derive(Clone, Copy, Debug, PartialEq, Eq, Structural)]
pub enum Transport {
    Usb,
    Tcp,
    Emulator,
    Unknown,
}

/// One device of `adb devices -l`.
#[derive(Clone, Debug, PartialEq, Eq)]
pub struct Device {
    pub serial: String,
    pub state: DeviceState,
    pub transport: Transport,
}

pub struct DeviceView {
    pub serial: Seq<char>,
    pub state: DeviceStateView,
    pub transport: Transport,
}

impl View for Device {
    type V = DeviceView;

    open spec fn view(&self) -> DeviceView {
        DeviceView { serial: self.serial@, state: self.state@, transport: self.transport }
    }
}

/// A copy of a device record.
pub fn copy_device(d: &Device) -> (r: Device)
    ensures
        r@ == d@,
{
    let state = match &d.state {
        DeviceState::Device => DeviceState::Device,
        DeviceState::Offline => DeviceState::Offline,
        DeviceState::Unauthorized => DeviceState::Unauthorized,
        DeviceState::Other(s) => DeviceState::Other(s.clone()),
    };
    Device { serial: d.serial.clone(), state, transport: d.transport }
}

pub open spec fn device_views(v: Seq<Device>) -> Seq<DeviceView> {
    v.map_values(|d: Device| d@)
}

pub proof fn lemma_device_views_push(v: Seq<Device>, d: Device)
    ensures
        device_views(v.push(d)) == device_views(v).push(d@),
{
    assert(device_views(v.push(d)) =~= device_views(v).push(d@));
}

/// Whether the device was paired with this host. The read-only commands
/// cannot tell, so it is always unknown.
#[derive(Clone, Copy, Debug, PartialEq, Eq, Structural)]
pub enum PairingObservation {
    Unknown,
}

/// Whether adb's mDNS discovery answered.
#[derive(Clone, Copy, Debug, PartialEq, Eq, Structural)]
pub enum MdnsAvailability {
    Available,
    Unsupported,
}

/// What `adb mdns services` shows: whether pairing and connect services
/// are advertised, and how many lines could not be read.
#[derive(Clone, Debug, PartialEq, Eq, Structural)]
pub struct MdnsReport {
    pub availability: MdnsAvailability,
    pub pairing_service_advertised: bool,
    pub connect_service_advertised: bool,
    pub malformed_lines: usize,
}

/// The probe's report.
#[derive(Clone, Debug, PartialEq, Eq)]
pub struct ProbeReport {
    pub adb_version: String,
    pub devices: Vec<Device>,
    pub mdns: MdnsReport,
    pub wireless_connected: bool,
    pub paired_with_this_host: PairingObservation,
}

pub struct ProbeReportView {
    pub adb_version: Seq<char>,
    pub devices: Seq<DeviceView>,
    pub mdns: MdnsReport,
    pub wireless_connected: bool,
    pub paired_with_this_host: PairingObservation,
}

impl View for ProbeReport {
    type V = ProbeReportView;

    open spec fn view(&self) -> ProbeReportView {
        ProbeReportView {
            adb_version: self.adb_version@,
            devices: device_views(self.devices@),
            mdns: self.mdns,
            wireless_connected: self.wireless_connected,
            paired_with_this_host: self.paired_with_this_host,
        }
    }
}

/// Why the probe failed: a command could not run, exited non-zero, or
/// printed something that could not be read.
#[derive(Clone, Debug, PartialEq, Eq)]
pub enum ProbeError {
    Execution(ExecutionError),
    CommandFailed { command: AdbCommand, status: i32, stderr: String },
    InvalidOutput { command: AdbCommand, reason: String },
}

pub enum ProbeErrorView {
    Execution(ExecutionErrorView),
    CommandFailed { command: AdbCommand, status: i32, stderr: Seq<char> },
    InvalidOutput { command: AdbCommand, reason: Seq<char> },
}

impl View for ProbeError {
    type V = ProbeErrorView;

    open spec fn view(&self) -> ProbeErrorView {
        match self {
            ProbeError::Execution(e) => ProbeErrorView::Execution(e@),
            ProbeError::CommandFailed { command, status, stderr } => ProbeErrorView::CommandFailed {
                command: *command,
                status: *status,
                stderr: stderr@,
            },
            ProbeError::InvalidOutput { command, reason } => ProbeErrorView::InvalidOutput {
                command: *command,
                reason: reason@,
            },
        }
    }
}

pub open spec fn probe_message(e: ProbeErrorView) -> Seq<char> {
    match e {
        ProbeErrorView::Execution(x) => execution_message(x),
        ProbeErrorView::CommandFailed { command, status, stderr } => "adb "@ + command_name(
            command,
        ) + " failed with exit "@ + dec_signed(status as int) + ": "@ + trim(stderr),
        ProbeErrorView::InvalidOutput { command, reason } => "adb "@ + command_name(command)
            + " returned invalid output: "@ + reason,
    }
}

impl ProbeError {
    /// The human-readable description of the error.
    pub fn message(&self) -> (r: String)
        ensures
            r@ == probe_message(self@),
    {
        match self {
            ProbeError::Execution(e) => e.message(),
            ProbeError::CommandFailed { command, status, stderr } => {
                let mut s = String::new();
                push_str(&mut s, "adb ");
                push_str(&mut s, command.name());
                push_str(&mut s, " failed with exit ");
                push_signed(&mut s, *status);
                push_str(&mut s, ": ");
                let t = trim_str(stderr.as_str());
                push_all(&mut s, t.as_slice());
                s
            },
            ProbeError::InvalidOutput { command, reason } => {
                let mut s = String::new();
                push_str(&mut s, "adb ");
                push_str(&mut s, command.name());
                push_str(&mut s, " returned invalid output: ");
                push_str(&mut s, reason.as_str());
                s
            },
        }
    }
}

// ---------------------------------------------------------------------------
// adb version
// ---------------------------------------------------------------------------

pub open spec fn version_prefix() -> Seq<char> {
    "Android Debug Bridge version "@
}

/// The version a single line announces, if it is the banner line.
pub open spec fn version_of_line(l: Seq<char>) -> Option<Seq<char>> {
    if starts_with(l, version_prefix()) && trim(l.skip(version_prefix().len() as int)).len()
        > 0 {
        Some(trim(l.skip(version_prefix().len() as int)))
    } else {
        None
    }
}

/// The first banner version among `ls`.
pub open spec fn first_version(ls: Seq<Seq<char>>) -> Option<Seq<char>>
    decreases ls.len(),
{
    if ls.len() == 0 {
        None
    } else {
        match version_of_line(ls[0]) {
            Some(v) => Some(v),
            None => first_version(ls.drop_first()),
        }
    }
}

proof fn lemma_first_version(ls: Seq<Seq<char>>, i: int)
    requires
        0 <= i < ls.len(),
        version_of_line(ls[i]) is Some,
        forall|j: int| 0 <= j < i ==> version_of_line(#[trigger] ls[j]) is None,
    ensures
        first_version(ls) == version_of_line(ls[i]),
    decreases i,
{
    if i > 0 {
        assert forall|j: int| 0 <= j < i - 1 implies version_of_line(#[trigger] ls.drop_first()[j]) is None by {
            assert(ls.drop_first()[j] == ls[j + 1]);
        }
        assert(version_of_line(ls[0]) is None);
        assert(ls.drop_first()[i - 1] == ls[i]);
        lemma_first_version(ls.drop_first(), i - 1);
    }
}

proof fn lemma_no_version(ls: Seq<Seq<char>>)
    requires
        forall|j: int| 0 <= j < ls.len() ==> version_of_line(#[trigger] ls[j]) is None,
    ensures
        first_version(ls) is None,
    decreases ls.len(),
{
    if ls.len() > 0 {
        assert(version_of_line(ls[0]) is None);
        assert forall|j: int| 0 <= j < ls.len() - 1 implies version_of_line(#[trigger] ls.drop_first()[j]) is None by {
            assert(ls.drop_first()[j] == ls[j + 1]);
        }
        lemma_no_version(ls.drop_first());
    }
}

/// `adb version` reads as the version of its first banner line, the text
/// after `Android Debug Bridge version ` trimmed and non-empty; without such
/// a line it is the missing-version error.
pub proof fn law_version_is_the_first_banner(stdout: Seq<char>)
    ensures
        (forall|j: int| 0 <= j < lines(stdout).len() ==> version_of_line(#[trigger] lines(stdout)[j]) is None)
            ==> parse_version_spec(stdout) == Err::<Seq<char>, ProbeErrorView>(missing_version_error()),
        forall|i: int|
            0 <= i < lines(stdout).len() && #[trigger] version_of_line(lines(stdout)[i]) is Some && (forall|j: int|
                0 <= j < i ==> version_of_line(#[trigger] lines(stdout)[j]) is None) ==> parse_version_spec(stdout)
                == Ok::<Seq<char>, ProbeErrorView>(version_of_line(lines(stdout)[i])->Some_0),
{
    let ls = lines(stdout);
    if forall|j: int| 0 <= j < ls.len() ==> version_of_line(#[trigger] ls[j]) is None {
        lemma_no_version(ls);
    }
    assert forall|i: int|
        0 <= i < ls.len() && #[trigger] version_of_line(ls[i]) is Some && (forall|j: int|
            0 <= j < i ==> version_of_line(#[trigger] ls[j]) is None) implies parse_version_spec(stdout)
            == Ok::<Seq<char>, ProbeErrorView>(version_of_line(ls[i])->Some_0) by {
        lemma_first_version(ls, i);
    }
}

pub open spec fn missing_version_error() -> ProbeErrorView {
    ProbeErrorView::InvalidOutput { command: AdbCommand::Version, reason: "version line is missing"@ }
}

pub open spec fn parse_version_spec(stdout: Seq<char>) -> Result<Seq<char>, ProbeErrorView> {
    match first_version(lines(stdout)) {
        Some(v) => Ok(v),
        None => Err(missing_version_error()),
    }
}

fn version_of_line_exec(l: &[char]) -> (r: Option<Vec<char>>)
    ensures
        r matches Some(v) ==> version_of_line(l@) == Some(v@),
        r is None ==> version_of_line(l@) is None,
{
    let prefix = chars_of("Android Debug Bridge version ");
    if !starts_with_exec(l, prefix.as_slice()) {
        return None;
    }
    let rest = slice_of(l, prefix.len(), l.len());
    assert(rest@ =~= l@.skip(version_prefix().len() as int));
    let t = trim_exec(rest.as_slice());
    if t.len() == 0 {
        None
    } else {
        Some(t)
    }
}

/// The adb bridge version from `adb version` output.
pub fn parse_version(stdout: &str) -> (r: Result<String, ProbeError>)
    ensures
        match parse_version_spec(stdout@) {
            Ok(v) => r matches Ok(s) && s@ == v,
            Err(e) => r matches Err(x) && x@ == e,
        },
{
    let chars = chars_of(stdout);
    let ls = lines_of(chars.as_slice());
    let ghost all = views(ls@);
    let mut i: usize = 0;
    assert(all.skip(0) =~= all);
    while i < ls.len()
        invariant
            i <= ls.len(),
            all == views(ls@),
            all == lines(stdout@),
            first_version(all) == first_version(all.skip(i as int)),
        decreases ls.len() - i,
    {
        assert(all.skip(i as int)[0] == ls@[i as int]@);
        assert(all.skip(i as int).drop_first() =~= all.skip(i + 1));
        match version_of_line_exec(ls[i].as_slice()) {
            Some(v) => {
                return Ok(string_from(v.as_slice()));
            },
            None => {},
        }
        i = i + 1;
    }
    assert(all.skip(i as int).len() == 0);
    Err(
        ProbeError::InvalidOutput {
            command: AdbCommand::Version,
            reason: "version line is missing".to_owned(),
        },
    )
}

// ---------------------------------------------------------------------------
// adb devices -l
// ---------------------------------------------------------------------------

pub open spec fn tls_connect() -> Seq<char> {
    "_adb-tls-connect._tcp"@
}

/// `host:port` where the host is non-empty and the port parses as a `u16`.
pub open spec fn is_host_port(serial: Seq<char>) -> bool {
    exists|k: int|
        0 < k < serial.len() && serial[k] == ':' && (forall|j: int|
            k < j < serial.len() ==> serial[j] != ':') && parse_uint(
            serial.skip(k + 1),
            65535,
        ) is Some
}

/// Whether a serial names a network (Wi-Fi) transport.
pub open spec fn network_serial(serial: Seq<char>) -> bool {
    contains(serial, tls_connect()) || is_host_port(serial)
}

/// Whether a serial names a network device: an `adb-tls-connect` service,
/// or `host:port` with a numeric port.
pub fn is_network_serial(serial: &[char]) -> (r: bool)
    ensures
        r == network_serial(serial@),
{
    if contains_str(serial, "_adb-tls-connect._tcp") {
        return true;
    }
    match rfind_char(serial, ':') {
        None => {
            assert(!is_host_port(serial@));
            false
        },
        Some(k) => {
            if k == 0 {
                assert(!is_host_port(serial@));
                return false;
            }
            let port = slice_of(serial, k + 1, serial.len());
            assert(port@ =~= serial@.skip(k + 1));
            let ok = match parse_uint_exec(port.as_slice(), 65535) {
                Some(_) => true,
                None => false,
            };
            proof {
                if ok {
                    assert(is_host_port(serial@));
                } else {
                    assert forall|k2: int|
                        0 < k2 < serial@.len() && serial@[k2] == ':' && (forall|j: int|
                            k2 < j < serial@.len() ==> serial@[j] != ':') implies !(parse_uint(
                        serial@.skip(k2 + 1),
                        65535,
                    ) is Some) by {
                        if k2 != k {
                            if k2 < k {
                                assert(serial@[k as int] == ':');
                            }
                        }
                    }
                }
            }
            ok
        },
    }
}

pub open spec fn header_line() -> Seq<char> {
    "List of devices attached"@
}

pub open spec fn state_of(w: Seq<char>) -> DeviceStateView {
    if w == "device"@ {
        DeviceStateView::Device
    } else if w == "offline"@ {
        DeviceStateView::Offline
    } else if w == "unauthorized"@ {
        DeviceStateView::Unauthorized
    } else {
        DeviceStateView::Other(w)
    }
}

pub open spec fn has_usb_evidence(ws: Seq<Seq<char>>) -> bool {
    exists|i: int| 2 <= i < ws.len() && starts_with(#[trigger] ws[i], "usb:"@)
}

pub open spec fn transport_of(ws: Seq<Seq<char>>) -> Transport {
    if starts_with(ws[0], "emulator-"@) {
        Transport::Emulator
    } else if network_serial(ws[0]) {
        Transport::Tcp
    } else if has_usb_evidence(ws) {
        Transport::Usb
    } else {
        Transport::Unknown
    }
}

/// The device a listing line describes, if it has at least two fields.
pub open spec fn device_of_line(l: Seq<char>) -> Option<DeviceView> {
    let ws = words(l);
    if ws.len() < 2 {
        None
    } else {
        Some(DeviceView { serial: ws[0], state: state_of(ws[1]), transport: transport_of(ws) })
    }
}

pub open spec fn devices_of_lines(ls: Seq<Seq<char>>) -> Seq<DeviceView>
    decreases ls.len(),
{
    if ls.len() == 0 {
        seq![]
    } else {
        let prev = devices_of_lines(ls.drop_last());
        match device_of_line(ls.last()) {
            Some(d) => prev.push(d),
            None => prev,
        }
    }
}

pub open spec fn is_header(l: Seq<char>) -> bool {
    trim(l) == header_line()
}

/// Index of the first header line, if any.
pub open spec fn header_index(ls: Seq<Seq<char>>) -> Option<int> {
    if exists|i: int| 0 <= i < ls.len() && is_header(#[trigger] ls[i]) {
        Some(
            choose|i: int|
                0 <= i < ls.len() && is_header(#[trigger] ls[i]) && forall|j: int|
                    0 <= j < i ==> !is_header(#[trigger] ls[j]),
        )
    } else {
        None
    }
}

pub open spec fn missing_header_error() -> ProbeErrorView {
    ProbeErrorView::InvalidOutput {
        command: AdbCommand::DevicesLong,
        reason: "device-list header is missing"@,
    }
}

pub open spec fn parse_devices_spec(stdout: Seq<char>) -> Result<Seq<DeviceView>, ProbeErrorView> {
    let ls = lines(stdout);
    match header_index(ls) {
        Some(h) => Ok(devices_of_lines(ls.skip(h + 1))),
        None => Err(missing_header_error()),
    }
}

/// The device list is read from the lines after the first header line;
/// without a header line it is the missing-header error.
pub proof fn law_devices_follow_the_first_header(stdout: Seq<char>, h: int)
    ensures
        (forall|j: int| 0 <= j < lines(stdout).len() ==> !is_header(#[trigger] lines(stdout)[j]))
            ==> parse_devices_spec(stdout) == Err::<Seq<DeviceView>, ProbeErrorView>(missing_header_error()),
        0 <= h < lines(stdout).len() && is_header(lines(stdout)[h]) && (forall|j: int|
            0 <= j < h ==> !is_header(#[trigger] lines(stdout)[j])) ==> parse_devices_spec(stdout)
            == Ok::<Seq<DeviceView>, ProbeErrorView>(devices_of_lines(lines(stdout).skip(h + 1))),
{
    let ls = lines(stdout);
    if 0 <= h < ls.len() && is_header(ls[h]) && (forall|j: int| 0 <= j < h ==> !is_header(#[trigger] ls[j])) {
        let k = header_index(ls)->Some_0;
        assert(header_index(ls) is Some);
        if k < h {
            assert(!is_header(ls[k]));
        }
        if k > h {
            assert(!is_header(ls[h]));
        }
    }
}

/// Every listed device is what some line of the listing describes: its
/// serial and state are that line's first two fields, its transport read
/// from the line by `transport_of`.
pub proof fn law_each_device_comes_from_a_line(ls: Seq<Seq<char>>)
    ensures
        forall|k: int|
            0 <= k < devices_of_lines(ls).len() ==> exists|i: int|
                0 <= i < ls.len() && device_of_line(#[trigger] ls[i]) == Some(
                    #[trigger] devices_of_lines(ls)[k],
                ),
    decreases ls.len(),
{
    if ls.len() > 0 {
        let rest = ls.drop_last();
        law_each_device_comes_from_a_line(rest);
        let prev = devices_of_lines(rest);
        assert forall|k: int| 0 <= k < devices_of_lines(ls).len() implies exists|i: int|
            0 <= i < ls.len() && device_of_line(#[trigger] ls[i]) == Some(
                #[trigger] devices_of_lines(ls)[k],
            ) by {
            if k < prev.len() {
                assert(devices_of_lines(ls)[k] == prev[k]);
                let i = choose|i: int| 0 <= i < rest.len() && device_of_line(#[trigger] rest[i]) == Some(prev[k]);
                assert(ls[i] == rest[i]);
            } else {
                assert(device_of_line(ls[ls.len() - 1]) == Some(devices_of_lines(ls)[k]));
            }
        }
    }
}

fn state_from_word(w: &[char]) -> (r: DeviceState)
    ensures
        r@ == state_of(w@),
{
    if eq_str(w, "device") {
        DeviceState::Device
    } else if eq_str(w, "offline") {
        DeviceState::Offline
    } else if eq_str(w, "unauthorized") {
        DeviceState::Unauthorized
    } else {
        DeviceState::Other(string_from(w))
    }
}

fn device_from_line(l: &[char]) -> (r: Option<Device>)
    ensures
        r matches Some(d) ==> device_of_line(l@) == Some(d@),
        r is None ==> device_of_line(l@) is None,
{
    let ws = words_of(l);
    let ghost wv = views(ws@);
    if ws.len() < 2 {
        return None;
    }
    assert(wv[0] == ws@[0]@ && wv[1] == ws@[1]@);
    let serial = string_from(ws[0].as_slice());
    let state = state_from_word(ws[1].as_slice());
    let transport = if starts_with_str(ws[0].as_slice(), "emulator-") {
        Transport::Emulator
    } else if is_network_serial(ws[0].as_slice()) {
        Transport::Tcp
    } else {
        let mut usb = false;
        let mut i: usize = 2;
        while i < ws.len()
            invariant
                2 <= i <= ws.len(),
                wv == views(ws@),
                usb == exists|k: int| 2 <= k < i && starts_with(#[trigger] wv[k], "usb:"@),
            decreases ws.len() - i,
        {
            let here = starts_with_str(ws[i].as_slice(), "usb:");
            assert(wv[i as int] == ws@[i as int]@);
            if here {
                usb = true;
            }
            i = i + 1;
        }
        if usb {
            Transport::Usb
        } else {
            Transport::Unknown
        }
    };
    Some(Device { serial, state, transport })
}

fn find_header(ls: &Vec<Vec<char>>) -> (r: Option<usize>)
    ensures
        r matches Some(h) ==> h < ls.len() && header_index(views(ls@)) == Some(h as int),
        r is None ==> header_index(views(ls@)) is None,
{
    let ghost all = views(ls@);
    let mut h: usize = 0;
    while h < ls.len()
        invariant
            h <= ls.len(),
            all == views(ls@),
            forall|j: int| 0 <= j < h ==> !is_header(#[trigger] all[j]),
        decreases ls.len() - h,
    {
        let t = trim_exec(ls[h].as_slice());
        assert(all[h as int] == ls@[h as int]@);
        if eq_str(t.as_slice(), "List of devices attached") {
            assert(is_header(all[h as int]));
            assert(header_index(all) == Some(h as int)) by {
                let c = choose|i: int|
                    0 <= i < all.len() && is_header(#[trigger] all[i]) && forall|j: int|
                        0 <= j < i ==> !is_header(#[trigger] all[j]);
                if c > h {
                    assert(!is_header(all[h as int]));
                }
            }
            return Some(h);
        }
        h = h + 1;
    }
    None
}

/// The devices of `adb devices -l` output; the header line is required.
pub fn parse_devices(stdout: &str) -> (r: Result<Vec<Device>, ProbeError>)
    ensures
        match parse_devices_spec(stdout@) {
            Ok(ds) => r matches Ok(v) && device_views(v@) == ds,
            Err(e) => r matches Err(x) && x@ == e,
        },
{
    let chars = chars_of(stdout);
    let ls = lines_of(chars.as_slice());
    let ghost all = views(ls@);
    let h = match find_header(&ls) {
        Some(h) => h,
        None => {
            return Err(
                ProbeError::InvalidOutput {
                    command: AdbCommand::DevicesLong,
                    reason: "device-list header is missing".to_owned(),
                },
            );
        },
    };
    let ghost rest = all.skip(h + 1);
    let mut out: Vec<Device> = Vec::new();
    let mut i = h + 1;
    while i < ls.len()
        invariant
            h < i <= ls.len(),
            all == views(ls@),
            rest == all.skip(h + 1),
            device_views(out@) == devices_of_lines(rest.take(i - h - 1)),
        decreases ls.len() - i,
    {
        let d = device_from_line(ls[i].as_slice());
        assert(rest.take(i - h).drop_last() =~= rest.take(i - h - 1));
        assert(rest.take(i - h).last() == ls@[i as int]@);
        match d {
            Some(d) => {
                proof {
                    lemma_device_views_push(out@, d);
                }
                out.push(d);
            },
            None => {},
        }
        i = i + 1;
    }
    assert(rest.take(i - h - 1) =~= rest);
    Ok(out)
}

// ---------------------------------------------------------------------------
// adb mdns services
// ---------------------------------------------------------------------------

/// `trim_end_matches(c)`: all trailing copies of `c` removed.
pub open spec fn trim_end_char(s: Seq<char>, c: char) -> Seq<char>
    decreases s.len(),
{
    if s.len() > 0 && s.last() == c {
        trim_end_char(s.drop_last(), c)
    } else {
        s
    }
}

/// `v` without its trailing `c`s.
pub fn trim_end_char_exec(v: &[char], c: char) -> (r: Vec<char>)
    ensures
        r@ == trim_end_char(v@, c),
{
    let mut n = v.len();
    assert(v@.take(n as int) =~= v@);
    while n > 0 && v[n - 1] == c
        invariant
            n <= v.len(),
            trim_end_char(v@, c) == trim_end_char(v@.take(n as int), c),
        decreases n,
    {
        assert(v@.take(n as int).drop_last() =~= v@.take(n - 1));
        n = n - 1;
    }
    let r = slice_of(v, 0, n);
    assert(r@ =~= v@.take(n as int));
    r
}

pub open spec fn pairing_service() -> Seq<char> {
    "_adb-tls-pairing._tcp"@
}

pub open spec fn mdns_header() -> Seq<char> {
    "List of discovered mdns services"@
}

/// What one `adb mdns services` line contributes:
/// (pairing advertised, connect advertised, malformed).
pub open spec fn mdns_line_effect(l: Seq<char>) -> (bool, bool, bool) {
    let t = trim(l);
    if t.len() == 0 || t == mdns_header() {
        (false, false, false)
    } else {
        let ws = words(t);
        if ws.len() < 3 {
            (false, false, true)
        } else {
            let svc = trim_end_char(ws[1], '.');
            if svc == pairing_service() {
                (true, false, false)
            } else if svc == tls_connect() {
                (false, true, false)
            } else {
                (false, false, true)
            }
        }
    }
}

/// The report for the lines seen so far: (pairing, connect, malformed count).
pub open spec fn mdns_fold(ls: Seq<Seq<char>>) -> (bool, bool, nat)
    decreases ls.len(),
{
    if ls.len() == 0 {
        (false, false, 0)
    } else {
        let (p, c, m) = mdns_fold(ls.drop_last());
        let (p2, c2, m2) = mdns_line_effect(ls.last());
        (p || p2, c || c2, if m2 {
            m + 1
        } else {
            m
        })
    }
}

pub proof fn lemma_mdns_fold_count(ls: Seq<Seq<char>>)
    ensures
        mdns_fold(ls).2 <= ls.len(),
    decreases ls.len(),
{
    if ls.len() > 0 {
        lemma_mdns_fold_count(ls.drop_last());
    }
}

/// The lines that are neither blank, the header, nor an advertisement of
/// one of the two services.
pub open spec fn malformed_lines(ls: Seq<Seq<char>>) -> Seq<Seq<char>> {
    ls.filter(|l: Seq<char>| mdns_line_effect(l).2)
}

/// The malformed count is the number of lines that advertise neither service
/// and are not blank or the header.
pub proof fn law_malformed_lines_are_counted(ls: Seq<Seq<char>>)
    ensures
        mdns_fold(ls).2 == malformed_lines(ls).len(),
    decreases ls.len(),
{
    reveal(Seq::filter);
    if ls.len() > 0 {
        law_malformed_lines_are_counted(ls.drop_last());
    }
}

/// A service counts as advertised when any line advertises it, wherever
/// the line stands.
pub proof fn law_advertised_by_any_line(ls: Seq<Seq<char>>)
    ensures
        mdns_fold(ls).0 <==> exists|i: int| 0 <= i < ls.len() && (#[trigger] mdns_line_effect(ls[i])).0,
        mdns_fold(ls).1 <==> exists|i: int| 0 <= i < ls.len() && (#[trigger] mdns_line_effect(ls[i])).1,
    decreases ls.len(),
{
    if ls.len() > 0 {
        let rest = ls.drop_last();
        law_advertised_by_any_line(rest);
        assert forall|i: int| 0 <= i < rest.len() implies #[trigger] mdns_line_effect(rest[i])
            == mdns_line_effect(ls[i]) by {
            assert(rest[i] == ls[i]);
        }
        if mdns_fold(ls).0 {
            if !mdns_line_effect(ls.last()).0 {
                let i = choose|i: int| 0 <= i < rest.len() && (#[trigger] mdns_line_effect(rest[i])).0;
                assert(mdns_line_effect(ls[i]).0);
            } else {
                assert(mdns_line_effect(ls[ls.len() - 1]).0);
            }
        }
        if exists|i: int| 0 <= i < ls.len() && (#[trigger] mdns_line_effect(ls[i])).0 {
            let i = choose|i: int| 0 <= i < ls.len() && (#[trigger] mdns_line_effect(ls[i])).0;
            if i < rest.len() {
                assert(mdns_line_effect(rest[i]).0);
            }
        }
        if mdns_fold(ls).1 {
            if !mdns_line_effect(ls.last()).1 {
                let i = choose|i: int| 0 <= i < rest.len() && (#[trigger] mdns_line_effect(rest[i])).1;
                assert(mdns_line_effect(ls[i]).1);
            } else {
                assert(mdns_line_effect(ls[ls.len() - 1]).1);
            }
        }
        if exists|i: int| 0 <= i < ls.len() && (#[trigger] mdns_line_effect(ls[i])).1 {
            let i = choose|i: int| 0 <= i < ls.len() && (#[trigger] mdns_line_effect(ls[i])).1;
            if i < rest.len() {
                assert(mdns_line_effect(rest[i]).1);
            }
        }
    }
}

pub open spec fn parse_mdns_spec(stdout: Seq<char>) -> MdnsReport {
    let (p, c, m) = mdns_fold(lines(stdout));
    MdnsReport {
        availability: MdnsAvailability::Available,
        pairing_service_advertised: p,
        connect_service_advertised: c,
        malformed_lines: m as usize,
    }
}

fn mdns_line_effect_exec(l: &[char]) -> (r: (bool, bool, bool))
    ensures
        r == mdns_line_effect(l@),
{
    let t = trim_exec(l);
    if t.len() == 0 || eq_str(t.as_slice(), "List of discovered mdns services") {
        return (false, false, false);
    }
    let ws = words_of(t.as_slice());
    if ws.len() < 3 {
        return (false, false, true);
    }
    assert(views(ws@)[1] == ws@[1]@);
    let svc = trim_end_char_exec(ws[1].as_slice(), '.');
    if eq_str(svc.as_slice(), "_adb-tls-pairing._tcp") {
        (true, false, false)
    } else if eq_str(svc.as_slice(), "_adb-tls-connect._tcp") {
        (false, true, false)
    } else {
        (false, false, true)
    }
}

/// Which wireless-debugging services `adb mdns services` reports, and how many
/// lines did not fit the expected shape.
pub fn parse_mdns(stdout: &str) -> (r: MdnsReport)
    ensures
        r == parse_mdns_spec(stdout@),
{
    let chars = chars_of(stdout);
    let ls = lines_of(chars.as_slice());
    let ghost all = views(ls@);
    let mut pairing = false;
    let mut connect = false;
    let mut malformed: usize = 0;
    let mut i: usize = 0;
    while i < ls.len()
        invariant
            i <= ls.len(),
            all == views(ls@),
            all == lines(stdout@),
            (pairing, connect, malformed as nat) == mdns_fold(all.take(i as int)),
        decreases ls.len() - i,
    {
        assert(all.take(i + 1).drop_last() =~= all.take(i as int));
        assert(all.take(i + 1).last() == ls@[i as int]@);
        proof {
            lemma_mdns_fold_count(all.take(i as int));
        }
        let (p, c, m) = mdns_line_effect_exec(ls[i].as_slice());
        pairing = pairing || p;
        connect = connect || c;
        if m {
            malformed = malformed + 1;
        }
        i = i + 1;
    }
    assert(all.take(i as int) =~= all);
    MdnsReport {
        availability: MdnsAvailability::Available,
        pairing_service_advertised: pairing,
        connect_service_advertised: connect,
        malformed_lines: malformed,
    }
}

// ---------------------------------------------------------------------------
// The probe
// ---------------------------------------------------------------------------

pub open spec fn command_failure_spec(command: AdbCommand, o: CommandOutputView) -> ProbeErrorView {
    ProbeErrorView::CommandFailed { command, status: o.status, stderr: o.stderr }
}

/// A command that exited non-zero, with its status and stderr kept.
pub fn command_failure(command: AdbCommand, output: CommandOutput) -> (r: ProbeError)
    ensures
        r@ == command_failure_spec(command, output@),
{
    ProbeError::CommandFailed { command, status: output.status, stderr: output.stderr }
}

/// Whether a failed `adb mdns services` only says that this adb lacks mDNS.
pub open spec fn mdns_unsupported_spec(o: CommandOutputView) -> bool {
    let message = lower_seq(o.stdout + seq!['\n'] + o.stderr);
    contains(message, "unknown command"@) || contains(message, "not supported"@)
}

/// Whether a failed `adb mdns services` means this adb has no mDNS support.
pub fn mdns_is_unsupported(output: &CommandOutput) -> (r: bool)
    ensures
        r == mdns_unsupported_spec(output@),
{
    let mut joined = String::new();
    push_str(&mut joined, output.stdout.as_str());
    push_str(&mut joined, "\n");
    push_str(&mut joined, output.stderr.as_str());
    proof {
        reveal_strlit("\n");
        assert(joined@ =~= output.stdout@ + seq!['\n'] + output.stderr@);
    }
    let chars = chars_of(joined.as_str());
    let lowered = to_lower(chars.as_slice());
    contains_str(lowered.as_slice(), "unknown command") || contains_str(
        lowered.as_slice(),
        "not supported",
    )
}

/// The outcome of the `adb version` step.
pub open spec fn version_step_spec(o: Result<CommandOutputView, ExecutionErrorView>) -> Result<
    Seq<char>,
    ProbeErrorView,
> {
    match o {
        Err(e) => Err(ProbeErrorView::Execution(e)),
        Ok(out) => if out.status != 0 {
            Err(command_failure_spec(AdbCommand::Version, out))
        } else {
            parse_version_spec(out.stdout)
        },
    }
}

/// The outcome of the `adb devices -l` step.
pub open spec fn devices_step_spec(o: Result<CommandOutputView, ExecutionErrorView>) -> Result<
    Seq<DeviceView>,
    ProbeErrorView,
> {
    match o {
        Err(e) => Err(ProbeErrorView::Execution(e)),
        Ok(out) => if out.status != 0 {
            Err(command_failure_spec(AdbCommand::DevicesLong, out))
        } else {
            parse_devices_spec(out.stdout)
        },
    }
}

pub open spec fn unsupported_mdns_report() -> MdnsReport {
    MdnsReport {
        availability: MdnsAvailability::Unsupported,
        pairing_service_advertised: false,
        connect_service_advertised: false,
        malformed_lines: 0,
    }
}

/// The outcome of the `adb mdns services` step: failure only degrades the report
/// when adb says it lacks mDNS.
pub open spec fn mdns_step_spec(o: Result<CommandOutputView, ExecutionErrorView>) -> Result<
    MdnsReport,
    ProbeErrorView,
> {
    match o {
        Err(e) => Err(ProbeErrorView::Execution(e)),
        Ok(out) => if out.status == 0 {
            Ok(parse_mdns_spec(out.stdout))
        } else if mdns_unsupported_spec(out) {
            Ok(unsupported_mdns_report())
        } else {
            Err(command_failure_spec(AdbCommand::MdnsServices, out))
        },
    }
}

pub open spec fn result_view<T: View, E: View>(r: Result<T, E>) -> Result<T::V, E::V> {
    match r {
        Ok(t) => Ok(t@),
        Err(e) => Err(e@),
    }
}

/// Wireless debugging is connected exactly when some network device is ready.
pub open spec fn wireless_connected_spec(ds: Seq<DeviceView>) -> bool {
    exists|i: int|
        0 <= i < ds.len() && (#[trigger] ds[i]).transport == Transport::Tcp && ds[i].state
            is Device
}

pub open spec fn report_spec(
    version: Seq<char>,
    devices: Seq<DeviceView>,
    mdns: MdnsReport,
) -> ProbeReportView {
    ProbeReportView {
        adb_version: version,
        devices,
        mdns,
        wireless_connected: wireless_connected_spec(devices),
        paired_with_this_host: PairingObservation::Unknown,
    }
}

/// The probe's outcome for the three command outcomes, in order; a later
/// outcome only matters when the earlier steps succeeded.
pub open spec fn probe_spec(
    v: Result<CommandOutputView, ExecutionErrorView>,
    d: Result<CommandOutputView, ExecutionErrorView>,
    m: Result<CommandOutputView, ExecutionErrorView>,
) -> Result<ProbeReportView, ProbeErrorView> {
    match version_step_spec(v) {
        Err(e) => Err(e),
        Ok(version) => match devices_step_spec(d) {
            Err(e) => Err(e),
            Ok(devices) => match mdns_step_spec(m) {
                Err(e) => Err(e),
                Ok(mdns) => Ok(report_spec(version, devices, mdns)),
            },
        },
    }
}

/// The `adb version` step.
pub fn version_step(output: Result<CommandOutput, ExecutionError>) -> (r: Result<
    String,
    ProbeError,
>)
    ensures
        match version_step_spec(result_view(output)) {
            Ok(v) => r matches Ok(s) && s@ == v,
            Err(e) => r matches Err(x) && x@ == e,
        },
{
    match output {
        Err(e) => Err(ProbeError::Execution(e)),
        Ok(out) => if out.status != 0 {
            Err(command_failure(AdbCommand::Version, out))
        } else {
            parse_version(out.stdout.as_str())
        },
    }
}

/// The `adb devices -l` step.
pub fn devices_step(output: Result<CommandOutput, ExecutionError>) -> (r: Result<
    Vec<Device>,
    ProbeError,
>)
    ensures
        match devices_step_spec(result_view(output)) {
            Ok(ds) => r matches Ok(v) && device_views(v@) == ds,
            Err(e) => r matches Err(x) && x@ == e,
        },
{
    match output {
        Err(e) => Err(ProbeError::Execution(e)),
        Ok(out) => if out.status != 0 {
            Err(command_failure(AdbCommand::DevicesLong, out))
        } else {
            parse_devices(out.stdout.as_str())
        },
    }
}

/// The `adb mdns services` step.
pub fn mdns_step(output: Result<CommandOutput, ExecutionError>) -> (r: Result<
    MdnsReport,
    ProbeError,
>)
    ensures
        match mdns_step_spec(result_view(output)) {
            Ok(m) => r matches Ok(x) && x == m,
            Err(e) => r matches Err(x) && x@ == e,
        },
{
    match output {
        Err(e) => Err(ProbeError::Execution(e)),
        Ok(out) => if out.status == 0 {
            Ok(parse_mdns(out.stdout.as_str()))
        } else if mdns_is_unsupported(&out) {
            Ok(
                MdnsReport {
                    availability: MdnsAvailability::Unsupported,
                    pairing_service_advertised: false,
                    connect_service_advertised: false,
                    malformed_lines: 0,
                },
            )
        } else {
            Err(command_failure(AdbCommand::MdnsServices, out))
        },
    }
}

/// Whether some device is a ready network device.
pub fn has_wireless_connection(devices: &Vec<Device>) -> (r: bool)
    ensures
        r == wireless_connected_spec(device_views(devices@)),
{
    let ghost dv = device_views(devices@);
    let mut i: usize = 0;
    while i < devices.len()
        invariant
            i <= devices.len(),
            dv == device_views(devices@),
            forall|k: int|
                0 <= k < i ==> !((#[trigger] dv[k]).transport == Transport::Tcp
                    && dv[k].state is Device),
        decreases devices.len() - i,
    {
        assert(dv[i as int] == devices@[i as int]@);
        let ready = match devices[i].state {
            DeviceState::Device => true,
            _ => false,
        };
        if devices[i].transport == Transport::Tcp && ready {
            return true;
        }
        i = i + 1;
    }
    false
}

/// The report built from the three successful steps.
pub fn assemble_report(adb_version: String, devices: Vec<Device>, mdns: MdnsReport) -> (r:
    ProbeReport)
    ensures
        r@ == report_spec(adb_version@, device_views(devices@), mdns),
{
    let wireless_connected = has_wireless_connection(&devices);
    ProbeReport {
        adb_version,
        devices,
        mdns,
        wireless_connected,
        paired_with_this_host: PairingObservation::Unknown,
    }
}

/// When `adb version` and `adb devices -l` succeed and read, the probe
/// succeeds with that version and those devices, whatever mDNS answered (as
/// long as its step did not fail): the wireless connection is read from the
/// devices alone, and pairing with this host is never claimed.
pub proof fn law_report_comes_from_version_and_devices(
    v: Result<CommandOutputView, ExecutionErrorView>,
    d: Result<CommandOutputView, ExecutionErrorView>,
    m: Result<CommandOutputView, ExecutionErrorView>,
    m2: Result<CommandOutputView, ExecutionErrorView>,
)
    requires
        version_step_spec(v) is Ok,
        devices_step_spec(d) is Ok,
        mdns_step_spec(m) is Ok,
        mdns_step_spec(m2) is Ok,
    ensures
        probe_spec(v, d, m) matches Ok(r) && r.adb_version == version_step_spec(v)->Ok_0
            && r.devices == devices_step_spec(d)->Ok_0 && r.mdns == mdns_step_spec(m)->Ok_0
            && r.wireless_connected == wireless_connected_spec(r.devices)
            && r.paired_with_this_host == PairingObservation::Unknown,
        probe_spec(v, d, m)->Ok_0.wireless_connected == probe_spec(v, d, m2)->Ok_0.wireless_connected,
{
}

/// A successful probe says wireless debugging is connected exactly when one
/// of the devices it lists is on a network transport and in state
/// `device`: network devices that are offline or unauthorized, and ready
/// devices on USB, do not make it connected.
pub proof fn law_wireless_needs_a_ready_network_device(
    v: Result<CommandOutputView, ExecutionErrorView>,
    d: Result<CommandOutputView, ExecutionErrorView>,
    m: Result<CommandOutputView, ExecutionErrorView>,
)
    ensures
        probe_spec(v, d, m) matches Ok(r) ==> (r.wireless_connected <==> exists|i: int|
            0 <= i < r.devices.len() && (#[trigger] r.devices[i]).transport == Transport::Tcp
                && r.devices[i].state == DeviceStateView::Device),
        probe_spec(v, d, m) matches Ok(r) ==> ((forall|i: int|
            0 <= i < r.devices.len() && (#[trigger] r.devices[i]).transport == Transport::Tcp
                ==> r.devices[i].state != DeviceStateView::Device) ==> !r.wireless_connected),
{
}

/// An adb without mDNS support (a failed `adb mdns services` that says so)
/// does not fail the probe: the report says mDNS is unsupported.
pub proof fn law_unsupported_mdns_is_partial_success(
    v: Result<CommandOutputView, ExecutionErrorView>,
    d: Result<CommandOutputView, ExecutionErrorView>,
    out: CommandOutputView,
)
    requires
        version_step_spec(v) is Ok,
        devices_step_spec(d) is Ok,
        out.status != 0,
        mdns_unsupported_spec(out),
    ensures
        probe_spec(v, d, Ok(out)) matches Ok(r) && r.mdns == unsupported_mdns_report(),
{
}

/// Runs `adb version`, `adb devices -l` and `adb mdns services`, in that order,
/// stopping at the first failure, and reports what they show.
///
/// The outputs come from the runner, so the result is stated for the answers
/// it handed back, whatever they were: `v` is its answer to `Version`; `d`,
/// asked only once the version step succeeded, its answer to `DevicesLong`;
/// `m`, asked only once the devices step succeeded too, its answer to
/// `MdnsServices`.
pub fn run_probe<R: CommandRunner>(runner: &R) -> (r: Result<ProbeReport, ProbeError>)
    ensures
        exists|
            v: Result<CommandOutputView, ExecutionErrorView>,
            d: Result<CommandOutputView, ExecutionErrorView>,
            m: Result<CommandOutputView, ExecutionErrorView>,
        | {
            &&& result_view(r) == probe_spec(v, d, m)
            &&& runner.answers(AdbCommand::Version, v)
            &&& version_step_spec(v) is Ok ==> runner.answers(AdbCommand::DevicesLong, d)
            &&& version_step_spec(v) is Ok && devices_step_spec(d) is Ok ==> runner.answers(
                AdbCommand::MdnsServices,
                m,
            )
        },
        r matches Ok(report) ==> report.paired_with_this_host == PairingObservation::Unknown
            && report.wireless_connected == wireless_connected_spec(
            device_views(report.devices@),
        ),
{
    let version_output = runner.run(AdbCommand::Version);
    let ghost v = result_view(version_output);
    let adb_version = match version_step(version_output) {
        Ok(version) => version,
        Err(e) => {
            assert(result_view::<ProbeReport, ProbeError>(Err(e)) == probe_spec(v, v, v));
            return Err(e);
        },
    };
    let devices_output = runner.run(AdbCommand::DevicesLong);
    let ghost d = result_view(devices_output);
    let devices = match devices_step(devices_output) {
        Ok(devices) => devices,
        Err(e) => {
            assert(result_view::<ProbeReport, ProbeError>(Err(e)) == probe_spec(v, d, d));
            return Err(e);
        },
    };
    let mdns_output = runner.run(AdbCommand::MdnsServices);
    let ghost m = result_view(mdns_output);
    let mdns = match mdns_step(mdns_output) {
        Ok(mdns) => mdns,
        Err(e) => {
            assert(result_view::<ProbeReport, ProbeError>(Err(e)) == probe_spec(v, d, m));
            return Err(e);
        },
    };
    let report = assemble_report(adb_version, devices, mdns);
    assert(result_view::<ProbeReport, ProbeError>(Ok(report)) == probe_spec(v, d, m));
    Ok(report)
}

// ---------------------------------------------------------------------------
// JSON report
// ---------------------------------------------------------------------------

pub open spec fn hex_digit(n: nat) -> char {
    if n < 10 {
        (('0' as u32) + n) as char
    } else {
        (('a' as u32) + n - 10) as char
    }
}

/// How one character appears inside a JSON string literal.
pub open spec fn escape_char(c: char) -> Seq<char> {
    if c == '"' {
        seq!['\\', '"']
    } else if c == '\\' {
        seq!['\\', '\\']
    } else if c == '\n' {
        seq!['\\', 'n']
    } else if c == '\r' {
        seq!['\\', 'r']
    } else if c == '\t' {
        seq!['\\', 't']
    } else if c == '\u{08}' {
        seq!['\\', 'b']
    } else if c == '\u{0c}' {
        seq!['\\', 'f']
    } else if (c as u32) <= 0x1f {
        seq![
            '\\',
            'u',
            '0',
            '0',
            hex_digit(((c as u32) / 16) as nat),
            hex_digit(((c as u32) % 16) as nat),
        ]
    } else {
        seq![c]
    }
}

pub open spec fn json_escape_spec(s: Seq<char>) -> Seq<char>
    decreases s.len(),
{
    if s.len() == 0 {
        seq![]
    } else {
        json_escape_spec(s.drop_last()) + escape_char(s.last())
    }
}

fn hex_digit_exec(n: u32) -> (c: char)
    requires
        n < 16,
    ensures
        c == hex_digit(n as nat),
{
    let b: u8 = if n < 10 {
        (48 + n) as u8
    } else {
        (97 + n - 10) as u8
    };
    b as char
}

fn escape_char_exec(c: char) -> (r: Vec<char>)
    ensures
        r@ == escape_char(c),
{
    let r: Vec<char> = if c == '"' {
        vec!['\\', '"']
    } else if c == '\\' {
        vec!['\\', '\\']
    } else if c == '\n' {
        vec!['\\', 'n']
    } else if c == '\r' {
        vec!['\\', 'r']
    } else if c == '\t' {
        vec!['\\', 't']
    } else if c == '\u{08}' {
        vec!['\\', 'b']
    } else if c == '\u{0c}' {
        vec!['\\', 'f']
    } else if (c as u32) <= 0x1f {
        let code = c as u32;
        vec!['\\', 'u', '0', '0', hex_digit_exec(code / 16), hex_digit_exec(code % 16)]
    } else {
        vec![c]
    };
    assert(r@ =~= escape_char(c));
    r
}

/// Appends `v` escaped for a JSON string literal.
fn push_json_escaped(s: &mut String, v: &[char])
    ensures
        final(s)@ == old(s)@ + json_escape_spec(v@),
{
    let ghost s0 = s@;
    let mut i: usize = 0;
    while i < v.len()
        invariant
            i <= v.len(),
            s@ == s0 + json_escape_spec(v@.take(i as int)),
        decreases v.len() - i,
    {
        let e = escape_char_exec(v[i]);
        push_all(s, e.as_slice());
        assert(v@.take(i + 1).drop_last() =~= v@.take(i as int));
        assert(s@ =~= s0 + json_escape_spec(v@.take(i + 1)));
        i = i + 1;
    }
    assert(v@.take(i as int) =~= v@);
}

/// `value` escaped for use inside a JSON string literal.
pub fn json_escape(value: &str) -> (r: String)
    ensures
        r@ == json_escape_spec(value@),
{
    let v = chars_of(value);
    let mut s = String::new();
    push_json_escaped(&mut s, v.as_slice());
    assert(s@ =~= json_escape_spec(value@));
    s
}

pub open spec fn state_text(st: DeviceStateView) -> Seq<char> {
    match st {
        DeviceStateView::Device => "device"@,
        DeviceStateView::Offline => "offline"@,
        DeviceStateView::Unauthorized => "unauthorized"@,
        DeviceStateView::Other(v) => v,
    }
}

pub open spec fn transport_text_spec(t: Transport) -> Seq<char> {
    match t {
        Transport::Usb => "usb"@,
        Transport::Tcp => "tcp"@,
        Transport::Emulator => "emulator"@,
        Transport::Unknown => "unknown"@,
    }
}

/// A device state as the report writes it.
pub fn device_state_text(state: &DeviceState) -> (r: &str)
    ensures
        r@ == state_text(state@),
{
    match state {
        DeviceState::Device => "device",
        DeviceState::Offline => "offline",
        DeviceState::Unauthorized => "unauthorized",
        DeviceState::Other(value) => value.as_str(),
    }
}

/// A transport as the report writes it.
pub fn transport_text(transport: Transport) -> (r: &'static str)
    ensures
        r@ == transport_text_spec(transport),
{
    match transport {
        Transport::Usb => "usb",
        Transport::Tcp => "tcp",
        Transport::Emulator => "emulator",
        Transport::Unknown => "unknown",
    }
}

pub open spec fn bool_text(b: bool) -> Seq<char> {
    if b {
        "true"@
    } else {
        "false"@
    }
}

pub open spec fn device_json(d: DeviceView) -> Seq<char> {
    "{\"serial\":\""@ + json_escape_spec(d.serial) + "\",\"state\":\""@ + json_escape_spec(
        state_text(d.state),
    ) + "\",\"transport\":\""@ + transport_text_spec(d.transport) + "\"}"@
}

/// The device objects joined by commas.
pub open spec fn devices_json(ds: Seq<DeviceView>) -> Seq<char>
    decreases ds.len(),
{
    if ds.len() == 0 {
        seq![]
    } else if ds.len() == 1 {
        device_json(ds[0])
    } else {
        devices_json(ds.drop_last()) + ","@ + device_json(ds.last())
    }
}

pub open spec fn availability_text(a: MdnsAvailability) -> Seq<char> {
    match a {
        MdnsAvailability::Available => "available"@,
        MdnsAvailability::Unsupported => "unsupported"@,
    }
}

/// The report as one JSON object with stable field names.
pub open spec fn report_json_spec(r: ProbeReportView) -> Seq<char> {
    "{\"adb_version\":\""@ + json_escape_spec(r.adb_version) + "\",\"devices\":["@
        + devices_json(r.devices) + "],\"mdns\":{\"availability\":\""@ + availability_text(
        r.mdns.availability,
    ) + "\",\"pairing_service_advertised\":"@ + bool_text(r.mdns.pairing_service_advertised)
        + ",\"connect_service_advertised\":"@ + bool_text(r.mdns.connect_service_advertised)
        + ",\"malformed_lines\":"@ + dec(r.mdns.malformed_lines as nat)
        + "},\"wireless_connected\":"@ + bool_text(r.wireless_connected)
        + ",\"paired_with_this_host\":\"unknown\"}"@
}

fn push_bool(s: &mut String, b: bool)
    ensures
        final(s)@ == old(s)@ + bool_text(b),
{
    if b {
        push_str(s, "true");
    } else {
        push_str(s, "false");
    }
}

fn push_device_json(s: &mut String, d: &Device)
    ensures
        final(s)@ == old(s)@ + device_json(d@),
{
    let ghost s0 = s@;
    push_str(s, "{\"serial\":\"");
    let serial = chars_of(d.serial.as_str());
    push_json_escaped(s, serial.as_slice());
    push_str(s, "\",\"state\":\"");
    let state = chars_of(device_state_text(&d.state));
    push_json_escaped(s, state.as_slice());
    push_str(s, "\",\"transport\":\"");
    push_str(s, transport_text(d.transport));
    push_str(s, "\"}");
    assert(s@ =~= s0 + device_json(d@));
}

/// The report as JSON, for machine consumers of the probe.
pub fn report_json(report: &ProbeReport) -> (r: String)
    ensures
        r@ == report_json_spec(report@),
{
    let ghost dv = device_views(report.devices@);
    let mut s = String::new();
    push_str(&mut s, "{\"adb_version\":\"");
    let version = chars_of(report.adb_version.as_str());
    push_json_escaped(&mut s, version.as_slice());
    push_str(&mut s, "\",\"devices\":[");
    let ghost s1 = s@;
    let mut i: usize = 0;
    while i < report.devices.len()
        invariant
            i <= report.devices.len(),
            dv == device_views(report.devices@),
            s@ == s1 + devices_json(dv.take(i as int)),
        decreases report.devices.len() - i,
    {
        assert(dv.take(i + 1).drop_last() =~= dv.take(i as int));
        assert(dv.take(i + 1).last() == report.devices@[i as int]@);
        if i > 0 {
            push_str(&mut s, ",");
        }
        push_device_json(&mut s, &report.devices[i]);
        proof {
            if i == 0 {
                assert(dv.take(0).len() == 0);
                assert(dv.take(1)[0] == report.devices@[0]@);
            }
        }
        assert(s@ =~= s1 + devices_json(dv.take(i + 1)));
        i = i + 1;
    }
    assert(dv.take(i as int) =~= dv);
    push_str(&mut s, "],\"mdns\":{\"availability\":\"");
    match report.mdns.availability {
        MdnsAvailability::Available => push_str(&mut s, "available"),
        MdnsAvailability::Unsupported => push_str(&mut s, "unsupported"),
    }
    push_str(&mut s, "\",\"pairing_service_advertised\":");
    push_bool(&mut s, report.mdns.pairing_service_advertised);
    push_str(&mut s, ",\"connect_service_advertised\":");
    push_bool(&mut s, report.mdns.connect_service_advertised);
    push_str(&mut s, ",\"malformed_lines\":");
    push_decimal(&mut s, report.mdns.malformed_lines as u64);
    push_str(&mut s, "},\"wireless_connected\":");
    push_bool(&mut s, report.wireless_connected);
    push_str(&mut s, ",\"paired_with_this_host\":\"unknown\"}");
    assert(s@ =~= report_json_spec(report@));
    s
}

/// The process exit code for a probe result.
pub fn exit_code_for(result: &Result<ProbeReport, ProbeError>) -> (r: i32)
    ensures
        r == (if result is Ok {
            0i32
        } else {
            1i32
        }),
{
    if result.is_ok() {
        0
    } else {
        1
    }
}

/// The command line takes no argument, or exactly `--format json`.
pub open spec fn cli_args_valid_spec(args: Seq<Seq<char>>) -> bool {
    args.len() == 0 || (args.len() == 2 && args[0] == "--format"@ && args[1] == "json"@)
}

pub open spec fn string_views(v: Seq<String>) -> Seq<Seq<char>> {
    v.map_values(|s: String| s@)
}

/// The probe's command line: nothing, or exactly `--format json`.
pub fn cli_args_are_valid(args: &[String]) -> (r: bool)
    ensures
        r == cli_args_valid_spec(string_views(args@)),
{
    let ghost a = string_views(args@);
    if args.len() == 0 {
        return true;
    }
    if args.len() != 2 {
        return false;
    }
    assert(a[0] == args@[0]@ && a[1] == args@[1]@);
    let flag = chars_of(args[0].as_str());
    let value = chars_of(args[1].as_str());
    eq_str(flag.as_slice(), "--format") && eq_str(value.as_slice(), "json")
}

} // verus!
