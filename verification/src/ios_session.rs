//! What an iPhone session is launched with and what it reports: the launch
//! options (printed without the full UDID), the children a session runs, why
//! it ended, and how a dead child's stderr maps to a stable error.

use vstd::prelude::*;
use crate::adb_probe::{dec, push_decimal, string_views};
use crate::ios::{short_ios_name, short_name_spec, Error, ErrorView, DEFAULT_TUNNEL_INFO_PORT};
use crate::text::{chars_of, contains, contains_str, lower_seq, push_str, to_lower};

verus! {

/// Seconds a session may take to shut down.
pub const IOS_SHUTDOWN_DEADLINE_SECS: u64 = 7;

/// Seconds to wait for WDA's `/status`.
pub const DEFAULT_STATUS_BUDGET_SECS: u64 = 60;

/// Seconds to wait for the device tunnel to register.
pub const TUNNEL_READY_BUDGET_SECS: u64 = 10;

/// MJPEG encoder settings; they act on the encoder, never on the display.
pub const MJPEG_FPS: u32 = 15;

pub const MJPEG_QUALITY: u32 = 50;

/// The three WebDriverAgent bundle identifiers.
#[derive(Debug, Clone)]
pub struct WdaIds {
    pub bundle_id: String,
    pub testrunner_id: String,
    pub xctestconfig: String,
}

/// How a session runs.
#[derive(Debug, Clone)]
pub enum LaunchMode {
    /// The whole chain: tunnel, runwda, two forwards and the proxy.
    Launch { ios: std::path::PathBuf, wda: WdaIds, env: Vec<(String, String)> },
    /// Attach to ports that are already served; start no child.
    Attach { http_port: u16, mjpeg_port: u16 },
}

/// Trusted: `core::time::Duration::from_secs`. Nothing is stated of the value.
pub assume_specification[ core::time::Duration::from_secs ](secs: u64) -> core::time::Duration;

/// Trusted: `Duration::clone`. Nothing is stated of the copy.
pub assume_specification[ <core::time::Duration as core::clone::Clone>::clone ](
    d: &core::time::Duration,
) -> core::time::Duration;

/// What an iPhone session is started with.
#[derive(Clone)]
pub struct IosLaunchOptions {
    /// The device UDID. It is passed to go-ios but never persisted and never
    /// printed in full.
    pub udid: String,
    pub mode: LaunchMode,
    pub tunnel_info_port: u16,
    pub tunnel_ready_budget: core::time::Duration,
    pub status_budget: core::time::Duration,
}

/// What `str`'s `Debug` renders: the text quoted, with escapes.
pub uninterp spec fn debug_quoted(s: Seq<char>) -> Seq<char>;

/// Trusted: `str`'s `Debug` formatting. The result is named `debug_quoted`.
#[verifier::external_body]
fn quoted(s: &str) -> (r: String)
    ensures
        r@ == debug_quoted(s@),
{
    format!("{:?}", s)
}

/// Trusted: `Duration`'s `Debug` formatting. A duration is opaque here, so
/// nothing is stated of the text.
#[verifier::external_body]
fn duration_debug(d: &core::time::Duration) -> String {
    format!("{:?}", d)
}

/// Trusted: `PathBuf`'s `Debug` formatting. A path is opaque here, so nothing
/// is stated of the text.
#[verifier::external_body]
fn path_debug(p: &std::path::PathBuf) -> String {
    format!("{:?}", p)
}

pub open spec fn attach_text(http_port: u16, mjpeg_port: u16) -> Seq<char> {
    "Attach { http_port: "@ + dec(http_port as nat) + ", mjpeg_port: "@ + dec(mjpeg_port as nat)
        + " }"@
}

fn push_pair(s: &mut String, k: &str, v: &str)
    ensures
        final(s)@ == old(s)@ + "("@ + debug_quoted(k@) + ", "@ + debug_quoted(v@) + ")"@,
{
    push_str(s, "(");
    let a = quoted(k);
    push_str(s, a.as_str());
    push_str(s, ", ");
    let b = quoted(v);
    push_str(s, b.as_str());
    push_str(s, ")");
    assert(s@ =~= old(s)@ + "("@ + debug_quoted(k@) + ", "@ + debug_quoted(v@) + ")"@);
}

fn push_mode(s: &mut String, mode: &LaunchMode)
    ensures
        old(s)@.len() <= final(s)@.len(),
        final(s)@.take(old(s)@.len() as int) == old(s)@,
        mode matches LaunchMode::Attach { http_port, mjpeg_port } ==> final(s)@ == old(s)@
            + attach_text(*http_port, *mjpeg_port),
{
    match mode {
        LaunchMode::Attach { http_port, mjpeg_port } => {
            push_str(s, "Attach { http_port: ");
            push_decimal(s, *http_port as u64);
            push_str(s, ", mjpeg_port: ");
            push_decimal(s, *mjpeg_port as u64);
            push_str(s, " }");
            assert(s@ =~= old(s)@ + attach_text(*http_port, *mjpeg_port));
        },
        LaunchMode::Launch { ios, wda, env } => {
            push_str(s, "Launch { ios: ");
            let p = path_debug(ios);
            push_str(s, p.as_str());
            push_str(s, ", wda: WdaIds { bundle_id: ");
            let b = quoted(wda.bundle_id.as_str());
            push_str(s, b.as_str());
            push_str(s, ", testrunner_id: ");
            let t = quoted(wda.testrunner_id.as_str());
            push_str(s, t.as_str());
            push_str(s, ", xctestconfig: ");
            let x = quoted(wda.xctestconfig.as_str());
            push_str(s, x.as_str());
            push_str(s, " }, env: [");
            let ghost start = old(s)@;
            assert(s@.take(start.len() as int) =~= start);
            let mut i: usize = 0;
            while i < env.len()
                invariant
                    i <= env.len(),
                    start == old(s)@,
                    start.len() <= s@.len(),
                    s@.take(start.len() as int) == start,
                decreases env.len() - i,
            {
                let ghost before = s@;
                if i > 0 {
                    push_str(s, ", ");
                }
                push_pair(s, env[i].0.as_str(), env[i].1.as_str());
                assert(s@.take(start.len() as int) =~= before.take(start.len() as int));
                i = i + 1;
            }
            let ghost before = s@;
            push_str(s, "] }");
            assert(s@.take(start.len() as int) =~= before.take(start.len() as int));
        },
    }
}

/// The printed options: as the derived form would print them, but with the
/// UDID shown only as its short name.
pub open spec fn options_text_head(udid: Seq<char>) -> Seq<char> {
    "IosLaunchOptions { udid: "@ + debug_quoted(short_name_spec(udid)) + ", mode: "@
}

impl IosLaunchOptions {
    /// Options with the default tunnel info port and budgets.
    pub fn new(udid: String, mode: LaunchMode) -> (r: Self)
        ensures
            r.udid@ == udid@,
            r.mode == mode,
            r.tunnel_info_port == DEFAULT_TUNNEL_INFO_PORT,
    {
        IosLaunchOptions {
            udid,
            mode,
            tunnel_info_port: DEFAULT_TUNNEL_INFO_PORT,
            tunnel_ready_budget: core::time::Duration::from_secs(TUNNEL_READY_BUDGET_SECS),
            status_budget: core::time::Duration::from_secs(DEFAULT_STATUS_BUDGET_SECS),
        }
    }

    /// The UDID as it may be shown: its short name.
    pub fn udid_redacted(&self) -> (r: String)
        ensures
            r@ == short_name_spec(self.udid@),
    {
        short_ios_name(self.udid.as_str())
    }

    /// The options as a debug listing. The UDID appears only as its short
    /// name, so a log line or panic message never carries the full device
    /// identifier.
    pub fn debug_text(&self) -> (r: String)
        ensures
            r@.take(options_text_head(self.udid@).len() as int) == options_text_head(self.udid@),
            self.mode matches LaunchMode::Attach { http_port, mjpeg_port } ==> r@.subrange(
                options_text_head(self.udid@).len() as int,
                (options_text_head(self.udid@).len() + attach_text(http_port, mjpeg_port).len()) as int,
            ) == attach_text(http_port, mjpeg_port),
    {
        let mut s = String::new();
        push_str(&mut s, "IosLaunchOptions { udid: ");
        let short = self.udid_redacted();
        let q = quoted(short.as_str());
        push_str(&mut s, q.as_str());
        push_str(&mut s, ", mode: ");
        let ghost head = s@;
        assert(head =~= options_text_head(self.udid@)) by {
            reveal_strlit("");
        }
        push_mode(&mut s, &self.mode);
        let ghost with_mode = s@;
        push_str(&mut s, ", tunnel_info_port: ");
        push_decimal(&mut s, self.tunnel_info_port as u64);
        push_str(&mut s, ", tunnel_ready_budget: ");
        let a = duration_debug(&self.tunnel_ready_budget);
        push_str(&mut s, a.as_str());
        push_str(&mut s, ", status_budget: ");
        let b = duration_debug(&self.status_budget);
        push_str(&mut s, b.as_str());
        push_str(&mut s, " }");
        assert(s@.take(with_mode.len() as int) =~= with_mode);
        assert(s@.take(head.len() as int) =~= head);
        proof {
            match self.mode {
                LaunchMode::Attach { http_port, mjpeg_port } => {
                    assert(s@.subrange(
                        head.len() as int,
                        (head.len() + attach_text(http_port, mjpeg_port).len()) as int,
                    ) =~= attach_text(http_port, mjpeg_port));
                },
                _ => {},
            }
        }
        s
    }
}

/// The long-running children of a session.
#[derive(Debug, Clone, Copy, PartialEq, Eq, Structural)]
pub enum ChildKind {
    Tunnel,
    RunWda,
    ForwardHttp,
    ForwardMjpeg,
}

pub open spec fn label_spec(k: ChildKind) -> Seq<char> {
    match k {
        ChildKind::Tunnel => "tunnel"@,
        ChildKind::RunWda => "runwda"@,
        ChildKind::ForwardHttp => "forward(8100)"@,
        ChildKind::ForwardMjpeg => "forward(9100)"@,
    }
}

impl ChildKind {
    pub fn label(self) -> (r: &'static str)
        ensures
            r@ == label_spec(self),
    {
        match self {
            ChildKind::Tunnel => "tunnel",
            ChildKind::RunWda => "runwda",
            ChildKind::ForwardHttp => "forward(8100)",
            ChildKind::ForwardMjpeg => "forward(9100)",
        }
    }
}

/// Why a session ended. An enum, not text: a child's stderr holds the UDID
/// and bundle ids and never enters any state that is shown or serialised.
#[derive(Debug, Clone, PartialEq, Eq, Structural)]
pub enum ExitReason {
    Requested,
    ChildExited { which: ChildKind, code: i32 },
    UpstreamClosed,
}

/// A snapshot of a supervised iPhone session.
#[derive(Debug, Clone, PartialEq, Eq)]
pub enum IosSessionStatus {
    Starting,
    /// Only the proxy port is exposed.
    Running { proxy_port: u16 },
    Stopping,
    Exited { reason: ExitReason },
    /// Only a stable error code, never text that could identify the device.
    Failed { code: &'static str },
}

pub open spec fn any_contained(s: Seq<char>, needles: Seq<Seq<char>>) -> bool {
    exists|i: int| 0 <= i < needles.len() && contains(s, #[trigger] needles[i])
}

pub open spec fn signature_keywords() -> Seq<Seq<char>> {
    seq![
        "signature"@,
        "certificate"@,
        "provisioning"@,
        "expired"@,
        "codesign"@,
        "ineligible"@,
    ]
}

pub open spec fn not_installed_keywords() -> Seq<Seq<char>> {
    seq![
        "not installed"@,
        "notinstalled"@,
        "could not find"@,
        "no such bundle"@,
        "application not found"@,
    ]
}

/// The stable error a dead child stands for; `runwda`'s is chosen by
/// keywords in its lower-cased stderr tail.
pub open spec fn classify_spec(kind: ChildKind, tail: Seq<char>) -> ErrorView {
    match kind {
        ChildKind::RunWda => if any_contained(lower_seq(tail), signature_keywords()) {
            ErrorView::WdaSignatureExpired(
                "the WebDriverAgent signature is not valid; re-sign and reinstall it"@,
            )
        } else if any_contained(lower_seq(tail), not_installed_keywords()) {
            ErrorView::WdaNotInstalled("WebDriverAgent is not installed on the device"@)
        } else {
            ErrorView::WdaUnreachable("`ios runwda` exited before WDA became ready"@)
        },
        ChildKind::Tunnel => ErrorView::TunnelFailed("`ios tunnel start` exited"@),
        _ => ErrorView::ForwardFailed("`ios "@ + label_spec(kind) + "` exited"@),
    }
}

fn contains_any(v: &[char], needles: &Vec<&str>, ghost_needles: Ghost<Seq<Seq<char>>>) -> (r: bool)
    requires
        ghost_needles@.len() == needles@.len(),
        forall|i: int| 0 <= i < needles@.len() ==> #[trigger] ghost_needles@[i] == needles@[i]@,
    ensures
        r == any_contained(v@, ghost_needles@),
{
    let ghost g = ghost_needles@;
    let mut i: usize = 0;
    while i < needles.len()
        invariant
            i <= needles.len(),
            g == ghost_needles@,
            g.len() == needles@.len(),
            forall|j: int| 0 <= j < needles@.len() ==> #[trigger] g[j] == needles@[j]@,
            forall|j: int| 0 <= j < i ==> !contains(v@, #[trigger] g[j]),
        decreases needles.len() - i,
    {
        if contains_str(v, needles[i]) {
            assert(contains(v@, g[i as int]));
            return true;
        }
        i = i + 1;
    }
    false
}

/// The stable error for a child that exited; for `runwda` its stderr tail
/// tells a signature problem, a missing WebDriverAgent, or neither.
pub fn classify_child_failure(kind: ChildKind, stderr_tail: &str) -> (r: Error)
    ensures
        r@ == classify_spec(kind, stderr_tail@),
{
    let cs = chars_of(stderr_tail);
    let lower = to_lower(cs.as_slice());
    match kind {
        ChildKind::RunWda => {
            let sig: Vec<&str> = vec![
                "signature",
                "certificate",
                "provisioning",
                "expired",
                "codesign",
                "ineligible",
            ];
            let missing: Vec<&str> = vec![
                "not installed",
                "notinstalled",
                "could not find",
                "no such bundle",
                "application not found",
            ];
            if contains_any(lower.as_slice(), &sig, Ghost(signature_keywords())) {
                Error::WdaSignatureExpired(
                    "the WebDriverAgent signature is not valid; re-sign and reinstall it".to_owned(),
                )
            } else if contains_any(lower.as_slice(), &missing, Ghost(not_installed_keywords())) {
                Error::WdaNotInstalled("WebDriverAgent is not installed on the device".to_owned())
            } else {
                Error::WdaUnreachable("`ios runwda` exited before WDA became ready".to_owned())
            }
        },
        ChildKind::Tunnel => Error::TunnelFailed("`ios tunnel start` exited".to_owned()),
        _ => {
            let mut m = String::new();
            push_str(&mut m, "`ios ");
            push_str(&mut m, kind.label());
            push_str(&mut m, "` exited");
            Error::ForwardFailed(m)
        },
    }
}

/// Whether the tunnel info service lists a tunnel for this device.
pub fn tunnel_registered(udids: &[String], udid: &str) -> (r: bool)
    ensures
        r == string_views(udids@).contains(udid@),
{
    let want = chars_of(udid);
    let ghost uv = string_views(udids@);
    let mut i: usize = 0;
    while i < udids.len()
        invariant
            i <= udids.len(),
            want@ == udid@,
            uv == string_views(udids@),
            forall|j: int| 0 <= j < i ==> uv[j] != udid@,
        decreases udids.len() - i,
    {
        assert(uv[i as int] == udids@[i as int]@);
        let have = chars_of(udids[i].as_str());
        if crate::text::seq_eq(have.as_slice(), want.as_slice()) {
            return true;
        }
        i = i + 1;
    }
    false
}

// ---------------------------------------------------------------------------
// go-ios command lines
// ---------------------------------------------------------------------------

fn joined(head: &str, tail: &str) -> (r: String)
    ensures
        r@ == head@ + tail@,
{
    let mut s = String::new();
    push_str(&mut s, head);
    push_str(&mut s, tail);
    assert(s@ =~= head@ + tail@) by {
        reveal_strlit("");
    }
    s
}

fn number_text(head: &str, n: u16) -> (r: String)
    ensures
        r@ == head@ + dec(n as nat),
{
    let mut s = String::new();
    push_str(&mut s, head);
    push_decimal(&mut s, n as u64);
    assert(s@ =~= head@ + dec(n as nat)) by {
        reveal_strlit("");
    }
    s
}

pub open spec fn udid_flag(udid: Seq<char>) -> Seq<char> {
    "--udid="@ + udid
}

pub open spec fn info_port_flag(port: u16) -> Seq<char> {
    "--tunnel-info-port="@ + dec(port as nat)
}

/// `ios tunnel start` for one device, in userspace, registering with the
/// tunnel info service on `tunnel_info_port`.
pub fn tunnel_args(udid: &str, tunnel_info_port: u16) -> (r: Vec<String>)
    ensures
        string_views(r@) == seq![
            "tunnel"@,
            "start"@,
            "--userspace"@,
            udid_flag(udid@),
            info_port_flag(tunnel_info_port),
        ],
{
    let r = vec![
        "tunnel".to_owned(),
        "start".to_owned(),
        "--userspace".to_owned(),
        joined("--udid=", udid),
        number_text("--tunnel-info-port=", tunnel_info_port),
    ];
    assert(string_views(r@) =~= seq![
        "tunnel"@,
        "start"@,
        "--userspace"@,
        udid_flag(udid@),
        info_port_flag(tunnel_info_port),
    ]);
    r
}

/// `ios runwda` for one device with the three WebDriverAgent identifiers.
pub fn runwda_args(udid: &str, tunnel_info_port: u16, wda: &WdaIds) -> (r: Vec<String>)
    ensures
        string_views(r@) == seq![
            "runwda"@,
            udid_flag(udid@),
            info_port_flag(tunnel_info_port),
            "--bundleid="@ + wda.bundle_id@,
            "--testrunnerbundleid="@ + wda.testrunner_id@,
            "--xctestconfig="@ + wda.xctestconfig@,
        ],
{
    let r = vec![
        "runwda".to_owned(),
        joined("--udid=", udid),
        number_text("--tunnel-info-port=", tunnel_info_port),
        joined("--bundleid=", wda.bundle_id.as_str()),
        joined("--testrunnerbundleid=", wda.testrunner_id.as_str()),
        joined("--xctestconfig=", wda.xctestconfig.as_str()),
    ];
    assert(string_views(r@) =~= seq![
        "runwda"@,
        udid_flag(udid@),
        info_port_flag(tunnel_info_port),
        "--bundleid="@ + wda.bundle_id@,
        "--testrunnerbundleid="@ + wda.testrunner_id@,
        "--xctestconfig="@ + wda.xctestconfig@,
    ]);
    r
}

/// `ios forward` of the device's `remote` port to the local `local` port.
pub fn forward_args(udid: &str, tunnel_info_port: u16, local: u16, remote: u16) -> (r: Vec<String>)
    ensures
        string_views(r@) == seq![
            "forward"@,
            udid_flag(udid@),
            info_port_flag(tunnel_info_port),
            dec(local as nat),
            dec(remote as nat),
        ],
{
    let r = vec![
        "forward".to_owned(),
        joined("--udid=", udid),
        number_text("--tunnel-info-port=", tunnel_info_port),
        number_text("", local),
        number_text("", remote),
    ];
    proof {
        reveal_strlit("");
    }
    assert(string_views(r@) =~= seq![
        "forward"@,
        udid_flag(udid@),
        info_port_flag(tunnel_info_port),
        dec(local as nat),
        dec(remote as nat),
    ]);
    r
}

// ---------------------------------------------------------------------------
// Supervision decisions
// ---------------------------------------------------------------------------

/// What a wait for readiness (the tunnel's registration, WDA's `/status`)
/// does after one look.
pub enum WaitStep {
    /// A stop was requested: the session ends as requested.
    StopRequested,
    /// A child died: the session fails with this error.
    ChildFailed(Error),
    Ready,
    /// The wait's budget ran out.
    TimedOut,
    KeepWaiting,
}

/// One look of a readiness wait: a stop request comes first, then a child
/// that died, then readiness, then the deadline.
pub fn wait_step(stop_requested: bool, child_failure: Option<Error>, ready: bool, deadline_passed: bool) -> (r:
    WaitStep)
    ensures
        stop_requested ==> r is StopRequested,
        !stop_requested ==> match child_failure {
            Some(f) => r matches WaitStep::ChildFailed(e) && e@ == f@,
            None => if ready {
                r is Ready
            } else if deadline_passed {
                r is TimedOut
            } else {
                r is KeepWaiting
            },
        },
{
    if stop_requested {
        return WaitStep::StopRequested;
    }
    match child_failure {
        Some(f) => WaitStep::ChildFailed(f),
        None => if ready {
            WaitStep::Ready
        } else if deadline_passed {
            WaitStep::TimedOut
        } else {
            WaitStep::KeepWaiting
        },
    }
}

pub open spec fn tunnel_timeout_message(secs: nat) -> Seq<char> {
    "device tunnel did not register within "@ + dec(secs) + " s"@
}

/// The failure when the device tunnel did not register within its budget.
pub fn tunnel_timeout_error(budget_secs: u64) -> (r: Error)
    ensures
        r@ == ErrorView::TunnelFailed(tunnel_timeout_message(budget_secs as nat)),
{
    let mut m = String::new();
    push_str(&mut m, "device tunnel did not register within ");
    push_decimal(&mut m, budget_secs);
    push_str(&mut m, " s");
    assert(m@ =~= tunnel_timeout_message(budget_secs as nat)) by {
        reveal_strlit("");
    }
    Error::TunnelFailed(m)
}

pub open spec fn status_timeout_message(secs: nat) -> Seq<char> {
    "WDA did not answer /status within "@ + dec(secs) + " s"@
}

/// The failure when WDA did not answer `/status` within its budget.
pub fn status_timeout_error(budget_secs: u64) -> (r: Error)
    ensures
        r@ == ErrorView::WdaUnreachable(status_timeout_message(budget_secs as nat)),
{
    let mut m = String::new();
    push_str(&mut m, "WDA did not answer /status within ");
    push_decimal(&mut m, budget_secs);
    push_str(&mut m, " s");
    assert(m@ =~= status_timeout_message(budget_secs as nat)) by {
        reveal_strlit("");
    }
    Error::WdaUnreachable(m)
}

/// One look at a running session: a stop request ends it as requested; then
/// a proxy failure fails it; then the proxy's end (the upstream closed) ends
/// it; then the first child found exited ends it with that child's exit
/// code. `None` while all is well.
pub fn watch_step(
    stop_requested: bool,
    proxy_failure: Option<String>,
    proxy_alive: bool,
    exited: Option<(ChildKind, i32)>,
) -> (r: Option<Result<ExitReason, Error>>)
    ensures
        stop_requested ==> r == Some(Ok::<ExitReason, Error>(ExitReason::Requested)),
        !stop_requested ==> match proxy_failure {
            Some(m) => r matches Some(Err(e)) && e@ == ErrorView::ProxyFailed(m@),
            None => if !proxy_alive {
                r == Some(Ok::<ExitReason, Error>(ExitReason::UpstreamClosed))
            } else {
                match exited {
                    Some((k, c)) => r == Some(
                        Ok::<ExitReason, Error>(ExitReason::ChildExited { which: k, code: c }),
                    ),
                    None => r is None,
                }
            },
        },
{
    if stop_requested {
        return Some(Ok(ExitReason::Requested));
    }
    match proxy_failure {
        Some(m) => Some(Err(Error::ProxyFailed(m))),
        None => if !proxy_alive {
            Some(Ok(ExitReason::UpstreamClosed))
        } else {
            match exited {
                Some((k, c)) => Some(Ok(ExitReason::ChildExited { which: k, code: c })),
                None => None,
            }
        },
    }
}

/// How many free ports a forward tries before giving up.
pub const FORWARD_PORT_ATTEMPTS: usize = 5;

/// A forward that exited at once lost the race for its port when its stderr
/// says the address is in use.
pub open spec fn port_race_lost(tail: Seq<char>) -> bool {
    contains(lower_seq(tail), "address already in use"@)
}

/// A forward that exited during its settle time: `None` when it lost the
/// race for its port (another port is tried), else its classified failure.
pub fn forward_exit(kind: ChildKind, stderr_tail: &str) -> (r: Option<Error>)
    ensures
        port_race_lost(stderr_tail@) ==> r is None,
        !port_race_lost(stderr_tail@) ==> (r matches Some(e) && e@ == classify_spec(
            kind,
            stderr_tail@,
        )),
{
    let lower = to_lower(chars_of(stderr_tail).as_slice());
    if contains_str(lower.as_slice(), "address already in use") {
        None
    } else {
        Some(classify_child_failure(kind, stderr_tail))
    }
}

pub open spec fn forward_exhausted_message(kind: ChildKind, attempts: nat, last: Seq<char>) -> Seq<char> {
    "`ios "@ + label_spec(kind) + "` could not bind a local port after "@ + dec(attempts)
        + " attempts: "@ + last
}

/// The failure when every attempt of a forward lost the race for its port;
/// `last` is the last attempt's stderr tail.
pub fn forward_attempts_exhausted(kind: ChildKind, last: &str) -> (r: Error)
    ensures
        r@ == ErrorView::ForwardFailed(
            forward_exhausted_message(kind, FORWARD_PORT_ATTEMPTS as nat, last@),
        ),
{
    let mut m = String::new();
    push_str(&mut m, "`ios ");
    push_str(&mut m, kind.label());
    push_str(&mut m, "` could not bind a local port after ");
    push_decimal(&mut m, FORWARD_PORT_ATTEMPTS as u64);
    push_str(&mut m, " attempts: ");
    push_str(&mut m, last);
    assert(m@ =~= forward_exhausted_message(kind, FORWARD_PORT_ATTEMPTS as nat, last@));
    Error::ForwardFailed(m)
}

/// Which sessions did not finish stopping in time.
#[derive(Debug, PartialEq, Eq)]
pub struct ShutdownReport {
    pub timed_out: Vec<u64>,
}

} // verus!
