//! The iPhone side (go-ios and WebDriverAgent): stable error codes, the go-ios
//! version clamp, and what `ios list` reports.

use vstd::prelude::*;
use crate::adb_probe::{dec, dec_signed, push_decimal, push_signed};
use crate::host::{io_error_text, path_text};
use crate::text::{
    after_char, before_char, chars_of, contains, eq_str, is_ws, lines, lines_of, lossy_text,
    lower_seq, parse_uint, parse_uint_exec, push_all, push_str, slice_of, split_once_char,
    starts_with, starts_with_str, string_from, trim, trim_exec, trim_str, utf8_lossy, views,
};
use crate::adb_probe::{trim_end_char, trim_end_char_exec};

verus! {

/// The only go-ios version this was tested with; older ones are refused.
pub const MIN_GO_IOS: (u64, u64, u64) = (1, 2, 1);

/// The default port of go-ios's tunnel info service.
pub const DEFAULT_TUNNEL_INFO_PORT: u16 = 28100;

// ---------------------------------------------------------------------------
// Errors
// ---------------------------------------------------------------------------

/// Every iPhone-side failure, each with a stable code for the interface.
#[derive(Debug)]
pub enum Error {
    IosNotFound(std::path::PathBuf),
    IosVersion(String),
    UsbmuxdUnavailable(String),
    TunnelPortBusy(u16),
    TunnelFailed(String),
    WdaNotInstalled(String),
    WdaSignatureExpired(String),
    WdaUnreachable(String),
    WdaSessionFailed(String),
    ForwardFailed(String),
    ProxyFailed(String),
    DeviceLocked,
    TextUnconfirmed,
    NoActiveElement,
    ScreenshotFailed(String),
    AlreadyRunning,
    WindowsSessionUnsupported,
    Process(std::io::Error),
}

/// An iPhone-side failure as a value; paths and OS errors are left out.
pub enum ErrorView {
    IosNotFound,
    IosVersion(Seq<char>),
    UsbmuxdUnavailable(Seq<char>),
    TunnelPortBusy(u16),
    TunnelFailed(Seq<char>),
    WdaNotInstalled(Seq<char>),
    WdaSignatureExpired(Seq<char>),
    WdaUnreachable(Seq<char>),
    WdaSessionFailed(Seq<char>),
    ForwardFailed(Seq<char>),
    ProxyFailed(Seq<char>),
    DeviceLocked,
    TextUnconfirmed,
    NoActiveElement,
    ScreenshotFailed(Seq<char>),
    AlreadyRunning,
    WindowsSessionUnsupported,
    Process,
}

impl View for Error {
    type V = ErrorView;

    open spec fn view(&self) -> ErrorView {
        match self {
            Error::IosNotFound(_) => ErrorView::IosNotFound,
            Error::IosVersion(s) => ErrorView::IosVersion(s@),
            Error::UsbmuxdUnavailable(s) => ErrorView::UsbmuxdUnavailable(s@),
            Error::TunnelPortBusy(p) => ErrorView::TunnelPortBusy(*p),
            Error::TunnelFailed(s) => ErrorView::TunnelFailed(s@),
            Error::WdaNotInstalled(s) => ErrorView::WdaNotInstalled(s@),
            Error::WdaSignatureExpired(s) => ErrorView::WdaSignatureExpired(s@),
            Error::WdaUnreachable(s) => ErrorView::WdaUnreachable(s@),
            Error::WdaSessionFailed(s) => ErrorView::WdaSessionFailed(s@),
            Error::ForwardFailed(s) => ErrorView::ForwardFailed(s@),
            Error::ProxyFailed(s) => ErrorView::ProxyFailed(s@),
            Error::DeviceLocked => ErrorView::DeviceLocked,
            Error::TextUnconfirmed => ErrorView::TextUnconfirmed,
            Error::NoActiveElement => ErrorView::NoActiveElement,
            Error::ScreenshotFailed(s) => ErrorView::ScreenshotFailed(s@),
            Error::AlreadyRunning => ErrorView::AlreadyRunning,
            Error::WindowsSessionUnsupported => ErrorView::WindowsSessionUnsupported,
            Error::Process(_) => ErrorView::Process,
        }
    }
}

/// The stable code of each error; the interface reads only these.
pub open spec fn code_spec(e: ErrorView) -> Seq<char> {
    match e {
        ErrorView::IosNotFound => "ios_not_found"@,
        ErrorView::IosVersion(_) => "ios_version"@,
        ErrorView::UsbmuxdUnavailable(_) => "usbmuxd_unavailable"@,
        ErrorView::TunnelPortBusy(_) => "tunnel_port_busy"@,
        ErrorView::TunnelFailed(_) => "tunnel_failed"@,
        ErrorView::WdaNotInstalled(_) => "wda_not_installed"@,
        ErrorView::WdaSignatureExpired(_) => "wda_signature_expired"@,
        ErrorView::WdaUnreachable(_) => "wda_unreachable"@,
        ErrorView::WdaSessionFailed(_) => "wda_session_failed"@,
        ErrorView::ForwardFailed(_) => "forward_failed"@,
        ErrorView::ProxyFailed(_) => "proxy_failed"@,
        ErrorView::DeviceLocked => "device_locked"@,
        ErrorView::TextUnconfirmed => "text_unconfirmed"@,
        ErrorView::NoActiveElement => "no_active_element"@,
        ErrorView::ScreenshotFailed(_) => "screenshot_failed"@,
        ErrorView::AlreadyRunning => "ios_session_already_running"@,
        ErrorView::WindowsSessionUnsupported => "windows_session_unsupported"@,
        ErrorView::Process => "ios_process_error"@,
    }
}

/// The position of an error's variant in the declaration, whatever it carries.
pub open spec fn variant_index(e: ErrorView) -> int {
    match e {
        ErrorView::IosNotFound => 0,
        ErrorView::IosVersion(_) => 1,
        ErrorView::UsbmuxdUnavailable(_) => 2,
        ErrorView::TunnelPortBusy(_) => 3,
        ErrorView::TunnelFailed(_) => 4,
        ErrorView::WdaNotInstalled(_) => 5,
        ErrorView::WdaSignatureExpired(_) => 6,
        ErrorView::WdaUnreachable(_) => 7,
        ErrorView::WdaSessionFailed(_) => 8,
        ErrorView::ForwardFailed(_) => 9,
        ErrorView::ProxyFailed(_) => 10,
        ErrorView::DeviceLocked => 11,
        ErrorView::TextUnconfirmed => 12,
        ErrorView::NoActiveElement => 13,
        ErrorView::ScreenshotFailed(_) => 14,
        ErrorView::AlreadyRunning => 15,
        ErrorView::WindowsSessionUnsupported => 16,
        ErrorView::Process => 17,
    }
}

/// Which code a text of this length and these first two characters is.
spec fn code_position(c: Seq<char>) -> int {
    if c.len() == 13 && c[0] == 'i' && c[1] == 'o' {
        0
    } else if c.len() == 11 && c[0] == 'i' && c[1] == 'o' {
        1
    } else if c.len() == 19 && c[0] == 'u' && c[1] == 's' {
        2
    } else if c.len() == 16 && c[0] == 't' && c[1] == 'u' {
        3
    } else if c.len() == 13 && c[0] == 't' && c[1] == 'u' {
        4
    } else if c.len() == 17 && c[0] == 'w' && c[1] == 'd' {
        5
    } else if c.len() == 21 && c[0] == 'w' && c[1] == 'd' {
        6
    } else if c.len() == 15 && c[0] == 'w' && c[1] == 'd' {
        7
    } else if c.len() == 18 && c[0] == 'w' && c[1] == 'd' {
        8
    } else if c.len() == 14 && c[0] == 'f' && c[1] == 'o' {
        9
    } else if c.len() == 12 && c[0] == 'p' && c[1] == 'r' {
        10
    } else if c.len() == 13 && c[0] == 'd' && c[1] == 'e' {
        11
    } else if c.len() == 16 && c[0] == 't' && c[1] == 'e' {
        12
    } else if c.len() == 17 && c[0] == 'n' && c[1] == 'o' {
        13
    } else if c.len() == 17 && c[0] == 's' && c[1] == 'c' {
        14
    } else if c.len() == 27 && c[0] == 'i' && c[1] == 'o' {
        15
    } else if c.len() == 27 && c[0] == 'w' && c[1] == 'i' {
        16
    } else if c.len() == 17 && c[0] == 'i' && c[1] == 'o' {
        17
    } else {
        -1
    }
}

proof fn lemma_code_position(e: ErrorView)
    ensures
        code_position(code_spec(e)) == variant_index(e),
{
    match e {
        ErrorView::IosNotFound => {
            reveal_strlit("ios_not_found");
        },
        ErrorView::IosVersion(_) => {
            reveal_strlit("ios_version");
        },
        ErrorView::UsbmuxdUnavailable(_) => {
            reveal_strlit("usbmuxd_unavailable");
        },
        ErrorView::TunnelPortBusy(_) => {
            reveal_strlit("tunnel_port_busy");
        },
        ErrorView::TunnelFailed(_) => {
            reveal_strlit("tunnel_failed");
        },
        ErrorView::WdaNotInstalled(_) => {
            reveal_strlit("wda_not_installed");
        },
        ErrorView::WdaSignatureExpired(_) => {
            reveal_strlit("wda_signature_expired");
        },
        ErrorView::WdaUnreachable(_) => {
            reveal_strlit("wda_unreachable");
        },
        ErrorView::WdaSessionFailed(_) => {
            reveal_strlit("wda_session_failed");
        },
        ErrorView::ForwardFailed(_) => {
            reveal_strlit("forward_failed");
        },
        ErrorView::ProxyFailed(_) => {
            reveal_strlit("proxy_failed");
        },
        ErrorView::DeviceLocked => {
            reveal_strlit("device_locked");
        },
        ErrorView::TextUnconfirmed => {
            reveal_strlit("text_unconfirmed");
        },
        ErrorView::NoActiveElement => {
            reveal_strlit("no_active_element");
        },
        ErrorView::ScreenshotFailed(_) => {
            reveal_strlit("screenshot_failed");
        },
        ErrorView::AlreadyRunning => {
            reveal_strlit("ios_session_already_running");
        },
        ErrorView::WindowsSessionUnsupported => {
            reveal_strlit("windows_session_unsupported");
        },
        ErrorView::Process => {
            reveal_strlit("ios_process_error");
        },
    }
}

/// Each variant has one code, whatever it carries, and no two variants share
/// a code: the code tells the variant.
pub proof fn law_codes_tell_variants_apart(a: ErrorView, b: ErrorView)
    ensures
        code_spec(a) == code_spec(b) <==> variant_index(a) == variant_index(b),
{
    lemma_code_position(a);
    lemma_code_position(b);
}

/// The message of every error that carries neither a path nor an
/// operating-system error.
pub open spec fn message_spec(e: ErrorView) -> Seq<char> {
    match e {
        ErrorView::IosVersion(s) => s,
        ErrorView::UsbmuxdUnavailable(s) => s,
        ErrorView::TunnelPortBusy(p) => "the go-ios tunnel info port "@ + dec(p as nat)
            + " is already in use; stop the other go-ios tunnel first"@,
        ErrorView::TunnelFailed(s) => s,
        ErrorView::WdaNotInstalled(s) => s,
        ErrorView::WdaSignatureExpired(s) => s,
        ErrorView::WdaUnreachable(s) => s,
        ErrorView::WdaSessionFailed(s) => s,
        ErrorView::ForwardFailed(s) => s,
        ErrorView::ProxyFailed(s) => s,
        ErrorView::ScreenshotFailed(s) => s,
        ErrorView::DeviceLocked => "the iPhone is locked; unlock it on the device"@,
        ErrorView::TextUnconfirmed => "the text could not be confirmed as delivered; check the iPhone"@,
        ErrorView::NoActiveElement => "no focused text field on the device; tap into a text field first"@,
        ErrorView::AlreadyRunning => "an iOS session is already running"@,
        ErrorView::WindowsSessionUnsupported => "iOS sessions are not supported on Windows yet"@,
        ErrorView::IosNotFound => "go-ios was not found at "@,
        ErrorView::Process => "process error: "@,
    }
}

impl Error {
    /// The stable error code. Changing one changes the interface's contract.
    pub fn code(&self) -> (r: &'static str)
        ensures
            r@ == code_spec(self@),
    {
        match self {
            Error::IosNotFound(_) => "ios_not_found",
            Error::IosVersion(_) => "ios_version",
            Error::UsbmuxdUnavailable(_) => "usbmuxd_unavailable",
            Error::TunnelPortBusy(_) => "tunnel_port_busy",
            Error::TunnelFailed(_) => "tunnel_failed",
            Error::WdaNotInstalled(_) => "wda_not_installed",
            Error::WdaSignatureExpired(_) => "wda_signature_expired",
            Error::WdaUnreachable(_) => "wda_unreachable",
            Error::WdaSessionFailed(_) => "wda_session_failed",
            Error::ForwardFailed(_) => "forward_failed",
            Error::ProxyFailed(_) => "proxy_failed",
            Error::DeviceLocked => "device_locked",
            Error::TextUnconfirmed => "text_unconfirmed",
            Error::NoActiveElement => "no_active_element",
            Error::ScreenshotFailed(_) => "screenshot_failed",
            Error::AlreadyRunning => "ios_session_already_running",
            Error::WindowsSessionUnsupported => "windows_session_unsupported",
            Error::Process(_) => "ios_process_error",
        }
    }

    /// The human-readable description. A missing executable names its path
    /// between `message_spec`'s head and an install hint; an operating-system
    /// error follows its head with the error's own description.
    pub fn message(&self) -> (r: String)
        ensures
            (self@ is IosNotFound || self@ is Process) ==> starts_with(r@, message_spec(self@)),
            self@ is IosNotFound ==> crate::text::ends_with(
                r@,
                ". Install go-ios 1.2.1 or newer, then try again."@,
            ),
            self matches Error::IosNotFound(p) ==> r@ == message_spec(self@) + crate::host::path_display(*p)
                + ". Install go-ios 1.2.1 or newer, then try again."@,
            !(self@ is IosNotFound || self@ is Process) ==> r@ == message_spec(self@),
    {
        let mut s = String::new();
        match self {
            Error::IosNotFound(path) => {
                push_str(&mut s, "go-ios was not found at ");
                let ghost head = s@;
                let p = path_text(path);
                push_str(&mut s, p.as_str());
                push_str(&mut s, ". Install go-ios 1.2.1 or newer, then try again.");
                assert(s@.take(head.len() as int) =~= head);
                assert(s@.skip(s@.len() - ". Install go-ios 1.2.1 or newer, then try again."@.len())
                    =~= ". Install go-ios 1.2.1 or newer, then try again."@);
            },
            Error::IosVersion(t) | Error::UsbmuxdUnavailable(t) | Error::TunnelFailed(t)
            | Error::WdaNotInstalled(t) | Error::WdaSignatureExpired(t) | Error::WdaUnreachable(t)
            | Error::WdaSessionFailed(t) | Error::ForwardFailed(t) | Error::ProxyFailed(t)
            | Error::ScreenshotFailed(t) => push_str(&mut s, t.as_str()),
            Error::TunnelPortBusy(port) => {
                push_str(&mut s, "the go-ios tunnel info port ");
                push_decimal(&mut s, *port as u64);
                push_str(&mut s, " is already in use; stop the other go-ios tunnel first");
            },
            Error::DeviceLocked => push_str(&mut s, "the iPhone is locked; unlock it on the device"),
            Error::TextUnconfirmed => push_str(
                &mut s,
                "the text could not be confirmed as delivered; check the iPhone",
            ),
            Error::NoActiveElement => push_str(
                &mut s,
                "no focused text field on the device; tap into a text field first",
            ),
            Error::AlreadyRunning => push_str(&mut s, "an iOS session is already running"),
            Error::WindowsSessionUnsupported => push_str(
                &mut s,
                "iOS sessions are not supported on Windows yet",
            ),
            Error::Process(e) => {
                push_str(&mut s, "process error: ");
                let ghost head = s@;
                let t = io_error_text(e);
                push_str(&mut s, t.as_str());
                assert(s@.take(head.len() as int) =~= head);
            },
        }
        assert(""@ =~= Seq::<char>::empty()) by {
            reveal_strlit("");
        }
        s
    }
}

// ---------------------------------------------------------------------------
// The go-ios version
// ---------------------------------------------------------------------------

/// A clamped go-ios version.
#[derive(Debug, Clone, PartialEq, Eq)]
pub struct Version {
    pub major: u64,
    pub minor: u64,
    pub patch: u64,
    /// Newer than the only tested version: allowed, with a warning.
    pub newer_than_verified: bool,
}

impl Version {
    /// `major.minor.patch`.
    pub fn text(&self) -> (r: String)
        ensures
            r@ == dec(self.major as nat) + "."@ + dec(self.minor as nat) + "."@ + dec(
                self.patch as nat,
            ),
    {
        let mut s = String::new();
        push_decimal(&mut s, self.major);
        push_str(&mut s, ".");
        push_decimal(&mut s, self.minor);
        push_str(&mut s, ".");
        push_decimal(&mut s, self.patch);
        assert(s@ =~= dec(self.major as nat) + "."@ + dec(self.minor as nat) + "."@ + dec(
            self.patch as nat,
        )) by {
            reveal_strlit("");
        }
        s
    }
}

/// What `serde_json` makes of a text: the string field `version` of the
/// JSON value it holds (absent when missing or not a string), or the parse
/// error's text.
pub uninterp spec fn json_version(text: Seq<char>) -> Result<Option<Seq<char>>, Seq<char>>;

/// Trusted: `serde_json::from_str` into a `Value`, then `Value::get("version")`
/// and `Value::as_str`. The result is named `json_version` of the text.
#[verifier::external_body]
fn json_version_field(text: &str) -> (r: Result<Option<String>, String>)
    ensures
        match r {
            Ok(Some(v)) => json_version(text@) == Ok::<Option<Seq<char>>, Seq<char>>(Some(v@)),
            Ok(None) => json_version(text@) == Ok::<Option<Seq<char>>, Seq<char>>(None),
            Err(e) => json_version(text@) == Err::<Option<Seq<char>>, Seq<char>>(e@),
        },
{
    match serde_json::from_str::<serde_json::Value>(text) {
        Ok(value) => Ok(value.get("version").and_then(serde_json::Value::as_str).map(|s| s.to_owned())),
        Err(error) => Err(error.to_string()),
    }
}

/// `s` without its leading `c`s.
pub open spec fn strip_leading(s: Seq<char>, c: char) -> Seq<char>
    decreases s.len(),
{
    if s.len() > 0 && s[0] == c {
        strip_leading(s.drop_first(), c)
    } else {
        s
    }
}

fn strip_leading_exec(v: &[char], c: char) -> (r: Vec<char>)
    ensures
        r@ == strip_leading(v@, c),
{
    let mut i: usize = 0;
    assert(v@.skip(0) =~= v@);
    while i < v.len() && v[i] == c
        invariant
            i <= v.len(),
            strip_leading(v@, c) == strip_leading(v@.skip(i as int), c),
        decreases v.len() - i,
    {
        assert(v@.skip(i as int).drop_first() =~= v@.skip(i + 1));
        i = i + 1;
    }
    let r = slice_of(v, i, v.len());
    assert(r@ =~= v@.skip(i as int));
    r
}

pub open spec fn ver_lt(a: (u64, u64, u64), b: (u64, u64, u64)) -> bool {
    a.0 < b.0 || (a.0 == b.0 && (a.1 < b.1 || (a.1 == b.1 && a.2 < b.2)))
}

fn ver_less(a: (u64, u64, u64), b: (u64, u64, u64)) -> (r: bool)
    ensures
        r == ver_lt(a, b),
{
    a.0 < b.0 || (a.0 == b.0 && (a.1 < b.1 || (a.1 == b.1 && a.2 < b.2)))
}

/// The version a raw `version` value states, clamped to the tested minimum.
pub open spec fn clamp_spec(raw: Seq<char>) -> Result<(u64, u64, u64, bool), ErrorView> {
    let token = strip_leading(trim(raw), 'v');
    if token.contains('-') {
        Err(
            ErrorView::IosVersion(
                "go-ios prerelease "@ + raw
                    + " is not supported; install stable go-ios 1.2.1 or newer"@,
            ),
        )
    } else {
        match parse_uint(before_char(token, '.'), u64::MAX as nat) {
            None => Err(ErrorView::IosVersion("go-ios version "@ + raw + " has no major"@)),
            Some(major) => match after_char(token, '.') {
                None => Err(ErrorView::IosVersion("go-ios version "@ + raw + " has no minor"@)),
                Some(r1) => match parse_uint(before_char(r1, '.'), u64::MAX as nat) {
                    None => Err(ErrorView::IosVersion("go-ios version "@ + raw + " has no minor"@)),
                    Some(minor) => {
                        let patch: nat = match after_char(r1, '.') {
                            None => 0,
                            Some(r2) => match parse_uint(before_char(r2, '.'), u64::MAX as nat) {
                                Some(p) => p,
                                None => 0,
                            },
                        };
                        let found = (major as u64, minor as u64, patch as u64);
                        if ver_lt(found, MIN_GO_IOS) {
                            Err(
                                ErrorView::IosVersion(
                                    "go-ios "@ + raw + " is too old; install go-ios 1.2.1 or newer"@,
                                ),
                            )
                        } else {
                            Ok((found.0, found.1, found.2, ver_lt(MIN_GO_IOS, found)))
                        }
                    },
                },
            },
        }
    }
}

/// What `ios version` output says: the JSON `version` field, clamped.
pub open spec fn parse_version_spec(stdout: Seq<char>) -> Result<(u64, u64, u64, bool), ErrorView> {
    match json_version(trim(stdout)) {
        Err(e) => Err(ErrorView::IosVersion("could not parse `ios version` output: "@ + e)),
        Ok(None) => Err(ErrorView::IosVersion("`ios version` output has no version field"@)),
        Ok(Some(raw)) => clamp_spec(raw),
    }
}

fn version_error(prefix: &str, raw: &[char], suffix: &str) -> (r: Error)
    ensures
        r@ == ErrorView::IosVersion(prefix@ + raw@ + suffix@),
{
    let mut m = String::new();
    push_str(&mut m, prefix);
    push_all(&mut m, raw);
    push_str(&mut m, suffix);
    assert(m@ =~= prefix@ + raw@ + suffix@);
    Error::IosVersion(m)
}

fn clamp_version(raw: &[char]) -> (r: Result<Version, Error>)
    ensures
        match clamp_spec(raw@) {
            Ok((a, b, c, n)) => r matches Ok(v) && v.major == a && v.minor == b && v.patch == c
                && v.newer_than_verified == n,
            Err(e) => r matches Err(x) && x@ == e,
        },
{
    let t = trim_exec(raw);
    let token = strip_leading_exec(t.as_slice(), 'v');
    match crate::text::find_char(token.as_slice(), '-') {
        Some(k) => {
            assert(token@[k as int] == '-');
            return Err(
                version_error(
                    "go-ios prerelease ",
                    raw,
                    " is not supported; install stable go-ios 1.2.1 or newer",
                ),
            );
        },
        None => {},
    }
    let (p1, r1) = split_once_char(token.as_slice(), '.');
    let major = match parse_uint_exec(p1.as_slice(), u64::MAX) {
        Some(n) => n,
        None => {
            return Err(version_error("go-ios version ", raw, " has no major"));
        },
    };
    let r1 = match r1 {
        Some(x) => x,
        None => {
            return Err(version_error("go-ios version ", raw, " has no minor"));
        },
    };
    let (p2, r2) = split_once_char(r1.as_slice(), '.');
    let minor = match parse_uint_exec(p2.as_slice(), u64::MAX) {
        Some(n) => n,
        None => {
            return Err(version_error("go-ios version ", raw, " has no minor"));
        },
    };
    let patch: u64 = match r2 {
        None => 0,
        Some(r2) => {
            let (p3, _) = split_once_char(r2.as_slice(), '.');
            match parse_uint_exec(p3.as_slice(), u64::MAX) {
                Some(n) => n,
                None => 0,
            }
        },
    };
    let found = (major, minor, patch);
    if ver_less(found, MIN_GO_IOS) {
        return Err(version_error("go-ios ", raw, " is too old; install go-ios 1.2.1 or newer"));
    }
    Ok(Version { major, minor, patch, newer_than_verified: ver_less(MIN_GO_IOS, found) })
}

/// Parses `{"version":"1.2.1"}` (a leading `v` is accepted) and clamps it:
/// older than 1.2.1 or a prerelease is refused; newer is allowed and flagged.
pub fn parse_version(stdout: &str) -> (r: Result<Version, Error>)
    ensures
        match parse_version_spec(stdout@) {
            Ok((a, b, c, n)) => r matches Ok(v) && v.major == a && v.minor == b && v.patch == c
                && v.newer_than_verified == n,
            Err(e) => r matches Err(x) && x@ == e,
        },
{
    let t = trim_str(stdout);
    let text = string_from(t.as_slice());
    match json_version_field(text.as_str()) {
        Err(e) => {
            let mut m = String::new();
            push_str(&mut m, "could not parse `ios version` output: ");
            push_str(&mut m, e.as_str());
            Err(Error::IosVersion(m))
        },
        Ok(None) => Err(Error::IosVersion("`ios version` output has no version field".to_owned())),
        Ok(Some(raw)) => {
            let rv = chars_of(raw.as_str());
            clamp_version(rv.as_slice())
        },
    }
}

/// What `ios version` reported: a failed run by its exit status (-1 when it
/// has none), otherwise its stdout parsed.
pub fn check_version(success: bool, exit_code: Option<i32>, stdout: &[u8]) -> (r: Result<
    Version,
    Error,
>)
    ensures
        !success ==> (r matches Err(x) && x@ == ErrorView::IosVersion(
            "`ios version` exited with "@ + dec_signed(
                match exit_code {
                    Some(c) => c as int,
                    None => -1,
                },
            ),
        )),
        success ==> match parse_version_spec(utf8_lossy(stdout@)) {
            Ok((a, b, c, n)) => r matches Ok(v) && v.major == a && v.minor == b && v.patch == c
                && v.newer_than_verified == n,
            Err(e) => r matches Err(x) && x@ == e,
        },
{
    if !success {
        let code: i32 = match exit_code {
            Some(c) => c,
            None => -1,
        };
        let mut m = String::new();
        push_str(&mut m, "`ios version` exited with ");
        push_signed(&mut m, code);
        return Err(Error::IosVersion(m));
    }
    let text = lossy_text(stdout);
    parse_version(text.as_str())
}

/// Whether `ios list`'s stderr says that usbmuxd cannot be reached.
pub open spec fn usbmuxd_failure_spec(stderr: Seq<char>) -> bool {
    let lower = lower_seq(stderr);
    contains(lower, "usbmuxd"@) || contains(lower, "connection refused"@) || contains(
        lower,
        "no such file or directory"@,
    )
}

/// Whether `ios list`'s stderr says usbmuxd cannot be reached.
pub fn looks_like_usbmuxd_failure(stderr: &str) -> (r: bool)
    ensures
        r == usbmuxd_failure_spec(stderr@),
{
    let cs = chars_of(stderr);
    let lower = crate::text::to_lower(cs.as_slice());
    crate::text::contains_str(lower.as_slice(), "usbmuxd") || crate::text::contains_str(
        lower.as_slice(),
        "connection refused",
    ) || crate::text::contains_str(lower.as_slice(), "no such file or directory")
}

/// Trusted: `std::io::Error::new` with `ErrorKind::InvalidData`. Nothing is
/// stated of the error value.
#[verifier::external_body]
fn invalid_data_error(message: String) -> std::io::Error {
    std::io::Error::new(std::io::ErrorKind::InvalidData, message)
}

/// What `ios list` reported: on failure, usbmuxd being unreachable or the exit
/// status; on success, the devices its stdout lists (a rejected listing is a
/// process error, not a usbmuxd one).
pub fn list_devices(success: bool, exit_code: Option<i32>, stdout: &[u8], stderr: &[u8]) -> (r:
    Result<Vec<IosDevice>, Error>)
    ensures
        !success && usbmuxd_failure_spec(utf8_lossy(stderr@)) ==> (r matches Err(x) && x@
            == ErrorView::UsbmuxdUnavailable(
            "usbmuxd is not reachable; make sure the usbmuxd service is running"@,
        )),
        !success && !usbmuxd_failure_spec(utf8_lossy(stderr@)) ==> (r matches Err(x) && x@
            == ErrorView::UsbmuxdUnavailable(
            "`ios list` exited with "@ + dec_signed(
                match exit_code {
                    Some(c) => c as int,
                    None => -1,
                },
            ),
        )),
        success ==> match parse_ios_devices_spec(utf8_lossy(stdout@)) {
            Ok(ds) => r matches Ok(v) && ios_device_views(v@) == ds,
            Err(_) => r matches Err(x) && x@ is Process,
        },
{
    if !success {
        let text = lossy_text(stderr);
        if looks_like_usbmuxd_failure(text.as_str()) {
            return Err(
                Error::UsbmuxdUnavailable(
                    "usbmuxd is not reachable; make sure the usbmuxd service is running".to_owned(),
                ),
            );
        }
        let code: i32 = match exit_code {
            Some(c) => c,
            None => -1,
        };
        let mut m = String::new();
        push_str(&mut m, "`ios list` exited with ");
        push_signed(&mut m, code);
        return Err(Error::UsbmuxdUnavailable(m));
    }
    let text = lossy_text(stdout);
    match parse_ios_devices(text.as_str()) {
        Ok(ds) => Ok(ds),
        Err(reason) => {
            let mut m = String::new();
            push_str(&mut m, "go-ios output rejected: ");
            push_str(&mut m, reason.as_str());
            Err(Error::Process(invalid_data_error(m)))
        },
    }
}

// ---------------------------------------------------------------------------
// The device list
// ---------------------------------------------------------------------------

/// An iPhone as the interface lists it: the full UDID, kept in memory only,
/// and a short name that shows only its tail.
#[derive(Debug, Clone, PartialEq, Eq)]
pub struct IosDevice {
    pub id: String,
    pub name: String,
}

pub struct IosDeviceView {
    pub id: Seq<char>,
    pub name: Seq<char>,
}

impl View for IosDevice {
    type V = IosDeviceView;

    open spec fn view(&self) -> IosDeviceView {
        IosDeviceView { id: self.id@, name: self.name@ }
    }
}

pub open spec fn ios_device_views(v: Seq<IosDevice>) -> Seq<IosDeviceView> {
    v.map_values(|d: IosDevice| d@)
}

pub open spec fn name_prefix() -> Seq<char> {
    "iPhone ····"@
}

/// `iPhone ····` and the last four characters of the UDID.
pub open spec fn short_name_spec(udid: Seq<char>) -> Seq<char> {
    name_prefix() + if udid.len() > 4 {
        udid.skip(udid.len() - 4)
    } else {
        udid
    }
}

/// The name shown for a device: the full UDID is long, unreadable and need
/// not be on screen.
pub fn short_ios_name(udid: &str) -> (r: String)
    ensures
        r@ == short_name_spec(udid@),
{
    let cs = chars_of(udid);
    let tail = if cs.len() > 4 {
        slice_of(cs.as_slice(), cs.len() - 4, cs.len())
    } else {
        cs
    };
    let mut s = String::new();
    push_str(&mut s, "iPhone ····");
    push_all(&mut s, tail.as_slice());
    assert(s@ =~= short_name_spec(udid@)) by {
        reveal_strlit("");
    }
    s
}

/// The pieces of `s` between the `c`s.
pub open spec fn split_char(s: Seq<char>, c: char) -> Seq<Seq<char>>
    decreases s.len(),
{
    match after_char(s, c) {
        None => seq![s],
        Some(rest) => {
            proof {
                crate::text::lemma_after_char_shorter(s, c);
            }
            seq![before_char(s, c)] + split_char(rest, c)
        },
    }
}

/// A list item with surrounding whitespace and quotes removed.
pub open spec fn list_item(p: Seq<char>) -> Seq<char> {
    trim_end_char(strip_leading(trim(p), '"'), '"')
}

/// The items of the pieces, in order, empty ones included.
pub open spec fn list_items(ps: Seq<Seq<char>>) -> Seq<Seq<char>>
    decreases ps.len(),
{
    if ps.len() == 0 {
        Seq::empty()
    } else {
        seq![list_item(ps[0])] + list_items(ps.drop_first())
    }
}

/// The elements of an array's inside: none when it holds only whitespace,
/// otherwise every comma-separated item, empty ones included, so that an
/// empty UDID is seen and rejected.
pub open spec fn array_items(inner: Seq<char>) -> Seq<Seq<char>> {
    if trim(inner).len() == 0 {
        Seq::empty()
    } else {
        list_items(split_char(inner, ','))
    }
}

/// The first position at or after `from` holding `c`.
pub open spec fn char_from(s: Seq<char>, c: char, from: int) -> Option<int> {
    match first_occurrence_of(s.skip(from), c) {
        Some(k) => Some(from + k),
        None => None,
    }
}

pub open spec fn first_occurrence_of(s: Seq<char>, c: char) -> Option<int> {
    crate::text::first_index(s, crate::text::char_is(c))
}

/// The elements of a `"deviceList": [ … ]` array, when the output has one.
pub open spec fn device_list_spec(output: Seq<char>) -> Option<Seq<Seq<char>>> {
    match crate::wireless::first_occurrence(output, "\"deviceList\""@) {
        None => None,
        Some(start) => match char_from(output, '[', start) {
            None => None,
            Some(open) => match char_from(output, ']', open) {
                None => None,
                Some(close) => Some(array_items(output.subrange(open + 1, close))),
            },
        },
    }
}

/// The UDID a plain-text line names, if the line names one.
pub open spec fn line_udid(line: Seq<char>) -> Option<Seq<char>> {
    let t = trim(line);
    if t.len() == 0 || lower_seq(t) == "list of attached devices:"@ {
        None
    } else if starts_with(t, "UDID:"@) {
        Some(trim(t.skip(5)))
    } else {
        Some(trim(t))
    }
}

pub open spec fn line_udids(ls: Seq<Seq<char>>) -> Seq<Seq<char>>
    decreases ls.len(),
{
    if ls.len() == 0 {
        Seq::empty()
    } else {
        line_udids(ls.drop_last()) + match line_udid(ls.last()) {
            Some(u) => seq![u],
            None => Seq::<Seq<char>>::empty(),
        }
    }
}

/// A UDID that can be used: not empty, no whitespace.
pub open spec fn usable_udid(u: Seq<char>) -> bool {
    u.len() > 0 && forall|i: int| 0 <= i < u.len() ==> !is_ws(#[trigger] u[i])
}

/// Whether every UDID is usable.
pub open spec fn all_usable(us: Seq<Seq<char>>) -> bool
    decreases us.len(),
{
    us.len() == 0 || (all_usable(us.drop_last()) && usable_udid(us.last()))
}

proof fn lemma_all_usable(us: Seq<Seq<char>>)
    ensures
        all_usable(us) <==> forall|i: int| 0 <= i < us.len() ==> usable_udid(#[trigger] us[i]),
    decreases us.len(),
{
    if us.len() > 0 {
        lemma_all_usable(us.drop_last());
        if forall|i: int| 0 <= i < us.len() ==> usable_udid(#[trigger] us[i]) {
            assert forall|i: int| 0 <= i < us.drop_last().len() implies usable_udid(
                #[trigger] us.drop_last()[i],
            ) by {
                assert(us.drop_last()[i] == us[i]);
            }
            assert(usable_udid(us[us.len() - 1]));
        }
        if all_usable(us) {
            assert forall|i: int| 0 <= i < us.len() implies usable_udid(#[trigger] us[i]) by {
                if i < us.len() - 1 {
                    assert(us.drop_last()[i] == us[i]);
                }
            }
        }
    }
}

pub open spec fn to_device() -> spec_fn(Seq<char>) -> IosDeviceView {
    |u: Seq<char>| IosDeviceView { id: u, name: short_name_spec(u) }
}

/// What `ios list` stdout lists: the JSON `deviceList` array when there is
/// one, otherwise one UDID per line; any unusable UDID rejects the whole list.
pub open spec fn parse_ios_devices_spec(output: Seq<char>) -> Result<Seq<IosDeviceView>, Seq<char>> {
    let udids = match device_list_spec(output) {
        Some(l) => l,
        None => line_udids(lines(output)),
    };
    if all_usable(udids) {
        Ok(udids.map_values(to_device()))
    } else {
        Err("go-ios returned an unparsable device list"@)
    }
}

/// The UDIDs `ios list` stdout names: the JSON `deviceList` array when there
/// is one, otherwise one per line.
pub open spec fn listed_udids(output: Seq<char>) -> Seq<Seq<char>> {
    match device_list_spec(output) {
        Some(l) => l,
        None => line_udids(lines(output)),
    }
}

/// The device list is refused exactly when one of its UDIDs is empty or
/// holds whitespace; otherwise every UDID (dashes and all) is listed, in
/// order, with that exact id.
pub proof fn law_udids_are_listed_as_given(output: Seq<char>)
    ensures
        (forall|i: int|
            0 <= i < listed_udids(output).len() ==> (#[trigger] listed_udids(output)[i]).len() > 0
                && forall|c: int|
                0 <= c < listed_udids(output)[i].len() ==> !is_ws(#[trigger] listed_udids(output)[i][c]))
            ==> (parse_ios_devices_spec(output) matches Ok(ds) && ds.len() == listed_udids(output).len()
            && forall|i: int| 0 <= i < ds.len() ==> (#[trigger] ds[i]).id == listed_udids(output)[i]),
        (exists|i: int|
            0 <= i < listed_udids(output).len() && ((#[trigger] listed_udids(output)[i]).len() == 0
                || exists|c: int|
                0 <= c < listed_udids(output)[i].len() && is_ws(#[trigger] listed_udids(output)[i][c])))
            ==> parse_ios_devices_spec(output) is Err,
{
    let us = listed_udids(output);
    lemma_all_usable(us);
    if exists|i: int|
        0 <= i < us.len() && ((#[trigger] us[i]).len() == 0 || exists|c: int|
            0 <= c < us[i].len() && is_ws(#[trigger] us[i][c])) {
        let i = choose|i: int|
            0 <= i < us.len() && ((#[trigger] us[i]).len() == 0 || exists|c: int|
                0 <= c < us[i].len() && is_ws(#[trigger] us[i][c]));
        assert(!usable_udid(us[i]));
    }
}

fn char_from_exec(v: &[char], c: char, from: usize) -> (r: Option<usize>)
    requires
        from <= v@.len(),
    ensures
        match char_from(v@, c, from as int) {
            Some(k) => r matches Some(x) && x as int == k && from <= k < v@.len() && v@[k] == c,
            None => r is None,
        },
{
    let ghost t = v@.skip(from as int);
    let mut i = from;
    while i < v.len()
        invariant
            from <= i <= v.len(),
            t == v@.skip(from as int),
            forall|j: int| 0 <= j < i - from ==> !crate::text::char_is(c)(#[trigger] t[j]),
        decreases v.len() - i,
    {
        assert(t[i - from] == v@[i as int]);
        if v[i] == c {
            proof {
                crate::text::lemma_first_index_is(t, crate::text::char_is(c), i - from);
            }
            return Some(i);
        }
        i = i + 1;
    }
    proof {
        crate::text::lemma_first_index_none(t, crate::text::char_is(c));
    }
    None
}

/// `strip_leading` of `"`, computed.
pub fn strip_leading_quotes(v: &[char]) -> (r: Vec<char>)
    ensures
        r@ == strip_leading(v@, '"'),
{
    strip_leading_exec(v, '"')
}

fn list_item_exec(p: &[char]) -> (r: Vec<char>)
    ensures
        r@ == list_item(p@),
{
    let t = trim_exec(p);
    let s = strip_leading_exec(t.as_slice(), '"');
    trim_end_char_exec(s.as_slice(), '"')
}

fn split_items(s: &[char]) -> (r: Vec<String>)
    ensures
        crate::adb_probe::string_views(r@) == list_items(split_char(s@, ',')),
    decreases s.len(),
{
    let (head, rest) = split_once_char(s, ',');
    let item = list_item_exec(head.as_slice());
    let mut out: Vec<String> = Vec::new();
    out.push(string_from(item.as_slice()));
    match rest {
        None => {
            assert(split_char(s@, ',') =~= seq![s@]);
            assert(head@ == s@);
            let ghost one = seq![s@];
            assert(one[0] == s@);
            assert(one.drop_first() =~= Seq::<Seq<char>>::empty());
            assert(list_items(Seq::<Seq<char>>::empty()) =~= Seq::<Seq<char>>::empty());
            assert(crate::adb_probe::string_views(out@) =~= list_items(one));
            out
        },
        Some(rest) => {
            proof {
                crate::text::lemma_after_char_shorter(s@, ',');
            }
            let tail = split_items(rest.as_slice());
            let ghost first = crate::adb_probe::string_views(out@);
            let mut k: usize = 0;
            while k < tail.len()
                invariant
                    k <= tail.len(),
                    crate::adb_probe::string_views(out@) == first + crate::adb_probe::string_views(
                        tail@,
                    ).take(k as int),
                decreases tail.len() - k,
            {
                let x = tail[k].clone();
                proof {
                    assert(crate::adb_probe::string_views(tail@).take(k + 1)
                        =~= crate::adb_probe::string_views(tail@).take(k as int).push(x@));
                    assert(crate::adb_probe::string_views(out@.push(x))
                        =~= crate::adb_probe::string_views(out@).push(x@));
                }
                out.push(x);
                k = k + 1;
            }
            assert(crate::adb_probe::string_views(tail@).take(k as int)
                =~= crate::adb_probe::string_views(tail@));
            let ghost pieces = split_char(s@, ',');
            assert(pieces =~= seq![before_char(s@, ',')] + split_char(rest@, ','));
            assert(pieces[0] == before_char(s@, ','));
            assert(pieces.drop_first() =~= split_char(rest@, ','));
            out
        },
    }
}

/// The elements of the `"deviceList"` array: from the first `[` after the
/// key to the next `]`, split at commas, each trimmed of whitespace and
/// quotes. An array holding only whitespace has no elements; otherwise empty
/// elements are kept, so that the device list rejects them. `None` when the
/// output has no such array.
#[verifier::rlimit(40)]
pub fn extract_device_list(output: &str) -> (r: Option<Vec<String>>)
    ensures
        match device_list_spec(output@) {
            Some(l) => r matches Some(v) && crate::adb_probe::string_views(v@) == l,
            None => r is None,
        },
{
    let cs = chars_of(output);
    let key = chars_of("\"deviceList\"");
    assert(cs@ == output@);
    let start = match find_exec_first(cs.as_slice(), key.as_slice()) {
        Some(k) => k,
        None => {
            return None;
        },
    };
    assert(crate::wireless::first_occurrence(output@, "\"deviceList\""@) == Some(start as int));
    let open = match char_from_exec(cs.as_slice(), '[', start) {
        Some(k) => k,
        None => {
            return None;
        },
    };
    assert(char_from(output@, '[', start as int) == Some(open as int));
    let close = match char_from_exec(cs.as_slice(), ']', open) {
        Some(k) => k,
        None => {
            return None;
        },
    };
    assert(open < close) by {
        assert(cs@[open as int] == '[');
        assert(cs@[close as int] == ']');
    }
    let inner = slice_of(cs.as_slice(), open + 1, close);
    if trim_exec(inner.as_slice()).len() == 0 {
        return Some(Vec::new());
    }
    Some(split_items(inner.as_slice()))
}

fn find_exec_first(v: &[char], p: &[char]) -> (r: Option<usize>)
    ensures
        match crate::wireless::first_occurrence(v@, p@) {
            Some(k) => r matches Some(x) && x as int == k && 0 <= k <= v@.len(),
            None => r is None,
        },
{
    match crate::text::find_exec(v, p) {
        Some(k) => {
            proof {
                crate::wireless::lemma_first_occurrence_is(v@, p@, k as int);
            }
            Some(k)
        },
        None => None,
    }
}

fn line_udid_exec(line: &[char]) -> (r: Option<Vec<char>>)
    ensures
        match line_udid(line@) {
            Some(u) => r matches Some(x) && x@ == u,
            None => r is None,
        },
{
    let t = trim_exec(line);
    if t.len() == 0 {
        return None;
    }
    let lower = crate::text::to_lower(t.as_slice());
    if eq_str(lower.as_slice(), "list of attached devices:") {
        return None;
    }
    proof {
        reveal_strlit("UDID:");
    }
    if starts_with_str(t.as_slice(), "UDID:") {
        let rest = slice_of(t.as_slice(), 5, t.len());
        assert(rest@ =~= t@.skip(5));
        Some(trim_exec(rest.as_slice()))
    } else {
        Some(trim_exec(t.as_slice()))
    }
}

fn usable_udid_exec(u: &[char]) -> (r: bool)
    ensures
        r == usable_udid(u@),
{
    if u.len() == 0 {
        return false;
    }
    let mut i: usize = 0;
    while i < u.len()
        invariant
            i <= u.len(),
            u@.len() > 0,
            forall|j: int| 0 <= j < i ==> !is_ws(#[trigger] u@[j]),
        decreases u.len() - i,
    {
        if crate::text::is_whitespace(u[i]) {
            assert(is_ws(u@[i as int]));
            return false;
        }
        i = i + 1;
    }
    true
}

/// Parses `ios list` stdout: the `{"deviceList":[…]}` form, or else the plain
/// form with one UDID per line (an optional `UDID:` prefix, the header line
/// skipped). An empty UDID or one with whitespace rejects the whole list:
/// a loud failure rather than half the output taken as devices.
#[verifier::spinoff_prover]
#[verifier::rlimit(40)]
pub fn parse_ios_devices(output: &str) -> (r: Result<Vec<IosDevice>, String>)
    ensures
        match parse_ios_devices_spec(output@) {
            Ok(ds) => r matches Ok(v) && ios_device_views(v@) == ds,
            Err(e) => r matches Err(x) && x@ == e,
        },
{
    let udids: Vec<Vec<char>> = match extract_device_list(output) {
        Some(list) => {
            let mut v: Vec<Vec<char>> = Vec::new();
            let mut i: usize = 0;
            while i < list.len()
                invariant
                    i <= list.len(),
                    views(v@) == crate::adb_probe::string_views(list@).take(i as int),
                decreases list.len() - i,
            {
                let c = chars_of(list[i].as_str());
                proof {
                    assert(crate::adb_probe::string_views(list@).take(i + 1)
                        =~= crate::adb_probe::string_views(list@).take(i as int).push(c@));
                    crate::text::lemma_views_push(v@, c);
                }
                v.push(c);
                i = i + 1;
            }
            assert(crate::adb_probe::string_views(list@).take(i as int)
                =~= crate::adb_probe::string_views(list@));
            v
        },
        None => {
            let cs = chars_of(output);
            let ls = lines_of(cs.as_slice());
            let ghost lv = views(ls@);
            let mut v: Vec<Vec<char>> = Vec::new();
            let mut i: usize = 0;
            while i < ls.len()
                invariant
                    i <= ls.len(),
                    lv == views(ls@),
                    views(v@) == line_udids(lv.take(i as int)),
                decreases ls.len() - i,
            {
                assert(lv.take(i + 1).drop_last() =~= lv.take(i as int));
                assert(lv.take(i + 1).last() == ls@[i as int]@);
                match line_udid_exec(ls[i].as_slice()) {
                    Some(u) => {
                        proof {
                            crate::text::lemma_views_push(v@, u);
                        }
                        v.push(u);
                    },
                    None => {},
                }
                assert(views(v@) =~= line_udids(lv.take(i + 1)));
                i = i + 1;
            }
            assert(lv.take(i as int) =~= lv);
            v
        },
    };
    let ghost uv = views(udids@);
    let ghost expected = match device_list_spec(output@) {
        Some(l) => l,
        None => line_udids(lines(output@)),
    };
    assert(uv == expected);
    let mut out: Vec<IosDevice> = Vec::new();
    let mut i: usize = 0;
    while i < udids.len()
        invariant
            i <= udids.len(),
            uv == views(udids@),
            uv == expected,
            expected == (match device_list_spec(output@) {
                Some(l) => l,
                None => line_udids(lines(output@)),
            }),
            forall|j: int| 0 <= j < i ==> usable_udid(#[trigger] uv[j]),
            ios_device_views(out@) == uv.take(i as int).map_values(to_device()),
        decreases udids.len() - i,
    {
        assert(uv[i as int] == udids@[i as int]@);
        if !usable_udid_exec(udids[i].as_slice()) {
            assert(!usable_udid(expected[i as int]));
            proof {
                lemma_all_usable(expected);
            }
            return Err("go-ios returned an unparsable device list".to_owned());
        }
        let id = string_from(udids[i].as_slice());
        let name = short_ios_name(id.as_str());
        let d = IosDevice { id, name };
        proof {
            assert(ios_device_views(out@.push(d)) =~= ios_device_views(out@).push(d@));
            assert(uv.take(i + 1).map_values(to_device()) =~= uv.take(i as int).map_values(
                to_device(),
            ).push(d@));
        }
        out.push(d);
        i = i + 1;
    }
    assert(uv.take(i as int) =~= uv);
    proof {
        lemma_all_usable(expected);
    }
    Ok(out)
}

} // verus!
