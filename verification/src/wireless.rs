//! Android 11+ wireless-debugging pairing: the pairing secret, what the
//! `adb mdns services` listing advertises, the scan round's state machine,
//! and the checks that decide what each adb answer means.

use vstd::prelude::*;
use crate::adb_probe::{
    dec, push_decimal, Device, DeviceState, DeviceView, device_views, string_views,
    trim_end_char, trim_end_char_exec,
};
use crate::host::io_error_text;
use vstd::string::StringSliceAdditionalSpecFns;
use crate::text::{
    after_char, before_char, chars_of, contains, eq_str, first_index, is_ascii_alnum,
    is_ascii_alnum_char, lemma_first_index, lemma_first_index_is, lemma_first_index_none, lines,
    lines_of, lower_seq, parse_uint, parse_uint_exec, push_all, push_str, slice_of,
    split_once_char, starts_with, starts_with_str, ends_with, ends_with_str, trim, trim_str,
    views, words, words_of, find_exec, occurs_at,
};

verus! {

/// Characters in a generated pairing password.
pub const PASSWORD_LENGTH: usize = 12;

/// Seconds a scan round may last before it times out.
pub const ROUND_TIMEOUT_SECS: u64 = 300;

// ---------------------------------------------------------------------------
// Errors
// ---------------------------------------------------------------------------

/// Every failure of wireless debugging.
#[derive(Debug)]
pub enum WirelessError {
    Io(std::io::Error),
    AdbNotFound,
    TimedOut,
    OutputTooLarge,
    CommandFailed(String),
    InvalidAdbVersion,
    AdbTooOld((u64, u64, u64)),
    MdnsUnavailable,
    PairOutputUnparseable,
    NoMatchingService,
    Devices(String),
    InvalidInput(String),
    Cancelled,
    /// The whole scan round timed out, as opposed to one pair process.
    RoundTimedOut,
    /// The pairing service disappeared before pairing completed.
    ServiceLost,
}

/// A wireless failure as a value; OS errors are left out.
pub enum WirelessErrorView {
    Io,
    AdbNotFound,
    TimedOut,
    OutputTooLarge,
    CommandFailed(Seq<char>),
    InvalidAdbVersion,
    AdbTooOld((u64, u64, u64)),
    MdnsUnavailable,
    PairOutputUnparseable,
    NoMatchingService,
    Devices(Seq<char>),
    InvalidInput(Seq<char>),
    Cancelled,
    RoundTimedOut,
    ServiceLost,
}

impl View for WirelessError {
    type V = WirelessErrorView;

    open spec fn view(&self) -> WirelessErrorView {
        match self {
            WirelessError::Io(_) => WirelessErrorView::Io,
            WirelessError::AdbNotFound => WirelessErrorView::AdbNotFound,
            WirelessError::TimedOut => WirelessErrorView::TimedOut,
            WirelessError::OutputTooLarge => WirelessErrorView::OutputTooLarge,
            WirelessError::CommandFailed(s) => WirelessErrorView::CommandFailed(s@),
            WirelessError::InvalidAdbVersion => WirelessErrorView::InvalidAdbVersion,
            WirelessError::AdbTooOld(v) => WirelessErrorView::AdbTooOld(*v),
            WirelessError::MdnsUnavailable => WirelessErrorView::MdnsUnavailable,
            WirelessError::PairOutputUnparseable => WirelessErrorView::PairOutputUnparseable,
            WirelessError::NoMatchingService => WirelessErrorView::NoMatchingService,
            WirelessError::Devices(s) => WirelessErrorView::Devices(s@),
            WirelessError::InvalidInput(s) => WirelessErrorView::InvalidInput(s@),
            WirelessError::Cancelled => WirelessErrorView::Cancelled,
            WirelessError::RoundTimedOut => WirelessErrorView::RoundTimedOut,
            WirelessError::ServiceLost => WirelessErrorView::ServiceLost,
        }
    }
}

/// The message of every error that does not carry an operating-system error.
pub open spec fn wireless_message(e: WirelessErrorView) -> Seq<char> {
    match e {
        WirelessErrorView::Io => "ADB process error: "@,
        WirelessErrorView::AdbNotFound => "未找到 adb，请安装 Android platform-tools"@,
        WirelessErrorView::TimedOut => "adb 命令超时"@,
        WirelessErrorView::OutputTooLarge => "adb 输出超过限制"@,
        WirelessErrorView::CommandFailed(s) => "adb 命令失败: "@ + s,
        WirelessErrorView::InvalidAdbVersion => "无法解析 adb 客户端版本"@,
        WirelessErrorView::AdbTooOld(v) => "adb "@ + dec(v.0 as nat) + "."@ + dec(v.1 as nat) + "."@
            + dec(v.2 as nat) + " 过旧，需要 30.0.0 或更高版本"@,
        WirelessErrorView::MdnsUnavailable => mdns_unavailable_message(),
        WirelessErrorView::PairOutputUnparseable => "pair 成功但输出无法解析，请重试或手动 connect"@,
        WirelessErrorView::NoMatchingService => "未发现匹配的无线调试服务"@,
        WirelessErrorView::Devices(s) => s,
        WirelessErrorView::InvalidInput(s) => s,
        WirelessErrorView::Cancelled => "已取消 / cancelled"@,
        WirelessErrorView::RoundTimedOut => "扫码超时 / scan timed out"@,
        WirelessErrorView::ServiceLost => "配对服务已消失 / pairing service disappeared"@,
    }
}

pub open spec fn mdns_unavailable_message() -> Seq<char> {
    "adb mDNS 不可用。可能是已在运行的 adb server 版本较旧；\n加 --restart-adb-server 重跑可重启 adb server 后重试\n（会短暂断开本机其他 adb 会话），或改用 pair-code / USB。"@
}

impl WirelessError {
    /// The human-readable description of the error. For an operating-system
    /// error the text after the prefix is that error's own description.
    pub fn message(&self) -> (r: String)
        ensures
            self@ is Io ==> starts_with(r@, wireless_message(self@)),
            !(self@ is Io) ==> r@ == wireless_message(self@),
    {
        let mut s = String::new();
        match self {
            WirelessError::Io(e) => {
                push_str(&mut s, "ADB process error: ");
                let t = io_error_text(e);
                push_str(&mut s, t.as_str());
                assert(s@.take("ADB process error: "@.len() as int) =~= "ADB process error: "@);
            },
            WirelessError::AdbNotFound => push_str(&mut s, "未找到 adb，请安装 Android platform-tools"),
            WirelessError::TimedOut => push_str(&mut s, "adb 命令超时"),
            WirelessError::OutputTooLarge => push_str(&mut s, "adb 输出超过限制"),
            WirelessError::CommandFailed(e) => {
                push_str(&mut s, "adb 命令失败: ");
                push_str(&mut s, e.as_str());
            },
            WirelessError::InvalidAdbVersion => push_str(&mut s, "无法解析 adb 客户端版本"),
            WirelessError::AdbTooOld(v) => {
                push_str(&mut s, "adb ");
                push_decimal(&mut s, v.0);
                push_str(&mut s, ".");
                push_decimal(&mut s, v.1);
                push_str(&mut s, ".");
                push_decimal(&mut s, v.2);
                push_str(&mut s, " 过旧，需要 30.0.0 或更高版本");
            },
            WirelessError::MdnsUnavailable => push_str(
                &mut s,
                "adb mDNS 不可用。可能是已在运行的 adb server 版本较旧；\n加 --restart-adb-server 重跑可重启 adb server 后重试\n（会短暂断开本机其他 adb 会话），或改用 pair-code / USB。",
            ),
            WirelessError::PairOutputUnparseable => push_str(
                &mut s,
                "pair 成功但输出无法解析，请重试或手动 connect",
            ),
            WirelessError::NoMatchingService => push_str(&mut s, "未发现匹配的无线调试服务"),
            WirelessError::Devices(e) => push_str(&mut s, e.as_str()),
            WirelessError::InvalidInput(e) => push_str(&mut s, e.as_str()),
            WirelessError::Cancelled => push_str(&mut s, "已取消 / cancelled"),
            WirelessError::RoundTimedOut => push_str(&mut s, "扫码超时 / scan timed out"),
            WirelessError::ServiceLost => push_str(
                &mut s,
                "配对服务已消失 / pairing service disappeared",
            ),
        }
        assert(""@ =~= Seq::<char>::empty()) by {
            reveal_strlit("");
        }
        s
    }
}

// ---------------------------------------------------------------------------
// The scan round
// ---------------------------------------------------------------------------

/// Why a scan round closed.
#[derive(Clone, Copy, Debug, PartialEq, Eq, Structural)]
pub enum CloseReason {
    Success,
    Timeout,
    Cancelled,
    ServiceLost,
    PairFailed,
    PairTimedOut,
}

/// What can happen to a scan round.
#[derive(Clone, Debug, PartialEq, Eq)]
pub enum RoundEvent {
    ServiceLost,
    PairSucceeded(String),
    PairFailed,
    /// One pair process timed out.
    PairTimedOut,
    /// The whole scan round timed out.
    Timeout,
    Cancelled,
}

/// A round event as a value.
pub enum RoundEventView {
    ServiceLost,
    PairSucceeded(Seq<char>),
    PairFailed,
    PairTimedOut,
    Timeout,
    Cancelled,
}

impl View for RoundEvent {
    type V = RoundEventView;

    open spec fn view(&self) -> RoundEventView {
        match self {
            RoundEvent::ServiceLost => RoundEventView::ServiceLost,
            RoundEvent::PairSucceeded(g) => RoundEventView::PairSucceeded(g@),
            RoundEvent::PairFailed => RoundEventView::PairFailed,
            RoundEvent::PairTimedOut => RoundEventView::PairTimedOut,
            RoundEvent::Timeout => RoundEventView::Timeout,
            RoundEvent::Cancelled => RoundEventView::Cancelled,
        }
    }
}

/// What a round does with an event.
#[derive(Clone, Copy, Debug, PartialEq, Eq, Structural)]
pub enum RoundAction {
    WaitForPair,
    Close(CloseReason),
    IgnoredAfterClose,
}

/// The state of one QR scan round.
#[derive(Debug)]
pub struct RoundState {
    pub id: u64,
    pub pair_in_flight: bool,
    pub closed: bool,
    pub guid: Option<String>,
    /// The pairing service disappeared while a pair process was in flight;
    /// the pair's outcome is then attributed to the lost service.
    pub service_lost_pending: bool,
}

/// A round's state as a value: its id, whether a pair process is in flight,
/// whether it is closed, the paired GUID, and whether the pairing service was
/// lost while a pair process was still in flight.
pub struct RoundModel {
    pub id: u64,
    pub pair_in_flight: bool,
    pub closed: bool,
    pub guid: Option<Seq<char>>,
    pub lost_pending: bool,
}

pub open spec fn opt_string_view(o: Option<String>) -> Option<Seq<char>> {
    match o {
        Some(s) => Some(s@),
        None => None,
    }
}

/// The id a round takes when it closes: the next one, wrapping at the top.
pub open spec fn next_id(id: u64) -> u64 {
    if id == u64::MAX {
        0
    } else {
        (id + 1) as u64
    }
}

/// Closing a round: nothing stays in flight, the round is closed and its id
/// moves on, so events tagged with the old id are recognisably late.
pub open spec fn close_model(m: RoundModel, reason: CloseReason) -> (RoundModel, RoundAction) {
    (
        RoundModel { pair_in_flight: false, closed: true, id: next_id(m.id), ..m },
        RoundAction::Close(reason),
    )
}

/// What one event does to a round.
pub open spec fn observe_model(m: RoundModel, e: RoundEventView) -> (RoundModel, RoundAction) {
    if m.closed {
        (m, RoundAction::IgnoredAfterClose)
    } else {
        match e {
            RoundEventView::ServiceLost => if m.pair_in_flight {
                (RoundModel { lost_pending: true, ..m }, RoundAction::WaitForPair)
            } else {
                close_model(m, CloseReason::ServiceLost)
            },
            RoundEventView::Cancelled => close_model(m, CloseReason::Cancelled),
            RoundEventView::Timeout => close_model(m, CloseReason::Timeout),
            RoundEventView::PairSucceeded(g) => close_model(
                RoundModel { pair_in_flight: false, guid: Some(g), ..m },
                CloseReason::Success,
            ),
            RoundEventView::PairFailed => if m.pair_in_flight && m.lost_pending {
                close_model(m, CloseReason::ServiceLost)
            } else {
                close_model(m, CloseReason::PairFailed)
            },
            RoundEventView::PairTimedOut => if m.pair_in_flight && m.lost_pending {
                close_model(m, CloseReason::ServiceLost)
            } else {
                close_model(m, CloseReason::PairTimedOut)
            },
        }
    }
}

/// An event tagged with the round it belongs to: events of another round, or
/// of a closed one, are ignored.
pub open spec fn observe_for_round_model(m: RoundModel, round_id: u64, e: RoundEventView) -> (
    RoundModel,
    RoundAction,
) {
    if round_id != m.id || m.closed {
        (m, RoundAction::IgnoredAfterClose)
    } else {
        observe_model(m, e)
    }
}

impl RoundState {
    pub open spec fn model(&self) -> RoundModel {
        RoundModel {
            id: self.id,
            pair_in_flight: self.pair_in_flight,
            closed: self.closed,
            guid: opt_string_view(self.guid),
            lost_pending: self.service_lost_pending,
        }
    }

    /// A fresh, open round with nothing in flight.
    pub fn new(id: u64) -> (r: Self)
        ensures
            r.model() == (RoundModel {
                id,
                pair_in_flight: false,
                closed: false,
                guid: None,
                lost_pending: false,
            }),
    {
        RoundState {
            id,
            pair_in_flight: false,
            closed: false,
            guid: None,
            service_lost_pending: false,
        }
    }

    /// Applies one event.
    pub fn observe(&mut self, event: RoundEvent) -> (r: RoundAction)
        ensures
            (final(self).model(), r) == observe_model(old(self).model(), event@),
    {
        if self.closed {
            return RoundAction::IgnoredAfterClose;
        }
        match event {
            RoundEvent::ServiceLost => {
                if self.pair_in_flight {
                    self.service_lost_pending = true;
                    RoundAction::WaitForPair
                } else {
                    self.close(CloseReason::ServiceLost)
                }
            },
            RoundEvent::Cancelled => self.close(CloseReason::Cancelled),
            RoundEvent::Timeout => self.close(CloseReason::Timeout),
            RoundEvent::PairSucceeded(guid) => {
                self.pair_in_flight = false;
                self.guid = Some(guid);
                self.close(CloseReason::Success)
            },
            RoundEvent::PairFailed => {
                if self.pair_in_flight {
                    self.pair_in_flight = false;
                    let reason = if self.service_lost_pending {
                        CloseReason::ServiceLost
                    } else {
                        CloseReason::PairFailed
                    };
                    self.close(reason)
                } else {
                    self.close(CloseReason::PairFailed)
                }
            },
            RoundEvent::PairTimedOut => {
                if self.pair_in_flight {
                    self.pair_in_flight = false;
                    let reason = if self.service_lost_pending {
                        CloseReason::ServiceLost
                    } else {
                        CloseReason::PairTimedOut
                    };
                    self.close(reason)
                } else {
                    self.close(CloseReason::PairTimedOut)
                }
            },
        }
    }

    /// Applies an event that belongs to round `round_id`.
    pub fn observe_for_round(&mut self, round_id: u64, event: RoundEvent) -> (r: RoundAction)
        ensures
            (final(self).model(), r) == observe_for_round_model(old(self).model(), round_id, event@),
    {
        if round_id != self.id || self.closed {
            RoundAction::IgnoredAfterClose
        } else {
            self.observe(event)
        }
    }

    /// Closes the round for `reason`.
    pub fn close(&mut self, reason: CloseReason) -> (r: RoundAction)
        ensures
            (final(self).model(), r) == close_model(old(self).model(), reason),
    {
        self.pair_in_flight = false;
        self.closed = true;
        self.id = self.id.wrapping_add(1);
        RoundAction::Close(reason)
    }
}

/// A closed round ignores every event and stays as it is.
pub proof fn law_closed_round_ignores_events(m: RoundModel, e: RoundEventView)
    requires
        m.closed,
    ensures
        observe_model(m, e) == (m, RoundAction::IgnoredAfterClose),
{
}

/// Every close leaves the round closed with nothing in flight and a new id.
pub proof fn law_close_invalidates_the_round(m: RoundModel, e: RoundEventView)
    ensures
        observe_model(m, e).1 matches RoundAction::Close(_) ==> {
            let n = observe_model(m, e).0;
            n.closed && !n.pair_in_flight && n.id != m.id
        },
{
}

/// Once a round has closed, an event tagged with its old id is ignored.
pub proof fn law_late_events_are_discarded(m: RoundModel, e: RoundEventView, late: RoundEventView)
    requires
        observe_model(m, e).1 matches RoundAction::Close(_),
    ensures
        observe_for_round_model(observe_model(m, e).0, m.id, late).1
            == RoundAction::IgnoredAfterClose,
{
}

/// The service disappearing while a pair process is in flight does not close
/// the round: it waits, and the pair's own outcome decides. A success still
/// succeeds; a failure or timeout is then attributed to the lost service.
pub proof fn law_service_lost_waits_for_the_pair(m: RoundModel, outcome: RoundEventView)
    requires
        !m.closed,
        m.pair_in_flight,
    ensures
        observe_model(m, RoundEventView::ServiceLost).1 == RoundAction::WaitForPair,
        !observe_model(m, RoundEventView::ServiceLost).0.closed,
        outcome is PairFailed || outcome is PairTimedOut ==> observe_model(
            observe_model(m, RoundEventView::ServiceLost).0,
            outcome,
        ).1 == RoundAction::Close(CloseReason::ServiceLost),
        outcome is PairSucceeded ==> observe_model(
            observe_model(m, RoundEventView::ServiceLost).0,
            outcome,
        ).1 == RoundAction::Close(CloseReason::Success),
{
}

/// The outcome of a round that ended in failure: the event and the error come
/// from the same cause, by priority: the lost service, then a pair process's
/// own timeout, then the first failure seen.
pub open spec fn classify_spec(service_lost: bool, pair_timed_out: bool, first: WirelessErrorView) -> (
    RoundEventView,
    WirelessErrorView,
) {
    if service_lost {
        (RoundEventView::ServiceLost, WirelessErrorView::ServiceLost)
    } else if pair_timed_out {
        (RoundEventView::PairTimedOut, WirelessErrorView::TimedOut)
    } else {
        (RoundEventView::PairFailed, first)
    }
}

/// The event and the error a failed round ends with, from the same source,
/// by `classify_spec`.
pub fn classify_round_failure(service_lost: bool, pair_timed_out: bool, first: WirelessError) -> (r: (
    RoundEvent,
    WirelessError,
))
    ensures
        (r.0@, r.1@) == classify_spec(service_lost, pair_timed_out, first@),
{
    if service_lost {
        (RoundEvent::ServiceLost, WirelessError::ServiceLost)
    } else if pair_timed_out {
        (RoundEvent::PairTimedOut, WirelessError::TimedOut)
    } else {
        (RoundEvent::PairFailed, first)
    }
}


// ---------------------------------------------------------------------------
// The pairing secret
// ---------------------------------------------------------------------------

/// The service name, password and QR payload of one pairing round.
#[derive(Clone, Debug, Eq, PartialEq)]
pub struct PairingSecret {
    pub service_name: String,
    pub password: String,
    pub payload: String,
}

/// Trusted: `String::into_bytes`. Nothing is stated of the bytes; they are
/// only overwritten.
#[verifier::external_body]
fn string_into_bytes(s: String) -> Vec<u8> {
    s.into_bytes()
}

/// Trusted: `String::from_utf8` on bytes that are all zero, which are valid
/// UTF-8, so the `Err` arm is never taken. Nothing is stated of the text.
#[verifier::external_body]
fn zeroed_string(bytes: Vec<u8>) -> String
    requires
        forall|i: int| 0 <= i < bytes@.len() ==> bytes@[i] == 0,
{
    match String::from_utf8(bytes) {
        Ok(s) => s,
        Err(_) => String::new(),
    }
}

/// Trusted: `String::clear`, which empties the string and keeps its buffer.
#[verifier::external_body]
fn clear_string(s: &mut String)
    ensures
        final(s)@ == Seq::<char>::empty(),
{
    s.clear();
}

/// Overwrites the string's bytes with zeros in place, then empties it.
fn wipe_string(value: &mut String)
    ensures
        final(value)@ == Seq::<char>::empty(),
{
    let mut taken = String::new();
    std::mem::swap(&mut taken, value);
    let mut bytes = string_into_bytes(taken);
    let n = bytes.len();
    let mut i: usize = 0;
    while i < n
        invariant
            i <= n,
            bytes@.len() == n,
            forall|j: int| 0 <= j < i ==> bytes@[j] == 0,
        decreases n - i,
    {
        bytes.set(i, 0);
        i = i + 1;
    }
    let mut zeroed = zeroed_string(bytes);
    clear_string(&mut zeroed);
    *value = zeroed;
}

impl PairingSecret {
    /// Erases the service name, password and payload, overwriting their
    /// bytes first.
    pub fn wipe(&mut self)
        ensures
            final(self).service_name@ == Seq::<char>::empty(),
            final(self).password@ == Seq::<char>::empty(),
            final(self).payload@ == Seq::<char>::empty(),
    {
        wipe_string(&mut self.service_name);
        wipe_string(&mut self.password);
        wipe_string(&mut self.payload);
    }
}

/// Erases a credential string the caller holds, such as a typed pairing code.
pub fn wipe_secret_string(value: &mut String)
    ensures
        final(value)@ == Seq::<char>::empty(),
{
    wipe_string(value);
}

/// The character a usable random byte stands for: its value modulo 62 as an
/// index into `0-9A-Za-z`.
pub open spec fn alnum_at(k: nat) -> char {
    if k < 10 {
        (('0' as nat) + k) as char
    } else if k < 36 {
        (('A' as nat) + (k - 10)) as char
    } else {
        (('a' as nat) + (k - 36)) as char
    }
}

/// The characters a run of random bytes yields: bytes below 248 (so that
/// every character is equally likely) map to `alnum_at(byte % 62)`, the
/// others are skipped.
pub open spec fn usable_chars(bytes: Seq<u8>) -> Seq<char>
    decreases bytes.len(),
{
    if bytes.len() == 0 {
        Seq::empty()
    } else {
        usable_chars(bytes.drop_last()) + if bytes.last() < 248 {
            seq![alnum_at((bytes.last() % 62) as nat)]
        } else {
            Seq::<char>::empty()
        }
    }
}

pub open spec fn cap(s: Seq<char>, n: nat) -> Seq<char> {
    if s.len() > n {
        s.take(n as int)
    } else {
        s
    }
}

fn alnum_char(k: u8) -> (c: char)
    requires
        k < 62,
    ensures
        c == alnum_at(k as nat),
        is_ascii_alnum(c),
{
    if k < 10 {
        ((48 + k) as u8) as char
    } else if k < 36 {
        ((65 + (k - 10)) as u8) as char
    } else {
        ((97 + (k - 36)) as u8) as char
    }
}

/// Appends the characters that `bytes` yields, stopping at `want` characters.
pub fn extend_with_usable(out: &mut Vec<char>, bytes: &[u8], want: usize)
    ensures
        final(out)@ == cap(old(out)@ + usable_chars(bytes@), want as nat) || (old(out)@.len() >= want
            && final(out)@ == old(out)@),
        old(out)@.len() < want ==> final(out)@ == cap(old(out)@ + usable_chars(bytes@), want as nat),
{
    if out.len() >= want {
        return;
    }
    let ghost start = out@;
    let mut i: usize = 0;
    while i < bytes.len()
        invariant
            i <= bytes.len(),
            start == old(out)@,
            start.len() < want,
            out@ == start + usable_chars(bytes@.take(i as int)),
            out@.len() < want,
        decreases bytes.len() - i,
    {
        let b = bytes[i];
        assert(bytes@.take(i + 1).drop_last() =~= bytes@.take(i as int));
        assert(bytes@.take(i + 1).last() == b);
        if b < 248 {
            let c = alnum_char(b % 62);
            out.push(c);
            assert(out@ =~= start + usable_chars(bytes@.take(i + 1)));
            if out.len() == want {
                proof {
                    lemma_usable_prefix(bytes@, i as int + 1);
                    let all = start + usable_chars(bytes@);
                    assert(all.take(want as int) =~= out@);
                    assert(all.len() >= want);
                    if all.len() == want {
                        assert(all.take(want as int) =~= all);
                    }
                    assert(cap(all, want as nat) == out@);
                }
                return;
            }
        } else {
            assert(out@ =~= start + usable_chars(bytes@.take(i + 1)));
        }
        i = i + 1;
    }
    assert(bytes@.take(i as int) =~= bytes@);
}

proof fn lemma_usable_prefix(bytes: Seq<u8>, k: int)
    requires
        0 <= k <= bytes.len(),
    ensures
        usable_chars(bytes).take(usable_chars(bytes.take(k)).len() as int) == usable_chars(
            bytes.take(k),
        ),
        usable_chars(bytes.take(k)).len() <= usable_chars(bytes).len(),
    decreases bytes.len() - k,
{
    if k == bytes.len() {
        assert(bytes.take(k) =~= bytes);
        assert(usable_chars(bytes).take(usable_chars(bytes).len() as int) =~= usable_chars(bytes));
    } else {
        lemma_usable_prefix(bytes, k + 1);
        assert(bytes.take(k + 1).drop_last() =~= bytes.take(k));
        let a = usable_chars(bytes.take(k));
        let b = usable_chars(bytes.take(k + 1));
        assert(b.take(a.len() as int) =~= a);
        assert(usable_chars(bytes).take(a.len() as int) =~= usable_chars(bytes).take(
            b.len() as int,
        ).take(a.len() as int));
    }
}

/// Trusted: `getrandom::fill`, which fills the buffer from the operating
/// system's random source and reports whether it could. The bytes' values
/// are not stated; only that the buffer keeps its length.
#[verifier::external_body]
fn fill_random(buf: &mut Vec<u8>) -> (ok: bool)
    ensures
        final(buf)@.len() == old(buf)@.len(),
{
    getrandom::fill(buf.as_mut_slice()).is_ok()
}

/// Batches of random bytes drawn, beyond one per character wanted, before
/// giving up on a source that yields too few usable bytes. A batch of 32
/// bytes yields 31 usable characters on average, so the bound is never
/// reached by a working source.
pub const RANDOM_BATCHES: usize = 64;

/// Random text of `length` characters from `0-9A-Za-z`; `None` when the
/// operating system's random source fails. Empty text needs no random bytes
/// and is always given.
pub fn random_text(length: usize) -> (r: Option<String>)
    ensures
        r matches Some(s) ==> s@.len() == length && forall|i: int|
            0 <= i < length ==> is_ascii_alnum(#[trigger] s@[i]),
        length == 0 ==> (r matches Some(s) && s@ == Seq::<char>::empty()),
{
    let mut out: Vec<char> = Vec::new();
    let max_batches: usize = if length > usize::MAX - RANDOM_BATCHES {
        usize::MAX
    } else {
        length + RANDOM_BATCHES
    };
    let mut batches: usize = 0;
    while out.len() < length
        invariant
            out@.len() <= length,
            batches <= max_batches,
            forall|i: int| 0 <= i < out@.len() ==> is_ascii_alnum(#[trigger] out@[i]),
        decreases max_batches - batches,
    {
        if batches >= max_batches {
            return None;
        }
        batches = batches + 1;
        let mut bytes: Vec<u8> = vec![0u8; 32];
        if !fill_random(&mut bytes) {
            return None;
        }
        let ghost before = out@;
        extend_with_usable(&mut out, bytes.as_slice(), length);
        proof {
            lemma_usable_alnum(bytes@);
            let all = before + usable_chars(bytes@);
            assert forall|i: int| 0 <= i < out@.len() implies is_ascii_alnum(#[trigger] out@[i]) by {
                if i < before.len() {
                    assert(out@[i] == all[i]);
                } else {
                    assert(out@[i] == all[i]);
                    assert(all[i] == usable_chars(bytes@)[i - before.len()]);
                }
            }
        }
    }
    Some(crate::text::string_from(out.as_slice()))
}

proof fn lemma_usable_alnum(bytes: Seq<u8>)
    ensures
        forall|i: int|
            0 <= i < usable_chars(bytes).len() ==> is_ascii_alnum(#[trigger] usable_chars(bytes)[i]),
    decreases bytes.len(),
{
    if bytes.len() > 0 {
        lemma_usable_alnum(bytes.drop_last());
        let k = (bytes.last() % 62) as nat;
        assert(is_ascii_alnum(alnum_at(k)));
        let a = usable_chars(bytes.drop_last());
        assert forall|i: int|
            0 <= i < usable_chars(bytes).len() implies is_ascii_alnum(
            #[trigger] usable_chars(bytes)[i],
        ) by {
            if i < a.len() {
                assert(usable_chars(bytes)[i] == a[i]);
            }
        }
    }
}

/// The QR payload that advertises a pairing service.
pub open spec fn payload_spec(service_name: Seq<char>, password: Seq<char>) -> Seq<char> {
    "WIFI:T:ADB;S:"@ + service_name + ";P:"@ + password + ";;"@
}

/// Whether every character is one of `0-9A-Za-z`.
pub open spec fn all_alnum(s: Seq<char>) -> bool {
    forall|i: int| 0 <= i < s.len() ==> is_ascii_alnum(#[trigger] s[i])
}

/// A fresh pairing secret: the service `studio-` and ten random characters,
/// a twelve-character random password, and the QR payload naming both.
/// `None` when the operating system's random source fails.
pub fn generate_pairing_secret() -> (r: Option<PairingSecret>)
    ensures
        r matches Some(s) ==> {
            &&& starts_with(s.service_name@, "studio-"@)
            &&& s.service_name@.len() == 17
            &&& all_alnum(s.service_name@.skip(7))
            &&& s.password@.len() == PASSWORD_LENGTH
            &&& all_alnum(s.password@)
            &&& s.payload@ == payload_spec(s.service_name@, s.password@)
        },
{
    let suffix = match random_text(10) {
        Some(t) => t,
        None => {
            return None;
        },
    };
    let password = match random_text(PASSWORD_LENGTH) {
        Some(t) => t,
        None => {
            return None;
        },
    };
    let mut service_name = String::new();
    push_str(&mut service_name, "studio-");
    push_str(&mut service_name, suffix.as_str());
    let mut payload = String::new();
    push_str(&mut payload, "WIFI:T:ADB;S:");
    push_str(&mut payload, service_name.as_str());
    push_str(&mut payload, ";P:");
    push_str(&mut payload, password.as_str());
    push_str(&mut payload, ";;");
    proof {
        reveal_strlit("studio-");
        assert(service_name@.take(7) =~= "studio-"@);
        assert(service_name@.skip(7) =~= suffix@);
        assert(payload@ =~= payload_spec(service_name@, password@));
    }
    Some(PairingSecret { service_name, password, payload })
}


// ---------------------------------------------------------------------------
// mDNS services
// ---------------------------------------------------------------------------

/// One service in the `adb mdns services` listing.
#[derive(Clone, Debug, Eq, PartialEq)]
pub struct MdnsService {
    pub instance: String,
    pub service: String,
    pub address: String,
    pub port: u16,
}

/// An mDNS service as a value.
pub struct MdnsServiceView {
    pub instance: Seq<char>,
    pub service: Seq<char>,
    pub address: Seq<char>,
    pub port: u16,
}

impl View for MdnsService {
    type V = MdnsServiceView;

    open spec fn view(&self) -> MdnsServiceView {
        MdnsServiceView {
            instance: self.instance@,
            service: self.service@,
            address: self.address@,
            port: self.port,
        }
    }
}

pub open spec fn service_views(v: Seq<MdnsService>) -> Seq<MdnsServiceView> {
    v.map_values(|x: MdnsService| x@)
}

pub open spec fn pairing_service_name() -> Seq<char> {
    "_adb-tls-pairing._tcp"@
}

pub open spec fn connect_service_name() -> Seq<char> {
    "_adb-tls-connect._tcp"@
}

pub open spec fn service_marker() -> Seq<char> {
    "._adb-tls-"@
}

/// A field that names an adb TLS service, trailing dots aside.
pub open spec fn service_field() -> spec_fn(Seq<char>) -> bool {
    |f: Seq<char>|
        trim_end_char(f, '.') == pairing_service_name() || trim_end_char(f, '.')
            == connect_service_name()
}

/// A field with the instance and service run together.
pub open spec fn marked_field() -> spec_fn(Seq<char>) -> bool {
    |f: Seq<char>| contains(f, service_marker())
}

/// Position of the first occurrence of `p` in `s`.
pub open spec fn first_occurrence(s: Seq<char>, p: Seq<char>) -> Option<int> {
    if contains(s, p) {
        Some(choose|i: int| occurs_at(s, p, i) && forall|j: int| 0 <= j < i ==> !occurs_at(s, p, j))
    } else {
        None
    }
}

pub proof fn lemma_first_occurrence_is(s: Seq<char>, p: Seq<char>, i: int)
    requires
        occurs_at(s, p, i),
        forall|j: int| 0 <= j < i ==> !occurs_at(s, p, j),
    ensures
        first_occurrence(s, p) == Some(i),
{
    let c = choose|k: int| occurs_at(s, p, k) && forall|j: int| 0 <= j < k ==> !occurs_at(s, p, j);
    assert(occurs_at(s, p, c));
    if c < i {
        assert(!occurs_at(s, p, c));
    } else if c > i {
        assert(!occurs_at(s, p, i));
    }
}

/// Position of the last occurrence of `c`.
pub open spec fn last_index_of(s: Seq<char>, c: char) -> Option<int>
    decreases s.len(),
{
    if s.len() == 0 {
        None
    } else if s.last() == c {
        Some(s.len() - 1)
    } else {
        last_index_of(s.drop_last(), c)
    }
}

proof fn lemma_last_index_of(s: Seq<char>, c: char, r: Option<int>)
    requires
        r matches Some(i) ==> 0 <= i < s.len() && s[i] == c && forall|j: int|
            i < j < s.len() ==> s[j] != c,
        r is None ==> forall|j: int| 0 <= j < s.len() ==> s[j] != c,
    ensures
        last_index_of(s, c) == r,
    decreases s.len(),
{
    if s.len() > 0 && s.last() != c {
        let t = s.drop_last();
        assert forall|j: int| 0 <= j < t.len() implies t[j] == s[j] by {}
        match r {
            Some(i) => {
                assert(i != s.len() - 1);
            },
            None => {},
        }
        lemma_last_index_of(t, c, r);
    }
}

/// `host:port`, split at the last `:`; the host must not be empty.
pub open spec fn split_endpoint_spec(v: Seq<char>) -> Option<(Seq<char>, u16)> {
    match last_index_of(v, ':') {
        None => None,
        Some(k) => if k == 0 {
            None
        } else {
            match parse_uint(v.skip(k + 1), 65535) {
                Some(p) => Some((v.take(k), p as u16)),
                None => None,
            }
        },
    }
}

/// The endpoint of a service line: the first `host:port` field, otherwise a
/// host field followed by a port field.
pub open spec fn first_endpoint(fields: Seq<Seq<char>>) -> Option<(Seq<char>, u16)>
    decreases fields.len(),
{
    if fields.len() == 0 {
        None
    } else {
        match split_endpoint_spec(fields[0]) {
            Some(e) => Some(e),
            None => first_endpoint(fields.drop_first()),
        }
    }
}

pub open spec fn endpoint_of(fields: Seq<Seq<char>>) -> Option<(Seq<char>, u16)> {
    match first_endpoint(fields) {
        Some(e) => Some(e),
        None => if fields.len() >= 2 {
            match parse_uint(fields[1], 65535) {
                Some(p) => Some((fields[0], p as u16)),
                None => None,
            }
        } else {
            None
        },
    }
}

/// Instance, service and the fields after them, for a line of at least two
/// fields that does not start with `List`.
pub open spec fn service_parts(fields: Seq<Seq<char>>) -> Option<
    (Seq<char>, Seq<char>, Seq<Seq<char>>),
> {
    match first_index(fields, service_field()) {
        Some(si) => if si == 0 {
            None
        } else {
            Some(
                (
                    trim_end_char(fields[si - 1], '.'),
                    trim_end_char(fields[si], '.'),
                    fields.skip(si + 1),
                ),
            )
        },
        None => match first_index(fields, marked_field()) {
            None => None,
            Some(idx) => {
                let f = fields[idx];
                let k = first_occurrence(f, service_marker()).unwrap();
                Some(
                    (
                        f.take(k),
                        "_adb-tls-"@ + trim_end_char(f.skip(k + service_marker().len()), '.'),
                        fields.skip(idx + 1),
                    ),
                )
            },
        },
    }
}

/// The service a line of the listing describes, if any.
pub open spec fn service_of_line(line: Seq<char>) -> Option<MdnsServiceView> {
    let fields = words(line);
    if fields.len() < 2 || lower_seq(fields[0]) == "list"@ {
        None
    } else {
        match service_parts(fields) {
            None => None,
            Some((instance, service, rest)) => match endpoint_of(rest) {
                None => None,
                Some((address, port)) => Some(MdnsServiceView { instance, service, address, port }),
            },
        }
    }
}

pub open spec fn services_of_lines(ls: Seq<Seq<char>>) -> Seq<MdnsServiceView>
    decreases ls.len(),
{
    if ls.len() == 0 {
        Seq::empty()
    } else {
        services_of_lines(ls.drop_last()) + match service_of_line(ls.last()) {
            Some(v) => seq![v],
            None => Seq::<MdnsServiceView>::empty(),
        }
    }
}

fn split_endpoint(value: &[char]) -> (r: Option<(Vec<char>, u16)>)
    ensures
        match split_endpoint_spec(value@) {
            Some((a, p)) => r matches Some(x) && x.0@ == a && x.1 == p,
            None => r is None,
        },
{
    let found = crate::text::rfind_char(value, ':');
    proof {
        lemma_last_index_of(
            value@,
            ':',
            match found {
                Some(i) => Some(i as int),
                None => None,
            },
        );
    }
    match found {
        None => None,
        Some(k) => {
            if k == 0 {
                return None;
            }
            let port_part = slice_of(value, k + 1, value.len());
            assert(port_part@ =~= value@.skip(k + 1));
            match parse_uint_exec(port_part.as_slice(), 65535) {
                Some(p) => {
                    let address = slice_of(value, 0, k);
                    assert(address@ =~= value@.take(k as int));
                    Some((address, p as u16))
                },
                None => None,
            }
        },
    }
}

fn endpoint_from(fields: &Vec<Vec<char>>, from: usize) -> (r: Option<(Vec<char>, u16)>)
    requires
        from <= fields@.len(),
    ensures
        match endpoint_of(views(fields@).skip(from as int)) {
            Some((a, p)) => r matches Some(x) && x.0@ == a && x.1 == p,
            None => r is None,
        },
{
    let ghost all = views(fields@).skip(from as int);
    let mut i = from;
    while i < fields.len()
        invariant
            from <= i <= fields.len(),
            all == views(fields@).skip(from as int),
            first_endpoint(all) == first_endpoint(views(fields@).skip(i as int)),
        decreases fields.len() - i,
    {
        let ghost rest = views(fields@).skip(i as int);
        assert(rest[0] == fields@[i as int]@);
        assert(rest.drop_first() =~= views(fields@).skip(i + 1));
        match split_endpoint(fields[i].as_slice()) {
            Some(e) => {
                return Some(e);
            },
            None => {},
        }
        i = i + 1;
    }
    assert(first_endpoint(views(fields@).skip(i as int)) is None);
    if fields.len() - from >= 2 {
        assert(all[0] == fields@[from as int]@);
        assert(all[1] == fields@[from + 1]@);
        match parse_uint_exec(fields[from + 1].as_slice(), 65535) {
            Some(p) => Some((fields[from].clone(), p as u16)),
            None => None,
        }
    } else {
        None
    }
}

fn is_service_field(f: &[char]) -> (r: bool)
    ensures
        r == service_field()(f@),
{
    let t = trim_end_char_exec(f, '.');
    eq_str(t.as_slice(), "_adb-tls-pairing._tcp") || eq_str(t.as_slice(), "_adb-tls-connect._tcp")
}

fn first_field(fields: &Vec<Vec<char>>, marked: bool) -> (r: Option<usize>)
    ensures
        match r {
            Some(k) => k < fields@.len() && first_index(
                views(fields@),
                if marked {
                    marked_field()
                } else {
                    service_field()
                },
            ) == Some(k as int),
            None => first_index(
                views(fields@),
                if marked {
                    marked_field()
                } else {
                    service_field()
                },
            ) is None,
        },
{
    let ghost fv = views(fields@);
    let ghost p = if marked {
        marked_field()
    } else {
        service_field()
    };
    let mut i: usize = 0;
    while i < fields.len()
        invariant
            i <= fields.len(),
            fv == views(fields@),
            p == (if marked {
                marked_field()
            } else {
                service_field()
            }),
            forall|j: int| 0 <= j < i ==> !p(#[trigger] fv[j]),
        decreases fields.len() - i,
    {
        assert(fv[i as int] == fields@[i as int]@);
        let hit = if marked {
            crate::text::contains_str(fields[i].as_slice(), "._adb-tls-")
        } else {
            is_service_field(fields[i].as_slice())
        };
        if hit {
            proof {
                lemma_first_index_is(fv, p, i as int);
            }
            return Some(i);
        }
        i = i + 1;
    }
    proof {
        lemma_first_index_none(fv, p);
    }
    None
}

fn service_parts_exec(fields: &Vec<Vec<char>>) -> (r: Option<(Vec<char>, Vec<char>, usize)>)
    ensures
        match service_parts(views(fields@)) {
            Some((i, s, rest)) => r matches Some(x) && x.0@ == i && x.1@ == s && x.2
                <= fields@.len() && views(fields@).skip(x.2 as int) == rest,
            None => r is None,
        },
{
    let ghost fv = views(fields@);
    match first_field(fields, false) {
        Some(si) => {
            if si == 0 {
                return None;
            }
            assert(fv[si - 1] == fields@[si - 1]@);
            assert(fv[si as int] == fields@[si as int]@);
            let instance = trim_end_char_exec(fields[si - 1].as_slice(), '.');
            let service = trim_end_char_exec(fields[si].as_slice(), '.');
            assert(si < fields.len());
            let after: usize = si + 1;
            Some((instance, service, after))
        },
        None => match first_field(fields, true) {
            None => None,
            Some(idx) => {
                assert(fv[idx as int] == fields@[idx as int]@);
                let f = fields[idx].as_slice();
                assert(idx < fields.len());
                let after: usize = idx + 1;
                let marker = chars_of("._adb-tls-");
                proof {
                    reveal_strlit("._adb-tls-");
                }
                match find_exec(f, marker.as_slice()) {
                    None => {
                        proof {
                            lemma_first_index(fv, marked_field());
                        }
                        None
                    },
                    Some(k) => {
                        proof {
                            lemma_first_occurrence_is(f@, service_marker(), k as int);
                        }
                        assert(marker@.len() == 10);
                        assert(k + 10 <= f.len());
                        let instance = slice_of(f, 0, k);
                        let tail = slice_of(f, k + 10, f.len());
                        let tail = trim_end_char_exec(tail.as_slice(), '.');
                        let mut service: Vec<char> = chars_of("_adb-tls-");
                        let mut j: usize = 0;
                        let ghost head = service@;
                        while j < tail.len()
                            invariant
                                j <= tail.len(),
                                service@ == head + tail@.take(j as int),
                            decreases tail.len() - j,
                        {
                            service.push(tail[j]);
                            assert(service@ =~= head + tail@.take(j + 1));
                            j = j + 1;
                        }
                        assert(tail@.take(j as int) =~= tail@);
                        assert(instance@ =~= f@.take(k as int));
                        assert(slice_of_view(f@, k + 10) =~= f@.skip(k + 10));
                        Some((instance, service, after))
                    },
                }
            },
        },
    }
}

spec fn slice_of_view(s: Seq<char>, from: int) -> Seq<char> {
    s.subrange(from, s.len() as int)
}

fn service_of_line_exec(line: &[char]) -> (r: Option<MdnsService>)
    ensures
        match service_of_line(line@) {
            Some(v) => r matches Some(x) && x@ == v,
            None => r is None,
        },
{
    let fields = words_of(line);
    let ghost fv = views(fields@);
    if fields.len() < 2 {
        return None;
    }
    assert(fv[0] == fields@[0]@);
    let first = crate::text::to_lower(fields[0].as_slice());
    if eq_str(first.as_slice(), "list") {
        return None;
    }
    match service_parts_exec(&fields) {
        None => None,
        Some((instance, service, rest)) => match endpoint_from(&fields, rest) {
            None => None,
            Some((address, port)) => Some(
                MdnsService {
                    instance: crate::text::string_from(instance.as_slice()),
                    service: crate::text::string_from(service.as_slice()),
                    address: crate::text::string_from(address.as_slice()),
                    port,
                },
            ),
        },
    }
}

/// The services an `adb mdns services` listing advertises, in listing order.
/// Lines that name no adb TLS service or no endpoint are skipped.
pub fn parse_mdns_services(output: &str) -> (r: Vec<MdnsService>)
    ensures
        service_views(r@) == services_of_lines(lines(output@)),
{
    let cs = chars_of(output);
    let ls = lines_of(cs.as_slice());
    let ghost lv = views(ls@);
    let mut out: Vec<MdnsService> = Vec::new();
    let mut i: usize = 0;
    while i < ls.len()
        invariant
            i <= ls.len(),
            lv == views(ls@),
            service_views(out@) == services_of_lines(lv.take(i as int)),
        decreases ls.len() - i,
    {
        assert(lv.take(i + 1).drop_last() =~= lv.take(i as int));
        assert(lv.take(i + 1).last() == ls@[i as int]@);
        match service_of_line_exec(ls[i].as_slice()) {
            Some(svc) => {
                let ghost before = service_views(out@);
                out.push(svc);
                assert(service_views(out@) =~= before.push(svc@));
            },
            None => {},
        }
        assert(service_views(out@) =~= services_of_lines(lv.take(i + 1)));
        i = i + 1;
    }
    assert(lv.take(i as int) =~= lv);
    out
}


/// A pairing service advertised under `name`.
pub open spec fn pairing_named(name: Seq<char>) -> spec_fn(MdnsServiceView) -> bool {
    |v: MdnsServiceView| v.service == pairing_service_name() && v.instance == name
}

/// Every pairing service advertised under `name`, in listing order.
pub open spec fn pairing_matches(ss: Seq<MdnsServiceView>, name: Seq<char>) -> Seq<MdnsServiceView>
    decreases ss.len(),
{
    if ss.len() == 0 {
        Seq::empty()
    } else {
        pairing_matches(ss.drop_last(), name) + if pairing_named(name)(ss.last()) {
            seq![ss.last()]
        } else {
            Seq::<MdnsServiceView>::empty()
        }
    }
}

pub open spec fn ref_views<'a>(v: Seq<&'a MdnsService>) -> Seq<MdnsServiceView> {
    v.map_values(|x: &'a MdnsService| x@)
}

fn is_pairing_named(svc: &MdnsService, name: &[char]) -> (r: bool)
    ensures
        r == pairing_named(name@)(svc@),
{
    let service = chars_of(svc.service.as_str());
    let instance = chars_of(svc.instance.as_str());
    eq_str(service.as_slice(), "_adb-tls-pairing._tcp") && crate::text::seq_eq(
        instance.as_slice(),
        name,
    )
}

/// Every pairing service advertised under `name`. When several phones scan
/// the same code, each advertises the same name at its own endpoint; all of
/// them are returned so that each gets a pair attempt.
pub fn find_pairing_services<'a>(services: &'a [MdnsService], name: &str) -> (r: Vec<
    &'a MdnsService,
>)
    ensures
        ref_views(r@) == pairing_matches(service_views(services@), name@),
{
    let want = chars_of(name);
    let ghost sv = service_views(services@);
    let mut out: Vec<&'a MdnsService> = Vec::new();
    let mut i: usize = 0;
    while i < services.len()
        invariant
            i <= services.len(),
            want@ == name@,
            sv == service_views(services@),
            ref_views(out@) == pairing_matches(sv.take(i as int), name@),
        decreases services.len() - i,
    {
        assert(sv.take(i + 1).drop_last() =~= sv.take(i as int));
        assert(sv.take(i + 1).last() == services@[i as int]@);
        if is_pairing_named(&services[i], want.as_slice()) {
            let ghost before = ref_views(out@);
            out.push(&services[i]);
            assert(ref_views(out@) =~= before.push(services@[i as int]@));
        }
        assert(ref_views(out@) =~= pairing_matches(sv.take(i + 1), name@));
        i = i + 1;
    }
    assert(sv.take(i as int) =~= sv);
    out
}

/// The first pairing service advertised under `name`.
pub fn find_pairing_service<'a>(services: &'a [MdnsService], name: &str) -> (r: Option<
    &'a MdnsService,
>)
    ensures
        match first_index(service_views(services@), pairing_named(name@)) {
            Some(i) => r matches Some(x) && x@ == service_views(services@)[i],
            None => r is None,
        },
{
    let want = chars_of(name);
    let ghost sv = service_views(services@);
    let mut i: usize = 0;
    while i < services.len()
        invariant
            i <= services.len(),
            want@ == name@,
            sv == service_views(services@),
            forall|j: int| 0 <= j < i ==> !pairing_named(name@)(#[trigger] sv[j]),
        decreases services.len() - i,
    {
        assert(sv[i as int] == services@[i as int]@);
        if is_pairing_named(&services[i], want.as_slice()) {
            proof {
                lemma_first_index_is(sv, pairing_named(name@), i as int);
            }
            return Some(&services[i]);
        }
        i = i + 1;
    }
    proof {
        lemma_first_index_none(sv, pairing_named(name@));
    }
    None
}

/// Whether a serial names the device with this GUID: it is the GUID, or the
/// GUID followed by a `.` and more.
pub open spec fn serial_matches_guid_spec(serial: Seq<char>, guid: Seq<char>) -> bool {
    serial == guid || (starts_with(serial, guid) && serial.len() > guid.len() && serial[guid.len()
        as int] == '.')
}

/// Whether an adb serial belongs to the device with this GUID.
pub fn serial_matches_guid(serial: &str, guid: &str) -> (r: bool)
    ensures
        r == serial_matches_guid_spec(serial@, guid@),
{
    let s = chars_of(serial);
    let g = chars_of(guid);
    if crate::text::seq_eq(s.as_slice(), g.as_slice()) {
        return true;
    }
    crate::text::starts_with_exec(s.as_slice(), g.as_slice()) && s.len() > g.len() && s[g.len()]
        == '.'
}

/// A connect service for the device with this GUID.
pub open spec fn connect_for(guid: Seq<char>) -> spec_fn(MdnsServiceView) -> bool {
    |v: MdnsServiceView|
        v.service == connect_service_name() && serial_matches_guid_spec(v.instance, guid)
}

/// The first connect service advertised for the device with this GUID.
pub fn connect_service_for_guid<'a>(services: &'a [MdnsService], guid: &str) -> (r: Option<
    &'a MdnsService,
>)
    ensures
        match first_index(service_views(services@), connect_for(guid@)) {
            Some(i) => r matches Some(x) && x@ == service_views(services@)[i],
            None => r is None,
        },
{
    let ghost sv = service_views(services@);
    let mut i: usize = 0;
    while i < services.len()
        invariant
            i <= services.len(),
            sv == service_views(services@),
            forall|j: int| 0 <= j < i ==> !connect_for(guid@)(#[trigger] sv[j]),
        decreases services.len() - i,
    {
        assert(sv[i as int] == services@[i as int]@);
        let service = chars_of(services[i].service.as_str());
        if eq_str(service.as_slice(), "_adb-tls-connect._tcp") && serial_matches_guid(
            services[i].instance.as_str(),
            guid,
        ) {
            proof {
                lemma_first_index_is(sv, connect_for(guid@), i as int);
            }
            return Some(&services[i]);
        }
        i = i + 1;
    }
    proof {
        lemma_first_index_none(sv, connect_for(guid@));
    }
    None
}

/// The GUID a `[guid=adb-…]` word carries: `adb-` followed by at least one
/// ASCII letter, digit or `-`.
pub open spec fn guid_of_word(w: Seq<char>) -> Option<Seq<char>> {
    if starts_with(w, "[guid="@) && w.len() >= 7 && w.last() == ']' {
        let token = w.subrange(6, w.len() - 1);
        if starts_with(token, "adb-"@) && token.len() > 4 && forall|i: int|
            4 <= i < token.len() ==> is_ascii_alnum(#[trigger] token[i]) || token[i] == '-' {
            Some(token)
        } else {
            None
        }
    } else {
        None
    }
}

pub open spec fn first_guid(ws: Seq<Seq<char>>) -> Option<Seq<char>>
    decreases ws.len(),
{
    if ws.len() == 0 {
        None
    } else {
        match guid_of_word(ws[0]) {
            Some(g) => Some(g),
            None => first_guid(ws.drop_first()),
        }
    }
}

fn guid_of_word_exec(w: &[char]) -> (r: Option<Vec<char>>)
    ensures
        match guid_of_word(w@) {
            Some(g) => r matches Some(x) && x@ == g,
            None => r is None,
        },
{
    proof {
        reveal_strlit("[guid=");
        reveal_strlit("adb-");
    }
    if !(starts_with_str(w, "[guid=") && w.len() >= 7 && w[w.len() - 1] == ']') {
        return None;
    }
    let token = slice_of(w, 6, w.len() - 1);
    assert(token@ =~= w@.subrange(6, w@.len() - 1));
    if !(starts_with_str(token.as_slice(), "adb-") && token.len() > 4) {
        return None;
    }
    let mut i: usize = 4;
    while i < token.len()
        invariant
            4 <= i <= token.len(),
            token@ == w@.subrange(6, w@.len() - 1),
            starts_with(w@, "[guid="@),
            w@.len() >= 7,
            w@.last() == ']',
            starts_with(token@, "adb-"@),
            token@.len() > 4,
            forall|j: int| 4 <= j < i ==> is_ascii_alnum(#[trigger] token@[j]) || token@[j] == '-',
        decreases token.len() - i,
    {
        if !(is_ascii_alnum_char(token[i]) || token[i] == '-') {
            assert(!(is_ascii_alnum(token@[i as int]) || token@[i as int] == '-'));
            return None;
        }
        i = i + 1;
    }
    Some(token)
}

/// The GUID that `adb pair` reports, from its first `[guid=adb-…]` word.
pub fn find_guid(output: &str) -> (r: Option<String>)
    ensures
        match first_guid(words(output@)) {
            Some(g) => r matches Some(x) && x@ == g,
            None => r is None,
        },
{
    let cs = chars_of(output);
    let ws = words_of(cs.as_slice());
    let ghost wv = views(ws@);
    let mut i: usize = 0;
    assert(wv.skip(0) =~= wv);
    while i < ws.len()
        invariant
            i <= ws.len(),
            wv == views(ws@),
            wv == words(output@),
            first_guid(wv) == first_guid(wv.skip(i as int)),
        decreases ws.len() - i,
    {
        let ghost rest = wv.skip(i as int);
        assert(rest[0] == ws@[i as int]@);
        assert(rest.drop_first() =~= wv.skip(i + 1));
        match guid_of_word_exec(ws[i].as_slice()) {
            Some(g) => {
                return Some(crate::text::string_from(g.as_slice()));
            },
            None => {},
        }
        i = i + 1;
    }
    None
}

/// The version a `Version x.y.z[-build]` line states.
pub open spec fn adb_version_of_line(line: Seq<char>) -> Option<(u64, u64, u64)> {
    if !starts_with(line, "Version "@) {
        None
    } else {
        let ws = words(line.skip(8));
        if ws.len() == 0 {
            None
        } else {
            let v = before_char(ws[0], '-');
            match after_char(v, '.') {
                None => None,
                Some(r1) => match after_char(r1, '.') {
                    None => None,
                    Some(r2) => match (
                        parse_uint(before_char(v, '.'), u64::MAX as nat),
                        parse_uint(before_char(r1, '.'), u64::MAX as nat),
                        parse_uint(before_char(r2, '.'), u64::MAX as nat),
                    ) {
                        (Some(a), Some(b), Some(c)) => Some((a as u64, b as u64, c as u64)),
                        _ => None,
                    },
                },
            }
        }
    }
}

pub open spec fn first_adb_version(ls: Seq<Seq<char>>) -> Option<(u64, u64, u64)>
    decreases ls.len(),
{
    if ls.len() == 0 {
        None
    } else {
        match adb_version_of_line(ls[0]) {
            Some(v) => Some(v),
            None => first_adb_version(ls.drop_first()),
        }
    }
}

fn adb_version_of_line_exec(line: &[char]) -> (r: Option<(u64, u64, u64)>)
    ensures
        r == adb_version_of_line(line@),
{
    proof {
        reveal_strlit("Version ");
    }
    if !starts_with_str(line, "Version ") {
        return None;
    }
    let rest = slice_of(line, 8, line.len());
    assert(rest@ =~= line@.skip(8));
    let ws = words_of(rest.as_slice());
    if ws.len() == 0 {
        return None;
    }
    assert(views(ws@)[0] == ws@[0]@);
    let (v, _) = split_once_char(ws[0].as_slice(), '-');
    let (p1, r1) = split_once_char(v.as_slice(), '.');
    let r1 = match r1 {
        Some(x) => x,
        None => {
            return None;
        },
    };
    let (p2, r2) = split_once_char(r1.as_slice(), '.');
    let r2 = match r2 {
        Some(x) => x,
        None => {
            return None;
        },
    };
    let (p3, _) = split_once_char(r2.as_slice(), '.');
    let a = parse_uint_exec(p1.as_slice(), u64::MAX);
    let b = parse_uint_exec(p2.as_slice(), u64::MAX);
    let c = parse_uint_exec(p3.as_slice(), u64::MAX);
    match (a, b, c) {
        (Some(a), Some(b), Some(c)) => Some((a, b, c)),
        _ => None,
    }
}

/// The adb client version from `adb version` output: the first line of the
/// form `Version x.y.z`, a build suffix after `-` ignored.
pub fn parse_adb_version(output: &str) -> (r: Option<(u64, u64, u64)>)
    ensures
        r == first_adb_version(lines(output@)),
{
    let cs = chars_of(output);
    let ls = lines_of(cs.as_slice());
    let ghost lv = views(ls@);
    let mut i: usize = 0;
    assert(lv.skip(0) =~= lv);
    while i < ls.len()
        invariant
            i <= ls.len(),
            lv == views(ls@),
            lv == lines(output@),
            first_adb_version(lv) == first_adb_version(lv.skip(i as int)),
        decreases ls.len() - i,
    {
        let ghost rest = lv.skip(i as int);
        assert(rest[0] == ls@[i as int]@);
        assert(rest.drop_first() =~= lv.skip(i + 1));
        match adb_version_of_line_exec(ls[i].as_slice()) {
            Some(v) => {
                return Some(v);
            },
            None => {},
        }
        i = i + 1;
    }
    None
}

/// Lexicographic order on version triples.
pub open spec fn version_lt(a: (u64, u64, u64), b: (u64, u64, u64)) -> bool {
    a.0 < b.0 || (a.0 == b.0 && (a.1 < b.1 || (a.1 == b.1 && a.2 < b.2)))
}

fn version_less(a: (u64, u64, u64), b: (u64, u64, u64)) -> (r: bool)
    ensures
        r == version_lt(a, b),
{
    a.0 < b.0 || (a.0 == b.0 && (a.1 < b.1 || (a.1 == b.1 && a.2 < b.2)))
}

/// The adb version, which must be at least 30.0.0 for wireless pairing.
pub fn require_supported_adb(output: &str) -> (r: Result<(u64, u64, u64), WirelessError>)
    ensures
        match first_adb_version(lines(output@)) {
            None => r matches Err(e) && e@ == WirelessErrorView::InvalidAdbVersion,
            Some(v) => if version_lt(v, (30, 0, 0)) {
                r matches Err(e) && e@ == WirelessErrorView::AdbTooOld(v)
            } else {
                r == Ok::<(u64, u64, u64), WirelessError>(v)
            },
        },
{
    let version = match parse_adb_version(output) {
        Some(v) => v,
        None => {
            return Err(WirelessError::InvalidAdbVersion);
        },
    };
    if version_less(version, (30, 0, 0)) {
        return Err(WirelessError::AdbTooOld(version));
    }
    Ok(version)
}


// ---------------------------------------------------------------------------
// Devices seen twice
// ---------------------------------------------------------------------------

pub open spec fn pair_views(v: Seq<(String, String)>) -> Seq<(Seq<char>, Seq<char>)> {
    v.map_values(|p: (String, String)| (p.0@, p.1@))
}

/// Whether the identity pairs say that serials `a` and `b` are one device.
pub open spec fn linked(pairs: Seq<(Seq<char>, Seq<char>)>, a: Seq<char>, b: Seq<char>) -> bool {
    exists|k: int|
        0 <= k < pairs.len() && ((#[trigger] pairs[k].0 == a && pairs[k].1 == b) || (pairs[k].0 == b
            && pairs[k].1 == a))
}

pub open spec fn linked_to(pairs: Seq<(Seq<char>, Seq<char>)>, serial: Seq<char>) -> spec_fn(
    DeviceView,
) -> bool {
    |e: DeviceView| linked(pairs, e.serial, serial)
}

/// Adding one device to the deduplicated list: a device linked to one
/// already listed replaces it only when its serial has the GUID form
/// (`adb-…`) and the listed one's does not; an unlinked device is appended.
pub open spec fn dedupe_step(
    result: Seq<DeviceView>,
    d: DeviceView,
    pairs: Seq<(Seq<char>, Seq<char>)>,
) -> Seq<DeviceView> {
    match first_index(result, linked_to(pairs, d.serial)) {
        Some(i) => if starts_with(d.serial, "adb-"@) && !starts_with(result[i].serial, "adb-"@) {
            result.update(i, d)
        } else {
            result
        },
        None => result.push(d),
    }
}

pub open spec fn dedupe_spec(ds: Seq<DeviceView>, pairs: Seq<(Seq<char>, Seq<char>)>) -> Seq<
    DeviceView,
>
    decreases ds.len(),
{
    if ds.len() == 0 {
        Seq::empty()
    } else {
        dedupe_step(dedupe_spec(ds.drop_last(), pairs), ds.last(), pairs)
    }
}

fn is_linked(pairs: &[(String, String)], a: &str, b: &str) -> (r: bool)
    ensures
        r == linked(pair_views(pairs@), a@, b@),
{
    let ghost pv = pair_views(pairs@);
    let av = chars_of(a);
    let bv = chars_of(b);
    let mut k: usize = 0;
    while k < pairs.len()
        invariant
            k <= pairs.len(),
            pv == pair_views(pairs@),
            av@ == a@,
            bv@ == b@,
            forall|j: int|
                0 <= j < k ==> !((#[trigger] pv[j].0 == a@ && pv[j].1 == b@) || (pv[j].0 == b@
                    && pv[j].1 == a@)),
        decreases pairs.len() - k,
    {
        assert(pv[k as int] == (pairs@[k as int].0@, pairs@[k as int].1@));
        let left = chars_of(pairs[k].0.as_str());
        let right = chars_of(pairs[k].1.as_str());
        let ab = crate::text::seq_eq(left.as_slice(), av.as_slice()) && crate::text::seq_eq(
            right.as_slice(),
            bv.as_slice(),
        );
        let ba = crate::text::seq_eq(left.as_slice(), bv.as_slice()) && crate::text::seq_eq(
            right.as_slice(),
            av.as_slice(),
        );
        if ab || ba {
            assert((pv[k as int].0 == a@ && pv[k as int].1 == b@) || (pv[k as int].0 == b@
                && pv[k as int].1 == a@));
            return true;
        }
        k = k + 1;
    }
    false
}

fn first_linked(result: &Vec<Device>, pairs: &[(String, String)], serial: &str) -> (r: Option<
    usize,
>)
    ensures
        match r {
            Some(k) => k < result@.len() && first_index(
                device_views(result@),
                linked_to(pair_views(pairs@), serial@),
            ) == Some(k as int),
            None => first_index(
                device_views(result@),
                linked_to(pair_views(pairs@), serial@),
            ) is None,
        },
{
    let ghost rv = device_views(result@);
    let ghost p = linked_to(pair_views(pairs@), serial@);
    let mut i: usize = 0;
    while i < result.len()
        invariant
            i <= result.len(),
            rv == device_views(result@),
            p == linked_to(pair_views(pairs@), serial@),
            forall|j: int| 0 <= j < i ==> !p(#[trigger] rv[j]),
        decreases result.len() - i,
    {
        assert(rv[i as int] == result@[i as int]@);
        if is_linked(pairs, result[i].serial.as_str(), serial) {
            proof {
                lemma_first_index_is(rv, p, i as int);
            }
            return Some(i);
        }
        i = i + 1;
    }
    proof {
        lemma_first_index_none(rv, p);
    }
    None
}

/// The devices with those that the identity pairs link shown once; a linked
/// pair keeps the GUID-form serial. Devices that no pair links (their identity
/// unknown) are never merged.
pub fn deduplicate_devices(devices: &[Device], serials: &[(String, String)]) -> (r: Vec<Device>)
    ensures
        device_views(r@) == dedupe_spec(device_views(devices@), pair_views(serials@)),
{
    let ghost dv = device_views(devices@);
    let ghost pv = pair_views(serials@);
    let mut result: Vec<Device> = Vec::new();
    let mut i: usize = 0;
    while i < devices.len()
        invariant
            i <= devices.len(),
            dv == device_views(devices@),
            pv == pair_views(serials@),
            device_views(result@) == dedupe_spec(dv.take(i as int), pv),
        decreases devices.len() - i,
    {
        assert(dv.take(i + 1).drop_last() =~= dv.take(i as int));
        assert(dv.take(i + 1).last() == devices@[i as int]@);
        let ghost before = device_views(result@);
        let d = &devices[i];
        match first_linked(&result, serials, d.serial.as_str()) {
            Some(k) => {
                assert(before[k as int] == result@[k as int]@);
                let guid_form = chars_of(d.serial.as_str());
                let listed = chars_of(result[k].serial.as_str());
                if starts_with_str(guid_form.as_slice(), "adb-") && !starts_with_str(
                    listed.as_slice(),
                    "adb-",
                ) {
                    let c = crate::adb_probe::copy_device(d);
                    result.set(k, c);
                    assert(device_views(result@) =~= before.update(k as int, d@));
                }
            },
            None => {
                let c = crate::adb_probe::copy_device(d);
                result.push(c);
                assert(device_views(result@) =~= before.push(d@));
            },
        }
        i = i + 1;
    }
    assert(dv.take(i as int) =~= dv);
    result
}

/// Whether some identity pair names `serial`.
pub open spec fn mentioned(pairs: Seq<(Seq<char>, Seq<char>)>, serial: Seq<char>) -> bool {
    exists|k: int| 0 <= k < pairs.len() && (#[trigger] pairs[k].0 == serial || pairs[k].1 == serial)
}

proof fn lemma_step_keeps(result: Seq<DeviceView>, d: DeviceView, pairs: Seq<(Seq<char>, Seq<char>)>, x: DeviceView)
    requires
        result.contains(x),
        !mentioned(pairs, x.serial),
    ensures
        dedupe_step(result, d, pairs).contains(x),
{
    let j = choose|j: int| 0 <= j < result.len() && result[j] == x;
    let p = linked_to(pairs, d.serial);
    crate::text::lemma_first_index(result, p);
    match first_index(result, p) {
        Some(i) => {
            if i == j {
                assert(p(result[i]));
                let k = choose|k: int|
                    0 <= k < pairs.len() && ((#[trigger] pairs[k].0 == result[i].serial
                        && pairs[k].1 == d.serial) || (pairs[k].0 == d.serial && pairs[k].1
                        == result[i].serial));
                assert(pairs[k].0 == x.serial || pairs[k].1 == x.serial);
                assert(false);
            }
            if starts_with(d.serial, "adb-"@) && !starts_with(result[i].serial, "adb-"@) {
                assert(result.update(i, d)[j] == x);
            }
        },
        None => {
            assert(result.push(d)[j] == x);
        },
    }
}

proof fn lemma_step_adds(result: Seq<DeviceView>, d: DeviceView, pairs: Seq<(Seq<char>, Seq<char>)>)
    requires
        !mentioned(pairs, d.serial),
    ensures
        dedupe_step(result, d, pairs).contains(d),
{
    let p = linked_to(pairs, d.serial);
    crate::text::lemma_first_index(result, p);
    match first_index(result, p) {
        Some(i) => {
            assert(p(result[i]));
            let k = choose|k: int|
                0 <= k < pairs.len() && ((#[trigger] pairs[k].0 == result[i].serial && pairs[k].1
                    == d.serial) || (pairs[k].0 == d.serial && pairs[k].1 == result[i].serial));
            assert(pairs[k].0 == d.serial || pairs[k].1 == d.serial);
            assert(false);
        },
        None => {
            assert(result.push(d)[result.len() as int] == d);
        },
    }
}

/// A device whose serial no identity pair names (its identity unknown) is
/// always listed after deduplication.
pub proof fn law_unnamed_devices_are_kept(ds: Seq<DeviceView>, pairs: Seq<(Seq<char>, Seq<char>)>, i: int)
    requires
        0 <= i < ds.len(),
        !mentioned(pairs, ds[i].serial),
    ensures
        dedupe_spec(ds, pairs).contains(ds[i]),
    decreases ds.len(),
{
    let rest = ds.drop_last();
    if i == ds.len() - 1 {
        lemma_step_adds(dedupe_spec(rest, pairs), ds.last(), pairs);
    } else {
        assert(rest[i] == ds[i]);
        law_unnamed_devices_are_kept(rest, pairs, i);
        lemma_step_keeps(dedupe_spec(rest, pairs), ds.last(), pairs, ds[i]);
    }
}

/// Deduplication only drops devices: every device listed is one of the
/// input devices, and the list is no longer than the input.
pub proof fn law_dedupe_lists_only_input_devices(ds: Seq<DeviceView>, pairs: Seq<(Seq<char>, Seq<char>)>)
    ensures
        dedupe_spec(ds, pairs).len() <= ds.len(),
        forall|j: int|
            0 <= j < dedupe_spec(ds, pairs).len() ==> ds.contains(#[trigger] dedupe_spec(ds, pairs)[j]),
    decreases ds.len(),
{
    if ds.len() > 0 {
        let rest = ds.drop_last();
        law_dedupe_lists_only_input_devices(rest, pairs);
        let r = dedupe_spec(rest, pairs);
        let d = ds.last();
        let p = linked_to(pairs, d.serial);
        crate::text::lemma_first_index(r, p);
        let out = dedupe_step(r, d, pairs);
        assert forall|j: int| 0 <= j < out.len() implies ds.contains(#[trigger] out[j]) by {
            if out[j] == d {
                assert(ds[ds.len() - 1] == d);
            } else {
                assert(j < r.len());
                assert(out[j] == r[j]);
                let k = choose|k: int| 0 <= k < rest.len() && rest[k] == r[j];
                assert(ds[k] == rest[k]);
            }
        }
    }
}

/// Whether some device of `ds` has the serial `serial`.
pub open spec fn lists_serial(ds: Seq<DeviceView>, serial: Seq<char>) -> bool {
    exists|i: int| 0 <= i < ds.len() && #[trigger] ds[i].serial == serial
}

/// Where no identity pair names two serials that are both listed, nothing is
/// merged: deduplication gives the devices back as they came, in order (so
/// in particular with no pairs at all).
pub proof fn law_unlinked_devices_stay_apart(ds: Seq<DeviceView>, pairs: Seq<(Seq<char>, Seq<char>)>)
    requires
        forall|k: int|
            0 <= k < pairs.len() ==> !(lists_serial(ds, #[trigger] pairs[k].0) && lists_serial(
                ds,
                pairs[k].1,
            )),
    ensures
        dedupe_spec(ds, pairs) == ds,
    decreases ds.len(),
{
    if ds.len() > 0 {
        let rest = ds.drop_last();
        let d = ds.last();
        assert forall|k: int|
            0 <= k < pairs.len() implies !(lists_serial(rest, #[trigger] pairs[k].0)
            && lists_serial(rest, pairs[k].1)) by {
            if lists_serial(rest, pairs[k].0) && lists_serial(rest, pairs[k].1) {
                let a = choose|i: int| 0 <= i < rest.len() && #[trigger] rest[i].serial == pairs[k].0;
                let b = choose|i: int| 0 <= i < rest.len() && #[trigger] rest[i].serial == pairs[k].1;
                assert(ds[a].serial == pairs[k].0);
                assert(ds[b].serial == pairs[k].1);
            }
        }
        law_unlinked_devices_stay_apart(rest, pairs);
        let r = dedupe_spec(rest, pairs);
        let p = linked_to(pairs, d.serial);
        assert forall|j: int| 0 <= j < r.len() implies !p(#[trigger] r[j]) by {
            if p(r[j]) {
                let k = choose|k: int|
                    0 <= k < pairs.len() && ((#[trigger] pairs[k].0 == r[j].serial && pairs[k].1
                        == d.serial) || (pairs[k].0 == d.serial && pairs[k].1 == r[j].serial));
                assert(ds[j].serial == r[j].serial);
                assert(ds[ds.len() - 1].serial == d.serial);
                assert(lists_serial(ds, pairs[k].0) && lists_serial(ds, pairs[k].1));
            }
        }
        lemma_first_index_none(r, p);
        assert(rest.push(d) =~= ds);
    }
}

/// Whether a device is linked, by the identity pairs, to serial `gs` or `os`.
pub open spec fn touches(pairs: Seq<(Seq<char>, Seq<char>)>, gs: Seq<char>, os: Seq<char>, x: DeviceView) -> bool {
    linked(pairs, x.serial, gs) || linked(pairs, x.serial, os)
}

/// At most one entry of `r` touches `gs` or `os`, and every one that does is `e`.
pub open spec fn only_touching(r: Seq<DeviceView>, pairs: Seq<(Seq<char>, Seq<char>)>, gs: Seq<char>, os: Seq<char>, e: DeviceView) -> bool {
    &&& forall|p: int| 0 <= p < r.len() && touches(pairs, gs, os, #[trigger] r[p]) ==> r[p] == e
    &&& forall|p: int, q: int|
        0 <= p < r.len() && 0 <= q < r.len() && touches(pairs, gs, os, #[trigger] r[p]) && touches(
            pairs,
            gs,
            os,
            #[trigger] r[q],
        ) ==> p == q
    &&& r.contains(e)
}

pub open spec fn none_touching(r: Seq<DeviceView>, pairs: Seq<(Seq<char>, Seq<char>)>, gs: Seq<char>, os: Seq<char>) -> bool {
    forall|p: int| 0 <= p < r.len() ==> !touches(pairs, gs, os, #[trigger] r[p])
}

proof fn lemma_linked_symmetric(pairs: Seq<(Seq<char>, Seq<char>)>, a: Seq<char>, b: Seq<char>)
    ensures
        linked(pairs, a, b) == linked(pairs, b, a),
{
    if linked(pairs, a, b) {
        let k = choose|k: int|
            0 <= k < pairs.len() && ((#[trigger] pairs[k].0 == a && pairs[k].1 == b) || (pairs[k].0
                == b && pairs[k].1 == a));
        assert(pairs[k].0 == b && pairs[k].1 == a || pairs[k].0 == a && pairs[k].1 == b);
    }
    if linked(pairs, b, a) {
        let k = choose|k: int|
            0 <= k < pairs.len() && ((#[trigger] pairs[k].0 == b && pairs[k].1 == a) || (pairs[k].0
                == a && pairs[k].1 == b));
        assert(pairs[k].0 == b && pairs[k].1 == a || pairs[k].0 == a && pairs[k].1 == b);
    }
}

/// A device linked to neither serial leaves the touching entries where and
/// as they are.
proof fn lemma_other_step(r: Seq<DeviceView>, d: DeviceView, pairs: Seq<(Seq<char>, Seq<char>)>, gs: Seq<char>, os: Seq<char>)
    requires
        !linked(pairs, d.serial, gs),
        !linked(pairs, d.serial, os),
        forall|p: int|
            0 <= p < r.len() && touches(pairs, gs, os, #[trigger] r[p]) ==> r[p].serial == gs
                || r[p].serial == os,
    ensures
        dedupe_step(r, d, pairs).len() >= r.len(),
        forall|p: int|
            0 <= p < r.len() && touches(pairs, gs, os, #[trigger] r[p]) ==> dedupe_step(r, d, pairs)[p] == r[p],
        forall|p: int|
            0 <= p < dedupe_step(r, d, pairs).len() && touches(pairs, gs, os, #[trigger] dedupe_step(r, d, pairs)[p])
                ==> p < r.len() && dedupe_step(r, d, pairs)[p] == r[p],
{
    let lp = linked_to(pairs, d.serial);
    crate::text::lemma_first_index(r, lp);
    lemma_linked_symmetric(pairs, d.serial, gs);
    lemma_linked_symmetric(pairs, d.serial, os);
    match first_index(r, lp) {
        Some(q) => {
            assert(lp(r[q]));
            assert(linked(pairs, r[q].serial, d.serial));
            if touches(pairs, gs, os, r[q]) {
                if r[q].serial == gs {
                    assert(linked(pairs, gs, d.serial));
                } else {
                    assert(linked(pairs, os, d.serial));
                }
            }
            assert(!touches(pairs, gs, os, d));
        },
        None => {
            assert(!touches(pairs, gs, os, d));
            assert forall|p: int|
                0 <= p < r.push(d).len() && touches(pairs, gs, os, #[trigger] r.push(d)[p])
                    implies p < r.len() && r.push(d)[p] == r[p] by {
                if p == r.len() {
                    assert(r.push(d)[p] == d);
                }
            }
        },
    }
}

/// The first of the two linked devices to arrive is appended.
proof fn lemma_first_arrival(r: Seq<DeviceView>, d: DeviceView, pairs: Seq<(Seq<char>, Seq<char>)>, gs: Seq<char>, os: Seq<char>)
    requires
        none_touching(r, pairs, gs, os),
        d.serial == gs || d.serial == os,
    ensures
        dedupe_step(r, d, pairs) == r.push(d),
{
    let lp = linked_to(pairs, d.serial);
    assert forall|p: int| 0 <= p < r.len() implies !lp(#[trigger] r[p]) by {
        assert(!touches(pairs, gs, os, r[p]));
    }
    crate::text::lemma_first_index_none(r, lp);
}

/// The second of the two linked devices finds the first: it replaces it
/// only when it has the GUID form and the first does not.
proof fn lemma_second_arrival(r: Seq<DeviceView>, d: DeviceView, pairs: Seq<(Seq<char>, Seq<char>)>, gs: Seq<char>, os: Seq<char>, e: DeviceView, q: int)
    requires
        only_touching(r, pairs, gs, os, e),
        0 <= q < r.len(),
        r[q] == e,
        linked(pairs, gs, os),
        (d.serial == gs && e.serial == os) || (d.serial == os && e.serial == gs),
    ensures
        dedupe_step(r, d, pairs) == if starts_with(d.serial, "adb-"@) && !starts_with(e.serial, "adb-"@) {
            r.update(q, d)
        } else {
            r
        },
{
    let lp = linked_to(pairs, d.serial);
    lemma_linked_symmetric(pairs, gs, os);
    assert(lp(r[q]));
    assert forall|p: int| 0 <= p < q implies !lp(#[trigger] r[p]) by {
        if lp(r[p]) {
            lemma_linked_symmetric(pairs, r[p].serial, d.serial);
            assert(touches(pairs, gs, os, r[p]));
            assert(touches(pairs, gs, os, r[q]));
        }
    }
    crate::text::lemma_first_index_is(r, lp, q);
}

pub open spec fn guid_pair_stage(ds: Seq<DeviceView>, pairs: Seq<(Seq<char>, Seq<char>)>, gi: int, oi: int, n: int) -> bool {
    let gs = ds[gi].serial;
    let os = ds[oi].serial;
    let a = if gi < oi { gi } else { oi };
    let b = if gi < oi { oi } else { gi };
    let r = dedupe_spec(ds.take(n), pairs);
    &&& n <= a ==> none_touching(r, pairs, gs, os)
    &&& a < n <= b ==> only_touching(r, pairs, gs, os, ds[a])
    &&& b < n ==> only_touching(r, pairs, gs, os, ds[gi])
}

proof fn lemma_guid_pair_stage(ds: Seq<DeviceView>, pairs: Seq<(Seq<char>, Seq<char>)>, gi: int, oi: int, n: int)
    requires
        0 <= gi < ds.len(),
        0 <= oi < ds.len(),
        gi != oi,
        starts_with(ds[gi].serial, "adb-"@),
        !starts_with(ds[oi].serial, "adb-"@),
        linked(pairs, ds[gi].serial, ds[oi].serial),
        forall|k: int|
            0 <= k < ds.len() && k != gi && k != oi ==> !linked(pairs, (#[trigger] ds[k]).serial, ds[gi].serial)
                && !linked(pairs, ds[k].serial, ds[oi].serial),
        0 <= n <= ds.len(),
    ensures
        guid_pair_stage(ds, pairs, gi, oi, n),
    decreases n,
{
    let gs = ds[gi].serial;
    let os = ds[oi].serial;
    let a = if gi < oi { gi } else { oi };
    let b = if gi < oi { oi } else { gi };
    lemma_linked_symmetric(pairs, gs, os);
    assert(touches(pairs, gs, os, ds[gi]));
    assert(touches(pairs, gs, os, ds[oi]));
    if n == 0 {
        assert(ds.take(0) =~= Seq::<DeviceView>::empty());
        return;
    }
    let m = n - 1;
    lemma_guid_pair_stage(ds, pairs, gi, oi, m);
    let r = dedupe_spec(ds.take(m), pairs);
    let d = ds[m];
    assert(ds.take(n).drop_last() =~= ds.take(m));
    assert(ds.take(n).last() == d);
    let out = dedupe_step(r, d, pairs);
    assert(dedupe_spec(ds.take(n), pairs) == out);
    if m != gi && m != oi {
        let e = if m < a { ds[a] } else if m < b { ds[a] } else { ds[gi] };
        if a < m {
            assert(only_touching(r, pairs, gs, os, e));
        }
        lemma_other_step(r, d, pairs, gs, os);
        if n <= a {
            assert forall|p: int| 0 <= p < out.len() implies !touches(pairs, gs, os, #[trigger] out[p]) by {
                if touches(pairs, gs, os, out[p]) {
                    assert(out[p] == r[p]);
                }
            }
        } else {
            assert(a < m);
            let p0 = choose|p: int| 0 <= p < r.len() && r[p] == e;
            assert(touches(pairs, gs, os, r[p0]));
            assert(out[p0] == e);
            assert forall|p: int| 0 <= p < out.len() && touches(pairs, gs, os, #[trigger] out[p]) implies out[p] == e by {
                assert(out[p] == r[p]);
            }
            assert forall|p: int, q: int|
                0 <= p < out.len() && 0 <= q < out.len() && touches(pairs, gs, os, #[trigger] out[p])
                    && touches(pairs, gs, os, #[trigger] out[q]) implies p == q by {
                assert(out[p] == r[p]);
                assert(out[q] == r[q]);
            }
            assert(out.contains(e));
        }
    } else if m == a {
        lemma_first_arrival(r, d, pairs, gs, os);
        assert(out == r.push(d));
        assert forall|p: int| 0 <= p < out.len() && touches(pairs, gs, os, #[trigger] out[p]) implies out[p] == ds[a] by {
            if p < r.len() {
                assert(out[p] == r[p]);
            }
        }
        assert forall|p: int, q: int|
            0 <= p < out.len() && 0 <= q < out.len() && touches(pairs, gs, os, #[trigger] out[p])
                && touches(pairs, gs, os, #[trigger] out[q]) implies p == q by {
            if p < r.len() {
                assert(out[p] == r[p]);
            }
            if q < r.len() {
                assert(out[q] == r[q]);
            }
        }
        assert(out[r.len() as int] == ds[a]);
    } else {
        assert(m == b);
        let e = ds[a];
        assert(only_touching(r, pairs, gs, os, e));
        let q = choose|q: int| 0 <= q < r.len() && r[q] == e;
        lemma_second_arrival(r, d, pairs, gs, os, e, q);
        if gi == b {
            assert(out == r.update(q, d));
            assert(touches(pairs, gs, os, r[q]));
            assert forall|p: int| 0 <= p < out.len() && touches(pairs, gs, os, #[trigger] out[p]) implies p == q by {
                if p != q {
                    assert(out[p] == r[p]);
                }
            }
            assert forall|p: int, p2: int|
                0 <= p < out.len() && 0 <= p2 < out.len() && touches(pairs, gs, os, #[trigger] out[p])
                    && touches(pairs, gs, os, #[trigger] out[p2]) implies p == p2 by {
                if p != q {
                    assert(out[p] == r[p]);
                }
                if p2 != q {
                    assert(out[p2] == r[p2]);
                }
            }
            assert(out[q] == ds[gi]);
        } else {
            assert(out == r);
        }
    }
}

/// Two listed devices that an identity pair links, of which exactly one has
/// the GUID-form serial (`adb-…`), are shown once, as the GUID-form device,
/// whichever of them is listed first. (The other listed devices are linked
/// to neither.)
pub proof fn law_linked_pair_keeps_the_guid_serial(ds: Seq<DeviceView>, pairs: Seq<(Seq<char>, Seq<char>)>, gi: int, oi: int)
    requires
        0 <= gi < ds.len(),
        0 <= oi < ds.len(),
        gi != oi,
        starts_with(ds[gi].serial, "adb-"@),
        !starts_with(ds[oi].serial, "adb-"@),
        linked(pairs, ds[gi].serial, ds[oi].serial),
        forall|k: int|
            0 <= k < ds.len() && k != gi && k != oi ==> !linked(pairs, (#[trigger] ds[k]).serial, ds[gi].serial)
                && !linked(pairs, ds[k].serial, ds[oi].serial),
    ensures
        dedupe_spec(ds, pairs).contains(ds[gi]),
        !dedupe_spec(ds, pairs).contains(ds[oi]),
{
    lemma_guid_pair_stage(ds, pairs, gi, oi, ds.len() as int);
    assert(ds.take(ds.len() as int) =~= ds);
    let r = dedupe_spec(ds, pairs);
    let gs = ds[gi].serial;
    let os = ds[oi].serial;
    lemma_linked_symmetric(pairs, gs, os);
    assert(touches(pairs, gs, os, ds[oi]));
    if r.contains(ds[oi]) {
        let p = choose|p: int| 0 <= p < r.len() && r[p] == ds[oi];
        assert(touches(pairs, gs, os, r[p]));
        assert(ds[oi] == ds[gi]);
    }
}

pub open spec fn read_views(v: Seq<(String, Option<String>)>) -> Seq<(Seq<char>, Option<Seq<char>>)> {
    v.map_values(|p: (String, Option<String>)| (p.0@, opt_string_view(p.1)))
}

/// Pairs of `serial` with each of the first `m` entries of `rest` whose
/// identity reads `id`.
pub open spec fn same_identity(
    serial: Seq<char>,
    id: Seq<char>,
    rest: Seq<(Seq<char>, Option<Seq<char>>)>,
    m: int,
) -> Seq<(Seq<char>, Seq<char>)>
    decreases m,
{
    if m <= 0 || m > rest.len() {
        Seq::empty()
    } else {
        same_identity(serial, id, rest, m - 1) + if rest[m - 1].1 == Some(id) {
            seq![(serial, rest[m - 1].0)]
        } else {
            Seq::<(Seq<char>, Seq<char>)>::empty()
        }
    }
}

/// The pairs that the entry at `i` contributes: its serial with every later
/// serial whose identity reads the same. An unknown identity links nothing.
pub open spec fn own_pairs(read: Seq<(Seq<char>, Option<Seq<char>>)>, i: int) -> Seq<
    (Seq<char>, Seq<char>),
> {
    match read[i].1 {
        None => Seq::empty(),
        Some(id) => same_identity(
            read[i].0,
            id,
            read.skip(i + 1),
            read.len() - (i + 1),
        ),
    }
}

/// The identity pairs of the first `n` entries.
pub open spec fn identity_pairs_upto(read: Seq<(Seq<char>, Option<Seq<char>>)>, n: int) -> Seq<
    (Seq<char>, Seq<char>),
>
    decreases n,
{
    if n <= 0 || n > read.len() {
        Seq::empty()
    } else {
        identity_pairs_upto(read, n - 1) + own_pairs(read, n - 1)
    }
}

fn opt_eq(a: &Option<String>, b: &str) -> (r: bool)
    ensures
        r == (opt_string_view(*a) == Some(b@)),
{
    match a {
        None => false,
        Some(x) => {
            let xv = chars_of(x.as_str());
            let bv = chars_of(b);
            crate::text::seq_eq(xv.as_slice(), bv.as_slice())
        },
    }
}

/// Pairs of serials whose identities (read from each device once) are the
/// same. A serial whose identity could not be read links to nothing.
pub fn identity_pairs(read: &[(String, Option<String>)]) -> (r: Vec<(String, String)>)
    ensures
        pair_views(r@) == identity_pairs_upto(read_views(read@), read@.len() as int),
{
    let ghost rv = read_views(read@);
    let mut out: Vec<(String, String)> = Vec::new();
    let mut i: usize = 0;
    while i < read.len()
        invariant
            i <= read.len(),
            rv == read_views(read@),
            pair_views(out@) == identity_pairs_upto(rv, i as int),
        decreases read.len() - i,
    {
        assert(rv[i as int] == (read@[i as int].0@, opt_string_view(read@[i as int].1)));
        let ghost before = pair_views(out@);
        match &read[i].1 {
            None => {},
            Some(id) => {
                let ghost rest = rv.skip(i + 1);
                let mut j: usize = i + 1;
                while j < read.len()
                    invariant
                        i < read.len(),
                        i + 1 <= j <= read.len(),
                        rv == read_views(read@),
                        rest == rv.skip(i + 1),
                        rv[i as int].1 == Some(id@),
                        pair_views(out@) == before + same_identity(
                            rv[i as int].0,
                            id@,
                            rest,
                            j - (i + 1),
                        ),
                    decreases read.len() - j,
                {
                    assert(rest[j - (i + 1)] == rv[j as int]);
                    assert(rv[j as int] == (read@[j as int].0@, opt_string_view(read@[j as int].1)));
                    if opt_eq(&read[j].1, id.as_str()) {
                        let item = (read[i].0.clone(), read[j].0.clone());
                        let ghost mid = pair_views(out@);
                        out.push(item);
                        assert(pair_views(out@) =~= mid.push((item.0@, item.1@)));
                    }
                    assert(pair_views(out@) =~= before + same_identity(
                        rv[i as int].0,
                        id@,
                        rest,
                        j + 1 - (i + 1),
                    ));
                    j = j + 1;
                }
            },
        }
        assert(pair_views(out@) =~= identity_pairs_upto(rv, i + 1));
        i = i + 1;
    }
    out
}


// ---------------------------------------------------------------------------
// Diagnostics without the password
// ---------------------------------------------------------------------------

/// `str::replace`: every occurrence of `pat`, found left to right without
/// overlapping, replaced by `with`.
pub open spec fn replace_all(s: Seq<char>, pat: Seq<char>, with: Seq<char>) -> Seq<char>
    decreases s.len(),
{
    if pat.len() == 0 || s.len() < pat.len() {
        s
    } else if s.take(pat.len() as int) == pat {
        with + replace_all(s.skip(pat.len() as int), pat, with)
    } else {
        seq![s[0]] + replace_all(s.drop_first(), pat, with)
    }
}

/// Characters of a stderr summary.
pub const SUMMARY_LIMIT: usize = 512;

/// The stderr of a pair process as shown to the user: trimmed, the password
/// replaced by `[redacted]` (before truncation, so that a password across the
/// cut cannot leave half of itself behind), then cut to 512 characters.
pub open spec fn summary_spec(stderr: Seq<char>, secret: Seq<char>) -> Seq<char> {
    let t = trim(stderr);
    let red = if secret.len() > 0 {
        replace_all(t, secret, "[redacted]"@)
    } else {
        t
    };
    if red.len() > 512 {
        red.take(512)
    } else {
        red
    }
}

fn replace_all_exec(s: &[char], pat: &[char], with: &str) -> (r: Vec<char>)
    requires
        pat@.len() > 0,
    ensures
        r@ == replace_all(s@, pat@, with@),
{
    let w = chars_of(with);
    let mut out: Vec<char> = Vec::new();
    let mut i: usize = 0;
    assert(s@.skip(0) =~= s@);
    while i < s.len()
        invariant
            i <= s.len(),
            pat@.len() > 0,
            w@ == with@,
            out@ + replace_all(s@.skip(i as int), pat@, with@) == replace_all(s@, pat@, with@),
        decreases s.len() - i,
    {
        let ghost rest = s@.skip(i as int);
        if pat.len() > s.len() - i {
            let tail = slice_of(s, i, s.len());
            assert(tail@ =~= rest);
            let ghost before = out@;
            let mut k: usize = 0;
            while k < tail.len()
                invariant
                    k <= tail.len(),
                    out@ == before + tail@.take(k as int),
                decreases tail.len() - k,
            {
                out.push(tail[k]);
                assert(out@ =~= before + tail@.take(k + 1));
                k = k + 1;
            }
            assert(tail@.take(k as int) =~= tail@);
            return out;
        }
        if crate::text::occurs_at_exec(s, pat, i) {
            assert(rest.take(pat@.len() as int) =~= s@.subrange(i as int, i + pat@.len()));
            assert(rest.skip(pat@.len() as int) =~= s@.skip(i + pat@.len()));
            let ghost before = out@;
            let mut k: usize = 0;
            while k < w.len()
                invariant
                    k <= w.len(),
                    out@ == before + w@.take(k as int),
                decreases w.len() - k,
            {
                out.push(w[k]);
                assert(out@ =~= before + w@.take(k + 1));
                k = k + 1;
            }
            assert(w@.take(k as int) =~= w@);
            assert(out@ + replace_all(s@.skip(i + pat@.len()), pat@, with@) =~= before
                + replace_all(rest, pat@, with@));
            i = i + pat.len();
        } else {
            assert(rest.take(pat@.len() as int) =~= s@.subrange(i as int, i + pat@.len()));
            assert(rest.drop_first() =~= s@.skip(i + 1));
            let ghost before = out@;
            out.push(s[i]);
            assert(out@ + replace_all(s@.skip(i + 1), pat@, with@) =~= before + replace_all(
                rest,
                pat@,
                with@,
            ));
            i = i + 1;
        }
    }
    assert(s@.skip(i as int) =~= Seq::<char>::empty());
    assert(out@ + Seq::<char>::empty() =~= out@);
    out
}

fn stderr_summary(stderr: &str, secret: &str) -> (r: String)
    ensures
        r@ == summary_spec(stderr@, secret@),
{
    let t = trim_str(stderr);
    let red = if !secret.is_empty() {
        let pat = chars_of(secret);
        replace_all_exec(t.as_slice(), pat.as_slice(), "[redacted]")
    } else {
        t
    };
    if red.len() > SUMMARY_LIMIT {
        let cut = slice_of(red.as_slice(), 0, SUMMARY_LIMIT);
        assert(cut@ =~= red@.take(512));
        crate::text::string_from(cut.as_slice())
    } else {
        crate::text::string_from(red.as_slice())
    }
}

/// The diagnostic summary of a failed `adb pair`, with the password redacted.
pub fn pair_stderr_summary(stderr: &str, password: &str) -> (r: String)
    ensures
        r@ == summary_spec(stderr@, password@),
{
    stderr_summary(stderr, password)
}


/// Whether the replaced text's first `k` characters come straight from the
/// input: they hold no `[`, so no replacement has begun.
proof fn lemma_unreplaced_prefix(s: Seq<char>, pat: Seq<char>, k: int)
    requires
        pat.len() > 0,
        0 <= k <= replace_all(s, pat, "[redacted]"@).len(),
        forall|j: int| 0 <= j < k ==> replace_all(s, pat, "[redacted]"@)[j] != '[',
    ensures
        k <= s.len(),
        replace_all(s, pat, "[redacted]"@).take(k) == s.take(k),
        forall|j: int| 0 <= j < k ==> !occurs_at(s, pat, j),
    decreases s.len(),
{
    reveal_strlit("[redacted]");
    let r = replace_all(s, pat, "[redacted]"@);
    if s.len() < pat.len() {
        assert(r.take(k) =~= s.take(k));
    } else if s.take(pat.len() as int) == pat {
        if k > 0 {
            assert(r[0] == '[');
        }
        assert(r.take(k) =~= s.take(k));
    } else if k > 0 {
        let t = s.drop_first();
        let rt = replace_all(t, pat, "[redacted]"@);
        assert(r =~= seq![s[0]] + rt);
        assert forall|j: int| 0 <= j < k - 1 implies rt[j] != '[' by {
            assert(r[j + 1] == rt[j]);
        }
        lemma_unreplaced_prefix(t, pat, k - 1);
        assert(r.take(k) =~= s.take(k)) by {
            assert forall|j: int| 0 <= j < k implies r.take(k)[j] == s.take(k)[j] by {
                if j > 0 {
                    assert(rt.take(k - 1)[j - 1] == t.take(k - 1)[j - 1]);
                }
            }
        }
        assert forall|j: int| 0 <= j < k implies !occurs_at(s, pat, j) by {
            if j == 0 {
                assert(s.subrange(0, pat.len() as int) =~= s.take(pat.len() as int));
            } else {
                assert(!occurs_at(t, pat, j - 1));
                if occurs_at(s, pat, j) {
                    assert(t.subrange(j - 1, j - 1 + pat.len()) =~= s.subrange(j, j + pat.len()));
                }
            }
        }
    }
}

proof fn lemma_replaced_has_no_secret(s: Seq<char>, pat: Seq<char>)
    requires
        pat.len() > 8,
        all_alnum(pat),
    ensures
        !contains(replace_all(s, pat, "[redacted]"@), pat),
    decreases s.len(),
{
    reveal_strlit("[redacted]");
    let w = "[redacted]"@;
    let r = replace_all(s, pat, w);
    let l = pat.len() as int;
    if s.len() < pat.len() {
        assert forall|i: int| !occurs_at(r, pat, i) by {}
    } else if s.take(l) == pat {
        let t = s.skip(l);
        let rt = replace_all(t, pat, w);
        lemma_replaced_has_no_secret(t, pat);
        assert(r =~= w + rt);
        assert forall|i: int| !occurs_at(r, pat, i) by {
            if occurs_at(r, pat, i) {
                if i >= 10 {
                    assert(rt.subrange(i - 10, i - 10 + l) =~= r.subrange(i, i + l));
                    assert(occurs_at(rt, pat, i - 10));
                } else if i == 0 {
                    assert(r.subrange(i, i + l)[0] == '[');
                    assert(pat[0] == '[');
                    assert(is_ascii_alnum(pat[0]));
                } else {
                    assert(r.subrange(i, i + l)[9 - i] == ']');
                    assert(pat[9 - i] == ']');
                    assert(is_ascii_alnum(pat[9 - i]));
                }
            }
        }
    } else {
        let t = s.drop_first();
        let rt = replace_all(t, pat, w);
        lemma_replaced_has_no_secret(t, pat);
        assert(r =~= seq![s[0]] + rt);
        assert forall|i: int| !occurs_at(r, pat, i) by {
            if occurs_at(r, pat, i) {
                if i >= 1 {
                    assert(rt.subrange(i - 1, i - 1 + l) =~= r.subrange(i, i + l));
                    assert(occurs_at(rt, pat, i - 1));
                } else {
                    assert forall|j: int| 0 <= j < l - 1 implies rt[j] != '[' by {
                        assert(r.subrange(0, l)[j + 1] == rt[j]);
                        assert(is_ascii_alnum(pat[j + 1]));
                    }
                    lemma_unreplaced_prefix(t, pat, l - 1);
                    assert(s.take(l) =~= pat) by {
                        assert forall|j: int| 0 <= j < l implies s.take(l)[j] == pat[j] by {
                            assert(r.subrange(0, l)[j] == pat[j]);
                            if j > 0 {
                                assert(rt.take(l - 1)[j - 1] == t.take(l - 1)[j - 1]);
                            }
                        }
                    }
                }
            }
        }
    }
}

/// The summary never shows the password: for a password of more than eight
/// ASCII letters and digits (a generated password has twelve), no occurrence
/// survives, wherever it stood relative to the cut.
pub proof fn law_summary_never_shows_the_password(stderr: Seq<char>, password: Seq<char>)
    requires
        password.len() > 8,
        all_alnum(password),
    ensures
        !contains(summary_spec(stderr, password), password),
{
    let red = replace_all(trim(stderr), password, "[redacted]"@);
    lemma_replaced_has_no_secret(trim(stderr), password);
    if red.len() > 512 {
        let cut = red.take(512);
        assert forall|i: int| !occurs_at(cut, password, i) by {
            if occurs_at(cut, password, i) {
                assert(red.subrange(i, i + password.len()) =~= cut.subrange(
                    i,
                    i + password.len(),
                ));
                assert(occurs_at(red, password, i));
            }
        }
    }
}


// ---------------------------------------------------------------------------
// What each adb answer means
// ---------------------------------------------------------------------------

/// What a finished `adb pair` process produced.
#[derive(Debug)]
pub struct PairResult {
    pub status: i32,
    pub stdout: String,
    pub stderr: String,
}

/// The outcome of a finished `adb pair`: the paired GUID, or why not.
pub open spec fn pair_outcome_spec(status: i32, stdout: Seq<char>, stderr: Seq<char>, password: Seq<char>) -> Result<
    Seq<char>,
    WirelessErrorView,
> {
    if status != 0 {
        Err(WirelessErrorView::CommandFailed(summary_spec(stderr, password)))
    } else {
        match first_guid(words(stdout)) {
            Some(g) => Ok(g),
            None => Err(WirelessErrorView::PairOutputUnparseable),
        }
    }
}

/// What a finished `adb pair` means, by `pair_outcome_spec`.
pub fn pair_outcome(result: &PairResult, password: &str) -> (r: Result<String, WirelessError>)
    ensures
        match pair_outcome_spec(result.status, result.stdout@, result.stderr@, password@) {
            Ok(g) => r matches Ok(x) && x@ == g,
            Err(e) => r matches Err(x) && x@ == e,
        },
{
    if result.status != 0 {
        return Err(WirelessError::CommandFailed(stderr_summary(result.stderr.as_str(), password)));
    }
    match find_guid(result.stdout.as_str()) {
        Some(g) => Ok(g),
        None => Err(WirelessError::PairOutputUnparseable),
    }
}

/// The result of a mutating adb command: success, or its stderr.
pub fn command_outcome(status: i32, stderr: String) -> (r: Result<(), WirelessError>)
    ensures
        status == 0 ==> r is Ok,
        status != 0 ==> (r matches Err(e) && e@ == WirelessErrorView::CommandFailed(stderr@)),
{
    if status == 0 {
        Ok(())
    } else {
        Err(WirelessError::CommandFailed(stderr))
    }
}

/// The services `adb mdns services` lists, or its stderr when it failed.
pub fn adb_mdns_services(status: i32, stdout: &str, stderr: String) -> (r: Result<
    Vec<MdnsService>,
    WirelessError,
>)
    ensures
        status == 0 ==> (r matches Ok(v) && service_views(v@) == services_of_lines(lines(stdout@))),
        status != 0 ==> (r matches Err(e) && e@ == WirelessErrorView::CommandFailed(stderr@)),
{
    if status != 0 {
        return Err(WirelessError::CommandFailed(stderr));
    }
    Ok(parse_mdns_services(stdout))
}

/// A device's `ro.serialno` from `adb shell getprop`: the trimmed output,
/// unknown when the command failed or printed nothing.
pub fn read_ro_serialno(status: i32, stdout: &str) -> (r: Option<String>)
    ensures
        status != 0 ==> r is None,
        status == 0 && trim(stdout@).len() == 0 ==> r is None,
        status == 0 && trim(stdout@).len() > 0 ==> (r matches Some(x) && x@ == trim(stdout@)),
{
    if status != 0 {
        return None;
    }
    let t = trim_str(stdout);
    if t.len() == 0 {
        None
    } else {
        Some(crate::text::string_from(t.as_slice()))
    }
}

/// A failure to read a device's identity makes it unknown: it never stops a
/// pairing that has already succeeded.
pub fn read_identity_or_unknown(read: Result<Option<String>, WirelessError>) -> (r: Option<String>)
    ensures
        match read {
            Ok(v) => r == v,
            Err(_) => r is None,
        },
{
    match read {
        Ok(v) => v,
        Err(_) => None,
    }
}

/// A listed device that is the paired one and ready.
pub open spec fn ready_guid(guid: Seq<char>) -> spec_fn(DeviceView) -> bool {
    |d: DeviceView| serial_matches_guid_spec(d.serial, guid) && d.state is Device
}

/// What one `adb devices -l` answer says while waiting for the paired device:
/// its serial once it is listed and ready, nothing yet, or why the listing
/// failed.
pub fn guid_serial_in(status: i32, stdout: &str, stderr: String, guid: &str) -> (r: Result<
    Option<String>,
    WirelessError,
>)
    ensures
        status != 0 ==> (r matches Err(e) && e@ == WirelessErrorView::CommandFailed(stderr@)),
        status == 0 ==> match crate::adb_probe::parse_devices_spec(stdout@) {
            Err(pe) => r matches Err(e) && e@ == WirelessErrorView::Devices(
                crate::adb_probe::probe_message(pe),
            ),
            Ok(ds) => match first_index(ds, ready_guid(guid@)) {
                Some(i) => r matches Ok(Some(x)) && x@ == ds[i].serial,
                None => r matches Ok(None),
            },
        },
{
    if status != 0 {
        return Err(WirelessError::CommandFailed(stderr));
    }
    let devices = match crate::adb_probe::parse_devices(stdout) {
        Ok(ds) => ds,
        Err(e) => {
            return Err(WirelessError::Devices(e.message()));
        },
    };
    match first_ready_guid(&devices, guid) {
        Some(i) => {
            assert(device_views(devices@)[i as int] == devices@[i as int]@);
            Ok(Some(devices[i].serial.clone()))
        },
        None => Ok(None),
    }
}

fn first_ready_guid(devices: &Vec<Device>, guid: &str) -> (r: Option<usize>)
    ensures
        match r {
            Some(k) => k < devices@.len() && first_index(device_views(devices@), ready_guid(guid@))
                == Some(k as int),
            None => first_index(device_views(devices@), ready_guid(guid@)) is None,
        },
{
    let ghost dv = device_views(devices@);
    let mut i: usize = 0;
    while i < devices.len()
        invariant
            i <= devices.len(),
            dv == device_views(devices@),
            forall|j: int| 0 <= j < i ==> !ready_guid(guid@)(#[trigger] dv[j]),
        decreases devices.len() - i,
    {
        assert(dv[i as int] == devices@[i as int]@);
        let ready = match devices[i].state {
            DeviceState::Device => true,
            _ => false,
        };
        if ready && serial_matches_guid(devices[i].serial.as_str(), guid) {
            proof {
                lemma_first_index_is(dv, ready_guid(guid@), i as int);
            }
            return Some(i);
        }
        i = i + 1;
    }
    proof {
        lemma_first_index_none(dv, ready_guid(guid@));
    }
    None
}

/// The version adb was last tested with; older supported versions are let
/// through with a notice.
pub const TESTED_BASELINE: (u64, u64, u64) = (37, 0, 1);

/// The result of the pre-check before pairing.
#[derive(Clone, Copy, Debug, Eq, PartialEq)]
pub struct AdbPrecheck {
    pub version: (u64, u64, u64),
    /// Older than the tested baseline: allowed, with a notice.
    pub below_tested_baseline: bool,
}

/// What `adb version` says about the client: its supported version, or why
/// it cannot be used.
pub fn adb_version_check(status: i32, stdout: &str) -> (r: Result<(u64, u64, u64), WirelessError>)
    ensures
        status != 0 ==> (r matches Err(e) && e@ == WirelessErrorView::CommandFailed("version"@)),
        status == 0 ==> match first_adb_version(lines(stdout@)) {
            None => r matches Err(e) && e@ == WirelessErrorView::InvalidAdbVersion,
            Some(v) => if version_lt(v, (30, 0, 0)) {
                r matches Err(e) && e@ == WirelessErrorView::AdbTooOld(v)
            } else {
                r == Ok::<(u64, u64, u64), WirelessError>(v)
            },
        },
{
    if status != 0 {
        return Err(WirelessError::CommandFailed("version".to_owned()));
    }
    require_supported_adb(stdout)
}

/// The pre-check before pairing: a supported adb client whose mDNS works.
pub fn check_adb(version: (u64, u64, u64), mdns_check_status: i32) -> (r: Result<
    AdbPrecheck,
    WirelessError,
>)
    ensures
        mdns_check_status != 0 ==> (r matches Err(e) && e@ == WirelessErrorView::MdnsUnavailable),
        mdns_check_status == 0 ==> (r matches Ok(p) && p.version == version
            && p.below_tested_baseline == version_lt(version, TESTED_BASELINE)),
{
    if mdns_check_status != 0 {
        return Err(WirelessError::MdnsUnavailable);
    }
    Ok(AdbPrecheck { version, below_tested_baseline: version_less(version, TESTED_BASELINE) })
}

pub open spec fn instructions_text() -> Seq<char> {
    "手机：开发者选项 → 无线调试 → 使用二维码配对设备。首次启用可能还需确认信任当前 Wi‑Fi 网络。\nPhone: Developer options → Wireless debugging → Pair device with QR code. The phone may ask you to trust this Wi‑Fi network the first time."@
}

/// Where on the phone to start QR pairing.
pub fn pairing_instructions() -> (r: &'static str)
    ensures
        r@ == instructions_text(),
{
    "手机：开发者选项 → 无线调试 → 使用二维码配对设备。首次启用可能还需确认信任当前 Wi‑Fi 网络。\nPhone: Developer options → Wireless debugging → Pair device with QR code. The phone may ask you to trust this Wi‑Fi network the first time."
}

/// The `host:port` a pair process connects to.
pub open spec fn endpoint_text(v: MdnsServiceView) -> Seq<char> {
    v.address + ":"@ + dec(v.port as nat)
}

/// A service's `address:port`, as `adb pair` and `adb connect` take it.
pub fn service_endpoint(service: &MdnsService) -> (r: String)
    ensures
        r@ == endpoint_text(service@),
{
    let mut e = String::new();
    push_str(&mut e, service.address.as_str());
    push_str(&mut e, ":");
    push_decimal(&mut e, service.port as u64);
    assert(e@ =~= endpoint_text(service@)) by {
        reveal_strlit("");
    }
    e
}

// ---------------------------------------------------------------------------
// Closing a round
// ---------------------------------------------------------------------------

/// The reason a round closes with once its pair processes are gone: the
/// event's own reason; `Cancelled` when the round was already closed.
pub open spec fn close_round_spec(m: RoundModel, e: RoundEventView) -> (RoundModel, CloseReason) {
    let (n, a) = observe_model(RoundModel { pair_in_flight: false, ..m }, e);
    match a {
        RoundAction::Close(r) => (n, r),
        RoundAction::IgnoredAfterClose => (n, CloseReason::Cancelled),
        RoundAction::WaitForPair => (close_model(n, CloseReason::ServiceLost).0, CloseReason::ServiceLost),
    }
}

/// Closes a round after its pair processes were reaped: nothing is in flight
/// any more, the event decides the reason, and the secret and the rendered QR
/// code are wiped on the spot.
pub fn round_close(
    round: &mut RoundState,
    secret: &mut PairingSecret,
    qr: &mut String,
    event: RoundEvent,
) -> (r: CloseReason)
    ensures
        (final(round).model(), r) == close_round_spec(old(round).model(), event@),
        final(secret).service_name@ == Seq::<char>::empty(),
        final(secret).password@ == Seq::<char>::empty(),
        final(secret).payload@ == Seq::<char>::empty(),
        final(qr)@ == Seq::<char>::empty(),
{
    round.pair_in_flight = false;
    let action = round.observe(event);
    let reason = match action {
        RoundAction::Close(reason) => reason,
        RoundAction::IgnoredAfterClose => CloseReason::Cancelled,
        RoundAction::WaitForPair => {
            round.close(CloseReason::ServiceLost);
            CloseReason::ServiceLost
        },
    };
    secret.wipe();
    wipe_string(qr);
    reason
}

/// Closing an open round always closes it and moves its id on, so that
/// events of the old round are discarded afterwards.
pub proof fn law_close_round_invalidates_the_id(m: RoundModel, e: RoundEventView, late: RoundEventView)
    requires
        !m.closed,
    ensures
        close_round_spec(m, e).0.closed,
        close_round_spec(m, e).0.id != m.id,
        observe_for_round_model(close_round_spec(m, e).0, m.id, late).1
            == RoundAction::IgnoredAfterClose,
{
}


// ---------------------------------------------------------------------------
// The QR code on the terminal
// ---------------------------------------------------------------------------

/// What `qrcode::QrCode::new` makes of a payload: the module matrix, row by
/// row with `true` for a dark module, and its width; or the error's text.
pub uninterp spec fn qr_encoding(payload: Seq<u8>) -> Result<(Seq<bool>, nat), Seq<char>>;

/// Trusted: `qrcode::QrCode::new`, read out with `to_colors` and `width`.
/// The matrix is named `qr_encoding` of the payload's bytes; the source
/// shows that it holds `width * width` modules.
#[verifier::external_body]
fn qr_matrix(payload: &str) -> (r: Result<(Vec<bool>, usize), String>)
    ensures
        match r {
            Ok((m, w)) => qr_encoding(payload.spec_bytes()) == Ok::<(Seq<bool>, nat), Seq<char>>(
                (m@, w as nat),
            ) && m@.len() == w * w,
            Err(e) => qr_encoding(payload.spec_bytes()) == Err::<(Seq<bool>, nat), Seq<char>>(e@),
        },
{
    match qrcode::QrCode::new(payload.as_bytes()) {
        Ok(code) => Ok(
            (
                code.to_colors().into_iter().map(|c| matches!(c, qrcode::Color::Dark)).collect(),
                code.width(),
            ),
        ),
        Err(error) => Err(error.to_string()),
    }
}

pub open spec fn dark_cell() -> Seq<char> {
    "\x1b[40m  "@
}

pub open spec fn light_cell() -> Seq<char> {
    "\x1b[47m  "@
}

pub open spec fn reset_code() -> Seq<char> {
    "\x1b[0m"@
}

/// Whether the cell at row `y`, column `x` of the code with its four-module
/// quiet zone is dark.
pub open spec fn qr_dark(m: Seq<bool>, w: nat, y: int, x: int) -> bool {
    4 <= y < 4 + w && 4 <= x < 4 + w && m[(y - 4) * w + (x - 4)]
}

pub open spec fn qr_row_cells(m: Seq<bool>, w: nat, y: int, n: int) -> Seq<char>
    decreases n,
{
    if n <= 0 {
        Seq::empty()
    } else {
        qr_row_cells(m, w, y, n - 1) + if qr_dark(m, w, y, n - 1) {
            dark_cell()
        } else {
            light_cell()
        }
    }
}

pub open spec fn qr_rows(m: Seq<bool>, w: nat, n: int) -> Seq<char>
    decreases n,
{
    if n <= 0 {
        Seq::empty()
    } else {
        qr_rows(m, w, n - 1) + qr_row_cells(m, w, n - 1, (w + 8) as int) + reset_code() + "\n"@
    }
}

/// The code drawn with background colours, two spaces per module: black for
/// a dark module, white for a light one and for the quiet zone, so that it
/// scans the same on light and dark terminal themes.
pub open spec fn qr_text(m: Seq<bool>, w: nat) -> Seq<char> {
    qr_rows(m, w, (w + 8) as int)
}

/// Renders the QR code of a payload for the terminal.
pub fn render_qr(payload: &str) -> (r: Result<String, WirelessError>)
    ensures
        match qr_encoding(payload.spec_bytes()) {
            Ok((m, w)) => r matches Ok(s) && s@ == qr_text(m, w),
            Err(t) => r matches Err(e) && e@ == WirelessErrorView::InvalidInput(t),
        },
{
    let (modules, width) = match qr_matrix(payload) {
        Ok(x) => x,
        Err(t) => {
            return Err(WirelessError::InvalidInput(t));
        },
    };
    let ghost m = modules@;
    let ghost w = width as nat;
    let total: usize = modules.len();
    assert(width < 9 || width + 8 < width * width) by (nonlinear_arith);
    assert(width + 8 <= usize::MAX) by {
        assert(total == width * width);
    }
    let side: usize = width + 8;
    let mut out = String::new();
    let mut y: usize = 0;
    while y < side
        invariant
            side == width + 8,
            modules@ == m,
            m.len() == width * width,
            total == width * width,
            w == width,
            y <= side,
            out@ == qr_rows(m, w, y as int),
        decreases side - y,
    {
        let ghost before = out@;
        let mut x: usize = 0;
        while x < side
            invariant
                side == width + 8,
                modules@ == m,
                m.len() == width * width,
                total == width * width,
                w == width,
                y < side,
                x <= side,
                out@ == before + qr_row_cells(m, w, y as int, x as int),
            decreases side - x,
        {
            let dark = if y >= 4 && y < 4 + width && x >= 4 && x < 4 + width {
                let row: usize = y - 4;
                let col: usize = x - 4;
                assert(row * width + col < width * width && row * width <= width * width)
                    by (nonlinear_arith)
                    requires
                        row < width,
                        col < width,
                ;
                modules[row * width + col]
            } else {
                false
            };
            assert(dark == qr_dark(m, w, y as int, x as int));
            if dark {
                push_str(&mut out, "\x1b[40m  ");
            } else {
                push_str(&mut out, "\x1b[47m  ");
            }
            assert(out@ =~= before + qr_row_cells(m, w, y as int, x + 1));
            x = x + 1;
        }
        push_str(&mut out, "\x1b[0m");
        push_str(&mut out, "\n");
        assert(out@ =~= qr_rows(m, w, y + 1));
        y = y + 1;
    }
    Ok(out)
}


// ---------------------------------------------------------------------------
// Arbitrating a scan round
// ---------------------------------------------------------------------------

/// What to do with a polled pair process.
pub enum PollDecision {
    /// It paired: the round succeeded with this GUID.
    Succeeded(String),
    /// It finished without pairing, or could not be polled: drop it.
    Remove,
    /// Still running.
    Keep,
}

pub open spec fn opt_error_view(o: Option<WirelessError>) -> Option<WirelessErrorView> {
    match o {
        Some(e) => Some(e@),
        None => None,
    }
}

/// The first failure is kept; later ones do not replace it.
pub open spec fn record_failure(
    failure: Option<WirelessErrorView>,
    e: WirelessErrorView,
) -> Option<WirelessErrorView> {
    match failure {
        Some(f) => Some(f),
        None => Some(e),
    }
}

/// The decisions of one QR scan round, between the host's adb calls: which
/// endpoints get a pair process, what a failed call or a finished pair
/// process means, and when the round ends and why. A failure never ends the
/// round while a pair process is still in flight, since that process may
/// still pair.
pub struct PairingArbiter {
    pub round_id: u64,
    /// Endpoints that were given a pair process.
    pub spawned: Vec<String>,
    pub service_lost: bool,
    /// The first failure seen.
    pub failure: Option<WirelessError>,
    pub pair_timed_out: bool,
}

impl PairingArbiter {
    pub fn new(round_id: u64) -> (r: Self)
        ensures
            r.round_id == round_id,
            r.spawned@.len() == 0,
            !r.service_lost,
            r.failure is None,
            !r.pair_timed_out,
    {
        PairingArbiter {
            round_id,
            spawned: Vec::new(),
            service_lost: false,
            failure: None,
            pair_timed_out: false,
        }
    }

    /// A cancellation or the round's deadline ends the round.
    pub fn on_tick(cancelled: bool, deadline_passed: bool) -> (r: Option<(RoundEvent, WirelessError)>)
        ensures
            cancelled ==> (r matches Some((ev, e)) && ev@ == RoundEventView::Cancelled && e@
                == WirelessErrorView::Cancelled),
            !cancelled && deadline_passed ==> (r matches Some((ev, e)) && ev@
                == RoundEventView::Timeout && e@ == WirelessErrorView::RoundTimedOut),
            !cancelled && !deadline_passed ==> r is None,
    {
        if cancelled {
            Some((RoundEvent::Cancelled, WirelessError::Cancelled))
        } else if deadline_passed {
            Some((RoundEvent::Timeout, WirelessError::RoundTimedOut))
        } else {
            None
        }
    }

    /// An adb call (discovery, or starting a pair process) failed. With a
    /// pair process in flight the failure is only recorded; otherwise the
    /// round ends, attributed to the first failure seen.
    pub fn on_call_failed(&mut self, error: WirelessError, pairs_in_flight: bool) -> (r: Option<
        (RoundEvent, WirelessError),
    >)
        ensures
            final(self).round_id == old(self).round_id,
            final(self).spawned@ == old(self).spawned@,
            final(self).service_lost == old(self).service_lost,
            final(self).pair_timed_out == old(self).pair_timed_out,
            pairs_in_flight ==> r is None && opt_error_view(final(self).failure) == record_failure(
                opt_error_view(old(self).failure),
                error@,
            ),
            !pairs_in_flight ==> final(self).failure is None && (r matches Some((ev, e)) && (ev@, e@)
                == classify_spec(
                old(self).service_lost,
                old(self).pair_timed_out,
                match opt_error_view(old(self).failure) {
                    Some(f) => f,
                    None => error@,
                },
            )),
    {
        if pairs_in_flight {
            if self.failure.is_none() {
                self.failure = Some(error);
            }
            None
        } else {
            let mut taken: Option<WirelessError> = None;
            std::mem::swap(&mut taken, &mut self.failure);
            let first = match taken {
                Some(f) => f,
                None => error,
            };
            Some(classify_round_failure(self.service_lost, self.pair_timed_out, first))
        }
    }

    /// Whether an endpoint still needs a pair process.
    pub fn should_spawn(&self, endpoint: &str) -> (r: bool)
        ensures
            r == !string_views(self.spawned@).contains(endpoint@),
    {
        let want = chars_of(endpoint);
        let ghost sv = string_views(self.spawned@);
        let mut i: usize = 0;
        while i < self.spawned.len()
            invariant
                i <= self.spawned.len(),
                want@ == endpoint@,
                sv == string_views(self.spawned@),
                forall|j: int| 0 <= j < i ==> sv[j] != endpoint@,
            decreases self.spawned.len() - i,
        {
            assert(sv[i as int] == self.spawned@[i as int]@);
            let seen = chars_of(self.spawned[i].as_str());
            if crate::text::seq_eq(seen.as_slice(), want.as_slice()) {
                return false;
            }
            i = i + 1;
        }
        true
    }

    /// A pair process was started for `endpoint`.
    pub fn on_spawned(&mut self, endpoint: String, round: &mut RoundState)
        ensures
            final(self).round_id == old(self).round_id,
            string_views(final(self).spawned@) == string_views(old(self).spawned@).push(endpoint@),
            final(self).service_lost == old(self).service_lost,
            opt_error_view(final(self).failure) == opt_error_view(old(self).failure),
            final(self).pair_timed_out == old(self).pair_timed_out,
            final(round).model() == (RoundModel { pair_in_flight: true, ..old(round).model() }),
    {
        let ghost before = string_views(self.spawned@);
        self.spawned.push(endpoint);
        assert(string_views(self.spawned@) =~= before.push(endpoint@));
        round.pair_in_flight = true;
    }

    /// After a discovery: when no matching service is advertised any more
    /// although pair processes were started, the service is lost; the round
    /// is told once and decides whether to wait for the pair in flight.
    pub fn after_discovery(&mut self, matching: usize, round: &mut RoundState)
        ensures
            final(self).round_id == old(self).round_id,
            final(self).spawned@ == old(self).spawned@,
            opt_error_view(final(self).failure) == opt_error_view(old(self).failure),
            final(self).pair_timed_out == old(self).pair_timed_out,
            if matching == 0 && old(self).spawned@.len() > 0 && !old(self).service_lost {
                final(self).service_lost && final(round).model() == observe_for_round_model(
                    old(round).model(),
                    old(self).round_id,
                    RoundEventView::ServiceLost,
                ).0
            } else {
                final(self).service_lost == old(self).service_lost && final(round).model()
                    == old(round).model()
            },
    {
        if matching == 0 && self.spawned.len() > 0 && !self.service_lost {
            self.service_lost = true;
            let _ = round.observe_for_round(self.round_id, RoundEvent::ServiceLost);
        }
    }

    fn record(&mut self, error: WirelessError)
        ensures
            final(self).round_id == old(self).round_id,
            final(self).spawned@ == old(self).spawned@,
            final(self).service_lost == old(self).service_lost,
            final(self).pair_timed_out == old(self).pair_timed_out,
            opt_error_view(final(self).failure) == record_failure(
                opt_error_view(old(self).failure),
                error@,
            ),
    {
        if self.failure.is_none() {
            self.failure = Some(error);
        }
    }

    /// What a polled pair process means. A losing competitor's exit is a
    /// recorded failure, not the end of the round; a pair process's own
    /// timeout is remembered as such.
    pub fn on_poll(&mut self, poll: Result<Option<PairResult>, WirelessError>, password: &str) -> (r:
        PollDecision)
        ensures
            final(self).round_id == old(self).round_id,
            final(self).spawned@ == old(self).spawned@,
            final(self).service_lost == old(self).service_lost,
            match poll {
                Ok(None) => r is Keep && opt_error_view(final(self).failure) == opt_error_view(
                    old(self).failure,
                ) && final(self).pair_timed_out == old(self).pair_timed_out,
                Ok(Some(res)) => final(self).pair_timed_out == old(self).pair_timed_out && if res.status
                    == 0 {
                    match first_guid(words(res.stdout@)) {
                        Some(g) => (r matches PollDecision::Succeeded(x) && x@ == g) && opt_error_view(
                            final(self).failure,
                        ) == opt_error_view(old(self).failure),
                        None => r is Remove && opt_error_view(final(self).failure) == record_failure(
                            opt_error_view(old(self).failure),
                            WirelessErrorView::PairOutputUnparseable,
                        ),
                    }
                } else {
                    r is Remove && opt_error_view(final(self).failure) == record_failure(
                        opt_error_view(old(self).failure),
                        WirelessErrorView::CommandFailed(
                            if summary_spec(res.stderr@, password@).len() == 0 {
                                "pair failed"@
                            } else {
                                summary_spec(res.stderr@, password@)
                            },
                        ),
                    )
                },
                Err(e) => r is Remove && final(self).pair_timed_out == (old(self).pair_timed_out
                    || e@ is TimedOut) && opt_error_view(final(self).failure) == record_failure(
                    opt_error_view(old(self).failure),
                    e@,
                ),
            },
    {
        match poll {
            Ok(None) => PollDecision::Keep,
            Ok(Some(result)) => {
                if result.status == 0 {
                    match find_guid(result.stdout.as_str()) {
                        Some(g) => PollDecision::Succeeded(g),
                        None => {
                            self.record(WirelessError::PairOutputUnparseable);
                            PollDecision::Remove
                        },
                    }
                } else {
                    let summary = stderr_summary(result.stderr.as_str(), password);
                    let text = if summary.as_str().is_empty() {
                        "pair failed".to_owned()
                    } else {
                        summary
                    };
                    self.record(WirelessError::CommandFailed(text));
                    PollDecision::Remove
                }
            },
            Err(e) => {
                match e {
                    WirelessError::TimedOut => {
                        self.pair_timed_out = true;
                    },
                    _ => {},
                }
                self.record(e);
                PollDecision::Remove
            },
        }
    }

    /// After polling: with no pair process left, nothing is in flight, and a
    /// recorded failure ends the round, attributed by `classify_spec`.
    pub fn after_polls(&mut self, pairs_empty: bool, round: &mut RoundState) -> (r: Option<
        (RoundEvent, WirelessError),
    >)
        ensures
            final(self).round_id == old(self).round_id,
            final(self).spawned@ == old(self).spawned@,
            final(self).service_lost == old(self).service_lost,
            final(self).pair_timed_out == old(self).pair_timed_out,
            !pairs_empty ==> r is None && final(round).model() == old(round).model()
                && opt_error_view(final(self).failure) == opt_error_view(old(self).failure),
            pairs_empty ==> final(round).model() == (RoundModel {
                pair_in_flight: false,
                ..old(round).model()
            }) && final(self).failure is None && match opt_error_view(old(self).failure) {
                None => r is None,
                Some(f) => r matches Some((ev, e)) && (ev@, e@) == classify_spec(
                    old(self).service_lost,
                    old(self).pair_timed_out,
                    f,
                ),
            },
    {
        if !pairs_empty {
            return None;
        }
        round.pair_in_flight = false;
        let mut taken: Option<WirelessError> = None;
        std::mem::swap(&mut taken, &mut self.failure);
        match taken {
            Some(f) => Some(classify_round_failure(self.service_lost, self.pair_timed_out, f)),
            None => None,
        }
    }
}

/// The round's outcome together with the reaping of its pair processes: a
/// reaping failure is never swallowed, since it may leave a process behind.
pub fn round_result(outcome: Result<String, WirelessError>, reaped: Result<(), WirelessError>) -> (r:
    Result<String, WirelessError>)
    ensures
        match (outcome, reaped) {
            (Ok(g), Ok(())) => r matches Ok(x) && x@ == g@,
            (Ok(_), Err(e)) => r matches Err(x) && x@ == e@,
            (Err(f), Ok(())) => r matches Err(x) && x@ == f@,
            (Err(f), Err(e)) => r matches Err(x) && (x@ is CommandFailed && (!(f@ is Io) && !(e@ is Io)
                ==> x@ == WirelessErrorView::CommandFailed(
                wireless_message(f@) + "（另外：回收在飞进程失败："@ + wireless_message(e@) + "）"@,
            ))),
        },
{
    match (outcome, reaped) {
        (Err(failed), Err(reap)) => {
            let mut m = String::new();
            let a = failed.message();
            let b = reap.message();
            push_str(&mut m, a.as_str());
            push_str(&mut m, "（另外：回收在飞进程失败：");
            push_str(&mut m, b.as_str());
            push_str(&mut m, "）");
            assert(!(failed@ is Io) && !(reap@ is Io) ==> m@ =~= wireless_message(failed@)
                + "（另外：回收在飞进程失败："@ + wireless_message(reap@) + "）"@);
            Err(WirelessError::CommandFailed(m))
        },
        (Err(failed), Ok(())) => Err(failed),
        (Ok(_), Err(reap)) => Err(reap),
        (Ok(guid), Ok(())) => Ok(guid),
    }
}

} // verus!
