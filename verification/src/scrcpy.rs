//! Safe, visible scrcpy sessions for Android devices: which device to mirror,
//! which scrcpy is recent enough, and which pass-through options the wrapper
//! lets through.

use vstd::prelude::*;
use crate::adb_probe::{
    device_views, execution_message, parse_devices, probe_message, state_text, CommandOutput,
    Device, DeviceState, DeviceStateView, DeviceView, ExecutionError, parse_devices_spec,
    ProbeErrorView, push_signed, dec_signed, string_views,
};
use crate::host::{io_error_text, path_text};
use crate::text::{lossy_text, utf8_lossy};
pub use crate::process::{RingBuffer, STDERR_LIMIT};
use crate::text::{
    after_char, before_char, chars_of, eq_str, first_index, lemma_first_index_is,
    lemma_first_index_none, lines, lines_of, parse_uint, parse_uint_exec, push_all, push_str,
    split_once_char, starts_with, starts_with_str, string_from, trim, trim_str, views, words,
    words_of, is_digit, is_digit_char, contains, find_char, ends_with,
};

verus! {

/// The oldest scrcpy release the wrapper accepts, as (major, minor).
pub const MIN_SCRCPY_MAJOR: u64 = 4;

pub const MIN_SCRCPY_MINOR: u64 = 1;

/// Seconds a supervised session may take to shut down.
pub const SHUTDOWN_DEADLINE_SECS: u64 = 7;

/// Every failure of the scrcpy wrapper.
#[derive(Debug)]
pub enum Error {
    Usage(String),
    Adb(String),
    ScrcpyNotFound(std::path::PathBuf),
    ScrcpyVersion(String),
    InvalidPassthrough(String),
    Process(std::io::Error),
    NotFound(String),
    WrongState(String),
}

/// A wrapper failure as a value; paths and OS errors are left out.
pub enum ErrorView {
    Usage(Seq<char>),
    Adb(Seq<char>),
    ScrcpyNotFound,
    ScrcpyVersion(Seq<char>),
    InvalidPassthrough(Seq<char>),
    Process,
    NotFound(Seq<char>),
    WrongState(Seq<char>),
}

impl View for Error {
    type V = ErrorView;

    open spec fn view(&self) -> ErrorView {
        match self {
            Error::Usage(s) => ErrorView::Usage(s@),
            Error::Adb(s) => ErrorView::Adb(s@),
            Error::ScrcpyNotFound(_) => ErrorView::ScrcpyNotFound,
            Error::ScrcpyVersion(s) => ErrorView::ScrcpyVersion(s@),
            Error::InvalidPassthrough(s) => ErrorView::InvalidPassthrough(s@),
            Error::Process(_) => ErrorView::Process,
            Error::NotFound(s) => ErrorView::NotFound(s@),
            Error::WrongState(s) => ErrorView::WrongState(s@),
        }
    }
}

/// The hint after the path of a missing scrcpy.
pub open spec fn install_hint() -> Seq<char> {
    ". Install scrcpy from https://github.com/Genymobile/scrcpy/releases, then try again."@
}

impl Error {
    /// The human-readable description of the error. For the variants that hold
    /// text, that text is the message; a missing scrcpy names its path between
    /// a fixed head and an install hint, and a process error follows its
    /// prefix with the operating system's own description.
    pub fn message(&self) -> (r: String)
        ensures
            match self@ {
                ErrorView::Usage(s) => r@ == s,
                ErrorView::Adb(s) => r@ == s,
                ErrorView::ScrcpyVersion(s) => r@ == s,
                ErrorView::InvalidPassthrough(s) => r@ == s,
                ErrorView::NotFound(s) => r@ == s,
                ErrorView::WrongState(s) => r@ == s,
                ErrorView::ScrcpyNotFound => starts_with(r@, "scrcpy was not found at "@)
                    && ends_with(r@, install_hint()),
                ErrorView::Process => starts_with(r@, "process error: "@),
            },
            self matches Error::ScrcpyNotFound(p) ==> r@ == "scrcpy was not found at "@
                + crate::host::path_display(*p) + install_hint(),
    {
        match self {
            Error::Usage(s) | Error::Adb(s) | Error::ScrcpyVersion(s) | Error::InvalidPassthrough(
                s,
            ) | Error::NotFound(s) | Error::WrongState(s) => s.clone(),
            Error::ScrcpyNotFound(path) => {
                let mut s = String::new();
                push_str(&mut s, "scrcpy was not found at ");
                let ghost head = s@;
                let p = path_text(path);
                push_str(&mut s, p.as_str());
                let ghost mid = s@;
                push_str(
                    &mut s,
                    ". Install scrcpy from https://github.com/Genymobile/scrcpy/releases, then try again.",
                );
                assert(s@.take(head.len() as int) =~= head);
                assert(s@.skip(s@.len() - install_hint().len()) =~= install_hint());
                s
            },
            Error::Process(e) => {
                let mut s = String::new();
                push_str(&mut s, "process error: ");
                let ghost head = s@;
                let t = io_error_text(e);
                push_str(&mut s, t.as_str());
                assert(s@.take(head.len() as int) =~= head);
                s
            },
        }
    }
}

// ---------------------------------------------------------------------------
// Devices
// ---------------------------------------------------------------------------

/// The device list `adb devices -l` reports, or why there is none.
pub open spec fn devices_spec(
    o: Result<crate::adb_probe::CommandOutputView, crate::adb_probe::ExecutionErrorView>,
) -> Result<Seq<DeviceView>, ErrorView> {
    match o {
        Err(e) => Err(ErrorView::Adb(execution_message(e))),
        Ok(out) => if out.status != 0 {
            Err(
                ErrorView::Adb(
                    "adb devices -l failed with exit "@ + dec_signed(out.status as int) + ": "@
                        + trim(out.stderr),
                ),
            )
        } else {
            match parse_devices_spec(out.stdout) {
                Ok(ds) => Ok(ds),
                Err(e) => Err(ErrorView::Adb(probe_message(e))),
            }
        },
    }
}

/// The devices in the output of `adb devices -l`.
pub fn devices(output: Result<CommandOutput, ExecutionError>) -> (r: Result<
    Vec<Device>,
    Error,
>)
    ensures
        match devices_spec(crate::adb_probe::result_view(output)) {
            Ok(ds) => r matches Ok(v) && device_views(v@) == ds,
            Err(e) => r matches Err(x) && x@ == e,
        },
{
    match output {
        Err(e) => Err(Error::Adb(e.message())),
        Ok(out) => {
            if out.status != 0 {
                let mut s = String::new();
                push_str(&mut s, "adb devices -l failed with exit ");
                push_signed(&mut s, out.status);
                push_str(&mut s, ": ");
                let t = trim_str(out.stderr.as_str());
                push_all(&mut s, t.as_slice());
                return Err(Error::Adb(s));
            }
            match parse_devices(out.stdout.as_str()) {
                Ok(ds) => Ok(ds),
                Err(e) => Err(Error::Adb(e.message())),
            }
        },
    }
}

/// Whether a device is ready to be mirrored.
pub open spec fn is_ready(d: DeviceView) -> bool {
    d.state is Device
}

pub open spec fn ready_pred() -> spec_fn(DeviceView) -> bool {
    |d: DeviceView| is_ready(d)
}

pub open spec fn serial_is(s: Seq<char>) -> spec_fn(DeviceView) -> bool {
    |d: DeviceView| d.serial == s
}

pub open spec fn unauthorized_pred() -> spec_fn(DeviceView) -> bool {
    |d: DeviceView| d.state is Unauthorized
}

pub open spec fn offline_pred() -> spec_fn(DeviceView) -> bool {
    |d: DeviceView| d.state is Offline
}

pub open spec fn ready_count(ds: Seq<DeviceView>) -> nat
    decreases ds.len(),
{
    if ds.len() == 0 {
        0
    } else {
        ready_count(ds.drop_last()) + if is_ready(ds.last()) {
            1nat
        } else {
            0nat
        }
    }
}

/// Selection when a serial is asked for: that device, if it is present and ready.
pub open spec fn select_serial_spec(ds: Seq<DeviceView>, s: Seq<char>) -> Result<Seq<char>, ErrorView> {
    match first_index(ds, serial_is(s)) {
        Some(i) => if ds[i].state is Device {
            Ok(s)
        } else {
            Err(
                ErrorView::WrongState(
                    "device "@ + s + " is "@ + state_text(ds[i].state) + ", not device"@,
                ),
            )
        },
        None => Err(ErrorView::NotFound("device "@ + s + " is not present in adb devices -l"@)),
    }
}

/// Selecting by serial looks only at the first device with that serial: it
/// is taken when ready, refused as in the wrong state otherwise, and a serial
/// that no device has is not found.
pub proof fn law_selection_by_serial(ds: Seq<DeviceView>, s: Seq<char>)
    ensures
        (forall|i: int| 0 <= i < ds.len() ==> (#[trigger] ds[i]).serial != s) ==> (select_serial_spec(
            ds,
            s,
        ) matches Err(e) && e is NotFound),
        forall|i: int|
            0 <= i < ds.len() && (#[trigger] ds[i]).serial == s && (forall|j: int|
                0 <= j < i ==> (#[trigger] ds[j]).serial != s) ==> if ds[i].state is Device {
                select_serial_spec(ds, s) == Ok::<Seq<char>, ErrorView>(s)
            } else {
                (select_serial_spec(ds, s) matches Err(e) && e is WrongState)
            },
{
    crate::text::lemma_first_index(ds, serial_is(s));
    assert forall|i: int|
        0 <= i < ds.len() && (#[trigger] ds[i]).serial == s && (forall|j: int|
            0 <= j < i ==> (#[trigger] ds[j]).serial != s) implies if ds[i].state is Device {
        select_serial_spec(ds, s) == Ok::<Seq<char>, ErrorView>(s)
    } else {
        (select_serial_spec(ds, s) matches Err(e) && e is WrongState)
    } by {
        assert(serial_is(s)(ds[i]));
        let k = first_index(ds, serial_is(s))->Some_0;
        if k < i {
            assert(ds[k].serial != s);
        }
        if k > i {
            assert(!serial_is(s)(ds[i]));
        }
    }
}

/// The other devices never affect a selection by serial: replacing a device
/// whose serial differs by another whose serial differs changes nothing.
pub proof fn law_other_devices_do_not_matter(ds: Seq<DeviceView>, s: Seq<char>, k: int, d: DeviceView)
    requires
        0 <= k < ds.len(),
        ds[k].serial != s,
        d.serial != s,
    ensures
        select_serial_spec(ds.update(k, d), s) == select_serial_spec(ds, s),
{
    let p = serial_is(s);
    let ds2 = ds.update(k, d);
    crate::text::lemma_first_index(ds, p);
    crate::text::lemma_first_index(ds2, p);
    assert forall|j: int| 0 <= j < ds.len() implies p(#[trigger] ds2[j]) == p(ds[j]) by {
        if j == k {
            assert(!p(ds2[j]));
            assert(!p(ds[j]));
        }
    }
    match (first_index(ds, p), first_index(ds2, p)) {
        (Some(a), Some(b)) => {
            if a < b {
                assert(p(ds2[a]));
            }
            if b < a {
                assert(p(ds[b]));
            }
            assert(a != k);
            assert(ds2[a] == ds[a]);
        },
        (Some(a), None) => {
            assert(p(ds2[a]));
        },
        (None, Some(b)) => {
            assert(p(ds[b]));
        },
        (None, None) => {},
    }
}

/// Selection when no serial is asked for: the only ready device; otherwise an
/// error that names the first unauthorized, then the first offline device.
pub open spec fn select_any_spec(ds: Seq<DeviceView>) -> Result<Seq<char>, ErrorView> {
    let n = ready_count(ds);
    if n == 1 {
        Ok(ds[first_index(ds, ready_pred()).unwrap()].serial)
    } else if n == 0 {
        match first_index(ds, unauthorized_pred()) {
            Some(i) => Err(
                ErrorView::WrongState(
                    "device "@ + ds[i].serial
                        + " is unauthorized; approve this computer on the device"@,
                ),
            ),
            None => match first_index(ds, offline_pred()) {
                Some(i) => Err(
                    ErrorView::WrongState(
                        "device "@ + ds[i].serial + " is offline; reconnect the device"@,
                    ),
                ),
                None => Err(ErrorView::WrongState("no adb device is ready"@)),
            },
        }
    } else {
        Err(ErrorView::Usage("multiple adb devices are ready; pass --serial"@))
    }
}

pub open spec fn select_device_spec(ds: Seq<DeviceView>, serial: Option<Seq<char>>) -> Result<
    Seq<char>,
    ErrorView,
> {
    match serial {
        Some(s) => select_serial_spec(ds, s),
        None => select_any_spec(ds),
    }
}

proof fn lemma_no_ready_counts_zero(ds: Seq<DeviceView>)
    requires
        forall|j: int| 0 <= j < ds.len() ==> !((#[trigger] ds[j]).state is Device),
    ensures
        ready_count(ds) == 0,
    decreases ds.len(),
{
    if ds.len() > 0 {
        let rest = ds.drop_last();
        assert forall|j: int| 0 <= j < rest.len() implies !((#[trigger] rest[j]).state is Device) by {
            assert(rest[j] == ds[j]);
        }
        lemma_no_ready_counts_zero(rest);
        assert(ds.last() == ds[ds.len() - 1]);
    }
}

proof fn lemma_one_ready_counts_one(ds: Seq<DeviceView>, i: int)
    requires
        0 <= i < ds.len(),
        ds[i].state is Device,
        forall|j: int| 0 <= j < ds.len() && j != i ==> !((#[trigger] ds[j]).state is Device),
    ensures
        ready_count(ds) == 1,
    decreases ds.len(),
{
    let rest = ds.drop_last();
    if i == ds.len() - 1 {
        assert forall|j: int| 0 <= j < rest.len() implies !((#[trigger] rest[j]).state is Device) by {
            assert(rest[j] == ds[j]);
        }
        lemma_no_ready_counts_zero(rest);
    } else {
        assert(rest[i] == ds[i]);
        assert forall|j: int| 0 <= j < rest.len() && j != i implies !((#[trigger] rest[j]).state
            is Device) by {
            assert(rest[j] == ds[j]);
        }
        lemma_one_ready_counts_one(rest, i);
        assert(ds.last() == ds[ds.len() - 1]);
    }
}

proof fn lemma_two_ready_counts_two(ds: Seq<DeviceView>, a: int, b: int)
    requires
        0 <= a < b < ds.len(),
        ds[a].state is Device,
        ds[b].state is Device,
    ensures
        ready_count(ds) >= 2,
    decreases ds.len(),
{
    let rest = ds.drop_last();
    assert(rest.len() == ds.len() - 1);
    if b == ds.len() - 1 {
        assert(rest[a] == ds[a]);
        lemma_some_ready_counts(rest, a);
        assert(ds.last() == ds[b]);
    } else {
        assert(rest[a] == ds[a]);
        assert(rest[b] == ds[b]);
        lemma_two_ready_counts_two(rest, a, b);
    }
}

proof fn lemma_some_ready_counts(ds: Seq<DeviceView>, a: int)
    requires
        0 <= a < ds.len(),
        ds[a].state is Device,
    ensures
        ready_count(ds) >= 1,
    decreases ds.len(),
{
    let rest = ds.drop_last();
    if a == ds.len() - 1 {
        assert(ds.last() == ds[a]);
    } else {
        assert(rest[a] == ds[a]);
        lemma_some_ready_counts(rest, a);
    }
}

/// With no serial asked for, a device that is the only one in state `device`
/// is the one selected, wherever it stands in the list and whatever state
/// the others are in.
pub proof fn law_the_only_ready_device_is_selected(ds: Seq<DeviceView>, i: int)
    requires
        0 <= i < ds.len(),
        ds[i].state is Device,
        forall|j: int| 0 <= j < ds.len() && j != i ==> !((#[trigger] ds[j]).state is Device),
    ensures
        select_device_spec(ds, None) == Ok::<Seq<char>, ErrorView>(ds[i].serial),
{
    lemma_one_ready_counts_one(ds, i);
    crate::text::lemma_first_index(ds, ready_pred());
    let k = first_index(ds, ready_pred())->Some_0;
    assert(ready_pred()(ds[i]));
    if k != i {
        assert(ready_pred()(ds[k]));
    }
}

/// With no serial asked for, two devices in state `device` make the choice
/// the user's: the selection is refused as a usage error.
pub proof fn law_two_ready_devices_need_a_serial(ds: Seq<DeviceView>, a: int, b: int)
    requires
        0 <= a < b < ds.len(),
        ds[a].state is Device,
        ds[b].state is Device,
    ensures
        select_device_spec(ds, None) matches Err(e) && e is Usage,
{
    lemma_two_ready_counts_two(ds, a, b);
}

/// Whatever is selected, with or without a serial asked for, is the serial
/// of a listed device that is in state `device`; with no ready device at
/// all nothing is selected.
pub proof fn law_selection_names_a_ready_device(ds: Seq<DeviceView>, serial: Option<Seq<char>>)
    ensures
        select_device_spec(ds, serial) matches Ok(s) ==> exists|i: int|
            0 <= i < ds.len() && (#[trigger] ds[i]).serial == s && ds[i].state is Device,
        (forall|j: int| 0 <= j < ds.len() ==> !((#[trigger] ds[j]).state is Device))
            ==> select_device_spec(ds, serial) is Err,
{
    crate::text::lemma_first_index(ds, ready_pred());
    match serial {
        Some(s) => {
            crate::text::lemma_first_index(ds, serial_is(s));
            match first_index(ds, serial_is(s)) {
                Some(k) => {
                    assert(serial_is(s)(ds[k]));
                },
                None => {},
            }
        },
        None => {
            match first_index(ds, ready_pred()) {
                Some(k) => {
                    assert(ready_pred()(ds[k]));
                },
                None => {
                    lemma_no_ready_counts_zero(ds);
                },
            }
            if forall|j: int| 0 <= j < ds.len() ==> !((#[trigger] ds[j]).state is Device) {
                lemma_no_ready_counts_zero(ds);
            }
        },
    }
}

pub open spec fn opt_str_view(o: Option<&str>) -> Option<Seq<char>> {
    match o {
        Some(s) => Some(s@),
        None => None,
    }
}

fn first_in_state(list: &[Device], unauthorized: bool) -> (r: Option<usize>)
    ensures
        match r {
            Some(k) => k < list@.len() && first_index(
                device_views(list@),
                if unauthorized {
                    unauthorized_pred()
                } else {
                    offline_pred()
                },
            ) == Some(k as int),
            None => first_index(
                device_views(list@),
                if unauthorized {
                    unauthorized_pred()
                } else {
                    offline_pred()
                },
            ) is None,
        },
{
    let ghost dv = device_views(list@);
    let ghost p = if unauthorized {
        unauthorized_pred()
    } else {
        offline_pred()
    };
    let mut i: usize = 0;
    while i < list.len()
        invariant
            i <= list.len(),
            dv == device_views(list@),
            p == (if unauthorized {
                unauthorized_pred()
            } else {
                offline_pred()
            }),
            forall|j: int| 0 <= j < i ==> !p(#[trigger] dv[j]),
        decreases list.len() - i,
    {
        assert(dv[i as int] == list@[i as int]@);
        let hit = match list[i].state {
            DeviceState::Unauthorized => unauthorized,
            DeviceState::Offline => !unauthorized,
            _ => false,
        };
        if hit {
            proof {
                lemma_first_index_is(dv, p, i as int);
            }
            return Some(i);
        }
        i = i + 1;
    }
    proof {
        lemma_first_index_none(dv, p);
    }
    None
}

fn find_serial(list: &[Device], s: &str) -> (r: Option<usize>)
    ensures
        match r {
            Some(k) => k < list@.len() && first_index(device_views(list@), serial_is(s@)) == Some(
                k as int,
            ),
            None => first_index(device_views(list@), serial_is(s@)) is None,
        },
{
    let ghost dv = device_views(list@);
    let ghost p = serial_is(s@);
    let want = chars_of(s);
    let mut i: usize = 0;
    while i < list.len()
        invariant
            i <= list.len(),
            dv == device_views(list@),
            want@ == s@,
            p == (serial_is(s@)),
            forall|j: int| 0 <= j < i ==> !p(#[trigger] dv[j]),
        decreases list.len() - i,
    {
        assert(dv[i as int] == list@[i as int]@);
        let here = chars_of(list[i].serial.as_str());
        if crate::text::seq_eq(here.as_slice(), want.as_slice()) {
            proof {
                lemma_first_index_is(dv, p, i as int);
            }
            return Some(i);
        }
        i = i + 1;
    }
    proof {
        lemma_first_index_none(dv, p);
    }
    None
}

/// How many devices are ready, and the index of the first of them.
fn count_ready(list: &[Device]) -> (r: (usize, usize))
    ensures
        r.0 == ready_count(device_views(list@)),
        r.0 > 0 ==> r.1 < list@.len() && first_index(
            device_views(list@),
            ready_pred(),
        ) == Some(r.1 as int),
{
    let ghost dv = device_views(list@);
    let ghost p = ready_pred();
    let mut count: usize = 0;
    let mut first: usize = 0;
    let mut i: usize = 0;
    while i < list.len()
        invariant
            i <= list.len(),
            dv == device_views(list@),
            p == ready_pred(),
            count == ready_count(dv.take(i as int)),
            count <= i,
            count == 0 ==> forall|j: int| 0 <= j < i ==> !p(#[trigger] dv[j]),
            count > 0 ==> first < i && p(dv[first as int]) && forall|j: int|
                0 <= j < first ==> !p(#[trigger] dv[j]),
        decreases list.len() - i,
    {
        assert(dv[i as int] == list@[i as int]@);
        assert(dv.take(i + 1).drop_last() =~= dv.take(i as int));
        assert(dv.take(i + 1).last() == dv[i as int]);
        let ready = match list[i].state {
            DeviceState::Device => true,
            _ => false,
        };
        if ready {
            if count == 0 {
                first = i;
            }
            count = count + 1;
        }
        i = i + 1;
    }
    assert(dv.take(i as int) =~= dv);
    if count > 0 {
        proof {
            lemma_first_index_is(dv, p, first as int);
        }
    }
    (count, first)
}

fn select_only_ready(list: &[Device]) -> (r: Result<String, Error>)
    ensures
        match select_any_spec(device_views(list@)) {
            Ok(s) => r matches Ok(x) && x@ == s,
            Err(e) => r matches Err(x) && x@ == e,
        },
{
    let ghost dv = device_views(list@);
    let (count, first) = count_ready(list);
    if count == 1 {
        assert(dv[first as int] == list@[first as int]@);
        Ok(list[first].serial.clone())
    } else if count == 0 {
        match first_in_state(list, true) {
            Some(k) => {
                assert(dv[k as int] == list@[k as int]@);
                let mut m = String::new();
                push_str(&mut m, "device ");
                push_str(&mut m, list[k].serial.as_str());
                push_str(&mut m, " is unauthorized; approve this computer on the device");
                assert(m@ =~= "device "@ + dv[k as int].serial
                    + " is unauthorized; approve this computer on the device"@);
                Err(Error::WrongState(m))
            },
            None => match first_in_state(list, false) {
                Some(k) => {
                    assert(dv[k as int] == list@[k as int]@);
                    let mut m = String::new();
                    push_str(&mut m, "device ");
                    push_str(&mut m, list[k].serial.as_str());
                    push_str(&mut m, " is offline; reconnect the device");
                    assert(m@ =~= "device "@ + dv[k as int].serial
                        + " is offline; reconnect the device"@);
                    Err(Error::WrongState(m))
                },
                None => Err(Error::WrongState("no adb device is ready".to_owned())),
            },
        }
    } else {
        Err(Error::Usage("multiple adb devices are ready; pass --serial".to_owned()))
    }

}

/// The serial of the device to mirror: the one asked for when it is ready, or
/// the only ready device when none is asked for.
pub fn select_device(list: &[Device], serial: Option<&str>) -> (r: Result<String, Error>)
    ensures
        match select_device_spec(device_views(list@), opt_str_view(serial)) {
            Ok(s) => r matches Ok(x) && x@ == s,
            Err(e) => r matches Err(x) && x@ == e,
        },
{
    let ghost dv = device_views(list@);
    match serial {
        Some(s) => match find_serial(list, s) {
            Some(i) => {
                assert(dv[i as int] == list@[i as int]@);
                match &list[i].state {
                    DeviceState::Device => Ok(s.to_owned()),
                    st => {
                        let mut m = String::new();
                        push_str(&mut m, "device ");
                        push_str(&mut m, s);
                        push_str(&mut m, " is ");
                        push_str(&mut m, crate::adb_probe::device_state_text(st));
                        push_str(&mut m, ", not device");
                        assert(m@ =~= "device "@ + s@ + " is "@ + state_text(dv[i as int].state)
                            + ", not device"@);
                        Err(Error::WrongState(m))
                    },
                }
            },
            None => {
                let mut m = String::new();
                push_str(&mut m, "device ");
                push_str(&mut m, s);
                push_str(&mut m, " is not present in adb devices -l");
                assert(m@ =~= "device "@ + s@ + " is not present in adb devices -l"@);
                Err(Error::NotFound(m))
            },
        },
        None => select_only_ready(list),
    }
}


// ---------------------------------------------------------------------------
// scrcpy version
// ---------------------------------------------------------------------------

/// A word that starts with an ASCII digit.
pub open spec fn digit_led() -> spec_fn(Seq<char>) -> bool {
    |w: Seq<char>| w.len() > 0 && is_digit(w[0])
}

/// The first digit-led word of the text, lines taken in order.
pub open spec fn version_token(ls: Seq<Seq<char>>) -> Option<Seq<char>>
    decreases ls.len(),
{
    if ls.len() == 0 {
        None
    } else {
        match first_index(words(ls[0]), digit_led()) {
            Some(i) => Some(words(ls[0])[i]),
            None => version_token(ls.drop_first()),
        }
    }
}

pub open spec fn unparsable_version_message() -> Seq<char> {
    "could not parse scrcpy version; install stable scrcpy 4.1 or newer from https://github.com/Genymobile/scrcpy/releases"@
}

pub open spec fn invalid_version_message() -> Seq<char> {
    "invalid scrcpy version"@
}

/// The minor component: the piece after the first `.` up to the next one,
/// 0 when there is no `.`; `None` when that piece is not a number.
pub open spec fn minor_of(t: Seq<char>) -> Option<nat> {
    match after_char(t, '.') {
        None => Some(0),
        Some(rest) => parse_uint(before_char(rest, '.'), u64::MAX as nat),
    }
}

/// What `scrcpy --version` output must show: a stable release of at least
/// 4.1, found as the first digit-led word.
pub open spec fn version_text_spec(text: Seq<char>) -> Result<(), ErrorView> {
    match version_token(lines(text)) {
        None => Err(ErrorView::ScrcpyVersion(unparsable_version_message())),
        Some(t) => if t.contains('-') {
            Err(
                ErrorView::ScrcpyVersion(
                    "scrcpy prerelease "@ + t
                        + " is not supported; install stable scrcpy 4.1 or newer"@,
                ),
            )
        } else {
            match parse_uint(before_char(t, '.'), u64::MAX as nat) {
                None => Err(ErrorView::ScrcpyVersion(invalid_version_message())),
                Some(major) => match minor_of(t) {
                    None => Err(ErrorView::ScrcpyVersion(invalid_version_message())),
                    Some(minor) => if major < MIN_SCRCPY_MAJOR || (major == MIN_SCRCPY_MAJOR
                        && minor < MIN_SCRCPY_MINOR) {
                        Err(
                            ErrorView::ScrcpyVersion(
                                "scrcpy "@ + t
                                    + " is too old; install stable scrcpy 4.1 or newer"@,
                            ),
                        )
                    } else {
                        Ok(())
                    },
                },
            }
        },
    }
}

/// Whether the first digit-led word names a stable version of at least 4.1:
/// no `-`, a numeric major, an optional numeric minor (0 when absent).
pub open spec fn accepted_version(text: Seq<char>) -> bool {
    match version_token(lines(text)) {
        None => false,
        Some(t) => !t.contains('-') && match parse_uint(before_char(t, '.'), u64::MAX as nat) {
            None => false,
            Some(major) => match minor_of(t) {
                None => false,
                Some(minor) => !(major < MIN_SCRCPY_MAJOR || (major == MIN_SCRCPY_MAJOR && minor
                    < MIN_SCRCPY_MINOR)),
            },
        },
    }
}

/// A scrcpy version text is accepted exactly when `accepted_version` holds,
/// and every refusal is a version error.
pub proof fn law_version_acceptance(text: Seq<char>)
    ensures
        version_text_spec(text) is Ok <==> accepted_version(text),
        version_text_spec(text) matches Err(e) ==> e is ScrcpyVersion,
{
}

fn first_digit_led(ws: &Vec<Vec<char>>) -> (r: Option<usize>)
    ensures
        match r {
            Some(k) => k < ws@.len() && first_index(views(ws@), digit_led()) == Some(k as int),
            None => first_index(views(ws@), digit_led()) is None,
        },
{
    let ghost wv = views(ws@);
    let mut i: usize = 0;
    while i < ws.len()
        invariant
            i <= ws.len(),
            wv == views(ws@),
            forall|j: int| 0 <= j < i ==> !digit_led()(#[trigger] wv[j]),
        decreases ws.len() - i,
    {
        assert(wv[i as int] == ws@[i as int]@);
        if ws[i].len() > 0 && is_digit_char(ws[i][0]) {
            proof {
                lemma_first_index_is(wv, digit_led(), i as int);
            }
            return Some(i);
        }
        i = i + 1;
    }
    proof {
        lemma_first_index_none(wv, digit_led());
    }
    None
}

fn find_version_token(ls: &Vec<Vec<char>>) -> (r: Option<Vec<char>>)
    ensures
        match version_token(views(ls@)) {
            Some(t) => r matches Some(x) && x@ == t,
            None => r is None,
        },
{
    let ghost lv = views(ls@);
    let mut i: usize = 0;
    assert(lv.skip(0) =~= lv);
    while i < ls.len()
        invariant
            i <= ls.len(),
            lv == views(ls@),
            version_token(lv) == version_token(lv.skip(i as int)),
        decreases ls.len() - i,
    {
        let ghost rest = lv.skip(i as int);
        assert(rest[0] == ls@[i as int]@);
        assert(rest.drop_first() =~= lv.skip(i + 1));
        let ws = words_of(ls[i].as_slice());
        match first_digit_led(&ws) {
            Some(k) => {
                assert(views(ws@)[k as int] == ws@[k as int]@);
                return Some(ws[k].clone());
            },
            None => {},
        }
        i = i + 1;
    }
    None
}

fn version_error(prefix: &str, t: &[char], suffix: &str) -> (r: Error)
    ensures
        r@ == ErrorView::ScrcpyVersion(prefix@ + t@ + suffix@),
{
    let mut m = String::new();
    push_str(&mut m, prefix);
    push_all(&mut m, t);
    push_str(&mut m, suffix);
    assert(m@ =~= prefix@ + t@ + suffix@);
    Error::ScrcpyVersion(m)
}

/// Checks the output of `scrcpy --version`: the first word that starts with
/// a digit is the version; it must be a stable release of 4.1 or newer.
pub fn validate_version_text(text: &str) -> (r: Result<(), Error>)
    ensures
        match version_text_spec(text@) {
            Ok(()) => r is Ok,
            Err(e) => r matches Err(x) && x@ == e,
        },
{
    let cs = chars_of(text);
    let ls = lines_of(cs.as_slice());
    let token = match find_version_token(&ls) {
        Some(t) => t,
        None => {
            return Err(
                Error::ScrcpyVersion(
                    "could not parse scrcpy version; install stable scrcpy 4.1 or newer from https://github.com/Genymobile/scrcpy/releases".to_owned(),
                ),
            );
        },
    };
    match find_char(token.as_slice(), '-') {
        Some(k) => {
            assert(token@.contains('-')) by {
                assert(token@[k as int] == '-');
            }
            return Err(
                version_error(
                    "scrcpy prerelease ",
                    token.as_slice(),
                    " is not supported; install stable scrcpy 4.1 or newer",
                ),
            );
        },
        None => {},
    }
    let (major_part, rest) = split_once_char(token.as_slice(), '.');
    let major = match parse_uint_exec(major_part.as_slice(), u64::MAX) {
        Some(n) => n,
        None => {
            return Err(Error::ScrcpyVersion("invalid scrcpy version".to_owned()));
        },
    };
    let minor: u64 = match rest {
        None => 0,
        Some(rest) => {
            let (minor_part, _) = split_once_char(rest.as_slice(), '.');
            match parse_uint_exec(minor_part.as_slice(), u64::MAX) {
                Some(n) => n,
                None => {
                    return Err(Error::ScrcpyVersion("invalid scrcpy version".to_owned()));
                },
            }
        },
    };
    if major < MIN_SCRCPY_MAJOR || (major == MIN_SCRCPY_MAJOR && minor < MIN_SCRCPY_MINOR) {
        return Err(
            version_error(
                "scrcpy ",
                token.as_slice(),
                " is too old; install stable scrcpy 4.1 or newer",
            ),
        );
    }
    Ok(())
}


// ---------------------------------------------------------------------------
// Pass-through options
// ---------------------------------------------------------------------------

/// How the wrapper treats a scrcpy option given as pass-through.
#[derive(Clone, Copy, Debug, PartialEq, Eq, Structural)]
pub enum OptionKind {
    /// Never allowed.
    Deny,
    /// Owned by the wrapper's own configuration.
    Conflict,
    /// Passed through.
    Other,
}

pub open spec fn long_kind_spec(s: Seq<char>) -> OptionKind {
    if s == "serial"@ || s == "select-usb"@ || s == "select-tcpip"@ || s == "window-title"@ || s
        == "video-bit-rate"@ {
        OptionKind::Conflict
    } else if s == "screen-off-timeout"@ || s == "tcpip"@ || s == "record"@ || s == "no-cleanup"@
        || s == "stay-awake"@ || s == "show-touches"@ || s == "power-off-on-close"@ || s
        == "kill-adb-on-close"@ || s == "no-window"@ || s == "no-playback"@ || s
        == "no-video-playback"@ || s == "no-video"@ || s == "otg"@ {
        OptionKind::Deny
    } else {
        OptionKind::Other
    }
}

/// The kind of a short option, and whether it takes a value.
pub open spec fn short_kind_spec(c: char) -> (OptionKind, bool) {
    if c == 's' || c == 'b' {
        (OptionKind::Conflict, true)
    } else if c == 'd' || c == 'e' {
        (OptionKind::Conflict, false)
    } else if c == 'w' || c == 't' || c == 'N' || c == 'r' {
        (OptionKind::Deny, c == 'r')
    } else {
        (OptionKind::Other, false)
    }
}

/// The long name a denied short option stands for.
pub open spec fn short_name_spec(c: char) -> Seq<char> {
    if c == 'w' {
        "stay-awake"@
    } else if c == 't' {
        "show-touches"@
    } else if c == 'N' {
        "no-playback"@
    } else if c == 'r' {
        "record"@
    } else {
        "unknown"@
    }
}

pub open spec fn deny_reason_spec(s: Seq<char>) -> Seq<char> {
    if s == "no-cleanup"@ {
        "it breaks the wrapper cleanup contract"@
    } else if s == "tcpip"@ {
        "it changes connection state"@
    } else if s == "stay-awake"@ || s == "show-touches"@ || s == "screen-off-timeout"@ || s
        == "power-off-on-close"@ {
        "it changes device settings"@
    } else if s == "kill-adb-on-close"@ {
        "it affects other adb users"@
    } else if s == "no-window"@ || s == "no-playback"@ || s == "no-video-playback"@ || s
        == "no-video"@ || s == "otg"@ {
        "it violates the visible mirroring boundary"@
    } else if s == "record"@ {
        "recording is owned by the wrapper policy"@
    } else {
        "it is outside the wrapper policy"@
    }
}

/// Why a bundle of short options (the characters after `-`, from position
/// `pos` on) is refused: the first character that needs a missing value, is
/// denied, or conflicts with the wrapper's configuration.
pub open spec fn short_violation(shorts: Seq<char>, pos: int, value_missing: bool) -> Option<
    Seq<char>,
>
    decreases shorts.len() - pos,
{
    if pos < 0 || pos >= shorts.len() {
        None
    } else {
        let c = shorts[pos];
        let (kind, takes) = short_kind_spec(c);
        if takes && pos + 1 == shorts.len() && value_missing {
            Some("scrcpy option -"@ + seq![c] + " requires a value"@)
        } else if kind == OptionKind::Deny {
            Some("scrcpy option -"@ + seq![c] + " is denied: "@ + deny_reason_spec(short_name_spec(c)))
        } else if kind == OptionKind::Conflict {
            Some("scrcpy option -"@ + seq![c] + " conflicts with wrapper-owned configuration"@)
        } else {
            short_violation(shorts, pos + 1, value_missing)
        }
    }
}

/// The name of a long option: what follows `--`, up to the first `=`.
pub open spec fn long_name(a: Seq<char>) -> Seq<char> {
    before_char(a.skip(2), '=')
}

/// Why the argument at `i` (before any `--` separator) is refused, if it is.
pub open spec fn arg_violation(args: Seq<Seq<char>>, i: int) -> Option<Seq<char>> {
    let a = args[i];
    if starts_with(a, "--"@) {
        let name = long_name(a);
        match long_kind_spec(name) {
            OptionKind::Deny => Some(
                "scrcpy option --"@ + name + " is denied: "@ + deny_reason_spec(name),
            ),
            OptionKind::Conflict => Some(
                "scrcpy option --"@ + name + " conflicts with wrapper-owned configuration"@,
            ),
            OptionKind::Other => None,
        }
    } else if a.len() > 1 && a[0] == '-' {
        short_violation(a.skip(1), 0, i + 1 >= args.len() || args[i + 1] == "--"@)
    } else {
        None
    }
}

/// The first refused argument from `i` on; nothing after a `--` separator is
/// looked at.
pub open spec fn filter_violation(args: Seq<Seq<char>>, i: int) -> Option<Seq<char>>
    decreases args.len() - i,
{
    if i < 0 || i >= args.len() || args[i] == "--"@ {
        None
    } else {
        match arg_violation(args, i) {
            Some(m) => Some(m),
            None => filter_violation(args, i + 1),
        }
    }
}

fn long_kind(s: &[char]) -> (r: OptionKind)
    ensures
        r == long_kind_spec(s@),
{
    if eq_str(s, "serial") || eq_str(s, "select-usb") || eq_str(s, "select-tcpip") || eq_str(
        s,
        "window-title",
    ) || eq_str(s, "video-bit-rate") {
        OptionKind::Conflict
    } else if eq_str(s, "screen-off-timeout") || eq_str(s, "tcpip") || eq_str(s, "record")
        || eq_str(s, "no-cleanup") || eq_str(s, "stay-awake") || eq_str(s, "show-touches")
        || eq_str(s, "power-off-on-close") || eq_str(s, "kill-adb-on-close") || eq_str(
        s,
        "no-window",
    ) || eq_str(s, "no-playback") || eq_str(s, "no-video-playback") || eq_str(s, "no-video")
        || eq_str(s, "otg") {
        OptionKind::Deny
    } else {
        OptionKind::Other
    }
}

fn short_kind(c: char) -> (r: (OptionKind, bool))
    ensures
        r == short_kind_spec(c),
{
    match c {
        's' | 'b' => (OptionKind::Conflict, true),
        'd' | 'e' => (OptionKind::Conflict, false),
        'w' | 't' | 'N' | 'r' => (OptionKind::Deny, c == 'r'),
        _ => (OptionKind::Other, false),
    }
}

fn short_name(c: char) -> (r: &'static str)
    ensures
        r@ == short_name_spec(c),
{
    match c {
        'w' => "stay-awake",
        't' => "show-touches",
        'N' => "no-playback",
        'r' => "record",
        _ => "unknown",
    }
}

fn deny_reason(s: &[char]) -> (r: &'static str)
    ensures
        r@ == deny_reason_spec(s@),
{
    if eq_str(s, "no-cleanup") {
        "it breaks the wrapper cleanup contract"
    } else if eq_str(s, "tcpip") {
        "it changes connection state"
    } else if eq_str(s, "stay-awake") || eq_str(s, "show-touches") || eq_str(
        s,
        "screen-off-timeout",
    ) || eq_str(s, "power-off-on-close") {
        "it changes device settings"
    } else if eq_str(s, "kill-adb-on-close") {
        "it affects other adb users"
    } else if eq_str(s, "no-window") || eq_str(s, "no-playback") || eq_str(
        s,
        "no-video-playback",
    ) || eq_str(s, "no-video") || eq_str(s, "otg") {
        "it violates the visible mirroring boundary"
    } else if eq_str(s, "record") {
        "recording is owned by the wrapper policy"
    } else {
        "it is outside the wrapper policy"
    }
}

fn short_message(c: char, tail: &str, reason: &str) -> (r: String)
    ensures
        r@ == "scrcpy option -"@ + seq![c] + tail@ + reason@,
{
    let mut m = String::new();
    push_str(&mut m, "scrcpy option -");
    crate::text::push_char(&mut m, c);
    push_str(&mut m, tail);
    push_str(&mut m, reason);
    assert(m@ =~= "scrcpy option -"@ + seq![c] + tail@ + reason@);
    m
}

fn short_violation_exec(shorts: &[char], value_missing: bool) -> (r: Option<String>)
    ensures
        match short_violation(shorts@, 0, value_missing) {
            Some(m) => r matches Some(x) && x@ == m,
            None => r is None,
        },
{
    let mut pos: usize = 0;
    while pos < shorts.len()
        invariant
            pos <= shorts.len(),
            short_violation(shorts@, 0, value_missing) == short_violation(
                shorts@,
                pos as int,
                value_missing,
            ),
        decreases shorts.len() - pos,
    {
        let c = shorts[pos];
        let (kind, takes) = short_kind(c);
        if takes && pos + 1 == shorts.len() && value_missing {
            let m = short_message(c, " requires a value", "");
            proof {
                reveal_strlit("");
            }
            assert(m@ =~= "scrcpy option -"@ + seq![c] + " requires a value"@);
            return Some(m);
        }
        if kind == OptionKind::Deny {
            let name = chars_of(short_name(c));
            let reason = deny_reason(name.as_slice());
            return Some(short_message(c, " is denied: ", reason));
        }
        if kind == OptionKind::Conflict {
            let m = short_message(c, " conflicts with wrapper-owned configuration", "");
            proof {
                reveal_strlit("");
            }
            assert(m@ =~= "scrcpy option -"@ + seq![c]
                + " conflicts with wrapper-owned configuration"@);
            return Some(m);
        }
        pos = pos + 1;
    }
    None
}

fn long_message(name: &[char], tail: &str, reason: &str) -> (r: String)
    ensures
        r@ == "scrcpy option --"@ + name@ + tail@ + reason@,
{
    let mut m = String::new();
    push_str(&mut m, "scrcpy option --");
    push_all(&mut m, name);
    push_str(&mut m, tail);
    push_str(&mut m, reason);
    assert(m@ =~= "scrcpy option --"@ + name@ + tail@ + reason@);
    m
}

fn arg_violation_exec(args: &[String], i: usize) -> (r: Option<String>)
    requires
        i < args@.len(),
    ensures
        match arg_violation(string_views(args@), i as int) {
            Some(m) => r matches Some(x) && x@ == m,
            None => r is None,
        },
{
    let ghost av = string_views(args@);
    let a = chars_of(args[i].as_str());
    assert(av[i as int] == a@);
    proof {
        reveal_strlit("--");
    }
    if starts_with_str(a.as_slice(), "--") {
        let tail = crate::text::slice_of(a.as_slice(), 2, a.len());
        assert(tail@ =~= a@.skip(2));
        let (name, _) = split_once_char(tail.as_slice(), '=');
        match long_kind(name.as_slice()) {
            OptionKind::Deny => {
                let reason = deny_reason(name.as_slice());
                Some(long_message(name.as_slice(), " is denied: ", reason))
            },
            OptionKind::Conflict => {
                let m = long_message(
                    name.as_slice(),
                    " conflicts with wrapper-owned configuration",
                    "",
                );
                proof {
                reveal_strlit("");
            }
                assert(m@ =~= "scrcpy option --"@ + name@
                    + " conflicts with wrapper-owned configuration"@);
                Some(m)
            },
            OptionKind::Other => None,
        }
    } else if a.len() > 1 && a[0] == '-' {
        let shorts = crate::text::slice_of(a.as_slice(), 1, a.len());
        assert(shorts@ =~= a@.skip(1));
        let value_missing = if i + 1 >= args.len() {
            true
        } else {
            let next = chars_of(args[i + 1].as_str());
            assert(av[i + 1] == next@);
            eq_str(next.as_slice(), "--")
        };
        short_violation_exec(shorts.as_slice(), value_missing)
    } else {
        None
    }
}

pub open spec fn filtered_args_spec(args: Seq<Seq<char>>) -> Result<Seq<Seq<char>>, ErrorView> {
    match filter_violation(args, 0) {
        Some(m) => Err(ErrorView::InvalidPassthrough(m)),
        None => Ok(args),
    }
}

/// Checks pass-through scrcpy arguments against the wrapper policy. Accepted
/// arguments come back unchanged and in order; the first refused one is named
/// in the error. Nothing after a `--` separator is checked.
pub fn filtered_args(args: &[String]) -> (r: Result<Vec<String>, Error>)
    ensures
        match filtered_args_spec(string_views(args@)) {
            Ok(v) => r matches Ok(out) && string_views(out@) == v,
            Err(e) => r matches Err(x) && x@ == e,
        },
{
    let ghost av = string_views(args@);
    let mut out: Vec<String> = Vec::new();
    let mut i: usize = 0;
    while i < args.len()
        invariant
            i <= args.len(),
            av == string_views(args@),
            string_views(out@) == av.take(i as int),
            filter_violation(av, 0) == filter_violation(av, i as int),
        decreases args.len() - i,
    {
        let a = chars_of(args[i].as_str());
        assert(av[i as int] == a@);
        if eq_str(a.as_slice(), "--") {
            while i < args.len()
                invariant
                    i <= args.len(),
                    av == string_views(args@),
                    string_views(out@) == av.take(i as int),
                    filter_violation(av, 0) is None,
                decreases args.len() - i,
            {
                let item = args[i].clone();
                proof {
                    assert(av.take(i + 1) =~= av.take(i as int).push(item@));
                    assert(string_views(out@.push(item)) =~= string_views(out@).push(item@));
                }
                out.push(item);
                i = i + 1;
            }
            assert(av.take(i as int) =~= av);
            return Ok(out);
        }
        match arg_violation_exec(args, i) {
            Some(m) => {
                return Err(Error::InvalidPassthrough(m));
            },
            None => {},
        }
        let item = args[i].clone();
        proof {
            assert(av.take(i + 1) =~= av.take(i as int).push(item@));
            assert(string_views(out@.push(item)) =~= string_views(out@).push(item@));
        }
        out.push(item);
        i = i + 1;
    }
    assert(av.take(i as int) =~= av);
    Ok(out)
}


// ---------------------------------------------------------------------------
// Launch
// ---------------------------------------------------------------------------

/// What a scrcpy session is started with.
#[derive(Debug, Clone)]
pub struct LaunchOptions {
    pub adb: std::path::PathBuf,
    pub scrcpy: std::path::PathBuf,
    pub serial: String,
    pub bit_rate: String,
    pub screen_off: bool,
    pub passthrough: Vec<String>,
    pub scrcpy_env: Vec<(String, String)>,
}

/// The arguments scrcpy is started with: the wrapper-owned options first, then
/// the accepted pass-through arguments, then `--turn-screen-off` if asked for.
pub open spec fn build_args_spec(
    serial: Seq<char>,
    bit_rate: Seq<char>,
    screen_off: bool,
    passthrough: Seq<Seq<char>>,
) -> Result<Seq<Seq<char>>, ErrorView> {
    match filtered_args_spec(passthrough) {
        Err(e) => Err(e),
        Ok(p) => Ok(
            seq!["--serial"@, serial, "--window-title=QuadControl"@, "--video-bit-rate"@, bit_rate]
                + p + if screen_off {
                seq!["--turn-screen-off"@]
            } else {
                Seq::<Seq<char>>::empty()
            },
        ),
    }
}

/// The arguments scrcpy is started with, `build_args_spec`; a refused
/// pass-through argument is reported as `filtered_args` reports it.
pub fn build_args(options: &LaunchOptions) -> (r: Result<Vec<String>, Error>)
    ensures
        match build_args_spec(
            options.serial@,
            options.bit_rate@,
            options.screen_off,
            string_views(options.passthrough@),
        ) {
            Ok(v) => r matches Ok(out) && string_views(out@) == v,
            Err(e) => r matches Err(x) && x@ == e,
        },
{
    let rest = match filtered_args(options.passthrough.as_slice()) {
        Ok(v) => v,
        Err(e) => {
            return Err(e);
        },
    };
    let mut args: Vec<String> = Vec::new();
    args.push("--serial".to_owned());
    args.push(options.serial.clone());
    args.push("--window-title=QuadControl".to_owned());
    args.push("--video-bit-rate".to_owned());
    args.push(options.bit_rate.clone());
    let ghost head = string_views(args@);
    let mut i: usize = 0;
    while i < rest.len()
        invariant
            i <= rest.len(),
            string_views(args@) == head + string_views(rest@).take(i as int),
        decreases rest.len() - i,
    {
        let item = rest[i].clone();
        proof {
            assert(string_views(rest@).take(i + 1) =~= string_views(rest@).take(i as int).push(
                item@,
            ));
            assert(string_views(args@.push(item)) =~= string_views(args@).push(item@));
        }
        args.push(item);
        i = i + 1;
    }
    assert(string_views(rest@).take(i as int) =~= string_views(rest@));
    if options.screen_off {
        let ghost before = string_views(args@);
        args.push("--turn-screen-off".to_owned());
        assert(string_views(args@) =~= before.push("--turn-screen-off"@));
    }
    assert(head =~= seq![
        "--serial"@,
        options.serial@,
        "--window-title=QuadControl"@,
        "--video-bit-rate"@,
        options.bit_rate@,
    ]);
    proof {
        let p = string_views(options.passthrough@);
        let tail = if options.screen_off {
            seq!["--turn-screen-off"@]
        } else {
            Seq::<Seq<char>>::empty()
        };
        assert(string_views(args@) =~= head + p + tail);
    }
    Ok(args)
}

/// What a failure to start `scrcpy --version` is reported as: a missing
/// executable by its path, anything else as a process error.
pub fn scrcpy_spawn_error(scrcpy: std::path::PathBuf, not_found: bool, error: std::io::Error) -> (r: Error)
    ensures
        not_found ==> r == Error::ScrcpyNotFound(scrcpy),
        !not_found ==> r == Error::Process(error),
{
    if not_found {
        Error::ScrcpyNotFound(scrcpy)
    } else {
        Error::Process(error)
    }
}

/// The text `scrcpy --version` printed: stdout, a newline, stderr.
pub open spec fn version_output(stdout: Seq<u8>, stderr: Seq<u8>) -> Seq<char> {
    utf8_lossy(stdout) + "\n"@ + utf8_lossy(stderr)
}

pub open spec fn validate_scrcpy_spec(success: bool, stdout: Seq<u8>, stderr: Seq<u8>) -> Result<
    (),
    ErrorView,
> {
    if success {
        version_text_spec(version_output(stdout, stderr))
    } else {
        Err(
            ErrorView::ScrcpyVersion(
                "scrcpy --version failed: "@ + trim(version_output(stdout, stderr))
                    + ". Install scrcpy from https://github.com/Genymobile/scrcpy/releases."@,
            ),
        )
    }
}

/// Judges what `scrcpy --version` produced: a successful run must print a
/// supported version; a failed run is reported with its trimmed output.
pub fn validate_scrcpy(success: bool, stdout: &[u8], stderr: &[u8]) -> (r: Result<(), Error>)
    ensures
        match validate_scrcpy_spec(success, stdout@, stderr@) {
            Ok(()) => r is Ok,
            Err(e) => r matches Err(x) && x@ == e,
        },
{
    let out = lossy_text(stdout);
    let err = lossy_text(stderr);
    let mut text = String::new();
    push_str(&mut text, out.as_str());
    push_str(&mut text, "\n");
    push_str(&mut text, err.as_str());
    assert(text@ =~= version_output(stdout@, stderr@));
    if success {
        validate_version_text(text.as_str())
    } else {
        let t = trim_str(text.as_str());
        let mut m = String::new();
        push_str(&mut m, "scrcpy --version failed: ");
        push_all(&mut m, t.as_slice());
        push_str(&mut m, ". Install scrcpy from https://github.com/Genymobile/scrcpy/releases.");
        assert(m@ =~= "scrcpy --version failed: "@ + trim(version_output(stdout@, stderr@))
            + ". Install scrcpy from https://github.com/Genymobile/scrcpy/releases."@);
        Err(Error::ScrcpyVersion(m))
    }
}

// ---------------------------------------------------------------------------
// Supervision
// ---------------------------------------------------------------------------

/// An observable snapshot of a supervised scrcpy session.
#[derive(Clone, Debug, PartialEq)]
pub enum SessionStatus {
    Running,
    Stopping,
    Exited { code: i32, stderr_tail: String },
    Failed { message: String },
}

/// The outcome of a stop: the exit code when the stopped child was reaped,
/// otherwise an error.
pub fn reaped_after_stop(exit: Option<i32>) -> (r: Result<i32, Error>)
    ensures
        match exit {
            Some(code) => r == Ok::<i32, Error>(code),
            None => r matches Err(e) && e@ == ErrorView::WrongState(
                "stopped session was not reaped"@,
            ),
        },
{
    match exit {
        Some(code) => Ok(code),
        None => Err(Error::WrongState("stopped session was not reaped".to_owned())),
    }
}

/// The status a session settles in once supervision ends: the exit code with
/// the stderr tail, or the failure's message.
pub fn settled_status(result: Result<i32, Error>, stderr_tail: String) -> (r: SessionStatus)
    ensures
        match result {
            Ok(code) => r matches SessionStatus::Exited { code: c, stderr_tail: t } && c == code
                && t@ == stderr_tail@,
            Err(e) => r matches SessionStatus::Failed { message } && (match e@ {
                ErrorView::Usage(s) => message@ == s,
                ErrorView::Adb(s) => message@ == s,
                ErrorView::ScrcpyVersion(s) => message@ == s,
                ErrorView::InvalidPassthrough(s) => message@ == s,
                ErrorView::NotFound(s) => message@ == s,
                ErrorView::WrongState(s) => message@ == s,
                _ => true,
            }),
        },
{
    match result {
        Ok(code) => SessionStatus::Exited { code, stderr_tail },
        Err(e) => SessionStatus::Failed { message: e.message() },
    }
}

/// Which sessions did not finish stopping in time.
#[derive(Debug, PartialEq)]
pub struct ShutdownReport {
    pub timed_out: Vec<u64>,
}

} // verus!
