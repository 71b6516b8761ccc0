//! The MJPEG proxy's decisions: the newest-frame slot that every downstream
//! reads from, how its backpressure drops are counted, and what the
//! upstream's multipart headers say.

use vstd::prelude::*;
use crate::adb_probe::{dec, trim_end_char, trim_end_char_exec};
use crate::ios::{strip_leading, list_item};
use crate::text::{
    after_char, before_char, chars_of, contains, ends_with, eq_str, lower_seq, parse_uint,
    parse_uint_exec, push_all, push_str, slice_of, split_once_char, starts_with, starts_with_str,
    string_from, trim, trim_exec, trim_end, words,
};

verus! {

/// Bytes a single frame may hold; a larger one ends the stream.
pub const MAX_FRAME_BYTES: usize = 4194304;

/// The boundary of the multipart response sent to each downstream.
pub const DOWNSTREAM_BOUNDARY: &'static str = "quadcontrolframe";

/// The proxy's counters. The arrival time of the last frame is an instant,
/// which never enters serialised state.
#[derive(Debug, Clone, Copy, PartialEq, Eq)]
pub struct FrameStats {
    /// Frames cut from the upstream; the interface derives frames per second
    /// from its difference.
    pub frames: u64,
    /// Frames replaced before any downstream writer took them, counted only
    /// while some downstream is connected.
    pub backpressure_drops: u64,
    pub last_frame_at: Option<std::time::Instant>,
}

/// The shared newest-frame slot, as counters: the number of frames published
/// (which is also the newest frame's sequence number), whether the newest
/// frame was taken by any writer, and the backpressure drops.
#[derive(Debug, Clone, Copy, PartialEq, Eq, Structural)]
pub struct FrameSlot {
    pub seq: u64,
    pub consumed: bool,
    pub drops: u64,
}

/// The slot after a frame is published: the sequence number moves on, the
/// new frame is not yet taken, and the frame it replaces counts as a
/// backpressure drop when some writer was connected but none had taken it.
pub open spec fn published(s: FrameSlot, writers_active: bool) -> FrameSlot {
    FrameSlot {
        seq: (s.seq + 1) as u64,
        consumed: false,
        drops: if s.seq > 0 && !s.consumed && writers_active {
            s.drops.wrapping_add(1)
        } else {
            s.drops
        },
    }
}

/// A writer that last sent frame `last_seq` asks for a newer one: it gets
/// the newest frame's number when that is newer, and the frame counts as
/// taken; otherwise nothing changes.
pub open spec fn taken(s: FrameSlot, last_seq: u64) -> (FrameSlot, Option<u64>) {
    if s.seq > last_seq {
        (FrameSlot { consumed: true, ..s }, Some(s.seq))
    } else {
        (s, None)
    }
}

/// Drops never reach the number of frames published (none before the first).
pub open spec fn frame_slot_wf(s: FrameSlot) -> bool {
    s.drops < s.seq || s.drops == 0
}

impl FrameSlot {
    /// An empty slot.
    pub fn new() -> (r: Self)
        ensures
            r == (FrameSlot { seq: 0, consumed: false, drops: 0 }),
            frame_slot_wf(r),
    {
        FrameSlot { seq: 0, consumed: false, drops: 0 }
    }

    /// Publishes a new frame. When the previous frame was taken by no writer
    /// although some writer is connected, it counts as a backpressure drop;
    /// with no downstream at all, replacing frames is idle running, not
    /// backpressure.
    pub fn publish(&mut self, writers_active: bool)
        requires
            old(self).seq < u64::MAX,
        ensures
            *final(self) == published(*old(self), writers_active),
    {
        if self.seq > 0 && !self.consumed && writers_active {
            self.drops = self.drops.wrapping_add(1);
        }
        self.seq = self.seq + 1;
        self.consumed = false;
    }

    /// A writer that last sent frame `last_seq` asks for a newer one: the
    /// newest frame's number when there is one, which then counts as taken.
    /// A new writer starts at 0, so it gets the current frame at once.
    pub fn take(&mut self, last_seq: u64) -> (r: Option<u64>)
        ensures
            (*final(self), r) == taken(*old(self), last_seq),
    {
        if self.seq > last_seq {
            self.consumed = true;
            Some(self.seq)
        } else {
            None
        }
    }
}

/// A frame that some writer took is never counted as dropped, and no drop is
/// counted while no writer is connected; otherwise replacing an unread frame
/// counts exactly one drop.
pub proof fn law_drops_need_an_unread_frame_and_a_reader(s: FrameSlot, writers_active: bool)
    requires
        s.seq < u64::MAX,
        frame_slot_wf(s),
    ensures
        s.consumed || !writers_active || s.seq == 0 ==> published(s, writers_active).drops == s.drops,
        !s.consumed && writers_active && s.seq > 0 ==> published(s, writers_active).drops == s.drops + 1,
{
}

/// One writer keeping up is enough: once any writer has taken the newest
/// frame, publishing the next one counts no drop, however many writers lag.
pub proof fn law_one_reader_keeping_up_prevents_drops(s: FrameSlot, last_seq: u64, writers_active: bool)
    requires
        s.seq < u64::MAX,
        last_seq < s.seq,
    ensures
        published(taken(s, last_seq).0, writers_active).drops == s.drops,
        taken(s, last_seq).1 == Some(s.seq),
{
}

/// After a frame is published, every writer that has not seen it gets it
/// (a new writer, at 0, included), and each writer gets each frame once:
/// asking again with the number it got gives nothing until the next frame.
pub proof fn law_every_writer_gets_the_newest_frame_once(s: FrameSlot, writers_active: bool, last_seq: u64)
    requires
        s.seq < u64::MAX,
        last_seq <= s.seq,
    ensures
        taken(published(s, writers_active), last_seq).1 == Some((s.seq + 1) as u64),
        ({
            let after = taken(published(s, writers_active), last_seq).0;
            taken(after, (s.seq + 1) as u64) == (after, None::<u64>)
        }),
{
}

/// Frames and drops only move forward together: every operation keeps the
/// drops below the number of frames published, so the counters never
/// wrap, and the sequence number counts publications one by one.
pub proof fn law_slot_operations_keep_counts(s: FrameSlot, writers_active: bool, last_seq: u64)
    requires
        frame_slot_wf(s),
        s.seq < u64::MAX,
    ensures
        frame_slot_wf(published(s, writers_active)),
        published(s, writers_active).seq == s.seq + 1,
        published(s, writers_active).drops >= s.drops,
        frame_slot_wf(taken(s, last_seq).0),
        taken(s, last_seq).0.seq == s.seq,
        taken(s, last_seq).0.drops == s.drops,
{
}

// ---------------------------------------------------------------------------
// Multipart headers
// ---------------------------------------------------------------------------

/// The value of a `name: value` header line whose name matches `name`
/// ignoring ASCII case, both sides trimmed.
pub open spec fn header_value_spec(line: Seq<char>, name: Seq<char>) -> Option<Seq<char>> {
    match after_char(line, ':') {
        None => None,
        Some(v) => if lower_seq(trim(before_char(line, ':'))) == lower_seq(name) && trim(
            before_char(line, ':'),
        ).len() == name.len() {
            Some(trim(v))
        } else {
            None
        },
    }
}

/// The value of a header line, when its name is `name`.
pub fn header_value(line: &str, name: &str) -> (r: Option<String>)
    ensures
        match header_value_spec(line@, name@) {
            Some(v) => r matches Some(x) && x@ == v,
            None => r is None,
        },
{
    let cs = chars_of(line);
    let (head, rest) = split_once_char(cs.as_slice(), ':');
    match rest {
        None => None,
        Some(v) => {
            let h = trim_exec(head.as_slice());
            let want = chars_of(name);
            let hl = crate::text::to_lower(h.as_slice());
            let wl = crate::text::to_lower(want.as_slice());
            if h.len() == want.len() && crate::text::seq_eq(hl.as_slice(), wl.as_slice()) {
                let t = trim_exec(v.as_slice());
                Some(string_from(t.as_slice()))
            } else {
                None
            }
        },
    }
}

/// `s` without its leading copies of `p`.
pub open spec fn strip_prefixes(s: Seq<char>, p: Seq<char>) -> Seq<char>
    decreases s.len(),
{
    if p.len() > 0 && starts_with(s, p) {
        strip_prefixes(s.skip(p.len() as int), p)
    } else {
        s
    }
}

/// The `boundary=` parameter among the `;`-separated parts, if any.
pub open spec fn boundary_param(parts: Seq<Seq<char>>) -> Option<Seq<char>>
    decreases parts.len(),
{
    if parts.len() == 0 {
        None
    } else if starts_with(trim(parts[0]), "boundary="@) {
        Some(trim_end_char(strip_leading(trim(parts[0]).skip(9), '"'), '"'))
    } else {
        boundary_param(parts.drop_first())
    }
}

/// The multipart boundary a `Content-Type` value names, without a leading
/// `--`.
pub open spec fn boundary_spec(content_type: Seq<char>) -> Result<Seq<char>, Seq<char>> {
    match boundary_param(crate::ios::split_char(content_type, ';')) {
        Some(b) => Ok(strip_prefixes(b, "--"@)),
        None => Err("MJPEG upstream Content-Type has no boundary: "@ + content_type),
    }
}

fn strip_prefixes_exec(v: &[char], p: &str) -> (r: Vec<char>)
    requires
        p@.len() > 0,
    ensures
        r@ == strip_prefixes(v@, p@),
{
    let pv = chars_of(p);
    let mut i: usize = 0;
    assert(v@.skip(0) =~= v@);
    loop
        invariant
            i <= v.len(),
            pv@ == p@,
            p@.len() > 0,
            strip_prefixes(v@, p@) == strip_prefixes(v@.skip(i as int), p@),
        decreases v.len() - i,
    {
        let rest = slice_of(v, i, v.len());
        assert(rest@ =~= v@.skip(i as int));
        if crate::text::starts_with_exec(rest.as_slice(), pv.as_slice()) {
            assert(v@.skip(i as int).skip(p@.len() as int) =~= v@.skip(i + p@.len()));
            i = i + pv.len();
        } else {
            return rest;
        }
    }
}

fn boundary_from_parts(s: &[char]) -> (r: Option<Vec<char>>)
    ensures
        match boundary_param(crate::ios::split_char(s@, ';')) {
            Some(b) => r matches Some(x) && x@ == b,
            None => r is None,
        },
    decreases s.len(),
{
    let (head, rest) = split_once_char(s, ';');
    let t = trim_exec(head.as_slice());
    proof {
        reveal_strlit("boundary=");
        crate::text::lemma_after_char_shorter(s@, ';');
    }
    let ghost parts = crate::ios::split_char(s@, ';');
    if starts_with_str(t.as_slice(), "boundary=") {
        let after = slice_of(t.as_slice(), 9, t.len());
        assert(after@ =~= t@.skip(9));
        let unq = crate::ios::strip_leading_quotes(after.as_slice());
        return Some(trim_end_char_exec(unq.as_slice(), '"'));
    }
    match rest {
        None => {
            assert(parts =~= seq![s@]);
            assert(head@ == s@);
            assert(parts[0] == s@);
            assert(parts.drop_first() =~= Seq::<Seq<char>>::empty());
            assert(boundary_param(Seq::<Seq<char>>::empty()) is None);
            None
        },
        Some(rest) => {
            assert(parts =~= seq![before_char(s@, ';')] + crate::ios::split_char(rest@, ';'));
            assert(parts.drop_first() =~= crate::ios::split_char(rest@, ';'));
            boundary_from_parts(rest.as_slice())
        },
    }
}

/// The multipart boundary named by the upstream's `Content-Type`.
pub fn content_type_boundary(content_type: &str) -> (r: Result<String, String>)
    ensures
        match boundary_spec(content_type@) {
            Ok(b) => r matches Ok(x) && x@ == b,
            Err(e) => r matches Err(x) && x@ == e,
        },
{
    let cs = chars_of(content_type);
    match boundary_from_parts(cs.as_slice()) {
        Some(b) => {
            proof {
                reveal_strlit("--");
            }
            let stripped = strip_prefixes_exec(b.as_slice(), "--");
            Ok(string_from(stripped.as_slice()))
        },
        None => {
            let mut m = String::new();
            push_str(&mut m, "MJPEG upstream Content-Type has no boundary: ");
            push_str(&mut m, content_type);
            Err(m)
        },
    }
}

/// `s` without trailing copies of `p`.
pub open spec fn strip_suffixes(s: Seq<char>, p: Seq<char>) -> Seq<char>
    decreases s.len(),
{
    if p.len() > 0 && ends_with(s, p) {
        strip_suffixes(s.take(s.len() - p.len()), p)
    } else {
        s
    }
}

/// Whether an upstream line is a part boundary: with trailing whitespace and
/// `--` removed it ends with the boundary, and it holds a `--`.
pub open spec fn boundary_line_spec(line: Seq<char>, boundary: Seq<char>) -> bool {
    ends_with(strip_suffixes(trim_end(line), "--"@), boundary) && contains(line, "--"@)
}

fn strip_suffixes_exec(v: &[char], p: &str) -> (r: Vec<char>)
    requires
        p@.len() > 0,
    ensures
        r@ == strip_suffixes(v@, p@),
{
    let pv = chars_of(p);
    let mut n: usize = v.len();
    assert(v@.take(n as int) =~= v@);
    loop
        invariant
            n <= v.len(),
            pv@ == p@,
            p@.len() > 0,
            strip_suffixes(v@, p@) == strip_suffixes(v@.take(n as int), p@),
        decreases n,
    {
        let cur = slice_of(v, 0, n);
        assert(cur@ =~= v@.take(n as int));
        if crate::text::ends_with_exec(cur.as_slice(), pv.as_slice()) {
            assert(v@.take(n as int).take(n - p@.len()) =~= v@.take(n - p@.len()));
            n = n - pv.len();
        } else {
            return cur;
        }
    }
}

/// Whether a line opens the next part: it carries `--` and, trailing
/// whitespace and closing dashes removed, ends with the boundary.
pub fn is_boundary_line(line: &str, boundary: &str) -> (r: bool)
    ensures
        r == boundary_line_spec(line@, boundary@),
{
    let cs = chars_of(line);
    let te = crate::text::trim_end_exec(cs.as_slice());
    proof {
        reveal_strlit("--");
    }
    let s = strip_suffixes_exec(te.as_slice(), "--");
    crate::text::ends_with_str(s.as_slice(), boundary) && crate::text::contains_str(
        cs.as_slice(),
        "--",
    )
}

/// The length a `Content-Length` value gives: the trimmed value read as an
/// unsigned `usize`, or `None` when it is not one.
pub fn content_length(value: &str) -> (r: Option<usize>)
    ensures
        match parse_uint(trim(value@), usize::MAX as nat) {
            Some(n) => r == Some(n as usize),
            None => r is None,
        },
{
    let t = trim_exec(chars_of(value).as_slice());
    match parse_uint_exec(t.as_slice(), usize::MAX as u64) {
        Some(n) => Some(n as usize),
        None => None,
    }
}

/// A length over the frame limit ends the stream with this message.
pub open spec fn frame_too_large_message(length: nat) -> Seq<char> {
    "MJPEG frame of "@ + dec(length) + " bytes exceeds the 4194304 byte limit"@
}

/// Whether a declared frame length may be read, and the message when not.
pub fn check_frame_length(length: usize) -> (r: Result<(), String>)
    ensures
        length <= MAX_FRAME_BYTES ==> r is Ok,
        length > MAX_FRAME_BYTES ==> (r matches Err(m) && m@ == frame_too_large_message(
            length as nat,
        )),
{
    if length > MAX_FRAME_BYTES {
        let mut m = String::new();
        push_str(&mut m, "MJPEG frame of ");
        crate::adb_probe::push_decimal(&mut m, length as u64);
        push_str(&mut m, " bytes exceeds the 4194304 byte limit");
        assert(m@ =~= frame_too_large_message(length as nat)) by {
            reveal_strlit("");
        }
        return Err(m);
    }
    Ok(())
}

/// A frame scanned up to the boundary marker: the marker and the line breaks
/// before it removed.
pub open spec fn trailing_breaks_removed(f: Seq<u8>) -> Seq<u8>
    decreases f.len(),
{
    if f.len() > 0 && (f.last() == 13 || f.last() == 10) {
        trailing_breaks_removed(f.drop_last())
    } else {
        f
    }
}

/// Cuts the boundary marker, `marker_len` bytes, off a frame read up to
/// it, and the line breaks before it.
pub fn finish_scanned_frame(frame: &mut Vec<u8>, marker_len: usize)
    requires
        marker_len <= old(frame)@.len(),
    ensures
        final(frame)@ == trailing_breaks_removed(old(frame)@.take(old(frame)@.len() - marker_len)),
{
    let keep = frame.len() - marker_len;
    frame.truncate(keep);
    assert(frame@ =~= old(frame)@.take(old(frame)@.len() - marker_len));
    let ghost start = frame@;
    while frame.len() > 0 && (frame[frame.len() - 1] == 13 || frame[frame.len() - 1] == 10)
        invariant
            trailing_breaks_removed(start) == trailing_breaks_removed(frame@),
        decreases frame@.len(),
    {
        let ghost before = frame@;
        frame.pop();
        assert(frame@ =~= before.drop_last());
    }
}

} // verus!
