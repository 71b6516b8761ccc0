//! Process plumbing that does not depend on the engine being driven: the
//! bounded buffer that keeps the tail of a child's stderr.

use vstd::prelude::*;
use std::collections::VecDeque;
use crate::text::{lossy_text, utf8_lossy};

verus! {

/// Bytes of stderr a session keeps; older bytes are dropped first.
pub const STDERR_LIMIT: usize = 65536;

/// What a buffer limited to `limit` bytes keeps of everything written to it:
/// the last `limit` bytes, none at all for a limit of 0.
pub open spec fn keep_tail(s: Seq<u8>, limit: nat) -> Seq<u8> {
    if s.len() > limit {
        s.skip(s.len() - limit)
    } else {
        s
    }
}

/// A fixed-capacity byte buffer: once full it drops its oldest bytes, so it
/// keeps the tail of what was written.
#[derive(Debug)]
pub struct RingBuffer {
    bytes: VecDeque<u8>,
    limit: usize,
}

impl RingBuffer {
    #[verifier::type_invariant]
    spec fn within_limit(self) -> bool {
        self.bytes@.len() <= self.limit
    }

    /// The bytes held, oldest first.
    pub closed spec fn contents(self) -> Seq<u8> {
        self.bytes@
    }

    pub closed spec fn limit_spec(self) -> nat {
        self.limit as nat
    }

    /// A buffer that keeps at most `limit` bytes.
    pub fn new(limit: usize) -> (r: Self)
        ensures
            r.contents() == Seq::<u8>::empty(),
            r.limit_spec() == limit,
    {
        RingBuffer { bytes: VecDeque::with_capacity(limit), limit }
    }

    /// Appends `data`, dropping the oldest bytes beyond the limit.
    pub fn push(&mut self, data: &[u8])
        ensures
            final(self).limit_spec() == old(self).limit_spec(),
            final(self).contents() == keep_tail(old(self).contents() + data@, old(self).limit_spec()),
            final(self).contents().len() <= final(self).limit_spec(),
    {
        proof {
            use_type_invariant(&*self);
        }
        let ghost start = self.bytes@;
        let lim = self.limit;
        assert(keep_tail(start, lim as nat) == start);
        if lim == 0 {
            assert(keep_tail(start + data@, 0) =~= Seq::<u8>::empty());
            assert(start =~= Seq::<u8>::empty());
            return;
        }
        let mut bytes: VecDeque<u8> = VecDeque::new();
        std::mem::swap(&mut bytes, &mut self.bytes);
        let mut i: usize = 0;
        while i < data.len()
            invariant
                i <= data.len(),
                0 < lim,
                bytes@.len() <= lim,
                bytes@ == keep_tail(start + data@.take(i as int), lim as nat),
            decreases data.len() - i,
        {
            let b = data[i];
            let ghost before = start + data@.take(i as int);
            let ghost after = start + data@.take(i + 1);
            assert(after =~= before.push(b));
            if bytes.len() == lim {
                bytes.pop_front();
            }
            bytes.push_back(b);
            assert(bytes@ =~= keep_tail(after, lim as nat));
            i = i + 1;
        }
        assert(start + data@.take(i as int) =~= start + data@);
        self.bytes = bytes;
    }

    /// The bytes held, decoded as lossy UTF-8.
    pub fn text(&self) -> (r: String)
        ensures
            r@ == utf8_lossy(self.contents()),
            self.contents().len() == 0 ==> r@.len() == 0,
    {
        let mut v: Vec<u8> = Vec::new();
        let mut i: usize = 0;
        while i < self.bytes.len()
            invariant
                i <= self.bytes@.len(),
                v@ == self.bytes@.take(i as int),
            decreases self.bytes@.len() - i,
        {
            v.push(self.bytes[i]);
            assert(v@ =~= self.bytes@.take(i + 1));
            i = i + 1;
        }
        assert(v@ =~= self.bytes@);
        lossy_text(v.as_slice())
    }
}

/// Bytes that still fit under `limit` after `kept_len` were kept.
pub open spec fn room(kept_len: nat, limit: nat) -> nat {
    if limit > kept_len {
        (limit - kept_len) as nat
    } else {
        0
    }
}

/// `kept` followed by as much of `chunk` as still fits under `limit`.
pub open spec fn appended(kept: Seq<u8>, chunk: Seq<u8>, limit: nat) -> Seq<u8> {
    let n = if room(kept.len(), limit) < chunk.len() {
        room(kept.len(), limit)
    } else {
        chunk.len()
    };
    kept + chunk.take(n as int)
}

/// What a bounded capture of a pipe holds of everything that was read: the
/// first `limit` bytes, and whether more came.
pub open spec fn captured(all: Seq<u8>, limit: nat) -> (Seq<u8>, bool) {
    if all.len() > limit {
        (all.take(limit as int), true)
    } else {
        (all, false)
    }
}

/// Keeps what fits under `limit` of a chunk read from a pipe; returns whether
/// some of the chunk did not fit.
pub fn append_limited(kept: &mut Vec<u8>, chunk: &[u8], limit: usize) -> (truncated: bool)
    ensures
        final(kept)@ == appended(old(kept)@, chunk@, limit as nat),
        truncated == (room(old(kept)@.len(), limit as nat) < chunk@.len()),
{
    let remaining: usize = if limit > kept.len() {
        limit - kept.len()
    } else {
        0
    };
    let stored: usize = if remaining < chunk.len() {
        remaining
    } else {
        chunk.len()
    };
    let mut i: usize = 0;
    while i < stored
        invariant
            stored <= chunk.len(),
            i <= stored,
            kept@ == old(kept)@ + chunk@.take(i as int),
        decreases stored - i,
    {
        kept.push(chunk[i]);
        assert(chunk@.take(i + 1) =~= chunk@.take(i as int).push(chunk@[i as int]));
        i = i + 1;
    }
    stored < chunk.len()
}

/// Capturing a pipe chunk by chunk keeps exactly what capturing everything it
/// produced in one piece keeps, and flags overflow the same way.
pub proof fn law_capture_of_pieces(a: Seq<u8>, b: Seq<u8>, limit: nat)
    ensures
        ({
            let first = captured(a, limit);
            let kept = appended(first.0, b, limit);
            let more = room(first.0.len(), limit) < b.len();
            (kept, first.1 || more) == captured(a + b, limit)
        }),
{
    let first = captured(a, limit);
    if a.len() > limit {
        assert(first.0.len() == limit);
        assert(appended(first.0, b, limit) =~= first.0);
        assert((a + b).take(limit as int) =~= a.take(limit as int));
    } else {
        let n = if room(a.len(), limit) < b.len() {
            room(a.len(), limit)
        } else {
            b.len()
        };
        if a.len() + b.len() > limit {
            assert(appended(a, b, limit) =~= (a + b).take(limit as int));
        } else {
            assert(n == b.len());
            assert(appended(a, b, limit) =~= a + b);
        }
    }
}

/// A buffer holds the last `limit` bytes of everything pushed into it, whether
/// it was pushed in one piece or in several.
pub proof fn law_tail_of_pieces(a: Seq<u8>, b: Seq<u8>, limit: nat)
    ensures
        keep_tail(keep_tail(a, limit) + b, limit) == keep_tail(a + b, limit),
{
    assert(keep_tail(keep_tail(a, limit) + b, limit) =~= keep_tail(a + b, limit));
}

} // verus!
