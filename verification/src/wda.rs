//! What WebDriverAgent's answers mean: whether a response body can be used,
//! the session id, window size, lock state, screenshot and focused element
//! it carries (read with serde_json), the screenshot's base64, whether a
//! failure means the session was invalidated, and whether typed text really
//! arrived.

use vstd::prelude::*;
use crate::text::{chars_of, contains, contains_str, lower_seq, push_str, to_lower};
use crate::ios::{Error, ErrorView};
use vstd::string::StringSliceAdditionalSpecFns;

verus! {

/// Seconds a WDA request may take.
pub const REQUEST_TIMEOUT_SECS: u64 = 5;

/// Bytes a WDA response body may hold.
pub const BODY_LIMIT: usize = 8388608;

/// The device window in points (not pixels).
#[derive(Debug, Clone, Copy, PartialEq, Eq, Structural)]
pub struct WindowSize {
    pub width: u32,
    pub height: u32,
}

/// Whether a WDA failure text says that the session was invalidated: an
/// HTTP 404 together with `invalid session` or `session does not exist`.
pub open spec fn invalid_session_spec(message: Seq<char>) -> bool {
    let lower = lower_seq(message);
    contains(lower, "returned 404"@) && (contains(lower, "invalid session"@) || contains(
        lower,
        "session does not exist"@,
    ))
}

/// Whether a WDA error says the session is gone (a 404 about an invalid or
/// missing session), so that it is recreated once.
pub fn is_invalid_session(message: &str) -> (r: bool)
    ensures
        r == invalid_session_spec(message@),
{
    let cs = chars_of(message);
    let lower = to_lower(cs.as_slice());
    contains_str(lower.as_slice(), "returned 404") && (contains_str(
        lower.as_slice(),
        "invalid session",
    ) || contains_str(lower.as_slice(), "session does not exist"))
}

/// Typed text counts as delivered only when the field, read back, contains
/// it.
pub fn text_confirmed(read_back: &str, text: &str) -> (r: bool)
    ensures
        r == contains(read_back@, text@),
{
    let a = chars_of(read_back);
    let b = chars_of(text);
    crate::text::contains_exec(a.as_slice(), b.as_slice())
}

// ---------------------------------------------------------------------------
// Base64
// ---------------------------------------------------------------------------

/// ASCII whitespace, which may appear inside the encoded text and is skipped.
pub open spec fn b64_space(b: u8) -> bool {
    b == 32 || b == 9 || b == 10 || b == 12 || b == 13
}

/// The bytes without whitespace.
pub open spec fn cleaned(bytes: Seq<u8>) -> Seq<u8>
    decreases bytes.len(),
{
    if bytes.len() == 0 {
        Seq::empty()
    } else {
        cleaned(bytes.drop_last()) + if b64_space(bytes.last()) {
            Seq::<u8>::empty()
        } else {
            seq![bytes.last()]
        }
    }
}

/// A character of the standard alphabet `A-Z a-z 0-9 + /`.
pub open spec fn b64_char(b: u8) -> bool {
    (65 <= b <= 90) || (97 <= b <= 122) || (48 <= b <= 57) || b == 43 || b == 47
}

/// The six-bit value of an alphabet character.
pub open spec fn sextet(b: u8) -> u8 {
    if 65 <= b <= 90 {
        (b - 65) as u8
    } else if 97 <= b <= 122 {
        (b - 97 + 26) as u8
    } else if 48 <= b <= 57 {
        (b - 48 + 52) as u8
    } else if b == 43 {
        62
    } else {
        63
    }
}

/// The byte completed by the sextet at position `k` (none at positions
/// divisible by four): four sextets make three bytes.
pub open spec fn emitted(s: Seq<u8>, k: int) -> Seq<u8> {
    if k % 4 == 1 {
        seq![((sextet(s[k - 1]) << 2u8) | (sextet(s[k]) >> 4u8)) as u8]
    } else if k % 4 == 2 {
        seq![(((sextet(s[k - 1]) & 15u8) << 4u8) | (sextet(s[k]) >> 2u8)) as u8]
    } else if k % 4 == 3 {
        seq![(((sextet(s[k - 1]) & 3u8) << 6u8) | sextet(s[k])) as u8]
    } else {
        Seq::empty()
    }
}

/// The bytes that a run of alphabet characters encodes.
pub open spec fn decoded(s: Seq<u8>) -> Seq<u8>
    decreases s.len(),
{
    if s.len() == 0 {
        Seq::empty()
    } else {
        decoded(s.drop_last()) + emitted(s, s.len() - 1)
    }
}

/// The bits left over after the last byte are zero, as padding leaves them.
pub open spec fn leftover_zero(s: Seq<u8>) -> bool {
    let n = s.len() as int;
    if n % 4 == 1 {
        sextet(s[n - 1]) == 0
    } else if n % 4 == 2 {
        sextet(s[n - 1]) & 15u8 == 0
    } else if n % 4 == 3 {
        sextet(s[n - 1]) & 3u8 == 0
    } else {
        true
    }
}

/// The payload and the padding of cleaned input: `=` may only end the text,
/// at most twice.
pub open spec fn split_padding(c: Seq<u8>) -> Option<(Seq<u8>, nat)> {
    match crate::text::first_index(c, byte_is(61)) {
        None => Some((c, 0)),
        Some(at) => if (exists|j: int| at <= j < c.len() && c[j] != 61) || c.len() - at > 2 {
            None
        } else {
            Some((c.take(at), (c.len() - at) as nat))
        },
    }
}

pub open spec fn byte_is(b: u8) -> spec_fn(u8) -> bool {
    |x: u8| x == b
}

/// Standard base64 (RFC 4648, with `=` padding), whitespace skipped: `None`
/// for a character outside the alphabet, misplaced or excess padding, a
/// length that is not a multiple of four, or nonzero leftover bits.
pub open spec fn decode_spec(input: Seq<u8>) -> Option<Seq<u8>> {
    match split_padding(cleaned(input)) {
        None => None,
        Some((payload, padding)) => if (payload.len() + padding) % 4 != 0 {
            None
        } else if !(forall|i: int| 0 <= i < payload.len() ==> b64_char(#[trigger] payload[i])) {
            None
        } else if !leftover_zero(payload) {
            None
        } else {
            Some(decoded(payload))
        },
    }
}

proof fn lemma_cleaned_append(a: Seq<u8>, b: Seq<u8>)
    ensures
        cleaned(a + b) == cleaned(a) + cleaned(b),
    decreases b.len(),
{
    if b.len() == 0 {
        assert(a + b =~= a);
        assert(cleaned(a) + cleaned(b) =~= cleaned(a));
    } else {
        lemma_cleaned_append(a, b.drop_last());
        assert((a + b).drop_last() =~= a + b.drop_last());
        assert((a + b).last() == b.last());
        let tail = if b64_space(b.last()) {
            Seq::<u8>::empty()
        } else {
            seq![b.last()]
        };
        assert(cleaned(a) + cleaned(b.drop_last()) + tail =~= cleaned(a) + (cleaned(b.drop_last())
            + tail));
    }
}

/// ASCII whitespace (space, tab, line feed, form feed, carriage return) is
/// skipped wherever it stands: inserting one such byte anywhere into the
/// input leaves what it decodes to, or that it does not decode, unchanged.
pub proof fn law_whitespace_is_skipped(input: Seq<u8>, k: int, w: u8)
    requires
        0 <= k <= input.len(),
        w == 32 || w == 9 || w == 10 || w == 12 || w == 13,
    ensures
        decode_spec(input.take(k) + seq![w] + input.skip(k)) == decode_spec(input),
{
    let a = input.take(k);
    let b = input.skip(k);
    lemma_cleaned_append(a + seq![w], b);
    lemma_cleaned_append(a, seq![w]);
    lemma_cleaned_append(a, b);
    assert(seq![w].drop_last() =~= Seq::<u8>::empty());
    assert(seq![w].last() == w);
    assert(cleaned(Seq::<u8>::empty()) == Seq::<u8>::empty());
    assert(b64_space(w));
    assert(cleaned(seq![w]) =~= Seq::<u8>::empty() + Seq::<u8>::empty());
    assert(cleaned(a) + Seq::<u8>::empty() =~= cleaned(a));
    assert(a + b =~= input);
}

/// A byte outside the alphabet that is neither whitespace nor `=` spoils
/// the text wherever it stands: inserting one makes the input not decode.
pub proof fn law_foreign_bytes_are_refused(input: Seq<u8>, k: int, x: u8)
    requires
        0 <= k <= input.len(),
        !(65 <= x <= 90 || 97 <= x <= 122 || 48 <= x <= 57 || x == 43 || x == 47),
        !(x == 32 || x == 9 || x == 10 || x == 12 || x == 13),
        x != 61,
    ensures
        decode_spec(input.take(k) + seq![x] + input.skip(k)) is None,
{
    let a = input.take(k);
    let b = input.skip(k);
    lemma_cleaned_append(a + seq![x], b);
    lemma_cleaned_append(a, seq![x]);
    assert(seq![x].drop_last() =~= Seq::<u8>::empty());
    assert(seq![x].last() == x);
    assert(cleaned(Seq::<u8>::empty()) == Seq::<u8>::empty());
    assert(cleaned(seq![x]) =~= Seq::<u8>::empty() + seq![x]);
    let c = cleaned(a + seq![x] + b);
    let p = cleaned(a).len() as int;
    assert(c == cleaned(a) + seq![x] + cleaned(b));
    assert(c[p] == x);
    crate::text::lemma_first_index(c, byte_is(61));
    match crate::text::first_index(c, byte_is(61)) {
        None => {
            assert(split_padding(c) == Some((c, 0nat)));
            assert(!b64_char(c[p]));
        },
        Some(at) => {
            if at < p {
                assert(at <= p < c.len() && c[p] != 61);
            } else {
                assert(at != p);
                assert(c.take(at)[p] == x);
                assert(!b64_char(c.take(at)[p]));
            }
        },
    }
}

fn sextet_of(b: u8) -> (r: Option<u32>)
    ensures
        b64_char(b) ==> r == Some(sextet(b) as u32),
        !b64_char(b) ==> r is None,
        r matches Some(v) ==> v < 64,
{
    if b >= 65 && b <= 90 {
        Some((b - 65) as u32)
    } else if b >= 97 && b <= 122 {
        Some((b - 97 + 26) as u32)
    } else if b >= 48 && b <= 57 {
        Some((b - 48 + 52) as u32)
    } else if b == 43 {
        Some(62)
    } else if b == 47 {
        Some(63)
    } else {
        None
    }
}

fn clean_bytes(bytes: &[u8]) -> (r: Vec<u8>)
    ensures
        r@ == cleaned(bytes@),
{
    let mut out: Vec<u8> = Vec::new();
    let mut i: usize = 0;
    while i < bytes.len()
        invariant
            i <= bytes.len(),
            out@ == cleaned(bytes@.take(i as int)),
        decreases bytes.len() - i,
    {
        let b = bytes[i];
        assert(bytes@.take(i + 1).drop_last() =~= bytes@.take(i as int));
        if !(b == 32 || b == 9 || b == 10 || b == 12 || b == 13) {
            out.push(b);
        }
        assert(out@ =~= cleaned(bytes@.take(i + 1)));
        i = i + 1;
    }
    assert(bytes@.take(i as int) =~= bytes@);
    out
}

fn padding_of(c: &Vec<u8>) -> (r: Option<usize>)
    ensures
        match split_padding(c@) {
            None => r is None,
            Some((p, _)) => r matches Some(at) && at <= c@.len() && p == c@.take(at as int),
        },
        r matches Some(at) ==> split_padding(c@) matches Some((p, pad)) && pad == c@.len() - at,
{
    let mut at: usize = 0;
    while at < c.len() && c[at] != 61
        invariant
            at <= c.len(),
            forall|j: int| 0 <= j < at ==> !byte_is(61)(#[trigger] c@[j]),
        decreases c.len() - at,
    {
        at = at + 1;
    }
    if at == c.len() {
        proof {
            crate::text::lemma_first_index_none(c@, byte_is(61));
            assert(c@.take(at as int) =~= c@);
        }
        return Some(at);
    }
    proof {
        crate::text::lemma_first_index_is(c@, byte_is(61), at as int);
    }
    let mut j = at;
    while j < c.len()
        invariant
            at <= j <= c.len(),
            crate::text::first_index(c@, byte_is(61)) == Some(at as int),
            forall|k: int| at <= k < j ==> c@[k] == 61,
        decreases c.len() - j,
    {
        if c[j] != 61 {
            assert(at <= j < c@.len() && c@[j as int] != 61);
            return None;
        }
        j = j + 1;
    }
    if c.len() - at > 2 {
        return None;
    }
    Some(at)
}

proof fn lemma_decoded_step(s: Seq<u8>, k: int)
    requires
        0 <= k < s.len(),
    ensures
        decoded(s.take(k + 1)) == decoded(s.take(k)) + emitted(s, k),
{
    let t = s.take(k + 1);
    assert(t.drop_last() =~= s.take(k));
    assert(emitted(t, k) == emitted(s, k));
}

/// Decodes standard base64 (RFC 4648, `=` padded); whitespace inside the
/// text is skipped.
pub fn decode_base64(input: &str) -> (r: Option<Vec<u8>>)
    ensures
        match decode_spec(input.spec_bytes()) {
            Some(b) => r matches Some(v) && v@ == b,
            None => r is None,
        },
{
    let raw = input.as_bytes();
    let c = clean_bytes(raw);
    let at = match padding_of(&c) {
        Some(at) => at,
        None => {
            return None;
        },
    };
    let padding: usize = c.len() - at;
    if (at + padding) % 4 != 0 {
        return None;
    }
    let ghost payload = c@.take(at as int);
    let mut out: Vec<u8> = Vec::new();
    let mut acc: u32 = 0;
    let mut bits: u32 = 0;
    let mut k: usize = 0;
    while k < at
        invariant
            at <= c@.len(),
            k <= at,
            c@ == cleaned(input.spec_bytes()),
            split_padding(c@) == Some((payload, padding as nat)),
            (payload.len() + padding) % 4 == 0,
            padding == c@.len() - at,
            payload == c@.take(at as int),
            forall|i: int| 0 <= i < k ==> b64_char(#[trigger] payload[i]),
            out@ == decoded(payload.take(k as int)),
            k % 4 == 0 ==> bits == 0,
            k % 4 == 1 ==> bits == 6 && acc & 63 == sextet(payload[k - 1]) as u32,
            k % 4 == 2 ==> bits == 4 && acc & 15 == (sextet(payload[k - 1]) & 15u8) as u32,
            k % 4 == 3 ==> bits == 2 && acc & 3 == (sextet(payload[k - 1]) & 3u8) as u32,
        decreases at - k,
    {
        let b = c[k];
        assert(b == payload[k as int]);
        let v = match sextet_of(b) {
            Some(v) => v,
            None => {
                assert(!b64_char(payload[k as int]));
                assert(!(forall|i: int| 0 <= i < payload.len() ==> b64_char(#[trigger] payload[i])));
                return None;
            },
        };
        let ghost sv = sextet(b);
        assert(v == sv as u32);
        proof {
            lemma_decoded_step(payload, k as int);
        }
        let next: u32 = (acc << 6u32) | v;
        if k % 4 == 0 {
            assert(((acc << 6u32) | v) & 63 == v) by (bit_vector)
                requires
                    v < 64,
            ;
            bits = 6;
        } else if k % 4 == 1 {
            let byte: u8 = (next >> 4u32) as u8;
            let ghost pv = sextet(payload[k - 1]);
            assert(byte == ((pv << 2u8) | (sv >> 4u8)) as u8) by (bit_vector)
                requires
                    v < 64,
                    v == sv as u32,
                    pv < 64,
                    acc & 63 == pv as u32,
                    next == (acc << 6u32) | v,
                    byte == (next >> 4u32) as u8,
            ;
            assert(next & 15 == (sv & 15u8) as u32) by (bit_vector)
                requires
                    v == sv as u32,
                    next == (acc << 6u32) | v,
            ;
            out.push(byte);
            bits = 4;
        } else if k % 4 == 2 {
            let byte: u8 = (next >> 2u32) as u8;
            let ghost pv = sextet(payload[k - 1]);
            assert(byte == (((pv & 15u8) << 4u8) | (sv >> 2u8)) as u8) by (bit_vector)
                requires
                    v < 64,
                    v == sv as u32,
                    pv < 64,
                    acc & 15 == (pv & 15u8) as u32,
                    next == (acc << 6u32) | v,
                    byte == (next >> 2u32) as u8,
            ;
            assert(next & 3 == (sv & 3u8) as u32) by (bit_vector)
                requires
                    v == sv as u32,
                    next == (acc << 6u32) | v,
            ;
            out.push(byte);
            bits = 2;
        } else {
            let byte: u8 = next as u8;
            let ghost pv = sextet(payload[k - 1]);
            assert(byte == (((pv & 3u8) << 6u8) | sv) as u8) by (bit_vector)
                requires
                    v < 64,
                    v == sv as u32,
                    pv < 64,
                    acc & 3 == (pv & 3u8) as u32,
                    next == (acc << 6u32) | v,
                    byte == next as u8,
            ;
            out.push(byte);
            bits = 0;
        }
        acc = next;
        assert(out@ =~= decoded(payload.take(k + 1)));
        k = k + 1;
    }
    assert(payload.take(k as int) =~= payload);
    let mask: u32 = if bits == 0 {
        0
    } else if bits == 6 {
        63
    } else if bits == 4 {
        15
    } else {
        3
    };
    assert(payload.len() == at);
    if acc & mask != 0 {
        proof {
            let n = at as int;
            if n % 4 == 1 {
                assert(acc & 63 != 0);
                assert(sextet(payload[n - 1]) != 0);
            } else if n % 4 == 2 {
                assert(acc & 15 != 0);
                assert(sextet(payload[n - 1]) & 15u8 != 0);
            } else if n % 4 == 3 {
                assert(acc & 3 != 0);
                assert(sextet(payload[n - 1]) & 3u8 != 0);
            } else {
                assert(mask == 0);
                assert(acc & 0 == 0) by (bit_vector);
            }
        }
        assert(!leftover_zero(payload));
        return None;
    }
    assert(leftover_zero(payload));
    Some(out)
}

// ---------------------------------------------------------------------------
// WDA's JSON answers
// ---------------------------------------------------------------------------

/// What serde_json reads from a body at a JSON pointer as a string: `None`
/// when the body is not JSON, nothing is there, or it is not a string.
pub uninterp spec fn json_str_at(body: Seq<u8>, pointer: Seq<char>) -> Option<Seq<char>>;

/// What serde_json reads from a body at a JSON pointer as an unsigned
/// integer, in the same way.
pub uninterp spec fn json_u64_at(body: Seq<u8>, pointer: Seq<char>) -> Option<u64>;

/// What serde_json reads from a body at a JSON pointer as a boolean, in the
/// same way.
pub uninterp spec fn json_bool_at(body: Seq<u8>, pointer: Seq<char>) -> Option<bool>;

/// Whether the body is JSON with some value at the pointer.
pub uninterp spec fn json_present_at(body: Seq<u8>, pointer: Seq<char>) -> bool;

/// serde_json's error text when the body is not one JSON value.
pub uninterp spec fn json_error(body: Seq<u8>) -> Option<Seq<char>>;

/// Trusted: `serde_json::from_slice` into a `Value`, then `Value::pointer`
/// and `Value::as_str`. The result is named `json_str_at`.
#[verifier::external_body]
fn json_str(body: &[u8], pointer: &str) -> (r: Option<String>)
    ensures
        match r {
            Some(s) => json_str_at(body@, pointer@) == Some(s@),
            None => json_str_at(body@, pointer@) is None,
        },
{
    match serde_json::from_slice::<serde_json::Value>(body) {
        Ok(value) => value.pointer(pointer).and_then(serde_json::Value::as_str).map(str::to_owned),
        Err(_) => None,
    }
}

/// Trusted: `serde_json::from_slice` into a `Value`, then `Value::pointer`
/// and `Value::as_u64`. The result is named `json_u64_at`.
#[verifier::external_body]
fn json_u64(body: &[u8], pointer: &str) -> (r: Option<u64>)
    ensures
        r == json_u64_at(body@, pointer@),
{
    match serde_json::from_slice::<serde_json::Value>(body) {
        Ok(value) => value.pointer(pointer).and_then(serde_json::Value::as_u64),
        Err(_) => None,
    }
}

/// Trusted: `serde_json::from_slice` into a `Value`, then `Value::pointer`
/// and `Value::as_bool`. The result is named `json_bool_at`.
#[verifier::external_body]
fn json_bool(body: &[u8], pointer: &str) -> (r: Option<bool>)
    ensures
        r == json_bool_at(body@, pointer@),
{
    match serde_json::from_slice::<serde_json::Value>(body) {
        Ok(value) => value.pointer(pointer).and_then(serde_json::Value::as_bool),
        Err(_) => None,
    }
}

/// Trusted: `serde_json::from_slice` into a `Value`, then whether
/// `Value::pointer` finds something. The result is named `json_present_at`.
#[verifier::external_body]
fn json_present(body: &[u8], pointer: &str) -> (r: bool)
    ensures
        r == json_present_at(body@, pointer@),
{
    match serde_json::from_slice::<serde_json::Value>(body) {
        Ok(value) => value.pointer(pointer).is_some(),
        Err(_) => false,
    }
}

/// Trusted: `serde_json::from_slice` into a `Value`; its error's `Display`
/// text. The result is named `json_error`.
#[verifier::external_body]
fn json_parse_error(body: &[u8]) -> (r: Option<String>)
    ensures
        match r {
            Some(e) => json_error(body@) == Some(e@),
            None => json_error(body@) is None,
        },
{
    match serde_json::from_slice::<serde_json::Value>(body) {
        Ok(_) => None,
        Err(error) => Some(error.to_string()),
    }
}

pub open spec fn body_too_large_message(path: Seq<char>) -> Seq<char> {
    "WDA "@ + path + " response exceeded the 8388608 byte limit"@
}

pub open spec fn unparsable_message(path: Seq<char>, error: Seq<char>) -> Seq<char> {
    "WDA "@ + path + " returned unparsable JSON: "@ + error
}

/// Whether a WDA response body read from `path` can be used: at most
/// `BODY_LIMIT` bytes, and empty (no value) or one JSON value.
pub fn wda_body(path: &str, body: &[u8]) -> (r: Result<(), String>)
    ensures
        body@.len() > BODY_LIMIT ==> (r matches Err(m) && m@ == body_too_large_message(path@)),
        body@.len() == 0 ==> r is Ok,
        0 < body@.len() <= BODY_LIMIT ==> match json_error(body@) {
            Some(e) => r matches Err(m) && m@ == unparsable_message(path@, e),
            None => r is Ok,
        },
{
    if body.len() > BODY_LIMIT {
        let mut m = String::new();
        push_str(&mut m, "WDA ");
        push_str(&mut m, path);
        push_str(&mut m, " response exceeded the 8388608 byte limit");
        assert(m@ =~= body_too_large_message(path@)) by {
            reveal_strlit("");
        }
        return Err(m);
    }
    if body.len() == 0 {
        return Ok(());
    }
    match json_parse_error(body) {
        Some(e) => {
            let mut m = String::new();
            push_str(&mut m, "WDA ");
            push_str(&mut m, path);
            push_str(&mut m, " returned unparsable JSON: ");
            push_str(&mut m, e.as_str());
            assert(m@ =~= unparsable_message(path@, e@)) by {
                reveal_strlit("");
            }
            Err(m)
        },
        None => Ok(()),
    }
}

/// The session id of a new session: `sessionId` at the top level when there
/// is one, else under `value`; `None` when it is not a string.
pub open spec fn session_id_spec(b: Seq<u8>) -> Option<Seq<char>> {
    if json_present_at(b, "/sessionId"@) {
        json_str_at(b, "/sessionId"@)
    } else {
        json_str_at(b, "/value/sessionId"@)
    }
}

pub fn session_id_from(body: &[u8]) -> (r: Option<String>)
    ensures
        match session_id_spec(body@) {
            Some(s) => r matches Some(x) && x@ == s,
            None => r is None,
        },
{
    if json_present(body, "/sessionId") {
        json_str(body, "/sessionId")
    } else {
        json_str(body, "/value/sessionId")
    }
}

/// The window size: its fields under `value` when there is one, else at the
/// top level, each an unsigned integer cut to 32 bits; or what is missing.
pub open spec fn window_size_spec(b: Seq<u8>) -> Result<(u32, u32), Seq<char>> {
    let in_value = json_present_at(b, "/value"@);
    let w = if in_value {
        json_u64_at(b, "/value/width"@)
    } else {
        json_u64_at(b, "/width"@)
    };
    let h = if in_value {
        json_u64_at(b, "/value/height"@)
    } else {
        json_u64_at(b, "/height"@)
    };
    match w {
        None => Err("window size has no width"@),
        Some(w) => match h {
            None => Err("window size has no height"@),
            Some(h) => Ok((w as u32, h as u32)),
        },
    }
}

pub fn window_size_from(body: &[u8]) -> (r: Result<WindowSize, Error>)
    ensures
        match window_size_spec(body@) {
            Ok((w, h)) => r matches Ok(s) && s.width == w && s.height == h,
            Err(m) => r matches Err(e) && e@ == ErrorView::WdaSessionFailed(m),
        },
{
    let in_value = json_present(body, "/value");
    let w = if in_value {
        json_u64(body, "/value/width")
    } else {
        json_u64(body, "/width")
    };
    let h = if in_value {
        json_u64(body, "/value/height")
    } else {
        json_u64(body, "/height")
    };
    match w {
        None => Err(Error::WdaSessionFailed("window size has no width".to_owned())),
        Some(w) => match h {
            None => Err(Error::WdaSessionFailed("window size has no height".to_owned())),
            Some(h) => Ok(WindowSize { width: w as u32, height: h as u32 }),
        },
    }
}

/// Whether the device is locked: the boolean `value`.
pub fn locked_from(body: &[u8]) -> (r: Result<bool, Error>)
    ensures
        match json_bool_at(body@, "/value"@) {
            Some(b) => r == Ok::<bool, Error>(b),
            None => r matches Err(e) && e@ == ErrorView::WdaSessionFailed(
                "locked response has no boolean value"@,
            ),
        },
{
    match json_bool(body, "/value") {
        Some(b) => Ok(b),
        None => Err(Error::WdaSessionFailed("locked response has no boolean value".to_owned())),
    }
}

/// The screenshot: the base64 string `value`, decoded.
pub open spec fn screenshot_spec(b: Seq<u8>) -> Result<Seq<u8>, Seq<char>> {
    match json_str_at(b, "/value"@) {
        None => Err("screenshot response has no value"@),
        Some(s) => match decode_spec(vstd::utf8::encode_utf8(s)) {
            None => Err("screenshot was not valid base64"@),
            Some(png) => Ok(png),
        },
    }
}

pub fn screenshot_from(body: &[u8]) -> (r: Result<Vec<u8>, Error>)
    ensures
        match screenshot_spec(body@) {
            Ok(png) => r matches Ok(v) && v@ == png,
            Err(m) => r matches Err(e) && e@ == ErrorView::ScreenshotFailed(m),
        },
{
    match json_str(body, "/value") {
        None => Err(Error::ScreenshotFailed("screenshot response has no value".to_owned())),
        Some(s) => match decode_base64(s.as_str()) {
            None => Err(Error::ScreenshotFailed("screenshot was not valid base64".to_owned())),
            Some(png) => Ok(png),
        },
    }
}

/// The focused element's id: under `value` when there is one, else at the
/// top level, by the legacy key `ELEMENT` first, then the W3C key.
pub open spec fn element_id_spec(b: Seq<u8>) -> Option<Seq<char>> {
    let in_value = json_present_at(b, "/value"@);
    let legacy = if in_value {
        json_str_at(b, "/value/ELEMENT"@)
    } else {
        json_str_at(b, "/ELEMENT"@)
    };
    match legacy {
        Some(id) => Some(id),
        None => if in_value {
            json_str_at(b, "/value/element-6066-11e4-a52e-4f735466cecf"@)
        } else {
            json_str_at(b, "/element-6066-11e4-a52e-4f735466cecf"@)
        },
    }
}

pub fn element_id_from(body: &[u8]) -> (r: Option<String>)
    ensures
        match element_id_spec(body@) {
            Some(s) => r matches Some(x) && x@ == s,
            None => r is None,
        },
{
    let in_value = json_present(body, "/value");
    let legacy = if in_value {
        json_str(body, "/value/ELEMENT")
    } else {
        json_str(body, "/ELEMENT")
    };
    match legacy {
        Some(id) => Some(id),
        None => if in_value {
            json_str(body, "/value/element-6066-11e4-a52e-4f735466cecf")
        } else {
            json_str(body, "/element-6066-11e4-a52e-4f735466cecf")
        },
    }
}

/// A field's value as read back: the string `value`, or empty text.
pub fn read_back_value(body: &[u8]) -> (r: String)
    ensures
        r@ == match json_str_at(body@, "/value"@) {
            Some(s) => s,
            None => Seq::<char>::empty(),
        },
{
    match json_str(body, "/value") {
        Some(s) => s,
        None => String::new(),
    }
}

/// A failed lookup of the focused element: WDA's `nosuchelement` means no
/// text field has focus; anything else is a session failure.
pub fn active_element_error(message: String) -> (r: Error)
    ensures
        contains(message@, "nosuchelement"@) ==> r@ == ErrorView::NoActiveElement,
        !contains(message@, "nosuchelement"@) ==> r@ == ErrorView::WdaSessionFailed(message@),
{
    let cs = chars_of(message.as_str());
    if contains_str(cs.as_slice(), "nosuchelement") {
        Error::NoActiveElement
    } else {
        Error::WdaSessionFailed(message)
    }
}

} // verus!
