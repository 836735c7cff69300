//! Configuration-side protocol logic: the diff-based partial-update encoder
//! that turns an edited cell table into the device's write protocol, and the
//! send/expect splitting and matching of mode-sequence scripts.

use vstd::prelude::*;
use vstd::slice::slice_to_vec;
use vstd::string::StringSliceAdditionalSpecFns;
use vstd::utf8::encode_utf8;

use crate::data_types::{CellV, MkDeviceCell, MkDeviceConfig};
use crate::text::{chars_vec, split_whitespace_chars, split_ws, string_from_chars};
use crate::tinymesh_serial_util::SENTINEL;

verus! {

/// Terminator byte of a non-empty update delta.
pub const DELTA_TERMINATOR: u8 = 0xff;

/// The address/value pairs for every position from `i` on where the edited
/// cell's current value differs from the previous one: the edited cell's
/// address truncated to a byte, then its current value.
pub open spec fn delta_pairs_from(prev: Seq<CellV>, edited: Seq<CellV>, i: int) -> Seq<u8>
    decreases edited.len() - i,
{
    if i < 0 || i >= edited.len() {
        Seq::empty()
    } else {
        (if edited[i].current_value != prev[i].current_value {
            seq![(edited[i].address % 256) as u8, edited[i].current_value]
        } else {
            Seq::<u8>::empty()
        }) + delta_pairs_from(prev, edited, i + 1)
    }
}

/// The full byte sequence of an update delta: all differing address/value
/// pairs, terminated by `0xff` when any pair is present, empty otherwise.
pub open spec fn spec_delta_bytes(prev: Seq<CellV>, edited: Seq<CellV>) -> Seq<u8> {
    let pairs = delta_pairs_from(prev, edited, 0);
    if pairs.len() == 0 {
        pairs
    } else {
        pairs.push(DELTA_TERMINATOR)
    }
}

/// Applies an encoded delta onto a raw byte buffer: each leading
/// address/value pair updates one position; anything shorter than a pair
/// (the terminator, or nothing) changes nothing.
pub open spec fn apply_delta(raw: Seq<u8>, bytes: Seq<u8>) -> Seq<u8>
    decreases bytes.len(),
{
    if bytes.len() < 2 {
        raw
    } else if 0 <= bytes[0] < raw.len() {
        apply_delta(raw.update(bytes[0] as int, bytes[1]), bytes.skip(2))
    } else {
        apply_delta(raw, bytes.skip(2))
    }
}

proof fn lemma_delta_pairs_empty_iff(prev: Seq<CellV>, edited: Seq<CellV>, i: int)
    requires
        0 <= i <= edited.len(),
    ensures
        delta_pairs_from(prev, edited, i).len() == 0 <==> (forall|j: int|
            i <= j < edited.len() ==> (#[trigger] edited[j]).current_value
                == prev[j].current_value),
    decreases edited.len() - i,
{
    if i < edited.len() {
        lemma_delta_pairs_empty_iff(prev, edited, i + 1);
    }
}

/// The encoded delta is empty exactly when no cell's current value differs
/// between the previous and the edited table.
pub proof fn lemma_delta_empty_iff_unchanged(prev: Seq<CellV>, edited: Seq<CellV>)
    ensures
        spec_delta_bytes(prev, edited).len() == 0 <==> (forall|j: int|
            0 <= j < edited.len() ==> (#[trigger] edited[j]).current_value
                == prev[j].current_value),
{
    lemma_delta_pairs_empty_iff(prev, edited, 0);
}

proof fn lemma_apply_delta_from(prev: Seq<CellV>, edited: Seq<CellV>, i: int, cur: Seq<u8>,
    tail: Seq<u8>)
    requires
        0 <= i <= edited.len(),
        prev.len() == edited.len(),
        cur.len() == edited.len(),
        edited.len() <= 256,
        tail.len() < 2,
        forall|j: int| 0 <= j < edited.len() ==> (#[trigger] edited[j]).address == j,
        forall|j: int| 0 <= j < i ==> #[trigger] cur[j] == edited[j].current_value,
        forall|j: int| i <= j < edited.len() ==> #[trigger] cur[j] == prev[j].current_value,
    ensures
        apply_delta(cur, delta_pairs_from(prev, edited, i) + tail) =~= Seq::new(edited.len(),
            |j: int| edited[j].current_value),
    decreases edited.len() - i,
{
    if i >= edited.len() {
        assert(delta_pairs_from(prev, edited, i) + tail =~= tail);
        assert(apply_delta(cur, tail) == cur);
        assert(cur =~= Seq::new(edited.len(), |j: int| edited[j].current_value));
    } else {
        if edited[i].current_value != prev[i].current_value {
            let pair = seq![(edited[i].address % 256) as u8, edited[i].current_value];
            let rest = delta_pairs_from(prev, edited, i + 1) + tail;
            assert(delta_pairs_from(prev, edited, i) + tail =~= pair + rest);
            let whole = pair + rest;
            assert(whole[0] == (edited[i].address % 256) as u8);
            assert(whole[0] == i);
            assert(whole[1] == edited[i].current_value);
            assert(whole.skip(2) =~= rest);
            let cur2 = cur.update(i, edited[i].current_value);
            lemma_apply_delta_from(prev, edited, i + 1, cur2, tail);
        } else {
            assert(delta_pairs_from(prev, edited, i) + tail =~= delta_pairs_from(prev, edited,
                i + 1) + tail);
            lemma_apply_delta_from(prev, edited, i + 1, cur, tail);
        }
    }
}

/// Round trip of the update protocol: encoding the differences between a
/// previous table and an edited table, then applying the resulting
/// address/value pairs onto the previous raw bytes, yields the edited
/// table's current values at every position — the edited values at touched
/// addresses, the old bytes (which equal the edited values there) elsewhere.
pub proof fn lemma_delta_round_trip(prev: Seq<CellV>, edited: Seq<CellV>, raw: Seq<u8>)
    requires
        prev.len() == edited.len(),
        raw.len() == edited.len(),
        edited.len() <= 256,
        forall|j: int| 0 <= j < edited.len() ==> (#[trigger] edited[j]).address == j,
        forall|j: int| 0 <= j < raw.len() ==> #[trigger] raw[j] == prev[j].current_value,
    ensures
        apply_delta(raw, spec_delta_bytes(prev, edited)) == Seq::new(edited.len(),
            |j: int| edited[j].current_value),
{
    let pairs = delta_pairs_from(prev, edited, 0);
    if pairs.len() == 0 {
        assert(apply_delta(raw, spec_delta_bytes(prev, edited)) == raw);
        lemma_delta_pairs_empty_iff(prev, edited, 0);
        assert(raw =~= Seq::new(edited.len(), |j: int| edited[j].current_value));
    } else {
        let tail = seq![DELTA_TERMINATOR];
        assert(pairs.push(DELTA_TERMINATOR) =~= pairs + tail);
        lemma_apply_delta_from(prev, edited, 0, raw, tail);
    }
}

/// Encodes the byte sequence that applies the edits in `cells` onto the
/// configuration the device currently holds: for every position whose
/// current value differs from the stored snapshot, the cell's address byte
/// and new value, terminated by `0xff`; empty when nothing differs, which a
/// caller must treat as "nothing to send".
pub fn get_bytes_to_send_for_config_change(device_config: &MkDeviceConfig,
    cells: &[MkDeviceCell]) -> (r: Vec<u8>)
    requires
        cells@.len() <= device_config.cells@.len(),
    ensures
        r@ == spec_delta_bytes(device_config@.cells, cells.deep_view()),
{
    delta_bytes(&device_config.cells, cells)
}

/// Encodes the address/value delta between a previous cell table and an
/// edited one, index-aligned, terminated by `0xff` when non-empty.
pub fn delta_bytes(prev: &Vec<MkDeviceCell>, cells: &[MkDeviceCell]) -> (r: Vec<u8>)
    requires
        cells@.len() <= prev@.len(),
    ensures
        r@ == spec_delta_bytes(prev.deep_view(), cells.deep_view()),
{
    let ghost prev_v = prev.deep_view();
    let ghost edited_v = cells.deep_view();
    let mut bytes_to_send: Vec<u8> = Vec::new();
    let mut index: usize = 0;
    proof {
        assert(bytes_to_send@ + delta_pairs_from(prev_v, edited_v, 0) =~= delta_pairs_from(
            prev_v, edited_v, 0));
    }
    while index < cells.len()
        invariant
            index <= cells@.len(),
            cells@.len() <= prev@.len(),
            prev_v == prev.deep_view(),
            edited_v == cells.deep_view(),
            delta_pairs_from(prev_v, edited_v, 0) == bytes_to_send@ + delta_pairs_from(prev_v,
                edited_v, index as int),
        decreases cells@.len() - index,
    {
        let cell = &cells[index];
        if cell.current_value != prev[index].current_value {
            let ghost before = bytes_to_send@;
            bytes_to_send.push((cell.address % 256) as u8);
            bytes_to_send.push(cell.current_value);
            proof {
                let pair = seq![(edited_v[index as int].address % 256) as u8,
                    edited_v[index as int].current_value];
                assert(bytes_to_send@ =~= before + pair);
                assert(before + (pair + delta_pairs_from(prev_v, edited_v, index as int + 1))
                    =~= (before + pair) + delta_pairs_from(prev_v, edited_v, index as int + 1));
            }
        }
        index = index + 1;
    }
    proof {
        assert(delta_pairs_from(prev_v, edited_v, cells@.len() as int) =~= Seq::<u8>::empty());
        assert(bytes_to_send@ + Seq::<u8>::empty() =~= bytes_to_send@);
    }
    if bytes_to_send.len() > 0 {
        bytes_to_send.push(DELTA_TERMINATOR);
    }
    bytes_to_send
}

// === mode-sequence scripts =================================================

/// A token without one leading marker character.
pub open spec fn strip_marker(t: Seq<char>, c: char) -> Seq<char> {
    if t.len() > 0 && t[0] == c {
        t.drop_first()
    } else {
        t
    }
}

/// What splitting a mode-sequence script yields: on exactly two
/// whitespace-separated tokens, the UTF-8 bytes of the first without a
/// single leading `a` (the bytes to send) and of the second without a
/// single leading `#` (the bytes to expect); any other token count is no
/// script.
pub open spec fn spec_extract_send_recv(s: Seq<char>) -> Option<(Seq<u8>, Seq<u8>)> {
    let toks = split_ws(s);
    if toks.len() == 2 {
        Some((encode_utf8(strip_marker(toks[0], 'a')), encode_utf8(strip_marker(toks[1], '#'))))
    } else {
        None
    }
}

/// The UTF-8 bytes of a token without a single leading marker character.
fn token_bytes(t: &[char], marker: char) -> (r: Vec<u8>)
    ensures
        r@ == encode_utf8(strip_marker(t@, marker)),
{
    let start: usize = if t.len() > 0 && t[0] == marker {
        1
    } else {
        0
    };
    let rest = &t[start..t.len()];
    proof {
        assert(rest@ =~= strip_marker(t@, marker));
    }
    let s = string_from_chars(rest);
    let b = slice_to_vec(s.as_str().as_bytes());
    b
}

/// Splits a mode-sequence script of the form `a<send> #<expect>` into the
/// bytes to send and the bytes to expect back; `None` when the script does
/// not consist of exactly two whitespace-separated tokens.
pub fn extract_send_recv_seq(sequence_str: &str) -> (r: Option<(Vec<u8>, Vec<u8>)>)
    ensures
        match spec_extract_send_recv(sequence_str@) {
            Some(p) => r matches Some(q) && q.0@ == p.0 && q.1@ == p.1,
            None => r is None,
        },
{
    let chars = chars_vec(sequence_str);
    let tokens = split_whitespace_chars(chars.as_slice());
    if tokens.len() != 2 {
        return None;
    }
    let send = token_bytes(tokens[0].as_slice(), 'a');
    let recv = token_bytes(tokens[1].as_slice(), '#');
    Some((send, recv))
}

// === write sessions ========================================================

/// One write session's progress: the session command goes out first, then
/// the encoded delta, and the device acknowledges each with an empty
/// sentinel-terminated frame before the session may proceed.
#[derive(Clone, Copy, Debug, PartialEq)]
pub enum WriteSession {
    AwaitingSessionAck,
    AwaitingDeltaAck,
    Accepted,
    Rejected,
}

/// The next state of a write session once the acknowledgement frame is in:
/// an empty frame lets the session proceed, any other frame rejects it,
/// and a finished session stays as it ended.
pub open spec fn spec_write_session_advance(state: WriteSession, ack: Seq<u8>) -> WriteSession {
    match state {
        WriteSession::AwaitingSessionAck => if ack.len() == 0 {
            WriteSession::AwaitingDeltaAck
        } else {
            WriteSession::Rejected
        },
        WriteSession::AwaitingDeltaAck => if ack.len() == 0 {
            WriteSession::Accepted
        } else {
            WriteSession::Rejected
        },
        WriteSession::Accepted => WriteSession::Accepted,
        WriteSession::Rejected => WriteSession::Rejected,
    }
}

/// Advances a write session on the acknowledgement frame just read.
pub fn write_session_advance(state: WriteSession, ack: &[u8]) -> (next: WriteSession)
    ensures
        next == spec_write_session_advance(state, ack@),
{
    match state {
        WriteSession::AwaitingSessionAck => {
            if ack.len() == 0 {
                WriteSession::AwaitingDeltaAck
            } else {
                WriteSession::Rejected
            }
        },
        WriteSession::AwaitingDeltaAck => {
            if ack.len() == 0 {
                WriteSession::Accepted
            } else {
                WriteSession::Rejected
            }
        },
        WriteSession::Accepted => WriteSession::Accepted,
        WriteSession::Rejected => WriteSession::Rejected,
    }
}


/// Whether the expected bytes of a script call for the sentinel read
/// strategy: they end in the sentinel byte `>`.
pub fn expects_sentinel_response(recv_seq: &[u8]) -> (r: bool)
    ensures
        r == (recv_seq@.len() > 0 && recv_seq@.last() == SENTINEL),
{
    recv_seq.len() > 0 && recv_seq[recv_seq.len() - 1] == SENTINEL
}

/// Whether the bytes received from the device satisfy the script's
/// expectation: for a sentinel-terminated expectation, the received bytes
/// must equal the expected ones without their trailing sentinel (the read
/// strategy already consumed it); otherwise the match is byte for byte.
pub fn mode_response_matches(recv_seq: &[u8], received: &[u8]) -> (r: bool)
    ensures
        r == (if recv_seq@.len() > 0 && recv_seq@.last() == SENTINEL {
            received@ == recv_seq@.drop_last()
        } else {
            received@ == recv_seq@
        }),
{
    if expects_sentinel_response(recv_seq) {
        let expected = &recv_seq[0..recv_seq.len() - 1];
        proof {
            assert(expected@ =~= recv_seq@.drop_last());
        }
        bytes_eq(received, expected)
    } else {
        bytes_eq(received, recv_seq)
    }
}

/// Whether two byte slices hold the same bytes.
fn bytes_eq(a: &[u8], b: &[u8]) -> (r: bool)
    ensures
        r == (a@ == b@),
{
    if a.len() != b.len() {
        return false;
    }
    let mut i: usize = 0;
    while i < a.len()
        invariant
            i <= a@.len(),
            a@.len() == b@.len(),
            forall|j: int| 0 <= j < i ==> a@[j] == b@[j],
        decreases a@.len() - i,
    {
        if a[i] != b[i] {
            return false;
        }
        i = i + 1;
    }
    proof {
        assert(a@ =~= b@);
    }
    true
}

} // verus!
