//! Per-connection decision logic of the command-ingest server.
//!
//! A handler reads one bounded chunk from its connection and then decides:
//! zero bytes mean the peer closed and nothing happens; bytes that are not
//! valid UTF-8 are dropped silently; valid text is trimmed, the shared
//! timestamp is read and overwritten as one unit, and the fixed
//! acknowledgement is owed back to the peer.

use vstd::prelude::*;
use crate::timestamp::{LastExecution, interval_of};

verus! {

/// What decoding a byte sequence as UTF-8 yields: the characters when the
/// bytes are valid, nothing otherwise. Determined by the bytes alone.
pub uninterp spec fn utf8_of(bytes: Seq<u8>) -> Option<Seq<char>>;

/// The text left after removing leading and trailing whitespace; determined
/// by the characters alone.
pub uninterp spec fn trim_of(text: Seq<char>) -> Seq<char>;

/// Relies on std's `str::from_utf8`: returns the decoded text exactly when
/// the bytes are valid UTF-8, and an empty byte sequence is valid.
#[verifier::external_body]
fn decode_utf8(bytes: &Vec<u8>) -> (r: Option<String>)
    ensures
        r matches Some(s) ==> utf8_of(bytes@) == Some(s@),
        r is None ==> utf8_of(bytes@) is None,
        bytes@.len() == 0 ==> r is Some,
{
    match std::str::from_utf8(bytes.as_slice()) {
        Ok(s) => Some(s.to_string()),
        Err(_) => None,
    }
}

/// Relies on std's `str::trim`: removes leading and trailing whitespace and
/// never lengthens the text.
#[verifier::external_body]
fn trim_text(text: &String) -> (r: String)
    ensures
        r@ == trim_of(text@),
        r@.len() <= text@.len(),
{
    text.trim().to_string()
}

/// The outcome of one connection: the peer closed without sending, the
/// payload was dropped as malformed, or a command was logged and the
/// acknowledgement is owed.
pub enum IngestOutcome {
    /// Zero bytes were read: the peer closed; no response, no update.
    PeerClosed,
    /// The bytes were not valid UTF-8: dropped silently; no response, no
    /// update.
    Malformed,
    /// A command was accepted: the trimmed text, and the interval since the
    /// previous command; the acknowledgement is owed to the peer.
    Acknowledged { command: String, interval_ms: u64 },
}

/// Decides the outcome of one connection from the bytes read out of it.
/// The shared timestamp is updated exactly when a command is accepted, and
/// the read-compute-write on it is one unit.
pub fn handle_payload(state: &mut LastExecution, bytes: &Vec<u8>, now_ms: u64) -> (r: IngestOutcome)
    ensures
        bytes@.len() == 0 ==> r is PeerClosed && *final(state) == *old(state),
        bytes@.len() > 0 && utf8_of(bytes@) is None ==> r is Malformed && *final(state) == *old(state),
        (bytes@.len() > 0 && utf8_of(bytes@) is Some) ==> (
            r matches IngestOutcome::Acknowledged { command, interval_ms }
            && command@ == trim_of(utf8_of(bytes@)->Some_0)
            && interval_ms == interval_of(old(state).last_ms, now_ms)
            && final(state).last_ms == now_ms
        ),
{
    if bytes.len() == 0 {
        return IngestOutcome::PeerClosed;
    }
    match decode_utf8(bytes) {
        None => IngestOutcome::Malformed,
        Some(text) => {
            let command = trim_text(&text);
            let interval_ms = state.record(now_ms);
            IngestOutcome::Acknowledged { command, interval_ms }
        }
    }
}

/// The fixed nine-byte acknowledgement: the word SUCCESS between JSON string
/// quotes.
pub open spec fn ack_of() -> Seq<u8> {
    seq![34u8, 83u8, 85u8, 67u8, 67u8, 69u8, 83u8, 83u8, 34u8]
}

/// The acknowledgement payload written back after an accepted command.
pub fn ack_bytes() -> (v: Vec<u8>)
    ensures
        v@ == ack_of(),
        v@.len() == 9,
{
    let mut v: Vec<u8> = Vec::new();
    v.push(34);
    v.push(83);
    v.push(85);
    v.push(67);
    v.push(67);
    v.push(69);
    v.push(83);
    v.push(83);
    v.push(34);
    proof {
        assert(v@ =~= ack_of());
    }
    v
}

} // verus!
