//! Hole punching: both sides prove that they know the transfer code by the
//! hash of it.

use vstd::prelude::*;
use vstd::utf8::encode_utf8;

use crate::packet::{build_simple, parse_pkt, PKT_PUNCH, PKT_PUNCH_ACK};
use crate::text::join2;

verus! {

/// How often a punch is answered.
pub const ACK_COPIES: u32 = 3;

/// How long one punch waits for its answer.
pub const PUNCH_WAIT_MS: u64 = 500;

/// The punch of a peer that knows the code with hash `hash`.
pub open spec fn punch_packet(hash: Seq<char>) -> Seq<u8> {
    crate::packet::packet(PKT_PUNCH, encode_utf8(hash))
}

/// The answer to it.
pub open spec fn punch_ack_packet(hash: Seq<char>) -> Seq<u8> {
    crate::packet::packet(PKT_PUNCH_ACK, encode_utf8(hash))
}

/// What reaches the side that waits for a punch.
pub enum WaitEvent {
    /// A datagram.
    Received(Vec<u8>),
    /// An error of the socket.
    SocketFailed,
    /// The wish to stop.
    Cancelled,
}

/// What the side that waits for a punch does.
pub enum WaitAction {
    /// Wait on.
    KeepWaiting,
    /// Answer with some copies, and take the sender as the peer.
    Answer(Vec<u8>),
    /// Give up with the error of the socket.
    FailSocket,
    /// Give up, as wished.
    FailCancelled,
}

impl WaitAction {
    /// How many copies of its datagram the action sends.
    pub fn copies(&self) -> (r: u32)
        ensures
            r == (if *self is Answer {
                ACK_COPIES
            } else {
                0
            }),
    {
        match self {
            WaitAction::Answer(_) => ACK_COPIES,
            _ => 0,
        }
    }

    /// Why the side gives up, as a text; `None` where it does not, or where the
    /// socket's error has its own.
    pub fn message(&self) -> (r: Option<&'static str>)
        ensures
            r is Some <==> *self is FailCancelled,
            r matches Some(text) ==> text@ == "Cancelled"@,
    {
        match self {
            WaitAction::FailCancelled => Some("Cancelled"),
            _ => None,
        }
    }
}

/// What reaches the side that punches.
pub enum PunchEvent {
    /// A round begins, this long after the first.
    Round { elapsed_nanos: u128, timeout_nanos: u128 },
    /// A datagram.
    Received(Vec<u8>),
    /// Nothing within the time of the wait, or an error of the socket.
    Quiet,
    /// The wish to stop.
    Cancelled,
}

/// What the side that punches does.
pub enum PunchAction {
    /// Send the punch, and wait for an answer.
    Send(Vec<u8>),
    /// Begin the next round.
    NextRound,
    /// Use the socket: the hole is open.
    Connected,
    /// Give up: the time is over.
    FailTimeout,
    /// Give up, as wished.
    FailCancelled,
}

/// Why the side that punches gives up, if it does, with the time that it had
/// spelled as `timeout`.
pub open spec fn punch_error(action: PunchAction, timeout: Seq<char>) -> Option<Seq<char>> {
    match action {
        PunchAction::FailTimeout => Some("Hole punch timed out after "@ + timeout),
        PunchAction::FailCancelled => Some("Cancelled during hole punch"@),
        _ => None,
    }
}

impl PunchAction {
    /// How long the action waits for a datagram, in milliseconds, where it waits;
    /// after that [`PunchEvent::Quiet`] is its event.
    pub fn wait_ms(&self) -> (r: Option<u64>)
        ensures
            r == (if *self is Send {
                Some(PUNCH_WAIT_MS)
            } else {
                None
            }),
    {
        match self {
            PunchAction::Send(_) => Some(PUNCH_WAIT_MS),
            _ => None,
        }
    }

    /// Why the side gives up, as a text, with the time that it had spelled as
    /// `timeout`; `None` where it does not give up.
    pub fn message(&self, timeout: &str) -> (r: Option<String>)
        ensures
            match punch_error(*self, timeout@) {
                Some(text) => r matches Some(s) && s@ == text,
                None => r is None,
            },
    {
        match self {
            PunchAction::FailTimeout => Some(join2("Hole punch timed out after ", timeout)),
            PunchAction::FailCancelled => Some("Cancelled during hole punch".to_owned()),
            _ => None,
        }
    }
}

/// True when the two byte strings are equal.
fn bytes_eq(a: &[u8], b: &[u8]) -> (r: bool)
    ensures
        r == (a@ == b@),
{
    if a.len() != b.len() {
        return false;
    }
    let mut i: usize = 0;
    while i < a.len()
        invariant
            a@.len() == b@.len(),
            i <= a@.len(),
            forall|j: int| 0 <= j < i ==> a@[j] == b@[j],
        decreases a.len() - i,
    {
        if a[i] != b[i] {
            return false;
        }
        i += 1;
    }
    assert(a@ =~= b@);
    true
}

/// True when `datagram` is the packet of type `pkt_type` that carries `hash`.
fn carries_hash(datagram: &[u8], pkt_type: u8, hash: &str) -> (r: bool)
    ensures
        r == (datagram@ == crate::packet::packet(pkt_type, encode_utf8(hash@))),
{
    proof {
        crate::packet::law_build_of_parse(datagram@);
        crate::packet::law_parse_of_build(pkt_type, encode_utf8(hash@));
    }
    match parse_pkt(datagram) {
        Some((found, payload)) => found == pkt_type && bytes_eq(payload, hash.as_bytes()),
        None => false,
    }
}

/// Decides on what reaches the side that waits for a punch with the hash
/// `expected_hash`.
pub fn wait_for_punch(event: &WaitEvent, expected_hash: &str) -> (r: WaitAction)
    ensures
        match *event {
            WaitEvent::Received(datagram) => if datagram@ == punch_packet(expected_hash@) {
                r matches WaitAction::Answer(ack) && ack@ == punch_ack_packet(expected_hash@)
            } else {
                r is KeepWaiting
            },
            WaitEvent::SocketFailed => r is FailSocket,
            WaitEvent::Cancelled => r is FailCancelled,
        },
{
    match event {
        WaitEvent::Received(datagram) => if carries_hash(
            datagram.as_slice(),
            PKT_PUNCH,
            expected_hash,
        ) {
            WaitAction::Answer(build_simple(PKT_PUNCH_ACK, expected_hash.as_bytes()))
        } else {
            WaitAction::KeepWaiting
        },
        WaitEvent::SocketFailed => WaitAction::FailSocket,
        WaitEvent::Cancelled => WaitAction::FailCancelled,
    }
}

/// Decides on what reaches the side that punches with the hash `code_hash`.
pub fn punch_to_sender(event: &PunchEvent, code_hash: &str) -> (r: PunchAction)
    ensures
        match *event {
            PunchEvent::Round { elapsed_nanos, timeout_nanos } => if elapsed_nanos > timeout_nanos {
                r is FailTimeout
            } else {
                r matches PunchAction::Send(punch) && punch@ == punch_packet(code_hash@)
            },
            PunchEvent::Received(datagram) => if datagram@ == punch_ack_packet(code_hash@) {
                r is Connected
            } else {
                r is NextRound
            },
            PunchEvent::Quiet => r is NextRound,
            PunchEvent::Cancelled => r is FailCancelled,
        },
{
    match event {
        PunchEvent::Round { elapsed_nanos, timeout_nanos } => if *elapsed_nanos > *timeout_nanos {
            PunchAction::FailTimeout
        } else {
            PunchAction::Send(build_simple(PKT_PUNCH, code_hash.as_bytes()))
        },
        PunchEvent::Received(datagram) => if carries_hash(
            datagram.as_slice(),
            PKT_PUNCH_ACK,
            code_hash,
        ) {
            PunchAction::Connected
        } else {
            PunchAction::NextRound
        },
        PunchEvent::Quiet => PunchAction::NextRound,
        PunchEvent::Cancelled => PunchAction::FailCancelled,
    }
}

/// Only peers with one hash open a hole: a punch, and the answer to one, equals
/// what the other side looks for exactly when both sides have the same hash,
/// and no punch passes for an answer.
pub proof fn law_punch_needs_the_hash(mine: Seq<char>, theirs: Seq<char>)
    ensures
        punch_packet(mine) == punch_packet(theirs) <==> mine == theirs,
        punch_ack_packet(mine) == punch_ack_packet(theirs) <==> mine == theirs,
        punch_packet(mine) != punch_ack_packet(theirs),
{
    crate::packet::law_parse_of_build(PKT_PUNCH, encode_utf8(mine));
    crate::packet::law_parse_of_build(PKT_PUNCH, encode_utf8(theirs));
    crate::packet::law_parse_of_build(PKT_PUNCH_ACK, encode_utf8(mine));
    crate::packet::law_parse_of_build(PKT_PUNCH_ACK, encode_utf8(theirs));
    vstd::utf8::encode_utf8_decode_utf8(mine);
    vstd::utf8::encode_utf8_decode_utf8(theirs);
}

/// What stands where in a punch and in its answer: `OMNI`, 0x10 or 0x11, and the
/// hash in UTF-8, all of it.
pub proof fn law_punch_layout(hash: Seq<char>)
    ensures
        crate::packet::begins_as(punch_packet(hash), 0x10, 0),
        punch_packet(hash).skip(5) == encode_utf8(hash),
        crate::packet::begins_as(punch_ack_packet(hash), 0x11, 0),
        punch_ack_packet(hash).skip(5) == encode_utf8(hash),
{
    crate::packet::law_packet_layout(PKT_PUNCH, encode_utf8(hash));
    crate::packet::law_packet_layout(PKT_PUNCH_ACK, encode_utf8(hash));
}

/// A punch that took too long is reported with the time that it had, in full.
pub proof fn law_punch_error(action: PunchAction, timeout: Seq<char>)
    ensures
        punch_error(action, timeout) is Some <==> action is FailTimeout || action is FailCancelled,
        punch_error(PunchAction::FailTimeout, timeout) matches Some(text) && {
            let n = "Hole punch timed out after "@.len() as int;
            text.take(n) == "Hole punch timed out after "@ && text.skip(n) == timeout
        },
        punch_error(PunchAction::FailCancelled, timeout) == Some("Cancelled during hole punch"@),
{
    crate::text::lemma_joined("Hole punch timed out after "@, timeout);
}

} // verus!
