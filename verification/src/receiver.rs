//! The receiving side of a transfer: chunks are put in order, written once and
//! acknowledged.

use std::collections::BTreeMap;
use vstd::prelude::*;

use crate::packet::{
    build_ack, build_simple, is_packet_of, parse_data, MAX_PKT, PKT_ACCEPT, PKT_FIN, PKT_FIN_ACK,
    PKT_OFFER,
};
use crate::sender::WINDOW;

verus! {

/// How often each reply that is not itself acknowledged is sent.
pub const REPLY_COPIES: u32 = 3;

/// How many numbers ahead of the expected one a chunk is kept.
pub const REORDER_WINDOW: u32 = WINDOW * 2;

/// The most file bytes that a datagram can hold.
pub const MAX_CHUNK: u64 = 1491;

/// What a receiver knows of its transfer.
#[verifier::ext_equal]
pub struct ReceiverState {
    /// The number of the next chunk to write.
    pub expected: nat,
    /// The chunks that came early, by number.
    pub held: Map<u32, Seq<u8>>,
    /// How many bytes have been written.
    pub received: nat,
}

/// A receiver that has written nothing yet.
pub open spec fn receiver_start() -> ReceiverState {
    ReceiverState { expected: 0, held: Map::empty(), received: 0 }
}

/// How many consecutive numbers from `from` on are held.
pub open spec fn run_length(held: Map<u32, Seq<u8>>, from: nat) -> nat
    decreases 0x1_0000_0000 - from,
{
    if from <= u32::MAX && held.contains_key(from as u32) {
        1 + run_length(held, from + 1)
    } else {
        0
    }
}

impl ReceiverState {
    /// The chunks to write when chunk `seq` arrives: none, unless it is the
    /// expected one; else it and the held ones that follow it without a gap.
    pub open spec fn delivered(self, seq: u32, data: Seq<u8>) -> Seq<Seq<u8>> {
        if seq == self.expected {
            seq![data] + Seq::new(
                run_length(self.held, self.expected + 1),
                |i: int| self.held[(self.expected + 1 + i) as u32],
            )
        } else {
            Seq::empty()
        }
    }

    /// The state after chunk `seq` arrived. A chunk ahead of the expected one is
    /// kept, the first time that it comes; one too far ahead is dropped.
    pub open spec fn after_data(self, seq: u32, data: Seq<u8>) -> ReceiverState {
        if seq == self.expected {
            let n = run_length(self.held, self.expected + 1);
            ReceiverState {
                expected: self.expected + 1 + n,
                held: self.held.remove_keys(
                    Set::new(|k: u32| self.expected < k && k <= self.expected + n),
                ),
                received: self.received + self.delivered(seq, data).flatten().len(),
            }
        } else if self.expected < seq && seq < self.expected + REORDER_WINDOW
            && !self.held.contains_key(seq) {
            ReceiverState { held: self.held.insert(seq, data), ..self }
        } else {
            self
        }
    }

    /// The number to acknowledge. Before the first chunk was written this is
    /// zero too.
    pub open spec fn ack_number(self) -> u32 {
        if self.expected == 0 {
            0
        } else {
            (self.expected - 1) as u32
        }
    }

    /// True when the numbers involved in taking chunk `seq` stay within 32 bits.
    pub open spec fn number_fits(self, seq: u32) -> bool {
        &&& seq == self.expected ==> self.expected < u32::MAX
        &&& self.expected < seq ==> self.expected + REORDER_WINDOW <= u32::MAX
    }

    /// True of every state that a receiver reaches.
    pub open spec fn well_formed(self) -> bool {
        &&& self.expected <= u32::MAX
        &&& self.received <= self.expected * MAX_CHUNK
        &&& self.held.dom().finite()
        &&& forall|k: u32| #[trigger]
            self.held.contains_key(k) ==> {
                &&& self.expected < k
                &&& k < self.expected + REORDER_WINDOW
                &&& k < u32::MAX
                &&& self.held[k].len() <= MAX_CHUNK
            }
    }
}

/// What a receiver does about a datagram.
pub enum ReceiveStep {
    /// Nothing.
    Ignore,
    /// Write the chunks in order, then send the acknowledgement.
    Deliver { chunks: Vec<Vec<u8>>, ack: Vec<u8> },
    /// Send the reply and close the file: the sender is done.
    Finish { reply: Vec<u8> },
    /// Send the reply: the sender has not seen that its offer was accepted.
    AcceptAgain { reply: Vec<u8> },
}

/// The receiving side of one transfer.
pub struct FileReceiver {
    expected_seq: u32,
    ooo_buf: BTreeMap<u32, Vec<u8>>,
    received_bytes: u64,
}

impl View for FileReceiver {
    type V = ReceiverState;

    closed spec fn view(&self) -> ReceiverState {
        ReceiverState {
            expected: self.expected_seq as nat,
            held: self.ooo_buf@.map_values(|v: Vec<u8>| v@),
            received: self.received_bytes as nat,
        }
    }
}

impl FileReceiver {
    /// A receiver that has written nothing yet.
    pub fn new() -> (r: FileReceiver)
        ensures
            r@ == receiver_start(),
            r@.well_formed(),
    {
        let r = FileReceiver { expected_seq: 0, ooo_buf: BTreeMap::new(), received_bytes: 0 };
        proof {
            assert(r@.held =~= Map::<u32, Seq<u8>>::empty());
        }
        r
    }

    /// How many bytes have been written.
    pub fn received_bytes(&self) -> (r: u64)
        ensures
            r == self@.received,
    {
        self.received_bytes
    }

    /// True when `datagram` can be taken: it is no longer than a datagram gets,
    /// and the numbers that it involves stay within 32 bits.
    pub fn can_take(&self, datagram: &[u8]) -> (r: bool)
        ensures
            r == (datagram@.len() <= MAX_PKT && (crate::packet::data_parts(datagram@) matches Some(
                parts,
            ) ==> self@.number_fits(parts.0))),
    {
        if datagram.len() > MAX_PKT {
            return false;
        }
        match parse_data(datagram) {
            Some((seq, _)) => {
                (seq != self.expected_seq || self.expected_seq < u32::MAX) && (seq
                    <= self.expected_seq || self.expected_seq <= u32::MAX - REORDER_WINDOW)
            },
            None => true,
        }
    }

    fn take_expected(&mut self, data: &[u8]) -> (chunks: Vec<Vec<u8>>)
        requires
            old(self)@.well_formed(),
            old(self)@.expected < u32::MAX,
            data@.len() <= MAX_CHUNK,
        ensures
            final(self)@.well_formed(),
            final(self)@ == old(self)@.after_data(old(self)@.expected as u32, data@),
            crate::sender::packets_view(chunks@) == old(self)@.delivered(
                old(self)@.expected as u32,
                data@,
            ),
    {
        let ghost before = self@;
        let ghost first = before.expected + 1;
        let ghost n = run_length(before.held, first);
        let mut chunks: Vec<Vec<u8>> = Vec::new();
        chunks.push(vstd::slice::slice_to_vec(data));
        proof {
            assert(before.received + data@.len() <= (before.expected + 1) * MAX_CHUNK)
                by (nonlinear_arith)
                requires
                    before.received <= before.expected * MAX_CHUNK,
                    data@.len() <= MAX_CHUNK,
            ;
            assert((before.expected + 1) * MAX_CHUNK <= u32::MAX * MAX_CHUNK) by (nonlinear_arith)
                requires
                    before.expected + 1 <= u32::MAX,
            ;
        }
        self.received_bytes = self.received_bytes + data.len() as u64;
        self.expected_seq = self.expected_seq + 1;
        let ghost mut i: nat = 0;
        proof {
            assert(before.held.remove_keys(Set::new(|k: u32| before.expected < k && k < first))
                =~= before.held);
            assert(crate::sender::packets_view(chunks@) =~= seq![data@] + Seq::new(
                0,
                |j: int| before.held[(first + j) as u32],
            ));
            crate::sender::packets_view(chunks@).lemma_flatten_one_element();
        }
        loop
            invariant
                before.well_formed(),
                first == before.expected + 1,
                n == run_length(before.held, first),
                self.expected_seq == first + i,
                n == i + run_length(before.held, (first + i) as nat),
                self@.held == before.held.remove_keys(
                    Set::new(|k: u32| before.expected < k && k < first + i),
                ),
                crate::sender::packets_view(chunks@) == seq![data@] + Seq::new(
                    i,
                    |j: int| before.held[(first + j) as u32],
                ),
                self@.received == before.received + crate::sender::packets_view(
                    chunks@,
                ).flatten().len(),
                self@.received <= self@.expected * MAX_CHUNK,
            ensures
                i == n,
            decreases u32::MAX - self.expected_seq,
        {
            let ghost mid = self@;
            let ghost sent = chunks@;
            let ghost buffer = self.ooo_buf@;
            let seq: u32 = self.expected_seq;
            let found: Option<Vec<u8>> = self.ooo_buf.remove(&seq);
            match found {
                Some(chunk) => {
                    proof {
                        assert(buffer.contains_key(seq) && chunk == buffer[seq]);
                        assert(mid.held.contains_key(seq));
                        assert(before.held.contains_key(seq));
                        assert(chunk@ == mid.held[seq]);
                        assert(self@.held =~= mid.held.remove(seq));
                        assert(self@.held =~= before.held.remove_keys(
                            Set::new(|k: u32| before.expected < k && k < first + i + 1),
                        ));
                        assert(mid.received + chunk@.len() <= (mid.expected + 1) * MAX_CHUNK)
                            by (nonlinear_arith)
                            requires
                                mid.received <= mid.expected * MAX_CHUNK,
                                chunk@.len() <= MAX_CHUNK,
                        ;
                        assert((mid.expected + 1) * MAX_CHUNK <= u32::MAX * MAX_CHUNK)
                            by (nonlinear_arith)
                            requires
                                mid.expected + 1 <= u32::MAX,
                        ;
                    }
                    self.received_bytes = self.received_bytes + chunk.len() as u64;
                    self.expected_seq = seq + 1;
                    chunks.push(chunk);
                    proof {
                        crate::sender::packets_view(sent).lemma_flatten_push(chunk@);
                        assert(crate::sender::packets_view(chunks@)
                            =~= crate::sender::packets_view(sent).push(chunk@));
                        assert(crate::sender::packets_view(chunks@) =~= seq![data@] + Seq::new(
                            i + 1,
                            |j: int| before.held[(first + j) as u32],
                        ));
                        i = i + 1;
                    }
                },
                None => {
                    proof {
                        assert(!mid.held.contains_key(seq));
                        assert(!before.held.contains_key(seq));
                        assert(self@.held =~= mid.held);
                    }
                    break;
                },
            }
        }
        proof {
            let after = before.after_data(before.expected as u32, data@);
            assert(self@.held =~= after.held);
            assert(self@ =~= after);
            assert(self@.held.dom().subset_of(before.held.dom()));
            assert forall|k: u32| #[trigger] self@.held.contains_key(k) implies {
                &&& self@.expected < k
                &&& k < self@.expected + REORDER_WINDOW
                &&& k < u32::MAX
                &&& self@.held[k].len() <= MAX_CHUNK
            } by {
                assert(before.held.contains_key(k));
                if k == self@.expected {
                    assert(run_length(before.held, (first + n) as nat) >= 1);
                }
            }
        }
        chunks
    }

    /// Takes a datagram from the peer.
    pub fn on_datagram(&mut self, datagram: &[u8]) -> (r: ReceiveStep)
        requires
            old(self)@.well_formed(),
            datagram@.len() <= MAX_PKT,
            crate::packet::data_parts(datagram@) matches Some(parts) ==> old(self)@.number_fits(
                parts.0,
            ),
        ensures
            final(self)@.well_formed(),
            match crate::packet::data_parts(datagram@) {
                Some((seq, data)) => {
                    &&& final(self)@ == old(self)@.after_data(seq, data)
                    &&& r matches ReceiveStep::Deliver { chunks, ack } && {
                        &&& crate::sender::packets_view(chunks@) == old(self)@.delivered(seq, data)
                        &&& ack@ == crate::packet::ack_packet(final(self)@.ack_number())
                    }
                },
                None => {
                    &&& final(self)@ == old(self)@
                    &&& if crate::packet::has_type(datagram@, PKT_FIN) {
                        r matches ReceiveStep::Finish { reply } && reply@
                            == crate::packet::packet(PKT_FIN_ACK, Seq::empty())
                    } else if crate::packet::has_type(datagram@, PKT_OFFER) {
                        r matches ReceiveStep::AcceptAgain { reply } && reply@
                            == crate::packet::packet(PKT_ACCEPT, Seq::empty())
                    } else {
                        r is Ignore
                    }
                },
            },
    {
        match parse_data(datagram) {
            Some((seq, data)) => {
                let ghost before = self@;
                let mut chunks: Vec<Vec<u8>> = Vec::new();
                if seq == self.expected_seq {
                    chunks = self.take_expected(data);
                } else if seq > self.expected_seq && seq < self.expected_seq + REORDER_WINDOW {
                    if !self.ooo_buf.contains_key(&seq) {
                        proof {
                            assert(!before.held.contains_key(seq));
                        }
                        self.ooo_buf.insert(seq, vstd::slice::slice_to_vec(data));
                        proof {
                            assert(self@.held =~= before.held.insert(seq, data@));
                        }
                    } else {
                        proof {
                            assert(before.held.contains_key(seq));
                        }
                    }
                }
                proof {
                    if seq != before.expected {
                        assert(crate::sender::packets_view(chunks@) =~= Seq::<Seq<u8>>::empty());
                    }
                }
                let acked: u32 = if self.expected_seq == 0 {
                    0
                } else {
                    self.expected_seq - 1
                };
                ReceiveStep::Deliver { chunks, ack: build_ack(acked) }
            },
            None => {
                if is_packet_of(datagram, PKT_FIN) {
                    ReceiveStep::Finish { reply: empty_packet(PKT_FIN_ACK) }
                } else if is_packet_of(datagram, PKT_OFFER) {
                    ReceiveStep::AcceptAgain { reply: empty_packet(PKT_ACCEPT) }
                } else {
                    ReceiveStep::Ignore
                }
            },
        }
    }
}

/// The packet of type `pkt_type` without payload.
pub fn empty_packet(pkt_type: u8) -> (p: Vec<u8>)
    ensures
        p@ == crate::packet::packet(pkt_type, Seq::empty()),
{
    let empty: Vec<u8> = Vec::new();
    build_simple(pkt_type, empty.as_slice())
}

/// The chunk that is expected is written at once, and with it the held chunks
/// whose numbers follow without a gap, in order; they are held no longer, and
/// the first number that is missing is expected next.
pub proof fn law_expected_chunk_is_written(s: ReceiverState, data: Seq<u8>, k: u32)
    requires
        s.well_formed(),
        s.expected < u32::MAX,
    ensures
        ({
            let out = s.delivered(s.expected as u32, data);
            let t = s.after_data(s.expected as u32, data);
            let next = s.expected + out.len();
            &&& out.len() >= 1
            &&& out[0] == data
            &&& forall|i: int|
                1 <= i < out.len() ==> #[trigger] s.held.contains_key((s.expected + i) as u32)
            &&& forall|i: int|
                1 <= i < out.len() ==> #[trigger] out[i] == s.held[(s.expected + i) as u32]
            &&& next <= u32::MAX
            &&& !s.held.contains_key(next as u32)
            &&& t.expected == next
            &&& t.received == s.received + out.flatten().len()
            &&& t.held.contains_key(k) <==> s.held.contains_key(k) && k > next
            &&& t.held.contains_key(k) ==> t.held[k] == s.held[k]
        }),
{
    let from = s.expected + 1;
    let n = run_length(s.held, from);
    let out = s.delivered(s.expected as u32, data);
    lemma_run(s.held, from);
    assert(out.len() == 1 + n);
    if n > 0 {
        assert(s.held.contains_key((from + (n - 1)) as u32));
    }
    assert forall|i: int| 1 <= i < out.len() implies #[trigger] s.held.contains_key(
        (s.expected + i) as u32,
    ) by {
        assert(s.held.contains_key((from + (i - 1)) as u32));
    }
    if s.held.contains_key(k) {
        assert(s.expected < k);
    }
}

proof fn lemma_run(held: Map<u32, Seq<u8>>, from: nat)
    requires
        from <= 0x1_0000_0000,
    ensures
        from + run_length(held, from) <= 0x1_0000_0000,
        forall|i: int|
            0 <= i < run_length(held, from) ==> #[trigger] held.contains_key((from + i) as u32),
        from + run_length(held, from) <= u32::MAX ==> !held.contains_key(
            (from + run_length(held, from)) as u32,
        ),
    decreases 0x1_0000_0000 - from,
{
    if from <= u32::MAX && held.contains_key(from as u32) {
        lemma_run(held, from + 1);
        assert forall|i: int| 0 <= i < run_length(held, from) implies #[trigger] held.contains_key(
            (from + i) as u32,
        ) by {
            if i > 0 {
                assert(held.contains_key((from + 1 + (i - 1)) as u32));
            }
        }
    }
}

/// A chunk that comes early, by less than 512 numbers, is held, the first time
/// that it comes, and nothing is written.
pub proof fn law_early_chunk_is_held(s: ReceiverState, seq: u32, data: Seq<u8>, k: u32)
    requires
        s.expected < seq < s.expected + 512,
        !s.held.contains_key(seq),
    ensures
        ({
            let t = s.after_data(seq, data);
            &&& s.delivered(seq, data).len() == 0
            &&& t.expected == s.expected
            &&& t.received == s.received
            &&& t.held.contains_key(seq) && t.held[seq] == data
            &&& k != seq ==> (t.held.contains_key(k) <==> s.held.contains_key(k))
            &&& k != seq && s.held.contains_key(k) ==> t.held[k] == s.held[k]
        }),
{
}

/// A chunk that was written or is held already, or that comes 512 numbers early
/// or more, changes nothing.
pub proof fn law_other_chunks_change_nothing(s: ReceiverState, seq: u32, data: Seq<u8>)
    requires
        seq < s.expected || s.held.contains_key(seq) || seq >= s.expected + 512,
        seq != s.expected,
    ensures
        s.after_data(seq, data) == s,
        s.delivered(seq, data).len() == 0,
{
}

/// What is acknowledged is the chunk before the expected one, or zero where there
/// is none.
pub proof fn law_ack_number(s: ReceiverState)
    requires
        s.expected <= u32::MAX,
    ensures
        s.expected > 0 ==> s.ack_number() + 1 == s.expected,
        s.expected == 0 ==> s.ack_number() == 0,
{
}

} // verus!
