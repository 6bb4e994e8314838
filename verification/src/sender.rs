//! The sending side of a transfer: a sliding window of unacknowledged chunks.

use std::collections::BTreeMap;
use vstd::prelude::*;

use crate::packet::{
    build_data, build_simple, is_packet_of, parse_ack, DATA_PAYLOAD, PKT_ACCEPT, PKT_FIN,
    PKT_FIN_ACK,
};

verus! {

/// How many chunks may be under way at once.
pub const WINDOW: u32 = 256;

/// How long a chunk waits for its acknowledgement before it is sent again.
pub const RETRANSMIT_MS: u64 = 300;

/// `RETRANSMIT_MS` in the unit of the sender's clock.
pub const RETRANSMIT_NANOS: u128 = 300_000_000;

/// A packet that has not been acknowledged and when it was last sent.
pub struct Pending {
    pub packet: Seq<u8>,
    pub sent_at: nat,
}

/// What a sender knows of its transfer.
#[verifier::ext_equal]
pub struct SenderState {
    /// The number of the next chunk to read.
    pub next: nat,
    /// The first number that has not been acknowledged.
    pub base: nat,
    /// The packets that wait for an acknowledgement, by number.
    pub window: Map<u32, Pending>,
    /// True when the file has been read to its end.
    pub file_done: bool,
    /// The size that the file was offered with.
    pub size: u64,
}

/// A sender that has read nothing yet.
pub open spec fn sender_start(size: u64) -> SenderState {
    SenderState { next: 0, base: 0, window: Map::empty(), file_done: false, size }
}

/// What a sender does next.
#[derive(Clone, Copy, Debug, PartialEq, Eq, Structural)]
pub enum SendStep {
    /// Read a chunk of the file.
    ReadChunk,
    /// Wait for an acknowledgement.
    AwaitAck,
    /// Announce the end of the file.
    Finish,
}

/// True when a packet sent at `sent_at` is due again at `now`.
pub open spec fn is_due(sent_at: nat, now: nat) -> bool {
    now - sent_at >= RETRANSMIT_NANOS
}

impl SenderState {
    /// True when the window has room and the file may hold more.
    pub open spec fn wants_chunk(self) -> bool {
        !self.file_done && self.next < self.base + WINDOW
    }

    /// True when the file has been read and every chunk of it acknowledged.
    pub open spec fn complete(self) -> bool {
        self.file_done && self.window == Map::<u32, Pending>::empty()
    }

    /// The step that follows.
    pub open spec fn next_step(self) -> SendStep {
        if self.wants_chunk() {
            SendStep::ReadChunk
        } else if self.complete() {
            SendStep::Finish
        } else {
            SendStep::AwaitAck
        }
    }

    /// The state after the end of the file was read.
    pub open spec fn after_end(self) -> SenderState {
        SenderState { file_done: true, ..self }
    }

    /// The state after `chunk` was read and sent at `now`. An empty chunk is the
    /// end of the file.
    pub open spec fn after_read(self, chunk: Seq<u8>, now: nat) -> SenderState {
        if chunk.len() == 0 {
            self.after_end()
        } else {
            SenderState {
                window: self.window.insert(
                    self.next as u32,
                    Pending {
                        packet: crate::packet::data_packet(self.next as u32, chunk),
                        sent_at: now,
                    },
                ),
                next: self.next + 1,
                ..self
            }
        }
    }

    /// The state after every chunk up to `ack` was acknowledged.
    pub open spec fn after_ack(self, ack: u32) -> SenderState {
        SenderState {
            window: self.window.remove_keys(
                Set::new(|k: u32| self.base <= k && k <= ack),
            ),
            base: if self.base <= ack {
                ack as nat + 1
            } else {
                self.base
            },
            ..self
        }
    }

    /// The bytes that count as delivered: whole chunks, at most the file.
    pub open spec fn bytes_acked(self) -> nat {
        if self.base * DATA_PAYLOAD <= self.size {
            self.base * DATA_PAYLOAD as nat
        } else {
            self.size as nat
        }
    }

    /// The packets numbered below `bound` that are due at `now`, by number.
    pub open spec fn due_below(self, now: nat, bound: nat) -> Seq<Seq<u8>>
        decreases bound,
    {
        if bound == 0 {
            Seq::<Seq<u8>>::empty()
        } else {
            let rest = self.due_below(now, (bound - 1) as nat);
            let k = (bound - 1) as u32;
            if self.window.contains_key(k) && is_due(self.window[k].sent_at, now) {
                rest.push(self.window[k].packet)
            } else {
                rest
            }
        }
    }

    /// Every packet that is due at `now`, by number.
    pub open spec fn due(self, now: nat) -> Seq<Seq<u8>> {
        self.due_below(now, 0x1_0000_0000)
    }

    /// The state after the due packets were sent again at `now`.
    pub open spec fn after_resend(self, now: nat) -> SenderState {
        SenderState {
            window: self.window.map_values(
                |p: Pending|
                    if is_due(p.sent_at, now) {
                        Pending { sent_at: now, ..p }
                    } else {
                        p
                    },
            ),
            ..self
        }
    }

    /// True of every sender, whatever its peer acknowledges: a waiting packet is
    /// the data packet of its number, and that is less than a window ahead of
    /// what was acknowledged.
    pub open spec fn numbered(self) -> bool {
        forall|k: u32| #[trigger]
            self.window.contains_key(k) ==> {
                &&& k < self.base + WINDOW
                &&& crate::packet::data_parts(self.window[k].packet) matches Some(parts) && parts.0
                    == k
            }
    }

    /// True when `chunks` are those that the sender has taken note of, and every
    /// waiting packet is the data packet of the chunk with its number.
    pub open spec fn carries(self, chunks: Seq<Seq<u8>>) -> bool {
        &&& self.next == chunks.len()
        &&& forall|k: u32| #[trigger]
            self.window.contains_key(k) ==> {
                &&& k < chunks.len()
                &&& self.window[k].packet == crate::packet::data_packet(k, chunks[k as int])
            }
    }

    /// True when base, next and window fit together, as they do as long as the
    /// peer acknowledges nothing that was not sent.
    pub open spec fn in_step(self) -> bool {
        &&& self.base <= self.next <= u32::MAX
        &&& self.next <= self.base + WINDOW
        &&& forall|k: u32| #[trigger]
            self.window.contains_key(k) <==> self.base <= k && k < self.next
    }
}

/// A fresh sender is in step.
pub proof fn law_start_in_step(size: u64)
    ensures
        sender_start(size).in_step(),
{
}

/// Reading a chunk keeps a sender in step.
pub proof fn law_read_keeps_step(s: SenderState, chunk: Seq<u8>, now: nat)
    requires
        s.in_step(),
        s.wants_chunk(),
        s.base + WINDOW <= u32::MAX,
    ensures
        s.after_read(chunk, now).in_step(),
{
    let t = s.after_read(chunk, now);
    assert forall|k: u32| #[trigger] t.window.contains_key(k) <==> t.base <= k && k < t.next by {
        assert(s.window.contains_key(k) <==> s.base <= k && k < s.next);
    }
}

/// An acknowledgement of something that was sent keeps a sender in step.
pub proof fn law_ack_keeps_step(s: SenderState, ack: u32)
    requires
        s.in_step(),
        ack < s.next,
    ensures
        s.after_ack(ack).in_step(),
{
    let t = s.after_ack(ack);
    assert forall|k: u32| #[trigger] t.window.contains_key(k) <==> t.base <= k && k < t.next by {
        assert(s.window.contains_key(k) <==> s.base <= k && k < s.next);
    }
}

/// Sending again keeps a sender in step.
pub proof fn law_resend_keeps_step(s: SenderState, now: nat)
    requires
        s.in_step(),
    ensures
        s.after_resend(now).in_step(),
{
    let t = s.after_resend(now);
    assert forall|k: u32| #[trigger] t.window.contains_key(k) <==> t.base <= k && k < t.next by {
        assert(s.window.contains_key(k) <==> s.base <= k && k < s.next);
    }
}

/// Whatever a sender reads, whatever is acknowledged to it and whenever it sends
/// again, its packets keep their numbers, less than a window ahead.
pub proof fn law_numbers_keep_to_window(s: SenderState, chunk: Seq<u8>, ack: u32, now: nat)
    requires
        s.numbered(),
    ensures
        s.wants_chunk() && s.next <= u32::MAX ==> s.after_read(chunk, now).numbered(),
        s.after_ack(ack).numbered(),
        s.after_resend(now).numbered(),
        forall|i: int|
            0 <= i < s.due(now).len() ==> (crate::packet::data_parts(
                #[trigger] s.due(now)[i],
            ) matches Some(parts) && parts.0 < s.base + WINDOW),
{
    crate::packet::law_data_round_trip(s.next as u32, chunk);
    let read = s.after_read(chunk, now);
    if s.wants_chunk() && s.next <= u32::MAX {
        assert forall|k: u32| #[trigger] read.window.contains_key(k) implies {
            &&& k < read.base + WINDOW
            &&& crate::packet::data_parts(read.window[k].packet) matches Some(parts) && parts.0 == k
        } by {
            if chunk.len() == 0 || k != s.next {
                assert(s.window.contains_key(k));
            }
        }
    }
    let acked = s.after_ack(ack);
    assert forall|k: u32| #[trigger] acked.window.contains_key(k) implies {
        &&& k < acked.base + WINDOW
        &&& crate::packet::data_parts(acked.window[k].packet) matches Some(parts) && parts.0 == k
    } by {
        assert(s.window.contains_key(k));
    }
    let again = s.after_resend(now);
    assert forall|k: u32| #[trigger] again.window.contains_key(k) implies {
        &&& k < again.base + WINDOW
        &&& crate::packet::data_parts(again.window[k].packet) matches Some(parts) && parts.0 == k
    } by {
        assert(s.window.contains_key(k));
    }
    law_resend_is_pending(s, now, 0x1_0000_0000);
    assert forall|i: int| 0 <= i < s.due(now).len() implies (crate::packet::data_parts(
        #[trigger] s.due(now)[i],
    ) matches Some(parts) && parts.0 < s.base + WINDOW) by {
        let packet = s.due_below(now, 0x1_0000_0000)[i];
        let k = choose|k: u32| #[trigger]
            s.window.contains_key(k) && s.window[k].packet == packet;
        assert(s.window.contains_key(k));
    }
}

/// A sender in step is complete only when every chunk that it read has been
/// acknowledged.
pub proof fn law_complete_is_all_acked(s: SenderState)
    requires
        s.in_step(),
        s.complete(),
    ensures
        s.base == s.next,
{
    if s.base < s.next {
        assert(s.window.contains_key(s.base as u32));
    }
}

/// Never more than `WINDOW` chunks are under way.
pub proof fn law_window_is_bounded(s: SenderState)
    requires
        s.in_step(),
    ensures
        s.window.dom().finite(),
        s.window.dom().len() == s.next - s.base,
        s.window.dom().len() <= WINDOW,
{
    lemma_range_len(s.base, s.next);
    assert(s.window.dom() =~= Set::new(|k: u32| s.base <= k && k < s.next));
}

proof fn lemma_range_len(low: nat, high: nat)
    requires
        low <= high <= u32::MAX,
    ensures
        Set::new(|k: u32| low <= k && k < high).finite(),
        Set::new(|k: u32| low <= k && k < high).len() == high - low,
    decreases high - low,
{
    let all = Set::new(|k: u32| low <= k && k < high);
    if low == high {
        assert(all =~= Set::<u32>::empty());
    } else {
        let less = Set::new(|k: u32| low <= k && k < high - 1);
        lemma_range_len(low, (high - 1) as nat);
        assert(all =~= less.insert((high - 1) as u32));
    }
}

/// The acknowledged part and the bytes that count as delivered only grow, and a
/// stale acknowledgement changes nothing.
pub proof fn law_acks_only_advance(s: SenderState, ack: u32)
    ensures
        s.after_ack(ack).base >= s.base,
        s.after_ack(ack).bytes_acked() >= s.bytes_acked(),
        ack < s.base ==> s.after_ack(ack) == s,
        s.after_ack(ack).after_ack(ack) == s.after_ack(ack),
{
    let t = s.after_ack(ack);
    if ack < s.base {
        assert(t.window =~= s.window);
    }
    assert(t.after_ack(ack).window =~= t.window);
}

/// What is sent again is always a packet that waits for its acknowledgement,
/// and right after that nothing is due.
pub proof fn law_resend_is_pending(s: SenderState, now: nat, bound: nat)
    requires
        bound <= 0x1_0000_0000,
    ensures
        forall|i: int|
            0 <= i < s.due_below(now, bound).len() ==> exists|k: u32| #[trigger]
                s.window.contains_key(k) && s.window[k].packet == #[trigger] s.due_below(
                    now,
                    bound,
                )[i],
        s.after_resend(now).due_below(now, bound).len() == 0,
    decreases bound,
{
    if bound > 0 {
        law_resend_is_pending(s, now, (bound - 1) as nat);
        let k = (bound - 1) as u32;
        let t = s.after_resend(now);
        assert(t.window.contains_key(k) ==> !is_due(t.window[k].sent_at, now));
        let rest = s.due_below(now, (bound - 1) as nat);
        assert forall|i: int| 0 <= i < s.due_below(now, bound).len() implies exists|j: u32| #[trigger]
            s.window.contains_key(j) && s.window[j].packet == #[trigger] s.due_below(now, bound)[i] by {
            if i < rest.len() {
                assert(s.due_below(now, bound)[i] == rest[i]);
                let j = choose|j: u32| #[trigger]
                    s.window.contains_key(j) && s.window[j].packet == rest[i];
                assert(s.window.contains_key(j));
            } else {
                assert(s.window.contains_key(k));
            }
        }
    }
}

/// The sending side of one transfer.
pub struct FileSender {
    next_seq: u32,
    base_seq: u32,
    window: BTreeMap<u32, (Vec<u8>, u128)>,
    file_done: bool,
    file_size: u64,
}

impl View for FileSender {
    type V = SenderState;

    closed spec fn view(&self) -> SenderState {
        SenderState {
            next: self.next_seq as nat,
            base: self.base_seq as nat,
            window: pending_view(self.window@),
            file_done: self.file_done,
            size: self.file_size,
        }
    }
}

spec fn pending_view(m: Map<u32, (Vec<u8>, u128)>) -> Map<u32, Pending> {
    m.map_values(|e: (Vec<u8>, u128)| Pending { packet: e.0@, sent_at: e.1 as nat })
}

/// An increasing sequence of numbers rises from each place to every later one.
proof fn lemma_increasing(s: Seq<u32>)
    requires
        vstd::std_specs::btree::increasing_seq(s),
    ensures
        forall|i: int, j: int| 0 <= i < j < s.len() ==> s[i] < s[j],
{
    assert forall|i: int, j: int| 0 <= i < j < s.len() implies s[i] < s[j] by {
        assert(vstd::std_specs::cmp::OrdSpec::cmp_spec(&s[i], &s[j]) is Less);
    }
}

/// The keys of `m`, smallest first.
fn sorted_keys(m: &BTreeMap<u32, (Vec<u8>, u128)>) -> (r: Vec<u32>)
    ensures
        forall|i: int, j: int| 0 <= i < j < r@.len() ==> r@[i] < r@[j],
        forall|k: u32| r@.contains(k) <==> #[trigger] m@.contains_key(k),
{
    let mut r: Vec<u32> = Vec::new();
    let entries = m.iter();
    let ghost keys = vstd::std_specs::iter::IteratorSpec::remaining(&entries).map_values(
        |kv: (&u32, &(Vec<u8>, u128))| *kv.0,
    );
    proof {
        lemma_increasing(keys);
    }
    for kv in it: entries
        invariant
            keys.len() == it.seq().len(),
            forall|i: int|
                #![trigger it.seq()[i]]
                0 <= i < it.seq().len() ==> m@.contains_key(*it.seq()[i].0),
            forall|i: int|
                #![trigger it.seq()[i]]
                0 <= i < it.seq().len() ==> keys[i] == *it.seq()[i].0,
            forall|k: u32| #[trigger] m@.contains_key(k) ==> it.seq().contains((&k, &m@[k])),
            r@ == keys.take(it.index() as int),
    {
        r.push(*kv.0);
        proof {
            assert(keys[it.index() as int] == *kv.0);
        }
    }
    proof {
        assert(keys.take(keys.len() as int) == keys);
    }
    r
}

/// Between two neighbouring keys nothing is due.
proof fn lemma_due_gap(s: SenderState, now: nat, low: nat, high: nat)
    requires
        low <= high <= 0x1_0000_0000,
        forall|k: u32| low <= k && k < high ==> !#[trigger] s.window.contains_key(k),
    ensures
        s.due_below(now, high) == s.due_below(now, low),
    decreases high - low,
{
    if low < high {
        let k = (high - 1) as u32;
        assert(!s.window.contains_key(k));
        lemma_due_gap(s, now, low, (high - 1) as nat);
    }
}

/// The packets `v` as byte sequences.
pub open spec fn packets_view(v: Seq<Vec<u8>>) -> Seq<Seq<u8>> {
    v.map_values(|p: Vec<u8>| p@)
}

impl FileSender {
    /// A sender of a file of `file_size` bytes that has read nothing yet.
    pub fn new(file_size: u64) -> (s: FileSender)
        ensures
            s@ == sender_start(file_size),
    {
        let s = FileSender {
            next_seq: 0,
            base_seq: 0,
            window: BTreeMap::new(),
            file_done: false,
            file_size,
        };
        proof {
            assert(s@.window =~= Map::<u32, Pending>::empty());
        }
        s
    }

    /// The size that the file was offered with.
    pub fn file_size(&self) -> (r: u64)
        ensures
            r == self@.size,
    {
        self.file_size
    }

    /// True as long as the numbers of the window stay within 32 bits.
    pub fn numbers_left(&self) -> (r: bool)
        ensures
            r == (self@.file_done || self@.base + WINDOW <= u32::MAX),
    {
        self.file_done || self.base_seq <= u32::MAX - WINDOW
    }

    /// The step that follows.
    pub fn next_step(&self) -> (r: SendStep)
        requires
            self@.file_done || self@.base + WINDOW <= u32::MAX,
        ensures
            r == self@.next_step(),
    {
        if !self.file_done && self.next_seq < self.base_seq + WINDOW {
            return SendStep::ReadChunk;
        }
        let idle: bool = self.window.is_empty();
        proof {
            if idle {
                assert(self@.window =~= Map::<u32, Pending>::empty());
            } else {
                let k = choose|k: u32| self.window@.contains_key(k);
                assert(self.window@ !~= Map::<u32, (Vec<u8>, u128)>::empty());
                assert(self@.window.contains_key(k));
                assert(!Map::<u32, Pending>::empty().contains_key(k));
            }
        }
        if self.file_done && idle {
            SendStep::Finish
        } else {
            SendStep::AwaitAck
        }
    }

    /// The packet to send for the chunk that was read next.
    pub fn packet_for(&self, chunk: &[u8]) -> (p: Vec<u8>)
        ensures
            p@ == crate::packet::data_packet(self@.next as u32, chunk@),
    {
        build_data(self.next_seq, chunk)
    }

    /// Takes note of the end of the file.
    pub fn on_end(&mut self)
        ensures
            final(self)@ == old(self)@.after_end(),
    {
        self.file_done = true;
    }

    /// Takes note of the chunk that was read next, and sent at `now_nanos`. An
    /// empty chunk is the end of the file.
    pub fn on_chunk(&mut self, chunk: &[u8], now_nanos: u128)
        requires
            old(self)@.wants_chunk(),
            old(self)@.base + WINDOW <= u32::MAX,
        ensures
            final(self)@ == old(self)@.after_read(chunk@, now_nanos as nat),
    {
        if chunk.len() == 0 {
            self.on_end();
            return ;
        }
        let pkt: Vec<u8> = self.packet_for(chunk);
        self.window.insert(self.next_seq, (pkt, now_nanos));
        self.next_seq = self.next_seq + 1;
        proof {
            assert(self@.window =~= old(self)@.after_read(chunk@, now_nanos as nat).window);
        }
    }

    /// Takes a datagram from the peer. An acknowledgement moves the window and
    /// gives the bytes that now count as delivered; anything else is ignored.
    pub fn on_datagram(&mut self, datagram: &[u8]) -> (r: Option<u64>)
        requires
            crate::packet::acked_seq(datagram@) != Some(u32::MAX),
        ensures
            match crate::packet::acked_seq(datagram@) {
                Some(ack) => {
                    &&& final(self)@ == old(self)@.after_ack(ack)
                    &&& r matches Some(n) && n == final(self)@.bytes_acked()
                },
                None => final(self)@ == old(self)@ && r is None,
            },
    {
        let ack: u32 = match parse_ack(datagram) {
            Some(ack) => ack,
            None => {
                return None;
            },
        };
        let ghost before = self@;
        proof {
            assert(before.window.remove_keys(Set::new(|k: u32| before.base <= k && k < before.base))
                =~= before.window);
        }
        while self.base_seq <= ack
            invariant
                ack < u32::MAX,
                before.base <= self.base_seq,
                self.base_seq <= ack ==> self.base_seq <= u32::MAX,
                before.base <= ack ==> self.base_seq <= ack + 1,
                before.base > ack ==> self.base_seq == before.base,
                self@.next == before.next,
                self@.file_done == before.file_done,
                self@.size == before.size,
                self@.window == before.window.remove_keys(
                    Set::new(|k: u32| before.base <= k && k < self.base_seq),
                ),
            decreases ack + 1 - self.base_seq,
        {
            let ghost mid = self@;
            let base: u32 = self.base_seq;
            self.window.remove(&base);
            proof {
                assert(self@.window =~= mid.window.remove(base));
                assert(self@.window =~= before.window.remove_keys(
                    Set::new(|k: u32| before.base <= k && k < base + 1),
                ));
            }
            self.base_seq = base + 1;
        }
        proof {
            assert(self@.window =~= before.after_ack(ack).window);
        }
        let whole: u64 = self.base_seq as u64 * DATA_PAYLOAD as u64;
        if whole <= self.file_size {
            Some(whole)
        } else {
            Some(self.file_size)
        }
    }

    /// The packets to send again at `now_nanos`, by number; each counts as sent
    /// then.
    pub fn on_timeout(&mut self, now_nanos: u128) -> (r: Vec<Vec<u8>>)
        ensures
            packets_view(r@) == old(self)@.due(now_nanos as nat),
            final(self)@ == old(self)@.after_resend(now_nanos as nat),
    {
        let ghost before = self@;
        let ghost now = now_nanos as nat;
        let keys: Vec<u32> = sorted_keys(&self.window);
        let mut r: Vec<Vec<u8>> = Vec::new();
        let mut i: usize = 0;
        let ghost mut bound: nat = 0;
        proof {
            assert(packets_view(r@) =~= before.due_below(now, 0));
        }
        while i < keys.len()
            invariant
                i <= keys@.len(),
                now == now_nanos,
                forall|a: int, b: int| 0 <= a < b < keys@.len() ==> keys@[a] < keys@[b],
                forall|k: u32| keys@.contains(k) <==> #[trigger] before.window.contains_key(k),
                bound == if i == 0 { 0nat } else { keys@[i - 1] as nat + 1 },
                packets_view(r@) == before.due_below(now, bound),
                self@.next == before.next,
                self@.base == before.base,
                self@.file_done == before.file_done,
                self@.size == before.size,
                self@.window.dom() == before.window.dom(),
                forall|k: u32| #[trigger]
                    before.window.contains_key(k) ==> self@.window[k] == (if k < bound {
                        before.after_resend(now).window[k]
                    } else {
                        before.window[k]
                    }),
            decreases keys.len() - i,
        {
            let k: u32 = keys[i];
            let ghost mid = self@;
            let ghost sent = r@;
            assert(keys@.contains(k));
            assert(before.window.contains_key(k));
            assert(self.window@.contains_key(k));
            let entry: Option<(Vec<u8>, u128)> = self.window.remove(&k);
            proof {
                assert forall|j: u32| bound <= j && j < k implies !#[trigger] before.window.contains_key(
                    j,
                ) by {
                    if before.window.contains_key(j) {
                        let x = choose|x: int| 0 <= x < keys@.len() && keys@[x] == j;
                        if x < i {
                            assert(x <= i - 1);
                        }
                    }
                }
                lemma_due_gap(before, now, bound, k as nat);
            }
            match entry {
                Some((pkt, sent_at)) => {
                    assert(pkt@ == before.window[k].packet);
                    if now_nanos >= sent_at && now_nanos - sent_at >= RETRANSMIT_NANOS {
                        let copy: Vec<u8> = pkt.clone();
                        proof {
                            assert(copy@ =~= pkt@);
                        }
                        r.push(copy);
                        self.window.insert(k, (pkt, now_nanos));
                        proof {
                            assert(packets_view(r@) =~= packets_view(sent).push(pkt@));
                        }
                    } else {
                        self.window.insert(k, (pkt, sent_at));
                    }
                },
                None => {},
            }
            proof {
                assert(self@.window.dom() =~= before.window.dom());
                bound = k as nat + 1;
            }
            i = i + 1;
        }
        proof {
            assert forall|j: u32| bound <= j && j < 0x1_0000_0000 implies !#[trigger] before.window.contains_key(
                j,
            ) by {
                if before.window.contains_key(j) {
                    let x = choose|x: int| 0 <= x < keys@.len() && keys@[x] == j;
                    assert(x <= keys@.len() - 1);
                }
            }
            lemma_due_gap(before, now, bound, 0x1_0000_0000);
            assert(self@.window =~= before.after_resend(now).window);
        }
        r
    }
}

/// True when `datagram` accepts the offered file.
pub fn offer_accepted(datagram: &[u8]) -> (r: bool)
    ensures
        r == crate::packet::has_type(datagram@, PKT_ACCEPT),
{
    is_packet_of(datagram, PKT_ACCEPT)
}

/// The packet that announces the end of the file.
pub fn fin_packet() -> (p: Vec<u8>)
    ensures
        p@ == crate::packet::packet(PKT_FIN, Seq::empty()),
{
    let empty: Vec<u8> = Vec::new();
    build_simple(PKT_FIN, empty.as_slice())
}

/// True when `datagram` confirms the end of the file.
pub fn fin_acknowledged(datagram: &[u8]) -> (r: bool)
    ensures
        r == crate::packet::has_type(datagram@, PKT_FIN_ACK),
{
    is_packet_of(datagram, PKT_FIN_ACK)
}

/// Exactly the packets that have waited for 300 milliseconds since they were last
/// sent, whenever that was, are sent again, each once and by rising numbers:
/// `numbers` are theirs.
pub proof fn law_due_after_waiting(s: SenderState, now: nat) -> (numbers: Seq<u32>)
    ensures
        s.due(now).len() == numbers.len(),
        forall|i: int|
            0 <= i < numbers.len() ==> s.window.contains_key(#[trigger] numbers[i]) && s.due(now)[i]
                == s.window[numbers[i]].packet,
        forall|i: int, j: int| 0 <= i < j < numbers.len() ==> numbers[i] < numbers[j],
        forall|k: u32| #[trigger]
            numbers.contains(k) <==> s.window.contains_key(k) && now - s.window[k].sent_at
                >= 300_000_000,
{
    lemma_due_numbers(s, now, 0x1_0000_0000)
}

proof fn lemma_due_numbers(s: SenderState, now: nat, bound: nat) -> (numbers: Seq<u32>)
    requires
        bound <= 0x1_0000_0000,
    ensures
        s.due_below(now, bound).len() == numbers.len(),
        forall|i: int|
            0 <= i < numbers.len() ==> s.window.contains_key(#[trigger] numbers[i]) && s.due_below(
                now,
                bound,
            )[i] == s.window[numbers[i]].packet,
        forall|i: int, j: int| 0 <= i < j < numbers.len() ==> numbers[i] < numbers[j],
        forall|k: u32| #[trigger]
            numbers.contains(k) <==> k < bound && s.window.contains_key(k) && now
                - s.window[k].sent_at >= 300_000_000,
    decreases bound,
{
    if bound == 0 {
        Seq::empty()
    } else {
        let rest = lemma_due_numbers(s, now, (bound - 1) as nat);
        let top = (bound - 1) as u32;
        assert forall|i: int| 0 <= i < rest.len() implies #[trigger] rest[i] < top by {
            assert(rest.contains(rest[i]));
        }
        if s.window.contains_key(top) && is_due(s.window[top].sent_at, now) {
            let all = rest.push(top);
            assert forall|k: u32| #[trigger] all.contains(k) <==> k < bound
                && s.window.contains_key(k) && now - s.window[k].sent_at >= 300_000_000 by {
                if all.contains(k) {
                    let i = choose|i: int| 0 <= i < all.len() && all[i] == k;
                    if i < rest.len() {
                        assert(rest[i] == k);
                        assert(rest.contains(k));
                    }
                }
                if k == top {
                    assert(all[rest.len() as int] == k);
                } else if rest.contains(k) {
                    let i = choose|i: int| 0 <= i < rest.len() && rest[i] == k;
                    assert(all[i] == k);
                }
            }
            all
        } else {
            rest
        }
    }
}

/// Sending again changes nothing but the times: a packet that has waited for 300
/// milliseconds counts as sent now, any other as sent when it was.
pub proof fn law_resend_sets_times(s: SenderState, now: nat, k: u32)
    ensures
        ({
            let t = s.after_resend(now);
            &&& t.next == s.next && t.base == s.base && t.file_done == s.file_done && t.size
                == s.size
            &&& t.window.contains_key(k) <==> s.window.contains_key(k)
            &&& s.window.contains_key(k) ==> {
                &&& t.window[k].packet == s.window[k].packet
                &&& t.window[k].sent_at == if now - s.window[k].sent_at >= 300_000_000 {
                    now
                } else {
                    s.window[k].sent_at
                }
            }
        }),
{
}

/// An acknowledgement takes out exactly the packets from the first that has not
/// been acknowledged up to its number, and moves on behind it; it never moves
/// back.
pub proof fn law_ack_removes_prefix(s: SenderState, ack: u32, k: u32)
    ensures
        ({
            let t = s.after_ack(ack);
            &&& t.next == s.next && t.file_done == s.file_done && t.size == s.size
            &&& t.base >= s.base && t.base > ack
            &&& t.base == s.base || t.base == ack + 1
            &&& t.window.contains_key(k) <==> s.window.contains_key(k) && (k < s.base || k > ack)
            &&& t.window.contains_key(k) ==> t.window[k] == s.window[k]
        }),
{
}

/// A chunk that was sent waits under the next number, since then; the others wait
/// as before.
pub proof fn law_sent_chunk_waits(s: SenderState, chunk: Seq<u8>, now: nat, k: u32)
    requires
        s.next <= u32::MAX,
        chunk.len() > 0,
    ensures
        ({
            let t = s.after_read(chunk, now);
            let new = s.next as u32;
            &&& t.next == s.next + 1
            &&& t.base == s.base && t.file_done == s.file_done && t.size == s.size
            &&& t.window.contains_key(new)
            &&& t.window[new].sent_at == now
            &&& crate::packet::data_parts(t.window[new].packet) == Some((new, chunk))
            &&& k != new ==> (t.window.contains_key(k) <==> s.window.contains_key(k))
            &&& k != new && s.window.contains_key(k) ==> t.window[k] == s.window[k]
        }),
{
    crate::packet::law_data_round_trip(s.next as u32, chunk);
}

/// The end of the file is remembered, and nothing else changes.
pub proof fn law_end_is_remembered(s: SenderState, now: nat)
    ensures
        s.after_read(Seq::empty(), now) == s.after_end(),
        s.after_end().file_done,
        s.after_end().next == s.next && s.after_end().base == s.base && s.after_end().window
            == s.window && s.after_end().size == s.size,
{
}

/// A sender reads as long as there may be more and fewer than 256 numbers are
/// open, is done when there is no more and nothing waits, and waits otherwise.
pub proof fn law_what_a_sender_does(s: SenderState)
    ensures
        s.next_step() is ReadChunk <==> !s.file_done && s.next - s.base < 256,
        s.next_step() is Finish <==> s.file_done && forall|k: u32| !s.window.contains_key(k),
{
    if s.file_done && forall|k: u32| !s.window.contains_key(k) {
        assert(s.window =~= Map::<u32, Pending>::empty());
    }
    if s.window == Map::<u32, Pending>::empty() {
        assert forall|k: u32| !s.window.contains_key(k) by {}
    }
}

/// The bytes that count as delivered are 1400 for each acknowledged chunk, but no
/// more than the file has.
pub proof fn law_bytes_acked(s: SenderState)
    ensures
        s.bytes_acked() <= s.size,
        s.bytes_acked() <= s.base * 1400,
        s.bytes_acked() == s.size || s.bytes_acked() == s.base * 1400,
{
}

/// Packets are seen byte for byte.
pub proof fn law_packets_view(v: Seq<Vec<u8>>, i: int)
    ensures
        packets_view(v).len() == v.len(),
        0 <= i < v.len() ==> packets_view(v)[i] == v[i]@,
{
}

} // verus!
