//! Both sides of a transfer over a network that loses, repeats and reorders
//! datagrams: what arrives is what was sent.

use vstd::prelude::*;

use crate::packet::{ack_packet, acked_seq, data_packet, data_parts, DATA_PAYLOAD};
use crate::receiver::{receiver_start, run_length, ReceiverState, MAX_CHUNK, REORDER_WINDOW};
use crate::sender::{sender_start, Pending, SendStep, SenderState, WINDOW};

verus! {

impl ReceiverState {
    /// The state after `datagram` arrived.
    pub open spec fn after_datagram(self, datagram: Seq<u8>) -> ReceiverState {
        match data_parts(datagram) {
            Some((seq, data)) => self.after_data(seq, data),
            None => self,
        }
    }

    /// The bytes to write when `datagram` arrives.
    pub open spec fn output(self, datagram: Seq<u8>) -> Seq<u8> {
        match data_parts(datagram) {
            Some((seq, data)) => self.delivered(seq, data).flatten(),
            None => Seq::empty(),
        }
    }

    /// True when `datagram` is no longer than a datagram gets and its numbers
    /// stay within 32 bits.
    pub open spec fn takes(self, datagram: Seq<u8>) -> bool {
        &&& datagram.len() <= crate::packet::MAX_PKT
        &&& data_parts(datagram) matches Some(parts) ==> self.number_fits(parts.0)
    }
}

/// A receiver and what it has written to its file.
pub struct Received {
    pub state: ReceiverState,
    pub written: Seq<u8>,
}

/// What a fresh receiver has come to after `datagrams`.
pub open spec fn receive_all(datagrams: Seq<Seq<u8>>) -> Received
    decreases datagrams.len(),
{
    if datagrams.len() == 0 {
        Received { state: receiver_start(), written: Seq::empty() }
    } else {
        let before = receive_all(datagrams.drop_last());
        Received {
            state: before.state.after_datagram(datagrams.last()),
            written: before.written + before.state.output(datagrams.last()),
        }
    }
}

/// True when each of `datagrams` can be taken when its turn comes.
pub open spec fn takes_all(datagrams: Seq<Seq<u8>>) -> bool
    decreases datagrams.len(),
{
    datagrams.len() > 0 ==> {
        &&& takes_all(datagrams.drop_last())
        &&& receive_all(datagrams.drop_last()).state.takes(datagrams.last())
    }
}

/// True when every data packet among `datagrams` carries a chunk of `chunks`
/// under its number.
pub open spec fn carries(datagrams: Seq<Seq<u8>>, chunks: Seq<Seq<u8>>) -> bool {
    forall|i: int|
        0 <= i < datagrams.len() ==> (data_parts(#[trigger] datagrams[i]) matches Some(parts) ==> {
            &&& parts.0 < chunks.len()
            &&& parts.1 == chunks[parts.0 as int]
        })
}

/// True when a receiver has written exactly the chunks below the number that it
/// expects, and holds nothing but later chunks.
pub open spec fn has_prefix(s: ReceiverState, written: Seq<u8>, chunks: Seq<Seq<u8>>) -> bool {
    &&& s.well_formed()
    &&& s.expected <= chunks.len()
    &&& written == chunks.take(s.expected as int).flatten()
    &&& s.received == written.len()
    &&& forall|k: u32| #[trigger]
        s.held.contains_key(k) ==> k < chunks.len() && s.held[k] == chunks[k as int]
}

proof fn lemma_run_within(held: Map<u32, Seq<u8>>, from: nat, limit: nat)
    requires
        from <= limit,
        forall|k: u32| #[trigger] held.contains_key(k) ==> k < limit,
    ensures
        from + run_length(held, from) <= limit,
        forall|i: int|
            0 <= i < run_length(held, from) ==> #[trigger] held.contains_key((from + i) as u32),
    decreases 0x1_0000_0000 - from,
{
    if from <= u32::MAX && held.contains_key(from as u32) {
        lemma_run_within(held, from + 1, limit);
        assert forall|i: int| 0 <= i < run_length(held, from) implies #[trigger] held.contains_key(
            (from + i) as u32,
        ) by {
            if i > 0 {
                assert(held.contains_key((from + 1 + (i - 1)) as u32));
            }
        }
    }
}

proof fn lemma_run_ends(held: Map<u32, Seq<u8>>, from: nat)
    requires
        from <= 0x1_0000_0000,
    ensures
        from + run_length(held, from) <= 0x1_0000_0000,
        from + run_length(held, from) <= u32::MAX ==> !held.contains_key(
            (from + run_length(held, from)) as u32,
        ),
    decreases 0x1_0000_0000 - from,
{
    if from <= u32::MAX && held.contains_key(from as u32) {
        lemma_run_ends(held, from + 1);
    }
}

/// Flattening a longer prefix appends the chunks that it adds.
proof fn lemma_flatten_prefix(chunks: Seq<Seq<u8>>, low: int, high: int)
    requires
        0 <= low <= high <= chunks.len(),
    ensures
        chunks.take(high).flatten() == chunks.take(low).flatten() + chunks.subrange(
            low,
            high,
        ).flatten(),
{
    vstd::seq_lib::lemma_flatten_concat(chunks.take(low), chunks.subrange(low, high));
    assert(chunks.take(low) + chunks.subrange(low, high) =~= chunks.take(high));
}

/// Taking a chunk keeps a receiver well formed.
pub proof fn law_receiver_stays_well_formed(s: ReceiverState, seq: u32, data: Seq<u8>)
    requires
        s.well_formed(),
        s.number_fits(seq),
        data.len() <= MAX_CHUNK,
    ensures
        s.after_data(seq, data).well_formed(),
{
    let t = s.after_data(seq, data);
    if seq == s.expected {
        let n = run_length(s.held, s.expected + 1);
        let out = s.delivered(seq, data);
        lemma_run_within(s.held, s.expected + 1, u32::MAX as nat);
        lemma_run_ends(s.held, s.expected + 1);
        assert forall|i: int| 0 <= i < out.len() implies (#[trigger] out[i]).len() <= MAX_CHUNK by {
            if i > 0 {
                assert(s.held.contains_key((s.expected + 1 + (i - 1)) as u32));
            }
        }
        out.lemma_flatten_length_le_mul(MAX_CHUNK as int);
        out.lemma_flatten_and_flatten_alt_are_equivalent();
        assert(s.received + out.len() * MAX_CHUNK <= (s.expected + out.len()) * MAX_CHUNK)
            by (nonlinear_arith)
            requires
                s.received <= s.expected * MAX_CHUNK,
        ;
        assert(t.held.dom().subset_of(s.held.dom()));
        assert forall|k: u32| #[trigger] t.held.contains_key(k) implies {
            &&& t.expected < k
            &&& k < t.expected + REORDER_WINDOW
            &&& k < u32::MAX
            &&& t.held[k].len() <= MAX_CHUNK
        } by {
            assert(s.held.contains_key(k));
        }
    }
}

proof fn lemma_prefix_step(
    s: ReceiverState,
    written: Seq<u8>,
    chunks: Seq<Seq<u8>>,
    seq: u32,
    data: Seq<u8>,
)
    requires
        has_prefix(s, written, chunks),
        s.number_fits(seq),
        data.len() <= MAX_CHUNK,
        seq < chunks.len(),
        data == chunks[seq as int],
    ensures
        has_prefix(
            s.after_data(seq, data),
            written + s.delivered(seq, data).flatten(),
            chunks,
        ),
        s.after_data(seq, data).expected >= s.expected,
        seq == s.expected ==> s.after_data(seq, data).expected > s.expected,
{
    law_receiver_stays_well_formed(s, seq, data);
    let t = s.after_data(seq, data);
    if seq == s.expected {
        let n = run_length(s.held, s.expected + 1);
        lemma_run_within(s.held, s.expected + 1, chunks.len());
        let out = s.delivered(seq, data);
        assert forall|i: int| 0 <= i < out.len() implies out[i] == chunks[s.expected + i] by {
            if i > 0 {
                assert(s.held.contains_key((s.expected + 1 + (i - 1)) as u32));
            }
        }
        assert(out =~= chunks.subrange(s.expected as int, t.expected as int));
        lemma_flatten_prefix(chunks, s.expected as int, t.expected as int);
        assert forall|k: u32| #[trigger] t.held.contains_key(k) implies k < chunks.len()
            && t.held[k] == chunks[k as int] by {
            assert(s.held.contains_key(k));
        }
    } else {
        assert(s.delivered(seq, data).flatten() =~= Seq::<u8>::empty());
        assert(written + Seq::<u8>::empty() =~= written);
        assert forall|k: u32| #[trigger] t.held.contains_key(k) implies k < chunks.len()
            && t.held[k] == chunks[k as int] by {
            assert(k != seq ==> s.held.contains_key(k));
        }
    }
}

/// Whatever the order in which chunks arrive, however often each arrives and
/// whatever else arrives between them: a receiver has written the chunks below
/// the number that it expects, each once and in order, and counted their bytes.
pub proof fn law_reassembly(datagrams: Seq<Seq<u8>>, chunks: Seq<Seq<u8>>)
    requires
        takes_all(datagrams),
        carries(datagrams, chunks),
    ensures
        has_prefix(receive_all(datagrams).state, receive_all(datagrams).written, chunks),
    decreases datagrams.len(),
{
    if datagrams.len() == 0 {
        assert(chunks.take(0).flatten() =~= Seq::<u8>::empty());
    } else {
        let rest = datagrams.drop_last();
        let last = datagrams.last();
        assert forall|i: int| 0 <= i < rest.len() implies (data_parts(#[trigger] rest[i]) matches Some(
            parts,
        ) ==> parts.0 < chunks.len() && parts.1 == chunks[parts.0 as int]) by {
            assert(rest[i] == datagrams[i]);
        }
        law_reassembly(rest, chunks);
        let before = receive_all(rest);
        assert(last == datagrams[datagrams.len() - 1]);
        match data_parts(last) {
            Some((seq, data)) => {
                lemma_prefix_step(before.state, before.written, chunks, seq, data);
            },
            None => {
                assert(before.written + Seq::<u8>::empty() =~= before.written);
            },
        }
    }
}

/// True when chunk number `k` is among `datagrams`.
pub open spec fn arrived(datagrams: Seq<Seq<u8>>, k: nat) -> bool {
    exists|i: int|
        0 <= i < datagrams.len() && (data_parts(#[trigger] datagrams[i]) matches Some(parts)
            && parts.0 == k)
}

/// A chunk that is among all but the last of `datagrams`, or is the last, is
/// among them, and no other is.
proof fn lemma_arrived_last(datagrams: Seq<Seq<u8>>, k: nat)
    requires
        datagrams.len() > 0,
    ensures
        arrived(datagrams, k) <==> arrived(datagrams.drop_last(), k) || (data_parts(
            datagrams.last(),
        ) matches Some(parts) && parts.0 == k),
{
    let rest = datagrams.drop_last();
    let n = datagrams.len() - 1;
    if arrived(datagrams, k) {
        let i = choose|i: int|
            0 <= i < datagrams.len() && (data_parts(#[trigger] datagrams[i]) matches Some(parts)
                && parts.0 == k);
        if i < n {
            assert(rest[i] == datagrams[i]);
        }
    }
    if arrived(rest, k) {
        let i = choose|i: int|
            0 <= i < rest.len() && (data_parts(#[trigger] rest[i]) matches Some(parts) && parts.0
                == k);
        assert(rest[i] == datagrams[i]);
    }
    if data_parts(datagrams.last()) matches Some(parts) && parts.0 == k {
        assert(datagrams[n] == datagrams.last());
    }
}

/// What has been written or is held has arrived.
proof fn lemma_kept_has_arrived(datagrams: Seq<Seq<u8>>, k: nat)
    requires
        takes_all(datagrams),
        k < receive_all(datagrams).state.expected || (k <= u32::MAX && receive_all(
            datagrams,
        ).state.held.contains_key(k as u32)),
    ensures
        arrived(datagrams, k),
    decreases datagrams.len(),
{
    if datagrams.len() > 0 {
        let rest = datagrams.drop_last();
        let s = receive_all(rest).state;
        lemma_arrived_last(datagrams, k);
        if k < s.expected || (k <= u32::MAX && s.held.contains_key(k as u32)) {
            lemma_kept_has_arrived(rest, k);
        } else {
            let parts = data_parts(datagrams.last())->0;
            if parts.0 == s.expected && k > s.expected {
                lemma_run_length_held(s.held, s.expected + 1, k);
            }
        }
    }
}

/// Every number of a run is held.
proof fn lemma_run_length_held(held: Map<u32, Seq<u8>>, from: nat, k: nat)
    requires
        from <= k < from + run_length(held, from),
    ensures
        k <= u32::MAX,
        held.contains_key(k as u32),
    decreases 0x1_0000_0000 - from,
{
    if k > from {
        lemma_run_length_held(held, from + 1, k);
    }
}

/// As long as no number is a reorder window or more ahead, what has arrived has
/// been written or is held.
proof fn lemma_arrived_is_kept(datagrams: Seq<Seq<u8>>, chunks: Seq<Seq<u8>>, k: nat)
    requires
        takes_all(datagrams),
        carries(datagrams, chunks),
        chunks.len() <= REORDER_WINDOW,
        arrived(datagrams, k),
    ensures
        k <= u32::MAX,
        k < receive_all(datagrams).state.expected || receive_all(
            datagrams,
        ).state.held.contains_key(k as u32),
    decreases datagrams.len(),
{
    if datagrams.len() > 0 {
        let rest = datagrams.drop_last();
        let last = datagrams.last();
        let s = receive_all(rest).state;
        assert forall|i: int| 0 <= i < rest.len() implies (data_parts(#[trigger] rest[i]) matches Some(
            parts,
        ) ==> parts.0 < chunks.len() && parts.1 == chunks[parts.0 as int]) by {
            assert(rest[i] == datagrams[i]);
        }
        assert(last == datagrams[datagrams.len() - 1]);
        lemma_arrived_last(datagrams, k);
        if arrived(rest, k) {
            lemma_arrived_is_kept(rest, chunks, k);
        }
    }
}

/// Nothing is written beyond a gap: as long as chunk `gap` has not come, the
/// receiver expects it or an earlier one.
pub proof fn law_gap_stops_writing(datagrams: Seq<Seq<u8>>, gap: nat)
    requires
        takes_all(datagrams),
        !arrived(datagrams, gap),
    ensures
        receive_all(datagrams).state.expected <= gap,
{
    if gap < receive_all(datagrams).state.expected {
        lemma_kept_has_arrived(datagrams, gap);
    }
}

/// Everything up to the first gap is written, as long as the file fits into the
/// reorder window; where every chunk has come, that is the whole file.
pub proof fn law_written_up_to_first_gap(
    datagrams: Seq<Seq<u8>>,
    chunks: Seq<Seq<u8>>,
    gap: nat,
)
    requires
        takes_all(datagrams),
        carries(datagrams, chunks),
        chunks.len() <= REORDER_WINDOW,
        gap <= chunks.len(),
        forall|k: nat| k < gap ==> #[trigger] arrived(datagrams, k),
        gap < chunks.len() ==> !arrived(datagrams, gap),
    ensures
        receive_all(datagrams).state.expected == gap,
        receive_all(datagrams).written == chunks.take(gap as int).flatten(),
        gap == chunks.len() ==> receive_all(datagrams).written == chunks.flatten(),
{
    law_reassembly(datagrams, chunks);
    let s = receive_all(datagrams).state;
    if s.expected < gap {
        assert(arrived(datagrams, s.expected));
        lemma_arrived_is_kept(datagrams, chunks, s.expected);
    }
    if gap < chunks.len() {
        law_gap_stops_writing(datagrams, gap);
    }
    assert(chunks.take(chunks.len() as int) =~= chunks);
}

/// What a receiver reports only grows, whatever arrives.
pub proof fn law_received_only_grows(s: ReceiverState, datagram: Seq<u8>)
    ensures
        s.after_datagram(datagram).received >= s.received,
        s.after_datagram(datagram).expected >= s.expected,
{
}

/// A receiver never holds as many early chunks as its reorder window has
/// numbers.
pub proof fn law_held_is_bounded(s: ReceiverState)
    requires
        s.well_formed(),
    ensures
        s.held.dom().len() < REORDER_WINDOW,
{
    let low = (s.expected + 1) as int;
    let high = (s.expected + REORDER_WINDOW) as int;
    let numbers = s.held.dom().map(|k: u32| k as int);
    vstd::set_lib::lemma_int_range(low, high);
    assert(numbers.subset_of(vstd::set_lib::set_int_range(low, high)));
    vstd::set_lib::lemma_len_subset(numbers, vstd::set_lib::set_int_range(low, high));
    vstd::set_lib::lemma_map_size(s.held.dom(), numbers, |k: u32| k as int);
}

/// Both sides of a transfer and every datagram that either has sent.
#[verifier::ext_equal]
pub struct Link {
    pub sender: SenderState,
    pub receiver: ReceiverState,
    /// The chunks that the sender has read, in order.
    pub chunks: Seq<Seq<u8>>,
    /// The bytes that the receiver has written.
    pub written: Seq<u8>,
    /// The data packets that were sent.
    pub data: Set<Seq<u8>>,
    /// The acknowledgements that were sent.
    pub acks: Set<Seq<u8>>,
    /// True when the sender has sent the last of these chunks and not yet taken
    /// note of it.
    pub sending: bool,
    /// True when the sender has announced the end of the file.
    pub announced: bool,
    /// True when the receiver has closed its file.
    pub closed: bool,
}

/// One thing that happens during a transfer. The network delivers any datagram
/// that was ever sent, any number of times, or never.
pub enum LinkEvent {
    /// The sender reads a chunk and sends it. An empty chunk is the end of the
    /// file.
    Read { chunk: Seq<u8> },
    /// The sender takes note that the chunk was sent.
    Sent { now: nat },
    /// The sender sends the due packets again.
    Resend { now: nat },
    /// A data packet reaches the receiver, which acknowledges.
    Deliver { datagram: Seq<u8> },
    /// An acknowledgement reaches the sender.
    Acknowledge { datagram: Seq<u8> },
    /// The sender announces the end of the file.
    Announce,
    /// The announcement reaches the receiver, which closes its file.
    Close,
}

impl Link {
    /// The transfer of a file of `size` bytes before anything has happened.
    pub open spec fn start(size: u64) -> Link {
        Link {
            sender: sender_start(size),
            receiver: receiver_start(),
            chunks: Seq::empty(),
            written: Seq::empty(),
            data: Set::empty(),
            acks: Set::empty(),
            sending: false,
            announced: false,
            closed: false,
        }
    }

    /// True when `event` can happen.
    pub open spec fn allows(self, event: LinkEvent) -> bool {
        match event {
            LinkEvent::Read { chunk } => {
                &&& !self.sending
                &&& self.sender.wants_chunk()
                &&& self.sender.base + WINDOW <= u32::MAX
                &&& chunk.len() <= DATA_PAYLOAD
            },
            LinkEvent::Sent { now } => self.sending,
            LinkEvent::Resend { now } => !self.sending,
            LinkEvent::Deliver { datagram } => {
                &&& !self.closed
                &&& self.data.contains(datagram)
                &&& self.receiver.takes(datagram)
            },
            LinkEvent::Acknowledge { datagram } => !self.sending && self.acks.contains(datagram),
            LinkEvent::Announce => self.sender.next_step() == SendStep::Finish,
            LinkEvent::Close => self.announced,
        }
    }

    /// What `event` leads to.
    pub open spec fn after(self, event: LinkEvent) -> Link {
        match event {
            LinkEvent::Read { chunk } => if chunk.len() == 0 {
                Link { sender: self.sender.after_end(), ..self }
            } else {
                Link {
                    chunks: self.chunks.push(chunk),
                    data: self.data.insert(data_packet(self.sender.next as u32, chunk)),
                    sending: true,
                    ..self
                }
            },
            LinkEvent::Sent { now } => Link {
                sender: self.sender.after_read(self.chunks.last(), now),
                sending: false,
                ..self
            },
            LinkEvent::Resend { now } => Link {
                sender: self.sender.after_resend(now),
                data: self.data.union(self.sender.due(now).to_set()),
                ..self
            },
            LinkEvent::Deliver { datagram } => Link {
                receiver: self.receiver.after_datagram(datagram),
                written: self.written + self.receiver.output(datagram),
                acks: self.acks.insert(
                    ack_packet(self.receiver.after_datagram(datagram).ack_number()),
                ),
                ..self
            },
            LinkEvent::Acknowledge { datagram } => match acked_seq(datagram) {
                Some(ack) => Link { sender: self.sender.after_ack(ack), ..self },
                None => self,
            },
            LinkEvent::Announce => Link { announced: true, ..self },
            LinkEvent::Close => Link { closed: true, ..self },
        }
    }

    /// What `events` lead to, one after the other.
    pub open spec fn after_all(self, events: Seq<LinkEvent>) -> Link
        decreases events.len(),
    {
        if events.len() == 0 {
            self
        } else {
            self.after_all(events.drop_last()).after(events.last())
        }
    }

    /// True when `events` can happen, one after the other.
    pub open spec fn allows_all(self, events: Seq<LinkEvent>) -> bool
        decreases events.len(),
    {
        events.len() > 0 ==> {
            &&& self.allows_all(events.drop_last())
            &&& self.after_all(events.drop_last()).allows(events.last())
        }
    }

    /// The transfer of a file of `size` bytes after `events`.
    pub open spec fn run(size: u64, events: Seq<LinkEvent>) -> Link
        decreases events.len(),
    {
        if events.len() == 0 {
            Link::start(size)
        } else {
            Link::run(size, events.drop_last()).after(events.last())
        }
    }

    /// True when each of `events` can happen when its turn comes.
    pub open spec fn possible(size: u64, events: Seq<LinkEvent>) -> bool
        decreases events.len(),
    {
        events.len() > 0 ==> {
            &&& Link::possible(size, events.drop_last())
            &&& Link::run(size, events.drop_last()).allows(events.last())
        }
    }

    /// True of every state that a transfer reaches.
    pub open spec fn consistent(self) -> bool {
        // The sender has numbered the chunks that it read.
        &&& self.sender.in_step()
        &&& if self.sending {
            &&& self.sender.next + 1 == self.chunks.len()
            &&& self.sender.wants_chunk()
            &&& self.sender.base + WINDOW <= u32::MAX
            &&& self.chunks.last().len() > 0
        } else {
            self.sender.next == self.chunks.len()
        }
        &&& forall|k: u32| #[trigger]
            self.sender.window.contains_key(k) ==> self.sender.window[k].packet == data_packet(
                k,
                self.chunks[k as int],
            )
        &&& forall|i: int|
            0 <= i < self.chunks.len() ==> (#[trigger] self.chunks[i]).len() <= DATA_PAYLOAD
        // Data packets carry chunks under their numbers.
        &&& forall|d: Seq<u8>| #[trigger]
            self.data.contains(d) ==> exists|k: u32|
                k < self.chunks.len() && d == #[trigger] data_packet(k, self.chunks[k as int])
        // The receiver has written a prefix of the file.
        &&& has_prefix(self.receiver, self.written, self.chunks)
        // Acknowledgements are true, but for a zero before the first chunk, which
        // takes a second chunk to come about.
        &&& forall|d: Seq<u8>| #[trigger]
            self.acks.contains(d) ==> exists|n: u32|
                d == #[trigger] ack_packet(n) && (n < self.receiver.expected || (n == 0
                    && self.chunks.len() >= 2))
        &&& self.sender.base <= self.receiver.expected || (self.sender.base == 1
            && self.chunks.len() >= 2)
    }
}

/// A transfer after more events is the transfer before them, gone on with.
pub proof fn lemma_run_after_all(size: u64, events: Seq<LinkEvent>, more: Seq<LinkEvent>)
    requires
        Link::possible(size, events),
        Link::run(size, events).allows_all(more),
    ensures
        Link::possible(size, events + more),
        Link::run(size, events + more) == Link::run(size, events).after_all(more),
    decreases more.len(),
{
    if more.len() == 0 {
        assert(events + more =~= events);
    } else {
        lemma_run_after_all(size, events, more.drop_last());
        assert((events + more).drop_last() =~= events + more.drop_last());
        assert((events + more).last() == more.last());
    }
}

proof fn lemma_start_consistent(size: u64)
    ensures
        Link::start(size).consistent(),
{
    let l = Link::start(size);
    assert(l.chunks.take(0).flatten() =~= Seq::<u8>::empty());
}

proof fn lemma_read_consistent(l: Link, chunk: Seq<u8>)
    requires
        l.consistent(),
        l.allows(LinkEvent::Read { chunk }),
    ensures
        l.after(LinkEvent::Read { chunk }).consistent(),
{
    let m = l.after(LinkEvent::Read { chunk });
    if chunk.len() == 0 {
        assert forall|k: u32| #[trigger] m.sender.window.contains_key(k) implies
            m.sender.window[k].packet == data_packet(k, m.chunks[k as int]) by {
            assert(l.sender.window.contains_key(k));
        }
    } else {
        let new = l.sender.next as u32;
        assert forall|k: u32| #[trigger] m.sender.window.contains_key(k) implies
            m.sender.window[k].packet == data_packet(k, m.chunks[k as int]) by {
            assert(l.sender.window.contains_key(k));
            assert(k < l.chunks.len());
        }
        assert forall|d: Seq<u8>| #[trigger] m.data.contains(d) implies exists|k: u32|
            k < m.chunks.len() && d == #[trigger] data_packet(k, m.chunks[k as int]) by {
            if l.data.contains(d) {
                let k = choose|k: u32|
                    k < l.chunks.len() && d == #[trigger] data_packet(k, l.chunks[k as int]);
                assert(m.chunks[k as int] == l.chunks[k as int]);
                assert(d == data_packet(k, m.chunks[k as int]));
            } else {
                assert(d == data_packet(new, m.chunks[new as int]));
            }
        }
        assert(m.chunks.take(l.receiver.expected as int) =~= l.chunks.take(
            l.receiver.expected as int,
        ));
        assert forall|k: u32| #[trigger] m.receiver.held.contains_key(k) implies k < m.chunks.len()
            && m.receiver.held[k] == m.chunks[k as int] by {
            assert(l.receiver.held.contains_key(k));
        }
        assert forall|d: Seq<u8>| #[trigger] m.acks.contains(d) implies exists|n: u32|
            d == #[trigger] ack_packet(n) && (n < m.receiver.expected || (n == 0
                && m.chunks.len() >= 2)) by {
            let n = choose|n: u32|
                d == #[trigger] ack_packet(n) && (n < l.receiver.expected || (n == 0
                    && l.chunks.len() >= 2));
            assert(d == ack_packet(n));
        }
    }
}

proof fn lemma_sent_consistent(l: Link, now: nat)
    requires
        l.consistent(),
        l.allows(LinkEvent::Sent { now }),
    ensures
        l.after(LinkEvent::Sent { now }).consistent(),
{
    let m = l.after(LinkEvent::Sent { now });
    let chunk = l.chunks.last();
    let new = l.sender.next as u32;
    crate::sender::law_read_keeps_step(l.sender, chunk, now);
    assert forall|k: u32| #[trigger] m.sender.window.contains_key(k) implies
        m.sender.window[k].packet == data_packet(k, m.chunks[k as int]) by {
        if k != new {
            assert(l.sender.window.contains_key(k));
        }
    }
}

proof fn lemma_resend_consistent(l: Link, now: nat)
    requires
        l.consistent(),
        l.allows(LinkEvent::Resend { now }),
    ensures
        l.after(LinkEvent::Resend { now }).consistent(),
{
    let m = l.after(LinkEvent::Resend { now });
    crate::sender::law_resend_keeps_step(l.sender, now);
    crate::sender::law_resend_is_pending(l.sender, now, 0x1_0000_0000);
    assert forall|k: u32| #[trigger] m.sender.window.contains_key(k) implies
        m.sender.window[k].packet == data_packet(k, m.chunks[k as int]) by {
        assert(l.sender.window.contains_key(k));
    }
    assert forall|d: Seq<u8>| #[trigger] m.data.contains(d) implies exists|k: u32|
        k < m.chunks.len() && d == #[trigger] data_packet(k, m.chunks[k as int]) by {
        if l.data.contains(d) {
            let k = choose|k: u32|
                k < l.chunks.len() && d == #[trigger] data_packet(k, l.chunks[k as int]);
            assert(d == data_packet(k, m.chunks[k as int]));
        } else {
            let due = l.sender.due(now);
            assert(due.to_set().contains(d));
            let i = choose|i: int| 0 <= i < due.len() && due[i] == d;
            assert(l.sender.due_below(now, 0x1_0000_0000)[i] == d);
            let k = choose|k: u32| #[trigger]
                l.sender.window.contains_key(k) && l.sender.window[k].packet == d;
            assert(d == data_packet(k, m.chunks[k as int]));
        }
    }
}

proof fn lemma_deliver_consistent(l: Link, datagram: Seq<u8>)
    requires
        l.consistent(),
        l.allows(LinkEvent::Deliver { datagram }),
    ensures
        l.after(LinkEvent::Deliver { datagram }).consistent(),
{
    let m = l.after(LinkEvent::Deliver { datagram });
    let k = choose|k: u32|
        k < l.chunks.len() && datagram == #[trigger] data_packet(k, l.chunks[k as int]);
    let chunk = l.chunks[k as int];
    crate::packet::law_data_round_trip(k, chunk);
    lemma_prefix_step(l.receiver, l.written, l.chunks, k, chunk);
    assert forall|d: Seq<u8>| #[trigger] m.acks.contains(d) implies exists|n: u32|
        d == #[trigger] ack_packet(n) && (n < m.receiver.expected || (n == 0 && m.chunks.len() >= 2)) by {
        if l.acks.contains(d) {
            let n = choose|n: u32|
                d == #[trigger] ack_packet(n) && (n < l.receiver.expected || (n == 0
                    && l.chunks.len() >= 2));
            assert(d == ack_packet(n));
        } else {
            let n = m.receiver.ack_number();
            assert(d == ack_packet(n));
            if m.receiver.expected == 0 {
                // Only a chunk other than the first leaves the receiver at zero.
                assert(k != 0);
            }
        }
    }
}

proof fn lemma_acknowledge_consistent(l: Link, datagram: Seq<u8>)
    requires
        l.consistent(),
        l.allows(LinkEvent::Acknowledge { datagram }),
    ensures
        acked_seq(datagram) matches Some(n) && n < l.sender.next,
        l.after(LinkEvent::Acknowledge { datagram }).consistent(),
{
    let m = l.after(LinkEvent::Acknowledge { datagram });
    let n = choose|n: u32|
        datagram == #[trigger] ack_packet(n) && (n < l.receiver.expected || (n == 0
            && l.chunks.len() >= 2));
    crate::packet::law_ack_round_trip(n);
    crate::sender::law_ack_keeps_step(l.sender, n);
    assert forall|k: u32| #[trigger] m.sender.window.contains_key(k) implies
        m.sender.window[k].packet == data_packet(k, m.chunks[k as int]) by {
        assert(l.sender.window.contains_key(k));
    }
    assert(m.chunks == l.chunks && m.receiver == l.receiver && m.written == l.written);
    assert(m.data == l.data && m.acks == l.acks);
    assert(m.sender.base <= m.receiver.expected || (m.sender.base == 1 && m.chunks.len() >= 2));
}

/// Every state that a transfer reaches is consistent.
pub proof fn law_transfer_stays_consistent(size: u64, events: Seq<LinkEvent>)
    requires
        Link::possible(size, events),
    ensures
        Link::run(size, events).consistent(),
    decreases events.len(),
{
    if events.len() == 0 {
        lemma_start_consistent(size);
    } else {
        law_transfer_stays_consistent(size, events.drop_last());
        let l = Link::run(size, events.drop_last());
        match events.last() {
            LinkEvent::Read { chunk } => {
                lemma_read_consistent(l, chunk);
            },
            LinkEvent::Sent { now } => {
                lemma_sent_consistent(l, now);
            },
            LinkEvent::Resend { now } => {
                lemma_resend_consistent(l, now);
            },
            LinkEvent::Deliver { datagram } => {
                lemma_deliver_consistent(l, datagram);
            },
            LinkEvent::Acknowledge { datagram } => {
                lemma_acknowledge_consistent(l, datagram);
            },
            LinkEvent::Announce => {},
            LinkEvent::Close => {},
        }
    }
}

/// A transfer is faithful: at every moment the receiver has written a prefix of
/// what the sender read, and once the sender is complete, all of it.
pub proof fn law_transfer_is_faithful(size: u64, events: Seq<LinkEvent>)
    requires
        Link::possible(size, events),
    ensures
        ({
            let l = Link::run(size, events);
            &&& l.written.is_prefix_of(l.chunks.flatten())
            &&& l.receiver.received == l.written.len()
            &&& l.sender.complete() ==> l.written == l.chunks.flatten()
        }),
{
    law_transfer_stays_consistent(size, events);
    let l = Link::run(size, events);
    let e = l.receiver.expected as int;
    lemma_flatten_prefix(l.chunks, e, l.chunks.len() as int);
    assert(l.chunks.take(l.chunks.len() as int) =~= l.chunks);
    assert(l.written =~= l.chunks.flatten().take(l.written.len() as int));
    if l.sender.complete() {
        crate::sender::law_complete_is_all_acked(l.sender);
    }
}

/// Completion is final: nothing that can still happen undoes it, adds to the
/// file or changes what was written.
pub proof fn law_completion_is_final(l: Link, event: LinkEvent)
    requires
        l.consistent(),
        l.sender.complete(),
        l.allows(event),
    ensures
        l.after(event).sender.complete(),
        l.after(event).chunks == l.chunks,
        l.after(event).written == l.chunks.flatten(),
{
    let m = l.after(event);
    crate::sender::law_complete_is_all_acked(l.sender);
    assert(l.chunks.take(l.chunks.len() as int) =~= l.chunks);
    assert(l.written == l.chunks.flatten());
    match event {
        LinkEvent::Read { chunk } => {},
        LinkEvent::Sent { now } => {},
        LinkEvent::Resend { now } => {
            assert(m.sender.window =~= Map::<u32, Pending>::empty());
        },
        LinkEvent::Deliver { datagram } => {
            lemma_deliver_consistent(l, datagram);
            assert(m.written == m.chunks.take(m.receiver.expected as int).flatten());
            let k = choose|k: u32|
                k < l.chunks.len() && datagram == #[trigger] data_packet(k, l.chunks[k as int]);
            crate::packet::law_data_round_trip(k, l.chunks[k as int]);
            assert(l.receiver.delivered(k, l.chunks[k as int]).flatten() =~= Seq::<u8>::empty());
            assert(l.written + Seq::<u8>::empty() =~= l.written);
        },
        LinkEvent::Acknowledge { datagram } => {
            lemma_acknowledge_consistent(l, datagram);
            assert(m.sender.window =~= Map::<u32, Pending>::empty());
        },
        LinkEvent::Announce => {},
        LinkEvent::Close => {},
    }
}

proof fn lemma_announced_is_complete(size: u64, events: Seq<LinkEvent>)
    requires
        Link::possible(size, events),
    ensures
        Link::run(size, events).announced ==> Link::run(size, events).sender.complete(),
        Link::run(size, events).closed ==> Link::run(size, events).announced,
    decreases events.len(),
{
    if events.len() > 0 {
        let l = Link::run(size, events.drop_last());
        lemma_announced_is_complete(size, events.drop_last());
        law_transfer_stays_consistent(size, events.drop_last());
        if l.sender.complete() {
            law_completion_is_final(l, events.last());
        }
    }
}

/// A file that the receiver has closed is the file that the sender read, from
/// its beginning to its end, whatever the network did.
pub proof fn law_closed_file_is_whole(size: u64, events: Seq<LinkEvent>)
    requires
        Link::possible(size, events),
    ensures
        ({
            let l = Link::run(size, events);
            l.closed ==> {
                &&& l.sender.file_done
                &&& l.written == l.chunks.flatten()
                &&& l.receiver.received == l.chunks.flatten().len()
            }
        }),
{
    lemma_announced_is_complete(size, events);
    law_transfer_is_faithful(size, events);
}

/// The receiver never drops a data packet for being too far ahead.
pub proof fn law_window_suits_receiver(size: u64, events: Seq<LinkEvent>, datagram: Seq<u8>)
    requires
        Link::possible(size, events),
        Link::run(size, events).data.contains(datagram),
    ensures
        data_parts(datagram) matches Some(parts) && parts.0 < Link::run(
            size,
            events,
        ).receiver.expected + REORDER_WINDOW,
{
    law_transfer_stays_consistent(size, events);
    let l = Link::run(size, events);
    let k = choose|k: u32|
        k < l.chunks.len() && datagram == #[trigger] data_packet(k, l.chunks[k as int]);
    crate::packet::law_data_round_trip(k, l.chunks[k as int]);
}

/// A transfer can go on: when the oldest waiting packet and then the
/// acknowledgement that it causes arrive, the sender advances. This holds as
/// long as the sender has not been told of more than was written.
pub proof fn law_transfer_advances(size: u64, events: Seq<LinkEvent>)
    requires
        Link::possible(size, events),
        Link::run(size, events).sender.base < Link::run(size, events).sender.next,
        Link::run(size, events).sender.base <= Link::run(size, events).receiver.expected,
        Link::run(size, events).receiver.number_fits(Link::run(size, events).sender.base as u32),
    ensures
        ({
            let l = Link::run(size, events);
            let oldest = l.sender.window[l.sender.base as u32].packet;
            let delivered = l.after(LinkEvent::Deliver { datagram: oldest });
            let ack = ack_packet(delivered.receiver.ack_number());
            let acknowledged = delivered.after(LinkEvent::Acknowledge { datagram: ack });
            &&& l.sender.window.contains_key(l.sender.base as u32)
            &&& delivered.acks.contains(ack)
            &&& acknowledged.sender.base > l.sender.base
        }),
{
    law_transfer_stays_consistent(size, events);
    let l = Link::run(size, events);
    let base = l.sender.base as u32;
    let chunk = l.chunks[base as int];
    assert(l.sender.window.contains_key(base));
    crate::packet::law_data_round_trip(base, chunk);
    lemma_prefix_step(l.receiver, l.written, l.chunks, base, chunk);
    crate::packet::law_ack_round_trip(l.receiver.after_data(base, chunk).ack_number());
}

} // verus!
