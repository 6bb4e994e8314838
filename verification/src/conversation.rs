//! A sending and a receiving session that talk to each other over a network
//! that loses, repeats and reorders datagrams: whole sessions are transfers.

use vstd::prelude::*;

use crate::packet::{acked_seq, data_parts, has_type, PKT_ACCEPT, PKT_FIN, PKT_FIN_ACK, PKT_OFFER};
use crate::receive_session::{
    acceptance, confirmation, receive_start, ReceiveActionView, ReceiveEvent, ReceiveSessionState,
};
use crate::send_session::{
    chunks_after, fin, send_start, SendActionView, SendEvent, SendSessionState,
};
use crate::transfer::{Link, LinkEvent};

verus! {

/// Two sessions and every datagram that either has sent.
pub struct Conversation {
    pub sender: SendSessionState,
    pub receiver: ReceiveSessionState,
    /// The chunks that the sender has read, in order.
    pub chunks: Seq<Seq<u8>>,
    /// The bytes that the receiver has written.
    pub written: Seq<u8>,
    /// What the sender has sent.
    pub to_receiver: Set<Seq<u8>>,
    /// What the receiver has sent.
    pub to_sender: Set<Seq<u8>>,
}

/// One thing that happens to either session. The network delivers any datagram
/// that was ever sent, any number of times, or never.
pub enum ConversationEvent {
    Sender(SendEvent),
    Receiver(ReceiveEvent),
}

/// The datagram that reaches the sender with `event`, if one does.
pub open spec fn heard_by_sender(event: SendEvent) -> Option<Seq<u8>> {
    match event {
        SendEvent::OfferReply { reply: Some(d) } => Some(d@),
        SendEvent::Received { datagram } => Some(datagram@),
        SendEvent::FinReply { reply: Some(d) } => Some(d@),
        _ => None,
    }
}

/// The datagram that reaches the receiver with `event`, if one does.
pub open spec fn heard_by_receiver(event: ReceiveEvent) -> Option<Seq<u8>> {
    match event {
        ReceiveEvent::Received { datagram } => Some(datagram@),
        _ => None,
    }
}

/// The datagrams that the sender sends with `action`.
pub open spec fn sent_by_sender(action: SendActionView) -> Set<Seq<u8>> {
    match action {
        SendActionView::SendOffer(p) => set![p],
        SendActionView::SendData(p) => set![p],
        SendActionView::Resend(v) => v.to_set(),
        SendActionView::SendFin(p) => set![p],
        _ => Set::empty(),
    }
}

/// The datagrams that the receiver sends with `action`.
pub open spec fn sent_by_receiver(action: ReceiveActionView) -> Set<Seq<u8>> {
    match action {
        ReceiveActionView::Accept { reply, file_name } => set![reply],
        ReceiveActionView::Write { chunks, ack, received } => set![ack],
        ReceiveActionView::AcceptAgain { reply } => set![reply],
        ReceiveActionView::Finish { reply, received } => set![reply],
        _ => Set::empty(),
    }
}

impl Conversation {
    /// Two fresh sessions, with the offer of a file of `size` bytes named `name`
    /// on its way.
    pub open spec fn start(name: Seq<char>, size: u64, windows: bool) -> Conversation {
        Conversation {
            sender: send_start(name, size),
            receiver: receive_start(windows),
            chunks: Seq::empty(),
            written: Seq::empty(),
            to_receiver: set![send_start(name, size).offer()],
            to_sender: Set::empty(),
        }
    }

    /// True when `event` can happen.
    pub open spec fn allows(self, event: ConversationEvent) -> bool {
        match event {
            ConversationEvent::Sender(e) => {
                &&& self.sender.expects(e)
                &&& heard_by_sender(e) matches Some(d) ==> self.to_sender.contains(d)
            },
            ConversationEvent::Receiver(e) => {
                &&& self.receiver.expects(e)
                &&& heard_by_receiver(e) matches Some(d) ==> self.to_receiver.contains(d)
            },
        }
    }

    /// What `event` leads to.
    pub open spec fn after(self, event: ConversationEvent) -> Conversation {
        match event {
            ConversationEvent::Sender(e) => Conversation {
                sender: self.sender.step(e).0,
                chunks: chunks_after(self.chunks, e),
                to_receiver: self.to_receiver.union(sent_by_sender(self.sender.step(e).1)),
                ..self
            },
            ConversationEvent::Receiver(e) => Conversation {
                receiver: self.receiver.step(e).0,
                written: match self.receiver.step(e).1 {
                    ReceiveActionView::Write { chunks, ack, received } => self.written
                        + chunks.flatten(),
                    _ => self.written,
                },
                to_sender: self.to_sender.union(sent_by_receiver(self.receiver.step(e).1)),
                ..self
            },
        }
    }

    /// The two sessions after `events`.
    pub open spec fn run(
        name: Seq<char>,
        size: u64,
        windows: bool,
        events: Seq<ConversationEvent>,
    ) -> Conversation
        decreases events.len(),
    {
        if events.len() == 0 {
            Conversation::start(name, size, windows)
        } else {
            Conversation::run(name, size, windows, events.drop_last()).after(events.last())
        }
    }

    /// True when each of `events` can happen when its turn comes.
    pub open spec fn possible(
        name: Seq<char>,
        size: u64,
        windows: bool,
        events: Seq<ConversationEvent>,
    ) -> bool
        decreases events.len(),
    {
        events.len() > 0 ==> {
            &&& Conversation::possible(name, size, windows, events.drop_last())
            &&& Conversation::run(name, size, windows, events.drop_last()).allows(events.last())
        }
    }

    /// The transfer that the two sessions are engaged in.
    pub open spec fn link(self) -> Link {
        Link {
            sender: self.sender.sender,
            receiver: self.receiver.receiver,
            chunks: self.chunks,
            written: self.written,
            data: Set::new(|d: Seq<u8>| self.to_receiver.contains(d) && data_parts(d) is Some),
            acks: Set::new(|d: Seq<u8>| self.to_sender.contains(d) && acked_seq(d) is Some),
            sending: self.sender.stage is Sending,
            announced: self.to_receiver.contains(fin()),
            closed: self.receiver.stage is Finished,
        }
    }

    /// What `event` is to the transfer: nothing, one thing, or two, where the
    /// sender announces the end of the file at once.
    pub open spec fn link_events(self, event: ConversationEvent) -> Seq<LinkEvent> {
        match event {
            ConversationEvent::Sender(e) => {
                let first = match e {
                    SendEvent::Chunk { data } => seq![LinkEvent::Read { chunk: data@ }],
                    SendEvent::Sent { now_nanos } => seq![LinkEvent::Sent { now: now_nanos as nat }],
                    SendEvent::Received { datagram } => if acked_seq(datagram@) is Some {
                        seq![LinkEvent::Acknowledge { datagram: datagram@ }]
                    } else {
                        Seq::empty()
                    },
                    SendEvent::Silent { now_nanos } => seq![
                        LinkEvent::Resend { now: now_nanos as nat },
                    ],
                    _ => Seq::empty(),
                };
                if self.sender.step(e).1 is SendFin {
                    first.push(LinkEvent::Announce)
                } else {
                    first
                }
            },
            ConversationEvent::Receiver(e) => match e {
                ReceiveEvent::Received { datagram } => if !(self.receiver.stage is Waiting) {
                    Seq::empty()
                } else if data_parts(datagram@) is Some {
                    seq![LinkEvent::Deliver { datagram: datagram@ }]
                } else if has_type(datagram@, PKT_FIN) {
                    seq![LinkEvent::Close]
                } else {
                    Seq::empty()
                },
                _ => Seq::empty(),
            },
        }
    }

    /// True of every state that a conversation reaches.
    pub open spec fn sound(self) -> bool {
        &&& self.sender.well_formed()
        &&& self.sender.stage is Sending ==> self.chunks.len() > 0 && self.chunks.last()
            == self.sender.chunk
        &&& forall|d: Seq<u8>| #[trigger]
            self.to_receiver.contains(d) ==> d == self.sender.offer() || data_parts(d) is Some || d
                == fin()
    }

    /// What the events of a whole conversation are to its transfer.
    pub open spec fn all_link_events(
        name: Seq<char>,
        size: u64,
        windows: bool,
        events: Seq<ConversationEvent>,
    ) -> Seq<LinkEvent>
        decreases events.len(),
    {
        if events.len() == 0 {
            Seq::empty()
        } else {
            Conversation::all_link_events(name, size, windows, events.drop_last())
                + Conversation::run(name, size, windows, events.drop_last()).link_events(
                events.last(),
            )
        }
    }
}

/// The packets other than data and acknowledgements are neither.
proof fn lemma_other_packets(sender: SendSessionState)
    ensures
        data_parts(sender.offer()) is None,
        data_parts(fin()) is None,
        sender.offer() != fin(),
        has_type(fin(), PKT_FIN),
        !has_type(sender.offer(), PKT_FIN),
        acked_seq(acceptance()) is None,
        acked_seq(confirmation()) is None,
{
    let offer = crate::bytes::be_bytes(sender.sender.size as nat, 8) + vstd::utf8::encode_utf8(
        sender.name,
    );
    crate::packet::law_parse_of_build(PKT_OFFER, offer);
    crate::packet::law_parse_of_build(PKT_FIN, Seq::empty());
    crate::packet::law_parse_of_build(PKT_ACCEPT, Seq::empty());
    crate::packet::law_parse_of_build(PKT_FIN_ACK, Seq::empty());
}

/// Each step of the sender is what it is to the transfer.
proof fn lemma_sender_step(c: Conversation, e: SendEvent)
    requires
        c.sound(),
        c.allows(ConversationEvent::Sender(e)),
    ensures
        c.after(ConversationEvent::Sender(e)).sound(),
        c.link().allows_all(c.link_events(ConversationEvent::Sender(e))),
        c.link().after_all(c.link_events(ConversationEvent::Sender(e))) == c.after(
            ConversationEvent::Sender(e),
        ).link(),
{
    let event = ConversationEvent::Sender(e);
    let s = c.sender;
    let action = s.step(e).1;
    let d = c.after(event);
    let l = c.link();
    let events = c.link_events(event);
    lemma_other_packets(s);
    crate::send_session::law_session_stays_well_formed(s, e);
    assert(d.sender.offer() == s.offer());
    reveal_with_fuel(Link::after_all, 3);
    reveal_with_fuel(Link::allows_all, 3);
    match e {
        SendEvent::Chunk { data } => {
            crate::packet::law_data_round_trip(s.sender.next as u32, data@);
            assert(events[0] == LinkEvent::Read { chunk: data@ });
            if action is SendFin {
                assert(events.drop_last() =~= seq![LinkEvent::Read { chunk: data@ }]);
            }
        },
        SendEvent::Silent { now_nanos } => {
            crate::sender::law_numbers_keep_to_window(s.sender, Seq::empty(), 0, now_nanos as nat);
            let due = s.sender.due(now_nanos as nat);
            assert forall|p: Seq<u8>| #[trigger] due.to_set().contains(p) implies data_parts(
                p,
            ) is Some by {
                let i = choose|i: int| 0 <= i < due.len() && due[i] == p;
                assert(data_parts(due[i]) is Some);
            }
        },
        _ => {},
    }
    assert(l.after_all(events).data =~= d.link().data);
    assert(l.after_all(events).acks =~= d.link().acks);
    assert(l.after_all(events) =~= d.link());
}

/// Each step of the receiver is what it is to the transfer.
proof fn lemma_receiver_step(c: Conversation, e: ReceiveEvent)
    requires
        c.sound(),
        c.allows(ConversationEvent::Receiver(e)),
    ensures
        c.after(ConversationEvent::Receiver(e)).sound(),
        c.link().allows_all(c.link_events(ConversationEvent::Receiver(e))),
        c.link().after_all(c.link_events(ConversationEvent::Receiver(e))) == c.after(
            ConversationEvent::Receiver(e),
        ).link(),
{
    let event = ConversationEvent::Receiver(e);
    let d = c.after(event);
    let l = c.link();
    let events = c.link_events(event);
    lemma_other_packets(c.sender);
    reveal_with_fuel(Link::after_all, 2);
    reveal_with_fuel(Link::allows_all, 2);
    if let ReceiveEvent::Received { datagram } = e {
        if c.receiver.stage is Waiting && data_parts(datagram@) is Some {
            let parts = data_parts(datagram@)->0;
            crate::packet::law_ack_round_trip(
                c.receiver.receiver.after_data(parts.0, parts.1).ack_number(),
            );
        }
    }
    assert(l.after_all(events).data =~= d.link().data);
    assert(l.after_all(events).acks =~= d.link().acks);
    assert(l.after_all(events) =~= d.link());
}

/// Whatever happens to a session is an event of the transfer, is two such
/// events, or leaves both sides of the transfer alone.
pub proof fn law_step_is_transfer(c: Conversation, event: ConversationEvent)
    requires
        c.sound(),
        c.allows(event),
    ensures
        c.after(event).sound(),
        c.link_events(event).len() <= 2,
        c.link().allows_all(c.link_events(event)),
        c.link().after_all(c.link_events(event)) == c.after(event).link(),
{
    match event {
        ConversationEvent::Sender(e) => {
            lemma_sender_step(c, e);
        },
        ConversationEvent::Receiver(e) => {
            lemma_receiver_step(c, e);
        },
    }
}

/// A conversation of two sessions is a transfer.
pub proof fn law_conversation_is_transfer(
    name: Seq<char>,
    size: u64,
    windows: bool,
    events: Seq<ConversationEvent>,
)
    requires
        Conversation::possible(name, size, windows, events),
    ensures
        Conversation::run(name, size, windows, events).sound(),
        Link::possible(size, Conversation::all_link_events(name, size, windows, events)),
        Link::run(size, Conversation::all_link_events(name, size, windows, events))
            == Conversation::run(name, size, windows, events).link(),
    decreases events.len(),
{
    if events.len() == 0 {
        let c = Conversation::start(name, size, windows);
        lemma_other_packets(c.sender);
        assert(c.link().data =~= Set::<Seq<u8>>::empty());
        assert(c.link().acks =~= Set::<Seq<u8>>::empty());
        assert(c.link() =~= Link::start(size));
    } else {
        let rest = events.drop_last();
        law_conversation_is_transfer(name, size, windows, rest);
        let c = Conversation::run(name, size, windows, rest);
        law_step_is_transfer(c, events.last());
        crate::transfer::lemma_run_after_all(
            size,
            Conversation::all_link_events(name, size, windows, rest),
            c.link_events(events.last()),
        );
    }
}

/// What is received is what was sent. Once the receiving session is finished,
/// and also once the sending one is, whether its end was confirmed or not, the
/// file has been read to its end and written in full, each byte once and in
/// order, whatever the network did. Until then a beginning of it is written.
pub proof fn law_received_file_is_whole(
    name: Seq<char>,
    size: u64,
    windows: bool,
    events: Seq<ConversationEvent>,
)
    requires
        Conversation::possible(name, size, windows, events),
    ensures
        ({
            let c = Conversation::run(name, size, windows, events);
            &&& c.written.is_prefix_of(c.chunks.flatten())
            &&& c.receiver.receiver.received == c.written.len()
            &&& c.receiver.stage is Finished || c.sender.stage is Finished ==> {
                &&& c.sender.sender.file_done
                &&& c.written == c.chunks.flatten()
            }
        }),
{
    law_conversation_is_transfer(name, size, windows, events);
    let link_events = Conversation::all_link_events(name, size, windows, events);
    crate::transfer::law_transfer_is_faithful(size, link_events);
    crate::transfer::law_closed_file_is_whole(size, link_events);
}

} // verus!
