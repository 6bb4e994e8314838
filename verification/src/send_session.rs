//! Sending a file, from the offer to the announcement of its end.

use vstd::prelude::*;

use crate::packet::{
    begins_as, build_offer, number_at, parse_ack, DATA_PAYLOAD, PKT_ACCEPT, PKT_FIN, PKT_FIN_ACK,
};
use crate::sender::{
    fin_acknowledged, fin_packet, offer_accepted, sender_start, FileSender, SendStep, SenderState,
    RETRANSMIT_MS, WINDOW,
};

verus! {

/// How long the offer is repeated, from the beginning of the session, before it
/// expires.
pub const OFFER_TIMEOUT_MS: u64 = 60_000;

/// How long one offer waits for its reply.
pub const OFFER_WAIT_MS: u64 = 2_000;

/// How long a paused session naps.
pub const NAP_MS: u64 = 100;

/// How often the end of the file is announced at most.
pub const FIN_ATTEMPTS: u32 = 10;

/// How long one announcement of the end waits for its reply.
pub const FIN_WAIT_MS: u64 = 500;

/// What a sending session is waiting for.
#[derive(Clone, Copy, Debug, PartialEq, Eq, Structural)]
pub enum SendStage {
    /// The offer is out.
    Offering,
    /// The file is being opened.
    Opening,
    /// Whether to stop is being asked.
    AtTurn,
    /// Whether to pause is being asked.
    AtPause,
    /// A chunk is being read.
    Reading,
    /// A chunk is being sent.
    Sending,
    /// An acknowledgement is being waited for.
    Waiting,
    /// The end of the file has been announced `announced` times.
    Finishing { announced: u32 },
    /// The file was sent.
    Finished,
    /// The session has failed.
    Failed,
}

/// What happens during a sending session.
pub enum SendEvent {
    /// The offer could not be sent.
    OfferFailed,
    /// A datagram came in answer to the offer, or none did.
    OfferReply { reply: Option<Vec<u8>> },
    /// The offer has been out for too long.
    OfferExpired,
    /// The file was opened.
    Opened,
    /// The file could not be opened or read.
    FileFailed,
    /// Whether stopping is wished.
    Turn { cancelled: bool },
    /// Whether a pause is wished, and whether stopping is.
    Pause { paused: bool, cancelled: bool },
    /// A chunk was read; an empty one is the end of the file.
    Chunk { data: Vec<u8> },
    /// The chunk was sent.
    Sent { now_nanos: u128 },
    /// A datagram came.
    Received { datagram: Vec<u8> },
    /// None came in time.
    Silent { now_nanos: u128 },
    /// A datagram came in answer to the end of the file, or none did.
    FinReply { reply: Option<Vec<u8>> },
}

/// Why a sending session fails.
#[derive(Clone, Copy, Debug, PartialEq, Eq, Structural)]
pub enum SendError {
    Socket,
    AcceptTimeout,
    File,
    Cancelled,
    CancelledWhilePaused,
}

/// The text of a [`SendError`]; `None` where the failed call has its own.
pub open spec fn error_text(e: SendError) -> Option<Seq<char>> {
    match e {
        SendError::Socket => None,
        SendError::AcceptTimeout => Some("Accept timeout"@),
        SendError::File => None,
        SendError::Cancelled => Some("Send cancelled"@),
        SendError::CancelledWhilePaused => Some("Cancelled while paused"@),
    }
}

impl SendError {
    /// The error as a text; `None` where the failed call has its own.
    pub fn message(&self) -> (r: Option<&'static str>)
        ensures
            match error_text(*self) {
                Some(text) => r matches Some(s) && s@ == text,
                None => r is None,
            },
    {
        match self {
            SendError::Socket => None,
            SendError::AcceptTimeout => Some("Accept timeout"),
            SendError::File => None,
            SendError::Cancelled => Some("Send cancelled"),
            SendError::CancelledWhilePaused => Some("Cancelled while paused"),
        }
    }
}

/// What a sending session does.
pub enum SendAction {
    /// Send the offer and wait for a reply.
    SendOffer(Vec<u8>),
    /// Open the file.
    OpenFile,
    /// Ask whether to stop.
    CheckCancel,
    /// Report this many bytes as delivered, then ask whether to stop.
    Progress(u64),
    /// Send these packets again, then ask whether to stop.
    Resend(Vec<Vec<u8>>),
    /// Ask whether to pause.
    CheckPause,
    /// Sleep a little, then ask whether to pause.
    Nap,
    /// Read a chunk.
    ReadChunk,
    /// Send this packet.
    SendData(Vec<u8>),
    /// Wait for a datagram.
    AwaitAck,
    /// Announce the end of the file and wait for a reply.
    SendFin(Vec<u8>),
    /// Report all of the file, of this size, as delivered.
    Finish(u64),
    /// Give up.
    Fail(SendError),
}

/// A [`SendAction`] by the bytes of its packets.
#[verifier::ext_equal]
pub enum SendActionView {
    SendOffer(Seq<u8>),
    OpenFile,
    CheckCancel,
    Progress(u64),
    Resend(Seq<Seq<u8>>),
    CheckPause,
    Nap,
    ReadChunk,
    SendData(Seq<u8>),
    AwaitAck,
    SendFin(Seq<u8>),
    Finish(u64),
    Fail(SendError),
}

impl View for SendAction {
    type V = SendActionView;

    open spec fn view(&self) -> SendActionView {
        match *self {
            SendAction::SendOffer(p) => SendActionView::SendOffer(p@),
            SendAction::OpenFile => SendActionView::OpenFile,
            SendAction::CheckCancel => SendActionView::CheckCancel,
            SendAction::Progress(n) => SendActionView::Progress(n),
            SendAction::Resend(v) => SendActionView::Resend(crate::sender::packets_view(v@)),
            SendAction::CheckPause => SendActionView::CheckPause,
            SendAction::Nap => SendActionView::Nap,
            SendAction::ReadChunk => SendActionView::ReadChunk,
            SendAction::SendData(p) => SendActionView::SendData(p@),
            SendAction::AwaitAck => SendActionView::AwaitAck,
            SendAction::SendFin(p) => SendActionView::SendFin(p@),
            SendAction::Finish(n) => SendActionView::Finish(n),
            SendAction::Fail(e) => SendActionView::Fail(e),
        }
    }
}

impl SendActionView {
    /// How long the action waits for its event, in milliseconds, where it waits.
    pub open spec fn wait_ms(self) -> Option<u64> {
        match self {
            SendActionView::SendOffer(p) => Some(OFFER_WAIT_MS),
            SendActionView::Nap => Some(NAP_MS),
            SendActionView::AwaitAck => Some(RETRANSMIT_MS),
            SendActionView::SendFin(p) => Some(FIN_WAIT_MS),
            _ => None,
        }
    }

    /// When the action ends without its event, in milliseconds from the
    /// beginning of the session, where it does.
    pub open spec fn deadline_ms(self) -> Option<u64> {
        match self {
            SendActionView::SendOffer(p) => Some(OFFER_TIMEOUT_MS),
            _ => None,
        }
    }
}

impl SendAction {
    /// How long the action waits for its event, in milliseconds, where it waits:
    /// for a reply to the offer or to the end of the file, for an
    /// acknowledgement, or for a nap to be over.
    pub fn wait_ms(&self) -> (r: Option<u64>)
        ensures
            r == self@.wait_ms(),
    {
        match self {
            SendAction::SendOffer(_) => Some(OFFER_WAIT_MS),
            SendAction::Nap => Some(NAP_MS),
            SendAction::AwaitAck => Some(RETRANSMIT_MS),
            SendAction::SendFin(_) => Some(FIN_WAIT_MS),
            _ => None,
        }
    }

    /// When the action ends without its event, in milliseconds from the
    /// beginning of the session, where it does; [`SendEvent::OfferExpired`] is
    /// its event then.
    pub fn deadline_ms(&self) -> (r: Option<u64>)
        ensures
            r == self@.deadline_ms(),
    {
        match self {
            SendAction::SendOffer(_) => Some(OFFER_TIMEOUT_MS),
            _ => None,
        }
    }
}

/// What a sending session knows.
pub struct SendSessionState {
    pub sender: SenderState,
    /// The name that the file is offered under.
    pub name: Seq<char>,
    /// The chunk that was read last.
    pub chunk: Seq<u8>,
    pub stage: SendStage,
}

/// The announcement of the end of the file.
pub open spec fn fin() -> Seq<u8> {
    crate::packet::packet(PKT_FIN, Seq::empty())
}

impl SendSessionState {
    /// The session in `stage`.
    pub open spec fn at(self, stage: SendStage) -> SendSessionState {
        SendSessionState { stage, ..self }
    }

    /// The session with its sender in state `sender`, in `stage`.
    pub open spec fn moved(self, sender: SenderState, stage: SendStage) -> SendSessionState {
        SendSessionState { sender, stage, ..self }
    }

    /// The offer of the session's file.
    pub open spec fn offer(self) -> Seq<u8> {
        crate::packet::offer_packet(self.sender.size, self.name)
    }

    /// What follows when neither stopping nor a pause is wished: reading while
    /// there is room, then waiting, until everything is acknowledged.
    pub open spec fn proceed(self) -> (SendSessionState, SendActionView) {
        match self.sender.next_step() {
            SendStep::ReadChunk => (self.at(SendStage::Reading), SendActionView::ReadChunk),
            SendStep::AwaitAck => (self.at(SendStage::Waiting), SendActionView::AwaitAck),
            SendStep::Finish => (
                self.at(SendStage::Finishing { announced: 1 }),
                SendActionView::SendFin(fin()),
            ),
        }
    }

    /// What failing leads to.
    pub open spec fn fail(self, e: SendError) -> (SendSessionState, SendActionView) {
        (self.at(SendStage::Failed), SendActionView::Fail(e))
    }

    /// True when the numbers of the window stay within 32 bits.
    pub open spec fn numbers_left(self) -> bool {
        self.sender.file_done || self.sender.base + WINDOW <= u32::MAX
    }

    /// True when `event` is one that the session waits for, a chunk fits into its
    /// packet, and taking it keeps the numbers within 32 bits.
    pub open spec fn expects(self, event: SendEvent) -> bool {
        match event {
            SendEvent::OfferFailed => self.stage is Offering,
            SendEvent::OfferReply { reply } => self.stage is Offering,
            SendEvent::OfferExpired => self.stage is Offering,
            SendEvent::Opened => self.stage is Opening,
            SendEvent::FileFailed => self.stage is Opening || self.stage is Reading,
            SendEvent::Turn { cancelled } => self.stage is AtTurn,
            SendEvent::Pause { paused, cancelled } => self.stage is AtPause && (paused
                || self.numbers_left()),
            SendEvent::Chunk { data } => self.stage is Reading && data@.len() <= DATA_PAYLOAD,
            SendEvent::Sent { now_nanos } => self.stage is Sending,
            SendEvent::Received { datagram } => self.stage is Waiting && crate::packet::acked_seq(
                datagram@,
            ) != Some(u32::MAX),
            SendEvent::Silent { now_nanos } => self.stage is Waiting,
            SendEvent::FinReply { reply } => self.stage is Finishing,
        }
    }

    /// What `event` leads to.
    pub open spec fn step(self, event: SendEvent) -> (SendSessionState, SendActionView) {
        match event {
            SendEvent::OfferFailed => self.fail(SendError::Socket),
            SendEvent::OfferReply { reply } => if reply matches Some(d)
                && crate::packet::has_type(d@, PKT_ACCEPT) {
                (self.at(SendStage::Opening), SendActionView::OpenFile)
            } else {
                (self, SendActionView::SendOffer(self.offer()))
            },
            SendEvent::OfferExpired => self.fail(SendError::AcceptTimeout),
            SendEvent::Opened => (self.at(SendStage::AtTurn), SendActionView::CheckCancel),
            SendEvent::FileFailed => self.fail(SendError::File),
            SendEvent::Turn { cancelled } => if cancelled {
                self.fail(SendError::Cancelled)
            } else {
                (self.at(SendStage::AtPause), SendActionView::CheckPause)
            },
            SendEvent::Pause { paused, cancelled } => if !paused {
                self.proceed()
            } else if cancelled {
                self.fail(SendError::CancelledWhilePaused)
            } else {
                (self, SendActionView::Nap)
            },
            SendEvent::Chunk { data } => {
                let read = SendSessionState { chunk: data@, stage: SendStage::Sending, ..self };
                if data@.len() == 0 {
                    read.moved(self.sender.after_end(), SendStage::Sending).proceed()
                } else {
                    (
                        read,
                        SendActionView::SendData(
                            crate::packet::data_packet(self.sender.next as u32, data@),
                        ),
                    )
                }
            },
            SendEvent::Sent { now_nanos } => self.moved(
                self.sender.after_read(self.chunk, now_nanos as nat),
                SendStage::Sending,
            ).proceed(),
            SendEvent::Received { datagram } => match crate::packet::acked_seq(datagram@) {
                Some(ack) => {
                    let after = self.moved(self.sender.after_ack(ack), SendStage::AtTurn);
                    (after, SendActionView::Progress(after.sender.bytes_acked() as u64))
                },
                None => (self.at(SendStage::AtTurn), SendActionView::CheckCancel),
            },
            SendEvent::Silent { now_nanos } => (
                self.moved(self.sender.after_resend(now_nanos as nat), SendStage::AtTurn),
                SendActionView::Resend(self.sender.due(now_nanos as nat)),
            ),
            SendEvent::FinReply { reply } => {
                let announced = self.stage->announced;
                if (reply matches Some(d) && crate::packet::has_type(d@, PKT_FIN_ACK))
                    || announced >= FIN_ATTEMPTS {
                    (self.at(SendStage::Finished), SendActionView::Finish(self.sender.size))
                } else {
                    (
                        self.at(SendStage::Finishing { announced: (announced + 1) as u32 }),
                        SendActionView::SendFin(fin()),
                    )
                }
            },
        }
    }

    /// True when `chunks` are those that the session has read, the one being sent
    /// among them, and every waiting packet is the data packet of the chunk with
    /// its number.
    pub open spec fn carries(self, chunks: Seq<Seq<u8>>) -> bool {
        if self.stage is Sending {
            chunks.len() > 0 && chunks.last() == self.chunk && self.sender.carries(
                chunks.drop_last(),
            )
        } else {
            self.sender.carries(chunks)
        }
    }

    /// True of every session: packets keep their numbers and to the window, a
    /// chunk is read only where there is room for it and fits into its packet,
    /// and the end is announced only when every chunk has been acknowledged.
    pub open spec fn well_formed(self) -> bool {
        &&& self.sender.numbered()
        &&& self.sender.next <= u32::MAX
        &&& self.stage is Reading ==> self.sender.wants_chunk() && self.numbers_left()
        &&& self.stage is Sending ==> self.sender.wants_chunk() && self.numbers_left()
            && 0 < self.chunk.len() <= DATA_PAYLOAD
        &&& self.stage matches SendStage::Finishing { announced } ==> self.sender.complete() && 1
            <= announced <= FIN_ATTEMPTS
        &&& self.stage is Finished ==> self.sender.complete()
    }
}

/// A fresh session for a file of `size` bytes named `name`.
pub open spec fn send_start(name: Seq<char>, size: u64) -> SendSessionState {
    SendSessionState {
        sender: sender_start(size),
        name,
        chunk: Seq::empty(),
        stage: SendStage::Offering,
    }
}

/// Taking an expected event keeps a session well formed. So a session is
/// finished only once the file was read to its end and every chunk of it
/// acknowledged.
pub proof fn law_session_stays_well_formed(s: SendSessionState, event: SendEvent)
    requires
        s.well_formed(),
        s.expects(event),
    ensures
        s.step(event).0.well_formed(),
        s.step(event).1 matches SendActionView::Finish(n) ==> {
            &&& n == s.sender.size
            &&& s.sender.file_done
            &&& s.sender.complete()
        },
{
    match event {
        SendEvent::Sent { now_nanos } => {
            crate::sender::law_numbers_keep_to_window(s.sender, s.chunk, 0, now_nanos as nat);
        },
        SendEvent::Received { datagram } => {
            if let Some(ack) = crate::packet::acked_seq(datagram@) {
                crate::sender::law_numbers_keep_to_window(s.sender, Seq::empty(), ack, 0);
            }
        },
        SendEvent::Silent { now_nanos } => {
            crate::sender::law_numbers_keep_to_window(s.sender, Seq::empty(), 0, now_nanos as nat);
        },
        _ => {},
    }
}

/// The chunks that a session has read after `event`, which had read `chunks`.
pub open spec fn chunks_after(chunks: Seq<Seq<u8>>, event: SendEvent) -> Seq<Seq<u8>> {
    match event {
        SendEvent::Chunk { data } => if data@.len() > 0 {
            chunks.push(data@)
        } else {
            chunks
        },
        _ => chunks,
    }
}

/// True when `p` is the data packet of one of `chunks` under its number.
pub open spec fn is_chunk_packet(p: Seq<u8>, chunks: Seq<Seq<u8>>) -> bool {
    exists|k: u32|
        k < chunks.len() && p == #[trigger] crate::packet::data_packet(k, chunks[k as int])
}

/// A fresh session has read nothing.
pub proof fn law_start_carries_nothing(name: Seq<char>, size: u64)
    ensures
        send_start(name, size).carries(Seq::empty()),
{
}

/// Whatever its peer sends, every data packet of a session, sent for the first
/// time or again, is the packet of the chunk that was read under its number.
pub proof fn law_packets_carry_chunks(
    s: SendSessionState,
    event: SendEvent,
    chunks: Seq<Seq<u8>>,
)
    requires
        s.well_formed(),
        s.expects(event),
        s.carries(chunks),
    ensures
        s.step(event).0.carries(chunks_after(chunks, event)),
        match s.step(event).1 {
            SendActionView::SendData(p) => {
                let read = chunks_after(chunks, event);
                read.len() > 0 && p == crate::packet::data_packet(
                    (read.len() - 1) as u32,
                    read.last(),
                )
            },
            SendActionView::Resend(v) => forall|i: int|
                0 <= i < v.len() ==> is_chunk_packet(#[trigger] v[i], chunks),
            _ => true,
        },
{
    let t = s.step(event).0;
    let read = chunks_after(chunks, event);
    match event {
        SendEvent::Chunk { data } => {
            if data@.len() > 0 {
                assert(read.drop_last() =~= chunks);
            }
        },
        SendEvent::Sent { now_nanos } => {
            let new = s.sender.next as u32;
            assert forall|k: u32| #[trigger] t.sender.window.contains_key(k) implies {
                &&& k < chunks.len()
                &&& t.sender.window[k].packet == crate::packet::data_packet(k, chunks[k as int])
            } by {
                if k != new {
                    assert(s.sender.window.contains_key(k));
                    assert(chunks.drop_last()[k as int] == chunks[k as int]);
                }
            }
        },
        SendEvent::Received { datagram } => {
            assert forall|k: u32| #[trigger] t.sender.window.contains_key(k) implies {
                &&& k < chunks.len()
                &&& t.sender.window[k].packet == crate::packet::data_packet(k, chunks[k as int])
            } by {
                assert(s.sender.window.contains_key(k));
            }
        },
        SendEvent::Silent { now_nanos } => {
            let now = now_nanos as nat;
            let due = s.sender.due(now);
            crate::sender::law_resend_is_pending(s.sender, now, 0x1_0000_0000);
            assert forall|i: int| 0 <= i < due.len() implies is_chunk_packet(
                #[trigger] due[i],
                chunks,
            ) by {
                let packet = s.sender.due_below(now, 0x1_0000_0000)[i];
                let k = choose|k: u32| #[trigger]
                    s.sender.window.contains_key(k) && s.sender.window[k].packet == packet;
                assert(due[i] == crate::packet::data_packet(k, chunks[k as int]));
            }
            assert forall|k: u32| #[trigger] t.sender.window.contains_key(k) implies {
                &&& k < chunks.len()
                &&& t.sender.window[k].packet == crate::packet::data_packet(k, chunks[k as int])
            } by {
                assert(s.sender.window.contains_key(k));
            }
        },
        _ => {},
    }
}

/// Whatever its peer acknowledges, a session sends no data packet, for the first
/// time or again, whose number is a window or more ahead of what was
/// acknowledged.
pub proof fn law_session_keeps_to_window(s: SendSessionState, event: SendEvent)
    requires
        s.well_formed(),
        s.expects(event),
    ensures
        match s.step(event).1 {
            SendActionView::SendData(p) => crate::packet::data_parts(p) matches Some(parts)
                && parts.0 < s.step(event).0.sender.base + WINDOW,
            SendActionView::Resend(v) => forall|i: int|
                0 <= i < v.len() ==> (crate::packet::data_parts(#[trigger] v[i]) matches Some(parts)
                    && parts.0 < s.step(event).0.sender.base + WINDOW),
            _ => true,
        },
{
    match event {
        SendEvent::Chunk { data } => {
            crate::packet::law_data_round_trip(s.sender.next as u32, data@);
        },
        SendEvent::Silent { now_nanos } => {
            crate::sender::law_numbers_keep_to_window(s.sender, Seq::empty(), 0, now_nanos as nat);
        },
        _ => {},
    }
}

/// A sending session.
pub struct SendSession {
    sender: FileSender,
    file_name: String,
    chunk: Vec<u8>,
    stage: SendStage,
}

impl View for SendSession {
    type V = SendSessionState;

    closed spec fn view(&self) -> SendSessionState {
        SendSessionState {
            sender: self.sender@,
            name: self.file_name@,
            chunk: self.chunk@,
            stage: self.stage,
        }
    }
}

impl SendSession {
    /// A session for a file of `file_size` bytes, and the offer to begin with.
    pub fn new(file_name: &str, file_size: u64) -> (r: (SendSession, SendAction))
        ensures
            r.0@ == send_start(file_name@, file_size),
            r.0@.well_formed(),
            r.1@ == SendActionView::SendOffer(r.0@.offer()),
    {
        let session = SendSession {
            sender: FileSender::new(file_size),
            file_name: file_name.to_owned(),
            chunk: Vec::new(),
            stage: SendStage::Offering,
        };
        (session, SendAction::SendOffer(build_offer(file_size, file_name)))
    }

    /// True when `event` can be taken.
    pub fn expects(&self, event: &SendEvent) -> (r: bool)
        ensures
            r == self@.expects(*event),
    {
        match event {
            SendEvent::OfferFailed => self.stage == SendStage::Offering,
            SendEvent::OfferReply { .. } => self.stage == SendStage::Offering,
            SendEvent::OfferExpired => self.stage == SendStage::Offering,
            SendEvent::Opened => self.stage == SendStage::Opening,
            SendEvent::FileFailed => self.stage == SendStage::Opening || self.stage
                == SendStage::Reading,
            SendEvent::Turn { .. } => self.stage == SendStage::AtTurn,
            SendEvent::Pause { paused, .. } => self.stage == SendStage::AtPause && (*paused
                || self.sender.numbers_left()),
            SendEvent::Chunk { data } => self.stage == SendStage::Reading && data.len()
                <= DATA_PAYLOAD,
            SendEvent::Sent { .. } => self.stage == SendStage::Sending,
            SendEvent::Received { datagram } => {
                let ack: Option<u32> = parse_ack(datagram.as_slice());
                let fits: bool = match ack {
                    Some(n) => n != u32::MAX,
                    None => true,
                };
                self.stage == SendStage::Waiting && fits
            },
            SendEvent::Silent { .. } => self.stage == SendStage::Waiting,
            SendEvent::FinReply { .. } => match self.stage {
                SendStage::Finishing { .. } => true,
                _ => false,
            },
        }
    }

    fn proceed(&mut self) -> (r: SendAction)
        requires
            old(self)@.numbers_left(),
        ensures
            final(self)@ == old(self)@.proceed().0,
            r@ == old(self)@.proceed().1,
    {
        match self.sender.next_step() {
            SendStep::ReadChunk => {
                self.stage = SendStage::Reading;
                SendAction::ReadChunk
            },
            SendStep::AwaitAck => {
                self.stage = SendStage::Waiting;
                SendAction::AwaitAck
            },
            SendStep::Finish => {
                self.stage = SendStage::Finishing { announced: 1 };
                SendAction::SendFin(fin_packet())
            },
        }
    }

    fn fail(&mut self, e: SendError) -> (r: SendAction)
        ensures
            final(self)@ == old(self)@.fail(e).0,
            r@ == old(self)@.fail(e).1,
    {
        self.stage = SendStage::Failed;
        SendAction::Fail(e)
    }
}

/// Takes an event of a sending session and gives what is to be done.
pub fn send_file_udp(session: &mut SendSession, event: &SendEvent) -> (r: SendAction)
    requires
        old(session)@.well_formed(),
        old(session)@.expects(*event),
    ensures
        final(session)@.well_formed(),
        final(session)@ == old(session)@.step(*event).0,
        r@ == old(session)@.step(*event).1,
{
    proof {
        law_session_stays_well_formed(session@, *event);
    }
    match event {
        SendEvent::OfferFailed => session.fail(SendError::Socket),
        SendEvent::OfferReply { reply } => {
            let accepted: bool = match reply {
                Some(d) => offer_accepted(d.as_slice()),
                None => false,
            };
            if accepted {
                session.stage = SendStage::Opening;
                SendAction::OpenFile
            } else {
                SendAction::SendOffer(build_offer(session.sender.file_size(), session.file_name.as_str()))
            }
        },
        SendEvent::OfferExpired => session.fail(SendError::AcceptTimeout),
        SendEvent::Opened => {
            session.stage = SendStage::AtTurn;
            SendAction::CheckCancel
        },
        SendEvent::FileFailed => session.fail(SendError::File),
        SendEvent::Turn { cancelled } => if *cancelled {
            session.fail(SendError::Cancelled)
        } else {
            session.stage = SendStage::AtPause;
            SendAction::CheckPause
        },
        SendEvent::Pause { paused, cancelled } => if !*paused {
            session.proceed()
        } else if *cancelled {
            session.fail(SendError::CancelledWhilePaused)
        } else {
            SendAction::Nap
        },
        SendEvent::Chunk { data } => {
            session.stage = SendStage::Sending;
            session.chunk = vstd::slice::slice_to_vec(data.as_slice());
            if data.len() == 0 {
                session.sender.on_end();
                session.proceed()
            } else {
                SendAction::SendData(session.sender.packet_for(data.as_slice()))
            }
        },
        SendEvent::Sent { now_nanos } => {
            session.sender.on_chunk(session.chunk.as_slice(), *now_nanos);
            session.proceed()
        },
        SendEvent::Received { datagram } => {
            session.stage = SendStage::AtTurn;
            match session.sender.on_datagram(datagram.as_slice()) {
                Some(bytes) => SendAction::Progress(bytes),
                None => SendAction::CheckCancel,
            }
        },
        SendEvent::Silent { now_nanos } => {
            session.stage = SendStage::AtTurn;
            SendAction::Resend(session.sender.on_timeout(*now_nanos))
        },
        SendEvent::FinReply { reply } => {
            let confirmed: bool = match reply {
                Some(d) => fin_acknowledged(d.as_slice()),
                None => false,
            };
            let announced: u32 = match session.stage {
                SendStage::Finishing { announced } => announced,
                _ => 0,
            };
            if confirmed || announced >= FIN_ATTEMPTS {
                session.stage = SendStage::Finished;
                SendAction::Finish(session.sender.file_size())
            } else {
                session.stage = SendStage::Finishing { announced: announced + 1 };
                SendAction::SendFin(fin_packet())
            }
        },
    }
}

/// The offer of the file, under its name and with its size, is repeated until a
/// packet of type 0x21 comes; then, and only then, the file is opened.
pub proof fn law_offer_until_accepted(s: SendSessionState, event: SendEvent)
    requires
        event is OfferReply,
    ensures
        ({
            let accepted = event->OfferReply_reply matches Some(d) && begins_as(d@, 0x21, 0);
            let (t, action) = s.step(event);
            &&& t.sender == s.sender && t.name == s.name && t.chunk == s.chunk
            &&& accepted ==> action is OpenFile && t.stage is Opening
            &&& !accepted ==> t.stage == s.stage && (action matches SendActionView::SendOffer(p) && {
                &&& begins_as(p, 0x20, 8)
                &&& number_at(p, 5) * 0x1_0000_0000 + number_at(p, 9) == s.sender.size
                &&& p.skip(13) == vstd::utf8::encode_utf8(s.name)
            })
        }),
{
    if let SendEvent::OfferReply { reply } = event {
        if let Some(d) = reply {
            crate::packet::law_packet_parts(d@, PKT_ACCEPT);
        }
        crate::packet::law_offer_layout(s.sender.size, s.name);
    }
}

/// A failure ends the session, and says which it was.
pub proof fn law_send_failures(s: SendSessionState)
    ensures
        s.step(SendEvent::OfferFailed).1 == SendActionView::Fail(SendError::Socket),
        s.step(SendEvent::OfferExpired).1 == SendActionView::Fail(SendError::AcceptTimeout),
        s.step(SendEvent::FileFailed).1 == SendActionView::Fail(SendError::File),
        s.step(SendEvent::OfferFailed).0.stage is Failed,
        s.step(SendEvent::OfferExpired).0.stage is Failed,
        s.step(SendEvent::FileFailed).0.stage is Failed,
{
}

/// A wish to stop is heeded at every turn and during every pause, and only then;
/// a pause lasts as long as it is wished. Nothing of the file is touched by it.
pub proof fn law_stops_and_pauses(s: SendSessionState, cancelled: bool)
    ensures
        ({
            let (turned, at_turn) = s.step(SendEvent::Turn { cancelled });
            let (paused, at_pause) = s.step(SendEvent::Pause { paused: true, cancelled });
            let opened = s.step(SendEvent::Opened);
            &&& turned.sender == s.sender && paused.sender == s.sender
            &&& cancelled ==> at_turn == SendActionView::Fail(SendError::Cancelled)
                && turned.stage is Failed
            &&& !cancelled ==> at_turn is CheckPause && turned.stage is AtPause
            &&& cancelled ==> at_pause == SendActionView::Fail(SendError::CancelledWhilePaused)
                && paused.stage is Failed
            &&& !cancelled ==> at_pause is Nap && paused == s
            &&& opened.1 is CheckCancel && opened.0.stage is AtTurn && opened.0.sender == s.sender
        }),
{
}

/// Unless a pause is wished, a session reads while there may be more and fewer
/// than 256 numbers are open, announces the end once there is no more and nothing
/// waits, and waits for an acknowledgement otherwise.
pub proof fn law_what_a_session_does(s: SendSessionState, cancelled: bool)
    ensures
        ({
            let (t, action) = s.step(SendEvent::Pause { paused: false, cancelled });
            let reads = !s.sender.file_done && s.sender.next - s.sender.base < 256;
            let done = s.sender.file_done && forall|k: u32| !s.sender.window.contains_key(k);
            &&& t.sender == s.sender && t.name == s.name
            &&& reads ==> action is ReadChunk && t.stage is Reading
            &&& done ==> (action matches SendActionView::SendFin(p) && p.len() == 5 && begins_as(
                p,
                0x40,
                0,
            )) && t.stage == (SendStage::Finishing { announced: 1 })
            &&& !reads && !done ==> action is AwaitAck && t.stage is Waiting
        }),
{
    crate::sender::law_what_a_sender_does(s.sender);
    crate::packet::law_packet_layout(PKT_FIN, Seq::empty());
}

/// A chunk that was read goes out at once, in full, under the next number; the
/// end of the file is taken note of instead.
pub proof fn law_read_chunk_goes_out(s: SendSessionState, event: SendEvent)
    requires
        event is Chunk,
        s.sender.next <= u32::MAX,
    ensures
        ({
            let data = event->data@;
            let (t, action) = s.step(event);
            &&& t.name == s.name
            &&& data.len() > 0 ==> {
                &&& action matches SendActionView::SendData(p) && begins_as(p, 0x30, 4)
                    && number_at(p, 5) == s.sender.next && p.skip(9) == data
                &&& t.sender == s.sender && t.chunk == data && t.stage is Sending
            }
            &&& data.len() == 0 ==> {
                &&& t.sender.file_done
                &&& t.sender.window == s.sender.window && t.sender.next == s.sender.next
                    && t.sender.base == s.sender.base && t.sender.size == s.sender.size
                &&& action is SendFin || action is AwaitAck
                &&& action is SendFin <==> forall|k: u32| !s.sender.window.contains_key(k)
            }
        }),
{
    let data = event->data@;
    crate::packet::law_data_layout(s.sender.next as u32, data);
    crate::sender::law_what_a_sender_does(s.sender.after_end());
}

/// The chunk that went out waits from the moment that it was sent.
pub proof fn law_sent_chunk_is_noted(s: SendSessionState, event: SendEvent)
    requires
        event is Sent,
        s.sender.next <= u32::MAX,
        s.chunk.len() > 0,
    ensures
        ({
            let t = s.step(event).0.sender;
            let new = s.sender.next as u32;
            &&& t.next == s.sender.next + 1 && t.base == s.sender.base
            &&& t.window.contains_key(new) && t.window[new].sent_at == event->Sent_now_nanos
            &&& crate::packet::data_parts(t.window[new].packet) == Some((new, s.chunk))
        }),
{
    if let SendEvent::Sent { now_nanos } = event {
        crate::sender::law_sent_chunk_waits(s.sender, s.chunk, now_nanos as nat, 0);
    }
}

/// Every packet of type 0x31 with a number acknowledges up to that number, and
/// what is reported is 1400 bytes for each acknowledged chunk, but no more than
/// the file has; any other datagram changes nothing.
pub proof fn law_acks_are_heeded(s: SendSessionState, event: SendEvent, k: u32)
    requires
        event is Received,
    ensures
        ({
            let d = event->datagram@;
            let (t, action) = s.step(event);
            let n = number_at(d, 5);
            &&& t.stage is AtTurn
            &&& !begins_as(d, 0x31, 4) ==> action is CheckCancel && t.sender == s.sender
            &&& begins_as(d, 0x31, 4) ==> {
                &&& t.sender.base > n && t.sender.base >= s.sender.base
                &&& t.sender.base == s.sender.base || t.sender.base == n + 1
                &&& t.sender.next == s.sender.next && t.sender.file_done == s.sender.file_done
                &&& t.sender.window.contains_key(k) <==> s.sender.window.contains_key(k) && (k
                    < s.sender.base || k > n)
                &&& action matches SendActionView::Progress(bytes) && bytes <= s.sender.size
                    && bytes <= t.sender.base * 1400 && (bytes == s.sender.size || bytes
                    == t.sender.base * 1400)
            }
        }),
{
    let d = event->datagram@;
    crate::packet::law_acked_seq(d);
    if let Some(n) = crate::packet::acked_seq(d) {
        crate::sender::law_ack_removes_prefix(s.sender, n, k);
        crate::sender::law_bytes_acked(s.sender.after_ack(n));
    }
}

/// When no datagram comes, what is due is sent again and counts as sent then.
pub proof fn law_silence_sends_again(s: SendSessionState, event: SendEvent, k: u32) -> (numbers:
    Seq<u32>)
    requires
        event is Silent,
    ensures
        ({
            let now = event->Silent_now_nanos;
            let (t, action) = s.step(event);
            &&& t.stage is AtTurn
            &&& action matches SendActionView::Resend(v) && v.len() == numbers.len() && forall|i: int|
                0 <= i < v.len() ==> s.sender.window.contains_key(numbers[i]) && #[trigger] v[i]
                    == s.sender.window[numbers[i]].packet
            &&& forall|i: int, j: int| 0 <= i < j < numbers.len() ==> numbers[i] < numbers[j]
            &&& numbers.contains(k) <==> s.sender.window.contains_key(k) && now
                - s.sender.window[k].sent_at >= 300_000_000
            &&& numbers.contains(k) ==> t.sender.window.contains_key(k)
                && t.sender.window[k].sent_at == now
        }),
{
    let now = event->Silent_now_nanos as nat;
    crate::sender::law_resend_sets_times(s.sender, now, k);
    crate::sender::law_due_after_waiting(s.sender, now)
}

/// The end of the file is announced until a packet of type 0x41 comes, ten times
/// at most; then the session is finished, with all of the file reported.
pub proof fn law_end_is_announced(s: SendSessionState, event: SendEvent)
    requires
        event is FinReply,
        s.stage is Finishing,
        1 <= s.stage->announced <= 10,
    ensures
        ({
            let confirmed = event->FinReply_reply matches Some(d) && begins_as(d@, 0x41, 0);
            let (t, action) = s.step(event);
            &&& t.sender == s.sender
            &&& confirmed || s.stage->announced == 10 ==> action == SendActionView::Finish(
                s.sender.size,
            ) && t.stage is Finished
            &&& !confirmed && s.stage->announced < 10 ==> {
                &&& action matches SendActionView::SendFin(p) && p.len() == 5 && begins_as(
                    p,
                    0x40,
                    0,
                )
                &&& t.stage == (SendStage::Finishing {
                    announced: (s.stage->announced + 1) as u32,
                })
            }
        }),
{
    if let SendEvent::FinReply { reply } = event {
        if let Some(d) = reply {
            crate::packet::law_packet_parts(d@, PKT_FIN_ACK);
        }
    }
    crate::packet::law_packet_layout(PKT_FIN, Seq::empty());
}

/// Whatever may come at a stage can be taken, but for numbers beyond 32 bits and
/// chunks of more than 1400 bytes.
pub proof fn law_what_a_session_takes(s: SendSessionState, event: SendEvent)
    ensures
        s.stage is Offering && (event is OfferFailed || event is OfferReply || event is OfferExpired)
            ==> s.expects(event),
        s.stage is Opening && (event is Opened || event is FileFailed) ==> s.expects(event),
        s.stage is AtTurn && event is Turn ==> s.expects(event),
        s.stage is AtPause && event is Pause && s.sender.base <= 0xffff_feff ==> s.expects(event),
        s.stage is Reading && event is FileFailed ==> s.expects(event),
        s.stage is Reading && event is Chunk && event->data@.len() <= 1400 ==> s.expects(event),
        s.stage is Sending && event is Sent ==> s.expects(event),
        s.stage is Waiting && event is Silent ==> s.expects(event),
        s.stage is Waiting && event is Received && !(begins_as(event->datagram@, 0x31, 4)
            && number_at(event->datagram@, 5) == 0xffff_ffff) ==> s.expects(event),
        s.stage is Finishing && event is FinReply ==> s.expects(event),
{
    if let SendEvent::Received { datagram } = event {
        crate::packet::law_acked_seq(datagram@);
    }
}

/// How long each action waits, whatever it carries.
pub proof fn law_send_waits(action: SendActionView)
    ensures
        action is SendOffer ==> action.wait_ms() == Some(2000u64) && action.deadline_ms() == Some(
            60_000u64,
        ),
        action is Nap ==> action.wait_ms() == Some(100u64),
        action is AwaitAck ==> action.wait_ms() == Some(300u64),
        action is SendFin ==> action.wait_ms() == Some(500u64),
        !(action is SendOffer) ==> action.deadline_ms() is None,
        !(action is SendOffer || action is Nap || action is AwaitAck || action is SendFin)
            ==> action.wait_ms() is None,
{
}

/// A fresh session offers its file and has done nothing else.
pub proof fn law_send_start(name: Seq<char>, size: u64)
    ensures
        ({
            let s = send_start(name, size);
            &&& s.stage is Offering && s.name == name
            &&& s.sender.size == size && s.sender.next == 0 && s.sender.base == 0
            &&& !s.sender.file_done
            &&& forall|k: u32| !s.sender.window.contains_key(k)
        }),
{
}

/// An action is seen with all that it carries.
pub proof fn law_send_action_view(a: SendAction)
    ensures
        match a {
            SendAction::SendOffer(p) => a@ == SendActionView::SendOffer(p@),
            SendAction::SendData(p) => a@ == SendActionView::SendData(p@),
            SendAction::SendFin(p) => a@ == SendActionView::SendFin(p@),
            SendAction::Progress(n) => a@ == SendActionView::Progress(n),
            SendAction::Finish(n) => a@ == SendActionView::Finish(n),
            SendAction::Fail(e) => a@ == SendActionView::Fail(e),
            SendAction::Resend(v) => a@ matches SendActionView::Resend(w) && w.len() == v@.len()
                && forall|i: int| 0 <= i < w.len() ==> #[trigger] w[i] == v@[i]@,
            SendAction::OpenFile => a@ is OpenFile,
            SendAction::CheckCancel => a@ is CheckCancel,
            SendAction::CheckPause => a@ is CheckPause,
            SendAction::Nap => a@ is Nap,
            SendAction::ReadChunk => a@ is ReadChunk,
            SendAction::AwaitAck => a@ is AwaitAck,
        },
{
}

} // verus!
