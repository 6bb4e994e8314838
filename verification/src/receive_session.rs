//! Receiving a file, from its offer to its end.

use vstd::prelude::*;

use crate::files::{safe_file_name, NameSearch, NameSearchState, Platform};
use crate::packet::{
    begins_as, number_at, parse_offer, PKT_ACCEPT, PKT_FIN, PKT_FIN_ACK, PKT_OFFER,
};
use crate::receiver::{
    empty_packet, receiver_start, FileReceiver, ReceiveStep, ReceiverState, REPLY_COPIES,
};
use crate::send_session::{fin, SendActionView, SendEvent, SendSessionState};

verus! {

/// How long an offer is waited for, from the beginning of the session.
pub const OFFER_TIMEOUT_MS: u64 = 30_000;

/// How long a datagram of the file is waited for.
pub const DATA_TIMEOUT_MS: u64 = 30_000;

/// What a receiving session is waiting for.
#[derive(Clone, Copy, Debug, PartialEq, Eq, Structural)]
pub enum ReceiveStage {
    /// An offer.
    AwaitingOffer,
    /// Whether the name of the file is taken.
    Naming,
    /// Whether a variation of it is taken.
    Searching,
    /// Whether to stop is being asked.
    AtTurn,
    /// A datagram.
    Waiting,
    /// The file was received.
    Finished,
    /// The session has failed.
    Failed,
}

/// What happens during a receiving session.
pub enum ReceiveEvent {
    /// A datagram came.
    Received { datagram: Vec<u8> },
    /// The socket failed.
    SocketFailed,
    /// No offer came in time.
    OfferExpired,
    /// Nothing lies under the name.
    NameFree,
    /// Something lies under the name; its path ends in `end`.
    NameTaken { end: Option<String> },
    /// Whether stopping is wished.
    Turn { cancelled: bool },
    /// No datagram came in time.
    Silent,
}

/// Why a receiving session fails.
#[derive(Clone, Copy, Debug, PartialEq, Eq, Structural)]
pub enum ReceiveError {
    Socket,
    OfferTimeout,
    Cancelled,
    TimedOut,
}

/// The text of a [`ReceiveError`]; `None` where the failed call has its own.
pub open spec fn error_text(e: ReceiveError) -> Option<Seq<char>> {
    match e {
        ReceiveError::Socket => None,
        ReceiveError::OfferTimeout => Some("Offer timeout"@),
        ReceiveError::Cancelled => Some("Transfer cancelled"@),
        ReceiveError::TimedOut => Some("Transfer timed out (no data for 30s)"@),
    }
}

impl ReceiveError {
    /// The error as a text; `None` where the failed call has its own.
    pub fn message(&self) -> (r: Option<&'static str>)
        ensures
            match error_text(*self) {
                Some(text) => r matches Some(s) && s@ == text,
                None => r is None,
            },
    {
        match self {
            ReceiveError::Socket => None,
            ReceiveError::OfferTimeout => Some("Offer timeout"),
            ReceiveError::Cancelled => Some("Transfer cancelled"),
            ReceiveError::TimedOut => Some("Transfer timed out (no data for 30s)"),
        }
    }

    /// True when the file that was begun is removed: after a wish to stop, and
    /// only then.
    pub fn discards_file(&self) -> (r: bool)
        ensures
            r == (*self is Cancelled),
    {
        *self == ReceiveError::Cancelled
    }
}

/// What a receiving session does.
pub enum ReceiveAction {
    /// Wait for an offer.
    AwaitOffer,
    /// Send copies of the reply, and see whether the name is taken.
    Accept { reply: Vec<u8>, file_name: String },
    /// See whether this name is taken.
    TryName(String),
    /// Create the file under the name that was found free, then ask whether to
    /// stop.
    CreateFile,
    /// Wait for a datagram.
    AwaitData,
    /// Write the chunks in order, send the acknowledgement, report this many
    /// bytes as received, then ask whether to stop.
    Write { chunks: Vec<Vec<u8>>, ack: Vec<u8>, received: u64 },
    /// Send copies of the reply, then ask whether to stop.
    AcceptAgain { reply: Vec<u8> },
    /// Ask whether to stop.
    CheckCancel,
    /// Send copies of the reply, and close the file, of this many bytes.
    Finish { reply: Vec<u8>, received: u64 },
    /// Give up.
    Fail(ReceiveError),
}

/// A [`ReceiveAction`] by its bytes and characters.
#[verifier::ext_equal]
pub enum ReceiveActionView {
    AwaitOffer,
    Accept { reply: Seq<u8>, file_name: Seq<char> },
    TryName(Seq<char>),
    CreateFile,
    AwaitData,
    Write { chunks: Seq<Seq<u8>>, ack: Seq<u8>, received: nat },
    AcceptAgain { reply: Seq<u8> },
    CheckCancel,
    Finish { reply: Seq<u8>, received: nat },
    Fail(ReceiveError),
}

impl View for ReceiveAction {
    type V = ReceiveActionView;

    open spec fn view(&self) -> ReceiveActionView {
        match *self {
            ReceiveAction::AwaitOffer => ReceiveActionView::AwaitOffer,
            ReceiveAction::Accept { reply, file_name } => ReceiveActionView::Accept {
                reply: reply@,
                file_name: file_name@,
            },
            ReceiveAction::TryName(name) => ReceiveActionView::TryName(name@),
            ReceiveAction::CreateFile => ReceiveActionView::CreateFile,
            ReceiveAction::AwaitData => ReceiveActionView::AwaitData,
            ReceiveAction::Write { chunks, ack, received } => ReceiveActionView::Write {
                chunks: crate::sender::packets_view(chunks@),
                ack: ack@,
                received: received as nat,
            },
            ReceiveAction::AcceptAgain { reply } => ReceiveActionView::AcceptAgain {
                reply: reply@,
            },
            ReceiveAction::CheckCancel => ReceiveActionView::CheckCancel,
            ReceiveAction::Finish { reply, received } => ReceiveActionView::Finish {
                reply: reply@,
                received: received as nat,
            },
            ReceiveAction::Fail(e) => ReceiveActionView::Fail(e),
        }
    }
}

impl ReceiveActionView {
    /// How many copies of its datagram the action sends. Replies that are not
    /// themselves acknowledged are sent more than once.
    pub open spec fn copies(self) -> u32 {
        match self {
            ReceiveActionView::Accept { reply, file_name } => REPLY_COPIES,
            ReceiveActionView::AcceptAgain { reply } => REPLY_COPIES,
            ReceiveActionView::Finish { reply, received } => REPLY_COPIES,
            ReceiveActionView::Write { chunks, ack, received } => 1,
            _ => 0,
        }
    }

    /// How long the action waits for its event, in milliseconds, where it waits.
    pub open spec fn wait_ms(self) -> Option<u64> {
        match self {
            ReceiveActionView::AwaitData => Some(DATA_TIMEOUT_MS),
            _ => None,
        }
    }

    /// When the action ends without its event, in milliseconds from the
    /// beginning of the session, where it does.
    pub open spec fn deadline_ms(self) -> Option<u64> {
        match self {
            ReceiveActionView::AwaitOffer => Some(OFFER_TIMEOUT_MS),
            _ => None,
        }
    }
}

impl ReceiveAction {
    /// How many copies of its datagram the action sends.
    pub fn copies(&self) -> (r: u32)
        ensures
            r == self@.copies(),
    {
        match self {
            ReceiveAction::Accept { .. } => REPLY_COPIES,
            ReceiveAction::AcceptAgain { .. } => REPLY_COPIES,
            ReceiveAction::Finish { .. } => REPLY_COPIES,
            ReceiveAction::Write { .. } => 1,
            _ => 0,
        }
    }

    /// How long the action waits for its event, in milliseconds, where it waits;
    /// after that [`ReceiveEvent::Silent`] is its event.
    pub fn wait_ms(&self) -> (r: Option<u64>)
        ensures
            r == self@.wait_ms(),
    {
        match self {
            ReceiveAction::AwaitData => Some(DATA_TIMEOUT_MS),
            _ => None,
        }
    }

    /// When the action ends without its event, in milliseconds from the
    /// beginning of the session, where it does; [`ReceiveEvent::OfferExpired`]
    /// is its event then.
    pub fn deadline_ms(&self) -> (r: Option<u64>)
        ensures
            r == self@.deadline_ms(),
    {
        match self {
            ReceiveAction::AwaitOffer => Some(OFFER_TIMEOUT_MS),
            _ => None,
        }
    }
}

/// The acceptance of an offer.
pub open spec fn acceptance() -> Seq<u8> {
    crate::packet::packet(PKT_ACCEPT, Seq::empty())
}

/// The confirmation of the end of a file.
pub open spec fn confirmation() -> Seq<u8> {
    crate::packet::packet(PKT_FIN_ACK, Seq::empty())
}

/// What a receiving session knows.
#[verifier::ext_equal]
pub struct ReceiveSessionState {
    pub receiver: ReceiverState,
    pub search: NameSearchState,
    /// The size that the file was offered with; zero before the offer.
    pub size: u64,
    pub windows: bool,
    pub stage: ReceiveStage,
}

/// The search that starts at the first variation of the name `end`.
pub open spec fn search_for(end: Option<Seq<char>>) -> NameSearchState {
    NameSearchState {
        stem: match end {
            Some(name) => crate::files::file_stem(name),
            None => Seq::empty(),
        },
        extension: match end {
            Some(name) => crate::files::file_extension(name),
            None => Seq::empty(),
        },
        number: 1,
    }
}

impl ReceiveSessionState {
    /// The session in `stage`.
    pub open spec fn at(self, stage: ReceiveStage) -> ReceiveSessionState {
        ReceiveSessionState { stage, ..self }
    }

    /// What failing leads to.
    pub open spec fn fail(self, e: ReceiveError) -> (ReceiveSessionState, ReceiveActionView) {
        (self.at(ReceiveStage::Failed), ReceiveActionView::Fail(e))
    }

    /// What trying the search's variation leads to.
    pub open spec fn try_name(self, search: NameSearchState) -> (
        ReceiveSessionState,
        ReceiveActionView,
    ) {
        (
            ReceiveSessionState { search, stage: ReceiveStage::Searching, ..self },
            ReceiveActionView::TryName(
                crate::files::numbered_name(search.stem, search.number, search.extension),
            ),
        )
    }

    /// True when `event` is one that the session waits for, and taking it keeps
    /// the numbers within 32 bits.
    pub open spec fn expects(self, event: ReceiveEvent) -> bool {
        match event {
            ReceiveEvent::Received { datagram } => self.stage is AwaitingOffer || (
            self.stage is Waiting && self.receiver.takes(datagram@)),
            ReceiveEvent::SocketFailed => self.stage is AwaitingOffer || self.stage is Waiting,
            ReceiveEvent::OfferExpired => self.stage is AwaitingOffer,
            ReceiveEvent::NameFree => self.stage is Naming || self.stage is Searching,
            ReceiveEvent::NameTaken { end } => self.stage is Naming || (self.stage is Searching
                && self.search.number < u32::MAX),
            ReceiveEvent::Turn { cancelled } => self.stage is AtTurn,
            ReceiveEvent::Silent => self.stage is Waiting,
        }
    }

    /// What a datagram leads to while the file is coming in.
    pub open spec fn take(self, datagram: Seq<u8>) -> (ReceiveSessionState, ReceiveActionView) {
        let turn = self.at(ReceiveStage::AtTurn);
        match crate::packet::data_parts(datagram) {
            Some((seq, data)) => {
                let after = self.receiver.after_data(seq, data);
                (
                    ReceiveSessionState { receiver: after, ..turn },
                    ReceiveActionView::Write {
                        chunks: self.receiver.delivered(seq, data),
                        ack: crate::packet::ack_packet(after.ack_number()),
                        received: after.received,
                    },
                )
            },
            None => if crate::packet::has_type(datagram, PKT_FIN) {
                (
                    self.at(ReceiveStage::Finished),
                    ReceiveActionView::Finish {
                        reply: confirmation(),
                        received: self.receiver.received,
                    },
                )
            } else if crate::packet::has_type(datagram, PKT_OFFER) {
                (turn, ReceiveActionView::AcceptAgain { reply: acceptance() })
            } else {
                (turn, ReceiveActionView::CheckCancel)
            },
        }
    }

    /// What `event` leads to.
    pub open spec fn step(self, event: ReceiveEvent) -> (ReceiveSessionState, ReceiveActionView) {
        match event {
            ReceiveEvent::Received { datagram } => if self.stage is Waiting {
                self.take(datagram@)
            } else {
                match crate::packet::offer_parts(datagram@) {
                    Some((size, name)) => (
                        ReceiveSessionState { size, stage: ReceiveStage::Naming, ..self },
                        ReceiveActionView::Accept {
                            reply: acceptance(),
                            file_name: crate::files::sanitized(name, self.windows),
                        },
                    ),
                    None => (self, ReceiveActionView::AwaitOffer),
                }
            },
            ReceiveEvent::SocketFailed => if self.stage is Waiting {
                (self.at(ReceiveStage::AtTurn), ReceiveActionView::CheckCancel)
            } else {
                self.fail(ReceiveError::Socket)
            },
            ReceiveEvent::OfferExpired => self.fail(ReceiveError::OfferTimeout),
            ReceiveEvent::NameFree => (
                self.at(ReceiveStage::AtTurn),
                ReceiveActionView::CreateFile,
            ),
            ReceiveEvent::NameTaken { end } => if self.stage is Searching {
                self.try_name(NameSearchState { number: self.search.number + 1, ..self.search })
            } else {
                self.try_name(
                    search_for(
                        match end {
                            Some(name) => Some(name@),
                            None => None,
                        },
                    ),
                )
            },
            ReceiveEvent::Turn { cancelled } => if cancelled {
                self.fail(ReceiveError::Cancelled)
            } else {
                (self.at(ReceiveStage::Waiting), ReceiveActionView::AwaitData)
            },
            ReceiveEvent::Silent => self.fail(ReceiveError::TimedOut),
        }
    }
}

/// A fresh session.
pub open spec fn receive_start(windows: bool) -> ReceiveSessionState {
    ReceiveSessionState {
        receiver: receiver_start(),
        search: search_for(None),
        size: 0,
        windows,
        stage: ReceiveStage::AwaitingOffer,
    }
}

/// What a session reports as received only grows, whatever happens.
pub proof fn law_reports_only_grow(s: ReceiveSessionState, event: ReceiveEvent)
    ensures
        s.step(event).0.receiver.received >= s.receiver.received,
        s.step(event).1 matches ReceiveActionView::Write { chunks, ack, received } ==> received
            >= s.receiver.received,
        s.step(event).1 matches ReceiveActionView::Finish { reply, received } ==> received
            == s.receiver.received,
{
    if let ReceiveEvent::Received { datagram } = event {
        crate::transfer::law_received_only_grows(s.receiver, datagram@);
    }
}

/// An offer is understood: a receiver that waits for one takes the file's size
/// and its cleaned name from it, and its reply makes the sender open the file.
/// A receiver that has accepted already, and whose reply was lost, replies the
/// same once more.
pub proof fn law_offer_is_understood(
    sender: SendSessionState,
    receiver: ReceiveSessionState,
    offer: ReceiveEvent,
    reply: SendEvent,
)
    requires
        receiver.stage is AwaitingOffer || receiver.stage is Waiting,
        offer matches ReceiveEvent::Received { datagram } && datagram@ == sender.offer(),
        reply matches SendEvent::OfferReply { reply } && (reply matches Some(d) && d@
            == acceptance()),
    ensures
        receiver.step(offer).1 == (if receiver.stage is AwaitingOffer {
            ReceiveActionView::Accept {
                reply: acceptance(),
                file_name: crate::files::sanitized(sender.name, receiver.windows),
            }
        } else {
            ReceiveActionView::AcceptAgain { reply: acceptance() }
        }),
        receiver.stage is AwaitingOffer ==> receiver.step(offer).0.size == sender.sender.size,
        sender.step(reply).1 == SendActionView::OpenFile,
{
    crate::packet::law_offer_round_trip(sender.sender.size, sender.name);
    crate::packet::law_parse_of_build(PKT_ACCEPT, Seq::empty());
}

/// The end of the file is understood: a receiver that hears of it is finished,
/// and its reply finishes the sender.
pub proof fn law_end_is_understood(
    sender: SendSessionState,
    receiver: ReceiveSessionState,
    end: ReceiveEvent,
    reply: SendEvent,
)
    requires
        sender.stage is Finishing,
        receiver.stage is Waiting,
        end matches ReceiveEvent::Received { datagram } && datagram@ == fin(),
        reply matches SendEvent::FinReply { reply } && (reply matches Some(d) && d@
            == confirmation()),
    ensures
        receiver.step(end).0.stage is Finished,
        receiver.step(end).1 == (ReceiveActionView::Finish {
            reply: confirmation(),
            received: receiver.receiver.received,
        }),
        sender.step(reply).0.stage is Finished,
        sender.step(reply).1 == SendActionView::Finish(sender.sender.size),
{
    crate::packet::law_parse_of_build(PKT_FIN, Seq::empty());
    crate::packet::law_parse_of_build(PKT_FIN_ACK, Seq::empty());
}

/// A receiving session.
pub struct ReceiveSession {
    receiver: FileReceiver,
    search: NameSearch,
    file_size: u64,
    platform: Platform,
    stage: ReceiveStage,
}

impl View for ReceiveSession {
    type V = ReceiveSessionState;

    closed spec fn view(&self) -> ReceiveSessionState {
        ReceiveSessionState {
            receiver: self.receiver@,
            search: self.search@,
            size: self.file_size,
            windows: self.platform == Platform::Windows,
            stage: self.stage,
        }
    }
}

impl ReceiveSession {
    /// A session, and the wait for an offer to begin with.
    pub fn new(platform: Platform) -> (r: (ReceiveSession, ReceiveAction))
        ensures
            r.0@ == receive_start(platform == Platform::Windows),
            r.0@.receiver.well_formed(),
            r.1@ == ReceiveActionView::AwaitOffer,
    {
        let session = ReceiveSession {
            receiver: FileReceiver::new(),
            search: NameSearch::new(None),
            file_size: 0,
            platform,
            stage: ReceiveStage::AwaitingOffer,
        };
        (session, ReceiveAction::AwaitOffer)
    }

    /// The size that the file was offered with.
    pub fn file_size(&self) -> (r: u64)
        ensures
            r == self@.size,
    {
        self.file_size
    }

    /// True when `event` can be taken.
    pub fn expects(&self, event: &ReceiveEvent) -> (r: bool)
        ensures
            r == self@.expects(*event),
    {
        match event {
            ReceiveEvent::Received { datagram } => self.stage == ReceiveStage::AwaitingOffer || (
            self.stage == ReceiveStage::Waiting && self.receiver.can_take(datagram.as_slice())),
            ReceiveEvent::SocketFailed => self.stage == ReceiveStage::AwaitingOffer || self.stage
                == ReceiveStage::Waiting,
            ReceiveEvent::OfferExpired => self.stage == ReceiveStage::AwaitingOffer,
            ReceiveEvent::NameFree => self.stage == ReceiveStage::Naming || self.stage
                == ReceiveStage::Searching,
            ReceiveEvent::NameTaken { .. } => self.stage == ReceiveStage::Naming || (self.stage
                == ReceiveStage::Searching && self.search.has_next()),
            ReceiveEvent::Turn { .. } => self.stage == ReceiveStage::AtTurn,
            ReceiveEvent::Silent => self.stage == ReceiveStage::Waiting,
        }
    }

    fn fail(&mut self, e: ReceiveError) -> (r: ReceiveAction)
        ensures
            final(self)@ == old(self)@.fail(e).0,
            r@ == old(self)@.fail(e).1,
    {
        self.stage = ReceiveStage::Failed;
        ReceiveAction::Fail(e)
    }

    fn take(&mut self, datagram: &[u8]) -> (r: ReceiveAction)
        requires
            old(self)@.receiver.well_formed(),
            old(self)@.receiver.takes(datagram@),
        ensures
            final(self)@.receiver.well_formed(),
            final(self)@ == old(self)@.take(datagram@).0,
            r@ == old(self)@.take(datagram@).1,
    {
        self.stage = ReceiveStage::AtTurn;
        match self.receiver.on_datagram(datagram) {
            ReceiveStep::Deliver { chunks, ack } => ReceiveAction::Write {
                chunks,
                ack,
                received: self.receiver.received_bytes(),
            },
            ReceiveStep::Finish { reply } => {
                self.stage = ReceiveStage::Finished;
                ReceiveAction::Finish { reply, received: self.receiver.received_bytes() }
            },
            ReceiveStep::AcceptAgain { reply } => ReceiveAction::AcceptAgain { reply },
            ReceiveStep::Ignore => ReceiveAction::CheckCancel,
        }
    }
}

/// Takes an event of a receiving session and gives what is to be done.
pub fn receive_file_udp(session: &mut ReceiveSession, event: &ReceiveEvent) -> (r: ReceiveAction)
    requires
        old(session)@.receiver.well_formed(),
        old(session)@.expects(*event),
    ensures
        final(session)@.receiver.well_formed(),
        final(session)@ == old(session)@.step(*event).0,
        r@ == old(session)@.step(*event).1,
        r matches ReceiveAction::Accept { reply, file_name } ==> crate::files::stays_inside(
            file_name@,
        ),
{
    match event {
        ReceiveEvent::Received { datagram } => {
            if session.stage == ReceiveStage::Waiting {
                return session.take(datagram.as_slice());
            }
            match parse_offer(datagram.as_slice()) {
                Some((file_size, name)) => {
                    session.file_size = file_size;
                    session.stage = ReceiveStage::Naming;
                    ReceiveAction::Accept {
                        reply: empty_packet(PKT_ACCEPT),
                        file_name: safe_file_name(name.as_str(), session.platform),
                    }
                },
                None => ReceiveAction::AwaitOffer,
            }
        },
        ReceiveEvent::SocketFailed => if session.stage == ReceiveStage::Waiting {
            session.stage = ReceiveStage::AtTurn;
            ReceiveAction::CheckCancel
        } else {
            session.fail(ReceiveError::Socket)
        },
        ReceiveEvent::OfferExpired => session.fail(ReceiveError::OfferTimeout),
        ReceiveEvent::NameFree => {
            session.stage = ReceiveStage::AtTurn;
            ReceiveAction::CreateFile
        },
        ReceiveEvent::NameTaken { end } => {
            if session.stage == ReceiveStage::Searching {
                session.search.advance();
            } else {
                session.search = match end {
                    Some(name) => NameSearch::new(Some(name.as_str())),
                    None => NameSearch::new(None),
                };
                session.stage = ReceiveStage::Searching;
            }
            ReceiveAction::TryName(session.search.candidate())
        },
        ReceiveEvent::Turn { cancelled } => if *cancelled {
            session.fail(ReceiveError::Cancelled)
        } else {
            session.stage = ReceiveStage::Waiting;
            ReceiveAction::AwaitData
        },
        ReceiveEvent::Silent => session.fail(ReceiveError::TimedOut),
    }
}

/// Every packet of type 0x20 with a size is taken as the offer, with that size
/// and the cleaned name; while none comes, it is waited for.
pub proof fn law_offers_are_taken(s: ReceiveSessionState, event: ReceiveEvent)
    requires
        event is Received,
        s.stage is AwaitingOffer,
    ensures
        ({
            let d = event->datagram@;
            let name = d.skip(13);
            let (t, action) = s.step(event);
            &&& t.receiver == s.receiver && t.windows == s.windows
            &&& !begins_as(d, 0x20, 8) ==> action is AwaitOffer && t == s
            &&& begins_as(d, 0x20, 8) ==> {
                &&& t.size == number_at(d, 5) * 0x1_0000_0000 + number_at(d, 9)
                &&& t.stage is Naming
                &&& action matches ReceiveActionView::Accept { reply, file_name } && {
                    &&& reply.len() == 5 && begins_as(reply, 0x21, 0)
                    &&& vstd::utf8::valid_utf8(name) ==> file_name == crate::files::sanitized(
                        vstd::utf8::decode_utf8(name),
                        s.windows,
                    )
                    &&& !vstd::utf8::valid_utf8(name) ==> file_name == crate::files::sanitized(
                        seq!['f', 'i', 'l', 'e'],
                        s.windows,
                    )
                }
            }
        }),
{
    crate::packet::law_offer_parts(event->datagram@);
    crate::packet::law_packet_layout(PKT_ACCEPT, Seq::empty());
}

/// A name that is taken is varied by a number before its extension, however long
/// that is: first by one.
pub proof fn law_taken_name_is_varied(
    s: ReceiveSessionState,
    event: ReceiveEvent,
    stem: Seq<char>,
    ending: Seq<char>,
)
    requires
        event is NameTaken,
        event->end is Some,
        event->end->0@ == stem + seq!['.'] + ending,
        stem.len() >= 1,
        !ending.contains('.'),
        stem + seq!['.'] + ending != seq!['.', '.'],
        s.stage is Naming,
    ensures
        s.step(event).1 == ReceiveActionView::TryName(stem + " (1)."@ + ending),
        s.step(event).0.stage is Searching,
        s.step(event).0.search.stem == stem,
        s.step(event).0.search.number == 1,
        s.step(event).0.receiver == s.receiver && s.step(event).0.size == s.size,
{
    crate::files::law_splits_at_last_dot(stem, ending);
    reveal_strlit(" (");
    reveal_strlit(")");
    reveal_strlit(" (1).");
    assert(crate::text::decimal(1) =~= seq!['1']);
    assert(crate::files::numbered_name(stem, 1, seq!['.'] + ending) =~= stem + " (1)."@ + ending);
}

/// A name without extension is varied at its end.
pub proof fn law_taken_plain_name_is_varied(s: ReceiveSessionState, event: ReceiveEvent)
    requires
        event is NameTaken,
        event->end is Some,
        forall|i: int| 1 <= i < event->end->0@.len() ==> event->end->0@[i] != '.',
        s.stage is Naming,
    ensures
        s.step(event).1 == ReceiveActionView::TryName(event->end->0@ + " (1)"@),
{
    let name = event->end->0@;
    crate::files::law_nothing_to_split(name);
    reveal_strlit(" (");
    reveal_strlit(")");
    reveal_strlit(" (1)");
    assert(crate::text::decimal(1) =~= seq!['1']);
    assert(crate::files::numbered_name(name, 1, crate::files::file_extension(name)) =~= name
        + " (1)"@);
}

/// While variations are taken, the next number is tried, with the same stem and
/// extension; the file is created as soon as a name is free, and only then.
pub proof fn law_search_goes_on(s: ReceiveSessionState, event: ReceiveEvent)
    requires
        event is NameTaken || event is NameFree,
        s.stage is Searching,
    ensures
        ({
            let (t, action) = s.step(event);
            &&& event is NameFree ==> action is CreateFile && t.stage is AtTurn && t.search
                == s.search
            &&& event is NameTaken ==> {
                &&& t.search.stem == s.search.stem && t.search.extension == s.search.extension
                &&& t.search.number == s.search.number + 1
                &&& action == ReceiveActionView::TryName(
                    crate::files::numbered_name(s.search.stem, t.search.number, s.search.extension),
                )
                &&& t.stage is Searching
            }
            &&& t.receiver == s.receiver && t.size == s.size
        }),
{
}

/// A free name is used as it is; whether to stop is asked before every datagram;
/// silence and the socket end or do not end the session.
pub proof fn law_receive_turns(s: ReceiveSessionState, cancelled: bool)
    ensures
        ({
            let free = s.step(ReceiveEvent::NameFree);
            let turn = s.step(ReceiveEvent::Turn { cancelled });
            let silent = s.step(ReceiveEvent::Silent);
            let expired = s.step(ReceiveEvent::OfferExpired);
            let socket = s.step(ReceiveEvent::SocketFailed);
            &&& free.1 is CreateFile && free.0.stage is AtTurn && free.0.receiver == s.receiver
            &&& cancelled ==> turn.1 == ReceiveActionView::Fail(ReceiveError::Cancelled)
                && turn.0.stage is Failed
            &&& !cancelled ==> turn.1 is AwaitData && turn.0.stage is Waiting && turn.0.receiver
                == s.receiver && turn.0.size == s.size
            &&& silent.1 == ReceiveActionView::Fail(ReceiveError::TimedOut)
            &&& expired.1 == ReceiveActionView::Fail(ReceiveError::OfferTimeout)
            &&& s.stage is Waiting ==> socket.1 is CheckCancel && socket.0.stage is AtTurn
                && socket.0.receiver == s.receiver
            &&& !(s.stage is Waiting) ==> socket.1 == ReceiveActionView::Fail(ReceiveError::Socket)
        }),
{
}

/// Every packet of type 0x30 with a number is taken as a chunk: what can be
/// written is, and what has been written so far is acknowledged and reported.
pub proof fn law_chunks_are_taken(s: ReceiveSessionState, event: ReceiveEvent)
    requires
        event is Received,
        s.stage is Waiting,
        begins_as(event->datagram@, 0x30, 4),
        s.receiver.well_formed(),
        s.expects(event),
    ensures
        ({
            let d = event->datagram@;
            let n = number_at(d, 5);
            let (t, action) = s.step(event);
            &&& t.stage is AtTurn && t.size == s.size
            &&& t.receiver == s.receiver.after_data(n as u32, d.skip(9))
            &&& action matches ReceiveActionView::Write { chunks, ack, received } && {
                &&& n == s.receiver.expected ==> chunks.len() >= 1 && chunks[0] == d.skip(9)
                    && t.receiver.expected == s.receiver.expected + chunks.len()
                &&& n != s.receiver.expected ==> chunks.len() == 0 && t.receiver.expected
                    == s.receiver.expected
                &&& ack.len() == 9 && begins_as(ack, 0x31, 4)
                &&& t.receiver.expected > 0 ==> number_at(ack, 5) == t.receiver.expected - 1
                &&& t.receiver.expected == 0 ==> number_at(ack, 5) == 0
                &&& received == s.receiver.received + chunks.flatten().len()
            }
        }),
{
    let d = event->datagram@;
    crate::packet::law_data_parts(d);
    let n = number_at(d, 5) as u32;
    let after = s.receiver.after_data(n, d.skip(9));
    if n == s.receiver.expected {
        crate::receiver::law_expected_chunk_is_written(s.receiver, d.skip(9), 0);
    } else {
        assert(s.receiver.delivered(n, d.skip(9)).flatten() =~= Seq::<u8>::empty());
    }
    crate::packet::law_ack_layout(after.ack_number());
}

/// What else comes while the file does: its end finishes the session, with what
/// was received; its offer is accepted once more; anything else is nothing.
pub proof fn law_other_datagrams(s: ReceiveSessionState, event: ReceiveEvent)
    requires
        event is Received,
        s.stage is Waiting,
        !begins_as(event->datagram@, 0x30, 4),
    ensures
        ({
            let d = event->datagram@;
            let (t, action) = s.step(event);
            &&& t.receiver == s.receiver && t.size == s.size
            &&& begins_as(d, 0x40, 0) ==> {
                &&& action matches ReceiveActionView::Finish { reply, received } && reply.len() == 5
                    && begins_as(reply, 0x41, 0) && received == s.receiver.received
                &&& t.stage is Finished
            }
            &&& begins_as(d, 0x20, 0) ==> {
                &&& action matches ReceiveActionView::AcceptAgain { reply } && reply.len() == 5
                    && begins_as(reply, 0x21, 0)
                &&& t.stage is AtTurn
            }
            &&& !begins_as(d, 0x40, 0) && !begins_as(d, 0x20, 0) ==> action is CheckCancel
                && t.stage is AtTurn
        }),
{
    let d = event->datagram@;
    crate::packet::law_data_parts(d);
    crate::packet::law_packet_parts(d, PKT_FIN);
    crate::packet::law_packet_parts(d, PKT_OFFER);
    crate::packet::law_packet_layout(PKT_FIN_ACK, Seq::empty());
    crate::packet::law_packet_layout(PKT_ACCEPT, Seq::empty());
}

/// Whatever may come at a stage can be taken, but for datagrams of more than 1500
/// bytes and numbers near the end of 32 bits.
pub proof fn law_what_a_receiver_takes(s: ReceiveSessionState, event: ReceiveEvent)
    ensures
        s.stage is AwaitingOffer && (event is Received || event is SocketFailed
            || event is OfferExpired) ==> s.expects(event),
        s.stage is Naming && (event is NameFree || event is NameTaken) ==> s.expects(event),
        s.stage is Searching && event is NameFree ==> s.expects(event),
        s.stage is Searching && event is NameTaken && s.search.number < 0xffff_ffff ==> s.expects(
            event,
        ),
        s.stage is AtTurn && event is Turn ==> s.expects(event),
        s.stage is Waiting && (event is Silent || event is SocketFailed) ==> s.expects(event),
        s.stage is Waiting && event is Received && event->datagram@.len() <= 1500
            && s.receiver.expected <= 0xffff_fdff ==> s.expects(event),
{
}

/// How often and how long, whatever an action carries.
pub proof fn law_receive_waits(action: ReceiveActionView)
    ensures
        action is Accept || action is AcceptAgain || action is Finish ==> action.copies() == 3,
        action is Write ==> action.copies() == 1,
        !(action is Accept || action is AcceptAgain || action is Finish || action is Write)
            ==> action.copies() == 0,
        action is AwaitData ==> action.wait_ms() == Some(30_000u64),
        !(action is AwaitData) ==> action.wait_ms() is None,
        action is AwaitOffer ==> action.deadline_ms() == Some(30_000u64),
        !(action is AwaitOffer) ==> action.deadline_ms() is None,
{
}

/// A fresh session waits for an offer and has received nothing.
pub proof fn law_receive_start(windows: bool)
    ensures
        ({
            let s = receive_start(windows);
            &&& s.stage is AwaitingOffer && s.windows == windows && s.size == 0
            &&& s.receiver.expected == 0 && s.receiver.received == 0
            &&& forall|k: u32| !s.receiver.held.contains_key(k)
        }),
{
}

/// An action is seen with all that it carries.
pub proof fn law_receive_action_view(a: ReceiveAction)
    ensures
        match a {
            ReceiveAction::Accept { reply, file_name } => a@ == (ReceiveActionView::Accept {
                reply: reply@,
                file_name: file_name@,
            }),
            ReceiveAction::TryName(name) => a@ == ReceiveActionView::TryName(name@),
            ReceiveAction::Write { chunks, ack, received } => a@ matches ReceiveActionView::Write {
                chunks: c,
                ack: k,
                received: n,
            } && c.len() == chunks@.len() && (forall|i: int|
                0 <= i < c.len() ==> #[trigger] c[i] == chunks@[i]@) && k == ack@ && n == received,
            ReceiveAction::AcceptAgain { reply } => a@ == (ReceiveActionView::AcceptAgain {
                reply: reply@,
            }),
            ReceiveAction::Finish { reply, received } => a@ == (ReceiveActionView::Finish {
                reply: reply@,
                received: received as nat,
            }),
            ReceiveAction::Fail(e) => a@ == ReceiveActionView::Fail(e),
            ReceiveAction::AwaitOffer => a@ is AwaitOffer,
            ReceiveAction::CreateFile => a@ is CreateFile,
            ReceiveAction::AwaitData => a@ is AwaitData,
            ReceiveAction::CheckCancel => a@ is CheckCancel,
        },
{
}

} // verus!
