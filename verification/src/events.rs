//! What the engine tells the front end, and what it asks of it.
//!
//! The engine decides; the front end owns the sockets, the files and the
//! threads. Every step of the engine returns a list of [`Action`]s, to be
//! performed in order.

use vstd::prelude::*;

use crate::error::{Error, ErrorView};
use crate::protocol::{Control, ControlView, PeerInfo, PeerInfoView};
use crate::text::cat3;

verus! {

#[derive(Clone, Copy, Debug, PartialEq, Eq, Structural)]
pub enum PeerState {
    Connecting,
    Connected,
    Disconnected,
    Failed,
}

pub open spec fn state_text(state: PeerState) -> Seq<char> {
    match state {
        PeerState::Connecting => "Connecting"@,
        PeerState::Connected => "Connected"@,
        PeerState::Disconnected => "Disconnected"@,
        PeerState::Failed => "Failed"@,
    }
}

impl PeerState {
    pub fn as_str(self) -> (r: &'static str)
        ensures
            r@ == state_text(self),
    {
        match self {
            PeerState::Connecting => "Connecting",
            PeerState::Connected => "Connected",
            PeerState::Disconnected => "Disconnected",
            PeerState::Failed => "Failed",
        }
    }
}

/// Everything the UI needs to know about, in the order it happened.
#[derive(Clone, Debug)]
pub enum Event {
    /// Transient progress note.
    Status(String),
    /// A line for the transcript view that is not a chat message.
    System(String),
    RoomOpened { code: String, transport: String, dial: String, expires_secs: u64 },
    Joined { room: String, transport: String },
    JoinRequest { req: String, name: String, addr: String, fingerprint: String },
    JoinResolved { req: String, accepted: bool },
    Peer { id: String, name: String, state: PeerState, detail: String },
    Chat { from: String, name: String, ts: i64, body: String, mine: bool },
    FileOffer { transfer: String, from: String, name: String, size: u64 },
    FileProgress {
        transfer: String,
        name: String,
        peer: String,
        done: u64,
        total: u64,
        incoming: bool,
    },
    FileFinished { transfer: String, name: String, incoming: bool, ok: bool, detail: String },
    Error(String),
    RoomClosed(String),
}

#[verifier::ext_equal]
pub enum EventView {
    Status(Seq<char>),
    System(Seq<char>),
    RoomOpened { code: Seq<char>, transport: Seq<char>, dial: Seq<char>, expires_secs: u64 },
    Joined { room: Seq<char>, transport: Seq<char> },
    JoinRequest { req: Seq<char>, name: Seq<char>, addr: Seq<char>, fingerprint: Seq<char> },
    JoinResolved { req: Seq<char>, accepted: bool },
    Peer { id: Seq<char>, name: Seq<char>, state: PeerState, detail: Seq<char> },
    Chat { from: Seq<char>, name: Seq<char>, ts: i64, body: Seq<char>, mine: bool },
    FileOffer { transfer: Seq<char>, from: Seq<char>, name: Seq<char>, size: u64 },
    FileProgress {
        transfer: Seq<char>,
        name: Seq<char>,
        peer: Seq<char>,
        done: u64,
        total: u64,
        incoming: bool,
    },
    FileFinished {
        transfer: Seq<char>,
        name: Seq<char>,
        incoming: bool,
        ok: bool,
        detail: Seq<char>,
    },
    Error(Seq<char>),
    RoomClosed(Seq<char>),
}

impl View for Event {
    type V = EventView;

    open spec fn view(&self) -> EventView {
        match self {
            Event::Status(t) => EventView::Status(t@),
            Event::System(t) => EventView::System(t@),
            Event::RoomOpened { code, transport, dial, expires_secs } => EventView::RoomOpened {
                code: code@,
                transport: transport@,
                dial: dial@,
                expires_secs: *expires_secs,
            },
            Event::Joined { room, transport } => EventView::Joined {
                room: room@,
                transport: transport@,
            },
            Event::JoinRequest { req, name, addr, fingerprint } => EventView::JoinRequest {
                req: req@,
                name: name@,
                addr: addr@,
                fingerprint: fingerprint@,
            },
            Event::JoinResolved { req, accepted } => EventView::JoinResolved {
                req: req@,
                accepted: *accepted,
            },
            Event::Peer { id, name, state, detail } => EventView::Peer {
                id: id@,
                name: name@,
                state: *state,
                detail: detail@,
            },
            Event::Chat { from, name, ts, body, mine } => EventView::Chat {
                from: from@,
                name: name@,
                ts: *ts,
                body: body@,
                mine: *mine,
            },
            Event::FileOffer { transfer, from, name, size } => EventView::FileOffer {
                transfer: transfer@,
                from: from@,
                name: name@,
                size: *size,
            },
            Event::FileProgress { transfer, name, peer, done, total, incoming } =>
                EventView::FileProgress {
                transfer: transfer@,
                name: name@,
                peer: peer@,
                done: *done,
                total: *total,
                incoming: *incoming,
            },
            Event::FileFinished { transfer, name, incoming, ok, detail } =>
                EventView::FileFinished {
                transfer: transfer@,
                name: name@,
                incoming: *incoming,
                ok: *ok,
                detail: detail@,
            },
            Event::Error(t) => EventView::Error(t@),
            Event::RoomClosed(t) => EventView::RoomClosed(t@),
        }
    }
}

/// The answer to a file offer of ours.
#[derive(Debug)]
pub enum Decision {
    Accept,
    Decline(String),
}

#[verifier::ext_equal]
pub enum DecisionView {
    Accept,
    Decline(Seq<char>),
}

impl View for Decision {
    type V = DecisionView;

    open spec fn view(&self) -> DecisionView {
        match self {
            Decision::Accept => DecisionView::Accept,
            Decision::Decline(reason) => DecisionView::Decline(reason@),
        }
    }
}

/// What the front end has to do. A link is named by the number that the front
/// end gave it.
#[derive(Debug)]
pub enum Action {
    /// Put an event on the UI's queue.
    Emit(Event),
    /// Send a message; nothing follows from a failure.
    Send { link: u64, message: Control },
    /// Send a message; where that fails, [`delivery_failed`] is the event.
    Tell { link: u64, message: Control, trouble: String },
    /// Close a link.
    Close { link: u64 },
    /// Close the listening endpoint.
    CloseListener,
    /// Start reading from a link.
    Read { link: u64, peer: PeerInfo },
    /// Open a direct link to a peer.
    Dial { peer: PeerInfo },
    /// Pass the answer on to whoever sends that file.
    Decide { transfer: [u8; 16], decision: Decision },
    /// Flush and close the file that an incoming transfer is written to.
    CloseFile { transfer: [u8; 16] },
}

#[verifier::ext_equal]
pub enum ActionView {
    Emit(EventView),
    Send { link: u64, message: ControlView },
    Tell { link: u64, message: ControlView, trouble: Seq<char> },
    Close { link: u64 },
    CloseListener,
    Read { link: u64, peer: PeerInfoView },
    Dial { peer: PeerInfoView },
    Decide { transfer: Seq<u8>, decision: DecisionView },
    CloseFile { transfer: Seq<u8> },
}

impl View for Action {
    type V = ActionView;

    open spec fn view(&self) -> ActionView {
        match self {
            Action::Emit(e) => ActionView::Emit(e@),
            Action::Send { link, message } => ActionView::Send { link: *link, message: message@ },
            Action::Tell { link, message, trouble } => ActionView::Tell {
                link: *link,
                message: message@,
                trouble: trouble@,
            },
            Action::Close { link } => ActionView::Close { link: *link },
            Action::CloseListener => ActionView::CloseListener,
            Action::Read { link, peer } => ActionView::Read { link: *link, peer: peer@ },
            Action::Dial { peer } => ActionView::Dial { peer: peer@ },
            Action::Decide { transfer, decision } => ActionView::Decide {
                transfer: transfer@,
                decision: decision@,
            },
            Action::CloseFile { transfer } => ActionView::CloseFile { transfer: transfer@ },
        }
    }
}

/// The event for a message that did not get through.
pub fn delivery_failed(trouble: &str, e: &Error) -> (r: Event)
    ensures
        r@ == EventView::Error(trouble@ + ": "@ + e@.message()),
{
    Event::Error(cat3(trouble, ": ", &e.message()))
}

/// What arrived on a link.
#[derive(Debug)]
pub enum Inbound {
    Message(Control),
    Chunk { id: [u8; 16], seq: u32, data: Vec<u8> },
    /// Something that is no message of this protocol.
    Malformed(Error),
}

#[verifier::ext_equal]
pub enum InboundView {
    Message(ControlView),
    Chunk { id: Seq<u8>, seq: u32, data: Seq<u8> },
    Malformed(ErrorView),
}

impl View for Inbound {
    type V = InboundView;

    open spec fn view(&self) -> InboundView {
        match self {
            Inbound::Message(c) => InboundView::Message(c@),
            Inbound::Chunk { id, seq, data } => InboundView::Chunk {
                id: id@,
                seq: *seq,
                data: data@,
            },
            Inbound::Malformed(e) => InboundView::Malformed(e@),
        }
    }
}

} // verus!
