//! The node: everything that makes a room work.
//!
//! Topology is a full mesh. The host owns the room and the approval decision,
//! but it never relays anything: once a joiner is approved, the host hands it
//! the connection details of every already-approved peer and tells those peers
//! that a new member is coming, and the peers wire themselves together
//! directly. Chat lines and file chunks always travel on the author's own
//! link to each recipient.
//!
//! The node is a state machine. Each step takes what happened (a request of
//! the user, a message, a link that came up or broke) and returns what is to
//! be done about it, as [`Action`]s for the front end, which owns the sockets,
//! the files and the threads. A link is known by the number the front end gave
//! it.

use vstd::prelude::*;

use crate::clock::Clock;
use crate::crypto::{fingerprint_text, public_key, Identity, MAX_PLAINTEXT};
use crate::error::{plain, viewed, Error, ErrorView, IoErrorKind};
use crate::files::{
    cancelled, chunk_refused, chunk_stored, chunk_verdict, chunks_keep_order, file_control,
    fresh_incoming, messages_keep_order, no_transfers, orderly, starts_and_ends_keep_order,
    upload_over, OfferView, PendingOffer, Transfers, TransfersView, Upload, UploadEnd, UploadView,
    Verdict, VerdictView,
};
use crate::hashing::sha256;
use crate::history::{
    full_time, full_times, heading, note, record_lines, render_text, ChatRecord, RecordKind,
    RecordView,
};
use crate::names::{human_size, safe_file_name, safe_name, sane_name, sane_names_stay, size_text};
use crate::protocol::{
    an_id, chat_fits, chat_len, id_in, new_id, now_ts, random_bytes, unhex16, Control, ControlView, PeerId, PeerInfo,
    PeerInfoView,
};
use crate::ratelimit::{allowed, attempted, default_limits, LimiterView, RateLimiter};
use crate::roomcode::{canonical, decode, decoded, encode, encoded, normalize_code};
use crate::table::{
    distinct, has_key, lookup, put, put_is_found, row_of, row_of_is_row, values, without,
    without_is_gone, Table,
};
use crate::text::{
    cat, cat3, cat4, cat5, chars_of, dec, dec_text, dec_value_of_dec, find_last, last_at, same_text,
    slice_text, trim_text, trimmed, upper_all, upper_text,
};
use crate::transport::{kind_text, TransportKind};
use crate::views::{dup_all, each, each_add, each_push, Dup};
use crate::PROTOCOL_VERSION;

pub use crate::events::{
    delivery_failed, state_text, Action, ActionView, Decision, DecisionView, Event, EventView,
    Inbound, InboundView, PeerState,
};
pub use crate::names::sanitize_name;

verus! {

/// How long we wait for a TCP/RFCOMM connection to come up, in nanoseconds.
pub const DIAL_TIMEOUT: u64 = 10_000_000_000;

/// How long a peer will hold an unrecognised mesh call while waiting for the
/// host's `PeerJoined` announcement to arrive (removes the approval race).
pub const ROSTER_GRACE: u64 = 8_000_000_000;

/// Until when a call that comes in at `now` is held; there is no deadline
/// beyond the end of the clock.
pub open spec fn hold_end(now: u64) -> u64 {
    if now + ROSTER_GRACE > u64::MAX {
        u64::MAX
    } else {
        (now + ROSTER_GRACE) as u64
    }
}

/// Until when a call that comes in at `now` is held.
pub fn hold_until(now: u64) -> (r: u64)
    ensures
        r == hold_end(now),
        r == if now + ROSTER_GRACE > u64::MAX {
            u64::MAX as int
        } else {
            now + ROSTER_GRACE
        },
{
    now.saturating_add(ROSTER_GRACE)
}

/// How often a held call is looked at again.
pub const ROSTER_POLL: u64 = 100_000_000;

/// How long a freshly created room accepts new joiners before the code expires.
pub const DEFAULT_CODE_TTL: u64 = 600_000_000_000;

/// How long to wait before dialling a peer again.
pub const REDIAL_PAUSE: u64 = 600_000_000;

#[derive(Clone, Copy, Debug, PartialEq, Eq, Structural)]
pub enum Role {
    Host,
    Joiner,
}

/// When something happens: nanoseconds on the node's clock, and the time stamp
/// that goes into the transcript.
#[derive(Clone, Copy, Debug, PartialEq, Eq, Structural)]
pub struct Moment {
    pub now: u64,
    pub ts: i64,
}

// --- state -----------------------------------------------------------------------

/// One connected peer and the encrypted link to it.
#[derive(Debug)]
pub struct Peer {
    pub info: PeerInfo,
    pub link: u64,
    pub state: PeerState,
}

#[verifier::ext_equal]
pub struct PeerView {
    pub info: PeerInfoView,
    pub link: u64,
    pub state: PeerState,
}

impl View for Peer {
    type V = PeerView;

    open spec fn view(&self) -> PeerView {
        PeerView { info: self.info@, link: self.link, state: self.state }
    }
}

impl Dup for Peer {
    fn dup(&self) -> (r: Self) {
        Peer { info: self.info.dup(), link: self.link, state: self.state }
    }
}

impl Peer {
    /// A message to this peer, on the link to it.
    pub fn send(&self, message: Control) -> (r: Action)
        ensures
            r@ == (ActionView::Send { link: self@.link, message: message@ }),
    {
        Action::Send { link: self.link, message }
    }
}

/// Someone who asked to join and waits for an answer.
pub struct Pending {
    pub info: PeerInfo,
    pub link: u64,
}

#[verifier::ext_equal]
pub struct PendingView {
    pub info: PeerInfoView,
    pub link: u64,
}

impl View for Pending {
    type V = PendingView;

    open spec fn view(&self) -> PendingView {
        PendingView { info: self.info@, link: self.link }
    }
}

/// Everything a node knows.
#[verifier::ext_equal]
pub struct NodeView {
    /// Our private key.
    pub private: Seq<u8>,
    /// Our public key.
    pub public: Seq<u8>,
    pub role: Option<Role>,
    pub kind: Option<TransportKind>,
    pub room: Seq<char>,
    pub me: PeerInfoView,
    pub listening: bool,
    pub peers: Seq<(Seq<char>, PeerView)>,
    /// Peers the host has approved (mirrored on every node so inbound mesh
    /// calls can be authorised without asking the host).
    pub roster: Seq<(Seq<char>, PeerInfoView)>,
    pub pending: Seq<(Seq<char>, PendingView)>,
    pub history: Seq<RecordView>,
    pub open_until: Option<u64>,
    pub limiter: LimiterView,
    pub transfers: TransfersView,
    pub running: bool,
    pub req_seq: u64,
    /// The clock that deadlines are counted on.
    pub clock: Clock,
}

/// What holds of a node at all times: no peer, approval, request or transfer
/// is known twice, everyone is filed under their own id and every request under
/// a number that was given out, outside a room there is nobody, and we have an
/// id of our own making and show a presentable name and the fingerprint of our
/// own key.
pub open spec fn sound(n: NodeView) -> bool {
    &&& keyed(n)
    &&& an_id(n.me.id)
    &&& n.me.name == sane_name(n.me.name)
    &&& distinct(n.peers)
    &&& distinct(n.roster)
    &&& distinct(n.pending)
    &&& numbered(n.pending, n.req_seq)
    &&& orderly(n.transfers)
    &&& peers_filed(n.peers)
    &&& roster_filed(n.roster)
    &&& !n.running ==> n.peers.len() == 0
}

/// The keys belong together, and we are known by them.
pub open spec fn keyed(n: NodeView) -> bool {
    &&& n.private.len() == 32
    &&& n.public == public_key(n.private)
    &&& n.me.fingerprint == fingerprint_text(sha256(n.public))
}

/// Every peer stands under its own id, and is connected.
pub open spec fn peers_filed(peers: Seq<(Seq<char>, PeerView)>) -> bool {
    forall|i: int|
        0 <= i < peers.len() ==> (#[trigger] peers[i]).0 == peers[i].1.info.id && peers[i].1.state
            == PeerState::Connected
}

/// Every request stands under a number below `next`.
pub open spec fn numbered(pending: Seq<(Seq<char>, PendingView)>, next: u64) -> bool {
    forall|i: int| 0 <= i < pending.len() ==> given_out((#[trigger] pending[i]).0, next)
}

/// `req` is a number below `next`.
pub open spec fn given_out(req: Seq<char>, next: u64) -> bool {
    exists|k: u64| k < next && req == #[trigger] dec(k as nat)
}

/// Everyone who is approved stands under their own id.
pub open spec fn roster_filed(roster: Seq<(Seq<char>, PeerInfoView)>) -> bool {
    forall|i: int| 0 <= i < roster.len() ==> (#[trigger] roster[i]).0 == roster[i].1.id
}

pub struct Node {
    identity: Identity,
    role: Option<Role>,
    kind: Option<TransportKind>,
    room: String,
    me: PeerInfo,
    listening: bool,
    peers: Table<String, Peer>,
    roster: Table<String, PeerInfo>,
    pending: Table<String, Pending>,
    history: Vec<ChatRecord>,
    open_until: Option<u64>,
    limiter: RateLimiter,
    transfers: Transfers,
    running: bool,
    req_seq: u64,
    clock: Clock,
}

impl View for Node {
    type V = NodeView;

    closed spec fn view(&self) -> NodeView {
        NodeView {
            private: self.identity.private@,
            public: self.identity.public@,
            role: self.role,
            kind: self.kind,
            room: self.room@,
            me: self.me@,
            listening: self.listening,
            peers: self.peers@,
            roster: self.roster@,
            pending: self.pending@,
            history: each(self.history@),
            open_until: self.open_until,
            limiter: self.limiter@,
            transfers: self.transfers@,
            running: self.running,
            req_seq: self.req_seq,
            clock: self.clock,
        }
    }
}

/// What a step leaves of the node, and what is to be done.
#[verifier::ext_equal]
pub struct NodeStep {
    pub node: NodeView,
    pub actions: Seq<ActionView>,
}

/// The step left the node as `step` says, and `actions` is what it says.
pub open spec fn took(after: NodeView, actions: Seq<Action>, step: NodeStep) -> bool {
    after == step.node && each(actions) == step.actions
}

/// A node with one more note in the transcript.
pub open spec fn noted(n: NodeView, ts: i64, body: Seq<char>) -> NodeView {
    NodeView { history: n.history.push(note(ts, body)), ..n }
}

/// The people we are connected to.
pub open spec fn peer_infos(peers: Seq<(Seq<char>, PeerView)>) -> Seq<PeerInfoView> {
    Seq::new(peers.len(), |i: int| peers[i].1.info)
}

// --- rooms: opening, joining, leaving ------------------------------------------------

pub open spec fn busy() -> ErrorView {
    ErrorView::Config("you are already in a room - leave it first"@)
}

/// A node that enters a room: whatever was left of the last one is gone.
pub open spec fn entering(
    n: NodeView,
    role: Role,
    kind: TransportKind,
    room: Seq<char>,
    addr: Seq<char>,
    open_until: Option<u64>,
) -> NodeView {
    NodeView {
        role: Some(role),
        kind: Some(kind),
        room,
        me: PeerInfoView { addr, ..n.me },
        listening: true,
        open_until,
        limiter: default_limits(),
        history: Seq::empty(),
        roster: Seq::empty(),
        peers: Seq::empty(),
        pending: Seq::empty(),
        running: true,
        ..n
    }
}

/// A node that opens a room at `dial`, whose code is `code`.
pub open spec fn hosting(
    n: NodeView,
    kind: TransportKind,
    dial: Seq<char>,
    code: Seq<char>,
    ttl: u64,
    at: Moment,
) -> NodeStep {
    NodeStep {
        node: noted(
            entering(n, Role::Host, kind, code, dial, Some((at.now + ttl) as u64)),
            at.ts,
            "Room opened over "@ + kind_text(kind) + " with code "@ + code,
        ),
        actions: seq![
            ActionView::Emit(
                EventView::RoomOpened {
                    code,
                    transport: kind_text(kind),
                    dial,
                    expires_secs: ttl / 1_000_000_000,
                },
            ),
        ],
    }
}

/// Where a join request goes: the address in the code, if we are in no room
/// and the code is for the transport in use.
pub open spec fn join_address(n: NodeView, kind: TransportKind, code: Seq<char>) -> Result<
    Seq<char>,
    ErrorView,
> {
    if n.running {
        Err(busy())
    } else {
        match decoded(code) {
            Err(e) => Err(e),
            Ok((k, dial)) => if k != kind {
                Err(
                    ErrorView::Config(
                        "that room code is a "@ + kind_text(k)
                            + " code - switch the connection mode to "@ + kind_text(k)
                            + " and try again"@,
                    ),
                )
            } else {
                Ok(dial)
            },
        }
    }
}

/// A node that sets out to join a room, with its own endpoint at `addr`.
pub open spec fn joining(
    n: NodeView,
    kind: TransportKind,
    code: Seq<char>,
    addr: Seq<char>,
) -> NodeStep {
    NodeStep {
        node: entering(n, Role::Joiner, kind, upper_all(trimmed(code)), addr, None),
        actions: seq![
            ActionView::Emit(
                EventView::Status("Contacting the host over "@ + kind_text(kind) + "..."@),
            ),
        ],
    }
}

/// The links to `peers` are closed.
pub open spec fn closes(peers: Seq<(Seq<char>, PeerView)>) -> Seq<ActionView> {
    Seq::new(peers.len(), |i: int| ActionView::Close { link: peers[i].1.link })
}

pub open spec fn listener_closed(n: NodeView) -> Seq<ActionView> {
    if n.listening {
        seq![ActionView::CloseListener]
    } else {
        Seq::empty()
    }
}

/// A node that drops out of a room without a word.
pub open spec fn shut_down(n: NodeView) -> NodeStep {
    NodeStep {
        node: NodeView {
            running: false,
            peers: Seq::empty(),
            roster: Seq::empty(),
            listening: false,
            ..n
        },
        actions: closes(n.peers) + listener_closed(n),
    }
}

/// Everyone is told goodbye, and their links are closed.
pub open spec fn goodbyes(peers: Seq<(Seq<char>, PeerView)>) -> Seq<ActionView> {
    Seq::new(
        2 * peers.len(),
        |i: int|
            if i % 2 == 0 {
                ActionView::Send { link: peers[i / 2].1.link, message: ControlView::Bye }
            } else {
                ActionView::Close { link: peers[i / 2].1.link }
            },
    )
}

/// A node that leaves its room. The transcript stays.
pub open spec fn leaving(n: NodeView, ts: i64) -> NodeStep {
    if !n.running {
        NodeStep { node: n, actions: Seq::empty() }
    } else {
        NodeStep {
            node: noted(
                NodeView {
                    running: false,
                    peers: Seq::empty(),
                    pending: Seq::empty(),
                    roster: Seq::empty(),
                    listening: false,
                    ..n
                },
                ts,
                "Left the room"@,
            ),
            actions: goodbyes(n.peers) + Seq::new(
                n.pending.len(),
                |i: int| ActionView::Close { link: n.pending[i].1.link },
            ) + listener_closed(n) + seq![
                ActionView::Emit(EventView::RoomClosed("you left the room"@)),
            ],
        }
    }
}

// --- links that come up ----------------------------------------------------------------

/// A link to `info` is there: it is registered and read from, unless we left
/// the room meanwhile.
pub open spec fn attached(
    n: NodeView,
    info: PeerInfoView,
    link: u64,
    fingerprint: Seq<char>,
    ts: i64,
) -> NodeStep {
    if !n.running {
        NodeStep { node: n, actions: seq![ActionView::Close { link }] }
    } else {
        NodeStep {
            node: noted(
                NodeView {
                    roster: put(n.roster, info.id, info),
                    peers: put(
                        n.peers,
                        info.id,
                        PeerView { info, link, state: PeerState::Connected },
                    ),
                    ..n
                },
                ts,
                info.name + " connected"@,
            ),
            actions: seq![
                ActionView::Emit(
                    EventView::Peer {
                        id: info.id,
                        name: info.name,
                        state: PeerState::Connected,
                        detail: info.addr + " · "@ + fingerprint,
                    },
                ),
                ActionView::Read { link, peer: info },
            ],
        }
    }
}

/// A link is turned away, with a reason.
pub open spec fn rejected(link: u64, reason: Seq<char>) -> Seq<ActionView> {
    seq![
        ActionView::Send { link, message: ControlView::Rejected { reason } },
        ActionView::Close { link },
    ]
}

/// `roster` with everyone in `peers` on it.
pub open spec fn enrolled(
    roster: Seq<(Seq<char>, PeerInfoView)>,
    peers: Seq<PeerInfoView>,
) -> Seq<(Seq<char>, PeerInfoView)>
    decreases peers.len(),
{
    if peers.len() == 0 {
        roster
    } else {
        put(enrolled(roster, peers.drop_last()), peers.last().id, peers.last())
    }
}

/// The name of the transport in use.
pub open spec fn transport_name(n: NodeView) -> Seq<char> {
    match n.kind {
        Some(k) => kind_text(k),
        None => "-"@,
    }
}

/// The host let us in: we have its link, know everyone else and call them.
pub open spec fn let_in(
    n: NodeView,
    link: u64,
    room: Seq<char>,
    host: PeerInfoView,
    peers: Seq<PeerInfoView>,
    fingerprint: Seq<char>,
    ts: i64,
) -> NodeStep {
    let known = NodeView { room, roster: enrolled(put(n.roster, host.id, host), peers), ..n };
    let kind = transport_name(n);
    let linked = attached(
        noted(known, ts, "Joined room "@ + room + " over "@ + kind),
        host,
        link,
        fingerprint,
        ts,
    );
    NodeStep {
        node: linked.node,
        actions: linked.actions + seq![
            ActionView::Emit(EventView::Joined { room, transport: kind }),
        ] + Seq::new(peers.len(), |i: int| ActionView::Dial { peer: peers[i] }),
    }
}

/// A room that closes before we were in it.
pub open spec fn closed_before(n: NodeView, first: Seq<ActionView>, reason: Seq<char>) -> NodeStep {
    let down = shut_down(n);
    NodeStep {
        node: down.node,
        actions: first + seq![ActionView::Emit(EventView::RoomClosed(reason))] + down.actions,
    }
}

/// What the host's first message does to a node that asked to join.
pub open spec fn answered_by_host(
    n: NodeView,
    link: u64,
    reply: InboundView,
    fingerprint: Seq<char>,
    ts: i64,
) -> NodeStep {
    let close = seq![ActionView::Close { link }];
    match reply {
        InboundView::Message(ControlView::Welcome { room, host, peers }) => let_in(
            n,
            link,
            room,
            host,
            peers,
            fingerprint,
            ts,
        ),
        InboundView::Message(ControlView::Rejected { reason }) => closed_before(n, close, reason),
        InboundView::Malformed(e) => closed_before(
            n,
            close,
            "bad reply from the host: "@ + e.message(),
        ),
        _ => closed_before(
            n,
            close,
            "the host sent an unexpected reply - version mismatch?"@,
        ),
    }
}

/// What the reply to our mesh call does: a link, or the reason why there is
/// none.
pub open spec fn answered_by_peer(
    n: NodeView,
    link: u64,
    reply: InboundView,
    fingerprint: Seq<char>,
    ts: i64,
) -> (NodeStep, Result<(), ErrorView>) {
    let closed = NodeStep { node: n, actions: seq![ActionView::Close { link }] };
    match reply {
        InboundView::Message(ControlView::MeshAck { peer }) => (
            attached(n, peer, link, fingerprint, ts),
            Ok(()),
        ),
        InboundView::Message(ControlView::Rejected { reason }) => (
            closed,
            Err(ErrorView::Closed(reason)),
        ),
        InboundView::Malformed(e) => (NodeStep { node: n, actions: Seq::empty() }, Err(e)),
        _ => (closed, Err(ErrorView::Protocol("unexpected reply to mesh hello"@))),
    }
}

// --- inbound calls -----------------------------------------------------------------------

/// Who a connection attempt is counted against: the label of the stream
/// without its port.
pub open spec fn source_of(label: Seq<char>) -> Seq<char> {
    let colon = last_at(label, ':');
    if colon < 0 {
        label
    } else {
        label.take(colon)
    }
}

/// A connection attempt is counted, and dropped if there were too many.
pub open spec fn called(n: NodeView, label: Seq<char>, link: u64, now: u64) -> NodeStep {
    let source = source_of(label);
    NodeStep {
        node: NodeView { limiter: attempted(n.limiter, source, now), ..n },
        actions: if allowed(n.limiter, source, now) {
            Seq::empty()
        } else {
            seq![
                ActionView::Emit(
                    EventView::Status(
                        "ignored a connection attempt from "@ + source + " (too many attempts)"@,
                    ),
                ),
                ActionView::Close { link },
            ]
        },
    }
}

/// Whether the room has stopped taking joiners.
pub open spec fn expired(n: NodeView, now: u64) -> bool {
    match n.open_until {
        Some(t) => now > t,
        None => false,
    }
}

/// Why a request to join is refused, if it is.
pub open spec fn hello_refusal(
    n: NodeView,
    version: u32,
    room: Seq<char>,
    peer: PeerInfoView,
    now: u64,
) -> Option<Seq<char>> {
    if version != PROTOCOL_VERSION {
        Some(
            "the host runs protocol v"@ + dec(PROTOCOL_VERSION as nat) + ", you run v"@ + dec(
                version as nat,
            ),
        )
    } else if n.role != Some(Role::Host) {
        Some("this peer is not the host of that room"@)
    } else if canonical(room) != canonical(n.room) {
        Some("that room code does not match this room"@)
    } else if expired(n, now) {
        Some("this room code has expired - ask the host to reopen joining"@)
    } else if has_key(n.roster, peer.id) || n.me.id == peer.id {
        Some("a peer with that id is already in the room"@)
    } else {
        None
    }
}

/// Someone asks the host to be let in: the request is parked until the
/// operator decides, and until then they are connected to nobody.
pub open spec fn asked(
    n: NodeView,
    link: u64,
    version: u32,
    room: Seq<char>,
    peer: PeerInfoView,
    source: Seq<char>,
    fingerprint: Seq<char>,
    now: u64,
) -> NodeStep {
    match hello_refusal(n, version, room, peer, now) {
        Some(reason) => NodeStep { node: n, actions: rejected(link, reason) },
        None => {
            let name = sane_name(peer.name);
            let req = dec(n.req_seq as nat);
            NodeStep {
                node: NodeView {
                    req_seq: n.req_seq.wrapping_add(1),
                    pending: put(
                        n.pending,
                        req,
                        PendingView { info: PeerInfoView { name, ..peer }, link },
                    ),
                    ..n
                },
                actions: seq![
                    ActionView::Emit(
                        EventView::JoinRequest {
                            req,
                            name,
                            addr: if peer.addr.len() == 0 {
                                source
                            } else {
                                peer.addr
                            },
                            fingerprint,
                        },
                    ),
                ],
            }
        },
    }
}

/// Why a mesh call is refused at once, if it is.
pub open spec fn mesh_refusal(n: NodeView, version: u32, room: Seq<char>) -> Option<Seq<char>> {
    if version != PROTOCOL_VERSION {
        Some("protocol version mismatch"@)
    } else if canonical(room) != canonical(n.room) {
        Some("that room code does not match this room"@)
    } else {
        None
    }
}

/// What becomes of a mesh call that is held.
#[verifier::ext_equal]
pub enum HeldView {
    /// Look again later.
    Wait,
    /// Turn it away, for this reason.
    Refuse(Seq<char>),
    /// Acknowledge it.
    Welcome(ControlView),
}

/// A mesh call from `id` is held until the host has announced it or the
/// deadline is over.
pub open spec fn held(n: NodeView, id: Seq<char>, now: u64, deadline: u64) -> HeldView {
    if !has_key(n.roster, id) {
        if now >= deadline {
            HeldView::Refuse(
                "you are not on this room's approved list (ask the host to approve you first)"@,
            )
        } else {
            HeldView::Wait
        }
    } else if has_key(n.peers, id) {
        HeldView::Refuse("already linked to that peer"@)
    } else {
        HeldView::Welcome(ControlView::MeshAck { peer: n.me })
    }
}

// --- approval ----------------------------------------------------------------------------

pub open spec fn not_pending() -> ErrorView {
    ErrorView::Protocol("that join request is no longer pending"@)
}

/// The request of `p` is declined.
pub open spec fn declined(n: NodeView, req: Seq<char>, p: PendingView, ts: i64) -> NodeStep {
    NodeStep {
        node: noted(
            NodeView { pending: without(n.pending, req), ..n },
            ts,
            "Declined a join request from "@ + p.info.name,
        ),
        actions: rejected(p.link, "the host declined your request to join"@) + seq![
            ActionView::Emit(EventView::System("Declined "@ + p.info.name + "'s request"@)),
            ActionView::Emit(EventView::JoinResolved { req, accepted: false }),
        ],
    }
}

/// The same message goes to everyone; a failure is reported.
pub open spec fn told(
    peers: Seq<(Seq<char>, PeerView)>,
    message: ControlView,
    lead: Seq<char>,
    tail: Seq<char>,
) -> Seq<ActionView> {
    Seq::new(
        peers.len(),
        |i: int|
            ActionView::Tell {
                link: peers[i].1.link,
                message,
                trouble: lead + peers[i].1.info.name + tail,
            },
    )
}

/// The request of `p` is accepted: everyone in the room is told first, so that
/// they take the newcomer's calls.
pub open spec fn accepted(n: NodeView, req: Seq<char>, p: PendingView) -> NodeStep {
    NodeStep {
        node: NodeView {
            pending: without(n.pending, req),
            roster: put(n.roster, p.info.id, p.info),
            ..n
        },
        actions: told(
            n.peers,
            ControlView::PeerJoined { peer: p.info },
            "could not tell "@,
            " about the new peer"@,
        ),
    }
}

/// What the newcomer is sent once everyone knows.
pub open spec fn welcome(n: NodeView) -> ControlView {
    ControlView::Welcome { room: n.room, host: n.me, peers: peer_infos(n.peers) }
}

/// The newcomer has its welcome: the request is settled and the link is there.
pub open spec fn settled(
    n: NodeView,
    req: Seq<char>,
    info: PeerInfoView,
    link: u64,
    fingerprint: Seq<char>,
    ts: i64,
) -> NodeStep {
    let linked = attached(n, info, link, fingerprint, ts);
    NodeStep {
        node: linked.node,
        actions: seq![ActionView::Emit(EventView::JoinResolved { req, accepted: true })]
            + linked.actions,
    }
}

// --- running links -----------------------------------------------------------------------

/// The same message goes to everyone; nothing follows from a failure.
pub open spec fn sent_to(peers: Seq<(Seq<char>, PeerView)>, message: ControlView) -> Seq<
    ActionView,
> {
    Seq::new(peers.len(), |i: int| ActionView::Send { link: peers[i].1.link, message })
}

/// A peer is gone: its link is closed, what was in flight with it ends, and
/// the host tells everyone else.
pub open spec fn gone(
    n: NodeView,
    info: PeerInfoView,
    link: u64,
    reason: Seq<char>,
    ts: i64,
) -> NodeStep {
    if !has_key(n.peers, info.id) {
        NodeStep { node: n, actions: Seq::empty() }
    } else {
        let host = n.role == Some(Role::Host);
        let rest = without(n.peers, info.id);
        let files = cancelled(n.transfers, info.id);
        NodeStep {
            node: noted(
                NodeView {
                    peers: rest,
                    roster: if host {
                        without(n.roster, info.id)
                    } else {
                        n.roster
                    },
                    transfers: files.transfers,
                    ..n
                },
                ts,
                info.name + " disconnected ("@ + reason + ")"@,
            ),
            actions: seq![ActionView::Close { link }] + files.actions + (if host {
                sent_to(rest, ControlView::PeerLeft { id: info.id, name: info.name })
            } else {
                Seq::empty()
            }) + seq![
                ActionView::Emit(
                    EventView::Peer {
                        id: info.id,
                        name: info.name,
                        state: PeerState::Disconnected,
                        detail: reason,
                    },
                ),
            ],
        }
    }
}

/// Whether a message belongs to a file transfer.
pub open spec fn about_a_file(c: ControlView) -> bool {
    c is FileOffer || c is FileAccept || c is FileDecline || c is FileDone || c is FileAbort
}

/// What a message from a connected peer does.
pub open spec fn heard(
    n: NodeView,
    from: PeerInfoView,
    link: u64,
    c: ControlView,
    ts: i64,
) -> NodeStep {
    match c {
        ControlView::Chat { id: _, from: author, name, ts: sent, body } => NodeStep {
            node: NodeView {
                history: n.history.push(
                    RecordView {
                        ts: sent,
                        sender: sane_name(name),
                        sender_id: author,
                        body,
                        kind: RecordKind::Message,
                    },
                ),
                ..n
            },
            actions: seq![
                ActionView::Emit(
                    EventView::Chat {
                        from: author,
                        name: sane_name(name),
                        ts: sent,
                        body,
                        mine: false,
                    },
                ),
            ],
        },
        ControlView::PeerJoined { peer } => NodeStep {
            node: NodeView { roster: put(n.roster, peer.id, peer), ..n },
            actions: seq![
                ActionView::Emit(
                    EventView::System(
                        peer.name + " was approved by the host and will connect directly"@,
                    ),
                ),
            ],
        },
        ControlView::PeerLeft { id, name } => NodeStep {
            node: NodeView { roster: without(n.roster, id), ..n },
            actions: seq![ActionView::Emit(EventView::System(name + " left the room"@))],
        },
        ControlView::Bye => gone(n, from, link, "the peer closed the room"@, ts),
        ControlView::Rejected { reason } => NodeStep {
            node: n,
            actions: seq![ActionView::Emit(EventView::Error(from.name + ": "@ + reason))],
        },
        _ => if about_a_file(c) {
            let files = file_control(n.transfers, from, c, ts);
            NodeStep {
                node: NodeView {
                    transfers: files.transfers,
                    history: n.history + files.records,
                    ..n
                },
                actions: files.actions,
            }
        } else {
            NodeStep { node: n, actions: Seq::empty() }
        },
    }
}

/// Why a link that failed with `e` is gone.
pub open spec fn disconnect_text(e: ErrorView) -> Seq<char> {
    match e {
        ErrorView::Io(io) if io.kind == IoErrorKind::UnexpectedEof =>
            "the peer closed the connection"@,
        other => other.message(),
    }
}

// --- chat ----------------------------------------------------------------------------------

/// A chat line of ours, and who it goes to: everyone we are connected to, each
/// on their own link.
pub open spec fn said(n: NodeView, body: Seq<char>, id: Seq<char>, ts: i64) -> NodeStep {
    let message = ControlView::Chat { id, from: n.me.id, name: n.me.name, ts, body };
    NodeStep {
        node: NodeView {
            history: n.history.push(
                RecordView {
                    ts,
                    sender: n.me.name,
                    sender_id: n.me.id,
                    body,
                    kind: RecordKind::Message,
                },
            ),
            ..n
        },
        actions: seq![
            ActionView::Emit(
                EventView::Chat { from: n.me.id, name: n.me.name, ts, body, mine: true },
            ),
        ] + (if n.peers.len() == 0 {
            seq![
                ActionView::Emit(
                    EventView::System(
                        "nobody is connected yet - that message was not delivered"@,
                    ),
                ),
            ]
        } else {
            Seq::empty()
        }) + told(n.peers, message, "could not deliver to "@, ""@),
    }
}

/// What sending `text` comes to: nothing for a blank line, an error for one
/// whose message does not fit into one frame, and otherwise the line without
/// the space around it.
pub open spec fn chat_body(
    me: PeerInfoView,
    text: Seq<char>,
    id: Seq<char>,
    ts: i64,
) -> Result<Option<Seq<char>>, ErrorView> {
    let body = trimmed(text);
    if body.len() == 0 {
        Ok(None)
    } else if chat_len(id, me.id, me.name, ts, body) > MAX_PLAINTEXT {
        Err(ErrorView::Config("that message is too long"@))
    } else {
        Ok(Some(body))
    }
}

// --- every step leaves the node sound ------------------------------------------------------

proof fn put_peer_files(peers: Seq<(Seq<char>, PeerView)>, p: PeerView)
    requires
        distinct(peers),
        peers_filed(peers),
        p.state == PeerState::Connected,
    ensures
        distinct(put(peers, p.info.id, p)),
        peers_filed(put(peers, p.info.id, p)),
{
    put_is_found(peers, p.info.id, p);
    row_of_is_row(peers, p.info.id);
    let q = put(peers, p.info.id, p);
    assert forall|i: int| 0 <= i < q.len() implies (#[trigger] q[i]).0 == q[i].1.info.id
        && q[i].1.state == PeerState::Connected by {
        if i < peers.len() {
            assert(peers[i].0 == peers[i].1.info.id);
        }
    }
}

proof fn drop_peer_files(peers: Seq<(Seq<char>, PeerView)>, id: Seq<char>)
    requires
        distinct(peers),
        peers_filed(peers),
    ensures
        distinct(without(peers, id)),
        peers_filed(without(peers, id)),
{
    without_is_gone(peers, id);
    row_of_is_row(peers, id);
    let at = row_of(peers, id);
    let q = without(peers, id);
    assert forall|i: int| 0 <= i < q.len() implies (#[trigger] q[i]).0 == q[i].1.info.id
        && q[i].1.state == PeerState::Connected by {
        if at < 0 || i < at {
            assert(peers[i].0 == peers[i].1.info.id);
        } else {
            assert(peers[i + 1].0 == peers[i + 1].1.info.id);
        }
    }
}

proof fn put_roster_files(roster: Seq<(Seq<char>, PeerInfoView)>, p: PeerInfoView)
    requires
        distinct(roster),
        roster_filed(roster),
    ensures
        distinct(put(roster, p.id, p)),
        roster_filed(put(roster, p.id, p)),
{
    put_is_found(roster, p.id, p);
    row_of_is_row(roster, p.id);
    let q = put(roster, p.id, p);
    assert forall|i: int| 0 <= i < q.len() implies (#[trigger] q[i]).0 == q[i].1.id by {
        if i < roster.len() {
            assert(roster[i].0 == roster[i].1.id);
        }
    }
}

proof fn drop_roster_files(roster: Seq<(Seq<char>, PeerInfoView)>, id: Seq<char>)
    requires
        distinct(roster),
        roster_filed(roster),
    ensures
        distinct(without(roster, id)),
        roster_filed(without(roster, id)),
{
    without_is_gone(roster, id);
    row_of_is_row(roster, id);
    let at = row_of(roster, id);
    let q = without(roster, id);
    assert forall|i: int| 0 <= i < q.len() implies (#[trigger] q[i]).0 == q[i].1.id by {
        if at < 0 || i < at {
            assert(roster[i].0 == roster[i].1.id);
        } else {
            assert(roster[i + 1].0 == roster[i + 1].1.id);
        }
    }
}

proof fn enrolled_files(roster: Seq<(Seq<char>, PeerInfoView)>, peers: Seq<PeerInfoView>)
    requires
        distinct(roster),
        roster_filed(roster),
    ensures
        distinct(enrolled(roster, peers)),
        roster_filed(enrolled(roster, peers)),
    decreases peers.len(),
{
    if peers.len() > 0 {
        enrolled_files(roster, peers.drop_last());
        put_roster_files(enrolled(roster, peers.drop_last()), peers.last());
    }
}

/// A link that comes up leaves the node sound.
pub proof fn attached_is_sound(
    n: NodeView,
    info: PeerInfoView,
    link: u64,
    fingerprint: Seq<char>,
    ts: i64,
)
    requires
        sound(n),
    ensures
        sound(attached(n, info, link, fingerprint, ts).node),
{
    put_roster_files(n.roster, info);
    put_peer_files(n.peers, PeerView { info, link, state: PeerState::Connected });
}

/// Opening, joining, dropping and leaving a room leave the node sound.
pub proof fn rooms_are_sound(
    n: NodeView,
    kind: TransportKind,
    dial: Seq<char>,
    code: Seq<char>,
    ttl: u64,
    at: Moment,
)
    requires
        sound(n),
    ensures
        sound(hosting(n, kind, dial, code, ttl, at).node),
        sound(joining(n, kind, code, dial).node),
        sound(shut_down(n).node),
        sound(leaving(n, at.ts).node),
{
}

/// The host's answer leaves the node sound.
pub proof fn host_answers_are_sound(
    n: NodeView,
    link: u64,
    reply: InboundView,
    fingerprint: Seq<char>,
    ts: i64,
)
    requires
        sound(n),
    ensures
        sound(answered_by_host(n, link, reply, fingerprint, ts).node),
{
    if let InboundView::Message(ControlView::Welcome { room, host, peers }) = reply {
        put_roster_files(n.roster, host);
        enrolled_files(put(n.roster, host.id, host), peers);
        let known = NodeView { room, roster: enrolled(put(n.roster, host.id, host), peers), ..n };
        attached_is_sound(
            noted(known, ts, "Joined room "@ + room + " over "@ + transport_name(n)),
            host,
            link,
            fingerprint,
            ts,
        );
    }
}

/// Another peer's answer leaves the node sound.
pub proof fn peer_answers_are_sound(
    n: NodeView,
    link: u64,
    reply: InboundView,
    fingerprint: Seq<char>,
    ts: i64,
)
    requires
        sound(n),
    ensures
        sound(answered_by_peer(n, link, reply, fingerprint, ts).0.node),
{
    if let InboundView::Message(ControlView::MeshAck { peer }) = reply {
        attached_is_sound(n, peer, link, fingerprint, ts);
    }
}

proof fn next_number_is_free(pending: Seq<(Seq<char>, PendingView)>, next: u64)
    requires
        numbered(pending, next),
    ensures
        !has_key(pending, dec(next as nat)),
{
    let req = dec(next as nat);
    row_of_is_row(pending, req);
    let at = row_of(pending, req);
    if at >= 0 {
        assert(given_out(pending[at].0, next));
        let k = choose|k: u64| k < next && pending[at].0 == #[trigger] dec(k as nat);
        dec_value_of_dec(k as nat);
        dec_value_of_dec(next as nat);
    }
}

proof fn put_request_numbers(pending: Seq<(Seq<char>, PendingView)>, next: u64, p: PendingView)
    requires
        numbered(pending, next),
        next < u64::MAX,
    ensures
        numbered(put(pending, dec(next as nat), p), (next + 1) as u64),
{
    next_number_is_free(pending, next);
    let q = put(pending, dec(next as nat), p);
    assert forall|i: int| 0 <= i < q.len() implies given_out(
        (#[trigger] q[i]).0,
        (next + 1) as u64,
    ) by {
        if i < pending.len() {
            assert(given_out(pending[i].0, next));
            let k = choose|k: u64| k < next && pending[i].0 == #[trigger] dec(k as nat);
            assert(k < next + 1 && q[i].0 == dec(k as nat));
        } else {
            assert(next < next + 1 && q[i].0 == dec(next as nat));
        }
    }
}

proof fn drop_request_numbers(pending: Seq<(Seq<char>, PendingView)>, next: u64, req: Seq<char>)
    requires
        numbered(pending, next),
    ensures
        numbered(without(pending, req), next),
{
    row_of_is_row(pending, req);
    let at = row_of(pending, req);
    let q = without(pending, req);
    assert forall|i: int| 0 <= i < q.len() implies given_out((#[trigger] q[i]).0, next) by {
        if at < 0 || i < at {
            assert(given_out(pending[i].0, next));
        } else {
            assert(given_out(pending[i + 1].0, next));
        }
    }
}

/// A request that is parked gets a number of its own: no parked request is
/// displaced by it, and it stands behind all of them.
pub proof fn request_numbers_are_fresh(
    n: NodeView,
    link: u64,
    version: u32,
    room: Seq<char>,
    peer: PeerInfoView,
    source: Seq<char>,
    fingerprint: Seq<char>,
    now: u64,
)
    requires
        sound(n),
        hello_refusal(n, version, room, peer, now) is None,
    ensures
        !has_key(n.pending, dec(n.req_seq as nat)),
        asked(n, link, version, room, peer, source, fingerprint, now).node.pending
            == n.pending.push(
            (
                dec(n.req_seq as nat),
                PendingView { info: PeerInfoView { name: sane_name(peer.name), ..peer }, link },
            ),
        ),
{
    next_number_is_free(n.pending, n.req_seq);
}

/// Requests and the host's decisions leave the node sound.
pub proof fn requests_are_sound(
    n: NodeView,
    link: u64,
    version: u32,
    room: Seq<char>,
    peer: PeerInfoView,
    source: Seq<char>,
    fingerprint: Seq<char>,
    now: u64,
    req: Seq<char>,
    p: PendingView,
    ts: i64,
)
    requires
        sound(n),
    ensures
        n.req_seq < u64::MAX ==> sound(
            asked(n, link, version, room, peer, source, fingerprint, now).node,
        ),
        sound(called(n, source, link, now).node),
        sound(declined(n, req, p, ts).node),
        sound(accepted(n, req, p).node),
        sound(settled(n, req, peer, link, fingerprint, ts).node),
{
    put_is_found(
        n.pending,
        dec(n.req_seq as nat),
        PendingView { info: PeerInfoView { name: sane_name(peer.name), ..peer }, link },
    );
    if n.req_seq < u64::MAX {
        put_request_numbers(
            n.pending,
            n.req_seq,
            PendingView { info: PeerInfoView { name: sane_name(peer.name), ..peer }, link },
        );
    }
    without_is_gone(n.pending, req);
    drop_request_numbers(n.pending, n.req_seq, req);
    put_roster_files(n.roster, p.info);
    attached_is_sound(n, peer, link, fingerprint, ts);
}

/// Whatever a connected peer says, and whenever it goes, the node stays sound.
pub proof fn messages_are_sound(
    n: NodeView,
    from: PeerInfoView,
    link: u64,
    c: ControlView,
    reason: Seq<char>,
    ts: i64,
)
    requires
        sound(n),
    ensures
        sound(heard(n, from, link, c, ts).node),
        sound(gone(n, from, link, reason, ts).node),
{
    drop_peer_files(n.peers, from.id);
    drop_roster_files(n.roster, from.id);
    chunks_keep_order(n.transfers, from.id, Seq::empty(), 0, Seq::empty(), 0, link, reason);
    messages_keep_order(n.transfers, from, c, ts);
    match c {
        ControlView::PeerJoined { peer } => {
            put_roster_files(n.roster, peer);
        },
        ControlView::PeerLeft { id, name } => {
            drop_roster_files(n.roster, id);
        },
        _ => {},
    }
}

// --- lists of actions ----------------------------------------------------------------------

/// Everyone is sent the same message; a failure is reported.
fn tell_all(
    out: &mut Vec<Action>,
    peers: &Table<String, Peer>,
    message: &Control,
    lead: &str,
    tail: &str,
)
    ensures
        each(final(out)@) == each(old(out)@) + told(peers@, message@, lead@, tail@),
{
    let ghost all = told(peers@, message@, lead@, tail@);
    let ghost start = each(out@);
    let mut i: usize = 0;
    assert(start + all.take(0) =~= start);
    while i < peers.len()
        invariant
            i <= peers@.len(),
            all == told(peers@, message@, lead@, tail@),
            each(out@) == start + all.take(i as int),
        decreases peers@.len() - i,
    {
        let ghost before = out@;
        let p = peers.at(i);
        let a = Action::Tell {
            link: p.link,
            message: message.dup(),
            trouble: cat3(lead, &p.info.name, tail),
        };
        out.push(a);
        proof {
            each_push(before, a);
            assert((start + all.take(i as int)).push(all[i as int]) =~= start + all.take(i + 1));
        }
        i += 1;
    }
    assert(all.take(i as int) =~= all);
}

/// Everyone is sent the same message.
fn send_all(out: &mut Vec<Action>, peers: &Table<String, Peer>, message: &Control)
    ensures
        each(final(out)@) == each(old(out)@) + sent_to(peers@, message@),
{
    let ghost all = sent_to(peers@, message@);
    let ghost start = each(out@);
    let mut i: usize = 0;
    assert(start + all.take(0) =~= start);
    while i < peers.len()
        invariant
            i <= peers@.len(),
            all == sent_to(peers@, message@),
            each(out@) == start + all.take(i as int),
        decreases peers@.len() - i,
    {
        let ghost before = out@;
        let a = peers.at(i).send(message.dup());
        out.push(a);
        proof {
            each_push(before, a);
            assert((start + all.take(i as int)).push(all[i as int]) =~= start + all.take(i + 1));
        }
        i += 1;
    }
    assert(all.take(i as int) =~= all);
}

/// Every link is closed.
fn close_all(out: &mut Vec<Action>, peers: &Table<String, Peer>)
    ensures
        each(final(out)@) == each(old(out)@) + closes(peers@),
{
    let ghost all = closes(peers@);
    let ghost start = each(out@);
    let mut i: usize = 0;
    assert(start + all.take(0) =~= start);
    while i < peers.len()
        invariant
            i <= peers@.len(),
            all == closes(peers@),
            each(out@) == start + all.take(i as int),
        decreases peers@.len() - i,
    {
        let ghost before = out@;
        let a = Action::Close { link: peers.at(i).link };
        out.push(a);
        proof {
            each_push(before, a);
            assert((start + all.take(i as int)).push(all[i as int]) =~= start + all.take(i + 1));
        }
        i += 1;
    }
    assert(all.take(i as int) =~= all);
}

/// Everyone is told goodbye, and their links are closed.
fn say_goodbye(out: &mut Vec<Action>, peers: &Table<String, Peer>)
    ensures
        each(final(out)@) == each(old(out)@) + goodbyes(peers@),
{
    let ghost all = goodbyes(peers@);
    let ghost start = each(out@);
    let mut i: usize = 0;
    assert(start + all.take(0) =~= start);
    while i < peers.len()
        invariant
            i <= peers@.len(),
            all == goodbyes(peers@),
            each(out@) == start + all.take(2 * i),
        decreases peers@.len() - i,
    {
        let ghost before = out@;
        let p = peers.at(i);
        let a = p.send(Control::Bye);
        let b = Action::Close { link: p.link };
        out.push(a);
        out.push(b);
        proof {
            each_push(before, a);
            each_push(before.push(a), b);
            assert((2 * i) % 2 == 0 && (2 * i + 1) % 2 == 1);
            assert((2 * i) / 2 == i && (2 * i + 1) / 2 == i);
            assert((start + all.take(2 * i)).push(all[2 * i]).push(all[2 * i + 1]) =~= start
                + all.take(2 * (i + 1)));
        }
        i += 1;
    }
    assert(all.take(2 * i) =~= all);
}

/// One more action.
fn act(out: &mut Vec<Action>, a: Action)
    ensures
        each(final(out)@) == each(old(out)@).push(a@),
{
    let ghost before = out@;
    out.push(a);
    proof {
        each_push(before, a);
    }
}

/// More actions.
fn act_all(out: &mut Vec<Action>, more: Vec<Action>)
    ensures
        each(final(out)@) == each(old(out)@) + each(more@),
{
    let ghost before = out@;
    let ghost added = more@;
    let mut more = more;
    out.append(&mut more);
    proof {
        each_add(before, added);
    }
}

fn no_actions() -> (r: Vec<Action>)
    ensures
        each(r@) == Seq::<ActionView>::empty(),
{
    let r: Vec<Action> = Vec::new();
    assert(each(r@) =~= Seq::<ActionView>::empty());
    r
}

/// A link is turned away.
fn reject(link: u64, reason: &str) -> (r: Vec<Action>)
    ensures
        each(r@) == rejected(link, reason@),
{
    let mut out = no_actions();
    act(&mut out, Action::Send { link, message: Control::Rejected { reason: reason.to_owned() } });
    act(&mut out, Action::Close { link });
    assert(each(out@) =~= rejected(link, reason@));
    out
}

// --- the node --------------------------------------------------------------------------------

impl Node {
    /// A node that is in no room.
    pub fn new(display_name: &str) -> (r: Result<Node, Error>)
        ensures
            r matches Ok(n) && sound(n@) && fresh(n@, sane_name(display_name@)) && exists|
                id: String,
            | #[trigger]
                call_ensures(new_id, (), id) && n@.me.id == id@ && call_ensures(
                    Clock::start,
                    (),
                    n@.clock,
                ),
    {
        let identity = match Identity::generate() {
            Ok(i) => i,
            Err(e) => {
                return Err(e);
            },
        };
        let id = new_id();
        assert(call_ensures(new_id, (), id));
        let clock = Clock::start();
        assert(call_ensures(Clock::start, (), clock));
        let me = PeerInfo {
            id,
            name: sanitize_name(display_name),
            addr: String::new(),
            fingerprint: identity.fingerprint(),
        };
        let n = Node {
            identity,
            role: None,
            kind: None,
            room: String::new(),
            me,
            listening: false,
            peers: Table::new(),
            roster: Table::new(),
            pending: Table::new(),
            history: Vec::new(),
            open_until: None,
            limiter: RateLimiter::default_policy(),
            transfers: Transfers::new(),
            running: false,
            req_seq: 1,
            clock,
        };
        assert(n@.history =~= Seq::<RecordView>::empty());
        assert(n@.room =~= Seq::<char>::empty());
        assert(n@.me.addr =~= Seq::<char>::empty());
        proof {
            sane_names_stay(display_name@);
        }
        Ok(n)
    }

    /// What time it is for this node.
    pub fn moment(&self) -> (r: Moment)
        ensures
            call_ensures(Clock::now, (&self@.clock,), r.now),
            call_ensures(now_ts, (), r.ts),
    {
        Moment { now: self.clock.now(), ts: now_ts() }
    }

    // --- small accessors ---

    /// Whether there is a number left for one more request to join.
    pub fn can_number(&self) -> (r: bool)
        ensures
            r == (self@.req_seq < u64::MAX),
    {
        self.req_seq < u64::MAX
    }

    pub fn identity(&self) -> (r: &Identity)
        ensures
            r.private@ == self@.private,
            r.public@ == self@.public,
    {
        &self.identity
    }

    pub fn me(&self) -> (r: PeerInfo)
        ensures
            r@ == self@.me,
    {
        self.me.dup()
    }

    pub fn my_id(&self) -> (r: PeerId)
        ensures
            r@ == self@.me.id,
    {
        self.me.id.clone()
    }

    pub fn room(&self) -> (r: String)
        ensures
            r@ == self@.room,
    {
        self.room.clone()
    }

    pub fn kind(&self) -> (r: Option<TransportKind>)
        ensures
            r == self@.kind,
    {
        self.kind
    }

    pub fn role(&self) -> (r: Option<Role>)
        ensures
            r == self@.role,
    {
        self.role
    }

    pub fn is_host(&self) -> (r: bool)
        ensures
            r == (self@.role == Some(Role::Host)),
    {
        match self.role {
            Some(Role::Host) => true,
            _ => false,
        }
    }

    pub fn is_active(&self) -> (r: bool)
        ensures
            r == self@.running,
    {
        self.running
    }

    pub fn fingerprint(&self) -> (r: String)
        ensures
            r@ == fingerprint_text(sha256(self@.public)),
    {
        self.identity.fingerprint()
    }

    pub fn set_display_name(&mut self, name: &str)
        requires
            sound(old(self)@),
        ensures
            final(self)@ == (NodeView {
                me: PeerInfoView { name: sane_name(name@), ..old(self)@.me },
                ..old(self)@
            }),
            sound(final(self)@),
    {
        self.me.name = sanitize_name(name);
        proof {
            sane_names_stay(name@);
        }
    }

    pub fn peer_names(&self) -> (r: Vec<String>)
        ensures
            each(r@) == Seq::new(self@.peers.len(), |i: int| self@.peers[i].1.info.name),
    {
        let mut out: Vec<String> = Vec::new();
        let ghost all = Seq::new(self@.peers.len(), |i: int| self@.peers[i].1.info.name);
        let mut i: usize = 0;
        while i < self.peers.len()
            invariant
                i <= self@.peers.len(),
                all == Seq::new(self@.peers.len(), |i: int| self@.peers[i].1.info.name),
                each(out@) == all.take(i as int),
            decreases self@.peers.len() - i,
        {
            let ghost before = out@;
            let name = self.peers.at(i).info.name.clone();
            out.push(name);
            proof {
                each_push(before, name);
                assert(all.take(i + 1) =~= all.take(i as int).push(all[i as int]));
            }
            i += 1;
        }
        assert(all.take(i as int) =~= all);
        out
    }

    pub fn connected_peers(&self) -> (r: Vec<Peer>)
        ensures
            each(r@) == values(self@.peers),
    {
        let mut out: Vec<Peer> = Vec::new();
        let ghost all = values(self@.peers);
        let mut i: usize = 0;
        while i < self.peers.len()
            invariant
                i <= self@.peers.len(),
                all == values(self@.peers),
                each(out@) == all.take(i as int),
            decreases self@.peers.len() - i,
        {
            let ghost before = out@;
            let p = self.peers.at(i).dup();
            out.push(p);
            proof {
                each_push(before, p);
                assert(all.take(i + 1) =~= all.take(i as int).push(all[i as int]));
            }
            i += 1;
        }
        assert(all.take(i as int) =~= all);
        out
    }

    pub fn peer_by_id(&self, id: &str) -> (r: Option<Peer>)
        ensures
            match r {
                Some(p) => lookup(self@.peers, id@) == Some(p@),
                None => lookup(self@.peers, id@) is None,
            },
    {
        let key = id.to_owned();
        match self.peers.get(&key) {
            Some(p) => Some(p.dup()),
            None => None,
        }
    }

    fn record(&mut self, r: ChatRecord)
        ensures
            final(self)@ == (NodeView { history: old(self)@.history.push(r@), ..old(self)@ }),
    {
        let ghost before = self.history@;
        self.history.push(r);
        proof {
            each_push(before, r);
        }
    }

    fn record_all(&mut self, more: Vec<ChatRecord>)
        ensures
            final(self)@ == (NodeView {
                history: old(self)@.history + each(more@),
                ..old(self)@
            }),
    {
        let ghost before = self.history@;
        let ghost added = more@;
        let mut more = more;
        self.history.append(&mut more);
        proof {
            each_add(before, added);
        }
    }

    pub fn history(&self) -> (r: Vec<ChatRecord>)
        ensures
            each(r@) == self@.history,
    {
        dup_all(&self.history)
    }

    /// The name of the transport in use.
    pub fn transport(&self) -> (r: String)
        ensures
            r@ == transport_name(self@),
    {
        match self.kind {
            Some(k) => k.as_str().to_owned(),
            None => "-".to_owned(),
        }
    }

    /// The current session transcript as plain text.
    pub fn export_history(&self) -> (r: String)
        ensures
            exists|now: i64, exported: Seq<char>, times: Seq<Seq<char>>|
                call_ensures(now_ts, (), now) && #[trigger] full_time(now, exported)
                    && #[trigger] full_times(self@.history, times) && r@ == heading(
                    self@.room,
                    transport_name(self@),
                    exported,
                ) + record_lines(times, self@.history),
    {
        let kind = self.transport();
        let records = self.history.as_slice();
        let r = render_text(&self.room, &kind, records);
        assert(each(records@) == self@.history);
        r
    }

    pub fn ensure_idle(&self) -> (r: Result<(), Error>)
        ensures
            plain(r) == if self@.running {
                Err::<(), ErrorView>(busy())
            } else {
                Ok(())
            },
    {
        if self.running {
            return Err(Error::Config("you are already in a room - leave it first".to_owned()));
        }
        Ok(())
    }
}

/// A node that has just been made.
pub open spec fn fresh(n: NodeView, name: Seq<char>) -> bool {
    &&& n.me.name == name
    &&& n.me.addr.len() == 0
    &&& an_id(n.me.id)
    &&& n.role is None
    &&& n.kind is None
    &&& n.room.len() == 0
    &&& !n.listening
    &&& n.peers.len() == 0
    &&& n.roster.len() == 0
    &&& n.pending.len() == 0
    &&& n.history.len() == 0
    &&& n.open_until is None
    &&& n.limiter == default_limits()
    &&& n.transfers == no_transfers()
    &&& !n.running
    &&& n.req_seq == 1
}

// --- rooms -----------------------------------------------------------------------------------

impl Node {
    fn enter(
        &mut self,
        role: Role,
        kind: TransportKind,
        room: String,
        addr: &str,
        open_until: Option<u64>,
    )
        ensures
            final(self)@ == entering(old(self)@, role, kind, room@, addr@, open_until),
    {
        self.role = Some(role);
        self.kind = Some(kind);
        self.room = room;
        self.me.addr = addr.to_owned();
        self.listening = true;
        self.open_until = open_until;
        self.limiter = RateLimiter::default_policy();
        self.history.clear();
        self.roster.clear();
        self.peers.clear();
        self.pending.clear();
        self.running = true;
        assert(each(self.history@) =~= Seq::<RecordView>::empty());
        assert(self@ =~= entering(old(self)@, role, kind, room@, addr@, open_until));
    }

    /// Open a room on `kind`, listening at `dial`, for `ttl` nanoseconds, and
    /// return the shareable room code.
    pub fn host(&mut self, kind: TransportKind, dial: &str, ttl: u64, at: Moment) -> (r: Result<
        (String, Vec<Action>),
        Error,
    >)
        requires
            sound(old(self)@),
            at.now + ttl <= u64::MAX,
        ensures
            sound(final(self)@),
            match r {
                Ok((code, actions)) => {
                    &&& !old(self)@.running
                    &&& encoded(kind, dial@) == Ok::<Seq<char>, ErrorView>(code@)
                    &&& took(
                        final(self)@,
                        actions@,
                        hosting(old(self)@, kind, dial@, code@, ttl, at),
                    )
                },
                Err(e) => {
                    &&& final(self)@ == old(self)@
                    &&& if old(self)@.running {
                        e@ == busy()
                    } else {
                        encoded(kind, dial@) == Err::<Seq<char>, ErrorView>(e@)
                    }
                },
            },
    {
        if let Err(e) = self.ensure_idle() {
            return Err(e);
        }
        let code = match encode(kind, dial) {
            Ok(c) => c,
            Err(e) => {
                return Err(e);
            },
        };
        let ghost step = hosting(old(self)@, kind, dial@, code@, ttl, at);
        proof {
            rooms_are_sound(old(self)@, kind, dial@, code@, ttl, at);
        }
        self.enter(Role::Host, kind, code.clone(), dial, Some(at.now + ttl));
        let text = cat4("Room opened over ", kind.as_str(), " with code ", &code);
        self.record(ChatRecord::system(at.ts, &text));
        let mut out = no_actions();
        act(
            &mut out,
            Action::Emit(
                Event::RoomOpened {
                    code: code.clone(),
                    transport: kind.as_str().to_owned(),
                    dial: dial.to_owned(),
                    expires_secs: ttl / 1_000_000_000,
                },
            ),
        );
        assert(each(out@) =~= step.actions);
        Ok((code, out))
    }

    /// Re-open joining after the code expired (same address, same code).
    pub fn reopen_joining(&mut self, ttl: u64, at: Moment) -> (r: Result<Vec<Action>, Error>)
        requires
            sound(old(self)@),
            at.now + ttl <= u64::MAX,
        ensures
            sound(final(self)@),
            match r {
                Ok(actions) => {
                    &&& old(self)@.role == Some(Role::Host)
                    &&& took(final(self)@, actions@, reopened(old(self)@, ttl, at.now))
                },
                Err(e) => {
                    &&& old(self)@.role != Some(Role::Host)
                    &&& e@ == ErrorView::Config("only the host can reopen joining"@)
                    &&& final(self)@ == old(self)@
                },
            },
    {
        if !self.is_host() {
            return Err(Error::Config("only the host can reopen joining".to_owned()));
        }
        self.open_until = Some(at.now + ttl);
        self.limiter = RateLimiter::default_policy();
        let mut out = no_actions();
        act(
            &mut out,
            Action::Emit(Event::Status("The room is accepting joiners again".to_owned())),
        );
        assert(each(out@) =~= reopened(old(self)@, ttl, at.now).actions);
        Ok(out)
    }

    /// Where the host named by `code` is to be dialled.
    pub fn join_target(&self, kind: TransportKind, code: &str) -> (r: Result<String, Error>)
        ensures
            viewed(r) == join_address(self@, kind, code@),
    {
        if let Err(e) = self.ensure_idle() {
            return Err(e);
        }
        let (code_kind, dial) = match decode(code) {
            Ok(d) => d,
            Err(e) => {
                return Err(e);
            },
        };
        if code_kind != kind {
            return Err(
                Error::Config(
                    cat5(
                        "that room code is a ",
                        code_kind.as_str(),
                        " code - switch the connection mode to ",
                        code_kind.as_str(),
                        " and try again",
                    ),
                ),
            );
        }
        Ok(dial)
    }

    /// Set out to join the room, with our own inbound endpoint at `addr` so
    /// that later joiners can reach us directly. The message is what the host
    /// is sent first, once there is a link to it.
    pub fn join(&mut self, kind: TransportKind, code: &str, addr: &str) -> (r: Result<
        (Vec<Action>, Control),
        Error,
    >)
        requires
            sound(old(self)@),
        ensures
            sound(final(self)@),
            match (join_address(old(self)@, kind, code@), r) {
                (Ok(_), Ok((actions, hello))) => {
                    &&& took(final(self)@, actions@, joining(old(self)@, kind, code@, addr@))
                    &&& hello@ == (ControlView::Hello {
                        version: PROTOCOL_VERSION,
                        room: final(self)@.room,
                        peer: final(self)@.me,
                    })
                },
                (Err(x), Err(e)) => e@ == x && final(self)@ == old(self)@,
                _ => false,
            },
    {
        if let Err(e) = self.join_target(kind, code) {
            return Err(e);
        }
        let ghost step = joining(old(self)@, kind, code@, addr@);
        self.enter(Role::Joiner, kind, upper_text(&trim_text(code)), addr, None);
        let mut out = no_actions();
        act(
            &mut out,
            Action::Emit(
                Event::Status(cat3("Contacting the host over ", kind.as_str(), "...")),
            ),
        );
        assert(each(out@) =~= step.actions);
        proof {
            rooms_are_sound(old(self)@, kind, addr@, code@, 0, Moment { now: 0, ts: 0 });
        }
        let hello = Control::Hello {
            version: PROTOCOL_VERSION,
            room: self.room.clone(),
            peer: self.me.dup(),
        };
        Ok((out, hello))
    }

    /// What is said once the request is on its way.
    pub fn request_sent() -> (r: Event)
        ensures
            r@ == EventView::Status("Request sent - waiting for the host to approve it..."@),
    {
        Event::Status("Request sent - waiting for the host to approve it...".to_owned())
    }

    /// Drop out of the room without a word.
    pub fn shutdown_internal(&mut self) -> (r: Vec<Action>)
        requires
            sound(old(self)@),
        ensures
            sound(final(self)@),
            took(final(self)@, r@, shut_down(old(self)@)),
    {
        let ghost step = shut_down(old(self)@);
        let mut out = no_actions();
        close_all(&mut out, &self.peers);
        if self.listening {
            act(&mut out, Action::CloseListener);
        }
        self.running = false;
        self.peers.clear();
        self.roster.clear();
        self.listening = false;
        assert(each(out@) =~= step.actions);
        assert(self@ =~= step.node);
        out
    }

    /// Leave the room, now. The transcript stays in memory so it can still be
    /// exported afterwards.
    pub fn leave(&mut self) -> (r: Vec<Action>)
        requires
            sound(old(self)@),
        ensures
            sound(final(self)@),
            exists|ts: i64| #[trigger]
                call_ensures(now_ts, (), ts) && took(final(self)@, r@, leaving(old(self)@, ts)),
    {
        let ts: i64 = now_ts();
        assert(call_ensures(now_ts, (), ts));
        self.leave_at(ts)
    }

    /// Leave the room.
    pub fn leave_at(&mut self, ts: i64) -> (r: Vec<Action>)
        requires
            sound(old(self)@),
        ensures
            sound(final(self)@),
            took(final(self)@, r@, leaving(old(self)@, ts)),
    {
        let ghost step = leaving(old(self)@, ts);
        let mut out = no_actions();
        if !self.running {
            return out;
        }
        self.running = false;
        say_goodbye(&mut out, &self.peers);
        let ghost pend = old(self)@.pending;
        let ghost ends = Seq::new(
            pend.len(),
            |i: int| ActionView::Close { link: pend[i].1.link },
        );
        let ghost start = each(out@);
        let mut i: usize = 0;
        assert(start + ends.take(0) =~= start);
        while i < self.pending.len()
            invariant
                i <= pend.len(),
                self.pending@ == pend,
                ends == Seq::new(
                    pend.len(),
                    |i: int| ActionView::Close { link: pend[i].1.link },
                ),
                each(out@) == start + ends.take(i as int),
            decreases pend.len() - i,
        {
            act(&mut out, Action::Close { link: self.pending.at(i).link });
            assert((start + ends.take(i as int)).push(ends[i as int]) =~= start + ends.take(i + 1));
            i += 1;
        }
        assert(ends.take(i as int) =~= ends);
        if self.listening {
            act(&mut out, Action::CloseListener);
        }
        self.peers.clear();
        self.pending.clear();
        self.roster.clear();
        self.listening = false;
        self.record(ChatRecord::system(ts, "Left the room"));
        act(&mut out, Action::Emit(Event::RoomClosed("you left the room".to_owned())));
        assert(each(out@) =~= step.actions);
        assert(self@ =~= step.node);
        out
    }
}

/// A room that takes joiners again.
pub open spec fn reopened(n: NodeView, ttl: u64, now: u64) -> NodeStep {
    NodeStep {
        node: NodeView {
            open_until: Some((now + ttl) as u64),
            limiter: default_limits(),
            ..n
        },
        actions: seq![
            ActionView::Emit(EventView::Status("The room is accepting joiners again"@)),
        ],
    }
}

// --- links that come up ------------------------------------------------------------------------

impl Node {
    /// Register a live link and start reading from it.
    pub fn attach_peer(&mut self, info: PeerInfo, link: u64, fingerprint: &str, ts: i64) -> (r: Vec<
        Action,
    >)
        requires
            sound(old(self)@),
        ensures
            sound(final(self)@),
            took(final(self)@, r@, attached(old(self)@, info@, link, fingerprint@, ts)),
    {
        let ghost step = attached(old(self)@, info@, link, fingerprint@, ts);
        proof {
            attached_is_sound(old(self)@, info@, link, fingerprint@, ts);
        }
        let mut out = no_actions();
        if !self.running {
            act(&mut out, Action::Close { link });
            assert(each(out@) =~= step.actions);
            return out;
        }
        self.roster.insert(info.id.clone(), info.dup());
        let peer = Peer { info: info.dup(), link, state: PeerState::Connected };
        assert(peer@ == (PeerView { info: info@, link, state: PeerState::Connected }));
        self.peers.insert(info.id.clone(), peer);
        let text = cat(&info.name, " connected");
        self.record(ChatRecord::system(ts, &text));
        act(
            &mut out,
            Action::Emit(
                Event::Peer {
                    id: info.id.clone(),
                    name: info.name.clone(),
                    state: PeerState::Connected,
                    detail: cat3(&info.addr, " · ", fingerprint),
                },
            ),
        );
        act(&mut out, Action::Read { link, peer: info });
        assert(each(out@) =~= step.actions);
        assert(self@ =~= step.node);
        out
    }

    /// The connection to the host broke before it answered.
    pub fn host_lost(&mut self, e: &Error) -> (r: Vec<Action>)
        requires
            sound(old(self)@),
        ensures
            sound(final(self)@),
            took(
                final(self)@,
                r@,
                closed_before(
                    old(self)@,
                    Seq::empty(),
                    "the connection to the host was lost: "@ + e@.message(),
                ),
            ),
    {
        let reason = cat("the connection to the host was lost: ", &e.message());
        let out = no_actions();
        self.close_before(out, reason)
    }

    fn close_before(&mut self, first: Vec<Action>, reason: String) -> (r: Vec<Action>)
        requires
            sound(old(self)@),
        ensures
            sound(final(self)@),
            took(final(self)@, r@, closed_before(old(self)@, each(first@), reason@)),
    {
        let ghost step = closed_before(old(self)@, each(first@), reason@);
        let mut out = first;
        act(&mut out, Action::Emit(Event::RoomClosed(reason)));
        let down = self.shutdown_internal();
        act_all(&mut out, down);
        assert(each(out@) =~= step.actions);
        out
    }

    /// The host's first message.
    pub fn await_welcome(&mut self, link: u64, reply: Inbound, fingerprint: &str, ts: i64) -> (r: Vec<
        Action,
    >)
        requires
            sound(old(self)@),
        ensures
            sound(final(self)@),
            took(final(self)@, r@, answered_by_host(old(self)@, link, reply@, fingerprint@, ts)),
    {
        proof {
            host_answers_are_sound(old(self)@, link, reply@, fingerprint@, ts);
        }
        let ghost close = seq![ActionView::Close { link }];
        match reply {
            Inbound::Message(Control::Welcome { room, host, peers }) => self.enter_mesh(
                link,
                room,
                host,
                peers,
                fingerprint,
                ts,
            ),
            other => {
                let mut first = no_actions();
                act(&mut first, Action::Close { link });
                assert(each(first@) =~= close);
                let reason = match other {
                    Inbound::Message(Control::Rejected { reason }) => reason,
                    Inbound::Malformed(e) => cat("bad reply from the host: ", &e.message()),
                    _ => "the host sent an unexpected reply - version mismatch?".to_owned(),
                };
                self.close_before(first, reason)
            },
        }
    }

    fn enter_mesh(
        &mut self,
        link: u64,
        room: String,
        host: PeerInfo,
        peers: Vec<PeerInfo>,
        fingerprint: &str,
        ts: i64,
    ) -> (r: Vec<Action>)
        requires
            sound(old(self)@),
        ensures
            took(
                final(self)@,
                r@,
                let_in(old(self)@, link, room@, host@, each(peers@), fingerprint@, ts),
            ),
    {
        let ghost people = each(peers@);
        let ghost step = let_in(old(self)@, link, room@, host@, people, fingerprint@, ts);
        self.room = room.clone();
        self.roster.insert(host.id.clone(), host.dup());
        let ghost base = put(old(self)@.roster, host@.id, host@);
        proof {
            put_roster_files(old(self)@.roster, host@);
        }
        let mut i: usize = 0;
        assert(people.take(0) =~= Seq::<PeerInfoView>::empty());
        while i < peers.len()
            invariant
                i <= peers@.len(),
                people == each(peers@),
                self@ == (NodeView {
                    room: room@,
                    roster: enrolled(base, people.take(i as int)),
                    ..old(self)@
                }),
                distinct(base),
                roster_filed(base),
            decreases peers@.len() - i,
        {
            let p = &peers[i];
            self.roster.insert(p.id.clone(), p.dup());
            proof {
                assert(people.take(i + 1).drop_last() =~= people.take(i as int));
                assert(people.take(i + 1).last() == p@);
                assert(self@ =~= NodeView {
                    room: room@,
                    roster: enrolled(base, people.take(i + 1)),
                    ..old(self)@
                });
            }
            i += 1;
        }
        assert(people.take(i as int) =~= people);
        let kind = self.transport();
        let text = cat4("Joined room ", &room, " over ", &kind);
        self.record(ChatRecord::system(ts, &text));
        proof {
            enrolled_files(base, people);
        }
        // Attach first: by the time the UI sees `Joined`, the link to the host
        // really is in place.
        let mut out = self.attach_peer(host, link, fingerprint, ts);
        act(&mut out, Action::Emit(Event::Joined { room, transport: kind }));
        let ghost start = each(out@);
        let ghost dials = Seq::new(people.len(), |i: int| ActionView::Dial { peer: people[i] });
        let mut j: usize = 0;
        assert(start + dials.take(0) =~= start);
        while j < peers.len()
            invariant
                j <= peers@.len(),
                people == each(peers@),
                dials == Seq::new(people.len(), |i: int| ActionView::Dial { peer: people[i] }),
                each(out@) == start + dials.take(j as int),
            decreases peers@.len() - j,
        {
            let a = Action::Dial { peer: peers[j].dup() };
            assert(people[j as int] == peers@[j as int]@);
            act(&mut out, a);
            assert((start + dials.take(j as int)).push(dials[j as int]) =~= start + dials.take(
                j + 1,
            ));
            j += 1;
        }
        assert(dials.take(j as int) =~= dials);
        assert(each(out@) =~= step.actions);
        out
    }

    /// The message that opens a direct link to an approved peer.
    pub fn mesh_hello(&self) -> (r: Control)
        ensures
            r@ == (ControlView::MeshHello {
                version: PROTOCOL_VERSION,
                room: self@.room,
                peer: self@.me,
            }),
    {
        Control::MeshHello {
            version: PROTOCOL_VERSION,
            room: self.room.clone(),
            peer: self.me.dup(),
        }
    }

    /// The reply to our mesh call.
    pub fn try_dial(&mut self, link: u64, reply: Inbound, fingerprint: &str, ts: i64) -> (r: (
        Vec<Action>,
        Result<(), Error>,
    ))
        requires
            sound(old(self)@),
        ensures
            sound(final(self)@),
            ({
                let step = answered_by_peer(old(self)@, link, reply@, fingerprint@, ts);
                took(final(self)@, r.0@, step.0) && plain(r.1) == step.1
            }),
    {
        proof {
            peer_answers_are_sound(old(self)@, link, reply@, fingerprint@, ts);
        }
        let mut out = no_actions();
        match reply {
            Inbound::Message(Control::MeshAck { peer }) => {
                let out = self.attach_peer(peer, link, fingerprint, ts);
                (out, Ok(()))
            },
            Inbound::Malformed(e) => (out, Err(e)),
            other => {
                act(&mut out, Action::Close { link });
                assert(each(out@) =~= seq![ActionView::Close { link }]);
                let e = match other {
                    Inbound::Message(Control::Rejected { reason }) => Error::Closed(reason),
                    _ => Error::Protocol("unexpected reply to mesh hello".to_owned()),
                };
                (out, Err(e))
            },
        }
    }

    /// Set out to open our own direct link to an already-approved peer.
    pub fn dial_peer(&self, info: &PeerInfo) -> (r: Option<(Dial, Event)>)
        ensures
            match r {
                Some((d, e)) => {
                    &&& self@.kind is Some
                    &&& d@ == (DialView { info: info@, attempts: 0, last: "unknown error"@ })
                    &&& e@ == (EventView::Peer {
                        id: info@.id,
                        name: info@.name,
                        state: PeerState::Connecting,
                        detail: info@.addr,
                    })
                },
                None => self@.kind is None,
            },
    {
        match self.kind {
            None => None,
            Some(_) => {
                let e = Event::Peer {
                    id: info.id.clone(),
                    name: info.name.clone(),
                    state: PeerState::Connecting,
                    detail: info.addr.clone(),
                };
                let d = Dial { info: info.dup(), attempts: 0, last: "unknown error".to_owned() };
                Some((d, e))
            },
        }
    }
}

/// Attempts to reach one peer.
pub struct Dial {
    pub info: PeerInfo,
    pub attempts: u8,
    /// Why the last attempt failed.
    pub last: String,
}

#[verifier::ext_equal]
pub struct DialView {
    pub info: PeerInfoView,
    pub attempts: u8,
    pub last: Seq<char>,
}

impl View for Dial {
    type V = DialView;

    open spec fn view(&self) -> DialView {
        DialView { info: self.info@, attempts: self.attempts, last: self.last@ }
    }
}

/// What to do next about a peer that is being dialled.
pub enum DialStep {
    /// Try it.
    Try,
    /// We left the room.
    Stop,
    /// It cannot be reached.
    GiveUp(Event),
}

impl Dial {
    /// Three attempts are made, as long as we are in the room.
    pub fn next(&self, running: bool) -> (r: DialStep)
        ensures
            match r {
                DialStep::Try => self@.attempts < 3 && running,
                DialStep::Stop => self@.attempts < 3 && !running,
                DialStep::GiveUp(e) => self@.attempts >= 3 && e@ == (EventView::Peer {
                    id: self@.info.id,
                    name: self@.info.name,
                    state: PeerState::Failed,
                    detail: self@.last,
                }),
            },
    {
        if self.attempts >= 3 {
            DialStep::GiveUp(
                Event::Peer {
                    id: self.info.id.clone(),
                    name: self.info.name.clone(),
                    state: PeerState::Failed,
                    detail: self.last.clone(),
                },
            )
        } else if running {
            DialStep::Try
        } else {
            DialStep::Stop
        }
    }

    /// An attempt failed. Whether to pause before the next one.
    pub fn failed(&mut self, e: &Error) -> (pause: bool)
        requires
            old(self)@.attempts < 3,
        ensures
            final(self)@ == (DialView {
                attempts: (old(self)@.attempts + 1) as u8,
                last: e@.message(),
                ..old(self)@
            }),
            pause == (final(self)@.attempts < 3),
    {
        self.last = e.message();
        self.attempts = self.attempts + 1;
        self.attempts < 3
    }
}

// --- inbound calls -----------------------------------------------------------------------------

/// What becomes of someone's first message.
pub enum First {
    /// Nothing more is to be done than this.
    Done(Vec<Action>),
    /// A mesh call that is held until this peer is on the roster.
    Hold(PeerInfo),
}

/// What becomes of a mesh call that is held.
pub enum Held {
    /// Look again later.
    Wait,
    /// Turn it away.
    Refuse(Vec<Action>),
    /// Acknowledge it with this.
    Welcome(Control),
}

/// The label of a stream without its port.
pub fn source_label(label: &str) -> (r: String)
    ensures
        r@ == source_of(label@),
{
    let v = chars_of(label);
    match find_last(&v, ':') {
        None => label.to_owned(),
        Some(colon) => {
            let r = slice_text(&v, 0, colon);
            assert(r@ =~= label@.take(colon as int));
            r
        },
    }
}

impl Node {
    /// A connection came in from `label`. The handshake is next, with the
    /// source that it is counted against, unless there were too many attempts.
    pub fn handle_incoming(&mut self, label: &str, link: u64, now: u64) -> (r: (
        Option<String>,
        Vec<Action>,
    ))
        requires
            sound(old(self)@),
        ensures
            sound(final(self)@),
            took(final(self)@, r.1@, called(old(self)@, label@, link, now)),
            match r.0 {
                Some(source) => source@ == source_of(label@) && allowed(
                    old(self)@.limiter,
                    source@,
                    now,
                ),
                None => !allowed(old(self)@.limiter, source_of(label@), now),
            },
    {
        let ghost step = called(old(self)@, label@, link, now);
        let source = source_label(label);
        let mut out = no_actions();
        if !self.limiter.allow_at(&source, now) {
            let text = cat3(
                "ignored a connection attempt from ",
                &source,
                " (too many attempts)",
            );
            act(&mut out, Action::Emit(Event::Status(text)));
            act(&mut out, Action::Close { link });
            assert(each(out@) =~= step.actions);
            return (None, out);
        }
        (Some(source), out)
    }

    /// A connection that did not complete its handshake.
    pub fn handshake_failed(source: &str, e: &Error, link: u64) -> (r: Vec<Action>)
        ensures
            each(r@) == seq![
                ActionView::Emit(
                    EventView::Status(
                        "a connection from "@ + source@ + " failed to handshake: "@ + e@.message(),
                    ),
                ),
                ActionView::Close { link },
            ],
    {
        let mut out = no_actions();
        let text = cat4("a connection from ", source, " failed to handshake: ", &e.message());
        act(&mut out, Action::Emit(Event::Status(text)));
        act(&mut out, Action::Close { link });
        assert(each(out@) =~= seq![
            ActionView::Emit(
                EventView::Status(
                    "a connection from "@ + source@ + " failed to handshake: "@ + e@.message(),
                ),
            ),
            ActionView::Close { link },
        ]);
        out
    }

    /// The first message on a link that someone opened to us.
    pub fn first_message(
        &mut self,
        link: u64,
        message: Inbound,
        source: &str,
        fingerprint: &str,
        now: u64,
    ) -> (r: First)
        requires
            sound(old(self)@),
            old(self)@.req_seq < u64::MAX,
        ensures
            sound(final(self)@),
            match message@ {
                InboundView::Message(ControlView::Hello { version, room, peer }) => {
                    &&& r matches First::Done(actions)
                    &&& took(
                        final(self)@,
                        actions@,
                        asked(old(self)@, link, version, room, peer, source@, fingerprint@, now),
                    )
                },
                InboundView::Message(ControlView::MeshHello { version, room, peer }) => {
                    &&& final(self)@ == old(self)@
                    &&& match mesh_refusal(old(self)@, version, room) {
                        Some(reason) => r matches First::Done(actions) && each(actions@)
                            == rejected(link, reason),
                        None => r matches First::Hold(p) && p@ == (PeerInfoView {
                            name: sane_name(peer.name),
                            ..peer
                        }),
                    }
                },
                _ => {
                    &&& final(self)@ == old(self)@
                    &&& r matches First::Done(actions)
                    &&& each(actions@) == rejected(link, "unexpected first message"@)
                },
            },
    {
        match message {
            Inbound::Message(Control::Hello { version, room, peer }) => {
                let out = self.on_hello(link, version, &room, peer, source, fingerprint, now);
                First::Done(out)
            },
            Inbound::Message(Control::MeshHello { version, room, peer }) => self.on_mesh_hello(
                link,
                version,
                &room,
                peer,
            ),
            _ => First::Done(reject(link, "unexpected first message")),
        }
    }

    /// A joiner is asking the host for admission.
    fn on_hello(
        &mut self,
        link: u64,
        version: u32,
        room: &str,
        peer: PeerInfo,
        source: &str,
        fingerprint: &str,
        now: u64,
    ) -> (r: Vec<Action>)
        requires
            sound(old(self)@),
            old(self)@.req_seq < u64::MAX,
        ensures
            sound(final(self)@),
            took(
                final(self)@,
                r@,
                asked(old(self)@, link, version, room@, peer@, source@, fingerprint@, now),
            ),
    {
        let ghost step = asked(
            old(self)@,
            link,
            version,
            room@,
            peer@,
            source@,
            fingerprint@,
            now,
        );
        proof {
            requests_are_sound(
                old(self)@,
                link,
                version,
                room@,
                peer@,
                source@,
                fingerprint@,
                now,
                Seq::empty(),
                PendingView { info: peer@, link },
                0,
            );
        }
        if version != PROTOCOL_VERSION {
            let reason = cat4(
                "the host runs protocol v",
                &dec_text(PROTOCOL_VERSION as u64),
                ", you run v",
                &dec_text(version as u64),
            );
            return reject(link, &reason);
        }
        if !self.is_host() {
            return reject(link, "this peer is not the host of that room");
        }
        if !same_text(&normalize_code(room), &normalize_code(&self.room)) {
            return reject(link, "that room code does not match this room");
        }
        let over = match self.open_until {
            Some(t) => now > t,
            None => false,
        };
        if over {
            return reject(link, "this room code has expired - ask the host to reopen joining");
        }
        if self.roster.has(&peer.id) || same_text(&self.me.id, &peer.id) {
            return reject(link, "a peer with that id is already in the room");
        }
        let name = sanitize_name(&peer.name);
        let req = dec_text(self.req_seq);
        self.req_seq = self.req_seq.wrapping_add(1);
        let addr = if chars_of(&peer.addr).len() == 0 {
            source.to_owned()
        } else {
            peer.addr.clone()
        };
        let info = PeerInfo {
            id: peer.id,
            name: name.clone(),
            addr: peer.addr,
            fingerprint: peer.fingerprint,
        };
        assert(info@ == (PeerInfoView { name: name@, ..peer@ }));
        self.pending.insert(req.clone(), Pending { info, link });
        let mut out = no_actions();
        act(
            &mut out,
            Action::Emit(
                Event::JoinRequest { req, name, addr, fingerprint: fingerprint.to_owned() },
            ),
        );
        assert(each(out@) =~= step.actions);
        assert(self@ =~= step.node);
        out
    }

    /// An approved peer is opening its direct mesh link to us.
    fn on_mesh_hello(&self, link: u64, version: u32, room: &str, peer: PeerInfo) -> (r: First)
        ensures
            match mesh_refusal(self@, version, room@) {
                Some(reason) => r matches First::Done(actions) && each(actions@) == rejected(
                    link,
                    reason,
                ),
                None => r matches First::Hold(p) && p@ == (PeerInfoView {
                    name: sane_name(peer@.name),
                    ..peer@
                }),
            },
    {
        if version != PROTOCOL_VERSION {
            return First::Done(reject(link, "protocol version mismatch"));
        }
        if !same_text(&normalize_code(room), &normalize_code(&self.room)) {
            return First::Done(reject(link, "that room code does not match this room"));
        }
        let name = sanitize_name(&peer.name);
        First::Hold(
            PeerInfo { id: peer.id, name, addr: peer.addr, fingerprint: peer.fingerprint },
        )
    }

    /// Look at a mesh call that is held. The host's announcement and the
    /// newcomer's call race each other; the call is held briefly rather than
    /// rejected outright.
    pub fn check_held(&self, id: &str, link: u64, now: u64, deadline: u64) -> (r: Held)
        ensures
            match r {
                Held::Wait => held(self@, id@, now, deadline) == HeldView::Wait,
                Held::Refuse(actions) => held(self@, id@, now, deadline) matches HeldView::Refuse(
                    reason,
                ) && each(actions@) == rejected(link, reason),
                Held::Welcome(c) => held(self@, id@, now, deadline) == HeldView::Welcome(c@),
            },
    {
        let key = id.to_owned();
        if !self.roster.has(&key) {
            if now >= deadline {
                return Held::Refuse(
                    reject(
                        link,
                        "you are not on this room's approved list (ask the host to approve you first)",
                    ),
                );
            }
            return Held::Wait;
        }
        if self.peers.has(&key) {
            return Held::Refuse(reject(link, "already linked to that peer"));
        }
        Held::Welcome(Control::MeshAck { peer: self.me.dup() })
    }
}

// --- host approval -------------------------------------------------------------------------------

/// What the host's decision asks for.
pub enum Approval {
    /// The request is declined, and this is to be done.
    Declined(Vec<Action>),
    /// The request is accepted: first this is to be done; then `message` goes
    /// to the newcomer, and if that gets through the request is settled.
    Welcome { first: Vec<Action>, message: Control, link: u64, info: PeerInfo },
}

impl Node {
    /// Accept or decline a pending join request, now.
    pub fn approve(&mut self, req: &str, accept: bool) -> (r: Result<Approval, Error>)
        requires
            sound(old(self)@),
        ensures
            sound(final(self)@),
            exists|ts: i64| #[trigger]
                call_ensures(now_ts, (), ts) && decided(
                    old(self)@,
                    req@,
                    accept,
                    ts,
                    r,
                    final(self)@,
                ),
    {
        let ts: i64 = now_ts();
        assert(call_ensures(now_ts, (), ts));
        self.approve_at(req, accept, ts)
    }

    /// Accept or decline a pending join request.
    ///
    /// On accept the host (a) tells every existing peer about the newcomer and
    /// (b) hands the newcomer the full roster, so every pair can build its own
    /// direct link. The host does not forward anything afterwards.
    pub fn approve_at(&mut self, req: &str, accept: bool, ts: i64) -> (r: Result<Approval, Error>)
        requires
            sound(old(self)@),
        ensures
            sound(final(self)@),
            decided(old(self)@, req@, accept, ts, r, final(self)@),
    {
        let key = req.to_owned();
        proof {
            without_is_gone(old(self)@.pending, req@);
        }
        let pending = match self.pending.remove(&key) {
            Some(p) => p,
            None => {
                assert(self@ =~= old(self)@);
                return Err(
                    Error::Protocol("that join request is no longer pending".to_owned()),
                );
            },
        };
        let ghost p = pending@;
        proof {
            requests_are_sound(
                old(self)@,
                0,
                0,
                Seq::empty(),
                p.info,
                Seq::empty(),
                Seq::empty(),
                0,
                req@,
                p,
                ts,
            );
        }
        if !accept {
            let ghost step = declined(old(self)@, req@, p, ts);
            let mut out = reject(pending.link, "the host declined your request to join");
            let text = cat("Declined a join request from ", &pending.info.name);
            self.record(ChatRecord::system(ts, &text));
            act(
                &mut out,
                Action::Emit(Event::System(cat3("Declined ", &pending.info.name, "'s request"))),
            );
            act(&mut out, Action::Emit(Event::JoinResolved { req: key, accepted: false }));
            assert(each(out@) =~= step.actions);
            return Ok(Approval::Declined(out));
        }
        let roster = self.roster_infos();
        // Announce first so the newcomer's inbound calls are authorised.
        let mut first = no_actions();
        let news = Control::PeerJoined { peer: pending.info.dup() };
        tell_all(&mut first, &self.peers, &news, "could not tell ", " about the new peer");
        self.roster.insert(pending.info.id.clone(), pending.info.dup());
        let message = Control::Welcome {
            room: self.room.clone(),
            host: self.me.dup(),
            peers: roster,
        };
        assert(each(first@) =~= accepted(old(self)@, req@, p).actions);
        Ok(Approval::Welcome { first, message, link: pending.link, info: pending.info })
    }

    fn roster_infos(&self) -> (r: Vec<PeerInfo>)
        ensures
            each(r@) == peer_infos(self@.peers),
    {
        let ghost all = peer_infos(self@.peers);
        let mut out: Vec<PeerInfo> = Vec::new();
        let mut i: usize = 0;
        while i < self.peers.len()
            invariant
                i <= self@.peers.len(),
                all == peer_infos(self@.peers),
                each(out@) == all.take(i as int),
            decreases self@.peers.len() - i,
        {
            let ghost before = out@;
            let p = self.peers.at(i).info.dup();
            out.push(p);
            proof {
                each_push(before, p);
                assert(all.take(i + 1) =~= all.take(i as int).push(all[i as int]));
            }
            i += 1;
        }
        assert(all.take(i as int) =~= all);
        out
    }

    /// The newcomer's welcome got through.
    pub fn welcomed(
        &mut self,
        req: &str,
        info: PeerInfo,
        link: u64,
        fingerprint: &str,
        ts: i64,
    ) -> (r: Vec<Action>)
        requires
            sound(old(self)@),
        ensures
            sound(final(self)@),
            took(final(self)@, r@, settled(old(self)@, req@, info@, link, fingerprint@, ts)),
    {
        let ghost step = settled(old(self)@, req@, info@, link, fingerprint@, ts);
        let mut out = no_actions();
        act(
            &mut out,
            Action::Emit(Event::JoinResolved { req: req.to_owned(), accepted: true }),
        );
        let more = self.attach_peer(info, link, fingerprint, ts);
        act_all(&mut out, more);
        assert(each(out@) =~= step.actions);
        out
    }

    /// Pending requests the host has not answered yet, as `(req, name)`.
    pub fn pending_requests(&self) -> (r: Vec<(String, String)>)
        ensures
            each(r@) == Seq::new(
                self@.pending.len(),
                |i: int| (self@.pending[i].0, self@.pending[i].1.info.name),
            ),
    {
        let ghost all = Seq::new(
            self@.pending.len(),
            |i: int| (self@.pending[i].0, self@.pending[i].1.info.name),
        );
        let mut out: Vec<(String, String)> = Vec::new();
        let mut i: usize = 0;
        while i < self.pending.len()
            invariant
                i <= self@.pending.len(),
                all == Seq::new(
                    self@.pending.len(),
                    |i: int| (self@.pending[i].0, self@.pending[i].1.info.name),
                ),
                each(out@) == all.take(i as int),
            decreases self@.pending.len() - i,
        {
            let ghost before = out@;
            let row = (self.pending.key_at(i).clone(), self.pending.at(i).info.name.clone());
            out.push(row);
            proof {
                each_push(before, row);
                assert(all.take(i + 1) =~= all.take(i as int).push(all[i as int]));
            }
            i += 1;
        }
        assert(all.take(i as int) =~= all);
        out
    }
}

/// The host's decision on `req` came to `r` and left the node as `after`.
pub open spec fn decided(
    n: NodeView,
    req: Seq<char>,
    accept: bool,
    ts: i64,
    r: Result<Approval, Error>,
    after: NodeView,
) -> bool {
    match lookup(n.pending, req) {
        None => (r matches Err(e) && e@ == not_pending()) && after == n,
        Some(p) => if accept {
            &&& r matches Ok(Approval::Welcome { first, message, link, info })
            &&& took(after, first@, accepted(n, req, p))
            &&& message@ == welcome(n)
            &&& link == p.link
            &&& info@ == p.info
        } else {
            &&& r matches Ok(Approval::Declined(actions))
            &&& took(after, actions@, declined(n, req, p, ts))
        },
    }
}

// --- running links -------------------------------------------------------------------------------

/// Why a link that failed with `e` is gone.
pub fn describe_disconnect(e: &Error) -> (r: String)
    ensures
        r@ == disconnect_text(e@),
{
    match e {
        Error::Io(io) => {
            if io.kind == IoErrorKind::UnexpectedEof {
                "the peer closed the connection".to_owned()
            } else {
                e.message()
            }
        },
        _ => e.message(),
    }
}

/// The event for something unreadable from a peer.
pub fn malformed_message(from: &PeerInfo, e: &Error) -> (r: Event)
    ensures
        r@ == EventView::Error("malformed message from "@ + from@.name + ": "@ + e@.message()),
{
    Event::Error(cat4("malformed message from ", &from.name, ": ", &e.message()))
}

impl Node {
    /// A message from a connected peer.
    pub fn handle_control(&mut self, from: &PeerInfo, link: u64, c: Control, ts: i64) -> (r: Vec<
        Action,
    >)
        requires
            sound(old(self)@),
        ensures
            sound(final(self)@),
            took(final(self)@, r@, heard(old(self)@, from@, link, c@, ts)),
    {
        let ghost step = heard(old(self)@, from@, link, c@, ts);
        proof {
            messages_are_sound(old(self)@, from@, link, c@, Seq::empty(), ts);
        }
        let mut out = no_actions();
        match c {
            Control::Chat { id: _, from: author, name, ts: sent, body } => {
                let name = sanitize_name(&name);
                self.record(ChatRecord::message(&name, &author, sent, &body));
                act(
                    &mut out,
                    Action::Emit(Event::Chat { from: author, name, ts: sent, body, mine: false }),
                );
                assert(each(out@) =~= step.actions);
                out
            },
            Control::PeerJoined { peer } => {
                let text = cat(&peer.name, " was approved by the host and will connect directly");
                self.roster.insert(peer.id.clone(), peer);
                act(&mut out, Action::Emit(Event::System(text)));
                assert(each(out@) =~= step.actions);
                assert(self@ =~= step.node);
                out
            },
            Control::PeerLeft { id, name } => {
                self.roster.remove(&id);
                act(&mut out, Action::Emit(Event::System(cat(&name, " left the room"))));
                assert(each(out@) =~= step.actions);
                assert(self@ =~= step.node);
                out
            },
            Control::Bye => self.peer_gone(from, link, "the peer closed the room", ts),
            Control::Rejected { reason } => {
                act(&mut out, Action::Emit(Event::Error(cat3(&from.name, ": ", &reason))));
                assert(each(out@) =~= step.actions);
                out
            },
            Control::Hello { .. } => out,
            Control::MeshHello { .. } => out,
            Control::Welcome { .. } => out,
            Control::MeshAck { .. } => out,
            other => {
                let done = self.transfers.handle_file_control(from, other, ts);
                self.record_all(done.records);
                assert(self@ =~= step.node);
                done.actions
            },
        }
    }

    /// A peer is gone.
    pub fn peer_gone(&mut self, info: &PeerInfo, link: u64, reason: &str, ts: i64) -> (r: Vec<Action>)
        requires
            sound(old(self)@),
        ensures
            sound(final(self)@),
            took(final(self)@, r@, gone(old(self)@, info@, link, reason@, ts)),
    {
        let ghost step = gone(old(self)@, info@, link, reason@, ts);
        proof {
            messages_are_sound(old(self)@, info@, link, ControlView::Bye, reason@, ts);
        }
        let mut out = no_actions();
        if !self.peers.has(&info.id) {
            return out;
        }
        self.peers.remove(&info.id);
        let host = self.is_host();
        if host {
            self.roster.remove(&info.id);
        }
        act(&mut out, Action::Close { link });
        let files = self.transfers.cancel_transfers_with(&info.id);
        act_all(&mut out, files.actions);
        if host {
            let news = Control::PeerLeft { id: info.id.clone(), name: info.name.clone() };
            send_all(&mut out, &self.peers, &news);
        }
        let text = cat4(&info.name, " disconnected (", reason, ")");
        self.record(ChatRecord::system(ts, &text));
        act(
            &mut out,
            Action::Emit(
                Event::Peer {
                    id: info.id.clone(),
                    name: info.name.clone(),
                    state: PeerState::Disconnected,
                    detail: reason.to_owned(),
                },
            ),
        );
        assert(each(out@) =~= step.actions);
        assert(self@ =~= step.node);
        out
    }
}

// --- chat ------------------------------------------------------------------------------------------

impl Node {
    /// Send a chat line directly to every connected peer, now.
    pub fn send_chat(&mut self, text: &str) -> (r: Result<Vec<Action>, Error>)
        requires
            sound(old(self)@),
        ensures
            sound(final(self)@),
            exists|id: String, ts: i64| #[trigger]
                call_ensures(new_id, (), id) && #[trigger] call_ensures(now_ts, (), ts) && chatted(
                    old(self)@,
                    text@,
                    id@,
                    ts,
                    r,
                    final(self)@,
                ),
    {
        let id = new_id();
        assert(call_ensures(new_id, (), id));
        let ts: i64 = now_ts();
        assert(call_ensures(now_ts, (), ts));
        self.send_chat_as(text, id, ts)
    }

    /// Send a chat line directly to every connected peer.
    pub fn send_chat_as(&mut self, text: &str, id: String, ts: i64) -> (r: Result<
        Vec<Action>,
        Error,
    >)
        requires
            sound(old(self)@),
        ensures
            sound(final(self)@),
            chatted(old(self)@, text@, id@, ts, r, final(self)@),
    {
        let body = trim_text(text);
        if chars_of(&body).len() == 0 {
            return Ok(no_actions());
        }
        if !chat_fits(&id, &self.me.id, &self.me.name, ts, &body) {
            return Err(Error::Config("that message is too long".to_owned()));
        }
        let ghost step = said(old(self)@, body@, id@, ts);
        let message = Control::Chat {
            id,
            from: self.me.id.clone(),
            name: self.me.name.clone(),
            ts,
            body: body.clone(),
        };
        let line = ChatRecord::message(&self.me.name, &self.me.id, ts, &body);
        self.record(line);
        let mut out = no_actions();
        act(
            &mut out,
            Action::Emit(
                Event::Chat {
                    from: self.me.id.clone(),
                    name: self.me.name.clone(),
                    ts,
                    body,
                    mine: true,
                },
            ),
        );
        if self.peers.len() == 0 {
            act(
                &mut out,
                Action::Emit(
                    Event::System(
                        "nobody is connected yet - that message was not delivered".to_owned(),
                    ),
                ),
            );
        }
        tell_all(&mut out, &self.peers, &message, "could not deliver to ", "");
        assert(each(out@) =~= step.actions);
        Ok(out)
    }
}

/// Sending `text` came to `r` and left the node as `after`.
pub open spec fn chatted(
    n: NodeView,
    text: Seq<char>,
    id: Seq<char>,
    ts: i64,
    r: Result<Vec<Action>, Error>,
    after: NodeView,
) -> bool {
    match chat_body(n.me, text, id, ts) {
        Err(e) => (r matches Err(x) && x@ == e) && after == n,
        Ok(None) => (r matches Ok(actions) && actions@.len() == 0) && after == n,
        Ok(Some(body)) => r matches Ok(actions) && took(after, actions@, said(n, body, id, ts)),
    }
}

// --- files -----------------------------------------------------------------------------------------

/// A file that we said yes to.
pub struct Accepted {
    pub id: [u8; 16],
    pub transfer: String,
    pub offer: PendingOffer,
    /// Where it is to be saved.
    pub path: String,
    /// The link to its sender.
    pub link: u64,
}

/// What our answer to an offer asks for.
pub enum Answer {
    /// The file is declined, and this is to be done.
    Declined(Vec<Action>),
    /// The file is to be created, and then the transfer starts.
    Create(Accepted),
}

/// A node whose offer `id` is answered.
pub open spec fn offer_taken(n: NodeView, id: Seq<u8>) -> NodeView {
    NodeView {
        transfers: TransfersView { offers: without(n.transfers.offers, id), ..n.transfers },
        ..n
    }
}

/// What declining `o` asks for.
pub open spec fn offer_declined(n: NodeView, transfer: Seq<char>, o: OfferView) -> Seq<ActionView> {
    let end = ActionView::Emit(
        EventView::FileFinished {
            transfer,
            name: o.name,
            incoming: true,
            ok: false,
            detail: "you declined the file"@,
        },
    );
    match lookup(n.peers, o.peer_id) {
        Some(p) => seq![
            ActionView::Send {
                link: p.link,
                message: ControlView::FileDecline {
                    transfer,
                    reason: "declined by the recipient"@,
                },
            },
            end,
        ],
        None => seq![end],
    }
}

/// Our answer to the offer `transfer` (a path to save it at, or no) came to
/// `r` and left the node as `after`.
pub open spec fn responded(
    n: NodeView,
    transfer: Seq<char>,
    save_to: Option<Seq<char>>,
    r: Result<Answer, Error>,
    after: NodeView,
) -> bool {
    match id_in(transfer) {
        Err(e) => (r matches Err(x) && x@ == e) && after == n,
        Ok(id) => match lookup(n.transfers.offers, id) {
            None => {
                &&& r matches Err(x)
                &&& x@ == ErrorView::Protocol("that file offer is no longer pending"@)
                &&& after == n
            },
            Some(o) => {
                &&& after == offer_taken(n, id)
                &&& match save_to {
                    None => r matches Ok(Answer::Declined(actions)) && each(actions@)
                        == offer_declined(n, transfer, o),
                    Some(path) => match lookup(n.peers, o.peer_id) {
                        None => r matches Err(x) && x@ == ErrorView::Closed(
                            "that peer is no longer connected"@,
                        ),
                        Some(p) => {
                            &&& r matches Ok(Answer::Create(a))
                            &&& a.id@ == id
                            &&& a.transfer@ == transfer
                            &&& a.offer@ == o
                            &&& a.path@ == path
                            &&& a.link == p.link
                        },
                    },
                }
            },
        },
    }
}

impl Node {
    /// Whom a file is offered to: every connected peer.
    pub fn send_file(&self) -> (r: Result<Vec<Peer>, Error>)
        ensures
            match r {
                Ok(peers) => self@.peers.len() > 0 && each(peers@) == values(self@.peers),
                Err(e) => self@.peers.len() == 0 && e@ == ErrorView::Config(
                    "there is nobody connected to send a file to"@,
                ),
            },
    {
        if self.peers.len() == 0 {
            return Err(Error::Config("there is nobody connected to send a file to".to_owned()));
        }
        Ok(self.connected_peers())
    }

    /// Under what name a file is offered, and what is said meanwhile. Only a
    /// regular file can be sent; one without a name gets one.
    pub fn file_to_send(regular: bool, name: Option<&str>, size: u64) -> (r: Result<
        (String, Event),
        Error,
    >)
        ensures
            match r {
                Ok((n, e)) => {
                    &&& regular
                    &&& n@ == safe_name(
                        match name {
                            Some(t) => t@,
                            None => "file.bin"@,
                        },
                    )
                    &&& e@ == EventView::Status(
                        "Hashing "@ + n@ + " ("@ + size_text(size) + ")..."@,
                    )
                },
                Err(e) => !regular && e@ == ErrorView::Config("that is not a regular file"@),
            },
    {
        if !regular {
            return Err(Error::Config("that is not a regular file".to_owned()));
        }
        let n = match name {
            Some(t) => safe_file_name(t),
            None => safe_file_name("file.bin"),
        };
        let e = Event::Status(cat5("Hashing ", &n, " (", &human_size(size), ")..."));
        Ok((n, e))
    }

    /// Start sending a file to a peer, under a fresh id.
    pub fn begin_upload(&mut self, peer: &Peer, name: &str, size: u64, sha: &str) -> (r: Upload)
        requires
            sound(old(self)@),
        ensures
            sound(final(self)@),
            final(self)@ == uploading(old(self)@, r@.id, peer@.info.id),
            r@ == fresh_upload(r@.id, peer@, name@, size, sha@),
            exists|id: [u8; 16]| #[trigger]
                call_ensures(random_bytes::<16>, (), id) && r@.id == id@,
    {
        let id: [u8; 16] = random_bytes::<16>();
        assert(call_ensures(random_bytes::<16>, (), id));
        self.begin_upload_as(id, peer, name, size, sha)
    }

    /// Start sending a file to a peer.
    pub fn begin_upload_as(
        &mut self,
        id: [u8; 16],
        peer: &Peer,
        name: &str,
        size: u64,
        sha: &str,
    ) -> (r: Upload)
        requires
            sound(old(self)@),
        ensures
            sound(final(self)@),
            final(self)@ == uploading(old(self)@, id@, peer@.info.id),
            r@ == fresh_upload(id@, peer@, name@, size, sha@),
    {
        proof {
            let none = OfferView {
                peer_id: Seq::empty(),
                peer_name: Seq::empty(),
                name: Seq::empty(),
                size: 0,
                sha256: Seq::empty(),
            };
            starts_and_ends_keep_order(
                self@.transfers,
                id@,
                peer@.info.id,
                none,
                Seq::empty(),
            );
        }
        self.transfers.begin_out(id, &peer.info.id);
        Upload::new(id, peer.info.dup(), peer.link, name, size, sha)
    }

    /// The end of an outgoing transfer.
    pub fn finish_out(&mut self, up: &Upload, how: UploadEnd, ts: i64) -> (r: Vec<Action>)
        requires
            sound(old(self)@),
        ensures
            sound(final(self)@),
            ({
                let files = upload_over(old(self)@.transfers, up@, how@, old(self)@.me, ts);
                took(
                    final(self)@,
                    r@,
                    NodeStep {
                        node: NodeView {
                            transfers: files.transfers,
                            history: old(self)@.history + files.records,
                            ..old(self)@
                        },
                        actions: files.actions,
                    },
                )
            }),
    {
        proof {
            without_is_gone(self@.transfers.outgoing, up@.id);
        }
        let done = self.transfers.finish_out(up, how, &self.me, ts);
        self.record_all(done.records);
        done.actions
    }

    /// Answer an incoming offer. `save_to` of `None` declines it.
    pub fn respond_offer(&mut self, transfer: &str, save_to: Option<&str>) -> (r: Result<
        Answer,
        Error,
    >)
        requires
            sound(old(self)@),
        ensures
            sound(final(self)@),
            responded(
                old(self)@,
                transfer@,
                match save_to {
                    Some(p) => Some(p@),
                    None => None,
                },
                r,
                final(self)@,
            ),
    {
        let id = match unhex16(transfer) {
            Ok(id) => id,
            Err(e) => {
                return Err(e);
            },
        };
        proof {
            without_is_gone(self@.transfers.offers, id@);
        }
        let offer = match self.transfers.take_offer(&id) {
            Some(o) => o,
            None => {
                assert(self@ =~= old(self)@);
                return Err(Error::Protocol("that file offer is no longer pending".to_owned()));
            },
        };
        let peer = self.peer_by_id(&offer.peer_id);
        match save_to {
            None => {
                let ghost all = offer_declined(old(self)@, transfer@, offer@);
                let mut out = no_actions();
                if let Some(p) = peer {
                    act(
                        &mut out,
                        p.send(
                            Control::FileDecline {
                                transfer: transfer.to_owned(),
                                reason: "declined by the recipient".to_owned(),
                            },
                        ),
                    );
                }
                act(
                    &mut out,
                    Action::Emit(
                        Event::FileFinished {
                            transfer: transfer.to_owned(),
                            name: offer.name,
                            incoming: true,
                            ok: false,
                            detail: "you declined the file".to_owned(),
                        },
                    ),
                );
                assert(each(out@) =~= all);
                Ok(Answer::Declined(out))
            },
            Some(path) => match peer {
                None => Err(Error::Closed("that peer is no longer connected".to_owned())),
                Some(p) => Ok(
                    Answer::Create(
                        Accepted {
                            id,
                            transfer: transfer.to_owned(),
                            offer,
                            path: path.to_owned(),
                            link: p.link,
                        },
                    ),
                ),
            },
        }
    }

    /// The file is created: the transfer starts. The message goes to the
    /// sender, and if it gets through the event is shown.
    pub fn begin_download(&mut self, a: Accepted) -> (r: (u64, Control, Event))
        requires
            sound(old(self)@),
        ensures
            sound(final(self)@),
            final(self)@ == (NodeView {
                transfers: TransfersView {
                    active: put(
                        old(self)@.transfers.active,
                        a.id@,
                        fresh_incoming(a.offer@, a.path@),
                    ),
                    ..old(self)@.transfers
                },
                ..old(self)@
            }),
            r.0 == a.link,
            r.1@ == (ControlView::FileAccept { transfer: a.transfer@ }),
            r.2@ == EventView::Status("Receiving "@ + a.offer@.name + " into "@ + a.path@),
    {
        proof {
            starts_and_ends_keep_order(
                self@.transfers,
                a.id@,
                Seq::empty(),
                a.offer@,
                a.path@,
            );
        }
        let e = Event::Status(cat4("Receiving ", &a.offer.name, " into ", &a.path));
        self.transfers.begin_in(a.id, a.offer, &a.path);
        (a.link, Control::FileAccept { transfer: a.transfer }, e)
    }

    /// What is to be done with a chunk from a connected peer.
    pub fn handle_chunk(&self, from: &PeerInfo, id: &[u8; 16], seq: u32, len: usize) -> (r: Verdict)
        requires
            sound(self@),
        ensures
            r@ == chunk_verdict(self@.transfers, from@.id, id@, seq, len as nat),
    {
        self.transfers.check_chunk(&from.id, id, seq, len)
    }

    /// A chunk that was to be written is on disk.
    pub fn chunk_written(
        &mut self,
        from: &PeerInfo,
        id: &[u8; 16],
        seq: u32,
        data: &[u8],
        now: u64,
    ) -> (r: Vec<Action>)
        requires
            sound(old(self)@),
            chunk_verdict(old(self)@.transfers, from@.id, id@, seq, data@.len())
                == VerdictView::Write,
        ensures
            sound(final(self)@),
            ({
                let files = chunk_stored(old(self)@.transfers, id@, data@, now);
                took(
                    final(self)@,
                    r@,
                    NodeStep {
                        node: NodeView { transfers: files.transfers, ..old(self)@ },
                        actions: files.actions,
                    },
                )
            }),
    {
        proof {
            chunks_keep_order(
                self@.transfers,
                from@.id,
                id@,
                seq,
                data@,
                now,
                0,
                Seq::empty(),
            );
        }
        let done = self.transfers.chunk_written(id, data, now);
        done.actions
    }

    /// A transfer goes wrong on our side: its sender is told why.
    pub fn refuse_chunk(&mut self, link: u64, id: [u8; 16], reason: &str) -> (r: Vec<Action>)
        requires
            sound(old(self)@),
        ensures
            sound(final(self)@),
            ({
                let files = chunk_refused(old(self)@.transfers, link, id@, reason@);
                took(
                    final(self)@,
                    r@,
                    NodeStep {
                        node: NodeView { transfers: files.transfers, ..old(self)@ },
                        actions: files.actions,
                    },
                )
            }),
    {
        proof {
            chunks_keep_order(
                self@.transfers,
                Seq::empty(),
                id@,
                0,
                Seq::empty(),
                0,
                link,
                reason@,
            );
        }
        let done = self.transfers.refuse_chunk(link, id, reason);
        done.actions
    }

    /// Why a transfer whose bytes could not be written ends.
    pub fn disk_failure(e: &str) -> (r: String)
        ensures
            r@ == "could not write to disk: "@ + e@,
    {
        cat("could not write to disk: ", e)
    }
}

/// A node that is sending a file.
pub open spec fn uploading(n: NodeView, id: Seq<u8>, peer_id: Seq<char>) -> NodeView {
    NodeView {
        transfers: TransfersView {
            outgoing: put(n.transfers.outgoing, id, peer_id),
            ..n.transfers
        },
        ..n
    }
}

/// A file of which nothing was sent yet.
pub open spec fn fresh_upload(
    id: Seq<u8>,
    peer: PeerView,
    name: Seq<char>,
    size: u64,
    sha: Seq<char>,
) -> UploadView {
    UploadView {
        id,
        peer: peer.info,
        link: peer.link,
        name,
        size,
        sha,
        sent: 0,
        seq: 0,
        last: None,
    }
}

impl Node {
    /// The endpoint stopped taking connections: worth a word while we are in a
    /// room.
    pub fn accept_stopped(&self) -> (r: Vec<Action>)
        ensures
            each(r@) == if self@.running {
                seq![ActionView::Emit(EventView::Status("stopped listening for new connections"@))]
            } else {
                Seq::<ActionView>::empty()
            },
    {
        let mut out = no_actions();
        if self.running {
            act(
                &mut out,
                Action::Emit(Event::Status("stopped listening for new connections".to_owned())),
            );
            assert(each(out@) =~= seq![
                ActionView::Emit(EventView::Status("stopped listening for new connections"@)),
            ]);
        }
        out
    }
}

} // verus!
