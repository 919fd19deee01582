//! How things are told: each text has what it is about in its own place, so
//! that nobody reads a code for a name, or what came for what was sent.

use vstd::prelude::*;

use crate::error::{Error, ErrorView};
use crate::events::{delivery_failed, Action, ActionView, Event, EventView, InboundView};
use crate::files::{
    chunk_verdict, completed, upload_over, ActiveView, TransfersView, UploadEndView, UploadView,
    VerdictView,
};
use crate::mesh::{
    answered_by_host, attached, called, declined, gone, heard, hello_refusal, hosting, join_address,
    joining, leaving, let_in, malformed_message, Accepted, Moment, Node, NodeView, PendingView,
};
use crate::names::size_text;
use crate::protocol::{frame_in, Control, ControlView, PeerInfo, PeerInfoView};
use crate::roomcode::{decoded, encoded};
use crate::screen::{shown, ScreenView};
use crate::sending::{step, CourseView, HappenedView, Stage};
use crate::table::{lookup, row_of_is_row};
use crate::text::dec;
use crate::transport::bluetooth::{addr_of, addr_text, dial_of};
use crate::transport::{bluetooth, kind_text, lan, TransportKind};
use crate::views::each;
use crate::PROTOCOL_VERSION;

verus! {

// --- the transcript --------------------------------------------------------------------

/// What a room's transcript says of who came, who went and who was not let in.
pub proof fn the_transcript_says_who_and_why(
    n: NodeView,
    kind: TransportKind,
    dial: Seq<char>,
    code: Seq<char>,
    ttl: u64,
    at: Moment,
    info: PeerInfoView,
    link: u64,
    fingerprint: Seq<char>,
    reason: Seq<char>,
    ts: i64,
    req: Seq<char>,
    p: PendingView,
)
    ensures
        hosting(n, kind, dial, code, ttl, at).node.history.last().body == "Room opened over "@
            + kind_text(kind) + " with code "@ + code,
        n.running ==> attached(n, info, link, fingerprint, ts).node.history.last().body == info.name
            + " connected"@,
        lookup(n.peers, info.id) is Some ==> gone(
            n,
            info,
            link,
            reason,
            ts,
        ).node.history.last().body == info.name + " disconnected ("@ + reason + ")"@,
        declined(n, req, p, ts).node.history.last().body == "Declined a join request from "@
            + p.info.name,
        declined(n, req, p, ts).actions[2] == ActionView::Emit(
            EventView::System("Declined "@ + p.info.name + "'s request"@),
        ),
        n.running ==> leaving(n, ts).node.history.last().body == "Left the room"@,
{
    row_of_is_row(n.peers, info.id);
}

/// What is said of a room that let us in, and of one that did not.
pub proof fn joining_is_told(
    n: NodeView,
    kind: TransportKind,
    typed: Seq<char>,
    addr: Seq<char>,
    link: u64,
    room: Seq<char>,
    host: PeerInfoView,
    peers: Seq<PeerInfoView>,
    fingerprint: Seq<char>,
    ts: i64,
    e: ErrorView,
)
    requires
        n.running,
        n.kind == Some(kind),
    ensures
        joining(n, kind, typed, addr).actions[0] == ActionView::Emit(
            EventView::Status("Contacting the host over "@ + kind_text(kind) + "..."@),
        ),
        let_in(n, link, room, host, peers, fingerprint, ts).node.history[n.history.len() as int].body
            == "Joined room "@ + room + " over "@ + kind_text(kind),
        let_in(n, link, room, host, peers, fingerprint, ts).actions[2] == ActionView::Emit(
            EventView::Joined { room, transport: kind_text(kind) },
        ),
        answered_by_host(n, link, InboundView::Malformed(e), fingerprint, ts).actions[1]
            == ActionView::Emit(EventView::RoomClosed("bad reply from the host: "@ + e.message())),
        answered_by_host(
            n,
            link,
            InboundView::Message(ControlView::Bye),
            fingerprint,
            ts,
        ).actions[1] == ActionView::Emit(
            EventView::RoomClosed("the host sent an unexpected reply - version mismatch?"@),
        ),
{
}

/// What is said of a file that came or went is who, what and how much, each in
/// its place.
pub proof fn the_transcript_says_which_file(
    t: TransfersView,
    id: Seq<u8>,
    transfer: Seq<char>,
    ts: i64,
    a: ActiveView,
    up: UploadView,
    me: PeerInfoView,
)
    requires
        lookup(t.active, id) == Some(a),
    ensures
        completed(t, id, transfer, ts).records.len() > 0 ==> completed(
            t,
            id,
            transfer,
            ts,
        ).records[0].body == "received "@ + a.name + " ("@ + size_text(a.size) + ") -> "@ + a.path,
        upload_over(t, up, UploadEndView::Sent, me, ts).records[0].body == "sent "@ + up.name
            + " ("@ + size_text(up.size) + ") to "@ + up.peer.name,
{
}

// --- files -----------------------------------------------------------------------------

/// A file that is over on our side is told as what it is: saved and where, cut
/// short and by how much, or damaged.
pub proof fn an_arrival_is_told_as_it_is(
    t: TransfersView,
    id: Seq<u8>,
    transfer: Seq<char>,
    ts: i64,
    a: ActiveView,
)
    requires
        lookup(t.active, id) == Some(a),
    ensures
        completed(t, id, transfer, ts).actions[1] matches ActionView::Emit(
            EventView::FileFinished { ok, detail, .. },
        ) && {
            &&& ok ==> detail == "saved to "@ + a.path
            &&& !ok && a.got != a.size ==> detail == "incomplete: got "@ + size_text(a.got)
                + " of "@ + size_text(a.size)
            &&& !ok && a.got == a.size ==> detail
                == "the checksum did not match - the file may be corrupt"@
        },
{
}

/// A file that we sent, or could not, is told as what became of it.
pub proof fn a_sent_file_is_told_as_it_is(
    t: TransfersView,
    up: UploadView,
    how: UploadEndView,
    me: PeerInfoView,
    ts: i64,
)
    ensures
        upload_over(t, up, how, me, ts).actions.last() matches ActionView::Emit(
            EventView::FileFinished { detail, .. },
        ) && match how {
            UploadEndView::OfferFailed(e) => detail == "could not send the offer: "@ + e.message(),
            UploadEndView::Declined(reason) => detail == up.peer.name + " declined ("@ + reason
                + ")"@,
            UploadEndView::TimedOut => detail == up.peer.name + " did not answer in time"@,
            UploadEndView::Unreadable(e) => detail == "could not read the file: "@ + e,
            UploadEndView::ReadFailed(e) => detail == "read error: "@ + e,
            UploadEndView::LinkFailed(e) => detail == "link to "@ + up.peer.name + " failed: "@
                + e.message(),
            UploadEndView::Sent => detail == "sent to "@ + up.peer.name,
        },
{
}

/// Chunks that come out of order are refused with which one was expected and
/// which one came.
pub proof fn a_chunk_out_of_order_is_told(
    t: TransfersView,
    who: Seq<char>,
    id: Seq<u8>,
    seq: u32,
    len: nat,
    a: ActiveView,
)
    requires
        lookup(t.active, id) == Some(a),
        who == a.peer_id,
        seq != a.next_seq,
    ensures
        chunk_verdict(t, who, id, seq, len) == VerdictView::Refuse(
            "chunks arrived out of order (expected "@ + dec(a.next_seq as nat) + ", got "@ + dec(
                seq as nat,
            ) + ")"@,
        ),
{
}

/// An offer that went out is told with what was offered and to whom.
pub proof fn an_offer_that_went_out_is_told(up: UploadView, now: u64)
    ensures
        step(
            CourseView { up, stage: Stage::Offering },
            HappenedView::Sent(Ok(())),
            now,
        ).actions[0] == ActionView::Emit(
            EventView::Status(
                "Offered "@ + up.name + " to "@ + up.peer.name + " - waiting for a reply"@,
            ),
        ),
{
}

// --- those who call --------------------------------------------------------------------------

/// A joiner of another version is told ours first and then theirs.
pub proof fn versions_are_told_apart(
    n: NodeView,
    version: u32,
    room: Seq<char>,
    peer: PeerInfoView,
    now: u64,
)
    requires
        version != 1,
    ensures
        hello_refusal(n, version, room, peer, now) == Some(
            "the host runs protocol v"@ + dec(1) + ", you run v"@ + dec(version as nat),
        ),
{
}

/// What is said of a peer names the peer before anything else.
pub proof fn a_peer_is_named_first(
    n: NodeView,
    from: PeerInfoView,
    link: u64,
    reason: Seq<char>,
    ts: i64,
    peer: PeerInfoView,
    fingerprint: Seq<char>,
    id: Seq<char>,
    name: Seq<char>,
)
    ensures
        heard(n, from, link, ControlView::Rejected { reason }, ts).actions[0] == ActionView::Emit(
            EventView::Error(from.name + ": "@ + reason),
        ),
        heard(n, from, link, ControlView::PeerJoined { peer }, ts).actions[0] == ActionView::Emit(
            EventView::System(
                peer.name + " was approved by the host and will connect directly"@,
            ),
        ),
        heard(n, from, link, ControlView::PeerLeft { id, name }, ts).actions[0] == ActionView::Emit(
            EventView::System(name + " left the room"@),
        ),
        n.running ==> (attached(n, peer, link, fingerprint, ts).actions[0] matches ActionView::Emit(
            EventView::Peer { detail, .. },
        ) && detail == peer.addr + " · "@ + fingerprint),
{
}

/// A code for another transport is told with which one it is for.
pub proof fn the_right_transport_is_named(
    n: NodeView,
    kind: TransportKind,
    code: Seq<char>,
    other: TransportKind,
    dial: Seq<char>,
)
    requires
        !n.running,
        decoded(code) == Ok::<(TransportKind, Seq<char>), ErrorView>((other, dial)),
        other != kind,
    ensures
        join_address(n, kind, code) == Err::<Seq<char>, ErrorView>(
            ErrorView::Config(
                "that room code is a "@ + kind_text(other)
                    + " code - switch the connection mode to "@ + kind_text(other)
                    + " and try again"@,
            ),
        ),
{
}

/// What cannot be called is quoted.
pub proof fn what_cannot_be_called_is_quoted(s: Seq<char>, b: Seq<u8>)
    ensures
        lan::v4_of(s) is None && lan::v6_socket(s) ==> encoded(TransportKind::Lan, s) == Err::<
            Seq<char>,
            ErrorView,
        >(
            ErrorView::RoomCode(
                "LAN mode needs an IPv4 address; this machine reported only IPv6"@,
            ),
        ),
        lan::v4_of(s) is None && !lan::v6_socket(s) ==> encoded(TransportKind::Lan, s) == Err::<
            Seq<char>,
            ErrorView,
        >(ErrorView::RoomCode("'"@ + s + "' is not a valid address:port"@)),
        addr_of(s) matches Err(e) ==> e == ErrorView::RoomCode(
            "'"@ + s + "' is not a 12 hex digit Bluetooth address"@,
        ),
        !s.contains(':') ==> dial_of(s) == Err::<(u64, u32), ErrorView>(
            ErrorView::RoomCode("'"@ + s + "' is not ADDRESS:CHANNEL"@),
        ),
        b.len() == 0 ==> frame_in(b) is Err && frame_in(b)->Err_0 == ErrorView::Protocol(
            "empty frame"@,
        ),
        0 < b.len() < 21 && b[0] == 2 ==> frame_in(b) is Err && frame_in(b)->Err_0
            == ErrorView::Protocol("truncated file chunk"@),
        b.len() > 0 && b[0] > 2 ==> frame_in(b) is Err && frame_in(b)->Err_0 == ErrorView::Protocol(
            "unknown frame kind "@ + dec(b[0] as nat),
        ),
{
    crate::text::last_at_is_last(s, ':');
}

// --- the screen ------------------------------------------------------------------------------

/// What a row or a line on the screen says has each thing in its place.
pub proof fn the_screen_tells_things_apart(
    v: ScreenView,
    transfer: Seq<char>,
    name: Seq<char>,
    peer: Seq<char>,
    done: u64,
    total: u64,
    time: Seq<char>,
    ours: Seq<char>,
    now: u64,
    detail: Seq<char>,
)
    requires
        v.transfers.len() == 0,
    ensures
        ({
            let (w, _) = shown(
                v,
                EventView::FileProgress { transfer, name, peer, done, total, incoming: true },
                time,
                ours,
                now,
            );
            &&& w.transfers.len() == 1
            &&& w.transfers[0].label == name + " "@ + "from"@ + " "@ + peer
            &&& w.transfers[0].state == size_text(done) + " / "@ + size_text(total)
        }),
        ({
            let (w, _) = shown(
                v,
                EventView::FileProgress { transfer, name, peer, done, total, incoming: false },
                time,
                ours,
                now,
            );
            &&& w.transfers.len() == 1
            &&& w.transfers[0].label == name + " "@ + "to"@ + " "@ + peer
        }),
        ({
            let (w, _) = shown(
                v,
                EventView::FileFinished { transfer, name, incoming: true, ok: true, detail },
                time,
                ours,
                now,
            );
            &&& w.transfers[0].label == name + " ("@ + "received"@ + ")"@
            &&& w.messages.last().body == "File "@ + "received"@ + ": "@ + name + ". "@ + detail
        }),
        ({
            let (w, _) = shown(
                v,
                EventView::FileFinished { transfer, name, incoming: false, ok: false, detail },
                time,
                ours,
                now,
            );
            &&& w.transfers[0].label == name + " ("@ + "sent"@ + ")"@
            &&& w.messages.last().body == "File transfer failed: "@ + name + ". "@ + detail
        }),
        ({
            let (w, _) = shown(v, EventView::RoomClosed(detail), time, ours, now);
            w.messages.last().body == "Room closed: "@ + detail
        }),
{
}

// --- calls ------------------------------------------------------------------------------------

/// What went wrong is told with what it was about first, and then why.
pub proof fn trouble_is_told_in_order(
    trouble: &str,
    e: &Error,
    a: Event,
    from: &PeerInfo,
    b: Event,
    source: &str,
    link: u64,
    c: Vec<Action>,
    addr: &str,
    text: &str,
    d: Error,
    target: u64,
    channel: u32,
    f: Error,
)
    requires
        call_ensures(delivery_failed, (trouble, e), a),
        call_ensures(malformed_message, (from, e), b),
        call_ensures(Node::handshake_failed, (source, e, link), c),
        call_ensures(lan::unreachable_host, (addr, text), d),
        call_ensures(bluetooth::unreachable_device, (target, channel, text), f),
    ensures
        a@ == EventView::Error(trouble@ + ": "@ + e@.message()),
        b@ == EventView::Error("malformed message from "@ + from@.name + ": "@ + e@.message()),
        c@.len() == 2 && c@[0]@ == ActionView::Emit(
            EventView::Status(
                "a connection from "@ + source@ + " failed to handshake: "@ + e@.message(),
            ),
        ),
        d@ == ErrorView::Closed(
            "could not reach "@ + addr@ + " over the local network ("@ + text@
                + ") - check that both machines are on the same network and that the host's firewall allows chat.exe"@,
        ),
        f@ == ErrorView::Closed(
            "could not reach Bluetooth device "@ + addr_text(target as nat) + " on channel "@ + dec(
                channel as nat,
            ) + " ("@ + text@
                + "). Make sure the two devices are paired in Windows Settings and that the host is waiting for a joiner."@,
        ),
{
    assert(each(c@).len() == c@.len());
    assert(each(c@)[0] == c@[0]@);
}

/// A file that is prepared, or received, is told with its name first.
pub proof fn a_file_is_named_first(
    node: &mut Node,
    a: Accepted,
    r: (u64, Control, Event),
    name: Option<&str>,
    size: u64,
    s: Result<(String, Event), Error>,
)
    requires
        call_ensures(Node::begin_download, (node, a), r),
        call_ensures(Node::file_to_send, (true, name, size), s),
    ensures
        r.2@ == EventView::Status("Receiving "@ + a.offer@.name + " into "@ + a.path@),
        s matches Ok((n, e)) && e@ == EventView::Status(
            "Hashing "@ + n@ + " ("@ + size_text(size) + ")..."@,
        ),
        name is None ==> (s matches Ok((n, _)) && n@ == crate::names::safe_name("file.bin"@)),
{
}

} // verus!
