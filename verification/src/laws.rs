//! What a room promises, step by step: laws that tie the steps of the node
//! together.

use vstd::prelude::*;

pub mod addresses;
pub mod lines;
pub mod operations;
pub mod parts;
pub mod rooms;
pub mod streams;
pub mod transfers;
pub mod window;
pub mod wire;
pub mod wording;
pub mod words;

use crate::error::ErrorView;
use crate::events::{ActionView, EventView, InboundView, PeerState};
use crate::files::cancelled;
use crate::history::note;
use crate::mesh::{
    accepted, answered_by_host, answered_by_peer, asked, attached, chat_body, declined, expired, gone,
    goodbyes, heard, held, hello_refusal, hold_end, host_answers_are_sound, join_address, joining, leaving,
    let_in, mesh_refusal, peer_infos, reopened, said, settled, shut_down, sound, transport_name,
    welcome, HeldView, NodeStep, NodeView, PeerView, PendingView, Role,
};
use crate::names::display_names_are_printable;
use crate::protocol::{an_id, chat_len_bound, ControlView, PeerInfoView};
use crate::roomcode::{canonical, case_is_ignored, same_room, space_around_is_ignored};
use crate::text::{json_len_bounds, plain_char, trimmed};
use crate::table::{has_key, lookup, put_is_found, without_is_gone};
use crate::transport::TransportKind;
use crate::PROTOCOL_VERSION;

verus! {

/// A joiner stays pending until the host accepts: a request alone links nobody
/// and puts nobody on the roster.
pub proof fn a_request_connects_nobody(
    n: NodeView,
    link: u64,
    version: u32,
    room: Seq<char>,
    peer: PeerInfoView,
    source: Seq<char>,
    fingerprint: Seq<char>,
    now: u64,
)
    ensures
        ({
            let step = asked(n, link, version, room, peer, source, fingerprint, now);
            &&& step.node.peers == n.peers
            &&& step.node.roster == n.roster
            &&& forall|i: int| 0 <= i < step.actions.len() ==> !(#[trigger] step.actions[i] is Read)
        }),
{
}

/// A declined joiner is told so, gets no link and is on no roster.
pub proof fn a_declined_joiner_gets_no_link(n: NodeView, req: Seq<char>, p: PendingView, ts: i64)
    ensures
        ({
            let step = declined(n, req, p, ts);
            &&& step.node.peers == n.peers
            &&& step.node.roster == n.roster
            &&& step.actions[0] == ActionView::Send {
                link: p.link,
                message: ControlView::Rejected {
                    reason: "the host declined your request to join"@,
                },
            }
            &&& step.actions[1] == ActionView::Close { link: p.link }
        }),
{
}

/// On approval everyone already in the room is told that someone is coming,
/// each on their own link, before the newcomer is handed the roster; and the
/// roster names exactly those who were told.
pub proof fn everyone_is_told_first(n: NodeView, req: Seq<char>, p: PendingView, i: int)
    requires
        sound(n),
        0 <= i < n.peers.len(),
    ensures
        accepted(n, req, p).actions.len() == n.peers.len(),
        accepted(n, req, p).actions[i] == (ActionView::Tell {
            link: n.peers[i].1.link,
            message: ControlView::PeerJoined { peer: p.info },
            trouble: "could not tell "@ + n.peers[i].1.info.name + " about the new peer"@,
        }),
        welcome(n) matches ControlView::Welcome { peers, .. } && peers.len() == n.peers.len()
            && peers[i] == n.peers[i].1.info,
        lookup(accepted(n, req, p).node.roster, p.info.id) == Some(p.info),
{
    put_is_found(n.roster, p.info.id, p.info);
}

/// A call from someone the host has announced is taken, however early or late
/// it comes.
pub proof fn an_announced_call_is_taken(
    n: NodeView,
    from: PeerInfoView,
    link: u64,
    peer: PeerInfoView,
    ts: i64,
    now: u64,
    deadline: u64,
)
    requires
        sound(n),
        !has_key(n.peers, peer.id),
    ensures
        held(heard(n, from, link, ControlView::PeerJoined { peer }, ts).node, peer.id, now, deadline)
            == HeldView::Welcome(ControlView::MeshAck { peer: n.me }),
{
    put_is_found(n.roster, peer.id, peer);
}

/// A call is held no longer than eight seconds: before that it waits for as
/// long as it is not announced, and then it waits no more.
pub proof fn a_call_is_held_for_eight_seconds(n: NodeView, id: Seq<char>, came: u64, now: u64)
    requires
        came + 8_000_000_000 <= u64::MAX,
        came <= now,
    ensures
        held(n, id, now, hold_end(came)) is Wait <==> !has_key(n.roster, id) && now - came
            < 8_000_000_000,
{
}

/// A call from someone the host has not announced is never taken.
pub proof fn an_unannounced_call_is_not_taken(
    n: NodeView,
    id: Seq<char>,
    now: u64,
    deadline: u64,
)
    requires
        !has_key(n.roster, id),
    ensures
        !(held(n, id, now, deadline) is Welcome),
        now >= deadline ==> held(n, id, now, deadline) is Refuse,
{
}

/// A newcomer has the host's link and calls every other peer itself.
pub proof fn a_newcomer_calls_everyone(
    n: NodeView,
    link: u64,
    room: Seq<char>,
    host: PeerInfoView,
    peers: Seq<PeerInfoView>,
    fingerprint: Seq<char>,
    ts: i64,
)
    requires
        sound(n),
        n.running,
    ensures
        ({
            let step = let_in(n, link, room, host, peers, fingerprint, ts);
            &&& lookup(step.node.peers, host.id) == Some(
                PeerView { info: host, link, state: PeerState::Connected },
            )
            &&& step.actions.contains(
                ActionView::Emit(EventView::Joined { room, transport: transport_name(n) }),
            )
            &&& forall|i: int|
                0 <= i < peers.len() ==> step.actions.contains(
                    ActionView::Dial { peer: #[trigger] peers[i] },
                )
        }),
{
    let step = let_in(n, link, room, host, peers, fingerprint, ts);
    put_is_found(n.peers, host.id, PeerView { info: host, link, state: PeerState::Connected });
    assert(step.actions[2] == ActionView::Emit(
        EventView::Joined { room, transport: transport_name(n) },
    ));
    assert forall|i: int| 0 <= i < peers.len() implies step.actions.contains(
        ActionView::Dial { peer: #[trigger] peers[i] },
    ) by {
        assert(step.actions[3 + i] == ActionView::Dial { peer: peers[i] });
    }
}

/// The mesh is completed by itself. Once the host accepts a newcomer, `m`, who
/// is in the room, takes the newcomer's call as soon as it has the host's
/// announcement; the newcomer calls `m` as soon as it has the host's welcome;
/// and the acknowledgement makes a link at both ends.
pub proof fn the_mesh_is_completed(
    host: NodeView,
    req: Seq<char>,
    p: PendingView,
    i: int,
    m: NodeView,
    host_at_m: PeerInfoView,
    link_at_m: u64,
    newcomer: NodeView,
    link_to_host: u64,
    call: u64,
    fingerprint: Seq<char>,
    ts: i64,
    now: u64,
    deadline: u64,
)
    requires
        sound(host),
        sound(m),
        sound(newcomer),
        m.running,
        newcomer.running,
        0 <= i < host.peers.len(),
        host.peers[i].1.info == m.me,
        p.info == newcomer.me,
        !has_key(m.peers, newcomer.me.id),
    ensures
        ({
            let announcement = ControlView::PeerJoined { peer: newcomer.me };
            let ready = heard(m, host_at_m, link_at_m, announcement, ts).node;
            let joined = answered_by_host(
                newcomer,
                link_to_host,
                InboundView::Message(welcome(host)),
                fingerprint,
                ts,
            );
            let ack = ControlView::MeshAck { peer: m.me };
            let linked = answered_by_peer(
                joined.node,
                call,
                InboundView::Message(ack),
                fingerprint,
                ts,
            );
            &&& accepted(host, req, p).actions[i] matches ActionView::Tell { link, message, .. }
                && link == host.peers[i].1.link && message == announcement
            &&& held(ready, newcomer.me.id, now, deadline) == HeldView::Welcome(ack)
            &&& joined.actions.contains(ActionView::Dial { peer: m.me })
            &&& linked.1 is Ok
            &&& lookup(linked.0.node.peers, m.me.id) == Some(
                PeerView { info: m.me, link: call, state: PeerState::Connected },
            )
            &&& lookup(
                attached(ready, newcomer.me, call, fingerprint, ts).node.peers,
                newcomer.me.id,
            ) == Some(PeerView { info: newcomer.me, link: call, state: PeerState::Connected })
        }),
{
    let everyone = peer_infos(host.peers);
    put_is_found(m.roster, newcomer.me.id, newcomer.me);
    put_is_found(
        m.peers,
        newcomer.me.id,
        PeerView { info: newcomer.me, link: call, state: PeerState::Connected },
    );
    a_newcomer_calls_everyone(
        newcomer,
        link_to_host,
        host.room,
        host.me,
        everyone,
        fingerprint,
        ts,
    );
    assert(everyone[i] == m.me);
    let reply = InboundView::Message(welcome(host));
    let joined = answered_by_host(newcomer, link_to_host, reply, fingerprint, ts);
    host_answers_are_sound(newcomer, link_to_host, reply, fingerprint, ts);
    put_is_found(
        joined.node.peers,
        m.me.id,
        PeerView { info: m.me, link: call, state: PeerState::Connected },
    );
}

/// The code is the only way in: whoever does not have it, or speaks another
/// version of the protocol, is refused, as joiner and as peer; and nobody but
/// the host lets anyone in.
pub proof fn only_the_code_opens_the_room(
    n: NodeView,
    version: u32,
    room: Seq<char>,
    peer: PeerInfoView,
    now: u64,
)
    ensures
        canonical(room) != canonical(n.room) || version != PROTOCOL_VERSION ==> hello_refusal(
            n,
            version,
            room,
            peer,
            now,
        ) is Some && mesh_refusal(n, version, room) is Some,
        n.role != Some(Role::Host) ==> hello_refusal(n, version, room, peer, now) is Some,
{
}

/// However a code is typed, it opens its room: dashes, spaces, letter case and
/// lookalikes make no difference to where the joiner goes, nor to whether the
/// host takes the request.
pub proof fn a_code_survives_being_read_aloud(
    n: NodeView,
    joiner: NodeView,
    kind: TransportKind,
    typed: Seq<char>,
    addr: Seq<char>,
    peer: PeerInfoView,
    now: u64,
)
    requires
        n.role == Some(Role::Host),
        canonical(typed) == canonical(n.room),
        !expired(n, now),
        !has_key(n.roster, peer.id),
        n.me.id != peer.id,
    ensures
        hello_refusal(
            n,
            PROTOCOL_VERSION,
            joining(joiner, kind, typed, addr).node.room,
            peer,
            now,
        ) is None,
        join_address(joiner, kind, typed) == join_address(joiner, kind, n.room),
{
    space_around_is_ignored(typed);
    case_is_ignored(trimmed(typed));
    same_room(typed, n.room);
}

/// A joiner who is refused is told why: the host's reason is what closes the
/// room on the joiner's screen, and the joiner is in no room and has no link.
pub proof fn a_refused_joiner_is_told_why(
    n: NodeView,
    link: u64,
    version: u32,
    room: Seq<char>,
    peer: PeerInfoView,
    source: Seq<char>,
    fingerprint: Seq<char>,
    now: u64,
    joiner: NodeView,
    link_to_host: u64,
    ts: i64,
)
    requires
        hello_refusal(n, version, room, peer, now) is Some,
    ensures
        ({
            let reason = hello_refusal(n, version, room, peer, now)->Some_0;
            let reply = ControlView::Rejected { reason };
            let over = answered_by_host(
                joiner,
                link_to_host,
                InboundView::Message(reply),
                fingerprint,
                ts,
            );
            &&& asked(n, link, version, room, peer, source, fingerprint, now).actions == seq![
                ActionView::Send { link, message: reply },
                ActionView::Close { link },
            ]
            &&& over.actions.contains(ActionView::Emit(EventView::RoomClosed(reason)))
            &&& !over.node.running
            &&& over.node.peers.len() == 0
        }),
{
    let reason = hello_refusal(n, version, room, peer, now)->Some_0;
    let reply = InboundView::Message(ControlView::Rejected { reason });
    let over = answered_by_host(joiner, link_to_host, reply, fingerprint, ts);
    assert(over.actions[1] == ActionView::Emit(EventView::RoomClosed(reason)));
}

/// Lines are capped at the size of a frame only: one of up to 60000 plain
/// characters is always taken.
pub proof fn long_lines_are_taken(n: NodeView, text: Seq<char>, id: Seq<char>, ts: i64)
    requires
        sound(n),
        an_id(id),
        0 < trimmed(text).len() <= 60000,
        forall|i: int| 0 <= i < trimmed(text).len() ==> plain_char(#[trigger] trimmed(text)[i]),
    ensures
        chat_body(n.me, text, id, ts) == Ok::<Option<Seq<char>>, ErrorView>(Some(trimmed(text))),
{
    chat_len_bound(id, n.me.id, n.me.name, ts, trimmed(text));
    display_names_are_printable(n.me.name);
    json_len_bounds(n.me.name);
    json_len_bounds(trimmed(text));
}

/// A chat line goes to every connected peer, once each, on the author's own
/// link to them.
pub proof fn a_chat_line_goes_to_everyone(
    n: NodeView,
    body: Seq<char>,
    id: Seq<char>,
    ts: i64,
    i: int,
)
    requires
        0 <= i < n.peers.len(),
    ensures
        said(n, body, id, ts).actions.len() == n.peers.len() + 1,
        said(n, body, id, ts).actions[i + 1] == (ActionView::Tell {
            link: n.peers[i].1.link,
            message: ControlView::Chat { id, from: n.me.id, name: n.me.name, ts, body },
            trouble: "could not deliver to "@ + n.peers[i].1.info.name + ""@,
        }),
{
}

/// A chat line reads the same at both ends: what the author's transcript says
/// of it, a peer's transcript says too.
pub proof fn a_line_reads_the_same_at_both_ends(
    author: NodeView,
    peer: NodeView,
    from: PeerInfoView,
    link: u64,
    body: Seq<char>,
    id: Seq<char>,
    sent: i64,
    got: i64,
)
    requires
        sound(author),
    ensures
        ({
            let message = ControlView::Chat {
                id,
                from: author.me.id,
                name: author.me.name,
                ts: sent,
                body,
            };
            let ours = said(author, body, id, sent).node.history;
            let theirs = heard(peer, from, link, message, got).node.history;
            &&& ours.len() == author.history.len() + 1
            &&& theirs.len() == peer.history.len() + 1
            &&& ours.last() == theirs.last()
        }),
{
}

/// Nothing is relayed: no message from a peer is passed on to another. The one
/// thing that a node sends to others because of a message is the host's notice
/// that its sender is gone.
pub proof fn nothing_is_relayed(
    n: NodeView,
    from: PeerInfoView,
    link: u64,
    c: ControlView,
    ts: i64,
    i: int,
)
    requires
        0 <= i < heard(n, from, link, c, ts).actions.len(),
    ensures
        match heard(n, from, link, c, ts).actions[i] {
            ActionView::Send { message, .. } => message == (ControlView::PeerLeft {
                id: from.id,
                name: from.name,
            }) && c is Bye,
            ActionView::Tell { .. } => false,
            _ => true,
        },
{
    let step = heard(n, from, link, c, ts);
    if c is Bye && has_key(n.peers, from.id) {
        let files = cancelled(n.transfers, from.id);
        let close = seq![ActionView::Close { link }];
        if i >= 1 && i < 1 + files.actions.len() {
            assert(step.actions[i] == files.actions[i - 1]);
        }
    }
}

/// Leaving keeps the transcript, tells everyone goodbye, and leaves nobody
/// linked; nothing can be attached afterwards, and leaving again does nothing.
pub proof fn leaving_keeps_the_transcript(
    n: NodeView,
    ts: i64,
    info: PeerInfoView,
    link: u64,
    fingerprint: Seq<char>,
)
    requires
        n.running,
    ensures
        ({
            let step = leaving(n, ts);
            &&& step.node.history == n.history.push(note(ts, "Left the room"@))
            &&& step.node.peers.len() == 0
            &&& step.node.pending.len() == 0
            &&& !step.node.running
            &&& forall|i: int|
                0 <= i < n.peers.len() ==> step.actions.contains(
                    ActionView::Send {
                        link: (#[trigger] n.peers[i]).1.link,
                        message: ControlView::Bye,
                    },
                ) && step.actions.contains(ActionView::Close { link: n.peers[i].1.link })
            &&& attached(step.node, info, link, fingerprint, ts) == (NodeStep {
                node: step.node,
                actions: seq![ActionView::Close { link }],
            })
            &&& leaving(step.node, ts) == (NodeStep { node: step.node, actions: seq![] })
        }),
{
    let step = leaving(n, ts);
    let g = goodbyes(n.peers);
    assert forall|i: int| 0 <= i < n.peers.len() implies step.actions.contains(
        ActionView::Send { link: (#[trigger] n.peers[i]).1.link, message: ControlView::Bye },
    ) && step.actions.contains(ActionView::Close { link: n.peers[i].1.link }) by {
        assert((2 * i) % 2 == 0 && (2 * i + 1) % 2 == 1);
        assert((2 * i) / 2 == i && (2 * i + 1) / 2 == i);
        assert(g[2 * i] == step.actions[2 * i]);
        assert(g[2 * i + 1] == step.actions[2 * i + 1]);
    }
}

/// A failed join does not leave the node in a room.
pub proof fn a_failed_join_leaves_no_room(
    n: NodeView,
    link: u64,
    reply: InboundView,
    fingerprint: Seq<char>,
    ts: i64,
)
    ensures
        !shut_down(n).node.running,
        shut_down(n).node.peers.len() == 0,
        !(reply matches InboundView::Message(ControlView::Welcome { .. })) ==> !answered_by_host(
            n,
            link,
            reply,
            fingerprint,
            ts,
        ).node.running,
{
}

/// A node is in one room at a time.
pub proof fn one_room_at_a_time(n: NodeView, kind: TransportKind, code: Seq<char>)
    requires
        n.running,
    ensures
        join_address(n, kind, code) is Err,
{
}

/// Once the time of a code is over nobody is let in, whoever asks; and once
/// the room is reopened, those are heard again who would have been.
pub proof fn an_expired_room_can_be_reopened(
    n: NodeView,
    room: Seq<char>,
    peer: PeerInfoView,
    now: u64,
    ttl: u64,
    later: u64,
)
    requires
        n.role == Some(Role::Host),
        canonical(room) == canonical(n.room),
        !has_key(n.roster, peer.id),
        n.me.id != peer.id,
        n.open_until matches Some(t) && now > t,
        now + ttl <= u64::MAX,
        later <= now + ttl,
    ensures
        hello_refusal(n, PROTOCOL_VERSION, room, peer, now) == Some(
            "this room code has expired - ask the host to reopen joining"@,
        ),
        hello_refusal(reopened(n, ttl, now).node, PROTOCOL_VERSION, room, peer, later) is None,
{
}

/// The room survives anyone leaving it, the host included: every other link
/// is as it was.
pub proof fn other_links_survive(
    n: NodeView,
    info: PeerInfoView,
    link: u64,
    reason: Seq<char>,
    ts: i64,
    other: Seq<char>,
)
    requires
        sound(n),
        other != info.id,
    ensures
        lookup(gone(n, info, link, reason, ts).node.peers, other) == lookup(n.peers, other),
        gone(n, info, link, reason, ts).node.running == n.running,
        !has_key(gone(n, info, link, reason, ts).node.peers, info.id),
{
    without_is_gone(n.peers, info.id);
}

/// A disconnect is reported, with a reason, exactly once.
pub proof fn a_disconnect_is_reported(
    n: NodeView,
    info: PeerInfoView,
    link: u64,
    reason: Seq<char>,
    again: Seq<char>,
    ts: i64,
)
    requires
        sound(n),
        has_key(n.peers, info.id),
    ensures
        gone(n, info, link, reason, ts).actions.last() == ActionView::Emit(
            EventView::Peer {
                id: info.id,
                name: info.name,
                state: PeerState::Disconnected,
                detail: reason,
            },
        ),
        gone(gone(n, info, link, reason, ts).node, info, link, again, ts).actions.len() == 0,
{
    without_is_gone(n.peers, info.id);
}

/// Once a request is settled, the newcomer is linked.
pub proof fn a_settled_request_is_a_link(
    n: NodeView,
    req: Seq<char>,
    info: PeerInfoView,
    link: u64,
    fingerprint: Seq<char>,
    ts: i64,
)
    requires
        sound(n),
        n.running,
    ensures
        lookup(settled(n, req, info, link, fingerprint, ts).node.peers, info.id) == Some(
            PeerView { info, link, state: PeerState::Connected },
        ),
{
    put_is_found(n.peers, info.id, PeerView { info, link, state: PeerState::Connected });
}

} // verus!
