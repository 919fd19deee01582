//! What a room promises of each step by itself: whom it concerns, what is sent
//! and reported of it, and that it leaves everything else alone.

use vstd::prelude::*;

use crate::error::{Error, ErrorView};
use crate::events::{Action, ActionView, EventView, InboundView, PeerState};
use crate::files::cancelled;
use crate::history::{occurs, RecordKind, RecordView};
use crate::laws::transfers::{a_part_occurs, only_their_transfers_end};
use crate::mesh::{
    accepted, answered_by_host, answered_by_peer, asked, attached, called, chatted, closes, decided,
    declined, disconnect_text, enrolled, gone, goodbyes, heard, held, hello_refusal, hosting,
    join_address, joining, leaving, let_in, mesh_refusal, reopened, settled, shut_down, sound, took,
    uploading, Approval, HeldView, Moment, NodeStep, NodeView, PeerView, PendingView, Role,
};
use crate::names::sane_name;
use crate::protocol::{ControlView, PeerInfoView};
use crate::ratelimit::{allowed, LimiterView};
use crate::roomcode::{
    bluetooth_dial_round_trip, canonical, case_is_ignored, decoded, encoded, lan_dial_round_trip,
    space_around_is_ignored,
};
use crate::table::{
    has_key, lookup, lookup_is_row, put, put_is_found, row_of_is_row, without_is_gone,
};
use crate::text::{dec, last_at_between, last_at_is_last, trimmed};
use crate::transport::{bluetooth, kind_text, lan, TransportKind};
use crate::views::each;
use crate::PROTOCOL_VERSION;

verus! {

/// A step is taken whole: the node is as it says, and what is to be done is
/// what it says, in its order.
pub proof fn a_step_is_taken_whole(after: NodeView, actions: Seq<Action>, step: NodeStep, i: int)
    requires
        took(after, actions, step),
        0 <= i < step.actions.len(),
    ensures
        after == step.node,
        actions.len() == step.actions.len(),
        actions[i]@ == step.actions[i],
{
    assert(each(actions)[i] == actions[i]@);
}

/// Whether a record is a notice of the room that says `part`.
pub open spec fn notice_of(r: RecordView, ts: i64, part: Seq<char>) -> bool {
    &&& r.kind == RecordKind::System && r.sender == "system"@ && r.sender_id.len() == 0
    &&& r.ts == ts
    &&& occurs(part, r.body)
}

// --- opening and reopening -------------------------------------------------------------

/// Whether nobody was counted yet: anyone is let through, and from here on five
/// attempts a minute from one source and thirty from all of them.
pub open spec fn counts_anew(l: LimiterView) -> bool {
    &&& l.per_source == 5 && l.global == 30 && l.window == 60_000_000_000
    &&& forall|source: Seq<char>, now: u64| #[trigger] allowed(l, source, now)
    &&& l.hits.len() == 0 && l.all.len() == 0
}

pub proof fn a_fresh_limiter_counts_anew()
    ensures
        counts_anew(crate::ratelimit::default_limits()),
{
    let l = crate::ratelimit::default_limits();
    reveal(Seq::filter);
    assert forall|source: Seq<char>, now: u64| #[trigger] allowed(l, source, now) by {
        row_of_is_row(l.hits, source);
    }
}

/// A room that is reopened takes joiners for the time it is given and not
/// longer: whoever has the code and asks up to `ttl` after it was reopened
/// waits for the host's answer, and whoever asks later is refused because the
/// code has expired. Attempts are counted anew, and nothing else changes:
/// nobody is dropped, forgotten or told.
pub proof fn a_reopened_room_closes_again(
    n: NodeView,
    ttl: u64,
    now: u64,
    later: u64,
    room: Seq<char>,
    peer: PeerInfoView,
    link: u64,
    source: Seq<char>,
    fingerprint: Seq<char>,
)
    requires
        n.role == Some(Role::Host),
        canonical(room) == canonical(n.room),
        !has_key(n.roster, peer.id),
        n.me.id != peer.id,
        now + ttl <= u64::MAX,
    ensures
        ({
            let step = reopened(n, ttl, now);
            let m = step.node;
            let over = "this room code has expired - ask the host to reopen joining"@;
            let then = asked(m, link, PROTOCOL_VERSION, room, peer, source, fingerprint, later);
            &&& later > now + ttl ==> hello_refusal(m, PROTOCOL_VERSION, room, peer, later) == Some(
                over,
            )
            &&& later > now + ttl ==> then.node == m && then.actions[0] == (ActionView::Send {
                link,
                message: ControlView::Rejected { reason: over },
            })
            &&& later <= now + ttl ==> hello_refusal(m, PROTOCOL_VERSION, room, peer, later) is None
            &&& counts_anew(m.limiter)
            &&& m == (NodeView { open_until: m.open_until, limiter: m.limiter, ..n })
            &&& step.actions.len() == 1
            &&& step.actions[0] == ActionView::Emit(
                EventView::Status("The room is accepting joiners again"@),
            )
        }),
{
    a_fresh_limiter_counts_anew();
}

/// A room that is opened has its host, its code and nobody else in it, starts
/// a new transcript and is announced with its code, its transport, where it is
/// reached and for how many whole seconds. It takes joiners with the code for
/// its time, and not longer.
#[verifier::rlimit(40)]
pub proof fn an_opened_room_is_announced(
    n: NodeView,
    kind: TransportKind,
    dial: Seq<char>,
    code: Seq<char>,
    ttl: u64,
    at: Moment,
    later: u64,
    peer: PeerInfoView,
)
    requires
        at.now + ttl <= u64::MAX,
        n.me.id != peer.id,
    ensures
        ({
            let step = hosting(n, kind, dial, code, ttl, at);
            let m = step.node;
            &&& m.role == Some(Role::Host) && m.kind == Some(kind) && m.room == code
            &&& m.running && m.listening
            &&& m.me == (PeerInfoView { addr: dial, ..n.me })
            &&& m.peers.len() == 0 && m.roster.len() == 0 && m.pending.len() == 0
            &&& m.history.len() == 1 && notice_of(m.history[0], at.ts, code) && occurs(
                kind_text(kind),
                m.history[0].body,
            )
            &&& counts_anew(m.limiter)
            &&& m.transfers == n.transfers && m.req_seq == n.req_seq && m.clock == n.clock
            &&& m.private == n.private && m.public == n.public
            &&& hello_refusal(m, PROTOCOL_VERSION, code, peer, later) is None <==> later <= at.now
                + ttl
            &&& step.actions.len() == 1
            &&& step.actions[0] matches ActionView::Emit(
                EventView::RoomOpened { code: c, transport, dial: d, expires_secs },
            ) && c == code && transport == kind_text(kind) && d == dial && expires_secs
                * 1_000_000_000 <= ttl < (expires_secs + 1) * 1_000_000_000
        }),
{
    let m = hosting(n, kind, dial, code, ttl, at).node;
    let lead = "Room opened over "@;
    let mid = " with code "@;
    let none = Seq::<char>::empty();
    a_fresh_limiter_counts_anew();
    row_of_is_row(m.roster, peer.id);
    assert(m.history[0].body =~= lead + kind_text(kind) + mid + code + none);
    assert(m.history[0].body =~= lead + kind_text(kind) + (mid + code));
    a_part_occurs(lead + kind_text(kind) + mid, code, none);
    a_part_occurs(lead, kind_text(kind), mid + code);
}

/// Someone who sets out to join is nobody's host, knows nobody yet, has a new
/// transcript, and asks for the room whose code was typed; nothing goes out
/// but a word to the user.
pub proof fn a_joiner_sets_out_alone(
    n: NodeView,
    kind: TransportKind,
    code: Seq<char>,
    addr: Seq<char>,
    version: u32,
    peer: PeerInfoView,
    now: u64,
)
    ensures
        ({
            let step = joining(n, kind, code, addr);
            let m = step.node;
            &&& m.role == Some(Role::Joiner) && m.kind == Some(kind)
            &&& canonical(m.room) == canonical(code)
            &&& m.running && m.listening
            &&& m.me == (PeerInfoView { addr, ..n.me })
            &&& m.peers.len() == 0 && m.roster.len() == 0 && m.pending.len() == 0
            &&& m.history.len() == 0
            &&& counts_anew(m.limiter)
            &&& m.transfers == n.transfers && m.req_seq == n.req_seq && m.clock == n.clock
            &&& m.private == n.private && m.public == n.public
            &&& hello_refusal(m, version, code, peer, now) is Some
            &&& step.actions.len() == 1
            &&& step.actions[0] matches ActionView::Emit(EventView::Status(text)) && occurs(
                kind_text(kind),
                text,
            )
        }),
{
    a_fresh_limiter_counts_anew();
    space_around_is_ignored(code);
    case_is_ignored(trimmed(code));
    a_part_occurs("Contacting the host over "@, kind_text(kind), "..."@);
}

/// A code leads to the host that gave it out, over the transport it is for;
/// with another transport chosen the user is told which one it is for.
pub proof fn a_code_leads_to_its_host(
    n: NodeView,
    kind: TransportKind,
    octets: Seq<u8>,
    port: u16,
    addr: u64,
    channel: u32,
)
    requires
        !n.running,
        octets.len() == 4,
        port != 0,
        1 <= channel <= 30,
        addr < 0x1_0000_0000_0000,
    ensures
        ({
            let dial = lan::v4_text(octets, port);
            let code = encoded(TransportKind::Lan, dial)->Ok_0;
            match kind {
                TransportKind::Lan => join_address(n, kind, code) == Ok::<Seq<char>, ErrorView>(
                    dial,
                ),
                _ => join_address(n, kind, code) matches Err(ErrorView::Config(text)) && occurs(
                    "LAN"@,
                    text,
                ),
            }
        }),
        ({
            let dial = bluetooth::addr_text(addr as nat) + ":"@ + dec(channel as nat);
            let code = encoded(TransportKind::Bluetooth, dial)->Ok_0;
            match kind {
                TransportKind::Bluetooth => join_address(n, kind, code) == Ok::<
                    Seq<char>,
                    ErrorView,
                >(dial),
                _ => join_address(n, kind, code) matches Err(ErrorView::Config(text)) && occurs(
                    "Bluetooth"@,
                    text,
                ),
            }
        }),
{
    lan_dial_round_trip(octets, port);
    bluetooth_dial_round_trip(addr, channel);
    let lead = "that room code is a "@;
    let rest = " code - switch the connection mode to "@;
    let tail = " and try again"@;
    let (a, b) = (kind_text(TransportKind::Lan), kind_text(TransportKind::Bluetooth));
    assert(lead + a + rest + a + tail =~= lead + a + (rest + a + tail));
    assert(lead + b + rest + b + tail =~= lead + b + (rest + b + tail));
    a_part_occurs(lead, a, rest + a + tail);
    a_part_occurs(lead, b, rest + b + tail);
}

/// A code that cannot be read, or any code while we are in a room, leads
/// nowhere; an unreadable one fails with what is wrong with it.
pub proof fn a_bad_code_leads_nowhere(n: NodeView, kind: TransportKind, code: Seq<char>)
    ensures
        join_address(n, kind, code) is Ok <==> !n.running && (decoded(code) matches Ok(d) && d.0
            == kind),
        !n.running ==> (decoded(code) matches Err(e) ==> join_address(n, kind, code) == Err::<
            Seq<char>,
            ErrorView,
        >(e)),
        n.running ==> join_address(n, kind, code) == Err::<Seq<char>, ErrorView>(
            ErrorView::Config("you are already in a room - leave it first"@),
        ),
{
}

// --- leaving ----------------------------------------------------------------------------

/// Leaving says goodbye to everyone who is linked and to nobody else, closes
/// every link, those of waiting joiners too, and stops listening; the user is
/// told last. What we are, our transfers and our keys stay.
#[verifier::rlimit(40)]
pub proof fn leaving_says_goodbye_and_no_more(n: NodeView, ts: i64, i: int)
    requires
        n.running,
    ensures
        ({
            let step = leaving(n, ts);
            let m = step.node;
            &&& m == (NodeView {
                running: false,
                listening: false,
                peers: m.peers,
                roster: m.roster,
                pending: m.pending,
                history: m.history,
                ..n
            })
            &&& m.peers.len() == 0 && m.roster.len() == 0 && m.pending.len() == 0
            &&& m.history.len() == n.history.len() + 1
            &&& m.history.drop_last() == n.history
            &&& step.actions.len() == 2 * n.peers.len() + n.pending.len() + (if n.listening {
                2int
            } else {
                1
            })
            &&& step.actions.last() matches ActionView::Emit(EventView::RoomClosed(_))
            &&& n.listening ==> step.actions.contains(ActionView::CloseListener)
            &&& 0 <= i < n.pending.len() ==> step.actions.contains(
                ActionView::Close { link: n.pending[i].1.link },
            )
            &&& 0 <= i < step.actions.len() - 1 ==> match step.actions[i] {
                ActionView::Send { link, message } => message is Bye && exists|k: int|
                    0 <= k < n.peers.len() && (#[trigger] n.peers[k]).1.link == link,
                ActionView::Close { link } => (exists|k: int|
                    0 <= k < n.peers.len() && (#[trigger] n.peers[k]).1.link == link) || (
                exists|k: int|
                    0 <= k < n.pending.len() && (#[trigger] n.pending[k]).1.link == link),
                ActionView::CloseListener => n.listening,
                _ => false,
            }
        }),
{
    let step = leaving(n, ts);
    let g = goodbyes(n.peers);
    let p = n.pending.len();
    assert(step.node.history.drop_last() =~= n.history);
    if n.listening {
        assert(step.actions[2 * n.peers.len() as int + p as int] == ActionView::CloseListener);
    }
    if 0 <= i < p {
        assert(step.actions[g.len() as int + i] == (ActionView::Close { link: n.pending[i].1.link }));
    }
    if 0 <= i < g.len() {
        assert(step.actions[i] == g[i]);
        assert(0 <= i / 2 < n.peers.len());
        assert(n.peers[i / 2].1.link == n.peers[i / 2].1.link);
    } else if g.len() <= i < g.len() + p {
        let k = i - g.len();
        assert(step.actions[i] == (ActionView::Close { link: n.pending[k].1.link }));
    }
}

/// Dropping out closes every link and stops listening, and says nothing; the
/// transcript stays.
pub proof fn dropping_out_is_silent(n: NodeView, i: int)
    ensures
        ({
            let step = shut_down(n);
            let m = step.node;
            &&& m == (NodeView {
                running: false,
                listening: false,
                peers: m.peers,
                roster: m.roster,
                ..n
            })
            &&& m.peers.len() == 0 && m.roster.len() == 0
            &&& step.actions.len() == n.peers.len() + (if n.listening {
                1int
            } else {
                0
            })
            &&& 0 <= i < n.peers.len() ==> step.actions[i] == (ActionView::Close {
                link: n.peers[i].1.link,
            })
            &&& n.listening ==> step.actions.last() == ActionView::CloseListener
        }),
{
}

/// A room that does not let us in is over: our call is closed, the user is told
/// the host's reason or what was wrong with its reply, and no word goes out.
pub proof fn a_room_that_refuses_is_over(
    n: NodeView,
    link: u64,
    reply: InboundView,
    fingerprint: Seq<char>,
    ts: i64,
)
    requires
        !(reply matches InboundView::Message(ControlView::Welcome { .. })),
    ensures
        ({
            let step = answered_by_host(n, link, reply, fingerprint, ts);
            &&& step.node == shut_down(n).node
            &&& step.actions.len() == shut_down(n).actions.len() + 2
            &&& step.actions[0] == (ActionView::Close { link })
            &&& step.actions[1] matches ActionView::Emit(EventView::RoomClosed(reason)) && (
            reply matches InboundView::Message(ControlView::Rejected { reason: why }) ==> reason
                == why) && (reply matches InboundView::Malformed(e) ==> occurs(
                e.message(),
                reason,
            ))
            &&& step.actions.skip(2) == shut_down(n).actions
        }),
{
    let step = answered_by_host(n, link, reply, fingerprint, ts);
    assert(step.actions.skip(2) =~= shut_down(n).actions);
    if let InboundView::Malformed(e) = reply {
        let lead = "bad reply from the host: "@;
        a_part_occurs(lead, e.message(), Seq::empty());
        assert(lead + e.message() =~= lead + e.message() + Seq::<char>::empty());
    }
}

// --- links ------------------------------------------------------------------------------

/// A link that comes up is that of its peer alone: it is registered and read
/// from, the user sees who it is, where and with which fingerprint, and every
/// other peer is as it was. Outside a room it is closed, and nothing else
/// happens.
pub proof fn a_new_link_is_its_own(
    n: NodeView,
    info: PeerInfoView,
    link: u64,
    fingerprint: Seq<char>,
    ts: i64,
    other: Seq<char>,
)
    requires
        sound(n),
    ensures
        ({
            let step = attached(n, info, link, fingerprint, ts);
            let m = step.node;
            &&& !n.running ==> m == n && step.actions == seq![ActionView::Close { link }]
            &&& n.running ==> {
                &&& m == (NodeView { peers: m.peers, roster: m.roster, history: m.history, ..n })
                &&& lookup(m.peers, info.id) matches Some(p)
                &&& p.info == info && p.link == link && p.state == PeerState::Connected
                &&& lookup(m.roster, info.id) == Some(info)
                &&& other != info.id ==> lookup(m.peers, other) == lookup(n.peers, other)
                    && lookup(m.roster, other) == lookup(n.roster, other)
                &&& m.history.len() == n.history.len() + 1
                &&& m.history.drop_last() == n.history
                &&& notice_of(m.history.last(), ts, info.name)
                &&& step.actions.len() == 2
                &&& step.actions[0] matches ActionView::Emit(
                    EventView::Peer { id, name, state, detail },
                )
                &&& id == info.id && name == info.name && state == PeerState::Connected
                &&& occurs(info.addr, detail) && occurs(fingerprint, detail)
                &&& step.actions[1] == (ActionView::Read { link, peer: info })
            }
        }),
{
    let step = attached(n, info, link, fingerprint, ts);
    let none = Seq::<char>::empty();
    put_is_found(n.peers, info.id, PeerView { info, link, state: PeerState::Connected });
    put_is_found(n.roster, info.id, info);
    if n.running {
        assert(step.node.history.drop_last() =~= n.history);
        let dot = " · "@;
        assert(info.addr + dot + fingerprint =~= none + info.addr + (dot + fingerprint));
        assert(info.addr + dot + fingerprint =~= info.addr + dot + fingerprint + none);
        a_part_occurs(none, info.addr, dot + fingerprint);
        a_part_occurs(info.addr + dot, fingerprint, none);
        let tail = " connected"@;
        assert(info.name + tail =~= none + info.name + tail);
        a_part_occurs(none, info.name, tail);
    }
}

proof fn everyone_is_enrolled(
    roster: Seq<(Seq<char>, PeerInfoView)>,
    peers: Seq<PeerInfoView>,
    id: Seq<char>,
)
    requires
        crate::table::distinct(roster),
    ensures
        crate::table::distinct(enrolled(roster, peers)),
        (forall|k: int| 0 <= k < peers.len() ==> (#[trigger] peers[k]).id != id) ==> lookup(
            enrolled(roster, peers),
            id,
        ) == lookup(roster, id),
        forall|i: int|
            0 <= i < peers.len() && peers[i].id == id && (forall|k: int|
                i < k < peers.len() ==> (#[trigger] peers[k]).id != id) ==> lookup(
                enrolled(roster, peers),
                id,
            ) == Some(#[trigger] peers[i]),
    decreases peers.len(),
{
    if peers.len() > 0 {
        let t = peers.drop_last();
        let last = peers.last();
        everyone_is_enrolled(roster, t, id);
        put_is_found(enrolled(roster, t), last.id, last);
        assert forall|i: int|
            0 <= i < peers.len() && peers[i].id == id && (forall|k: int|
                i < k < peers.len() ==> (#[trigger] peers[k]).id != id) implies lookup(
            enrolled(roster, peers),
            id,
        ) == Some(#[trigger] peers[i]) by {
            if i < t.len() {
                assert(peers[peers.len() - 1].id != id);
                assert(t[i] == peers[i]);
                assert forall|k: int| i < k < t.len() implies (#[trigger] t[k]).id != id by {
                    assert(peers[k].id != id);
                }
            }
        }
        if forall|k: int| 0 <= k < peers.len() ==> (#[trigger] peers[k]).id != id {
            assert(peers[peers.len() - 1].id != id);
            assert forall|k: int| 0 <= k < t.len() implies (#[trigger] t[k]).id != id by {
                assert(peers[k].id != id);
            }
        }
    }
}

/// Once the host lets us in, its link is up and everyone whom it named is
/// approved here too, and nobody else is. The room has the host's code, the user
/// is told which room it is, everyone named is called, each once and nobody
/// else, and no message goes out.
#[verifier::rlimit(40)]
pub proof fn a_welcome_is_followed(
    n: NodeView,
    link: u64,
    room: Seq<char>,
    host: PeerInfoView,
    peers: Seq<PeerInfoView>,
    fingerprint: Seq<char>,
    ts: i64,
    i: int,
    other: Seq<char>,
)
    requires
        sound(n),
        n.running,
        0 <= i < peers.len(),
        forall|a: int, b: int|
            0 <= a < peers.len() && 0 <= b < peers.len() && (#[trigger] peers[a]).id == (
            #[trigger] peers[b]).id ==> a == b,
        peers[i].id != host.id,
    ensures
        ({
            let step = answered_by_host(
                n,
                link,
                InboundView::Message(ControlView::Welcome { room, host, peers }),
                fingerprint,
                ts,
            );
            let m = step.node;
            &&& m == (NodeView {
                room,
                peers: m.peers,
                roster: m.roster,
                history: m.history,
                ..n
            })
            &&& lookup(m.peers, host.id) == Some(
                PeerView { info: host, link, state: PeerState::Connected },
            )
            &&& other != host.id ==> lookup(m.peers, other) == lookup(n.peers, other)
            &&& lookup(m.roster, host.id) == Some(host)
            &&& lookup(m.roster, peers[i].id) == Some(peers[i])
            &&& other != host.id && (forall|k: int|
                0 <= k < peers.len() ==> (#[trigger] peers[k]).id != other) ==> lookup(
                m.roster,
                other,
            ) == lookup(n.roster, other)
            &&& m.history.len() == n.history.len() + 2 && m.history.take(n.history.len() as int)
                == n.history
            &&& notice_of(m.history[n.history.len() as int], ts, room)
            &&& step.actions.len() == peers.len() + 3
            &&& step.actions[1] == (ActionView::Read { link, peer: host })
            &&& step.actions[2] matches ActionView::Emit(EventView::Joined { room: r, transport })
                && r == room && (n.kind matches Some(k) ==> transport == kind_text(k))
            &&& step.actions[3 + i] == (ActionView::Dial { peer: peers[i] })
        }),
{
    let first = put(n.roster, host.id, host);
    put_is_found(n.roster, host.id, host);
    everyone_is_enrolled(first, peers, peers[i].id);
    everyone_is_enrolled(first, peers, other);
    let all = enrolled(first, peers);
    put_is_found(all, host.id, host);
    put_is_found(n.peers, host.id, PeerView { info: host, link, state: PeerState::Connected });
    assert forall|k: int| i < k < peers.len() implies (#[trigger] peers[k]).id != peers[i].id by {
        if peers[k].id == peers[i].id {
            assert(k == i);
        }
    }
    let step = let_in(n, link, room, host, peers, fingerprint, ts);
    assert(step.node.history.take(n.history.len() as int) =~= n.history);
    let lead = "Joined room "@;
    let tail = " over "@ + crate::mesh::transport_name(n);
    assert(lead + room + " over "@ + crate::mesh::transport_name(n) =~= lead + room + tail);
    a_part_occurs(lead, room, tail);
}

/// The reply to our mesh call either makes the link, if it is an
/// acknowledgement, or changes nothing: a refusal is told with the peer's
/// reason, and the call is closed.
pub proof fn a_mesh_call_makes_a_link_or_nothing(
    n: NodeView,
    link: u64,
    reply: InboundView,
    fingerprint: Seq<char>,
    ts: i64,
)
    ensures
        ({
            let (step, r) = answered_by_peer(n, link, reply, fingerprint, ts);
            &&& r is Ok <==> (reply matches InboundView::Message(ControlView::MeshAck { .. }))
            &&& reply matches InboundView::Message(ControlView::MeshAck { peer }) ==> step
                == attached(n, peer, link, fingerprint, ts)
            &&& r is Err ==> step.node == n
            &&& reply matches InboundView::Message(ControlView::Rejected { reason }) ==> r == Err::<
                (),
                ErrorView,
            >(ErrorView::Closed(reason)) && step.actions == seq![ActionView::Close { link }]
            &&& reply matches InboundView::Malformed(e) ==> r == Err::<(), ErrorView>(e)
                && step.actions.len() == 0
            &&& r is Err && !(reply is Malformed) ==> step.actions == seq![
                ActionView::Close { link },
            ]
        }),
{
}

// --- those who call ------------------------------------------------------------------------

/// Attempts are counted by address: two calls from one address are from one
/// source, whatever their ports are.
pub proof fn ports_are_not_counted(addr: Seq<char>, port: Seq<char>)
    requires
        !port.contains(':'),
    ensures
        crate::mesh::source_of(addr + seq![':'] + port) == addr,
        !addr.contains(':') ==> crate::mesh::source_of(addr) == addr,
{
    last_at_between(addr, ':', port);
    assert((addr + seq![':'] + port).take(addr.len() as int) =~= addr);
    last_at_is_last(addr, ':');
}

/// A call is counted against its source and changes nothing else. One that is
/// within the budgets goes on; one that is not is closed without a word to the
/// caller, and the user is told where it came from.
pub proof fn a_call_is_only_counted(
    n: NodeView,
    addr: Seq<char>,
    port: Seq<char>,
    link: u64,
    now: u64,
)
    requires
        !port.contains(':'),
    ensures
        ({
            let step = called(n, addr + seq![':'] + port, link, now);
            &&& step.node == (NodeView { limiter: step.node.limiter, ..n })
            &&& step.node.limiter == crate::ratelimit::attempted(n.limiter, addr, now)
            &&& step.actions.len() == 0 <==> allowed(n.limiter, addr, now)
            &&& !allowed(n.limiter, addr, now) ==> {
                &&& step.actions.len() == 2
                &&& step.actions[0] matches ActionView::Emit(EventView::Status(text))
                &&& occurs(addr, text)
                &&& step.actions[1] == (ActionView::Close { link })
            }
        }),
{
    ports_are_not_counted(addr, port);
    a_part_occurs("ignored a connection attempt from "@, addr, " (too many attempts)"@);
}

/// A request to join is taken exactly if it speaks our protocol, we are the
/// host, the code is ours and has not expired, and the id is not taken; and
/// whoever is refused is told what was wrong.
pub proof fn a_request_is_refused_for_a_reason(
    n: NodeView,
    version: u32,
    room: Seq<char>,
    peer: PeerInfoView,
    now: u64,
)
    ensures
        ({
            let refusal = hello_refusal(n, version, room, peer, now);
            let speaks = version == PROTOCOL_VERSION;
            let host = n.role == Some(Role::Host);
            let code = canonical(room) == canonical(n.room);
            let late = n.open_until matches Some(t) && now > t;
            let known = n.me.id == peer.id || lookup(n.roster, peer.id) is Some;
            &&& refusal is None <==> speaks && host && code && !late && !known
            &&& !speaks ==> (refusal matches Some(text) && occurs(dec(version as nat), text)
                && occurs(dec(PROTOCOL_VERSION as nat), text))
            &&& speaks && !host ==> refusal == Some("this peer is not the host of that room"@)
            &&& speaks && host && !code ==> refusal == Some(
                "that room code does not match this room"@,
            )
            &&& speaks && host && code && late ==> refusal == Some(
                "this room code has expired - ask the host to reopen joining"@,
            )
            &&& speaks && host && code && !late && known ==> refusal == Some(
                "a peer with that id is already in the room"@,
            )
        }),
{
    row_of_is_row(n.roster, peer.id);
    let lead = "the host runs protocol v"@;
    let mid = ", you run v"@;
    let (a, b) = (dec(PROTOCOL_VERSION as nat), dec(version as nat));
    let none = Seq::<char>::empty();
    assert(lead + a + mid + b =~= lead + a + (mid + b));
    assert(lead + a + mid + b =~= lead + a + mid + b + none);
    a_part_occurs(lead, a, mid + b);
    a_part_occurs(lead + a + mid, b, none);
}

/// A request that is taken waits under its own number, with the joiner's link
/// and all that the joiner said of itself, and the host is shown the name as
/// it may be displayed, the address (that of the call, if the joiner gave none)
/// and the fingerprint of the joiner's link. Those who waited before still wait,
/// and nothing else changes and nothing is sent. One that is refused is
/// answered once, closed, and forgotten.
pub proof fn a_request_waits_as_it_came(
    n: NodeView,
    link: u64,
    version: u32,
    room: Seq<char>,
    peer: PeerInfoView,
    source: Seq<char>,
    fingerprint: Seq<char>,
    now: u64,
    other: Seq<char>,
)
    requires
        sound(n),
    ensures
        ({
            let step = asked(n, link, version, room, peer, source, fingerprint, now);
            let m = step.node;
            match hello_refusal(n, version, room, peer, now) {
                Some(why) => {
                    &&& m == n
                    &&& step.actions == seq![
                        ActionView::Send { link, message: ControlView::Rejected { reason: why } },
                        ActionView::Close { link },
                    ]
                },
                None => {
                    &&& m == (NodeView { req_seq: m.req_seq, pending: m.pending, ..n })
                    &&& n.req_seq < u64::MAX ==> m.req_seq == n.req_seq + 1
                    &&& step.actions.len() == 1
                    &&& step.actions[0] matches ActionView::Emit(
                        EventView::JoinRequest { req, name, addr, fingerprint: theirs },
                    )
                    &&& req == dec(n.req_seq as nat)
                    &&& name == sane_name(peer.name)
                    &&& peer.addr.len() > 0 ==> addr == peer.addr
                    &&& peer.addr.len() == 0 ==> addr == source
                    &&& theirs == fingerprint
                    &&& lookup(m.pending, req) matches Some(p)
                    &&& p.link == link
                    &&& p.info.id == peer.id && p.info.addr == peer.addr && p.info.fingerprint
                        == peer.fingerprint && p.info.name == name
                    &&& other != req ==> lookup(m.pending, other) == lookup(n.pending, other)
                },
            }
        }),
{
    let req = dec(n.req_seq as nat);
    let p = PendingView { info: PeerInfoView { name: sane_name(peer.name), ..peer }, link };
    put_is_found(n.pending, req, p);
}

/// A mesh call is turned away at once exactly if it speaks another protocol or
/// is for another room.
pub proof fn a_mesh_call_needs_the_room(n: NodeView, version: u32, room: Seq<char>)
    ensures
        mesh_refusal(n, version, room) is None <==> version == PROTOCOL_VERSION && canonical(room)
            == canonical(n.room),
        version != PROTOCOL_VERSION ==> mesh_refusal(n, version, room) == Some(
            "protocol version mismatch"@,
        ),
        version == PROTOCOL_VERSION && canonical(room) != canonical(n.room) ==> mesh_refusal(
            n,
            version,
            room,
        ) == Some("that room code does not match this room"@),
{
}

/// A peer who is approved gets one link: its call is acknowledged with who we
/// are, and while it is linked another call is refused.
pub proof fn a_peer_gets_one_link(
    n: NodeView,
    info: PeerInfoView,
    link: u64,
    fingerprint: Seq<char>,
    ts: i64,
    now: u64,
    deadline: u64,
)
    requires
        sound(n),
        n.running,
    ensures
        held(attached(n, info, link, fingerprint, ts).node, info.id, now, deadline)
            == HeldView::Refuse("already linked to that peer"@),
        lookup(n.roster, info.id) is Some && lookup(n.peers, info.id) is None ==> held(
            n,
            info.id,
            now,
            deadline,
        ) == HeldView::Welcome(ControlView::MeshAck { peer: n.me }),
        lookup(n.roster, info.id) is None && now >= deadline ==> held(n, info.id, now, deadline)
            == HeldView::Refuse(
            "you are not on this room's approved list (ask the host to approve you first)"@,
        ),
{
    put_is_found(n.peers, info.id, PeerView { info, link, state: PeerState::Connected });
    put_is_found(n.roster, info.id, info);
    row_of_is_row(n.roster, info.id);
    row_of_is_row(n.peers, info.id);
}

// --- the host's answer ------------------------------------------------------------------------

/// The host's answer settles the one request it is for and leaves those of
/// everyone else waiting. Without such a request it fails and changes nothing.
pub proof fn an_answer_is_for_one_request(
    n: NodeView,
    req: Seq<char>,
    accept: bool,
    ts: i64,
    r: Result<Approval, Error>,
    after: NodeView,
    other: Seq<char>,
)
    requires
        sound(n),
        decided(n, req, accept, ts, r, after),
    ensures
        other != req ==> lookup(after.pending, other) == lookup(n.pending, other),
        lookup(after.pending, req) is None,
        r is Ok <==> lookup(n.pending, req) is Some,
        r is Err ==> after == n && r->Err_0@ == ErrorView::Protocol(
            "that join request is no longer pending"@,
        ),
        after.peers == n.peers,
        after == (NodeView {
            pending: after.pending,
            roster: after.roster,
            history: after.history,
            ..n
        }),
{
    without_is_gone(n.pending, req);
    row_of_is_row(n.pending, req);
    row_of_is_row(after.pending, req);
}

/// A yes is for the joiner who asked: they are on the roster as they were
/// shown, their own link gets the welcome, and the welcome tells the room, who
/// we are and everyone who is linked, in order. Everyone else on the roster is
/// as before, and everyone linked is told of the newcomer and of nothing else.
#[verifier::rlimit(40)]
pub proof fn a_yes_is_for_the_one_who_asked(
    n: NodeView,
    req: Seq<char>,
    ts: i64,
    r: Result<Approval, Error>,
    after: NodeView,
    i: int,
    other: Seq<char>,
)
    requires
        sound(n),
        lookup(n.pending, req) is Some,
        decided(n, req, true, ts, r, after),
    ensures
        ({
            let p = lookup(n.pending, req)->Some_0;
            &&& after.history == n.history
            &&& lookup(after.roster, p.info.id) == Some(p.info)
            &&& other != p.info.id ==> lookup(after.roster, other) == lookup(n.roster, other)
            &&& r matches Ok(Approval::Welcome { first, message, link, info })
            &&& link == p.link && info@ == p.info
            &&& message@ matches ControlView::Welcome { room, host, peers }
            &&& room == n.room && host == n.me && peers.len() == n.peers.len()
            &&& 0 <= i < n.peers.len() ==> peers[i] == n.peers[i].1.info
            &&& first@.len() == n.peers.len()
            &&& 0 <= i < n.peers.len() ==> (first@[i]@ matches ActionView::Tell {
                link: to,
                message: m,
                trouble,
            } && to == n.peers[i].1.link && m == (ControlView::PeerJoined { peer: p.info })
                && occurs(n.peers[i].1.info.name, trouble))
        }),
{
    let p = lookup(n.pending, req)->Some_0;
    put_is_found(n.roster, p.info.id, p.info);
    let step = accepted(n, req, p);
    if 0 <= i < n.peers.len() {
        if let Ok(Approval::Welcome { first, .. }) = r {
            a_step_is_taken_whole(after, first@, step, i);
        }
        a_part_occurs("could not tell "@, n.peers[i].1.info.name, " about the new peer"@);
    } else if let Ok(Approval::Welcome { first, .. }) = r {
        assert(each(first@).len() == first@.len());
    }
}

/// A no is told to the joiner who asked and to nobody else: their link gets
/// the refusal and is closed, they are on no roster because of it, and the user
/// and the transcript are told whose request it was.
#[verifier::rlimit(40)]
pub proof fn a_no_is_for_the_one_who_asked(
    n: NodeView,
    req: Seq<char>,
    ts: i64,
    r: Result<Approval, Error>,
    after: NodeView,
)
    requires
        sound(n),
        lookup(n.pending, req) is Some,
        decided(n, req, false, ts, r, after),
    ensures
        ({
            let p = lookup(n.pending, req)->Some_0;
            &&& after.roster == n.roster
            &&& after.history.len() == n.history.len() + 1
            &&& after.history.drop_last() == n.history
            &&& notice_of(after.history.last(), ts, p.info.name)
            &&& r matches Ok(Approval::Declined(actions))
            &&& actions@.len() == 4
            &&& actions@[0]@ == (ActionView::Send {
                link: p.link,
                message: ControlView::Rejected {
                    reason: "the host declined your request to join"@,
                },
            })
            &&& actions@[1]@ == (ActionView::Close { link: p.link })
            &&& actions@[2]@ matches ActionView::Emit(EventView::System(text))
            &&& occurs(p.info.name, text)
            &&& actions@[3]@ == ActionView::Emit(EventView::JoinResolved { req, accepted: false })
        }),
{
    let p = lookup(n.pending, req)->Some_0;
    let step = declined(n, req, p, ts);
    let none = Seq::<char>::empty();
    assert(after.history.drop_last() =~= n.history);
    let lead = "Declined a join request from "@;
    assert(lead + p.info.name =~= lead + p.info.name + none);
    a_part_occurs(lead, p.info.name, none);
    a_part_occurs("Declined "@, p.info.name, "'s request"@);
    if let Ok(Approval::Declined(actions)) = r {
        a_step_is_taken_whole(after, actions@, step, 0);
        a_step_is_taken_whole(after, actions@, step, 1);
        a_step_is_taken_whole(after, actions@, step, 2);
        a_step_is_taken_whole(after, actions@, step, 3);
    }
}

/// A settled request is reported as accepted, under its own number, and what
/// follows is what follows from any link that comes up.
pub proof fn a_settled_request_is_reported(
    n: NodeView,
    req: Seq<char>,
    info: PeerInfoView,
    link: u64,
    fingerprint: Seq<char>,
    ts: i64,
)
    ensures
        ({
            let step = settled(n, req, info, link, fingerprint, ts);
            let linked = attached(n, info, link, fingerprint, ts);
            &&& step.node == linked.node
            &&& step.actions[0] == ActionView::Emit(EventView::JoinResolved { req, accepted: true })
            &&& step.actions.skip(1) == linked.actions
        }),
{
    let step = settled(n, req, info, link, fingerprint, ts);
    assert(step.actions.skip(1) =~= attached(n, info, link, fingerprint, ts).actions);
}

// --- running links -----------------------------------------------------------------------------

proof fn departure_text(name: Seq<char>, reason: Seq<char>)
    ensures
        occurs(name, name + " disconnected ("@ + reason + ")"@),
        occurs(reason, name + " disconnected ("@ + reason + ")"@),
{
    let none = Seq::<char>::empty();
    let mid = " disconnected ("@;
    assert(name + mid + reason + ")"@ =~= none + name + (mid + reason + ")"@));
    a_part_occurs(none, name, mid + reason + ")"@);
    a_part_occurs(name + mid, reason, ")"@);
}

/// Someone who is gone is off the list, and the transcript and the user are
/// told who and why. The host takes them off the roster too. Everyone else stays
/// linked and approved, and nothing else changes but the transfers.
#[verifier::rlimit(40)]
pub proof fn a_departure_is_told(
    n: NodeView,
    info: PeerInfoView,
    link: u64,
    reason: Seq<char>,
    ts: i64,
    other: Seq<char>,
)
    requires
        sound(n),
        lookup(n.peers, info.id) is Some,
    ensures
        ({
            let step = gone(n, info, link, reason, ts);
            let m = step.node;
            let host = n.role == Some(Role::Host);
            &&& m == (NodeView {
                peers: m.peers,
                roster: m.roster,
                transfers: m.transfers,
                history: m.history,
                ..n
            })
            &&& lookup(m.peers, info.id) is None
            &&& other != info.id ==> lookup(m.peers, other) == lookup(n.peers, other)
            &&& host ==> lookup(m.roster, info.id) is None
            &&& other != info.id || !host ==> lookup(m.roster, other) == lookup(n.roster, other)
            &&& m.history.len() == n.history.len() + 1 && m.history.drop_last() == n.history
            &&& notice_of(m.history.last(), ts, info.name) && occurs(
                reason,
                m.history.last().body,
            )
            &&& step.actions.len() > 1
            &&& step.actions[0] == (ActionView::Close { link })
            &&& step.actions.last() == ActionView::Emit(
                EventView::Peer {
                    id: info.id,
                    name: info.name,
                    state: PeerState::Disconnected,
                    detail: reason,
                },
            )
        }),
{
    let step = gone(n, info, link, reason, ts);
    let m = step.node;
    without_is_gone(n.peers, info.id);
    without_is_gone(n.roster, info.id);
    row_of_is_row(n.peers, info.id);
    row_of_is_row(m.peers, info.id);
    row_of_is_row(m.roster, info.id);
    assert(m.history.drop_last() =~= n.history);
    departure_text(info.name, reason);
}

/// When someone is gone, the host tells everyone who is still linked, on their
/// own link.
pub proof fn the_host_passes_a_departure_on(
    n: NodeView,
    info: PeerInfoView,
    link: u64,
    reason: Seq<char>,
    ts: i64,
    other: Seq<char>,
    p: PeerView,
)
    requires
        sound(n),
        n.role == Some(Role::Host),
        lookup(n.peers, info.id) is Some,
        other != info.id,
        lookup(n.peers, other) == Some(p),
    ensures
        gone(n, info, link, reason, ts).actions.contains(
            ActionView::Send {
                link: p.link,
                message: ControlView::PeerLeft { id: info.id, name: info.name },
            },
        ),
{
    let step = gone(n, info, link, reason, ts);
    let rest = step.node.peers;
    let files = cancelled(n.transfers, info.id).actions;
    let left = ControlView::PeerLeft { id: info.id, name: info.name };
    row_of_is_row(n.peers, info.id);
    without_is_gone(n.peers, info.id);
    lookup_is_row(rest, other, p);
    let k = choose|k: int| 0 <= k < rest.len() && rest[k] == (other, p);
    assert(step.actions[1 + files.len() as int + k] == (ActionView::Send {
        link: p.link,
        message: left,
    }));
}

/// When someone is gone, no link but theirs is closed, and nobody is called.
/// Only the host sends anything, and only that notice, to someone who was linked
/// besides them.
#[verifier::rlimit(40)]
pub proof fn nothing_else_follows_a_departure(
    n: NodeView,
    info: PeerInfoView,
    link: u64,
    reason: Seq<char>,
    ts: i64,
    i: int,
)
    requires
        sound(n),
        lookup(n.peers, info.id) is Some,
        0 < i < gone(n, info, link, reason, ts).actions.len(),
    ensures
        match gone(n, info, link, reason, ts).actions[i] {
            ActionView::Send { link: to, message } => {
                &&& n.role == Some(Role::Host)
                &&& message == (ControlView::PeerLeft { id: info.id, name: info.name })
                &&& exists|who: Seq<char>|
                    who != info.id && (#[trigger] lookup(n.peers, who) matches Some(p) && p.link
                        == to)
            },
            ActionView::Close { .. } => false,
            ActionView::Tell { .. } => false,
            ActionView::Dial { .. } => false,
            ActionView::Read { .. } => false,
            ActionView::CloseListener => false,
            _ => true,
        },
{
    let step = gone(n, info, link, reason, ts);
    let rest = step.node.peers;
    let files = cancelled(n.transfers, info.id).actions;
    let left = ControlView::PeerLeft { id: info.id, name: info.name };
    let host = n.role == Some(Role::Host);
    row_of_is_row(n.peers, info.id);
    row_of_is_row(rest, info.id);
    without_is_gone(n.peers, info.id);
    if i < 1 + files.len() {
        assert(step.actions[i] == files[i - 1]);
        only_their_transfers_end(n.transfers, info.id, i - 1);
    } else if host && i < 1 + files.len() + rest.len() {
        let row = rest[i - 1 - files.len()];
        assert(step.actions[i] == (ActionView::Send { link: row.1.link, message: left }));
        assert(rest.contains(row));
        lookup_is_row(rest, row.0, row.1);
        assert(lookup(n.peers, row.0) == Some(row.1));
    } else {
        assert(step.actions[i] == step.actions.last());
    }
}

/// Someone who was not linked cannot go: nothing happens.
pub proof fn a_stranger_cannot_go(
    n: NodeView,
    info: PeerInfoView,
    link: u64,
    reason: Seq<char>,
    ts: i64,
)
    requires
        lookup(n.peers, info.id) is None,
    ensures
        gone(n, info, link, reason, ts).node == n,
        gone(n, info, link, reason, ts).actions.len() == 0,
{
    row_of_is_row(n.peers, info.id);
}

/// A chat line that comes in is shown and recorded with its author, its time
/// and the whole of its text, as somebody else's; nothing else changes, and
/// nothing is sent.
pub proof fn a_line_is_heard_as_it_came(
    n: NodeView,
    from: PeerInfoView,
    link: u64,
    id: Seq<char>,
    author: Seq<char>,
    name: Seq<char>,
    sent: i64,
    body: Seq<char>,
    ts: i64,
)
    ensures
        ({
            let c = ControlView::Chat { id, from: author, name, ts: sent, body };
            let step = heard(n, from, link, c, ts);
            let m = step.node;
            &&& m == (NodeView { history: m.history, ..n })
            &&& m.history.len() == n.history.len() + 1 && m.history.drop_last() == n.history
            &&& m.history.last().body == body
            &&& m.history.last().ts == sent
            &&& m.history.last().sender == sane_name(name)
            &&& m.history.last().sender_id == author
            &&& m.history.last().kind == RecordKind::Message
            &&& step.actions.len() == 1
            &&& step.actions[0] matches ActionView::Emit(
                EventView::Chat { from: f, name: shown, ts: t, body: b, mine },
            )
            &&& f == author && shown == sane_name(name) && t == sent && b == body && !mine
        }),
{
    let c = ControlView::Chat { id, from: author, name, ts: sent, body };
    assert(heard(n, from, link, c, ts).node.history.drop_last() =~= n.history);
}

/// The host's word on who comes and goes changes the roster, for the one it is
/// about, and nothing else: no link is made or closed because of it.
pub proof fn the_roster_follows_the_host(
    n: NodeView,
    from: PeerInfoView,
    link: u64,
    peer: PeerInfoView,
    id: Seq<char>,
    name: Seq<char>,
    ts: i64,
    other: Seq<char>,
)
    requires
        sound(n),
    ensures
        ({
            let step = heard(n, from, link, ControlView::PeerJoined { peer }, ts);
            let m = step.node;
            &&& m == (NodeView { roster: m.roster, ..n })
            &&& lookup(m.roster, peer.id) == Some(peer)
            &&& other != peer.id ==> lookup(m.roster, other) == lookup(n.roster, other)
            &&& step.actions.len() == 1
            &&& step.actions[0] matches ActionView::Emit(EventView::System(text)) && occurs(
                peer.name,
                text,
            )
        }),
        ({
            let step = heard(n, from, link, ControlView::PeerLeft { id, name }, ts);
            let m = step.node;
            &&& m == (NodeView { roster: m.roster, ..n })
            &&& lookup(m.roster, id) is None
            &&& other != id ==> lookup(m.roster, other) == lookup(n.roster, other)
            &&& step.actions.len() == 1
            &&& step.actions[0] matches ActionView::Emit(EventView::System(text)) && occurs(
                name,
                text,
            )
        }),
{
    put_is_found(n.roster, peer.id, peer);
    without_is_gone(n.roster, id);
    row_of_is_row(crate::table::without(n.roster, id), id);
    let none = Seq::<char>::empty();
    let a = " was approved by the host and will connect directly"@;
    let b = " left the room"@;
    assert(peer.name + a =~= none + peer.name + a);
    assert(name + b =~= none + name + b);
    a_part_occurs(none, peer.name, a);
    a_part_occurs(none, name, b);
}

/// A refusal on a running link is shown with who sent it and why; the messages
/// of the handshake mean nothing there. Neither changes anything.
pub proof fn late_answers_change_nothing(
    n: NodeView,
    from: PeerInfoView,
    link: u64,
    c: ControlView,
    ts: i64,
)
    requires
        c is Rejected || c is Hello || c is MeshHello || c is Welcome || c is MeshAck,
    ensures
        heard(n, from, link, c, ts).node == n,
        !(c is Rejected) ==> heard(n, from, link, c, ts).actions.len() == 0,
        c matches ControlView::Rejected { reason } ==> {
            &&& heard(n, from, link, c, ts).actions.len() == 1
            &&& heard(n, from, link, c, ts).actions[0] matches ActionView::Emit(
                EventView::Error(text),
            )
            &&& occurs(from.name, text) && occurs(reason, text)
        },
{
    if let ControlView::Rejected { reason } = c {
        let none = Seq::<char>::empty();
        let text = from.name + ": "@ + reason;
        assert(text =~= none + from.name + (": "@ + reason));
        assert(text =~= from.name + ": "@ + reason + none);
        a_part_occurs(none, from.name, ": "@ + reason);
        a_part_occurs(from.name + ": "@, reason, none);
    }
}

/// A message about a file touches nothing but the transfers, and the transcript
/// only at its end.
pub proof fn files_leave_the_room_alone(
    n: NodeView,
    from: PeerInfoView,
    link: u64,
    c: ControlView,
    ts: i64,
)
    requires
        c is FileOffer || c is FileAccept || c is FileDecline || c is FileDone || c is FileAbort,
    ensures
        ({
            let step = heard(n, from, link, c, ts);
            let files = crate::files::file_control(n.transfers, from, c, ts);
            let m = step.node;
            &&& m == (NodeView { transfers: m.transfers, history: m.history, ..n })
            &&& m.transfers == files.transfers && step.actions == files.actions
            &&& m.history.len() == n.history.len() + files.records.len()
            &&& m.history.take(n.history.len() as int) == n.history
            &&& m.history.skip(n.history.len() as int) == files.records
        }),
{
    let m = heard(n, from, link, c, ts).node;
    let files = crate::files::file_control(n.transfers, from, c, ts);
    assert(m.history.take(n.history.len() as int) =~= n.history);
    assert(m.history.skip(n.history.len() as int) =~= files.records);
}

/// A goodbye ends its sender's link, and is reported as such.
pub proof fn a_goodbye_ends_the_link(
    n: NodeView,
    from: PeerInfoView,
    link: u64,
    ts: i64,
    other: Seq<char>,
)
    requires
        sound(n),
        lookup(n.peers, from.id) is Some,
    ensures
        ({
            let step = heard(n, from, link, ControlView::Bye, ts);
            &&& lookup(step.node.peers, from.id) is None
            &&& other != from.id ==> lookup(step.node.peers, other) == lookup(n.peers, other)
            &&& step.node.running == n.running
            &&& step.actions[0] == (ActionView::Close { link })
            &&& step.actions.last() == ActionView::Emit(
                EventView::Peer {
                    id: from.id,
                    name: from.name,
                    state: PeerState::Disconnected,
                    detail: "the peer closed the room"@,
                },
            )
        }),
{
    a_departure_is_told(n, from, link, "the peer closed the room"@, ts, other);
}

/// A link that ends without an error of its own was closed by the peer; any
/// other failure is told in its own words.
pub proof fn a_failed_link_is_explained(e: ErrorView)
    ensures
        e matches ErrorView::Io(io) ==> disconnect_text(e) == if io.kind
            == crate::error::IoErrorKind::UnexpectedEof {
            "the peer closed the connection"@
        } else {
            io.message
        },
        !(e is Io) ==> disconnect_text(e) == e.message(),
{
}

// --- chat ------------------------------------------------------------------------------------------

/// A line of ours is one line everywhere. What is shown on our own screen
/// first, what is recorded last in our transcript and what goes out has the
/// same author, time and text, and the text is what was typed, without the
/// space around it.
#[verifier::rlimit(40)]
pub proof fn our_line_is_the_same_everywhere(
    n: NodeView,
    text: Seq<char>,
    id: Seq<char>,
    ts: i64,
    r: Result<Vec<Action>, Error>,
    after: NodeView,
    i: int,
)
    requires
        chatted(n, text, id, ts, r, after),
        trimmed(text).len() > 0,
        r is Ok,
    ensures
        ({
            let actions = r->Ok_0@;
            let body = trimmed(text);
            &&& actions.len() > 0
            &&& actions[0]@ matches ActionView::Emit(
                EventView::Chat { from, name, ts: at, body: shown, mine },
            )
            &&& from == n.me.id && name == n.me.name && at == ts && shown == body && mine
            &&& after == (NodeView { history: after.history, ..n })
            &&& after.history.len() == n.history.len() + 1 && after.history.drop_last() == n.history
            &&& after.history.last().sender == name
            &&& after.history.last().sender_id == from
            &&& after.history.last().ts == at
            &&& after.history.last().body == shown
            &&& after.history.last().kind == RecordKind::Message
            &&& 0 < i < actions.len() ==> match actions[i]@ {
                ActionView::Tell { link, message, .. } => message == (ControlView::Chat {
                    id,
                    from,
                    name,
                    ts: at,
                    body: shown,
                }) && exists|k: int|
                    0 <= k < n.peers.len() && (#[trigger] n.peers[k]).1.link == link,
                ActionView::Emit(e) => e is System && n.peers.len() == 0,
                _ => false,
            }
            &&& n.peers.len() == 0 ==> actions.len() == 2
            &&& n.peers.len() > 0 ==> actions.len() == n.peers.len() + 1
            &&& 0 <= i < n.peers.len() ==> (actions[i + 1]@ matches ActionView::Tell {
                link,
                message,
                trouble,
            } && link == n.peers[i].1.link && occurs(n.peers[i].1.info.name, trouble)
                && message == (ControlView::Chat { id, from, name, ts: at, body: shown }))
        }),
{
    let actions = r->Ok_0@;
    let body = trimmed(text);
    let step = crate::mesh::said(n, body, id, ts);
    assert(each(actions).len() == actions.len());
    assert(after.history.drop_last() =~= n.history);
    a_step_is_taken_whole(after, actions, step, 0);
    if 0 < i < actions.len() {
        a_step_is_taken_whole(after, actions, step, i);
        if n.peers.len() > 0 {
            assert(n.peers[i - 1].1.link == n.peers[i - 1].1.link);
        }
    }
    if 0 <= i < n.peers.len() {
        a_step_is_taken_whole(after, actions, step, i + 1);
        let who = n.peers[i].1.info.name;
        let none = Seq::<char>::empty();
        reveal_strlit("");
        assert("could not deliver to "@ + who + ""@ =~= "could not deliver to "@ + who + none);
        a_part_occurs("could not deliver to "@, who, none);
    }
}

/// A blank line is not sent, and one that does not fit into a frame is refused;
/// neither leaves a trace. Any other line is taken.
pub proof fn blank_and_endless_lines_are_not_sent(
    n: NodeView,
    text: Seq<char>,
    id: Seq<char>,
    ts: i64,
    r: Result<Vec<Action>, Error>,
    after: NodeView,
)
    requires
        chatted(n, text, id, ts, r, after),
    ensures
        trimmed(text).len() == 0 ==> r is Ok && r->Ok_0@.len() == 0 && after == n,
        r is Err <==> trimmed(text).len() > 0 && crate::protocol::chat_len(
            id,
            n.me.id,
            n.me.name,
            ts,
            trimmed(text),
        ) > 65_519,
        r matches Err(e) ==> e@ == ErrorView::Config("that message is too long"@) && after == n,
{
}

// --- files ------------------------------------------------------------------------------------------

/// A file that we start to send is kept under its own id with whom it goes to;
/// every other transfer is as it was.
pub proof fn an_upload_is_kept_with_its_recipient(
    n: NodeView,
    id: Seq<u8>,
    who: Seq<char>,
    other: Seq<u8>,
)
    requires
        sound(n),
    ensures
        ({
            let m = uploading(n, id, who);
            &&& lookup(m.transfers.outgoing, id) == Some(who)
            &&& other != id ==> lookup(m.transfers.outgoing, other) == lookup(
                n.transfers.outgoing,
                other,
            )
            &&& m.transfers.active == n.transfers.active && m.transfers.offers == n.transfers.offers
            &&& m == (NodeView { transfers: m.transfers, ..n })
        }),
{
    put_is_found(n.transfers.outgoing, id, who);
}

/// A file of which nothing was sent starts at its beginning, on its
/// recipient's own link, with the name, size and sum it was given.
pub proof fn an_upload_starts_from_nothing(
    id: Seq<u8>,
    peer: PeerView,
    name: Seq<char>,
    size: u64,
    sum: Seq<char>,
)
    ensures
        ({
            let u = crate::mesh::fresh_upload(id, peer, name, size, sum);
            &&& u.id == id && u.name == name && u.size == size && u.sha == sum
            &&& u.peer == peer.info && u.link == peer.link
            &&& u.sent == 0 && u.seq == 0 && u.last is None
        }),
{
}

} // verus!
