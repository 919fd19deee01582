//! What the operations of a node promise whoever calls them: each law speaks
//! of a call, by what went in, what came back and what the node was before and
//! after it.

use vstd::prelude::*;

use crate::crypto::{fingerprint_text, Identity, SecureLink};
use crate::error::{Error, ErrorView};
use crate::events::{Action, ActionView, Event, EventView, Inbound, InboundView, PeerState};
use crate::files::{ActiveView, OfferView, Upload, UploadEnd, Verdict};
use crate::hashing::sha256;
use crate::history::{
    full_time, full_times, heading, occurs, record_lines, ChatRecord, RecordKind, RecordView,
};
use crate::laws::parts::a_transcript_holds_its_records;
use crate::laws::rooms::{
    a_call_is_only_counted, a_departure_is_told, a_fresh_limiter_counts_anew,
    a_line_is_heard_as_it_came, a_new_link_is_its_own, a_no_is_for_the_one_who_asked,
    a_reopened_room_closes_again, a_request_waits_as_it_came, a_room_that_refuses_is_over,
    a_step_is_taken_whole, a_yes_is_for_the_one_who_asked, an_answer_is_for_one_request,
    an_opened_room_is_announced, counts_anew, dropping_out_is_silent,
    leaving_says_goodbye_and_no_more, our_line_is_the_same_everywhere,
};
use crate::laws::transfers::{
    a_leaver_takes_only_their_own_files, a_part_occurs, a_refused_transfer_ends,
    a_stored_chunk_counts_once, an_upload_ends_by_itself, only_the_next_chunk_is_written,
    untouched_but,
};
use crate::mesh::{
    answered_by_host, asked, attached, called, chatted, decided, gone, heard, hello_refusal,
    hosting, joining, leaving, malformed_message, settled, sound, took, transport_name, Accepted,
    Answer, Approval, Dial, DialStep, First, Held, Moment, Node, NodeView, Peer, PeerView, Role,
};
use crate::names::{sane_name, size_text};
use crate::protocol::{id_in, new_id, now_ts, Control, ControlView, PeerInfo, PeerInfoView};
use crate::ratelimit::allowed;
use crate::roomcode::{canonical, case_is_ignored, decoded, encoded, space_around_is_ignored};
use crate::table::{has_key, lookup, put_is_found, row_of_is_row, without_is_gone};
use crate::text::trimmed;
use crate::transport::{kind_text, Stream, TransportKind};
use crate::views::each;
use crate::PROTOCOL_VERSION;

verus! {

// --- rooms --------------------------------------------------------------------------

/// Reopening is the host's alone. It opens the room for `ttl` and not longer:
/// whoever has the code and asks later than that is refused as too late, and
/// nobody who is in the room or waits for it is touched.
pub proof fn reopening_lasts_for_its_time(
    node: &mut Node,
    ttl: u64,
    at: Moment,
    r: Result<Vec<Action>, Error>,
    later: u64,
    room: Seq<char>,
    peer: PeerInfoView,
)
    requires
        call_ensures(Node::reopen_joining, (node, ttl, at), r),
        at.now + ttl <= u64::MAX,
        canonical(room) == canonical(old(node)@.room),
        !has_key(old(node)@.roster, peer.id),
        old(node)@.me.id != peer.id,
    ensures
        r is Ok <==> old(node)@.role == Some(Role::Host),
        r matches Err(e) ==> final(node)@ == old(node)@ && e@ == ErrorView::Config(
            "only the host can reopen joining"@,
        ),
        r is Ok && later > at.now + ttl ==> hello_refusal(
            final(node)@,
            PROTOCOL_VERSION,
            room,
            peer,
            later,
        ) == Some("this room code has expired - ask the host to reopen joining"@),
        r is Ok && later <= at.now + ttl ==> hello_refusal(
            final(node)@,
            PROTOCOL_VERSION,
            room,
            peer,
            later,
        ) is None,
        r is Ok ==> counts_anew(final(node)@.limiter),
        final(node)@ == (NodeView {
            open_until: final(node)@.open_until,
            limiter: final(node)@.limiter,
            ..old(node)@
        }),
{
    if r is Ok {
        let none = Seq::<char>::empty();
        a_reopened_room_closes_again(old(node)@, ttl, at.now, later, room, peer, 0, none, none);
    }
}

/// Opening a room fails in a room, and where the address has no code, and then
/// changes nothing. Otherwise the room is announced with the code that came
/// back, and with that code the room is open for `ttl` and not longer.
#[verifier::rlimit(40)]
pub proof fn an_open_room_has_its_code(
    node: &mut Node,
    kind: TransportKind,
    dial: &str,
    ttl: u64,
    at: Moment,
    r: Result<(String, Vec<Action>), Error>,
    later: u64,
    peer: PeerInfoView,
)
    requires
        call_ensures(Node::host, (node, kind, dial, ttl, at), r),
        at.now + ttl <= u64::MAX,
        old(node)@.me.id != peer.id,
    ensures
        r is Ok <==> !old(node)@.running && encoded(kind, dial@) is Ok,
        r is Err ==> final(node)@ == old(node)@,
        old(node)@.running ==> r->Err_0@ == ErrorView::Config(
            "you are already in a room - leave it first"@,
        ),
        r matches Ok((code, actions)) ==> {
            &&& encoded(kind, dial@) == Ok::<Seq<char>, ErrorView>(code@)
            &&& final(node)@.running && final(node)@.role == Some(Role::Host)
            &&& final(node)@.room == code@ && final(node)@.me.addr == dial@
            &&& final(node)@.me.id == old(node)@.me.id && final(node)@.me.name == old(
                node,
            )@.me.name
            &&& final(node)@.peers.len() == 0 && final(node)@.history.len() == 1
            &&& hello_refusal(final(node)@, PROTOCOL_VERSION, code@, peer, later) is None
                <==> later <= at.now + ttl
            &&& actions@.len() == 1
            &&& actions@[0]@ matches ActionView::Emit(
                EventView::RoomOpened { code: c, transport, dial: d, expires_secs },
            )
            &&& c == code@ && transport == kind_text(kind) && d == dial@
            &&& expires_secs * 1_000_000_000 <= ttl < (expires_secs + 1) * 1_000_000_000
        },
{
    if let Ok((code, actions)) = r {
        let step = hosting(old(node)@, kind, dial@, code@, ttl, at);
        an_opened_room_is_announced(old(node)@, kind, dial@, code@, ttl, at, later, peer);
        a_step_is_taken_whole(final(node)@, actions@, step, 0);
    }
}

/// Joining fails in a room, with a code that cannot be read, and with one for
/// another transport, and then changes nothing. Otherwise we are a joiner with
/// a room of the typed code, and what goes to the host says so, and who we are.
pub proof fn a_joiner_asks_for_the_typed_room(
    node: &mut Node,
    kind: TransportKind,
    code: &str,
    addr: &str,
    r: Result<(Vec<Action>, Control), Error>,
)
    requires
        call_ensures(Node::join, (node, kind, code, addr), r),
    ensures
        r is Ok <==> !old(node)@.running && (decoded(code@) matches Ok(d) && d.0 == kind),
        r is Err ==> final(node)@ == old(node)@,
        r matches Ok((actions, hello)) ==> {
            &&& final(node)@.running && final(node)@.role == Some(Role::Joiner)
            &&& final(node)@.me == (PeerInfoView { addr: addr@, ..old(node)@.me })
            &&& final(node)@.peers.len() == 0 && final(node)@.history.len() == 0
            &&& hello@ matches ControlView::Hello { version, room, peer }
            &&& version == 1 && canonical(room) == canonical(code@)
            &&& room == final(node)@.room && peer == final(node)@.me
            &&& forall|i: int| 0 <= i < actions@.len() ==> (#[trigger] actions@[i])@ is Emit
        },
{
    space_around_is_ignored(code@);
    case_is_ignored(trimmed(code@));
    if let Ok((actions, _)) = r {
        let step = joining(old(node)@, kind, code@, addr@);
        a_step_is_taken_whole(final(node)@, actions@, step, 0);
    }
}

/// Where a code leads is asked without changing anything: it is the address of
/// the code, if that is for the transport in use and we are in no room.
pub proof fn a_target_is_the_address_of_the_code(
    node: &Node,
    kind: TransportKind,
    code: &str,
    r: Result<String, Error>,
)
    requires
        call_ensures(Node::join_target, (node, kind, code), r),
    ensures
        r matches Ok(target) ==> !node@.running && decoded(code@) == Ok::<
            (TransportKind, Seq<char>),
            ErrorView,
        >((kind, target@)),
        !node@.running && (decoded(code@) matches Ok(d) && d.0 == kind) ==> r is Ok,
{
}

/// Leaving keeps the transcript and who we are, and leaves nobody linked or
/// waiting; outside a room it does nothing.
#[verifier::rlimit(40)]
pub proof fn leaving_is_complete(node: &mut Node, ts: i64, r: Vec<Action>, i: int)
    requires
        call_ensures(Node::leave_at, (node, ts), r),
    ensures
        !old(node)@.running ==> final(node)@ == old(node)@ && r@.len() == 0,
        !final(node)@.running,
        old(node)@.running ==> {
            &&& final(node)@.peers.len() == 0 && final(node)@.pending.len() == 0
            &&& final(node)@.roster.len() == 0 && !final(node)@.listening
            &&& final(node)@.history.len() == old(node)@.history.len() + 1
            &&& final(node)@.history.drop_last() == old(node)@.history
            &&& final(node)@.me == old(node)@.me && final(node)@.room == old(node)@.room
            &&& final(node)@.transfers == old(node)@.transfers
            &&& r@.len() > 0
            &&& r@.last()@ matches ActionView::Emit(EventView::RoomClosed(_))
            &&& 0 <= i < old(node)@.peers.len() ==> each(r@).contains(
                ActionView::Send {
                    link: old(node)@.peers[i].1.link,
                    message: ControlView::Bye,
                },
            ) && each(r@).contains(ActionView::Close { link: old(node)@.peers[i].1.link })
            &&& 0 <= i < old(node)@.pending.len() ==> each(r@).contains(
                ActionView::Close { link: old(node)@.pending[i].1.link },
            )
        },
{
    let n = old(node)@;
    if n.running {
        let step = leaving(n, ts);
        leaving_says_goodbye_and_no_more(n, ts, i);
        assert(each(r@) == step.actions);
        assert(each(r@).last() == r@.last()@);
        let none = Seq::<char>::empty();
        let nobody = PeerInfoView { id: none, name: none, addr: none, fingerprint: none };
        crate::laws::leaving_keeps_the_transcript(n, ts, nobody, 0, none);
        if 0 <= i < n.peers.len() {
            assert(n.peers[i].1.link == n.peers[i].1.link);
        }
    }
}

/// A host that is lost before it let us in closes the room, with what failed.
pub proof fn a_lost_host_closes_the_room(node: &mut Node, e: &Error, r: Vec<Action>)
    requires
        call_ensures(Node::host_lost, (node, e), r),
    ensures
        !final(node)@.running && final(node)@.peers.len() == 0 && !final(node)@.listening,
        final(node)@.history == old(node)@.history && final(node)@.me == old(node)@.me,
        r@.len() == old(node)@.peers.len() + (if old(node)@.listening {
            2int
        } else {
            1
        }),
        r@[0]@ matches ActionView::Emit(EventView::RoomClosed(reason)) && occurs(
            e@.message(),
            reason,
        ),
{
    let lead = "the connection to the host was lost: "@;
    assert(lead + e@.message() =~= lead + e@.message() + Seq::<char>::empty());
    a_part_occurs(lead, e@.message(), Seq::empty());
    assert(each(r@).len() == r@.len());
    assert(each(r@)[0] == r@[0]@);
}

// --- links ----------------------------------------------------------------------------

/// A link that comes up is that of its peer alone.
pub proof fn a_link_is_attached_to_its_peer(
    node: &mut Node,
    info: PeerInfo,
    link: u64,
    fingerprint: &str,
    ts: i64,
    r: Vec<Action>,
    other: Seq<char>,
)
    requires
        call_ensures(Node::attach_peer, (node, info, link, fingerprint, ts), r),
        sound(old(node)@),
    ensures
        !old(node)@.running ==> final(node)@ == old(node)@ && r@.len() == 1 && r@[0]@
            == (ActionView::Close { link }),
        old(node)@.running ==> {
            &&& lookup(final(node)@.peers, info@.id) == Some(
                PeerView { info: info@, link, state: PeerState::Connected },
            )
            &&& lookup(final(node)@.roster, info@.id) == Some(info@)
            &&& other != info@.id ==> lookup(final(node)@.peers, other) == lookup(
                old(node)@.peers,
                other,
            ) && lookup(final(node)@.roster, other) == lookup(old(node)@.roster, other)
            &&& final(node)@.transfers == old(node)@.transfers
            &&& final(node)@.pending == old(node)@.pending
            &&& r@.len() == 2
            &&& r@[1]@ == (ActionView::Read { link, peer: info@ })
            &&& r@[0]@ matches ActionView::Emit(EventView::Peer { id, name, state, detail })
            &&& id == info@.id && name == info@.name && state == PeerState::Connected
            &&& occurs(info@.addr, detail) && occurs(fingerprint@, detail)
        },
{
    let step = attached(old(node)@, info@, link, fingerprint@, ts);
    a_new_link_is_its_own(old(node)@, info@, link, fingerprint@, ts, other);
    a_step_is_taken_whole(final(node)@, r@, step, 0);
    if old(node)@.running {
        a_step_is_taken_whole(final(node)@, r@, step, 1);
    }
}

/// A mesh call says which room it is for and who calls.
pub proof fn a_mesh_call_says_who_calls(node: &Node, r: Control)
    requires
        call_ensures(Node::mesh_hello, (node,), r),
    ensures
        r@ matches ControlView::MeshHello { version, room, peer } && version == 1 && room
            == node@.room && peer == node@.me,
{
}

/// A peer is called at most three times. Between two calls there is a pause;
/// after the last the user is told whom we could not reach, and why the last
/// call failed. Outside the room nobody is called.
pub proof fn a_peer_is_called_three_times(
    d: &mut Dial,
    e: &Error,
    pause: bool,
    running: bool,
    next: DialStep,
)
    requires
        call_ensures(Dial::failed, (d, e), pause),
        call_ensures(Dial::next, (final(d), running), next),
        old(d)@.attempts < 3,
    ensures
        final(d)@.attempts == old(d)@.attempts + 1,
        final(d)@.info == old(d)@.info,
        pause <==> old(d)@.attempts < 2,
        next is Try <==> pause && running,
        next is Stop <==> pause && !running,
        next is GiveUp <==> !pause,
        next matches DialStep::GiveUp(told) ==> {
            &&& told@ matches EventView::Peer { id, name, state, detail }
            &&& id == old(d)@.info.id && name == old(d)@.info.name
            &&& state == PeerState::Failed && detail == e@.message()
        },
{
}

/// Calling a peer is shown with who is called and where, and starts with no
/// call made.
pub proof fn a_first_call_is_shown(node: &Node, info: &PeerInfo, r: Option<(Dial, Event)>)
    requires
        call_ensures(Node::dial_peer, (node, info), r),
    ensures
        r is Some <==> node@.kind is Some,
        r matches Some((d, e)) ==> {
            &&& d@.info == info@ && d@.attempts == 0
            &&& e@ matches EventView::Peer { id, name, state, detail }
            &&& id == info@.id && name == info@.name && state == PeerState::Connecting && detail
                == info@.addr
        },
{
}

/// A call from outside is let through exactly if its source is within its
/// budget, whatever its port is; otherwise it is closed. Nothing but the count
/// changes.
pub proof fn a_call_from_outside_is_counted(
    node: &mut Node,
    label: &str,
    link: u64,
    now: u64,
    r: (Option<String>, Vec<Action>),
    addr: Seq<char>,
    port: Seq<char>,
)
    requires
        call_ensures(Node::handle_incoming, (node, label, link, now), r),
        label@ == addr + seq![':'] + port,
        !port.contains(':'),
    ensures
        r.0 is Some <==> allowed(old(node)@.limiter, addr, now),
        r.0 matches Some(source) ==> source@ == addr && r.1@.len() == 0,
        r.0 is None ==> r.1@.len() == 2 && r.1@[1]@ == (ActionView::Close { link }),
        final(node)@ == (NodeView { limiter: final(node)@.limiter, ..old(node)@ }),
{
    let step = called(old(node)@, label@, link, now);
    a_call_is_only_counted(old(node)@, addr, port, link, now);
    crate::laws::rooms::ports_are_not_counted(addr, port);
    assert(each(r.1@).len() == r.1@.len());
    if r.0 is None {
        a_step_is_taken_whole(final(node)@, r.1@, step, 1);
    }
}

/// A call that fails to shake hands is closed, and the user is told where it
/// came from and what failed.
pub proof fn a_failed_handshake_is_told(source: &str, e: &Error, link: u64, r: Vec<Action>)
    requires
        call_ensures(Node::handshake_failed, (source, e, link), r),
    ensures
        r@.len() == 2,
        r@[0]@ matches ActionView::Emit(EventView::Status(text)) && occurs(source@, text)
            && occurs(e@.message(), text),
        r@[1]@ == (ActionView::Close { link }),
{
    let (a, b) = ("a connection from "@, " failed to handshake: "@);
    let none = Seq::<char>::empty();
    let text = a + source@ + b + e@.message();
    assert(text =~= a + source@ + (b + e@.message()));
    assert(text =~= a + source@ + b + e@.message() + none);
    a_part_occurs(a, source@, b + e@.message());
    a_part_occurs(a + source@ + b, e@.message(), none);
    assert(each(r@).len() == r@.len());
    assert(each(r@)[0] == r@[0]@ && each(r@)[1] == r@[1]@);
}

/// A request to join that may wait is shown to the host with the joiner's
/// name, address and the fingerprint of their link, and waits under the number
/// that is shown, with their link; those who waited before still wait.
pub proof fn a_request_is_kept_for_the_host(
    node: &mut Node,
    link: u64,
    message: Inbound,
    source: &str,
    fingerprint: &str,
    now: u64,
    r: First,
    room: Seq<char>,
    peer: PeerInfoView,
    other: Seq<char>,
)
    requires
        call_ensures(Node::first_message, (node, link, message, source, fingerprint, now), r),
        sound(old(node)@),
        message@ == InboundView::Message(
            ControlView::Hello { version: PROTOCOL_VERSION, room, peer },
        ),
    ensures
        r is Done,
        ({
            let actions = r->Done_0@;
            match hello_refusal(old(node)@, PROTOCOL_VERSION, room, peer, now) {
                Some(why) => {
                    &&& final(node)@ == old(node)@
                    &&& actions.len() == 2
                    &&& actions[0]@ == (ActionView::Send {
                        link,
                        message: ControlView::Rejected { reason: why },
                    })
                    &&& actions[1]@ == (ActionView::Close { link })
                },
                None => {
                    &&& actions.len() == 1
                    &&& actions[0]@ matches ActionView::Emit(
                        EventView::JoinRequest { req, name, addr, fingerprint: theirs },
                    )
                    &&& name == sane_name(peer.name) && theirs == fingerprint@
                    &&& addr == if peer.addr.len() > 0 {
                        peer.addr
                    } else {
                        source@
                    }
                    &&& lookup(final(node)@.pending, req) matches Some(p)
                    &&& p.link == link && p.info.id == peer.id && p.info.name == name
                        && p.info.addr == peer.addr && p.info.fingerprint == peer.fingerprint
                    &&& other != req ==> lookup(final(node)@.pending, other) == lookup(
                        old(node)@.pending,
                        other,
                    )
                    &&& final(node)@.peers == old(node)@.peers && final(node)@.roster == old(
                        node,
                    )@.roster
                },
            }
        }),
{
    let step = asked(
        old(node)@,
        link,
        PROTOCOL_VERSION,
        room,
        peer,
        source@,
        fingerprint@,
        now,
    );
    a_request_waits_as_it_came(
        old(node)@,
        link,
        PROTOCOL_VERSION,
        room,
        peer,
        source@,
        fingerprint@,
        now,
        other,
    );
    let actions = r->Done_0@;
    a_step_is_taken_whole(final(node)@, actions, step, 0);
    if hello_refusal(old(node)@, PROTOCOL_VERSION, room, peer, now) is Some {
        a_step_is_taken_whole(final(node)@, actions, step, 1);
    }
}

/// A first message that is no call is turned away, and so is a mesh call for
/// another room or by another protocol; one for our room is held under the
/// caller's own id. None of them changes anything.
pub proof fn a_mesh_call_is_held_or_turned_away(
    node: &mut Node,
    link: u64,
    message: Inbound,
    source: &str,
    fingerprint: &str,
    now: u64,
    r: First,
)
    requires
        call_ensures(Node::first_message, (node, link, message, source, fingerprint, now), r),
        !(message@ matches InboundView::Message(ControlView::Hello { .. })),
    ensures
        final(node)@ == old(node)@,
        r is Hold <==> (message@ matches InboundView::Message(
            ControlView::MeshHello { version, room, peer },
        ) && version == 1 && canonical(room) == canonical(old(node)@.room)),
        r matches First::Hold(held) ==> {
            &&& message@ matches InboundView::Message(ControlView::MeshHello { peer, .. })
            &&& held@.id == peer.id && held@.addr == peer.addr && held@.fingerprint
                == peer.fingerprint && held@.name == sane_name(peer.name)
        },
        r matches First::Done(actions) ==> {
            &&& actions@.len() == 2
            &&& actions@[0]@ matches ActionView::Send { link: to, message: said }
            &&& to == link && said is Rejected
            &&& actions@[1]@ == (ActionView::Close { link })
        },
{
    if let First::Done(actions) = r {
        assert(each(actions@).len() == actions@.len());
        assert(each(actions@)[0] == actions@[0]@ && each(actions@)[1] == actions@[1]@);
    }
}

/// A mesh call that is held waits for the host's word, and no longer than its
/// deadline; then it is acknowledged with who we are or turned away, and never
/// linked twice.
pub proof fn a_held_call_waits_for_the_host(
    node: &Node,
    id: &str,
    link: u64,
    now: u64,
    deadline: u64,
    r: Held,
)
    requires
        call_ensures(Node::check_held, (node, id, link, now, deadline), r),
    ensures
        r is Wait <==> lookup(node@.roster, id@) is None && now < deadline,
        r is Welcome <==> lookup(node@.roster, id@) is Some && lookup(node@.peers, id@) is None,
        r matches Held::Welcome(c) ==> c@ == (ControlView::MeshAck { peer: node@.me }),
        r matches Held::Refuse(actions) ==> {
            &&& actions@.len() == 2
            &&& actions@[0]@ matches ActionView::Send { link: to, message }
            &&& to == link && message is Rejected
            &&& actions@[1]@ == (ActionView::Close { link })
        },
{
    row_of_is_row(node@.roster, id@);
    row_of_is_row(node@.peers, id@);
    if let Held::Refuse(actions) = r {
        assert(each(actions@).len() == actions@.len());
        assert(each(actions@)[0] == actions@[0]@ && each(actions@)[1] == actions@[1]@);
    }
}

// --- the host's answer -----------------------------------------------------------------

/// The host's answer is for the request it names: that one waits no more, and
/// every other one does. A yes goes to the link and the joiner who asked, a no
/// to that link alone.
pub proof fn an_answer_reaches_who_asked(
    node: &mut Node,
    req: &str,
    accept: bool,
    ts: i64,
    r: Result<Approval, Error>,
    other: Seq<char>,
)
    requires
        call_ensures(Node::approve_at, (node, req, accept, ts), r),
        sound(old(node)@),
    ensures
        r is Ok <==> lookup(old(node)@.pending, req@) is Some,
        r is Err ==> final(node)@ == old(node)@,
        lookup(final(node)@.pending, req@) is None,
        other != req@ ==> lookup(final(node)@.pending, other) == lookup(
            old(node)@.pending,
            other,
        ),
        final(node)@.peers == old(node)@.peers,
        lookup(old(node)@.pending, req@) matches Some(p) ==> {
            &&& accept ==> {
                &&& r matches Ok(Approval::Welcome { first, message, link, info })
                &&& link == p.link && info@ == p.info
                &&& lookup(final(node)@.roster, p.info.id) == Some(p.info)
                &&& first@.len() == old(node)@.peers.len()
                &&& message@ matches ControlView::Welcome { room, host, peers }
                &&& room == old(node)@.room && host == old(node)@.me && peers.len() == old(
                    node,
                )@.peers.len()
            }
            &&& !accept ==> {
                &&& r matches Ok(Approval::Declined(actions))
                &&& final(node)@.roster == old(node)@.roster
                &&& actions@.len() == 4
                &&& actions@[0]@ matches ActionView::Send { link, message }
                &&& link == p.link && message is Rejected
                &&& actions@[1]@ == (ActionView::Close { link: p.link })
                &&& actions@[3]@ == ActionView::Emit(
                    EventView::JoinResolved { req: req@, accepted: false },
                )
            }
        },
{
    let n = old(node)@;
    an_answer_is_for_one_request(n, req@, accept, ts, r, final(node)@, other);
    if lookup(n.pending, req@) is Some {
        if accept {
            a_yes_is_for_the_one_who_asked(n, req@, ts, r, final(node)@, 0, other);
        } else {
            a_no_is_for_the_one_who_asked(n, req@, ts, r, final(node)@);
        }
    }
}

/// A welcome that got through is reported as an accepted request, and makes
/// the link.
pub proof fn a_welcomed_joiner_is_linked(
    node: &mut Node,
    req: &str,
    info: PeerInfo,
    link: u64,
    fingerprint: &str,
    ts: i64,
    r: Vec<Action>,
)
    requires
        call_ensures(Node::welcomed, (node, req, info, link, fingerprint, ts), r),
        sound(old(node)@),
        old(node)@.running,
    ensures
        lookup(final(node)@.peers, info@.id) == Some(
            PeerView { info: info@, link, state: PeerState::Connected },
        ),
        r@.len() == 3,
        r@[0]@ == ActionView::Emit(EventView::JoinResolved { req: req@, accepted: true }),
        r@[2]@ == (ActionView::Read { link, peer: info@ }),
{
    let step = settled(old(node)@, req@, info@, link, fingerprint@, ts);
    put_is_found(
        old(node)@.peers,
        info@.id,
        PeerView { info: info@, link, state: PeerState::Connected },
    );
    a_step_is_taken_whole(final(node)@, r@, step, 0);
    a_step_is_taken_whole(final(node)@, r@, step, 2);
}

/// Everyone who waits is listed, in order, with the number and the name that
/// were shown.
pub proof fn everyone_who_waits_is_listed(node: &Node, r: Vec<(String, String)>, i: int)
    requires
        call_ensures(Node::pending_requests, (node,), r),
        0 <= i < node@.pending.len(),
    ensures
        r@.len() == node@.pending.len(),
        r@[i].0@ == node@.pending[i].0,
        r@[i].1@ == node@.pending[i].1.info.name,
{
    assert(each(r@).len() == r@.len());
    assert(each(r@)[i] == r@[i]@);
}

// --- running links -----------------------------------------------------------------------

/// A message that cannot be read is told with who sent it and what was wrong.
pub proof fn a_malformed_message_is_told(from: &PeerInfo, e: &Error, r: Event)
    requires
        call_ensures(malformed_message, (from, e), r),
    ensures
        r@ matches EventView::Error(text) && occurs(from@.name, text) && occurs(
            e@.message(),
            text,
        ),
{
    let lead = "malformed message from "@;
    let none = Seq::<char>::empty();
    let text = lead + from@.name + ": "@ + e@.message();
    assert(text =~= lead + from@.name + (": "@ + e@.message()));
    assert(text =~= lead + from@.name + ": "@ + e@.message() + none);
    a_part_occurs(lead, from@.name, ": "@ + e@.message());
    a_part_occurs(lead + from@.name + ": "@, e@.message(), none);
}

/// A chat line that comes in is shown and recorded as it came.
pub proof fn a_chat_line_is_taken_as_it_came(
    node: &mut Node,
    from: &PeerInfo,
    link: u64,
    c: Control,
    ts: i64,
    r: Vec<Action>,
)
    requires
        call_ensures(Node::handle_control, (node, from, link, c, ts), r),
        c@ is Chat,
    ensures
        c@ matches ControlView::Chat { id, from: author, name, ts: sent, body } && {
            &&& final(node)@ == (NodeView { history: final(node)@.history, ..old(node)@ })
            &&& final(node)@.history.len() == old(node)@.history.len() + 1
            &&& final(node)@.history.drop_last() == old(node)@.history
            &&& final(node)@.history.last() == (RecordView {
                ts: sent,
                sender: sane_name(name),
                sender_id: author,
                body,
                kind: RecordKind::Message,
            })
            &&& r@.len() == 1
            &&& r@[0]@ == ActionView::Emit(
                EventView::Chat { from: author, name: sane_name(name), ts: sent, body, mine: false },
            )
        },
{
    if let ControlView::Chat { id, from: author, name, ts: sent, body } = c@ {
        let step = heard(old(node)@, from@, link, c@, ts);
        a_line_is_heard_as_it_came(old(node)@, from@, link, id, author, name, sent, body, ts);
        a_step_is_taken_whole(final(node)@, r@, step, 0);
    }
}

/// When a peer is gone, every other link stays, and so does every transfer
/// with someone else: files that are received or sent, and offers that wait.
#[verifier::rlimit(40)]
pub proof fn everyone_else_goes_on(
    node: &mut Node,
    info: &PeerInfo,
    link: u64,
    reason: &str,
    ts: i64,
    r: Vec<Action>,
    other: Seq<char>,
    id: Seq<u8>,
)
    requires
        call_ensures(Node::peer_gone, (node, info, link, reason, ts), r),
        sound(old(node)@),
        other != info@.id,
    ensures
        lookup(final(node)@.peers, info@.id) is None,
        lookup(final(node)@.peers, other) == lookup(old(node)@.peers, other),
        lookup(final(node)@.roster, other) == lookup(old(node)@.roster, other),
        final(node)@.running == old(node)@.running && final(node)@.room == old(node)@.room
            && final(node)@.pending == old(node)@.pending && final(node)@.me == old(node)@.me,
        lookup(old(node)@.transfers.active, id) matches Some(a) ==> a.peer_id == other ==> lookup(
            final(node)@.transfers.active,
            id,
        ) == Some(a) && !each(r@).contains(ActionView::CloseFile { transfer: id }),
        lookup(old(node)@.transfers.offers, id) matches Some(o) ==> o.peer_id == other ==> lookup(
            final(node)@.transfers.offers,
            id,
        ) == Some(o),
        lookup(old(node)@.transfers.outgoing, id) == Some(other) ==> lookup(
            final(node)@.transfers.outgoing,
            id,
        ) == Some(other),
        lookup(old(node)@.peers, info@.id) is Some ==> {
            &&& r@.len() > 0
            &&& r@[0]@ == (ActionView::Close { link })
            &&& r@.last()@ == ActionView::Emit(
                EventView::Peer {
                    id: info@.id,
                    name: info@.name,
                    state: PeerState::Disconnected,
                    detail: reason@,
                },
            )
        },
{
    let n = old(node)@;
    let step = gone(n, info@, link, reason@, ts);
    assert(each(r@).len() == r@.len());
    if lookup(n.peers, info@.id) is Some {
        a_departure_is_told(n, info@, link, reason@, ts, other);
        a_step_is_taken_whole(final(node)@, r@, step, 0);
        a_step_is_taken_whole(final(node)@, r@, step, step.actions.len() - 1);
    } else {
        crate::laws::rooms::a_stranger_cannot_go(n, info@, link, reason@, ts);
    }
    a_leaver_takes_only_their_own_files(n, info@, link, reason@, ts, id, 0);
    if each(r@).contains(ActionView::CloseFile { transfer: id }) {
        let i = choose|i: int|
            0 <= i < each(r@).len() && each(r@)[i] == (ActionView::CloseFile { transfer: id });
        a_leaver_takes_only_their_own_files(n, info@, link, reason@, ts, id, i);
    }
}

// --- chat -----------------------------------------------------------------------------------

/// A line that we send is the same line on our screen, in our transcript and
/// on every link; a blank one goes nowhere, and one that is too long is refused
/// without a trace.
#[verifier::rlimit(40)]
pub proof fn a_sent_line_is_one_line(
    node: &mut Node,
    text: &str,
    id: String,
    ts: i64,
    r: Result<Vec<Action>, Error>,
    i: int,
)
    requires
        call_ensures(Node::send_chat_as, (node, text, id, ts), r),
    ensures
        trimmed(text@).len() == 0 ==> r is Ok && r->Ok_0@.len() == 0 && final(node)@ == old(node)@,
        r is Err ==> final(node)@ == old(node)@,
        r is Ok && trimmed(text@).len() > 0 ==> {
            let body = trimmed(text@);
            let me = old(node)@.me;
            let actions = r->Ok_0@;
            &&& actions.len() > 0
            &&& actions[0]@ == ActionView::Emit(
                EventView::Chat { from: me.id, name: me.name, ts, body, mine: true },
            )
            &&& final(node)@ == (NodeView { history: final(node)@.history, ..old(node)@ })
            &&& final(node)@.history.drop_last() == old(node)@.history
            &&& final(node)@.history.len() == old(node)@.history.len() + 1
            &&& final(node)@.history.last() == (RecordView {
                ts,
                sender: me.name,
                sender_id: me.id,
                body,
                kind: RecordKind::Message,
            })
            &&& 0 <= i < old(node)@.peers.len() ==> actions.len() == old(node)@.peers.len() + 1 && (
            actions[i + 1]@ matches ActionView::Tell { link, message, .. } && link == old(
                node,
            )@.peers[i].1.link && message == (ControlView::Chat {
                id: id@,
                from: me.id,
                name: me.name,
                ts,
                body,
            }))
        },
{
    if trimmed(text@).len() > 0 && r is Ok {
        our_line_is_the_same_everywhere(old(node)@, text@, id@, ts, r, final(node)@, i);
    }
}

// --- files -----------------------------------------------------------------------------------

/// A file goes to everyone who is linked, and where nobody is it cannot be
/// sent.
pub proof fn a_file_goes_to_everyone(node: &Node, r: Result<Vec<Peer>, Error>, i: int)
    requires
        call_ensures(Node::send_file, (node,), r),
    ensures
        r is Ok <==> node@.peers.len() > 0,
        r matches Ok(peers) ==> peers@.len() == node@.peers.len() && (0 <= i < node@.peers.len()
            ==> peers@[i]@ == node@.peers[i].1),
        r matches Err(e) ==> e@ == ErrorView::Config(
            "there is nobody connected to send a file to"@,
        ),
{
    if let Ok(peers) = r {
        assert(each(peers@).len() == peers@.len());
        if 0 <= i < node@.peers.len() {
            assert(each(peers@)[i] == peers@[i]@);
        }
    }
}

/// An upload is kept under its id with whom it goes to, starts at nothing, and
/// touches no other transfer.
pub proof fn an_upload_begins_at_nothing(
    node: &mut Node,
    id: [u8; 16],
    peer: &Peer,
    name: &str,
    size: u64,
    sha: &str,
    r: Upload,
)
    requires
        call_ensures(Node::begin_upload_as, (node, id, peer, name, size, sha), r),
        sound(old(node)@),
    ensures
        lookup(final(node)@.transfers.outgoing, id@) == Some(peer@.info.id),
        untouched_but(old(node)@.transfers, final(node)@.transfers, id@),
        final(node)@ == (NodeView { transfers: final(node)@.transfers, ..old(node)@ }),
        r@.id == id@ && r@.peer == peer@.info && r@.link == peer@.link,
        r@.name == name@ && r@.size == size && r@.sha == sha@,
        r@.sent == 0 && r@.seq == 0,
{
    put_is_found(old(node)@.transfers.outgoing, id@, peer@.info.id);
}

/// An upload that is over is kept no more, is reported once as what it came
/// to, and touches no other transfer.
#[verifier::rlimit(40)]
pub proof fn a_finished_upload_is_reported(
    node: &mut Node,
    up: &Upload,
    how: UploadEnd,
    ts: i64,
    r: Vec<Action>,
)
    requires
        call_ensures(Node::finish_out, (node, up, how, ts), r),
        sound(old(node)@),
    ensures
        !has_key(final(node)@.transfers.outgoing, up@.id),
        untouched_but(old(node)@.transfers, final(node)@.transfers, up@.id),
        final(node)@.peers == old(node)@.peers && final(node)@.roster == old(node)@.roster,
        final(node)@.history.len() == old(node)@.history.len() + (if how@ is Sent {
            1int
        } else {
            0
        }),
        final(node)@.history.take(old(node)@.history.len() as int) == old(node)@.history,
        r@.len() > 0,
        r@.last()@ matches ActionView::Emit(EventView::FileFinished { transfer, name, incoming, ok, .. })
            && transfer == crate::protocol::hex_text(up@.id) && name == up@.name && !incoming && (ok
            <==> how@ is Sent),
{
    an_upload_ends_by_itself(old(node)@.transfers, up@, how@, old(node)@.me, ts);
    assert(each(r@).len() == r@.len());
    assert(each(r@).last() == r@.last()@);
    assert(final(node)@.history.take(old(node)@.history.len() as int) =~= old(node)@.history);
}

/// A download that starts is kept under its id as it was offered, with nothing
/// received; its sender is told on their link, and no other transfer is
/// touched.
pub proof fn a_download_begins_at_nothing(node: &mut Node, a: Accepted, r: (u64, Control, Event))
    requires
        call_ensures(Node::begin_download, (node, a), r),
        sound(old(node)@),
    ensures
        untouched_but(old(node)@.transfers, final(node)@.transfers, a.id@),
        final(node)@ == (NodeView { transfers: final(node)@.transfers, ..old(node)@ }),
        lookup(final(node)@.transfers.active, a.id@) matches Some(x) && x.got == 0 && x.next_seq
            == 0 && x.data.len() == 0 && x.size == a.offer@.size && x.expect_sha
            == a.offer@.sha256 && x.path == a.path@ && x.peer_id == a.offer@.peer_id && x.name
            == a.offer@.name,
        r.0 == a.link,
        r.1@ == (ControlView::FileAccept { transfer: a.transfer@ }),
        r.2@ matches EventView::Status(text) && occurs(a.offer@.name, text) && occurs(
            a.path@,
            text,
        ),
{
    put_is_found(
        old(node)@.transfers.active,
        a.id@,
        crate::files::fresh_incoming(a.offer@, a.path@),
    );
    let (lead, mid) = ("Receiving "@, " into "@);
    let none = Seq::<char>::empty();
    let (n, p) = (a.offer@.name, a.path@);
    assert(lead + n + mid + p =~= lead + n + (mid + p));
    assert(lead + n + mid + p =~= lead + n + mid + p + none);
    a_part_occurs(lead, n, mid + p);
    a_part_occurs(lead + n + mid, p, none);
}

/// What is offered of a file is a name that is safe to save under, and only a
/// regular file is offered; the user sees its name and size.
pub proof fn a_file_is_offered_by_its_name(
    regular: bool,
    name: Option<&str>,
    size: u64,
    r: Result<(String, Event), Error>,
)
    requires
        call_ensures(Node::file_to_send, (regular, name, size), r),
    ensures
        r is Ok <==> regular,
        r matches Ok((n, e)) ==> {
            &&& name matches Some(t) ==> n@ == crate::names::safe_name(t@)
            &&& e@ matches EventView::Status(text)
            &&& occurs(n@, text) && occurs(size_text(size), text)
        },
        r matches Err(e) ==> e@ == ErrorView::Config("that is not a regular file"@),
{
    if let Ok((n, _)) = r {
        let (a, b, c) = ("Hashing "@, " ("@, ")..."@);
        let s = size_text(size);
        assert(a + n@ + b + s + c =~= a + n@ + (b + s + c));
        a_part_occurs(a, n@, b + s + c);
        a_part_occurs(a + n@ + b, s, c);
    }
}

// --- what is asked of a node ---------------------------------------------------------------

/// A new name is shown as it may be displayed, and changes nothing else.
pub proof fn a_new_name_changes_nothing_else(node: &mut Node, name: &str)
    requires
        call_ensures(Node::set_display_name, (node, name), ()),
    ensures
        final(node)@.me.name == sane_name(name@),
        final(node)@.me.id == old(node)@.me.id && final(node)@.me.addr == old(node)@.me.addr
            && final(node)@.me.fingerprint == old(node)@.me.fingerprint,
        final(node)@ == (NodeView { me: final(node)@.me, ..old(node)@ }),
{
}

/// Everyone who is linked is listed, in order, and is found by their own id.
pub proof fn everyone_linked_is_listed(
    node: &Node,
    names: Vec<String>,
    peers: Vec<Peer>,
    id: &str,
    found: Option<Peer>,
    i: int,
)
    requires
        call_ensures(Node::peer_names, (node,), names),
        call_ensures(Node::connected_peers, (node,), peers),
        call_ensures(Node::peer_by_id, (node, id), found),
        sound(node@),
        0 <= i < node@.peers.len(),
    ensures
        names@.len() == node@.peers.len() && peers@.len() == node@.peers.len(),
        names@[i]@ == peers@[i]@.info.name,
        peers@[i]@ == node@.peers[i].1,
        id@ == peers@[i]@.info.id ==> (found matches Some(p) && p@ == peers@[i]@),
        found matches Some(p) ==> p@.info.id == id@,
{
    assert(each(names@).len() == names@.len() && each(peers@).len() == peers@.len());
    assert(each(names@)[i] == names@[i]@ && each(peers@)[i] == peers@[i]@);
    assert(node@.peers[i].0 == node@.peers[i].1.info.id);
    crate::table::lookup_is_row(node@.peers, node@.peers[i].0, node@.peers[i].1);
    row_of_is_row(node@.peers, id@);
    if let Some(p) = found {
        let k = crate::table::row_of(node@.peers, id@);
        assert(node@.peers[k].0 == node@.peers[k].1.info.id);
    }
}

/// The transcript is handed out as it is, record by record.
pub proof fn the_transcript_is_handed_out_whole(node: &Node, r: Vec<ChatRecord>, i: int)
    requires
        call_ensures(Node::history, (node,), r),
        0 <= i < node@.history.len(),
    ensures
        r@.len() == node@.history.len(),
        r@[i]@ == node@.history[i],
{
    assert(each(r@).len() == r@.len());
    assert(each(r@)[i] == r@[i]@);
}

/// What is exported is the whole transcript, under the room's code and
/// transport.
pub proof fn the_whole_transcript_is_exported(node: &Node, r: String, i: int)
    requires
        call_ensures(Node::export_history, (node,), r),
        0 <= i < node@.history.len(),
    ensures
        occurs("Room code : "@ + node@.room + "\n"@, r@),
        node@.kind matches Some(k) ==> occurs("\nTransport : "@ + kind_text(k) + "\n"@, r@),
        occurs(node@.history[i].body.push('\n'), r@),
        !(node@.history[i].kind is System) ==> occurs(node@.history[i].sender, r@),
{
    let (now, exported, times) = choose|now: i64, exported: Seq<char>, times: Seq<Seq<char>>|
        call_ensures(now_ts, (), now) && #[trigger] full_time(now, exported)
            && #[trigger] full_times(node@.history, times) && r@ == heading(
            node@.room,
            transport_name(node@),
            exported,
        ) + record_lines(times, node@.history);
    a_transcript_holds_its_records(
        node@.room,
        transport_name(node@),
        exported,
        times,
        node@.history,
        i,
    );
}

/// What is asked of a node is answered by what it is.
pub proof fn a_node_answers_for_itself(
    node: &Node,
    me: PeerInfo,
    id: String,
    room: String,
    host: bool,
    active: bool,
    idle: Result<(), Error>,
)
    requires
        call_ensures(Node::me, (node,), me),
        call_ensures(Node::my_id, (node,), id),
        call_ensures(Node::room, (node,), room),
        call_ensures(Node::is_host, (node,), host),
        call_ensures(Node::is_active, (node,), active),
        call_ensures(Node::ensure_idle, (node,), idle),
    ensures
        me@ == node@.me && id@ == me@.id && room@ == node@.room,
        host <==> node@.role == Some(Role::Host),
        active <==> node@.running,
        idle is Ok <==> !active,
{
}

// --- the rest of a node's life ---------------------------------------------------------------

/// A new node is in no room, knows nobody, has said nothing and has a name that
/// may be shown; the first request to join will have the number 1.
pub proof fn a_new_node_is_nowhere(name: &str, r: Result<Node, Error>)
    requires
        call_ensures(Node::new, (name,), r),
    ensures
        r matches Ok(n) && {
            &&& n@.me.name == sane_name(name@) && n@.me.addr.len() == 0 && n@.me.id.len() == 16
            &&& n@.role is None && n@.kind is None && n@.room.len() == 0
            &&& !n@.running && !n@.listening && n@.open_until is None
            &&& n@.peers.len() == 0 && n@.roster.len() == 0 && n@.pending.len() == 0
            &&& n@.history.len() == 0 && n@.req_seq == 1
            &&& n@.transfers.active.len() == 0 && n@.transfers.offers.len() == 0
                && n@.transfers.outgoing.len() == 0
            &&& counts_anew(n@.limiter)
        },
{
    a_fresh_limiter_counts_anew();
}

/// What the host answers to our request is followed: a welcome makes its link,
/// and anything else is the end of the room, with the host's reason where it
/// gave one.
pub proof fn the_hosts_answer_is_followed(
    node: &mut Node,
    link: u64,
    reply: Inbound,
    fingerprint: &str,
    ts: i64,
    r: Vec<Action>,
)
    requires
        call_ensures(Node::await_welcome, (node, link, reply, fingerprint, ts), r),
        sound(old(node)@),
        old(node)@.running,
    ensures
        reply@ matches InboundView::Message(ControlView::Welcome { room, host, peers }) ==> {
            &&& final(node)@.running && final(node)@.room == room
            &&& lookup(final(node)@.peers, host.id) == Some(
                PeerView { info: host, link, state: PeerState::Connected },
            )
            &&& r@.len() == peers.len() + 3
        },
        !(reply@ matches InboundView::Message(ControlView::Welcome { .. })) ==> {
            &&& !final(node)@.running && final(node)@.peers.len() == 0
            &&& final(node)@.history == old(node)@.history
            &&& r@.len() >= 2
            &&& r@[0]@ == (ActionView::Close { link })
            &&& r@[1]@ matches ActionView::Emit(EventView::RoomClosed(reason))
            &&& reply@ matches InboundView::Message(ControlView::Rejected { reason: why })
                ==> reason == why
        },
{
    let n = old(node)@;
    let step = answered_by_host(n, link, reply@, fingerprint@, ts);
    assert(each(r@).len() == r@.len());
    if let InboundView::Message(ControlView::Welcome { room, host, peers }) = reply@ {
        put_is_found(n.peers, host.id, PeerView { info: host, link, state: PeerState::Connected });
    } else {
        a_room_that_refuses_is_over(n, link, reply@, fingerprint@, ts);
        a_step_is_taken_whole(final(node)@, r@, step, 0);
        a_step_is_taken_whole(final(node)@, r@, step, 1);
    }
}

/// What a peer answers to our call makes the link, or nothing and the reason.
pub proof fn a_peers_answer_is_followed(
    node: &mut Node,
    link: u64,
    reply: Inbound,
    fingerprint: &str,
    ts: i64,
    r: (Vec<Action>, Result<(), Error>),
)
    requires
        call_ensures(Node::try_dial, (node, link, reply, fingerprint, ts), r),
        sound(old(node)@),
        old(node)@.running,
    ensures
        r.1 is Ok <==> (reply@ matches InboundView::Message(ControlView::MeshAck { .. })),
        r.1 is Err ==> final(node)@ == old(node)@,
        reply@ matches InboundView::Message(ControlView::MeshAck { peer }) ==> lookup(
            final(node)@.peers,
            peer.id,
        ) == Some(PeerView { info: peer, link, state: PeerState::Connected }),
        reply@ matches InboundView::Message(ControlView::Rejected { reason }) ==> r.1->Err_0@
            == ErrorView::Closed(reason),
{
    if let InboundView::Message(ControlView::MeshAck { peer }) = reply@ {
        put_is_found(
            old(node)@.peers,
            peer.id,
            PeerView { info: peer, link, state: PeerState::Connected },
        );
    }
}

/// A chunk is written exactly if it is the next one of a file that was accepted
/// from that very peer, and stays within the size that was offered.
pub proof fn a_chunk_is_judged_by_its_transfer(
    node: &Node,
    from: &PeerInfo,
    id: &[u8; 16],
    seq: u32,
    len: usize,
    r: Verdict,
)
    requires
        call_ensures(Node::handle_chunk, (node, from, id, seq, len), r),
    ensures
        r@ is Write <==> (lookup(node@.transfers.active, id@) matches Some(a) && from@.id
            == a.peer_id && seq == a.next_seq && a.got + len <= a.size),
        r@ is Ignore <==> !(lookup(node@.transfers.active, id@) matches Some(a) && from@.id
            == a.peer_id),
{
    only_the_next_chunk_is_written(node@.transfers, from@.id, id@, seq, len as nat);
}

/// A chunk that was written is added to its file and to no other.
pub proof fn a_written_chunk_counts_once(
    node: &mut Node,
    from: &PeerInfo,
    id: &[u8; 16],
    seq: u32,
    data: &[u8],
    now: u64,
    r: Vec<Action>,
    a: ActiveView,
)
    requires
        call_ensures(Node::chunk_written, (node, from, id, seq, data, now), r),
        sound(old(node)@),
        lookup(old(node)@.transfers.active, id@) == Some(a),
        a.got + data@.len() <= a.size,
    ensures
        untouched_but(old(node)@.transfers, final(node)@.transfers, id@),
        final(node)@ == (NodeView { transfers: final(node)@.transfers, ..old(node)@ }),
        lookup(final(node)@.transfers.active, id@) matches Some(b) && b.data == a.data + data@
            && b.got == a.got + data@.len() && b.size == a.size && b.path == a.path && b.peer_id
            == a.peer_id,
        r@.len() <= 1,
{
    a_stored_chunk_counts_once(old(node)@.transfers, id@, data@, now, a);
    assert(each(r@).len() == r@.len());
}

/// A transfer that we refuse ends, and no other; the file is closed, the sender
/// is told on their link, and the user too.
pub proof fn a_refused_chunk_ends_its_transfer(
    node: &mut Node,
    link: u64,
    id: [u8; 16],
    reason: &str,
    r: Vec<Action>,
    a: ActiveView,
)
    requires
        call_ensures(Node::refuse_chunk, (node, link, id, reason), r),
        sound(old(node)@),
        lookup(old(node)@.transfers.active, id@) == Some(a),
    ensures
        untouched_but(old(node)@.transfers, final(node)@.transfers, id@),
        !has_key(final(node)@.transfers.active, id@),
        final(node)@ == (NodeView { transfers: final(node)@.transfers, ..old(node)@ }),
        r@.len() == 3,
        r@[0]@ == (ActionView::CloseFile { transfer: id@ }),
        r@[1]@ matches ActionView::Send { link: to, message } && to == link && (
        message matches ControlView::FileAbort { reason: why, .. } && why == reason@),
        r@[2]@ matches ActionView::Emit(EventView::FileFinished { name, incoming, ok, detail, .. })
            && name == a.name && incoming && !ok && detail == reason@,
{
    a_refused_transfer_ends(old(node)@.transfers, link, id@, reason@, a);
    assert(each(r@).len() == r@.len());
    assert(each(r@)[0] == r@[0]@ && each(r@)[1] == r@[1]@ && each(r@)[2] == r@[2]@);
}

/// Saying no to an offer tells its sender, and starts nothing; saying yes starts
/// that very file at the place that was chosen, with the one who offered it.
/// The offer cannot be answered again, and every other one can.
pub proof fn an_offer_is_answered_once(
    node: &mut Node,
    transfer: &str,
    save_to: Option<&str>,
    r: Result<Answer, Error>,
    id: Seq<u8>,
    o: OfferView,
)
    requires
        call_ensures(Node::respond_offer, (node, transfer, save_to), r),
        sound(old(node)@),
        id_in(transfer@) == Ok::<Seq<u8>, ErrorView>(id),
        lookup(old(node)@.transfers.offers, id) == Some(o),
    ensures
        !has_key(final(node)@.transfers.offers, id),
        untouched_but(old(node)@.transfers, final(node)@.transfers, id),
        final(node)@.transfers.active == old(node)@.transfers.active,
        final(node)@ == (NodeView { transfers: final(node)@.transfers, ..old(node)@ }),
        save_to is None ==> (r matches Ok(Answer::Declined(_))),
        save_to matches Some(path) ==> match lookup(old(node)@.peers, o.peer_id) {
            Some(p) => r matches Ok(Answer::Create(a)) && a.id@ == id && a.offer@ == o && a.path@
                == path@ && a.link == p.link && a.transfer@ == transfer@,
            None => r is Err,
        },
{
    without_is_gone(old(node)@.transfers.offers, id);
}

/// Once nobody listens any more the user is told, while we are in a room; and
/// what failed on the disk is told in its own words.
pub proof fn trouble_at_home_is_told(
    node: &Node,
    stopped: Vec<Action>,
    e: &str,
    disk: String,
)
    requires
        call_ensures(Node::accept_stopped, (node,), stopped),
        call_ensures(Node::disk_failure, (e,), disk),
    ensures
        node@.running ==> stopped@.len() == 1 && (stopped@[0]@ matches ActionView::Emit(
            EventView::Status(_),
        )),
        !node@.running ==> stopped@.len() == 0,
        occurs(e@, disk@),
{
    assert(each(stopped@).len() == stopped@.len());
    if node@.running {
        assert(each(stopped@)[0] == stopped@[0]@);
    }
    let lead = "could not write to disk: "@;
    assert(lead + e@ =~= lead + e@ + Seq::<char>::empty());
    a_part_occurs(lead, e@, Seq::empty());
}

/// A line that is sent now has the same promises as one that is sent with a
/// given id and time: our screen and our transcript have the same line.
pub proof fn a_line_sent_now_is_one_line(
    node: &mut Node,
    text: &str,
    r: Result<Vec<Action>, Error>,
)
    requires
        call_ensures(Node::send_chat, (node, text), r),
        r is Ok,
        trimmed(text@).len() > 0,
    ensures
        r->Ok_0@.len() > 0,
        r->Ok_0@[0]@ matches ActionView::Emit(EventView::Chat { from, name, ts, body, mine }) && {
            &&& mine && body == trimmed(text@)
            &&& from == old(node)@.me.id && name == old(node)@.me.name
            &&& final(node)@.history.len() == old(node)@.history.len() + 1
            &&& final(node)@.history.drop_last() == old(node)@.history
            &&& final(node)@.history.last().body == body && final(node)@.history.last().ts == ts
                && final(node)@.history.last().sender == name
        },
{
    let (id, ts) = choose|id: String, ts: i64| #[trigger]
        call_ensures(new_id, (), id) && #[trigger] call_ensures(now_ts, (), ts) && chatted(
            old(node)@,
            text@,
            id@,
            ts,
            r,
            final(node)@,
        );
    our_line_is_the_same_everywhere(old(node)@, text@, id@, ts, r, final(node)@, 0);
}

/// A node is known by its key: the fingerprint that it shows is that of its
/// public key, and its keys are handed out as they are.
pub proof fn a_node_is_known_by_its_key(
    node: &Node,
    shown: String,
    identity: &Identity,
    own: String,
    kind: Option<TransportKind>,
    role: Option<Role>,
    name: String,
    counts: bool,
)
    requires
        call_ensures(Node::fingerprint, (node,), shown),
        call_ensures(Node::identity, (node,), identity),
        call_ensures(Identity::fingerprint, (identity,), own),
        call_ensures(Node::kind, (node,), kind),
        call_ensures(Node::role, (node,), role),
        call_ensures(Node::transport, (node,), name),
        call_ensures(Node::can_number, (node,), counts),
        sound(node@),
    ensures
        shown@ == node@.me.fingerprint && own@ == shown@,
        identity.public@ == node@.public && identity.private@ == node@.private,
        kind == node@.kind && role == node@.role,
        kind matches Some(k) ==> name@ == kind_text(k),
        kind is None ==> name@ == "-"@,
        counts <==> node@.req_seq < u64::MAX,
{
}

/// Both ends of a link show the same fingerprint for one key.
pub proof fn both_ends_show_one_fingerprint<S: Stream>(
    link: &SecureLink<S>,
    theirs: String,
    identity: &Identity,
    own: String,
)
    requires
        call_ensures(SecureLink::<S>::fingerprint, (link,), theirs),
        call_ensures(Identity::fingerprint, (identity,), own),
        link.remote() == identity.public@,
    ensures
        theirs@ == own@,
        own@ == fingerprint_text(sha256(identity.public@)),
{
}

/// Leaving now is leaving: nobody is linked, and the transcript stays.
pub proof fn leaving_now_is_leaving(node: &mut Node, r: Vec<Action>)
    requires
        call_ensures(Node::leave, (node,), r),
    ensures
        !final(node)@.running,
        !old(node)@.running ==> final(node)@ == old(node)@ && r@.len() == 0,
        old(node)@.running ==> final(node)@.peers.len() == 0 && final(node)@.pending.len() == 0
            && final(node)@.history.len() == old(node)@.history.len() + 1
            && final(node)@.history.drop_last() == old(node)@.history,
{
    let ts = choose|ts: i64| #[trigger]
        call_ensures(now_ts, (), ts) && took(final(node)@, r@, leaving(old(node)@, ts));
    if old(node)@.running {
        leaving_says_goodbye_and_no_more(old(node)@, ts, 0);
    }
    assert(each(r@).len() == r@.len());
}

/// The host's answer is for the request it names, whenever it is given.
pub proof fn an_answer_given_now_reaches_who_asked(
    node: &mut Node,
    req: &str,
    accept: bool,
    r: Result<Approval, Error>,
    other: Seq<char>,
)
    requires
        call_ensures(Node::approve, (node, req, accept), r),
        sound(old(node)@),
    ensures
        r is Ok <==> lookup(old(node)@.pending, req@) is Some,
        r is Err ==> final(node)@ == old(node)@,
        lookup(final(node)@.pending, req@) is None,
        other != req@ ==> lookup(final(node)@.pending, other) == lookup(
            old(node)@.pending,
            other,
        ),
        r matches Ok(a) ==> (accept <==> a is Welcome),
{
    let ts = choose|ts: i64| #[trigger]
        call_ensures(now_ts, (), ts) && decided(old(node)@, req@, accept, ts, r, final(node)@);
    an_answer_is_for_one_request(old(node)@, req@, accept, ts, r, final(node)@, other);
}

/// Dropping out ends every link in silence, and keeps the transcript.
pub proof fn dropping_out_ends_every_link(node: &mut Node, r: Vec<Action>, i: int)
    requires
        call_ensures(Node::shutdown_internal, (node,), r),
    ensures
        !final(node)@.running && final(node)@.peers.len() == 0 && !final(node)@.listening,
        final(node)@.history == old(node)@.history && final(node)@.pending == old(node)@.pending,
        0 <= i < old(node)@.peers.len() ==> i < r@.len() && r@[i]@ == (ActionView::Close {
            link: old(node)@.peers[i].1.link,
        }),
        0 <= i < r@.len() ==> !(r@[i]@ is Send) && !(r@[i]@ is Emit),
{
    dropping_out_is_silent(old(node)@, i);
    assert(each(r@).len() == r@.len());
    if 0 <= i < r@.len() {
        assert(each(r@)[i] == r@[i]@);
    }
}

} // verus!
