//! What the window promises: every event is shown as it came, in the place
//! that is for it, and changes nothing else.

use vstd::prelude::*;

use crate::error::Error;
use crate::events::{state_text, Event, EventView, PeerState};
use crate::history::occurs;
use crate::laws::transfers::a_part_occurs;
use crate::names::size_text;
use crate::protocol::{clock_for, dated, fmt_clock};
use crate::screen::{
    clock_time, emptied, expiry_text, first_row, last_bracket, line_time, offer_prompt, offer_text,
    offered_name, offers_without, per_tick, room_left, row_removed, shown, shown_all, start_checked,
    start_over, starting, ticked, upserted, with_message, MessageRow, MessageRowView, Page, PeerRow,
    PeerRowView, RequestRow, RequestRowView, Row, Screen, ScreenView, TransferRow, TransferRowView,
};
use crate::table::push_contains;
use crate::text::{dec, trimmed};
use crate::transport::{kind_named, TransportKind};
use crate::views::each;

verus! {

/// The lists of a screen but for one are as they were.
pub open spec fn lists_kept(
    v: ScreenView,
    w: ScreenView,
    messages: bool,
    peers: bool,
    requests: bool,
    transfers: bool,
    offers: bool,
) -> bool {
    &&& messages ==> w.messages == v.messages
    &&& peers ==> w.peers == v.peers
    &&& requests ==> w.requests == v.requests
    &&& transfers ==> w.transfers == v.transfers
    &&& offers ==> w.offers == v.offers
}

/// Which room is shown, and as whom we are in it, is as it was.
pub open spec fn same_place(v: ScreenView, w: ScreenView) -> bool {
    &&& w.page == v.page && w.busy == v.busy && w.is_host == v.is_host
    &&& w.room_code == v.room_code && w.room_addr == v.room_addr
    &&& w.transport_label == v.transport_label && w.my_fingerprint == v.my_fingerprint
    &&& w.draft == v.draft && w.expires_at == v.expires_at && w.expiry_note == v.expiry_note
    &&& w.scroll_tick == v.scroll_tick
}

// --- rows --------------------------------------------------------------------------------

/// What `first_row` says, told by positions.
pub proof fn first_row_is_first<R: Row>(rows: Seq<R::V>, name: Seq<char>)
    ensures
        -1 <= first_row::<R>(rows, name) < rows.len(),
        first_row::<R>(rows, name) >= 0 ==> R::name_of(rows[first_row::<R>(rows, name)]) == name,
        first_row::<R>(rows, name) < 0 ==> forall|i: int|
            0 <= i < rows.len() ==> R::name_of(#[trigger] rows[i]) != name,
        forall|i: int|
            0 <= i < first_row::<R>(rows, name) ==> R::name_of(#[trigger] rows[i]) != name,
    decreases rows.len(),
{
    if rows.len() > 0 && R::name_of(rows[0]) != name {
        let t = rows.skip(1);
        first_row_is_first::<R>(t, name);
        let k = first_row::<R>(t, name);
        assert forall|i: int| 0 <= i < rows.len() && (k < 0 || i < k + 1) implies R::name_of(
            #[trigger] rows[i],
        ) != name by {
            if i > 0 {
                assert(t[i - 1] == rows[i]);
            }
        }
        if k >= 0 {
            assert(t[k] == rows[k + 1]);
        }
    }
}

proof fn upserted_rows<R: Row>(rows: Seq<R::V>, row: R::V)
    ensures
        upserted::<R>(rows, row).contains(row),
        forall|i: int|
            0 <= i < rows.len() && R::name_of(#[trigger] rows[i]) != R::name_of(row) ==> upserted::<
                R,
            >(rows, row)[i] == rows[i],
        upserted::<R>(rows, row).len() == rows.len() + (if exists|i: int|
            0 <= i < rows.len() && R::name_of(#[trigger] rows[i]) == R::name_of(row) {
            0int
        } else {
            1
        }),
{
    let name = R::name_of(row);
    first_row_is_first::<R>(rows, name);
    let at = first_row::<R>(rows, name);
    let w = upserted::<R>(rows, row);
    if at < 0 {
        assert(w[rows.len() as int] == row);
    } else {
        assert(w[at] == row);
        assert(R::name_of(rows[at]) == name);
    }
}

// --- requests to join ----------------------------------------------------------------------

/// A request to join is shown with the joiner's own name, address and
/// fingerprint, for the host to compare, at the end of the list; whatever our
/// own fingerprint is makes no difference.
pub proof fn a_request_is_shown_as_it_came(
    v: ScreenView,
    req: Seq<char>,
    name: Seq<char>,
    addr: Seq<char>,
    theirs: Seq<char>,
    time: Seq<char>,
    ours: Seq<char>,
    other: Seq<char>,
    now: u64,
)
    ensures
        ({
            let ev = EventView::JoinRequest { req, name, addr, fingerprint: theirs };
            let (w, line) = shown(v, ev, time, ours, now);
            &&& w.requests.len() == v.requests.len() + 1
            &&& w.requests.take(v.requests.len() as int) == v.requests
            &&& w.requests.last().req == req
            &&& w.requests.last().name == name
            &&& w.requests.last().addr == addr
            &&& w.requests.last().fingerprint == theirs
            &&& occurs(name, w.status_line)
            &&& !line
            &&& lists_kept(v, w, true, true, false, true, true)
            &&& same_place(v, w)
            &&& w.error_line == v.error_line
            &&& shown(v, ev, time, other, now) == shown(v, ev, time, ours, now)
        }),
{
    let ev = EventView::JoinRequest { req, name, addr, fingerprint: theirs };
    let w = shown(v, ev, time, ours, now).0;
    assert(w.requests.take(v.requests.len() as int) =~= v.requests);
    let tail = " wants to join - accept or decline below."@;
    a_part_occurs(Seq::empty(), name, tail);
    assert(name + tail =~= Seq::<char>::empty() + name + tail);
}

/// A request that is answered leaves the list, and no other does; the answer is
/// told apart from the other one.
pub proof fn an_answered_request_leaves_the_list(
    v: ScreenView,
    req: Seq<char>,
    accepted: bool,
    time: Seq<char>,
    ours: Seq<char>,
    now: u64,
    i: int,
)
    requires
        forall|a: int, b: int|
            0 <= a < v.requests.len() && 0 <= b < v.requests.len() && (#[trigger] v.requests[a]).req
                == (#[trigger] v.requests[b]).req ==> a == b,
        0 <= i < v.requests.len(),
    ensures
        ({
            let (w, line) = shown(
                v,
                EventView::JoinResolved { req, accepted },
                time,
                ours,
                now,
            );
            &&& v.requests[i].req != req ==> w.requests.contains(v.requests[i])
            &&& v.requests[i].req == req ==> w.requests.len() == v.requests.len() - 1
            &&& forall|j: int| 0 <= j < w.requests.len() ==> (#[trigger] w.requests[j]).req != req
            &&& w.status_line == if accepted {
                "Joiner accepted."@
            } else {
                "Joiner declined."@
            }
            &&& !line
            &&& lists_kept(v, w, true, true, false, true, true)
            &&& same_place(v, w)
            &&& w.error_line == v.error_line
        }),
{
    let rows = v.requests;
    first_row_is_first::<RequestRow>(rows, req);
    let at = first_row::<RequestRow>(rows, req);
    let w = row_removed::<RequestRow>(rows, req);
    if at < 0 {
        assert(w.contains(rows[i]));
    } else {
        assert(rows[at].req == req);
        if i < at {
            assert(w[i] == rows[i]);
        } else if i > at {
            assert(w[i - 1] == rows[i]);
        }
        assert forall|j: int| 0 <= j < w.len() implies (#[trigger] w[j]).req != req by {
            let k = if j < at {
                j
            } else {
                j + 1
            };
            assert(w[j] == rows[k]);
            if rows[k].req == req {
                assert(rows[k].req == rows[at].req);
            }
        }
    }
}

// --- people ----------------------------------------------------------------------------------

/// A peer has one row, which says who it is, how the link stands and what is
/// to be said of it; every other peer's row is as it was. A failure is put
/// before the user with the name and the reason.
pub proof fn a_peer_is_shown_as_it_stands(
    v: ScreenView,
    id: Seq<char>,
    name: Seq<char>,
    state: PeerState,
    detail: Seq<char>,
    time: Seq<char>,
    ours: Seq<char>,
    now: u64,
)
    ensures
        ({
            let ev = EventView::Peer { id, name, state, detail };
            let (w, line) = shown(v, ev, time, ours, now);
            &&& w.peers.contains(
                PeerRowView {
                    id,
                    name,
                    status: match state {
                        PeerState::Connecting => "Connecting"@,
                        PeerState::Connected => "Connected"@,
                        PeerState::Disconnected => "Disconnected"@,
                        PeerState::Failed => "Failed"@,
                    },
                    detail,
                },
            )
            &&& forall|i: int|
                0 <= i < v.peers.len() && (#[trigger] v.peers[i]).id != id ==> w.peers[i]
                    == v.peers[i]
            &&& w.peers.len() == v.peers.len() + (if exists|i: int|
                0 <= i < v.peers.len() && (#[trigger] v.peers[i]).id == id {
                0int
            } else {
                1
            })
            &&& state == PeerState::Failed && detail.len() > 0 ==> occurs(name, w.error_line)
                && occurs(detail, w.error_line)
            &&& state != PeerState::Failed || detail.len() == 0 ==> w.error_line == v.error_line
            &&& !line
            &&& lists_kept(v, w, true, false, true, true, true)
            &&& same_place(v, w)
            &&& w.status_line == v.status_line
        }),
{
    let row = PeerRowView { id, name, status: state_text(state), detail };
    upserted_rows::<PeerRow>(v.peers, row);
    assert(forall|i: int|
        0 <= i < v.peers.len() ==> PeerRow::name_of(#[trigger] v.peers[i]) == v.peers[i].id);
    let text = name + ": "@ + detail;
    let none = Seq::<char>::empty();
    assert(text =~= none + name + (": "@ + detail));
    assert(text =~= name + ": "@ + detail + none);
    a_part_occurs(none, name, ": "@ + detail);
    a_part_occurs(name + ": "@, detail, none);
}

// --- lines ------------------------------------------------------------------------------------

/// A line is added at the end, and what stood above it stays, but that the
/// oldest of two thousand makes room.
pub proof fn a_new_line_comes_last(rows: Seq<MessageRowView>, row: MessageRowView)
    ensures
        ({
            let w = with_message(rows, row);
            &&& w.len() > 0 && w.last() == row
            &&& rows.len() < 2000 ==> w.drop_last() == rows
            &&& rows.len() >= 2000 ==> w.drop_last() == rows.skip(1)
        }),
{
    let w = with_message(rows, row);
    if rows.len() < 2000 {
        assert(w.drop_last() =~= rows);
    } else {
        assert(w.drop_last() =~= rows.skip(1));
    }
}

/// A chat line is shown last, with its author's name, the whole of its text,
/// its time and on its author's side; nothing else changes.
pub proof fn a_chat_line_is_shown_as_it_came(
    v: ScreenView,
    from: Seq<char>,
    name: Seq<char>,
    ts: i64,
    body: Seq<char>,
    mine: bool,
    time: Seq<char>,
    ours: Seq<char>,
    now: u64,
)
    ensures
        ({
            let ev = EventView::Chat { from, name, ts, body, mine };
            let (w, line) = shown(v, ev, time, ours, now);
            &&& line
            &&& w.messages.len() > 0
            &&& w.messages.last().who == name
            &&& w.messages.last().body == body
            &&& w.messages.last().time == time
            &&& w.messages.last().mine == mine
            &&& !w.messages.last().system
            &&& v.messages.len() < 2000 ==> w.messages.drop_last() == v.messages
            &&& lists_kept(v, w, false, true, true, true, true)
            &&& same_place(v, w)
            &&& w.status_line == v.status_line && w.error_line == v.error_line
        }),
{
    a_new_line_comes_last(
        v.messages,
        MessageRowView { who: name, time, body, mine, system: false },
    );
}

/// A notice of the room is a line by nobody, with the whole of its text.
pub proof fn a_notice_is_shown_as_it_came(
    v: ScreenView,
    text: Seq<char>,
    time: Seq<char>,
    ours: Seq<char>,
    now: u64,
)
    ensures
        ({
            let (w, line) = shown(v, EventView::System(text), time, ours, now);
            &&& line
            &&& w.messages.len() > 0
            &&& w.messages.last().body == text
            &&& w.messages.last().time == time
            &&& w.messages.last().system && !w.messages.last().mine
            &&& w.messages.last().who == ""@
            &&& v.messages.len() < 2000 ==> w.messages.drop_last() == v.messages
            &&& lists_kept(v, w, false, true, true, true, true)
            &&& same_place(v, w)
            &&& w.status_line == v.status_line && w.error_line == v.error_line
        }),
{
    a_new_line_comes_last(
        v.messages,
        MessageRowView { who: ""@, time, body: text, mine: false, system: true },
    );
}

/// A passing note goes to the status line and a failure to the error line,
/// word for word, and neither to the transcript.
pub proof fn notes_and_failures_have_their_places(
    v: ScreenView,
    text: Seq<char>,
    time: Seq<char>,
    ours: Seq<char>,
    now: u64,
)
    ensures
        ({
            let (s, a) = shown(v, EventView::Status(text), time, ours, now);
            let (e, b) = shown(v, EventView::Error(text), time, ours, now);
            &&& s.status_line == text && s.error_line == v.error_line && !a
            &&& e.error_line == text && e.status_line == v.status_line && !b
            &&& lists_kept(v, s, true, true, true, true, true) && same_place(v, s)
            &&& lists_kept(v, e, true, true, true, true, true) && same_place(v, e)
        }),
{
}

// --- rooms --------------------------------------------------------------------------------------

/// An open room is shown to its host with its code, its address, its transport
/// and our own fingerprint, and counts down from the time it is given.
pub proof fn an_open_room_is_shown(
    v: ScreenView,
    code: Seq<char>,
    transport: Seq<char>,
    dial: Seq<char>,
    expires_secs: u64,
    time: Seq<char>,
    ours: Seq<char>,
    now: u64,
)
    requires
        now + expires_secs * 1_000_000_000 <= u64::MAX,
    ensures
        ({
            let ev = EventView::RoomOpened { code, transport, dial, expires_secs };
            let (w, line) = shown(v, ev, time, ours, now);
            &&& w.room_code == code && w.room_addr == dial && w.transport_label == transport
            &&& w.my_fingerprint == ours
            &&& w.is_host && w.page == Page::Room && !w.busy
            &&& w.expires_at matches Some(end) && end - now == expires_secs * 1_000_000_000
            &&& !line
            &&& lists_kept(v, w, true, true, true, true, true)
            &&& w.draft == v.draft && w.error_line == v.error_line && w.expiry_note == v.expiry_note
            &&& w.status_line == "Room open. Share the code; every joiner needs your approval."@
        }),
{
}

/// A room that let us in is shown with its code and transport, and with our own
/// fingerprint, to someone who is not its host.
pub proof fn a_joined_room_is_shown(
    v: ScreenView,
    room: Seq<char>,
    transport: Seq<char>,
    time: Seq<char>,
    ours: Seq<char>,
    now: u64,
)
    ensures
        ({
            let (w, line) = shown(v, EventView::Joined { room, transport }, time, ours, now);
            &&& w.room_code == room && w.transport_label == transport && w.my_fingerprint == ours
            &&& !w.is_host && w.page == Page::Room && !w.busy
            &&& w.expiry_note.len() == 0
            &&& w.draft == v.draft && w.error_line == v.error_line && w.room_addr == v.room_addr
            &&& w.expires_at == v.expires_at
            &&& w.status_line == "Approved - you are in the room."@
            &&& !line
            &&& lists_kept(v, w, true, true, true, true, true)
        }),
{
    reveal_strlit("");
}

/// A room that closes is told with its reason, in the transcript and in the
/// status line; nobody is shown as connected or waiting any more, and the
/// transcript stays.
pub proof fn a_closed_room_is_told(
    v: ScreenView,
    reason: Seq<char>,
    time: Seq<char>,
    ours: Seq<char>,
    now: u64,
)
    ensures
        ({
            let (w, line) = shown(v, EventView::RoomClosed(reason), time, ours, now);
            &&& line
            &&& w.status_line == reason
            &&& w.peers.len() == 0 && w.requests.len() == 0
            &&& w.expires_at is None && w.expiry_note.len() == 0
            &&& w.messages.len() > 0 && w.messages.last().system && occurs(
                reason,
                w.messages.last().body,
            )
            &&& v.messages.len() < 2000 ==> w.messages.drop_last() == v.messages
            &&& lists_kept(v, w, false, false, false, true, true)
            &&& w.page == v.page && w.room_code == v.room_code && w.room_addr == v.room_addr
            &&& w.is_host == v.is_host && w.draft == v.draft && w.error_line == v.error_line
            &&& w.busy == v.busy && w.my_fingerprint == v.my_fingerprint
        }),
{
    reveal_strlit("");
    let lead = "Room closed: "@;
    a_part_occurs(lead, reason, Seq::empty());
    assert(lead + reason =~= lead + reason + Seq::<char>::empty());
    a_new_line_comes_last(
        v.messages,
        MessageRowView { who: ""@, time, body: lead + reason, mine: false, system: true },
    );
}

// --- files ----------------------------------------------------------------------------------------

/// An offer waits behind those that came before it, with the name and the size
/// of the file; the name that is suggested for it is the file's own.
#[verifier::rlimit(40)]
pub proof fn an_offer_is_shown_as_it_came(
    v: ScreenView,
    transfer: Seq<char>,
    from: Seq<char>,
    name: Seq<char>,
    size: u64,
    time: Seq<char>,
    ours: Seq<char>,
    now: u64,
)
    requires
        forall|i: int| 0 <= i < v.offers.len() ==> (#[trigger] v.offers[i]).0 != transfer,
    ensures
        ({
            let ev = EventView::FileOffer { transfer, from, name, size };
            let (w, line) = shown(v, ev, time, ours, now);
            &&& w.offers.len() == v.offers.len() + 1
            &&& w.offers.take(v.offers.len() as int) == v.offers
            &&& w.offers.last().0 == transfer
            &&& occurs(name, w.offers.last().1) && occurs(size_text(size), w.offers.last().1)
            &&& offer_text(w.offers, transfer) matches Some(text) && offered_name(text) == name
            &&& offer_prompt(w) == if v.offers.len() == 0 {
                w.offers.last()
            } else {
                v.offers[0]
            }
            &&& !line
            &&& lists_kept(v, w, true, true, true, true, false)
            &&& same_place(v, w)
            &&& w.status_line == v.status_line && w.error_line == v.error_line
        }),
{
    let ev = EventView::FileOffer { transfer, from, name, size };
    let w = shown(v, ev, time, ours, now).0;
    assert(w.offers.take(v.offers.len() as int) =~= v.offers);
    let none = Seq::<char>::empty();
    let s = size_text(size);
    let text = name + " ("@ + s + ")"@;
    assert(text =~= none + name + (" ("@ + s + ")"@));
    a_part_occurs(none, name, " ("@ + s + ")"@);
    a_part_occurs(name + " ("@, s, ")"@);
    crate::screen::an_offer_suggests_its_name(name, size);
    last_offer_is_found(w.offers, transfer);
}

proof fn last_offer_is_found(offers: Seq<(Seq<char>, Seq<char>)>, id: Seq<char>)
    requires
        offers.len() > 0,
        offers.last().0 == id,
        forall|i: int| 0 <= i < offers.len() - 1 ==> (#[trigger] offers[i]).0 != id,
    ensures
        offer_text(offers, id) == Some(offers.last().1),
    decreases offers.len(),
{
    if offers.len() > 1 {
        let t = offers.skip(1);
        assert(offers[0].0 != id);
        assert forall|i: int| 0 <= i < t.len() - 1 implies (#[trigger] t[i]).0 != id by {
            assert(offers[i + 1].0 != id);
        }
        last_offer_is_found(t, id);
    }
}

/// An offer that is answered waits no more, and every other one does.
pub proof fn an_answered_offer_is_gone(
    offers: Seq<(Seq<char>, Seq<char>)>,
    id: Seq<char>,
    row: (Seq<char>, Seq<char>),
)
    ensures
        offers_without(offers, id).contains(row) <==> offers.contains(row) && row.0 != id,
    decreases offers.len(),
{
    reveal(Seq::filter);
    if offers.len() > 0 {
        let t = offers.drop_last();
        let f = offers_without(t, id);
        let g = offers_without(offers, id);
        an_answered_offer_is_gone(t, id, row);
        assert(offers =~= t.push(offers.last()));
        push_contains(t, offers.last(), row);
        if offers.last().0 != id {
            assert(g == f.push(offers.last()));
            push_contains(f, offers.last(), row);
        }
    }
}

/// A transfer has one row, with what it is, whom it is with and how far it has
/// come; every other row is as it was.
#[verifier::rlimit(40)]
pub proof fn progress_is_shown_as_it_came(
    v: ScreenView,
    transfer: Seq<char>,
    name: Seq<char>,
    peer: Seq<char>,
    done: u64,
    total: u64,
    incoming: bool,
    time: Seq<char>,
    ours: Seq<char>,
    now: u64,
)
    ensures
        ({
            let ev = EventView::FileProgress { transfer, name, peer, done, total, incoming };
            let (w, line) = shown(v, ev, time, ours, now);
            &&& exists|row: TransferRowView| #[trigger]
                w.transfers.contains(row) && row.id == transfer && row.done == done && row.total
                    == total && occurs(name, row.label) && occurs(peer, row.label) && occurs(
                    size_text(done),
                    row.state,
                ) && occurs(size_text(total), row.state) && occurs(
                    if incoming {
                        " from "@
                    } else {
                        " to "@
                    },
                    row.label,
                )
            &&& forall|i: int|
                0 <= i < v.transfers.len() && (#[trigger] v.transfers[i]).id != transfer
                    ==> w.transfers[i] == v.transfers[i]
            &&& !line
            &&& lists_kept(v, w, true, true, true, false, true)
            &&& same_place(v, w)
            &&& w.status_line == v.status_line && w.error_line == v.error_line
        }),
{
    let none = Seq::<char>::empty();
    let way = crate::screen::toward(incoming);
    let (a, b) = (size_text(done), size_text(total));
    let row = TransferRowView {
        id: transfer,
        label: name + " "@ + way + " "@ + peer,
        done,
        total,
        state: a + " / "@ + b,
    };
    upserted_rows::<TransferRow>(v.transfers, row);
    assert(forall|i: int|
        0 <= i < v.transfers.len() ==> TransferRow::name_of(#[trigger] v.transfers[i])
            == v.transfers[i].id);
    assert(row.label =~= none + name + (" "@ + way + " "@ + peer));
    assert(row.label =~= name + " "@ + way + " "@ + peer + none);
    a_part_occurs(none, name, " "@ + way + " "@ + peer);
    a_part_occurs(name + " "@ + way + " "@, peer, none);
    reveal_strlit(" ");
    reveal_strlit("from");
    reveal_strlit("to");
    reveal_strlit(" from ");
    reveal_strlit(" to ");
    let mid = if incoming {
        " from "@
    } else {
        " to "@
    };
    assert(mid =~= " "@ + way + " "@);
    assert(row.label =~= name + mid + peer);
    a_part_occurs(name, mid, peer);
    assert(row.state =~= none + a + (" / "@ + b));
    assert(row.state =~= a + " / "@ + b + none);
    a_part_occurs(none, a, " / "@ + b);
    a_part_occurs(a + " / "@, b, none);
    let ev = EventView::FileProgress { transfer, name, peer, done, total, incoming };
    let w = shown(v, ev, time, ours, now).0;
    assert(w.transfers == upserted::<TransferRow>(v.transfers, row));
    assert(occurs(mid, row.label));
    assert(w.transfers.contains(row));
}

/// A transfer that is over has a row that is full exactly if it went well, and
/// a line in the transcript with its name and what is to be said of it.
#[verifier::rlimit(40)]
pub proof fn an_end_is_shown_as_it_came(
    v: ScreenView,
    transfer: Seq<char>,
    name: Seq<char>,
    incoming: bool,
    ok: bool,
    detail: Seq<char>,
    time: Seq<char>,
    ours: Seq<char>,
    now: u64,
)
    ensures
        ({
            let ev = EventView::FileFinished { transfer, name, incoming, ok, detail };
            let (w, line) = shown(v, ev, time, ours, now);
            &&& line
            &&& exists|row: TransferRowView| #[trigger]
                w.transfers.contains(row) && row.id == transfer && occurs(name, row.label) && (
                row.done == row.total <==> ok) && row.done <= row.total && (detail.len() > 0
                    ==> row.state == detail) && (detail.len() == 0 ==> row.state == if ok {
                    "Done"@
                } else {
                    "Failed"@
                })
            &&& forall|i: int|
                0 <= i < v.transfers.len() && (#[trigger] v.transfers[i]).id != transfer
                    ==> w.transfers[i] == v.transfers[i]
            &&& w.messages.len() > 0 && w.messages.last().system && w.messages.last().time == time
            &&& occurs(name, w.messages.last().body) && occurs(detail, w.messages.last().body)
            &&& !ok ==> occurs("failed"@, w.messages.last().body)
            &&& ok && incoming ==> occurs("received"@, w.messages.last().body)
            &&& ok && !incoming ==> occurs("sent"@, w.messages.last().body)
            &&& v.messages.len() < 2000 ==> w.messages.drop_last() == v.messages
            &&& lists_kept(v, w, false, true, true, false, true)
            &&& same_place(v, w)
            &&& w.status_line == v.status_line && w.error_line == v.error_line
        }),
{
    let none = Seq::<char>::empty();
    let what = crate::screen::happened(incoming);
    let row = TransferRowView {
        id: transfer,
        label: name + " ("@ + what + ")"@,
        done: if ok {
            1
        } else {
            0
        },
        total: 1,
        state: if detail.len() > 0 {
            detail
        } else if ok {
            "Done"@
        } else {
            "Failed"@
        },
    };
    upserted_rows::<TransferRow>(v.transfers, row);
    assert(forall|i: int|
        0 <= i < v.transfers.len() ==> TransferRow::name_of(#[trigger] v.transfers[i])
            == v.transfers[i].id);
    assert(row.label =~= none + name + (" ("@ + what + ")"@));
    a_part_occurs(none, name, " ("@ + what + ")"@);
    let lead = if ok {
        "File "@ + what + ": "@
    } else {
        "File transfer failed: "@
    };
    let text = lead + name + ". "@ + detail;
    assert(text =~= lead + name + (". "@ + detail));
    assert(text =~= lead + name + ". "@ + detail + none);
    a_part_occurs(lead, name, ". "@ + detail);
    a_part_occurs(lead + name + ". "@, detail, none);
    reveal_strlit("File transfer failed: ");
    reveal_strlit("failed");
    if !ok {
        let (x, y) = (lead.take(14), lead.skip(20));
        assert(lead =~= x + "failed"@ + y);
        assert(text =~= x + "failed"@ + (y + name + ". "@ + detail));
        a_part_occurs(x, "failed"@, y + name + ". "@ + detail);
    }
    a_new_line_comes_last(
        v.messages,
        MessageRowView { who: ""@, time, body: text, mine: false, system: true },
    );
    let ev = EventView::FileFinished { transfer, name, incoming, ok, detail };
    let w = shown(v, ev, time, ours, now).0;
    assert(w.transfers == upserted::<TransferRow>(v.transfers, row));
    assert(w.transfers.contains(row));
    assert(w.messages.last().body == text);
    if ok {
        a_part_occurs("File "@, what, ": "@ + name + ". "@ + detail);
        assert(text =~= "File "@ + what + (": "@ + name + ". "@ + detail));
    }
}

// --- ticks ------------------------------------------------------------------------------------------

/// A tick shows its events one after the other, scrolls exactly if one of them
/// brought a line, and tells how long the code is good for. Two ticks in a row
/// show what one tick with all of their events shows, but for the scrolling.
pub proof fn a_tick_shows_its_events_in_order(
    v: ScreenView,
    a: Seq<EventView>,
    b: Seq<EventView>,
    s: Seq<Seq<char>>,
    t: Seq<Seq<char>>,
    ours: Seq<char>,
    now: u64,
)
    requires
        s.len() == a.len(),
        t.len() == b.len(),
    ensures
        ({
            let first = shown_all(v, a, s, ours, now);
            let second = shown_all(first.0, b, t, ours, now);
            let both = shown_all(v, a + b, s + t, ours, now);
            &&& both.0 == second.0
            &&& both.1 == (first.1 || second.1)
        }),
        a.len() == 1 ==> shown_all(v, a, s, ours, now) == shown(v, a[0], s[0], ours, now),
        a.len() == 0 ==> shown_all(v, a, s, ours, now) == (v, false),
        ({
            let (after, gained) = shown_all(v, a, s, ours, now);
            let w = ticked(v, a, s, ours, now);
            &&& w.scroll_tick == if gained {
                after.scroll_tick.wrapping_add(1)
            } else {
                after.scroll_tick
            }
            &&& w == (ScreenView {
                scroll_tick: w.scroll_tick,
                expiry_note: w.expiry_note,
                ..after
            })
            &&& w.expiry_note == expiry_text(after.expires_at, now)
        }),
    decreases b.len(),
{
    if a.len() == 1 {
        assert(a.drop_last() =~= Seq::empty());
        assert(shown_all(v, a.drop_last(), s.drop_last(), ours, now) == (v, false));
    }
    if b.len() == 0 {
        assert(a + b =~= a);
        assert(s + t =~= s);
    } else {
        assert((a + b).drop_last() =~= a + b.drop_last());
        assert((s + t).drop_last() =~= s + t.drop_last());
        a_tick_shows_its_events_in_order(
            v,
            a,
            b.drop_last(),
            s,
            t.drop_last(),
            ours,
            now,
        );
    }
}

/// A tick handles every event that waits, up to 256 of them.
pub proof fn a_tick_has_its_limit(waiting: nat)
    ensures
        per_tick(waiting) <= waiting && per_tick(waiting) <= 256,
        waiting <= 256 ==> per_tick(waiting) == waiting,
        waiting > 256 ==> per_tick(waiting) == 256,
{
}

/// The note about the code says that it is over exactly from the last second
/// on. Before that it tells the minutes that are left, rounded up, and in the
/// last minute the seconds. Without a code of ours there is no note.
pub proof fn the_countdown_tells_what_is_left(end: u64, now: u64)
    ensures
        expiry_text(None, now).len() == 0,
        ({
            let left = if end > now {
                (end - now) / 1_000_000_000
            } else {
                0
            };
            let note = expiry_text(Some(end), now);
            &&& left == 0 ==> note
                == "Code expired - new joiners are refused. Press Reopen to accept more."@
            &&& 0 < left < 60 ==> note == "Code accepts joiners for another "@ + dec(left as nat)
                + "s"@
            &&& left >= 60 ==> exists|min: nat|
                60 * (min - 1) < left <= 60 * min && note == "Code accepts joiners for another "@
                    + #[trigger] dec(min) + " min"@
        }),
{
    reveal_strlit("");
    let left = if end > now {
        (end - now) / 1_000_000_000
    } else {
        0
    };
    let min = ((left + 59) / 60) as nat;
    assert(left >= 60 ==> expiry_text(Some(end), now) == "Code accepts joiners for another "@ + dec(
        min,
    ) + " min"@);
}

// --- what the user does -----------------------------------------------------------------------------

/// A room is started only with a transport, a name, and for joining a code;
/// the name is taken without the space around it, and what is missing is said.
pub proof fn a_start_needs_a_name_and_a_code(
    mode: Seq<char>,
    name: Seq<char>,
    code: Option<Seq<char>>,
)
    ensures
        ({
            let blank = code matches Some(c) && trimmed(c).len() == 0;
            let checked = start_checked(mode, name, code);
            &&& checked is Ok <==> kind_named(mode) is Some && trimmed(name).len() > 0 && !blank
            &&& checked matches Ok(start) ==> Some(start.0) == kind_named(mode) && start.1
                == trimmed(name)
            &&& kind_named(mode) is None ==> checked == Err::<
                (TransportKind, Seq<char>),
                Seq<char>,
            >("Choose LAN or Bluetooth first."@)
            &&& kind_named(mode) is Some && blank ==> checked == Err::<
                (TransportKind, Seq<char>),
                Seq<char>,
            >("Enter the room code the host gave you."@)
            &&& kind_named(mode) is Some && !blank && trimmed(name).len() == 0 ==> checked == Err::<
                (TransportKind, Seq<char>),
                Seq<char>,
            >("Enter a display name first."@)
        }),
{
}

/// Nothing of a room is left on the screen `w`, and what the user has typed
/// stays.
pub open spec fn no_trace(v: ScreenView, w: ScreenView) -> bool {
    &&& w.messages.len() == 0 && w.peers.len() == 0 && w.requests.len() == 0
    &&& w.transfers.len() == 0 && w.offers.len() == 0
    &&& w.expires_at is None
    &&& w.draft == v.draft
}

/// Nothing of the last room is left on the screen when a new one starts, when
/// starting fails, or when a room is left; what the user has typed stays.
pub proof fn rooms_leave_no_trace(
    v: ScreenView,
    ours: Seq<char>,
    status: Seq<char>,
    reason: Seq<char>,
)
    ensures
        no_trace(v, starting(v, ours, status)),
        no_trace(v, start_over(v, reason)),
        no_trace(v, room_left(v)),
        no_trace(v, emptied(v)),
        starting(v, ours, status).busy,
        starting(v, ours, status).my_fingerprint == ours,
        starting(v, ours, status).status_line == status,
        starting(v, ours, status).error_line.len() == 0,
        starting(v, ours, status).page == v.page && starting(v, ours, status).is_host == v.is_host,
        start_over(v, reason).error_line == reason,
        start_over(v, reason).page == Page::Setup && !start_over(v, reason).busy,
        start_over(v, reason).status_line == "Not connected."@,
        start_over(v, reason).my_fingerprint == v.my_fingerprint,
        room_left(v).status_line == "You left the room."@,
        emptied(v) == (ScreenView {
            messages: emptied(v).messages,
            peers: emptied(v).peers,
            requests: emptied(v).requests,
            transfers: emptied(v).transfers,
            offers: emptied(v).offers,
            expires_at: emptied(v).expires_at,
            ..v
        }),
        room_left(v).page == Page::Setup && !room_left(v).busy && !room_left(v).is_host,
        room_left(v).room_code.len() == 0 && room_left(v).room_addr.len() == 0,
        room_left(v).error_line.len() == 0 && room_left(v).expiry_note.len() == 0,
{
    reveal_strlit("");
}

// --- calls ------------------------------------------------------------------------------------------

/// A request to join is put on the screen with what the joiner is known by,
/// and nothing of ours.
pub proof fn the_host_sees_who_asks(
    screen: &mut Screen,
    ev: Event,
    time: &str,
    ours: &str,
    now: u64,
    r: bool,
    req: Seq<char>,
    name: Seq<char>,
    addr: Seq<char>,
    theirs: Seq<char>,
)
    requires
        call_ensures(Screen::show, (screen, ev, time, ours, now), r),
        ev@ == (EventView::JoinRequest { req, name, addr, fingerprint: theirs }),
    ensures
        final(screen)@.requests.len() == old(screen)@.requests.len() + 1,
        final(screen)@.requests.drop_last() == old(screen)@.requests,
        final(screen)@.requests.last() == (RequestRowView { req, name, addr, fingerprint: theirs }),
        final(screen)@.messages == old(screen)@.messages && final(screen)@.peers == old(
            screen,
        )@.peers,
        !r,
{
    assert(final(screen)@.requests.drop_last() =~= old(screen)@.requests);
}

/// A chat line is put on the screen as it came, below those that were there.
pub proof fn the_user_sees_what_was_said(
    screen: &mut Screen,
    ev: Event,
    time: &str,
    ours: &str,
    now: u64,
    r: bool,
)
    requires
        call_ensures(Screen::show, (screen, ev, time, ours, now), r),
        ev@ is Chat,
    ensures
        ev@ matches EventView::Chat { from, name, ts, body, mine } && {
            &&& r
            &&& final(screen)@.messages.len() > 0
            &&& final(screen)@.messages.last() == (MessageRowView {
                who: name,
                time: time@,
                body,
                mine,
                system: false,
            })
            &&& old(screen)@.messages.len() < 2000 ==> final(screen)@.messages.drop_last() == old(
                screen,
            )@.messages
            &&& final(screen)@.peers == old(screen)@.peers
            &&& final(screen)@.requests == old(screen)@.requests
            &&& final(screen)@.status_line == old(screen)@.status_line
        },
{
    if let EventView::Chat { from, name, ts, body, mine } = ev@ {
        a_chat_line_is_shown_as_it_came(
            old(screen)@,
            from,
            name,
            ts,
            body,
            mine,
            time@,
            ours@,
            now,
        );
    }
}

/// What is taken off the queue is what is shown, the oldest first; what does
/// not fit into a tick waits for the next one, in its order.
pub proof fn nothing_is_lost_between_ticks(
    screen: &mut Screen,
    waiting: &mut Vec<Event>,
    ours: &str,
    now: u64,
)
    requires
        call_ensures(Screen::pump, (screen, waiting, ours, now), ()),
    ensures
        old(waiting)@.len() <= 256 ==> final(waiting)@.len() == 0,
        old(waiting)@.len() > 256 ==> final(waiting)@ == old(waiting)@.skip(256),
        old(waiting)@.len() == 0 ==> lists_kept(
            old(screen)@,
            final(screen)@,
            true,
            true,
            true,
            true,
            true,
        ),
{
}

/// A message that got through is no longer in the box; one that did not stays
/// there, and the user is told why.
pub proof fn an_unsent_message_is_kept(screen: &mut Screen, r: Result<(), Error>)
    requires
        call_ensures(Screen::message_sent, (screen, r), ()),
    ensures
        r is Ok ==> final(screen)@.draft.len() == 0 && final(screen)@.error_line.len() == 0,
        r matches Err(e) ==> final(screen)@.draft == old(screen)@.draft
            && final(screen)@.error_line == e@.message(),
        lists_kept(old(screen)@, final(screen)@, true, true, true, true, true),
        final(screen)@.status_line == old(screen)@.status_line,
{
    reveal_strlit("");
}

/// What is sent is what was typed, without the space around it; where there is
/// nothing else, nothing is sent.
pub proof fn what_was_typed_is_sent(screen: &Screen, r: Option<String>)
    requires
        call_ensures(Screen::message_to_send, (screen,), r),
    ensures
        r is Some <==> trimmed(screen@.draft).len() > 0,
        r matches Some(text) ==> text@ == trimmed(screen@.draft),
{
}

/// A transcript that was saved is told with where it is; what failed is told
/// in its own words.
pub proof fn a_saved_transcript_is_told(screen: &mut Screen, path: &str, r: Result<(), Error>)
    requires
        call_ensures(Screen::exported, (screen, path, r), ()),
    ensures
        r is Ok ==> occurs(path@, final(screen)@.status_line) && final(screen)@.error_line.len()
            == 0,
        r matches Err(e) ==> final(screen)@.error_line == e@.message()
            && final(screen)@.status_line == old(screen)@.status_line,
        lists_kept(old(screen)@, final(screen)@, true, true, true, true, true),
{
    reveal_strlit("");
    let lead = "Transcript saved to "@;
    assert(lead + path@ =~= lead + path@ + Seq::<char>::empty());
    a_part_occurs(lead, path@, Seq::empty());
}

/// Reopening counts down from ten minutes again; where it failed, the count
/// stays and the user is told why.
pub proof fn reopening_counts_down_again(screen: &mut Screen, r: Result<(), Error>, now: u64)
    requires
        call_ensures(Screen::reopened, (screen, r, now), ()),
        now + 600_000_000_000 <= u64::MAX,
    ensures
        r is Ok ==> (final(screen)@.expires_at matches Some(end) && end - now == 600_000_000_000),
        r matches Err(e) ==> final(screen)@.expires_at == old(screen)@.expires_at
            && final(screen)@.error_line == e@.message(),
        lists_kept(old(screen)@, final(screen)@, true, true, true, true, true),
{
}

/// An answered offer leaves the list, and the others stay; a file is saved
/// under the name it was offered with.
pub proof fn offers_are_answered_one_by_one(
    screen: &mut Screen,
    id: &str,
    row: (Seq<char>, Seq<char>),
)
    requires
        call_ensures(Screen::offer_answered, (screen, id), ()),
    ensures
        final(screen)@.offers.contains(row) <==> old(screen)@.offers.contains(row) && row.0 != id@,
        lists_kept(old(screen)@, final(screen)@, true, true, true, true, false),
        same_place(old(screen)@, final(screen)@),
{
    an_answered_offer_is_gone(old(screen)@.offers, id@, row);
}

/// A start that lacks something is refused with what is missing, and changes
/// nothing else.
pub proof fn a_start_is_checked(
    screen: &mut Screen,
    mode: &str,
    name: &str,
    code: Option<&str>,
    r: Option<(TransportKind, String)>,
)
    requires
        call_ensures(Screen::check_start, (screen, mode, name, code), r),
    ensures
        r is Some <==> kind_named(mode@) is Some && trimmed(name@).len() > 0 && !(code matches Some(
            c,
        ) && trimmed(c@).len() == 0),
        r matches Some((kind, n)) ==> kind_named(mode@) == Some(kind) && n@ == trimmed(name@)
            && final(screen)@ == old(screen)@,
        r is None ==> final(screen)@.error_line.len() > 0 && final(screen)@ == (ScreenView {
            error_line: final(screen)@.error_line,
            ..old(screen)@
        }),
{
    reveal_strlit("Choose LAN or Bluetooth first.");
    reveal_strlit("Enter the room code the host gave you.");
    reveal_strlit("Enter a display name first.");
}

/// A new screen is where a room is set up, with nothing on it.
pub proof fn a_new_screen_is_empty(r: Screen)
    requires
        call_ensures(Screen::new, (), r),
    ensures
        r@.page == Page::Setup && !r@.busy && !r@.is_host,
        r@.messages.len() == 0 && r@.peers.len() == 0 && r@.requests.len() == 0,
        r@.transfers.len() == 0 && r@.offers.len() == 0,
        r@.room_code.len() == 0 && r@.draft.len() == 0 && r@.error_line.len() == 0,
        r@.expires_at is None && r@.scroll_tick == 0,
{
}

/// A start is shown as what it is, with our own fingerprint and nothing of the
/// last room; one that fails is told with the reason; and a room that is left
/// leaves nothing behind.
pub proof fn starting_and_leaving_clear_the_screen(
    a: &mut Screen,
    ours: &str,
    joining: bool,
    b: &mut Screen,
    reason: &str,
    c: &mut Screen,
)
    requires
        call_ensures(Screen::started, (a, ours, joining), ()),
        call_ensures(Screen::start_failed, (b, reason), ()),
        call_ensures(Screen::left, (c,), ()),
    ensures
        no_trace(old(a)@, final(a)@) && no_trace(old(b)@, final(b)@) && no_trace(
            old(c)@,
            final(c)@,
        ),
        final(a)@.busy && final(a)@.my_fingerprint == ours@ && final(a)@.error_line.len() == 0,
        joining ==> final(a)@.status_line == "Contacting the host..."@,
        !joining ==> final(a)@.status_line == "Opening the room..."@,
        final(b)@.error_line == reason@ && final(b)@.page == Page::Setup && !final(b)@.busy,
        final(c)@.page == Page::Setup && !final(c)@.busy && final(c)@.room_code.len() == 0,
{
    reveal_strlit("");
}

/// The offer that is put before the user is the one that has waited longest;
/// where none waits, nothing is.
pub proof fn the_oldest_offer_is_asked_first(screen: &Screen, r: (String, String))
    requires
        call_ensures(Screen::show_next_offer, (screen,), r),
    ensures
        screen@.offers.len() > 0 ==> r.0@ == screen@.offers[0].0 && r.1@ == screen@.offers[0].1,
        screen@.offers.len() == 0 ==> r.0@.len() == 0 && r.1@.len() == 0,
{
    reveal_strlit("");
}

/// A file that was offered is saved under the name it was offered with, and any
/// other under a name that says nothing.
pub proof fn a_file_is_saved_under_its_name(
    screen: &Screen,
    transfer: &str,
    r: String,
    name: Seq<char>,
    size: u64,
)
    requires
        call_ensures(Screen::name_for, (screen, transfer), r),
    ensures
        offer_text(screen@.offers, transfer@) == Some(name + " ("@ + size_text(size) + ")"@)
            ==> r@ == name,
        offer_text(screen@.offers, transfer@) is None ==> r@ == "received-file"@,
{
    crate::screen::an_offer_suggests_its_name(name, size);
}

/// What was asked of the engine either clears the error or is it, in its own
/// words; a note goes to the status line, and so does the code once it is on
/// the clipboard.
pub proof fn answers_have_their_places(
    a: &mut Screen,
    r: Result<(), Error>,
    b: &mut Screen,
    text: &str,
    c: &mut Screen,
    copied: Result<(), String>,
)
    requires
        call_ensures(Screen::asked, (a, r), ()),
        call_ensures(Screen::note, (b, text), ()),
        call_ensures(Screen::copied, (c, copied), ()),
    ensures
        final(a)@ == (ScreenView { error_line: final(a)@.error_line, ..old(a)@ }),
        r is Ok ==> final(a)@.error_line.len() == 0,
        r matches Err(e) ==> final(a)@.error_line == e@.message(),
        final(b)@ == (ScreenView { status_line: text@, ..old(b)@ }),
        final(c)@ == (ScreenView {
            status_line: final(c)@.status_line,
            error_line: final(c)@.error_line,
            ..old(c)@
        }),
        copied is Ok ==> final(c)@.error_line == old(c)@.error_line && final(c)@.status_line
            == "Room code copied to clipboard."@,
        copied matches Err(e) ==> final(c)@.status_line == old(c)@.status_line && occurs(
            e@,
            final(c)@.error_line,
        ),
{
    reveal_strlit("");
    if let Err(e) = copied {
        let lead = "Could not use the clipboard: "@;
        assert(lead + e@ =~= lead + e@ + Seq::<char>::empty());
        a_part_occurs(lead, e@, Seq::empty());
    }
}

/// A line that is pushed comes last, and so does a notice; a row that is put in
/// takes the place of the one of its name, and no other; a request that is
/// removed is that one.
pub proof fn rows_are_put_in_their_places(
    a: &mut Screen,
    id: &str,
    name: &str,
    status: &str,
    detail: &str,
    b: &mut Screen,
    time: &str,
    text: &str,
    i: int,
)
    requires
        call_ensures(Screen::upsert_peer, (a, id, name, status, detail), ()),
        call_ensures(Screen::push_system, (b, time, text), ()),
    ensures
        final(a)@ == (ScreenView { peers: final(a)@.peers, ..old(a)@ }),
        final(a)@.peers.contains(
            PeerRowView { id: id@, name: name@, status: status@, detail: detail@ },
        ),
        0 <= i < old(a)@.peers.len() && old(a)@.peers[i].id != id@ ==> final(a)@.peers[i] == old(
            a,
        )@.peers[i],
        final(b)@ == (ScreenView { messages: final(b)@.messages, ..old(b)@ }),
        final(b)@.messages.len() > 0 && final(b)@.messages.last().body == text@
            && final(b)@.messages.last().time == time@ && final(b)@.messages.last().system,
{
    let row = PeerRowView { id: id@, name: name@, status: status@, detail: detail@ };
    upserted_rows::<PeerRow>(old(a)@.peers, row);
    if 0 <= i < old(a)@.peers.len() {
        assert(PeerRow::name_of(old(a)@.peers[i]) == old(a)@.peers[i].id);
    }
    a_new_line_comes_last(
        old(b)@.messages,
        MessageRowView { who: ""@, time: time@, body: text@, mine: false, system: true },
    );
}

/// Every small change of the screen is that change alone.
pub proof fn small_changes_are_small(
    a: &mut Screen,
    b: &mut Screen,
    now: u64,
    c: &mut Screen,
    req: &str,
    d: &mut Screen,
    row: MessageRow,
    e: &mut Screen,
    id: &str,
    label: &str,
    done: u64,
    total: u64,
    state: &str,
)
    requires
        call_ensures(Screen::scroll, (a,), ()),
        call_ensures(Screen::update_expiry, (b, now), ()),
        call_ensures(Screen::remove_request, (c, req), ()),
        call_ensures(Screen::push_message, (d, row), ()),
        call_ensures(Screen::upsert_transfer, (e, id, label, done, total, state), ()),
    ensures
        final(a)@ == (ScreenView { scroll_tick: final(a)@.scroll_tick, ..old(a)@ }),
        final(a)@.scroll_tick != old(a)@.scroll_tick,
        final(b)@ == (ScreenView { expiry_note: expiry_text(old(b)@.expires_at, now), ..old(b)@ }),
        final(c)@ == (ScreenView { requests: final(c)@.requests, ..old(c)@ }),
        final(c)@.requests.len() == old(c)@.requests.len() - (if exists|i: int|
            0 <= i < old(c)@.requests.len() && (#[trigger] old(c)@.requests[i]).req == req@ {
            1int
        } else {
            0
        }),
        final(d)@ == (ScreenView { messages: final(d)@.messages, ..old(d)@ }),
        final(d)@.messages.len() > 0 && final(d)@.messages.last() == row@,
        final(e)@ == (ScreenView { transfers: final(e)@.transfers, ..old(e)@ }),
        final(e)@.transfers.contains(
            TransferRowView { id: id@, label: label@, done, total, state: state@ },
        ),
{
    let rows = old(c)@.requests;
    first_row_is_first::<RequestRow>(rows, req@);
    let at = first_row::<RequestRow>(rows, req@);
    if at >= 0 {
        assert(rows[at].req == req@);
    } else {
        assert forall|i: int| 0 <= i < rows.len() implies (#[trigger] rows[i]).req != req@ by {
            assert(RequestRow::name_of(rows[i]) != req@);
        }
    }
    a_new_line_comes_last(old(d)@.messages, row@);
    upserted_rows::<TransferRow>(
        old(e)@.transfers,
        TransferRowView { id: id@, label: label@, done, total, state: state@ },
    );
}

/// A chat line shows when it was written, by its own time stamp and not by when
/// it came.
pub proof fn a_chat_line_shows_when_it_was_written(
    screen: &mut Screen,
    ev: Event,
    ours: &str,
    now: u64,
    r: bool,
)
    requires
        call_ensures(Screen::handle_event, (screen, ev, ours, now), r),
        ev@ is Chat,
    ensures
        r,
        ev@ matches EventView::Chat { name, ts, body, mine, .. } && {
            let line = final(screen)@.messages.last();
            &&& final(screen)@.messages.len() > 0
            &&& line.who == name && line.body == body && line.mine == mine && !line.system
            &&& dated(ts) ==> clock_for(ts, line.time)
            &&& !dated(ts) ==> line.time == "??:??:??"@
        },
{
    if let EventView::Chat { from, name, ts, body, mine } = ev@ {
        let time = choose|time: Seq<char>| #[trigger]
            line_time(ev@, time) && (final(screen)@, r) == shown(
                old(screen)@,
                ev@,
                time,
                ours@,
                now,
            );
        a_chat_line_is_shown_as_it_came(old(screen)@, from, name, ts, body, mine, time, ours@, now);
        assert(clock_time(ts, time));
        let t = choose|t: String| #[trigger] call_ensures(fmt_clock, (ts,), t) && t@ == time;
        assert(call_ensures(fmt_clock, (ts,), t));
    }
}

/// What waits alone for a tick is shown by it, whole.
pub proof fn what_waits_is_shown(
    screen: &mut Screen,
    waiting: &mut Vec<Event>,
    ours: &str,
    now: u64,
)
    requires
        call_ensures(Screen::pump, (screen, waiting, ours, now), ()),
        old(waiting)@.len() == 1,
    ensures
        final(waiting)@.len() == 0,
        old(waiting)@[0]@ matches EventView::Chat { name, body, mine, .. } ==> {
            let line = final(screen)@.messages.last();
            &&& final(screen)@.messages.len() > 0
            &&& line.who == name && line.body == body && line.mine == mine
            &&& final(screen)@.scroll_tick == old(screen)@.scroll_tick.wrapping_add(1)
        },
        old(waiting)@[0]@ matches EventView::JoinRequest { req, name, addr, fingerprint } ==> {
            &&& final(screen)@.requests.len() == old(screen)@.requests.len() + 1
            &&& final(screen)@.requests.last() == (RequestRowView { req, name, addr, fingerprint })
            &&& final(screen)@.scroll_tick == old(screen)@.scroll_tick
        },
{
    let v = old(screen)@;
    let events = each(old(waiting)@).take(1);
    assert(events =~= seq![old(waiting)@[0]@]);
    let times = choose|times: Seq<Seq<char>>|
        times.len() == events.len() && (forall|i: int|
            0 <= i < events.len() ==> line_time(events[i], #[trigger] times[i])) && final(screen)@
            == #[trigger] ticked(v, events, times, ours@, now);
    a_tick_shows_its_events_in_order(
        v,
        events,
        Seq::empty(),
        times,
        Seq::empty(),
        ours@,
        now,
    );
    if let EventView::Chat { from, name, ts, body, mine } = events[0] {
        a_chat_line_is_shown_as_it_came(v, from, name, ts, body, mine, times[0], ours@, now);
    }
}

/// A text without brackets is a name as it is.
pub proof fn a_plain_text_is_a_name(text: Seq<char>)
    requires
        !text.contains('('),
    ensures
        offered_name(text) == text,
{
    no_bracket(text);
}

proof fn no_bracket(s: Seq<char>)
    requires
        !s.contains('('),
    ensures
        last_bracket(s) < 0,
    decreases s.len(),
{
    if s.len() >= 2 {
        let t = s.drop_last();
        assert(s[s.len() - 1] != '(');
        assert(!t.contains('(')) by {
            if t.contains('(') {
                let k = choose|k: int| 0 <= k < t.len() && t[k] == '(';
                assert(s[k] == '(');
            }
        }
        no_bracket(t);
    }
}

} // verus!
