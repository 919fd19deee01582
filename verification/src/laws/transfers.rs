//! What a file transfer promises: whom it is with, what ends it, what is
//! reported of it, and that it leaves every other transfer alone.

use vstd::prelude::*;

use crate::error::{Error, ErrorView};
use crate::events::{ActionView, DecisionView, EventView};
use crate::files::{
    advanced, cancelled, chunk_refused, chunk_stored, chunk_verdict, file_control, fresh_incoming,
    not_theirs, orderly, theirs, upload_over, upload_progress, with_peer, ActiveIn, ActiveView,
    OfferView, PendingOffer, TransfersView, UploadEndView, UploadView, VerdictView,
};
use crate::hashing::sha256;
use crate::history::{occurs, RecordKind};
use crate::mesh::{gone, heard, responded, Answer, NodeView};
use crate::names::size_text;
use crate::protocol::{hex_text, id_in, id_round_trip, ControlView, PeerInfoView};
use crate::table::{
    filter_contains, filter_lookup, has_key, lookup, lookup_is_row, put_is_found, row_of_is_row,
    without_is_gone,
};
use crate::text::dec;
use crate::views::each;

verus! {

// --- a peer that goes away -----------------------------------------------------------

/// Whether an action touches a transfer, and if so which one: the file of an
/// incoming one is closed, an outgoing one is answered, or an end is reported.
pub open spec fn concerns_only(t: TransfersView, who: Seq<char>, a: ActionView) -> bool {
    match a {
        ActionView::CloseFile { transfer } => lookup(t.active, transfer) matches Some(x)
            && x.peer_id == who,
        ActionView::Decide { transfer, decision } => lookup(t.outgoing, transfer) == Some(who)
            && decision is Decline,
        ActionView::Emit(
            EventView::FileFinished { transfer, name, incoming, ok, detail },
        ) => incoming && !ok && exists|id: Seq<u8>| #[trigger]
            lookup(t.active, id) matches Some(x) && x.peer_id == who && x.name == name && transfer
                == hex_text(id),
        _ => false,
    }
}

/// When a peer is gone, every transfer with someone else goes on as it was:
/// files we receive, offers we have not answered, and files we send.
pub proof fn other_transfers_go_on(t: TransfersView, who: Seq<char>, id: Seq<u8>)
    requires
        orderly(t),
    ensures
        ({
            let after = cancelled(t, who).transfers;
            &&& lookup(t.active, id) matches Some(a) ==> a.peer_id != who ==> lookup(
                after.active,
                id,
            ) == lookup(t.active, id)
            &&& lookup(t.offers, id) matches Some(o) ==> o.peer_id != who ==> lookup(
                after.offers,
                id,
            ) == lookup(t.offers, id)
            &&& lookup(t.outgoing, id) matches Some(p) ==> p != who ==> lookup(after.outgoing, id)
                == lookup(t.outgoing, id)
        }),
{
    filter_lookup(t.active, not_theirs::<ActiveIn>(who), id);
    filter_lookup(t.offers, not_theirs::<PendingOffer>(who), id);
    filter_lookup(t.outgoing, not_theirs::<String>(who), id);
}

/// When a peer is gone, nothing is left in flight with it, and nothing appears
/// that was not there.
pub proof fn nothing_is_left_in_flight(t: TransfersView, who: Seq<char>, id: Seq<u8>)
    requires
        orderly(t),
    ensures
        ({
            let after = cancelled(t, who).transfers;
            &&& lookup(after.active, id) matches Some(a) ==> a.peer_id != who && lookup(
                t.active,
                id,
            ) == Some(a)
            &&& lookup(after.offers, id) matches Some(o) ==> o.peer_id != who && lookup(
                t.offers,
                id,
            ) == Some(o)
            &&& lookup(after.outgoing, id) matches Some(p) ==> p != who && lookup(t.outgoing, id)
                == Some(p)
        }),
{
    filter_lookup(t.active, not_theirs::<ActiveIn>(who), id);
    filter_lookup(t.offers, not_theirs::<PendingOffer>(who), id);
    filter_lookup(t.outgoing, not_theirs::<String>(who), id);
}

/// When a peer is gone, what is done concerns transfers with that peer alone:
/// no other file is closed, no other upload is answered, and no other transfer
/// is reported. The transcript gains nothing.
pub proof fn only_their_transfers_end(t: TransfersView, who: Seq<char>, i: int)
    requires
        orderly(t),
        0 <= i < cancelled(t, who).actions.len(),
    ensures
        concerns_only(t, who, cancelled(t, who).actions[i]),
        cancelled(t, who).records.len() == 0,
{
    let dead = with_peer::<ActiveIn>(t.active, who);
    let unsent = with_peer::<String>(t.outgoing, who);
    if i < dead.len() {
        let row = dead[i];
        filter_contains(t.active, theirs::<ActiveIn>(who), row);
        lookup_is_row(t.active, row.0, row.1);
    } else if i < dead.len() + unsent.len() {
        let row = unsent[i - dead.len()];
        filter_contains(t.outgoing, theirs::<String>(who), row);
        lookup_is_row(t.outgoing, row.0, row.1);
    } else {
        let row = dead[i - dead.len() - unsent.len()];
        filter_contains(t.active, theirs::<ActiveIn>(who), row);
        lookup_is_row(t.active, row.0, row.1);
        assert(lookup(t.active, row.0) == Some(row.1));
    }
}

/// When a peer is gone, every file that came from it is closed and reported as
/// failed, and every upload to it is told that it was declined.
pub proof fn their_transfers_are_wound_up(t: TransfersView, who: Seq<char>, id: Seq<u8>)
    requires
        orderly(t),
    ensures
        ({
            let actions = cancelled(t, who).actions;
            &&& lookup(t.active, id) matches Some(a) ==> a.peer_id == who ==> {
                &&& actions.contains(ActionView::CloseFile { transfer: id })
                &&& actions.contains(
                    ActionView::Emit(
                        EventView::FileFinished {
                            transfer: hex_text(id),
                            name: a.name,
                            incoming: true,
                            ok: false,
                            detail: "the sender disconnected"@,
                        },
                    ),
                )
            }
            &&& lookup(t.outgoing, id) == Some(who) ==> actions.contains(
                ActionView::Decide {
                    transfer: id,
                    decision: DecisionView::Decline("the peer disconnected"@),
                },
            )
        }),
{
    let dead = with_peer::<ActiveIn>(t.active, who);
    let unsent = with_peer::<String>(t.outgoing, who);
    let actions = cancelled(t, who).actions;
    if let Some(a) = lookup(t.active, id) {
        if a.peer_id == who {
            lookup_is_row(t.active, id, a);
            filter_contains(t.active, theirs::<ActiveIn>(who), (id, a));
            let i = choose|i: int| 0 <= i < dead.len() && dead[i] == (id, a);
            assert(actions[i] == ActionView::CloseFile { transfer: id });
            assert(actions[dead.len() + unsent.len() + i] == ActionView::Emit(
                EventView::FileFinished {
                    transfer: hex_text(id),
                    name: a.name,
                    incoming: true,
                    ok: false,
                    detail: "the sender disconnected"@,
                },
            ));
        }
    }
    if lookup(t.outgoing, id) == Some(who) {
        lookup_is_row(t.outgoing, id, who);
        filter_contains(t.outgoing, theirs::<String>(who), (id, who));
        let i = choose|i: int| 0 <= i < unsent.len() && unsent[i] == (id, who);
        assert(actions[dead.len() + i] == ActionView::Decide {
            transfer: id,
            decision: DecisionView::Decline("the peer disconnected"@),
        });
    }
}

/// Somebody leaving the room, with or without a goodbye, does not touch what
/// is in flight with anyone else.
pub proof fn a_leaver_takes_only_their_own_files(
    n: NodeView,
    info: PeerInfoView,
    link: u64,
    reason: Seq<char>,
    ts: i64,
    id: Seq<u8>,
    i: int,
)
    requires
        orderly(n.transfers),
    ensures
        ({
            let step = gone(n, info, link, reason, ts);
            let bye = heard(n, info, link, ControlView::Bye, ts);
            &&& lookup(n.transfers.active, id) matches Some(a) ==> a.peer_id != info.id ==> lookup(
                step.node.transfers.active,
                id,
            ) == lookup(n.transfers.active, id) && lookup(bye.node.transfers.active, id) == lookup(
                n.transfers.active,
                id,
            )
            &&& lookup(n.transfers.offers, id) matches Some(o) ==> o.peer_id != info.id ==> lookup(
                step.node.transfers.offers,
                id,
            ) == lookup(n.transfers.offers, id)
            &&& lookup(n.transfers.outgoing, id) matches Some(p) ==> p != info.id ==> lookup(
                step.node.transfers.outgoing,
                id,
            ) == lookup(n.transfers.outgoing, id)
            &&& 0 <= i < step.actions.len() ==> match step.actions[i] {
                ActionView::CloseFile { .. } => concerns_only(
                    n.transfers,
                    info.id,
                    step.actions[i],
                ),
                ActionView::Decide { .. } => concerns_only(n.transfers, info.id, step.actions[i]),
                ActionView::Emit(EventView::FileFinished { .. }) => concerns_only(
                    n.transfers,
                    info.id,
                    step.actions[i],
                ),
                _ => true,
            }
        }),
{
    let step = gone(n, info, link, reason, ts);
    other_transfers_go_on(n.transfers, info.id, id);
    if has_key(n.peers, info.id) {
        let files = cancelled(n.transfers, info.id);
        if 1 <= i < 1 + files.actions.len() {
            assert(step.actions[i] == files.actions[i - 1]);
            only_their_transfers_end(n.transfers, info.id, i - 1);
        }
    }
}

/// When a linked peer is gone, what was in flight with them is wound up: the
/// file that was received from them is closed and reported as failed, the one
/// that was sent to them is answered, and none is kept.
pub proof fn a_leavers_files_are_wound_up(
    n: NodeView,
    info: PeerInfoView,
    link: u64,
    reason: Seq<char>,
    ts: i64,
    id: Seq<u8>,
)
    requires
        orderly(n.transfers),
        lookup(n.peers, info.id) is Some,
    ensures
        ({
            let step = gone(n, info, link, reason, ts);
            &&& lookup(n.transfers.active, id) matches Some(a) ==> a.peer_id == info.id ==> {
                &&& lookup(step.node.transfers.active, id) is None
                &&& step.actions.contains(ActionView::CloseFile { transfer: id })
                &&& step.actions.contains(
                    ActionView::Emit(
                        EventView::FileFinished {
                            transfer: hex_text(id),
                            name: a.name,
                            incoming: true,
                            ok: false,
                            detail: "the sender disconnected"@,
                        },
                    ),
                )
            }
            &&& lookup(n.transfers.offers, id) matches Some(o) ==> o.peer_id == info.id ==> lookup(
                step.node.transfers.offers,
                id,
            ) is None
            &&& lookup(n.transfers.outgoing, id) == Some(info.id) ==> {
                &&& lookup(step.node.transfers.outgoing, id) is None
                &&& step.actions.contains(
                    ActionView::Decide {
                        transfer: id,
                        decision: DecisionView::Decline("the peer disconnected"@),
                    },
                )
            }
        }),
{
    let step = gone(n, info, link, reason, ts);
    let files = cancelled(n.transfers, info.id).actions;
    row_of_is_row(n.peers, info.id);
    nothing_is_left_in_flight(n.transfers, info.id, id);
    their_transfers_are_wound_up(n.transfers, info.id, id);
    assert forall|a: ActionView| #[trigger] files.contains(a) implies step.actions.contains(a) by {
        let i = choose|i: int| 0 <= i < files.len() && files[i] == a;
        assert(step.actions[i + 1] == a);
    }
}

// --- texts -----------------------------------------------------------------------------

/// A part of a text stands in it.
pub proof fn a_part_occurs(before: Seq<char>, part: Seq<char>, after: Seq<char>)
    ensures
        occurs(part, before + part + after),
{
}

// --- offers ------------------------------------------------------------------------------

/// Every transfer but the one named `id` is as it was.
pub open spec fn untouched_but(t: TransfersView, after: TransfersView, id: Seq<u8>) -> bool {
    forall|other: Seq<u8>|
        #![trigger lookup(after.active, other)]
        #![trigger lookup(after.offers, other)]
        #![trigger lookup(after.outgoing, other)]
        other != id ==> lookup(after.active, other) == lookup(t.active, other) && lookup(
            after.offers,
            other,
        ) == lookup(t.offers, other) && lookup(after.outgoing, other) == lookup(t.outgoing, other)
}

/// An offer is put before the user as it came, with a name that is safe to
/// save under, and is kept under its own id with whom it is from and what it
/// promises. It starts no transfer.
pub proof fn an_offer_is_kept_as_it_came(
    t: TransfersView,
    from: PeerInfoView,
    transfer: Seq<char>,
    name: Seq<char>,
    size: u64,
    sum: Seq<char>,
    ts: i64,
    id: Seq<u8>,
)
    requires
        orderly(t),
        id_in(transfer) == Ok::<Seq<u8>, ErrorView>(id),
    ensures
        ({
            let c = ControlView::FileOffer { transfer, name, size, sha256: sum };
            let step = file_control(t, from, c, ts);
            &&& untouched_but(t, step.transfers, id)
            &&& step.transfers.active == t.active
            &&& step.transfers.outgoing == t.outgoing
            &&& step.records.len() == 0
            &&& step.actions.len() == 1
            &&& lookup(step.transfers.offers, id) matches Some(o)
            &&& o.peer_id == from.id
            &&& o.peer_name == from.name
            &&& o.size == size
            &&& o.sha256 == sum
            &&& step.actions[0] matches ActionView::Emit(event)
            &&& event matches EventView::FileOffer { transfer: shown, from: who, name: n, size: s }
            &&& shown == transfer && who == from.name && s == size && n == o.name
            &&& n == crate::names::safe_name(name)
        }),
{
    let c = ControlView::FileOffer { transfer, name, size, sha256: sum };
    let o = lookup(file_control(t, from, c, ts).transfers.offers, id);
    row_of_is_row(t.offers, id);
    put_is_found(
        t.offers,
        id,
        OfferView {
            peer_id: from.id,
            peer_name: from.name,
            name: crate::names::safe_name(name),
            size,
            sha256: sum,
        },
    );
}

/// The answer to an offer of ours goes to the upload of that id, with the
/// recipient's own reason where it is a no; an answer to anything else does
/// nothing. No answer changes what is in flight.
pub proof fn an_answer_goes_to_its_upload(
    t: TransfersView,
    from: PeerInfoView,
    transfer: Seq<char>,
    reason: Seq<char>,
    ts: i64,
)
    ensures
        ({
            let yes = file_control(t, from, ControlView::FileAccept { transfer }, ts);
            let no = file_control(t, from, ControlView::FileDecline { transfer, reason }, ts);
            &&& yes.transfers == t && no.transfers == t
            &&& yes.records.len() == 0 && no.records.len() == 0
            &&& match id_in(transfer) {
                Ok(id) => if has_key(t.outgoing, id) {
                    &&& yes.actions.len() == 1 && no.actions.len() == 1
                    &&& yes.actions[0] matches ActionView::Decide { transfer: a, decision: d }
                    &&& a == id && d == DecisionView::Accept
                    &&& no.actions[0] matches ActionView::Decide { transfer: b, decision: e }
                    &&& b == id && e == DecisionView::Decline(reason)
                } else {
                    yes.actions.len() == 0 && no.actions.len() == 0
                },
                Err(_) => yes.actions.len() == 0 && no.actions.len() == 0,
            }
        }),
{
}

// --- incoming files ------------------------------------------------------------------------

/// A file that is accepted starts from nothing, and is held to what was
/// offered: its size, its checksum and its sender; it is saved where the
/// recipient chose.
pub proof fn a_download_starts_from_nothing(offer: OfferView, path: Seq<char>)
    ensures
        ({
            let a = fresh_incoming(offer, path);
            &&& a.data.len() == 0 && a.got == 0 && a.next_seq == 0
            &&& a.size == offer.size && a.expect_sha == offer.sha256 && a.name == offer.name
            &&& a.peer_id == offer.peer_id && a.peer_name == offer.peer_name
            &&& a.path == path
            &&& a.last_emit is None
        }),
{
}

/// A chunk is written exactly if it is the next one of a transfer that was
/// accepted from that very peer and stays within the size that was offered; a
/// wrong chunk of such a transfer is refused, and any other is ignored.
pub proof fn only_the_next_chunk_is_written(
    t: TransfersView,
    who: Seq<char>,
    id: Seq<u8>,
    seq: u32,
    len: nat,
)
    ensures
        match lookup(t.active, id) {
            Some(a) => {
                let verdict = chunk_verdict(t, who, id, seq, len);
                &&& verdict is Write <==> who == a.peer_id && seq == a.next_seq && a.got + len
                    <= a.size
                &&& verdict is Ignore <==> who != a.peer_id
                &&& verdict matches VerdictView::Refuse(why) ==> if seq != a.next_seq {
                    occurs(dec(a.next_seq as nat), why) && occurs(dec(seq as nat), why)
                } else {
                    why == "the sender sent more data than it offered"@
                }
            },
            None => chunk_verdict(t, who, id, seq, len) is Ignore,
        },
{
    if let Some(a) = lookup(t.active, id) {
        if who == a.peer_id && seq != a.next_seq {
            let (x, y) = (dec(a.next_seq as nat), dec(seq as nat));
            let lead = "chunks arrived out of order (expected "@;
            let why = lead + x + ", got "@ + y + ")"@;
            a_part_occurs(lead, x, ", got "@ + y + ")"@);
            assert(why =~= lead + x + (", got "@ + y + ")"@));
            a_part_occurs(lead + x + ", got "@, y, ")"@);
        }
    }
}

/// A chunk that is on disk is added to its file and to no other, and the next
/// one is awaited. Progress tells how much there is of how much; it is told
/// when the file is complete, and otherwise at most once in 150 milliseconds.
pub proof fn a_stored_chunk_counts_once(
    t: TransfersView,
    id: Seq<u8>,
    data: Seq<u8>,
    now: u64,
    a: ActiveView,
)
    requires
        orderly(t),
        lookup(t.active, id) == Some(a),
        a.got + data.len() <= a.size,
    ensures
        ({
            let step = chunk_stored(t, id, data, now);
            &&& untouched_but(t, step.transfers, id)
            &&& step.transfers.offers == t.offers
            &&& step.transfers.outgoing == t.outgoing
            &&& step.records.len() == 0
            &&& lookup(step.transfers.active, id) matches Some(b)
            &&& b.data == a.data + data
            &&& b.got == a.got + data.len()
            &&& a.next_seq < u32::MAX ==> b.next_seq == a.next_seq + 1
            &&& a.next_seq == u32::MAX ==> b.next_seq == 0
            &&& b.size == a.size && b.expect_sha == a.expect_sha && b.path == a.path
            &&& b.name == a.name && b.peer_id == a.peer_id && b.peer_name == a.peer_name
            &&& step.actions.len() <= 1
            &&& step.actions.len() == 1 <==> b.got == a.size || match a.last_emit {
                None => true,
                Some(then) => now >= then && now - then >= 150_000_000,
            }
            &&& step.actions.len() == 1 ==> b.last_emit == Some(now) && step.actions[0]
                == ActionView::Emit(
                EventView::FileProgress {
                    transfer: hex_text(id),
                    name: a.name,
                    peer: a.peer_name,
                    done: b.got,
                    total: a.size,
                    incoming: true,
                },
            )
            &&& step.actions.len() == 0 ==> b.last_emit == a.last_emit
        }),
{
    let b = crate::files::grown(a, data, now);
    put_is_found(t.active, id, b);
}

/// A transfer that goes wrong on our side ends, and no other: its file is
/// closed, its sender is told which transfer and why on their link, and so is
/// the user.
pub proof fn a_refused_transfer_ends(
    t: TransfersView,
    link: u64,
    id: Seq<u8>,
    reason: Seq<char>,
    a: ActiveView,
)
    requires
        orderly(t),
        lookup(t.active, id) == Some(a),
        id.len() == 16,
    ensures
        ({
            let step = chunk_refused(t, link, id, reason);
            &&& untouched_but(t, step.transfers, id)
            &&& !has_key(step.transfers.active, id)
            &&& step.transfers.offers == t.offers
            &&& step.transfers.outgoing == t.outgoing
            &&& step.records.len() == 0
            &&& step.actions.len() == 3
            &&& step.actions[0] == ActionView::CloseFile { transfer: id }
            &&& step.actions[1] matches ActionView::Send { link: to, message }
            &&& to == link
            &&& message matches ControlView::FileAbort { transfer: told, reason: why }
            &&& id_in(told) == Ok::<Seq<u8>, ErrorView>(id) && why == reason
            &&& step.actions[2] matches ActionView::Emit(event)
            &&& event matches EventView::FileFinished { transfer, name, incoming, ok, detail }
            &&& id_in(transfer) == Ok::<Seq<u8>, ErrorView>(id)
            &&& name == a.name && incoming && !ok && detail == reason
        }),
{
    without_is_gone(t.active, id);
    id_round_trip(id);
}

/// A sender who gives up ends that transfer, answered or not, and no other;
/// where it was under way its file is closed and the sender's reason is shown.
pub proof fn an_aborted_transfer_ends(
    t: TransfersView,
    from: PeerInfoView,
    transfer: Seq<char>,
    reason: Seq<char>,
    ts: i64,
    id: Seq<u8>,
)
    requires
        orderly(t),
        id_in(transfer) == Ok::<Seq<u8>, ErrorView>(id),
    ensures
        ({
            let step = file_control(t, from, ControlView::FileAbort { transfer, reason }, ts);
            &&& untouched_but(t, step.transfers, id)
            &&& !has_key(step.transfers.active, id)
            &&& !has_key(step.transfers.offers, id)
            &&& step.transfers.outgoing == t.outgoing
            &&& step.records.len() == 0
            &&& match lookup(t.active, id) {
                Some(a) => {
                    &&& step.actions.len() == 2
                    &&& step.actions[0] == ActionView::CloseFile { transfer: id }
                    &&& step.actions[1] matches ActionView::Emit(event)
                    &&& event matches EventView::FileFinished {
                        transfer: shown,
                        name,
                        incoming,
                        ok,
                        detail,
                    }
                    &&& shown == transfer && name == a.name && incoming && !ok
                    &&& occurs(reason, detail)
                },
                None => step.actions.len() == 0,
            }
        }),
{
    without_is_gone(t.active, id);
    without_is_gone(t.offers, id);
    let lead = "the sender aborted: "@;
    a_part_occurs(lead, reason, Seq::empty());
    assert(lead + reason =~= lead + reason + Seq::<char>::empty());
}

/// The end of a file that came in: it is closed, it is over, every other
/// transfer goes on, and the user is told whether it is whole. The transcript
/// gets one line, with who sent it, its name and where it is, exactly if it is:
/// as many bytes as were offered, with the checksum that was offered.
pub proof fn a_finished_file_is_told_once(
    t: TransfersView,
    from: PeerInfoView,
    transfer: Seq<char>,
    ts: i64,
    id: Seq<u8>,
    a: ActiveView,
)
    requires
        orderly(t),
        id_in(transfer) == Ok::<Seq<u8>, ErrorView>(id),
        lookup(t.active, id) == Some(a),
    ensures
        ({
            let step = file_control(t, from, ControlView::FileDone { transfer }, ts);
            let again = file_control(
                step.transfers,
                from,
                ControlView::FileDone { transfer },
                ts,
            );
            let whole = a.data.len() == a.size && hex_text(sha256(a.data)) == a.expect_sha;
            &&& untouched_but(t, step.transfers, id)
            &&& !has_key(step.transfers.active, id)
            &&& step.transfers.offers == t.offers
            &&& step.transfers.outgoing == t.outgoing
            &&& step.actions.len() == 2
            &&& step.actions[0] == ActionView::CloseFile { transfer: id }
            &&& step.actions[1] matches ActionView::Emit(event)
            &&& event matches EventView::FileFinished {
                transfer: shown,
                name,
                incoming,
                ok,
                detail,
            }
            &&& shown == transfer && name == a.name && incoming
            &&& ok <==> whole
            &&& whole ==> occurs(a.path, detail)
            &&& a.data.len() != a.size ==> occurs(size_text(a.got), detail) && occurs(
                size_text(a.size),
                detail,
            )
            &&& step.records.len() == if whole {
                1int
            } else {
                0
            }
            &&& whole ==> {
                let r = step.records[0];
                &&& r.ts == ts && r.sender == a.peer_name && r.sender_id == a.peer_id
                &&& r.kind == RecordKind::File
                &&& occurs(a.name, r.body) && occurs(a.path, r.body) && occurs(
                    size_text(a.size),
                    r.body,
                )
            }
            &&& again.actions.len() == 0 && again.records.len() == 0 && again.transfers
                == step.transfers
        }),
{
    row_of_is_row(t.active, id);
    assert(crate::files::in_step(
        t.active[crate::table::row_of(t.active, id)].1,
    ));
    without_is_gone(t.active, id);
    let none = Seq::<char>::empty();
    let saved = "saved to "@;
    assert(saved + a.path =~= saved + a.path + none);
    a_part_occurs(saved, a.path, none);
    let (got, size) = (size_text(a.got), size_text(a.size));
    let cut = "incomplete: got "@ + got + " of "@ + size;
    assert(cut =~= "incomplete: got "@ + got + (" of "@ + size));
    assert(cut =~= "incomplete: got "@ + got + " of "@ + size + none);
    a_part_occurs("incomplete: got "@, got, " of "@ + size);
    a_part_occurs("incomplete: got "@ + got + " of "@, size, none);
    let body = "received "@ + a.name + " ("@ + size + ") -> "@ + a.path;
    assert(body =~= "received "@ + a.name + (" ("@ + size + ") -> "@ + a.path));
    assert(body =~= "received "@ + a.name + " ("@ + size + (") -> "@ + a.path));
    assert(body =~= "received "@ + a.name + " ("@ + size + ") -> "@ + a.path + none);
    a_part_occurs("received "@, a.name, " ("@ + size + ") -> "@ + a.path);
    a_part_occurs("received "@ + a.name + " ("@, size, ") -> "@ + a.path);
    a_part_occurs("received "@ + a.name + " ("@ + size + ") -> "@, a.path, none);
}

// --- outgoing files --------------------------------------------------------------------------

/// A chunk that is on its way is counted once, under the number of its
/// successor. Progress tells how much is sent of how much; it is told when all
/// is, and otherwise at most once in 150 milliseconds.
pub proof fn a_sent_chunk_counts_once(up: UploadView, len: nat, now: u64)
    requires
        up.sent + len <= u64::MAX,
    ensures
        ({
            let after = advanced(up, len, now);
            let said = upload_progress(up, len, now);
            &&& after.sent == up.sent + len
            &&& up.seq < u32::MAX ==> after.seq == up.seq + 1
            &&& up.seq == u32::MAX ==> after.seq == 0
            &&& after.id == up.id && after.peer == up.peer && after.link == up.link
            &&& after.name == up.name && after.size == up.size && after.sha == up.sha
            &&& said.len() <= 1
            &&& said.len() == 1 <==> after.sent == up.size || match up.last {
                None => true,
                Some(then) => now >= then && now - then >= 150_000_000,
            }
            &&& said.len() == 1 ==> after.last == Some(now) && said[0] == ActionView::Emit(
                EventView::FileProgress {
                    transfer: hex_text(up.id),
                    name: up.name,
                    peer: up.peer.name,
                    done: after.sent,
                    total: up.size,
                    incoming: false,
                },
            )
            &&& said.len() == 0 ==> after.last == up.last
        }),
{
}

/// What an upload's end is described by: the recipient's name or what failed.
pub open spec fn named_in(up: UploadView, how: UploadEndView, detail: Seq<char>) -> bool {
    match how {
        UploadEndView::OfferFailed(e) => occurs(e.message(), detail),
        UploadEndView::Declined(reason) => occurs(reason, detail) && occurs(up.peer.name, detail),
        UploadEndView::TimedOut => occurs(up.peer.name, detail),
        UploadEndView::Unreadable(e) => occurs(e, detail),
        UploadEndView::ReadFailed(e) => occurs(e, detail),
        UploadEndView::LinkFailed(e) => occurs(e.message(), detail) && occurs(up.peer.name, detail),
        UploadEndView::Sent => occurs(up.peer.name, detail),
    }
}

/// The end of an upload: it is over, every other transfer goes on, and the
/// user is told that it ended, to whom and why; it went well exactly if all of
/// it was sent, and then, and only then, the transcript says so.
pub proof fn an_upload_ends_by_itself(
    t: TransfersView,
    up: UploadView,
    how: UploadEndView,
    me: PeerInfoView,
    ts: i64,
)
    requires
        orderly(t),
    ensures
        ({
            let step = upload_over(t, up, how, me, ts);
            &&& untouched_but(t, step.transfers, up.id)
            &&& !has_key(step.transfers.outgoing, up.id)
            &&& step.transfers.offers == t.offers
            &&& step.transfers.active == t.active
            &&& step.actions.len() >= 1
            &&& step.actions.last() matches ActionView::Emit(event)
            &&& event matches EventView::FileFinished { transfer, name, incoming, ok, detail }
            &&& transfer == hex_text(up.id) && name == up.name && !incoming
            &&& ok <==> how is Sent
            &&& named_in(up, how, detail)
            &&& step.records.len() == if how is Sent {
                1int
            } else {
                0
            }
            &&& how is Sent ==> {
                let r = step.records[0];
                &&& r.ts == ts && r.sender == me.name && r.sender_id == me.id
                &&& r.kind == RecordKind::File
                &&& occurs(up.name, r.body) && occurs(up.peer.name, r.body) && occurs(
                    size_text(up.size),
                    r.body,
                )
            }
        }),
{
    without_is_gone(t.outgoing, up.id);
    let none = Seq::<char>::empty();
    let p = up.peer.name;
    match how {
        UploadEndView::OfferFailed(e) => {
            let lead = "could not send the offer: "@;
            assert(lead + e.message() =~= lead + e.message() + none);
            a_part_occurs(lead, e.message(), none);
        },
        UploadEndView::Declined(reason) => {
            let d = p + " declined ("@ + reason + ")"@;
            assert(d =~= none + p + (" declined ("@ + reason + ")"@));
            a_part_occurs(none, p, " declined ("@ + reason + ")"@);
            a_part_occurs(p + " declined ("@, reason, ")"@);
        },
        UploadEndView::TimedOut => {
            let d = p + " did not answer in time"@;
            assert(d =~= none + p + " did not answer in time"@);
            a_part_occurs(none, p, " did not answer in time"@);
        },
        UploadEndView::Unreadable(e) => {
            let lead = "could not read the file: "@;
            assert(lead + e =~= lead + e + none);
            a_part_occurs(lead, e, none);
        },
        UploadEndView::ReadFailed(e) => {
            let lead = "read error: "@;
            assert(lead + e =~= lead + e + none);
            a_part_occurs(lead, e, none);
        },
        UploadEndView::LinkFailed(e) => {
            let d = "link to "@ + p + " failed: "@ + e.message();
            assert(d =~= "link to "@ + p + (" failed: "@ + e.message()));
            assert(d =~= "link to "@ + p + " failed: "@ + e.message() + none);
            a_part_occurs("link to "@, p, " failed: "@ + e.message());
            a_part_occurs("link to "@ + p + " failed: "@, e.message(), none);
        },
        UploadEndView::Sent => {
            assert("sent to "@ + p =~= "sent to "@ + p + none);
            a_part_occurs("sent to "@, p, none);
            let size = size_text(up.size);
            let body = "sent "@ + up.name + " ("@ + size + ") to "@ + p;
            assert(body =~= "sent "@ + up.name + (" ("@ + size + ") to "@ + p));
            assert(body =~= "sent "@ + up.name + " ("@ + size + (") to "@ + p));
            assert(body =~= "sent "@ + up.name + " ("@ + size + ") to "@ + p + none);
            a_part_occurs("sent "@, up.name, " ("@ + size + ") to "@ + p);
            a_part_occurs("sent "@ + up.name + " ("@, size, ") to "@ + p);
            a_part_occurs("sent "@ + up.name + " ("@ + size + ") to "@, p, none);
        },
    }
}

/// The recipient hears of the end of an upload on its own link where there is
/// something to hear: that all of it is there, or that it is given up and why.
/// One that said no, or that cannot be reached, is told nothing.
pub proof fn the_recipient_hears_of_the_end(
    t: TransfersView,
    up: UploadView,
    how: UploadEndView,
    me: PeerInfoView,
    ts: i64,
)
    requires
        up.id.len() == 16,
    ensures
        ({
            let actions = upload_over(t, up, how, me, ts).actions;
            match how {
                UploadEndView::Sent => {
                    &&& actions.len() == 2
                    &&& actions[0] matches ActionView::Send { link, message }
                    &&& link == up.link
                    &&& message matches ControlView::FileDone { transfer }
                    &&& id_in(transfer) == Ok::<Seq<u8>, ErrorView>(up.id)
                },
                UploadEndView::TimedOut | UploadEndView::Unreadable(_)
                | UploadEndView::ReadFailed(_) => {
                    &&& actions.len() == 2
                    &&& actions[0] matches ActionView::Send { link, message }
                    &&& link == up.link
                    &&& message matches ControlView::FileAbort { transfer, reason }
                    &&& id_in(transfer) == Ok::<Seq<u8>, ErrorView>(up.id)
                    &&& how matches UploadEndView::Unreadable(e) ==> reason == e
                    &&& how matches UploadEndView::ReadFailed(e) ==> reason == e
                    &&& how is TimedOut ==> reason == "no answer in time"@
                },
                _ => actions.len() == 1,
            }
        }),
{
    id_round_trip(up.id);
}

// --- our answer ---------------------------------------------------------------------------------

/// Answering an offer takes it off the table, so that it cannot be answered
/// again; every other offer and transfer stays as it is, and nothing else of
/// the node changes. Saying no tells the sender, on their link, which file is
/// declined, and starts nothing.
pub proof fn declining_an_offer_tells_its_sender(
    n: NodeView,
    transfer: Seq<char>,
    id: Seq<u8>,
    o: OfferView,
    r: Result<Answer, Error>,
    after: NodeView,
)
    requires
        orderly(n.transfers),
        id_in(transfer) == Ok::<Seq<u8>, ErrorView>(id),
        lookup(n.transfers.offers, id) == Some(o),
        responded(n, transfer, None, r, after),
    ensures
        untouched_but(n.transfers, after.transfers, id),
        !has_key(after.transfers.offers, id),
        after.transfers.active == n.transfers.active,
        after.transfers.outgoing == n.transfers.outgoing,
        after.peers == n.peers && after.roster == n.roster && after.history == n.history,
        r matches Ok(Answer::Declined(actions)) && {
            let all = each(actions@);
            &&& all.last() matches ActionView::Emit(event)
            &&& event matches EventView::FileFinished {
                transfer: shown,
                name,
                incoming,
                ok,
                detail,
            }
            &&& shown == transfer && name == o.name && incoming && !ok
            &&& match lookup(n.peers, o.peer_id) {
                Some(p) => {
                    &&& all.len() == 2
                    &&& all[0] matches ActionView::Send { link, message }
                    &&& link == p.link
                    &&& message matches ControlView::FileDecline { transfer: told, reason }
                    &&& told == transfer && reason == "declined by the recipient"@
                },
                None => all.len() == 1,
            }
        },
{
    without_is_gone(n.transfers.offers, id);
}

/// Saying yes creates the file where the user chose, as the sender offered it,
/// and goes back to the one who offered it; where they are gone it fails. An
/// offer that is not there cannot be answered, and nothing changes.
pub proof fn accepting_an_offer_goes_to_its_sender(
    n: NodeView,
    transfer: Seq<char>,
    path: Seq<char>,
    id: Seq<u8>,
    r: Result<Answer, Error>,
    after: NodeView,
)
    requires
        orderly(n.transfers),
        id_in(transfer) == Ok::<Seq<u8>, ErrorView>(id),
        responded(n, transfer, Some(path), r, after),
    ensures
        match lookup(n.transfers.offers, id) {
            Some(o) => {
                &&& untouched_but(n.transfers, after.transfers, id)
                &&& !has_key(after.transfers.offers, id)
                &&& match lookup(n.peers, o.peer_id) {
                    Some(p) => {
                        &&& r matches Ok(Answer::Create(a))
                        &&& a.id@ == id && a.transfer@ == transfer && a.path@ == path
                        &&& a.offer@ == o && a.link == p.link
                    },
                    None => r matches Err(Error::Closed(_)),
                }
            },
            None => (r matches Err(Error::Protocol(_))) && after == n,
        },
{
    without_is_gone(n.transfers.offers, id);
    row_of_is_row(n.transfers.offers, id);
    match r {
        Err(e) => {
            assert(e@ is Closed ==> e is Closed);
            assert(e@ is Protocol ==> e is Protocol);
        },
        _ => {},
    }
}

} // verus!
