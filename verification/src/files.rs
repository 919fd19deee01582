//! File transfer.
//!
//! Files ride the *same* encrypted link as chat, on every transport: an offer
//! goes out as a control message, the recipient answers accept or decline, and
//! on acceptance the bytes stream as binary chunk frames interleaved with
//! normal chat traffic. Sending to "everyone" opens one independent transfer
//! per connected peer - nothing is relayed through the host.
//!
//! Received data is written only to the path the recipient chose, and is never
//! executed or opened automatically.

use vstd::prelude::*;

use crate::clock::{elapsed, since};
use crate::error::{Error, ErrorView};
use crate::events::{Action, ActionView, Decision, DecisionView, Event, EventView};
use crate::hashing::{sha256, FileHasher};
use crate::history::{ChatRecord, RecordKind, RecordView};
use crate::names::{safe_name, size_text};
use crate::protocol::{
    chunk_bytes, encode_chunk, hex, hex_text, id_in, unhex16, Control, ControlView, PeerInfo,
    PeerInfoView,
};
use crate::table::{
    distinct, filter_distinct, has_key, lookup, put, put_is_found, row_of, row_of_is_row, without, without_is_gone,
    Table,
};
use crate::text::{cat, cat4, cat5, cat6, dec, dec_text, same_text};
use crate::views::{each, each_push};

pub use crate::names::{human_size, safe_file_name};

verus! {

/// How long a sender waits for the recipient to answer an offer.
pub const OFFER_TIMEOUT: u64 = 300_000_000_000;

/// Minimum gap between progress events, so the UI is not flooded.
pub const PROGRESS_INTERVAL: u64 = 150_000_000;

// --- what is in flight -----------------------------------------------------------

/// An offer we received and have not answered yet.
pub struct PendingOffer {
    pub peer_id: String,
    pub peer_name: String,
    pub name: String,
    pub size: u64,
    pub sha256: String,
}

#[verifier::ext_equal]
pub struct OfferView {
    pub peer_id: Seq<char>,
    pub peer_name: Seq<char>,
    pub name: Seq<char>,
    pub size: u64,
    pub sha256: Seq<char>,
}

impl View for PendingOffer {
    type V = OfferView;

    open spec fn view(&self) -> OfferView {
        OfferView {
            peer_id: self.peer_id@,
            peer_name: self.peer_name@,
            name: self.name@,
            size: self.size,
            sha256: self.sha256@,
        }
    }
}

/// An accepted incoming transfer that is being written.
pub struct ActiveIn {
    pub path: String,
    pub name: String,
    pub size: u64,
    pub got: u64,
    pub next_seq: u32,
    pub hasher: FileHasher,
    pub expect_sha: String,
    pub peer_id: String,
    pub peer_name: String,
    /// When progress was last reported.
    pub last_emit: Option<u64>,
}

#[verifier::ext_equal]
pub struct ActiveView {
    pub path: Seq<char>,
    pub name: Seq<char>,
    pub size: u64,
    pub got: u64,
    pub next_seq: u32,
    /// Everything that was written so far.
    pub data: Seq<u8>,
    pub expect_sha: Seq<char>,
    pub peer_id: Seq<char>,
    pub peer_name: Seq<char>,
    pub last_emit: Option<u64>,
}

impl View for ActiveIn {
    type V = ActiveView;

    open spec fn view(&self) -> ActiveView {
        ActiveView {
            path: self.path@,
            name: self.name@,
            size: self.size,
            got: self.got,
            next_seq: self.next_seq,
            data: self.hasher@,
            expect_sha: self.expect_sha@,
            peer_id: self.peer_id@,
            peer_name: self.peer_name@,
            last_emit: self.last_emit,
        }
    }
}

/// What is in flight with other peers.
#[verifier::ext_equal]
pub struct TransfersView {
    /// Which peer each outgoing transfer targets.
    pub outgoing: Seq<(Seq<u8>, Seq<char>)>,
    pub offers: Seq<(Seq<u8>, OfferView)>,
    pub active: Seq<(Seq<u8>, ActiveView)>,
}

/// An incoming transfer has counted what it wrote, and wrote no more than was
/// offered.
pub open spec fn in_step(a: ActiveView) -> bool {
    a.got == a.data.len() && a.got <= a.size
}

/// No transfer is known twice, and every incoming one is in step.
pub open spec fn orderly(t: TransfersView) -> bool {
    &&& distinct(t.outgoing)
    &&& distinct(t.offers)
    &&& distinct(t.active)
    &&& forall|i: int| 0 <= i < t.active.len() ==> in_step((#[trigger] t.active[i]).1)
}

pub open spec fn no_transfers() -> TransfersView {
    TransfersView { outgoing: Seq::empty(), offers: Seq::empty(), active: Seq::empty() }
}

pub struct Transfers {
    outgoing: Table<[u8; 16], String>,
    offers: Table<[u8; 16], PendingOffer>,
    active: Table<[u8; 16], ActiveIn>,
}

impl View for Transfers {
    type V = TransfersView;

    closed spec fn view(&self) -> TransfersView {
        TransfersView { outgoing: self.outgoing@, offers: self.offers@, active: self.active@ }
    }
}

// --- incoming: what each message does ---------------------------------------------

/// What a step does to the transfers, the actions that follow, and what goes
/// into the transcript.
#[verifier::ext_equal]
pub struct FileStep {
    pub transfers: TransfersView,
    pub actions: Seq<ActionView>,
    pub records: Seq<RecordView>,
}

pub open spec fn nothing_done(t: TransfersView) -> FileStep {
    FileStep { transfers: t, actions: Seq::empty(), records: Seq::empty() }
}

/// Whether the bytes that arrived are the file that was offered.
pub open spec fn arrived_whole(a: ActiveView) -> bool {
    a.got == a.size && hex_text(sha256(a.data)) == a.expect_sha
}

/// How an incoming transfer that is over is described.
pub open spec fn arrival_text(a: ActiveView) -> Seq<char> {
    if arrived_whole(a) {
        "saved to "@ + a.path
    } else if a.got != a.size {
        "incomplete: got "@ + size_text(a.got) + " of "@ + size_text(a.size)
    } else {
        "the checksum did not match - the file may be corrupt"@
    }
}

/// The end of an incoming transfer.
pub open spec fn completed(t: TransfersView, id: Seq<u8>, transfer: Seq<char>, ts: i64) -> FileStep {
    match lookup(t.active, id) {
        None => nothing_done(t),
        Some(a) => FileStep {
            transfers: TransfersView { active: without(t.active, id), ..t },
            actions: seq![
                ActionView::CloseFile { transfer: id },
                ActionView::Emit(
                    EventView::FileFinished {
                        transfer,
                        name: a.name,
                        incoming: true,
                        ok: arrived_whole(a),
                        detail: arrival_text(a),
                    },
                ),
            ],
            records: if arrived_whole(a) {
                seq![
                    RecordView {
                        ts,
                        sender: a.peer_name,
                        sender_id: a.peer_id,
                        body: "received "@ + a.name + " ("@ + size_text(a.size) + ") -> "@ + a.path,
                        kind: RecordKind::File,
                    },
                ]
            } else {
                Seq::empty()
            },
        },
    }
}

/// An answer to an offer of ours goes to whoever is sending that file.
pub open spec fn answered(t: TransfersView, transfer: Seq<char>, d: DecisionView) -> FileStep {
    match id_in(transfer) {
        Ok(id) => if has_key(t.outgoing, id) {
            FileStep {
                transfers: t,
                actions: seq![ActionView::Decide { transfer: id, decision: d }],
                records: Seq::empty(),
            }
        } else {
            nothing_done(t)
        },
        Err(_) => nothing_done(t),
    }
}

/// What a file message from `from` does.
pub open spec fn file_control(
    t: TransfersView,
    from: PeerInfoView,
    c: ControlView,
    ts: i64,
) -> FileStep {
    match c {
        ControlView::FileOffer { transfer, name, size, sha256 } => match id_in(transfer) {
            Ok(id) => FileStep {
                transfers: TransfersView {
                    offers: put(
                        t.offers,
                        id,
                        OfferView {
                            peer_id: from.id,
                            peer_name: from.name,
                            name: safe_name(name),
                            size,
                            sha256,
                        },
                    ),
                    ..t
                },
                actions: seq![
                    ActionView::Emit(
                        EventView::FileOffer {
                            transfer,
                            from: from.name,
                            name: safe_name(name),
                            size,
                        },
                    ),
                ],
                records: Seq::empty(),
            },
            Err(_) => nothing_done(t),
        },
        ControlView::FileAccept { transfer } => answered(t, transfer, DecisionView::Accept),
        ControlView::FileDecline { transfer, reason } => answered(
            t,
            transfer,
            DecisionView::Decline(reason),
        ),
        ControlView::FileDone { transfer } => match id_in(transfer) {
            Ok(id) => completed(t, id, transfer, ts),
            Err(_) => nothing_done(t),
        },
        ControlView::FileAbort { transfer, reason } => match id_in(transfer) {
            Ok(id) => FileStep {
                transfers: TransfersView {
                    offers: without(t.offers, id),
                    active: without(t.active, id),
                    ..t
                },
                actions: match lookup(t.active, id) {
                    Some(a) => seq![
                        ActionView::CloseFile { transfer: id },
                        ActionView::Emit(
                            EventView::FileFinished {
                                transfer,
                                name: a.name,
                                incoming: true,
                                ok: false,
                                detail: "the sender aborted: "@ + reason,
                            },
                        ),
                    ],
                    None => Seq::empty(),
                },
                records: Seq::empty(),
            },
            Err(_) => nothing_done(t),
        },
        _ => nothing_done(t),
    }
}

/// What the exec side of a step hands back.
pub struct Outcome {
    pub actions: Vec<Action>,
    pub records: Vec<ChatRecord>,
}

/// `r` is what `step` says, and leaves the transfers as it says.
pub open spec fn does(r: Outcome, after: TransfersView, step: FileStep) -> bool {
    &&& after == step.transfers
    &&& each(r.actions@) == step.actions
    &&& each(r.records@) == step.records
}

fn nothing() -> (r: Outcome)
    ensures
        each(r.actions@) == Seq::<ActionView>::empty(),
        each(r.records@) == Seq::<RecordView>::empty(),
        r.actions@.len() == 0,
        r.records@.len() == 0,
{
    let r = Outcome { actions: Vec::new(), records: Vec::new() };
    assert(each(r.actions@) =~= Seq::<ActionView>::empty());
    assert(each(r.records@) =~= Seq::<RecordView>::empty());
    r
}

// --- incoming: chunks --------------------------------------------------------------

/// What is to be done with a chunk.
#[verifier::ext_equal]
pub enum VerdictView {
    /// It belongs to no transfer that this peer is sending us.
    Ignore,
    /// It ends the transfer, for this reason.
    Refuse(Seq<char>),
    /// Its bytes go to disk.
    Write,
}

pub enum Verdict {
    Ignore,
    Refuse(String),
    Write,
}

impl View for Verdict {
    type V = VerdictView;

    open spec fn view(&self) -> VerdictView {
        match self {
            Verdict::Ignore => VerdictView::Ignore,
            Verdict::Refuse(reason) => VerdictView::Refuse(reason@),
            Verdict::Write => VerdictView::Write,
        }
    }
}

/// A chunk is written if it is the next one of a transfer from that very peer
/// and stays inside the size that was offered.
pub open spec fn chunk_verdict(
    t: TransfersView,
    peer_id: Seq<char>,
    id: Seq<u8>,
    seq: u32,
    len: nat,
) -> VerdictView {
    match lookup(t.active, id) {
        None => VerdictView::Ignore,
        Some(a) => if a.peer_id != peer_id {
            VerdictView::Ignore
        } else if seq != a.next_seq {
            VerdictView::Refuse(
                "chunks arrived out of order (expected "@ + dec(a.next_seq as nat) + ", got "@
                    + dec(seq as nat) + ")"@,
            )
        } else if a.got + len > a.size {
            VerdictView::Refuse("the sender sent more data than it offered"@)
        } else {
            VerdictView::Write
        },
    }
}

/// Whether it is time to report progress again.
pub open spec fn due(last: Option<u64>, now: u64) -> bool {
    match last {
        None => true,
        Some(t) => since(now, t) >= PROGRESS_INTERVAL,
    }
}

fn is_due(last: Option<u64>, now: u64) -> (r: bool)
    ensures
        r == due(last, now),
{
    match last {
        None => true,
        Some(t) => elapsed(now, t) >= PROGRESS_INTERVAL,
    }
}

/// An incoming transfer once `data` is on disk.
pub open spec fn grown(a: ActiveView, data: Seq<u8>, now: u64) -> ActiveView {
    let got = (a.got + data.len()) as u64;
    ActiveView {
        data: a.data + data,
        got,
        next_seq: a.next_seq.wrapping_add(1),
        last_emit: if due(a.last_emit, now) || got == a.size {
            Some(now)
        } else {
            a.last_emit
        },
        ..a
    }
}

/// The transfers once `data` is on disk, and the progress that is reported.
pub open spec fn chunk_stored(t: TransfersView, id: Seq<u8>, data: Seq<u8>, now: u64) -> FileStep {
    match lookup(t.active, id) {
        None => nothing_done(t),
        Some(a) => {
            let b = grown(a, data, now);
            FileStep {
                transfers: TransfersView { active: put(t.active, id, b), ..t },
                actions: if due(a.last_emit, now) || b.got == a.size {
                    seq![
                        ActionView::Emit(
                            EventView::FileProgress {
                                transfer: hex_text(id),
                                name: a.name,
                                peer: a.peer_name,
                                done: b.got,
                                total: a.size,
                                incoming: true,
                            },
                        ),
                    ]
                } else {
                    Seq::empty()
                },
                records: Seq::empty(),
            }
        },
    }
}

/// A transfer that went wrong on our side ends: the sender is told why.
pub open spec fn chunk_refused(
    t: TransfersView,
    link: u64,
    id: Seq<u8>,
    reason: Seq<char>,
) -> FileStep {
    FileStep {
        transfers: TransfersView { active: without(t.active, id), ..t },
        actions: seq![
            ActionView::CloseFile { transfer: id },
            ActionView::Send {
                link,
                message: ControlView::FileAbort { transfer: hex_text(id), reason },
            },
            ActionView::Emit(
                EventView::FileFinished {
                    transfer: hex_text(id),
                    name: match lookup(t.active, id) {
                        Some(a) => a.name,
                        None => Seq::empty(),
                    },
                    incoming: true,
                    ok: false,
                    detail: reason,
                },
            ),
        ],
        records: Seq::empty(),
    }
}

// --- a peer that went away -----------------------------------------------------------

/// A row of a table of transfers that belongs to a peer.
pub trait OfPeer: View + Sized {
    spec fn peer_of(v: Self::V) -> Seq<char>;

    fn peer(&self) -> (r: &String)
        ensures
            r@ == Self::peer_of(self@),
    ;
}

impl OfPeer for String {
    open spec fn peer_of(v: Seq<char>) -> Seq<char> {
        v
    }

    fn peer(&self) -> (r: &String) {
        self
    }
}

impl OfPeer for PendingOffer {
    open spec fn peer_of(v: OfferView) -> Seq<char> {
        v.peer_id
    }

    fn peer(&self) -> (r: &String) {
        &self.peer_id
    }
}

impl OfPeer for ActiveIn {
    open spec fn peer_of(v: ActiveView) -> Seq<char> {
        v.peer_id
    }

    fn peer(&self) -> (r: &String) {
        &self.peer_id
    }
}

/// Whether a row belongs to `peer_id`.
pub open spec fn theirs<V: OfPeer>(peer_id: Seq<char>) -> spec_fn((Seq<u8>, V::V)) -> bool {
    |row: (Seq<u8>, V::V)| V::peer_of(row.1) == peer_id
}

/// Whether a row belongs to someone else.
pub open spec fn not_theirs<V: OfPeer>(peer_id: Seq<char>) -> spec_fn((Seq<u8>, V::V)) -> bool {
    |row: (Seq<u8>, V::V)| V::peer_of(row.1) != peer_id
}

/// The rows that belong to `peer_id`.
pub open spec fn with_peer<V: OfPeer>(rows: Seq<(Seq<u8>, V::V)>, peer_id: Seq<char>) -> Seq<
    (Seq<u8>, V::V),
> {
    rows.filter(theirs::<V>(peer_id))
}

/// The rows that do not belong to `peer_id`.
pub open spec fn without_peer<V: OfPeer>(rows: Seq<(Seq<u8>, V::V)>, peer_id: Seq<char>) -> Seq<
    (Seq<u8>, V::V),
> {
    rows.filter(not_theirs::<V>(peer_id))
}

/// The transfers once a peer is gone. Files that were being received from it
/// are closed, offers of it are forgotten, and whoever is sending to it is
/// told.
pub open spec fn cancelled(t: TransfersView, peer_id: Seq<char>) -> FileStep {
    let dead = with_peer::<ActiveIn>(t.active, peer_id);
    let unsent = with_peer::<String>(t.outgoing, peer_id);
    FileStep {
        transfers: TransfersView {
            outgoing: without_peer::<String>(t.outgoing, peer_id),
            offers: without_peer::<PendingOffer>(t.offers, peer_id),
            active: without_peer::<ActiveIn>(t.active, peer_id),
        },
        actions: Seq::new(dead.len(), |i: int| ActionView::CloseFile { transfer: dead[i].0 })
            + Seq::new(
            unsent.len(),
            |i: int|
                ActionView::Decide {
                    transfer: unsent[i].0,
                    decision: DecisionView::Decline("the peer disconnected"@),
                },
        ) + Seq::new(
            dead.len(),
            |i: int|
                ActionView::Emit(
                    EventView::FileFinished {
                        transfer: hex_text(dead[i].0),
                        name: dead[i].1.name,
                        incoming: true,
                        ok: false,
                        detail: "the sender disconnected"@,
                    },
                ),
        ),
        records: Seq::empty(),
    }
}

/// Part a table into the rows that stay and those of `peer_id`, each in order.
fn part<V: OfPeer>(t: &mut Table<[u8; 16], V>, peer_id: &str) -> (r: Vec<([u8; 16], V)>)
    ensures
        final(t)@ == without_peer::<V>(old(t)@, peer_id@),
        each(r@) == with_peer::<V>(old(t)@, peer_id@),
{
    let ghost rows = t@;
    let ghost out = theirs::<V>(peer_id@);
    let ghost stay = not_theirs::<V>(peer_id@);
    let mut gone: Vec<([u8; 16], V)> = Vec::new();
    let mut left: usize = t.len();
    proof {
        reveal(Seq::filter);
        assert(rows.take(0) =~= Seq::empty());
        assert(each(gone@) =~= rows.take(0).filter(out));
        assert(t@ =~= rows.skip(0) + rows.take(0).filter(stay));
    }
    while left > 0
        invariant
            left <= rows.len(),
            out == theirs::<V>(peer_id@),
            stay == not_theirs::<V>(peer_id@),
            t@ == rows.skip(rows.len() - left) + rows.take(rows.len() - left).filter(stay),
            each(gone@) == rows.take(rows.len() - left).filter(out),
        decreases left,
    {
        let ghost i = rows.len() - left;
        let ghost kept = rows.take(i).filter(stay);
        let ghost before = gone@;
        assert(t@[0] == rows[i]);
        let (k, v) = t.remove_at(0);
        proof {
            reveal(Seq::filter);
            assert(rows.take(i + 1).drop_last() =~= rows.take(i));
            assert(rows.take(i + 1).last() == rows[i]);
            assert(t@ =~= rows.skip(i + 1) + kept);
        }
        if same_text(v.peer(), peer_id) {
            let row = (k, v);
            assert(row@ == rows[i]);
            gone.push(row);
            proof {
                each_push(before, row);
            }
        } else {
            t.push(k, v);
            assert(t@ =~= rows.skip(i + 1) + kept.push(rows[i]));
        }
        left -= 1;
    }
    proof {
        assert(rows.take(rows.len() as int) =~= rows);
        assert(t@ =~= rows.filter(stay));
    }
    gone
}

impl Transfers {
    pub fn new() -> (r: Self)
        ensures
            r@ == no_transfers(),
    {
        Transfers { outgoing: Table::new(), offers: Table::new(), active: Table::new() }
    }

    /// Remember that a file of ours is on offer to a peer.
    pub fn begin_out(&mut self, id: [u8; 16], peer_id: &str)
        ensures
            final(self)@ == (TransfersView {
                outgoing: put(old(self)@.outgoing, id@, peer_id@),
                ..old(self)@
            }),
    {
        self.outgoing.insert(id, peer_id.to_owned());
    }

    /// Forget an outgoing transfer.
    pub fn end_out(&mut self, id: &[u8; 16])
        ensures
            final(self)@ == (TransfersView {
                outgoing: without(old(self)@.outgoing, id@),
                ..old(self)@
            }),
    {
        self.outgoing.remove(id);
    }

    /// Take an offer out, to answer it.
    pub fn take_offer(&mut self, id: &[u8; 16]) -> (r: Option<PendingOffer>)
        ensures
            final(self)@ == (TransfersView {
                offers: without(old(self)@.offers, id@),
                ..old(self)@
            }),
            match r {
                Some(o) => lookup(old(self)@.offers, id@) == Some(o@),
                None => lookup(old(self)@.offers, id@) is None,
            },
    {
        self.offers.remove(id)
    }

    /// Start writing an accepted file.
    pub fn begin_in(&mut self, id: [u8; 16], offer: PendingOffer, path: &str)
        ensures
            final(self)@ == (TransfersView {
                active: put(old(self)@.active, id@, fresh_incoming(offer@, path@)),
                ..old(self)@
            }),
    {
        let a = ActiveIn {
            path: path.to_owned(),
            name: offer.name,
            size: offer.size,
            got: 0,
            next_seq: 0,
            hasher: FileHasher::new(),
            expect_sha: offer.sha256,
            peer_id: offer.peer_id,
            peer_name: offer.peer_name,
            last_emit: None,
        };
        assert(a@ == fresh_incoming(offer@, path@));
        self.active.insert(id, a);
    }

    /// What a file message from `from` does.
    pub fn handle_file_control(&mut self, from: &PeerInfo, c: Control, ts: i64) -> (r: Outcome)
        ensures
            does(r, final(self)@, file_control(old(self)@, from@, c@, ts)),
    {
        match c {
            Control::FileOffer { transfer, name, size, sha256 } => {
                let id = match unhex16(&transfer) {
                    Ok(id) => id,
                    Err(_) => {
                        return nothing();
                    },
                };
                let name = safe_file_name(&name);
                self.offers.insert(
                    id,
                    PendingOffer {
                        peer_id: from.id.clone(),
                        peer_name: from.name.clone(),
                        name: name.clone(),
                        size,
                        sha256,
                    },
                );
                let mut r = nothing();
                let e = Event::FileOffer { transfer, from: from.name.clone(), name, size };
                let ghost step = file_control(old(self)@, from@, c@, ts);
                r.actions.push(Action::Emit(e));
                assert(each(r.actions@) =~= step.actions);
                assert(self@ =~= step.transfers);
                r
            },
            Control::FileAccept { transfer } => self.decide(&transfer, Decision::Accept),
            Control::FileDecline { transfer, reason } => self.decide(
                &transfer,
                Decision::Decline(reason),
            ),
            Control::FileDone { transfer } => match unhex16(&transfer) {
                Ok(id) => self.complete_incoming(id, &transfer, ts),
                Err(_) => nothing(),
            },
            Control::FileAbort { transfer, reason } => match unhex16(&transfer) {
                Ok(id) => {
                    let ghost step = file_control(old(self)@, from@, c@, ts);
                    self.offers.remove(&id);
                    let mut r = nothing();
                    if let Some(a) = self.active.remove(&id) {
                        r.actions.push(Action::CloseFile { transfer: id });
                        r.actions.push(
                            Action::Emit(
                                Event::FileFinished {
                                    transfer,
                                    name: a.name,
                                    incoming: true,
                                    ok: false,
                                    detail: cat("the sender aborted: ", &reason),
                                },
                            ),
                        );
                    }
                    assert(each(r.actions@) =~= step.actions);
                    assert(self@ =~= step.transfers);
                    r
                },
                Err(_) => nothing(),
            },
            _ => nothing(),
        }
    }

    /// Pass an answer on.
    fn decide(&mut self, transfer: &str, d: Decision) -> (r: Outcome)
        ensures
            does(r, final(self)@, answered(old(self)@, transfer@, d@)),
    {
        let mut r = nothing();
        if let Ok(id) = unhex16(transfer) {
            if self.outgoing.has(&id) {
                r.actions.push(Action::Decide { transfer: id, decision: d });
                assert(each(r.actions@) =~= answered(old(self)@, transfer@, d@).actions);
            }
        }
        r
    }

    /// The end of an incoming transfer.
    fn complete_incoming(&mut self, id: [u8; 16], transfer: &str, ts: i64) -> (r: Outcome)
        ensures
            does(r, final(self)@, completed(old(self)@, id@, transfer@, ts)),
    {
        let ghost step = completed(old(self)@, id@, transfer@, ts);
        let a = match self.active.remove(&id) {
            Some(a) => a,
            None => {
                assert(self@ =~= old(self)@);
                return nothing();
            },
        };
        let ghost av = a@;
        let mut r = nothing();
        r.actions.push(Action::CloseFile { transfer: id });
        let digest = a.hasher.finish();
        let ok = a.got == a.size && same_text(&digest, &a.expect_sha);
        let detail = if ok {
            cat("saved to ", &a.path)
        } else if a.got != a.size {
            cat4("incomplete: got ", &human_size(a.got), " of ", &human_size(a.size))
        } else {
            "the checksum did not match - the file may be corrupt".to_owned()
        };
        if ok {
            let body = cat6(
                "received ",
                &a.name,
                " (",
                &human_size(a.size),
                ") -> ",
                &a.path,
            );
            r.records.push(ChatRecord::file(&a.peer_name, &a.peer_id, ts, &body));
        }
        r.actions.push(
            Action::Emit(
                Event::FileFinished {
                    transfer: transfer.to_owned(),
                    name: a.name,
                    incoming: true,
                    ok,
                    detail,
                },
            ),
        );
        assert(each(r.actions@) =~= step.actions);
        assert(each(r.records@) =~= step.records);
        r
    }

    /// What is to be done with a chunk.
    pub fn check_chunk(&self, peer_id: &str, id: &[u8; 16], seq: u32, len: usize) -> (r: Verdict)
        requires
            orderly(self@),
        ensures
            r@ == chunk_verdict(self@, peer_id@, id@, seq, len as nat),
    {
        proof {
            row_of_is_row(self@.active, id@);
        }
        match self.active.get(id) {
            None => Verdict::Ignore,
            Some(a) => {
                assert(in_step(self@.active[row_of(self@.active, id@)].1));
                if !same_text(&a.peer_id, peer_id) {
                    Verdict::Ignore
                } else if seq != a.next_seq {
                    Verdict::Refuse(
                        cat5(
                            "chunks arrived out of order (expected ",
                            &dec_text(a.next_seq as u64),
                            ", got ",
                            &dec_text(seq as u64),
                            ")",
                        ),
                    )
                } else if len as u64 > a.size - a.got {
                    Verdict::Refuse("the sender sent more data than it offered".to_owned())
                } else {
                    Verdict::Write
                }
            },
        }
    }

    /// Account for a chunk whose bytes are on disk.
    pub fn chunk_written(&mut self, id: &[u8; 16], data: &[u8], now: u64) -> (r: Outcome)
        requires
            lookup(old(self)@.active, id@) matches Some(a) ==> a.got + data@.len() <= u64::MAX,
        ensures
            does(r, final(self)@, chunk_stored(old(self)@, id@, data@, now)),
    {
        let ghost step = chunk_stored(old(self)@, id@, data@, now);
        proof {
            row_of_is_row(self@.active, id@);
        }
        let mut r = nothing();
        if let Some(i) = self.active.find(id) {
            let a = self.active.at_mut(i);
            let ghost av = a@;
            a.hasher.update(data);
            a.got = a.got + data.len() as u64;
            a.next_seq = a.next_seq.wrapping_add(1);
            if is_due(a.last_emit, now) || a.got == a.size {
                a.last_emit = Some(now);
                let e = Event::FileProgress {
                    transfer: hex(id.as_slice()),
                    name: a.name.clone(),
                    peer: a.peer_name.clone(),
                    done: a.got,
                    total: a.size,
                    incoming: true,
                };
                r.actions.push(Action::Emit(e));
            }
            assert(a@ =~= grown(av, data@, now));
            assert(each(r.actions@) =~= step.actions);
            assert(self@.active =~= step.transfers.active);
        }
        r
    }

    /// End a transfer that went wrong on our side.
    pub fn refuse_chunk(&mut self, link: u64, id: [u8; 16], reason: &str) -> (r: Outcome)
        ensures
            does(r, final(self)@, chunk_refused(old(self)@, link, id@, reason@)),
    {
        let ghost step = chunk_refused(old(self)@, link, id@, reason@);
        let name = match self.active.remove(&id) {
            Some(a) => a.name,
            None => String::new(),
        };
        let mut r = nothing();
        r.actions.push(Action::CloseFile { transfer: id });
        r.actions.push(
            Action::Send {
                link,
                message: Control::FileAbort {
                    transfer: hex(id.as_slice()),
                    reason: reason.to_owned(),
                },
            },
        );
        assert(name@ =~= match lookup(old(self)@.active, id@) {
            Some(a) => a.name,
            None => Seq::empty(),
        });
        r.actions.push(
            Action::Emit(
                Event::FileFinished {
                    transfer: hex(id.as_slice()),
                    name,
                    incoming: true,
                    ok: false,
                    detail: reason.to_owned(),
                },
            ),
        );
        assert(each(r.actions@) =~= step.actions);
        r
    }

    /// Tear down anything in flight with a peer that just went away.
    pub fn cancel_transfers_with(&mut self, peer_id: &str) -> (r: Outcome)
        ensures
            does(r, final(self)@, cancelled(old(self)@, peer_id@)),
    {
        let ghost step = cancelled(old(self)@, peer_id@);
        let dead = part(&mut self.active, peer_id);
        part(&mut self.offers, peer_id);
        let unsent = part(&mut self.outgoing, peer_id);
        let mut r = nothing();
        let ghost dv = each(dead@);
        let ghost uv = each(unsent@);
        let ghost closes = Seq::new(
            dv.len(),
            |i: int| ActionView::CloseFile { transfer: dv[i].0 },
        );
        let ghost tells = Seq::new(
            uv.len(),
            |i: int|
                ActionView::Decide {
                    transfer: uv[i].0,
                    decision: DecisionView::Decline("the peer disconnected"@),
                },
        );
        let ghost ends = Seq::new(
            dv.len(),
            |i: int|
                ActionView::Emit(
                    EventView::FileFinished {
                        transfer: hex_text(dv[i].0),
                        name: dv[i].1.name,
                        incoming: true,
                        ok: false,
                        detail: "the sender disconnected"@,
                    },
                ),
        );
        let mut i: usize = 0;
        while i < dead.len()
            invariant
                i <= dead@.len(),
                dv == each(dead@),
                closes == Seq::new(
                    dv.len(),
                    |i: int| ActionView::CloseFile { transfer: dv[i].0 },
                ),
                each(r.actions@) == closes.take(i as int),
                each(r.records@) == Seq::<RecordView>::empty(),
            decreases dead@.len() - i,
        {
            let ghost before = r.actions@;
            let a = Action::CloseFile { transfer: dead[i].0 };
            assert(dv[i as int] == dead@[i as int]@);
            r.actions.push(a);
            proof {
                each_push(before, a);
                assert(closes.take(i + 1) =~= closes.take(i as int).push(closes[i as int]));
            }
            i += 1;
        }
        assert(closes.take(i as int) =~= closes);
        let mut j: usize = 0;
        assert(closes + tells.take(0) =~= closes);
        while j < unsent.len()
            invariant
                j <= unsent@.len(),
                uv == each(unsent@),
                tells == Seq::new(
                    uv.len(),
                    |i: int|
                        ActionView::Decide {
                            transfer: uv[i].0,
                            decision: DecisionView::Decline("the peer disconnected"@),
                        },
                ),
                each(r.actions@) == closes + tells.take(j as int),
                each(r.records@) == Seq::<RecordView>::empty(),
            decreases unsent@.len() - j,
        {
            let ghost before = r.actions@;
            let a = Action::Decide {
                transfer: unsent[j].0,
                decision: Decision::Decline("the peer disconnected".to_owned()),
            };
            assert(uv[j as int] == unsent@[j as int]@);
            r.actions.push(a);
            proof {
                each_push(before, a);
                assert((closes + tells.take(j as int)).push(tells[j as int]) =~= closes
                    + tells.take(j + 1));
            }
            j += 1;
        }
        assert(tells.take(j as int) =~= tells);
        let mut k: usize = 0;
        assert(closes + tells + ends.take(0) =~= closes + tells);
        while k < dead.len()
            invariant
                k <= dead@.len(),
                dv == each(dead@),
                ends == Seq::new(
                    dv.len(),
                    |i: int|
                        ActionView::Emit(
                            EventView::FileFinished {
                                transfer: hex_text(dv[i].0),
                                name: dv[i].1.name,
                                incoming: true,
                                ok: false,
                                detail: "the sender disconnected"@,
                            },
                        ),
                ),
                each(r.actions@) == closes + tells + ends.take(k as int),
                each(r.records@) == Seq::<RecordView>::empty(),
            decreases dead@.len() - k,
        {
            let ghost before = r.actions@;
            let a = Action::Emit(
                Event::FileFinished {
                    transfer: hex(dead[k].0.as_slice()),
                    name: dead[k].1.name.clone(),
                    incoming: true,
                    ok: false,
                    detail: "the sender disconnected".to_owned(),
                },
            );
            assert(dv[k as int] == dead@[k as int]@);
            r.actions.push(a);
            proof {
                each_push(before, a);
                assert((closes + tells + ends.take(k as int)).push(ends[k as int]) =~= closes
                    + tells + ends.take(k + 1));
            }
            k += 1;
        }
        assert(ends.take(k as int) =~= ends);
        assert(each(r.actions@) =~= step.actions);
        r
    }
}

/// An incoming transfer that was just accepted.
pub open spec fn fresh_incoming(offer: OfferView, path: Seq<char>) -> ActiveView {
    ActiveView {
        path,
        name: offer.name,
        size: offer.size,
        got: 0,
        next_seq: 0,
        data: Seq::empty(),
        expect_sha: offer.sha256,
        peer_id: offer.peer_id,
        peer_name: offer.peer_name,
        last_emit: None,
    }
}

// --- outgoing ------------------------------------------------------------------------

/// One file on its way to one peer.
pub struct Upload {
    pub id: [u8; 16],
    pub peer: PeerInfo,
    pub link: u64,
    pub name: String,
    pub size: u64,
    pub sha: String,
    pub sent: u64,
    pub seq: u32,
    /// When progress was last reported.
    pub last: Option<u64>,
}

#[verifier::ext_equal]
pub struct UploadView {
    pub id: Seq<u8>,
    pub peer: PeerInfoView,
    pub link: u64,
    pub name: Seq<char>,
    pub size: u64,
    pub sha: Seq<char>,
    pub sent: u64,
    pub seq: u32,
    pub last: Option<u64>,
}

impl View for Upload {
    type V = UploadView;

    open spec fn view(&self) -> UploadView {
        UploadView {
            id: self.id@,
            peer: self.peer@,
            link: self.link,
            name: self.name@,
            size: self.size,
            sha: self.sha@,
            sent: self.sent,
            seq: self.seq,
            last: self.last,
        }
    }
}

/// How an outgoing transfer came to its end.
pub enum UploadEnd {
    /// The offer did not get through.
    OfferFailed(Error),
    /// The recipient said no.
    Declined(String),
    /// The recipient said nothing.
    TimedOut,
    /// The file could not be opened.
    Unreadable(String),
    /// The file could not be read to its end.
    ReadFailed(String),
    /// The link broke.
    LinkFailed(Error),
    /// All of it is on its way.
    Sent,
}

#[verifier::ext_equal]
pub enum UploadEndView {
    OfferFailed(ErrorView),
    Declined(Seq<char>),
    TimedOut,
    Unreadable(Seq<char>),
    ReadFailed(Seq<char>),
    LinkFailed(ErrorView),
    Sent,
}

impl View for UploadEnd {
    type V = UploadEndView;

    open spec fn view(&self) -> UploadEndView {
        match self {
            UploadEnd::OfferFailed(e) => UploadEndView::OfferFailed(e@),
            UploadEnd::Declined(reason) => UploadEndView::Declined(reason@),
            UploadEnd::TimedOut => UploadEndView::TimedOut,
            UploadEnd::Unreadable(e) => UploadEndView::Unreadable(e@),
            UploadEnd::ReadFailed(e) => UploadEndView::ReadFailed(e@),
            UploadEnd::LinkFailed(e) => UploadEndView::LinkFailed(e@),
            UploadEnd::Sent => UploadEndView::Sent,
        }
    }
}

/// How the end of an outgoing transfer is described.
pub open spec fn end_text(up: UploadView, how: UploadEndView) -> Seq<char> {
    match how {
        UploadEndView::OfferFailed(e) => "could not send the offer: "@ + e.message(),
        UploadEndView::Declined(reason) => up.peer.name + " declined ("@ + reason + ")"@,
        UploadEndView::TimedOut => up.peer.name + " did not answer in time"@,
        UploadEndView::Unreadable(e) => "could not read the file: "@ + e,
        UploadEndView::ReadFailed(e) => "read error: "@ + e,
        UploadEndView::LinkFailed(e) => "link to "@ + up.peer.name + " failed: "@ + e.message(),
        UploadEndView::Sent => "sent to "@ + up.peer.name,
    }
}

/// The last message to the recipient, where there is one.
pub open spec fn last_word(up: UploadView, how: UploadEndView) -> Option<ControlView> {
    match how {
        UploadEndView::TimedOut => Some(
            ControlView::FileAbort { transfer: hex_text(up.id), reason: "no answer in time"@ },
        ),
        UploadEndView::Unreadable(e) => Some(
            ControlView::FileAbort { transfer: hex_text(up.id), reason: e },
        ),
        UploadEndView::ReadFailed(e) => Some(
            ControlView::FileAbort { transfer: hex_text(up.id), reason: e },
        ),
        UploadEndView::Sent => Some(ControlView::FileDone { transfer: hex_text(up.id) }),
        _ => None,
    }
}

/// The end of an outgoing transfer of `me`.
pub open spec fn upload_over(
    t: TransfersView,
    up: UploadView,
    how: UploadEndView,
    me: PeerInfoView,
    ts: i64,
) -> FileStep {
    let over = ActionView::Emit(
        EventView::FileFinished {
            transfer: hex_text(up.id),
            name: up.name,
            incoming: false,
            ok: how is Sent,
            detail: end_text(up, how),
        },
    );
    FileStep {
        transfers: TransfersView { outgoing: without(t.outgoing, up.id), ..t },
        actions: match last_word(up, how) {
            Some(message) => seq![ActionView::Send { link: up.link, message }, over],
            None => seq![over],
        },
        records: if how is Sent {
            seq![
                RecordView {
                    ts,
                    sender: me.name,
                    sender_id: me.id,
                    body: "sent "@ + up.name + " ("@ + size_text(up.size) + ") to "@ + up.peer.name,
                    kind: RecordKind::File,
                },
            ]
        } else {
            Seq::empty()
        },
    }
}

/// An outgoing transfer once a chunk of `n` bytes is on its way.
pub open spec fn advanced(up: UploadView, n: nat, now: u64) -> UploadView {
    let sent = (up.sent + n) as u64;
    UploadView {
        sent,
        seq: up.seq.wrapping_add(1),
        last: if due(up.last, now) || sent == up.size {
            Some(now)
        } else {
            up.last
        },
        ..up
    }
}

/// The progress that is reported once a chunk of `n` bytes is on its way.
pub open spec fn upload_progress(up: UploadView, n: nat, now: u64) -> Seq<ActionView> {
    let sent = (up.sent + n) as u64;
    if due(up.last, now) || sent == up.size {
        seq![
            ActionView::Emit(
                EventView::FileProgress {
                    transfer: hex_text(up.id),
                    name: up.name,
                    peer: up.peer.name,
                    done: sent,
                    total: up.size,
                    incoming: false,
                },
            ),
        ]
    } else {
        Seq::empty()
    }
}

impl Upload {
    pub fn new(id: [u8; 16], peer: PeerInfo, link: u64, name: &str, size: u64, sha: &str) -> (r: Self)
        ensures
            r@ == (UploadView {
                id: id@,
                peer: peer@,
                link,
                name: name@,
                size,
                sha: sha@,
                sent: 0,
                seq: 0,
                last: None,
            }),
    {
        Upload {
            id,
            peer,
            link,
            name: name.to_owned(),
            size,
            sha: sha.to_owned(),
            sent: 0,
            seq: 0,
            last: None,
        }
    }

    /// The message that offers the file.
    pub fn offer(&self) -> (r: Control)
        ensures
            r@ == (ControlView::FileOffer {
                transfer: hex_text(self@.id),
                name: self@.name,
                size: self@.size,
                sha256: self@.sha,
            }),
    {
        Control::FileOffer {
            transfer: hex(self.id.as_slice()),
            name: self.name.clone(),
            size: self.size,
            sha256: self.sha.clone(),
        }
    }

    /// What is said once the offer is out.
    pub fn offered(&self) -> (r: Event)
        ensures
            r@ == EventView::Status(
                "Offered "@ + self@.name + " to "@ + self@.peer.name + " - waiting for a reply"@,
            ),
    {
        Event::Status(
            cat5("Offered ", &self.name, " to ", &self.peer.name, " - waiting for a reply"),
        )
    }

    /// What the answer to the offer means, no answer being a timeout: the file
    /// is sent, or the transfer is over.
    pub fn answered(&self, answer: Option<Decision>) -> (r: Option<UploadEnd>)
        ensures
            match answer {
                Some(Decision::Accept) => r is None,
                Some(Decision::Decline(reason)) => r matches Some(end) && end@
                    == UploadEndView::Declined(reason@),
                None => r matches Some(end) && end@ == UploadEndView::TimedOut,
            },
    {
        match answer {
            Some(Decision::Accept) => None,
            Some(Decision::Decline(reason)) => Some(UploadEnd::Declined(reason)),
            None => Some(UploadEnd::TimedOut),
        }
    }

    /// The payload for the next piece of the file.
    pub fn chunk(&self, data: &[u8]) -> (r: Vec<u8>)
        ensures
            r@ == chunk_bytes(self@.id, self@.seq, data@),
    {
        encode_chunk(&self.id, self.seq, data)
    }

    /// Account for a piece of `n` bytes that is on its way.
    pub fn chunk_sent(&mut self, n: usize, now: u64) -> (r: Vec<Action>)
        requires
            old(self)@.sent + n <= u64::MAX,
        ensures
            final(self)@ == advanced(old(self)@, n as nat, now),
            each(r@) == upload_progress(old(self)@, n as nat, now),
    {
        self.seq = self.seq.wrapping_add(1);
        self.sent = self.sent + n as u64;
        let mut out: Vec<Action> = Vec::new();
        if is_due(self.last, now) || self.sent == self.size {
            self.last = Some(now);
            let e = Event::FileProgress {
                transfer: hex(self.id.as_slice()),
                name: self.name.clone(),
                peer: self.peer.name.clone(),
                done: self.sent,
                total: self.size,
                incoming: false,
            };
            out.push(Action::Emit(e));
        }
        assert(each(out@) =~= upload_progress(old(self)@, n as nat, now));
        out
    }

    /// How an end is described.
    fn end_detail(&self, how: &UploadEnd) -> (r: String)
        ensures
            r@ == end_text(self@, how@),
    {
        match how {
            UploadEnd::OfferFailed(e) => cat("could not send the offer: ", &e.message()),
            UploadEnd::Declined(reason) => cat4(&self.peer.name, " declined (", reason, ")"),
            UploadEnd::TimedOut => cat(&self.peer.name, " did not answer in time"),
            UploadEnd::Unreadable(e) => cat("could not read the file: ", e),
            UploadEnd::ReadFailed(e) => cat("read error: ", e),
            UploadEnd::LinkFailed(e) => cat4(
                "link to ",
                &self.peer.name,
                " failed: ",
                &e.message(),
            ),
            UploadEnd::Sent => cat("sent to ", &self.peer.name),
        }
    }

    /// The last message to the recipient, where there is one.
    fn last_message(&self, how: &UploadEnd) -> (r: Option<Control>)
        ensures
            match r {
                Some(c) => last_word(self@, how@) == Some(c@),
                None => last_word(self@, how@) is None,
            },
    {
        let transfer = hex(self.id.as_slice());
        match how {
            UploadEnd::TimedOut => Some(
                Control::FileAbort { transfer, reason: "no answer in time".to_owned() },
            ),
            UploadEnd::Unreadable(e) => Some(Control::FileAbort { transfer, reason: e.clone() }),
            UploadEnd::ReadFailed(e) => Some(Control::FileAbort { transfer, reason: e.clone() }),
            UploadEnd::Sent => Some(Control::FileDone { transfer }),
            _ => None,
        }
    }
}

impl Transfers {
    /// The end of an outgoing transfer.
    pub fn finish_out(&mut self, up: &Upload, how: UploadEnd, me: &PeerInfo, ts: i64) -> (r: Outcome)
        ensures
            does(r, final(self)@, upload_over(old(self)@, up@, how@, me@, ts)),
    {
        let ghost step = upload_over(old(self)@, up@, how@, me@, ts);
        self.end_out(&up.id);
        let mut r = nothing();
        if let Some(message) = up.last_message(&how) {
            r.actions.push(Action::Send { link: up.link, message });
        }
        let detail = up.end_detail(&how);
        let ok = match how {
            UploadEnd::Sent => true,
            _ => false,
        };
        if ok {
            let body = cat6("sent ", &up.name, " (", &human_size(up.size), ") to ", &up.peer.name);
            r.records.push(ChatRecord::file(&me.name, &me.id, ts, &body));
        }
        r.actions.push(
            Action::Emit(
                Event::FileFinished {
                    transfer: hex(up.id.as_slice()),
                    name: up.name.clone(),
                    incoming: false,
                    ok,
                    detail,
                },
            ),
        );
        assert(each(r.actions@) =~= step.actions);
        assert(each(r.records@) =~= step.records);
        r
    }
}

// --- laws ----------------------------------------------------------------------------

/// The pieces of a file, one behind the other.
pub open spec fn assembled(pieces: Seq<Seq<u8>>) -> Seq<u8>
    decreases pieces.len(),
{
    if pieces.len() == 0 {
        Seq::empty()
    } else {
        assembled(pieces.drop_last()) + pieces.last()
    }
}

/// An incoming transfer after these pieces, each stored at its time.
pub open spec fn fed(a: ActiveView, pieces: Seq<Seq<u8>>, times: Seq<u64>) -> ActiveView
    decreases pieces.len(),
{
    if pieces.len() == 0 {
        a
    } else {
        grown(fed(a, pieces.drop_last(), times.drop_last()), pieces.last(), times.last())
    }
}

/// An outgoing transfer after these pieces, each on its way at its time.
pub open spec fn uploaded(up: UploadView, pieces: Seq<Seq<u8>>, times: Seq<u64>) -> UploadView
    decreases pieces.len(),
{
    if pieces.len() == 0 {
        up
    } else {
        advanced(
            uploaded(up, pieces.drop_last(), times.drop_last()),
            pieces.last().len(),
            times.last(),
        )
    }
}

/// The sequence number behind `n` chunks.
pub open spec fn seq_after(n: nat) -> u32 {
    (n % 0x1_0000_0000) as u32
}

proof fn seq_steps(n: nat)
    ensures
        seq_after(n + 1) == seq_after(n).wrapping_add(1),
{
}

proof fn assembled_grows(pieces: Seq<Seq<u8>>, i: int)
    requires
        0 <= i <= pieces.len(),
    ensures
        assembled(pieces.take(i)).len() <= assembled(pieces).len(),
    decreases pieces.len(),
{
    if i == pieces.len() {
        assert(pieces.take(i) =~= pieces);
    } else {
        assembled_grows(pieces.drop_last(), i);
        assert(pieces.drop_last().take(i) =~= pieces.take(i));
    }
}

/// What is written for a transfer is what arrived for it, in order.
pub proof fn chunks_add_up(offer: OfferView, path: Seq<char>, pieces: Seq<Seq<u8>>, times: Seq<u64>)
    requires
        times.len() == pieces.len(),
        assembled(pieces).len() <= offer.size,
    ensures
        ({
            let a = fed(fresh_incoming(offer, path), pieces, times);
            &&& in_step(a)
            &&& a.data == assembled(pieces)
            &&& a.next_seq == seq_after(pieces.len())
            &&& a.size == offer.size
            &&& a.expect_sha == offer.sha256
            &&& a.peer_id == offer.peer_id
            &&& a.name == offer.name
            &&& a.path == path
        }),
    decreases pieces.len(),
{
    if pieces.len() > 0 {
        assembled_grows(pieces, pieces.len() - 1);
        assert(pieces.take(pieces.len() - 1) =~= pieces.drop_last());
        chunks_add_up(offer, path, pieces.drop_last(), times.drop_last());
        let b = fed(fresh_incoming(offer, path), pieces.drop_last(), times.drop_last());
        seq_steps((pieces.len() - 1) as nat);
        assert(fed(fresh_incoming(offer, path), pieces, times) == grown(
            b,
            pieces.last(),
            times.last(),
        ));
    } else {
        assert(assembled(pieces) =~= Seq::<u8>::empty());
    }
}

/// What is sent of a file: every chunk carries the next sequence number.
pub proof fn uploads_add_up(up: UploadView, pieces: Seq<Seq<u8>>, times: Seq<u64>)
    requires
        times.len() == pieces.len(),
        up.sent == 0,
        up.seq == 0,
        assembled(pieces).len() <= u64::MAX,
    ensures
        ({
            let u = uploaded(up, pieces, times);
            &&& u.sent == assembled(pieces).len()
            &&& u.seq == seq_after(pieces.len())
            &&& u.id == up.id
            &&& u.size == up.size
        }),
    decreases pieces.len(),
{
    if pieces.len() > 0 {
        assembled_grows(pieces, pieces.len() - 1);
        assert(pieces.take(pieces.len() - 1) =~= pieces.drop_last());
        uploads_add_up(up, pieces.drop_last(), times.drop_last());
        seq_steps((pieces.len() - 1) as nat);
    }
}

/// The transfers after these pieces of one of them, each stored at its time.
pub open spec fn received(
    t: TransfersView,
    id: Seq<u8>,
    pieces: Seq<Seq<u8>>,
    times: Seq<u64>,
) -> TransfersView
    decreases pieces.len(),
{
    if pieces.len() == 0 {
        t
    } else {
        chunk_stored(
            received(t, id, pieces.drop_last(), times.drop_last()),
            id,
            pieces.last(),
            times.last(),
        ).transfers
    }
}

proof fn received_is_fed(
    t: TransfersView,
    id: Seq<u8>,
    a: ActiveView,
    pieces: Seq<Seq<u8>>,
    times: Seq<u64>,
)
    requires
        distinct(t.active),
        lookup(t.active, id) == Some(a),
        times.len() == pieces.len(),
    ensures
        distinct(received(t, id, pieces, times).active),
        lookup(received(t, id, pieces, times).active, id) == Some(fed(a, pieces, times)),
    decreases pieces.len(),
{
    if pieces.len() > 0 {
        let p = pieces.drop_last();
        let q = times.drop_last();
        received_is_fed(t, id, a, p, q);
        put_is_found(
            received(t, id, p, q).active,
            id,
            grown(fed(a, p, q), pieces.last(), times.last()),
        );
    }
}

/// The sender's half: the chunk behind `i` others carries the number `i`.
proof fn next_chunk_is_numbered(up: UploadView, pieces: Seq<Seq<u8>>, sent: Seq<u64>, i: int)
    requires
        sent.len() == pieces.len(),
        up.sent == 0,
        up.seq == 0,
        assembled(pieces).len() <= u64::MAX,
        0 <= i < pieces.len(),
    ensures
        uploaded(up, pieces.take(i), sent.take(i)).seq == seq_after(i as nat),
{
    assembled_grows(pieces, i);
    uploads_add_up(up, pieces.take(i), sent.take(i));
}

/// The recipient's half: behind `i` chunks, the one with the number `i` is
/// awaited, and there is room for it.
proof fn next_chunk_is_awaited(
    t: TransfersView,
    id: Seq<u8>,
    offer: OfferView,
    path: Seq<char>,
    pieces: Seq<Seq<u8>>,
    stored: Seq<u64>,
    i: int,
)
    requires
        stored.len() == pieces.len(),
        offer.size == assembled(pieces).len(),
        orderly(t),
        lookup(t.active, id) == Some(fresh_incoming(offer, path)),
        0 <= i < pieces.len(),
    ensures
        chunk_verdict(
            received(t, id, pieces.take(i), stored.take(i)),
            offer.peer_id,
            id,
            seq_after(i as nat),
            pieces[i].len(),
        ) == VerdictView::Write,
{
    assembled_grows(pieces, i);
    assembled_grows(pieces, i + 1);
    assert(pieces.take(i + 1).drop_last() =~= pieces.take(i));
    assert(assembled(pieces.take(i + 1)) == assembled(pieces.take(i)) + pieces[i]);
    received_is_fed(t, id, fresh_incoming(offer, path), pieces.take(i), stored.take(i));
    chunks_add_up(offer, path, pieces.take(i), stored.take(i));
}

/// Once all pieces are stored, the file is whole and is reported as done.
proof fn a_whole_file_is_done(
    t: TransfersView,
    id: Seq<u8>,
    offer: OfferView,
    path: Seq<char>,
    pieces: Seq<Seq<u8>>,
    stored: Seq<u64>,
    transfer: Seq<char>,
    ts: i64,
)
    requires
        stored.len() == pieces.len(),
        offer.size == assembled(pieces).len(),
        offer.sha256 == hex_text(sha256(assembled(pieces))),
        orderly(t),
        lookup(t.active, id) == Some(fresh_incoming(offer, path)),
    ensures
        ({
            let after = received(t, id, pieces, stored);
            &&& lookup(after.active, id) matches Some(a) && a.data == assembled(pieces) && a.path
                == path
            &&& completed(after, id, transfer, ts).actions == seq![
                ActionView::CloseFile { transfer: id },
                ActionView::Emit(
                    EventView::FileFinished {
                        transfer,
                        name: offer.name,
                        incoming: true,
                        ok: true,
                        detail: "saved to "@ + path,
                    },
                ),
            ]
        }),
{
    received_is_fed(t, id, fresh_incoming(offer, path), pieces, stored);
    chunks_add_up(offer, path, pieces, stored);
}

/// An accepted file arrives byte for byte. Whatever pieces the sender cuts it
/// into, each chunk it sends is the one that the recipient waits for, so it is
/// written; and once all of them are, what is on disk is the file, of the size
/// and the checksum that were offered, and the transfer is reported as done.
pub proof fn a_file_arrives_byte_for_byte(
    up: UploadView,
    offer: OfferView,
    path: Seq<char>,
    pieces: Seq<Seq<u8>>,
    sent: Seq<u64>,
    stored: Seq<u64>,
    t: TransfersView,
    transfer: Seq<char>,
    ts: i64,
)
    requires
        sent.len() == pieces.len(),
        stored.len() == pieces.len(),
        up.sent == 0,
        up.seq == 0,
        offer.size == assembled(pieces).len(),
        offer.sha256 == hex_text(sha256(assembled(pieces))),
        orderly(t),
        lookup(t.active, up.id) == Some(fresh_incoming(offer, path)),
    ensures
        forall|i: int|
            0 <= i < pieces.len() ==> chunk_verdict(
                received(t, up.id, pieces.take(i), stored.take(i)),
                offer.peer_id,
                up.id,
                uploaded(up, pieces.take(i), sent.take(i)).seq,
                (#[trigger] pieces[i]).len(),
            ) == VerdictView::Write,
        ({
            let after = received(t, up.id, pieces, stored);
            &&& lookup(after.active, up.id) matches Some(a) && a.data == assembled(pieces)
                && a.path == path
            &&& completed(after, up.id, transfer, ts).actions == seq![
                ActionView::CloseFile { transfer: up.id },
                ActionView::Emit(
                    EventView::FileFinished {
                        transfer,
                        name: offer.name,
                        incoming: true,
                        ok: true,
                        detail: "saved to "@ + path,
                    },
                ),
            ]
        }),
{
    assert forall|i: int| 0 <= i < pieces.len() implies chunk_verdict(
        received(t, up.id, pieces.take(i), stored.take(i)),
        offer.peer_id,
        up.id,
        uploaded(up, pieces.take(i), sent.take(i)).seq,
        (#[trigger] pieces[i]).len(),
    ) == VerdictView::Write by {
        next_chunk_is_numbered(up, pieces, sent, i);
        next_chunk_is_awaited(t, up.id, offer, path, pieces, stored, i);
    }
    a_whole_file_is_done(t, up.id, offer, path, pieces, stored, transfer, ts);
}

/// Nothing is written that the recipient did not ask for: a chunk of a
/// transfer that was not accepted, or that comes from anyone but its sender, is
/// ignored; and no message from a peer makes a transfer accepted.
pub proof fn nothing_is_written_unasked(
    t: TransfersView,
    id: Seq<u8>,
    peer_id: Seq<char>,
    seq: u32,
    len: nat,
    from: PeerInfoView,
    c: ControlView,
    ts: i64,
)
    requires
        orderly(t),
    ensures
        !has_key(t.active, id) ==> {
            &&& chunk_verdict(t, peer_id, id, seq, len) == VerdictView::Ignore
            &&& !has_key(file_control(t, from, c, ts).transfers.active, id)
        },
        lookup(t.active, id) matches Some(a) && a.peer_id != peer_id ==> chunk_verdict(
            t,
            peer_id,
            id,
            seq,
            len,
        ) == VerdictView::Ignore,
{
    if !has_key(t.active, id) {
        let o = match c {
            ControlView::FileDone { transfer } => id_in(transfer),
            ControlView::FileAbort { transfer, .. } => id_in(transfer),
            _ => Err(ErrorView::Protocol(seq![])),
        };
        if let Ok(other) = o {
            without_is_gone(t.active, other);
            if other != id {
                assert(lookup(without(t.active, other), id) == lookup(t.active, id));
            }
        }
    }
}

/// A transfer that is cut short, or whose bytes do not have the checksum that
/// was offered, is reported as failed and leaves nothing in the transcript.
pub proof fn damage_is_reported(
    t: TransfersView,
    id: Seq<u8>,
    transfer: Seq<char>,
    ts: i64,
    a: ActiveView,
)
    requires
        lookup(t.active, id) == Some(a),
        in_step(a),
        a.data.len() != a.size || hex_text(sha256(a.data)) != a.expect_sha,
    ensures
        completed(t, id, transfer, ts).records == Seq::<RecordView>::empty(),
        completed(t, id, transfer, ts).actions.last() == ActionView::Emit(
            EventView::FileFinished {
                transfer,
                name: a.name,
                incoming: true,
                ok: false,
                detail: arrival_text(a),
            },
        ),
{
}

proof fn without_peer_distinct<V: OfPeer>(rows: Seq<(Seq<u8>, V::V)>, peer_id: Seq<char>)
    requires
        distinct(rows),
    ensures
        distinct(without_peer::<V>(rows, peer_id)),
        forall|i: int|
            0 <= i < without_peer::<V>(rows, peer_id).len() ==> rows.contains(
                #[trigger] without_peer::<V>(rows, peer_id)[i],
            ),
{
    filter_distinct(rows, not_theirs::<V>(peer_id));
}

proof fn put_in_step(s: Seq<(Seq<u8>, ActiveView)>, id: Seq<u8>, a: ActiveView)
    requires
        distinct(s),
        in_step(a),
        forall|i: int| 0 <= i < s.len() ==> in_step((#[trigger] s[i]).1),
    ensures
        distinct(put(s, id, a)),
        forall|i: int| 0 <= i < put(s, id, a).len() ==> in_step((#[trigger] put(s, id, a)[i]).1),
{
    put_is_found(s, id, a);
    row_of_is_row(s, id);
    let p = put(s, id, a);
    assert forall|i: int| 0 <= i < p.len() implies in_step((#[trigger] p[i]).1) by {
        if i < s.len() {
            assert(in_step(s[i].1));
        }
    }
}

proof fn without_in_step(s: Seq<(Seq<u8>, ActiveView)>, id: Seq<u8>)
    requires
        distinct(s),
        forall|i: int| 0 <= i < s.len() ==> in_step((#[trigger] s[i]).1),
    ensures
        distinct(without(s, id)),
        forall|i: int| 0 <= i < without(s, id).len() ==> in_step((#[trigger] without(s, id)[i]).1),
{
    without_is_gone(s, id);
    row_of_is_row(s, id);
    let at = row_of(s, id);
    let w = without(s, id);
    assert forall|i: int| 0 <= i < w.len() implies in_step((#[trigger] w[i]).1) by {
        if at < 0 || i < at {
            assert(in_step(s[i].1));
        } else {
            assert(in_step(s[i + 1].1));
        }
    }
}

/// Whatever message comes from a peer, the transfers stay in order.
pub proof fn messages_keep_order(t: TransfersView, from: PeerInfoView, c: ControlView, ts: i64)
    requires
        orderly(t),
    ensures
        orderly(file_control(t, from, c, ts).transfers),
{
    match c {
        ControlView::FileOffer { transfer, name, size, sha256 } => {
            if let Ok(id) = id_in(transfer) {
                put_is_found(
                    t.offers,
                    id,
                    OfferView {
                        peer_id: from.id,
                        peer_name: from.name,
                        name: safe_name(name),
                        size,
                        sha256,
                    },
                );
            }
        },
        ControlView::FileDone { transfer } => {
            if let Ok(id) = id_in(transfer) {
                without_in_step(t.active, id);
            }
        },
        ControlView::FileAbort { transfer, reason } => {
            if let Ok(id) = id_in(transfer) {
                without_is_gone(t.offers, id);
                without_in_step(t.active, id);
            }
        },
        _ => {},
    }
}

/// A chunk that may be written, refused or cut off with its peer leaves the
/// transfers in order: in particular nothing beyond the size that was offered
/// is ever written.
pub proof fn chunks_keep_order(
    t: TransfersView,
    peer_id: Seq<char>,
    id: Seq<u8>,
    seq: u32,
    data: Seq<u8>,
    now: u64,
    link: u64,
    reason: Seq<char>,
)
    requires
        orderly(t),
    ensures
        chunk_verdict(t, peer_id, id, seq, data.len()) == VerdictView::Write ==> orderly(
            chunk_stored(t, id, data, now).transfers,
        ),
        orderly(chunk_refused(t, link, id, reason).transfers),
        orderly(cancelled(t, peer_id).transfers),
{
    row_of_is_row(t.active, id);
    without_in_step(t.active, id);
    if let Some(a) = lookup(t.active, id) {
        assert(in_step(t.active[row_of(t.active, id)].1));
        if a.got + data.len() <= a.size {
            put_in_step(t.active, id, grown(a, data, now));
        }
    }
    without_peer_distinct::<ActiveIn>(t.active, peer_id);
    without_peer_distinct::<PendingOffer>(t.offers, peer_id);
    without_peer_distinct::<String>(t.outgoing, peer_id);
    let kept = without_peer::<ActiveIn>(t.active, peer_id);
    assert forall|i: int| 0 <= i < kept.len() implies in_step((#[trigger] kept[i]).1) by {
        assert(t.active.contains(kept[i]));
        let j = choose|j: int| 0 <= j < t.active.len() && t.active[j] == kept[i];
        assert(in_step(t.active[j].1));
    }
}

/// Starting and ending transfers leaves them in order.
pub proof fn starts_and_ends_keep_order(
    t: TransfersView,
    id: Seq<u8>,
    peer_id: Seq<char>,
    offer: OfferView,
    path: Seq<char>,
)
    requires
        orderly(t),
    ensures
        orderly(no_transfers()),
        orderly(TransfersView { outgoing: put(t.outgoing, id, peer_id), ..t }),
        orderly(TransfersView { outgoing: without(t.outgoing, id), ..t }),
        orderly(TransfersView { offers: without(t.offers, id), ..t }),
        orderly(
            TransfersView { active: put(t.active, id, fresh_incoming(offer, path)), ..t },
        ),
{
    put_is_found(t.outgoing, id, peer_id);
    without_is_gone(t.outgoing, id);
    without_is_gone(t.offers, id);
    put_in_step(t.active, id, fresh_incoming(offer, path));
}

} // verus!
