//! What the window shows.
//!
//! The front end draws what stands here and reports what the user does; every
//! decision about it is made here. The engine's events come in one at a time
//! and change the lists, the notices and the screen that is shown.

use vstd::prelude::*;

use crate::clock::{elapsed, since, SECOND};
use crate::error::Error;
use crate::events::{state_text, Event, EventView, PeerState};
use crate::mesh::DEFAULT_CODE_TTL;
use crate::names::{human_size, size_text};
use crate::protocol::{fmt_clock, now_ts};
use crate::text::{
    cat, cat3, cat4, cat5, chars_of, dec, dec_text, same_text, slice_text, trim_text, trimmed,
};
use crate::transport::{kind_named, TransportKind};
use crate::views::each;

verus! {

/// Upper bound on events handled per tick, so a burst cannot freeze the frame.
pub const MAX_EVENTS_PER_TICK: usize = 256;

/// Transcript cap held in the list view (the full history stays in the node).
pub const MAX_VISIBLE_MESSAGES: usize = 2000;

// --- rows --------------------------------------------------------------------------

pub struct MessageRow {
    pub who: String,
    pub time: String,
    pub body: String,
    pub mine: bool,
    pub system: bool,
}

#[verifier::ext_equal]
pub struct MessageRowView {
    pub who: Seq<char>,
    pub time: Seq<char>,
    pub body: Seq<char>,
    pub mine: bool,
    pub system: bool,
}

impl View for MessageRow {
    type V = MessageRowView;

    open spec fn view(&self) -> MessageRowView {
        MessageRowView {
            who: self.who@,
            time: self.time@,
            body: self.body@,
            mine: self.mine,
            system: self.system,
        }
    }
}

pub struct PeerRow {
    pub id: String,
    pub name: String,
    pub status: String,
    pub detail: String,
}

#[verifier::ext_equal]
pub struct PeerRowView {
    pub id: Seq<char>,
    pub name: Seq<char>,
    pub status: Seq<char>,
    pub detail: Seq<char>,
}

impl View for PeerRow {
    type V = PeerRowView;

    open spec fn view(&self) -> PeerRowView {
        PeerRowView {
            id: self.id@,
            name: self.name@,
            status: self.status@,
            detail: self.detail@,
        }
    }
}

pub struct RequestRow {
    pub req: String,
    pub name: String,
    pub addr: String,
    pub fingerprint: String,
}

#[verifier::ext_equal]
pub struct RequestRowView {
    pub req: Seq<char>,
    pub name: Seq<char>,
    pub addr: Seq<char>,
    pub fingerprint: Seq<char>,
}

impl View for RequestRow {
    type V = RequestRowView;

    open spec fn view(&self) -> RequestRowView {
        RequestRowView {
            req: self.req@,
            name: self.name@,
            addr: self.addr@,
            fingerprint: self.fingerprint@,
        }
    }
}

/// A transfer and how far it has come: `done` of `total`, nothing of nothing
/// being no progress.
pub struct TransferRow {
    pub id: String,
    pub label: String,
    pub done: u64,
    pub total: u64,
    pub state: String,
}

#[verifier::ext_equal]
pub struct TransferRowView {
    pub id: Seq<char>,
    pub label: Seq<char>,
    pub done: u64,
    pub total: u64,
    pub state: Seq<char>,
}

impl View for TransferRow {
    type V = TransferRowView;

    open spec fn view(&self) -> TransferRowView {
        TransferRowView {
            id: self.id@,
            label: self.label@,
            done: self.done,
            total: self.total,
            state: self.state@,
        }
    }
}

/// A row that is found by a name.
pub trait Row: View + Sized {
    spec fn name_of(v: Self::V) -> Seq<char>;

    fn row_name(&self) -> (r: &String)
        ensures
            r@ == Self::name_of(self@),
    ;
}

impl Row for PeerRow {
    open spec fn name_of(v: PeerRowView) -> Seq<char> {
        v.id
    }

    fn row_name(&self) -> (r: &String) {
        &self.id
    }
}

impl Row for RequestRow {
    open spec fn name_of(v: RequestRowView) -> Seq<char> {
        v.req
    }

    fn row_name(&self) -> (r: &String) {
        &self.req
    }
}

impl Row for TransferRow {
    open spec fn name_of(v: TransferRowView) -> Seq<char> {
        v.id
    }

    fn row_name(&self) -> (r: &String) {
        &self.id
    }
}

/// Where the first row of that name stands, or -1.
pub open spec fn first_row<R: Row>(rows: Seq<R::V>, name: Seq<char>) -> int
    decreases rows.len(),
{
    if rows.len() == 0 {
        -1
    } else if R::name_of(rows[0]) == name {
        0
    } else {
        let i = first_row::<R>(rows.skip(1), name);
        if i < 0 {
            -1
        } else {
            i + 1
        }
    }
}

/// `rows` with `row` in the place of the first row of its name, or at the end.
pub open spec fn upserted<R: Row>(rows: Seq<R::V>, row: R::V) -> Seq<R::V> {
    let i = first_row::<R>(rows, R::name_of(row));
    if i < 0 {
        rows.push(row)
    } else {
        rows.update(i, row)
    }
}

/// `rows` without the first row of that name.
pub open spec fn row_removed<R: Row>(rows: Seq<R::V>, name: Seq<char>) -> Seq<R::V> {
    let i = first_row::<R>(rows, name);
    if i < 0 {
        rows
    } else {
        rows.remove(i)
    }
}

fn find_row<R: Row>(rows: &Vec<R>, name: &str) -> (r: Option<usize>)
    ensures
        match r {
            Some(i) => i < rows@.len() && i == first_row::<R>(each(rows@), name@),
            None => first_row::<R>(each(rows@), name@) < 0,
        },
{
    let ghost all = each(rows@);
    let mut i: usize = 0;
    assert(all.skip(0) =~= all);
    while i < rows.len()
        invariant
            i <= rows@.len(),
            all == each(rows@),
            ({
                let rest = first_row::<R>(all.skip(i as int), name@);
                first_row::<R>(all, name@) == if rest < 0 {
                    -1
                } else {
                    rest + i
                }
            }),
        decreases rows@.len() - i,
    {
        assert(all.skip(i as int)[0] == rows@[i as int]@);
        if same_text(rows[i].row_name(), name) {
            return Some(i);
        }
        assert(all.skip(i as int).skip(1) =~= all.skip(i + 1));
        i += 1;
    }
    None
}

fn upsert<R: Row>(rows: &mut Vec<R>, row: R)
    ensures
        each(final(rows)@) == upserted::<R>(each(old(rows)@), row@),
{
    let found = find_row(rows, row.row_name());
    match found {
        Some(i) => {
            rows.set(i, row);
        },
        None => {
            rows.push(row);
        },
    }
    assert(each(rows@) =~= upserted::<R>(each(old(rows)@), row@));
}

fn remove_row<R: Row>(rows: &mut Vec<R>, name: &str)
    ensures
        each(final(rows)@) == row_removed::<R>(each(old(rows)@), name@),
{
    if let Some(i) = find_row(rows, name) {
        rows.remove(i);
    }
    assert(each(rows@) =~= row_removed::<R>(each(old(rows)@), name@));
}

// --- the screen -----------------------------------------------------------------------

/// Which screen is shown.
#[derive(Clone, Copy, Debug, PartialEq, Eq, Structural)]
pub enum Page {
    Setup,
    Room,
}

pub struct Screen {
    pub page: Page,
    pub busy: bool,
    pub is_host: bool,
    pub room_code: String,
    pub room_addr: String,
    pub transport_label: String,
    pub my_fingerprint: String,
    pub status_line: String,
    pub error_line: String,
    pub expiry_note: String,
    pub draft: String,
    pub messages: Vec<MessageRow>,
    pub peers: Vec<PeerRow>,
    pub requests: Vec<RequestRow>,
    pub transfers: Vec<TransferRow>,
    /// Incoming file offers waiting for an Accept/Decline decision, each with
    /// its text.
    pub offers: Vec<(String, String)>,
    /// When the room code stops accepting new joiners (host only).
    pub expires_at: Option<u64>,
    /// Goes up whenever the transcript is to be scrolled to its end.
    pub scroll_tick: u32,
}

#[verifier::ext_equal]
pub struct ScreenView {
    pub page: Page,
    pub busy: bool,
    pub is_host: bool,
    pub room_code: Seq<char>,
    pub room_addr: Seq<char>,
    pub transport_label: Seq<char>,
    pub my_fingerprint: Seq<char>,
    pub status_line: Seq<char>,
    pub error_line: Seq<char>,
    pub expiry_note: Seq<char>,
    pub draft: Seq<char>,
    pub messages: Seq<MessageRowView>,
    pub peers: Seq<PeerRowView>,
    pub requests: Seq<RequestRowView>,
    pub transfers: Seq<TransferRowView>,
    pub offers: Seq<(Seq<char>, Seq<char>)>,
    pub expires_at: Option<u64>,
    pub scroll_tick: u32,
}

impl View for Screen {
    type V = ScreenView;

    open spec fn view(&self) -> ScreenView {
        ScreenView {
            page: self.page,
            busy: self.busy,
            is_host: self.is_host,
            room_code: self.room_code@,
            room_addr: self.room_addr@,
            transport_label: self.transport_label@,
            my_fingerprint: self.my_fingerprint@,
            status_line: self.status_line@,
            error_line: self.error_line@,
            expiry_note: self.expiry_note@,
            draft: self.draft@,
            messages: each(self.messages@),
            peers: each(self.peers@),
            requests: each(self.requests@),
            transfers: each(self.transfers@),
            offers: each(self.offers@),
            expires_at: self.expires_at,
            scroll_tick: self.scroll_tick,
        }
    }
}

/// The screen at start-up.
pub open spec fn blank() -> ScreenView {
    ScreenView {
        page: Page::Setup,
        busy: false,
        is_host: false,
        room_code: Seq::empty(),
        room_addr: Seq::empty(),
        transport_label: Seq::empty(),
        my_fingerprint: Seq::empty(),
        status_line: "Pick a connection mode, then host or join a room."@,
        error_line: Seq::empty(),
        expiry_note: Seq::empty(),
        draft: Seq::empty(),
        messages: Seq::empty(),
        peers: Seq::empty(),
        requests: Seq::empty(),
        transfers: Seq::empty(),
        offers: Seq::empty(),
        expires_at: None,
        scroll_tick: 0,
    }
}

/// A screen whose lists are empty again.
pub open spec fn emptied(v: ScreenView) -> ScreenView {
    ScreenView {
        messages: Seq::empty(),
        peers: Seq::empty(),
        requests: Seq::empty(),
        transfers: Seq::empty(),
        offers: Seq::empty(),
        expires_at: None,
        ..v
    }
}

/// A list of messages with one more at the end; the oldest goes when there are
/// too many.
pub open spec fn with_message(rows: Seq<MessageRowView>, row: MessageRowView) -> Seq<
    MessageRowView,
> {
    if rows.len() >= MAX_VISIBLE_MESSAGES {
        rows.remove(0).push(row)
    } else {
        rows.push(row)
    }
}

/// A line that is no chat message.
pub open spec fn system_row(time: Seq<char>, text: Seq<char>) -> MessageRowView {
    MessageRowView { who: ""@, time, body: text, mine: false, system: true }
}

pub open spec fn with_system(v: ScreenView, time: Seq<char>, text: Seq<char>) -> ScreenView {
    ScreenView { messages: with_message(v.messages, system_row(time, text)), ..v }
}

/// The prompt for the oldest offer, `(id, text)`, or an empty one.
pub open spec fn offer_prompt(v: ScreenView) -> (Seq<char>, Seq<char>) {
    if v.offers.len() == 0 {
        (""@, ""@)
    } else {
        v.offers[0]
    }
}

/// Whether a transfer row says where a file comes from or goes to.
pub open spec fn toward(incoming: bool) -> Seq<char> {
    if incoming {
        "from"@
    } else {
        "to"@
    }
}

pub open spec fn happened(incoming: bool) -> Seq<char> {
    if incoming {
        "received"@
    } else {
        "sent"@
    }
}

/// The screen once the engine has reported `ev`, and whether the transcript
/// gained a line. `time` is the time for that line.
pub open spec fn shown(
    v: ScreenView,
    ev: EventView,
    time: Seq<char>,
    fingerprint: Seq<char>,
    now: u64,
) -> (ScreenView, bool) {
    match ev {
        EventView::Status(text) => (ScreenView { status_line: text, ..v }, false),
        EventView::System(text) => (with_system(v, time, text), true),
        EventView::RoomOpened { code, transport, dial, expires_secs } => (
            ScreenView {
                expires_at: Some((now + expires_secs * 1_000_000_000) as u64),
                is_host: true,
                room_code: code,
                room_addr: dial,
                transport_label: transport,
                page: Page::Room,
                busy: false,
                status_line: "Room open. Share the code; every joiner needs your approval."@,
                my_fingerprint: fingerprint,
                ..v
            },
            false,
        ),
        EventView::Joined { room, transport } => (
            ScreenView {
                is_host: false,
                room_code: room,
                transport_label: transport,
                page: Page::Room,
                busy: false,
                expiry_note: ""@,
                status_line: "Approved - you are in the room."@,
                my_fingerprint: fingerprint,
                ..v
            },
            false,
        ),
        EventView::JoinRequest { req, name, addr, fingerprint: theirs } => (
            ScreenView {
                requests: v.requests.push(RequestRowView { req, name, addr, fingerprint: theirs }),
                status_line: name + " wants to join - accept or decline below."@,
                ..v
            },
            false,
        ),
        EventView::JoinResolved { req, accepted } => (
            ScreenView {
                requests: row_removed::<RequestRow>(v.requests, req),
                status_line: if accepted {
                    "Joiner accepted."@
                } else {
                    "Joiner declined."@
                },
                ..v
            },
            false,
        ),
        EventView::Peer { id, name, state, detail } => (
            ScreenView {
                peers: upserted::<PeerRow>(
                    v.peers,
                    PeerRowView { id, name, status: state_text(state), detail },
                ),
                error_line: if state == PeerState::Failed && detail.len() > 0 {
                    name + ": "@ + detail
                } else {
                    v.error_line
                },
                ..v
            },
            false,
        ),
        EventView::Chat { from, name, ts, body, mine } => (
            ScreenView {
                messages: with_message(
                    v.messages,
                    MessageRowView { who: name, time, body, mine, system: false },
                ),
                ..v
            },
            true,
        ),
        EventView::FileOffer { transfer, from, name, size } => (
            ScreenView {
                offers: v.offers.push((transfer, name + " ("@ + size_text(size) + ")"@)),
                ..v
            },
            false,
        ),
        EventView::FileProgress { transfer, name, peer, done, total, incoming } => (
            ScreenView {
                transfers: upserted::<TransferRow>(
                    v.transfers,
                    TransferRowView {
                        id: transfer,
                        label: name + " "@ + toward(incoming) + " "@ + peer,
                        done,
                        total,
                        state: size_text(done) + " / "@ + size_text(total),
                    },
                ),
                ..v
            },
            false,
        ),
        EventView::FileFinished { transfer, name, incoming, ok, detail } => (
            with_system(
                ScreenView {
                    transfers: upserted::<TransferRow>(
                        v.transfers,
                        TransferRowView {
                            id: transfer,
                            label: name + " ("@ + happened(incoming) + ")"@,
                            done: if ok {
                                1
                            } else {
                                0
                            },
                            total: 1,
                            state: if detail.len() > 0 {
                                detail
                            } else if ok {
                                "Done"@
                            } else {
                                "Failed"@
                            },
                        },
                    ),
                    ..v
                },
                time,
                if ok {
                    "File "@ + happened(incoming) + ": "@ + name + ". "@ + detail
                } else {
                    "File transfer failed: "@ + name + ". "@ + detail
                },
            ),
            true,
        ),
        EventView::Error(text) => (ScreenView { error_line: text, ..v }, false),
        EventView::RoomClosed(reason) => (
            ScreenView {
                peers: Seq::empty(),
                requests: Seq::empty(),
                expires_at: None,
                expiry_note: ""@,
                status_line: reason,
                ..with_system(v, time, "Room closed: "@ + reason)
            },
            true,
        ),
    }
}

/// What is said about the code when it goes on for `left` more seconds.
pub open spec fn countdown(left: nat) -> Seq<char> {
    if left == 0 {
        "Code expired - new joiners are refused. Press Reopen to accept more."@
    } else if left >= 60 {
        "Code accepts joiners for another "@ + dec((left + 59) / 60) + " min"@
    } else {
        "Code accepts joiners for another "@ + dec(left) + "s"@
    }
}

/// The note about the code at `now`.
pub open spec fn expiry_text(expires_at: Option<u64>, now: u64) -> Seq<char> {
    match expires_at {
        None => ""@,
        Some(t) => countdown(since(t, now) / 1_000_000_000),
    }
}

/// `"report.pdf (1.2 MB)"` -> `"report.pdf"`: what stands before the last
/// `" ("`.
pub open spec fn offered_name(text: Seq<char>) -> Seq<char> {
    let i = last_bracket(text);
    if i < 0 {
        text
    } else {
        text.take(i)
    }
}

/// Where the last `" ("` of `s` stands, or -1.
pub open spec fn last_bracket(s: Seq<char>) -> int
    decreases s.len(),
{
    if s.len() < 2 {
        -1
    } else if s[s.len() - 2] == ' ' && s.last() == '(' {
        s.len() - 2
    } else {
        last_bracket(s.drop_last())
    }
}

/// What [`fmt_clock`] writes for a time stamp.
pub open spec fn clock_time(ts: i64, text: Seq<char>) -> bool {
    exists|t: String| #[trigger] call_ensures(fmt_clock, (ts,), t) && t@ == text
}

/// The time that stands on the line for an event: when it was written, for a
/// chat line, and the present for any other.
pub open spec fn line_time(ev: EventView, text: Seq<char>) -> bool {
    exists|ts: i64| #[trigger]
        clock_time(ts, text) && match ev {
            EventView::Chat { ts: written, .. } => ts == written,
            _ => call_ensures(now_ts, (), ts),
        }
}

/// Whether the clock reaches the moment at which a room that opens at `now`
/// expires.
pub open spec fn in_time(ev: EventView, now: u64) -> bool {
    ev matches EventView::RoomOpened { expires_secs, .. } ==> now + expires_secs * 1_000_000_000
        <= u64::MAX
}

/// The screen after these events, each line with its time, and whether the
/// transcript gained a line.
pub open spec fn shown_all(
    v: ScreenView,
    events: Seq<EventView>,
    times: Seq<Seq<char>>,
    fingerprint: Seq<char>,
    now: u64,
) -> (ScreenView, bool)
    decreases events.len(),
{
    if events.len() == 0 {
        (v, false)
    } else {
        let (before, gained) = shown_all(
            v,
            events.drop_last(),
            times.drop_last(),
            fingerprint,
            now,
        );
        let (after, more) = shown(before, events.last(), times.last(), fingerprint, now);
        (after, gained || more)
    }
}

/// The screen after a tick with these events: it scrolls to a new line, and
/// the countdown goes on.
pub open spec fn ticked(
    v: ScreenView,
    events: Seq<EventView>,
    times: Seq<Seq<char>>,
    fingerprint: Seq<char>,
    now: u64,
) -> ScreenView {
    let (after, gained) = shown_all(v, events, times, fingerprint, now);
    ScreenView {
        scroll_tick: if gained {
            after.scroll_tick.wrapping_add(1)
        } else {
            after.scroll_tick
        },
        expiry_note: expiry_text(after.expires_at, now),
        ..after
    }
}

/// Whether a tick with these events leads to this screen.
pub open spec fn tick_shows(
    v: ScreenView,
    events: Seq<EventView>,
    fingerprint: Seq<char>,
    now: u64,
    after: ScreenView,
) -> bool {
    exists|times: Seq<Seq<char>>|
        times.len() == events.len() && (forall|i: int|
            0 <= i < events.len() ==> line_time(events[i], #[trigger] times[i])) && after
            == #[trigger] ticked(v, events, times, fingerprint, now)
}

/// How many of the waiting events one tick handles.
pub open spec fn per_tick(waiting: nat) -> nat {
    if waiting > MAX_EVENTS_PER_TICK {
        MAX_EVENTS_PER_TICK as nat
    } else {
        waiting
    }
}

/// The name to suggest for a file that is on offer.
pub fn suggested_name(text: &str) -> (r: String)
    ensures
        r@ == offered_name(text@),
{
    let v = chars_of(text);
    let mut n: usize = v.len();
    assert(v@.take(n as int) =~= v@);
    while n >= 2
        invariant
            n <= v@.len(),
            v@ == text@,
            last_bracket(v@) == last_bracket(v@.take(n as int)),
        decreases n,
    {
        if v[n - 2] == ' ' && v[n - 1] == '(' {
            let r = slice_text(&v, 0, n - 2);
            assert(r@ =~= text@.take(n - 2));
            return r;
        }
        assert(v@.take(n as int).drop_last() =~= v@.take(n - 1));
        n -= 1;
    }
    text.to_owned()
}

fn empty_rows<R: View>() -> (r: Vec<R>)
    ensures
        each(r@) == Seq::<R::V>::empty(),
{
    let r: Vec<R> = Vec::new();
    assert(each(r@) =~= Seq::<R::V>::empty());
    r
}

impl Screen {
    pub fn new() -> (r: Self)
        ensures
            r@ == blank(),
    {
        let r = Screen {
            page: Page::Setup,
            busy: false,
            is_host: false,
            room_code: String::new(),
            room_addr: String::new(),
            transport_label: String::new(),
            my_fingerprint: String::new(),
            status_line: "Pick a connection mode, then host or join a room.".to_owned(),
            error_line: String::new(),
            expiry_note: String::new(),
            draft: String::new(),
            messages: empty_rows(),
            peers: empty_rows(),
            requests: empty_rows(),
            transfers: empty_rows(),
            offers: empty_rows(),
            expires_at: None,
            scroll_tick: 0,
        };
        assert(r@ =~= blank());
        r
    }

    pub fn reset_models(&mut self)
        ensures
            final(self)@ == emptied(old(self)@),
    {
        self.messages = empty_rows();
        self.peers = empty_rows();
        self.requests = empty_rows();
        self.transfers = empty_rows();
        self.offers = empty_rows();
        self.expires_at = None;
    }

    pub fn push_message(&mut self, row: MessageRow)
        ensures
            final(self)@ == (ScreenView {
                messages: with_message(old(self)@.messages, row@),
                ..old(self)@
            }),
    {
        if self.messages.len() >= MAX_VISIBLE_MESSAGES {
            self.messages.remove(0);
        }
        self.messages.push(row);
        assert(each(self.messages@) =~= with_message(old(self)@.messages, row@));
    }

    pub fn push_system(&mut self, time: &str, text: &str)
        ensures
            final(self)@ == with_system(old(self)@, time@, text@),
    {
        let row = MessageRow {
            who: "".to_owned(),
            time: time.to_owned(),
            body: text.to_owned(),
            mine: false,
            system: true,
        };
        assert(row@ == system_row(time@, text@));
        self.push_message(row);
    }

    pub fn upsert_peer(&mut self, id: &str, name: &str, status: &str, detail: &str)
        ensures
            final(self)@ == (ScreenView {
                peers: upserted::<PeerRow>(
                    old(self)@.peers,
                    PeerRowView { id: id@, name: name@, status: status@, detail: detail@ },
                ),
                ..old(self)@
            }),
    {
        upsert(
            &mut self.peers,
            PeerRow {
                id: id.to_owned(),
                name: name.to_owned(),
                status: status.to_owned(),
                detail: detail.to_owned(),
            },
        );
    }

    pub fn remove_request(&mut self, req: &str)
        ensures
            final(self)@ == (ScreenView {
                requests: row_removed::<RequestRow>(old(self)@.requests, req@),
                ..old(self)@
            }),
    {
        remove_row(&mut self.requests, req);
    }

    pub fn upsert_transfer(&mut self, id: &str, label: &str, done: u64, total: u64, state: &str)
        ensures
            final(self)@ == (ScreenView {
                transfers: upserted::<TransferRow>(
                    old(self)@.transfers,
                    TransferRowView { id: id@, label: label@, done, total, state: state@ },
                ),
                ..old(self)@
            }),
    {
        upsert(
            &mut self.transfers,
            TransferRow {
                id: id.to_owned(),
                label: label.to_owned(),
                done,
                total,
                state: state.to_owned(),
            },
        );
    }

    /// Show an event of the engine that comes in at `now`. True when the
    /// transcript gained a line.
    pub fn handle_event(&mut self, ev: Event, fingerprint: &str, now: u64) -> (r: bool)
        requires
            in_time(ev@, now),
        ensures
            exists|time: Seq<char>| #[trigger]
                line_time(ev@, time) && (final(self)@, r) == shown(
                    old(self)@,
                    ev@,
                    time,
                    fingerprint@,
                    now,
                ),
    {
        let ts: i64 = match &ev {
            Event::Chat { ts, .. } => *ts,
            _ => {
                let present: i64 = now_ts();
                assert(call_ensures(now_ts, (), present));
                present
            },
        };
        let time = fmt_clock(ts);
        assert(clock_time(ts, time@));
        assert(match ev@ {
            EventView::Chat { ts: written, .. } => ts == written,
            _ => call_ensures(now_ts, (), ts),
        });
        assert(line_time(ev@, time@));
        self.show(ev, &time, fingerprint, now)
    }

    /// Show an event of the engine; `time` is the time for its line.
    pub fn show(&mut self, ev: Event, time: &str, fingerprint: &str, now: u64) -> (r: bool)
        requires
            in_time(ev@, now),
        ensures
            (final(self)@, r) == shown(old(self)@, ev@, time@, fingerprint@, now),
    {
        match ev {
            Event::Status(text) => {
                self.status_line = text;
                false
            },
            Event::System(text) => {
                self.push_system(time, &text);
                true
            },
            Event::RoomOpened { code, transport, dial, expires_secs } => {
                self.expires_at = Some(now + expires_secs * SECOND);
                self.is_host = true;
                self.room_code = code;
                self.room_addr = dial;
                self.transport_label = transport;
                self.page = Page::Room;
                self.busy = false;
                self.status_line =
                "Room open. Share the code; every joiner needs your approval.".to_owned();
                self.my_fingerprint = fingerprint.to_owned();
                false
            },
            Event::Joined { room, transport } => {
                self.is_host = false;
                self.room_code = room;
                self.transport_label = transport;
                self.page = Page::Room;
                self.busy = false;
                self.expiry_note = "".to_owned();
                self.status_line = "Approved - you are in the room.".to_owned();
                self.my_fingerprint = fingerprint.to_owned();
                false
            },
            Event::JoinRequest { req, name, addr, fingerprint: theirs } => {
                self.status_line = cat(&name, " wants to join - accept or decline below.");
                let row = RequestRow { req, name, addr, fingerprint: theirs };
                let ghost added = row@;
                self.requests.push(row);
                assert(each(self.requests@) =~= old(self)@.requests.push(added));
                false
            },
            Event::JoinResolved { req, accepted } => {
                self.remove_request(&req);
                self.status_line = if accepted {
                    "Joiner accepted.".to_owned()
                } else {
                    "Joiner declined.".to_owned()
                };
                false
            },
            Event::Peer { id, name, state, detail } => {
                self.upsert_peer(&id, &name, state.as_str(), &detail);
                if state == PeerState::Failed && chars_of(&detail).len() > 0 {
                    self.error_line = cat3(&name, ": ", &detail);
                }
                false
            },
            Event::Chat { from: _, name, ts: _, body, mine } => {
                self.push_message(
                    MessageRow { who: name, time: time.to_owned(), body, mine, system: false },
                );
                true
            },
            Event::FileOffer { transfer, from: _, name, size } => {
                let text = cat4(&name, " (", &human_size(size), ")");
                let row = (transfer, text);
                let ghost added = row@;
                self.offers.push(row);
                assert(each(self.offers@) =~= old(self)@.offers.push(added));
                false
            },
            Event::FileProgress { transfer, name, peer, done, total, incoming } => {
                let arrow = if incoming {
                    "from"
                } else {
                    "to"
                };
                let label = cat5(&name, " ", arrow, " ", &peer);
                let state = cat3(&human_size(done), " / ", &human_size(total));
                self.upsert_transfer(&transfer, &label, done, total, &state);
                false
            },
            Event::FileFinished { transfer, name, incoming, ok, detail } => {
                let arrow = if incoming {
                    "received"
                } else {
                    "sent"
                };
                let state = if chars_of(&detail).len() > 0 {
                    detail.clone()
                } else if ok {
                    "Done".to_owned()
                } else {
                    "Failed".to_owned()
                };
                let label = cat4(&name, " (", arrow, ")");
                let done: u64 = if ok {
                    1
                } else {
                    0
                };
                self.upsert_transfer(&transfer, &label, done, 1, &state);
                let text = if ok {
                    let head = cat5("File ", arrow, ": ", &name, ". ");
                    cat(&head, &detail)
                } else {
                    cat4("File transfer failed: ", &name, ". ", &detail)
                };
                self.push_system(time, &text);
                true
            },
            Event::Error(text) => {
                self.error_line = text;
                false
            },
            Event::RoomClosed(reason) => {
                self.push_system(time, &cat("Room closed: ", &reason));
                self.peers = empty_rows();
                self.requests = empty_rows();
                self.expires_at = None;
                self.expiry_note = "".to_owned();
                self.status_line = reason;
                true
            },
        }
    }

    /// The transcript gained lines: scroll to its end.
    pub fn scroll(&mut self)
        ensures
            final(self)@ == (ScreenView {
                scroll_tick: old(self)@.scroll_tick.wrapping_add(1),
                ..old(self)@
            }),
    {
        self.scroll_tick = self.scroll_tick.wrapping_add(1);
    }

    /// One tick: show the first of the waiting events, up to
    /// [`MAX_EVENTS_PER_TICK`]; the rest keeps waiting.
    pub fn pump(&mut self, waiting: &mut Vec<Event>, fingerprint: &str, now: u64)
        requires
            forall|i: int| 0 <= i < old(waiting)@.len() ==> in_time(#[trigger] old(waiting)@[i]@, now),
        ensures
            final(waiting)@ == old(waiting)@.skip(per_tick(old(waiting)@.len()) as int),
            tick_shows(
                old(self)@,
                each(old(waiting)@).take(per_tick(old(waiting)@.len()) as int),
                fingerprint@,
                now,
                final(self)@,
            ),
    {
        let ghost all = waiting@;
        let ghost v = self@;
        let ghost n = per_tick(all.len());
        let ghost mut times: Seq<Seq<char>> = Seq::empty();
        let mut gained = false;
        let mut i: usize = 0;
        assert(all.skip(0) =~= all);
        while i < MAX_EVENTS_PER_TICK && waiting.len() > 0
            invariant
                i <= n <= all.len(),
                n == per_tick(all.len()),
                waiting@ == all.skip(i as int),
                times.len() == i,
                forall|k: int| 0 <= k < all.len() ==> in_time(#[trigger] all[k]@, now),
                forall|k: int| 0 <= k < i ==> line_time(all[k]@, #[trigger] times[k]),
                (self@, gained) == shown_all(
                    v,
                    each(all).take(i as int),
                    times,
                    fingerprint@,
                    now,
                ),
            decreases MAX_EVENTS_PER_TICK - i,
        {
            let ghost before = self@;
            let ev = waiting.remove(0);
            assert(ev == all[i as int]);
            assert(waiting@ =~= all.skip(i + 1));
            let more = self.handle_event(ev, fingerprint, now);
            proof {
                let time = choose|time: Seq<char>| #[trigger]
                    line_time(ev@, time) && (self@, more) == shown(
                        before,
                        ev@,
                        time,
                        fingerprint@,
                        now,
                    );
                let so_far = each(all).take(i as int);
                assert(each(all).take(i + 1) =~= so_far.push(ev@));
                assert(so_far.push(ev@).drop_last() =~= so_far);
                assert(times.push(time).drop_last() =~= times);
                times = times.push(time);
            }
            gained = gained || more;
            i += 1;
        }
        if gained {
            self.scroll();
        }
        self.update_expiry(now);
        assert(self@ == ticked(v, each(all).take(n as int), times, fingerprint@, now));
    }

    /// The prompt for the oldest queued file offer, or an empty one when none
    /// are left.
    pub fn show_next_offer(&self) -> (r: (String, String))
        ensures
            r@ == offer_prompt(self@),
    {
        if self.offers.len() == 0 {
            ("".to_owned(), "".to_owned())
        } else {
            assert(self@.offers[0] == self.offers@[0]@);
            (self.offers[0].0.clone(), self.offers[0].1.clone())
        }
    }

    /// Keep the "code expires in ..." note current.
    pub fn update_expiry(&mut self, now: u64)
        ensures
            final(self)@ == (ScreenView {
                expiry_note: expiry_text(old(self)@.expires_at, now),
                ..old(self)@
            }),
    {
        self.expiry_note = match self.expires_at {
            None => "".to_owned(),
            Some(t) => {
                let left: u64 = elapsed(t, now) / SECOND;
                if left == 0 {
                    "Code expired - new joiners are refused. Press Reopen to accept more.".to_owned()
                } else if left >= 60 {
                    cat3(
                        "Code accepts joiners for another ",
                        &dec_text((left + 59) / 60),
                        " min",
                    )
                } else {
                    cat3("Code accepts joiners for another ", &dec_text(left), "s")
                }
            },
        };
    }
}

// --- what the user does ------------------------------------------------------------------

/// What pressing "Create the room" or "Request to join" comes to, before
/// anything is started: the transport and the display name, or what is wrong.
pub open spec fn start_checked(
    mode: Seq<char>,
    name: Seq<char>,
    code: Option<Seq<char>>,
) -> Result<(TransportKind, Seq<char>), Seq<char>> {
    match kind_named(mode) {
        None => Err("Choose LAN or Bluetooth first."@),
        Some(kind) => if code matches Some(c) && trimmed(c).len() == 0 {
            Err("Enter the room code the host gave you."@)
        } else if trimmed(name).len() == 0 {
            Err("Enter a display name first."@)
        } else {
            Ok((kind, trimmed(name)))
        },
    }
}

/// A screen that is waiting for a room to start.
pub open spec fn starting(v: ScreenView, fingerprint: Seq<char>, status: Seq<char>) -> ScreenView {
    ScreenView {
        my_fingerprint: fingerprint,
        error_line: ""@,
        status_line: status,
        busy: true,
        ..emptied(v)
    }
}

/// A screen whose room did not start.
pub open spec fn start_over(v: ScreenView, reason: Seq<char>) -> ScreenView {
    ScreenView {
        busy: false,
        page: Page::Setup,
        status_line: "Not connected."@,
        error_line: reason,
        ..emptied(v)
    }
}

/// A screen once its room is left.
pub open spec fn room_left(v: ScreenView) -> ScreenView {
    ScreenView {
        page: Page::Setup,
        busy: false,
        is_host: false,
        room_code: ""@,
        room_addr: ""@,
        expiry_note: ""@,
        error_line: ""@,
        status_line: "You left the room."@,
        ..emptied(v)
    }
}

/// The offers without those of that id.
pub open spec fn offers_without(offers: Seq<(Seq<char>, Seq<char>)>, id: Seq<char>) -> Seq<
    (Seq<char>, Seq<char>),
> {
    offers.filter(|o: (Seq<char>, Seq<char>)| o.0 != id)
}

/// The text of the first offer of that id.
pub open spec fn offer_text(offers: Seq<(Seq<char>, Seq<char>)>, id: Seq<char>) -> Option<Seq<char>>
    decreases offers.len(),
{
    if offers.len() == 0 {
        None
    } else if offers[0].0 == id {
        Some(offers[0].1)
    } else {
        offer_text(offers.skip(1), id)
    }
}

impl Screen {
    /// "Create the room" (without a code) or "Request to join" was pressed.
    /// What is wrong, if anything, is shown.
    pub fn check_start(&mut self, mode: &str, name: &str, code: Option<&str>) -> (r: Option<
        (TransportKind, String),
    >)
        ensures
            ({
                let c = match code {
                    Some(t) => Some(t@),
                    None => None,
                };
                match (start_checked(mode@, name@, c), r) {
                    (Ok((kind, n)), Some((k, t))) => k == kind && t@ == n && final(self)@ == old(
                        self,
                    )@,
                    (Err(text), None) => final(self)@ == (ScreenView {
                        error_line: text,
                        ..old(self)@
                    }),
                    _ => false,
                }
            }),
    {
        let kind = match TransportKind::parse(mode) {
            Some(k) => k,
            None => {
                self.error_line = "Choose LAN or Bluetooth first.".to_owned();
                return None;
            },
        };
        if let Some(c) = code {
            if chars_of(&trim_text(c)).len() == 0 {
                self.error_line = "Enter the room code the host gave you.".to_owned();
                return None;
            }
        }
        let n = trim_text(name);
        if chars_of(&n).len() == 0 {
            self.error_line = "Enter a display name first.".to_owned();
            return None;
        }
        Some((kind, n))
    }

    /// A fresh node is there, and its room is being opened or joined.
    pub fn started(&mut self, fingerprint: &str, joining: bool)
        ensures
            final(self)@ == starting(
                old(self)@,
                fingerprint@,
                if joining {
                    "Contacting the host..."@
                } else {
                    "Opening the room..."@
                },
            ),
    {
        self.reset_models();
        self.my_fingerprint = fingerprint.to_owned();
        self.error_line = "".to_owned();
        self.status_line = if joining {
            "Contacting the host...".to_owned()
        } else {
            "Opening the room...".to_owned()
        };
        self.busy = true;
    }

    /// Starting the room failed.
    pub fn start_failed(&mut self, reason: &str)
        ensures
            final(self)@ == start_over(old(self)@, reason@),
    {
        self.reset_models();
        self.busy = false;
        self.page = Page::Setup;
        self.status_line = "Not connected.".to_owned();
        self.error_line = reason.to_owned();
    }

    /// A purely local note for the status line.
    pub fn note(&mut self, text: &str)
        ensures
            final(self)@ == (ScreenView { status_line: text@, ..old(self)@ }),
    {
        self.status_line = text.to_owned();
    }

    /// "Send" was pressed: the line to send, unless it is blank.
    pub fn message_to_send(&self) -> (r: Option<String>)
        ensures
            match r {
                Some(t) => t@ == trimmed(self@.draft) && t@.len() > 0,
                None => trimmed(self@.draft).len() == 0,
            },
    {
        let t = trim_text(&self.draft);
        if chars_of(&t).len() == 0 {
            None
        } else {
            Some(t)
        }
    }

    /// What came of sending the draft: it goes, or the reason why not is shown.
    pub fn message_sent(&mut self, r: Result<(), Error>)
        ensures
            final(self)@ == match r {
                Ok(()) => ScreenView { draft: ""@, error_line: ""@, ..old(self)@ },
                Err(e) => ScreenView { error_line: e@.message(), ..old(self)@ },
            },
    {
        match r {
            Ok(()) => {
                self.draft = "".to_owned();
                self.error_line = "".to_owned();
            },
            Err(e) => {
                self.error_line = e.message();
            },
        }
    }

    /// What came of something the user asked for: the reason why not, or
    /// nothing.
    pub fn asked(&mut self, r: Result<(), Error>)
        ensures
            final(self)@ == (ScreenView {
                error_line: match r {
                    Ok(()) => ""@,
                    Err(e) => e@.message(),
                },
                ..old(self)@
            }),
    {
        self.error_line = match r {
            Ok(()) => "".to_owned(),
            Err(e) => e.message(),
        };
    }

    /// The name to suggest for the file of an offer. The user always chooses
    /// the folder and the final name.
    pub fn name_for(&self, transfer: &str) -> (r: String)
        ensures
            r@ == match offer_text(self@.offers, transfer@) {
                Some(text) => offered_name(text),
                None => "received-file"@,
            },
    {
        let ghost all = self@.offers;
        let mut i: usize = 0;
        assert(all.skip(0) =~= all);
        while i < self.offers.len()
            invariant
                i <= self.offers@.len(),
                all == each(self.offers@),
                offer_text(all, transfer@) == offer_text(all.skip(i as int), transfer@),
            decreases self.offers@.len() - i,
        {
            assert(all.skip(i as int)[0] == self.offers@[i as int]@);
            if same_text(&self.offers[i].0, transfer) {
                return suggested_name(&self.offers[i].1);
            }
            assert(all.skip(i as int).skip(1) =~= all.skip(i + 1));
            i += 1;
        }
        "received-file".to_owned()
    }

    /// An offer is answered: it is on offer no more.
    pub fn offer_answered(&mut self, transfer: &str)
        ensures
            final(self)@ == (ScreenView {
                offers: offers_without(old(self)@.offers, transfer@),
                ..old(self)@
            }),
    {
        let ghost all = self@.offers;
        let ghost keep = |o: (Seq<char>, Seq<char>)| o.0 != transfer@;
        let mut kept: Vec<(String, String)> = empty_rows();
        let mut i: usize = 0;
        proof {
            reveal(Seq::filter);
            assert(all.take(0) =~= Seq::empty());
            assert(each(kept@) =~= all.take(0).filter(keep));
        }
        while i < self.offers.len()
            invariant
                i <= self.offers@.len(),
                all == each(self.offers@),
                self@ == old(self)@,
                keep == (|o: (Seq<char>, Seq<char>)| o.0 != transfer@),
                each(kept@) == all.take(i as int).filter(keep),
            decreases self.offers@.len() - i,
        {
            let ghost before = kept@;
            proof {
                reveal(Seq::filter);
                assert(all.take(i + 1).drop_last() =~= all.take(i as int));
                assert(all.take(i + 1).last() == self.offers@[i as int]@);
            }
            if !same_text(&self.offers[i].0, transfer) {
                let row = (self.offers[i].0.clone(), self.offers[i].1.clone());
                assert(row@ == self.offers@[i as int]@);
                kept.push(row);
                proof {
                    crate::views::each_push(before, row);
                }
            }
            i += 1;
        }
        assert(all.take(i as int) =~= all);
        self.offers = kept;
    }

    /// What came of saving the transcript to `path`.
    pub fn exported(&mut self, path: &str, r: Result<(), Error>)
        ensures
            final(self)@ == match r {
                Ok(()) => ScreenView {
                    error_line: ""@,
                    status_line: "Transcript saved to "@ + path@,
                    ..old(self)@
                },
                Err(e) => ScreenView { error_line: e@.message(), ..old(self)@ },
            },
    {
        match r {
            Ok(()) => {
                self.error_line = "".to_owned();
                self.status_line = cat("Transcript saved to ", path);
            },
            Err(e) => {
                self.error_line = e.message();
            },
        }
    }

    /// What came of copying the room code.
    pub fn copied(&mut self, r: Result<(), String>)
        ensures
            final(self)@ == match r {
                Ok(()) => ScreenView {
                    status_line: "Room code copied to clipboard."@,
                    ..old(self)@
                },
                Err(e) => ScreenView {
                    error_line: "Could not use the clipboard: "@ + e@,
                    ..old(self)@
                },
            },
    {
        match r {
            Ok(()) => {
                self.status_line = "Room code copied to clipboard.".to_owned();
            },
            Err(e) => {
                self.error_line = cat("Could not use the clipboard: ", &e);
            },
        }
    }

    /// What came of reopening the room at `now`.
    pub fn reopened(&mut self, r: Result<(), Error>, now: u64)
        requires
            now + DEFAULT_CODE_TTL <= u64::MAX,
        ensures
            final(self)@ == match r {
                Ok(()) => ScreenView {
                    expires_at: Some((now + DEFAULT_CODE_TTL) as u64),
                    error_line: ""@,
                    ..old(self)@
                },
                Err(e) => ScreenView { error_line: e@.message(), ..old(self)@ },
            },
    {
        match r {
            Ok(()) => {
                self.expires_at = Some(now + DEFAULT_CODE_TTL);
                self.error_line = "".to_owned();
            },
            Err(e) => {
                self.error_line = e.message();
            },
        }
    }

    /// The user left the room.
    pub fn left(&mut self)
        ensures
            final(self)@ == room_left(old(self)@),
    {
        self.reset_models();
        self.page = Page::Setup;
        self.busy = false;
        self.is_host = false;
        self.room_code = "".to_owned();
        self.room_addr = "".to_owned();
        self.expiry_note = "".to_owned();
        self.error_line = "".to_owned();
        self.status_line = "You left the room.".to_owned();
    }
}

// --- laws ------------------------------------------------------------------------------

/// The list never grows beyond its cap, and the newest line is always in it.
pub proof fn messages_are_capped(rows: Seq<MessageRowView>, row: MessageRowView)
    requires
        rows.len() <= MAX_VISIBLE_MESSAGES,
    ensures
        with_message(rows, row).len() <= MAX_VISIBLE_MESSAGES,
        with_message(rows, row).last() == row,
{
}

/// The name that is suggested for an offer is the file's own.
pub proof fn an_offer_suggests_its_name(name: Seq<char>, size: u64)
    ensures
        offered_name(name + " ("@ + size_text(size) + ")"@) == name,
{
    reveal_strlit(" (");
    reveal_strlit(")");
    let tail = size_text(size) + ")"@;
    size_has_no_bracket(size);
    bracket_before(name, tail);
    let s = name + " ("@ + size_text(size) + ")"@;
    assert(" ("@ =~= seq![' ', '(']);
    assert(s =~= name + seq![' ', '('] + tail);
    assert(s.take(name.len() as int) =~= name);
}

proof fn bracket_before(a: Seq<char>, b: Seq<char>)
    requires
        !b.contains('('),
    ensures
        last_bracket(a + seq![' ', '('] + b) == a.len(),
    decreases b.len(),
{
    let s = a + seq![' ', '('] + b;
    if b.len() == 0 {
        assert(s[s.len() - 2] == ' ' && s.last() == '(');
    } else {
        assert(s.last() == b[b.len() - 1]);
        assert(b[b.len() - 1] != '(');
        let c = b.drop_last();
        assert forall|i: int| 0 <= i < c.len() implies c[i] != '(' by {
            assert(c[i] == b[i]);
        }
        bracket_before(a, c);
        assert(s.drop_last() =~= a + seq![' ', '('] + c);
    }
}

proof fn size_has_no_bracket(size: u64)
    ensures
        !(size_text(size) + ")"@).contains('('),
{
    reveal_strlit(" B");
    reveal_strlit("KB");
    reveal_strlit("MB");
    reveal_strlit("GB");
    reveal_strlit("TB");
    reveal_strlit(".");
    reveal_strlit(" ");
    reveal_strlit(")");
    let v = crate::names::measured(size as nat);
    dec_has_no_bracket(size as nat);
    units_have_no_bracket(v, 1024);
    units_have_no_bracket(v, 1048576);
    units_have_no_bracket(v, 1073741824);
    units_have_no_bracket(v, 1099511627776);
    let t = size_text(size) + ")"@;
    assert forall|i: int| 0 <= i < t.len() implies t[i] != '(' by {}
}

proof fn units_have_no_bracket(v: nat, scale: nat)
    ensures
        ({
            let tenths = crate::names::rounded(10 * v, scale);
            &&& forall|i: int| 0 <= i < dec(tenths / 10).len() ==> #[trigger] dec(tenths / 10)[i]
                != '('
            &&& forall|i: int| 0 <= i < dec(tenths % 10).len() ==> #[trigger] dec(tenths % 10)[i]
                != '('
        }),
{
    let tenths = crate::names::rounded(10 * v, scale);
    dec_has_no_bracket(tenths / 10);
    dec_has_no_bracket(tenths % 10);
}

proof fn dec_has_no_bracket(n: nat)
    ensures
        forall|i: int| 0 <= i < dec(n).len() ==> #[trigger] dec(n)[i] != '(',
{
    crate::text::dec_value_of_dec(n);
    assert forall|i: int| 0 <= i < dec(n).len() implies #[trigger] dec(n)[i] != '(' by {
        assert(crate::text::digit_char(dec(n)[i]));
    }
}

} // verus!
