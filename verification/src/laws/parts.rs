//! What the smaller parts promise whoever calls them: transcripts, limits,
//! tables, transfers, codes and the texts of the transports.

use vstd::prelude::*;

use crate::error::{Error, ErrorView};
use crate::events::{delivery_failed, Decision, Event, EventView};
use crate::files::{
    does, FileStep, Outcome, PendingOffer, Transfers, Upload, UploadEnd, UploadEndView,
};
use crate::hashing::{sha256, FileHasher};
use crate::history::{
    every_record_is_written, full_time, full_times, heading, line_text, occurs, record_line,
    record_lines, render_text, wants_json, ChatRecord, RecordKind, RecordView,
};
use crate::laws::lines::{
    a_file_line_is_whole, a_message_line_is_whole, a_notice_line_is_whole,
    the_heading_tells_what_it_is_of,
};
use crate::laws::transfers::{
    a_part_occurs, nothing_is_left_in_flight, only_their_transfers_end, other_transfers_go_on,
    untouched_but,
};
use crate::protocol::{
    clock_for, clock_times_are_short, dated, decode, encode_chunk, fmt_clock, fmt_full, hex_text,
    now_ts, stamp_for, Frame, FrameView,
};
use crate::ratelimit::{allowed, hits_of, sources_are_apart, RateLimiter};
use crate::roomcode;
use crate::sending::{Course, Work, WorkView};
use crate::table::{distinct, has_key, lookup, put_is_found, without_is_gone, Key, Table};
use crate::text::{dec, lower_all};
use crate::transport::{bluetooth, lan, TransportKind};
use crate::views::each;

verus! {

// --- transcripts --------------------------------------------------------------------------

/// A record's line ends with the whole of what it says, and names its sender
/// unless it is the room's own.
pub proof fn a_written_line_is_whole(time: &str, r: &ChatRecord, t: String)
    requires
        call_ensures(line_text, (time, r), t),
    ensures
        t@.len() == time@.len() + r@.body.len() + match r@.kind {
            RecordKind::Message => 6 + r@.sender.len(),
            RecordKind::System => 6,
            RecordKind::File => 14 + r@.sender.len(),
        },
        t@.skip(t@.len() - 1 - r@.body.len()) == r@.body.push('\n'),
        t@.subrange(1, 1 + time@.len() as int) == time@,
        r@.kind == RecordKind::Message ==> t@.subrange(
            3 + time@.len() as int,
            3 + time@.len() + r@.sender.len() as int,
        ) == r@.sender,
        r@.kind == RecordKind::File ==> t@.subrange(
            5 + time@.len() as int,
            5 + time@.len() + r@.sender.len() as int,
        ) == r@.sender,
{
    match r@.kind {
        RecordKind::Message => a_message_line_is_whole(time@, r@),
        RecordKind::System => a_notice_line_is_whole(time@, r@),
        RecordKind::File => a_file_line_is_whole(time@, r@),
    }
}

/// A transcript tells its room and its transport, and the whole of every
/// record, whoever it is from.
#[verifier::rlimit(40)]
pub proof fn a_transcript_is_whole(
    room: &str,
    transport: &str,
    records: &[ChatRecord],
    r: String,
    i: int,
)
    requires
        call_ensures(render_text, (room, transport, records), r),
        0 <= i < records@.len(),
    ensures
        occurs("Room code : "@ + room@ + "\n"@, r@),
        occurs("\nTransport : "@ + transport@ + "\n"@, r@),
        occurs(records@[i]@.body.push('\n'), r@),
        !(records@[i]@.kind is System) ==> occurs(records@[i]@.sender, r@),
{
    let all = each(records@);
    assert(all[i] == records@[i]@);
    let (now, exported, times) = choose|now: i64, exported: Seq<char>, times: Seq<Seq<char>>|
        call_ensures(now_ts, (), now) && #[trigger] full_time(now, exported)
            && #[trigger] full_times(all, times) && r@ == heading(room@, transport@, exported)
            + record_lines(times, all);
    a_transcript_holds_its_records(room@, transport@, exported, times, all, i);
}

/// A transcript with the records `all` tells its room and its transport, and
/// the whole of every record.
#[verifier::rlimit(40)]
pub proof fn a_transcript_holds_its_records(
    room: Seq<char>,
    transport: Seq<char>,
    exported: Seq<char>,
    times: Seq<Seq<char>>,
    all: Seq<RecordView>,
    i: int,
)
    requires
        times.len() == all.len(),
        0 <= i < all.len(),
    ensures
        ({
            let text = heading(room, transport, exported) + record_lines(times, all);
            &&& occurs("Room code : "@ + room + "\n"@, text)
            &&& occurs("\nTransport : "@ + transport + "\n"@, text)
            &&& occurs(all[i].body.push('\n'), text)
            &&& !(all[i].kind is System) ==> occurs(all[i].sender, text)
        }),
{
    let head = heading(room, transport, exported);
    let lines = record_lines(times, all);
    let none = Seq::<char>::empty();
    the_heading_tells_what_it_is_of(room, transport, exported);
    within("Room code : "@ + room + "\n"@, none, head, lines);
    within("\nTransport : "@ + transport + "\n"@, none, head, lines);
    a_record_is_in_its_lines(times, all, i);
    within(all[i].body.push('\n'), head, lines, none);
    if !(all[i].kind is System) {
        within(all[i].sender, head, lines, none);
    }
    assert(none + head + lines =~= head + lines);
    assert(head + lines + none =~= head + lines);
}

proof fn a_record_is_in_its_line(time: Seq<char>, rec: RecordView)
    ensures
        occurs(rec.body.push('\n'), record_line(time, rec)),
        !(rec.kind is System) ==> occurs(rec.sender, record_line(time, rec)),
{
    let line = record_line(time, rec);
    let end = rec.body.push('\n');
    let s = if rec.kind is Message {
        3 + time.len() as int
    } else {
        5 + time.len() as int
    };
    match rec.kind {
        RecordKind::Message => a_message_line_is_whole(time, rec),
        RecordKind::System => a_notice_line_is_whole(time, rec),
        RecordKind::File => a_file_line_is_whole(time, rec),
    }
    let at = line.len() - 1 - rec.body.len();
    assert(line =~= line.take(at) + line.skip(at) + Seq::<char>::empty());
    a_part_occurs(line.take(at), end, Seq::empty());
    if !(rec.kind is System) {
        let e = s + rec.sender.len();
        assert(line =~= line.take(s) + line.subrange(s, e) + line.skip(e));
        a_part_occurs(line.take(s), rec.sender, line.skip(e));
    }
}

proof fn a_record_is_in_its_lines(times: Seq<Seq<char>>, records: Seq<RecordView>, i: int)
    requires
        times.len() == records.len(),
        0 <= i < records.len(),
    ensures
        occurs(records[i].body.push('\n'), record_lines(times, records)),
        !(records[i].kind is System) ==> occurs(records[i].sender, record_lines(times, records)),
{
    let line = record_line(times[i], records[i]);
    let lines = record_lines(times, records);
    a_record_is_in_its_line(times[i], records[i]);
    every_record_is_written(times, records, i);
    let (before, after) = choose|before: Seq<char>, after: Seq<char>|
        lines == #[trigger] (before + line + after);
    within(records[i].body.push('\n'), before, line, after);
    if !(records[i].kind is System) {
        within(records[i].sender, before, line, after);
    }
}

proof fn within(part: Seq<char>, before: Seq<char>, whole: Seq<char>, after: Seq<char>)
    requires
        occurs(part, whole),
    ensures
        occurs(part, before + whole + after),
{
    let (a, b) = choose|a: Seq<char>, b: Seq<char>| whole == #[trigger] (a + part + b);
    assert(before + whole + after =~= (before + a) + part + (b + after));
    a_part_occurs(before + a, part, b + after);
}

/// A file is written as JSON exactly if its extension says so, in capitals or
/// small letters.
pub proof fn only_json_is_written_as_json(extension: Option<&str>, r: bool)
    requires
        call_ensures(wants_json, (extension,), r),
    ensures
        r <==> (extension matches Some(e) && e@.len() == 4 && (e@[0] == 'j' || e@[0] == 'J') && (
        e@[1] == 's' || e@[1] == 'S') && (e@[2] == 'o' || e@[2] == 'O') && (e@[3] == 'n' || e@[3]
            == 'N')),
{
    reveal_strlit("json");
    if let Some(e) = extension {
        let l = lower_all(e@);
        if r {
            assert(l.len() == 4);
            assert(l[0] == 'j' && l[1] == 's' && l[2] == 'o' && l[3] == 'n');
        }
        if e@.len() == 4 && (e@[0] == 'j' || e@[0] == 'J') && (e@[1] == 's' || e@[1] == 'S') && (
        e@[2] == 'o' || e@[2] == 'O') && (e@[3] == 'n' || e@[3] == 'N') {
            assert(l =~= "json"@);
        }
    }
}

// --- limits ---------------------------------------------------------------------------------

/// An attempt is answered by the budgets alone, is counted only where it is let
/// through, and against its own source only.
pub proof fn an_attempt_counts_for_its_source(
    l: &mut RateLimiter,
    source: &str,
    now: u64,
    r: bool,
    other: Seq<char>,
)
    requires
        call_ensures(RateLimiter::allow_at, (l, source, now), r),
        distinct(old(l)@.hits),
        other != source@,
    ensures
        r == allowed(old(l)@, source@, now),
        r ==> hits_of(final(l)@, source@).len() > 0 && hits_of(final(l)@, source@).last() == now
            && final(l)@.all.len() > 0 && final(l)@.all.last() == now,
        hits_of(final(l)@, other) == hits_of(old(l)@, other),
        final(l)@.window == old(l)@.window && final(l)@.per_source == old(l)@.per_source
            && final(l)@.global == old(l)@.global,
{
    sources_are_apart(old(l)@, source@, other, now);
    let mine = crate::ratelimit::recent(hits_of(old(l)@, source@), now, old(l)@.window);
    put_is_found(old(l)@.hits, source@, mine.push(now));
    put_is_found(old(l)@.hits, source@, mine);
}

/// The limits that a room starts with: five attempts a minute from one source
/// and thirty from all, none of them used.
pub proof fn a_room_starts_with_its_limits(r: RateLimiter)
    requires
        call_ensures(RateLimiter::default_policy, (), r),
    ensures
        crate::laws::rooms::counts_anew(r@),
{
    crate::laws::rooms::a_fresh_limiter_counts_anew();
}

// --- tables -----------------------------------------------------------------------------------

/// What is put under a key is found there and nowhere else changes anything;
/// what is removed is handed back and is not found any more.
pub proof fn a_table_keeps_what_is_put<K: Key, V: View>(
    t: &mut Table<K, V>,
    k: K,
    v: V,
    other: K::V,
)
    requires
        call_ensures(Table::<K, V>::insert, (t, k, v), ()),
        distinct(old(t)@),
    ensures
        lookup(final(t)@, k@) == Some(v@),
        other != k@ ==> lookup(final(t)@, other) == lookup(old(t)@, other),
        distinct(final(t)@),
{
    put_is_found(old(t)@, k@, v@);
}

// --- transfers ----------------------------------------------------------------------------------

/// An outcome is what its step says: the actions and the records, in order.
pub proof fn an_outcome_is_taken_whole(r: Outcome, after: crate::files::TransfersView, step: FileStep)
    requires
        does(r, after, step),
    ensures
        after == step.transfers,
        each(r.actions@) == step.actions,
        each(r.records@) == step.records,
{
}

/// When a peer is gone, transfers with anyone else go on as they were, and none
/// with that peer is left.
pub proof fn cancelling_is_for_one_peer(
    t: &mut Transfers,
    who: &str,
    r: Outcome,
    id: Seq<u8>,
    i: int,
)
    requires
        call_ensures(Transfers::cancel_transfers_with, (t, who), r),
        crate::files::orderly(old(t)@),
    ensures
        lookup(old(t)@.active, id) matches Some(a) ==> a.peer_id != who@ ==> lookup(
            final(t)@.active,
            id,
        ) == Some(a),
        lookup(old(t)@.offers, id) matches Some(o) ==> o.peer_id != who@ ==> lookup(
            final(t)@.offers,
            id,
        ) == Some(o),
        lookup(old(t)@.outgoing, id) matches Some(p) ==> p != who@ ==> lookup(
            final(t)@.outgoing,
            id,
        ) == Some(p),
        lookup(final(t)@.active, id) matches Some(a) ==> a.peer_id != who@,
        lookup(final(t)@.offers, id) matches Some(o) ==> o.peer_id != who@,
        lookup(final(t)@.outgoing, id) != Some(who@),
        0 <= i < r.actions@.len() ==> crate::laws::transfers::concerns_only(
            old(t)@,
            who@,
            r.actions@[i]@,
        ),
        r.records@.len() == 0,
{
    other_transfers_go_on(old(t)@, who@, id);
    nothing_is_left_in_flight(old(t)@, who@, id);
    assert(each(r.actions@).len() == r.actions@.len());
    assert(each(r.records@).len() == r.records@.len());
    if 0 <= i < r.actions@.len() {
        only_their_transfers_end(old(t)@, who@, i);
        assert(each(r.actions@)[i] == r.actions@[i]@);
    }
}

/// An offer can be taken once, by its own id, and leaves every other transfer
/// alone.
pub proof fn an_offer_is_taken_once(t: &mut Transfers, id: &[u8; 16], r: Option<PendingOffer>)
    requires
        call_ensures(Transfers::take_offer, (t, id), r),
        crate::files::orderly(old(t)@),
    ensures
        r is Some <==> lookup(old(t)@.offers, id@) is Some,
        r matches Some(o) ==> lookup(old(t)@.offers, id@) == Some(o@),
        !has_key(final(t)@.offers, id@),
        untouched_but(old(t)@, final(t)@, id@),
        final(t)@.active == old(t)@.active && final(t)@.outgoing == old(t)@.outgoing,
{
    without_is_gone(old(t)@.offers, id@);
}

/// An answer lets the file go out exactly if it is a yes; a no ends it with the
/// recipient's reason, and no answer in time ends it too.
pub proof fn only_a_yes_starts_an_upload(
    up: &Upload,
    answer: Option<Decision>,
    r: Option<UploadEnd>,
)
    requires
        call_ensures(Upload::answered, (up, answer), r),
    ensures
        r is None <==> answer == Some(Decision::Accept),
        answer matches Some(Decision::Decline(reason)) ==> (r matches Some(end) && end@
            == UploadEndView::Declined(reason@)),
        answer is None ==> (r matches Some(end) && end@ is TimedOut),
{
}

/// A course starts with the offer of its file, and nothing else.
pub proof fn a_course_starts_with_the_offer(up: Upload, r: (Course, Work))
    requires
        call_ensures(Course::start, (up,), r),
    ensures
        r.0@.up == up@ && r.0@.stage is Offering,
        r.1@ matches WorkView::Offer(message) && message matches crate::protocol::ControlView::FileOffer {
            transfer,
            name,
            size,
            sha256,
        } && transfer == hex_text(up@.id) && name == up@.name && size == up@.size && sha256
            == up@.sha,
{
}

/// A chunk that is framed is read as what went into it.
pub proof fn a_framed_chunk_is_read_back(
    id: &[u8; 16],
    seq: u32,
    data: &[u8],
    bytes: Vec<u8>,
    buf: &[u8],
    r: Result<Frame, Error>,
)
    requires
        call_ensures(encode_chunk, (id, seq, data), bytes),
        call_ensures(decode, (buf,), r),
        buf@ == bytes@,
    ensures
        r matches Ok(f) && f@ == (FrameView::Chunk { id: id@, seq, data: data@ }),
        bytes@.len() == data@.len() + 21,
{
    crate::protocol::chunk_round_trip(id@, seq, data@);
}

/// Hashing piece by piece is hashing the whole.
pub proof fn pieces_are_hashed_as_one(h: &mut FileHasher, data: &[u8], r: String)
    requires
        call_ensures(FileHasher::update, (h, data), ()),
        call_ensures(FileHasher::finish, (*final(h),), r),
    ensures
        r@ == hex_text(sha256(old(h)@ + data@)),
{
}

/// A line that could not be delivered is told with whom it was for and why.
pub proof fn a_failed_delivery_is_told(trouble: &str, e: &Error, r: Event)
    requires
        call_ensures(delivery_failed, (trouble, e), r),
    ensures
        r@ matches EventView::Error(text) && occurs(trouble@, text) && occurs(e@.message(), text),
{
    let none = Seq::<char>::empty();
    let text = trouble@ + ": "@ + e@.message();
    assert(text =~= none + trouble@ + (": "@ + e@.message()));
    assert(text =~= trouble@ + ": "@ + e@.message() + none);
    a_part_occurs(none, trouble@, ": "@ + e@.message());
    a_part_occurs(trouble@ + ": "@, e@.message(), none);
}

// --- transports ------------------------------------------------------------------------------------

/// A code that was made is taken apart into what it was made of, however it is
/// typed.
pub proof fn a_code_is_taken_apart_into_its_address(
    dial: &str,
    code: &str,
    made: Result<String, Error>,
    read: Result<(TransportKind, String), Error>,
    octets: Seq<u8>,
    port: u16,
)
    requires
        call_ensures(roomcode::encode, (TransportKind::Lan, dial), made),
        call_ensures(roomcode::decode, (code,), read),
        lan::v4_of(dial@) == Some((octets, port)),
        port != 0,
        made matches Ok(c) && roomcode::canonical(code@) == roomcode::canonical(c@),
    ensures
        read matches Ok((k, d)) && k is Lan && lan::v4_of(d@) == Some((octets, port)),
{
    roomcode::lan_round_trip(dial@, octets, port);
    roomcode::same_room(code@, made->Ok_0@);
}

/// An address to listen on, or to tell others, is its host, a colon and its
/// port or channel, and reads back as those.
pub proof fn a_listening_address_reads_back(
    radio: u64,
    channel: u32,
    r: String,
    s: &str,
    back: Result<(u64, u32), Error>,
)
    requires
        call_ensures(bluetooth::listen_address, (radio, channel), r),
        call_ensures(bluetooth::parse_dial, (s,), back),
        s@ == r@,
        radio < 0x1_0000_0000_0000,
    ensures
        back == Ok::<(u64, u32), Error>((radio, channel)),
{
    bluetooth::dial_text_reads_back(radio, channel);
}

/// The channel that others are told is the one that is in use: the one that
/// the system reports, or the usual one where that was bound; otherwise it is
/// not known.
pub proof fn the_channel_in_use_is_told(bound: u32, reported: Option<u32>, r: Option<u32>)
    requires
        call_ensures(bluetooth::channel_in_use, (bound, reported), r),
    ensures
        r matches Some(c) ==> reported == Some(c) || (bound == 25 && c == 25),
        reported matches Some(c) ==> c != 0 && c != 0xFFFF_FFFF ==> r == Some(c),
        bound == 25 ==> r is Some,
        r matches Some(c) ==> c != 0 && c != 0xFFFF_FFFF,
        reported is None && bound != 25 ==> r is None,
{
}

/// The usual channel is tried first, then any; and then it is given up.
pub proof fn the_usual_channel_is_tried_first(attempt: u8, r: Option<u32>)
    requires
        call_ensures(bluetooth::bind_channel, (attempt,), r),
    ensures
        r is None <==> attempt >= 2,
        attempt == 0 ==> r == Some(25u32),
        attempt == 1 ==> r == Some(0xFFFF_FFFFu32),
{
}

/// An address is taken exactly if it is one, and otherwise quoted.
pub proof fn a_bad_address_is_quoted(addr: &str, r: Result<(), Error>)
    requires
        call_ensures(lan::check_address, (addr,), r),
    ensures
        r is Ok <==> lan::v4_of(addr@) is Some || lan::v6_socket(addr@),
        r matches Err(e) ==> (e@ matches ErrorView::RoomCode(text) && occurs(addr@, text)),
{
    a_part_occurs("'"@, addr@, "' is not a valid IPv4 address:port"@);
}

/// Where nobody could be reached, the user is told where and why.
pub proof fn an_unreachable_host_is_named(addr: &str, e: &str, r: Error)
    requires
        call_ensures(lan::unreachable_host, (addr, e), r),
    ensures
        r@ matches ErrorView::Closed(text) && occurs(addr@, text) && occurs(e@, text),
{
    let (a, b) = ("could not reach "@, " over the local network ("@);
    let c = ") - check that both machines are on the same network and that the host's firewall allows chat.exe"@;
    assert(a + addr@ + b + e@ + c =~= a + addr@ + (b + e@ + c));
    a_part_occurs(a, addr@, b + e@ + c);
    a_part_occurs(a + addr@ + b, e@, c);
}

/// Where no device could be reached, the user is told which, on which channel
/// and why.
pub proof fn an_unreachable_device_is_named(target: u64, channel: u32, e: &str, r: Error)
    requires
        call_ensures(bluetooth::unreachable_device, (target, channel, e), r),
    ensures
        r@ matches ErrorView::Closed(text) && occurs(bluetooth::addr_text(target as nat), text)
            && occurs(dec(channel as nat), text) && occurs(e@, text),
{
    let (a, b, c) = ("could not reach Bluetooth device "@, " on channel "@, " ("@);
    let d = "). Make sure the two devices are paired in Windows Settings and that the host is waiting for a joiner."@;
    let (x, y) = (bluetooth::addr_text(target as nat), dec(channel as nat));
    assert(a + x + b + y + c + e@ + d =~= a + x + (b + y + c + e@ + d));
    assert(a + x + b + y + c + e@ + d =~= a + x + b + y + (c + e@ + d));
    a_part_occurs(a, x, b + y + c + e@ + d);
    a_part_occurs(a + x + b, y, c + e@ + d);
    a_part_occurs(a + x + b + y + c, e@, d);
}

/// No timeout is none, and a timeout is as long as it was asked for, or as long
/// as can be said.
pub proof fn a_timeout_is_as_long_as_asked(millis: Option<u64>, r: u32)
    requires
        call_ensures(bluetooth::timeout_option, (millis,), r),
    ensures
        millis is None ==> r == 0,
        millis matches Some(m) ==> r <= m && (m <= u32::MAX ==> r == m) && (m > u32::MAX ==> r
            == u32::MAX),
{
}

/// Where we listen is told so that it can be called: the address and the port,
/// which read back as they were.
pub proof fn where_we_listen_reads_back(ip: &str, port: u16, r: String, o: Seq<u8>)
    requires
        call_ensures(lan::listen_address, (ip, port), r),
        o.len() == 4,
        ip@ == lan::ip_text(o),
    ensures
        lan::v4_of(r@) == Some((o, port)),
{
    lan::v4_text_reads_back(o, port);
    assert(r@ =~= lan::v4_text(o, port));
}

/// Where the machine has no Bluetooth that can be used, the user is told so, and
/// by which error of the system.
pub proof fn missing_bluetooth_is_told(
    a: Error,
    b: Error,
    code: u32,
    c: Error,
    e: &str,
    d: Error,
    f: Error,
    g: Error,
)
    requires
        call_ensures(bluetooth::unavailable, (), a),
        call_ensures(bluetooth::no_radio, (), b),
        call_ensures(bluetooth::unreadable_radio, (code,), c),
        call_ensures(bluetooth::no_listening_socket, (e,), d),
        call_ensures(bluetooth::no_dialling_socket, (e,), f),
        call_ensures(bluetooth::unknown_channel, (), g),
    ensures
        a@ is Unsupported && b@ is Unsupported && g@ is Unsupported,
        c@ matches ErrorView::Unsupported(text) && occurs(dec(code as nat), text),
        d@ matches ErrorView::Unsupported(text) && occurs(e@, text),
        f@ matches ErrorView::Unsupported(text) && occurs(e@, text),
{
    a_part_occurs(
        "could not read the local Bluetooth radio information (Windows error "@,
        dec(code as nat),
        ")"@,
    );
    a_part_occurs(
        "could not create a Bluetooth socket ("@,
        e@,
        "). The Microsoft Bluetooth stack is required."@,
    );
    a_part_occurs("could not create a Bluetooth socket ("@, e@, ")"@);
}

/// A time that has no date is told as unknown, and any other by its clock.
pub proof fn a_time_without_a_date_is_unknown(ts: i64, clock: String, full: String)
    requires
        call_ensures(fmt_clock, (ts,), clock),
        call_ensures(fmt_full, (ts,), full),
    ensures
        !dated(ts) ==> clock@ == "??:??:??"@ && full@ == "unknown time"@,
        dated(ts) ==> clock_for(ts, clock@) && stamp_for(ts, full@),
        dated(ts) ==> clock@.len() == 8 && clock@[2] == ':' && clock@[5] == ':',
{
    if dated(ts) {
        clock_times_are_short(ts, clock@);
    }
}

/// A record is kept with who said it, when and what, and as what it is.
pub proof fn a_record_is_kept_as_it_is(
    sender: &str,
    id: &str,
    ts: i64,
    body: &str,
    a: ChatRecord,
    b: ChatRecord,
    c: ChatRecord,
)
    requires
        call_ensures(ChatRecord::message, (sender, id, ts, body), a),
        call_ensures(ChatRecord::file, (sender, id, ts, body), b),
        call_ensures(ChatRecord::system, (ts, body), c),
    ensures
        a@.ts == ts && b@.ts == ts && c@.ts == ts,
        a@.body == body@ && b@.body == body@ && c@.body == body@,
        a@.sender == sender@ && b@.sender == sender@ && c@.sender == "system"@,
        a@.sender_id == id@ && b@.sender_id == id@ && c@.sender_id.len() == 0,
        a@.kind is Message && b@.kind is File && c@.kind is System,
{
}

} // verus!
