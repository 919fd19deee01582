//! What goes over a link: where each byte stands, and what each step of a
//! transfer asks for.

use vstd::prelude::*;

use crate::codec::{frame_bytes, frame_len, head_number, head_round_trip, MAX_FRAME};
use crate::crypto::MAX_PLAINTEXT;
use crate::error::ErrorView;
use crate::events::{ActionView, DecisionView, EventView};
use crate::files::{UploadEndView, UploadView, OFFER_TIMEOUT, PROGRESS_INTERVAL};
use crate::history::occurs;
use crate::laws::transfers::{a_part_occurs, a_sent_chunk_counts_once};
use crate::mesh::{DEFAULT_CODE_TTL, DIAL_TIMEOUT, REDIAL_PAUSE, ROSTER_GRACE, ROSTER_POLL};
use crate::protocol::{
    chat_len, chunk_bytes, chunk_round_trip, civil_days, clock_text, control_bytes, date_text,
    frame_in, hex_text, id_in, month_len, pair_value, real_date, stamp_of, two, year_text,
    ControlView, FrameView, CHUNK_SIZE, KIND_CHUNK, KIND_CONTROL,
};
use crate::sending::{is_news, offer_of, step, CourseView, HappenedView, Stage, WorkView};
use crate::text::{
    all_digits, dec, dec_value, dec_value_of_dec, hex_char, hex_lower, hex_value, json_len,
};

verus! {

// --- bytes -----------------------------------------------------------------------------

/// Whether four bytes of `b`, from `at` on, write `n`, the highest first.
pub open spec fn writes_at(b: Seq<u8>, at: int, n: int) -> bool {
    &&& 0 <= at && at + 4 <= b.len()
    &&& b[at] * 16777216 + b[at + 1] * 65536 + b[at + 2] * 256 + b[at + 3] == n
}

/// A frame is its length in four bytes, the highest first, and then what it
/// carries.
pub proof fn a_frame_is_laid_out(payload: Seq<u8>)
    requires
        payload.len() <= u32::MAX,
    ensures
        frame_bytes(payload).len() == payload.len() + 4,
        writes_at(frame_bytes(payload), 0, payload.len() as int),
        frame_bytes(payload).skip(4) == payload,
{
    let b = frame_bytes(payload);
    let h = crate::codec::frame_head(payload.len());
    head_round_trip(payload.len());
    head_number(h);
    assert(b.skip(4) =~= payload);
}

/// A chunk is the byte 2, its transfer's sixteen bytes, its number in four
/// bytes, the highest first, and then the whole of its data.
pub proof fn a_chunk_is_laid_out(id: Seq<u8>, seq: u32, data: Seq<u8>)
    requires
        id.len() == 16,
    ensures
        ({
            let b = chunk_bytes(id, seq, data);
            &&& b.len() == data.len() + 21
            &&& b[0] == 2
            &&& b.subrange(1, 17) == id
            &&& writes_at(b, 17, seq as int)
            &&& b.skip(21) == data
        }),
{
    let b = chunk_bytes(id, seq, data);
    let h = crate::codec::frame_head(seq as nat);
    head_round_trip(seq as nat);
    head_number(h);
    assert(b.subrange(1, 17) =~= id);
    assert(b.skip(21) =~= data);
    assert(b.subrange(17, 21) =~= h);
    assert(b[17] == h[0] && b[18] == h[1] && b[19] == h[2] && b[20] == h[3]);
}

/// A control message is the byte 1 and then the whole of its text.
pub proof fn a_message_is_laid_out(json: Seq<u8>)
    ensures
        control_bytes(json).len() == json.len() + 1,
        control_bytes(json)[0] == 1,
        control_bytes(json).skip(1) == json,
{
    assert(control_bytes(json).skip(1) =~= json);
}

/// Whatever comes in is read by where it stands, or refused: nothing at all, a
/// chunk without room for its id and number, and a kind that nobody knows.
pub proof fn a_payload_is_read_by_its_layout(b: Seq<u8>)
    ensures
        frame_in(b) is Ok <==> b.len() > 0 && (b[0] == 1 || (b[0] == 2 && b.len() >= 21)),
        b.len() > 0 && b[0] == 1 ==> frame_in(b) == Ok::<FrameView, ErrorView>(
            FrameView::Control(b.skip(1)),
        ),
        b.len() >= 21 && b[0] == 2 ==> (frame_in(b) matches Ok(FrameView::Chunk { id, seq, data })
            && id == b.subrange(1, 17) && writes_at(b, 17, seq as int) && data == b.skip(21)),
        frame_in(b) matches Err(e) ==> e is Protocol,
        b.len() > 0 && b[0] != 1 && b[0] != 2 ==> (frame_in(b) matches Err(ErrorView::Protocol(text))
            && occurs(dec(b[0] as nat), text)),
{
    if b.len() >= 21 {
        let h = b.subrange(17, 21);
        head_number(h);
        assert(h[0] == b[17] && h[1] == b[18] && h[2] == b[19] && h[3] == b[20]);
        assert(frame_len(h) <= u32::MAX);
    }
    if b.len() > 0 {
        let lead = "unknown frame kind "@;
        let none = Seq::<char>::empty();
        assert(lead + dec(b[0] as nat) =~= lead + dec(b[0] as nat) + none);
        a_part_occurs(lead, dec(b[0] as nat), none);
    }
}

/// Every byte is written as two digits, the higher one first, in small letters;
/// so two texts are alike only where the bytes are.
pub proof fn hexadecimal_shows_every_byte(a: Seq<u8>, b: Seq<u8>, i: int)
    requires
        0 <= i < a.len(),
    ensures
        hex_text(a).len() == 2 * a.len(),
        hex_value(hex_text(a)[2 * i]) * 16 + hex_value(hex_text(a)[2 * i + 1]) == a[i],
        !('A' <= hex_text(a)[2 * i] <= 'F') && !('A' <= hex_text(a)[2 * i + 1] <= 'F'),
        hex_text(a) == hex_text(b) ==> a.len() == b.len() && a[i] == b[i],
{
    assert((2 * i) % 2 == 0 && (2 * i + 1) % 2 == 1);
    assert((2 * i) / 2 == i && (2 * i + 1) / 2 == i);
    let (x, y) = (a[i] / 16, a[i] % 16);
    assert(hex_value(hex_lower(x as nat)) == x && hex_value(hex_lower(y as nat)) == y);
    if hex_text(a) == hex_text(b) {
        assert(hex_text(b).len() == 2 * b.len());
        let (p, q) = (b[i] / 16, b[i] % 16);
        assert(hex_value(hex_lower(p as nat)) == p && hex_value(hex_lower(q as nat)) == q);
    }
}

/// An id is read back digit by digit, in capitals or small letters. A text of
/// another length, or with anything that is no digit in the second place of a
/// pair, is no id.
pub proof fn an_id_is_read_digit_by_digit(s: Seq<char>, i: int)
    requires
        0 <= i < 16,
    ensures
        id_in(s) matches Ok(id) ==> s.len() == 32 && id.len() == 16 && hex_char(s[2 * i + 1]) && (
        hex_char(s[2 * i]) ==> id[i] == 16 * hex_value(s[2 * i]) + hex_value(s[2 * i + 1])) && (
        !hex_char(s[2 * i]) ==> s[2 * i] == '+' && id[i] == hex_value(s[2 * i + 1])),
        s.len() == 32 && (forall|k: int| 0 <= k < 32 ==> hex_char(#[trigger] s[k])) ==> id_in(
            s,
        ) is Ok,
        id_in(s) matches Err(e) ==> e == ErrorView::Protocol("bad transfer id"@),
{
    if id_in(s) is Ok {
        assert(pair_value(s[2 * i], s[2 * i + 1]) is Some);
    }
    if s.len() == 32 && (forall|k: int| 0 <= k < 32 ==> hex_char(#[trigger] s[k])) {
        assert forall|k: int| 0 <= k < 16 implies (#[trigger] pair_value(
            s[2 * k],
            s[2 * k + 1],
        )) is Some by {
            assert(hex_char(s[2 * k]) && hex_char(s[2 * k + 1]));
        }
    }
}

/// A chat message takes what its five values take, and the same for the rest
/// whatever they are.
pub proof fn a_chat_message_is_as_long_as_its_values(
    id: Seq<char>,
    from: Seq<char>,
    name: Seq<char>,
    ts: i64,
    body: Seq<char>,
    other: Seq<char>,
)
    ensures
        chat_len(id, from, name, ts, body) - chat_len(id, from, name, ts, other) == json_len(body)
            - json_len(other),
        chat_len(id, from, body, ts, name) == chat_len(id, from, name, ts, body),
        chat_len(id, body, name, ts, from) == chat_len(id, from, name, ts, body),
        chat_len(body, from, name, ts, id) == chat_len(id, from, name, ts, body),
{
}

/// What two peers must agree on: the version, the kinds of payload and their
/// sizes. A whole chunk fits into one frame, sealed.
pub proof fn peers_agree_on_these_numbers()
    ensures
        crate::PROTOCOL_VERSION == 1,
        KIND_CONTROL == 1 && KIND_CHUNK == 2,
        CHUNK_SIZE == 32768 && MAX_PLAINTEXT == 65519 && MAX_FRAME == 65535,
        21 + CHUNK_SIZE <= MAX_PLAINTEXT && MAX_PLAINTEXT + 16 == MAX_FRAME,
{
}

/// How long things may take, in nanoseconds: a code is good for ten minutes, a
/// call is given up after ten seconds and tried again after 600 milliseconds,
/// an unannounced one is held for eight seconds and looked at every 100
/// milliseconds, an offer waits for five minutes, and progress is told every
/// 150 milliseconds.
pub proof fn things_take_their_time()
    ensures
        DEFAULT_CODE_TTL == 10 * 60 * 1_000_000_000,
        DIAL_TIMEOUT == 10 * 1_000_000_000,
        REDIAL_PAUSE == 600 * 1_000_000,
        ROSTER_GRACE == 8 * 1_000_000_000,
        ROSTER_POLL == 100 * 1_000_000,
        OFFER_TIMEOUT == 5 * 60 * 1_000_000_000,
        PROGRESS_INTERVAL == 150 * 1_000_000,
{
}

// --- time --------------------------------------------------------------------------------

/// A time stamp is the seconds since 1970, and zero before that.
pub proof fn a_stamp_is_seconds(secs: Option<u64>)
    ensures
        secs is None ==> stamp_of(secs) == 0,
        secs matches Some(n) ==> n <= i64::MAX ==> stamp_of(secs) == n,
{
}

proof fn two_digits(n: int)
    requires
        0 <= n < 100,
    ensures
        two(n).len() == 2,
        dec_value(two(n)) == n,
        all_digits(two(n)),
{
    let t = two(n);
    assert(t.drop_last().drop_last() =~= Seq::<char>::empty());
    assert(dec_value(t.drop_last().drop_last()) == 0);
    assert(t.drop_last().last() == t[0]);
    assert(dec_value(t.drop_last()) == n / 10);
}

/// A clock time tells the hours, the minutes and the seconds of the day, in two
/// digits each.
pub proof fn a_clock_time_tells_the_time_of_day(secs: int)
    requires
        0 <= secs < 86400,
    ensures
        ({
            let t = clock_text(secs);
            let (h, m, s) = (
                dec_value(t.take(2)),
                dec_value(t.subrange(3, 5)),
                dec_value(t.skip(6)),
            );
            &&& t.len() == 8 && t[2] == ':' && t[5] == ':'
            &&& h * 3600 + m * 60 + s == secs
            &&& h < 24 && m < 60 && s < 60
        }),
{
    let t = clock_text(secs);
    two_digits(secs / 3600);
    two_digits(secs / 60 % 60);
    two_digits(secs % 60);
    assert(t.take(2) =~= two(secs / 3600));
    assert(t.subrange(3, 5) =~= two(secs / 60 % 60));
    assert(t.skip(6) =~= two(secs % 60));
}

/// A date tells the year, the month and the day, in that order.
pub proof fn a_date_tells_its_day(year: int, month: int, day: int)
    requires
        1000 <= year <= 9999,
        real_date(year, month, day),
    ensures
        ({
            let t = date_text(year, month, day);
            &&& t.len() == 10 && t[4] == '-' && t[7] == '-'
            &&& dec_value(t.take(4)) == year
            &&& dec_value(t.subrange(5, 7)) == month
            &&& dec_value(t.skip(8)) == day
        }),
{
    let t = date_text(year, month, day);
    reveal_with_fuel(dec, 5);
    dec_value_of_dec(year as nat);
    assert(year_text(year) == dec(year as nat));
    assert(dec(year as nat).len() == 4);
    two_digits(month);
    two_digits(day);
    assert(t.take(4) =~= dec(year as nat));
    assert(t.subrange(5, 7) =~= two(month));
    assert(t.skip(8) =~= two(day));
}

/// The calendar has no gaps: days are counted one by one, through the months
/// and through the years, from the first day of 1970 on.
#[verifier::rlimit(40)]
pub proof fn days_are_counted_one_by_one(year: int, month: int, day: int)
    requires
        real_date(year, month, day),
    ensures
        civil_days(1970, 1, 1) == 0,
        day < month_len(year, month) ==> civil_days(year, month, day + 1) == civil_days(
            year,
            month,
            day,
        ) + 1,
        day == month_len(year, month) && month < 12 ==> civil_days(year, month + 1, 1)
            == civil_days(year, month, day) + 1,
        day == month_len(year, month) && month == 12 ==> civil_days(year + 1, 1, 1) == civil_days(
            year,
            month,
            day,
        ) + 1,
        28 <= month_len(year, month) <= 31,
        month_len(year, 2) == 29 <==> year % 4 == 0 && (year % 100 != 0 || year % 400 == 0),
{
    if month == 1 || month == 2 {
        leap_days(year);
    }
    if month == 2 && day == month_len(year, 2) {
        february_ends(year);
    } else if day == month_len(year, month) && month < 12 {
        months_follow(month);
    }
}

/// How many leap days there are up to a year, and up to the one before it.
proof fn leap_days(year: int)
    ensures
        year / 4 - (year - 1) / 4 == if year % 4 == 0 {
            1int
        } else {
            0
        },
        year / 100 - (year - 1) / 100 == if year % 100 == 0 {
            1int
        } else {
            0
        },
        year / 400 - (year - 1) / 400 == if year % 400 == 0 {
            1int
        } else {
            0
        },
        year % 100 == 0 ==> year % 4 == 0,
        year % 400 == 0 ==> year % 100 == 0,
{
}

proof fn february_ends(year: int)
    ensures
        civil_days(year, 3, 1) == civil_days(year, 2, month_len(year, 2)) + 1,
{
    leap_days(year);
}

proof fn months_follow(month: int)
    requires
        1 <= month < 12,
        month != 2,
    ensures
        ({
            let m = if month > 2 {
                month - 3
            } else {
                month + 9
            };
            (153 * (m + 1) + 2) / 5 - (153 * m + 2) / 5 == if month == 4 || month == 6 || month == 9
                || month == 11 {
                30int
            } else {
                31
            }
        }),
{
}

// --- the course of a transfer ------------------------------------------------------------

/// A file is offered with its own id, name, size and sum.
pub proof fn an_offer_says_what_it_is_of(up: UploadView)
    ensures
        offer_of(up) matches ControlView::FileOffer { transfer, name, size, sha256 } && transfer
            == hex_text(up.id) && name == up.name && size == up.size && sha256 == up.sha,
{
}

/// A transfer that comes to an end does so for what happened, with the cause as
/// it was told; nothing is counted or said on the way.
pub proof fn a_course_ends_for_what_happened(c: CourseView, news: HappenedView, now: u64)
    requires
        is_news(c, news),
    ensures
        ({
            let to = step(c, news, now);
            &&& news matches HappenedView::Sent(Err(e)) ==> to.work == WorkView::Finish(
                if c.stage is Offering {
                    UploadEndView::OfferFailed(e)
                } else {
                    UploadEndView::LinkFailed(e)
                },
            )
            &&& news matches HappenedView::Answered(Some(DecisionView::Decline(reason)))
                ==> to.work == WorkView::Finish(UploadEndView::Declined(reason))
            &&& news == HappenedView::Answered(None) ==> to.work == WorkView::Finish(
                UploadEndView::TimedOut,
            )
            &&& news matches HappenedView::Opened(Err(e)) ==> to.work == WorkView::Finish(
                UploadEndView::Unreadable(e),
            )
            &&& news matches HappenedView::Read(Err(e)) ==> to.work == WorkView::Finish(
                UploadEndView::ReadFailed(e),
            )
            &&& to.work == WorkView::Finish(UploadEndView::Sent) <==> (news matches HappenedView::Read(
                Ok(data),
            ) && data.len() == 0)
            &&& to.work is Leave <==> news == HappenedView::InRoom(false)
            &&& to.work is Finish || to.work is Leave ==> to.course.up == c.up && to.actions.len()
                == 0
        }),
{
}

/// A transfer goes on one step at a time: the offer, which is told to the user,
/// the wait, the file, and then for each piece a look at the room, the piece
/// itself under the next number, and its count. A piece goes out whole.
#[verifier::rlimit(40)]
pub proof fn a_course_goes_on_step_by_step(c: CourseView, news: HappenedView, now: u64)
    requires
        is_news(c, news),
        c.up.id.len() == 16,
        news matches HappenedView::Read(Ok(data)) ==> data.len() <= usize::MAX,
    ensures
        ({
            let to = step(c, news, now);
            &&& c.stage is Offering && news == HappenedView::Sent(Ok(())) ==> {
                &&& to.work is Await && to.course.stage is Waiting
                &&& to.actions.len() == 1
                &&& to.actions[0] matches ActionView::Emit(EventView::Status(text))
                &&& occurs(c.up.name, text) && occurs(c.up.peer.name, text)
            }
            &&& news == HappenedView::Answered(Some(DecisionView::Accept)) ==> to.work is Open
                && to.course.stage is Opening
            &&& news == HappenedView::Opened(Ok(())) ==> to.work is Look && to.course.stage
                is Looking
            &&& news == HappenedView::InRoom(true) ==> to.work is Read && to.course.stage is Reading
            &&& news matches HappenedView::Read(Ok(data)) ==> data.len() > 0 ==> {
                &&& to.course.stage == Stage::Passing(data.len() as usize)
                &&& to.work matches WorkView::Pass(bytes)
                &&& frame_in(bytes) == Ok::<FrameView, ErrorView>(
                    FrameView::Chunk { id: c.up.id, seq: c.up.seq, data },
                )
            }
            &&& c.stage matches Stage::Passing(n) ==> news == HappenedView::Sent(Ok(())) ==> {
                &&& to.work is Look && to.course.stage is Looking
                &&& to.course.up.sent == c.up.sent + n
                &&& c.up.seq < u32::MAX ==> to.course.up.seq == c.up.seq + 1
                &&& to.course.up.id == c.up.id && to.course.up.peer == c.up.peer
                &&& to.course.up.link == c.up.link && to.course.up.name == c.up.name
                &&& to.course.up.size == c.up.size && to.course.up.sha == c.up.sha
            }
            &&& !(c.stage is Passing) ==> to.course.up == c.up
            &&& !(c.stage is Passing) && !(c.stage is Offering) ==> to.actions.len() == 0
        }),
{
    let (name, who) = (c.up.name, c.up.peer.name);
    let tail = " - waiting for a reply"@;
    assert("Offered "@ + name + " to "@ + who + tail =~= "Offered "@ + name + (" to "@ + who + tail));
    a_part_occurs("Offered "@, name, " to "@ + who + tail);
    a_part_occurs("Offered "@ + name + " to "@, who, tail);
    if let HappenedView::Read(Ok(data)) = news {
        chunk_round_trip(c.up.id, c.up.seq, data);
    }
    if let Stage::Passing(n) = c.stage {
        if news == HappenedView::Sent(Ok(())) {
            a_sent_chunk_counts_once(c.up, n as nat, now);
        }
    }
}

} // verus!
