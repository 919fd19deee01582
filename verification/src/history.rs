//! Session transcript.
//!
//! Messages live in memory for the lifetime of the room and are written to
//! disk only when the user presses "Download Chat History" and picks a
//! location. Nothing is written anywhere else, by anyone, at any time.

use vstd::prelude::*;

use crate::protocol::{fmt_full, now_ts};
use crate::text::{cat5, cat6, cat7, lower_all, lower_text, same_text};
use crate::views::{each, Dup};

verus! {

#[derive(Clone, Copy, Debug, PartialEq, Eq, Structural)]
pub enum RecordKind {
    /// A chat line written by a person.
    Message,
    /// Room lifecycle note (joins, leaves, transport changes).
    System,
    /// A completed file transfer.
    File,
}

#[derive(Clone, Debug)]
pub struct ChatRecord {
    pub ts: i64,
    pub sender: String,
    pub sender_id: String,
    pub body: String,
    pub kind: RecordKind,
}

#[verifier::ext_equal]
pub struct RecordView {
    pub ts: i64,
    pub sender: Seq<char>,
    pub sender_id: Seq<char>,
    pub body: Seq<char>,
    pub kind: RecordKind,
}

impl View for ChatRecord {
    type V = RecordView;

    open spec fn view(&self) -> RecordView {
        RecordView {
            ts: self.ts,
            sender: self.sender@,
            sender_id: self.sender_id@,
            body: self.body@,
            kind: self.kind,
        }
    }
}

impl Dup for ChatRecord {
    fn dup(&self) -> (r: Self) {
        ChatRecord {
            ts: self.ts,
            sender: self.sender.clone(),
            sender_id: self.sender_id.clone(),
            body: self.body.clone(),
            kind: self.kind,
        }
    }
}

/// The record of a room note.
pub open spec fn note(ts: i64, body: Seq<char>) -> RecordView {
    RecordView {
        ts,
        sender: "system"@,
        sender_id: Seq::empty(),
        body,
        kind: RecordKind::System,
    }
}

impl ChatRecord {
    pub fn message(sender: &str, sender_id: &str, ts: i64, body: &str) -> (r: Self)
        ensures
            r@ == (RecordView {
                ts,
                sender: sender@,
                sender_id: sender_id@,
                body: body@,
                kind: RecordKind::Message,
            }),
    {
        ChatRecord {
            ts,
            sender: sender.to_owned(),
            sender_id: sender_id.to_owned(),
            body: body.to_owned(),
            kind: RecordKind::Message,
        }
    }

    pub fn system(ts: i64, body: &str) -> (r: Self)
        ensures
            r@ == note(ts, body@),
    {
        let r = ChatRecord {
            ts,
            sender: "system".to_owned(),
            sender_id: String::new(),
            body: body.to_owned(),
            kind: RecordKind::System,
        };
        assert(r@ =~= note(ts, body@));
        r
    }

    pub fn file(sender: &str, sender_id: &str, ts: i64, body: &str) -> (r: Self)
        ensures
            r@ == (RecordView {
                ts,
                sender: sender@,
                sender_id: sender_id@,
                body: body@,
                kind: RecordKind::File,
            }),
    {
        ChatRecord {
            ts,
            sender: sender.to_owned(),
            sender_id: sender_id.to_owned(),
            body: body.to_owned(),
            kind: RecordKind::File,
        }
    }
}

/// The line for one record, `time` being its time as text.
pub open spec fn record_line(time: Seq<char>, r: RecordView) -> Seq<char> {
    match r.kind {
        RecordKind::Message => "["@ + time + "] "@ + r.sender + ": "@ + r.body + "\n"@,
        RecordKind::System => "["@ + time + "] * "@ + r.body + "\n"@,
        RecordKind::File => "["@ + time + "] * "@ + r.sender + " (file) "@ + r.body + "\n"@,
    }
}

/// The lines for `records`, `times` being their times as text.
pub open spec fn record_lines(times: Seq<Seq<char>>, records: Seq<RecordView>) -> Seq<char>
    decreases records.len(),
{
    if records.len() == 0 {
        Seq::empty()
    } else {
        record_lines(times.drop_last(), records.drop_last()) + record_line(
            times.last(),
            records.last(),
        )
    }
}

/// The sixty dashes under the heading.
pub open spec fn ruler() -> Seq<char> {
    Seq::new(60, |i: int| '-')
}

/// What stands above the records, `exported` being the time of the export.
pub open spec fn heading(room: Seq<char>, transport: Seq<char>, exported: Seq<char>) -> Seq<char> {
    "Mesh Chat - session transcript\nRoom code : "@ + room + "\nTransport : "@ + transport
        + "\nExported  : "@ + exported + "\n"@ + ruler() + "\n"@
}

fn ruler_text() -> (r: String)
    ensures
        r@ == ruler(),
{
    let mut out = String::new();
    let mut i: usize = 0;
    while i < 60
        invariant
            i <= 60,
            out@ == ruler().take(i as int),
        decreases 60 - i,
    {
        out.push('-');
        assert(out@ =~= ruler().take(i + 1));
        i += 1;
    }
    assert(ruler().take(60) =~= ruler());
    out
}

/// The line for one record.
pub fn line_text(time: &str, r: &ChatRecord) -> (t: String)
    ensures
        t@ == record_line(time@, r@),
{
    match r.kind {
        RecordKind::Message => cat7("[", time, "] ", &r.sender, ": ", &r.body, "\n"),
        RecordKind::System => cat5("[", time, "] * ", &r.body, "\n"),
        RecordKind::File => cat7("[", time, "] * ", &r.sender, " (file) ", &r.body, "\n"),
    }
}

/// What stands above the records.
pub fn heading_text(room: &str, transport: &str, exported: &str) -> (r: String)
    ensures
        r@ == heading(room@, transport@, exported@),
{
    let mut out = cat6(
        "Mesh Chat - session transcript\nRoom code : ",
        room,
        "\nTransport : ",
        transport,
        "\nExported  : ",
        exported,
    );
    out.append("\n");
    out.append(&ruler_text());
    out.append("\n");
    out
}

/// What [`fmt_full`] writes for a time stamp.
pub open spec fn full_time(ts: i64, text: Seq<char>) -> bool {
    exists|t: String| #[trigger] call_ensures(fmt_full, (ts,), t) && t@ == text
}

/// The times of `records` as text.
pub open spec fn full_times(records: Seq<RecordView>, times: Seq<Seq<char>>) -> bool {
    &&& times.len() == records.len()
    &&& forall|i: int| 0 <= i < records.len() ==> full_time(records[i].ts, #[trigger] times[i])
}

/// Render the transcript as plain text: one `[timestamp] sender: body` line
/// per record.
pub fn render_text(room: &str, transport: &str, records: &[ChatRecord]) -> (r: String)
    ensures
        exists|now: i64, exported: Seq<char>, times: Seq<Seq<char>>|
            call_ensures(now_ts, (), now) && #[trigger] full_time(now, exported)
                && #[trigger] full_times(each(records@), times) && r@ == heading(
                room@,
                transport@,
                exported,
            ) + record_lines(times, each(records@)),
{
    let now: i64 = now_ts();
    assert(call_ensures(now_ts, (), now));
    let exported = fmt_full(now);
    assert(full_time(now, exported@));
    let mut out = heading_text(room, transport, &exported);
    let ghost head = out@;
    let ghost mut times: Seq<Seq<char>> = Seq::empty();
    let mut i: usize = 0;
    while i < records.len()
        invariant
            i <= records@.len(),
            full_times(each(records@).take(i as int), times),
            out@ == head + record_lines(times, each(records@).take(i as int)),
        decreases records@.len() - i,
    {
        let time = fmt_full(records[i].ts);
        out.append(&line_text(&time, &records[i]));
        proof {
            let upto = each(records@).take(i + 1);
            assert(upto.drop_last() =~= each(records@).take(i as int));
            assert(times.push(time@).drop_last() =~= times);
            assert(full_time(records@[i as int].ts, time@));
            times = times.push(time@);
            assert(out@ =~= head + record_lines(times, upto));
        }
        i += 1;
    }
    assert(each(records@).take(i as int) =~= each(records@));
    assert(out@ == heading(room@, transport@, exported@) + record_lines(times, each(records@)));
    out
}

/// Whether an export to a file with this extension is structured JSON; any
/// other extension means the plain-text rendering.
pub fn wants_json(extension: Option<&str>) -> (r: bool)
    ensures
        r == match extension {
            Some(e) => lower_all(e@) == "json"@,
            None => false,
        },
{
    match extension {
        Some(e) => same_text(&lower_text(e), "json"),
        None => false,
    }
}

// --- laws ----------------------------------------------------------------------

/// Where `part` stands in `whole`.
pub open spec fn occurs(part: Seq<char>, whole: Seq<char>) -> bool {
    exists|before: Seq<char>, after: Seq<char>| whole == #[trigger] (before + part + after)
}

/// Every record has its line in the transcript.
pub proof fn every_record_is_written(times: Seq<Seq<char>>, records: Seq<RecordView>, i: int)
    requires
        times.len() == records.len(),
        0 <= i < records.len(),
    ensures
        occurs(record_line(times[i], records[i]), record_lines(times, records)),
    decreases records.len(),
{
    let whole = record_lines(times, records);
    let part = record_line(times[i], records[i]);
    let t = times.drop_last();
    let r = records.drop_last();
    if i == records.len() - 1 {
        let before = record_lines(t, r);
        assert(whole =~= before + part + Seq::empty());
    } else {
        every_record_is_written(t, r, i);
        assert(t[i] == times[i] && r[i] == records[i]);
        let inner = record_lines(t, r);
        let (before, after) = choose|before: Seq<char>, after: Seq<char>|
            inner == #[trigger] (before + part + after);
        let last = record_line(times.last(), records.last());
        assert(whole =~= before + part + (after + last));
    }
}

/// Recording one more thing adds its line at the end and changes nothing
/// above it.
pub proof fn transcript_only_grows(
    times: Seq<Seq<char>>,
    records: Seq<RecordView>,
    time: Seq<char>,
    r: RecordView,
)
    requires
        times.len() == records.len(),
    ensures
        record_lines(times.push(time), records.push(r)) == record_lines(times, records)
            + record_line(time, r),
{
    assert(times.push(time).drop_last() =~= times);
    assert(records.push(r).drop_last() =~= records);
}

/// The lines of two lists of records are those of the one behind those of the
/// other: where the clock stands still, the transcript of `a + b` is that of
/// `a`, then that of `b` without its heading.
pub proof fn transcripts_join(
    room: Seq<char>,
    transport: Seq<char>,
    exported: Seq<char>,
    times_a: Seq<Seq<char>>,
    a: Seq<RecordView>,
    times_b: Seq<Seq<char>>,
    b: Seq<RecordView>,
)
    requires
        times_a.len() == a.len(),
        times_b.len() == b.len(),
    ensures
        record_lines(times_a + times_b, a + b) == record_lines(times_a, a) + record_lines(
            times_b,
            b,
        ),
        ({
            let head = heading(room, transport, exported);
            let whole_b = head + record_lines(times_b, b);
            head + record_lines(times_a + times_b, a + b) == head + record_lines(times_a, a)
                + whole_b.skip(head.len() as int)
        }),
    decreases b.len(),
{
    let head = heading(room, transport, exported);
    if b.len() == 0 {
        assert(a + b =~= a);
        assert(times_a + times_b =~= times_a);
        assert(record_lines(times_a, a) + Seq::<char>::empty() =~= record_lines(times_a, a));
    } else {
        let t = times_b.drop_last();
        let r = b.drop_last();
        transcripts_join(room, transport, exported, times_a, a, t, r);
        assert((a + b).drop_last() =~= a + r);
        assert((times_a + times_b).drop_last() =~= times_a + t);
        let last = record_line(times_b.last(), b.last());
        assert(record_lines(times_a, a) + record_lines(t, r) + last =~= record_lines(times_a, a) + (
        record_lines(t, r) + last));
    }
    let whole_b = head + record_lines(times_b, b);
    assert(whole_b.skip(head.len() as int) =~= record_lines(times_b, b));
    assert(head + (record_lines(times_a, a) + record_lines(times_b, b)) =~= head + record_lines(
        times_a,
        a,
    ) + record_lines(times_b, b));
}

/// The heading is five lines long, whatever stands in it, as long as the room,
/// the transport and the time are one line each.
pub proof fn heading_is_five_lines(room: Seq<char>, transport: Seq<char>, exported: Seq<char>)
    requires
        !room.contains('\n'),
        !transport.contains('\n'),
        !exported.contains('\n'),
    ensures
        heading(room, transport, exported).last() == '\n',
        newlines(heading(room, transport, exported)) == 5,
{
    reveal_strlit("Mesh Chat - session transcript\nRoom code : ");
    reveal_strlit("\nTransport : ");
    reveal_strlit("\nExported  : ");
    reveal_strlit("\n");
    let a = "Mesh Chat - session transcript\nRoom code : "@;
    let b = "\nTransport : "@;
    let c = "\nExported  : "@;
    let d = "\n"@;
    newlines_none(room);
    newlines_none(transport);
    newlines_none(exported);
    newlines_none(ruler());
    newlines_once(a, 30);
    newlines_once(b, 0);
    newlines_once(c, 0);
    newlines_once(d, 0);
    newlines_join(a, room);
    newlines_join(a + room, b);
    newlines_join(a + room + b, transport);
    newlines_join(a + room + b + transport, c);
    newlines_join(a + room + b + transport + c, exported);
    newlines_join(a + room + b + transport + c + exported, d);
    newlines_join(a + room + b + transport + c + exported + d, ruler());
    newlines_join(a + room + b + transport + c + exported + d + ruler(), d);
}

/// How many lines end in `s`.
pub open spec fn newlines(s: Seq<char>) -> nat
    decreases s.len(),
{
    if s.len() == 0 {
        0
    } else {
        newlines(s.drop_last()) + if s.last() == '\n' {
            1nat
        } else {
            0nat
        }
    }
}

proof fn newlines_join(a: Seq<char>, b: Seq<char>)
    ensures
        newlines(a + b) == newlines(a) + newlines(b),
    decreases b.len(),
{
    if b.len() == 0 {
        assert(a + b =~= a);
    } else {
        assert((a + b).drop_last() =~= a + b.drop_last());
        newlines_join(a, b.drop_last());
    }
}

proof fn newlines_none(s: Seq<char>)
    requires
        !s.contains('\n'),
    ensures
        newlines(s) == 0,
    decreases s.len(),
{
    if s.len() > 0 {
        assert(s.contains(s.last()));
        assert forall|i: int| 0 <= i < s.len() - 1 implies s.drop_last()[i] != '\n' by {
            assert(s.contains(s[i]));
        }
        newlines_none(s.drop_last());
    }
}

proof fn newlines_once(s: Seq<char>, at: int)
    requires
        0 <= at < s.len(),
        s[at] == '\n',
        forall|i: int| 0 <= i < s.len() && i != at ==> #[trigger] s[i] != '\n',
    ensures
        newlines(s) == 1,
{
    let a = s.take(at);
    let b = seq!['\n'];
    let c = s.skip(at + 1);
    assert(s =~= a + b + c);
    newlines_none(a);
    newlines_none(c);
    assert(b.drop_last() =~= Seq::empty());
    assert(newlines(b.drop_last()) == 0);
    assert(newlines(b) == 1);
    newlines_join(a, b);
    newlines_join(a + b, c);
}

} // verus!
