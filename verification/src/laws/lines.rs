//! What a transcript promises of each of its lines: nothing that was recorded
//! is cut, added to or told in another's name.

use vstd::prelude::*;

use crate::history::{heading, occurs, record_line, RecordKind, RecordView};
use crate::laws::transfers::a_part_occurs;

verus! {

/// Whether `part` stands in `whole` from `at` on.
pub open spec fn stands_at(whole: Seq<char>, at: int, part: Seq<char>) -> bool {
    0 <= at && at + part.len() <= whole.len() && whole.subrange(at, at + part.len() as int) == part
}

/// A message's line is its time in brackets, its sender, a colon and the whole
/// of its text, to the last character before the line's end; it holds nothing
/// else.
#[verifier::rlimit(40)]
pub proof fn a_message_line_is_whole(time: Seq<char>, r: RecordView)
    requires
        r.kind == RecordKind::Message,
    ensures
        ({
            let line = record_line(time, r);
            let t = time.len() as int;
            let s = r.sender.len() as int;
            &&& line.len() == time.len() + r.sender.len() + r.body.len() + 6
            &&& line[0] == '['
            &&& stands_at(line, 1, time)
            &&& stands_at(line, 1 + t, seq![']', ' '])
            &&& stands_at(line, 3 + t, r.sender)
            &&& stands_at(line, 3 + t + s, seq![':', ' '])
            &&& stands_at(line, 5 + t + s, r.body)
            &&& line.skip(line.len() - 1 - r.body.len()) == r.body.push('\n')
        }),
{
    let line = record_line(time, r);
    reveal_strlit("[");
    reveal_strlit("] ");
    reveal_strlit(": ");
    reveal_strlit("\n");
    let (t, s, b) = (time.len() as int, r.sender.len() as int, r.body.len() as int);
    assert(line.subrange(1, 1 + t) =~= time);
    assert(line.subrange(1 + t, 3 + t) =~= seq![']', ' ']);
    assert(line.subrange(3 + t, 3 + t + s) =~= r.sender);
    assert(line.subrange(3 + t + s, 5 + t + s) =~= seq![':', ' ']);
    assert(line.subrange(5 + t + s, 5 + t + s + b) =~= r.body);
    assert(line.skip(line.len() - 1 - b) =~= r.body.push('\n'));
}

/// A notice's line is its time in brackets, a star and the whole of its text.
pub proof fn a_notice_line_is_whole(time: Seq<char>, r: RecordView)
    requires
        r.kind == RecordKind::System,
    ensures
        ({
            let line = record_line(time, r);
            let t = time.len() as int;
            &&& line.len() == time.len() + r.body.len() + 6
            &&& line[0] == '['
            &&& stands_at(line, 1, time)
            &&& stands_at(line, 1 + t, seq![']', ' ', '*', ' '])
            &&& stands_at(line, 5 + t, r.body)
            &&& line.skip(line.len() - 1 - r.body.len()) == r.body.push('\n')
        }),
{
    let line = record_line(time, r);
    reveal_strlit("[");
    reveal_strlit("] * ");
    reveal_strlit("\n");
    let (t, b) = (time.len() as int, r.body.len() as int);
    assert(line.subrange(1, 1 + t) =~= time);
    assert(line.subrange(1 + t, 5 + t) =~= seq![']', ' ', '*', ' ']);
    assert(line.subrange(5 + t, 5 + t + b) =~= r.body);
    assert(line.skip(line.len() - 1 - b) =~= r.body.push('\n'));
}

/// A file's line is its time in brackets, a star, who it is with, the mark of a
/// file and the whole of what is said of it.
#[verifier::rlimit(40)]
pub proof fn a_file_line_is_whole(time: Seq<char>, r: RecordView)
    requires
        r.kind == RecordKind::File,
    ensures
        ({
            let line = record_line(time, r);
            let t = time.len() as int;
            let s = r.sender.len() as int;
            &&& line.len() == time.len() + r.sender.len() + r.body.len() + 14
            &&& line[0] == '['
            &&& stands_at(line, 1, time)
            &&& stands_at(line, 1 + t, seq![']', ' ', '*', ' '])
            &&& stands_at(line, 5 + t, r.sender)
            &&& stands_at(
                line,
                5 + t + s,
                seq![' ', '(', 'f', 'i', 'l', 'e', ')', ' '],
            )
            &&& stands_at(line, 13 + t + s, r.body)
            &&& line.skip(line.len() - 1 - r.body.len()) == r.body.push('\n')
        }),
{
    let line = record_line(time, r);
    reveal_strlit("[");
    reveal_strlit("] * ");
    reveal_strlit(" (file) ");
    reveal_strlit("\n");
    let (t, s, b) = (time.len() as int, r.sender.len() as int, r.body.len() as int);
    assert(line.subrange(1, 1 + t) =~= time);
    assert(line.subrange(1 + t, 5 + t) =~= seq![']', ' ', '*', ' ']);
    assert(line.subrange(5 + t, 5 + t + s) =~= r.sender);
    assert(line.subrange(5 + t + s, 13 + t + s) =~= seq![' ', '(', 'f', 'i', 'l', 'e', ')', ' ']);
    assert(line.subrange(13 + t + s, 13 + t + s + b) =~= r.body);
    assert(line.skip(line.len() - 1 - b) =~= r.body.push('\n'));
}

/// Whatever was recorded, the line keeps it apart: two records of one kind, by
/// one sender and at one time have the same line only if they say the same.
pub proof fn lines_tell_records_apart(time: Seq<char>, r: RecordView, s: RecordView)
    requires
        r.kind == s.kind,
        r.sender == s.sender,
        record_line(time, r) == record_line(time, s),
    ensures
        r.body == s.body,
{
    match r.kind {
        RecordKind::Message => {
            a_message_line_is_whole(time, r);
            a_message_line_is_whole(time, s);
        },
        RecordKind::System => {
            a_notice_line_is_whole(time, r);
            a_notice_line_is_whole(time, s);
        },
        RecordKind::File => {
            a_file_line_is_whole(time, r);
            a_file_line_is_whole(time, s);
        },
    }
}

/// The heading tells the room, the transport and the time of the export, each
/// whole and behind its own label.
#[verifier::rlimit(40)]
pub proof fn the_heading_tells_what_it_is_of(
    room: Seq<char>,
    transport: Seq<char>,
    exported: Seq<char>,
)
    ensures
        occurs("Room code : "@ + room + "\n"@, heading(room, transport, exported)),
        occurs("\nTransport : "@ + transport + "\n"@, heading(room, transport, exported)),
        occurs("\nExported  : "@ + exported + "\n"@, heading(room, transport, exported)),
{
    let whole = heading(room, transport, exported);
    let title = "Mesh Chat - session transcript\nRoom code : "@;
    reveal_strlit("Mesh Chat - session transcript\nRoom code : ");
    reveal_strlit("Room code : ");
    reveal_strlit("\nTransport : ");
    reveal_strlit("\nExported  : ");
    reveal_strlit("Transport : ");
    reveal_strlit("Exported  : ");
    reveal_strlit("\n");
    let (a, b, c, d) = ("Room code : "@, "\nTransport : "@, "\nExported  : "@, "\n"@);
    let under = crate::history::ruler() + d;
    let one = title.take(31);
    assert(title =~= one + a);
    let after_room = "Transport : "@ + transport + c + exported + d + under;
    assert(whole =~= one + (a + room + d) + after_room);
    a_part_occurs(one, a + room + d, after_room);
    let after_transport = "Exported  : "@ + exported + d + under;
    assert(whole =~= title + room + (b + transport + d) + after_transport);
    a_part_occurs(title + room, b + transport + d, after_transport);
    assert(whole =~= title + room + b + transport + (c + exported + d) + under);
    a_part_occurs(title + room + b + transport, c + exported + d, under);
}

} // verus!
