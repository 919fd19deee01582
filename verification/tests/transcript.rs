//! Transcripts and the export formats.

use chat_core::history::{heading_text, line_text, render_text, wants_json, ChatRecord};
use chat_core::protocol::{fmt_full, now_ts};

#[test]
fn text_export_contains_sender_and_body() {
    let records = vec![ChatRecord::message("Alice", "aa", 0, "hello there")];
    let text = render_text("L-ABCDE-FGHIJ", "LAN", &records);
    assert!(text.contains("Alice: hello there"));
    assert!(text.contains("L-ABCDE-FGHIJ"));
}

#[test]
fn each_kind_of_record_has_its_line() {
    let t = "2024-01-02 03:04:05";
    let m = ChatRecord::message("Alice", "aa", 7, "hi");
    assert_eq!(line_text(t, &m), "[2024-01-02 03:04:05] Alice: hi\n");
    let s = ChatRecord::system(7, "Bob left");
    assert_eq!(line_text(t, &s), "[2024-01-02 03:04:05] * Bob left\n");
    let f = ChatRecord::file("Alice", "aa", 7, "sent x");
    assert_eq!(line_text(t, &f), "[2024-01-02 03:04:05] * Alice (file) sent x\n");
    assert_eq!((m.ts, m.sender_id.as_str()), (7, "aa"));
    assert_eq!((s.sender.as_str(), s.sender_id.as_str()), ("system", ""));
}

#[test]
fn the_heading_names_the_room() {
    assert_eq!(
        heading_text("L-ABCDE-FGHIJ", "LAN", "2024-01-02 03:04:05"),
        "Mesh Chat - session transcript\nRoom code : L-ABCDE-FGHIJ\nTransport : LAN\n\
         Exported  : 2024-01-02 03:04:05\n\
         ------------------------------------------------------------\n"
    );
}

#[test]
fn records_are_written_in_order() {
    let records = vec![
        ChatRecord::message("A", "a", 0, "first"),
        ChatRecord::system(0, "second"),
        ChatRecord::file("B", "b", 0, "third"),
    ];
    let text = render_text("R", "LAN", &records);
    let tail: Vec<&str> = text.lines().skip(text.lines().count() - 3).collect();
    assert!(tail[0].ends_with("] A: first"), "{text}");
    assert!(tail[1].ends_with("] * second"), "{text}");
    assert!(tail[2].ends_with("] * B (file) third"), "{text}");
    let shorter = render_text("R", "LAN", &records[..2]);
    assert_eq!(text.lines().count(), shorter.lines().count() + 1);
}

#[test]
fn two_transcripts_join() {
    let a = vec![ChatRecord::message("A", "a", 0, "one"), ChatRecord::system(60, "two")];
    let b = vec![ChatRecord::file("B", "b", 120, "three")];
    let both = vec![
        ChatRecord::message("A", "a", 0, "one"),
        ChatRecord::system(60, "two"),
        ChatRecord::file("B", "b", 120, "three"),
    ];
    let lines = |r: &[ChatRecord]| {
        let text = render_text("L-ABCDE-FGHIJ", "LAN", r);
        let all: Vec<String> = text.split_inclusive('\n').map(|l| l.to_string()).collect();
        assert_eq!(all[3].len(), "Exported  : 2024-01-02 03:04:05\n".len());
        all[5..].concat()
    };
    assert_eq!(lines(&both), lines(&a) + &lines(&b));
    assert_eq!(lines(&[]), "");
}

#[test]
fn the_export_time_is_the_present() {
    let before = now_ts();
    let text = render_text("L-ABCDE-FGHIJ", "LAN", &[]);
    let after = now_ts();
    let line = text.lines().nth(3).unwrap();
    assert!((before..=after).any(|ts| line == format!("Exported  : {}", fmt_full(ts))));
}

#[test]
fn the_extension_picks_the_format() {
    assert!(wants_json(Some("json")));
    assert!(wants_json(Some("JSON")));
    assert!(wants_json(Some("Json")));
    assert!(!wants_json(Some("txt")));
    assert!(!wants_json(Some("json5")));
    assert!(!wants_json(None));
}
