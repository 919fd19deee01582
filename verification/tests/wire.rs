//! Frames on streams that misbehave, and what is inside a frame.

use std::cell::{Cell, RefCell};
use std::collections::VecDeque;

use chat_core::codec::{
    frame, head_len, read_exact, read_frame, write_all, write_frame, MAX_FRAME,
};
use chat_core::crypto::MAX_PLAINTEXT;
use chat_core::error::{Error, IoError, IoErrorKind};
use chat_core::protocol::{
    chat_fits, decode, encode_chunk, encode_control, fmt_clock, fmt_full, hex, new_id, now_ts, random_bytes,
    stamp, time_or, unhex16, Frame, CHUNK_SIZE, KIND_CHUNK, KIND_CONTROL,
};
use chat_core::transport::Stream;

/// A stream that hands out what it is given, piece by piece, and takes what it
/// is told to take.
struct Script {
    reads: RefCell<VecDeque<Result<Vec<u8>, IoError>>>,
    writes: RefCell<VecDeque<Result<usize, IoError>>>,
    written: RefCell<Vec<u8>>,
    asked: RefCell<Vec<usize>>,
    closed: Cell<bool>,
}

impl Script {
    fn new() -> Script {
        Script {
            reads: RefCell::new(VecDeque::new()),
            writes: RefCell::new(VecDeque::new()),
            written: RefCell::new(Vec::new()),
            asked: RefCell::new(Vec::new()),
            closed: Cell::new(false),
        }
    }

    fn reading(pieces: &[&[u8]]) -> Script {
        let s = Script::new();
        for p in pieces {
            s.reads.borrow_mut().push_back(Ok(p.to_vec()));
        }
        s
    }
}

impl Stream for Script {
    fn read(&self, max: usize) -> Result<Vec<u8>, IoError> {
        self.asked.borrow_mut().push(max);
        match self.reads.borrow_mut().pop_front() {
            Some(r) => r,
            None => Ok(Vec::new()),
        }
    }

    fn write(&self, buf: &[u8]) -> Result<usize, IoError> {
        match self.writes.borrow_mut().pop_front() {
            Some(Ok(n)) => {
                self.written.borrow_mut().extend_from_slice(&buf[..n]);
                Ok(n)
            }
            Some(Err(e)) => Err(e),
            None => {
                self.written.borrow_mut().extend_from_slice(buf);
                Ok(buf.len())
            }
        }
    }

    fn close(&self) {
        self.closed.set(true);
    }

    fn remote_label(&self) -> String {
        "script".to_string()
    }

    fn set_read_timeout(&self, _millis: Option<u64>) -> Result<(), IoError> {
        Ok(())
    }
}

fn interrupted() -> IoError {
    IoError::new(IoErrorKind::Interrupted, "again")
}

#[test]
fn pieces_are_put_together() {
    let s = Script::reading(&[b"ab", b"c", b"de"]);
    s.reads.borrow_mut().insert(1, Err(interrupted()));
    assert_eq!(read_exact(&s, 5).ok().unwrap(), b"abcde");
    assert_eq!(*s.asked.borrow(), vec![5, 3, 3, 2]);
}

#[test]
fn nothing_is_read_where_nothing_is_wanted() {
    let s = Script::new();
    assert!(read_exact(&s, 0).ok().unwrap().is_empty());
    assert!(s.asked.borrow().is_empty());
}

#[test]
fn a_stream_that_ends_early_is_an_error() {
    let s = Script::reading(&[b"ab"]);
    let e = read_exact(&s, 3).err().unwrap();
    assert!(matches!(e.kind, IoErrorKind::UnexpectedEof));
    assert_eq!(e.message, "the peer closed the connection");
}

#[test]
fn a_read_that_fails_fails() {
    let s = Script::new();
    s.reads.borrow_mut().push_back(Err(IoError::new(IoErrorKind::Other, "reset")));
    let e = read_exact(&s, 3).err().unwrap();
    assert!(matches!(e.kind, IoErrorKind::Other));
    assert_eq!(e.message, "reset");
}

#[test]
fn everything_is_written_in_order() {
    let s = Script::new();
    for r in [Ok(2), Err(interrupted()), Ok(1)] {
        s.writes.borrow_mut().push_back(r);
    }
    assert!(write_all(&s, b"abcdef").is_ok());
    assert_eq!(*s.written.borrow(), b"abcdef");
}

#[test]
fn a_peer_that_takes_nothing_is_an_error() {
    let s = Script::new();
    s.writes.borrow_mut().push_back(Ok(2));
    s.writes.borrow_mut().push_back(Ok(0));
    let e = write_all(&s, b"abcdef").err().unwrap();
    assert!(matches!(e.kind, IoErrorKind::WriteZero));
    assert_eq!(e.message, "the peer stopped accepting data");
    assert_eq!(*s.written.borrow(), b"ab");
}

#[test]
fn a_frame_is_its_length_and_its_payload() {
    assert_eq!(frame(b"hey"), vec![0, 0, 0, 3, b'h', b'e', b'y']);
    assert_eq!(head_len(&vec![0, 1, 2, 3]), 0x0001_0203);
    let s = Script::new();
    assert!(write_frame(&s, b"hey").is_ok());
    assert_eq!(*s.written.borrow(), vec![0, 0, 0, 3, b'h', b'e', b'y']);
}

#[test]
fn a_frame_comes_out_as_it_went_in() {
    for len in [0usize, 1, 255, 256, 40_000, MAX_FRAME] {
        let payload: Vec<u8> = (0..len).map(|i| (i % 251) as u8).collect();
        let w = Script::new();
        assert!(write_frame(&w, &payload).is_ok());
        let bytes = w.written.borrow().clone();
        assert_eq!(bytes.len(), len + 4);
        let r = Script::reading(&[&bytes[..3], &bytes[3..4], &bytes[4..]]);
        assert_eq!(read_frame(&r).ok().unwrap(), payload);
    }
}

#[test]
fn frames_come_out_one_after_another() {
    let payloads: [&[u8]; 3] = [b"first", b"", b"third"];
    let w = Script::new();
    for p in payloads {
        assert!(write_frame(&w, p).is_ok());
    }
    let bytes = w.written.borrow().clone();
    let r = Script::new();
    for (i, b) in bytes.iter().enumerate() {
        if i % 3 == 0 {
            r.reads.borrow_mut().push_back(Err(interrupted()));
        }
        r.reads.borrow_mut().push_back(Ok(vec![*b]));
    }
    r.reads.borrow_mut().push_back(Ok(b"rest".to_vec()));
    for p in payloads {
        assert_eq!(read_frame(&r).ok().unwrap(), p);
    }
    assert_eq!(r.reads.borrow().len(), 1);
}

#[test]
fn frames_that_are_too_large_are_refused() {
    let s = Script::new();
    let e = write_frame(&s, &vec![0; MAX_FRAME + 1]).err().unwrap();
    assert!(matches!(e.kind, IoErrorKind::InvalidInput));
    assert_eq!(e.message, "frame too large");
    assert!(s.written.borrow().is_empty());
    let r = Script::reading(&[&[0, 1, 0, 0]]);
    let e = read_frame(&r).err().unwrap();
    assert!(matches!(e.kind, IoErrorKind::InvalidData));
    assert_eq!(e.message, "oversized frame - not a peer speaking this protocol");
}

// --- inside a frame ---

#[test]
fn a_control_message_is_marked_as_one() {
    let b = encode_control(b"{\"t\":\"Bye\"}");
    assert_eq!(b[0], KIND_CONTROL);
    match decode(&b) {
        Ok(Frame::Control(json)) => assert_eq!(json, b"{\"t\":\"Bye\"}"),
        _ => panic!("a control message"),
    }
}

#[test]
fn a_chunk_carries_its_transfer_and_number() {
    let id = [7u8; 16];
    let data = vec![9u8; CHUNK_SIZE];
    let b = encode_chunk(&id, 0x0102_0304, &data);
    assert_eq!(b.len(), 21 + CHUNK_SIZE);
    assert_eq!(b[0], KIND_CHUNK);
    assert_eq!(&b[17..21], &[1, 2, 3, 4]);
    match decode(&b) {
        Ok(Frame::Chunk { id: i, seq, data: d }) => {
            assert_eq!(i, id);
            assert_eq!(seq, 0x0102_0304);
            assert_eq!(d, data);
        }
        _ => panic!("a chunk"),
    }
}

#[test]
fn other_frames_are_errors() {
    let text = |b: &[u8]| match decode(b) {
        Err(e) => e.message(),
        Ok(_) => String::new(),
    };
    assert_eq!(text(&[]), "protocol error: empty frame");
    assert_eq!(text(&[9, 1]), "protocol error: unknown frame kind 9");
    assert_eq!(text(&[2; 20]), "protocol error: truncated file chunk");
    assert!(decode(&[2; 21]).is_ok());
}

#[test]
fn ids_are_written_in_hexadecimal() {
    assert_eq!(hex(&[0, 0x1f, 0xff]), "001fff");
    let id: [u8; 16] = [0, 1, 2, 3, 4, 5, 6, 7, 8, 9, 10, 0xfb, 0xfc, 0xfd, 0xfe, 0xff];
    assert_eq!(unhex16(&hex(&id)).ok().unwrap(), id);
    assert_eq!(unhex16(&hex(&id).to_uppercase()).ok().unwrap(), id);
    for bad in ["", "00", &"0".repeat(31), &"0".repeat(33), &"zz".repeat(16), &"é".repeat(16)] {
        match unhex16(bad) {
            Err(e) => assert_eq!(e.message(), "protocol error: bad transfer id"),
            Ok(_) => panic!("{bad:?} is no id"),
        }
    }
    // A sign counts as a digit's place where std reads it so.
    assert_eq!(unhex16(&"+1".repeat(16)).ok().unwrap(), [1u8; 16]);
}

#[test]
fn random_ids_differ() {
    let (a, b) = (new_id(), new_id());
    assert_eq!(a.len(), 16);
    assert!(a.chars().all(|c| c.is_ascii_hexdigit()));
    assert_ne!(a, b);
    assert_ne!(random_bytes::<16>(), random_bytes::<16>());
    assert_ne!(random_bytes::<32>(), [0u8; 32]);
}

#[test]
fn times_are_written_in_two_forms() {
    let now = now_ts();
    assert!(now > 1_600_000_000);
    assert_eq!(stamp(Some(5)), 5);
    assert_eq!(stamp(None), 0);
    let clock = fmt_clock(now);
    assert_eq!(clock.len(), 8);
    assert_eq!(&clock[2..3], ":");
    let full = fmt_full(now);
    assert_eq!(full.len(), 19);
    assert_eq!(&full[11..], clock);
    assert_eq!(fmt_clock(i64::MAX), "??:??:??");
    assert_eq!(fmt_full(i64::MIN), "unknown time");
    assert_eq!(time_or(Some("x".to_string()), "y"), "x");
    assert_eq!(time_or(None, "y"), "y");
}

/// The number that `s` writes.
fn number(s: &str) -> i64 {
    s.parse().unwrap()
}

/// Seconds since 1970 in a full time, on the clock it was read from.
fn seconds_in(full: &str) -> i64 {
    let (mut y, mut m, d) = (number(&full[0..4]), number(&full[5..7]), number(&full[8..10]));
    if m > 2 {
        m -= 3;
    } else {
        m += 9;
        y -= 1;
    }
    let days = 365 * y + y.div_euclid(4) - y.div_euclid(100) + y.div_euclid(400)
        + (153 * m + 2) / 5
        + d
        - 1
        - 719_468;
    let (h, min, s) = (number(&full[11..13]), number(&full[14..16]), number(&full[17..19]));
    86_400 * days + 3_600 * h + 60 * min + s
}

#[test]
fn a_time_is_the_time_of_its_stamp() {
    assert_eq!(seconds_in("1970-01-01 00:00:00"), 0);
    assert_eq!(seconds_in("2000-02-29 12:34:56"), 951_827_696);
    assert_eq!(seconds_in("2024-03-01 00:00:00"), 1_709_251_200);
    for ts in [
        -62_167_132_800,
        -1,
        0,
        951_827_696,
        1_709_164_800,
        1_709_251_199,
        4_102_444_800,
        253_402_214_399,
    ] {
        let off = seconds_in(&fmt_full(ts)) - ts;
        assert!(off.abs() < 86_400, "{ts} is off by {off}");
        assert_eq!(&fmt_full(ts)[11..], fmt_clock(ts));
    }
}

#[test]
fn far_years_have_a_sign() {
    // Mid-year, so that no time zone moves them into another.
    for (ts, year) in [
        (253_418_025_600, "+10000-"),
        (-62_182_944_000, "-0001-"),
        (-62_151_321_600, "0000-"),
        (8_210_250_000_000, "+262142-"),
        (-8_334_585_000_000, "-262143-"),
    ] {
        let full = fmt_full(ts);
        assert!(full.starts_with(year), "{full} for {ts}");
        assert_eq!(full.len(), year.len() + "06-30 12:00:00".len());
        assert!(full.ends_with(&fmt_clock(ts)));
    }
}

#[test]
fn the_length_of_a_chat_message_is_that_of_its_json() {
    let bodies = ["plain", "\"quoted\" \\ and / too", "tab\t line\n", "\u{1}\u{8}\u{c}\u{1f}\r\u{7f}",
        "\u{e4}\u{20ac}\u{1F600}\u{2028}"];
    for ts in [0, -1, 1_700_000_000, i64::MAX, i64::MIN] {
        for body in bodies {
            for name in ["Ann", "\u{e4}\"b"] {
                let json = |fill: usize| {
                    let mut m = serde_json::Map::new();
                    let full = format!("{body}{}", "x".repeat(fill));
                    m.insert("t".to_string(), "Chat".into());
                    m.insert("id".to_string(), "00ff".into());
                    m.insert("from".to_string(), "me".into());
                    m.insert("name".to_string(), name.into());
                    m.insert("ts".to_string(), ts.into());
                    m.insert("body".to_string(), full.clone().into());
                    let v = serde_json::to_vec(&serde_json::Value::Object(m)).unwrap();
                    (encode_control(&v).len(), full)
                };
                let room = MAX_PLAINTEXT - json(0).0;
                let (len, full) = json(room);
                assert_eq!(len, MAX_PLAINTEXT);
                assert!(chat_fits("00ff", "me", name, ts, &full));
                assert!(!chat_fits("00ff", "me", name, ts, &format!("{full}x")));
            }
        }
    }
}

#[test]
fn the_first_and_the_last_time_there_is() {
    let (first, last) = (-8_334_601_228_800, 8_210_266_876_799);
    assert_ne!(fmt_full(first), "unknown time");
    assert_ne!(fmt_full(last), "unknown time");
    assert_eq!(fmt_full(first - 1), "unknown time");
    assert_eq!(fmt_full(last + 1), "unknown time");
    assert_ne!(fmt_clock(first), "??:??:??");
    assert_eq!(fmt_clock(last + 1), "??:??:??");
    assert_eq!(fmt_full(-62_167_132_800).len(), 19);
    assert_eq!(fmt_full(253_402_214_399).len(), 19);
}

#[test]
fn errors_say_what_they_are() {
    let cases = vec![
        (Error::Io(IoError::new(IoErrorKind::Other, "boom")), "boom"),
        (Error::Crypto("x".to_string()), "encryption error: x"),
        (Error::Protocol("x".to_string()), "protocol error: x"),
        (Error::RoomCode("x".to_string()), "room code error: x"),
        (Error::Unsupported("x".to_string()), "x"),
        (Error::Config("x".to_string()), "x"),
        (Error::Closed("x".to_string()), "x"),
    ];
    for (e, text) in cases {
        assert_eq!(e.message(), text);
    }
}
