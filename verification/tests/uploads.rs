//! The course of an outgoing transfer, step by step.

use chat_core::error::{Error, IoError, IoErrorKind};
use chat_core::events::{Action, Decision, Event};
use chat_core::files::{Upload, UploadEnd};
use chat_core::protocol::{decode, encode_chunk, Control, Frame, PeerInfo};
use chat_core::sending::{Course, Happened, Stage, Work};

const ID: [u8; 16] = [7; 16];

fn upload(size: u64) -> Upload {
    let ann = PeerInfo {
        id: "a1".to_string(),
        name: "Ann".to_string(),
        addr: "10.0.0.2:1".to_string(),
        fingerprint: "aa:bb".to_string(),
    };
    Upload::new(ID, ann, 3, "f.bin", size, "cafe")
}

fn boom() -> Error {
    Error::Io(IoError::new(IoErrorKind::Other, "boom"))
}

/// A course whose offer was accepted and whose file is open.
fn under_way(size: u64) -> Course {
    let (mut c, _) = Course::start(upload(size));
    c.next(Happened::Sent(Ok(())), 0);
    c.next(Happened::Answered(Some(Decision::Accept)), 0);
    c.next(Happened::Opened(Ok(())), 0);
    c
}

fn piece(c: &mut Course, data: &[u8]) -> Work {
    let (said, work) = c.next(Happened::InRoom(true), 0);
    assert!(said.is_empty() && matches!(work, Work::Read));
    c.next(Happened::Read(Ok(data.to_vec())), 0).1
}

#[test]
fn the_offer_goes_first_and_waits() {
    let (mut c, work) = Course::start(upload(5));
    match work {
        Work::Offer(Control::FileOffer { transfer, name, size, sha256 }) => {
            assert_eq!(transfer, "07070707070707070707070707070707");
            assert_eq!((name.as_str(), size, sha256.as_str()), ("f.bin", 5, "cafe"));
        }
        _ => panic!("the offer should go first"),
    }
    let (said, work) = c.next(Happened::Sent(Ok(())), 0);
    assert!(matches!(work, Work::Await));
    assert_eq!(said.len(), 1);
    match &said[0] {
        Action::Emit(Event::Status(s)) => {
            assert_eq!(s, "Offered f.bin to Ann - waiting for a reply")
        }
        _ => panic!("the offer should be announced"),
    }
    assert_eq!(c.stage, Stage::Waiting);
}

#[test]
fn an_accepted_file_goes_out_whole() {
    let mut c = under_way(5);
    let pieces: [&[u8]; 2] = [b"abc", b"de"];
    for (i, data) in pieces.iter().enumerate() {
        match piece(&mut c, data) {
            Work::Pass(chunk) => {
                assert_eq!(chunk, encode_chunk(&ID, i as u32, data));
                match decode(&chunk).ok().unwrap() {
                    Frame::Chunk { id, seq, data: d } => {
                        assert_eq!((id, seq as usize), (ID, i));
                        assert_eq!(&d[..], *data);
                    }
                    _ => panic!("a chunk should be a chunk"),
                }
            }
            _ => panic!("a piece should be sent"),
        }
        assert_eq!(c.stage, Stage::Passing(data.len()));
        assert!(c.can_count(data.len()));
        let (said, work) = c.next(Happened::Sent(Ok(())), 0);
        assert_eq!(said.len(), 1);
        assert!(matches!(work, Work::Look));
    }
    assert_eq!((c.up.sent, c.up.seq), (5, 2));
    assert!(matches!(piece(&mut c, b""), Work::Finish(UploadEnd::Sent)));
    assert_eq!(c.stage, Stage::Over);
}

#[test]
fn an_empty_file_is_sent_at_once() {
    let mut c = under_way(0);
    assert!(matches!(piece(&mut c, b""), Work::Finish(UploadEnd::Sent)));
}

#[test]
fn nothing_follows_a_refusal() {
    let cases = [
        (Some(Decision::Decline("no".to_string())), true),
        (None, false),
    ];
    for (answer, declined) in cases {
        let (mut c, _) = Course::start(upload(5));
        c.next(Happened::Sent(Ok(())), 0);
        match c.next(Happened::Answered(answer), 0).1 {
            Work::Finish(UploadEnd::Declined(why)) => assert!(declined && why == "no"),
            Work::Finish(UploadEnd::TimedOut) => assert!(!declined),
            _ => panic!("the transfer should be over"),
        }
        assert_eq!(c.stage, Stage::Over);
    }
}

#[test]
fn every_failure_ends_the_course() {
    let (mut c, _) = Course::start(upload(5));
    match c.next(Happened::Sent(Err(boom())), 0) {
        (said, Work::Finish(UploadEnd::OfferFailed(e))) => {
            assert!(said.is_empty());
            assert_eq!(e.message(), "boom");
        }
        _ => panic!("the offer failed"),
    }

    let (mut c, _) = Course::start(upload(5));
    c.next(Happened::Sent(Ok(())), 0);
    let (_, work) = c.next(Happened::Answered(Some(Decision::Accept)), 0);
    assert!(matches!(work, Work::Open));
    match c.next(Happened::Opened(Err("locked".to_string())), 0).1 {
        Work::Finish(UploadEnd::Unreadable(e)) => assert_eq!(e, "locked"),
        _ => panic!("the file is locked"),
    }

    let mut c = under_way(5);
    c.next(Happened::InRoom(true), 0);
    match c.next(Happened::Read(Err("bad sector".to_string())), 0).1 {
        Work::Finish(UploadEnd::ReadFailed(e)) => assert_eq!(e, "bad sector"),
        _ => panic!("the file cannot be read"),
    }

    let mut c = under_way(5);
    piece(&mut c, b"abc");
    match c.next(Happened::Sent(Err(boom())), 0).1 {
        Work::Finish(UploadEnd::LinkFailed(e)) => assert_eq!(e.message(), "boom"),
        _ => panic!("the link failed"),
    }
    assert_eq!(c.up.sent, 0);
    assert_eq!(c.stage, Stage::Over);
}

#[test]
fn leaving_the_room_ends_it_in_silence() {
    let mut c = under_way(5);
    piece(&mut c, b"abc");
    c.next(Happened::Sent(Ok(())), 0);
    let (said, work) = c.next(Happened::InRoom(false), 0);
    assert!(said.is_empty() && matches!(work, Work::Leave));
    assert_eq!(c.stage, Stage::Over);
}

#[test]
fn what_cannot_be_counted_is_seen() {
    let mut c = under_way(5);
    c.up.sent = u64::MAX - 2;
    assert!(c.can_count(2));
    assert!(!c.can_count(3));
}
