//! Encrypted links, held against the Noise implementation itself.

use std::cell::{Cell, RefCell};
use std::rc::Rc;
use std::time::{Duration, Instant};

use chat_core::clock::{Clock, MILLISECOND};
use chat_core::codec::{frame, read_frame};
use chat_core::crypto::{
    fingerprint, fingerprint_of, Identity, SecureLink, HANDSHAKE_TIMEOUT, MAX_PLAINTEXT,
};
use chat_core::error::{Error, IoError, IoErrorKind};
use chat_core::hashing::{digest, FileHasher};
use chat_core::protocol::hex;
use chat_core::transport::Stream;
use chat_core::watched::{time_left, Watched};

const PATTERN: &str = "Noise_XX_25519_ChaChaPoly_BLAKE2s";

/// The far end of a stream, which answers each frame as it comes.
struct Far {
    hs: Option<snow::HandshakeState>,
    session: Option<snow::TransportState>,
    out: Vec<u8>,
    got: Vec<Vec<u8>>,
    timeouts: Vec<Option<u64>>,
    spoil: bool,
    closed: bool,
}

impl Far {
    fn say(&mut self) {
        let mut buf = vec![0u8; 1024];
        let hs = self.hs.as_mut().unwrap();
        let n = hs.write_message(&[], &mut buf).unwrap();
        if self.spoil {
            buf[n - 1] ^= 1;
        }
        self.out.extend_from_slice(&frame(&buf[..n]));
        self.turn();
    }

    fn turn(&mut self) {
        if self.hs.as_ref().unwrap().is_handshake_finished() {
            let hs = self.hs.take().unwrap();
            self.session = Some(hs.into_transport_mode().unwrap());
        }
    }

    fn hear(&mut self, payload: &[u8]) {
        let mut buf = vec![0u8; 65_535];
        if let Some(t) = self.session.as_mut() {
            let n = t.read_message(payload, &mut buf).unwrap();
            self.got.push(buf[..n].to_vec());
            return;
        }
        self.hs.as_mut().unwrap().read_message(payload, &mut buf).unwrap();
        self.turn();
        if self.hs.as_ref().map(|h| h.is_my_turn()).unwrap_or(false) {
            self.say();
        }
    }
}

#[derive(Clone)]
struct Wire {
    far: Rc<RefCell<Far>>,
    label: Rc<Cell<u32>>,
}

impl Wire {
    fn new(initiator: bool, key: &[u8]) -> Wire {
        let b = snow::Builder::new(PATTERN.parse().unwrap()).local_private_key(key);
        let hs = if initiator { b.build_initiator() } else { b.build_responder() };
        let w = Wire {
            far: Rc::new(RefCell::new(Far {
                hs: Some(hs.unwrap()),
                session: None,
                out: Vec::new(),
                got: Vec::new(),
                timeouts: Vec::new(),
                spoil: false,
                closed: false,
            })),
            label: Rc::new(Cell::new(0)),
        };
        if initiator {
            w.far.borrow_mut().say();
        }
        w
    }

    fn send(&self, payload: &[u8]) {
        let mut buf = vec![0u8; payload.len() + 64];
        let mut far = self.far.borrow_mut();
        let n = far.session.as_mut().unwrap().write_message(payload, &mut buf).unwrap();
        far.out.extend_from_slice(&frame(&buf[..n]));
    }
}

impl Stream for Wire {
    fn read(&self, max: usize) -> Result<Vec<u8>, IoError> {
        let mut far = self.far.borrow_mut();
        let n = max.min(far.out.len()).min(1000);
        Ok(far.out.drain(..n).collect())
    }

    fn write(&self, buf: &[u8]) -> Result<usize, IoError> {
        self.far.borrow_mut().hear(&buf[4..]);
        Ok(buf.len())
    }

    fn close(&self) {
        self.far.borrow_mut().closed = true;
    }

    fn remote_label(&self) -> String {
        self.label.set(self.label.get() + 1);
        "10.0.0.3:9".to_string()
    }

    fn set_read_timeout(&self, millis: Option<u64>) -> Result<(), IoError> {
        self.far.borrow_mut().timeouts.push(millis);
        Err(IoError::new(IoErrorKind::Other, "not supported"))
    }
}

fn keys() -> (Identity, Identity) {
    (Identity::generate().ok().unwrap(), Identity::generate().ok().unwrap())
}

/// The window was set first, and what was left of it before every read.
fn within_the_window(timeouts: &[Option<u64>], reads: usize) {
    assert_eq!(timeouts.len(), reads + 1);
    assert_eq!(timeouts[0], Some(HANDSHAKE_TIMEOUT));
    for pair in timeouts.windows(2) {
        assert!(pair[1] <= pair[0] && pair[1] > Some(0));
    }
}

#[test]
fn a_dialled_link_carries_messages_both_ways() {
    let (mine, theirs) = keys();
    let wire = Wire::new(false, &theirs.private);
    let mut link = SecureLink::handshake_initiator(wire.clone(), &mine).ok().unwrap();
    // One reply is read, its length and then the rest.
    let timeouts = wire.far.borrow().timeouts.clone();
    assert_eq!(timeouts.last(), Some(&None));
    within_the_window(&timeouts[..timeouts.len() - 1], 2);
    assert_eq!(HANDSHAKE_TIMEOUT, 20_000);
    assert_eq!(link.fingerprint(), theirs.fingerprint());
    assert_eq!(link.remote_label(), "10.0.0.3:9");
    for text in ["one", "two", ""] {
        assert!(link.send(text.as_bytes()).is_ok());
        wire.send(text.as_bytes());
        assert_eq!(link.recv().ok().unwrap(), text.as_bytes());
    }
    let got: Vec<Vec<u8>> = wire.far.borrow().got.clone();
    assert_eq!(got, vec![b"one".to_vec(), b"two".to_vec(), Vec::new()]);
    link.close();
    assert!(wire.far.borrow().closed);
}

#[test]
fn an_accepted_link_carries_messages_both_ways() {
    let (mine, theirs) = keys();
    let wire = Wire::new(true, &theirs.private);
    let mut link = SecureLink::handshake_responder(wire.clone(), &mine).ok().unwrap();
    let timeouts = wire.far.borrow().timeouts.clone();
    assert_eq!(timeouts.last(), Some(&None));
    within_the_window(&timeouts[..timeouts.len() - 1], 4);
    assert_eq!(link.fingerprint(), theirs.fingerprint());
    let far_sees = {
        let far = wire.far.borrow();
        let key = far.session.as_ref().unwrap().get_remote_static().unwrap().to_vec();
        fingerprint(&key)
    };
    assert_eq!(far_sees, mine.fingerprint());
    assert!(link.send(b"hello").is_ok());
    assert_eq!(wire.far.borrow().got, vec![b"hello".to_vec()]);
    wire.send(&vec![5u8; 60_000]);
    assert_eq!(link.recv().ok().unwrap(), vec![5u8; 60_000]);
}

#[test]
fn the_largest_message_fits_and_a_larger_one_does_not() {
    let (mine, theirs) = keys();
    let wire = Wire::new(false, &theirs.private);
    let mut link = SecureLink::handshake_initiator(wire.clone(), &mine).ok().unwrap();
    assert!(link.send(&vec![1u8; MAX_PLAINTEXT]).is_ok());
    assert_eq!(wire.far.borrow().got[0].len(), MAX_PLAINTEXT);
    match link.send(&vec![1u8; MAX_PLAINTEXT + 1]) {
        Err(e) => assert_eq!(e.message(), "protocol error: message too large for one frame"),
        Ok(()) => panic!("too large"),
    }
    assert_eq!(wire.far.borrow().got.len(), 1);
}

#[test]
fn a_forged_message_does_not_come_out_and_the_link_goes_on() {
    let (mine, theirs) = keys();
    let wire = Wire::new(false, &theirs.private);
    let mut link = SecureLink::handshake_initiator(wire.clone(), &mine).ok().unwrap();
    wire.far.borrow_mut().out.extend_from_slice(&frame(&[0u8; 40]));
    assert!(matches!(link.recv(), Err(Error::Crypto(_))));
    wire.send(b"after");
    assert_eq!(link.recv().ok().unwrap(), b"after");
    // A stream that ends is no forgery.
    assert!(matches!(link.recv(), Err(Error::Io(_))));
}

#[test]
fn a_spoilt_handshake_fails() {
    let (mine, theirs) = keys();
    let wire = Wire::new(false, &theirs.private);
    wire.far.borrow_mut().spoil = true;
    assert!(matches!(
        SecureLink::handshake_initiator(wire.clone(), &mine),
        Err(Error::Crypto(_))
    ));
    within_the_window(&wire.far.borrow().timeouts, 2);
}

#[test]
fn a_stream_that_ends_fails_the_handshake() {
    let (mine, theirs) = keys();
    let wire = Wire::new(true, &theirs.private);
    wire.far.borrow_mut().out.truncate(10);
    match SecureLink::handshake_responder(wire, &mine) {
        Err(Error::Io(e)) => assert_eq!(e.message, "the peer closed the connection"),
        _ => panic!("the handshake cannot succeed"),
    }
}

#[test]
fn the_parts_of_a_link_go_on_where_it_stopped() {
    let (mine, theirs) = keys();
    let wire = Wire::new(false, &theirs.private);
    let mut link = SecureLink::handshake_initiator(wire.clone(), &mine).ok().unwrap();
    assert!(link.send(b"first").is_ok());
    let (stream, mut session, remote) = link.into_parts();
    assert_eq!(remote, theirs.public);
    let sealed = session.seal(b"second").ok().unwrap();
    assert_eq!(sealed.len(), 6 + 16);
    assert_ne!(&sealed[..6], b"second");
    assert!(stream.write(&frame(&sealed)).is_ok());
    assert_eq!(wire.far.borrow().got, vec![b"first".to_vec(), b"second".to_vec()]);
    wire.send(b"third");
    let ct: Vec<u8> = wire.far.borrow_mut().out.drain(..).skip(4).collect();
    assert_eq!(session.open(&ct).ok().unwrap(), b"third");
    assert!(session.open(&ct).is_err());
}

#[test]
fn identities_are_fresh_key_pairs() {
    let (a, b) = keys();
    assert_ne!(a.private, b.private);
    assert_ne!(a.fingerprint(), b.fingerprint());
    assert_eq!((a.private.len(), a.public.len()), (32, 32));
}

#[test]
fn fingerprints_are_six_bytes_of_the_digest() {
    // SHA-256 of nothing begins with e3 b0 c4 42 98 fc.
    assert_eq!(fingerprint(&[]), "E3:B0:C4:42:98:FC");
    assert_eq!(fingerprint_of(&vec![0, 1, 0x2a, 0xff, 0x10, 9, 77]), "00:01:2A:FF:10:09");
}

#[test]
fn digests_are_sha_256() {
    let abc = "ba7816bf8f01cfea414140de5dae2223b00361a396177a9cb410ff61f20015ad";
    assert_eq!(hex(&digest(b"abc")), abc);
    let mut h = FileHasher::new();
    h.update(b"a");
    h.update(b"");
    h.update(b"bc");
    assert_eq!(h.finish(), abc);
}

// --- against the clock ---

/// A peer that sends one byte of a frame at a time, after a while.
struct Drip {
    bytes: RefCell<Vec<u8>>,
    pause: Duration,
    timeouts: RefCell<Vec<Option<u64>>>,
}

impl Stream for Drip {
    fn read(&self, _max: usize) -> Result<Vec<u8>, IoError> {
        let since = Instant::now();
        while since.elapsed() < self.pause {}
        Ok(vec![self.bytes.borrow_mut().remove(0)])
    }

    fn write(&self, buf: &[u8]) -> Result<usize, IoError> {
        Ok(buf.len())
    }

    fn close(&self) {}

    fn remote_label(&self) -> String {
        "drip".to_string()
    }

    fn set_read_timeout(&self, millis: Option<u64>) -> Result<(), IoError> {
        self.timeouts.borrow_mut().push(millis);
        Ok(())
    }
}

fn drip(pause: u64) -> Drip {
    Drip {
        bytes: RefCell::new(frame(&[9u8; 200])),
        pause: Duration::from_millis(pause),
        timeouts: RefCell::new(Vec::new()),
    }
}

#[test]
fn a_dripping_peer_is_dropped() {
    let slow = drip(20);
    let w = Watched { stream: &slow, clock: Clock::start(), window: 300 * MILLISECOND };
    let err = read_frame(&w).unwrap_err();
    assert_eq!(err.message, "the peer took too long");
    assert!(w.check().is_err());
    assert!(w.write(b"x").is_err());
    let set = slow.timeouts.borrow();
    // The timeouts shrink to nothing, and no read is made beyond the window.
    assert!(!set.is_empty() && set.len() < 20);
    for pair in set.windows(2) {
        assert!(pair[1] < pair[0] && pair[1] > Some(0));
    }
    assert_eq!(slow.bytes.borrow().len(), 204 - set.len());
}

#[test]
fn a_quick_peer_is_not_hurried() {
    let quick = drip(0);
    let w = Watched { stream: &quick, clock: Clock::start(), window: 15_000 * MILLISECOND };
    assert_eq!(read_frame(&w).ok().unwrap(), vec![9u8; 200]);
    assert!(w.check().is_ok());
    assert_eq!(w.write(b"xyz").ok(), Some(3));
    assert_eq!(w.remote_label(), "drip");
}

#[test]
fn what_is_left_of_a_window() {
    assert_eq!(time_left(20_000 * MILLISECOND, 0), Some(20_000));
    assert_eq!(time_left(20_000 * MILLISECOND, 1), Some(20_000));
    assert_eq!(time_left(20_000 * MILLISECOND, MILLISECOND), Some(19_999));
    assert_eq!(time_left(20_000 * MILLISECOND, 20_000 * MILLISECOND - 1), Some(1));
    assert_eq!(time_left(20_000 * MILLISECOND, 20_000 * MILLISECOND), None);
    assert_eq!(time_left(20_000 * MILLISECOND, u64::MAX), None);
}
