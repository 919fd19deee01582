//! End-to-end encryption for every link, on every transport.
//!
//! Pattern: `Noise_XX_25519_ChaChaPoly_BLAKE2s`.
//!
//! XX means both sides transmit a static public key inside the handshake, so
//! after the handshake each end knows the other's long-term key and can show a
//! fingerprint in the UI. The transport underneath (TCP or RFCOMM) is treated
//! as completely untrusted: it only carries opaque ciphertext frames.

use vstd::prelude::*;

use crate::clock::{Clock, MILLISECOND};
use crate::codec::{
    frame_bytes, frame_len, frame_read, may_read, only_interruptions, read_frame, read_state,
    reads_of, reply_view, too_large, write_frame, write_outcome, write_state, writes_of, ReadCall,
    ReadState, WriteCall, MAX_FRAME,
};
use crate::error::{viewed, Error, ErrorView, IoError, IoErrorView};
use crate::hashing::{digest, sha256};
use crate::text::{cat, hex_upper, upper_hex_digit};
use crate::transport::Stream;
use crate::watched::{left_at, out_of_time, reads, Watched};

verus! {

const PATTERN: &'static str = "Noise_XX_25519_ChaChaPoly_BLAKE2s";

/// Largest plaintext that fits in one Noise transport message
/// (65535 - 16 bytes of Poly1305 tag).
pub const MAX_PLAINTEXT: usize = 65519;

/// Handshakes must complete inside this window, in milliseconds, or the link
/// is dropped.
pub const HANDSHAKE_TIMEOUT: u64 = 20_000;

// --- snow ----------------------------------------------------------------------

/// `snow::params::NoiseParams`: the choice of a Noise protocol.
#[verifier::external_type_specification]
#[verifier::external_body]
pub struct ExNoiseParams(snow::params::NoiseParams);

/// `snow::HandshakeState`: a handshake under way.
#[verifier::external_type_specification]
#[verifier::external_body]
pub struct ExHandshakeState(snow::HandshakeState);

/// `snow::TransportState`: the two ciphers of a session.
#[verifier::external_type_specification]
#[verifier::external_body]
pub struct ExTransportState(snow::TransportState);

/// What the two ciphers of a session hold.
#[verifier::ext_equal]
pub struct CipherView {
    /// The handshake is over, and both directions may be used.
    pub ready: bool,
    pub send_key: Seq<u8>,
    pub recv_key: Seq<u8>,
    /// How many messages were sent.
    pub send_nonce: u64,
    /// How many messages were received.
    pub recv_nonce: u64,
}

/// What the two ciphers of a `snow::TransportState` hold.
pub uninterp spec fn ciphers(t: snow::TransportState) -> CipherView;

/// Whether parameters choose the protocol of this module.
pub uninterp spec fn our_params(p: snow::params::NoiseParams) -> bool;

/// One message of a handshake.
#[verifier::ext_equal]
pub enum Note {
    /// A message that we made.
    Said(Seq<u8>),
    /// A message of the other side that we took in.
    Heard(Seq<u8>),
}

/// What a handshake holds.
#[verifier::ext_equal]
pub struct HandshakeView {
    /// It follows the protocol of this module.
    pub ours: bool,
    /// It is the side that sends first.
    pub initiator: bool,
    /// Our static private key.
    pub key: Seq<u8>,
    /// The messages so far.
    pub notes: Seq<Note>,
}

/// What a `snow::HandshakeState` holds.
pub uninterp spec fn handshake(h: snow::HandshakeState) -> HandshakeView;

/// Whether a handshake takes in a message of the other side, with `room` bytes
/// for its payload.
pub uninterp spec fn accepts(h: snow::HandshakeState, message: Seq<u8>, room: nat) -> bool;

/// The other side's static public key, as far as a handshake was told.
pub uninterp spec fn remote_static(h: snow::HandshakeState) -> Option<Seq<u8>>;

/// The ciphers that a handshake ends in.
pub uninterp spec fn session_ciphers(h: snow::HandshakeState) -> CipherView;

/// The Curve25519 public key of a private key.
pub uninterp spec fn public_key(private: Seq<u8>) -> Seq<u8>;

/// It is our turn to send a handshake message: the sides take turns, and
/// there are three messages.
pub open spec fn our_turn(v: HandshakeView) -> bool {
    v.notes.len() < 3 && (v.initiator == (v.notes.len() % 2 == 0))
}

/// A message as the other side has it.
pub open spec fn mirror(n: Note) -> Note {
    match n {
        Note::Said(m) => Note::Heard(m),
        Note::Heard(m) => Note::Said(m),
    }
}

/// Two finished handshakes are the two ends of one: what one said, the other
/// heard.
pub open spec fn mirrored(a: HandshakeView, b: HandshakeView) -> bool {
    &&& a.ours && b.ours
    &&& a.initiator != b.initiator
    &&& a.notes.len() == 3 && b.notes.len() == 3
    &&& forall|i: int| 0 <= i < 3 ==> b.notes[i] == mirror(#[trigger] a.notes[i])
}

/// Two ends of a link are in step: what one seals next, the other opens next.
pub open spec fn paired(a: CipherView, b: CipherView) -> bool {
    &&& a.send_key == b.recv_key
    &&& a.send_nonce == b.recv_nonce
}

/// The ciphertext of a message: ChaCha20-Poly1305 under `key`, with the
/// message's number as nonce.
pub uninterp spec fn sealed(key: Seq<u8>, nonce: u64, payload: Seq<u8>) -> Seq<u8>;

/// The message in a ciphertext, if it is authentic.
pub uninterp spec fn opened(key: Seq<u8>, nonce: u64, ciphertext: Seq<u8>) -> Option<Seq<u8>>;

/// `<NoiseParams as FromStr>::from_str`: reads a protocol name. The name of
/// our protocol is a name.
#[verifier::external_body]
fn noise_params(name: &str) -> (r: Result<snow::params::NoiseParams, String>)
    ensures
        match r {
            Ok(p) => name@ == PATTERN@ ==> our_params(p),
            Err(_) => name@ != PATTERN@,
        },
{
    name.parse().map_err(|e: snow::Error| e.to_string())
}

/// `Builder::generate_keypair`: a fresh key pair, `(private, public)`. For
/// Curve25519 both are 32 bytes long and there is always one. Which private
/// key it is depends on chance.
#[verifier::external_body]
fn noise_keypair(params: snow::params::NoiseParams) -> (r: Result<
    (Vec<u8>, Vec<u8>),
    String,
>)
    requires
        our_params(params),
    ensures
        match r {
            Ok(pair) => {
                &&& pair.0@.len() == 32
                &&& pair.1@.len() == 32
                &&& pair.1@ == public_key(pair.0@)
            },
            Err(_) => false,
        },
{
    let pair = snow::Builder::new(params).generate_keypair().map_err(|e| e.to_string())?;
    Ok((pair.private, pair.public))
}

/// `Builder::local_private_key`, then `build_initiator`: a handshake for the
/// side that sends first. A key of more than 32 bytes would not fit.
#[verifier::external_body]
fn noise_initiator(params: snow::params::NoiseParams, key: &[u8]) -> (r: Result<
    snow::HandshakeState,
    String,
>)
    requires
        our_params(params),
        key@.len() <= 32,
    ensures
        match r {
            Ok(h) => handshake(h) == (HandshakeView {
                ours: true,
                initiator: true,
                key: key@,
                notes: seq![],
            }),
            Err(_) => false,
        },
{
    let builder = snow::Builder::new(params).local_private_key(key);
    builder.build_initiator().map_err(|e| e.to_string())
}

/// `Builder::local_private_key`, then `build_responder`: a handshake for the
/// side that receives first. A key of more than 32 bytes would not fit.
#[verifier::external_body]
fn noise_responder(params: snow::params::NoiseParams, key: &[u8]) -> (r: Result<
    snow::HandshakeState,
    String,
>)
    requires
        our_params(params),
        key@.len() <= 32,
    ensures
        match r {
            Ok(h) => handshake(h) == (HandshakeView {
                ours: true,
                initiator: false,
                key: key@,
                notes: seq![],
            }),
            Err(_) => false,
        },
{
    let builder = snow::Builder::new(params).local_private_key(key);
    builder.build_responder().map_err(|e| e.to_string())
}

/// `HandshakeState::write_message`, without a payload: our next handshake
/// message. It fails only out of turn. The longest of the three takes 96
/// bytes, and into a smaller buffer it may not be written. What a message
/// says depends on fresh random keys.
#[verifier::external_body]
fn noise_say(h: &mut snow::HandshakeState, room: usize) -> (r: Result<Vec<u8>, String>)
    requires
        handshake(*old(h)).ours,
        96 <= room <= 65535,
    ensures
        match r {
            Ok(m) => {
                let before = handshake(*old(h));
                &&& our_turn(before)
                &&& m@.len() <= 96
                &&& handshake(*final(h)) == (HandshakeView {
                    notes: before.notes.push(Note::Said(m@)),
                    ..before
                })
            },
            Err(_) => !our_turn(handshake(*old(h))),
        },
{
    let mut buf = vec![0u8; room];
    let n = h.write_message(&[], &mut buf).map_err(|e| e.to_string())?;
    buf.truncate(n);
    Ok(buf)
}

/// `HandshakeState::read_message`: takes in the other side's next handshake
/// message, whose payload may take up to `room` bytes; the payload's length.
#[verifier::external_body]
fn noise_hear(h: &mut snow::HandshakeState, message: &[u8], room: usize) -> (r: Result<
    usize,
    String,
>)
    requires
        handshake(*old(h)).ours,
        room <= 65535,
    ensures
        match r {
            Ok(n) => {
                let before = handshake(*old(h));
                &&& accepts(*old(h), message@, room as nat)
                &&& n <= room
                &&& handshake(*final(h)) == (HandshakeView {
                    notes: before.notes.push(Note::Heard(message@)),
                    ..before
                })
            },
            Err(_) => !accepts(*old(h), message@, room as nat),
        },
{
    h.read_message(message, &mut vec![0u8; room]).map_err(|e| e.to_string())
}

/// `HandshakeState::get_remote_static`: the other side's public key, once it
/// has been told; after all three messages it has. It is the public key of
/// the private key that the handshake at the other end was built with.
#[verifier::external_body]
fn noise_remote(h: &snow::HandshakeState) -> (r: Option<Vec<u8>>)
    requires
        handshake(*h).ours,
    ensures
        match r {
            Some(k) => {
                &&& remote_static(*h) == Some(k@)
                &&& k@.len() == 32
                &&& forall|o: snow::HandshakeState|
                    #![trigger mirrored(handshake(*h), handshake(o))]
                    mirrored(handshake(*h), handshake(o)) && handshake(o).key.len() == 32
                        ==> k@ == public_key(handshake(o).key)
            },
            None => {
                &&& remote_static(*h) is None
                &&& handshake(*h).notes.len() != 3
            },
        },
{
    h.get_remote_static().map(|k| k.to_vec())
}

/// `HandshakeState::into_transport_mode`: the session that a handshake ends
/// in, if all three messages were exchanged. No message was sent or received
/// in it yet. The handshake at the other end comes to the same two keys, the
/// other way round.
#[verifier::external_body]
fn noise_finish(h: snow::HandshakeState) -> (r: Result<snow::TransportState, String>)
    requires
        handshake(h).ours,
    ensures
        match r {
            Ok(t) => {
                &&& handshake(h).notes.len() == 3
                &&& ciphers(t) == session_ciphers(h)
                &&& ciphers(t).ready
                &&& ciphers(t).send_nonce == 0
                &&& ciphers(t).recv_nonce == 0
                &&& forall|o: snow::HandshakeState|
                    #![trigger mirrored(handshake(h), handshake(o))]
                    mirrored(handshake(h), handshake(o)) ==> paired(ciphers(t), session_ciphers(o))
                        && paired(session_ciphers(o), ciphers(t))
            },
            Err(_) => handshake(h).notes.len() != 3,
        },
{
    h.into_transport_mode().map_err(|e| e.to_string())
}

/// Whether a message of `len` bytes can be encrypted into `room` bytes.
pub open spec fn sealable(c: CipherView, len: nat, room: nat) -> bool {
    len + 16 <= 65535 && len + 16 <= room && c.send_nonce < u64::MAX
}

/// `TransportState::write_message`: encrypts the next message into a buffer of
/// `room` bytes. It fails only where the message is over the Noise limit or
/// the buffer, or the messages are used up. The ciphertext is sixteen bytes
/// longer, and opens to the message again.
#[verifier::external_body]
fn noise_seal(t: &mut snow::TransportState, payload: &[u8], room: usize) -> (r: Result<
    Vec<u8>,
    String,
>)
    requires
        ciphers(*old(t)).ready,
        payload@.len() <= 65535,
        room <= 0x2_0000,
    ensures
        match r {
            Ok(c) => {
                let before = ciphers(*old(t));
                &&& sealable(before, payload@.len(), room as nat)
                &&& ciphers(*final(t)) == (CipherView {
                    send_nonce: (before.send_nonce + 1) as u64,
                    ..before
                })
                &&& c@ == sealed(before.send_key, before.send_nonce, payload@)
                &&& c@.len() == payload@.len() + 16
                &&& opened(before.send_key, before.send_nonce, c@) == Some(payload@)
            },
            Err(_) => {
                &&& !sealable(ciphers(*old(t)), payload@.len(), room as nat)
                &&& ciphers(*final(t)) == ciphers(*old(t))
            },
        },
{
    let mut buf = vec![0u8; room];
    let n = t.write_message(payload, &mut buf).map_err(|e| e.to_string())?;
    buf.truncate(n);
    Ok(buf)
}

/// `TransportState::read_message`: decrypts the next message into a buffer of
/// `room` bytes. It fails where the ciphertext is over the Noise limit, the
/// messages are used up, the buffer is too small or the ciphertext is not
/// authentic, and then the message is still to come.
#[verifier::external_body]
fn noise_open(t: &mut snow::TransportState, ciphertext: &[u8], room: usize) -> (r: Result<
    Vec<u8>,
    String,
>)
    requires
        ciphers(*old(t)).ready,
        ciphertext@.len() <= room <= 0x2_0000,
    ensures
        ({
            let before = ciphers(*old(t));
            match r {
                Ok(p) => {
                    &&& ciphertext@.len() <= 65535
                    &&& before.recv_nonce < u64::MAX
                    &&& opened(before.recv_key, before.recv_nonce, ciphertext@) == Some(p@)
                    &&& ciphers(*final(t)) == (CipherView {
                        recv_nonce: (before.recv_nonce + 1) as u64,
                        ..before
                    })
                },
                Err(_) => {
                    &&& ciphers(*final(t)) == before
                    &&& ciphertext@.len() > 65535 || before.recv_nonce == u64::MAX || opened(
                        before.recv_key,
                        before.recv_nonce,
                        ciphertext@,
                    ) is None
                },
            }
        }),
{
    let mut buf = vec![0u8; room];
    let n = t.read_message(ciphertext, &mut buf).map_err(|e| e.to_string())?;
    buf.truncate(n);
    Ok(buf)
}

// --- identity ------------------------------------------------------------------

/// A long-term static keypair. One is generated per application run; its
/// fingerprint is displayed so users can compare it out of band if they care.
pub struct Identity {
    pub private: Vec<u8>,
    pub public: Vec<u8>,
}

/// Six bytes as colon-separated hexadecimal.
pub open spec fn fingerprint_text(d: Seq<u8>) -> Seq<char> {
    Seq::new(
        17,
        |i: int|
            if i % 3 == 0 {
                hex_upper((d[i / 3] / 16) as nat)
            } else if i % 3 == 1 {
                hex_upper((d[i / 3] % 16) as nat)
            } else {
                ':'
            },
    )
}

/// The first six bytes of a digest as colon-separated hexadecimal.
pub fn fingerprint_of(d: &Vec<u8>) -> (r: String)
    requires
        d@.len() >= 6,
    ensures
        r@ == fingerprint_text(d@),
{
    let ghost all = fingerprint_text(d@);
    let mut out = String::new();
    let mut i: usize = 0;
    assert(all.take(0) =~= Seq::<char>::empty());
    while i < 6
        invariant
            i <= 6,
            d@.len() >= 6,
            all == fingerprint_text(d@),
            i < 6 ==> out@ == all.take(3 * i),
            i == 6 ==> out@ == all,
        decreases 6 - i,
    {
        let b: u8 = d[i];
        proof {
            assert((3 * i) % 3 == 0 && (3 * i + 1) % 3 == 1 && (3 * i + 2) % 3 == 2);
            assert((3 * i) / 3 == i && (3 * i + 1) / 3 == i);
        }
        out.push(upper_hex_digit(b / 16));
        out.push(upper_hex_digit(b % 16));
        assert(out@ =~= all.take(3 * i + 2));
        if i < 5 {
            out.push(':');
            assert(out@ =~= all.take(3 * i + 3));
        } else {
            assert(out@ =~= all);
        }
        i += 1;
    }
    out
}

/// Short, readable fingerprint of a static public key.
pub fn fingerprint(public: &[u8]) -> (r: String)
    ensures
        r@ == fingerprint_text(sha256(public@)),
{
    fingerprint_of(&digest(public))
}

impl Identity {
    /// A fresh key pair.
    pub fn generate() -> (r: Result<Self, Error>)
        ensures
            r matches Ok(id) && id.private@.len() == 32 && id.public@ == public_key(id.private@),
    {
        let params = match noise_params(PATTERN) {
            Ok(p) => p,
            Err(e) => {
                return Err(Error::Crypto(cat("bad noise pattern: ", &e)));
            },
        };
        match noise_keypair(params) {
            Ok((private, public)) => Ok(Identity { private, public }),
            Err(e) => Err(Error::Crypto(e)),
        }
    }

    pub fn fingerprint(&self) -> (r: String)
        ensures
            r@ == fingerprint_text(sha256(self.public@)),
    {
        fingerprint(&self.public)
    }
}

// --- sessions --------------------------------------------------------------------

/// The two ciphers of an encrypted link.
pub struct Session {
    cipher: snow::TransportState,
}

impl View for Session {
    type V = CipherView;

    closed spec fn view(&self) -> CipherView {
        ciphers(self.cipher)
    }
}

pub open spec fn too_long() -> ErrorView {
    ErrorView::Protocol("message too large for one frame"@)
}

/// What one more message does to the sending side.
pub open spec fn sent_one(c: CipherView) -> CipherView {
    CipherView { send_nonce: (c.send_nonce + 1) as u64, ..c }
}

/// What one more message does to the receiving side.
pub open spec fn received_one(c: CipherView) -> CipherView {
    CipherView { recv_nonce: (c.recv_nonce + 1) as u64, ..c }
}

impl Session {
    /// Encrypt the next message. A payload must fit [`MAX_PLAINTEXT`].
    pub fn seal(&mut self, payload: &[u8]) -> (r: Result<Vec<u8>, Error>)
        requires
            old(self)@.ready,
        ensures
            match r {
                Ok(c) => {
                    &&& payload@.len() <= MAX_PLAINTEXT
                    &&& old(self)@.send_nonce < u64::MAX
                    &&& c@ == sealed(old(self)@.send_key, old(self)@.send_nonce, payload@)
                    &&& opened(old(self)@.send_key, old(self)@.send_nonce, c@) == Some(payload@)
                    &&& c@.len() == payload@.len() + 16
                    &&& final(self)@ == sent_one(old(self)@)
                },
                Err(e) => {
                    &&& payload@.len() > MAX_PLAINTEXT ==> e@ == too_long()
                    &&& payload@.len() <= MAX_PLAINTEXT ==> e@ is Crypto && old(self)@.send_nonce
                        == u64::MAX
                    &&& final(self)@ == old(self)@
                },
            },
    {
        if payload.len() > MAX_PLAINTEXT {
            return Err(Error::Protocol("message too large for one frame".to_owned()));
        }
        match noise_seal(&mut self.cipher, payload, payload.len() + 64) {
            Ok(c) => Ok(c),
            Err(e) => Err(Error::Crypto(e)),
        }
    }

    /// Decrypt the next message.
    pub fn open(&mut self, ciphertext: &[u8]) -> (r: Result<Vec<u8>, Error>)
        requires
            old(self)@.ready,
            ciphertext@.len() <= MAX_FRAME,
        ensures
            ({
                let before = old(self)@;
                match r {
                    Ok(p) => {
                        &&& before.recv_nonce < u64::MAX
                        &&& opened(before.recv_key, before.recv_nonce, ciphertext@) == Some(p@)
                        &&& final(self)@ == received_one(before)
                    },
                    Err(e) => {
                        &&& e@ is Crypto
                        &&& before.recv_nonce == u64::MAX || opened(
                            before.recv_key,
                            before.recv_nonce,
                            ciphertext@,
                        ) is None
                        &&& final(self)@ == before
                    },
                }
            }),
    {
        match noise_open(&mut self.cipher, ciphertext, ciphertext.len() + 16) {
            Ok(p) => Ok(p),
            Err(e) => Err(Error::Crypto(e)),
        }
    }
}

// --- frames on a stream ------------------------------------------------------------

/// One thing that a link does with its stream.
#[verifier::ext_equal]
pub enum Move {
    /// Set the read timeout, in milliseconds.
    Timeout(Option<u64>),
    /// Send a frame.
    Sent(Seq<u8>, Result<(), IoErrorView>),
    /// Receive a frame.
    Got(Result<Seq<u8>, IoErrorView>),
}

/// A frame with this payload was written to `s`, and this came of it.
pub open spec fn frame_sent<S: Stream>(
    s: &S,
    payload: Seq<u8>,
    r: Result<(), IoErrorView>,
) -> bool {
    if payload.len() > MAX_FRAME {
        r == Err::<(), IoErrorView>(too_large())
    } else {
        exists|calls: Seq<WriteCall>| #[trigger]
            writes_of(s, calls) && write_outcome(write_state(calls, frame_bytes(payload))) == Some(
                r,
            )
    }
}

/// A frame was read from `s`, and this came of it.
pub open spec fn frame_got<S: Stream>(s: &S, r: Result<Seq<u8>, IoErrorView>) -> bool {
    exists|head: Seq<ReadCall>, body: Seq<ReadCall>| #[trigger]
        reads_of(s, head) && #[trigger] reads_of(s, body) && frame_read(head, body) == Some(r)
}

/// `s` was used like this.
pub open spec fn did<S: Stream>(s: &S, m: Move) -> bool {
    match m {
        Move::Timeout(t) => exists|r| call_ensures(S::set_read_timeout, (s, t), r),
        Move::Sent(payload, r) => frame_sent(s, payload, r),
        Move::Got(r) => frame_got(s, r),
    }
}

pub open spec fn did_all<S: Stream>(s: &S, moves: Seq<Move>) -> bool {
    forall|i: int| 0 <= i < moves.len() ==> did(s, #[trigger] moves[i])
}

/// A step of a handshake that went well.
pub open spec fn step_done(sends: bool, m: Move) -> bool {
    if sends {
        m matches Move::Sent(_, Ok(()))
    } else {
        m matches Move::Got(Ok(_))
    }
}

/// A step of a handshake that failed with `e`.
pub open spec fn step_failed(sends: bool, m: Move, e: IoErrorView) -> bool {
    if sends {
        m matches Move::Sent(_, Err(x)) && x == e
    } else {
        m matches Move::Got(Err(x)) && x == e
    }
}

/// The handshake messages that go with what was done with a stream: those that
/// were to be sent, and those that came.
pub open spec fn notes_of(moves: Seq<Move>) -> Seq<Note>
    decreases moves.len(),
{
    if moves.len() == 0 {
        seq![]
    } else {
        let before = notes_of(moves.drop_last());
        match moves.last() {
            Move::Timeout(_) => before,
            Move::Sent(m, _) => before.push(Note::Said(m)),
            Move::Got(Ok(m)) => before.push(Note::Heard(m)),
            Move::Got(Err(_)) => before,
        }
    }
}

/// How a handshake came out, as far as the stream is concerned.
#[verifier::ext_equal]
pub enum HandshakeEnd {
    /// There is a session.
    Done,
    /// A message was not what it should be.
    Crypto,
    /// The stream failed.
    Io(IoErrorView),
    /// Nothing else can happen.
    Other,
}

/// Send, receive, send; or, for the listening side, receive, send, receive.
pub open spec fn sends_at(initiator: bool, i: int) -> bool {
    initiator == (i % 2 == 0)
}

/// A handshake of one side used its stream like this, and `h` is what became
/// of it. The first thing it does is to set the timeout; then it takes the
/// three steps in order, as far as it gets. What it sends is what `h` said,
/// and what it receives is what `h` heard, but for a message that `h` does not
/// accept, which ends it. The timeout goes only when all are done; where they
/// are done too late, there is no session.
pub open spec fn handshake_run(
    initiator: bool,
    key: Seq<u8>,
    moves: Seq<Move>,
    h: snow::HandshakeState,
    end: HandshakeEnd,
) -> bool {
    let noted = if end == HandshakeEnd::Crypto {
        notes_of(moves.drop_last())
    } else {
        notes_of(moves)
    };
    &&& handshake(h) == (HandshakeView { ours: true, initiator, key, notes: noted })
    &&& moves.len() >= 2
    &&& moves[0] == Move::Timeout(Some(HANDSHAKE_TIMEOUT))
    &&& match end {
        HandshakeEnd::Done => {
            &&& moves.len() == 5
            &&& step_done(sends_at(initiator, 0), moves[1])
            &&& step_done(sends_at(initiator, 1), moves[2])
            &&& step_done(sends_at(initiator, 2), moves[3])
            &&& moves[4] == Move::Timeout(None)
        },
        HandshakeEnd::Crypto => {
            let last = moves.len() - 1;
            &&& last <= 3
            &&& forall|i: int|
                1 <= i <= last ==> step_done(sends_at(initiator, i - 1), #[trigger] moves[i])
            &&& !sends_at(initiator, last - 1)
            &&& !accepts(h, moves[last]->Got_0->Ok_0, 1024)
        },
        HandshakeEnd::Io(e) => {
            let last = moves.len() - 1;
            &&& last <= 3
            &&& forall|i: int|
                1 <= i < last ==> step_done(sends_at(initiator, i - 1), #[trigger] moves[i])
            &&& step_failed(sends_at(initiator, last - 1), moves[last], e) || (done_late(
                initiator,
                moves,
            ) && e == out_of_time())
        },
        HandshakeEnd::Other => false,
    }
}

/// All three steps were taken, and that was all.
pub open spec fn done_late(initiator: bool, moves: Seq<Move>) -> bool {
    moves.len() == 4 && step_done(sends_at(initiator, 2), moves[3])
}

/// The stream of a handshake that began when `clock` was started.
pub open spec fn in_handshake<'a, S: Stream>(stream: &'a S, clock: Clock) -> Watched<'a, S> {
    Watched { stream, clock, window: (HANDSHAKE_TIMEOUT * 1_000_000) as u64 }
}

/// The window counts: there is a session only where the clock was read inside
/// it when all steps were taken, and they were too late only where it was read
/// outside.
pub open spec fn in_window<S: Stream>(
    w: &Watched<S>,
    initiator: bool,
    moves: Seq<Move>,
    end: HandshakeEnd,
) -> bool {
    match end {
        HandshakeEnd::Done => exists|now: u64| #[trigger] reads(w, now) && now < w.window,
        HandshakeEnd::Io(_) => done_late(initiator, moves) ==> exists|now: u64| #[trigger]
            reads(w, now) && now >= w.window,
        _ => true,
    }
}

/// A link's ciphers and the key that it knows the other side by are those that
/// the handshake `h` came to. They go with those at the other end: the ciphers
/// are in step, and the key is the other end's.
pub open spec fn came_of(h: snow::HandshakeState, c: CipherView, remote: Seq<u8>) -> bool {
    &&& c == session_ciphers(h)
    &&& c.ready
    &&& c.send_nonce == 0
    &&& c.recv_nonce == 0
    &&& remote_static(h) == Some(remote)
    &&& forall|o: snow::HandshakeState|
        #![trigger mirrored(handshake(h), handshake(o))]
        mirrored(handshake(h), handshake(o)) ==> {
            &&& paired(c, session_ciphers(o))
            &&& paired(session_ciphers(o), c)
            &&& handshake(o).key.len() == 32 ==> remote == public_key(handshake(o).key)
        }
}

pub open spec fn handshake_end<T>(r: Result<T, Error>) -> HandshakeEnd {
    match r {
        Ok(_) => HandshakeEnd::Done,
        Err(Error::Crypto(_)) => HandshakeEnd::Crypto,
        Err(Error::Io(e)) => HandshakeEnd::Io(e@),
        Err(_) => HandshakeEnd::Other,
    }
}

proof fn one_more_move<S: Stream>(s: &S, moves: Seq<Move>, m: Move)
    requires
        did_all(s, moves),
        did(s, m),
    ensures
        did_all(s, moves.push(m)),
        moves.push(m).drop_last() == moves,
        notes_of(moves.push(m)) == match m {
            Move::Timeout(_) => notes_of(moves),
            Move::Sent(b, _) => notes_of(moves).push(Note::Said(b)),
            Move::Got(Ok(b)) => notes_of(moves).push(Note::Heard(b)),
            Move::Got(Err(_)) => notes_of(moves),
        },
{
    assert(moves.push(m).drop_last() =~= moves);
}

/// Write one frame.
fn put_frame<S: Stream>(s: &S, payload: &[u8]) -> (r: Result<(), Error>)
    ensures
        match r {
            Ok(()) => did(s, Move::Sent(payload@, Ok(()))),
            Err(Error::Io(e)) => did(s, Move::Sent(payload@, Err(e@))),
            Err(_) => false,
        },
{
    match write_frame(s, payload) {
        Ok(()) => Ok(()),
        Err(e) => Err(Error::Io(e)),
    }
}

/// Read one frame.
fn get_frame<S: Stream>(s: &S) -> (r: Result<Vec<u8>, Error>)
    ensures
        match r {
            Ok(b) => did(s, Move::Got(Ok(b@))) && b@.len() <= MAX_FRAME,
            Err(Error::Io(e)) => did(s, Move::Got(Err(e@))),
            Err(_) => false,
        },
{
    let got = read_frame(s);
    proof {
        let (head, body) = choose|head: Seq<ReadCall>, body: Seq<ReadCall>| #[trigger]
            reads_of(s, head) && #[trigger] reads_of(s, body) && frame_read(head, body) == Some(
                reply_view(got),
            );
        crate::codec::frame_is_bounded(head, body);
    }
    match got {
        Ok(b) => Ok(b),
        Err(e) => Err(Error::Io(e)),
    }
}

/// Turn a handshake whose steps are taken into a session, if it is still time,
/// and the other side's key.
fn finish<S: Stream>(w: &Watched<S>, hs: snow::HandshakeState) -> (r: Result<
    (Session, Vec<u8>),
    Error,
>)
    requires
        handshake(hs).ours,
        handshake(hs).notes.len() == 3,
    ensures
        match r {
            Ok((session, remote)) => {
                &&& came_of(hs, session@, remote@)
                &&& did(w, Move::Timeout(None))
                &&& exists|now: u64| #[trigger] reads(w, now) && now < w.window
            },
            Err(Error::Io(e)) => e@ == out_of_time() && exists|now: u64| #[trigger]
                reads(w, now) && now >= w.window,
            Err(_) => false,
        },
{
    if let Err(e) = w.check() {
        return Err(Error::Io(e));
    }
    let remote_static = match noise_remote(&hs) {
        Some(k) => k,
        None => Vec::new(),
    };
    let cipher = match noise_finish(hs) {
        Ok(c) => c,
        Err(e) => {
            return Err(Error::Crypto(e));
        },
    };
    // Back to blocking reads for the life of the session.
    let _ = w.set_read_timeout(None);
    Ok((Session { cipher }, remote_static))
}

// --- links -------------------------------------------------------------------------

/// An encrypted, framed link to exactly one peer.
pub struct SecureLink<S: Stream> {
    stream: S,
    session: Session,
    remote_static: Vec<u8>,
}

impl<S: Stream> SecureLink<S> {
    pub closed spec fn ciphers(&self) -> CipherView {
        self.session@
    }

    pub closed spec fn stream(&self) -> S {
        self.stream
    }

    /// The other side's public key.
    pub closed spec fn remote(&self) -> Seq<u8> {
        self.remote_static@
    }

    /// Dialling side of the handshake.
    pub fn handshake_initiator(stream: S, identity: &Identity) -> (r: Result<Self, Error>)
        requires
            identity.private@.len() <= 32,
        ensures
            exists|clock: Clock, moves: Seq<Move>, h: snow::HandshakeState|
                #![trigger did_all(&in_handshake(&stream, clock), moves), handshake(h)]
                {
                    let w = in_handshake(&stream, clock);
                    &&& call_ensures(Clock::start, (), clock)
                    &&& did_all(&w, moves)
                    &&& handshake_run(true, identity.private@, moves, h, handshake_end(r))
                    &&& in_window(&w, true, moves, handshake_end(r))
                    &&& r matches Ok(link) ==> link.stream() == stream && came_of(
                        h,
                        link.ciphers(),
                        link.remote(),
                    )
                },
    {
        let clock = Clock::start();
        assert(call_ensures(Clock::start, (), clock));
        let w = Watched { stream: &stream, clock, window: HANDSHAKE_TIMEOUT * MILLISECOND };
        assert(w == in_handshake(&stream, w.clock));
        let _ = w.set_read_timeout(Some(HANDSHAKE_TIMEOUT));
        let ghost mut moves: Seq<Move> = seq![Move::Timeout(Some(HANDSHAKE_TIMEOUT))];
        assert(did(&w, moves[0]));
        assert(moves.drop_last() =~= seq![]);
        assert(notes_of(moves.drop_last()) =~= seq![]);
        assert(notes_of(moves) =~= seq![]);
        let params = match noise_params(PATTERN) {
            Ok(p) => p,
            Err(e) => {
                return Err(Error::Crypto(cat("bad noise pattern: ", &e)));
            },
        };
        let mut hs = match noise_initiator(params, &identity.private) {
            Ok(h) => h,
            Err(e) => {
                return Err(Error::Crypto(e));
            },
        };
        assert(did_all(&w, moves));
        // -> e
        let first = match noise_say(&mut hs, 1024) {
            Ok(m) => m,
            Err(e) => {
                return Err(Error::Crypto(e));
            },
        };
        let sent = put_frame(&w, &first);
        proof {
            let m = Move::Sent(first@, io_view(sent));
            one_more_move(&w, moves, m);
            moves = moves.push(m);
        }
        if let Err(e) = sent {
            assert(handshake_run(true, identity.private@, moves, hs, HandshakeEnd::Io(e->Io_0@)));
            return Err(e);
        }
        // <- e, ee, s, es
        let got = get_frame(&w);
        proof {
            let m = Move::Got(got_view(got));
            one_more_move(&w, moves, m);
            moves = moves.push(m);
        }
        let reply = match got {
            Ok(b) => b,
            Err(e) => {
                assert(handshake_run(true, identity.private@, moves, hs, HandshakeEnd::Io(e->Io_0@)));
                return Err(e);
            },
        };
        let ghost before = hs;
        if let Err(e) = noise_hear(&mut hs, &reply, 1024) {
            assert(handshake_run(true, identity.private@, moves, before, HandshakeEnd::Crypto));
            return Err(Error::Crypto(e));
        }
        // -> s, se
        let last = match noise_say(&mut hs, 1024) {
            Ok(m) => m,
            Err(e) => {
                return Err(Error::Crypto(e));
            },
        };
        let sent = put_frame(&w, &last);
        proof {
            let m = Move::Sent(last@, io_view(sent));
            one_more_move(&w, moves, m);
            moves = moves.push(m);
        }
        if let Err(e) = sent {
            assert(handshake_run(true, identity.private@, moves, hs, HandshakeEnd::Io(e->Io_0@)));
            return Err(e);
        }
        let (session, remote_static) = match finish(&w, hs) {
            Ok(done) => done,
            Err(e) => {
                assert(handshake_run(true, identity.private@, moves, hs, HandshakeEnd::Io(e->Io_0@)));
                return Err(e);
            },
        };
        proof {
            let m = Move::Timeout(None);
            one_more_move(&w, moves, m);
            moves = moves.push(m);
            assert(handshake_run(true, identity.private@, moves, hs, HandshakeEnd::Done));
        }
        Ok(SecureLink { stream, session, remote_static })
    }

    /// Listening side of the handshake.
    pub fn handshake_responder(stream: S, identity: &Identity) -> (r: Result<Self, Error>)
        requires
            identity.private@.len() <= 32,
        ensures
            exists|clock: Clock, moves: Seq<Move>, h: snow::HandshakeState|
                #![trigger did_all(&in_handshake(&stream, clock), moves), handshake(h)]
                {
                    let w = in_handshake(&stream, clock);
                    &&& call_ensures(Clock::start, (), clock)
                    &&& did_all(&w, moves)
                    &&& handshake_run(false, identity.private@, moves, h, handshake_end(r))
                    &&& in_window(&w, false, moves, handshake_end(r))
                    &&& r matches Ok(link) ==> link.stream() == stream && came_of(
                        h,
                        link.ciphers(),
                        link.remote(),
                    )
                },
    {
        let clock = Clock::start();
        assert(call_ensures(Clock::start, (), clock));
        let w = Watched { stream: &stream, clock, window: HANDSHAKE_TIMEOUT * MILLISECOND };
        assert(w == in_handshake(&stream, w.clock));
        let _ = w.set_read_timeout(Some(HANDSHAKE_TIMEOUT));
        let ghost mut moves: Seq<Move> = seq![Move::Timeout(Some(HANDSHAKE_TIMEOUT))];
        assert(did(&w, moves[0]));
        assert(moves.drop_last() =~= seq![]);
        assert(notes_of(moves.drop_last()) =~= seq![]);
        assert(notes_of(moves) =~= seq![]);
        let params = match noise_params(PATTERN) {
            Ok(p) => p,
            Err(e) => {
                return Err(Error::Crypto(cat("bad noise pattern: ", &e)));
            },
        };
        let mut hs = match noise_responder(params, &identity.private) {
            Ok(h) => h,
            Err(e) => {
                return Err(Error::Crypto(e));
            },
        };
        assert(did_all(&w, moves));
        // <- e
        let got = get_frame(&w);
        proof {
            let m = Move::Got(got_view(got));
            one_more_move(&w, moves, m);
            moves = moves.push(m);
        }
        let first = match got {
            Ok(b) => b,
            Err(e) => {
                assert(handshake_run(false, identity.private@, moves, hs, HandshakeEnd::Io(e->Io_0@)));
                return Err(e);
            },
        };
        let ghost before = hs;
        if let Err(e) = noise_hear(&mut hs, &first, 1024) {
            assert(handshake_run(false, identity.private@, moves, before, HandshakeEnd::Crypto));
            return Err(Error::Crypto(e));
        }
        // -> e, ee, s, es
        let reply = match noise_say(&mut hs, 1024) {
            Ok(m) => m,
            Err(e) => {
                return Err(Error::Crypto(e));
            },
        };
        let sent = put_frame(&w, &reply);
        proof {
            let m = Move::Sent(reply@, io_view(sent));
            one_more_move(&w, moves, m);
            moves = moves.push(m);
        }
        if let Err(e) = sent {
            assert(handshake_run(false, identity.private@, moves, hs, HandshakeEnd::Io(e->Io_0@)));
            return Err(e);
        }
        // <- s, se
        let got = get_frame(&w);
        proof {
            let m = Move::Got(got_view(got));
            one_more_move(&w, moves, m);
            moves = moves.push(m);
        }
        let last = match got {
            Ok(b) => b,
            Err(e) => {
                assert(handshake_run(false, identity.private@, moves, hs, HandshakeEnd::Io(e->Io_0@)));
                return Err(e);
            },
        };
        let ghost before = hs;
        if let Err(e) = noise_hear(&mut hs, &last, 1024) {
            assert(handshake_run(false, identity.private@, moves, before, HandshakeEnd::Crypto));
            return Err(Error::Crypto(e));
        }
        let (session, remote_static) = match finish(&w, hs) {
            Ok(done) => done,
            Err(e) => {
                assert(handshake_run(false, identity.private@, moves, hs, HandshakeEnd::Io(e->Io_0@)));
                return Err(e);
            },
        };
        proof {
            let m = Move::Timeout(None);
            one_more_move(&w, moves, m);
            moves = moves.push(m);
            assert(handshake_run(false, identity.private@, moves, hs, HandshakeEnd::Done));
        }
        Ok(SecureLink { stream, session, remote_static })
    }

    /// Encrypt and send one payload. Payload must fit [`MAX_PLAINTEXT`].
    pub fn send(&mut self, payload: &[u8]) -> (r: Result<(), Error>)
        requires
            old(self).ciphers().ready,
        ensures
            final(self).stream() == old(self).stream(),
            final(self).remote() == old(self).remote(),
            ({
                let before = old(self).ciphers();
                let c = sealed(before.send_key, before.send_nonce, payload@);
                if payload@.len() > MAX_PLAINTEXT {
                    &&& r matches Err(e) && e@ == too_long()
                    &&& final(self).ciphers() == before
                } else if before.send_nonce == u64::MAX {
                    &&& r matches Err(e) && e@ is Crypto
                    &&& final(self).ciphers() == before
                } else {
                    &&& final(self).ciphers() == sent_one(before)
                    &&& opened(before.send_key, before.send_nonce, c) == Some(payload@)
                    &&& c.len() == payload@.len() + 16
                    &&& match r {
                        Ok(()) => did(&old(self).stream(), Move::Sent(c, Ok(()))),
                        Err(Error::Io(e)) => did(&old(self).stream(), Move::Sent(c, Err(e@))),
                        Err(_) => false,
                    }
                }
            }),
    {
        let c = match self.session.seal(payload) {
            Ok(c) => c,
            Err(e) => {
                return Err(e);
            },
        };
        put_frame(&self.stream, &c)
    }

    /// Receive and decrypt one payload. Blocks.
    pub fn recv(&mut self) -> (r: Result<Vec<u8>, Error>)
        requires
            old(self).ciphers().ready,
        ensures
            final(self).stream() == old(self).stream(),
            final(self).remote() == old(self).remote(),
            exists|got: Result<Seq<u8>, IoErrorView>| #[trigger]
                did(&old(self).stream(), Move::Got(got)) && received(
                    old(self).ciphers(),
                    got,
                    viewed(r),
                    final(self).ciphers(),
                ),
    {
        let got = get_frame(&self.stream);
        let ghost g = got_view(got);
        assert(did(&old(self).stream(), Move::Got(g)));
        let c = match got {
            Ok(c) => c,
            Err(e) => {
                return Err(e);
            },
        };
        self.session.open(&c)
    }

    /// Fingerprint of the other side's key.
    pub fn fingerprint(&self) -> (r: String)
        ensures
            r@ == fingerprint_text(sha256(self.remote())),
    {
        fingerprint(&self.remote_static)
    }

    /// What the stream says of the remote side.
    pub fn remote_label(&self) -> (r: String)
        ensures
            call_ensures(S::remote_label, (&self.stream(),), r),
    {
        self.stream.remote_label()
    }

    /// Close the stream, in both directions.
    pub fn close(&self)
        ensures
            call_ensures(S::close, (&self.stream(),), ()),
    {
        self.stream.close();
    }

    /// The stream and the ciphers, for a reader and writers that share them,
    /// and the other side's key.
    pub fn into_parts(self) -> (r: (S, Session, Vec<u8>))
        ensures
            r.0 == self.stream(),
            r.1@ == self.ciphers(),
            r.2@ == self.remote(),
    {
        (self.stream, self.session, self.remote_static)
    }
}

/// What is received when a read of a frame came to `got`: `after` is what it
/// leaves of the ciphers.
pub open spec fn received(
    before: CipherView,
    got: Result<Seq<u8>, IoErrorView>,
    r: Result<Seq<u8>, ErrorView>,
    after: CipherView,
) -> bool {
    match got {
        Err(e) => r == Err::<Seq<u8>, ErrorView>(ErrorView::Io(e)) && after == before,
        Ok(c) => match opened(before.recv_key, before.recv_nonce, c) {
            Some(p) if before.recv_nonce < u64::MAX => r == Ok::<Seq<u8>, ErrorView>(p) && after
                == received_one(before),
            _ => (r matches Err(ErrorView::Crypto(_))) && after == before,
        },
    }
}

pub open spec fn io_view(r: Result<(), Error>) -> Result<(), IoErrorView> {
    match r {
        Ok(()) => Ok(()),
        Err(e) => Err(e->Io_0@),
    }
}

pub open spec fn got_view(r: Result<Vec<u8>, Error>) -> Result<Seq<u8>, IoErrorView> {
    match r {
        Ok(b) => Ok(b@),
        Err(e) => Err(e->Io_0@),
    }
}

// --- laws ------------------------------------------------------------------------------

/// The two ends of a handshake come to ciphers that are in step both ways, and
/// each knows the other by its public key.
pub proof fn both_ends_agree(
    a: snow::HandshakeState,
    b: snow::HandshakeState,
    at_a: CipherView,
    at_b: CipherView,
    known_to_a: Seq<u8>,
    known_to_b: Seq<u8>,
)
    requires
        came_of(a, at_a, known_to_a),
        came_of(b, at_b, known_to_b),
        mirrored(handshake(a), handshake(b)),
        handshake(a).key.len() == 32,
        handshake(b).key.len() == 32,
    ensures
        paired(at_a, at_b),
        paired(at_b, at_a),
        known_to_a == public_key(handshake(b).key),
        known_to_b == public_key(handshake(a).key),
{
    let (va, vb) = (handshake(a), handshake(b));
    assert forall|i: int| 0 <= i < 3 implies va.notes[i] == mirror(#[trigger] vb.notes[i]) by {
        assert(vb.notes[i] == mirror(va.notes[i]));
    }
    assert(mirrored(handshake(b), handshake(a)));
}

/// Where a stream hands on what is put into it, the handshakes at its ends are
/// the two ends of one: what one side sends in each step, the other side
/// receives in that step.
pub proof fn a_good_stream_mirrors(
    a: snow::HandshakeState,
    b: snow::HandshakeState,
    key_a: Seq<u8>,
    key_b: Seq<u8>,
    moves_a: Seq<Move>,
    moves_b: Seq<Move>,
)
    requires
        handshake_run(true, key_a, moves_a, a, HandshakeEnd::Done),
        handshake_run(false, key_b, moves_b, b, HandshakeEnd::Done),
        moves_b[1]->Got_0->Ok_0 == moves_a[1]->Sent_0,
        moves_a[2]->Got_0->Ok_0 == moves_b[2]->Sent_0,
        moves_b[3]->Got_0->Ok_0 == moves_a[3]->Sent_0,
    ensures
        mirrored(handshake(a), handshake(b)),
{
    three_notes(moves_a);
    three_notes(moves_b);
}

/// The notes of five moves whose first and last set the timeout.
proof fn three_notes(moves: Seq<Move>)
    requires
        moves.len() == 5,
        moves[0] is Timeout,
        moves[4] is Timeout,
        forall|i: int|
            1 <= i <= 3 ==> (#[trigger] moves[i] is Sent || moves[i] matches Move::Got(Ok(_))),
    ensures
        notes_of(moves).len() == 3,
        forall|i: int|
            0 <= i < 3 ==> #[trigger] notes_of(moves)[i] == match moves[i + 1] {
                Move::Sent(m, _) => Note::Said(m),
                Move::Got(r) => Note::Heard(r->Ok_0),
                Move::Timeout(_) => arbitrary(),
            },
{
    let m4 = moves.drop_last();
    let m3 = m4.drop_last();
    let m2 = m3.drop_last();
    let m1 = m2.drop_last();
    assert(m1.drop_last() =~= seq![]);
    assert(notes_of(m1.drop_last()) =~= seq![]);
    assert(notes_of(m1) =~= seq![]);
    assert(notes_of(m2).len() == 1);
    assert(notes_of(m3).len() == 2);
    assert(notes_of(m4).len() == 3);
    assert(notes_of(moves) == notes_of(m4));
}

/// A handshake is held against the clock at every read: it is given what is
/// left of the window as its timeout, and once the window is over it fails
/// without touching the stream.
pub proof fn reads_are_timed<S: Stream>(
    w: &Watched<S>,
    asked: nat,
    reply: Result<Seq<u8>, IoErrorView>,
)
    requires
        may_read(w, asked, reply),
    ensures
        exists|now: u64| #[trigger]
            reads(w, now) && match left_at(w.window, now) {
                None => reply == Err::<Seq<u8>, IoErrorView>(out_of_time()),
                Some(ms) => (exists|set: Result<(), IoError>|
                    call_ensures(S::set_read_timeout, (w.stream, Some(ms)), set)) && may_read(
                    w.stream,
                    asked,
                    reply,
                ),
            },
{
    let (max, r) = choose|max: usize, r: Result<Vec<u8>, IoError>|
        max == asked && reply_view(r) == reply && #[trigger] call_ensures(
            Watched::<S>::read,
            (w, max),
            r,
        );
    let now = choose|now: u64| #[trigger]
        reads(w, now) && match left_at(w.window, now) {
            None => r matches Err(e) && e@ == out_of_time(),
            Some(ms) => (exists|set: Result<(), IoError>|
                call_ensures(S::set_read_timeout, (w.stream, Some(ms)), set)) && call_ensures(
                S::read,
                (w.stream, max),
                r,
            ),
        };
    assert(reads(w, now));
}

/// A frame arrives in time or not at all: whichever of its pieces is looked at,
/// it was read inside the window, with what was left of it as the timeout.
pub proof fn a_frame_arrives_in_time<S: Stream>(
    w: &Watched<S>,
    head: Seq<ReadCall>,
    body: Seq<ReadCall>,
    call: ReadCall,
)
    requires
        reads_of(w, head),
        reads_of(w, body),
        frame_read(head, body) matches Some(Ok(_)),
        head.contains(call) || body.contains(call),
    ensures
        exists|now: u64| #[trigger]
            reads(w, now) && now < w.window && (exists|set: Result<(), IoError>|
                call_ensures(
                    S::set_read_timeout,
                    (w.stream, left_at(w.window, now)),
                    set,
                )) && may_read(w.stream, call.0, call.1),
{
    let h = read_state(head, 4)->Done_0;
    if head.contains(call) {
        only_interruptions(head, 4, call);
        let i = choose|i: int| 0 <= i < head.len() && head[i] == call;
        assert(may_read(w, head[i].0, head[i].1));
    } else {
        only_interruptions(body, frame_len(h), call);
        let i = choose|i: int| 0 <= i < body.len() && body[i] == call;
        assert(may_read(w, body[i].0, body[i].1));
    }
    reads_are_timed(w, call.0, call.1);
}

/// A peer that takes too long is dropped, however it spreads its bytes: a frame
/// that is read when the window is over does not arrive.
pub proof fn nothing_arrives_after_the_window<S: Stream>(
    w: &Watched<S>,
    r: Result<Seq<u8>, IoErrorView>,
)
    requires
        did(w, Move::Got(r)),
        forall|now: u64| #[trigger] reads(w, now) ==> now >= w.window,
    ensures
        r == Err::<Seq<u8>, IoErrorView>(out_of_time()),
{
    let (head, body) = choose|head: Seq<ReadCall>, body: Seq<ReadCall>| #[trigger]
        reads_of(w, head) && #[trigger] reads_of(w, body) && frame_read(head, body) == Some(r);
    late_reads_fail(w, head);
}

proof fn late_reads_fail<S: Stream>(w: &Watched<S>, calls: Seq<ReadCall>)
    requires
        reads_of(w, calls),
        forall|now: u64| #[trigger] reads(w, now) ==> now >= w.window,
    ensures
        calls.len() > 0 ==> read_state(calls, 4) == ReadState::Failed(out_of_time())
            || read_state(calls, 4) is Broken,
        calls.len() == 0 ==> read_state(calls, 4) is Running,
    decreases calls.len(),
{
    if calls.len() > 0 {
        let t = calls.drop_last();
        assert forall|i: int| 0 <= i < t.len() implies may_read(w, (#[trigger] t[i]).0, t[i].1) by {
            assert(t[i] == calls[i]);
        }
        late_reads_fail(w, t);
        let last = calls[calls.len() - 1];
        assert(may_read(w, last.0, last.1));
        reads_are_timed(w, last.0, last.1);
    }
}

/// What one end sends, the other receives: where the two ends are in step, the
/// payload of a message that got through comes out as it went in, and they
/// stay in step.
pub proof fn a_message_comes_out_as_it_went_in(
    a: CipherView,
    b: CipherView,
    payload: Seq<u8>,
    r: Result<Seq<u8>, ErrorView>,
    after: CipherView,
)
    requires
        paired(a, b),
        a.send_nonce < u64::MAX,
        opened(a.send_key, a.send_nonce, sealed(a.send_key, a.send_nonce, payload)) == Some(payload),
        received(
            b,
            Ok::<Seq<u8>, IoErrorView>(sealed(a.send_key, a.send_nonce, payload)),
            r,
            after,
        ),
    ensures
        r == Ok::<Seq<u8>, ErrorView>(payload),
        paired(sent_one(a), after),
{
}

/// Every message that a link can carry fits into one frame.
pub proof fn sealed_messages_fit(len: nat)
    ensures
        len <= MAX_PLAINTEXT <==> len + 16 <= MAX_FRAME,
{
}

/// A message that is not authentic never comes out: it is an error, and the
/// link waits for the message that was to come.
pub proof fn forgeries_do_not_come_out(
    b: CipherView,
    c: Seq<u8>,
    r: Result<Seq<u8>, ErrorView>,
    after: CipherView,
)
    requires
        opened(b.recv_key, b.recv_nonce, c) is None,
        received(b, Ok::<Seq<u8>, IoErrorView>(c), r, after),
    ensures
        r matches Err(ErrorView::Crypto(_)),
        after == b,
{
}

} // verus!
