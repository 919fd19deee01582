//! What reading from and writing to a stream promises, how a handshake goes,
//! and what a session does with each message.

use vstd::prelude::*;

use crate::codec::{
    frame_read, head_number, read_outcome, read_state, write_state, ReadCall, ReadState, WriteCall,
    WriteState,
};
use crate::crypto::{
    came_of, frame_sent, handshake_run, in_handshake, opened, received, remote_static,
    session_ciphers, CipherView, HandshakeEnd, Move, SecureLink, Session,
};
use crate::clock::Clock;
use crate::error::{Error, ErrorView, IoErrorKind, IoErrorView};
use crate::mesh::disconnect_text;
use crate::transport::Stream;
use crate::watched::left_at;

verus! {

// --- pieces ---------------------------------------------------------------------------

/// What one more reply does to a read: bytes are added behind those that are
/// there, and it is done when none is missing. A stream that ends early was
/// closed by the peer. An interruption is put up with, and any other failure
/// ends the read as it came.
pub proof fn a_read_goes_on_reply_by_reply(
    calls: Seq<ReadCall>,
    want: nat,
    got: Seq<u8>,
    patience: nat,
    reply: Result<Seq<u8>, IoErrorView>,
)
    requires
        read_state(calls, want) == (ReadState::Running { got, patience }),
        got.len() < want,
        reply matches Ok(d) ==> d.len() <= want - got.len(),
    ensures
        ({
            let left = (want - got.len()) as nat;
            let after = read_state(calls.push((left, reply)), want);
            match reply {
                Ok(d) => if d.len() == 0 {
                    after matches ReadState::Failed(e) && e.kind == IoErrorKind::UnexpectedEof
                        && disconnect_text(ErrorView::Io(e)) == "the peer closed the connection"@
                } else if d.len() < left {
                    after == (ReadState::Running { got: got + d, patience })
                } else {
                    after == ReadState::Done(got + d)
                },
                Err(e) => if e.kind == IoErrorKind::Interrupted && patience > 0 {
                    after matches ReadState::Running { got: g, patience: p } && g == got && p + 1
                        == patience
                } else {
                    after == ReadState::Failed(e)
                },
            }
        }),
{
    let left = (want - got.len()) as nat;
    assert(calls.push((left, reply)).drop_last() =~= calls);
    if let Ok(d) = reply {
        assert(d.take(d.len() as int) =~= d);
    }
}

/// What one more reply does to a write: what was taken is behind us, and it is
/// done when all of it was. A stream that takes nothing has stopped. An
/// interruption is put up with, and any other failure ends the write as it
/// came.
pub proof fn a_write_goes_on_reply_by_reply(
    calls: Seq<WriteCall>,
    data: Seq<u8>,
    off: nat,
    patience: nat,
    reply: Result<nat, IoErrorView>,
)
    requires
        write_state(calls, data) == (WriteState::Running { off, patience }),
        off < data.len(),
        reply matches Ok(n) ==> n <= data.len() - off,
    ensures
        ({
            let after = write_state(calls.push((data.skip(off as int), reply)), data);
            match reply {
                Ok(n) => if n == 0 {
                    after matches WriteState::Failed(e) && e.kind == IoErrorKind::WriteZero
                } else if off + n < data.len() {
                    after == (WriteState::Running { off: off + n, patience })
                } else {
                    after is Done
                },
                Err(e) => if e.kind == IoErrorKind::Interrupted && patience > 0 {
                    after matches WriteState::Running { off: o, patience: p } && o == off && p + 1
                        == patience
                } else {
                    after == WriteState::Failed(e)
                },
            }
        }),
{
    assert(calls.push((data.skip(off as int), reply)).drop_last() =~= calls);
}

/// Reading and writing begin with nothing done, and nothing is to be done where
/// nothing is wanted.
pub proof fn nothing_is_done_at_first(want: nat, data: Seq<u8>)
    ensures
        read_state(Seq::empty(), want) matches ReadState::Running { got, patience } ==> want > 0
            && got.len() == 0 && patience == u64::MAX,
        read_state(Seq::empty(), want) is Running <==> want > 0,
        want == 0 ==> read_state(Seq::empty(), want) == ReadState::Done(Seq::empty()),
        write_state(Seq::empty(), data) matches WriteState::Running { off, patience } ==> data.len()
            > 0 && off == 0 && patience == u64::MAX,
        write_state(Seq::empty(), data) is Running <==> data.len() > 0,
        data.len() == 0 ==> write_state(Seq::empty(), data) is Done,
{
}

// --- frames ---------------------------------------------------------------------------

/// A frame is read by the length that its first four bytes announce, the
/// highest first. One that announces more than 65535 bytes is refused before
/// any of it is read.
pub proof fn a_frame_is_read_by_its_length(head: Seq<ReadCall>, body: Seq<ReadCall>, h: Seq<u8>)
    requires
        read_state(head, 4) == ReadState::Done(h),
        h.len() == 4,
    ensures
        ({
            let len = h[0] * 16777216 + h[1] * 65536 + h[2] * 256 + h[3];
            &&& len > 65535 && body.len() == 0 ==> (frame_read(head, body) matches Some(Err(e))
                && e.kind == IoErrorKind::InvalidData)
            &&& len > 65535 && body.len() > 0 ==> frame_read(head, body) is None
            &&& len <= 65535 ==> frame_read(head, body) == read_outcome(
                read_state(body, len as nat),
            )
        }),
{
    head_number(h);
}

/// A stream that fails before the length of a frame is there fails the frame,
/// as it failed.
pub proof fn a_frame_fails_as_its_stream(head: Seq<ReadCall>, e: IoErrorView)
    requires
        read_state(head, 4) == ReadState::Failed(e),
    ensures
        frame_read(head, Seq::empty()) == Some(Err::<Seq<u8>, IoErrorView>(e)),
{
}

/// What does not fit into a frame is never written.
pub proof fn too_large_a_frame_is_not_written<S: Stream>(
    s: &S,
    payload: Seq<u8>,
    r: Result<(), IoErrorView>,
)
    requires
        frame_sent(s, payload, r),
        payload.len() > 65535,
    ensures
        r matches Err(e) && e.kind == IoErrorKind::InvalidInput,
{
}

// --- the window -------------------------------------------------------------------------

/// A window is open until it is over. What is left of it is told in whole
/// milliseconds, never less than there is, and by less than one more.
pub proof fn a_window_is_told_in_milliseconds(window: u64, now: u64)
    requires
        window <= u64::MAX - 1_000_000,
    ensures
        left_at(window, now) is None <==> now >= window,
        left_at(window, now) matches Some(ms) ==> ms > 0 && (ms - 1) * 1_000_000 < window - now <= ms
            * 1_000_000,
{
}

/// A handshake has twenty seconds.
pub proof fn a_handshake_has_twenty_seconds<S: Stream>(stream: &S, clock: Clock)
    ensures
        in_handshake(stream, clock).window == 20_000_000_000,
        in_handshake(stream, clock).clock == clock,
        in_handshake(stream, clock).stream == stream,
{
}

/// A handshake that is done took its three steps in turn: the side that called
/// sends, receives and sends, and the other side the other way round. It set
/// the timeout first, and took it away last.
pub proof fn a_handshake_goes_in_turn(
    initiator: bool,
    key: Seq<u8>,
    moves: Seq<Move>,
    h: snow::HandshakeState,
    end: HandshakeEnd,
)
    requires
        handshake_run(initiator, key, moves, h, end),
    ensures
        moves.len() >= 2,
        moves[0] == Move::Timeout(Some(20_000)),
        end is Done ==> {
            &&& moves.len() == 5
            &&& moves[4] == Move::Timeout(None)
            &&& initiator ==> moves[1] is Sent && moves[2] is Got && moves[3] is Sent
            &&& !initiator ==> moves[1] is Got && moves[2] is Sent && moves[3] is Got
            &&& forall|i: int|
                1 <= i <= 3 ==> match #[trigger] moves[i] {
                    Move::Sent(_, r) => r is Ok,
                    Move::Got(r) => r is Ok,
                    Move::Timeout(_) => false,
                }
        },
        end is Crypto ==> moves.last() is Got && moves.len() <= 4,
        !(end is Other),
        !(end is Done) ==> moves.last() != Move::Timeout(None),
{
}

// --- sessions ----------------------------------------------------------------------------

/// A sealed message is for one place in the order of messages: the next one has
/// another, and what is received is not touched. What is too long is refused,
/// and then nothing has happened.
pub proof fn a_seal_is_used_once(
    s: &mut Session,
    payload: &[u8],
    r: Result<Vec<u8>, Error>,
)
    requires
        call_ensures(Session::seal, (s, payload), r),
    ensures
        r is Ok <==> payload@.len() <= 65519 && old(s)@.send_nonce < u64::MAX,
        r matches Ok(c) ==> {
            &&& final(s)@.send_nonce == old(s)@.send_nonce + 1
            &&& final(s)@.send_key == old(s)@.send_key
            &&& final(s)@.recv_key == old(s)@.recv_key
            &&& final(s)@.recv_nonce == old(s)@.recv_nonce
            &&& opened(old(s)@.send_key, old(s)@.send_nonce, c@) == Some(payload@)
            &&& c@.len() == payload@.len() + 16
        },
        r is Err ==> final(s)@ == old(s)@,
        payload@.len() > 65519 ==> r->Err_0@ is Protocol,
{
}

/// A message is opened for its own place in the order: where it opens the next
/// one has the next place, and where it does not nothing has happened. What is
/// sent is not touched.
pub proof fn a_message_is_opened_in_its_place(
    s: &mut Session,
    c: &[u8],
    r: Result<Vec<u8>, Error>,
)
    requires
        call_ensures(Session::open, (s, c), r),
    ensures
        r is Ok <==> old(s)@.recv_nonce < u64::MAX && opened(
            old(s)@.recv_key,
            old(s)@.recv_nonce,
            c@,
        ) is Some,
        r matches Ok(p) ==> {
            &&& opened(old(s)@.recv_key, old(s)@.recv_nonce, c@) == Some(p@)
            &&& final(s)@.recv_nonce == old(s)@.recv_nonce + 1
            &&& final(s)@.recv_key == old(s)@.recv_key
            &&& final(s)@.send_key == old(s)@.send_key
            &&& final(s)@.send_nonce == old(s)@.send_nonce
        },
        r matches Err(e) ==> final(s)@ == old(s)@ && e@ is Crypto,
{
}

/// What comes off a link is the message that its frame opens to, in its place;
/// a frame that does not open, or that did not come, leaves everything as it
/// was.
pub proof fn a_link_receives_what_opens(
    before: CipherView,
    got: Result<Seq<u8>, IoErrorView>,
    r: Result<Seq<u8>, ErrorView>,
    after: CipherView,
)
    requires
        received(before, got, r, after),
    ensures
        r matches Ok(p) ==> {
            &&& got matches Ok(c)
            &&& opened(before.recv_key, before.recv_nonce, c) == Some(p)
            &&& after.recv_nonce == before.recv_nonce + 1
            &&& after.recv_key == before.recv_key
            &&& after.send_key == before.send_key && after.send_nonce == before.send_nonce
        },
        r is Err ==> after == before,
        got matches Err(e) ==> r == Err::<Seq<u8>, ErrorView>(ErrorView::Io(e)),
        got is Ok && r is Err ==> r->Err_0 is Crypto,
        got matches Ok(c) ==> before.recv_nonce < u64::MAX ==> opened(
            before.recv_key,
            before.recv_nonce,
            c,
        ) is Some ==> r is Ok,
{
}

/// A message that goes out on a link uses up its place in the order whether or
/// not the stream took it; one that is too long does not, and the link stays
/// what it was.
pub proof fn a_link_sends_in_order<S: Stream>(
    link: &mut SecureLink<S>,
    payload: &[u8],
    r: Result<(), Error>,
)
    requires
        call_ensures(SecureLink::<S>::send, (link, payload), r),
    ensures
        final(link).stream() == old(link).stream() && final(link).remote() == old(link).remote(),
        payload@.len() > 65519 ==> r is Err && r->Err_0@ is Protocol && final(link).ciphers()
            == old(link).ciphers(),
        payload@.len() <= 65519 && old(link).ciphers().send_nonce < u64::MAX ==> {
            &&& final(link).ciphers().send_nonce == old(link).ciphers().send_nonce + 1
            &&& final(link).ciphers().send_key == old(link).ciphers().send_key
            &&& final(link).ciphers().recv_nonce == old(link).ciphers().recv_nonce
            &&& r is Err ==> r->Err_0 is Io
        },
{
}

/// A handshake that is done comes to ciphers that have sealed and opened
/// nothing, and to the key of the other side.
pub proof fn a_handshake_comes_to_fresh_ciphers(
    h: snow::HandshakeState,
    c: CipherView,
    remote: Seq<u8>,
)
    requires
        came_of(h, c, remote),
    ensures
        c.ready && c.send_nonce == 0 && c.recv_nonce == 0,
        remote_static(h) == Some(remote),
        c == session_ciphers(h),
{
}

} // verus!
