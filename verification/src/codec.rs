//! Length-prefixed framing.
//!
//! Every byte that crosses a transport is inside a frame: a 4-byte big-endian
//! length followed by that many bytes. During the handshake the payload is a
//! raw Noise handshake message; afterwards it is always a Noise transport
//! message (i.e. ciphertext).
//!
//! A stream answers each call as it likes: it may take or hand over any part
//! of what was asked, fail, or be interrupted. The contracts here are told
//! over the calls that were made and what came back from them.

use vstd::prelude::*;
use vstd::slice::slice_subrange;

use crate::digits::{as_bytes, byte_digits, digits, number};
use crate::error::{IoError, IoErrorKind, IoErrorView};
use crate::transport::Stream;

verus! {

/// Noise transport messages are capped at 65535 bytes, so frames are too.
pub const MAX_FRAME: usize = 65535;

/// How many interrupted calls are made again before one is reported.
pub const PATIENCE: u64 = 0xffff_ffff_ffff_ffff;

// --- reading -------------------------------------------------------------------

/// How far a read of a fixed number of bytes has come.
#[verifier::ext_equal]
pub enum ReadState {
    /// `got` has arrived, and `patience` more interruptions are put up with.
    Running { got: Seq<u8>, patience: nat },
    /// Everything has arrived.
    Done(Seq<u8>),
    /// The read is over without it.
    Failed(IoErrorView),
    /// Not a run: a call too many, or for the wrong number of bytes.
    Broken,
}

/// One call of `Stream::read`: how many bytes it asked for, what came back.
pub type ReadCall = (nat, Result<Seq<u8>, IoErrorView>);

pub open spec fn closed_by_peer() -> IoErrorView {
    IoErrorView {
        kind: IoErrorKind::UnexpectedEof,
        message: "the peer closed the connection"@,
    }
}

pub open spec fn read_started(want: nat) -> ReadState {
    if want == 0 {
        ReadState::Done(Seq::empty())
    } else {
        ReadState::Running { got: Seq::empty(), patience: PATIENCE as nat }
    }
}

/// What one more call does to a read of `want` bytes.
pub open spec fn read_next(st: ReadState, want: nat, call: ReadCall) -> ReadState {
    match st {
        ReadState::Running { got, patience } => {
            let left = (want - got.len()) as nat;
            if call.0 != left {
                ReadState::Broken
            } else {
                match call.1 {
                    Ok(d) => if d.len() == 0 {
                        ReadState::Failed(closed_by_peer())
                    } else if d.len() >= left {
                        ReadState::Done(got + d.take(left as int))
                    } else {
                        ReadState::Running { got: got + d, patience }
                    },
                    Err(e) => if e.kind == IoErrorKind::Interrupted && patience > 0 {
                        ReadState::Running { got, patience: (patience - 1) as nat }
                    } else {
                        ReadState::Failed(e)
                    },
                }
            }
        },
        _ => ReadState::Broken,
    }
}

/// Where a read of `want` bytes stands after these calls.
pub open spec fn read_state(calls: Seq<ReadCall>, want: nat) -> ReadState
    decreases calls.len(),
{
    if calls.len() == 0 {
        read_started(want)
    } else {
        read_next(read_state(calls.drop_last(), want), want, calls.last())
    }
}

/// A reply of `Stream::read`, as contracts speak of it.
pub open spec fn reply_view(r: Result<Vec<u8>, IoError>) -> Result<Seq<u8>, IoErrorView> {
    match r {
        Ok(d) => Ok(d@),
        Err(e) => Err(e@),
    }
}

/// `s` may have answered a read of up to `asked` bytes with this.
pub open spec fn may_read<S: Stream>(
    s: &S,
    asked: nat,
    reply: Result<Seq<u8>, IoErrorView>,
) -> bool {
    exists|max: usize, r: Result<Vec<u8>, IoError>|
        max == asked && reply_view(r) == reply && #[trigger] call_ensures(S::read, (s, max), r)
}

/// These calls were made on `s`, in this order.
pub open spec fn reads_of<S: Stream>(s: &S, calls: Seq<ReadCall>) -> bool {
    forall|i: int| 0 <= i < calls.len() ==> may_read(s, (#[trigger] calls[i]).0, calls[i].1)
}

/// How a run of `read_exact` ended.
pub open spec fn read_outcome(st: ReadState) -> Option<Result<Seq<u8>, IoErrorView>> {
    match st {
        ReadState::Done(d) => Some(Ok(d)),
        ReadState::Failed(e) => Some(Err(e)),
        _ => None,
    }
}

/// What becomes of a read after one more reply.
pub enum ReadStep {
    More,
    Done,
    Failed(IoError),
}

/// Take one reply into a read of `want` bytes, of which `got` has arrived.
pub fn read_step(
    got: &mut Vec<u8>,
    want: usize,
    patience: &mut u64,
    reply: Result<Vec<u8>, IoError>,
) -> (r: ReadStep)
    requires
        old(got)@.len() < want,
    ensures
        ({
            let before = ReadState::Running { got: old(got)@, patience: *old(patience) as nat };
            let asked = (want - old(got)@.len()) as nat;
            let after = read_next(before, want as nat, (asked, reply_view(reply)));
            match r {
                ReadStep::More => {
                    &&& after == ReadState::Running {
                        got: final(got)@,
                        patience: *final(patience) as nat,
                    }
                    &&& final(got)@.len() < want
                    &&& final(got)@.len() > old(got)@.len() || (final(got)@ == old(got)@ && *final(
                        patience) < *old(patience))
                },
                ReadStep::Done => after == ReadState::Done(final(got)@),
                ReadStep::Failed(e) => after == ReadState::Failed(e@),
            }
        }),
{
    let left: usize = want - got.len();
    match reply {
        Ok(d) => {
            if d.len() == 0 {
                return ReadStep::Failed(
                    IoError::new(IoErrorKind::UnexpectedEof, "the peer closed the connection"),
                );
            }
            let ghost all = d@;
            let mut d = d;
            if d.len() >= left {
                d.truncate(left);
                assert(d@ =~= all.take(left as int));
                got.append(&mut d);
                ReadStep::Done
            } else {
                got.append(&mut d);
                ReadStep::More
            }
        },
        Err(e) => {
            if e.kind == IoErrorKind::Interrupted && *patience > 0 {
                *patience = *patience - 1;
                ReadStep::More
            } else {
                ReadStep::Failed(e)
            }
        },
    }
}

/// Read exactly `want` bytes.
pub fn read_exact<S: Stream>(s: &S, want: usize) -> (r: Result<Vec<u8>, IoError>)
    ensures
        exists|calls: Seq<ReadCall>| #[trigger]
            reads_of(s, calls) && read_outcome(read_state(calls, want as nat)) == Some(
                reply_view(r),
            ),
{
    let mut got: Vec<u8> = Vec::new();
    let mut patience: u64 = PATIENCE;
    let ghost mut calls: Seq<ReadCall> = Seq::empty();
    if want == 0 {
        assert(got@ =~= Seq::<u8>::empty());
        assert(reads_of(s, calls));
        return Ok(got);
    }
    assert(got@ =~= Seq::<u8>::empty());
    loop
        invariant
            got@.len() < want,
            read_state(calls, want as nat) == (ReadState::Running {
                got: got@,
                patience: patience as nat,
            }),
            reads_of(s, calls),
        decreases want - got@.len(), patience,
    {
        let asked: usize = want - got.len();
        let reply = s.read(asked);
        let ghost call: ReadCall = (asked as nat, reply_view(reply));
        proof {
            assert(call_ensures(S::read, (s, asked), reply));
            assert(may_read(s, call.0, call.1));
            assert(calls.push(call).drop_last() =~= calls);
            assert(reads_of(s, calls.push(call)));
            calls = calls.push(call);
        }
        match read_step(&mut got, want, &mut patience, reply) {
            ReadStep::More => {},
            ReadStep::Done => {
                return Ok(got);
            },
            ReadStep::Failed(e) => {
                return Err(e);
            },
        }
    }
}

// --- writing -------------------------------------------------------------------

/// How far a write has come.
#[verifier::ext_equal]
pub enum WriteState {
    /// The first `off` bytes were taken.
    Running { off: nat, patience: nat },
    /// Everything was taken.
    Done,
    /// The write is over without it.
    Failed(IoErrorView),
    /// Not a run: a call too many, or with the wrong bytes.
    Broken,
}

/// One call of `Stream::write`: the bytes handed over, what came back.
pub type WriteCall = (Seq<u8>, Result<nat, IoErrorView>);

pub open spec fn refused_by_peer() -> IoErrorView {
    IoErrorView { kind: IoErrorKind::WriteZero, message: "the peer stopped accepting data"@ }
}

pub open spec fn write_started(data: Seq<u8>) -> WriteState {
    if data.len() == 0 {
        WriteState::Done
    } else {
        WriteState::Running { off: 0, patience: PATIENCE as nat }
    }
}

/// What one more call does to a write of `data`.
pub open spec fn write_next(st: WriteState, data: Seq<u8>, call: WriteCall) -> WriteState {
    match st {
        WriteState::Running { off, patience } => if call.0 != data.skip(off as int) {
            WriteState::Broken
        } else {
            match call.1 {
                Ok(n) => if n == 0 {
                    WriteState::Failed(refused_by_peer())
                } else if off + n >= data.len() {
                    WriteState::Done
                } else {
                    WriteState::Running { off: off + n, patience }
                },
                Err(e) => if e.kind == IoErrorKind::Interrupted && patience > 0 {
                    WriteState::Running { off, patience: (patience - 1) as nat }
                } else {
                    WriteState::Failed(e)
                },
            }
        },
        _ => WriteState::Broken,
    }
}

/// Where a write of `data` stands after these calls.
pub open spec fn write_state(calls: Seq<WriteCall>, data: Seq<u8>) -> WriteState
    decreases calls.len(),
{
    if calls.len() == 0 {
        write_started(data)
    } else {
        write_next(write_state(calls.drop_last(), data), data, calls.last())
    }
}

/// A reply of `Stream::write`, as contracts speak of it.
pub open spec fn taken_view(r: Result<usize, IoError>) -> Result<nat, IoErrorView> {
    match r {
        Ok(n) => Ok(n as nat),
        Err(e) => Err(e@),
    }
}

/// `s` may have answered a write of `data` with this.
pub open spec fn may_write<S: Stream>(
    s: &S,
    data: Seq<u8>,
    reply: Result<nat, IoErrorView>,
) -> bool {
    exists|buf: &[u8], r: Result<usize, IoError>|
        buf@ == data && taken_view(r) == reply && #[trigger] call_ensures(S::write, (s, buf), r)
}

/// These calls were made on `s`, in this order.
pub open spec fn writes_of<S: Stream>(s: &S, calls: Seq<WriteCall>) -> bool {
    forall|i: int| 0 <= i < calls.len() ==> may_write(s, (#[trigger] calls[i]).0, calls[i].1)
}

/// How a run of `write_all` ended.
pub open spec fn write_outcome(st: WriteState) -> Option<Result<(), IoErrorView>> {
    match st {
        WriteState::Done => Some(Ok(())),
        WriteState::Failed(e) => Some(Err(e)),
        _ => None,
    }
}

pub open spec fn done_view(r: Result<(), IoError>) -> Result<(), IoErrorView> {
    match r {
        Ok(()) => Ok(()),
        Err(e) => Err(e@),
    }
}

/// What becomes of a write after one more reply.
pub enum WriteStep {
    /// The first bytes, this many of them, were taken.
    More(usize),
    Done,
    Failed(IoError),
}

/// Take one reply into a write of `buf`, of which `off` bytes were taken.
pub fn write_step(
    buf: &[u8],
    off: usize,
    patience: &mut u64,
    reply: Result<usize, IoError>,
) -> (r: WriteStep)
    requires
        off < buf@.len(),
    ensures
        ({
            let before = WriteState::Running { off: off as nat, patience: *old(patience) as nat };
            let call = (buf@.skip(off as int), taken_view(reply));
            let after = write_next(before, buf@, call);
            match r {
                WriteStep::More(n) => {
                    &&& after == WriteState::Running {
                        off: n as nat,
                        patience: *final(patience) as nat,
                    }
                    &&& n < buf@.len()
                    &&& n > off || (n == off && *final(patience) < *old(patience))
                },
                WriteStep::Done => after == WriteState::Done,
                WriteStep::Failed(e) => after == WriteState::Failed(e@),
            }
        }),
{
    match reply {
        Ok(n) => {
            if n == 0 {
                WriteStep::Failed(
                    IoError::new(IoErrorKind::WriteZero, "the peer stopped accepting data"),
                )
            } else if n >= buf.len() - off {
                WriteStep::Done
            } else {
                WriteStep::More(off + n)
            }
        },
        Err(e) => {
            if e.kind == IoErrorKind::Interrupted && *patience > 0 {
                *patience = *patience - 1;
                WriteStep::More(off)
            } else {
                WriteStep::Failed(e)
            }
        },
    }
}

/// Hand over all of `buf`.
pub fn write_all<S: Stream>(s: &S, buf: &[u8]) -> (r: Result<(), IoError>)
    ensures
        exists|calls: Seq<WriteCall>| #[trigger]
            writes_of(s, calls) && write_outcome(write_state(calls, buf@)) == Some(done_view(r)),
{
    let ghost mut calls: Seq<WriteCall> = Seq::empty();
    let mut patience: u64 = PATIENCE;
    let mut off: usize = 0;
    if buf.len() == 0 {
        assert(writes_of(s, calls));
        return Ok(());
    }
    loop
        invariant
            off < buf@.len(),
            write_state(calls, buf@) == (WriteState::Running {
                off: off as nat,
                patience: patience as nat,
            }),
            writes_of(s, calls),
        decreases buf@.len() - off, patience,
    {
        let rest = slice_subrange(buf, off, buf.len());
        assert(rest@ =~= buf@.skip(off as int));
        let reply = s.write(rest);
        let ghost call: WriteCall = (rest@, taken_view(reply));
        proof {
            assert(call_ensures(S::write, (s, rest), reply));
            assert(may_write(s, call.0, call.1));
            assert(calls.push(call).drop_last() =~= calls);
            assert(writes_of(s, calls.push(call)));
            calls = calls.push(call);
        }
        match write_step(buf, off, &mut patience, reply) {
            WriteStep::More(n) => {
                off = n;
            },
            WriteStep::Done => {
                return Ok(());
            },
            WriteStep::Failed(e) => {
                return Err(e);
            },
        }
    }
}

// --- frames --------------------------------------------------------------------

/// The four bytes of a frame's length.
pub open spec fn frame_head(len: nat) -> Seq<u8> {
    as_bytes(digits(len, 256, 4))
}

/// The bytes of a frame.
pub open spec fn frame_bytes(payload: Seq<u8>) -> Seq<u8> {
    frame_head(payload.len()) + payload
}

/// The length that four bytes announce.
pub open spec fn frame_len(head: Seq<u8>) -> nat {
    number(byte_digits(head), 256)
}

pub open spec fn oversized() -> IoErrorView {
    IoErrorView {
        kind: IoErrorKind::InvalidData,
        message: "oversized frame - not a peer speaking this protocol"@,
    }
}

pub open spec fn too_large() -> IoErrorView {
    IoErrorView { kind: IoErrorKind::InvalidInput, message: "frame too large"@ }
}

/// What reading a frame comes to, where `head` are the calls for its length
/// and `body` those for its payload.
pub open spec fn frame_read(head: Seq<ReadCall>, body: Seq<ReadCall>) -> Option<
    Result<Seq<u8>, IoErrorView>,
> {
    match read_state(head, 4) {
        ReadState::Failed(e) => if body.len() == 0 {
            Some(Err(e))
        } else {
            None
        },
        ReadState::Done(h) => if frame_len(h) > MAX_FRAME {
            if body.len() == 0 {
                Some(Err(oversized()))
            } else {
                None
            }
        } else {
            read_outcome(read_state(body, frame_len(h)))
        },
        _ => None,
    }
}

/// The length that four bytes announce.
pub fn head_len(head: &Vec<u8>) -> (r: u32)
    requires
        head@.len() == 4,
    ensures
        r == frame_len(head@),
{
    proof {
        head_number(head@);
    }
    head[0] as u32 * 16777216 + head[1] as u32 * 65536 + head[2] as u32 * 256 + head[3] as u32
}

/// The number that four bytes write, spelled out.
pub proof fn head_number(h: Seq<u8>)
    requires
        h.len() == 4,
    ensures
        frame_len(h) == h[0] * 16777216 + h[1] * 65536 + h[2] * 256 + h[3],
{
    let d = byte_digits(h);
    let d3 = d.drop_last();
    let d2 = d3.drop_last();
    let d1 = d2.drop_last();
    assert(d1.drop_last() =~= Seq::<nat>::empty());
    assert(number(d1.drop_last(), 256) == 0);
    assert(d1.last() == h[0]);
    assert(number(d1, 256) == h[0]);
    assert(number(d2, 256) == h[0] * 256 + h[1]);
    assert(number(d3, 256) == (h[0] * 256 + h[1]) * 256 + h[2]);
}

/// The bytes of a frame.
pub fn frame(payload: &[u8]) -> (r: Vec<u8>)
    requires
        payload@.len() <= MAX_FRAME,
    ensures
        r@ == frame_bytes(payload@),
{
    let n: u32 = payload.len() as u32;
    let mut out: Vec<u8> = Vec::new();
    out.push((n / 16777216) as u8);
    out.push((n / 65536 % 256) as u8);
    out.push((n / 256 % 256) as u8);
    out.push((n % 256) as u8);
    proof {
        reveal_with_fuel(digits, 5);
        assert(out@ =~= frame_head(n as nat));
    }
    let mut i: usize = 0;
    while i < payload.len()
        invariant
            i <= payload@.len(),
            out@ == frame_head(payload@.len()) + payload@.take(i as int),
        decreases payload@.len() - i,
    {
        out.push(payload[i]);
        assert(out@ =~= frame_head(payload@.len()) + payload@.take(i + 1));
        i += 1;
    }
    assert(payload@.take(i as int) =~= payload@);
    out
}

/// Send one frame. A payload over the limit is refused before anything is
/// written.
pub fn write_frame<S: Stream>(s: &S, payload: &[u8]) -> (r: Result<(), IoError>)
    ensures
        payload@.len() > MAX_FRAME ==> done_view(r) == Err::<(), IoErrorView>(too_large()),
        payload@.len() <= MAX_FRAME ==> exists|calls: Seq<WriteCall>| #[trigger]
            writes_of(s, calls) && write_outcome(write_state(calls, frame_bytes(payload@))) == Some(
                done_view(r),
            ),
{
    if payload.len() > MAX_FRAME {
        return Err(IoError::new(IoErrorKind::InvalidInput, "frame too large"));
    }
    // One buffer, one write: keeps the header and body together.
    let out = frame(payload);
    write_all(s, &out)
}

/// Read one frame.
pub fn read_frame<S: Stream>(s: &S) -> (r: Result<Vec<u8>, IoError>)
    ensures
        exists|head: Seq<ReadCall>, body: Seq<ReadCall>| #[trigger]
            reads_of(s, head) && #[trigger] reads_of(s, body) && frame_read(head, body) == Some(
                reply_view(r),
            ),
{
    let got = read_exact(s, 4);
    let ghost head = choose|calls: Seq<ReadCall>| #[trigger]
        reads_of(s, calls) && read_outcome(read_state(calls, 4)) == Some(reply_view(got));
    proof {
        done_len(head, 4);
        assert(reads_of(s, Seq::<ReadCall>::empty()));
    }
    let hdr = match got {
        Ok(h) => h,
        Err(e) => {
            assert(frame_read(head, Seq::<ReadCall>::empty()) == Some(
                Err::<Seq<u8>, IoErrorView>(e@),
            ));
            return Err(e);
        },
    };
    let len: usize = head_len(&hdr) as usize;
    if len > MAX_FRAME {
        let e = IoError::new(
            IoErrorKind::InvalidData,
            "oversized frame - not a peer speaking this protocol",
        );
        assert(frame_read(head, Seq::<ReadCall>::empty()) == Some(
            Err::<Seq<u8>, IoErrorView>(e@),
        ));
        return Err(e);
    }
    let r = read_exact(s, len);
    let ghost body = choose|calls: Seq<ReadCall>| #[trigger]
        reads_of(s, calls) && read_outcome(read_state(calls, len as nat)) == Some(reply_view(r));
    assert(frame_read(head, body) == Some(reply_view(r)));
    r
}

// --- laws ----------------------------------------------------------------------

/// A read that is done has as many bytes as were wanted; one that is running
/// has fewer.
pub proof fn done_len(calls: Seq<ReadCall>, want: nat)
    ensures
        read_state(calls, want) matches ReadState::Done(d) ==> d.len() == want,
        read_state(calls, want) matches ReadState::Running { got, .. } ==> got.len() < want,
    decreases calls.len(),
{
    if calls.len() > 0 {
        done_len(calls.drop_last(), want);
    }
}

/// No call of a read that is done or running failed, but for interruptions.
pub proof fn only_interruptions(calls: Seq<ReadCall>, want: nat, call: ReadCall)
    requires
        calls.contains(call),
    ensures
        read_state(calls, want) is Done || read_state(calls, want) is Running ==> (call.1 matches Err(
            e,
        ) ==> e.kind == IoErrorKind::Interrupted),
    decreases calls.len(),
{
    let t = calls.drop_last();
    let i = choose|i: int| 0 <= i < calls.len() && calls[i] == call;
    if i < t.len() {
        assert(t[i] == call);
        only_interruptions(t, want, call);
    }
}

/// What the replies of a run carried, one behind the other.
pub open spec fn joined(calls: Seq<ReadCall>) -> Seq<u8>
    decreases calls.len(),
{
    if calls.len() == 0 {
        Seq::empty()
    } else {
        match calls.last().1 {
            Ok(d) => joined(calls.drop_last()) + d,
            Err(_) => joined(calls.drop_last()),
        }
    }
}

/// How many of the calls of a run were interrupted.
pub open spec fn interruptions(calls: Seq<ReadCall>) -> nat
    decreases calls.len(),
{
    if calls.len() == 0 {
        0
    } else {
        interruptions(calls.drop_last()) + if calls.last().1 is Err {
            1nat
        } else {
            0nat
        }
    }
}

/// Every call was answered with part of what it asked for, at least one byte,
/// or was interrupted, no more often than is put up with.
pub open spec fn in_pieces(calls: Seq<ReadCall>) -> bool {
    &&& forall|i: int|
        0 <= i < calls.len() ==> match (#[trigger] calls[i]).1 {
            Ok(d) => 0 < d.len() <= calls[i].0,
            Err(e) => e.kind == IoErrorKind::Interrupted,
        }
    &&& interruptions(calls) <= PATIENCE
}

/// However a stream cuts up the bytes, and however often it is interrupted, a
/// read puts them together again as they were sent, and takes no byte beyond
/// those that were wanted. (It is broken only where it is no run of a read:
/// where a call asks for something else than what is missing.)
pub proof fn pieces_are_joined(calls: Seq<ReadCall>, want: nat)
    requires
        in_pieces(calls),
    ensures
        read_state(calls, want) is Broken || (if joined(calls).len() < want {
            read_state(calls, want) == (ReadState::Running {
                got: joined(calls),
                patience: (PATIENCE - interruptions(calls)) as nat,
            })
        } else {
            joined(calls).len() == want && read_state(calls, want) == ReadState::Done(joined(calls))
        }),
    decreases calls.len(),
{
    if calls.len() > 0 {
        let t = calls.drop_last();
        assert forall|i: int| 0 <= i < t.len() implies match (#[trigger] t[i]).1 {
            Ok(d) => 0 < d.len() <= t[i].0,
            Err(e) => e.kind == IoErrorKind::Interrupted,
        } by {
            assert(t[i] == calls[i]);
        }
        pieces_are_joined(t, want);
        let last = calls[calls.len() - 1];
        if let Ok(d) = last.1 {
            assert(d.take(d.len() as int) =~= d);
        }
    } else if want == 0 {
        assert(joined(calls) =~= Seq::<u8>::empty());
    }
}

/// The four bytes of a length announce that length.
pub proof fn head_round_trip(len: nat)
    requires
        len < 0x1_0000_0000,
    ensures
        frame_len(frame_head(len)) == len,
        frame_head(len).len() == 4,
{
    reveal_with_fuel(digits, 5);
    let h = frame_head(len);
    head_number(h);
}

/// A run of `read_frame` to its end: the calls for the length of the frame,
/// then those for its payload.
pub type FrameCalls = (Seq<ReadCall>, Seq<ReadCall>);

/// The stream hands over bytes in pieces, and the frame is read to its end.
pub open spec fn frame_in_pieces(run: FrameCalls) -> bool {
    &&& in_pieces(run.0)
    &&& in_pieces(run.1)
    &&& frame_read(run.0, run.1) is Some
}

/// The bytes that a run of `read_frame` took from its stream.
pub open spec fn bytes_of(run: FrameCalls) -> Seq<u8> {
    joined(run.0) + joined(run.1)
}

/// A frame reads back as it was written, however the stream cuts it up and
/// whatever follows: the payload that went into it comes out, and exactly the
/// bytes of the frame are taken.
pub proof fn frame_round_trip(payload: Seq<u8>, rest: Seq<u8>, run: FrameCalls)
    requires
        payload.len() <= MAX_FRAME,
        frame_in_pieces(run),
        bytes_of(run).is_prefix_of(frame_bytes(payload) + rest),
    ensures
        frame_read(run.0, run.1) == Some(Ok::<Seq<u8>, IoErrorView>(payload)),
        bytes_of(run) == frame_bytes(payload),
{
    let (head, body) = run;
    head_round_trip(payload.len());
    pieces_are_joined(head, 4);
    let h = joined(head);
    assert(h.len() == 4);
    let all = frame_bytes(payload) + rest;
    assert(h =~= bytes_of(run).take(4));
    assert(h =~= all.take(4));
    assert(frame_head(payload.len()) =~= all.take(4));
    pieces_are_joined(body, payload.len());
    assert(joined(body).len() == payload.len());
    assert(joined(body) =~= bytes_of(run).skip(4));
    assert(bytes_of(run) =~= all.take(bytes_of(run).len() as int));
    assert(all.take(bytes_of(run).len() as int) =~= frame_bytes(payload));
    assert(payload =~= frame_bytes(payload).skip(4));
}

/// Frames, one behind the other.
pub open spec fn frames_bytes(payloads: Seq<Seq<u8>>) -> Seq<u8>
    decreases payloads.len(),
{
    if payloads.len() == 0 {
        Seq::empty()
    } else {
        frame_bytes(payloads[0]) + frames_bytes(payloads.skip(1))
    }
}

/// The bytes that runs of `read_frame` took, one behind the other.
pub open spec fn bytes_of_all(runs: Seq<FrameCalls>) -> Seq<u8>
    decreases runs.len(),
{
    if runs.len() == 0 {
        Seq::empty()
    } else {
        bytes_of(runs[0]) + bytes_of_all(runs.skip(1))
    }
}

/// Frames that are written one behind the other are read one behind the other,
/// each with its own payload.
pub proof fn frames_round_trip(payloads: Seq<Seq<u8>>, rest: Seq<u8>, runs: Seq<FrameCalls>)
    requires
        runs.len() == payloads.len(),
        forall|i: int| 0 <= i < payloads.len() ==> (#[trigger] payloads[i]).len() <= MAX_FRAME,
        forall|i: int| 0 <= i < runs.len() ==> frame_in_pieces(#[trigger] runs[i]),
        bytes_of_all(runs).is_prefix_of(frames_bytes(payloads) + rest),
    ensures
        forall|i: int|
            0 <= i < runs.len() ==> frame_read((#[trigger] runs[i]).0, runs[i].1) == Some(
                Ok::<Seq<u8>, IoErrorView>(payloads[i]),
            ),
        bytes_of_all(runs) == frames_bytes(payloads),
    decreases runs.len(),
{
    if runs.len() > 0 {
        let (p, q) = (payloads.skip(1), runs.skip(1));
        let all = frames_bytes(payloads) + rest;
        let after = frames_bytes(p) + rest;
        let (first, more) = (bytes_of(runs[0]), bytes_of_all(q));
        assert(all =~= frame_bytes(payloads[0]) + after);
        assert(first =~= bytes_of_all(runs).take(first.len() as int));
        assert(first.is_prefix_of(all)) by {
            assert(bytes_of_all(runs) =~= all.take(bytes_of_all(runs).len() as int));
            assert(first =~= all.take(first.len() as int));
        }
        frame_round_trip(payloads[0], after, runs[0]);
        assert(more.is_prefix_of(after)) by {
            assert(bytes_of_all(runs) =~= all.take(bytes_of_all(runs).len() as int));
            assert(more =~= bytes_of_all(runs).skip(first.len() as int));
            assert(more =~= after.take(more.len() as int));
        }
        assert forall|i: int| 0 <= i < q.len() implies frame_in_pieces(#[trigger] q[i]) by {
            assert(q[i] == runs[i + 1]);
        }
        assert forall|i: int| 0 <= i < p.len() implies (#[trigger] p[i]).len() <= MAX_FRAME by {
            assert(p[i] == payloads[i + 1]);
        }
        frames_round_trip(p, rest, q);
        assert forall|i: int| 0 <= i < runs.len() implies frame_read(
            (#[trigger] runs[i]).0,
            runs[i].1,
        ) == Some(Ok::<Seq<u8>, IoErrorView>(payloads[i])) by {
            if i > 0 {
                assert(runs[i] == q[i - 1]);
                assert(payloads[i] == p[i - 1]);
            }
        }
    }
}

/// What was written is what is read: where a frame was handed to a stream that
/// took no more than it was given, and the bytes that it took arrive, in
/// whatever pieces, the payload comes out at the other end.
pub proof fn a_frame_gets_through(
    payload: Seq<u8>,
    writes: Seq<WriteCall>,
    rest: Seq<u8>,
    run: FrameCalls,
)
    requires
        payload.len() <= MAX_FRAME,
        write_outcome(write_state(writes, frame_bytes(payload))) == Some(Ok::<(), IoErrorView>(())),
        forall|i: int|
            0 <= i < writes.len() ==> ((#[trigger] writes[i]).1 matches Ok(n) ==> n
                <= writes[i].0.len()),
        frame_in_pieces(run),
        bytes_of(run).is_prefix_of(taken(writes) + rest),
    ensures
        frame_read(run.0, run.1) == Some(Ok::<Seq<u8>, IoErrorView>(payload)),
        bytes_of(run) == taken(writes),
{
    all_is_written(writes, frame_bytes(payload));
    frame_round_trip(payload, rest, run);
}

/// What a stream took of the bytes it was handed, one behind the other.
pub open spec fn taken(calls: Seq<WriteCall>) -> Seq<u8>
    decreases calls.len(),
{
    if calls.len() == 0 {
        Seq::empty()
    } else {
        match calls.last().1 {
            Ok(n) => taken(calls.drop_last()) + calls.last().0.take(n as int),
            Err(_) => taken(calls.drop_last()),
        }
    }
}

/// A stream that took no more than it was handed, in a write that is done, has
/// taken exactly the bytes that were to be written, in order.
pub proof fn all_is_written(calls: Seq<WriteCall>, data: Seq<u8>)
    requires
        forall|i: int|
            0 <= i < calls.len() ==> ((#[trigger] calls[i]).1 matches Ok(n) ==> n
                <= calls[i].0.len()),
    ensures
        write_state(calls, data) is Done ==> taken(calls) == data,
        write_state(calls, data) matches WriteState::Running { off, .. } ==> off < data.len()
            && taken(calls) == data.take(off as int),
    decreases calls.len(),
{
    if calls.len() > 0 {
        let t = calls.drop_last();
        assert forall|i: int| 0 <= i < t.len() implies ((#[trigger] t[i]).1 matches Ok(n) ==> n
            <= t[i].0.len()) by {
            assert(t[i] == calls[i]);
        }
        all_is_written(t, data);
        let last = calls[calls.len() - 1];
        if let WriteState::Running { off, .. } = write_state(t, data) {
            if let Ok(n) = last.1 {
                if last.0 == data.skip(off as int) {
                    assert(data.take(off as int) + data.skip(off as int).take(n as int)
                        =~= data.take((off + n) as int));
                    assert(data.take(data.len() as int) =~= data);
                }
            }
        }
    } else {
        assert(data.take(0) =~= Seq::<u8>::empty());
        if data.len() == 0 {
            assert(data =~= Seq::<u8>::empty());
        }
    }
}

/// No frame that is read is over the limit.
pub proof fn frame_is_bounded(head: Seq<ReadCall>, body: Seq<ReadCall>)
    ensures
        frame_read(head, body) matches Some(Ok(b)) ==> b.len() <= MAX_FRAME,
{
    if let ReadState::Done(h) = read_state(head, 4) {
        done_len(body, frame_len(h));
    }
}

} // verus!
