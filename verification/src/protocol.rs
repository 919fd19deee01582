//! The messages peers exchange inside the encrypted channel.
//!
//! Frames are one byte of kind followed by a body:
//!
//! * `0x01` – JSON-encoded [`Control`] message.
//! * `0x02` – file chunk: 16-byte transfer id, 4-byte big-endian sequence
//!   number, then raw bytes. Chunks are binary so file transfer costs no
//!   base64 overhead and shares the link with chat without blocking it.
//!
//! The front end turns the JSON bytes of a control frame into a [`Control`]
//! and back.

use chrono::TimeZone;
use rand::RngCore;
use vstd::prelude::*;
use vstd::slice::slice_subrange;

use crate::codec::{head_number, head_round_trip};
use crate::crypto::MAX_PLAINTEXT;
use crate::digits::{as_bytes, byte_digits, digits, number};
use crate::error::{viewed, Error, ErrorView};
use crate::text::{
    cat, chars_of, dec, dec_digit, dec_text, digit_char, hex_char, hex_digit_value, hex_lower, hex_value,
    is_hex, json_len, json_len_bounds, json_room, lower_hex_digit, plain_char,
};
use crate::views::{dup_all, each, Dup};

verus! {

pub const KIND_CONTROL: u8 = 0x01;

pub const KIND_CHUNK: u8 = 0x02;

/// 32 KiB payload per chunk: comfortably inside the Noise message limit and
/// large enough that RFCOMM's small MTU is not the bottleneck.
pub const CHUNK_SIZE: usize = 32768;

pub type PeerId = String;

// --- messages ------------------------------------------------------------------

/// Everything one peer needs in order to reach and recognise another.
#[derive(Clone, Debug, PartialEq, Eq)]
pub struct PeerInfo {
    pub id: PeerId,
    pub name: String,
    /// Dial address on the active transport (`ip:port` or `MAC:channel`).
    pub addr: String,
    pub fingerprint: String,
}

#[verifier::ext_equal]
pub struct PeerInfoView {
    pub id: Seq<char>,
    pub name: Seq<char>,
    pub addr: Seq<char>,
    pub fingerprint: Seq<char>,
}

impl View for PeerInfo {
    type V = PeerInfoView;

    open spec fn view(&self) -> PeerInfoView {
        PeerInfoView {
            id: self.id@,
            name: self.name@,
            addr: self.addr@,
            fingerprint: self.fingerprint@,
        }
    }
}

impl Dup for PeerInfo {
    fn dup(&self) -> (r: Self) {
        PeerInfo {
            id: self.id.clone(),
            name: self.name.clone(),
            addr: self.addr.clone(),
            fingerprint: self.fingerprint.clone(),
        }
    }
}

#[derive(Clone, Debug)]
pub enum Control {
    /// Joiner -> host: "may I join this room?"
    Hello { version: u32, room: String, peer: PeerInfo },
    /// New peer -> already-approved peer: "the host approved me, here I am."
    MeshHello { version: u32, room: String, peer: PeerInfo },
    /// Host -> joiner, after the operator pressed Accept. Carries the roster
    /// so the joiner can dial everybody else directly.
    Welcome { room: String, host: PeerInfo, peers: Vec<PeerInfo> },
    /// Peer -> new peer: direct mesh link established.
    MeshAck { peer: PeerInfo },
    /// Either side refusing a link, with a reason shown in the UI.
    Rejected { reason: String },
    /// Host -> existing peers: a new peer was approved; expect their call.
    PeerJoined { peer: PeerInfo },
    /// Host -> everyone: a peer is gone.
    PeerLeft { id: String, name: String },
    /// A chat line, sent directly to every peer by its author.
    Chat { id: String, from: String, name: String, ts: i64, body: String },
    /// Offer to send a file. The recipient answers accept/decline.
    FileOffer { transfer: String, name: String, size: u64, sha256: String },
    FileAccept { transfer: String },
    FileDecline { transfer: String, reason: String },
    /// All chunks sent.
    FileDone { transfer: String },
    FileAbort { transfer: String, reason: String },
    /// Graceful shutdown.
    Bye,
}

#[verifier::ext_equal]
pub enum ControlView {
    Hello { version: u32, room: Seq<char>, peer: PeerInfoView },
    MeshHello { version: u32, room: Seq<char>, peer: PeerInfoView },
    Welcome { room: Seq<char>, host: PeerInfoView, peers: Seq<PeerInfoView> },
    MeshAck { peer: PeerInfoView },
    Rejected { reason: Seq<char> },
    PeerJoined { peer: PeerInfoView },
    PeerLeft { id: Seq<char>, name: Seq<char> },
    Chat { id: Seq<char>, from: Seq<char>, name: Seq<char>, ts: i64, body: Seq<char> },
    FileOffer { transfer: Seq<char>, name: Seq<char>, size: u64, sha256: Seq<char> },
    FileAccept { transfer: Seq<char> },
    FileDecline { transfer: Seq<char>, reason: Seq<char> },
    FileDone { transfer: Seq<char> },
    FileAbort { transfer: Seq<char>, reason: Seq<char> },
    Bye,
}

impl View for Control {
    type V = ControlView;

    open spec fn view(&self) -> ControlView {
        match self {
            Control::Hello { version, room, peer } => ControlView::Hello {
                version: *version,
                room: room@,
                peer: peer@,
            },
            Control::MeshHello { version, room, peer } => ControlView::MeshHello {
                version: *version,
                room: room@,
                peer: peer@,
            },
            Control::Welcome { room, host, peers } => ControlView::Welcome {
                room: room@,
                host: host@,
                peers: each(peers@),
            },
            Control::MeshAck { peer } => ControlView::MeshAck { peer: peer@ },
            Control::Rejected { reason } => ControlView::Rejected { reason: reason@ },
            Control::PeerJoined { peer } => ControlView::PeerJoined { peer: peer@ },
            Control::PeerLeft { id, name } => ControlView::PeerLeft { id: id@, name: name@ },
            Control::Chat { id, from, name, ts, body } => ControlView::Chat {
                id: id@,
                from: from@,
                name: name@,
                ts: *ts,
                body: body@,
            },
            Control::FileOffer { transfer, name, size, sha256 } => ControlView::FileOffer {
                transfer: transfer@,
                name: name@,
                size: *size,
                sha256: sha256@,
            },
            Control::FileAccept { transfer } => ControlView::FileAccept { transfer: transfer@ },
            Control::FileDecline { transfer, reason } => ControlView::FileDecline {
                transfer: transfer@,
                reason: reason@,
            },
            Control::FileDone { transfer } => ControlView::FileDone { transfer: transfer@ },
            Control::FileAbort { transfer, reason } => ControlView::FileAbort {
                transfer: transfer@,
                reason: reason@,
            },
            Control::Bye => ControlView::Bye,
        }
    }
}

impl Dup for Control {
    fn dup(&self) -> (r: Self) {
        match self {
            Control::Hello { version, room, peer } => Control::Hello {
                version: *version,
                room: room.clone(),
                peer: peer.dup(),
            },
            Control::MeshHello { version, room, peer } => Control::MeshHello {
                version: *version,
                room: room.clone(),
                peer: peer.dup(),
            },
            Control::Welcome { room, host, peers } => Control::Welcome {
                room: room.clone(),
                host: host.dup(),
                peers: dup_all(peers),
            },
            Control::MeshAck { peer } => Control::MeshAck { peer: peer.dup() },
            Control::Rejected { reason } => Control::Rejected { reason: reason.clone() },
            Control::PeerJoined { peer } => Control::PeerJoined { peer: peer.dup() },
            Control::PeerLeft { id, name } => Control::PeerLeft {
                id: id.clone(),
                name: name.clone(),
            },
            Control::Chat { id, from, name, ts, body } => Control::Chat {
                id: id.clone(),
                from: from.clone(),
                name: name.clone(),
                ts: *ts,
                body: body.clone(),
            },
            Control::FileOffer { transfer, name, size, sha256 } => Control::FileOffer {
                transfer: transfer.clone(),
                name: name.clone(),
                size: *size,
                sha256: sha256.clone(),
            },
            Control::FileAccept { transfer } => Control::FileAccept { transfer: transfer.clone() },
            Control::FileDecline { transfer, reason } => Control::FileDecline {
                transfer: transfer.clone(),
                reason: reason.clone(),
            },
            Control::FileDone { transfer } => Control::FileDone { transfer: transfer.clone() },
            Control::FileAbort { transfer, reason } => Control::FileAbort {
                transfer: transfer.clone(),
                reason: reason.clone(),
            },
            Control::Bye => Control::Bye,
        }
    }
}

// --- frames --------------------------------------------------------------------

/// What one decrypted payload holds.
#[derive(Debug)]
pub enum Frame {
    /// The JSON text of a control message.
    Control(Vec<u8>),
    Chunk { id: [u8; 16], seq: u32, data: Vec<u8> },
}

#[verifier::ext_equal]
pub enum FrameView {
    Control(Seq<u8>),
    Chunk { id: Seq<u8>, seq: u32, data: Seq<u8> },
}

impl View for Frame {
    type V = FrameView;

    open spec fn view(&self) -> FrameView {
        match self {
            Frame::Control(json) => FrameView::Control(json@),
            Frame::Chunk { id, seq, data } => FrameView::Chunk { id: id@, seq: *seq, data: data@ },
        }
    }
}

/// The payload of a control message.
pub open spec fn control_bytes(json: Seq<u8>) -> Seq<u8> {
    seq![KIND_CONTROL] + json
}

/// The payload of a file chunk.
pub open spec fn chunk_bytes(id: Seq<u8>, seq: u32, data: Seq<u8>) -> Seq<u8> {
    seq![KIND_CHUNK] + id + as_bytes(digits(seq as nat, 256, 4)) + data
}

/// What a payload holds.
pub open spec fn frame_in(buf: Seq<u8>) -> Result<FrameView, ErrorView> {
    if buf.len() == 0 {
        Err(ErrorView::Protocol("empty frame"@))
    } else if buf[0] == KIND_CONTROL {
        Ok(FrameView::Control(buf.skip(1)))
    } else if buf[0] == KIND_CHUNK {
        if buf.len() < 21 {
            Err(ErrorView::Protocol("truncated file chunk"@))
        } else {
            Ok(
                FrameView::Chunk {
                    id: buf.subrange(1, 17),
                    seq: number(byte_digits(buf.subrange(17, 21)), 256) as u32,
                    data: buf.skip(21),
                },
            )
        }
    } else {
        Err(ErrorView::Protocol("unknown frame kind "@ + dec(buf[0] as nat)))
    }
}

/// Every byte of `more`, behind those of `out`.
fn extend(out: &mut Vec<u8>, more: &[u8])
    ensures
        final(out)@ == old(out)@ + more@,
{
    let ghost start = out@;
    let mut i: usize = 0;
    assert(out@ =~= start + more@.take(0));
    while i < more.len()
        invariant
            i <= more@.len(),
            out@ == start + more@.take(i as int),
        decreases more@.len() - i,
    {
        out.push(more[i]);
        assert(out@ =~= start + more@.take(i + 1));
        i += 1;
    }
    assert(more@.take(i as int) =~= more@);
}

/// The payload of a control message, given its JSON text.
pub fn encode_control(json: &[u8]) -> (r: Vec<u8>)
    ensures
        r@ == control_bytes(json@),
{
    let mut out: Vec<u8> = Vec::new();
    out.push(KIND_CONTROL);
    extend(&mut out, json);
    assert(out@ =~= control_bytes(json@));
    out
}

pub fn encode_chunk(id: &[u8; 16], seq: u32, data: &[u8]) -> (r: Vec<u8>)
    ensures
        r@ == chunk_bytes(id@, seq, data@),
        r@.len() == 21 + data@.len(),
{
    let mut out: Vec<u8> = Vec::new();
    out.push(KIND_CHUNK);
    extend(&mut out, id.as_slice());
    out.push((seq / 16777216) as u8);
    out.push((seq / 65536 % 256) as u8);
    out.push((seq / 256 % 256) as u8);
    out.push((seq % 256) as u8);
    proof {
        reveal_with_fuel(digits, 5);
        assert(out@ =~= seq![KIND_CHUNK] + id@ + as_bytes(digits(seq as nat, 256, 4)));
    }
    extend(&mut out, data);
    out
}

/// Take a payload apart.
pub fn decode(buf: &[u8]) -> (r: Result<Frame, Error>)
    ensures
        viewed(r) == frame_in(buf@),
{
    if buf.len() == 0 {
        return Err(Error::Protocol("empty frame".to_owned()));
    }
    let kind: u8 = buf[0];
    if kind == KIND_CONTROL {
        let body = slice_subrange(buf, 1, buf.len());
        let mut json: Vec<u8> = Vec::new();
        extend(&mut json, body);
        assert(json@ =~= buf@.skip(1));
        Ok(Frame::Control(json))
    } else if kind == KIND_CHUNK {
        if buf.len() < 21 {
            return Err(Error::Protocol("truncated file chunk".to_owned()));
        }
        let mut id: [u8; 16] = [0u8; 16];
        let mut i: usize = 0;
        while i < 16
            invariant
                i <= 16,
                buf@.len() >= 21,
                forall|j: int| 0 <= j < i ==> id@[j] == buf@[j + 1],
            decreases 16 - i,
        {
            id[i] = buf[i + 1];
            i += 1;
        }
        assert(id@ =~= buf@.subrange(1, 17));
        proof {
            head_number(buf@.subrange(17, 21));
        }
        let seq: u32 = buf[17] as u32 * 16777216 + buf[18] as u32 * 65536 + buf[19] as u32 * 256
            + buf[20] as u32;
        let mut data: Vec<u8> = Vec::new();
        extend(&mut data, slice_subrange(buf, 21, buf.len()));
        assert(data@ =~= buf@.skip(21));
        Ok(Frame::Chunk { id, seq, data })
    } else {
        Err(Error::Protocol(cat("unknown frame kind ", &dec_text(kind as u64))))
    }
}

// --- small helpers -------------------------------------------------------------

/// `rand::rngs::OsRng.fill_bytes`: bytes from the system's random source.
/// Nothing is claimed of them.
#[verifier::external_body]
pub fn random_bytes<const N: usize>() -> (r: [u8; N]) {
    let mut out = [0u8; N];
    rand::rngs::OsRng.fill_bytes(&mut out);
    out
}

/// Two hexadecimal digits for each byte, in small letters.
pub open spec fn hex_text(bytes: Seq<u8>) -> Seq<char> {
    Seq::new(
        2 * bytes.len(),
        |i: int|
            if i % 2 == 0 {
                hex_lower((bytes[i / 2] / 16) as nat)
            } else {
                hex_lower((bytes[i / 2] % 16) as nat)
            },
    )
}

pub fn hex(bytes: &[u8]) -> (r: String)
    ensures
        r@ == hex_text(bytes@),
{
    let mut out = String::new();
    let mut i: usize = 0;
    while i < bytes.len()
        invariant
            i <= bytes@.len(),
            out@ == hex_text(bytes@.take(i as int)),
        decreases bytes@.len() - i,
    {
        let b: u8 = bytes[i];
        out.push(lower_hex_digit(b / 16));
        out.push(lower_hex_digit(b % 16));
        assert(out@ =~= hex_text(bytes@.take(i + 1)));
        i += 1;
    }
    assert(bytes@.take(i as int) =~= bytes@);
    out
}

/// What two characters write as a number below 256: two hexadecimal digits,
/// or one behind a `+`.
pub open spec fn pair_value(a: char, b: char) -> Option<u8> {
    if hex_char(a) && hex_char(b) {
        Some((16 * hex_value(a) + hex_value(b)) as u8)
    } else if a == '+' && hex_char(b) {
        Some(hex_value(b) as u8)
    } else {
        None
    }
}

/// `s` is sixteen pairs that each write a byte.
pub open spec fn transfer_id(s: Seq<char>) -> bool {
    &&& s.len() == 32
    &&& forall|i: int| 0 <= i < 16 ==> (#[trigger] pair_value(s[2 * i], s[2 * i + 1])) is Some
}

/// The sixteen bytes that the text of a transfer id writes.
pub open spec fn id_in(s: Seq<char>) -> Result<Seq<u8>, ErrorView> {
    if transfer_id(s) {
        Ok(Seq::new(16, |i: int| pair_value(s[2 * i], s[2 * i + 1])->0))
    } else {
        Err(ErrorView::Protocol("bad transfer id"@))
    }
}

fn pair(a: char, b: char) -> (r: Option<u8>)
    ensures
        r == pair_value(a, b),
{
    if !is_hex(b) {
        return None;
    }
    if is_hex(a) {
        Some(16 * hex_digit_value(a) + hex_digit_value(b))
    } else if a == '+' {
        Some(hex_digit_value(b))
    } else {
        None
    }
}

pub fn unhex16(s: &str) -> (r: Result<[u8; 16], Error>)
    ensures
        viewed(r) == id_in(s@),
{
    let v = chars_of(s);
    if v.len() != 32 {
        return Err(Error::Protocol("bad transfer id".to_owned()));
    }
    let mut out: [u8; 16] = [0u8; 16];
    let mut i: usize = 0;
    while i < 16
        invariant
            i <= 16,
            v@ == s@,
            v@.len() == 32,
            forall|j: int|
                0 <= j < i ==> (#[trigger] pair_value(s@[2 * j], s@[2 * j + 1])) == Some(out@[j]),
        decreases 16 - i,
    {
        match pair(v[2 * i], v[2 * i + 1]) {
            Some(b) => {
                out[i] = b;
            },
            None => {
                assert(pair_value(s@[2 * i], s@[2 * i + 1]) is None);
                return Err(Error::Protocol("bad transfer id".to_owned()));
            },
        }
        i += 1;
    }
    assert(out@ =~= id_in(s@)->Ok_0);
    Ok(out)
}

/// Eight bytes in hexadecimal.
pub open spec fn an_id(s: Seq<char>) -> bool {
    exists|b: Seq<u8>| b.len() == 8 && s == #[trigger] hex_text(b)
}

/// Random 16-hex-character identifier, used for peer ids and message ids.
pub fn new_id() -> (r: String)
    ensures
        exists|b: [u8; 8]| #[trigger]
            call_ensures(random_bytes::<8>, (), b) && r@ == hex_text(b@),
        an_id(r@),
        r@.len() == 16,
{
    let b: [u8; 8] = random_bytes::<8>();
    assert(call_ensures(random_bytes::<8>, (), b));
    let r = hex(b.as_slice());
    assert(r@ == hex_text(b@));
    r
}

/// `SystemTime::elapsed` of `std::time::UNIX_EPOCH`: whole seconds since 1970,
/// or nothing where the clock stands before that.
#[verifier::external_body]
fn epoch_secs() -> (r: Option<u64>) {
    std::time::UNIX_EPOCH.elapsed().ok().map(|d| d.as_secs())
}

/// Whether the machine's clock may stand at this many seconds since 1970,
/// nothing being a time before that.
pub closed spec fn may_stand_at(secs: Option<u64>) -> bool {
    call_ensures(epoch_secs, (), secs)
}

/// The time stamp for this many seconds since 1970.
pub open spec fn stamp_of(secs: Option<u64>) -> i64 {
    match secs {
        Some(n) => n as i64,
        None => 0,
    }
}

/// The time stamp for this many seconds since 1970: zero where the clock
/// stands before that.
pub fn stamp(secs: Option<u64>) -> (r: i64)
    ensures
        r == stamp_of(secs),
{
    match secs {
        Some(n) => n as i64,
        None => 0,
    }
}

/// Seconds since 1970: the time stamp for where the machine's clock stands.
pub fn now_ts() -> (r: i64)
    ensures
        exists|secs: Option<u64>| #[trigger] may_stand_at(secs) && r == stamp_of(secs),
{
    let secs: Option<u64> = epoch_secs();
    assert(may_stand_at(secs));
    stamp(secs)
}

/// Time stamps that have a date: years -262143 to 262142.
pub open spec fn dated(ts: i64) -> bool {
    -8334601228800 <= ts <= 8210266876799
}

/// Time stamps that fall in the years 0 to 9999 wherever on earth they are
/// read, a day at either end left out.
pub open spec fn common_era(ts: i64) -> bool {
    -62167132800 <= ts <= 253402214399
}

/// A number below a hundred in two digits.
pub open spec fn two(n: int) -> Seq<char> {
    seq![dec_digit(n / 10), dec_digit(n % 10)]
}

/// A number in four digits, or as many as it takes.
pub open spec fn four(n: nat) -> Seq<char> {
    let d = dec(n);
    if d.len() < 4 {
        Seq::new((4 - d.len()) as nat, |i: int| '0') + d
    } else {
        d
    }
}

/// A year in four digits; one before the year 0 or after 9999 has a sign, and
/// as many digits as it takes.
pub open spec fn year_text(year: int) -> Seq<char> {
    if year < 0 {
        seq!['-'] + four(-year as nat)
    } else if year <= 9999 {
        four(year as nat)
    } else {
        seq!['+'] + four(year as nat)
    }
}

/// How many days a month has.
pub open spec fn month_len(year: int, month: int) -> int {
    if month == 2 {
        if year % 4 == 0 && (year % 100 != 0 || year % 400 == 0) {
            29
        } else {
            28
        }
    } else if month == 4 || month == 6 || month == 9 || month == 11 {
        30
    } else {
        31
    }
}

/// A day of the calendar.
pub open spec fn real_date(year: int, month: int, day: int) -> bool {
    1 <= month <= 12 && 1 <= day <= month_len(year, month)
}

/// Days since 1970-01-01 in the Gregorian calendar. Years are counted from
/// March, so that a leap day is the last of its year.
pub open spec fn civil_days(year: int, month: int, day: int) -> int {
    let y = if month > 2 {
        year
    } else {
        year - 1
    };
    let m = if month > 2 {
        month - 3
    } else {
        month + 9
    };
    365 * y + y / 4 - y / 100 + y / 400 + (153 * m + 2) / 5 + (day - 1) - 719468
}

/// `HH:MM:SS` for so many seconds since midnight.
pub open spec fn clock_text(secs: int) -> Seq<char> {
    two(secs / 3600) + seq![':'] + two(secs / 60 % 60) + seq![':'] + two(secs % 60)
}

/// `YYYY-MM-DD`.
pub open spec fn date_text(year: int, month: int, day: int) -> Seq<char> {
    year_text(year) + seq!['-'] + two(month) + seq!['-'] + two(day)
}

/// A distance between a time zone and UTC, in seconds.
pub open spec fn zone_offset(off: int) -> bool {
    -86400 < off < 86400
}

/// `s` is the time of day at `ts`, somewhere.
pub open spec fn clock_for(ts: i64, s: Seq<char>) -> bool {
    exists|off: int| #[trigger] zone_offset(off) && s == clock_text((ts + off) % 86400)
}

/// `s` is the date and the time of day at `ts`, somewhere.
pub open spec fn stamp_for(ts: i64, s: Seq<char>) -> bool {
    exists|off: int, year: int, month: int, day: int| #[trigger]
        zone_offset(off) && #[trigger] real_date(year, month, day) && civil_days(year, month, day)
            == (ts + off) / 86400 && s == date_text(year, month, day) + seq![' '] + clock_text(
            (ts + off) % 86400,
        )
}

/// `chrono::Local.timestamp_opt`, then `DateTime::format`: the local time at
/// `ts` written after `pattern`, or nothing where `ts` is out of range.
///
/// Claimed is when there is one, and what is written: the time at `ts`, moved
/// by the offset of a time zone, which is less than a day; for a full time
/// with the date of the Gregorian calendar, the year in four digits, or with a
/// sign where it is before 0 or after 9999. Which offset that is depends on the
/// machine, and is left unsaid.
#[verifier::external_body]
fn local_time(ts: i64, pattern: &str) -> (r: Option<String>)
    requires
        pattern@ == "%H:%M:%S"@ || pattern@ == "%Y-%m-%d %H:%M:%S"@,
    ensures
        r is Some <==> dated(ts),
        pattern@ == "%H:%M:%S"@ ==> (r matches Some(t) ==> clock_for(ts, t@)),
        pattern@ == "%Y-%m-%d %H:%M:%S"@ ==> (r matches Some(t) ==> stamp_for(ts, t@)),
{
    chrono::Local.timestamp_opt(ts, 0).single().map(|t| t.format(pattern).to_string())
}

/// What is written of a time.
pub open spec fn written(time: Option<String>) -> Option<Seq<char>> {
    match time {
        Some(t) => Some(t@),
        None => None,
    }
}

/// Whether the local time at `ts`, written after `pattern`, may be `text`.
pub closed spec fn local_text(ts: i64, pattern: Seq<char>, text: Option<Seq<char>>) -> bool {
    exists|p: &str, r: Option<String>| #[trigger]
        call_ensures(local_time, (ts, p), r) && p@ == pattern && text == written(r)
}

/// The text of a time, where there is one, and otherwise `other`.
pub fn time_or(time: Option<String>, other: &str) -> (r: String)
    ensures
        r@ == match time {
            Some(t) => t@,
            None => other@,
        },
{
    match time {
        Some(t) => t,
        None => other.to_owned(),
    }
}

/// Local-time `HH:MM:SS` for the chat view.
pub fn fmt_clock(ts: i64) -> (r: String)
    ensures
        exists|text: Option<Seq<char>>| #[trigger]
            local_text(ts, "%H:%M:%S"@, text) && r@ == match text {
                Some(t) => t,
                None => "??:??:??"@,
            },
        dated(ts) ==> clock_for(ts, r@),
        !dated(ts) ==> r@ == "??:??:??"@,
{
    let pattern = "%H:%M:%S";
    let time = local_time(ts, pattern);
    proof {
        assert(call_ensures(local_time, (ts, pattern), time));
        assert(local_text(ts, "%H:%M:%S"@, written(time)));
    }
    time_or(time, "??:??:??")
}

/// Local-time `YYYY-MM-DD HH:MM:SS` for the exported transcript.
pub fn fmt_full(ts: i64) -> (r: String)
    ensures
        exists|text: Option<Seq<char>>| #[trigger]
            local_text(ts, "%Y-%m-%d %H:%M:%S"@, text) && r@ == match text {
                Some(t) => t,
                None => "unknown time"@,
            },
        dated(ts) ==> stamp_for(ts, r@),
        !dated(ts) ==> r@ == "unknown time"@,
{
    let pattern = "%Y-%m-%d %H:%M:%S";
    let time = local_time(ts, pattern);
    proof {
        assert(call_ensures(local_time, (ts, pattern), time));
        assert(local_text(ts, "%Y-%m-%d %H:%M:%S"@, written(time)));
    }
    time_or(time, "unknown time")
}

// --- how long a message is -------------------------------------------------------

/// A number as JSON writes it.
pub open spec fn int_text(n: i64) -> Seq<char> {
    if n < 0 {
        "-"@ + dec(-n as nat)
    } else {
        dec(n as nat)
    }
}

/// How many bytes the payload of a chat message takes: one for its kind, then
/// `{"t":"Chat","id":"","from":"","name":"","ts":,"body":""}` with the five
/// values filled in.
pub open spec fn chat_len(
    id: Seq<char>,
    from: Seq<char>,
    name: Seq<char>,
    ts: i64,
    body: Seq<char>,
) -> nat {
    1 + 56 + json_len(id) + json_len(from) + json_len(name) + int_text(ts).len() + json_len(body)
}

/// Whether a chat message fits into one frame.
pub fn chat_fits(id: &str, from: &str, name: &str, ts: i64, body: &str) -> (r: bool)
    ensures
        r == (chat_len(id@, from@, name@, ts, body@) <= MAX_PLAINTEXT),
{
    let sign: u32 = if ts < 0 {
        1
    } else {
        0
    };
    let size: u64 = if ts < 0 {
        (-(ts + 1)) as u64 + 1
    } else {
        ts as u64
    };
    proof {
        reveal_strlit("-");
        dec_is_short(size);
    }
    let digits = chars_of(&dec_text(size));
    let room: u32 = MAX_PLAINTEXT as u32 - 57 - sign - digits.len() as u32;
    match json_room(id, room) {
        None => false,
        Some(room) => match json_room(from, room) {
            None => false,
            Some(room) => match json_room(name, room) {
                None => false,
                Some(room) => json_room(body, room).is_some(),
            },
        },
    }
}

/// A chat message with ids of our own making takes 110 bytes at most beside
/// its name and its body.
pub proof fn chat_len_bound(
    id: Seq<char>,
    from: Seq<char>,
    name: Seq<char>,
    ts: i64,
    body: Seq<char>,
)
    requires
        an_id(id),
        an_id(from),
    ensures
        chat_len(id, from, name, ts, body) <= 110 + json_len(name) + json_len(body),
{
    ids_are_plain(id);
    ids_are_plain(from);
    reveal_strlit("-");
    if ts < 0 {
        dec_is_short(-ts as u64);
    } else {
        dec_is_short(ts as u64);
    }
}

proof fn ids_are_plain(id: Seq<char>)
    requires
        an_id(id),
    ensures
        json_len(id) == 16,
{
    let b = choose|b: Seq<u8>| b.len() == 8 && id == #[trigger] hex_text(b);
    assert forall|i: int| 0 <= i < id.len() implies plain_char(#[trigger] id[i]) by {
        assert(b[i / 2] / 16 < 16 && b[i / 2] % 16 < 16);
    }
    json_len_bounds(id);
}

/// No 64-bit number has more than twenty digits.
proof fn dec_is_short(n: u64)
    ensures
        dec(n as nat).len() <= 20,
{
    reveal_with_fuel(dec, 20);
}

// --- laws ----------------------------------------------------------------------

/// A chunk that was framed is taken apart into what went in.
pub proof fn chunk_round_trip(id: Seq<u8>, seq: u32, data: Seq<u8>)
    requires
        id.len() == 16,
    ensures
        frame_in(chunk_bytes(id, seq, data)) == Ok::<FrameView, ErrorView>(
            FrameView::Chunk { id, seq, data },
        ),
{
    head_round_trip(seq as nat);
    let b = chunk_bytes(id, seq, data);
    assert(b.subrange(1, 17) =~= id);
    assert(b.subrange(17, 21) =~= as_bytes(digits(seq as nat, 256, 4)));
    assert(b.skip(21) =~= data);
}

/// A control message that was framed is taken apart into what went in.
pub proof fn control_round_trip(json: Seq<u8>)
    ensures
        frame_in(control_bytes(json)) == Ok::<FrameView, ErrorView>(FrameView::Control(json)),
{
    assert(control_bytes(json).skip(1) =~= json);
}

/// The text of an id is read back as the id.
pub proof fn id_round_trip(id: Seq<u8>)
    requires
        id.len() == 16,
    ensures
        id_in(hex_text(id)) == Ok::<Seq<u8>, ErrorView>(id),
{
    let s = hex_text(id);
    assert forall|i: int| 0 <= i < 16 implies (#[trigger] pair_value(s[2 * i], s[2 * i + 1]))
        == Some(id[i]) by {
        assert((2 * i) / 2 == i && (2 * i + 1) / 2 == i);
        assert((2 * i) % 2 == 0 && (2 * i + 1) % 2 == 1);
    }
    assert(id_in(s)->Ok_0 =~= id);
}

/// A clock time is eight characters long, with colons between its parts.
pub proof fn clock_times_are_short(ts: i64, s: Seq<char>)
    requires
        clock_for(ts, s),
    ensures
        s.len() == 8,
        s[2] == ':' && s[5] == ':',
        forall|i: int| 0 <= i < 8 && i != 2 && i != 5 ==> digit_char(#[trigger] s[i]),
{
    let off = choose|off: int| #[trigger]
        zone_offset(off) && s == clock_text((ts + off) % 86400);
    let secs = (ts + off) % 86400;
    two_is_digits(secs / 3600);
    two_is_digits(secs / 60 % 60);
    two_is_digits(secs % 60);
}

proof fn two_is_digits(n: int)
    requires
        0 <= n < 100,
    ensures
        two(n).len() == 2,
        digit_char(two(n)[0]),
        digit_char(two(n)[1]),
{
}

/// In the years 0 to 9999 a full time is nineteen characters long: ten for the
/// date, a space, and the clock time.
pub proof fn full_times_are_short(ts: i64, s: Seq<char>)
    requires
        stamp_for(ts, s),
        common_era(ts),
    ensures
        s.len() == 19,
        s[4] == '-' && s[7] == '-' && s[10] == ' ',
        clock_for(ts, s.skip(11)),
{
    let (off, year, month, day) = choose|off: int, year: int, month: int, day: int| #[trigger]
        zone_offset(off) && #[trigger] real_date(year, month, day) && civil_days(year, month, day)
            == (ts + off) / 86400 && s == date_text(year, month, day) + seq![' '] + clock_text(
            (ts + off) % 86400,
        );
    assert(-719528 <= civil_days(year, month, day) <= 2932896);
    assert(0 <= year <= 9999);
    reveal_with_fuel(dec, 4);
    assert(year_text(year).len() == 4);
    assert(date_text(year, month, day).len() == 10);
    assert(s.skip(11) =~= clock_text((ts + off) % 86400));
}

} // verus!
