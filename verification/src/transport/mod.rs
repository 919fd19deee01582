//! Transports.
//!
//! A transport gives us two things and nothing else: a [`Listener`] that
//! accepts inbound byte streams and can tell us the address other peers must
//! dial to reach us, and a way to dial a remote address and get a [`Stream`]
//! back. Everything above this layer is identical for every transport.
//!
//! Both transports are code-based only: nothing is advertised, nothing is
//! broadcast, there is no browsing of any kind. A peer can only be reached by
//! someone who was given the room code out of band.

use vstd::prelude::*;

use crate::error::IoError;
use crate::text::{lower_all, lower_text, same_text, to_upper, trim_text, trimmed, upper};

pub mod bluetooth;
pub mod lan;

verus! {

/// The transports the app can run over.
#[derive(Clone, Copy, Debug, PartialEq, Eq, Structural, Hash)]
pub enum TransportKind {
    /// Direct TCP on the local network. Room code encodes IP + port.
    Lan,
    /// Bluetooth RFCOMM. Room code encodes MAC + channel.
    Bluetooth,
}

/// The name of a transport, as it is shown.
pub open spec fn kind_text(kind: TransportKind) -> Seq<char> {
    match kind {
        TransportKind::Lan => "LAN"@,
        TransportKind::Bluetooth => "Bluetooth"@,
    }
}

/// The transport that a name typed by a user stands for.
pub open spec fn kind_named(s: Seq<char>) -> Option<TransportKind> {
    let t = lower_all(trimmed(s));
    if t == "lan"@ || t == "tcp"@ || t == "local"@ {
        Some(TransportKind::Lan)
    } else if t == "bluetooth"@ || t == "bt"@ || t == "rfcomm"@ {
        Some(TransportKind::Bluetooth)
    } else {
        None
    }
}

/// The first character of a room code for this transport.
pub open spec fn kind_tag(kind: TransportKind) -> char {
    match kind {
        TransportKind::Lan => 'L',
        TransportKind::Bluetooth => 'B',
    }
}

/// The transport that a tag stands for.
pub open spec fn kind_tagged(c: char) -> Option<TransportKind> {
    if upper(c) == 'L' {
        Some(TransportKind::Lan)
    } else if upper(c) == 'B' {
        Some(TransportKind::Bluetooth)
    } else {
        None
    }
}

impl TransportKind {
    pub fn as_str(self) -> (r: &'static str)
        ensures
            r@ == kind_text(self),
    {
        match self {
            TransportKind::Lan => "LAN",
            TransportKind::Bluetooth => "Bluetooth",
        }
    }

    /// Parse a user/UI supplied transport name (case-insensitive).
    pub fn parse(s: &str) -> (r: Option<Self>)
        ensures
            r == kind_named(s@),
    {
        let t = lower_text(&trim_text(s));
        if same_text(&t, "lan") || same_text(&t, "tcp") || same_text(&t, "local") {
            Some(TransportKind::Lan)
        } else if same_text(&t, "bluetooth") || same_text(&t, "bt") || same_text(&t, "rfcomm") {
            Some(TransportKind::Bluetooth)
        } else {
            None
        }
    }

    /// One-character tag used as the first character of a room code.
    pub fn tag(self) -> (r: char)
        ensures
            r == kind_tag(self),
    {
        match self {
            TransportKind::Lan => 'L',
            TransportKind::Bluetooth => 'B',
        }
    }

    pub fn from_tag(c: char) -> (r: Option<Self>)
        ensures
            r == kind_tagged(c),
    {
        let u: char = to_upper(c);
        if u == 'L' {
            Some(TransportKind::Lan)
        } else if u == 'B' {
            Some(TransportKind::Bluetooth)
        } else {
            None
        }
    }
}

/// Every tag names the transport it was made from.
pub proof fn tag_round_trip(kind: TransportKind)
    ensures
        kind_tagged(kind_tag(kind)) == Some(kind),
{
}

/// A bidirectional byte stream.
///
/// Note the `&self` receivers: a single link is read by a dedicated reader
/// while other threads write to it; ordering of *writes* is enforced one layer
/// up, by the link.
pub trait Stream {
    /// Up to `max` bytes that arrived; none at all once the remote side has
    /// closed.
    fn read(&self, max: usize) -> Result<Vec<u8>, IoError>;

    /// Hands bytes over; how many of them were taken.
    fn write(&self, buf: &[u8]) -> Result<usize, IoError>;

    /// Close both directions; safe to call more than once.
    fn close(&self);

    /// Something printable identifying the remote side (IP, MAC, ...).
    fn remote_label(&self) -> String;

    /// Apply a read timeout in milliseconds (used during handshakes so a
    /// stalled peer cannot pin a thread forever). `None` restores blocking
    /// behaviour.
    fn set_read_timeout(&self, millis: Option<u64>) -> Result<(), IoError>;
}

/// A server endpoint other peers dial into.
pub trait Listener {
    type Accepted: Stream;

    fn accept(&self) -> Result<Self::Accepted, IoError>;

    /// The address string that goes into our room code,
    /// e.g. `192.168.1.24:47021` or `A4B1C2D3E4F5:25`.
    fn dial_address(&self) -> String;

    fn close(&self);
}

} // verus!
