//! Every failure the engine can report, with a readable message: the front
//! end shows these verbatim as the reason for a failed connection.

use vstd::prelude::*;

use crate::text::cat;

verus! {

/// The kinds of socket or file failure that the engine tells apart.
#[derive(Clone, Copy, Debug, PartialEq, Eq, Structural)]
pub enum IoErrorKind {
    UnexpectedEof,
    WriteZero,
    InvalidInput,
    InvalidData,
    Interrupted,
    Other,
}

/// A socket or file failure.
#[derive(Debug)]
pub struct IoError {
    pub kind: IoErrorKind,
    pub message: String,
}

#[verifier::ext_equal]
pub struct IoErrorView {
    pub kind: IoErrorKind,
    pub message: Seq<char>,
}

impl View for IoError {
    type V = IoErrorView;

    open spec fn view(&self) -> IoErrorView {
        IoErrorView { kind: self.kind, message: self.message@ }
    }
}

impl IoError {
    pub fn new(kind: IoErrorKind, message: &str) -> (r: Self)
        ensures
            r@ == (IoErrorView { kind, message: message@ }),
    {
        IoError { kind, message: message.to_owned() }
    }
}

/// Every failure mode the engine can report.
#[derive(Debug)]
pub enum Error {
    /// Underlying socket / file error.
    Io(IoError),
    /// Handshake or encryption failure.
    Crypto(String),
    /// A peer sent something we did not expect.
    Protocol(String),
    /// A room code could not be parsed or generated.
    RoomCode(String),
    /// The requested transport is not available on this build/platform.
    Unsupported(String),
    /// Local configuration / user error.
    Config(String),
    /// The link or room is gone.
    Closed(String),
}

#[verifier::ext_equal]
pub enum ErrorView {
    Io(IoErrorView),
    Crypto(Seq<char>),
    Protocol(Seq<char>),
    RoomCode(Seq<char>),
    Unsupported(Seq<char>),
    Config(Seq<char>),
    Closed(Seq<char>),
}

impl View for Error {
    type V = ErrorView;

    open spec fn view(&self) -> ErrorView {
        match self {
            Error::Io(e) => ErrorView::Io(e@),
            Error::Crypto(m) => ErrorView::Crypto(m@),
            Error::Protocol(m) => ErrorView::Protocol(m@),
            Error::RoomCode(m) => ErrorView::RoomCode(m@),
            Error::Unsupported(m) => ErrorView::Unsupported(m@),
            Error::Config(m) => ErrorView::Config(m@),
            Error::Closed(m) => ErrorView::Closed(m@),
        }
    }
}

impl ErrorView {
    /// The message shown for this failure.
    pub open spec fn message(self) -> Seq<char> {
        match self {
            ErrorView::Io(e) => e.message,
            ErrorView::Crypto(m) => "encryption error: "@ + m,
            ErrorView::Protocol(m) => "protocol error: "@ + m,
            ErrorView::RoomCode(m) => "room code error: "@ + m,
            ErrorView::Unsupported(m) => m,
            ErrorView::Config(m) => m,
            ErrorView::Closed(m) => m,
        }
    }
}

/// A result as contracts speak of it, its value taken as it is.
pub open spec fn plain<T>(r: Result<T, Error>) -> Result<T, ErrorView> {
    match r {
        Ok(v) => Ok(v),
        Err(e) => Err(e@),
    }
}

/// A result as contracts speak of it, its value taken by its view.
pub open spec fn viewed<T: View>(r: Result<T, Error>) -> Result<T::V, ErrorView> {
    match r {
        Ok(v) => Ok(v@),
        Err(e) => Err(e@),
    }
}

impl Error {
    /// The message shown for this failure.
    pub fn message(&self) -> (r: String)
        ensures
            r@ == self@.message(),
    {
        match self {
            Error::Io(e) => e.message.clone(),
            Error::Crypto(m) => cat("encryption error: ", m),
            Error::Protocol(m) => cat("protocol error: ", m),
            Error::RoomCode(m) => cat("room code error: ", m),
            Error::Unsupported(m) => m.clone(),
            Error::Config(m) => m.clone(),
            Error::Closed(m) => m.clone(),
        }
    }
}

} // verus!
