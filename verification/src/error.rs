//! Errors of cluster operations, and the status of a refused remote call.

use vstd::prelude::*;

use crate::text;
use crate::text::{join2, push_decimal};

verus! {

/// What can go wrong when a grain is reached through the cluster.
#[derive(Clone, Debug, PartialEq, Eq)]
pub enum ClusterError {
    NoSiloAvailable,
    Transport(String),
    Serialization(String),
    Deserialization(String),
    UnknownGrainType(String),
    UnknownMessageType(String),
    HandlerError(String),
    UnsupportedEncoding(String, String),
    /// A message type, the version it came in, and the newest version known here.
    UnsupportedMessageVersion(String, u32, u32),
}

/// The contents of a [`ClusterError`].
pub enum ClusterErrorView {
    NoSiloAvailable,
    Transport(Seq<char>),
    Serialization(Seq<char>),
    Deserialization(Seq<char>),
    UnknownGrainType(Seq<char>),
    UnknownMessageType(Seq<char>),
    HandlerError(Seq<char>),
    UnsupportedEncoding(Seq<char>, Seq<char>),
    UnsupportedMessageVersion(Seq<char>, u32, u32),
}

impl View for ClusterError {
    type V = ClusterErrorView;

    open spec fn view(&self) -> ClusterErrorView {
        match self {
            ClusterError::NoSiloAvailable => ClusterErrorView::NoSiloAvailable,
            ClusterError::Transport(s) => ClusterErrorView::Transport(s@),
            ClusterError::Serialization(s) => ClusterErrorView::Serialization(s@),
            ClusterError::Deserialization(s) => ClusterErrorView::Deserialization(s@),
            ClusterError::UnknownGrainType(s) => ClusterErrorView::UnknownGrainType(s@),
            ClusterError::UnknownMessageType(s) => ClusterErrorView::UnknownMessageType(s@),
            ClusterError::HandlerError(s) => ClusterErrorView::HandlerError(s@),
            ClusterError::UnsupportedEncoding(s, t) => ClusterErrorView::UnsupportedEncoding(
                s@,
                t@,
            ),
            ClusterError::UnsupportedMessageVersion(s, got, known) =>
                ClusterErrorView::UnsupportedMessageVersion(s@, *got, *known),
        }
    }
}

impl ClusterErrorView {
    /// The text that describes the error.
    pub open spec fn message(self) -> Seq<char> {
        match self {
            ClusterErrorView::NoSiloAvailable => "no silo available for grain"@,
            ClusterErrorView::Transport(s) => "transport error: "@ + s,
            ClusterErrorView::Serialization(s) => "serialization error: "@ + s,
            ClusterErrorView::Deserialization(s) => "deserialization error: "@ + s,
            ClusterErrorView::UnknownGrainType(s) => "unknown grain type: "@ + s,
            ClusterErrorView::UnknownMessageType(s) => "unknown message type: "@ + s,
            ClusterErrorView::HandlerError(s) => "handler error: "@ + s,
            ClusterErrorView::UnsupportedEncoding(s, t) => "unsupported encoding for message "@ + s
                + ": "@ + t,
            ClusterErrorView::UnsupportedMessageVersion(s, got, known) =>
                "unsupported version of message "@ + s + ": "@ + text::decimal(got as nat)
                    + " is newer than "@ + text::decimal(known as nat),
        }
    }
}

impl ClusterError {
    /// The text that describes the error.
    pub fn to_string(&self) -> (message: String)
        ensures
            message@ == self@.message(),
    {
        match self {
            ClusterError::NoSiloAvailable => "no silo available for grain".to_string(),
            ClusterError::Transport(s) => join2("transport error: ", s.as_str()),
            ClusterError::Serialization(s) => join2("serialization error: ", s.as_str()),
            ClusterError::Deserialization(s) => join2("deserialization error: ", s.as_str()),
            ClusterError::UnknownGrainType(s) => join2("unknown grain type: ", s.as_str()),
            ClusterError::UnknownMessageType(s) => join2("unknown message type: ", s.as_str()),
            ClusterError::HandlerError(s) => join2("handler error: ", s.as_str()),
            ClusterError::UnsupportedEncoding(s, t) => {
                let mut message = join2("unsupported encoding for message ", s.as_str());
                message.append(": ");
                message.append(t.as_str());
                message
            },
            ClusterError::UnsupportedMessageVersion(s, got, known) => {
                let mut message = join2("unsupported version of message ", s.as_str());
                message.append(": ");
                push_decimal(&mut message, *got as u64);
                message.append(" is newer than ");
                push_decimal(&mut message, *known as u64);
                message
            },
        }
    }
}

/// The class of a refused remote call.
#[derive(Clone, Copy, Debug, PartialEq, Eq, Structural)]
pub enum Code {
    InvalidArgument,
    DeadlineExceeded,
    ResourceExhausted,
    Internal,
    Unavailable,
    Unauthenticated,
}

/// Why a remote call was refused.
#[derive(Clone, Debug, PartialEq, Eq)]
pub struct Status {
    pub code: Code,
    pub message: String,
}

/// The contents of a [`Status`].
#[verifier::ext_equal]
pub struct StatusView {
    pub code: Code,
    pub message: Seq<char>,
}

impl View for Status {
    type V = StatusView;

    open spec fn view(&self) -> StatusView {
        StatusView { code: self.code, message: self.message@ }
    }
}

impl Status {
    pub fn new(code: Code, message: &str) -> (status: Status)
        ensures
            status@ == (StatusView { code, message: message@ }),
    {
        Status { code, message: message.to_string() }
    }
}

/// What an error tells begins with its kind and ends with what it is about.
pub proof fn cluster_errors_tell_what_they_are_about(about: Seq<char>, got: u32, known: u32)
    ensures
        ClusterErrorView::Transport(about).message() == "transport error: "@ + about,
        ClusterErrorView::Serialization(about).message() == "serialization error: "@ + about,
        ClusterErrorView::Deserialization(about).message() == "deserialization error: "@ + about,
        ClusterErrorView::UnknownGrainType(about).message() == "unknown grain type: "@ + about,
        ClusterErrorView::UnknownMessageType(about).message() == "unknown message type: "@ + about,
        ClusterErrorView::HandlerError(about).message() == "handler error: "@ + about,
        ClusterErrorView::UnsupportedMessageVersion(about, got, known).message()
            == "unsupported version of message "@ + about + ": "@ + text::decimal(got as nat)
            + " is newer than "@ + text::decimal(known as nat),
{
}

} // verus!
