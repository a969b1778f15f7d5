//! The life of one client connection up to the relay, as a state machine:
//! each method takes what the socket work gave and returns the next state
//! and what to do next. The caller performs the action and reports back.
use vstd::prelude::*;

use crate::codec::{step_of, LengthDecoder, LengthStep, MAX_REMAINING_LENGTH};
use crate::error::ProxyError;
use crate::handshake::{forward_frame, forwards, is_connect_header, Dialect, CONNECT_PACKET_TYPE};

verus! {

/// Where a client connection stands.
pub enum Connection {
    /// Waiting for the header byte of the first frame.
    ReadingHeader,
    /// Reading the first frame's length field, one byte at a time.
    ReadingLength { header: u8, decoder: LengthDecoder },
    /// Waiting for the whole payload of the first frame.
    ReadingPayload { header: u8, length: usize },
    /// The frame to forward is ready; the backend connection is being opened.
    Connecting { dialect: Dialect, frame: Vec<u8> },
    /// The frame is being written to the backend.
    Forwarding { dialect: Dialect },
    /// The handshake went through; the relay owns both sockets.
    Relaying { dialect: Dialect },
    /// The connection is over.
    Closed,
}

/// What the caller does next for a connection.
#[derive(Debug)]
pub enum Action {
    /// Read one byte from the client.
    ReadByte,
    /// Read exactly this many bytes from the client.
    ReadPayload(usize),
    /// Open a connection to the backend.
    ConnectBackend,
    /// Write these bytes to the backend and flush.
    SendFrame(Vec<u8>),
    /// Hand both sockets to the relay.
    Relay,
    /// Close the client connection, for this reason.
    Close(ProxyError),
}

impl Connection {
    /// The state holds together: a length decoder inside its field, a
    /// payload length the field can carry.
    pub open spec fn wf(&self) -> bool {
        match self {
            Connection::ReadingLength { decoder, .. } => decoder.wf(),
            Connection::ReadingPayload { length, .. } => *length <= MAX_REMAINING_LENGTH,
            _ => true,
        }
    }

    /// A freshly accepted connection: read the header byte.
    pub fn accept() -> (r: (Connection, Action))
        ensures
            r.0 is ReadingHeader,
            r.1 is ReadByte,
    {
        (Connection::ReadingHeader, Action::ReadByte)
    }

    /// The header byte came: go on to the length field if it announces a
    /// CONNECT frame, else close.
    pub fn on_header(self, header: u8) -> (r: (Connection, Action))
        requires
            self is ReadingHeader,
        ensures
            r.0.wf(),
            is_connect_header(header) ==> (r.0 matches Connection::ReadingLength { header: h, decoder }
                && h == header && decoder@ == Seq::<u8>::empty()) && r.1 is ReadByte,
            !is_connect_header(header) ==> r.0 is Closed && r.1 == Action::Close(ProxyError::UnexpectedFrame),
    {
        if header >> 4 != CONNECT_PACKET_TYPE {
            return (Connection::Closed, Action::Close(ProxyError::UnexpectedFrame));
        }
        (Connection::ReadingLength { header, decoder: LengthDecoder::new() }, Action::ReadByte)
    }

    /// The next byte of the length field came.
    pub fn on_length_byte(self, byte: u8) -> (r: (Connection, Action))
        requires
            self is ReadingLength,
            self.wf(),
        ensures
            r.0.wf(),
            match step_of(self->decoder@.push(byte)) {
                LengthStep::Done(v) => (r.0 matches Connection::ReadingPayload { header, length }
                    && header == self->ReadingLength_header && length == v) && r.1 == Action::ReadPayload(v),
                LengthStep::Malformed => r.0 is Closed && r.1 == Action::Close(ProxyError::MalformedLength),
                LengthStep::NeedMore => (r.0 matches Connection::ReadingLength { header, decoder }
                    && header == self->ReadingLength_header && decoder@ == self->decoder@.push(byte))
                    && r.1 is ReadByte,
            },
    {
        match self {
            Connection::ReadingLength { header, mut decoder } => {
                match decoder.push(byte) {
                    LengthStep::Done(length) => (
                        Connection::ReadingPayload { header, length },
                        Action::ReadPayload(length),
                    ),
                    LengthStep::Malformed => (
                        Connection::Closed,
                        Action::Close(ProxyError::MalformedLength),
                    ),
                    LengthStep::NeedMore => (
                        Connection::ReadingLength { header, decoder },
                        Action::ReadByte,
                    ),
                }
            },
            _ => (Connection::Closed, Action::Close(ProxyError::ConnectionClosed)),
        }
    }

    /// The whole payload came: classify it, and open the backend connection
    /// if the frame is to be forwarded.
    pub fn on_payload(self, payload: &[u8]) -> (r: (Connection, Action))
        requires
            self is ReadingPayload,
            self.wf(),
            payload@.len() == self->length,
        ensures
            r.0.wf(),
            match r.1 {
                Action::ConnectBackend => r.0 matches Connection::Connecting { dialect, frame }
                    && forwards(self->ReadingPayload_header, payload@, Ok((dialect, frame))),
                Action::Close(e) => r.0 is Closed && forwards(
                    self->ReadingPayload_header,
                    payload@,
                    Err(e),
                ),
                _ => false,
            },
    {
        match self {
            Connection::ReadingPayload { header, .. } => {
                match forward_frame(header, payload) {
                    Ok((dialect, frame)) => (
                        Connection::Connecting { dialect, frame },
                        Action::ConnectBackend,
                    ),
                    Err(e) => (Connection::Closed, Action::Close(e)),
                }
            },
            _ => (Connection::Closed, Action::Close(ProxyError::ConnectionClosed)),
        }
    }

    /// The backend connection is open: send it the frame.
    pub fn on_connected(self) -> (r: (Connection, Action))
        requires
            self is Connecting,
        ensures
            r.0 matches Connection::Forwarding { dialect } && dialect == self->Connecting_dialect,
            r.1 matches Action::SendFrame(frame) && frame@ == self->frame@,
    {
        match self {
            Connection::Connecting { dialect, frame } => (
                Connection::Forwarding { dialect },
                Action::SendFrame(frame),
            ),
            _ => (Connection::Closed, Action::Close(ProxyError::ConnectionClosed)),
        }
    }

    /// The backend connection could not be opened.
    pub fn on_connect_failed(self) -> (r: (Connection, Action))
        requires
            self is Connecting,
        ensures
            r.0 is Closed,
            r.1 == Action::Close(ProxyError::BackendUnreachable),
    {
        (Connection::Closed, Action::Close(ProxyError::BackendUnreachable))
    }

    /// Writing the frame to the backend finished: relay from now on if it
    /// went through, else close.
    pub fn on_frame_sent(self, written: bool) -> (r: (Connection, Action))
        requires
            self is Forwarding,
        ensures
            written ==> (r.0 matches Connection::Relaying { dialect } && dialect
                == self->Forwarding_dialect) && r.1 is Relay,
            !written ==> r.0 is Closed && r.1 == Action::Close(ProxyError::ConnectionClosed),
    {
        match self {
            Connection::Forwarding { dialect } => if written {
                (Connection::Relaying { dialect }, Action::Relay)
            } else {
                (Connection::Closed, Action::Close(ProxyError::ConnectionClosed))
            },
            _ => (Connection::Closed, Action::Close(ProxyError::ConnectionClosed)),
        }
    }

    /// The client went away, or a read from it failed, before the handshake
    /// was through.
    pub fn on_client_closed(self) -> (r: (Connection, Action))
        requires
            self is ReadingHeader || self is ReadingLength || self is ReadingPayload,
        ensures
            r.0 is Closed,
            r.1 == Action::Close(ProxyError::ConnectionClosed),
    {
        (Connection::Closed, Action::Close(ProxyError::ConnectionClosed))
    }
}

} // verus!
