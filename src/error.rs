use vstd::prelude::*;

verus! {

/// Why a proxied connection was closed. Every kind ends one connection only.
#[derive(Clone, Debug, PartialEq, Eq)]
pub enum ProxyError {
    /// The length field kept its continuation bit past the fourth byte.
    MalformedLength,
    /// The first frame is not a CONNECT request.
    UnexpectedFrame,
    /// The CONNECT payload is shorter than its protocol-name field requires.
    TruncatedHandshake,
    /// The protocol name and level pair is not one of the known dialects.
    UnknownDialect { name: Vec<u8>, level: u8 },
    /// The peer went away in the middle of a frame.
    ConnectionClosed,
    /// The connection to the backend broker could not be opened.
    BackendUnreachable,
}

} // verus!
