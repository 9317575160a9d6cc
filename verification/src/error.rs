use vstd::prelude::*;

verus! {

/// The error kinds of the protocol core. Transport-level failures are mapped
/// into `IoError` by the code that owns the socket; the parsing functions in
/// this crate produce `IoError` for payloads whose length prefixes claim more
/// bytes than the frame holds.
#[derive(Clone, Copy, Debug, PartialEq, Eq, Structural)]
pub enum Error {
    /// Policy rejected the connection.
    ConnectionProhibited,
    /// A transport read or write failed, or a payload was malformed.
    IoError,
    /// A registry lookup missed.
    ConnectionNotFound,
    /// The peer closed or half-closed the connection.
    ConnectionClosed,
    /// A read returned zero bytes where data was expected.
    ReadDataEmpty,
    /// The decoder saw a message type it does not recognize.
    UnknownMessageType,
}

} // verus!
