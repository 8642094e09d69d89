//! The failure taxonomy of the supervisor and the protocol client.

use vstd::prelude::*;

verus! {

/// Every failure the library surfaces.
///
/// `ExecutableNotFound` and `SpawnFailed` are fatal to one launch attempt.
/// `ConnectionRefused` on an existing socket file marks a stale socket;
/// `NotFound` marks an endpoint that is malformed or unusable for another
/// reason. `ProtocolParseError` and `UnexpectedEof` terminate the current
/// response sequence. `CommandMisuse` is the programmer-error class: a command
/// sent while a prior response sequence was still open, or a command that
/// carries an embedded line terminator.
#[derive(Clone, Copy, Debug, PartialEq, Eq, Structural)]
pub enum Error {
    ExecutableNotFound,
    SpawnFailed,
    ConnectionRefused,
    NotFound,
    SocketUnlinkFailed,
    ProtocolParseError,
    UnexpectedEof,
    CommandMisuse,
}

} // verus!
