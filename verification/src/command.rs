//! The outbound command extension point: other parts of the system push
//! values of a command type toward a connection. No wire encoding is defined
//! for commands yet; the traits only name the capability.

use vstd::prelude::*;

verus! {

/// A source of commands destined for connections.
pub trait CommandManager {
    /// The command type this manager produces.
    type Command: Command;
}

/// One externally originated command to be written toward a peer.
pub trait Command {}

} // verus!
