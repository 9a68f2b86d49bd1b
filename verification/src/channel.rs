//! What the connection threads hand to the game loop.

use vstd::prelude::*;

verus! {

/// A request from a connection, which `u128` names: a one-word command,
/// a command with a target, or a new player's name. The socket of a
/// joining player stays with the connection's owner, keyed by the same
/// number.
pub enum ChannelPayload {
    Cmd((u128, String)),
    Target((u128, String, String)),
    Join((u128, String)),
}

} // verus!
