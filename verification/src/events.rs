//! What reaches the simulation from outside.

use crate::metro_game::PlayerAction;
use crate::player_id::PlayerId;
use vstd::prelude::*;

verus! {

/// One event of the input queue.
#[derive(Debug, PartialEq, Eq, Structural, Clone, Copy)]
pub enum InputEvent {
    /// A player asks for an action.
    PlayerAction(PlayerId, PlayerAction),
    /// A player has connected.
    Connection(PlayerId),
    /// A player has gone.
    Disconnection(PlayerId),
}

} // verus!
