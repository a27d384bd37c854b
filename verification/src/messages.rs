//! What travels between the clients and the server.

use vstd::prelude::*;

use crate::game::{GameAction, GameEvent};

verus! {

/// A message that the server sends.
pub trait ServerMessage {}

/// What a client sends to the server.
#[derive(Debug, Clone, Copy, PartialEq, Eq, Structural)]
pub enum GenericClientMessage {
    GameAction(GameAction),
}

/// What the server sends to a client.
#[derive(Debug, Clone)]
pub enum GenericServerMessage {
    GameEvent(GameEvent),
}

impl ServerMessage for GenericServerMessage {}

} // verus!
