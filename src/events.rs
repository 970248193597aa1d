use crate::cards::Card;
use crate::player::PrivateState;
use crate::table::PublicGameState;
use vstd::prelude::*;

verus! {

/// Card events of the table's wire vocabulary.
#[derive(Debug, Clone)]
pub enum WebSocketEvent {
    Deal { cards: Vec<Card> },
    Shuffle,
    Error { message: String },
}

/// What the server sends to connections: broadcast to all, except
/// `PrivateState`, which goes to its owner only.
#[derive(Clone)]
pub enum ServerEvent {
    RoundStarted,
    GameState(PublicGameState),
    PrivateState(PrivateState),
    BlindPosted { seat: usize, amount: u64 },
    Error { message: String },
}

/// What a client may send.
pub enum ClientEvent {
    Join { player_id: String },
    Action { action: PlayerAction },
}

/// A betting decision of one player.
#[derive(Debug, Clone, Copy, PartialEq, Eq, Structural)]
pub enum PlayerAction {
    Fold,
    Check,
    Call,
    Bet { amount: u64 },
    Raise { amount: u64 },
    AllIn,
}

} // verus!
