use crate::cards::Card;
use vstd::prelude::*;

verus! {

/// Where a player stands in the current round.
#[derive(Debug, Clone, Copy, PartialEq, Eq, Structural)]
pub enum PlayerStatus {
    Waiting,
    Active,
    Folded,
    AllIn,
}

/// A seated player with the hole cards that the server holds for them.
#[derive(Clone)]
pub struct Player {
    pub id: String,
    pub seat: usize,
    pub stack: u64,
    pub hand: Option<[Card; 2]>,
    pub status: PlayerStatus,
    pub committed: u64,
}

/// What every client may see of a seated player.
#[derive(Clone)]
pub struct PublicPlayer {
    pub id: String,
    pub seat: usize,
    pub stack: u64,
    pub status: PlayerStatus,
    pub committed: u64,
}

/// A hand shown to the table, with the seat that held it.
#[derive(Clone)]
pub struct RevealedHand {
    pub seat: usize,
    pub hand: [Card; 2],
}

/// What only the owning player may see: their hole cards, if any were dealt.
#[derive(Clone)]
pub struct PrivateState {
    pub hand: Option<[Card; 2]>,
}

impl PublicPlayer {
    /// A field-by-field copy.
    pub fn copy(&self) -> (r: PublicPlayer)
        ensures
            r == *self,
    {
        PublicPlayer {
            id: self.id.clone(),
            seat: self.seat,
            stack: self.stack,
            status: self.status,
            committed: self.committed,
        }
    }
}

} // verus!
