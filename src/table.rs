use crate::cards::Card;
use crate::player::{PlayerStatus, PublicPlayer};
use vstd::prelude::*;

verus! {

/// The phases of one round, in the order in which they follow each other.
#[derive(Debug, Clone, Copy, PartialEq, Eq, Structural)]
pub enum RoundPhase {
    Waiting,
    Preflop,
    Flop,
    Turn,
    River,
    Showdown,
}

/// The public table: everything that is broadcast to every connection.
#[derive(Clone)]
pub struct PublicGameState {
    pub players: Vec<PublicPlayer>,
    pub community_cards: Vec<Card>,
    pub pot: u64,
    pub dealer_seat: usize,
    pub current_turn_seat: Option<usize>,
    pub phase: RoundPhase,
    pub small_blind_amount: u64,
    pub big_blind_amount: u64,
    pub current_bet: u64,
}

/// The live deck and the hole cards dealt this round, by seat. Never
/// broadcast.
pub struct CardStore {
    pub hands: Vec<Option<[Card; 2]>>,
    pub deck: Vec<Card>,
}

/// Two table snapshots that show the same thing.
pub open spec fn same_table(a: PublicGameState, b: PublicGameState) -> bool {
    &&& a.players@ == b.players@
    &&& a.community_cards@ == b.community_cards@
    &&& a.pot == b.pot
    &&& a.dealer_seat == b.dealer_seat
    &&& a.current_turn_seat == b.current_turn_seat
    &&& a.phase == b.phase
    &&& a.small_blind_amount == b.small_blind_amount
    &&& a.big_blind_amount == b.big_blind_amount
    &&& a.current_bet == b.current_bet
}

/// Sum of the amounts that the players have committed this round.
pub open spec fn sum_committed(ps: Seq<PublicPlayer>) -> int
    decreases ps.len(),
{
    if ps.len() == 0 {
        0
    } else {
        sum_committed(ps.drop_last()) + ps.last().committed
    }
}

/// Sum of the players' stacks.
pub open spec fn sum_stack(ps: Seq<PublicPlayer>) -> int
    decreases ps.len(),
{
    if ps.len() == 0 {
        0
    } else {
        sum_stack(ps.drop_last()) + ps.last().stack
    }
}

/// A player who takes part in the next round: waiting or already active.
pub open spec fn in_play(p: PublicPlayer) -> bool {
    p.status == PlayerStatus::Waiting || p.status == PlayerStatus::Active
}

/// Number of players who are waiting or active.
pub open spec fn count_in_play(ps: Seq<PublicPlayer>) -> int
    decreases ps.len(),
{
    if ps.len() == 0 {
        0
    } else {
        count_in_play(ps.drop_last()) + if in_play(ps.last()) {
            1int
        } else {
            0
        }
    }
}

/// Number of active players.
pub open spec fn count_active(ps: Seq<PublicPlayer>) -> int
    decreases ps.len(),
{
    if ps.len() == 0 {
        0
    } else {
        count_active(ps.drop_last()) + if ps.last().status == PlayerStatus::Active {
            1int
        } else {
            0
        }
    }
}

/// Replacing one player changes each sum by the difference at that player.
pub proof fn lemma_sums_update(ps: Seq<PublicPlayer>, i: int, p: PublicPlayer)
    requires
        0 <= i < ps.len(),
    ensures
        sum_committed(ps.update(i, p)) == sum_committed(ps) - ps[i].committed + p.committed,
        sum_stack(ps.update(i, p)) == sum_stack(ps) - ps[i].stack + p.stack,
    decreases ps.len(),
{
    let qs = ps.update(i, p);
    if i == ps.len() - 1 {
        assert(qs.drop_last() =~= ps.drop_last());
    } else {
        assert(qs.drop_last() =~= ps.drop_last().update(i, p));
        lemma_sums_update(ps.drop_last(), i, p);
    }
}

/// The counts stay within the number of players, and are not negative.
pub proof fn lemma_counts_bounded(ps: Seq<PublicPlayer>)
    ensures
        0 <= count_active(ps) <= count_in_play(ps) <= ps.len(),
        sum_committed(ps) >= 0,
        sum_stack(ps) >= 0,
    decreases ps.len(),
{
    if ps.len() > 0 {
        lemma_counts_bounded(ps.drop_last());
    }
}

} // verus!
