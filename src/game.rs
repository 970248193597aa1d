use crate::cards::{full_deck, seeded_rng, shuffled_deck, Card};
use crate::events::{PlayerAction, ServerEvent};
use crate::player::{PlayerStatus, PrivateState, PublicPlayer};
use crate::table::{
    count_active, count_in_play, in_play, lemma_counts_bounded, lemma_sums_update, same_table,
    sum_committed, sum_stack, CardStore, PublicGameState, RoundPhase,
};
use rand::rngs::StdRng;
use vstd::prelude::*;

verus! {

/// Most players a table seats.
pub const MAX_PLAYERS: usize = 9;

/// Chips a player brings to the table.
pub const STARTING_STACK: u64 = 1000;

/// Default small blind.
pub const SMALL_BLIND: u64 = 10;

/// Default big blind.
pub const BIG_BLIND: u64 = 20;

/// Sole owner of the table and its cards. Each command is applied whole; the
/// events it publishes are queued in `outbox`, in order, for broadcasting.
pub struct GameManager {
    pub state: PublicGameState,
    pub cards: CardStore,
    pub outbox: Vec<ServerEvent>,
    pub rng: StdRng,
}

/// A card held in a dealt hand.
pub open spec fn holds(h: [Card; 2], c: Card) -> bool {
    h@[0] == c || h@[1] == c
}

/// Two hands with no card in common.
pub open spec fn disjoint_hands(a: [Card; 2], b: [Card; 2]) -> bool {
    !holds(b, a@[0]) && !holds(b, a@[1])
}

/// Seats are numbered from zero in joining order, ids are pairwise distinct.
pub open spec fn seating_wf(ps: Seq<PublicPlayer>) -> bool {
    &&& ps.len() <= 9
    &&& forall|i: int| 0 <= i < ps.len() ==> #[trigger] ps[i].seat == i
    &&& forall|i: int, j: int|
        0 <= i < ps.len() && 0 <= j < ps.len() && i != j ==> #[trigger] ps[i].id@ != #[trigger] ps[j].id@
}

/// No card is in two places: the deck repeats none, each hand holds two
/// distinct cards that are not in the deck, and no two hands share a card.
pub open spec fn cards_wf(hands: Seq<Option<[Card; 2]>>, deck: Seq<Card>) -> bool {
    &&& deck.no_duplicates()
    &&& forall|s: int|
        0 <= s < hands.len() && #[trigger] hands[s] is Some ==> {
            let h = hands[s]->Some_0;
            &&& h@[0] != h@[1]
            &&& !deck.contains(h@[0])
            &&& !deck.contains(h@[1])
        }
    &&& forall|s: int, t: int|
        0 <= s < hands.len() && 0 <= t < hands.len() && s != t && #[trigger] hands[s] is Some
            && #[trigger] hands[t] is Some ==> disjoint_hands(hands[s]->Some_0, hands[t]->Some_0)
}

/// Successor search: the first active seat among `from + k`, `from + k + 1`,
/// ... `from + n` (modulo the seat count `n`).
pub open spec fn scan_active(ps: Seq<PublicPlayer>, from: int, k: int) -> Option<int>
    decreases ps.len() + 1 - k,
{
    if ps.len() == 0 || k < 1 || k > ps.len() {
        None
    } else if ps[(from + k) % (ps.len() as int)].status == PlayerStatus::Active {
        Some((from + k) % (ps.len() as int))
    } else {
        scan_active(ps, from, k + 1)
    }
}

/// The next active seat after `from`, going round the table; `None` when no
/// seat is active.
pub open spec fn next_active(ps: Seq<PublicPlayer>, from: int) -> Option<int> {
    scan_active(ps, from, 1)
}

/// A player after posting a blind of `amount`: it is capped at the stack, and
/// a player left with no chips is all-in.
pub open spec fn after_blind(p: PublicPlayer, amount: u64) -> PublicPlayer {
    let b = if amount <= p.stack { amount } else { p.stack };
    PublicPlayer {
        stack: (p.stack - b) as u64,
        committed: (p.committed + b) as u64,
        status: if p.stack - b == 0 { PlayerStatus::AllIn } else { p.status },
        ..p
    }
}

/// An event that shows the table `st`.
pub open spec fn shows(ev: ServerEvent, st: PublicGameState) -> bool {
    match ev {
        ServerEvent::GameState(s) => same_table(s, st),
        _ => false,
    }
}

/// The chips that `action` moves from the player's stack into the pot.
pub open spec fn action_paid(p: PublicPlayer, action: PlayerAction) -> u64 {
    match action {
        PlayerAction::Bet { amount } | PlayerAction::Raise { amount } => if amount <= p.stack {
            amount
        } else {
            p.stack
        },
        PlayerAction::AllIn => p.stack,
        _ => 0,
    }
}

/// A player after `action`: chips move from stack to committed, and folding
/// sends the player back to waiting for the next round.
pub open spec fn after_action(p: PublicPlayer, action: PlayerAction) -> PublicPlayer {
    PublicPlayer {
        stack: (p.stack - action_paid(p, action)) as u64,
        committed: (p.committed + action_paid(p, action)) as u64,
        status: if action == PlayerAction::Fold { PlayerStatus::Waiting } else { p.status },
        ..p
    }
}

/// The chips that a blind of `amount` takes from the player: all of it, or
/// the whole stack when that is smaller.
pub open spec fn blind_paid(p: PublicPlayer, amount: u64) -> u64 {
    if amount <= p.stack { amount } else { p.stack }
}

/// Two tables that agree on everything but the players and the pot.
pub open spec fn same_settings(a: PublicGameState, b: PublicGameState) -> bool {
    &&& a.community_cards@ == b.community_cards@
    &&& a.dealer_seat == b.dealer_seat
    &&& a.current_turn_seat == b.current_turn_seat
    &&& a.phase == b.phase
    &&& a.small_blind_amount == b.small_blind_amount
    &&& a.big_blind_amount == b.big_blind_amount
    &&& a.current_bet == b.current_bet
}

/// A seated player holds this id.
pub open spec fn has_player(ps: Seq<PublicPlayer>, id: Seq<char>) -> bool {
    exists|i: int| 0 <= i < ps.len() && #[trigger] ps[i].id@ == id
}

/// One player's chips are part of each sum.
pub proof fn lemma_player_within_sums(ps: Seq<PublicPlayer>, i: int)
    requires
        0 <= i < ps.len(),
    ensures
        ps[i].committed <= sum_committed(ps),
        ps[i].stack <= sum_stack(ps),
{
    let z = PublicPlayer { stack: 0, committed: 0, ..ps[i] };
    lemma_sums_update(ps, i, z);
    lemma_counts_bounded(ps.update(i, z));
}

/// A player as the next round finds them: waiting players become active.
pub open spec fn promoted(p: PublicPlayer) -> PublicPlayer {
    PublicPlayer {
        status: if p.status == PlayerStatus::Waiting { PlayerStatus::Active } else { p.status },
        ..p
    }
}

/// A player with this round's commitment cleared.
pub open spec fn cleared(p: PublicPlayer) -> PublicPlayer {
    PublicPlayer { committed: 0, ..p }
}

/// The players once a new round has promoted and cleared them, before blinds.
pub open spec fn round_start_players(ps: Seq<PublicPlayer>) -> Seq<PublicPlayer> {
    Seq::new(ps.len(), |i: int| cleared(promoted(ps[i])))
}

/// The chips that the two blinds take from the players `ps`, the dealer
/// button being at `dealer`: the small blind from the next active seat, the
/// big blind from the next active seat after that one.
pub open spec fn blinds_total(ps: Seq<PublicPlayer>, dealer: int, small: u64, big: u64) -> int {
    match next_active(ps, dealer) {
        Some(sb) => {
            let after_small = ps.update(sb, after_blind(ps[sb], small));
            match next_active(ps, sb) {
                Some(bb) => blind_paid(ps[sb], small) + blind_paid(after_small[bb], big),
                None => blind_paid(ps[sb], small) as int,
            }
        },
        None => 0,
    }
}

/// The players once the blinds that `blinds_total` counts are posted.
pub open spec fn blinds_applied(ps: Seq<PublicPlayer>, dealer: int, small: u64, big: u64) -> Seq<
    PublicPlayer,
> {
    match next_active(ps, dealer) {
        Some(sb) => {
            let after_small = ps.update(sb, after_blind(ps[sb], small));
            match next_active(ps, sb) {
                Some(bb) => after_small.update(bb, after_blind(after_small[bb], big)),
                None => after_small,
            }
        },
        None => ps,
    }
}

/// Posting blinds sends nobody back to waiting.
pub proof fn lemma_blinds_no_waiting(ps: Seq<PublicPlayer>, dealer: int, small: u64, big: u64)
    requires
        forall|i: int| 0 <= i < ps.len() ==> (#[trigger] ps[i]).status != PlayerStatus::Waiting,
    ensures
        blinds_applied(ps, dealer, small, big).len() == ps.len(),
        forall|i: int|
            0 <= i < ps.len() ==> (#[trigger] blinds_applied(ps, dealer, small, big)[i]).status
                != PlayerStatus::Waiting,
{
    lemma_scan_in_range(ps, dealer, 1);
    if let Some(sb) = next_active(ps, dealer) {
        lemma_scan_in_range(ps, sb, 1);
        let after_small = ps.update(sb, after_blind(ps[sb], small));
        assert forall|i: int| 0 <= i < ps.len() implies (#[trigger] after_small[i]).status
            != PlayerStatus::Waiting by {}
    }
}

/// The announcements of the blinds that `blinds_total` counts, in posting
/// order.
pub open spec fn blind_events(ps: Seq<PublicPlayer>, dealer: int, small: u64, big: u64) -> Seq<
    ServerEvent,
> {
    match next_active(ps, dealer) {
        Some(sb) => {
            let first = ServerEvent::BlindPosted { seat: sb as usize, amount: blind_paid(ps[sb], small) };
            let after_small = ps.update(sb, after_blind(ps[sb], small));
            match next_active(ps, sb) {
                Some(bb) => seq![
                    first,
                    ServerEvent::BlindPosted { seat: bb as usize, amount: blind_paid(after_small[bb], big) },
                ],
                None => seq![first],
            }
        },
        None => Seq::empty(),
    }
}

/// A sum over players whose commitments are all zero is zero.
pub proof fn lemma_sum_committed_zero(ps: Seq<PublicPlayer>)
    requires
        forall|i: int| 0 <= i < ps.len() ==> #[trigger] ps[i].committed == 0,
    ensures
        sum_committed(ps) == 0,
    decreases ps.len(),
{
    if ps.len() > 0 {
        lemma_sum_committed_zero(ps.drop_last());
    }
}

/// Counting the active players of a prefix one player further.
pub proof fn lemma_count_active_step(ps: Seq<PublicPlayer>, i: int)
    requires
        0 <= i < ps.len(),
    ensures
        count_active(ps.take(i + 1)) == count_active(ps.take(i)) + if ps[i].status
            == PlayerStatus::Active {
            1int
        } else {
            0
        },
{
    assert(ps.take(i + 1).drop_last() =~= ps.take(i));
}

/// A prefix has no more active players than the whole.
pub proof fn lemma_count_active_prefix(ps: Seq<PublicPlayer>, i: int)
    requires
        0 <= i <= ps.len(),
    ensures
        count_active(ps.take(i)) <= count_active(ps),
    decreases ps.len() - i,
{
    if i < ps.len() {
        lemma_count_active_step(ps, i);
        lemma_count_active_prefix(ps, i + 1);
    } else {
        assert(ps.take(i) =~= ps);
    }
}

/// Counting the waiting or active players of a prefix one player further.
pub proof fn lemma_count_in_play_step(ps: Seq<PublicPlayer>, i: int)
    requires
        0 <= i < ps.len(),
    ensures
        count_in_play(ps.take(i + 1)) == count_in_play(ps.take(i)) + if in_play(ps[i]) {
            1int
        } else {
            0
        },
{
    assert(ps.take(i + 1).drop_last() =~= ps.take(i));
}

/// What a round start leaves behind, from the players `ps` that it found, the
/// dealer seat `dealer` before it, the blind amounts, and the number of events
/// queued before it: promoted and cleared players, the button one seat on,
/// both blinds in the pot, two fresh cards for each active player, the
/// preflop phase, and the queued events blinds, table, round start.
pub open spec fn starts_round(
    ps: Seq<PublicPlayer>,
    dealer: int,
    small: u64,
    big: u64,
    queued: int,
    after: GameManager,
) -> bool {
    let qs = round_start_players(ps);
    let n = ps.len() as int;
    let d = (dealer + 1) % n;
    let out = after.outbox@;
    let aps = after.state.players@;
    &&& aps.len() == n
    &&& forall|i: int| 0 <= i < n ==> (#[trigger] aps[i]).id@ == ps[i].id@
    &&& aps == blinds_applied(qs, d, small, big)
    &&& forall|i: int| 0 <= i < n ==> (#[trigger] aps[i]).status != PlayerStatus::Waiting
    &&& after.state.dealer_seat == d
    &&& after.state.pot == blinds_total(qs, d, small, big)
    &&& after.state.current_bet == big
    &&& after.state.small_blind_amount == small
    &&& after.state.big_blind_amount == big
    &&& after.state.phase == RoundPhase::Preflop
    &&& after.state.community_cards@.len() == 0
    &&& match after.state.current_turn_seat {
        Some(s) => next_active(aps, d) == Some(s as int),
        None => next_active(aps, d) is None,
    }
    &&& after.cards.deck@.len() == 52 - 2 * count_active(aps)
    &&& forall|s: int|
        0 <= s < n ==> (#[trigger] after.cards.hands@[s] is Some <==> aps[s].status
            == PlayerStatus::Active)
    &&& queued + 2 <= out.len()
    &&& out.subrange(queued, out.len() - 2) == blind_events(qs, d, small, big)
    &&& shows(out[out.len() - 2], after.state)
    &&& out.last() is RoundStarted
}

/// A newly seated player: a full stack, nothing committed, waiting.
pub open spec fn is_newcomer(p: PublicPlayer, id: Seq<char>, seat: int) -> bool {
    &&& p.id@ == id
    &&& p.seat == seat
    &&& p.stack == STARTING_STACK
    &&& p.status == PlayerStatus::Waiting
    &&& p.committed == 0
}

/// The `k` cards at the top of `deck`, in the order in which they are drawn.
pub open spec fn top_cards(deck: Seq<Card>, k: int) -> Seq<Card> {
    Seq::new(k as nat, |i: int| deck[deck.len() - 1 - i])
}

/// The deck once its top card is burnt; an empty deck stays empty.
pub open spec fn burnt(deck: Seq<Card>) -> Seq<Card> {
    if deck.len() > 0 {
        deck.drop_last()
    } else {
        deck
    }
}

/// How many cards a reveal of `count` can draw from `deck`.
pub open spec fn drawable(deck: Seq<Card>, count: int) -> int {
    if count <= deck.len() {
        count
    } else {
        deck.len() as int
    }
}

/// What a successful join under `id` leaves behind: the earlier players
/// kept, the newcomer appended at the next seat and broadcast, and then
/// either a round start, when the waiting and active players reach two in the
/// waiting phase, or nothing more.
pub open spec fn seated(before: GameManager, after: GameManager, id: Seq<char>) -> bool {
    let n = before.state.players@.len() as int;
    let out = after.outbox@;
    &&& after.state.players@.len() == n + 1
    &&& after.state.players@.drop_last().len() == n
    &&& out.len() > before.outbox@.len()
    &&& out.take(before.outbox@.len() as int) == before.outbox@
    &&& after.state.players@.last().id@ == id
    &&& match out[before.outbox@.len() as int] {
        ServerEvent::GameState(st) => {
            &&& st.players@.drop_last() == before.state.players@
            &&& is_newcomer(st.players@.last(), id, n)
            &&& st.players@.len() == n + 1
            &&& st.pot == before.state.pot
            &&& same_settings(st, before.state)
            &&& (before.state.phase == RoundPhase::Waiting && count_in_play(
                before.state.players@,
            ) + 1 >= 2) ==> starts_round(
                st.players@,
                before.state.dealer_seat as int,
                before.state.small_blind_amount,
                before.state.big_blind_amount,
                before.outbox@.len() + 1int,
                after,
            )
        },
        _ => false,
    }
    &&& !(before.state.phase == RoundPhase::Waiting && count_in_play(
        before.state.players@,
    ) + 1 >= 2) ==> {
        &&& after.state.players@.drop_last() == before.state.players@
        &&& is_newcomer(after.state.players@.last(), id, n)
        &&& after.state.pot == before.state.pot
        &&& same_settings(after.state, before.state)
        &&& after.cards.deck@ == before.cards.deck@
        &&& after.cards.hands@ == before.cards.hands@.push(None)
        &&& shows(out.last(), after.state)
        &&& out.len() == before.outbox@.len() + 1
    }
}

/// What burning one card and revealing up to `count` leaves behind: the
/// revealed cards come off the top of the deck onto the community cards, the
/// phase becomes `phase`, nothing else of the table or the hands changes, and
/// the table is broadcast.
pub open spec fn community_dealt(
    before: GameManager,
    after: GameManager,
    count: int,
    phase: RoundPhase,
) -> bool {
    let deck = burnt(before.cards.deck@);
    let k = drawable(deck, count);
    &&& after.state.community_cards@ == before.state.community_cards@ + top_cards(deck, k)
    &&& after.cards.deck@ == deck.take(deck.len() - k)
    &&& after.cards.hands@ == before.cards.hands@
    &&& after.state.phase == phase
    &&& after.state.players@ == before.state.players@
    &&& after.state.pot == before.state.pot
    &&& after.state.dealer_seat == before.state.dealer_seat
    &&& after.state.current_turn_seat == before.state.current_turn_seat
    &&& after.state.current_bet == before.state.current_bet
    &&& after.state.small_blind_amount == before.state.small_blind_amount
    &&& after.state.big_blind_amount == before.state.big_blind_amount
    &&& after.outbox@.drop_last() == before.outbox@
    &&& after.outbox@.len() == before.outbox@.len() + 1
    &&& shows(after.outbox@.last(), after.state)
}

impl GameManager {
    /// The manager's invariant.
    pub open spec fn wf(&self) -> bool {
        let ps = self.state.players@;
        &&& seating_wf(ps)
        &&& self.cards.hands@.len() == ps.len()
        &&& (self.state.dealer_seat == 0 || self.state.dealer_seat < ps.len())
        &&& self.state.pot == sum_committed(ps)
        &&& sum_stack(ps) + sum_committed(ps) <= STARTING_STACK * ps.len()
        &&& cards_wf(self.cards.hands@, self.cards.deck@)
    }

    /// An empty table in the waiting phase, with the default blinds.
    pub fn new() -> (g: GameManager)
        ensures
            g.wf(),
            g.state.players@.len() == 0,
            g.state.community_cards@.len() == 0,
            g.state.pot == 0,
            g.state.dealer_seat == 0,
            g.state.current_turn_seat is None,
            g.state.phase == RoundPhase::Waiting,
            g.state.small_blind_amount == SMALL_BLIND,
            g.state.big_blind_amount == BIG_BLIND,
            g.state.current_bet == 0,
            g.cards.deck@.len() == 0,
            g.outbox@.len() == 0,
    {
        GameManager {
            state: PublicGameState {
                players: Vec::new(),
                community_cards: Vec::new(),
                pot: 0,
                dealer_seat: 0,
                current_turn_seat: None,
                phase: RoundPhase::Waiting,
                small_blind_amount: SMALL_BLIND,
                big_blind_amount: BIG_BLIND,
                current_bet: 0,
            },
            cards: CardStore::new(),
            outbox: Vec::new(),
            rng: seeded_rng(),
        }
    }

    /// A copy of the public table, detached from the live one.
    pub fn masked_state(&self) -> (r: PublicGameState)
        ensures
            same_table(r, self.state),
    {
        let mut players: Vec<PublicPlayer> = Vec::new();
        let mut i: usize = 0;
        while i < self.state.players.len()
            invariant
                i <= self.state.players@.len(),
                players@ == self.state.players@.take(i as int),
            decreases self.state.players@.len() - i,
        {
            players.push(self.state.players[i].copy());
            assert(players@ =~= self.state.players@.take(i + 1));
            i += 1;
        }
        let mut community: Vec<Card> = Vec::new();
        let mut j: usize = 0;
        while j < self.state.community_cards.len()
            invariant
                j <= self.state.community_cards@.len(),
                community@ == self.state.community_cards@.take(j as int),
            decreases self.state.community_cards@.len() - j,
        {
            community.push(self.state.community_cards[j]);
            assert(community@ =~= self.state.community_cards@.take(j + 1));
            j += 1;
        }
        assert(players@ =~= self.state.players@);
        assert(community@ =~= self.state.community_cards@);
        PublicGameState {
            players,
            community_cards: community,
            pot: self.state.pot,
            dealer_seat: self.state.dealer_seat,
            current_turn_seat: self.state.current_turn_seat,
            phase: self.state.phase,
            small_blind_amount: self.state.small_blind_amount,
            big_blind_amount: self.state.big_blind_amount,
            current_bet: self.state.current_bet,
        }
    }

    /// Queues a snapshot of the public table for broadcasting.
    fn publish_state(&mut self)
        ensures
            final(self).state == old(self).state,
            final(self).cards == old(self).cards,
            final(self).outbox@.len() == old(self).outbox@.len() + 1,
            final(self).outbox@.drop_last() == old(self).outbox@,
            shows(final(self).outbox@.last(), old(self).state),
    {
        let snapshot = self.masked_state();
        self.outbox.push(ServerEvent::GameState(snapshot));
    }

    /// Hands over the queued events, oldest first, and empties the queue.
    pub fn take_events(&mut self) -> (events: Vec<ServerEvent>)
        ensures
            events@ == old(self).outbox@,
            final(self).outbox@.len() == 0,
            final(self).state == old(self).state,
            final(self).cards == old(self).cards,
    {
        let mut events: Vec<ServerEvent> = Vec::new();
        std::mem::swap(&mut events, &mut self.outbox);
        events
    }

    /// The next active seat after `from`, going round the table.
    fn next_active_seat(&self, from: usize) -> (r: Option<usize>)
        requires
            self.wf(),
        ensures
            match r {
                Some(s) => s < self.state.players@.len() && next_active(
                    self.state.players@,
                    from as int,
                ) == Some(s as int),
                None => next_active(self.state.players@, from as int) is None,
            },
    {
        let n = self.state.players.len();
        if n == 0 {
            return None;
        }
        let ghost ps = self.state.players@;
        let start = from % n;
        let mut k: usize = 1;
        while k <= n
            invariant
                n == ps.len(),
                1 <= n <= 9,
                start == from % n,
                ps == self.state.players@,
                1 <= k <= n + 1,
                scan_active(ps, from as int, k as int) == next_active(ps, from as int),
            decreases n + 1 - k,
        {
            let seat = (start + k) % n;
            proof {
                vstd::arithmetic::div_mod::lemma_add_mod_noop_right(k as int, from as int, n as int);
                assert(seat == (from as int + k as int) % (n as int));
            }
            if self.state.players[seat].status == PlayerStatus::Active {
                return Some(seat);
            }
            k += 1;
        }
        None
    }

    /// Moves a blind of `amount` (capped at the stack) from the player at
    /// `seat` into the pot, and announces it. A seat past the table is
    /// ignored.
    fn apply_blind(&mut self, seat: usize, amount: u64)
        requires
            old(self).wf(),
        ensures
            final(self).wf(),
            seat >= old(self).state.players@.len() ==> final(self).state == old(self).state
                && final(self).cards == old(self).cards && final(self).outbox@ == old(self).outbox@,
            seat < old(self).state.players@.len() ==> final(self).state.players@ == old(self).state.players@.update(
                seat as int,
                after_blind(old(self).state.players@[seat as int], amount),
            ),
            seat < old(self).state.players@.len() ==> final(self).state.pot == old(self).state.pot
                + blind_paid(
                old(self).state.players@[seat as int],
                amount,
            ),
            same_settings(final(self).state, old(self).state),
            final(self).cards == old(self).cards,
            seat < old(self).state.players@.len() ==> final(self).outbox@ == old(self).outbox@.push(
                ServerEvent::BlindPosted {
                    seat,
                    amount: blind_paid(old(self).state.players@[seat as int], amount),
                },
            ),
    {
        if seat >= self.state.players.len() {
            return;
        }
        let ghost ps = self.state.players@;
        let mut p = self.state.players[seat].copy();
        let blind = if amount <= p.stack { amount } else { p.stack };
        proof {
            lemma_player_within_sums(ps, seat as int);
        }
        p.stack = p.stack - blind;
        p.committed = p.committed + blind;
        if p.stack == 0 {
            p.status = PlayerStatus::AllIn;
        }
        proof {
            lemma_sums_update(ps, seat as int, p);
        }
        self.state.players.set(seat, p);
        self.state.pot = self.state.pot + blind;
        self.outbox.push(ServerEvent::BlindPosted { seat, amount: blind });
        assert(self.state.players@ == ps.update(seat as int, after_blind(ps[seat as int], amount)));
    }

    /// The index of the player with this id, if one is seated.
    fn find_player(&self, player_id: &str) -> (r: Option<usize>)
        requires
            self.wf(),
        ensures
            match r {
                Some(i) => i < self.state.players@.len() && self.state.players@[i as int].id@
                    == player_id@,
                None => !has_player(self.state.players@, player_id@),
            },
    {
        let wanted = player_id.to_owned();
        let mut i: usize = 0;
        while i < self.state.players.len()
            invariant
                wanted@ == player_id@,
                i <= self.state.players@.len(),
                forall|j: int| 0 <= j < i ==> #[trigger] self.state.players@[j].id@ != player_id@,
            decreases self.state.players@.len() - i,
        {
            if self.state.players[i].id == wanted {
                return Some(i);
            }
            i += 1;
        }
        None
    }

    /// Applies one player's betting decision and broadcasts the table. Bets
    /// and raises are capped at the stack; checks and calls change nothing.
    pub fn handle_action(&mut self, player_id: &str, action: PlayerAction) -> (r: Result<
        (),
        String,
    >)
        requires
            old(self).wf(),
        ensures
            final(self).wf(),
            final(self).cards == old(self).cards,
            same_settings(final(self).state, old(self).state),
            !has_player(old(self).state.players@, player_id@) ==> {
                &&& r is Err
                &&& r->Err_0@ == "player not found"@
                &&& final(self).state == old(self).state
                &&& final(self).outbox@ == old(self).outbox@
            },
            forall|i: int|
                0 <= i < old(self).state.players@.len() && #[trigger] old(self).state.players@[i].id@ == player_id@ ==> {
                    let p = old(self).state.players@[i];
                    &&& r is Ok
                    &&& final(self).state.players@ == old(self).state.players@.update(
                        i,
                        after_action(p, action),
                    )
                    &&& final(self).state.pot == old(self).state.pot + action_paid(p, action)
                    &&& final(self).outbox@.drop_last() == old(self).outbox@
                    &&& final(self).outbox@.len() == old(self).outbox@.len() + 1
                    &&& shows(final(self).outbox@.last(), final(self).state)
                },
    {
        let idx = match self.find_player(player_id) {
            Some(i) => i,
            None => {
                return Err("player not found".to_owned());
            },
        };
        let ghost ps = self.state.players@;
        let mut p = self.state.players[idx].copy();
        let paid: u64 = match action {
            PlayerAction::Bet { amount } | PlayerAction::Raise { amount } => if amount
                <= p.stack {
                amount
            } else {
                p.stack
            },
            PlayerAction::AllIn => p.stack,
            _ => 0,
        };
        proof {
            lemma_player_within_sums(ps, idx as int);
        }
        if action == PlayerAction::Fold {
            p.status = PlayerStatus::Waiting;
        }
        p.stack = p.stack - paid;
        p.committed = p.committed + paid;
        proof {
            lemma_sums_update(ps, idx as int, p);
        }
        self.state.players.set(idx, p);
        self.state.pot = self.state.pot + paid;
        assert(self.state.players@ == ps.update(idx as int, after_action(ps[idx as int], action)));
        self.publish_state();
        Ok(())
    }

    /// A dropped connection: the player goes back to waiting, keeps the seat,
    /// and the table is broadcast. Unknown ids change nothing but still
    /// broadcast.
    pub fn handle_disconnect(&mut self, player_id: &str)
        requires
            old(self).wf(),
        ensures
            final(self).wf(),
            final(self).cards == old(self).cards,
            same_settings(final(self).state, old(self).state),
            final(self).state.pot == old(self).state.pot,
            !has_player(old(self).state.players@, player_id@) ==> final(self).state.players@
                == old(self).state.players@,
            forall|i: int|
                0 <= i < old(self).state.players@.len() && #[trigger] old(self).state.players@[i].id@ == player_id@ ==> final(self).state.players@ == old(self).state.players@.update(
                    i,
                    PublicPlayer { status: PlayerStatus::Waiting, ..old(self).state.players@[i] },
                ),
            final(self).outbox@.drop_last() == old(self).outbox@,
            final(self).outbox@.len() == old(self).outbox@.len() + 1,
            shows(final(self).outbox@.last(), final(self).state),
    {
        if let Some(idx) = self.find_player(player_id) {
            let ghost ps = self.state.players@;
            let mut p = self.state.players[idx].copy();
            p.status = PlayerStatus::Waiting;
            proof {
                lemma_sums_update(ps, idx as int, p);
            }
            self.state.players.set(idx, p);
            assert(self.state.players@ == ps.update(
                idx as int,
                PublicPlayer { status: PlayerStatus::Waiting, ..ps[idx as int] },
            ));
        }
        self.publish_state();
    }

    /// The hole cards recorded for this player; none when the id is unknown
    /// or nothing was dealt to that seat.
    pub fn private_state(&self, player_id: &str) -> (r: PrivateState)
        requires
            self.wf(),
        ensures
            !has_player(self.state.players@, player_id@) ==> r.hand is None,
            forall|i: int|
                0 <= i < self.state.players@.len() && #[trigger] self.state.players@[i].id@
                    == player_id@ ==> r.hand == self.cards.hands@[i],
    {
        match self.find_player(player_id) {
            Some(idx) => PrivateState { hand: self.cards.hands[idx] },
            None => PrivateState { hand: None },
        }
    }

    /// Number of players who are waiting or active.
    fn in_play_count(&self) -> (r: usize)
        requires
            self.wf(),
        ensures
            r == count_in_play(self.state.players@),
    {
        let ghost ps = self.state.players@;
        let mut count: usize = 0;
        let mut i: usize = 0;
        while i < self.state.players.len()
            invariant
                ps == self.state.players@,
                ps.len() <= 9,
                i <= ps.len(),
                count == count_in_play(ps.take(i as int)),
                count <= i,
            decreases ps.len() - i,
        {
            proof {
                lemma_count_in_play_step(ps, i as int);
            }
            let st = self.state.players[i].status;
            if st == PlayerStatus::Waiting || st == PlayerStatus::Active {
                count += 1;
            }
            i += 1;
        }
        assert(ps.take(ps.len() as int) =~= ps);
        count
    }

    /// Makes every waiting player active.
    fn promote_waiting(&mut self)
        requires
            old(self).wf(),
        ensures
            final(self).wf(),
            final(self).state.players@ == Seq::new(
                old(self).state.players@.len(),
                |i: int| promoted(old(self).state.players@[i]),
            ),
            final(self).state.pot == old(self).state.pot,
            same_settings(final(self).state, old(self).state),
            final(self).cards == old(self).cards,
            final(self).outbox@ == old(self).outbox@,
    {
        let ghost ps = self.state.players@;
        let mut i: usize = 0;
        while i < self.state.players.len()
            invariant
                old(self).wf(),
                ps == old(self).state.players@,
                self.state.players@.len() == ps.len(),
                i <= ps.len(),
                forall|j: int| 0 <= j < i ==> #[trigger] self.state.players@[j] == promoted(ps[j]),
                forall|j: int| i <= j < ps.len() ==> #[trigger] self.state.players@[j] == ps[j],
                sum_committed(self.state.players@) == sum_committed(ps),
                sum_stack(self.state.players@) == sum_stack(ps),
                self.state.pot == old(self).state.pot,
                same_settings(self.state, old(self).state),
                self.cards == old(self).cards,
                self.outbox@ == old(self).outbox@,
            decreases ps.len() - i,
        {
            if self.state.players[i].status == PlayerStatus::Waiting {
                let ghost cur = self.state.players@;
                let mut p = self.state.players[i].copy();
                p.status = PlayerStatus::Active;
                proof {
                    lemma_sums_update(cur, i as int, p);
                }
                self.state.players.set(i, p);
            }
            i += 1;
        }
        assert(self.state.players@ =~= Seq::new(ps.len(), |i: int| promoted(ps[i])));
    }

    /// Clears the round: a freshly shuffled deck, no community cards, an
    /// empty pot, no commitments and no hands.
    fn reset_round_state(&mut self)
        requires
            old(self).wf(),
        ensures
            final(self).wf(),
            final(self).state.players@ == Seq::new(
                old(self).state.players@.len(),
                |i: int| cleared(old(self).state.players@[i]),
            ),
            final(self).state.pot == 0,
            final(self).state.community_cards@.len() == 0,
            final(self).state.dealer_seat == old(self).state.dealer_seat,
            final(self).state.current_turn_seat == old(self).state.current_turn_seat,
            final(self).state.phase == old(self).state.phase,
            final(self).state.small_blind_amount == old(self).state.small_blind_amount,
            final(self).state.big_blind_amount == old(self).state.big_blind_amount,
            final(self).state.current_bet == old(self).state.current_bet,
            final(self).cards.deck@.len() == 52,
            final(self).cards.deck@.to_multiset() == full_deck().to_multiset(),
            forall|s: int|
                0 <= s < final(self).cards.hands@.len() ==> #[trigger] final(self).cards.hands@[s] is None,
            final(self).outbox@ == old(self).outbox@,
    {
        self.cards.deck = shuffled_deck(&mut self.rng);
        self.state.community_cards.clear();
        self.state.pot = 0;
        let ghost ps = self.state.players@;
        proof {
            lemma_counts_bounded(ps);
        }
        let mut i: usize = 0;
        while i < self.state.players.len()
            invariant
                ps == old(self).state.players@,
                seating_wf(ps),
                self.state.players@.len() == ps.len(),
                self.cards.hands@.len() == ps.len(),
                i <= ps.len(),
                forall|j: int| 0 <= j < i ==> #[trigger] self.state.players@[j] == cleared(ps[j]),
                forall|j: int| i <= j < ps.len() ==> #[trigger] self.state.players@[j] == ps[j],
                forall|j: int| 0 <= j < i ==> #[trigger] self.cards.hands@[j] is None,
                sum_stack(self.state.players@) == sum_stack(ps),
                self.cards.deck@.len() == 52,
                self.cards.deck@.no_duplicates(),
                self.cards.deck@.to_multiset() == full_deck().to_multiset(),
                self.state.pot == 0,
                self.state.community_cards@.len() == 0,
                self.state.dealer_seat == old(self).state.dealer_seat,
                self.state.current_turn_seat == old(self).state.current_turn_seat,
                self.state.phase == old(self).state.phase,
                self.state.small_blind_amount == old(self).state.small_blind_amount,
                self.state.big_blind_amount == old(self).state.big_blind_amount,
                self.state.current_bet == old(self).state.current_bet,
                self.outbox@ == old(self).outbox@,
            decreases ps.len() - i,
        {
            let ghost cur = self.state.players@;
            let mut p = self.state.players[i].copy();
            p.committed = 0;
            proof {
                lemma_sums_update(cur, i as int, p);
            }
            self.state.players.set(i, p);
            self.cards.hands.set(i, None);
            i += 1;
        }
        proof {
            lemma_sum_committed_zero(self.state.players@);
        }
        assert(self.state.players@ =~= Seq::new(ps.len(), |i: int| cleared(ps[i])));
    }

    /// Moves the dealer button one seat on, wrapping round the table.
    fn move_dealer(&mut self)
        requires
            old(self).wf(),
        ensures
            final(self).wf(),
            final(self).state.players@.len() > 0 ==> final(self).state.dealer_seat == (old(self).state.dealer_seat + 1) % (old(self).state.players@.len() as int),
            final(self).state.players@.len() == 0 ==> final(self).state.dealer_seat == old(self).state.dealer_seat,
            final(self).state.players@ == old(self).state.players@,
            final(self).state.pot == old(self).state.pot,
            final(self).state.community_cards@ == old(self).state.community_cards@,
            final(self).state.current_turn_seat == old(self).state.current_turn_seat,
            final(self).state.phase == old(self).state.phase,
            final(self).state.small_blind_amount == old(self).state.small_blind_amount,
            final(self).state.big_blind_amount == old(self).state.big_blind_amount,
            final(self).state.current_bet == old(self).state.current_bet,
            final(self).cards == old(self).cards,
            final(self).outbox@ == old(self).outbox@,
    {
        if self.state.players.len() == 0 {
            return;
        }
        self.state.dealer_seat = (self.state.dealer_seat + 1) % self.state.players.len();
    }

    /// Deals two cards from the top of the deck to each active player, in seat
    /// order: the active player with `j` active players before them gets the
    /// cards at depth `2j` and `2j + 1` from the top.
    fn deal_hole_cards(&mut self)
        requires
            old(self).wf(),
            old(self).cards.deck@.len() >= 2 * count_active(old(self).state.players@),
        ensures
            final(self).wf(),
            final(self).state == old(self).state,
            final(self).outbox@ == old(self).outbox@,
            final(self).cards.deck@ == old(self).cards.deck@.take(
                old(self).cards.deck@.len() - 2 * count_active(old(self).state.players@),
            ),
            final(self).cards.hands@.len() == old(self).cards.hands@.len(),
            forall|s: int|
                0 <= s < old(self).state.players@.len() && old(self).state.players@[s].status
                    == PlayerStatus::Active ==> (#[trigger] final(self).cards.hands@[s]) is Some
                    && final(self).cards.hands@[s]->Some_0@ == top_cards(
                    old(self).cards.deck@.take(
                        old(self).cards.deck@.len() - 2 * count_active(
                            old(self).state.players@.take(s),
                        ),
                    ),
                    2,
                ),
            forall|s: int|
                0 <= s < old(self).state.players@.len() && old(self).state.players@[s].status
                    != PlayerStatus::Active ==> #[trigger] final(self).cards.hands@[s] == old(self).cards.hands@[s],
    {
        let ghost ps = self.state.players@;
        let ghost d0 = self.cards.deck@;
        let ghost hs0 = self.cards.hands@;
        proof {
            lemma_counts_bounded(ps);
        }
        let mut i: usize = 0;
        while i < self.state.players.len()
            invariant
                old(self).wf(),
                self.state == old(self).state,
                self.outbox@ == old(self).outbox@,
                ps == self.state.players@,
                d0 == old(self).cards.deck@,
                hs0 == old(self).cards.hands@,
                d0.len() >= 2 * count_active(ps),
                self.cards.hands@.len() == ps.len(),
                i <= ps.len(),
                cards_wf(self.cards.hands@, self.cards.deck@),
                self.cards.deck@ == d0.take(d0.len() - 2 * count_active(ps.take(i as int))),
                forall|s: int|
                    0 <= s < i && ps[s].status == PlayerStatus::Active ==> (
                    #[trigger] self.cards.hands@[s]) is Some && self.cards.hands@[s]->Some_0@
                        == top_cards(d0.take(d0.len() - 2 * count_active(ps.take(s))), 2),
                forall|s: int|
                    0 <= s < ps.len() && (i <= s || ps[s].status != PlayerStatus::Active)
                        ==> #[trigger] self.cards.hands@[s] == hs0[s],
            decreases ps.len() - i,
        {
            proof {
                lemma_count_active_step(ps, i as int);
                lemma_counts_bounded(ps.take(i as int));
                lemma_count_active_prefix(ps, i as int + 1);
            }
            if self.state.players[i].status == PlayerStatus::Active {
                let ghost dk = self.cards.deck@;
                let ghost h0 = self.cards.hands@;
                let c1 = self.cards.deck.pop().unwrap();
                let c2 = self.cards.deck.pop().unwrap();
                let hand = [c1, c2];
                proof {
                    let d2 = self.cards.deck@;
                    assert(dk.drop_last().drop_last() == d2);
                    assert(c1 == dk[dk.len() - 1]);
                    assert(c2 == dk[dk.len() - 2]);
                    assert(hand@ =~= seq![c1, c2]);
                    assert(hand@ =~= top_cards(dk, 2));
                    assert(d2 =~= d0.take(d0.len() - 2 * count_active(ps.take(i + 1))));
                    assert forall|c: Card| d2.contains(c) implies dk.contains(c) && c != c1 && c
                        != c2 by {
                        let k = choose|k: int| 0 <= k < d2.len() && d2[k] == c;
                        assert(dk[k] == c);
                    }
                    assert forall|s: int| 0 <= s < h0.len() && #[trigger] h0[s] is Some implies !holds(
                        h0[s]->Some_0,
                        c1,
                    ) && !holds(h0[s]->Some_0, c2) by {
                        assert(dk.contains(c1));
                        assert(dk[dk.len() - 2] == c2);
                        assert(dk.contains(c2));
                    }
                }
                self.cards.hands.set(i, Some(hand));
                proof {
                    let hs = self.cards.hands@;
                    let d2 = self.cards.deck@;
                    assert(d2.no_duplicates());
                    assert forall|s: int, t: int|
                        0 <= s < hs.len() && 0 <= t < hs.len() && s != t && #[trigger] hs[s] is Some
                            && #[trigger] hs[t] is Some implies disjoint_hands(
                        hs[s]->Some_0,
                        hs[t]->Some_0,
                    ) by {
                        if s != i && t != i {
                            assert(hs[s] == h0[s]);
                            assert(hs[t] == h0[t]);
                        }
                    }
                }
            }
            i += 1;
        }
        assert(ps.take(ps.len() as int) =~= ps);
    }

    /// Posts the small blind at the next active seat after the dealer and the
    /// big blind at the next active seat after that one, and sets the bet to
    /// the big blind. A table of fewer than two players posts nothing.
    fn post_blinds(&mut self)
        requires
            old(self).wf(),
        ensures
            final(self).wf(),
            final(self).cards == old(self).cards,
            final(self).state.players@.len() == old(self).state.players@.len(),
            forall|i: int|
                0 <= i < old(self).state.players@.len() ==> (#[trigger] final(self).state.players@[i]).id@
                    == old(self).state.players@[i].id@,
            final(self).state.dealer_seat == old(self).state.dealer_seat,
            final(self).state.community_cards@ == old(self).state.community_cards@,
            final(self).state.current_turn_seat == old(self).state.current_turn_seat,
            final(self).state.phase == old(self).state.phase,
            final(self).state.small_blind_amount == old(self).state.small_blind_amount,
            final(self).state.big_blind_amount == old(self).state.big_blind_amount,
            old(self).state.players@.len() < 2 ==> final(self).state == old(self).state
                && final(self).outbox@ == old(self).outbox@,
            old(self).state.players@.len() >= 2 ==> final(self).state.current_bet == old(self).state.big_blind_amount,
            old(self).state.players@.len() >= 2 ==> final(self).state.pot == old(self).state.pot
                + blinds_total(
                old(self).state.players@,
                old(self).state.dealer_seat as int,
                old(self).state.small_blind_amount,
                old(self).state.big_blind_amount,
            ),
            old(self).state.players@.len() >= 2 ==> final(self).state.players@ == blinds_applied(
                old(self).state.players@,
                old(self).state.dealer_seat as int,
                old(self).state.small_blind_amount,
                old(self).state.big_blind_amount,
            ),
            old(self).state.players@.len() >= 2 ==> final(self).outbox@ == old(self).outbox@
                + blind_events(
                old(self).state.players@,
                old(self).state.dealer_seat as int,
                old(self).state.small_blind_amount,
                old(self).state.big_blind_amount,
            ),
    {
        if self.state.players.len() < 2 {
            return;
        }
        let ghost ps = self.state.players@;
        let ghost out0 = self.outbox@;
        self.state.current_bet = self.state.big_blind_amount;
        let small_seat = match self.next_active_seat(self.state.dealer_seat) {
            Some(s) => s,
            None => {
                assert(out0 + Seq::<ServerEvent>::empty() =~= out0);
                return;
            },
        };
        let big_seat = self.next_active_seat(small_seat);
        let small = self.state.small_blind_amount;
        let big = self.state.big_blind_amount;
        self.apply_blind(small_seat, small);
        if let Some(b) = big_seat {
            self.apply_blind(b, big);
        }
        assert(self.outbox@ =~= out0 + blind_events(ps, old(self).state.dealer_seat as int, small, big));
    }

    /// Starts a round once at least two players are waiting or active:
    /// promotes the waiting, clears the round, moves the button, posts the
    /// blinds, deals hole cards, enters preflop, and announces the table and
    /// then the round start. With fewer players it does nothing.
    fn start_new_round(&mut self)
        requires
            old(self).wf(),
        ensures
            final(self).wf(),
            count_in_play(old(self).state.players@) < 2 ==> final(self).state == old(self).state
                && final(self).cards == old(self).cards && final(self).outbox@ == old(self).outbox@,
            count_in_play(old(self).state.players@) >= 2 ==> starts_round(
                old(self).state.players@,
                old(self).state.dealer_seat as int,
                old(self).state.small_blind_amount,
                old(self).state.big_blind_amount,
                old(self).outbox@.len() as int,
                *final(self),
            ),
            final(self).outbox@.take(old(self).outbox@.len() as int) == old(self).outbox@,
    {
        if self.in_play_count() < 2 {
            assert(self.outbox@.take(self.outbox@.len() as int) =~= self.outbox@);
            return;
        }
        let ghost ps = self.state.players@;
        let ghost out0 = self.outbox@;
        proof {
            lemma_counts_bounded(ps);
        }
        self.promote_waiting();
        self.reset_round_state();
        assert(self.state.players@ =~= round_start_players(ps));
        self.move_dealer();
        let ghost before_blinds = self.state.players@;
        let ghost dealer_now = self.state.dealer_seat as int;
        self.post_blinds();
        let ghost blinds_out = self.outbox@;
        let ghost hands_before = self.cards.hands@;
        proof {
            lemma_counts_bounded(self.state.players@);
            assert(before_blinds == round_start_players(ps));
            assert(blinds_out.subrange(out0.len() as int, blinds_out.len() as int) =~= blind_events(
                before_blinds,
                dealer_now,
                old(self).state.small_blind_amount,
                old(self).state.big_blind_amount,
            ));
        }
        self.deal_hole_cards();
        proof {
            let aps = self.state.players@;
            assert forall|t: int| 0 <= t < aps.len() implies (#[trigger] self.cards.hands@[t] is Some
                <==> aps[t].status == PlayerStatus::Active) by {
                if aps[t].status != PlayerStatus::Active {
                    assert(self.cards.hands@[t] == hands_before[t]);
                }
            }
        }
        self.state.phase = RoundPhase::Preflop;
        let turn = self.next_active_seat(self.state.dealer_seat);
        self.state.current_turn_seat = turn;
        self.publish_state();
        self.outbox.push(ServerEvent::RoundStarted);
        proof {
            let qs = round_start_players(ps);
            assert forall|i: int| 0 <= i < qs.len() implies (#[trigger] qs[i]).status
                != PlayerStatus::Waiting by {}
            lemma_blinds_no_waiting(qs, dealer_now, old(self).state.small_blind_amount, old(self).state.big_blind_amount);
            let out = self.outbox@;
            assert(out.drop_last().drop_last() == blinds_out);
            assert(out.take(out0.len() as int) =~= blinds_out.take(out0.len() as int));
            assert(out.subrange(out0.len() as int, out.len() - 2) =~= blinds_out.subrange(
                out0.len() as int,
                blinds_out.len() as int,
            ));
        }
    }

    /// Seats a new player under `id` at the next seat, waiting with a full
    /// stack, and broadcasts the table. When that brings the waiting and
    /// active players to two or more in the waiting phase, a round starts.
    /// A full table, or an id already seated, is refused and changes nothing.
    pub fn join_with_id(&mut self, id: String) -> (r: Result<String, String>)
        requires
            old(self).wf(),
        ensures
            final(self).wf(),
            old(self).state.players@.len() >= MAX_PLAYERS ==> r is Err && r->Err_0@
                == "Table full"@,
            old(self).state.players@.len() < MAX_PLAYERS && has_player(
                old(self).state.players@,
                id@,
            ) ==> r is Err && r->Err_0@ == "duplicate player id"@,
            r is Err ==> final(self).state == old(self).state && final(self).cards == old(self).cards && final(self).outbox@ == old(self).outbox@,
            old(self).state.players@.len() < MAX_PLAYERS && !has_player(
                old(self).state.players@,
                id@,
            ) ==> r is Ok,
            r is Ok ==> r->Ok_0@ == id@ && seated(*old(self), *final(self), id@),
    {
        if self.state.players.len() >= MAX_PLAYERS {
            return Err("Table full".to_owned());
        }
        if let Some(_) = self.find_player(id.as_str()) {
            return Err("duplicate player id".to_owned());
        }
        let ghost ps = self.state.players@;
        let ghost out0 = self.outbox@;
        let seat = self.state.players.len();
        let player = PublicPlayer {
            id: id.clone(),
            seat,
            stack: STARTING_STACK,
            status: PlayerStatus::Waiting,
            committed: 0,
        };
        self.state.players.push(player);
        self.cards.hands.push(None);
        proof {
            let qs = self.state.players@;
            assert(qs.drop_last() == ps);
            assert(self.cards.hands@.drop_last() == old(self).cards.hands@);
            lemma_counts_bounded(ps);
        }
        self.publish_state();
        let ghost mid = self.state.players@;
        proof {
            assert(self.outbox@.take(out0.len() as int) =~= out0);
            assert(mid.drop_last() == ps);
        }
        if self.state.phase == RoundPhase::Waiting {
            if self.in_play_count() >= 2 {
                let ghost out1 = self.outbox@;
                proof {
                    lemma_count_in_play_step(mid, ps.len() as int);
                    assert(mid.take(ps.len() as int) =~= ps);
                    assert(mid.take(mid.len() as int) =~= mid);
                }
                self.start_new_round();
                proof {
                    let out = self.outbox@;
                    assert(out[out0.len() as int] == out.take(out1.len() as int)[out0.len() as int]);
                    assert(out.take(out0.len() as int) =~= out1.take(out0.len() as int));
                }
            }
        }
        Ok(id)
    }

    /// Seats a new player under a fresh random id; see `join_with_id`.
    pub fn add_waiting_player(&mut self) -> (r: Result<String, String>)
        requires
            old(self).wf(),
        ensures
            final(self).wf(),
            old(self).state.players@.len() >= MAX_PLAYERS ==> r is Err && r->Err_0@
                == "Table full"@,
            r is Err ==> final(self).state == old(self).state && final(self).cards == old(self).cards && final(self).outbox@ == old(self).outbox@,
            old(self).state.players@.len() < MAX_PLAYERS && r is Err ==> r->Err_0@
                == "duplicate player id"@,
            old(self).state.players@.len() == 0 ==> r is Ok,
            r is Ok ==> !has_player(old(self).state.players@, r->Ok_0@) && seated(
                *old(self),
                *final(self),
                r->Ok_0@,
            ),
    {
        if self.state.players.len() >= MAX_PLAYERS {
            return Err("Table full".to_owned());
        }
        let id = new_player_id();
        self.join_with_id(id)
    }

    /// Discards the top card of the deck, if there is one.
    fn burn(&mut self)
        requires
            old(self).wf(),
        ensures
            final(self).wf(),
            final(self).cards.deck@ == burnt(old(self).cards.deck@),
            final(self).cards.hands@ == old(self).cards.hands@,
            final(self).state == old(self).state,
            final(self).outbox@ == old(self).outbox@,
    {
        let _ = self.cards.deck.pop();
        proof {
            let d0 = old(self).cards.deck@;
            let d1 = self.cards.deck@;
            assert forall|c: Card| d1.contains(c) implies d0.contains(c) by {
                let k = choose|k: int| 0 <= k < d1.len() && d1[k] == c;
                assert(d0[k] == c);
            }
        }
    }

    /// Burns one card, then moves up to `count` cards from the top of the deck
    /// to the community cards, enters `phase`, and broadcasts the table.
    fn deal_community(&mut self, count: usize, phase: RoundPhase)
        requires
            old(self).wf(),
        ensures
            final(self).wf(),
            community_dealt(*old(self), *final(self), count as int, phase),
    {
        self.burn();
        let ghost d1 = self.cards.deck@;
        let ghost c0 = self.state.community_cards@;
        let ghost m = drawable(d1, count as int);
        let mut i: usize = 0;
        while i < count
            invariant
                old(self).wf(),
                self.wf(),
                i <= count,
                d1 == burnt(old(self).cards.deck@),
                m == drawable(d1, count as int),
                self.cards.hands@ == old(self).cards.hands@,
                self.state.players@ == old(self).state.players@,
                self.state.pot == old(self).state.pot,
                self.state.dealer_seat == old(self).state.dealer_seat,
                self.state.current_turn_seat == old(self).state.current_turn_seat,
                self.state.current_bet == old(self).state.current_bet,
                self.state.small_blind_amount == old(self).state.small_blind_amount,
                self.state.big_blind_amount == old(self).state.big_blind_amount,
                self.outbox@ == old(self).outbox@,
                c0 == old(self).state.community_cards@,
                self.state.community_cards@ == c0 + top_cards(d1, drawable(d1, i as int)),
                self.cards.deck@ == d1.take(d1.len() - drawable(d1, i as int)),
            decreases count - i,
        {
            let ghost dk = self.cards.deck@;
            if let Some(c) = self.cards.deck.pop() {
                self.state.community_cards.push(c);
                proof {
                    assert forall|x: Card| self.cards.deck@.contains(x) implies dk.contains(x) by {
                        let k = choose|k: int| 0 <= k < self.cards.deck@.len() && self.cards.deck@[k] == x;
                        assert(dk[k] == x);
                    }
                    assert(self.cards.deck@ =~= d1.take(d1.len() - drawable(d1, i + 1)));
                    assert(self.state.community_cards@ =~= c0 + top_cards(d1, drawable(d1, i + 1)));
                }
            } else {
                proof {
                    assert(self.cards.deck@ =~= d1.take(d1.len() - drawable(d1, i + 1)));
                    assert(self.state.community_cards@ =~= c0 + top_cards(d1, drawable(d1, i + 1)));
                }
            }
            i += 1;
        }
        self.state.phase = phase;
        self.publish_state();
    }

    /// The flop: burn one, reveal three.
    pub fn deal_flop(&mut self)
        requires
            old(self).wf(),
        ensures
            final(self).wf(),
            community_dealt(*old(self), *final(self), 3, RoundPhase::Flop),
    {
        self.deal_community(3, RoundPhase::Flop);
    }

    /// The turn: burn one, reveal one.
    pub fn deal_turn(&mut self)
        requires
            old(self).wf(),
        ensures
            final(self).wf(),
            community_dealt(*old(self), *final(self), 1, RoundPhase::Turn),
    {
        self.deal_community(1, RoundPhase::Turn);
    }

    /// The river: burn one, reveal one.
    pub fn deal_river(&mut self)
        requires
            old(self).wf(),
        ensures
            final(self).wf(),
            community_dealt(*old(self), *final(self), 1, RoundPhase::River),
    {
        self.deal_community(1, RoundPhase::River);
    }
}

/// Relies on `uuid::Uuid::new_v4` and its `Display`: a fresh random id in
/// hyphenated form. Nothing is promised of its value.
#[verifier::external_body]
fn new_player_id() -> String {
    uuid::Uuid::new_v4().to_string()
}

/// A seat found by the successor search is a seat of the table.
pub proof fn lemma_scan_in_range(ps: Seq<PublicPlayer>, from: int, k: int)
    ensures
        scan_active(ps, from, k) matches Some(s) ==> 0 <= s < ps.len() && ps[s].status
            == PlayerStatus::Active,
    decreases ps.len() + 1 - k,
{
    if ps.len() == 0 || k < 1 || k > ps.len() {
    } else if ps[(from + k) % (ps.len() as int)].status == PlayerStatus::Active {
    } else {
        lemma_scan_in_range(ps, from, k + 1);
    }
}

/// Another active seat than `i` exists when there are more active players
/// than `i` itself accounts for.
pub proof fn lemma_active_elsewhere(ps: Seq<PublicPlayer>, i: int)
    requires
        count_active(ps) > (if 0 <= i < ps.len() && ps[i].status == PlayerStatus::Active {
            1int
        } else {
            0
        }),
    ensures
        exists|j: int| 0 <= j < ps.len() && j != i && #[trigger] ps[j].status == PlayerStatus::Active,
    decreases ps.len(),
{
    let n = ps.len() as int;
    if n - 1 != i && ps[n - 1].status == PlayerStatus::Active {
        assert(ps[n - 1].status == PlayerStatus::Active);
    } else {
        let qs = ps.drop_last();
        if 0 <= i < n - 1 {
            assert(qs[i] == ps[i]);
        }
        lemma_active_elsewhere(qs, i);
        let j = choose|j: int| 0 <= j < qs.len() && j != i && #[trigger] qs[j].status
            == PlayerStatus::Active;
        assert(ps[j] == qs[j]);
    }
}

/// The successor search from offset `k` stops no later than at offset `j`
/// when the seat at offset `j` is active.
pub proof fn lemma_scan_finds(ps: Seq<PublicPlayer>, from: int, k: int, j: int)
    requires
        1 <= k <= j <= ps.len(),
        ps[(from + j) % (ps.len() as int)].status == PlayerStatus::Active,
    ensures
        scan_active(ps, from, k) is Some,
        exists|m: int|
            k <= m <= j && scan_active(ps, from, k) == Some(#[trigger] ((from + m) % (
            ps.len() as int))),
    decreases j - k,
{
    if ps[(from + k) % (ps.len() as int)].status == PlayerStatus::Active {
        assert(scan_active(ps, from, k) == Some((from + k) % (ps.len() as int)));
    } else {
        lemma_scan_finds(ps, from, k + 1, j);
        let m = choose|m: int|
            k + 1 <= m <= j && scan_active(ps, from, k + 1) == Some(#[trigger] ((from + m) % (
            ps.len() as int)));
        assert(scan_active(ps, from, k) == Some((from + m) % (ps.len() as int)));
    }
}

/// With another active seat than `from`, the successor search finds a seat
/// other than `from`.
pub proof fn lemma_next_active_moves(ps: Seq<PublicPlayer>, from: int, t: int)
    requires
        0 <= from < ps.len(),
        0 <= t < ps.len(),
        t != from,
        ps[t].status == PlayerStatus::Active,
    ensures
        next_active(ps, from) is Some,
        next_active(ps, from)->Some_0 != from,
{
    let n = ps.len() as int;
    let j = if t > from { t - from } else { t - from + n };
    assert((from + j) % n == t) by (nonlinear_arith)
        requires j == (if t > from { t - from } else { t - from + n }), 0 <= t < n, 0 <= from < n;
    lemma_scan_finds(ps, from, 1, j);
    let m = choose|m: int| 1 <= m <= j && scan_active(ps, from, 1) == Some(#[trigger] ((from + m) % n));
    assert((from + m) % n != from) by (nonlinear_arith)
        requires 1 <= m <= j, j < n, 0 <= from < n;
}

/// Promoting and clearing the players makes every waiting or active player
/// active.
pub proof fn lemma_round_start_active(ps: Seq<PublicPlayer>)
    ensures
        count_active(round_start_players(ps)) == count_in_play(ps),
    decreases ps.len(),
{
    if ps.len() > 0 {
        assert(round_start_players(ps).drop_last() =~= round_start_players(ps.drop_last()));
        lemma_round_start_active(ps.drop_last());
    }
}

/// A round start moves the button one seat on, and leaves in the players'
/// commitments exactly the two blinds, posted at two different seats: each
/// the blind amount, or the stack of the player who posts it when that is
/// smaller.
pub proof fn lemma_round_start_blinds(
    ps: Seq<PublicPlayer>,
    dealer: int,
    small: u64,
    big: u64,
    queued: int,
    after: GameManager,
)
    requires
        after.wf(),
        0 <= queued,
        count_in_play(ps) >= 2,
        starts_round(ps, dealer, small, big, queued, after),
    ensures
        ({
            let qs = round_start_players(ps);
            let d = (dealer + 1) % (ps.len() as int);
            let sb = next_active(qs, d)->Some_0;
            let bb = next_active(qs, sb)->Some_0;
            &&& after.state.dealer_seat == d
            &&& next_active(qs, d) is Some
            &&& next_active(qs, sb) is Some
            &&& sb != bb
            &&& sum_committed(after.state.players@) == blind_paid(qs[sb], small) + blind_paid(
                qs[bb],
                big,
            )
            &&& after.outbox@.len() == queued + 4
            &&& after.outbox@[queued] == ServerEvent::BlindPosted {
                seat: sb as usize,
                amount: blind_paid(qs[sb], small),
            }
            &&& after.outbox@[queued + 1] == ServerEvent::BlindPosted {
                seat: bb as usize,
                amount: blind_paid(qs[bb], big),
            }
        }),
{
    let qs = round_start_players(ps);
    let n = ps.len() as int;
    lemma_counts_bounded(ps);
    lemma_round_start_active(ps);
    let d = (dealer + 1) % n;
    lemma_active_elsewhere(qs, -1);
    let t0 = choose|j: int| 0 <= j < qs.len() && j != -1 && #[trigger] qs[j].status
        == PlayerStatus::Active;
    if t0 == d {
        lemma_active_elsewhere(qs, d);
        let t1 = choose|j: int| 0 <= j < qs.len() && j != d && #[trigger] qs[j].status
            == PlayerStatus::Active;
        lemma_next_active_moves(qs, d, t1);
    } else {
        lemma_next_active_moves(qs, d, t0);
    }
    lemma_scan_in_range(qs, d, 1);
    let sb = next_active(qs, d)->Some_0;
    lemma_active_elsewhere(qs, sb);
    let t2 = choose|j: int| 0 <= j < qs.len() && j != sb && #[trigger] qs[j].status
        == PlayerStatus::Active;
    lemma_next_active_moves(qs, sb, t2);
    lemma_scan_in_range(qs, sb, 1);
    let bb = next_active(qs, sb)->Some_0;
    let after_small = qs.update(sb, after_blind(qs[sb], small));
    assert(after_small[bb] == qs[bb]);
    let out = after.outbox@;
    let events = blind_events(qs, d, small, big);
    assert(events =~= seq![
        ServerEvent::BlindPosted { seat: sb as usize, amount: blind_paid(qs[sb], small) },
        ServerEvent::BlindPosted { seat: bb as usize, amount: blind_paid(qs[bb], big) },
    ]);
    assert(out.subrange(queued, out.len() - 2).len() == 2);
    assert(out.subrange(queued, out.len() - 2)[0] == out[queued]);
    assert(out.subrange(queued, out.len() - 2)[1] == out[queued + 1]);
}

/// Whatever sequence of joins built a table, it seats at most nine players,
/// each at the seat numbered by joining order, under pairwise distinct ids.
pub proof fn lemma_seating(g: GameManager)
    requires
        g.wf(),
    ensures
        g.state.players@.len() <= MAX_PLAYERS,
        forall|i: int| 0 <= i < g.state.players@.len() ==> #[trigger] g.state.players@[i].seat == i,
        forall|i: int, j: int|
            0 <= i < g.state.players@.len() && 0 <= j < g.state.players@.len() && i != j
                ==> #[trigger] g.state.players@[i].id@ != #[trigger] g.state.players@[j].id@,
{
}

/// After a round start every active player holds two distinct cards, no
/// card is in two hands or in a hand and the deck, the deck repeats no card,
/// and it has lost two cards per active player.
pub proof fn lemma_round_start_hands(
    ps: Seq<PublicPlayer>,
    dealer: int,
    small: u64,
    big: u64,
    queued: int,
    after: GameManager,
)
    requires
        after.wf(),
        starts_round(ps, dealer, small, big, queued, after),
    ensures
        forall|s: int|
            0 <= s < after.state.players@.len() && #[trigger] after.state.players@[s].status
                == PlayerStatus::Active ==> {
                let h = after.cards.hands@[s];
                &&& h is Some
                &&& h->Some_0@[0] != h->Some_0@[1]
                &&& !after.cards.deck@.contains(h->Some_0@[0])
                &&& !after.cards.deck@.contains(h->Some_0@[1])
            },
        forall|s: int, t: int|
            0 <= s < after.state.players@.len() && 0 <= t < after.state.players@.len() && s != t
                && #[trigger] after.cards.hands@[s] is Some && #[trigger] after.cards.hands@[t] is Some
                ==> disjoint_hands(after.cards.hands@[s]->Some_0, after.cards.hands@[t]->Some_0),
        after.cards.deck@.no_duplicates(),
        after.cards.deck@.len() == 52 - 2 * count_active(after.state.players@),
{
    assert forall|s: int|
        0 <= s < after.state.players@.len() && #[trigger] after.state.players@[s].status
            == PlayerStatus::Active implies after.cards.hands@[s] is Some by {
        assert(after.cards.hands@[s] is Some <==> after.state.players@[s].status
            == PlayerStatus::Active);
    }
}

/// A bet or a raise never takes more than the stack: the commitment grows by
/// the amount or the whole stack, whichever is smaller, and the stack
/// shrinks by the same.
pub proof fn lemma_bet_capped(p: PublicPlayer, amount: u64)
    requires
        p.committed + p.stack <= u64::MAX,
    ensures
        ({
            let paid = if amount <= p.stack { amount } else { p.stack };
            &&& after_action(p, PlayerAction::Bet { amount }).committed == p.committed + paid
            &&& after_action(p, PlayerAction::Bet { amount }).stack == p.stack - paid
            &&& after_action(p, PlayerAction::Raise { amount }).committed == p.committed + paid
            &&& after_action(p, PlayerAction::Raise { amount }).stack == p.stack - paid
        }),
{
}

impl CardStore {
    /// An empty deck and no hands.
    pub fn new() -> (c: CardStore)
        ensures
            c.hands@.len() == 0,
            c.deck@.len() == 0,
    {
        CardStore { hands: Vec::new(), deck: Vec::new() }
    }
}

} // verus!
