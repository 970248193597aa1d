use rand::rngs::StdRng;
use rand::seq::SliceRandom;
use rand::SeedableRng;
use vstd::prelude::*;

verus! {

/// The four suits, in the order in which a fresh deck is built.
#[derive(Debug, Clone, Copy, PartialEq, Eq, Structural)]
pub enum Suit {
    Hearts,
    Diamonds,
    Clubs,
    Spades,
}

/// The thirteen ranks, lowest first.
#[derive(Debug, Clone, Copy, PartialEq, Eq, Structural)]
pub enum Rank {
    Two,
    Three,
    Four,
    Five,
    Six,
    Seven,
    Eight,
    Nine,
    Ten,
    Jack,
    Queen,
    King,
    Ace,
}

/// A playing card, compared and copied by value.
#[derive(Debug, Clone, Copy, PartialEq, Eq, Structural)]
pub struct Card {
    pub rank: Rank,
    pub suit: Suit,
}

pub open spec fn suit_at(i: int) -> Suit {
    if i == 0 {
        Suit::Hearts
    } else if i == 1 {
        Suit::Diamonds
    } else if i == 2 {
        Suit::Clubs
    } else {
        Suit::Spades
    }
}

pub open spec fn suit_index(s: Suit) -> int {
    match s {
        Suit::Hearts => 0,
        Suit::Diamonds => 1,
        Suit::Clubs => 2,
        Suit::Spades => 3,
    }
}

pub open spec fn rank_at(i: int) -> Rank {
    if i == 0 {
        Rank::Two
    } else if i == 1 {
        Rank::Three
    } else if i == 2 {
        Rank::Four
    } else if i == 3 {
        Rank::Five
    } else if i == 4 {
        Rank::Six
    } else if i == 5 {
        Rank::Seven
    } else if i == 6 {
        Rank::Eight
    } else if i == 7 {
        Rank::Nine
    } else if i == 8 {
        Rank::Ten
    } else if i == 9 {
        Rank::Jack
    } else if i == 10 {
        Rank::Queen
    } else if i == 11 {
        Rank::King
    } else {
        Rank::Ace
    }
}

pub open spec fn rank_index(r: Rank) -> int {
    match r {
        Rank::Two => 0,
        Rank::Three => 1,
        Rank::Four => 2,
        Rank::Five => 3,
        Rank::Six => 4,
        Rank::Seven => 5,
        Rank::Eight => 6,
        Rank::Nine => 7,
        Rank::Ten => 8,
        Rank::Jack => 9,
        Rank::Queen => 10,
        Rank::King => 11,
        Rank::Ace => 12,
    }
}

/// The card at position `i` of a fresh, unshuffled deck: suit by suit, each
/// suit from Two to Ace.
pub open spec fn card_at(i: int) -> Card {
    Card { suit: suit_at(i / 13), rank: rank_at(i % 13) }
}

/// Position of a card in a fresh, unshuffled deck.
pub open spec fn card_index(c: Card) -> int {
    suit_index(c.suit) * 13 + rank_index(c.rank)
}

/// A fresh deck: every rank of every suit, once.
pub open spec fn full_deck() -> Seq<Card> {
    Seq::new(52, |i: int| card_at(i))
}

pub proof fn lemma_card_index_inverse(c: Card)
    ensures
        0 <= card_index(c) < 52,
        card_at(card_index(c)) == c,
{
}

pub proof fn lemma_card_at_inverse(i: int)
    requires
        0 <= i < 52,
    ensures
        card_index(card_at(i)) == i,
{
}

/// A fresh deck holds 52 distinct cards, and every card is in it.
pub proof fn lemma_full_deck_distinct()
    ensures
        full_deck().len() == 52,
        full_deck().no_duplicates(),
        forall|c: Card| full_deck().contains(c),
{
    assert forall|i: int, j: int| 0 <= i < 52 && 0 <= j < 52 && i != j implies full_deck()[i]
        != full_deck()[j] by {
        lemma_card_at_inverse(i);
        lemma_card_at_inverse(j);
    }
    assert forall|c: Card| full_deck().contains(c) by {
        lemma_card_index_inverse(c);
        assert(full_deck()[card_index(c)] == c);
    }
}

fn suit_from_index(i: usize) -> (s: Suit)
    requires
        i < 4,
    ensures
        s == suit_at(i as int),
{
    if i == 0 {
        Suit::Hearts
    } else if i == 1 {
        Suit::Diamonds
    } else if i == 2 {
        Suit::Clubs
    } else {
        Suit::Spades
    }
}

fn rank_from_index(i: usize) -> (r: Rank)
    requires
        i < 13,
    ensures
        r == rank_at(i as int),
{
    if i == 0 {
        Rank::Two
    } else if i == 1 {
        Rank::Three
    } else if i == 2 {
        Rank::Four
    } else if i == 3 {
        Rank::Five
    } else if i == 4 {
        Rank::Six
    } else if i == 5 {
        Rank::Seven
    } else if i == 6 {
        Rank::Eight
    } else if i == 7 {
        Rank::Nine
    } else if i == 8 {
        Rank::Ten
    } else if i == 9 {
        Rank::Jack
    } else if i == 10 {
        Rank::Queen
    } else if i == 11 {
        Rank::King
    } else {
        Rank::Ace
    }
}

/// Builds a fresh, unshuffled deck of 52 distinct cards.
pub fn init_deck() -> (deck: Vec<Card>)
    ensures
        deck@ == full_deck(),
{
    let mut deck: Vec<Card> = Vec::new();
    let mut s: usize = 0;
    while s < 4
        invariant
            s <= 4,
            deck@ == full_deck().take(s * 13),
        decreases 4 - s,
    {
        let suit = suit_from_index(s);
        let mut r: usize = 0;
        while r < 13
            invariant
                s < 4,
                r <= 13,
                suit == suit_at(s as int),
                deck@ == full_deck().take(s * 13 + r),
            decreases 13 - r,
        {
            let ghost before = deck@;
            deck.push(Card { rank: rank_from_index(r), suit });
            proof {
                let k = s * 13 + r;
                assert(k / 13 == s as int) by (nonlinear_arith)
                    requires k == s * 13 + r, r < 13;
                assert(k % 13 == r as int) by (nonlinear_arith)
                    requires k == s * 13 + r, r < 13;
                assert(deck@ =~= full_deck().take(k + 1));
            }
            r += 1;
        }
        s += 1;
    }
    assert(deck@ =~= full_deck());
    deck
}

/// The random number generator that shuffles decks and picks cards.
#[verifier::external_type_specification]
#[verifier::external_body]
pub struct ExStdRng(StdRng);

/// Relies on `SeedableRng::from_entropy` of rand: a generator seeded from the
/// operating system. Nothing is known of the numbers it will draw.
#[verifier::external_body]
pub(crate) fn seeded_rng() -> StdRng {
    StdRng::from_entropy()
}

/// Relies on `SliceRandom::shuffle` of rand, a Fisher-Yates shuffle made of
/// swaps: the deck afterwards holds the same cards, in some order.
#[verifier::external_body]
fn shuffle_cards(deck: &mut Vec<Card>, rng: &mut StdRng)
    ensures
        final(deck)@.to_multiset() == old(deck)@.to_multiset(),
{
    deck.shuffle(rng);
}

/// Relies on `SliceRandom::choose_multiple` of rand: it yields `amount`
/// elements at distinct positions of the slice, clamped to the slice's length.
#[verifier::external_body]
fn choose_cards(deck: &[Card], amount: usize, rng: &mut StdRng) -> (r: Vec<Card>)
    ensures
        r@.len() == if amount <= deck@.len() { amount as int } else { deck@.len() as int },
        r@.to_multiset().subset_of(deck@.to_multiset()),
{
    deck.choose_multiple(rng, amount).cloned().collect()
}

/// Two sequences holding the same elements, as often each, agree on whether
/// one of them repeats an element.
pub proof fn lemma_permutation_keeps_distinct(a: Seq<Card>, b: Seq<Card>)
    requires
        a.to_multiset() == b.to_multiset(),
        a.no_duplicates(),
    ensures
        b.no_duplicates(),
{
    a.lemma_multiset_has_no_duplicates();
    b.lemma_multiset_has_no_duplicates_conv();
}

/// Builds a fresh deck and shuffles it: 52 distinct cards in random order.
pub fn shuffled_deck(rng: &mut StdRng) -> (deck: Vec<Card>)
    ensures
        deck@.to_multiset() == full_deck().to_multiset(),
        deck@.len() == 52,
        deck@.no_duplicates(),
{
    let mut deck = init_deck();
    shuffle_cards(&mut deck, rng);
    proof {
        lemma_full_deck_distinct();
        lemma_permutation_keeps_distinct(full_deck(), deck@);
        vstd::seq_lib::to_multiset_len(deck@);
        vstd::seq_lib::to_multiset_len(full_deck());
    }
    deck
}

/// Draws `n` cards at distinct positions of `deck` (all of them when `n`
/// exceeds its length), in random order.
pub fn pick_cards(deck: &[Card], n: usize, rng: &mut StdRng) -> (picked: Vec<Card>)
    ensures
        picked@.len() == if n <= deck@.len() { n as int } else { deck@.len() as int },
        picked@.to_multiset().subset_of(deck@.to_multiset()),
{
    let n = if n <= deck.len() { n } else { deck.len() };
    choose_cards(deck, n, rng)
}

} // verus!
