//! The fixed card population of a run and its shuffling.
use crate::card::{Card, Rank, Suit};
use rand::rngs::StdRng;
use rand::seq::SliceRandom;
use rand::SeedableRng;
use vstd::prelude::*;

verus! {

/// Number of cards in a run.
pub const DECK_SIZE: usize = 44;

/// The rank whose value is `v`, for `2 <= v <= 14`.
pub open spec fn rank_with_value(v: int) -> Rank {
    if v == 2 {
        Rank::Two
    } else if v == 3 {
        Rank::Three
    } else if v == 4 {
        Rank::Four
    } else if v == 5 {
        Rank::Five
    } else if v == 6 {
        Rank::Six
    } else if v == 7 {
        Rank::Seven
    } else if v == 8 {
        Rank::Eight
    } else if v == 9 {
        Rank::Nine
    } else if v == 10 {
        Rank::Ten
    } else if v == 11 {
        Rank::Jack
    } else if v == 12 {
        Rank::Queen
    } else if v == 13 {
        Rank::King
    } else {
        Rank::Ace
    }
}

/// Suits in their usual order: Spades, Hearts, Diamonds, Clubs.
pub open spec fn suit_at(i: int) -> Suit {
    if i == 0 {
        Suit::Spades
    } else if i == 1 {
        Suit::Hearts
    } else if i == 2 {
        Suit::Diamonds
    } else {
        Suit::Clubs
    }
}

/// Whether a card belongs to the deck of a run: every card but the Jacks,
/// Queens, Kings and Aces of Hearts and Diamonds.
pub open spec fn in_population(c: Card) -> bool {
    !(c.value() >= 11 && (c.suit is Hearts || c.suit is Diamonds))
}

/// The `i`-th card of the unshuffled deck: the number cards of every suit,
/// rank by rank, then the court cards and Aces of Spades and Clubs.
pub open spec fn card_at(i: int) -> Card {
    if i < 36 {
        Card { rank: rank_with_value(2 + i / 4), suit: suit_at(i % 4) }
    } else {
        Card {
            rank: rank_with_value(11 + (i - 36) / 2),
            suit: if (i - 36) % 2 == 0 { Suit::Spades } else { Suit::Clubs },
        }
    }
}

/// The unshuffled deck.
pub open spec fn population() -> Seq<Card> {
    Seq::new(DECK_SIZE as nat, |i: int| card_at(i))
}

/// Where a card of the population stands in the unshuffled deck.
pub open spec fn index_in_population(c: Card) -> int {
    let s = if c.suit is Spades {
        0int
    } else if c.suit is Hearts {
        1
    } else if c.suit is Diamonds {
        2
    } else {
        3
    };
    if c.value() <= 10 {
        4 * (c.value() - 2) + s
    } else {
        36 + 2 * (c.value() - 11) + if c.suit is Spades { 0int } else { 1 }
    }
}

proof fn lemma_rank_with_value(r: Rank)
    ensures
        rank_with_value(r.spec_value()) == r,
{
}

proof fn lemma_card_at_index(i: int)
    requires
        0 <= i < DECK_SIZE,
    ensures
        in_population(card_at(i)),
        index_in_population(card_at(i)) == i,
{
}

/// The population has 44 distinct cards, and holds a card exactly when
/// `in_population` says so.
pub proof fn lemma_population()
    ensures
        population().len() == DECK_SIZE,
        population().no_duplicates(),
        forall|c: Card| population().contains(c) <==> in_population(c),
{
    let p = population();
    assert forall|i: int, j: int| 0 <= i < p.len() && 0 <= j < p.len() && i != j implies p[i]
        != p[j] by {
        lemma_card_at_index(i);
        lemma_card_at_index(j);
    }
    assert forall|c: Card| p.contains(c) <==> in_population(c) by {
        if p.contains(c) {
            let i = choose|i: int| 0 <= i < p.len() && p[i] == c;
            lemma_card_at_index(i);
        }
        if in_population(c) {
            let i = index_in_population(c);
            lemma_rank_with_value(c.rank);
            assert(p[i] == c);
        }
    }
}

/// Builds the unshuffled deck.
pub fn full_deck() -> (r: Vec<Card>)
    ensures
        r@ == population(),
{
    let numbers: [Rank; 9] = [
        Rank::Two,
        Rank::Three,
        Rank::Four,
        Rank::Five,
        Rank::Six,
        Rank::Seven,
        Rank::Eight,
        Rank::Nine,
        Rank::Ten,
    ];
    let courts: [Rank; 4] = [Rank::Jack, Rank::Queen, Rank::King, Rank::Ace];
    let suits: [Suit; 4] = [Suit::Spades, Suit::Hearts, Suit::Diamonds, Suit::Clubs];
    let black: [Suit; 2] = [Suit::Spades, Suit::Clubs];
    let mut r: Vec<Card> = Vec::new();
    let mut ri: usize = 0;
    while ri < 9
        invariant
            0 <= ri <= 9,
            r@ == population().take(4 * ri as int),
            numbers@ == seq![
                Rank::Two,
                Rank::Three,
                Rank::Four,
                Rank::Five,
                Rank::Six,
                Rank::Seven,
                Rank::Eight,
                Rank::Nine,
                Rank::Ten,
            ],
            suits@ == seq![Suit::Spades, Suit::Hearts, Suit::Diamonds, Suit::Clubs],
        decreases 9 - ri,
    {
        let mut si: usize = 0;
        while si < 4
            invariant
                0 <= ri < 9,
                0 <= si <= 4,
                r@ == population().take(4 * ri + si),
                numbers@ == seq![
                    Rank::Two,
                    Rank::Three,
                    Rank::Four,
                    Rank::Five,
                    Rank::Six,
                    Rank::Seven,
                    Rank::Eight,
                    Rank::Nine,
                    Rank::Ten,
                ],
                suits@ == seq![Suit::Spades, Suit::Hearts, Suit::Diamonds, Suit::Clubs],
            decreases 4 - si,
        {
            let c = Card { rank: numbers[ri], suit: suits[si] };
            let ghost k = 4 * ri + si;
            assert(c == card_at(k));
            r.push(c);
            assert(r@ =~= population().take(k + 1));
            si = si + 1;
        }
        ri = ri + 1;
    }
    let mut ci: usize = 0;
    while ci < 4
        invariant
            0 <= ci <= 4,
            r@ == population().take(36 + 2 * ci),
            courts@ == seq![Rank::Jack, Rank::Queen, Rank::King, Rank::Ace],
            black@ == seq![Suit::Spades, Suit::Clubs],
        decreases 4 - ci,
    {
        let mut bi: usize = 0;
        while bi < 2
            invariant
                0 <= ci < 4,
                0 <= bi <= 2,
                r@ == population().take(36 + 2 * ci + bi),
                courts@ == seq![Rank::Jack, Rank::Queen, Rank::King, Rank::Ace],
                black@ == seq![Suit::Spades, Suit::Clubs],
            decreases 2 - bi,
        {
            let c = Card { rank: courts[ci], suit: black[bi] };
            let ghost k = 36 + 2 * ci + bi;
            assert(c == card_at(k));
            r.push(c);
            assert(r@ =~= population().take(k + 1));
            bi = bi + 1;
        }
        ci = ci + 1;
    }
    assert(r@ =~= population());
    r
}

/// Relies on rand's `SliceRandom::shuffle`, driven by the thread-local
/// generator of `rand::rng`: the cards come out permuted.
#[verifier::external_body]
fn shuffle_randomly(cards: &mut Vec<Card>)
    ensures
        final(cards)@.to_multiset() == old(cards)@.to_multiset(),
{
    cards.shuffle(&mut rand::rng());
}

/// Relies on rand's `SliceRandom::shuffle`, driven by a `StdRng` made by
/// `SeedableRng::seed_from_u64(seed)`: the cards come out permuted.
#[verifier::external_body]
fn shuffle_seeded(cards: &mut Vec<Card>, seed: u64)
    ensures
        final(cards)@.to_multiset() == old(cards)@.to_multiset(),
{
    cards.shuffle(&mut StdRng::seed_from_u64(seed));
}

/// A uniformly shuffled deck of the whole population.
pub fn random_deck() -> (r: Vec<Card>)
    ensures
        r@.to_multiset() == population().to_multiset(),
{
    let mut cards = full_deck();
    shuffle_randomly(&mut cards);
    cards
}

/// A deck of the whole population shuffled by a generator seeded with
/// `seed`.
pub fn seeded_deck(seed: u64) -> (r: Vec<Card>)
    ensures
        r@.to_multiset() == population().to_multiset(),
{
    let mut cards = full_deck();
    shuffle_seeded(&mut cards, seed);
    cards
}

} // verus!
