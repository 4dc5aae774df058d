use scoundrel::card::{Card, Rank, Suit};
use scoundrel::deck::{full_deck, random_deck, seeded_deck};
use scoundrel::game::State;
use std::collections::VecDeque;

fn card(rank: Rank, suit: Suit) -> Card {
    Card { rank, suit }
}

const ALL_RANKS: [Rank; 13] = [
    Rank::Ace,
    Rank::Two,
    Rank::Three,
    Rank::Four,
    Rank::Five,
    Rank::Six,
    Rank::Seven,
    Rank::Eight,
    Rank::Nine,
    Rank::Ten,
    Rank::Jack,
    Rank::Queen,
    Rank::King,
];
const ALL_SUITS: [Suit; 4] = [Suit::Spades, Suit::Hearts, Suit::Diamonds, Suit::Clubs];

fn is_excluded(c: &Card) -> bool {
    matches!(c.rank, Rank::Jack | Rank::Queen | Rank::King | Rank::Ace)
        && matches!(c.suit, Suit::Hearts | Suit::Diamonds)
}

fn all_cards(s: &State) -> Vec<Card> {
    let mut v: Vec<Card> = s.deck.iter().copied().collect();
    v.extend(s.open.iter().flatten().copied());
    v
}

fn count(v: &[Card], c: Card) -> usize {
    v.iter().filter(|x| **x == c).count()
}

fn check_population(cards: &[Card]) {
    assert_eq!(cards.len(), 44);
    for r in ALL_RANKS {
        for s in ALL_SUITS {
            let c = card(r, s);
            let expected = if is_excluded(&c) { 0 } else { 1 };
            assert_eq!(count(cards, c), expected, "{:?}", c);
        }
    }
}

fn same_state(a: &State, b: &State) -> bool {
    a.played_in_room == b.played_in_room
        && a.played == b.played
        && a.health == b.health
        && a.used_heal == b.used_heal
        && a.deck == b.deck
        && a.open == b.open
        && a.weapon == b.weapon
        && a.killed_with_weapon == b.killed_with_weapon
        && a.can_run == b.can_run
        && a.game_over == b.game_over
}

fn bare_state(health: isize, deck: Vec<Card>, open: [Option<Card>; 4]) -> State {
    State {
        played_in_room: 0,
        played: None,
        health,
        used_heal: false,
        deck: VecDeque::from(deck),
        open,
        weapon: None,
        killed_with_weapon: Vec::new(),
        can_run: true,
        game_over: false,
    }
}

#[test]
fn rank_values_run_from_two_to_ace() {
    let expected = [14, 2, 3, 4, 5, 6, 7, 8, 9, 10, 11, 12, 13];
    for (r, v) in ALL_RANKS.iter().zip(expected) {
        assert_eq!(r.value(), v);
    }
}

#[test]
fn symbols_of_ranks_and_suits() {
    assert_eq!(Rank::Ten.symbol(), "10");
    assert_eq!(Rank::Two.symbol(), "2");
    assert_eq!(Rank::Queen.symbol(), "Q");
    assert_eq!(Rank::Ace.symbol(), "A");
    assert_eq!(Suit::Spades.symbol(), "\u{2660}");
    assert_eq!(Suit::Hearts.symbol(), "\u{2665}");
    assert_eq!(Suit::Diamonds.symbol(), "\u{2666}");
    assert_eq!(Suit::Clubs.symbol(), "\u{2663}");
}

#[test]
fn full_deck_is_the_population() {
    check_population(&full_deck());
}

#[test]
fn shuffled_decks_are_permutations_of_the_population() {
    let d = random_deck();
    check_population(&d);
    let s = seeded_deck(11);
    check_population(&s);
    // A shuffle of 44 cards that hands its input back unchanged is all but impossible.
    let ordered = full_deck();
    assert!(seeded_deck(1) != ordered || seeded_deck(2) != ordered);
}

#[test]
fn new_game_holds_forty_four_distinct_cards() {
    for _ in 0..20 {
        let s = State::new();
        check_population(&all_cards(&s));
        assert_eq!(s.deck.len(), 40);
        assert!(s.open.iter().all(|c| c.is_some()));
        assert_eq!(s.health, 20);
        assert!(s.can_run);
        assert!(!s.game_over);
        assert!(s.weapon.is_none());
        assert!(s.killed_with_weapon.is_empty());
    }
}

#[test]
fn from_deck_deals_the_first_four_cards() {
    let cards = vec![
        card(Rank::Two, Suit::Spades),
        card(Rank::Three, Suit::Hearts),
        card(Rank::Four, Suit::Diamonds),
        card(Rank::Five, Suit::Clubs),
        card(Rank::Six, Suit::Spades),
    ];
    let s = State::from_deck(cards.clone());
    assert_eq!(
        s.open,
        [Some(cards[0]), Some(cards[1]), Some(cards[2]), Some(cards[3])]
    );
    assert_eq!(s.deck, VecDeque::from(vec![cards[4]]));
    let short = State::from_deck(vec![cards[0], cards[1]]);
    assert_eq!(short.open, [Some(cards[0]), Some(cards[1]), None, None]);
    assert!(short.deck.is_empty());
    let empty = State::from_deck(Vec::new());
    assert!(empty.game_over);
}

#[test]
fn play_rejects_bad_slots() {
    let s = bare_state(
        20,
        vec![],
        [Some(card(Rank::Two, Suit::Spades)), None, None, None],
    );
    assert!(s.play(4, true).is_none());
    assert!(s.play(100, false).is_none());
    assert!(s.play(1, true).is_none());
    assert!(s.play(0, true).is_some());
    // the input is untouched
    assert_eq!(s.open[0], Some(card(Rank::Two, Suit::Spades)));
}

#[test]
fn weapon_durability_limits_what_the_weapon_slays() {
    let cards = vec![
        card(Rank::Five, Suit::Diamonds),
        card(Rank::Eight, Suit::Spades),
        card(Rank::Nine, Suit::Clubs),
        card(Rank::Three, Suit::Clubs),
        card(Rank::Two, Suit::Hearts),
        card(Rank::Ten, Suit::Spades),
        card(Rank::Four, Suit::Spades),
        card(Rank::Six, Suit::Hearts),
    ];
    let s0 = State::from_deck(cards);
    let s1 = s0.play(0, true).unwrap();
    assert_eq!(s1.weapon, Some(card(Rank::Five, Suit::Diamonds)));
    assert!(s1.killed_with_weapon.is_empty());
    // 8 against a 5: three damage, and the 8 is slain with the weapon
    let s2 = s1.play(1, true).unwrap();
    assert_eq!(s2.health, 17);
    assert_eq!(s2.killed_with_weapon, vec![card(Rank::Eight, Suit::Spades)]);
    // 9 is above the last kill: bare-handed, full damage, kills unchanged
    let s3 = s2.play(2, true).unwrap();
    assert_eq!(s3.health, 8);
    assert_eq!(s3.killed_with_weapon, vec![card(Rank::Eight, Suit::Spades)]);
    assert_eq!(s3.weapon, Some(card(Rank::Five, Suit::Diamonds)));
    // three cards played: the Three of Clubs is carried into a new room
    assert_eq!(
        s3.open,
        [
            Some(card(Rank::Three, Suit::Clubs)),
            Some(card(Rank::Two, Suit::Hearts)),
            Some(card(Rank::Ten, Suit::Spades)),
            Some(card(Rank::Four, Suit::Spades)),
        ]
    );
    assert_eq!(s3.played_in_room, 0);
    assert!(s3.can_run);
    // 3 is below the last kill and below the weapon: no damage
    let s4 = s3.play(0, true).unwrap();
    assert_eq!(s4.health, 8);
    assert_eq!(
        s4.killed_with_weapon,
        vec![card(Rank::Eight, Suit::Spades), card(Rank::Three, Suit::Clubs)]
    );
    // not using the weapon: full damage
    let s5 = s4.play(3, false).unwrap();
    assert_eq!(s5.health, 4);
    assert_eq!(s5.killed_with_weapon.len(), 2);
}

#[test]
fn equipping_discards_the_former_weapon_and_its_kills() {
    let mut s = bare_state(
        20,
        vec![],
        [Some(card(Rank::Seven, Suit::Diamonds)), None, None, None],
    );
    s.weapon = Some(card(Rank::Three, Suit::Diamonds));
    s.killed_with_weapon = vec![card(Rank::Two, Suit::Clubs)];
    let t = s.play(0, true).unwrap();
    assert_eq!(t.weapon, Some(card(Rank::Seven, Suit::Diamonds)));
    assert!(t.killed_with_weapon.is_empty());
    assert_eq!(t.health, 20);
}

#[test]
fn only_the_first_heart_of_a_room_heals() {
    let s = bare_state(
        10,
        vec![card(Rank::Two, Suit::Clubs)],
        [
            Some(card(Rank::Four, Suit::Hearts)),
            Some(card(Rank::Six, Suit::Hearts)),
            Some(card(Rank::Two, Suit::Spades)),
            Some(card(Rank::Three, Suit::Spades)),
        ],
    );
    let s1 = s.play(0, true).unwrap();
    assert_eq!(s1.health, 14);
    assert!(s1.used_heal);
    let s2 = s1.play(1, true).unwrap();
    assert_eq!(s2.health, 14);
    assert_eq!(s2.played, Some(card(Rank::Six, Suit::Hearts)));
}

#[test]
fn healing_stops_at_full_health() {
    let s = bare_state(
        15,
        vec![],
        [Some(card(Rank::Ten, Suit::Hearts)), None, None, None],
    );
    assert_eq!(s.play(0, false).unwrap().health, 20);
}

#[test]
fn heal_is_allowed_again_after_a_refill() {
    let mut s = bare_state(
        5,
        vec![card(Rank::Nine, Suit::Clubs)],
        [
            Some(card(Rank::Four, Suit::Hearts)),
            None,
            None,
            Some(card(Rank::Two, Suit::Hearts)),
        ],
    );
    s.played_in_room = 2;
    s.used_heal = true;
    s.can_run = false;
    let t = s.play(0, true).unwrap();
    assert_eq!(t.health, 5);
    assert!(!t.used_heal);
    assert_eq!(
        t.open,
        [
            Some(card(Rank::Two, Suit::Hearts)),
            Some(card(Rank::Nine, Suit::Clubs)),
            None,
            None
        ]
    );
    let u = t.play(0, true).unwrap();
    assert_eq!(u.health, 7);
}

#[test]
fn running_twice_in_a_row_is_refused() {
    let s = State::with_seed(3);
    let r = s.run().unwrap();
    assert!(!r.can_run);
    assert!(r.run().is_none());
    // the room's cards went under the deck, in slot order
    let n = s.deck.len();
    let moved: Vec<Card> = s.open.iter().flatten().copied().collect();
    assert_eq!(r.deck.len(), n);
    let tail: Vec<Card> = r.deck.iter().skip(n - 4).copied().collect();
    assert_eq!(tail, moved);
    let drawn: Vec<Option<Card>> = s.deck.iter().take(4).map(|c| Some(*c)).collect();
    assert_eq!(r.open.to_vec(), drawn);
}

#[test]
fn run_is_refused_once_a_card_is_played() {
    let s = State::with_seed(5);
    let t = s.play(0, false).unwrap();
    assert!(!t.can_run);
    assert!(t.run().is_none());
}

#[test]
fn run_on_a_short_deck_keeps_every_card() {
    let s = bare_state(
        12,
        vec![card(Rank::Two, Suit::Clubs)],
        [
            Some(card(Rank::Three, Suit::Spades)),
            None,
            Some(card(Rank::Four, Suit::Hearts)),
            None,
        ],
    );
    let r = s.run().unwrap();
    assert_eq!(
        r.open,
        [
            Some(card(Rank::Two, Suit::Clubs)),
            Some(card(Rank::Three, Suit::Spades)),
            Some(card(Rank::Four, Suit::Hearts)),
            None
        ]
    );
    assert!(r.deck.is_empty());
    assert_eq!(r.health, 12);
}

#[test]
fn score_at_full_health_after_a_heart() {
    let mut s = bare_state(20, vec![], [None, None, None, None]);
    s.played = Some(card(Rank::Five, Suit::Hearts));
    assert_eq!(s.score(), 25);
}

#[test]
fn score_at_full_health_after_a_monster() {
    let mut s = bare_state(20, vec![], [None, None, None, None]);
    s.played = Some(card(Rank::King, Suit::Spades));
    assert_eq!(s.score(), 20);
    s.played = None;
    assert_eq!(s.score(), 20);
}

#[test]
fn score_below_full_health() {
    let mut s = bare_state(15, vec![], [None, None, None, None]);
    s.played = Some(card(Rank::Nine, Suit::Hearts));
    assert_eq!(s.score(), 15);
}

#[test]
fn score_of_a_lost_run_counts_the_monsters_left() {
    let s = bare_state(-3, vec![card(Rank::Seven, Suit::Clubs)], [None, None, None, None]);
    assert_eq!(s.score(), -10);
    let t = bare_state(
        0,
        vec![
            card(Rank::Seven, Suit::Clubs),
            card(Rank::Ten, Suit::Hearts),
            card(Rank::Ace, Suit::Spades),
        ],
        [
            Some(card(Rank::Two, Suit::Diamonds)),
            Some(card(Rank::Three, Suit::Spades)),
            None,
            None,
        ],
    );
    assert_eq!(t.score(), -24);
}

#[test]
fn game_over_when_health_falls() {
    let s = bare_state(
        5,
        vec![card(Rank::Two, Suit::Clubs)],
        [
            Some(card(Rank::Five, Suit::Spades)),
            Some(card(Rank::Two, Suit::Hearts)),
            None,
            None,
        ],
    );
    let t = s.play(0, true).unwrap();
    assert_eq!(t.health, 0);
    assert!(t.game_over);
    // the engine still answers after the end, and the end stays
    let u = t.play(1, true).unwrap();
    assert_eq!(u.health, 2);
    assert!(u.game_over);
}

#[test]
fn game_over_when_no_card_is_left() {
    let s = bare_state(
        9,
        vec![],
        [Some(card(Rank::Two, Suit::Hearts)), None, None, None],
    );
    let t = s.play(0, true).unwrap();
    assert!(t.game_over);
    assert_eq!(t.health, 11);
    assert_eq!(t.score(), 11);
}

#[test]
fn not_over_while_cards_remain() {
    let s = State::with_seed(9);
    let t = s.play(2, false).unwrap();
    assert!(t.health > 0);
    assert!(!t.game_over);
}

/// Plays the first playable slot, running whenever the rules allow it on
/// every third step.
fn play_through(mut s: State, mut each: impl FnMut(&State, &State)) -> Vec<State> {
    let mut history = vec![];
    let mut step = 0;
    while !s.game_over && step < 200 {
        let next = if step % 3 == 0 && s.can_run {
            s.run()
        } else {
            (0..4).find_map(|p| s.play(p, step % 2 == 0))
        };
        let t = next.expect("a move is always available before the end");
        each(&s, &t);
        history.push(s);
        s = t;
        step += 1;
    }
    history.push(s);
    history
}

#[test]
fn same_seed_and_moves_give_the_same_states() {
    let a = play_through(State::with_seed(42), |_, _| {});
    let b = play_through(State::with_seed(42), |_, _| {});
    assert_eq!(a.len(), b.len());
    for (x, y) in a.iter().zip(b.iter()) {
        assert!(same_state(x, y));
    }
}

#[test]
fn no_card_is_lost_or_invented_along_a_run() {
    for seed in 0..10u64 {
        let mut discarded: Vec<Card> = Vec::new();
        let start = State::with_seed(seed);
        check_population(&all_cards(&start));
        play_through(start, |before, after| {
            if after.played != before.played {
                let c = after.played.unwrap();
                let slain = after.killed_with_weapon.len() > before.killed_with_weapon.len();
                match c.suit {
                    Suit::Diamonds => {
                        discarded.extend(before.weapon);
                        discarded.extend(before.killed_with_weapon.iter().copied());
                    }
                    _ if slain => {}
                    _ => discarded.push(c),
                }
            }
            let mut cards = all_cards(after);
            cards.extend(after.weapon);
            cards.extend(after.killed_with_weapon.iter().copied());
            cards.extend(discarded.iter().copied());
            check_population(&cards);
            assert!(after.health <= 20);
            let k = &after.killed_with_weapon;
            assert!(k.windows(2).all(|w| w[1].rank.value() <= w[0].rank.value()));
        });
    }
}
