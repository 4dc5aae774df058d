//! Game state and the transitions of the rule engine.
//!
//! A `State` is an immutable snapshot: every transition returns a new one and
//! leaves its input untouched. Its meaning is the ghost model `GameView`, and
//! each transition is specified by a spec function on that model.
use crate::card::{Card, Suit};
use crate::deck::{population, random_deck, seeded_deck};
use std::collections::VecDeque;
use vstd::prelude::*;

verus! {

/// Health never rises above this.
pub const MAX_HEALTH: isize = 20;

/// One point of a run.
#[derive(Debug)]
pub struct State {
    /// Cards played since the room was last refilled (0 to 2).
    pub played_in_room: usize,
    /// The card played last, which the score may reward.
    pub played: Option<Card>,
    pub health: isize,
    /// Whether a Heart has been played in the current room.
    pub used_heal: bool,
    /// The cards still to be drawn, the next one in front.
    pub deck: VecDeque<Card>,
    /// The room: four slots, each with a card or empty.
    pub open: [Option<Card>; 4],
    pub weapon: Option<Card>,
    /// Monsters slain with the current weapon, in the order they fell.
    pub killed_with_weapon: Vec<Card>,
    /// Whether the player may flee the current room.
    pub can_run: bool,
    pub game_over: bool,
}

/// The mathematical model of a `State`.
pub struct GameView {
    pub played_in_room: nat,
    pub played: Option<Card>,
    pub health: int,
    pub used_heal: bool,
    pub deck: Seq<Card>,
    pub open: Seq<Option<Card>>,
    pub weapon: Option<Card>,
    pub killed_with_weapon: Seq<Card>,
    pub can_run: bool,
    pub game_over: bool,
}

impl View for State {
    type V = GameView;

    open spec fn view(&self) -> GameView {
        GameView {
            played_in_room: self.played_in_room as nat,
            played: self.played,
            health: self.health as int,
            used_heal: self.used_heal,
            deck: self.deck@,
            open: self.open@,
            weapon: self.weapon,
            killed_with_weapon: self.killed_with_weapon@,
            can_run: self.can_run,
            game_over: self.game_over,
        }
    }
}

/// The model of an optional state.
pub open spec fn view_of(r: Option<State>) -> Option<GameView> {
    match r {
        Some(s) => Some(s@),
        None => None,
    }
}

/// The `i`-th card of `cards`, if there is one.
pub open spec fn slot(cards: Seq<Card>, i: int) -> Option<Card> {
    if 0 <= i < cards.len() {
        Some(cards[i])
    } else {
        None
    }
}

/// The first four cards of `cards` laid out as a room.
pub open spec fn room_from(cards: Seq<Card>) -> Seq<Option<Card>> {
    seq![slot(cards, 0), slot(cards, 1), slot(cards, 2), slot(cards, 3)]
}

/// `cards` without its first `n` cards, or empty if it has fewer.
pub open spec fn without_first(cards: Seq<Card>, n: int) -> Seq<Card> {
    if cards.len() <= n {
        Seq::empty()
    } else {
        cards.skip(n)
    }
}

/// The cards of the occupied slots, in slot order.
pub open spec fn occupied(slots: Seq<Option<Card>>) -> Seq<Card>
    decreases slots.len(),
{
    if slots.len() == 0 {
        Seq::empty()
    } else {
        let rest = occupied(slots.drop_last());
        match slots.last() {
            Some(c) => rest.push(c),
            None => rest,
        }
    }
}

/// The card of the last occupied slot.
pub open spec fn last_occupied(slots: Seq<Option<Card>>) -> Option<Card> {
    let cards = occupied(slots);
    if cards.len() == 0 {
        None
    } else {
        Some(cards.last())
    }
}

/// Sum of the values of the monsters among `cards`.
pub open spec fn monster_total(cards: Seq<Card>) -> int
    decreases cards.len(),
{
    if cards.len() == 0 {
        0
    } else {
        monster_total(cards.drop_last()) + if cards.last().is_monster() {
            cards.last().value()
        } else {
            0
        }
    }
}

/// A fresh run on `cards`, in the order they are to be drawn: the first four
/// make the room.
pub open spec fn start_from(cards: Seq<Card>) -> GameView {
    GameView {
        played_in_room: 0,
        played: None,
        health: MAX_HEALTH as int,
        used_heal: false,
        deck: without_first(cards, 4),
        open: room_from(cards),
        weapon: None,
        killed_with_weapon: Seq::empty(),
        can_run: true,
        game_over: cards.len() == 0,
    }
}

/// The equipped weapon may slay `c`: it has slain nothing yet, or the last
/// monster it slew is worth at least as much as `c`.
pub open spec fn weapon_can_take(killed: Seq<Card>, c: Card) -> bool {
    killed.len() == 0 || c.value() <= killed.last().value()
}

/// Fighting the monster `c`, with the weapon if asked and allowed.
pub open spec fn fight_spec(g: GameView, c: Card, use_weapon: bool) -> GameView {
    if use_weapon && g.weapon is Some && weapon_can_take(g.killed_with_weapon, c) {
        let d = c.value() - g.weapon->0.value();
        GameView {
            health: g.health - if d > 0 { d } else { 0 },
            killed_with_weapon: g.killed_with_weapon.push(c),
            played: Some(c),
            ..g
        }
    } else {
        GameView { health: g.health - c.value(), played: Some(c), ..g }
    }
}

/// Playing the Heart `c`: only the first one of a room heals.
pub open spec fn heal_spec(g: GameView, c: Card) -> GameView {
    let h = g.health + c.value();
    GameView {
        health: if g.used_heal {
            g.health
        } else if h < MAX_HEALTH {
            h
        } else {
            MAX_HEALTH as int
        },
        used_heal: true,
        played: Some(c),
        ..g
    }
}

/// Equipping the Diamond `c`, which discards the former weapon and its kills.
pub open spec fn equip_spec(g: GameView, c: Card) -> GameView {
    GameView { weapon: Some(c), killed_with_weapon: Seq::empty(), played: Some(c), ..g }
}

/// The effect of the card `c` on its own, by the role of its suit.
pub open spec fn resolve_spec(g: GameView, c: Card, use_weapon: bool) -> GameView {
    match c.suit {
        Suit::Spades => fight_spec(g, c, use_weapon),
        Suit::Clubs => fight_spec(g, c, use_weapon),
        Suit::Hearts => heal_spec(g, c),
        Suit::Diamonds => equip_spec(g, c),
    }
}

/// The run is lost, or no card is left to play.
pub open spec fn is_finished(g: GameView) -> bool {
    g.health <= 0 || (g.deck.len() == 0 && forall|i: int|
        0 <= i < g.open.len() ==> #[trigger] g.open[i] is None)
}

/// A new room: the card left over and the next three of the deck.
pub open spec fn refill_spec(g: GameView) -> GameView {
    GameView {
        open: seq![last_occupied(g.open), slot(g.deck, 0), slot(g.deck, 1), slot(g.deck, 2)],
        deck: without_first(g.deck, 3),
        played_in_room: 0,
        used_heal: false,
        can_run: true,
        ..g
    }
}

/// What follows the effect of the card in slot `pos`: the slot is cleared,
/// the room refilled after its third card, and the end of the run detected.
pub open spec fn after_play_spec(g: GameView, pos: int) -> GameView {
    let cleared = GameView {
        open: g.open.update(pos, None),
        played_in_room: g.played_in_room + 1,
        ..g
    };
    let moved = if cleared.played_in_room == 3 {
        refill_spec(cleared)
    } else {
        GameView { can_run: false, ..cleared }
    };
    GameView { game_over: moved.game_over || is_finished(moved), ..moved }
}

/// Playing the card in slot `pos`; `None` when there is no such card.
pub open spec fn play_spec(g: GameView, pos: int, use_weapon: bool) -> Option<GameView> {
    if 0 <= pos < g.open.len() && g.open[pos] is Some {
        Some(after_play_spec(resolve_spec(g, g.open[pos]->0, use_weapon), pos))
    } else {
        None
    }
}

/// Fleeing the room: its cards go under the deck and a new room is drawn.
/// `None` when running is not allowed.
pub open spec fn run_spec(g: GameView) -> Option<GameView> {
    if !g.can_run {
        None
    } else {
        let d = g.deck + occupied(g.open);
        Some(
            GameView {
                played_in_room: 0,
                played: None,
                deck: without_first(d, 4),
                open: room_from(d),
                can_run: false,
                ..g
            },
        )
    }
}

/// The score of a run. A lost run counts the monsters still unresolved
/// against the player; a won run at full health earns the value of a final
/// Heart.
pub open spec fn score_spec(g: GameView) -> int {
    if g.health <= 0 {
        g.health - monster_total(g.deck) - monster_total(occupied(g.open))
    } else if g.health < MAX_HEALTH {
        g.health
    } else {
        MAX_HEALTH + match g.played {
            Some(c) => if c.suit is Hearts {
                c.value()
            } else {
                0
            },
            None => 0,
        }
    }
}

impl GameView {
    /// The invariant that every state of a run keeps.
    pub open spec fn wf(self) -> bool {
        &&& self.open.len() == 4
        &&& self.played_in_room < 3
        &&& self.health <= MAX_HEALTH
        &&& (self.weapon matches Some(w) ==> w.suit is Diamonds)
        &&& forall|i: int|
            0 <= i < self.killed_with_weapon.len() ==> (#[trigger] self.killed_with_weapon[i]).is_monster()
        &&& forall|i: int, j: int|
            0 <= i <= j < self.killed_with_weapon.len() ==> (#[trigger] self.killed_with_weapon[j]).value()
                <= (#[trigger] self.killed_with_weapon[i]).value()
        &&& (is_finished(self) ==> self.game_over)
        &&& occupied(self.open).len() + self.played_in_room <= 4
    }
}

/// No more cards are occupied than there are slots.
pub proof fn lemma_occupied_len(slots: Seq<Option<Card>>)
    ensures
        occupied(slots).len() <= slots.len(),
    decreases slots.len(),
{
    if slots.len() > 0 {
        lemma_occupied_len(slots.drop_last());
    }
}

/// Clearing an occupied slot takes its card, and only it, out of the room.
pub proof fn lemma_occupied_clear(slots: Seq<Option<Card>>, pos: int)
    requires
        0 <= pos < slots.len(),
        slots[pos] is Some,
    ensures
        occupied(slots.update(pos, None)).len() + 1 == occupied(slots).len(),
        occupied(slots.update(pos, None)).to_multiset() == occupied(slots).to_multiset().remove(
            slots[pos]->0,
        ),
    decreases slots.len(),
{
    broadcast use vstd::seq_lib::group_to_multiset_ensures;
    broadcast use vstd::multiset::group_multiset_axioms;

    let u = slots.update(pos, None);
    if pos == slots.len() - 1 {
        assert(u.drop_last() =~= slots.drop_last());
        let rest = occupied(slots.drop_last());
        assert(rest.push(slots[pos]->0).to_multiset() =~= rest.to_multiset().insert(slots[pos]->0));
        assert(rest.to_multiset() =~= rest.to_multiset().insert(slots[pos]->0).remove(slots[pos]->0));
    } else {
        lemma_occupied_clear(slots.drop_last(), pos);
        assert(u.drop_last() =~= slots.drop_last().update(pos, None));
        let a = occupied(u.drop_last());
        let b = occupied(slots.drop_last());
        let x = slots[pos]->0;
        assert(b.to_multiset().count(x) >= 1) by {
            if b.to_multiset().count(x) == 0 {
                vstd::seq_lib::to_multiset_len(a);
                vstd::seq_lib::to_multiset_len(b);
                assert(b.to_multiset().remove(x) =~= b.to_multiset());
                assert(a.to_multiset() == b.to_multiset());
            }
        }
        match slots.last() {
            Some(c) => {
                assert(a.push(c).to_multiset() =~= a.to_multiset().insert(c));
                assert(b.push(c).to_multiset() =~= b.to_multiset().insert(c));
                assert(a.to_multiset().insert(c) =~= b.to_multiset().insert(c).remove(slots[pos]->0));
            },
            None => {},
        }
    }
}

proof fn lemma_occupied_take_step(slots: Seq<Option<Card>>, i: int)
    requires
        0 <= i < slots.len(),
    ensures
        occupied(slots.take(i + 1)) == match slots[i] {
            Some(c) => occupied(slots.take(i)).push(c),
            None => occupied(slots.take(i)),
        },
{
    assert(slots.take(i + 1).drop_last() =~= slots.take(i));
}

proof fn lemma_occupied_empty(slots: Seq<Option<Card>>)
    ensures
        occupied(slots).len() == 0 <==> forall|i: int| 0 <= i < slots.len() ==> #[trigger] slots[i] is None,
    decreases slots.len(),
{
    if slots.len() > 0 {
        lemma_occupied_empty(slots.drop_last());
        if occupied(slots).len() == 0 {
            assert forall|i: int| 0 <= i < slots.len() implies #[trigger] slots[i] is None by {
                if i < slots.len() - 1 {
                    assert(slots.drop_last()[i] == slots[i]);
                }
            }
        }
        if forall|i: int| 0 <= i < slots.len() ==> #[trigger] slots[i] is None {
            assert forall|i: int| 0 <= i < slots.drop_last().len() implies #[trigger] slots.drop_last()[i] is None by {
                assert(slots[i] is None);
            }
        }
    }
}

/// A copy of a deck.
fn copy_deck(d: &VecDeque<Card>) -> (r: VecDeque<Card>)
    ensures
        r@ == d@,
{
    let r = d.clone();
    assert(r@ =~= d@);
    r
}

/// A copy of a list of cards.
fn copy_cards(v: &Vec<Card>) -> (r: Vec<Card>)
    ensures
        r@ == v@,
{
    let r = v.clone();
    assert(r@ =~= v@);
    r
}

impl State {
    /// Starts a run on `cards`, in the order they are to be drawn.
    pub fn from_deck(cards: Vec<Card>) -> (r: State)
        ensures
            r@ == start_from(cards@),
            r@.wf(),
    {
        let mut deck: VecDeque<Card> = VecDeque::new();
        let mut i: usize = 0;
        while i < cards.len()
            invariant
                0 <= i <= cards.len(),
                deck@ == cards@.take(i as int),
            decreases cards.len() - i,
        {
            deck.push_back(cards[i]);
            assert(deck@ =~= cards@.take(i + 1));
            i = i + 1;
        }
        assert(deck@ =~= cards@);
        let c0 = deck.pop_front();
        let c1 = deck.pop_front();
        let c2 = deck.pop_front();
        let c3 = deck.pop_front();
        let open = [c0, c1, c2, c3];
        let game_over = cards.len() == 0;
        let r = State {
            played_in_room: 0,
            played: None,
            health: MAX_HEALTH,
            used_heal: false,
            deck,
            open,
            weapon: None,
            killed_with_weapon: Vec::new(),
            can_run: true,
            game_over,
        };
        assert(r@.deck =~= without_first(cards@, 4));
        assert(r@.open =~= room_from(cards@));
        proof { lemma_start_wf(cards@); }
        r
    }

    /// Starts a run on a freshly shuffled deck.
    pub fn new() -> (r: State)
        ensures
            r@ == start_from(occupied(r@.open) + r@.deck),
            (occupied(r@.open) + r@.deck).to_multiset() == population().to_multiset(),
            r@.wf(),
    {
        let cards = random_deck();
        let r = State::from_deck(cards);
        proof { lemma_room_from(cards@); }
        r
    }

    /// Starts a run on a deck shuffled by a generator seeded with `seed`.
    pub fn with_seed(seed: u64) -> (r: State)
        ensures
            r@ == start_from(occupied(r@.open) + r@.deck),
            (occupied(r@.open) + r@.deck).to_multiset() == population().to_multiset(),
            r@.wf(),
    {
        let cards = seeded_deck(seed);
        let r = State::from_deck(cards);
        proof { lemma_room_from(cards@); }
        r
    }
}


/// The card of the last occupied slot of the room.
fn last_card(open: &[Option<Card>; 4]) -> (r: Option<Card>)
    ensures
        r == last_occupied(open@),
{
    let mut r: Option<Card> = None;
    let mut i: usize = 0;
    while i < 4
        invariant
            0 <= i <= 4,
            open@.len() == 4,
            r == last_occupied(open@.take(i as int)),
        decreases 4 - i,
    {
        proof { lemma_occupied_take_step(open@, i as int); }
        match open[i] {
            Some(c) => {
                r = Some(c);
            },
            None => {},
        }
        i = i + 1;
    }
    assert(open@.take(4) =~= open@);
    r
}

/// Whether every slot of the room is empty.
fn room_is_empty(open: &[Option<Card>; 4]) -> (r: bool)
    ensures
        r == forall|i: int| 0 <= i < open@.len() ==> #[trigger] open@[i] is None,
{
    let mut i: usize = 0;
    while i < 4
        invariant
            0 <= i <= 4,
            open@.len() == 4,
            forall|j: int| 0 <= j < i ==> #[trigger] open@[j] is None,
        decreases 4 - i,
    {
        if open[i].is_some() {
            return false;
        }
        i = i + 1;
    }
    true
}

impl State {
    fn fight(&self, card: Card, use_weapon: bool) -> (r: Option<State>)
        requires
            isize::MIN + 14 <= self.health,
        ensures
            card.is_monster() ==> view_of(r) == Some(fight_spec(self@, card, use_weapon)),
            !card.is_monster() ==> r is None,
    {
        if !(card.suit == Suit::Spades || card.suit == Suit::Clubs) {
            return None;
        }
        let n = self.killed_with_weapon.len();
        let can_use_weapon = if n == 0 {
            true
        } else {
            card.rank.value() <= self.killed_with_weapon[n - 1].rank.value()
        };
        let health: isize;
        let mut killed_with_weapon = copy_cards(&self.killed_with_weapon);
        if !use_weapon || self.weapon.is_none() || !can_use_weapon {
            health = self.health - card.rank.value();
        } else {
            let weapon = self.weapon.unwrap();
            let d = card.rank.value() - weapon.rank.value();
            health = self.health - if d > 0 {
                d
            } else {
                0
            };
            killed_with_weapon.push(card);
        }
        Some(
            State {
                played_in_room: self.played_in_room,
                played: Some(card),
                health,
                used_heal: self.used_heal,
                deck: copy_deck(&self.deck),
                open: self.open,
                weapon: self.weapon,
                killed_with_weapon,
                can_run: self.can_run,
                game_over: self.game_over,
            },
        )
    }

    fn heal(&self, card: Card) -> (r: Option<State>)
        requires
            self.health <= MAX_HEALTH,
        ensures
            card.suit is Hearts ==> view_of(r) == Some(heal_spec(self@, card)),
            !(card.suit is Hearts) ==> r is None,
    {
        if !(card.suit == Suit::Hearts) {
            return None;
        }
        let new_health: isize;
        if self.used_heal {
            new_health = self.health;
        } else {
            let h = self.health + card.rank.value();
            new_health = if h < MAX_HEALTH {
                h
            } else {
                MAX_HEALTH
            };
        }
        Some(
            State {
                played_in_room: self.played_in_room,
                played: Some(card),
                health: new_health,
                used_heal: true,
                deck: copy_deck(&self.deck),
                open: self.open,
                weapon: self.weapon,
                killed_with_weapon: copy_cards(&self.killed_with_weapon),
                can_run: self.can_run,
                game_over: self.game_over,
            },
        )
    }

    fn equip_weapon(&self, card: Card) -> (r: Option<State>)
        ensures
            card.suit is Diamonds ==> view_of(r) == Some(equip_spec(self@, card)),
            !(card.suit is Diamonds) ==> r is None,
    {
        if !(card.suit == Suit::Diamonds) {
            return None;
        }
        Some(
            State {
                played_in_room: self.played_in_room,
                played: Some(card),
                health: self.health,
                used_heal: self.used_heal,
                deck: copy_deck(&self.deck),
                open: self.open,
                weapon: Some(card),
                killed_with_weapon: Vec::new(),
                can_run: self.can_run,
                game_over: self.game_over,
            },
        )
    }

    /// Plays the card in room slot `pos`, using the weapon against a monster
    /// if `use_weapon` is set and the weapon may take it. `None` when `pos`
    /// is not a slot or the slot is empty.
    pub fn play(&self, pos: usize, use_weapon: bool) -> (r: Option<State>)
        requires
            self@.wf(),
            isize::MIN + 14 <= self.health,
        ensures
            view_of(r) == play_spec(self@, pos as int, use_weapon),
            r matches Some(t) ==> t@.wf(),
    {
        if pos > 3 {
            return None;
        }
        let card = match self.open[pos] {
            None => {
                return None;
            },
            Some(c) => c,
        };
        let action = match card.suit {
            Suit::Spades => self.fight(card, use_weapon),
            Suit::Hearts => self.heal(card),
            Suit::Diamonds => self.equip_weapon(card),
            Suit::Clubs => self.fight(card, use_weapon),
        };
        let mut new_state = match action {
            None => {
                return None;
            },
            Some(s) => s,
        };
        let ghost resolved = new_state@;
        new_state.open[pos] = None;
        new_state.played_in_room = new_state.played_in_room + 1;
        let ghost cleared = new_state@;
        assert(cleared.open =~= resolved.open.update(pos as int, None));
        if new_state.played_in_room == 3 {
            let carried = last_card(&new_state.open);
            let c1 = new_state.deck.pop_front();
            let c2 = new_state.deck.pop_front();
            let c3 = new_state.deck.pop_front();
            new_state.open = [carried, c1, c2, c3];
            new_state.played_in_room = 0;
            new_state.used_heal = false;
            new_state.can_run = true;
            assert(new_state@.deck =~= without_first(cleared.deck, 3));
            assert(new_state@.open =~= refill_spec(cleared).open);
            assert(new_state@ == refill_spec(cleared));
        } else {
            new_state.can_run = false;
            assert(new_state@ == GameView { can_run: false, ..cleared });
        }
        let ghost moved = new_state@;
        if new_state.health <= 0 || (new_state.deck.len() == 0 && room_is_empty(&new_state.open)) {
            new_state.game_over = true;
        }
        assert(new_state@ == GameView { game_over: moved.game_over || is_finished(moved), ..moved });
        proof {
            lemma_play_wf(self@, pos as int, use_weapon);
        }
        Some(new_state)
    }
}

impl State {
    /// Flees the current room: its cards go, slot by slot, under the deck,
    /// and a new room of up to four cards is drawn. `None` when running is
    /// not allowed.
    pub fn run(&self) -> (r: Option<State>)
        requires
            self@.wf(),
        ensures
            view_of(r) == run_spec(self@),
            r matches Some(t) ==> t@.wf(),
    {
        if !self.can_run {
            return None;
        }
        let mut deck = copy_deck(&self.deck);
        let mut i: usize = 0;
        while i < 4
            invariant
                0 <= i <= 4,
                self.open@.len() == 4,
                deck@ == self.deck@ + occupied(self.open@.take(i as int)),
            decreases 4 - i,
        {
            proof { lemma_occupied_take_step(self.open@, i as int); }
            match self.open[i] {
                None => {},
                Some(c) => {
                    deck.push_back(c);
                },
            }
            i = i + 1;
        }
        assert(self.open@.take(4) =~= self.open@);
        let ghost d = deck@;
        let c0 = deck.pop_front();
        let c1 = deck.pop_front();
        let c2 = deck.pop_front();
        let c3 = deck.pop_front();
        let open = [c0, c1, c2, c3];
        let r = State {
            played_in_room: 0,
            played: None,
            health: self.health,
            used_heal: self.used_heal,
            deck,
            open,
            weapon: self.weapon,
            killed_with_weapon: copy_cards(&self.killed_with_weapon),
            can_run: false,
            game_over: self.game_over,
        };
        assert(r@.deck =~= without_first(d, 4));
        assert(r@.open =~= room_from(d));
        proof { lemma_run_wf(self@); }
        Some(r)
    }

    /// The score of the run, meant for a finished one. A lost run scores its
    /// health less the values of the monsters left in the deck and the room;
    /// a won run scores its health, plus the value of the last card played if
    /// the run ends at full health on a Heart.
    pub fn score(&self) -> (r: isize)
        requires
            self@.wf(),
            isize::MIN <= score_spec(self@),
        ensures
            r == score_spec(self@),
    {
        if self.health <= 0 {
            let ghost g = self@;
            proof {
                lemma_monster_total_nonneg(g.deck);
                lemma_monster_total_nonneg(occupied(g.open));
            }
            let mut acc = self.health;
            let mut i: usize = 0;
            while i < self.deck.len()
                invariant
                    g == self@,
                    g.health <= 0,
                    isize::MIN <= score_spec(g),
                    0 <= i <= g.deck.len(),
                    acc == g.health - monster_total(g.deck.take(i as int)),
                    monster_total(occupied(g.open)) >= 0,
                decreases g.deck.len() - i,
            {
                let c = self.deck[i];
                proof {
                    assert(g.deck.take(i + 1).drop_last() =~= g.deck.take(i as int));
                    lemma_monster_total_prefix(g.deck, i + 1);
                }
                if c.suit == Suit::Spades || c.suit == Suit::Clubs {
                    acc = acc - c.rank.value();
                }
                i = i + 1;
            }
            assert(g.deck.take(g.deck.len() as int) =~= g.deck);
            let mut j: usize = 0;
            let ghost room = occupied(g.open);
            while j < 4
                invariant
                    g == self@,
                    g.open.len() == 4,
                    g.health <= 0,
                    isize::MIN <= score_spec(g),
                    0 <= j <= 4,
                    room == occupied(g.open),
                    acc == g.health - monster_total(g.deck) - monster_total(occupied(g.open.take(j as int))),
                decreases 4 - j,
            {
                proof {
                    lemma_occupied_take_step(g.open, j as int);
                    lemma_occupied_prefix(g.open, j + 1);
                    lemma_monster_total_prefix(room, occupied(g.open.take(j + 1)).len() as int);
                    let t = occupied(g.open.take(j as int));
                    let t1 = occupied(g.open.take(j + 1));
                    assert(t1 == room.take(t1.len() as int));
                    assert(monster_total(t1) <= monster_total(room));
                    if let Some(c) = g.open[j as int] {
                        assert(t1.drop_last() =~= t);
                        assert(monster_total(t1) == monster_total(t) + if c.is_monster() { c.value() } else { 0 });
                    }
                }
                match self.open[j] {
                    Some(c) => {
                        if c.suit == Suit::Spades || c.suit == Suit::Clubs {
                            acc = acc - c.rank.value();
                        }
                    },
                    None => {},
                }
                j = j + 1;
            }
            assert(g.open.take(4) =~= g.open);
            acc
        } else if self.health < MAX_HEALTH {
            self.health
        } else {
            match self.played {
                Some(c) => if c.suit == Suit::Hearts {
                    MAX_HEALTH + c.rank.value()
                } else {
                    MAX_HEALTH
                },
                None => MAX_HEALTH,
            }
        }
    }
}

proof fn lemma_monster_total_nonneg(cards: Seq<Card>)
    ensures
        monster_total(cards) >= 0,
    decreases cards.len(),
{
    if cards.len() > 0 {
        lemma_monster_total_nonneg(cards.drop_last());
    }
}

/// The monsters of a prefix are worth no more than those of the whole.
proof fn lemma_monster_total_prefix(cards: Seq<Card>, n: int)
    requires
        0 <= n <= cards.len(),
    ensures
        monster_total(cards.take(n)) <= monster_total(cards),
    decreases cards.len() - n,
{
    if n < cards.len() {
        lemma_monster_total_prefix(cards, n + 1);
        assert(cards.take(n + 1).drop_last() =~= cards.take(n));
    } else {
        assert(cards.take(n) =~= cards);
    }
}

/// The occupied cards of a prefix of the slots are a prefix of the occupied
/// cards.
proof fn lemma_occupied_prefix(slots: Seq<Option<Card>>, n: int)
    requires
        0 <= n <= slots.len(),
    ensures
        occupied(slots.take(n)).len() <= occupied(slots).len(),
        occupied(slots.take(n)) == occupied(slots).take(occupied(slots.take(n)).len() as int),
    decreases slots.len() - n,
{
    if n < slots.len() {
        lemma_occupied_prefix(slots, n + 1);
        lemma_occupied_take_step(slots, n);
        let a = occupied(slots.take(n));
        let b = occupied(slots.take(n + 1));
        let o = occupied(slots);
        assert(a =~= o.take(a.len() as int));
    } else {
        assert(slots.take(n) =~= slots);
        assert(occupied(slots).take(occupied(slots).len() as int) =~= occupied(slots));
    }
}

/// Running keeps the invariant.
pub proof fn lemma_run_wf(g: GameView)
    requires
        g.wf(),
        run_spec(g) is Some,
    ensures
        run_spec(g)->0.wf(),
{
    let t = run_spec(g)->0;
    let d = g.deck + occupied(g.open);
    lemma_occupied_empty(g.open);
    lemma_occupied_len(t.open);
    if is_finished(t) && t.health > 0 {
        assert(t.open[0] is None);
        assert(d.len() == 0);
        assert(is_finished(g));
    }
}

/// Playing keeps the invariant.
pub proof fn lemma_play_wf(g: GameView, pos: int, use_weapon: bool)
    requires
        g.wf(),
        play_spec(g, pos, use_weapon) is Some,
    ensures
        play_spec(g, pos, use_weapon)->0.wf(),
{
    let c = g.open[pos]->0;
    let k = g.killed_with_weapon;
    let r = resolve_spec(g, c, use_weapon);
    lemma_occupied_clear(g.open, pos);
    lemma_occupied_len(refill_spec(GameView { open: r.open.update(pos, None), ..r }).open);
    if c.is_monster() && use_weapon && g.weapon is Some && weapon_can_take(k, c) {
        let k2 = k.push(c);
        assert forall|i: int, j: int| 0 <= i <= j < k2.len() implies (#[trigger] k2[j]).value()
            <= (#[trigger] k2[i]).value() by {
            if j == k.len() && i < k.len() {
                assert(k[k.len() - 1].value() <= k[i].value());
            }
        }
    }
}

/// Laying out a room from `cards` and keeping the rest as the deck loses and
/// reorders nothing.
pub proof fn lemma_room_from(cards: Seq<Card>)
    ensures
        occupied(room_from(cards)) + without_first(cards, 4) == cards,
{
    reveal_with_fuel(occupied, 5);
    let o = room_from(cards);
    assert(o.drop_last().drop_last().drop_last().drop_last() =~= Seq::<Option<Card>>::empty());
    assert(o.drop_last().drop_last().drop_last() =~= seq![slot(cards, 0)]);
    assert(o.drop_last().drop_last() =~= seq![slot(cards, 0), slot(cards, 1)]);
    assert(o.drop_last() =~= seq![slot(cards, 0), slot(cards, 1), slot(cards, 2)]);
    if cards.len() >= 4 {
        assert(occupied(o) =~= cards.take(4));
    } else {
        assert(occupied(o) =~= cards);
    }
    assert(occupied(o) + without_first(cards, 4) =~= cards);
}

/// A fresh run keeps the invariant.
pub proof fn lemma_start_wf(cards: Seq<Card>)
    ensures
        start_from(cards).wf(),
{
    lemma_occupied_len(start_from(cards).open);
    lemma_room_from(cards);
    if cards.len() > 0 {
        assert(start_from(cards).open[0] is Some);
    }
}

} // verus!
