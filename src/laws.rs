//! Properties of the rules that hold of every state and every run.
use crate::card::Card;
use crate::deck::{in_population, lemma_population, population, DECK_SIZE};
use crate::game::{
    is_finished, last_occupied, lemma_occupied_clear, lemma_play_wf, lemma_room_from,
    lemma_run_wf, lemma_start_wf, occupied, play_spec, refill_spec, resolve_spec, run_spec, slot,
    start_from, weapon_can_take, without_first, GameView, MAX_HEALTH,
};
use vstd::multiset::Multiset;
use vstd::prelude::*;

verus! {

/// A new run holds 44 distinct cards between its room and its deck: every
/// card but the Jacks, Queens, Kings and Aces of Hearts and Diamonds. The room
/// is full and the deck holds the other 40.
pub proof fn lemma_new_game_cards(g: GameView)
    requires
        g == start_from(occupied(g.open) + g.deck),
        (occupied(g.open) + g.deck).to_multiset() == population().to_multiset(),
    ensures
        (occupied(g.open) + g.deck).len() == DECK_SIZE,
        (occupied(g.open) + g.deck).no_duplicates(),
        forall|c: Card| (occupied(g.open) + g.deck).contains(c) <==> in_population(c),
        forall|i: int| 0 <= i < 4 ==> (#[trigger] g.open[i]) is Some,
        g.deck.len() == DECK_SIZE - 4,
{
    broadcast use vstd::seq_lib::group_to_multiset_ensures;

    let all = occupied(g.open) + g.deck;
    lemma_population();
    lemma_room_from(all);
    vstd::seq_lib::to_multiset_len(all);
    vstd::seq_lib::to_multiset_len(population());
    assert(all.len() == DECK_SIZE);
    assert forall|i: int| 0 <= i < 4 implies (#[trigger] g.open[i]) is Some by {
        assert(g.open == start_from(all).open);
    }
    population().lemma_multiset_has_no_duplicates();
    all.lemma_multiset_has_no_duplicates_conv();
    assert forall|c: Card| all.contains(c) <==> in_population(c) by {
        assert(all.to_multiset().count(c) == population().to_multiset().count(c));
    }
}

/// Fighting a monster with an equipped weapon: the weapon slays it, and it
/// joins the weapon's kills, exactly when the weapon has slain nothing yet or
/// its last kill is worth at least as much; the damage is then what the
/// monster exceeds the weapon by. Otherwise the fight is bare-handed: the
/// full value is lost and the weapon and its kills stay as they were.
pub proof fn lemma_weapon_durability(g: GameView, pos: int)
    requires
        g.wf(),
        0 <= pos < 4,
        g.open[pos] is Some,
        g.open[pos]->0.is_monster(),
        g.weapon is Some,
    ensures
        ({
            let m = g.open[pos]->0;
            let w = g.weapon->0;
            let t = play_spec(g, pos, true)->0;
            let k = g.killed_with_weapon;
            &&& play_spec(g, pos, true) is Some
            &&& t.weapon == g.weapon
            &&& (t.killed_with_weapon == k.push(m) <==> (k.len() == 0 || m.value() <= k.last().value()))
            &&& (weapon_can_take(k, m) ==> t.health == g.health - if m.value() > w.value() {
                m.value() - w.value()
            } else {
                0
            })
            &&& (!weapon_can_take(k, m) ==> t.health == g.health - m.value() && t.killed_with_weapon
                == k)
        }),
{
    let m = g.open[pos]->0;
    let k = g.killed_with_weapon;
    if !weapon_can_take(k, m) {
        assert(k.len() != k.push(m).len());
    }
}

/// Two Hearts played in one room: only the first can change health; the
/// second leaves it as it was.
pub proof fn lemma_heal_once_per_room(
    g: GameView,
    first: int,
    second: int,
    w1: bool,
    w2: bool,
)
    requires
        g.wf(),
        play_spec(g, first, w1) is Some,
        g.open[first]->0.suit is Hearts,
        play_spec(g, first, w1)->0.played_in_room != 0,
        play_spec(play_spec(g, first, w1)->0, second, w2) is Some,
        play_spec(g, first, w1)->0.open[second]->0.suit is Hearts,
    ensures
        ({
            let s1 = play_spec(g, first, w1)->0;
            let s2 = play_spec(s1, second, w2)->0;
            let h = g.health + g.open[first]->0.value();
            &&& s1.health == if g.used_heal {
                g.health
            } else if h < MAX_HEALTH {
                h
            } else {
                MAX_HEALTH as int
            }
            &&& s2.health == s1.health
        }),
{
}

/// Running twice in a row is refused the second time.
pub proof fn lemma_no_second_run(g: GameView)
    requires
        run_spec(g) is Some,
    ensures
        run_spec(run_spec(g)->0) is None,
{
}

/// The run is over exactly when health has fallen to zero or below, or when
/// deck and room are both empty, now or at some earlier state; once over it
/// stays over.
pub proof fn lemma_game_over(g: GameView, pos: int, use_weapon: bool)
    requires
        g.wf(),
    ensures
        play_spec(g, pos, use_weapon) matches Some(t) ==> (t.game_over <==> (g.game_over
            || is_finished(t))),
        run_spec(g) matches Some(t) ==> (t.game_over <==> (g.game_over || is_finished(t))),
        g.game_over ==> (play_spec(g, pos, use_weapon) matches Some(t) ==> t.game_over),
        g.game_over ==> (run_spec(g) matches Some(t) ==> t.game_over),
{
    if run_spec(g) is Some {
        lemma_run_wf(g);
    }
}

/// The cards of an optional card.
pub open spec fn option_cards(o: Option<Card>) -> Seq<Card> {
    match o {
        Some(c) => seq![c],
        None => Seq::empty(),
    }
}

/// The cards still in the game: deck, room, weapon and the weapon's kills.
pub open spec fn cards_in_play(g: GameView) -> Multiset<Card> {
    g.deck.to_multiset().add(occupied(g.open).to_multiset()).add(
        option_cards(g.weapon).to_multiset(),
    ).add(g.killed_with_weapon.to_multiset())
}

/// The cards that playing slot `pos` puts out of the game for good: a
/// monster not slain by the weapon, a Heart, or, when a Diamond is equipped,
/// the former weapon and its kills.
pub open spec fn discarded_by_play(g: GameView, pos: int, use_weapon: bool) -> Multiset<Card> {
    let c = g.open[pos]->0;
    if c.suit is Diamonds {
        option_cards(g.weapon).to_multiset().add(g.killed_with_weapon.to_multiset())
    } else if c.is_monster() && use_weapon && g.weapon is Some && weapon_can_take(
        g.killed_with_weapon,
        c,
    ) {
        Multiset::empty()
    } else {
        Multiset::singleton(c)
    }
}

/// A refill with at most one card left in the room moves cards from the deck
/// into the room and loses none.
proof fn lemma_refill_cards(h: GameView)
    requires
        h.open.len() == 4,
        occupied(h.open).len() <= 1,
    ensures
        occupied(refill_spec(h).open) + refill_spec(h).deck == occupied(h.open) + h.deck,
{
    reveal_with_fuel(occupied, 5);
    let o = refill_spec(h).open;
    let a = last_occupied(h.open);
    assert(occupied(h.open) =~= option_cards(a));
    let d = option_cards(a) + h.deck;
    assert(o.drop_last().drop_last().drop_last().drop_last() =~= Seq::<Option<Card>>::empty());
    assert(o.drop_last().drop_last().drop_last() =~= seq![a]);
    assert(o.drop_last().drop_last() =~= seq![a, slot(h.deck, 0)]);
    assert(o.drop_last() =~= seq![a, slot(h.deck, 0), slot(h.deck, 1)]);
    if h.deck.len() >= 3 {
        assert(occupied(o) =~= option_cards(a) + h.deck.take(3));
    } else {
        assert(occupied(o) =~= option_cards(a) + h.deck);
    }
    assert(occupied(o) + without_first(h.deck, 3) =~= d);
}

/// The effect of a card on its own: the card counts once more among the cards
/// in play, wherever it went, less what is discarded.
proof fn lemma_resolve_cards(g: GameView, pos: int, use_weapon: bool)
    requires
        0 <= pos < g.open.len(),
        g.open[pos] is Some,
    ensures
        ({
            let c = g.open[pos]->0;
            cards_in_play(resolve_spec(g, c, use_weapon)).add(discarded_by_play(g, pos, use_weapon))
                == cards_in_play(g).insert(c)
        }),
{
    broadcast use vstd::seq_lib::group_to_multiset_ensures;
    broadcast use vstd::multiset::group_multiset_axioms;

    let c = g.open[pos]->0;
    let r = resolve_spec(g, c, use_weapon);
    let x = discarded_by_play(g, pos, use_weapon);
    if c.suit is Diamonds {
        assert(option_cards(Some(c)).to_multiset() =~= Multiset::empty().insert(c));
        assert(Seq::<Card>::empty().to_multiset() =~= Multiset::<Card>::empty());
    } else if x =~= Multiset::empty() {
        assert(g.killed_with_weapon.push(c).to_multiset() =~= g.killed_with_weapon.to_multiset().insert(c));
    }
    assert(cards_in_play(r).add(x) =~= cards_in_play(g).insert(c));
}

/// Clearing an occupied slot takes its card out of the cards in play.
proof fn lemma_clear_cards(r: GameView, pos: int)
    requires
        0 <= pos < r.open.len(),
        r.open[pos] is Some,
    ensures
        cards_in_play(GameView { open: r.open.update(pos, None), ..r }).insert(r.open[pos]->0)
            == cards_in_play(r),
{
    broadcast use vstd::multiset::group_multiset_axioms;

    let c = r.open[pos]->0;
    let oc = occupied(r.open).to_multiset();
    lemma_occupied_clear(r.open, pos);
    assert(oc.count(c) >= 1) by {
        if oc.count(c) == 0 {
            assert(oc.remove(c) =~= oc);
            vstd::seq_lib::to_multiset_len(occupied(r.open));
            vstd::seq_lib::to_multiset_len(occupied(r.open.update(pos, None)));
        }
    }
    assert(oc.remove(c).insert(c) =~= oc);
    assert(cards_in_play(GameView { open: r.open.update(pos, None), ..r }).insert(c)
        =~= cards_in_play(r));
}

/// A refill with at most one card left in the room keeps the cards in play.
proof fn lemma_refill_keeps_cards(h: GameView)
    requires
        h.open.len() == 4,
        occupied(h.open).len() <= 1,
    ensures
        cards_in_play(refill_spec(h)) == cards_in_play(h),
{
    broadcast use vstd::multiset::group_multiset_axioms;

    let n = refill_spec(h);
    lemma_refill_cards(h);
    vstd::seq_lib::lemma_multiset_commutative(occupied(n.open), n.deck);
    vstd::seq_lib::lemma_multiset_commutative(occupied(h.open), h.deck);
    assert forall|y: Card| cards_in_play(n).count(y) == cards_in_play(h).count(y) by {
        assert((occupied(n.open) + n.deck).to_multiset().count(y) == (occupied(h.open)
            + h.deck).to_multiset().count(y));
    }
    assert(cards_in_play(n) =~= cards_in_play(h));
}

/// Playing a card puts the discarded cards out of the game and moves the
/// others, without losing or inventing any.
pub proof fn lemma_play_conserves(g: GameView, pos: int, use_weapon: bool)
    requires
        g.wf(),
        play_spec(g, pos, use_weapon) is Some,
    ensures
        cards_in_play(play_spec(g, pos, use_weapon)->0).add(discarded_by_play(g, pos, use_weapon))
            == cards_in_play(g),
{
    let c = g.open[pos]->0;
    let r = resolve_spec(g, c, use_weapon);
    let x = discarded_by_play(g, pos, use_weapon);
    lemma_resolve_cards(g, pos, use_weapon);
    lemma_clear_cards(r, pos);
    let cleared = GameView {
        open: r.open.update(pos, None),
        played_in_room: r.played_in_room + 1,
        ..r
    };
    assert(cards_in_play(cleared) == cards_in_play(GameView { open: r.open.update(pos, None), ..r }));
    lemma_occupied_clear(g.open, pos);
    let t = play_spec(g, pos, use_weapon)->0;
    if cleared.played_in_room == 3 {
        lemma_refill_keeps_cards(cleared);
    }
    assert(cards_in_play(t) == cards_in_play(cleared));
    let a = cards_in_play(t).add(x);
    let b = cards_in_play(g);
    assert(a =~= b) by {
        broadcast use vstd::multiset::group_multiset_axioms;

        assert forall|y: Card| a.count(y) == b.count(y) by {
            assert(cards_in_play(cleared).insert(c).add(x).count(y) == b.insert(c).count(y));
        }
    }
}

/// Running moves the room's cards under the deck and draws a new room,
/// without losing or inventing any card.
pub proof fn lemma_run_conserves(g: GameView)
    requires
        run_spec(g) is Some,
    ensures
        cards_in_play(run_spec(g)->0) == cards_in_play(g),
{
    broadcast use vstd::multiset::group_multiset_axioms;

    let t = run_spec(g)->0;
    let d = g.deck + occupied(g.open);
    lemma_room_from(d);
    vstd::seq_lib::lemma_multiset_commutative(occupied(t.open), t.deck);
    vstd::seq_lib::lemma_multiset_commutative(g.deck, occupied(g.open));
    assert(cards_in_play(t) =~= cards_in_play(g));
}

/// A player's action.
pub enum Move {
    Play { pos: int, use_weapon: bool },
    Run,
}

/// The state after `m`; a refused action leaves the state as it was.
pub open spec fn step(g: GameView, m: Move) -> GameView {
    match m {
        Move::Play { pos, use_weapon } => match play_spec(g, pos, use_weapon) {
            Some(t) => t,
            None => g,
        },
        Move::Run => match run_spec(g) {
            Some(t) => t,
            None => g,
        },
    }
}

/// The state after the actions `moves`, one after the other.
pub open spec fn replay(g: GameView, moves: Seq<Move>) -> GameView
    decreases moves.len(),
{
    if moves.len() == 0 {
        g
    } else {
        step(replay(g, moves.drop_last()), moves.last())
    }
}

/// The cards that `m` puts out of the game.
pub open spec fn discarded_by(g: GameView, m: Move) -> Multiset<Card> {
    match m {
        Move::Play { pos, use_weapon } => if play_spec(g, pos, use_weapon) is Some {
            discarded_by_play(g, pos, use_weapon)
        } else {
            Multiset::empty()
        },
        Move::Run => Multiset::empty(),
    }
}

/// The cards put out of the game along `moves`.
pub open spec fn discarded_along(g: GameView, moves: Seq<Move>) -> Multiset<Card>
    decreases moves.len(),
{
    if moves.len() == 0 {
        Multiset::empty()
    } else {
        discarded_along(g, moves.drop_last()).add(
            discarded_by(replay(g, moves.drop_last()), moves.last()),
        )
    }
}

/// At every step of a run, the cards in play and those discarded so far make
/// up the 44-card population, no card lost or duplicated; the invariant of
/// the state holds at every step too.
pub proof fn lemma_cards_conserved(cards: Seq<Card>, moves: Seq<Move>)
    requires
        cards.to_multiset() == population().to_multiset(),
    ensures
        replay(start_from(cards), moves).wf(),
        cards_in_play(replay(start_from(cards), moves)).add(discarded_along(start_from(cards), moves))
            == population().to_multiset(),
    decreases moves.len(),
{
    broadcast use vstd::multiset::group_multiset_axioms;

    let g0 = start_from(cards);
    if moves.len() == 0 {
        lemma_start_wf(cards);
        lemma_room_from(cards);
        vstd::seq_lib::lemma_multiset_commutative(occupied(g0.open), g0.deck);
        assert(option_cards(None).to_multiset() =~= Multiset::<Card>::empty()) by {
            broadcast use vstd::seq_lib::group_to_multiset_ensures;
        }
        assert(Seq::<Card>::empty().to_multiset() =~= Multiset::<Card>::empty()) by {
            broadcast use vstd::seq_lib::group_to_multiset_ensures;
        }
        assert forall|y: Card| #[trigger] cards_in_play(g0).count(y) == cards.to_multiset().count(y) by {
            assert((occupied(g0.open) + g0.deck).to_multiset().count(y) == cards.to_multiset().count(y));
        }
        assert(cards_in_play(g0).add(Multiset::empty()) =~= population().to_multiset());
    } else {
        let prev = moves.drop_last();
        lemma_cards_conserved(cards, prev);
        let h = replay(g0, prev);
        let m = moves.last();
        let gone = discarded_along(g0, prev);
        match m {
            Move::Play { pos, use_weapon } => {
                if play_spec(h, pos, use_weapon) is Some {
                    lemma_play_wf(h, pos, use_weapon);
                    lemma_play_conserves(h, pos, use_weapon);
                    let x = discarded_by_play(h, pos, use_weapon);
                    let t = play_spec(h, pos, use_weapon)->0;
                    assert(cards_in_play(t).add(gone.add(x)) =~= cards_in_play(t).add(x).add(gone));
                } else {
                    assert(gone.add(Multiset::empty()) =~= gone);
                }
            },
            Move::Run => {
                if run_spec(h) is Some {
                    lemma_run_wf(h);
                    lemma_run_conserves(h);
                }
                assert(gone.add(Multiset::empty()) =~= gone);
            },
        }
    }
}

/// Replaying the same actions from the same state reaches the same state:
/// every transition is a function of the state and the action alone.
pub proof fn lemma_replay_deterministic(a: GameView, b: GameView, moves: Seq<Move>)
    requires
        a == b,
    ensures
        replay(a, moves) == replay(b, moves),
        discarded_along(a, moves) == discarded_along(b, moves),
{
}

} // verus!
