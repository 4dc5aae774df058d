//! Rule engine of a single-player dungeon-crawl card solitaire.
//!
//! A 44-card deck is explored four cards at a time. The player fights
//! monsters, heals, equips weapons with a durability rule, may flee a room,
//! and the run ends with a score.
use vstd::prelude::*;

pub mod card;
pub mod deck;
pub mod game;
pub mod laws;

verus! {

} // verus!
