//! The core of a card-game simulator: the card corpus and its lookups, deck
//! lists and deck codes, the scripted policy's decisions, and the bookkeeping
//! of batch runs.

use vstd::prelude::*;

pub mod agent;
pub mod arena;
pub mod batch;
pub mod cards;
pub mod deck;
pub mod deckstring;
pub mod order;
pub mod state;
pub mod text;

verus! {

} // verus!
