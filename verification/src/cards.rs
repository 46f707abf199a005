//! The card database: one immutable table, shared by every thread.
//!
//! A card is a [`CardId`] — a 16-bit index — everywhere in the engine. Nothing
//! in the live game state holds a card's stats, name or text; it holds the
//! index and looks through it. That is what keeps a game state small enough to
//! copy, and it is why a batch run needs one copy of the corpus for the whole
//! process instead of one per worker.
//!
//! The tables themselves are data that a [`Corpus`] is made of, checked once
//! when it is made: every lookup after that rests on the check.

use vstd::prelude::*;

pub use approximate::{is_approximate, APPROXIMATE, APPROXIMATE_NOTES};
pub use behaviour::{
    acts_when_drawn, awakened_by_dragon, behaviour_of, combines, discover_pool, doubles_summons,
    drawn_acts_for_opponent, gift_card, gift_keywords, gift_stats, hooks, is_aura, is_implemented,
    is_leyline, lets_attacks_ignore_taunt, rattles_from_hand_or_deck, reborn_keeps_enchantments,
    recombines, shatters_into, upgrades_while_held, windrunner_bit, windrunner_sisters,
};
pub use corpus::{Corpus, Flaw, Tables, HAS_AURA, HAS_BONUS, HAS_TRIGGER};
pub use effects::{apply_game_setup, pirate_damage_bonus};
pub use hooks::{Aura, Behaviour, Bonus, TargetSpec};
pub use lists::{DARK_GIFTS, GRANTED_RATTLES};
pub use lookup::{all, by_dbf, by_id, by_name, token};
pub use rows::behaviours;
pub use target::Ctx;
pub use types::{
    from_the_past, CardDef, CardId, CardInfo, Class, Formats, Keywords, Kind, Races, Rarity, School,
    PLAYABLE_CLASSES,
};

pub mod approximate;
pub mod behaviour;
pub mod corpus;
pub mod effects;
pub mod hooks;
pub mod laws;
pub mod lists;
pub mod lookup;
pub mod row_data;
pub mod rows;
pub mod target;
pub mod types;

verus! {

} // verus!
