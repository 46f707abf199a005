//! Cards the engine knows by identity.
//!
//! A dozen lists name a handful of cards each: the ones whose printed rule
//! has no hook to hang a behaviour on, and which the engine therefore reads
//! by identity. Each names every printing it means by its string id.

use vstd::prelude::*;

verus! {

/// The Aura cycle, as cards.
///
/// Gelbin of Tomorrow asks the deck for "one of each Aura", which is a
/// question about card identity rather than about anything queued, so it
/// needs its own list.
pub const AURAS: [&'static str; 5] = ["TIME_700", "CATA_480", "TIME_009t1", "TIME_009t2", "END_011"];

/// The ten Dark Gifts, in the order the corpus lists them.
///
/// A Dark Gift card names its own pool, and every Dark Gift card names the
/// same ten: Waking Terror, Well Rested, Short Claws, Bundled Up, Living
/// Nightmare, Sleepwalker, Rude Awakening, Sweet Dreams, Persisting Horror
/// and Harpy's Talons.
pub const DARK_GIFTS: [&'static str; 10] = [
    "EDR_100t",
    "EDR_100t1",
    "EDR_100t2",
    "EDR_100t3",
    "EDR_100t5",
    "EDR_100t6",
    "EDR_100t7",
    "EDR_100t8",
    "EDR_100t9",
    "EDR_100t13",
];

/// Cards that act on the way out of the deck instead of reaching hand.
///
/// "Casts When Drawn" on a spell and "Summoned When Drawn" on a minion. Which
/// one applies follows from the card's own kind, so one list covers both.
pub const DRAWN_ACTORS: [&'static str; 9] = [
    "EDR_445pt3",
    "SW_439t",
    "TIME_025t",
    "JAIL_386t",
    "JAIL_881t",
    "JAIL_879t",
    "TLC_513t2",
    "EDR_260t",
    "127024-imp-formant",
];

/// Cards that, drawn, are summoned for the drawer's *opponent*: an
/// Imp-formant is put into the enemy's deck and pays out to the player who
/// planted it.
pub const DRAWN_FOR_OPPONENT: [&'static str; 1] = ["127024-imp-formant"];

/// "While in hand, play a Dragon to become an X/X Dragon": the base forms.
pub const AWAKENS: [&'static str; 3] = ["CATA_551", "CATA_552", "CATA_553"];

/// What each of [`AWAKENS`] becomes.
pub const AWAKENED: [&'static str; 3] = ["CATA_551t", "CATA_552t", "CATA_553t"];

/// Shatter: "Splits into two halves that recombine when adjacent in hand."
/// The parents: Supply Run, Schism and Flight Maneuvers.
pub const SHATTERS: [&'static str; 3] = ["CATA_820", "CATA_306", "CATA_479"];

/// The half of each of [`SHATTERS`] that goes to the left of the hand.
pub const LEFT_HALVES: [&'static str; 3] = ["CATA_820t", "CATA_306t1", "CATA_479t"];

/// The half of each of [`SHATTERS`] that goes to the right of the hand.
pub const RIGHT_HALVES: [&'static str; 3] = ["CATA_820t2", "CATA_306t2", "CATA_479t2"];

/// Halves that combine wherever they are in hand, not only side by side.
///
/// Sol'etos is not a Shatter card: its two halves are separate Quest rewards
/// paid out turns apart, and its text asks only "if you're holding both
/// halves".
pub const FIRST_PARTS: [&'static str; 1] = ["TLC_817t3"];

/// The other half of each of [`FIRST_PARTS`].
pub const SECOND_PARTS: [&'static str; 1] = ["TLC_817t4"];

/// What each pair of [`FIRST_PARTS`] and [`SECOND_PARTS`] combines into.
pub const WHOLES: [&'static str; 1] = ["TLC_817t5"];

/// Cards whose Reborn copy keeps what the body was carrying (Sinful Steed).
pub const REBORN_KEEPS_ALL: [&'static str; 1] = ["127060-sinful-steed"];

/// Cards whose Deathrattle also fires when they are lost from hand or deck.
pub const RATTLES_ANYWHERE: [&'static str; 1] = ["JAIL_398"];

/// Khadgar, in every printing that is a 2-Cost minion.
pub const KHADGARS: [&'static str; 2] = ["CORE_DAL_575", "DAL_575"];

/// The three Leylines: Nexus, Bursting and Crystallized.
pub const LEYLINES: [&'static str; 3] = ["MEND_504", "MEND_500", "MEND_502"];

/// Cards that get better the longer they are held and are discarded once the
/// count runs out.
pub const UPGRADES_WHILE_HELD: [&'static str; 1] = ["FIR_911"];

/// Cards whose whole rules text is a standing rule the engine reads for
/// itself: Quel'dorei Fletcher, Niri of the Crater and Khadgar.
pub const RULES_IN_THE_ENGINE: [&'static str; 3] = ["TIME_606", "TLC_836", "CORE_DAL_575"];

/// The three Windrunner sisters, in the order a player's record of them holds
/// them: Sylvanas, Alleria and Vereesa.
pub const WINDRUNNERS: [&'static str; 3] = ["TIME_609", "TIME_609t1", "TIME_609t2"];

/// Minions whose controller's attacks ignore Taunt while they are in play.
pub const IGNORES_TAUNT: [&'static str; 2] = ["BT_187", "CORE_BT_187"];

/// Godfather Kazakus's nine sham-trial effects, the whole menu, in the order
/// the corpus lists them as his children.
pub const SHAM_TRIAL: [&'static str; 9] = [
    "132837-detained-for-destruction",
    "132849-convicted-for-conspiracy",
    "132843-sentenced-for-smuggling",
    "132838-crate-of-contraband",
    "132844-spurious-shiv",
    "132850-criminal-contract",
    "132851-potion-of-perjury",
    "132856-swill-of-suggestibility",
    "132848-tonic-of-tyranny",
];

/// Lady Azshara's two Locations and the empowered form of each: the Well of
/// Eternity first, Zin-Azshari after it.
pub const AZSHARA: [&'static str; 4] = ["TIME_211t1", "TIME_211t1t", "TIME_211t2", "TIME_211t2t"];

/// Deathwing's Cataclysms that are weighed by the position: Dragons' Reign,
/// Topple and Raze.
pub const CATACLYSMS: [&'static str; 3] = ["CATA_190t10", "CATA_190t11", "CATA_190t12"];

/// Cards asked about while they are in play or in the Hero Power slot, one
/// for each question: Morchie, Sinestra, Niri, Fletcher, Naralex, Atiesh,
/// Mug's Magic and Zee's Might.
pub const CONTROLLED: [&'static str; 8] = [
    "END_036",
    "CATA_154",
    "TLC_836",
    "TIME_606",
    "EDR_844",
    "TIME_890t",
    "JAIL_800hp1",
    "JAIL_800hp2",
];

/// Cards whose `deathrattle` slot holds a rattle they *grant* to something
/// else rather than one they have themselves, by name.
pub const GRANTED_RATTLES: [&'static str; 9] = [
    "Spikeridged Steed",
    "Talanji's Last Stand",
    "Ulfar",
    "Living Spores",
    "Dig for Freedom",
    "Threshrider's Blessing",
    "Lo'Gosh's Last Stand",
    "Amphibian's Spirit",
    "Sheep Mask",
];

} // verus!
