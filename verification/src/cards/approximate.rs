//! Cards implemented only in part, with what is missing.
//!
//! Entries are **conservative by default**: the card is weaker than it should
//! be, never stronger, so a deck holding one is underrated rather than
//! overrated. Where that is not achievable the note says so in as many words,
//! because an entry that reads stronger than the card inflates a deck's rating
//! and must be impossible to mistake for the safe kind.
//!
//! They are listed rather than silently counted as complete, because a
//! coverage figure that mixes exact and approximate cards is worse than a
//! smaller honest one.

use vstd::prelude::*;

use super::corpus::Corpus;
use super::types::CardId;
use crate::text::str_eq;

verus! {

/// The names of the cards implemented only in part.
pub const APPROXIMATE: [&'static str; 35] = [
    "Khadgar",
    "Welcome Home!",
    "Q'onzu",
    "Past Gnomeregan",
    "Manifested Timeways",
    "Void Soul",
    "Hive Map",
    "Cultist Map",
    "Ruby Sanctum",
    "Slime 'em!",
    "Deathwing, Worldbreaker",
    "Storm the Gates",
    "Archmage Kalec",
    "Felwood Treant",
    "Falric",
    "Soldier of Al'Akir",
    "Cursed Catacombs",
    "Darkrider",
    "Shadowflame Suffusion",
    "Torch",
    "Elise the Navigator",
    "Bashana Runetotem",
    "Toreth the Unbreaking",
    "Tiny Pal",
    "Nightmare Fuel",
    "Godfather Kazakus",
    "Nespirah, Enthralled",
    "Godfrey the Betrayer",
    "Mirrex, the Crystalline",
    "Wickerfang",
    "Al'Akir, Lord of Storms",
    "Sinestra",
    "Atiesh the Greatstaff",
    "Commander Beatrix",
    "Devouring Plague",
];

/// What is missing of each of [`APPROXIMATE`].
pub const APPROXIMATE_NOTES: [&'static str; 35] = [
    "\"Your cards that summon minions summon twice as many\" reaches the summons that are written as a count -- `summon_token`, `summon_child`, `summon_random_of_cost` -- and not the ones a card writes as its own loop or as a single `summon`. Doubling every `summon` instead would double resurrects, Reborn and board-copies as well, which the card does not say; so this misses summons rather than inventing them, and reads weaker",
    "\"Reopen a location\" clears the once-per-turn lock and nothing else. The wiki says only that Reopen \"refreshes a location that has used its ability, allowing it to be used again\", and neither it nor the corpus says whether durability comes back or by how much -- so the Location gets its use back and keeps whatever durability it had left, which is the reading that cannot overrate the card",
    "the Discovered spell is always kept; \"or put it on top of your opponent's deck\" is never the mode chosen. Picking between them needs a judgement about a card in *their* deck, which nothing here can weigh -- so the engine takes the half that is always available, and the card loses its use as a way to bury a spell it does not want",
    "\"Advance to the present!\" happens on each use and the durability that is left goes with it, so the three ages are three uses of one Location rather than three each. Neither the corpus nor the wiki says when the advance happens or what it does to durability; this is the reading that cannot overrate the card",
    "\"If you control an Aura\" sees the four Auras of this cycle but not Acceleration Aura, which queues a plain temporary crystal that a second card queues too -- so there is nothing on the queued entry to tell them apart. Gelbin of Tomorrow does find it in a deck, since that is a question about the card and not about what it queued",
    "only the summon is implemented, and the 1-Cost it summons is the wiki's number rather than the corpus's -- the corpus text arrives template-stripped as \"a random -Cost Demon\". \"Improve your future Void Souls\" is not implemented at all: no source states what one improvement changes, and a step invented here would be a number this engine made up",
    "only the Discover is implemented; \"if you play it this turn, also pick one of the others\" needs the card to know it was the one just played, which no card in hand carries -- the same half Cultist Map is missing",
    "only the Discover from the deck is implemented; \"if you play it this turn, also pick one of the others\" needs per-card state the engine does not have. Listed here late: the card has been implemented at half strength since the Discover batch, and was missing from this list rather than from the engine",
    "whose Healing effect it is is read as whose turn it is, since a heal reaches the engine with no caster attached -- so an opposing trigger that heals during your own turn spends the charge early; and the charge catches only a heal that goes through `Game::heal`, so \"Restore a minion to full Health\" is not turned round at all and a split heal loses one point of its total rather than all of it",
    "the slimed bodies are named by their slice of the graveyard rather than copied out, so a wipe whose deaths run past the graveyard's thirty-two slots resummons only what fitted, and a second Slime 'em! cast before the first Ectoplasm was spent overwrites the slice the unspent one was holding",
    "the Cataclysms are picked by a crude board heuristic rather than by the player -- the same limit Discover has, since an effect is resolved without reaching a policy",
    "the reward is a fixed old 1/1 Zombeast token rather than a custom          minion crafted from two chosen deck cards, which the engine has no          way to build",
    "\"all spells in your hand and deck\" needs per-card Spell Damage, which neither a card in hand nor a card in the deck carries -- they hold stats and a cost, and a spell's damage bonus is neither; implemented as Spell Damage on the hero, which also boosts spells acquired after it lands -- the one entry here that can read stronger than the card, not weaker",
    "the permanent-crystal upgrade needs \"mana spent while holding this\",          which the engine does not track; only the temporary crystal is          implemented",
    "the corpse-doubling clause needs a per-player multiplier the engine          does not have; only the draw is implemented",
    "its aura scales with the Herald count, which the aura signature          cannot read; fixed at the Herald-1 value",
    "\"Make it Temporary\" (burns unused at end of turn) needs per-card          state the engine does not have; the Discover alone reads stronger,          not weaker -- the second entry here that can, after Archmage Kalec",
    "the Discover comes with no Dark Gift (G11); a plain Dragon is          discovered instead",
    "the Discover comes with no Dark Gift (G11); a plain Warrior minion is          discovered instead",
    "does not return to hand with excess damage; that needs a per-copy          variable-damage field the engine does not have",
    "crafting a custom location from the deck's cost curve needs a location-generation system the engine does not have; plays as a vanilla 3/5",
    "\"Carve 12 Mana worth of Nature spells into them\" needs per-token stat state the engine does not have; only the three bare 2/2 Treants are summoned",
    "the aura giving friendly Divine Shields three hits before breaking needs a hit counter the engine's Divine Shield flag does not have; Divine Shield behaves normally (one hit) instead",
    "the four choosable, cycling ammunition effects are approximated as one fixed effect -- 1 damage to all enemies after each hero attack -- with no freeze, summon or discount option",
    "the Combo bonus (the discovered minion arrives with a Dark Gift, G11) is not implemented; the base Discover always fires without it",
    "the trial is always the Unending one -- two effects, resolving in four of your turns. The corpus prices the three lengths at 7, 4 and 0 Mana (Rushed, Grueling, Unending) and gives a number of turns for only two of them: \"in 4 turns\" and \"at the start of your next turn\". Rushed carries no text at all, so how soon it lands is a number this does not have. Taking the cheapest and slowest is the weaker of the two readings and the only one that needs no invented number; the engine also has nowhere to put a card whose cost and effects were chosen at play time, so the trial resolves on its own rather than arriving in hand to be paid for -- which is why the length that costs nothing is the honest one to take",
    "the corpus text for \"Deal 1 damage\" carries no target qualifier; narrowed to enemies only as the conservative default rather than guessing it can hit friendly characters too",
    "\"when you have space\" is checked once per own turn (begin_turn) rather than the instant a card leaves hand, so a return can lag by up to a turn; the queue of waiting cards is also capped at 10",
    "plays as its own plain 3/4 Beast/Elemental; \"is a copy of the last enemy minion played\" while in hand is not implemented -- whether that copies the minion's abilities or only its name is not resolvable from the corpus text alone",
    "\"after one of Wickerfang's Legs gains stats, this gains them too\" is not implemented; the main body stays at its own printed 0/5 while the four Legs still grow on their own",
    "the two Charged Hands play as plain vanilla bodies; \"Adjacent minions have +{0} Attack\" is template-stripped at every Herald tier, with no floor value to fall back on",
    "each Wing's own Discover fires at full price; \"It costs ({0}) less\" is template-stripped at every Herald tier, with no floor value to fall back on",
    "\"Costs (0) if you control Medivh\" is unreachable -- Medivh is a Hero card, and Hero cards are not implemented -- so this always costs its printed 10; and only the damage half of the spell-doubling is implemented, not the healing half, since this engine's heal/heal_hero have no spell-specific wrapper the way spell_damage does for combat damage",
    "\"Ten copies join your deck\" is a deck-construction-time effect, outside this engine's scope -- plays with only its printed Taunt and whatever thirty cards it was actually given",
    "the Lifesteal heal is always the full 4, which can overheal if the random split ran out of live enemy minions before all 4 points landed -- the one entry here besides Archmage Kalec and Cursed Catacombs that can read stronger than the card, not weaker",
];

/// Whether a string stands in a list.
pub open spec fn holds_str(list: Seq<&'static str>, s: Seq<char>) -> bool {
    exists|i: int| 0 <= i < list.len() && (#[trigger] list[i])@ == s
}

/// Whether a string stands in a list.
pub fn contains_str(list: &[&'static str], s: &str) -> (r: bool)
    ensures
        r == holds_str(list@, s@),
{
    let mut i: usize = 0;
    while i < list.len()
        invariant
            i <= list@.len(),
            forall|k: int| 0 <= k < i ==> (#[trigger] list@[k])@ != s@,
        decreases list.len() - i,
    {
        if str_eq(list[i], s) {
            return true;
        }
        i += 1;
    }
    false
}

/// Whether a card is implemented only approximately.
pub fn is_approximate(c: &Corpus, card: CardId) -> (r: bool)
    requires
        c.wf(),
        c.has(card),
    ensures
        r == holds_str(APPROXIMATE@, c.name_of(card)),
{
    contains_str(&APPROXIMATE, card.name(c))
}

} // verus!
