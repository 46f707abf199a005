//! What the numbers of the card table mean.

use vstd::prelude::*;

use super::{
    CardDef, Class, Formats, Keywords, Kind, Races, Rarity, School, PLAYABLE_CLASSES,
};

verus! {

/// A card is of the kind that its number in the table names.
pub proof fn lemma_kinds(d: CardDef)
    ensures
        d.kind_of() == Kind::Minion <==> d.kind == 0,
        d.kind_of() == Kind::Spell <==> d.kind == 1,
        d.kind_of() == Kind::Weapon <==> d.kind == 2,
        d.kind_of() == Kind::Location <==> d.kind == 3,
        d.kind_of() == Kind::Hero <==> d.kind == 4,
        d.kind_of() == Kind::HeroPower <==> d.kind >= 5,
{
}

/// A card is of the class that its number names: the playable ones in the
/// order of their list, Neutral before them, and the two that are no player's
/// behind them.
pub proof fn lemma_classes(d: CardDef)
    ensures
        d.class_of() == Class::Neutral <==> d.class == 0,
        1 <= d.class <= 11 ==> d.class_of() == PLAYABLE_CLASSES@[d.class - 1],
        d.class_of() == Class::DeathKnight <==> d.class == 1,
        d.class_of() == Class::DemonHunter <==> d.class == 2,
        d.class_of() == Class::Druid <==> d.class == 3,
        d.class_of() == Class::Hunter <==> d.class == 4,
        d.class_of() == Class::Mage <==> d.class == 5,
        d.class_of() == Class::Paladin <==> d.class == 6,
        d.class_of() == Class::Priest <==> d.class == 7,
        d.class_of() == Class::Rogue <==> d.class == 8,
        d.class_of() == Class::Shaman <==> d.class == 9,
        d.class_of() == Class::Warlock <==> d.class == 10,
        d.class_of() == Class::Warrior <==> d.class == 11,
        d.class_of() == Class::Dream <==> d.class == 12,
        d.class_of() == Class::Whizbang <==> d.class >= 13,
{
}

/// A card is as rare as its number says.
pub proof fn lemma_rarities(d: CardDef)
    ensures
        d.rarity_of() == Rarity::Free <==> d.rarity == 1,
        d.rarity_of() == Rarity::Common <==> d.rarity == 2,
        d.rarity_of() == Rarity::Rare <==> d.rarity == 3,
        d.rarity_of() == Rarity::Epic <==> d.rarity == 4,
        d.rarity_of() == Rarity::Legendary <==> d.rarity == 5,
        d.rarity_of() == Rarity::Unrated <==> d.rarity == 0 || d.rarity > 5,
{
}

/// A spell is of the school that its number names.
pub proof fn lemma_schools(d: CardDef)
    ensures
        d.school_of() == School::Arcane <==> d.school == 1,
        d.school_of() == School::Fel <==> d.school == 2,
        d.school_of() == School::Fire <==> d.school == 3,
        d.school_of() == School::Frost <==> d.school == 4,
        d.school_of() == School::Holy <==> d.school == 5,
        d.school_of() == School::Nature <==> d.school == 6,
        d.school_of() == School::Shadow <==> d.school == 7,
        d.school_of() == School::Unschooled <==> d.school == 0 || d.school > 7,
{
}

/// A deck may hold one copy of a Legendary and two of anything else.
pub proof fn lemma_copies(d: CardDef)
    ensures
        d.rarity == 5 ==> d.copies() == 1,
        d.rarity != 5 ==> d.copies() == 2,
{
}

/// A neutral card is anyone's; a card of a class is that class's and nobody
/// else's.
pub proof fn lemma_whose_card(d: CardDef, class: Class)
    ensures
        d.class == 0 ==> d.is_playable_by(class),
        d.class != 0 ==> (d.is_playable_by(class) <==> d.class_of() == class),
{
}

/// Two classes share nothing but what is neutral.
pub proof fn lemma_classes_apart(d: CardDef, a: Class, b: Class)
    requires
        a != b,
        d.is_playable_by(a),
        d.is_playable_by(b),
    ensures
        d.class == 0,
{
}

/// Everything but a hero power can go in a deck.
pub proof fn lemma_deckable_kinds(d: CardDef)
    ensures
        d.is_deckable() <==> d.kind <= 4,
{
}

/// A card is legal in a format exactly where the two share a bit.
pub proof fn lemma_formats(d: CardDef, f: Formats)
    ensures
        d.formats.includes(f) <==> d.formats.0 & f.0 != 0,
        Formats::STANDARD == 1,
        Formats::WILD == 2,
        Formats::ARENA == 4,
{
}

/// What is from the past is still legal in Wild and no longer in Standard.
pub proof fn lemma_past(d: CardDef)
    ensures
        super::is_from_the_past(d) <==> d.formats.0 & 2 != 0 && d.formats.0 & 1 == 0,
{
}

/// A set of mechanics holds another where it has every bit of it, and meets it
/// where they share one.
pub proof fn lemma_bits(a: Keywords, b: Keywords, x: Races, y: Races)
    ensures
        a.holds(b) <==> a.0 | b.0 == a.0,
        a.meets(b) <==> a.0 & b.0 != 0,
        x.holds(y) <==> x.0 | y.0 == x.0,
        x.meets(y) <==> x.0 & y.0 != 0,
{
    let (k, l) = (a.0, b.0);
    let (r, t) = (x.0, y.0);
    assert((k & l == l) <==> (k | l == k)) by (bit_vector);
    assert((r & t == t) <==> (r | t == r)) by (bit_vector);
}

/// Joining two sets keeps the bits of either, meeting them those of both, and
/// what is left out of a set is all that it does not have.
pub proof fn lemma_operators(k: (Keywords, Keywords), r: (Races, Races))
    ensures
        <Keywords as vstd::std_specs::ops::BitOrSpec<Keywords>>::obeys_bitor_spec(),
        <Keywords as vstd::std_specs::ops::BitOrSpec<Keywords>>::bitor_req(k.0, k.1),
        <Keywords as vstd::std_specs::ops::BitOrSpec<Keywords>>::bitor_spec(k.0, k.1).0 == k.0.0 | k.1.0,
        <Keywords as vstd::std_specs::ops::BitAndSpec<Keywords>>::obeys_bitand_spec(),
        <Keywords as vstd::std_specs::ops::BitAndSpec<Keywords>>::bitand_req(k.0, k.1),
        <Keywords as vstd::std_specs::ops::BitAndSpec<Keywords>>::bitand_spec(k.0, k.1).0 == k.0.0 & k.1.0,
        <Keywords as vstd::std_specs::ops::NotSpec>::obeys_not_spec(),
        <Keywords as vstd::std_specs::ops::NotSpec>::not_req(k.0),
        <Keywords as vstd::std_specs::ops::NotSpec>::not_spec(k.0).0 == !k.0.0,
        <Races as vstd::std_specs::ops::BitOrSpec<Races>>::obeys_bitor_spec(),
        <Races as vstd::std_specs::ops::BitOrSpec<Races>>::bitor_req(r.0, r.1),
        <Races as vstd::std_specs::ops::BitOrSpec<Races>>::bitor_spec(r.0, r.1).0 == r.0.0 | r.1.0,
        <Races as vstd::std_specs::ops::BitAndSpec<Races>>::obeys_bitand_spec(),
        <Races as vstd::std_specs::ops::BitAndSpec<Races>>::bitand_req(r.0, r.1),
        <Races as vstd::std_specs::ops::BitAndSpec<Races>>::bitand_spec(r.0, r.1).0 == r.0.0 & r.1.0,
        <Races as vstd::std_specs::ops::NotSpec>::obeys_not_spec(),
        <Races as vstd::std_specs::ops::NotSpec>::not_req(r.0),
        <Races as vstd::std_specs::ops::NotSpec>::not_spec(r.0).0 == !r.0.0,
{
}

/// Every mechanic has a bit of its own.
pub proof fn lemma_mechanics()
    ensures
        Keywords::NONE == 0,
        Keywords::TAUNT == 0x1,
        Keywords::CHARGE == 0x2,
        Keywords::RUSH == 0x4,
        Keywords::DIVINE_SHIELD == 0x8,
        Keywords::WINDFURY == 0x10,
        Keywords::STEALTH == 0x20,
        Keywords::ELUSIVE == 0x40,
        Keywords::LIFESTEAL == 0x80,
        Keywords::POISONOUS == 0x100,
        Keywords::REBORN == 0x200,
        Keywords::IMMUNE == 0x400,
        Keywords::BATTLECRY == 0x800,
        Keywords::DEATHRATTLE == 0x1000,
        Keywords::COMBO == 0x2000,
        Keywords::OUTCAST == 0x4000,
        Keywords::CHOOSE_ONE == 0x8000,
        Keywords::SECRET == 0x10000,
        Keywords::QUEST == 0x20000,
        Keywords::SIDE_QUEST == 0x40000,
        Keywords::REWIND == 0x80000,
        Keywords::TEXT_UNDERSTOOD == 0x100000,
{
}

/// Every tribe has a bit of its own.
pub proof fn lemma_tribes()
    ensures
        Races::NONE == 0,
        Races::BEAST == 0x1,
        Races::DEMON == 0x2,
        Races::DRAGON == 0x4,
        Races::ELEMENTAL == 0x8,
        Races::MECHANICAL == 0x10,
        Races::MURLOC == 0x20,
        Races::PIRATE == 0x40,
        Races::UNDEAD == 0x80,
        Races::ALL == 0x100,
{
}

} // verus!
