//! What a card is made of.

use vstd::prelude::*;

pub mod laws;

verus! {

/// Index into the card table. 16 bits is deliberate: it keeps hands, decks
/// and graveyards half the size a pointer-based design would need.
#[derive(Clone, Copy, PartialEq, Eq, PartialOrd, Ord, Hash, Debug, Structural)]
pub struct CardId(pub u16);

/// What a card is, in the order its number in the table gives.
#[derive(Clone, Copy, PartialEq, Eq, Debug, Structural)]
pub enum Kind {
    Minion,
    Spell,
    Weapon,
    Location,
    Hero,
    HeroPower,
}

/// Class, including the two pseudo-classes the corpus carries.
#[derive(Clone, Copy, PartialEq, Eq, Debug, Structural)]
pub enum Class {
    Neutral,
    DeathKnight,
    DemonHunter,
    Druid,
    Hunter,
    Mage,
    Paladin,
    Priest,
    Rogue,
    Shaman,
    Warlock,
    Warrior,
    Dream,
    Whizbang,
}

/// The eleven playable classes, in the order of the table.
pub const PLAYABLE_CLASSES: [Class; 11] = [
    Class::DeathKnight,
    Class::DemonHunter,
    Class::Druid,
    Class::Hunter,
    Class::Mage,
    Class::Paladin,
    Class::Priest,
    Class::Rogue,
    Class::Shaman,
    Class::Warlock,
    Class::Warrior,
];

/// How rare a card is; the basic tokens are unrated.
#[derive(Clone, Copy, PartialEq, Eq, PartialOrd, Ord, Debug, Structural)]
pub enum Rarity {
    Unrated,
    Free,
    Common,
    Rare,
    Epic,
    Legendary,
}

/// The school of a spell, if it has one.
#[derive(Clone, Copy, PartialEq, Eq, Debug, Structural)]
pub enum School {
    Unschooled,
    Arcane,
    Fel,
    Fire,
    Frost,
    Holy,
    Nature,
    Shadow,
}

/// Gameplay mechanics as bits.
#[derive(Clone, Copy, PartialEq, Eq, Debug, Default, Structural)]
pub struct Keywords(pub u64);

impl Keywords {
    /// No bit at all.
    pub const NONE: u64 = 0;
    pub const TAUNT: u64 = 0x1;
    pub const CHARGE: u64 = 0x2;
    pub const RUSH: u64 = 0x4;
    pub const DIVINE_SHIELD: u64 = 0x8;
    pub const WINDFURY: u64 = 0x10;
    pub const STEALTH: u64 = 0x20;
    pub const ELUSIVE: u64 = 0x40;
    pub const LIFESTEAL: u64 = 0x80;
    pub const POISONOUS: u64 = 0x100;
    pub const REBORN: u64 = 0x200;
    pub const IMMUNE: u64 = 0x400;
    pub const BATTLECRY: u64 = 0x800;
    pub const DEATHRATTLE: u64 = 0x1000;
    pub const COMBO: u64 = 0x2000;
    pub const OUTCAST: u64 = 0x4000;
    pub const CHOOSE_ONE: u64 = 0x8000;
    pub const SECRET: u64 = 0x10000;
    pub const QUEST: u64 = 0x20000;
    pub const SIDE_QUEST: u64 = 0x40000;
    pub const REWIND: u64 = 0x80000;
    pub const TEXT_UNDERSTOOD: u64 = 0x100000;

    /// True when every bit in `other` is set here.
    pub open spec fn holds(self, other: Keywords) -> bool {
        self.0 & other.0 == other.0
    }

    /// True when the two sets overlap at all.
    pub open spec fn meets(self, other: Keywords) -> bool {
        self.0 & other.0 != 0
    }

    /// True when every bit in `other` is set here.
    pub fn has(self, other: Keywords) -> (r: bool)
        ensures
            r == self.holds(other),
    {
        self.0 & other.0 == other.0
    }

    /// True when the two sets overlap at all.
    pub fn any(self, other: Keywords) -> (r: bool)
        ensures
            r == self.meets(other),
    {
        self.0 & other.0 != 0
    }

    pub fn is_empty(self) -> (r: bool)
        ensures
            r == (self.0 == 0),
    {
        self.0 == 0
    }

    pub fn insert(&mut self, other: Keywords)
        ensures
            final(self).0 == old(self).0 | other.0,
    {
        self.0 = self.0 | other.0;
    }

    pub fn remove(&mut self, other: Keywords)
        ensures
            final(self).0 == old(self).0 & !other.0,
    {
        self.0 = self.0 & !other.0;
    }

    pub fn set(&mut self, other: Keywords, on: bool)
        ensures
            final(self).0 == if on {
                old(self).0 | other.0
            } else {
                old(self).0 & !other.0
            },
    {
        if on {
            self.insert(other)
        } else {
            self.remove(other)
        }
    }

    /// What was set is held, what was cleared is not met, and nothing else
    /// changes.
    pub proof fn lemma_set(before: Keywords, other: Keywords)
        ensures
            (Keywords(before.0 | other.0)).holds(other),
            !(Keywords(before.0 & !other.0)).meets(other),
            forall|rest: Keywords|
                rest.0 & other.0 == 0 ==> #[trigger] (Keywords(before.0 | other.0)).holds(rest) == before.holds(rest)
                    && (Keywords(before.0 & !other.0)).holds(rest) == before.holds(rest),
    {
        let (b, o) = (before.0, other.0);
        assert((b | o) & o == o) by (bit_vector);
        assert((b & !o) & o == 0) by (bit_vector);
        assert forall|rest: Keywords| rest.0 & o == 0 implies #[trigger] (Keywords(b | o)).holds(rest) == before.holds(rest) && (Keywords(b & !o)).holds(rest) == before.holds(rest) by {
            let r = rest.0;
            assert(r & o == 0 ==> ((b | o) & r == r) == (b & r == r) && ((b & !o) & r == r) == (b & r == r)) by (bit_vector);
        }
    }
}

impl core::ops::BitOr for Keywords {
    type Output = Keywords;

    fn bitor(self, rhs: Keywords) -> (r: Keywords) {
        Keywords(self.0 | rhs.0)
    }
}

impl vstd::std_specs::ops::BitOrSpecImpl for Keywords {
    open spec fn obeys_bitor_spec() -> bool {
        true
    }

    open spec fn bitor_req(self, rhs: Keywords) -> bool {
        true
    }

    open spec fn bitor_spec(self, rhs: Keywords) -> Keywords {
        Keywords(self.0 | rhs.0)
    }
}

impl core::ops::BitAnd for Keywords {
    type Output = Keywords;

    fn bitand(self, rhs: Keywords) -> (r: Keywords) {
        Keywords(self.0 & rhs.0)
    }
}

impl vstd::std_specs::ops::BitAndSpecImpl for Keywords {
    open spec fn obeys_bitand_spec() -> bool {
        true
    }

    open spec fn bitand_req(self, rhs: Keywords) -> bool {
        true
    }

    open spec fn bitand_spec(self, rhs: Keywords) -> Keywords {
        Keywords(self.0 & rhs.0)
    }
}

impl core::ops::Not for Keywords {
    type Output = Keywords;

    fn not(self) -> (r: Keywords) {
        Keywords(!self.0)
    }
}

impl vstd::std_specs::ops::NotSpecImpl for Keywords {
    open spec fn obeys_not_spec() -> bool {
        true
    }

    open spec fn not_req(self) -> bool {
        true
    }

    open spec fn not_spec(self) -> Keywords {
        Keywords(!self.0)
    }
}

/// Minion tribes as bits.
#[derive(Clone, Copy, PartialEq, Eq, Debug, Default, Structural)]
pub struct Races(pub u32);

impl Races {
    /// No bit at all.
    pub const NONE: u32 = 0;
    pub const BEAST: u32 = 0x1;
    pub const DEMON: u32 = 0x2;
    pub const DRAGON: u32 = 0x4;
    pub const ELEMENTAL: u32 = 0x8;
    pub const MECHANICAL: u32 = 0x10;
    pub const MURLOC: u32 = 0x20;
    pub const PIRATE: u32 = 0x40;
    pub const UNDEAD: u32 = 0x80;
    pub const ALL: u32 = 0x100;

    /// True when every bit in `other` is set here.
    pub open spec fn holds(self, other: Races) -> bool {
        self.0 & other.0 == other.0
    }

    /// True when the two sets overlap at all.
    pub open spec fn meets(self, other: Races) -> bool {
        self.0 & other.0 != 0
    }

    /// True when every bit in `other` is set here.
    pub fn has(self, other: Races) -> (r: bool)
        ensures
            r == self.holds(other),
    {
        self.0 & other.0 == other.0
    }

    /// True when the two sets overlap at all.
    pub fn any(self, other: Races) -> (r: bool)
        ensures
            r == self.meets(other),
    {
        self.0 & other.0 != 0
    }

    pub fn is_empty(self) -> (r: bool)
        ensures
            r == (self.0 == 0),
    {
        self.0 == 0
    }

    pub fn insert(&mut self, other: Races)
        ensures
            final(self).0 == old(self).0 | other.0,
    {
        self.0 = self.0 | other.0;
    }

    pub fn remove(&mut self, other: Races)
        ensures
            final(self).0 == old(self).0 & !other.0,
    {
        self.0 = self.0 & !other.0;
    }

    pub fn set(&mut self, other: Races, on: bool)
        ensures
            final(self).0 == if on {
                old(self).0 | other.0
            } else {
                old(self).0 & !other.0
            },
    {
        if on {
            self.insert(other)
        } else {
            self.remove(other)
        }
    }

    /// What was set is held, what was cleared is not met, and nothing else
    /// changes.
    pub proof fn lemma_set(before: Races, other: Races)
        ensures
            (Races(before.0 | other.0)).holds(other),
            !(Races(before.0 & !other.0)).meets(other),
            forall|rest: Races|
                rest.0 & other.0 == 0 ==> #[trigger] (Races(before.0 | other.0)).holds(rest) == before.holds(rest)
                    && (Races(before.0 & !other.0)).holds(rest) == before.holds(rest),
    {
        let (b, o) = (before.0, other.0);
        assert((b | o) & o == o) by (bit_vector);
        assert((b & !o) & o == 0) by (bit_vector);
        assert forall|rest: Races| rest.0 & o == 0 implies #[trigger] (Races(b | o)).holds(rest) == before.holds(rest) && (Races(b & !o)).holds(rest) == before.holds(rest) by {
            let r = rest.0;
            assert(r & o == 0 ==> ((b | o) & r == r) == (b & r == r) && ((b & !o) & r == r) == (b & r == r)) by (bit_vector);
        }
    }
}

impl core::ops::BitOr for Races {
    type Output = Races;

    fn bitor(self, rhs: Races) -> (r: Races) {
        Races(self.0 | rhs.0)
    }
}

impl vstd::std_specs::ops::BitOrSpecImpl for Races {
    open spec fn obeys_bitor_spec() -> bool {
        true
    }

    open spec fn bitor_req(self, rhs: Races) -> bool {
        true
    }

    open spec fn bitor_spec(self, rhs: Races) -> Races {
        Races(self.0 | rhs.0)
    }
}

impl core::ops::BitAnd for Races {
    type Output = Races;

    fn bitand(self, rhs: Races) -> (r: Races) {
        Races(self.0 & rhs.0)
    }
}

impl vstd::std_specs::ops::BitAndSpecImpl for Races {
    open spec fn obeys_bitand_spec() -> bool {
        true
    }

    open spec fn bitand_req(self, rhs: Races) -> bool {
        true
    }

    open spec fn bitand_spec(self, rhs: Races) -> Races {
        Races(self.0 & rhs.0)
    }
}

impl core::ops::Not for Races {
    type Output = Races;

    fn not(self) -> (r: Races) {
        Races(!self.0)
    }
}

impl vstd::std_specs::ops::NotSpecImpl for Races {
    open spec fn obeys_not_spec() -> bool {
        true
    }

    open spec fn not_req(self) -> bool {
        true
    }

    open spec fn not_spec(self) -> Races {
        Races(!self.0)
    }
}

/// Which formats a card is legal in, as bits, so the engine never compares
/// set codes.
#[derive(Clone, Copy, PartialEq, Eq, Debug, Default, Structural)]
pub struct Formats(pub u8);

impl Formats {
    pub const STANDARD: u8 = 1;
    pub const WILD: u8 = 2;
    pub const ARENA: u8 = 4;

    pub open spec fn includes(self, f: Formats) -> bool {
        self.0 & f.0 != 0
    }

    pub fn has(self, f: Formats) -> (r: bool)
        ensures
            r == self.includes(f),
    {
        self.0 & f.0 != 0
    }
}

/// A card's rules-relevant data. Everything the kernel reads, nothing it does
/// not — the strings live in [`CardInfo`] so this array stays dense.
#[derive(Clone, Copy, Debug)]
pub struct CardDef {
    pub kind: u8,
    pub class: u8,
    pub rarity: u8,
    pub school: u8,
    pub cost: i16,
    pub atk: i16,
    /// Health for minions and heroes; durability for locations.
    pub hp: i16,
    pub dur: i16,
    pub armor: i16,
    /// Spell Damage +N, the card's own value.
    pub spell_damage: i8,
    /// Overload amount; the mechanic alone only says that a card overloads,
    /// not by how much.
    pub overload: i8,
    /// Turns spent dormant.
    pub dormant: i8,
    pub races: Races,
    pub keywords: Keywords,
    pub formats: Formats,
    pub collectible: bool,
}

impl CardDef {
    pub open spec fn kind_of(self) -> Kind {
        match self.kind {
            0 => Kind::Minion,
            1 => Kind::Spell,
            2 => Kind::Weapon,
            3 => Kind::Location,
            4 => Kind::Hero,
            _ => Kind::HeroPower,
        }
    }

    pub fn kind(&self) -> (r: Kind)
        ensures
            r == self.kind_of(),
    {
        match self.kind {
            0 => Kind::Minion,
            1 => Kind::Spell,
            2 => Kind::Weapon,
            3 => Kind::Location,
            4 => Kind::Hero,
            _ => Kind::HeroPower,
        }
    }

    pub open spec fn class_of(self) -> Class {
        match self.class {
            0 => Class::Neutral,
            1 => Class::DeathKnight,
            2 => Class::DemonHunter,
            3 => Class::Druid,
            4 => Class::Hunter,
            5 => Class::Mage,
            6 => Class::Paladin,
            7 => Class::Priest,
            8 => Class::Rogue,
            9 => Class::Shaman,
            10 => Class::Warlock,
            11 => Class::Warrior,
            12 => Class::Dream,
            _ => Class::Whizbang,
        }
    }

    pub fn class(&self) -> (r: Class)
        ensures
            r == self.class_of(),
    {
        match self.class {
            0 => Class::Neutral,
            1 => Class::DeathKnight,
            2 => Class::DemonHunter,
            3 => Class::Druid,
            4 => Class::Hunter,
            5 => Class::Mage,
            6 => Class::Paladin,
            7 => Class::Priest,
            8 => Class::Rogue,
            9 => Class::Shaman,
            10 => Class::Warlock,
            11 => Class::Warrior,
            12 => Class::Dream,
            _ => Class::Whizbang,
        }
    }

    pub open spec fn rarity_of(self) -> Rarity {
        match self.rarity {
            1 => Rarity::Free,
            2 => Rarity::Common,
            3 => Rarity::Rare,
            4 => Rarity::Epic,
            5 => Rarity::Legendary,
            _ => Rarity::Unrated,
        }
    }

    pub fn rarity(&self) -> (r: Rarity)
        ensures
            r == self.rarity_of(),
    {
        match self.rarity {
            1 => Rarity::Free,
            2 => Rarity::Common,
            3 => Rarity::Rare,
            4 => Rarity::Epic,
            5 => Rarity::Legendary,
            _ => Rarity::Unrated,
        }
    }

    pub open spec fn school_of(self) -> School {
        match self.school {
            1 => School::Arcane,
            2 => School::Fel,
            3 => School::Fire,
            4 => School::Frost,
            5 => School::Holy,
            6 => School::Nature,
            7 => School::Shadow,
            _ => School::Unschooled,
        }
    }

    pub fn school(&self) -> (r: School)
        ensures
            r == self.school_of(),
    {
        match self.school {
            1 => School::Arcane,
            2 => School::Fel,
            3 => School::Fire,
            4 => School::Frost,
            5 => School::Holy,
            6 => School::Nature,
            7 => School::Shadow,
            _ => School::Unschooled,
        }
    }

    pub open spec fn is_playable_by(self, class: Class) -> bool {
        self.class_of() == class || self.class_of() == Class::Neutral
    }

    /// True when this card may go in a deck of `class` — its own class or
    /// neutral.
    pub fn playable_by(&self, class: Class) -> (r: bool)
        ensures
            r == self.is_playable_by(class),
    {
        self.class() == class || self.class() == Class::Neutral
    }

    pub open spec fn copies(self) -> u8 {
        if self.rarity_of() == Rarity::Legendary {
            1
        } else {
            2
        }
    }

    /// How many copies a deck may hold.
    pub fn copy_limit(&self) -> (r: u8)
        ensures
            r == self.copies(),
    {
        if self.rarity() == Rarity::Legendary {
            1
        } else {
            2
        }
    }

    pub open spec fn is_deckable(self) -> bool {
        self.kind_of() != Kind::HeroPower
    }

    /// Card types that can be put in a deck. Hero *cards* qualify; hero
    /// portraits share the type but are legal in no format, which the
    /// `formats` bits already exclude.
    pub fn deckable(&self) -> (r: bool)
        ensures
            r == self.is_deckable(),
    {
        matches!(
            self.kind(),
            Kind::Minion | Kind::Spell | Kind::Weapon | Kind::Location | Kind::Hero
        )
    }
}

/// A card's strings. Separate from [`CardDef`] so the hot table stays dense;
/// nothing in the rules reads these.
#[derive(Clone, Copy, Debug)]
pub struct CardInfo {
    /// Blizzard's `dbfId`. Deck codes are lists of these, which makes it an
    /// import/export concern rather than a rule — so it sits here and keeps
    /// [`CardDef`] at 32 bytes.
    pub dbf: u32,
    /// Blizzard's string id, e.g. `"CS2_029"`.
    pub id: &'static str,
    pub name: &'static str,
    pub text: &'static str,
    pub set: &'static str,
}

pub open spec fn is_from_the_past(d: CardDef) -> bool {
    d.formats.includes(Formats(Formats::WILD)) && !d.formats.includes(Formats(Formats::STANDARD))
}

/// Whether this card is "from the past": from a set that has rotated out,
/// Wild-legal and no longer Standard-legal. Every [`CardDef`] carries the
/// formats it is legal in, so nothing here is a judgement.
pub fn from_the_past(d: &CardDef) -> (r: bool)
    ensures
        r == is_from_the_past(*d),
{
    d.formats.has(Formats(Formats::WILD)) && !d.formats.has(Formats(Formats::STANDARD))
}

} // verus!
