//! What the policy and the card rules read of a game: plain values, so that a
//! position can be looked at, copied and compared without the engine.

use vstd::prelude::*;

use crate::cards::corpus::Corpus;
use crate::cards::types::{CardId, Keywords, Kind, Races};

pub mod laws;

verus! {

/// One of the two players.
#[derive(Clone, Copy, PartialEq, Eq, Debug, Structural)]
pub enum Side {
    Player0,
    Player1,
}

impl Side {
    pub open spec fn opponent(self) -> Side {
        match self {
            Side::Player0 => Side::Player1,
            Side::Player1 => Side::Player0,
        }
    }

    pub open spec fn place(self) -> int {
        match self {
            Side::Player0 => 0,
            Side::Player1 => 1,
        }
    }

    /// The other player.
    pub fn other(self) -> (r: Side)
        ensures
            r == self.opponent(),
    {
        match self {
            Side::Player0 => Side::Player1,
            Side::Player1 => Side::Player0,
        }
    }

    pub fn index(self) -> (r: usize)
        ensures
            r == self.place(),
    {
        match self {
            Side::Player0 => 0,
            Side::Player1 => 1,
        }
    }
}

/// Something that can be pointed at.
#[derive(Clone, Copy, PartialEq, Eq, Debug, Structural)]
pub enum Target {
    Hero(Side),
    /// The permanent in this board slot.
    Minion(Side, u8),
}

/// How a game ended.
#[derive(Clone, Copy, PartialEq, Eq, Debug, Structural)]
pub enum Outcome {
    Win(Side),
    Draw,
}

/// A card on the board: a minion or a Location.
#[derive(Clone, Copy, PartialEq, Eq, Debug, Structural)]
pub struct Permanent {
    pub card: CardId,
    pub atk: i16,
    pub max_health: i16,
    /// Damage taken; for a Location, uses spent.
    pub damage: i16,
    pub spell_damage: i16,
    pub keywords: Keywords,
    pub races: Races,
    /// Whether it takes part at all; a dormant body does not.
    pub active: bool,
    /// Whether it sleeps for a number of turns.
    pub dormant: bool,
    /// Whether it has been used this turn.
    pub used: bool,
    pub cooldown: u8,
    /// The card whose deathrattle it was given, if it was given one.
    pub granted_rattle: Option<CardId>,
}

impl Permanent {
    /// The health it has left.
    pub open spec fn left(self) -> int {
        self.max_health - self.damage
    }

    pub fn health(&self) -> (r: i32)
        ensures
            r == self.left(),
    {
        self.max_health as i32 - self.damage as i32
    }

    pub open spec fn shows(self, bits: u64) -> bool {
        self.keywords.holds(Keywords(bits))
    }

    /// Whether it has every one of these keywords.
    pub fn has(&self, bits: u64) -> (r: bool)
        ensures
            r == self.shows(bits),
    {
        self.keywords.has(Keywords(bits))
    }

    pub open spec fn kind_in(self, c: Corpus) -> Kind {
        c.def_of(self.card).kind_of()
    }

    pub fn kind(&self, c: &Corpus) -> (r: Kind)
        requires
            c.has(self.card),
        ensures
            r == self.kind_in(*c),
    {
        self.card.def(c).kind()
    }

    pub fn is_minion(&self, c: &Corpus) -> (r: bool)
        requires
            c.has(self.card),
        ensures
            r == (self.kind_in(*c) == Kind::Minion),
    {
        self.card.def(c).kind() == Kind::Minion
    }

    /// A minion that takes part.
    pub open spec fn fights(self, c: Corpus) -> bool {
        self.active && self.kind_in(c) == Kind::Minion
    }
}

/// A card in hand.
#[derive(Clone, Copy, PartialEq, Eq, Debug, Structural)]
pub struct HandCard {
    pub card: CardId,
    /// Attack and health the copy has gained over its printing.
    pub atk: i16,
    pub hp: i16,
    /// What its cost has been changed by for good.
    pub cost_delta: i16,
    /// What it costs in this position.
    pub cost: i16,
    /// Whether its holder has played a card of the opponent's class while
    /// holding it.
    pub saw_opponent_card: bool,
}

/// A card in a deck.
#[derive(Clone, Copy, PartialEq, Eq, Debug, Structural)]
pub struct DeckCard {
    pub card: CardId,
}

/// A weapon in play.
#[derive(Clone, Copy, PartialEq, Eq, Debug, Structural)]
pub struct Weapon {
    pub card: CardId,
    pub atk: i16,
    pub durability: i16,
}

/// A hero power in its slot.
#[derive(Clone, Copy, PartialEq, Eq, Debug, Structural)]
pub struct HeroPower {
    pub card: CardId,
    /// Whether it hurts what it is pointed at.
    pub harms: bool,
}

/// One player's half of the game.
#[derive(Debug)]
pub struct Player {
    pub hero_hp: i16,
    pub armor: i16,
    /// The attack the hero has right now, its weapon's included.
    pub hero_attack: i16,
    pub mana: i16,
    pub crystals: i16,
    /// Crystals locked for this turn.
    pub overload_now: i16,
    /// Which of the Windrunner sisters have been played, one bit each.
    pub rangers_played: u8,
    /// Whether the player has Discovered a card this turn.
    pub discovered_turn: bool,
    /// The schools of the spells cast this turn, one bit each.
    pub schools_cast_turn: u8,
    /// The schools of the spells cast last turn, one bit each.
    pub schools_cast_last: u8,
    /// Cards played this game that did not start in the deck.
    pub cards_played_not_from_deck: u8,
    /// Damage dealt by spells this turn.
    pub spell_damage_turn: u8,
    /// The tribes of what was played last turn.
    pub kindred: Races,
    pub hero_power: HeroPower,
    pub second_hero_power: Option<HeroPower>,
    pub weapon: Option<Weapon>,
    pub board: Vec<Permanent>,
    pub hand: Vec<HandCard>,
    pub deck: Vec<DeckCard>,
}

/// How much room there is.
#[derive(Clone, Copy, PartialEq, Eq, Debug, Structural)]
pub struct Limits {
    pub board: u8,
    pub hand: u8,
    pub deck: u8,
}

/// A position.
#[derive(Debug)]
pub struct Game {
    pub first: Player,
    pub second: Player,
    /// Whose turn it is.
    pub current: Side,
    pub outcome: Option<Outcome>,
    /// Minions that have died this turn.
    pub deaths_this_turn: u8,
    /// Everything a spell of the player to move may be pointed at.
    pub targetable: Vec<Target>,
    pub limits: Limits,
}

/// The mathematical content of a [`Player`].
#[verifier::ext_equal]
pub struct PlayerView {
    pub hero_hp: i16,
    pub armor: i16,
    pub hero_attack: i16,
    pub mana: i16,
    pub crystals: i16,
    pub overload_now: i16,
    pub rangers_played: u8,
    pub discovered_turn: bool,
    pub schools_cast_turn: u8,
    pub schools_cast_last: u8,
    pub cards_played_not_from_deck: u8,
    pub spell_damage_turn: u8,
    pub kindred: Races,
    pub hero_power: HeroPower,
    pub second_hero_power: Option<HeroPower>,
    pub weapon: Option<Weapon>,
    pub board: Seq<Permanent>,
    pub hand: Seq<HandCard>,
    pub deck: Seq<DeckCard>,
}

impl View for Player {
    type V = PlayerView;

    open spec fn view(&self) -> PlayerView {
        PlayerView {
            hero_hp: self.hero_hp,
            armor: self.armor,
            hero_attack: self.hero_attack,
            mana: self.mana,
            crystals: self.crystals,
            overload_now: self.overload_now,
            rangers_played: self.rangers_played,
            discovered_turn: self.discovered_turn,
            schools_cast_turn: self.schools_cast_turn,
            schools_cast_last: self.schools_cast_last,
            cards_played_not_from_deck: self.cards_played_not_from_deck,
            spell_damage_turn: self.spell_damage_turn,
            kindred: self.kindred,
            hero_power: self.hero_power,
            second_hero_power: self.second_hero_power,
            weapon: self.weapon,
            board: self.board@,
            hand: self.hand@,
            deck: self.deck@,
        }
    }
}

/// The mathematical content of a [`Game`].
#[verifier::ext_equal]
pub struct GameView {
    pub first: PlayerView,
    pub second: PlayerView,
    pub current: Side,
    pub outcome: Option<Outcome>,
    pub deaths_this_turn: u8,
    pub targetable: Seq<Target>,
    pub limits: Limits,
}

impl View for Game {
    type V = GameView;

    open spec fn view(&self) -> GameView {
        GameView {
            first: self.first@,
            second: self.second@,
            current: self.current,
            outcome: self.outcome,
            deaths_this_turn: self.deaths_this_turn,
            targetable: self.targetable@,
            limits: self.limits,
        }
    }
}

impl PlayerView {
    /// Every card the player holds is in the corpus, and a place on the board
    /// or in the hand fits its number.
    pub open spec fn wf(self, c: Corpus) -> bool {
        &&& self.board.len() <= 255
        &&& self.hand.len() <= 255
        &&& forall|i: int| 0 <= i < self.board.len() ==> c.has((#[trigger] self.board[i]).card)
        &&& forall|i: int| 0 <= i < self.hand.len() ==> c.has((#[trigger] self.hand[i]).card)
        &&& forall|i: int| 0 <= i < self.deck.len() ==> c.has((#[trigger] self.deck[i]).card)
    }
}

impl GameView {
    pub open spec fn player(self, side: Side) -> PlayerView {
        match side {
            Side::Player0 => self.first,
            Side::Player1 => self.second,
        }
    }

    /// The same position with another half for one player.
    pub open spec fn with_player(self, side: Side, p: PlayerView) -> GameView {
        match side {
            Side::Player0 => GameView { first: p, ..self },
            Side::Player1 => GameView { second: p, ..self },
        }
    }

    pub open spec fn wf(self, c: Corpus) -> bool {
        &&& c.wf()
        &&& self.first.wf(c)
        &&& self.second.wf(c)
    }

    /// What stands in a board slot.
    pub open spec fn at(self, side: Side, slot: u8) -> Option<Permanent> {
        if slot < self.player(side).board.len() {
            Some(self.player(side).board[slot as int])
        } else {
            None
        }
    }
}

impl Game {
    pub fn player(&self, side: Side) -> (r: &Player)
        ensures
            r@ == self@.player(side),
    {
        match side {
            Side::Player0 => &self.first,
            Side::Player1 => &self.second,
        }
    }

    pub fn player_mut(&mut self, side: Side) -> (r: &mut Player)
        ensures
            r@ == old(self)@.player(side),
            final(self)@ == old(self)@.with_player(side, final(r)@),
    {
        match side {
            Side::Player0 => &mut self.first,
            Side::Player1 => &mut self.second,
        }
    }

    /// What stands in a board slot.
    pub fn slot(&self, side: Side, slot: u8) -> (r: Option<Permanent>)
        ensures
            r == self@.at(side, slot),
    {
        let board = &self.player(side).board;
        if (slot as usize) < board.len() {
            Some(board[slot as usize])
        } else {
            None
        }
    }
}

/// A move a player can make.
#[derive(Clone, Copy, PartialEq, Eq, Debug, Structural)]
#[allow(inconsistent_fields)]
pub enum Action {
    Play { hand: u8, target: Option<Target>, position: u8, choice: u8 },
    Attack { from: u8, target: Target },
    HeroAttack { target: Target },
    HeroPower { target: Option<Target>, second: bool },
    UseLocation { slot: u8, target: Option<Target> },
    Prepare { hand: u8 },
    Trade { hand: u8 },
    EndTurn,
}

} // verus!
