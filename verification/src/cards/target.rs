//! What a card may be pointed at, and what standing effects grant.

use vstd::prelude::*;

use super::corpus::Corpus;
use super::hooks::{Aura, Bonus, CostFn, TargetSpec};
use super::types::{CardId, Keywords, Kind, Races, Rarity};
use crate::state::{Game, GameView, HandCard, Permanent, Side, Target};
use crate::text::str_eq;

pub mod laws;

verus! {

/// What an effect is told about the circumstances it fires in.
#[derive(Clone, Copy, PartialEq, Eq, Debug, Structural)]
pub struct Ctx {
    /// The card the effect belongs to.
    pub card: CardId,
    /// The controller of the card.
    pub side: Side,
    /// The chosen target, if the card takes one.
    pub target: Option<Target>,
    /// Board slot of the minion the effect belongs to, for deathrattles and
    /// battlecries that care where they are.
    pub source: Option<u8>,
    /// Whether the card was the leftmost or rightmost card in hand when it was
    /// played. A one-card hand satisfies it — the card is both ends at once.
    pub outcast: bool,
    /// Whether the card sat in the exact middle of the hand when it was
    /// played. A hand with an even number of cards has no middle.
    pub centre: bool,
    /// The permanent this effect belongs to, as it stood immediately before
    /// firing. Only a deathrattle needs this: its body is already gone from
    /// the board by the time it runs.
    pub dying: Option<Permanent>,
    /// What happened while this card sat in hand, as bits.
    pub marks: u32,
    /// Mana spent on anything else while this card sat in hand.
    pub mana_spent: i16,
}

impl Ctx {
    /// The circumstances of an effect nobody played.
    pub open spec fn plain(card: CardId, side: Side) -> Ctx {
        Ctx {
            card,
            side,
            target: None,
            source: None,
            outcast: false,
            centre: false,
            dying: None,
            marks: 0,
            mana_spent: 0,
        }
    }

    /// A Ctx for an effect nobody played: a token cast on someone's behalf, a
    /// Deathrattle fired with no body, a Start of Game hook.
    pub fn bare(card: CardId, side: Side) -> (r: Ctx)
        ensures
            r == Ctx::plain(card, side),
    {
        Ctx {
            card,
            side,
            target: None,
            source: None,
            outcast: false,
            centre: false,
            dying: None,
            marks: 0,
            mana_spent: 0,
        }
    }

    /// [`bare`](Self::bare) pointed at something.
    pub fn at(card: CardId, side: Side, target: Option<Target>) -> (r: Ctx)
        ensures
            r == (Ctx { target, ..Ctx::plain(card, side) }),
    {
        Ctx { target, ..Ctx::bare(card, side) }
    }
}

impl TargetSpec {
    /// Whether a hero of `s` satisfies the requirement for `side`.
    pub open spec fn takes_hero(self, side: Side, s: Side) -> bool {
        match self {
            TargetSpec::AnyCharacter => true,
            TargetSpec::EnemyCharacter => s != side,
            TargetSpec::FriendlyCharacter => s == side,
            _ => false,
        }
    }

    /// Whether a minion of `s` that can be targeted at all satisfies the
    /// requirement for `side`.
    pub open spec fn takes_minion(self, c: Corpus, side: Side, s: Side, m: Permanent) -> bool {
        match self {
            TargetSpec::NoTarget => false,
            TargetSpec::AnyCharacter => true,
            TargetSpec::AnyMinion => true,
            TargetSpec::EnemyMinion => s != side,
            TargetSpec::FriendlyMinion => s == side,
            TargetSpec::EnemyCharacter => s != side,
            TargetSpec::FriendlyCharacter => s == side,
            TargetSpec::MinionAtkAtMost(n) => m.atk <= n,
            TargetSpec::MinionAtkAtLeast(n) => m.atk >= n,
            TargetSpec::DamagedEnemyMinion => s != side && m.damage > 0,
            TargetSpec::DamagedMinion => m.damage > 0,
            TargetSpec::UndamagedMinion => m.damage == 0,
            TargetSpec::FriendlyBeast => s == side && m.races.meets(Races(Races::BEAST)),
            TargetSpec::LegendaryMinion => c.def_of(m.card).rarity_of() == Rarity::Legendary,
            TargetSpec::EnemyMinionWithRace => s != side && m.races.0 != 0,
            TargetSpec::EnemyTaunt => s != side && m.shows(Keywords::TAUNT),
            TargetSpec::FriendlyLocation => false,
        }
    }

    /// Whether `t` satisfies the requirement for `side`.
    ///
    /// A minion is only ever a target while it takes part, is not Elusive,
    /// and is not hidden from its opponent by Stealth.
    pub open spec fn accepts(self, c: Corpus, g: GameView, side: Side, t: Target) -> bool {
        match t {
            Target::Hero(s) => self.takes_hero(side, s),
            Target::Minion(s, i) => match g.at(s, i) {
                None => false,
                Some(m) => if self == TargetSpec::FriendlyLocation {
                    s == side && m.active && m.kind_in(c) == Kind::Location
                } else {
                    &&& m.fights(c)
                    &&& !m.shows(Keywords::ELUSIVE)
                    &&& !(s != side && m.shows(Keywords::STEALTH))
                    &&& self.takes_minion(c, side, s, m)
                },
            },
        }
    }

    /// Whether `t` satisfies the requirement for `side`.
    pub fn matches(self, c: &Corpus, g: &Game, side: Side, t: Target) -> (r: bool)
        requires
            g@.wf(*c),
        ensures
            r == self.accepts(*c, g@, side, t),
    {
        let foe = side.other();
        match t {
            Target::Hero(s) => match self {
                TargetSpec::AnyCharacter => true,
                TargetSpec::EnemyCharacter => s == foe,
                TargetSpec::FriendlyCharacter => s == side,
                _ => false,
            },
            Target::Minion(s, i) => {
                let m = match g.slot(s, i) {
                    Some(m) => m,
                    None => { return false; },
                };
                if matches!(self, TargetSpec::FriendlyLocation) {
                    return s == side && m.active && m.kind(c) == Kind::Location;
                }
                if !m.active || !m.is_minion(c) {
                    return false;
                }
                if m.has(Keywords::ELUSIVE) {
                    return false;
                }
                // Stealth hides a minion from the opponent's targeting, and
                // Elusive hides it from every spell and hero power.
                if s == foe && m.has(Keywords::STEALTH) {
                    return false;
                }
                match self {
                    TargetSpec::NoTarget => false,
                    TargetSpec::AnyCharacter => true,
                    TargetSpec::AnyMinion => true,
                    TargetSpec::EnemyMinion => s == foe,
                    TargetSpec::FriendlyMinion => s == side,
                    TargetSpec::EnemyCharacter => s == foe,
                    TargetSpec::FriendlyCharacter => s == side,
                    TargetSpec::MinionAtkAtMost(n) => m.atk <= n,
                    TargetSpec::MinionAtkAtLeast(n) => m.atk >= n,
                    TargetSpec::DamagedEnemyMinion => s == foe && m.damage > 0,
                    TargetSpec::DamagedMinion => m.damage > 0,
                    TargetSpec::UndamagedMinion => m.damage == 0,
                    TargetSpec::FriendlyBeast => s == side && m.races.any(Races(Races::BEAST)),
                    TargetSpec::LegendaryMinion => m.card.def(c).rarity() == Rarity::Legendary,
                    TargetSpec::EnemyMinionWithRace => s == foe && !m.races.is_empty(),
                    TargetSpec::EnemyTaunt => s == foe && m.has(Keywords::TAUNT),
                    TargetSpec::FriendlyLocation => false,
                }
            },
        }
    }
}

/// A requirement that needs no target is met by none.
pub proof fn lemma_no_target_accepts_nothing(c: Corpus, g: GameView, side: Side, t: Target)
    ensures
        !TargetSpec::NoTarget.accepts(c, g, side, t),
{
}

impl Aura {
    /// What this aura of the minion in `source` grants the one in `target`.
    pub open spec fn worth(
        self,
        source_side: Side,
        source_slot: u8,
        target_side: Side,
        target_slot: u8,
        target: Permanent,
    ) -> (i16, i16) {
        let friend = source_side == target_side;
        match self {
            Aura::Others(a, h) => if friend && source_slot != target_slot {
                (a, h)
            } else {
                (0, 0)
            },
            Aura::OthersOfRace(race, a, h) => if friend && source_slot != target_slot
                && target.races.meets(Races(race)) {
                (a, h)
            } else {
                (0, 0)
            },
            Aura::Neighbours(a, h) => if friend && (source_slot - target_slot == 1 || target_slot
                - source_slot == 1) {
                (a, h)
            } else {
                (0, 0)
            },
        }
    }

    /// What one aura source grants one candidate minion, as
    /// `(attack, health)`.
    pub fn grants(
        self,
        source_side: Side,
        source_slot: u8,
        target_side: Side,
        target_slot: u8,
        target: &Permanent,
    ) -> (r: (i16, i16))
        ensures
            r == self.worth(source_side, source_slot, target_side, target_slot, *target),
    {
        if source_side != target_side {
            return (0, 0);
        }
        let apart: u8 = if source_slot > target_slot {
            source_slot - target_slot
        } else {
            target_slot - source_slot
        };
        match self {
            Aura::Others(a, h) => if apart != 0 {
                (a, h)
            } else {
                (0, 0)
            },
            Aura::OthersOfRace(race, a, h) => if apart != 0 && target.races.any(Races(race)) {
                (a, h)
            } else {
                (0, 0)
            },
            Aura::Neighbours(a, h) => if apart == 1 {
                (a, h)
            } else {
                (0, 0)
            },
        }
    }
}

/// How many minions of a board take part.
pub open spec fn fighting(c: Corpus, board: Seq<Permanent>) -> nat {
    board.filter(|m: Permanent| m.fights(c)).len()
}

fn count_fighting(c: &Corpus, g: &Game, side: Side) -> (r: usize)
    requires
        g@.wf(*c),
    ensures
        r == fighting(*c, g@.player(side).board),
        r <= 255,
{
    let board = &g.player(side).board;
    let ghost keep = |m: Permanent| m.fights(*c);
    let mut n: usize = 0;
    let mut i: usize = 0;
    proof {
        reveal(Seq::filter);
    }
    while i < board.len()
        invariant
            c.wf(),
            g@.player(side).wf(*c),
            board@ == g@.player(side).board,
            keep == (|m: Permanent| m.fights(*c)),
            i <= board@.len() <= 255,
            n <= i,
            n == board@.take(i as int).filter(keep).len(),
        decreases board.len() - i,
    {
        proof {
            reveal(Seq::filter);
            assert(board@.take(i + 1).drop_last() =~= board@.take(i as int));
        }
        if board[i].active && board[i].is_minion(c) {
            n += 1;
        }
        i += 1;
    }
    proof {
        assert(board@.take(i as int) =~= board@);
    }
    n
}

impl Bonus {
    /// Whether the condition of the bonus holds.
    pub open spec fn holds(self, c: Corpus, g: GameView, side: Side, me: Permanent) -> bool {
        let p = g.player(side);
        match self {
            Bonus::Damaged(_) => me.damage > 0,
            Bonus::OpponentsTurn(_) => g.current != side,
            Bonus::ControlsRace(race, _) => exists|i: int|
                0 <= i < p.board.len() && (#[trigger] p.board[i]).fights(c) && p.board[i].races.meets(
                    Races(race),
                ),
            Bonus::Alone(_) => fighting(c, p.board) <= 1,
            Bonus::Armed(_) => p.weapon is Some,
            Bonus::ControlsLocation(_) => exists|i: int|
                0 <= i < p.board.len() && (#[trigger] p.board[i]).active && p.board[i].kind_in(c)
                    == Kind::Location,
            Bonus::Overloaded(_) => p.overload_now > 0,
            Bonus::DeckAtLeast(n, _) => p.deck.len() >= n,
        }
    }

    /// The attack the bonus is worth while its condition holds.
    pub open spec fn attack(self) -> i16 {
        match self {
            Bonus::Damaged(a) => a,
            Bonus::OpponentsTurn(a) => a,
            Bonus::ControlsRace(_, a) => a,
            Bonus::Alone(a) => a,
            Bonus::Armed(a) => a,
            Bonus::ControlsLocation(a) => a,
            Bonus::Overloaded(a) => a,
            Bonus::DeckAtLeast(_, a) => a,
        }
    }

    /// What a minion grants itself right now, as `(attack, health)`.
    pub fn grants(self, c: &Corpus, g: &Game, side: Side, me: &Permanent) -> (r: (i16, i16))
        requires
            g@.wf(*c),
        ensures
            r == if self.holds(*c, g@, side, *me) {
                (self.attack(), 0i16)
            } else {
                (0i16, 0i16)
            },
    {
        let p = g.player(side);
        let (on, atk): (bool, i16) = match self {
            Bonus::Damaged(a) => (me.damage > 0, a),
            Bonus::OpponentsTurn(a) => (g.current != side, a),
            Bonus::ControlsRace(race, a) => (any_of_race(c, g, side, race), a),
            Bonus::Alone(a) => (count_fighting(c, g, side) <= 1, a),
            Bonus::Armed(a) => (p.weapon.is_some(), a),
            Bonus::ControlsLocation(a) => (any_location(c, g, side), a),
            Bonus::Overloaded(a) => (p.overload_now > 0, a),
            Bonus::DeckAtLeast(n, a) => (p.deck.len() >= n as usize, a),
        };
        if on {
            (atk, 0)
        } else {
            (0, 0)
        }
    }
}

fn any_of_race(c: &Corpus, g: &Game, side: Side, race: u32) -> (r: bool)
    requires
        g@.wf(*c),
    ensures
        r == exists|i: int|
            0 <= i < g@.player(side).board.len() && (#[trigger] g@.player(side).board[i]).fights(*c)
                && g@.player(side).board[i].races.meets(Races(race)),
{
    let board = &g.player(side).board;
    let mut i: usize = 0;
    while i < board.len()
        invariant
            c.wf(),
            g@.player(side).wf(*c),
            board@ == g@.player(side).board,
            i <= board@.len(),
            forall|k: int|
                0 <= k < i ==> !((#[trigger] board@[k]).fights(*c) && board@[k].races.meets(Races(race))),
        decreases board.len() - i,
    {
        if board[i].active && board[i].is_minion(c) && board[i].races.any(Races(race)) {
            return true;
        }
        i += 1;
    }
    false
}

fn any_location(c: &Corpus, g: &Game, side: Side) -> (r: bool)
    requires
        g@.wf(*c),
    ensures
        r == exists|i: int|
            0 <= i < g@.player(side).board.len() && (#[trigger] g@.player(side).board[i]).active
                && g@.player(side).board[i].kind_in(*c) == Kind::Location,
{
    let board = &g.player(side).board;
    let mut i: usize = 0;
    while i < board.len()
        invariant
            c.wf(),
            g@.player(side).wf(*c),
            board@ == g@.player(side).board,
            i <= board@.len(),
            forall|k: int|
                0 <= k < i ==> !((#[trigger] board@[k]).active && board@[k].kind_in(*c) == Kind::Location),
        decreases board.len() - i,
    {
        if board[i].active && board[i].kind(c) == Kind::Location {
            return true;
        }
        i += 1;
    }
    false
}

// ------------------------------------------------------------------- costs

/// Whether a card of a hand, but for the one at `except`, is of one of these
/// tribes.
pub open spec fn others_of_race(c: Corpus, hand: Seq<HandCard>, except: int, race: u32) -> bool {
    exists|k: int|
        0 <= k < hand.len() && k != except && c.def_of((#[trigger] hand[k]).card).races.meets(
            Races(race),
        )
}

/// How many cards of a hand have this name.
pub open spec fn held(c: Corpus, hand: Seq<HandCard>, name: Seq<char>) -> nat
    decreases hand.len(),
{
    if hand.len() == 0 {
        0
    } else {
        held(c, hand.drop_last(), name) + if c.name_of(hand.last().card) == name {
            1nat
        } else {
            0
        }
    }
}

/// Whether a board holds a Legendary.
pub open spec fn has_legendary(c: Corpus, board: Seq<Permanent>) -> bool {
    exists|k: int|
        0 <= k < board.len() && c.def_of((#[trigger] board[k]).card).rarity_of() == Rarity::Legendary
}

/// Whether a board holds a minion that sleeps.
pub open spec fn has_dormant(board: Seq<Permanent>) -> bool {
    exists|k: int| 0 <= k < board.len() && (#[trigger] board[k]).dormant
}

fn hand_holds_race(c: &Corpus, hand: &Vec<HandCard>, except: usize, race: u32) -> (r: bool)
    requires
        c.wf(),
        forall|i: int| 0 <= i < hand@.len() ==> c.has((#[trigger] hand@[i]).card),
    ensures
        r == others_of_race(*c, hand@, except as int, race),
{
    let mut k: usize = 0;
    while k < hand.len()
        invariant
            c.wf(),
            forall|i: int| 0 <= i < hand@.len() ==> c.has((#[trigger] hand@[i]).card),
            k <= hand@.len(),
            forall|j: int|
                0 <= j < k && j != except ==> !c.def_of((#[trigger] hand@[j]).card).races.meets(
                    Races(race),
                ),
        decreases hand.len() - k,
    {
        if k != except && hand[k].card.def(c).races.any(Races(race)) {
            return true;
        }
        k += 1;
    }
    false
}

fn count_held(c: &Corpus, hand: &Vec<HandCard>, name: &str) -> (r: i32)
    requires
        c.wf(),
        hand@.len() <= 255,
        forall|i: int| 0 <= i < hand@.len() ==> c.has((#[trigger] hand@[i]).card),
    ensures
        r == held(*c, hand@, name@),
        0 <= r <= 255,
{
    let mut n: i32 = 0;
    let mut k: usize = 0;
    while k < hand.len()
        invariant
            c.wf(),
            hand@.len() <= 255,
            forall|i: int| 0 <= i < hand@.len() ==> c.has((#[trigger] hand@[i]).card),
            k <= hand@.len(),
            0 <= n <= k,
            n == held(*c, hand@.take(k as int), name@),
        decreases hand.len() - k,
    {
        proof {
            assert(hand@.take(k + 1).drop_last() =~= hand@.take(k as int));
        }
        if str_eq(hand[k].card.name(c), name) {
            n = n + 1;
        }
        k += 1;
    }
    proof {
        assert(hand@.take(k as int) =~= hand@);
    }
    n
}

fn any_legendary(c: &Corpus, board: &Vec<Permanent>) -> (r: bool)
    requires
        c.wf(),
        forall|i: int| 0 <= i < board@.len() ==> c.has((#[trigger] board@[i]).card),
    ensures
        r == has_legendary(*c, board@),
{
    let mut k: usize = 0;
    while k < board.len()
        invariant
            c.wf(),
            forall|i: int| 0 <= i < board@.len() ==> c.has((#[trigger] board@[i]).card),
            k <= board@.len(),
            forall|j: int|
                0 <= j < k ==> c.def_of((#[trigger] board@[j]).card).rarity_of() != Rarity::Legendary,
        decreases board.len() - k,
    {
        if board[k].card.def(c).rarity() == Rarity::Legendary {
            return true;
        }
        k += 1;
    }
    false
}

fn any_dormant(board: &Vec<Permanent>) -> (r: bool)
    ensures
        r == has_dormant(board@),
{
    let mut k: usize = 0;
    while k < board.len()
        invariant
            k <= board@.len(),
            forall|j: int| 0 <= j < k ==> !(#[trigger] board@[j]).dormant,
        decreases board.len() - k,
    {
        if board[k].dormant {
            return true;
        }
        k += 1;
    }
    false
}

impl CostFn {
    /// What the card at place `at` of a hand costs more or less.
    pub open spec fn change(self, c: Corpus, g: GameView, side: Side, at: int) -> int {
        let p = g.player(side);
        let on = |yes: bool, d: i16|
            if yes {
                d as int
            } else {
                0
            };
        match self {
            CostFn::OtherCards => if p.hand.len() > 0 {
                1 - p.hand.len()
            } else {
                0
            },
            CostFn::HoldingRace(race, d) => on(others_of_race(c, p.hand, at, race), d),
            CostFn::Kindred(race, d) => on(p.kindred.meets(Races(race)), d),
            CostFn::DeathsThisTurn => -(g.deaths_this_turn as int),
            CostFn::Outcast(d) => on(at == 0 || at + 1 == p.hand.len(), d),
            CostFn::SawOpponentCard => if at < p.hand.len() && p.hand[at].saw_opponent_card {
                1 - c.def_of(p.hand[at].card).cost
            } else {
                0
            },
            CostFn::WeaponAttack => match p.weapon {
                Some(w) => -(w.atk as int),
                None => 0,
            },
            CostFn::Discovered(d) => on(p.discovered_turn, d),
            CostFn::EmptyBoards(d) => on(g.first.board.len() == 0 && g.second.board.len() == 0, d),
            CostFn::CoinsHeld => -(held(c, p.hand, "The Coin"@) as int),
            CostFn::ControlsLegendary(d) => on(has_legendary(c, p.board), d),
            CostFn::CastThisTurn(schools, d) => on(p.schools_cast_turn & schools == schools, d),
            CostFn::DeckAtLeast(n, d) => on(p.deck.len() >= n, d),
            CostFn::EnemyMinions => -(fighting(c, g.player(side.opponent()).board) as int),
            CostFn::AnyDormant(d) => on(has_dormant(g.first.board) || has_dormant(g.second.board), d),
            CostFn::NotFromDeck => -(p.cards_played_not_from_deck as int),
            CostFn::CastLastTurn(schools, d) => on(p.schools_cast_last & schools != 0, d),
            CostFn::SpellDamage => -(p.spell_damage_turn as int),
        }
    }

    /// What the card at place `at` of a hand costs more or less, in mana.
    pub fn delta(self, c: &Corpus, g: &Game, side: Side, at: usize) -> (r: i32)
        requires
            g@.wf(*c),
        ensures
            r == self.change(*c, g@, side, at as int),
    {
        let p = g.player(side);
        match self {
            CostFn::OtherCards => {
                if p.hand.len() > 0 {
                    1 - p.hand.len() as i32
                } else {
                    0
                }
            },
            CostFn::HoldingRace(race, d) => when(hand_holds_race(c, &p.hand, at, race), d),
            CostFn::Kindred(race, d) => when(p.kindred.any(Races(race)), d),
            CostFn::DeathsThisTurn => -(g.deaths_this_turn as i32),
            CostFn::Outcast(d) => when(
                at == 0 || (p.hand.len() > 0 && at == p.hand.len() - 1),
                d,
            ),
            CostFn::SawOpponentCard => {
                if at < p.hand.len() && p.hand[at].saw_opponent_card {
                    1 - p.hand[at].card.def(c).cost as i32
                } else {
                    0
                }
            },
            CostFn::WeaponAttack => match p.weapon {
                Some(w) => -(w.atk as i32),
                None => 0,
            },
            CostFn::Discovered(d) => when(p.discovered_turn, d),
            CostFn::EmptyBoards(d) => when(
                g.first.board.len() == 0 && g.second.board.len() == 0,
                d,
            ),
            CostFn::CoinsHeld => -count_held(c, &p.hand, "The Coin"),
            CostFn::ControlsLegendary(d) => when(any_legendary(c, &p.board), d),
            CostFn::CastThisTurn(schools, d) => when(p.schools_cast_turn & schools == schools, d),
            CostFn::DeckAtLeast(n, d) => when(p.deck.len() >= n as usize, d),
            CostFn::EnemyMinions => {
                let n: usize = count_fighting(c, g, side.other());
                -(n as i32)
            },
            CostFn::AnyDormant(d) => when(
                any_dormant(&g.first.board) || any_dormant(&g.second.board),
                d,
            ),
            CostFn::NotFromDeck => -(p.cards_played_not_from_deck as i32),
            CostFn::CastLastTurn(schools, d) => when(p.schools_cast_last & schools != 0, d),
            CostFn::SpellDamage => -(p.spell_damage_turn as i32),
        }
    }
}

fn when(on: bool, d: i16) -> (r: i32)
    ensures
        r == if on {
            d as int
        } else {
            0
        },
{
    if on {
        d as i32
    } else {
        0
    }
}

} // verus!
