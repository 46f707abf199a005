//! What may be pointed at, what standing effects grant, and what cards cost.

use vstd::prelude::*;

use super::super::corpus::Corpus;
use super::super::hooks::{Aura, Bonus, CostFn, TargetSpec};
use super::super::types::{CardId, Races};
use super::Ctx;
use crate::state::{GameView, HandCard, Permanent, PlayerView, Side, Target};

verus! {

/// A player's half of a game.
pub open spec fn half(g: GameView, side: Side) -> PlayerView {
    if side == Side::Player0 {
        g.first
    } else {
        g.second
    }
}

/// The kind of what stands on a board, by its number in the table.
pub open spec fn kind_number(c: Corpus, m: Permanent) -> u8 {
    c.tables.defs@[m.card.0 as int].kind
}

/// A minion that takes part.
pub open spec fn takes_part(c: Corpus, m: Permanent) -> bool {
    m.active && kind_number(c, m) == 0
}

// ----------------------------------------------------------------- targets

/// A hero is a target of what takes any character, of what takes enemies if it
/// is the enemy's, and of what takes friends if it is one's own.
pub proof fn lemma_heroes_as_targets(spec: TargetSpec, c: Corpus, g: GameView, side: Side, s: Side)
    ensures
        spec.accepts(c, g, side, Target::Hero(s)) <==> {
            ||| spec == TargetSpec::AnyCharacter
            ||| spec == TargetSpec::EnemyCharacter && s != side
            ||| spec == TargetSpec::FriendlyCharacter && s == side
        },
{
}

/// Whether a minion can be pointed at by a side: it takes part, is not
/// Elusive, and is not an enemy in Stealth.
pub open spec fn can_be_aimed_at(c: Corpus, side: Side, s: Side, m: Permanent) -> bool {
    &&& takes_part(c, m)
    &&& m.keywords.0 & 0x40 != 0x40
    &&& s == side || m.keywords.0 & 0x20 != 0x20
}

/// Only a minion that can be aimed at is a target, of either side, whatever
/// the requirement; but for the one that asks for a Location.
pub proof fn lemma_hidden_minions(
    spec: TargetSpec,
    c: Corpus,
    g: GameView,
    side: Side,
    s: Side,
    slot: u8,
)
    requires
        spec != TargetSpec::FriendlyLocation,
        spec.accepts(c, g, side, Target::Minion(s, slot)),
    ensures
        slot < half(g, s).board.len(),
        can_be_aimed_at(c, side, s, half(g, s).board[slot as int]),
{
}

/// A Location that takes part is a target of what asks for one of one's own,
/// and of nothing else.
pub proof fn lemma_locations_as_targets(
    spec: TargetSpec,
    c: Corpus,
    g: GameView,
    side: Side,
    s: Side,
    slot: u8,
)
    requires
        slot < half(g, s).board.len(),
        kind_number(c, half(g, s).board[slot as int]) == 3,
    ensures
        spec.accepts(c, g, side, Target::Minion(s, slot)) <==> spec == TargetSpec::FriendlyLocation
            && s == side && half(g, s).board[slot as int].active,
{
}

/// Of the minions that can be aimed at, each requirement takes those it names:
/// all, one side's, those of some attack, damaged or whole ones, Beasts, those
/// of any tribe, Legendaries, or those with Taunt.
pub proof fn lemma_minions_as_targets(
    c: Corpus,
    g: GameView,
    side: Side,
    s: Side,
    slot: u8,
    n: i16,
)
    requires
        slot < half(g, s).board.len(),
        can_be_aimed_at(c, side, s, half(g, s).board[slot as int]),
    ensures
        ({
            let m = half(g, s).board[slot as int];
            let t = Target::Minion(s, slot);
            &&& TargetSpec::AnyCharacter.accepts(c, g, side, t)
            &&& TargetSpec::AnyMinion.accepts(c, g, side, t)
            &&& TargetSpec::EnemyMinion.accepts(c, g, side, t) <==> s != side
            &&& TargetSpec::EnemyCharacter.accepts(c, g, side, t) <==> s != side
            &&& TargetSpec::FriendlyMinion.accepts(c, g, side, t) <==> s == side
            &&& TargetSpec::FriendlyCharacter.accepts(c, g, side, t) <==> s == side
            &&& TargetSpec::MinionAtkAtMost(n).accepts(c, g, side, t) <==> m.atk <= n
            &&& TargetSpec::MinionAtkAtLeast(n).accepts(c, g, side, t) <==> m.atk >= n
            &&& TargetSpec::DamagedMinion.accepts(c, g, side, t) <==> m.damage > 0
            &&& TargetSpec::UndamagedMinion.accepts(c, g, side, t) <==> m.damage == 0
            &&& TargetSpec::DamagedEnemyMinion.accepts(c, g, side, t) <==> m.damage > 0 && s != side
            &&& TargetSpec::FriendlyBeast.accepts(c, g, side, t) <==> s == side && m.races.0 & 1 != 0
            &&& TargetSpec::LegendaryMinion.accepts(c, g, side, t)
                <==> c.tables.defs@[m.card.0 as int].rarity == 5
            &&& TargetSpec::EnemyMinionWithRace.accepts(c, g, side, t) <==> s != side && m.races.0 != 0
            &&& TargetSpec::EnemyTaunt.accepts(c, g, side, t) <==> s != side && m.keywords.0 & 0x1
                == 0x1
            &&& !TargetSpec::NoTarget.accepts(c, g, side, t)
            &&& !TargetSpec::FriendlyLocation.accepts(c, g, side, t)
        }),
{
}

/// An effect that nobody played has a card and a side, and nothing else.
pub proof fn lemma_plain_circumstances(card: CardId, side: Side)
    ensures
        ({
            let x = Ctx::plain(card, side);
            &&& x.card == card && x.side == side
            &&& x.target is None && x.source is None && x.dying is None
            &&& !x.outcast && !x.centre
            &&& x.marks == 0 && x.mana_spent == 0
        }),
{
}

// ------------------------------------------------------------------- auras

/// How far apart two board slots are.
pub open spec fn apart(a: u8, b: u8) -> int {
    if a < b {
        b - a
    } else {
        a - b
    }
}

/// An aura grants all it has or nothing: to every other friend, to every other
/// friend of a tribe, or to the friends next to it.
pub proof fn lemma_auras(
    side: Side,
    slot: u8,
    s: Side,
    at: u8,
    m: Permanent,
    race: u32,
    a: i16,
    h: i16,
)
    ensures
        Aura::Others(a, h).worth(side, slot, s, at, m) == if s == side && at != slot {
            (a, h)
        } else {
            (0i16, 0i16)
        },
        Aura::OthersOfRace(race, a, h).worth(side, slot, s, at, m) == if s == side && at != slot
            && m.races.0 & race != 0 {
            (a, h)
        } else {
            (0i16, 0i16)
        },
        Aura::Neighbours(a, h).worth(side, slot, s, at, m) == if s == side && apart(slot, at) == 1 {
            (a, h)
        } else {
            (0i16, 0i16)
        },
{
}

// ----------------------------------------------------------------- bonuses

/// One more minion that takes part is counted; what does not take part is not.
pub proof fn lemma_fighting(c: Corpus, board: Seq<Permanent>, m: Permanent)
    ensures
        super::fighting(c, Seq::<Permanent>::empty()) == 0,
        super::fighting(c, board.push(m)) == super::fighting(c, board) + if takes_part(c, m) {
            1nat
        } else {
            0
        },
{
    reveal(Seq::filter);
    assert(board.push(m).drop_last() =~= board);
}

/// Whether a board has a minion of one of these tribes that takes part.
pub open spec fn has_tribe(c: Corpus, board: Seq<Permanent>, race: u32) -> bool {
    exists|i: int|
        0 <= i < board.len() && takes_part(c, #[trigger] board[i]) && board[i].races.0 & race != 0
}

/// Whether a board has a Location that takes part.
pub open spec fn has_location(c: Corpus, board: Seq<Permanent>) -> bool {
    exists|i: int|
        0 <= i < board.len() && (#[trigger] board[i]).active && kind_number(c, board[i]) == 3
}

/// A bonus holds exactly while its condition does: the minion is damaged, it
/// is the opponent's turn, a minion of a tribe is there, no other minion is,
/// a weapon is, a Location is, crystals are locked, or the deck is that large.
pub proof fn lemma_bonuses(
    c: Corpus,
    g: GameView,
    side: Side,
    me: Permanent,
    a: i16,
    race: u32,
    n: u16,
)
    ensures
        ({
            let p = half(g, side);
            &&& Bonus::Damaged(a).holds(c, g, side, me) <==> me.damage > 0
            &&& Bonus::OpponentsTurn(a).holds(c, g, side, me) <==> g.current != side
            &&& Bonus::ControlsRace(race, a).holds(c, g, side, me) <==> has_tribe(c, p.board, race)
            &&& Bonus::Alone(a).holds(c, g, side, me) <==> super::fighting(c, p.board) <= 1
            &&& Bonus::Armed(a).holds(c, g, side, me) <==> p.weapon is Some
            &&& Bonus::ControlsLocation(a).holds(c, g, side, me) <==> has_location(c, p.board)
            &&& Bonus::Overloaded(a).holds(c, g, side, me) <==> p.overload_now > 0
            &&& Bonus::DeckAtLeast(n, a).holds(c, g, side, me) <==> p.deck.len() >= n
        }),
{
    let board = half(g, side).board;
    assert(g.player(side) == half(g, side));
    if has_tribe(c, board, race) {
        let i = choose|i: int|
            0 <= i < board.len() && takes_part(c, #[trigger] board[i]) && board[i].races.0 & race
                != 0;
        assert(board[i].fights(c) && board[i].races.meets(Races(race)));
    }
    if Bonus::ControlsRace(race, a).holds(c, g, side, me) {
        let i = choose|i: int|
            0 <= i < board.len() && (#[trigger] board[i]).fights(c) && board[i].races.meets(
                Races(race),
            );
        assert(takes_part(c, board[i]));
    }
    if Bonus::ControlsLocation(a).holds(c, g, side, me) {
        let i = choose|i: int|
            0 <= i < board.len() && (#[trigger] board[i]).active && board[i].kind_in(c)
                == super::super::types::Kind::Location;
        assert(kind_number(c, board[i]) == 3);
    }
}

/// Every bonus is worth the attack that it names.
pub proof fn lemma_bonus_attack(a: i16, race: u32, n: u16)
    ensures
        Bonus::Damaged(a).attack() == a,
        Bonus::OpponentsTurn(a).attack() == a,
        Bonus::ControlsRace(race, a).attack() == a,
        Bonus::Alone(a).attack() == a,
        Bonus::Armed(a).attack() == a,
        Bonus::ControlsLocation(a).attack() == a,
        Bonus::Overloaded(a).attack() == a,
        Bonus::DeckAtLeast(n, a).attack() == a,
{
}

// ------------------------------------------------------------------- costs

/// What is counted down from a card's cost, a point for each: the other cards
/// in hand, the minions that died this turn, the attack of the weapon, the
/// cards played from elsewhere, the damage of spells this turn, the enemy's
/// minions, and the Coins in hand.
pub proof fn lemma_counted_discounts(c: Corpus, g: GameView, side: Side, other: Side, at: int)
    requires
        other != side,
    ensures
        ({
            let p = half(g, side);
            &&& p.hand.len() > 0 ==> CostFn::OtherCards.change(c, g, side, at) == -(p.hand.len() - 1)
            &&& p.hand.len() == 0 ==> CostFn::OtherCards.change(c, g, side, at) == 0
            &&& CostFn::DeathsThisTurn.change(c, g, side, at) == -g.deaths_this_turn
            &&& p.weapon is Some ==> CostFn::WeaponAttack.change(c, g, side, at)
                == -p.weapon->Some_0.atk
            &&& p.weapon is None ==> CostFn::WeaponAttack.change(c, g, side, at) == 0
            &&& CostFn::NotFromDeck.change(c, g, side, at) == -p.cards_played_not_from_deck
            &&& CostFn::SpellDamage.change(c, g, side, at) == -p.spell_damage_turn
            &&& CostFn::EnemyMinions.change(c, g, side, at) == -super::fighting(
                c,
                half(g, other).board,
            )
            &&& CostFn::CoinsHeld.change(c, g, side, at) == -super::held(c, p.hand, "The Coin"@)
        }),
{
    assert(side.opponent() == other);
}

/// One more card of a name in hand is counted, and no card of another name.
pub proof fn lemma_held(c: Corpus, hand: Seq<HandCard>, h: HandCard, name: Seq<char>)
    ensures
        super::held(c, Seq::<HandCard>::empty(), name) == 0,
        super::held(c, hand.push(h), name) == super::held(c, hand, name)
            + if c.tables.info@[h.card.0 as int].name@ == name {
            1nat
        } else {
            0
        },
{
    assert(hand.push(h).drop_last() =~= hand);
}

/// Whether another card in hand is of one of these tribes.
pub open spec fn another_of_tribe(c: Corpus, hand: Seq<HandCard>, at: int, race: u32) -> bool {
    exists|k: int|
        0 <= k < hand.len() && k != at && c.tables.defs@[(#[trigger] hand[k]).card.0 as int].races.0
            & race != 0
}

/// Whether a board has a Legendary.
pub open spec fn legendary_there(c: Corpus, board: Seq<Permanent>) -> bool {
    exists|k: int|
        0 <= k < board.len() && c.tables.defs@[(#[trigger] board[k]).card.0 as int].rarity == 5
}

/// Whether a board has something asleep.
pub open spec fn sleeper_there(board: Seq<Permanent>) -> bool {
    exists|k: int| 0 <= k < board.len() && (#[trigger] board[k]).dormant
}

/// The changes that hold all at once or not at all: while another card in hand
/// is of a tribe, while a tribe was played last turn, at either end of the
/// hand, after a Discover, with both boards empty, with a Legendary in play,
/// once every one of some schools was cast this turn, while the deck is that
/// large, while anything sleeps, or if any of some schools was cast last turn.
pub proof fn lemma_conditional_costs(
    c: Corpus,
    g: GameView,
    side: Side,
    at: int,
    race: u32,
    schools: u8,
    n: u16,
    d: i16,
)
    requires
        d != 0,
    ensures
        ({
            let p = half(g, side);
            let all = |f: CostFn, yes: bool| f.change(c, g, side, at) == if yes { d as int } else { 0 };
            &&& all(CostFn::HoldingRace(race, d), another_of_tribe(c, p.hand, at, race))
            &&& all(CostFn::Kindred(race, d), p.kindred.0 & race != 0)
            &&& all(CostFn::Outcast(d), at == 0 || at == p.hand.len() - 1)
            &&& all(CostFn::Discovered(d), p.discovered_turn)
            &&& all(CostFn::EmptyBoards(d), g.first.board.len() + g.second.board.len() == 0)
            &&& all(CostFn::ControlsLegendary(d), legendary_there(c, p.board))
            &&& all(CostFn::CastThisTurn(schools, d), p.schools_cast_turn & schools == schools)
            &&& all(CostFn::DeckAtLeast(n, d), p.deck.len() >= n)
            &&& all(
                CostFn::AnyDormant(d),
                sleeper_there(g.first.board) || sleeper_there(g.second.board),
            )
            &&& all(CostFn::CastLastTurn(schools, d), p.schools_cast_last & schools != 0)
        }),
{
    let p = half(g, side);
    assert(g.player(side) == p);
    let hand = p.hand;
    assert(another_of_tribe(c, hand, at, race) == super::others_of_race(c, hand, at, race)) by {
        if another_of_tribe(c, hand, at, race) {
            let k = choose|k: int|
                0 <= k < hand.len() && k != at && c.tables.defs@[(#[trigger] hand[k]).card.0 as int].races.0
                    & race != 0;
            assert(c.def_of(hand[k].card).races.meets(Races(race)));
        }
        if super::others_of_race(c, hand, at, race) {
            let k = choose|k: int|
                0 <= k < hand.len() && k != at && c.def_of((#[trigger] hand[k]).card).races.meets(
                    Races(race),
                );
            assert(c.tables.defs@[hand[k].card.0 as int].races.0 & race != 0);
        }
    }
    assert(legendary_there(c, p.board) == super::has_legendary(c, p.board)) by {
        if legendary_there(c, p.board) {
            let k = choose|k: int|
                0 <= k < p.board.len() && c.tables.defs@[(#[trigger] p.board[k]).card.0 as int].rarity
                    == 5;
            assert(c.def_of(p.board[k].card).rarity_of()
                == super::super::types::Rarity::Legendary);
        }
        if super::has_legendary(c, p.board) {
            let k = choose|k: int|
                0 <= k < p.board.len() && c.def_of((#[trigger] p.board[k]).card).rarity_of()
                    == super::super::types::Rarity::Legendary;
            assert(c.tables.defs@[p.board[k].card.0 as int].rarity == 5);
        }
    }
}

/// A card that has seen its holder play one of the opponent's costs one, and
/// any other what it did.
pub proof fn lemma_seen_card_costs_one(c: Corpus, g: GameView, side: Side, at: int)
    requires
        0 <= at < half(g, side).hand.len(),
    ensures
        ({
            let h = half(g, side).hand[at];
            let printed = c.tables.defs@[h.card.0 as int].cost;
            let change = CostFn::SawOpponentCard.change(c, g, side, at);
            &&& h.saw_opponent_card ==> printed + change == 1
            &&& !h.saw_opponent_card ==> change == 0
        }),
{
}

} // verus!
