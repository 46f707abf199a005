//! What is read of a position.

use vstd::prelude::*;

use super::{Game, GameView, Permanent, Player, PlayerView, Side};
use crate::cards::corpus::Corpus;

verus! {

/// A player's opponent is another player, whose opponent the player is; the
/// first player has the place zero and the second the place one.
pub proof fn lemma_opponents(side: Side)
    ensures
        side.opponent() != side,
        side.opponent().opponent() == side,
        side.place() + side.opponent().place() == 1,
        side.place() == 0 <==> side == Side::Player0,
{
}

/// The first half of a position is the first player's, the second the
/// second's.
pub proof fn lemma_halves(g: GameView)
    ensures
        g.player(Side::Player0) == g.first,
        g.player(Side::Player1) == g.second,
{
}

/// Another half for one player leaves everything else as it was.
pub proof fn lemma_with_player(g: GameView, side: Side, p: PlayerView)
    ensures
        g.with_player(side, p).player(side) == p,
        g.with_player(side, p).player(side.opponent()) == g.player(side.opponent()),
        g.with_player(side, p).current == g.current,
        g.with_player(side, p).outcome == g.outcome,
        g.with_player(side, p).deaths_this_turn == g.deaths_this_turn,
        g.with_player(side, p).targetable == g.targetable,
        g.with_player(side, p).limits == g.limits,
        g.with_player(side, g.player(side)) == g,
{
}

/// A slot holds what the board has there, and nothing beyond its end.
pub proof fn lemma_slots(g: GameView, slot: u8, m: Permanent)
    ensures
        g.at(Side::Player0, slot) == Some(m) <==> slot < g.first.board.len() && g.first.board[slot as int]
            == m,
        g.at(Side::Player1, slot) == Some(m) <==> slot < g.second.board.len() && g.second.board[slot as int]
            == m,
{
}

/// A minion has what its damage has not taken of its health.
pub proof fn lemma_health_left(m: Permanent)
    ensures
        m.left() + m.damage == m.max_health,
        m.left() <= 0 <==> m.damage >= m.max_health,
{
}

/// A minion shows keywords where each of their bits is set.
pub proof fn lemma_shown(m: Permanent, bits: u64)
    ensures
        m.shows(bits) <==> m.keywords.0 & bits == bits,
{
}

/// A minion that is not dormant fights; no Location and no other card does.
pub proof fn lemma_fights(c: Corpus, m: Permanent)
    ensures
        m.fights(c) <==> m.active && c.tables.defs@[m.card.0 as int].kind == 0,
{
}

/// What is said of a player is what the player has.
pub proof fn lemma_player_read(p: Player)
    ensures
        p@.hero_hp == p.hero_hp,
        p@.armor == p.armor,
        p@.hero_attack == p.hero_attack,
        p@.mana == p.mana,
        p@.crystals == p.crystals,
        p@.overload_now == p.overload_now,
        p@.rangers_played == p.rangers_played,
        p@.discovered_turn == p.discovered_turn,
        p@.schools_cast_turn == p.schools_cast_turn,
        p@.schools_cast_last == p.schools_cast_last,
        p@.cards_played_not_from_deck == p.cards_played_not_from_deck,
        p@.spell_damage_turn == p.spell_damage_turn,
        p@.kindred == p.kindred,
        p@.hero_power == p.hero_power,
        p@.second_hero_power == p.second_hero_power,
        p@.weapon == p.weapon,
        p@.board == p.board@,
        p@.hand == p.hand@,
        p@.deck == p.deck@,
{
}

/// What is said of a position is what it holds.
pub proof fn lemma_game_read(g: Game)
    ensures
        g@.first == g.first@,
        g@.second == g.second@,
        g@.current == g.current,
        g@.outcome == g.outcome,
        g@.deaths_this_turn == g.deaths_this_turn,
        g@.targetable == g.targetable@,
        g@.limits == g.limits,
{
}

} // verus!
