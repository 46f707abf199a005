//! What the rows of the behaviour table say.

use vstd::prelude::*;

use super::super::hooks::{Aura, Behaviour, Bonus, CostFn, Mode, Slot, TargetSpec};
use super::super::row_data::{
    AURA_ATTACK, AURA_HEALTH, AURA_KINDS, AURA_RACES, AURA_ROWS, BONUS_ATTACK, BONUS_KINDS,
    BONUS_LIMITS, BONUS_ROWS, COST_CHANGES, COST_KINDS, COST_LIMITS, COST_ROWS, HOOKS_A, HOOKS_B,
    HOOKS_C, HOOKS_D, MODE_ROWS, MODE_TARGETS, NAMES_A, NAMES_B, NAMES_C, NAMES_D, TARGETS_A,
    TARGETS_B, TARGETS_C, TARGETS_D,
};

verus! {

/// Each requirement has a number of its own in the table, in their order; what
/// asks for a Location has all the rest.
pub proof fn lemma_target_numbers(n: u8)
    ensures
        super::target_numbered(n) == TargetSpec::NoTarget <==> n == 0,
        super::target_numbered(n) == TargetSpec::AnyCharacter <==> n == 1,
        super::target_numbered(n) == TargetSpec::AnyMinion <==> n == 2,
        super::target_numbered(n) == TargetSpec::EnemyMinion <==> n == 3,
        super::target_numbered(n) == TargetSpec::FriendlyMinion <==> n == 4,
        super::target_numbered(n) == TargetSpec::EnemyCharacter <==> n == 5,
        super::target_numbered(n) == TargetSpec::FriendlyCharacter <==> n == 6,
        super::target_numbered(n) == TargetSpec::MinionAtkAtMost(3) <==> n == 7,
        super::target_numbered(n) == TargetSpec::MinionAtkAtLeast(5) <==> n == 8,
        super::target_numbered(n) == TargetSpec::MinionAtkAtLeast(7) <==> n == 9,
        super::target_numbered(n) == TargetSpec::DamagedEnemyMinion <==> n == 10,
        super::target_numbered(n) == TargetSpec::DamagedMinion <==> n == 11,
        super::target_numbered(n) == TargetSpec::UndamagedMinion <==> n == 12,
        super::target_numbered(n) == TargetSpec::FriendlyBeast <==> n == 13,
        super::target_numbered(n) == TargetSpec::LegendaryMinion <==> n == 14,
        super::target_numbered(n) == TargetSpec::EnemyMinionWithRace <==> n == 15,
        super::target_numbered(n) == TargetSpec::EnemyTaunt <==> n == 16,
        super::target_numbered(n) == TargetSpec::FriendlyLocation <==> n >= 17,
{
}

/// A row answers a hook exactly where the hook's bit is set, and what it does
/// there is its own.
pub proof fn lemma_row_hooks(b: Behaviour, row: int, name: &'static str, target: u8, hooks: u16)
    requires
        0 <= row <= u16::MAX,
        super::says(b, row, name, target, hooks),
    ensures
        b.name == name,
        b.target == super::target_numbered(target),
        b.aura == super::aura_from(row, 0),
        b.bonus == super::bonus_from(row, 0),
        b.cost_delta == super::cost_from(row, 0),
        b.choose matches Some(modes) ==> modes@ == super::modes_upto(row, MODE_ROWS@.len()),
        b.spell is Some <==> hooks % 2 == 1,
        b.battlecry is Some <==> (hooks / 2) % 2 == 1,
        b.deathrattle is Some <==> (hooks / 4) % 2 == 1,
        b.trigger is Some <==> (hooks / 8) % 2 == 1,
        b.secret is Some <==> (hooks / 64) % 2 == 1,
        b.choose is Some <==> (hooks / 256) % 2 == 1,
        b.start_of_game is Some <==> (hooks / 512) % 2 == 1,
        b.spell matches Some(e) ==> e.row == row && e.slot == Slot::Spell,
        b.battlecry matches Some(e) ==> e.row == row && e.slot == Slot::Battlecry,
        b.deathrattle matches Some(e) ==> e.row == row && e.slot == Slot::Deathrattle,
        b.start_of_game matches Some(e) ==> e.row == row && e.slot == Slot::StartOfGame,
        b.trigger matches Some(t) ==> t.0 == row,
        b.secret matches Some(t) ==> t.0 == row,
{
    assert(hooks / 1 == hooks);
}

/// The table comes in four parts of two hundred and fifty-five rows, the last
/// one shorter; a row has the name at its place, the requirement there, and
/// the hooks there.
pub proof fn lemma_row_places(b: Behaviour, row: int)
    requires
        super::is_row(b, row),
    ensures
        0 <= row < 255 ==> super::says(b, row, NAMES_A@[row], TARGETS_A@[row], HOOKS_A@[row]),
        255 <= row < 510 ==> super::says(
            b,
            row,
            NAMES_B@[row - 255],
            TARGETS_B@[row - 255],
            HOOKS_B@[row - 255],
        ),
        510 <= row < 765 ==> super::says(
            b,
            row,
            NAMES_C@[row - 510],
            TARGETS_C@[row - 510],
            HOOKS_C@[row - 510],
        ),
        765 <= row ==> super::says(
            b,
            row,
            NAMES_D@[row - 765],
            TARGETS_D@[row - 765],
            HOOKS_D@[row - 765],
        ),
{
}

/// An aura of the table is of the kind its number names, and grants what the
/// table has at its place.
pub proof fn lemma_aura_numbers(k: int)
    requires
        0 <= k < AURA_ROWS@.len(),
    ensures
        AURA_KINDS@[k] == 0 ==> super::aura_numbered(k) == Aura::Others(AURA_ATTACK@[k], AURA_HEALTH@[k]),
        AURA_KINDS@[k] == 1 ==> super::aura_numbered(k) == Aura::OthersOfRace(
            AURA_RACES@[k],
            AURA_ATTACK@[k],
            AURA_HEALTH@[k],
        ),
        AURA_KINDS@[k] >= 2 ==> super::aura_numbered(k) == Aura::Neighbours(
            AURA_ATTACK@[k],
            AURA_HEALTH@[k],
        ),
{
}

/// A row has an aura exactly where the list of auras names it, and then the
/// first that does.
pub proof fn lemma_aura_of_a_row(row: int, k: nat)
    ensures
        super::aura_from(row, k) is None <==> forall|i: int|
            k <= i < AURA_ROWS@.len() ==> #[trigger] AURA_ROWS@[i] != row,
        super::aura_from(row, k) is Some ==> exists|i: int|
            {
                &&& k <= i < AURA_ROWS@.len()
                &&& #[trigger] AURA_ROWS@[i] == row
                &&& super::aura_from(row, k) == Some(super::aura_numbered(i))
                &&& forall|j: int| k <= j < i ==> #[trigger] AURA_ROWS@[j] != row
            },
    decreases AURA_ROWS@.len() - k,
{
    if k < AURA_ROWS@.len() && AURA_ROWS@[k as int] != row {
        lemma_aura_of_a_row(row, k + 1);
    }
}

/// A bonus of the table is of the kind its number names, with the tribe or
/// number at its place where it needs one.
pub proof fn lemma_bonus_numbers(k: int)
    requires
        0 <= k < BONUS_ROWS@.len(),
    ensures
        ({
            let (kind, n, a) = (BONUS_KINDS@[k], BONUS_LIMITS@[k], BONUS_ATTACK@[k]);
            let b = super::bonus_numbered(k);
            &&& kind == 0 ==> b == Bonus::Damaged(a)
            &&& kind == 1 ==> b == Bonus::OpponentsTurn(a)
            &&& kind == 2 ==> b == Bonus::ControlsRace(n, a)
            &&& kind == 3 ==> b == Bonus::Alone(a)
            &&& kind == 4 ==> b == Bonus::Armed(a)
            &&& kind == 5 ==> b == Bonus::ControlsLocation(a)
            &&& kind == 6 ==> b == Bonus::Overloaded(a)
            &&& kind >= 7 && n < 65536 ==> b == Bonus::DeckAtLeast(n as u16, a)
        }),
{
}

/// A row has a bonus exactly where the list of bonuses names it, and then the
/// first that does.
pub proof fn lemma_bonus_of_a_row(row: int, k: nat)
    ensures
        super::bonus_from(row, k) is None <==> forall|i: int|
            k <= i < BONUS_ROWS@.len() ==> #[trigger] BONUS_ROWS@[i] != row,
        super::bonus_from(row, k) is Some ==> exists|i: int|
            {
                &&& k <= i < BONUS_ROWS@.len()
                &&& #[trigger] BONUS_ROWS@[i] == row
                &&& super::bonus_from(row, k) == Some(super::bonus_numbered(i))
                &&& forall|j: int| k <= j < i ==> #[trigger] BONUS_ROWS@[j] != row
            },
    decreases BONUS_ROWS@.len() - k,
{
    if k < BONUS_ROWS@.len() && BONUS_ROWS@[k as int] != row {
        lemma_bonus_of_a_row(row, k + 1);
    }
}

/// A cost adjustment of the table is of the kind its number names, with the
/// change, and the tribe, schools or number at its place where it needs one.
pub proof fn lemma_cost_numbers(k: int)
    requires
        0 <= k < COST_ROWS@.len(),
    ensures
        ({
            let (kind, n, d) = (COST_KINDS@[k], COST_LIMITS@[k], COST_CHANGES@[k]);
            let f = super::cost_numbered(k);
            &&& kind == 0 ==> f == CostFn::OtherCards
            &&& kind == 1 ==> f == CostFn::HoldingRace(n as u32, d)
            &&& kind == 2 ==> f == CostFn::Kindred(n as u32, d)
            &&& kind == 3 ==> f == CostFn::DeathsThisTurn
            &&& kind == 4 ==> f == CostFn::Outcast(d)
            &&& kind == 5 ==> f == CostFn::SawOpponentCard
            &&& kind == 6 ==> f == CostFn::WeaponAttack
            &&& kind == 7 ==> f == CostFn::Discovered(d)
            &&& kind == 8 ==> f == CostFn::EmptyBoards(d)
            &&& kind == 9 ==> f == CostFn::CoinsHeld
            &&& kind == 10 ==> f == CostFn::ControlsLegendary(d)
            &&& kind == 11 && n < 256 ==> f == CostFn::CastThisTurn(n as u8, d)
            &&& kind == 12 ==> f == CostFn::DeckAtLeast(n, d)
            &&& kind == 13 ==> f == CostFn::EnemyMinions
            &&& kind == 14 ==> f == CostFn::AnyDormant(d)
            &&& kind == 15 ==> f == CostFn::NotFromDeck
            &&& kind == 16 && n < 256 ==> f == CostFn::CastLastTurn(n as u8, d)
            &&& kind >= 17 ==> f == CostFn::SpellDamage
        }),
{
}

/// A row has a cost adjustment exactly where the list of them names it, and
/// then the first that does.
pub proof fn lemma_cost_of_a_row(row: int, k: nat)
    ensures
        super::cost_from(row, k) is None <==> forall|i: int|
            k <= i < COST_ROWS@.len() ==> #[trigger] COST_ROWS@[i] != row,
        super::cost_from(row, k) is Some ==> exists|i: int|
            {
                &&& k <= i < COST_ROWS@.len()
                &&& #[trigger] COST_ROWS@[i] == row
                &&& super::cost_from(row, k) == Some(super::cost_numbered(i))
                &&& forall|j: int| k <= j < i ==> #[trigger] COST_ROWS@[j] != row
            },
    decreases COST_ROWS@.len() - k,
{
    if k < COST_ROWS@.len() && COST_ROWS@[k as int] != row {
        lemma_cost_of_a_row(row, k + 1);
    }
}

/// One mode more of the table is one more mode of its own row, the next in
/// number and with the requirement at its place, and of no other.
pub proof fn lemma_next_mode(row: int, k: nat)
    requires
        0 <= row <= u16::MAX,
        k < MODE_ROWS@.len() <= 255,
    ensures
        ({
            let before = super::modes_upto(row, k);
            let after = super::modes_upto(row, k + 1);
            &&& MODE_ROWS@[k as int] != row ==> after == before
            &&& MODE_ROWS@[k as int] == row ==> {
                &&& after.len() == before.len() + 1
                &&& after.drop_last() == before
                &&& after.last().target == super::target_numbered(MODE_TARGETS@[k as int])
                &&& after.last().effect.row == row
                &&& after.last().effect.slot == Slot::Mode(before.len() as u8)
            }
        }),
        super::modes_upto(row, 0) == Seq::<Mode>::empty(),
{
    let before = super::modes_upto(row, k);
    let after = super::modes_upto(row, k + 1);
    if MODE_ROWS@[k as int] == row {
        assert(after.drop_last() =~= before);
    }
}

} // verus!
