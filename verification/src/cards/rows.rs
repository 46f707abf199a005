//! Every implemented card, as a row of the behaviour table.

use vstd::prelude::*;

use super::hooks::{m, Aura, Behaviour, Bonus, CostFn, Effect, Mode, Secret, Slot, TargetSpec, Trigger};
use super::row_data::{
    AURA_ATTACK, AURA_HEALTH, AURA_KINDS, AURA_RACES, AURA_ROWS, BONUS_ATTACK, BONUS_KINDS,
    BONUS_LIMITS, BONUS_ROWS, COST_CHANGES, COST_KINDS, COST_LIMITS, COST_ROWS, HOOKS_A, HOOKS_B, HOOKS_C, HOOKS_D, MODE_ROWS, MODE_TARGETS, NAMES_A,
    NAMES_B, NAMES_C, NAMES_D, TARGETS_A, TARGETS_B, TARGETS_C, TARGETS_D,
};

pub mod laws;

verus! {

/// What a number of the table says a card needs pointed at.
pub open spec fn target_numbered(n: u8) -> TargetSpec {
    if n == 0 {
        TargetSpec::NoTarget
    } else if n == 1 {
        TargetSpec::AnyCharacter
    } else if n == 2 {
        TargetSpec::AnyMinion
    } else if n == 3 {
        TargetSpec::EnemyMinion
    } else if n == 4 {
        TargetSpec::FriendlyMinion
    } else if n == 5 {
        TargetSpec::EnemyCharacter
    } else if n == 6 {
        TargetSpec::FriendlyCharacter
    } else if n == 7 {
        TargetSpec::MinionAtkAtMost(3)
    } else if n == 8 {
        TargetSpec::MinionAtkAtLeast(5)
    } else if n == 9 {
        TargetSpec::MinionAtkAtLeast(7)
    } else if n == 10 {
        TargetSpec::DamagedEnemyMinion
    } else if n == 11 {
        TargetSpec::DamagedMinion
    } else if n == 12 {
        TargetSpec::UndamagedMinion
    } else if n == 13 {
        TargetSpec::FriendlyBeast
    } else if n == 14 {
        TargetSpec::LegendaryMinion
    } else if n == 15 {
        TargetSpec::EnemyMinionWithRace
    } else if n == 16 {
        TargetSpec::EnemyTaunt
    } else {
        TargetSpec::FriendlyLocation
    }
}

fn target_of(n: u8) -> (r: TargetSpec)
    ensures
        r == target_numbered(n),
{
    match n {
        0 => TargetSpec::NoTarget,
        1 => TargetSpec::AnyCharacter,
        2 => TargetSpec::AnyMinion,
        3 => TargetSpec::EnemyMinion,
        4 => TargetSpec::FriendlyMinion,
        5 => TargetSpec::EnemyCharacter,
        6 => TargetSpec::FriendlyCharacter,
        7 => TargetSpec::MinionAtkAtMost(3),
        8 => TargetSpec::MinionAtkAtLeast(5),
        9 => TargetSpec::MinionAtkAtLeast(7),
        10 => TargetSpec::DamagedEnemyMinion,
        11 => TargetSpec::DamagedMinion,
        12 => TargetSpec::UndamagedMinion,
        13 => TargetSpec::FriendlyBeast,
        14 => TargetSpec::LegendaryMinion,
        15 => TargetSpec::EnemyMinionWithRace,
        16 => TargetSpec::EnemyTaunt,
        _ => TargetSpec::FriendlyLocation,
    }
}

/// The aura at a place of the list of auras.
pub open spec fn aura_numbered(k: int) -> Aura {
    let (a, h) = (AURA_ATTACK@[k], AURA_HEALTH@[k]);
    if AURA_KINDS@[k] == 0 {
        Aura::Others(a, h)
    } else if AURA_KINDS@[k] == 1 {
        Aura::OthersOfRace(AURA_RACES@[k], a, h)
    } else {
        Aura::Neighbours(a, h)
    }
}

/// The aura of a row, looked for from a place of the list of auras on.
pub open spec fn aura_from(row: int, k: nat) -> Option<Aura>
    decreases AURA_ROWS@.len() - k,
{
    if k >= AURA_ROWS@.len() {
        None
    } else if AURA_ROWS@[k as int] == row {
        Some(aura_numbered(k as int))
    } else {
        aura_from(row, k + 1)
    }
}

/// The bonus at a place of the list of bonuses.
pub open spec fn bonus_numbered(k: int) -> Bonus {
    let (kind, n, a) = (BONUS_KINDS@[k], BONUS_LIMITS@[k], BONUS_ATTACK@[k]);
    if kind == 0 {
        Bonus::Damaged(a)
    } else if kind == 1 {
        Bonus::OpponentsTurn(a)
    } else if kind == 2 {
        Bonus::ControlsRace(n, a)
    } else if kind == 3 {
        Bonus::Alone(a)
    } else if kind == 4 {
        Bonus::Armed(a)
    } else if kind == 5 {
        Bonus::ControlsLocation(a)
    } else if kind == 6 {
        Bonus::Overloaded(a)
    } else {
        Bonus::DeckAtLeast((n % 65536) as u16, a)
    }
}

/// The bonus of a row, looked for from a place of the list of bonuses on.
pub open spec fn bonus_from(row: int, k: nat) -> Option<Bonus>
    decreases BONUS_ROWS@.len() - k,
{
    if k >= BONUS_ROWS@.len() {
        None
    } else if BONUS_ROWS@[k as int] == row {
        Some(bonus_numbered(k as int))
    } else {
        bonus_from(row, k + 1)
    }
}

/// The cost adjustment at a place of the list of them.
pub open spec fn cost_numbered(k: int) -> CostFn {
    let (kind, n, d) = (COST_KINDS@[k], COST_LIMITS@[k], COST_CHANGES@[k]);
    if kind == 0 {
        CostFn::OtherCards
    } else if kind == 1 {
        CostFn::HoldingRace(n as u32, d)
    } else if kind == 2 {
        CostFn::Kindred(n as u32, d)
    } else if kind == 3 {
        CostFn::DeathsThisTurn
    } else if kind == 4 {
        CostFn::Outcast(d)
    } else if kind == 5 {
        CostFn::SawOpponentCard
    } else if kind == 6 {
        CostFn::WeaponAttack
    } else if kind == 7 {
        CostFn::Discovered(d)
    } else if kind == 8 {
        CostFn::EmptyBoards(d)
    } else if kind == 9 {
        CostFn::CoinsHeld
    } else if kind == 10 {
        CostFn::ControlsLegendary(d)
    } else if kind == 11 {
        CostFn::CastThisTurn((n % 256) as u8, d)
    } else if kind == 12 {
        CostFn::DeckAtLeast(n, d)
    } else if kind == 13 {
        CostFn::EnemyMinions
    } else if kind == 14 {
        CostFn::AnyDormant(d)
    } else if kind == 15 {
        CostFn::NotFromDeck
    } else if kind == 16 {
        CostFn::CastLastTurn((n % 256) as u8, d)
    } else {
        CostFn::SpellDamage
    }
}

/// The cost adjustment of a row, looked for from a place of the list of them
/// on.
pub open spec fn cost_from(row: int, k: nat) -> Option<CostFn>
    decreases COST_ROWS@.len() - k,
{
    if k >= COST_ROWS@.len() {
        None
    } else if COST_ROWS@[k as int] == row {
        Some(cost_numbered(k as int))
    } else {
        cost_from(row, k + 1)
    }
}

/// The effect of a row that hangs on a hook.
pub open spec fn effect_at(row: int, slot: Slot) -> Effect {
    Effect { row: row as u16, slot }
}

/// The modes of a row among the first `k` modes of the table.
pub open spec fn modes_upto(row: int, k: nat) -> Seq<Mode>
    decreases k,
{
    if k == 0 {
        seq![]
    } else {
        let rest = modes_upto(row, (k - 1) as nat);
        if MODE_ROWS@[k - 1] == row {
            rest.push(
                Mode {
                    target: target_numbered(MODE_TARGETS@[k - 1]),
                    effect: effect_at(row, Slot::Mode(rest.len() as u8)),
                },
            )
        } else {
            rest
        }
    }
}

/// Whether a row has the effect of a bit.
pub open spec fn answers(hooks: u16, bit: u16) -> bool {
    (hooks / bit) % 2 == 1
}

/// Whether a row is the one that the table says: each effect is named by the
/// row it belongs to and the hook it hangs on.
pub open spec fn says(b: Behaviour, row: int, name: &'static str, target: u8, hooks: u16) -> bool {
    &&& b.name == name
    &&& b.target == target_numbered(target)
    &&& b.spell == if answers(hooks, 1) { Some(effect_at(row, Slot::Spell)) } else { None }
    &&& b.battlecry == if answers(hooks, 2) { Some(effect_at(row, Slot::Battlecry)) } else { None }
    &&& b.deathrattle == if answers(hooks, 4) { Some(effect_at(row, Slot::Deathrattle)) } else { None }
    &&& b.trigger == if answers(hooks, 8) { Some(Trigger(row as u16)) } else { None }
    &&& b.aura == aura_from(row, 0)
    &&& b.bonus == bonus_from(row, 0)
    &&& b.secret == if answers(hooks, 64) { Some(Secret(row as u16)) } else { None }
    &&& b.cost_delta == cost_from(row, 0)
    &&& match b.choose {
        Some(modes) => answers(hooks, 256) && modes@ == modes_upto(row, MODE_ROWS@.len()),
        None => !answers(hooks, 256),
    }
    &&& b.start_of_game == if answers(hooks, 512) { Some(effect_at(row, Slot::StartOfGame)) } else { None }
}

/// The row at a place of the table.
pub open spec fn is_row(b: Behaviour, row: int) -> bool {
    if row < 255 {
        says(b, row, NAMES_A@[row], TARGETS_A@[row], HOOKS_A@[row])
    } else if row < 510 {
        says(b, row, NAMES_B@[row - 255], TARGETS_B@[row - 255], HOOKS_B@[row - 255])
    } else if row < 765 {
        says(b, row, NAMES_C@[row - 510], TARGETS_C@[row - 510], HOOKS_C@[row - 510])
    } else {
        says(b, row, NAMES_D@[row - 765], TARGETS_D@[row - 765], HOOKS_D@[row - 765])
    }
}

fn aura_of(row: u16) -> (r: Option<Aura>)
    ensures
        r == aura_from(row as int, 0),
{
    let mut k: usize = 0;
    while k < AURA_ROWS.len()
        invariant
            k <= AURA_ROWS@.len(),
            aura_from(row as int, 0) == aura_from(row as int, k as nat),
        decreases AURA_ROWS@.len() - k,
    {
        if AURA_ROWS[k] == row {
            let a: i16 = AURA_ATTACK[k];
            let h: i16 = AURA_HEALTH[k];
            return Some(
                match AURA_KINDS[k] {
                    0 => Aura::Others(a, h),
                    1 => Aura::OthersOfRace(AURA_RACES[k], a, h),
                    _ => Aura::Neighbours(a, h),
                },
            );
        }
        k += 1;
    }
    None
}

fn bonus_of(row: u16) -> (r: Option<Bonus>)
    ensures
        r == bonus_from(row as int, 0),
{
    let mut k: usize = 0;
    while k < BONUS_ROWS.len()
        invariant
            k <= BONUS_ROWS@.len(),
            bonus_from(row as int, 0) == bonus_from(row as int, k as nat),
        decreases BONUS_ROWS@.len() - k,
    {
        if BONUS_ROWS[k] == row {
            let a: i16 = BONUS_ATTACK[k];
            return Some(
                match BONUS_KINDS[k] {
                    0 => Bonus::Damaged(a),
                    1 => Bonus::OpponentsTurn(a),
                    2 => Bonus::ControlsRace(BONUS_LIMITS[k], a),
                    3 => Bonus::Alone(a),
                    4 => Bonus::Armed(a),
                    5 => Bonus::ControlsLocation(a),
                    6 => Bonus::Overloaded(a),
                    _ => Bonus::DeckAtLeast((BONUS_LIMITS[k] % 65536) as u16, a),
                },
            );
        }
        k += 1;
    }
    None
}

fn cost_of(row: u16) -> (r: Option<CostFn>)
    ensures
        r == cost_from(row as int, 0),
{
    let mut k: usize = 0;
    while k < COST_ROWS.len()
        invariant
            k <= COST_ROWS@.len(),
            cost_from(row as int, 0) == cost_from(row as int, k as nat),
        decreases COST_ROWS@.len() - k,
    {
        if COST_ROWS[k] == row {
            let n: u16 = COST_LIMITS[k];
            let d: i16 = COST_CHANGES[k];
            return Some(
                match COST_KINDS[k] {
                    0 => CostFn::OtherCards,
                    1 => CostFn::HoldingRace(n as u32, d),
                    2 => CostFn::Kindred(n as u32, d),
                    3 => CostFn::DeathsThisTurn,
                    4 => CostFn::Outcast(d),
                    5 => CostFn::SawOpponentCard,
                    6 => CostFn::WeaponAttack,
                    7 => CostFn::Discovered(d),
                    8 => CostFn::EmptyBoards(d),
                    9 => CostFn::CoinsHeld,
                    10 => CostFn::ControlsLegendary(d),
                    11 => CostFn::CastThisTurn((n % 256) as u8, d),
                    12 => CostFn::DeckAtLeast(n, d),
                    13 => CostFn::EnemyMinions,
                    14 => CostFn::AnyDormant(d),
                    15 => CostFn::NotFromDeck,
                    16 => CostFn::CastLastTurn((n % 256) as u8, d),
                    _ => CostFn::SpellDamage,
                },
            );
        }
        k += 1;
    }
    None
}

fn modes_of(row: u16) -> (r: Vec<Mode>)
    ensures
        r@ == modes_upto(row as int, MODE_ROWS@.len()),
{
    let mut out: Vec<Mode> = Vec::new();
    let mut k: usize = 0;
    while k < MODE_ROWS.len()
        invariant
            k <= MODE_ROWS@.len(),
            out@.len() <= k,
            out@ == modes_upto(row as int, k as nat),
        decreases MODE_ROWS@.len() - k,
    {
        if MODE_ROWS[k] == row {
            let slot = Slot::Mode(out.len() as u8);
            out.push(m(target_of(MODE_TARGETS[k]), Effect { row, slot }));
        }
        k += 1;
    }
    out
}

fn row_of(row: u16, name: &'static str, target: u8, hooks: u16) -> (r: Behaviour)
    ensures
        says(r, row as int, name, target, hooks),
{
    Behaviour {
        name,
        target: target_of(target),
        spell: if hooks % 2 == 1 { Some(Effect { row, slot: Slot::Spell }) } else { None },
        battlecry: if (hooks / 2) % 2 == 1 { Some(Effect { row, slot: Slot::Battlecry }) } else { None },
        deathrattle: if (hooks / 4) % 2 == 1 { Some(Effect { row, slot: Slot::Deathrattle }) } else { None },
        trigger: if (hooks / 8) % 2 == 1 { Some(Trigger(row)) } else { None },
        aura: aura_of(row),
        bonus: bonus_of(row),
        secret: if (hooks / 64) % 2 == 1 { Some(Secret(row)) } else { None },
        cost_delta: cost_of(row),
        choose: if (hooks / 256) % 2 == 1 { Some(modes_of(row)) } else { None },
        start_of_game: if (hooks / 512) % 2 == 1 { Some(Effect { row, slot: Slot::StartOfGame }) } else { None },
    }
}

fn push_rows(
    out: &mut Vec<Behaviour>,
    names: &[&'static str],
    targets: &[u8],
    hooks: &[u16],
)
    requires
        names@.len() == targets@.len() == hooks@.len() == 255,
        old(out)@.len() <= 765,
    ensures
        final(out)@.len() == old(out)@.len() + 255,
        forall|i: int| 0 <= i < old(out)@.len() ==> #[trigger] final(out)@[i] == old(out)@[i],
        forall|i: int|
            0 <= i < 255 ==> says(
                #[trigger] final(out)@[old(out)@.len() + i],
                old(out)@.len() + i,
                names@[i],
                targets@[i],
                hooks@[i],
            ),
{
    let ghost before = out@;
    let base: usize = out.len();
    let mut i: usize = 0;
    while i < 255
        invariant
            i <= 255,
            base == before.len(),
            base <= 765,
            names@.len() == targets@.len() == hooks@.len() == 255,
            out@.len() == base + i,
            forall|k: int| 0 <= k < base ==> #[trigger] out@[k] == before[k],
            forall|k: int|
                0 <= k < i ==> says(
                    #[trigger] out@[base + k],
                    base + k,
                    names@[k],
                    targets@[k],
                    hooks@[k],
                ),
        decreases 255 - i,
    {
        let ghost now = out@;
        let b = row_of((base + i) as u16, names[i], targets[i], hooks[i]);
        out.push(b);
        proof {
            assert forall|k: int| 0 <= k < i + 1 implies says(
                #[trigger] out@[base + k],
                base + k,
                names@[k],
                targets@[k],
                hooks@[k],
            ) by {
                if k < i {
                    assert(out@[base + k] == now[base + k]);
                }
            }
        }
        i += 1;
    }
}

/// Every implemented card.
pub fn behaviours() -> (r: Vec<Behaviour>)
    ensures
        r@.len() == 1020,
        forall|i: int| 0 <= i < 1020 ==> is_row(#[trigger] r@[i], i),
{
    let mut out: Vec<Behaviour> = Vec::new();
    push_rows(&mut out, &NAMES_A, &TARGETS_A, &HOOKS_A);
    push_rows(&mut out, &NAMES_B, &TARGETS_B, &HOOKS_B);
    let ghost half = out@;
    push_rows(&mut out, &NAMES_C, &TARGETS_C, &HOOKS_C);
    let ghost most = out@;
    push_rows(&mut out, &NAMES_D, &TARGETS_D, &HOOKS_D);
    proof {
        assert forall|i: int| 0 <= i < 1020 implies is_row(#[trigger] out@[i], i) by {
            if i < 255 {
                assert(out@[i] == most[i] && most[i] == half[i]);
                assert(half[i] == half[0 + i]);
            } else if i < 510 {
                assert(out@[i] == most[i] && most[i] == half[i]);
                assert(half[i] == half[255 + (i - 255)]);
            } else if i < 765 {
                assert(out@[i] == most[510 + (i - 510)]);
            } else {
                assert(out@[i] == out@[765 + (i - 765)]);
            }
        }
    }
    out
}

proof fn lemma_modes(row: int, k: nat)
    requires
        k <= MODE_ROWS@.len(),
    ensures
        modes_upto(row, k).len() <= k,
        forall|i: int|
            0 <= i < modes_upto(row, k).len() ==> (#[trigger] modes_upto(row, k)[i]).effect == effect_at(
                row,
                Slot::Mode(i as u8),
            ),
    decreases k,
{
    if k > 0 {
        lemma_modes(row, (k - 1) as nat);
    }
}

/// The modes of a Choose One card do things of their own: no two of them have
/// the same effect, nor do modes of two rows.
pub proof fn lemma_modes_apart(a: int, i: int, b: int, j: int)
    requires
        0 <= a <= u16::MAX,
        0 <= b <= u16::MAX,
        0 <= i < modes_upto(a, MODE_ROWS@.len()).len(),
        0 <= j < modes_upto(b, MODE_ROWS@.len()).len(),
        modes_upto(a, MODE_ROWS@.len())[i].effect == modes_upto(b, MODE_ROWS@.len())[j].effect,
    ensures
        a == b,
        i == j,
{
    lemma_modes(a, MODE_ROWS@.len());
    lemma_modes(b, MODE_ROWS@.len());
}

} // verus!
