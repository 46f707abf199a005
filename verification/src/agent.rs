//! A scripted policy.
//!
//! This is not meant to play well; it is meant to play *consistently*, so that
//! two decks compared against it differ because of the decks. It scores every
//! legal action and takes the best one, which keeps the policy in one function
//! instead of a ladder of special cases.
//!
//! Scores are in points of a minion's stats. Everything about them that is a
//! whole number of quarter points is computed here; what is not, a fraction
//! of a number the score names, is left to whoever weighs it.

use vstd::prelude::*;

use crate::cards::behaviour::behaviour_of;
use crate::cards::corpus::Corpus;
use crate::cards::hooks::TargetSpec;
use crate::cards::types::{CardId, Keywords, Kind};
use crate::state::{
    Action, Game, GameView, Outcome, Permanent, PlayerView, Side, Target, Weapon,
};

pub mod laws;

verus! {

/// How the policy values face damage against board control.
#[derive(Clone, Copy, PartialEq, Eq, Debug, Structural)]
pub enum Style {
    /// Race: push damage, trade only when forced.
    Aggro,
    /// Balance tempo against value.
    Midrange,
    /// Prioritise the board and the long game.
    Control,
}

impl Style {
    pub open spec fn ceiling(self) -> i16 {
        match self {
            Style::Aggro => 2,
            Style::Midrange => 3,
            Style::Control => 3,
        }
    }

    /// Mulligan cost ceiling.
    pub fn keep_threshold(self) -> (r: i16)
        ensures
            r == self.ceiling(),
    {
        match self {
            Style::Aggro => 2,
            Style::Midrange => 3,
            Style::Control => 3,
        }
    }

    pub open spec fn tenths(self) -> int {
        match self {
            Style::Aggro => 14,
            Style::Midrange => 9,
            Style::Control => 5,
        }
    }

    /// Weight applied to damage dealt to the enemy hero, in tenths.
    pub fn face_tenths(self) -> (r: u8)
        ensures
            r == self.tenths(),
    {
        match self {
            Style::Aggro => 14,
            Style::Midrange => 9,
            Style::Control => 5,
        }
    }
}

/// A greedy, deterministic policy.
#[derive(Clone, Copy, PartialEq, Eq, Debug, Structural)]
pub struct Scripted {
    pub style: Style,
}

/// How good an action is.
#[derive(Clone, Copy, PartialEq, Eq, Debug, Structural)]
pub enum Score {
    /// Never to be taken.
    Never,
    /// This many quarter points.
    Points { quarters: i64 },
    /// So many quarter points, and three tenths of a point for each point of
    /// the body it puts down.
    Body { quarters: i64, body: i32 },
    /// Twenty points, and what the style gives for this much damage to the
    /// enemy hero.
    Face { atk: i16 },
    /// So many quarter points, less eight tenths of a point for each point of
    /// damage taken in return.
    Swing { quarters: i64, counter: i16 },
}

/// What a keyword is worth where a minion has it.
pub open spec fn bonus_for(m: Permanent, bits: u64, halves: int) -> int {
    if m.shows(bits) {
        halves
    } else {
        0
    }
}

/// How much a minion is worth having on the board, in half points: a point
/// for each point of stats, and what its keywords are roughly worth in stats.
pub open spec fn worth(m: Permanent) -> int {
    2 * (m.atk + m.left()) + bonus_for(m, Keywords::TAUNT, 2) + bonus_for(
        m,
        Keywords::DIVINE_SHIELD,
        m.atk + 2,
    ) + bonus_for(m, Keywords::LIFESTEAL, 2) + bonus_for(m, Keywords::POISONOUS, 4) + bonus_for(
        m,
        Keywords::WINDFURY,
        m.atk as int,
    ) + bonus_for(m, Keywords::DEATHRATTLE, 2) + if m.spell_damage > 0 {
        2 * m.spell_damage
    } else {
        0
    }
}

/// How much a minion is worth having on the board, in half points.
///
/// Stats dominate; keywords add what they are roughly worth in stats. Kept
/// crude on purpose — a finely tuned heuristic here would be a hidden second
/// evaluation function competing with whatever search comes later.
pub fn minion_value(m: &Permanent) -> (r: i32)
    ensures
        r == worth(*m),
        -500_000 <= r <= 500_000,
{
    let mut v: i32 = 2 * (m.atk as i32 + m.health());
    if m.has(Keywords::TAUNT) {
        v = v + 2;
    }
    if m.has(Keywords::DIVINE_SHIELD) {
        v = v + m.atk as i32 + 2;
    }
    if m.has(Keywords::LIFESTEAL) {
        v = v + 2;
    }
    if m.has(Keywords::POISONOUS) {
        v = v + 4;
    }
    if m.has(Keywords::WINDFURY) {
        v = v + m.atk as i32;
    }
    if m.has(Keywords::DEATHRATTLE) {
        v = v + 2;
    }
    if m.spell_damage > 0 {
        v = v + 2 * m.spell_damage as i32;
    }
    v
}

/// Whether a requirement allows both sides.
pub open spec fn two_sided(spec: TargetSpec) -> bool {
    match spec {
        TargetSpec::AnyCharacter => true,
        TargetSpec::AnyMinion => true,
        TargetSpec::DamagedMinion => true,
        TargetSpec::UndamagedMinion => true,
        TargetSpec::LegendaryMinion => true,
        TargetSpec::MinionAtkAtMost(_) => true,
        TargetSpec::MinionAtkAtLeast(_) => true,
        _ => false,
    }
}

/// Whether the card could have been pointed at the other side instead.
///
/// A spec that only ever allows friendly targets is a card meant for its own
/// side, and asking whether it harms would answer "no" every time for the cost
/// of a game copy. These are the specs where both sides are legal, and so the
/// only ones where the choice of side can be wrong.
pub fn could_hit_an_enemy(spec: TargetSpec) -> (r: bool)
    ensures
        r == two_sided(spec),
{
    matches!(
        spec,
        TargetSpec::AnyCharacter | TargetSpec::AnyMinion | TargetSpec::DamagedMinion | TargetSpec::UndamagedMinion | TargetSpec::LegendaryMinion | TargetSpec::MinionAtkAtMost(_) | TargetSpec::MinionAtkAtLeast(_)
    )
}

/// What something that can be hit has left: health for a hero, health plus
/// attack for a minion.
pub open spec fn standing(g: GameView, t: Target) -> Option<int> {
    match t {
        Target::Hero(s) => Some(g.player(s).hero_hp + g.player(s).armor),
        Target::Minion(s, i) => match g.at(s, i) {
            Some(m) => Some(m.left() + m.atk),
            None => None,
        },
    }
}

fn standing_of(g: &Game, t: Target) -> (r: Option<i32>)
    ensures
        match (r, standing(g@, t)) {
            (Some(x), Some(y)) => x == y,
            (None, None) => true,
            _ => false,
        },
{
    match t {
        Target::Hero(s) => {
            let p = g.player(s);
            Some(p.hero_hp as i32 + p.armor as i32)
        },
        Target::Minion(s, i) => match g.slot(s, i) {
            Some(m) => Some(m.health() + m.atk as i32),
            None => None,
        },
    }
}

/// Whether something is worse off in one position than in another: it has
/// less left, or is gone.
pub open spec fn worse(before: GameView, after: GameView, t: Target) -> bool {
    match (standing(before, t), standing(after, t)) {
        (None, _) => false,
        (Some(_), None) => true,
        (Some(x), Some(y)) => y < x,
    }
}

/// Whether this can be the answer to whether an action harms a target: an
/// action that cannot be played harms nothing.
pub open spec fn harm<F: Fn(&Game, Action) -> Option<Game>>(
    apply: F,
    g: Game,
    a: Action,
    t: Target,
    r: bool,
) -> bool {
    if standing(g@, t) is None {
        !r
    } else {
        exists|after: Option<Game>|
            #[trigger] apply.ensures((&g, a), after) && r == (after matches Some(h) && worse(
                g@,
                h@,
                t,
            ))
    }
}

/// Whether playing `a` leaves the thing it hit worse off than it is now.
///
/// The engine answers, on a copy: `apply` plays an action, or says that it
/// cannot be played.
pub fn harms<F: Fn(&Game, Action) -> Option<Game>>(apply: &F, g: &Game, a: Action, t: Target) -> (r: bool)
    requires
        apply.requires((g, a)),
    ensures
        harm(*apply, *g, a, t, r),
{
    let before: i32 = match standing_of(g, t) {
        Some(v) => v,
        None => { return false; },
    };
    match apply(g, a) {
        None => {
            assert(apply.ensures((g, a), None));
            false
        },
        Some(probe) => {
            assert(apply.ensures((g, a), Some(probe)));
            // Gone is worse than anything a number could say.
            match standing_of(&probe, t) {
                None => true,
                Some(after) => after < before,
            }
        },
    }
}

/// Whether `a` is a spell aimed at its caster's own hero that could have gone
/// at the enemy instead.
pub open spec fn suspicious(c: Corpus, g: GameView, a: Action) -> bool {
    match a {
        Action::Play { hand, target, .. } => {
            let h = g.player(g.current).hand;
            &&& target == Some(Target::Hero(g.current))
            &&& hand < h.len()
            &&& c.def_of(h[hand as int].card).kind_of() == Kind::Spell
            &&& crate::cards::behaviour::row_of(c, h[hand as int].card) matches Some(b)
                && two_sided(b.target)
        },
        _ => false,
    }
}

/// Whether this can be the answer to whether an action hurts its own player's
/// hero.
pub open spec fn self_harm<F: Fn(&Game, Action) -> Option<Game>>(
    apply: F,
    c: Corpus,
    g: Game,
    a: Action,
    r: bool,
) -> bool {
    if suspicious(c, g@, a) {
        harm(apply, g, a, Target::Hero(g@.current), r)
    } else {
        !r
    }
}

/// Whether `a` is a spell aimed at its caster's own hero that hurts it.
///
/// Both halves matter. A card that could only ever target a friendly
/// character is one meant for its own side, and a minion's Battlecry pointed
/// at your own hero is ordinarily a heal or a buff; the case worth a game copy
/// is a spell that could have gone at the enemy instead.
pub fn self_harming_play<F: Fn(&Game, Action) -> Option<Game>>(
    apply: &F,
    c: &Corpus,
    g: &Game,
    a: Action,
) -> (r: bool)
    requires
        g@.wf(*c),
        apply.requires((g, a)),
    ensures
        self_harm(*apply, *c, *g, a, r),
{
    let (hand, target) = match a {
        Action::Play { hand, target, .. } => (hand, target),
        _ => { return false; },
    };
    let me = g.current;
    match target {
        Some(Target::Hero(s)) => {
            if s != me {
                return false;
            }
        },
        _ => { return false; },
    }
    let h = &g.player(me).hand;
    if hand as usize >= h.len() {
        return false;
    }
    let card = h[hand as usize].card;
    if card.def(c).kind() != Kind::Spell {
        return false;
    }
    let spec = match behaviour_of(c, card) {
        Some(b) => b.target,
        None => { return false; },
    };
    could_hit_an_enemy(spec) && harms(apply, g, a, Target::Hero(me))
}

// ------------------------------------------------------------------- score

/// Nothing, or what is more than nothing.
pub open spec fn at_least_zero(x: int) -> int {
    if x > 0 {
        x
    } else {
        0
    }
}

/// The damage a weapon can still deal.
pub open spec fn swings(w: Option<Weapon>) -> int {
    match w {
        Some(w) => at_least_zero(w.atk as int) * at_least_zero(w.durability as int),
        None => 0,
    }
}

/// How good it is to play a card.
///
/// Spending mana is almost always right, and a bigger card is usually the
/// better use of a turn. Equipping breaks whatever is already in the hand, so
/// an equal-or-worse swap without a Battlecry is a strict loss and belongs
/// below ending the turn.
pub open spec fn play_score(c: Corpus, p: PlayerView, hand: u8) -> Score {
    if hand >= p.hand.len() {
        Score::Never
    } else {
        let hc = p.hand[hand as int];
        let d = c.def_of(hc.card);
        let quarters = (160 + 8 * hc.cost) as i64;
        if d.kind_of() == Kind::Minion {
            Score::Body { quarters, body: (d.atk + d.hp) as i32 }
        } else if d.kind_of() == Kind::Weapon && p.weapon is Some && at_least_zero(d.atk + hc.atk)
            * at_least_zero(d.dur + hc.hp) <= swings(p.weapon) && !(
        crate::cards::behaviour::row_of(c, hc.card) matches Some(b) && b.battlecry is Some) {
            Score::Points { quarters: 2 }
        } else {
            Score::Points { quarters }
        }
    }
}

/// How good it is to attack: shared by minion and hero attacks.
///
/// `value` is what the attacker is worth in half points, nothing for a hero,
/// which cannot die from a counterattack the way a minion can.
pub open spec fn attack_worth(
    g: GameView,
    atk: i16,
    value: int,
    health: int,
    poisonous: bool,
    target: Target,
) -> Score {
    let foe = g.player(g.current.opponent());
    match target {
        Target::Hero(_) => if atk >= foe.hero_hp + foe.armor {
            Score::Points { quarters: 40_000 }
        } else {
            Score::Face { atk }
        },
        Target::Minion(s, i) => match g.at(s, i) {
            None => Score::Never,
            Some(m) => {
                let kills = (atk >= m.left() && !m.shows(Keywords::DIVINE_SHIELD)) || poisonous;
                let dies = m.atk >= health && value > 0;
                Score::Points {
                    quarters: (60 + (if kills {
                        3 * worth(m)
                    } else {
                        0
                    }) - (if dies {
                        2 * value
                    } else {
                        0
                    }) - (if !kills && dies {
                        80int
                    } else {
                        0
                    })) as i64,
                }
            },
        },
    }
}

/// How good it is to swing with the hero: never into lethal, and the damage
/// taken in return costs real health.
pub open spec fn hero_attack_score(g: GameView, target: Target) -> Score {
    let p = g.player(g.current);
    let counter: i16 = match target {
        Target::Hero(_) => 0,
        Target::Minion(s, i) => match g.at(s, i) {
            Some(m) => m.atk,
            None => 0,
        },
    };
    if counter >= p.hero_hp + p.armor {
        Score::Never
    } else {
        match attack_worth(g, p.hero_attack, 0, 0, false, target) {
            Score::Points { quarters } => Score::Swing { quarters, counter },
            other => other,
        }
    }
}

/// How good it is to use a hero power: worth doing with leftover mana, never
/// worth doing instead of developing the board. Damage is only pointed at
/// something it can finish, and what harms never at one's own side.
pub open spec fn hero_power_score(g: GameView, target: Option<Target>, second: bool) -> Score {
    let me = g.current;
    let p = g.player(me);
    let aim: int = match target {
        None => 0,
        Some(Target::Minion(s, i)) => match g.at(s, i) {
            None => 0,
            Some(m) => if s != me && m.left() <= 1 {
                80
            } else if s != me {
                8
            } else {
                -120
            },
        },
        Some(Target::Hero(s)) => {
            let harms = if second {
                p.second_hero_power matches Some(hp) && hp.harms
            } else {
                p.hero_power.harms
            };
            if harms == (s == me) {
                -120
            } else {
                0
            }
        },
    };
    Score::Points { quarters: (20 + aim) as i64 }
}

/// What a card of this kind needs pointed at.
pub open spec fn spec_of(c: Corpus, card: CardId) -> TargetSpec {
    match crate::cards::behaviour::row_of(c, card) {
        Some(b) => b.target,
        None => TargetSpec::NoTarget,
    }
}

/// Whether a card is a spell that has nothing to point at.
pub open spec fn uncastable(c: Corpus, g: GameView, card: CardId) -> bool {
    let spec = spec_of(c, card);
    &&& c.def_of(card).kind_of() == Kind::Spell
    &&& spec != TargetSpec::NoTarget
    &&& forall|i: int|
        0 <= i < g.targetable.len() ==> !spec.accepts(c, g, g.current, #[trigger] g.targetable[i])
}

/// How good it is to trade a card back.
///
/// Trading is what a Tradeable card is for when it is stuck: a removal spell
/// with nothing to point at cannot be cast at all, and is worth exactly one
/// mana and a fresh card. A card that could simply be played is scored below
/// every play.
pub open spec fn trade_score(c: Corpus, g: GameView, hand: u8) -> Score {
    let p = g.player(g.current);
    if hand >= p.hand.len() {
        Score::Never
    } else if uncastable(c, g, p.hand[hand as int].card) {
        Score::Points { quarters: 48 }
    } else if p.hand[hand as int].cost > p.mana {
        Score::Points { quarters: 16 }
    } else {
        Score::Points { quarters: 8 }
    }
}

/// How good an action is.
pub open spec fn score_of(c: Corpus, g: GameView, a: Action) -> Score {
    let p = g.player(g.current);
    match a {
        Action::Play { hand, .. } => play_score(c, p, hand),
        Action::Attack { from, target } => match g.at(g.current, from) {
            None => Score::Never,
            Some(att) => attack_worth(
                g,
                att.atk,
                worth(att),
                att.left(),
                att.shows(Keywords::POISONOUS),
                target,
            ),
        },
        Action::HeroAttack { target } => hero_attack_score(g, target),
        Action::HeroPower { target, second } => hero_power_score(g, target, second),
        Action::UseLocation { .. } => Score::Points { quarters: 120 },
        Action::Prepare { .. } => Score::Points { quarters: 12 },
        Action::Trade { hand } => trade_score(c, g, hand),
        Action::EndTurn => Score::Points { quarters: 4 },
    }
}

fn positive(x: i32) -> (r: i32)
    ensures
        r == at_least_zero(x as int),
{
    if x > 0 {
        x
    } else {
        0
    }
}

fn product(a: i32, b: i32) -> (r: i64)
    requires
        0 <= a <= 65_536,
        0 <= b <= 65_536,
    ensures
        r == a * b,
{
    assert(0 <= a * b <= 65_536 * 65_536) by (nonlinear_arith)
        requires
            0 <= a <= 65_536,
            0 <= b <= 65_536,
    ;
    a as i64 * b as i64
}

impl Scripted {
    pub fn new(style: Style) -> (r: Self)
        ensures
            r == (Scripted { style }),
    {
        Self { style }
    }

    fn score_play(&self, c: &Corpus, g: &Game, hand: u8) -> (r: Score)
        requires
            g@.wf(*c),
        ensures
            r == play_score(*c, g@.player(g@.current), hand),
    {
        let p = g.player(g.current);
        if hand as usize >= p.hand.len() {
            return Score::Never;
        }
        let hc = p.hand[hand as usize];
        let d = hc.card.def(c);
        let quarters: i64 = 160 + 8 * hc.cost as i64;
        if d.kind() == Kind::Minion {
            return Score::Body { quarters, body: d.atk as i32 + d.hp as i32 };
        }
        if d.kind() == Kind::Weapon {
            // Only a swap can be a loss. With nothing equipped there is
            // nothing to break.
            if let Some(w) = p.weapon {
                let now: i64 = product(positive(w.atk as i32), positive(w.durability as i32));
                let next: i64 = product(
                    positive(d.atk as i32 + hc.atk as i32),
                    positive(d.dur as i32 + hc.hp as i32),
                );
                // A Battlecry can be the whole reason to equip, and it fires
                // whatever the weapon is worth.
                let battlecry = match behaviour_of(c, hc.card) {
                    Some(b) => b.battlecry.is_some(),
                    None => false,
                };
                if next <= now && !battlecry {
                    return Score::Points { quarters: 2 };
                }
            }
        }
        Score::Points { quarters }
    }

    /// Shared by minion and hero attacks.
    pub fn attack_score(
        &self,
        g: &Game,
        atk: i16,
        attacker_value: i32,
        attacker_health: i32,
        poisonous: bool,
        target: Target,
    ) -> (r: Score)
        requires
            -500_000 <= attacker_value <= 500_000,
        ensures
            r == attack_worth(
                g@,
                atk,
                attacker_value as int,
                attacker_health as int,
                poisonous,
                target,
            ),
    {
        let foe = g.player(g.current.other());
        match target {
            Target::Hero(_) => {
                if atk as i32 >= foe.hero_hp as i32 + foe.armor as i32 {
                    // Lethal.
                    return Score::Points { quarters: 40_000 };
                }
                Score::Face { atk }
            },
            Target::Minion(s, i) => {
                let m = match g.slot(s, i) {
                    Some(m) => m,
                    None => { return Score::Never; },
                };
                let kills = (atk as i32 >= m.health() && !m.has(Keywords::DIVINE_SHIELD))
                    || poisonous;
                let dies = m.atk as i32 >= attacker_health && attacker_value > 0;
                let mut quarters: i64 = 60;
                if kills {
                    quarters = quarters + 3 * minion_value(&m) as i64;
                }
                if dies {
                    quarters = quarters - 2 * attacker_value as i64;
                }
                // A trade that kills nothing and loses the attacker is worse
                // than doing nothing at all.
                if !kills && dies {
                    quarters = quarters - 80;
                }
                Score::Points { quarters }
            },
        }
    }

    fn score_hero_attack(&self, g: &Game, target: Target) -> (r: Score)
        ensures
            r == hero_attack_score(g@, target),
    {
        let p = g.player(g.current);
        let counter: i16 = match target {
            Target::Hero(_) => 0,
            Target::Minion(s, i) => match g.slot(s, i) {
                Some(m) => m.atk,
                None => 0,
            },
        };
        if counter as i32 >= p.hero_hp as i32 + p.armor as i32 {
            return Score::Never;  // never swing into lethal
        }
        match self.attack_score(g, p.hero_attack, 0, 0, false, target) {
            Score::Points { quarters } => Score::Swing { quarters, counter },
            other => other,
        }
    }

    fn score_hero_power(&self, g: &Game, target: Option<Target>, second: bool) -> (r: Score)
        ensures
            r == hero_power_score(g@, target, second),
    {
        let me = g.current;
        let p = g.player(me);
        let aim: i64 = match target {
            None => 0,
            Some(Target::Minion(s, i)) => match g.slot(s, i) {
                None => 0,
                Some(m) => {
                    if s != me && m.health() <= 1 {
                        80
                    } else if s != me {
                        8
                    } else {
                        -120  // do not shoot your own board
                    }
                },
            },
            Some(Target::Hero(s)) => {
                let harms = if second {
                    match p.second_hero_power {
                        Some(hp) => hp.harms,
                        None => false,
                    }
                } else {
                    p.hero_power.harms
                };
                if harms == (s == me) {
                    -120
                } else {
                    0
                }
            },
        };
        Score::Points { quarters: 20 + aim }
    }

    fn score_trade(&self, c: &Corpus, g: &Game, hand: u8) -> (r: Score)
        requires
            g@.wf(*c),
        ensures
            r == trade_score(*c, g@, hand),
    {
        let me = g.current;
        let p = g.player(me);
        if hand as usize >= p.hand.len() {
            return Score::Never;
        }
        let hc = p.hand[hand as usize];
        let spec = match behaviour_of(c, hc.card) {
            Some(b) => b.target,
            None => TargetSpec::NoTarget,
        };
        let mut stuck = hc.card.def(c).kind() == Kind::Spell && spec.needed();
        if stuck {
            let mut i: usize = 0;
            while i < g.targetable.len() && stuck
                invariant
                    g@.wf(*c),
                    me == g@.current,
                    i <= g@.targetable.len(),
                    stuck ==> forall|k: int|
                        0 <= k < i ==> !spec.accepts(*c, g@, me, #[trigger] g@.targetable[k]),
                    !stuck ==> exists|k: int|
                        0 <= k < g@.targetable.len() && spec.accepts(
                            *c,
                            g@,
                            me,
                            #[trigger] g@.targetable[k],
                        ),
                decreases g.targetable.len() - i,
            {
                if spec.matches(c, g, me, g.targetable[i]) {
                    assert(spec.accepts(*c, g@, me, g@.targetable[i as int]));
                    stuck = false;
                }
                i += 1;
            }
        }
        if stuck {
            Score::Points { quarters: 48 }
        } else if hc.cost > p.mana {
            Score::Points { quarters: 16 }
        } else {
            Score::Points { quarters: 8 }
        }
    }

    /// How good an action is.
    pub fn score(&self, c: &Corpus, g: &Game, a: Action) -> (r: Score)
        requires
            g@.wf(*c),
        ensures
            r == score_of(*c, g@, a),
    {
        match a {
            Action::Play { hand, .. } => self.score_play(c, g, hand),
            Action::Attack { from, target } => match g.slot(g.current, from) {
                None => Score::Never,
                Some(att) => self.attack_score(
                    g,
                    att.atk,
                    minion_value(&att),
                    att.health(),
                    att.has(Keywords::POISONOUS),
                    target,
                ),
            },
            Action::HeroAttack { target } => self.score_hero_attack(g, target),
            Action::HeroPower { target, second } => self.score_hero_power(g, target, second),
            // A Location's ability is free, so using it is nearly always
            // right; the only question is whether the target is sensible,
            // which the target enumeration has already settled.
            Action::UseLocation { .. } => Score::Points { quarters: 120 },
            // Banking mana into a card you cannot cast is better than wasting
            // it, but never better than actually developing.
            Action::Prepare { .. } => Score::Points { quarters: 12 },
            Action::Trade { hand } => self.score_trade(c, g, hand),
            Action::EndTurn => Score::Points { quarters: 4 },
        }
    }
}

// ------------------------------------------------------------------ choice

/// Whether these are the weights of the scores of the legal actions.
pub open spec fn weighed<W: Fn(Score) -> i64>(
    weigh: W,
    c: Corpus,
    g: GameView,
    legal: Seq<Action>,
    keys: Seq<i64>,
) -> bool {
    &&& keys.len() == legal.len()
    &&& forall|i: int|
        0 <= i < keys.len() ==> weigh.ensures((score_of(c, g, legal[i]),), #[trigger] keys[i])
}

/// Whether an action may be taken at all.
pub open spec fn eligible(c: Corpus, g: GameView, legal: Seq<Action>, skip: Option<Action>, i: int) -> bool {
    &&& 0 <= i < legal.len()
    &&& score_of(c, g, legal[i]) != Score::Never
    &&& skip != Some(legal[i])
}

/// Whether the action at `i` is the first of those with the highest weight.
pub open spec fn best(
    c: Corpus,
    g: GameView,
    legal: Seq<Action>,
    keys: Seq<i64>,
    skip: Option<Action>,
    i: int,
) -> bool {
    &&& eligible(c, g, legal, skip, i)
    &&& forall|j: int|
        #[trigger] eligible(c, g, legal, skip, j) ==> keys[j] <= keys[i] && (j < i ==> keys[j]
            < keys[i])
}

/// Whether an action is the pick: the best there is, or to end the turn where
/// there is none.
pub open spec fn is_pick(
    c: Corpus,
    g: GameView,
    legal: Seq<Action>,
    keys: Seq<i64>,
    skip: Option<Action>,
    a: Action,
) -> bool {
    ||| exists|i: int| #[trigger] best(c, g, legal, keys, skip, i) && a == legal[i]
    ||| (forall|i: int| !#[trigger] eligible(c, g, legal, skip, i)) && a == Action::EndTurn
}

/// Whether an action is the pick, and this the answer to whether it hurts its
/// own player's hero.
pub open spec fn picked<F: Fn(&Game, Action) -> Option<Game>>(
    apply: F,
    c: Corpus,
    g: Game,
    legal: Seq<Action>,
    keys: Seq<i64>,
    skip: Option<Action>,
    a: Action,
    hurts: bool,
) -> bool {
    is_pick(c, g@, legal, keys, skip, a) && self_harm(apply, c, g, a, hurts)
}

/// Whether this is the choice once the first pick has turned out to hurt: the
/// best of the rest, or to end the turn where that hurts as well.
pub open spec fn retried<F: Fn(&Game, Action) -> Option<Game>>(
    apply: F,
    c: Corpus,
    g: Game,
    legal: Seq<Action>,
    keys: Seq<i64>,
    first: Action,
    r: Action,
) -> bool {
    exists|second: Action, hurts: bool|
        #[trigger] picked(apply, c, g, legal, keys, Some(first), second, hurts) && r == if hurts {
            Action::EndTurn
        } else {
            second
        }
}

/// Whether this is the choice: the best action, unless it hurts its own
/// player's hero.
pub open spec fn chosen<F: Fn(&Game, Action) -> Option<Game>>(
    apply: F,
    c: Corpus,
    g: Game,
    legal: Seq<Action>,
    keys: Seq<i64>,
    r: Action,
) -> bool {
    exists|first: Action, hurts: bool|
        #[trigger] picked(apply, c, g, legal, keys, None, first, hurts) && if hurts {
            retried(apply, c, g, legal, keys, first, r)
        } else {
            r == first
        }
}

impl Scripted {
    /// The first of the actions with the highest weight.
    fn pick(
        &self,
        c: &Corpus,
        g: &Game,
        legal: &[Action],
        scores: &Vec<Score>,
        keys: &Vec<i64>,
        skip: Option<Action>,
    ) -> (r: Action)
        requires
            scores@.len() == legal@.len(),
            keys@.len() == legal@.len(),
            forall|i: int| 0 <= i < legal@.len() ==> #[trigger] scores@[i] == score_of(*c, g@, legal@[i]),
        ensures
            is_pick(*c, g@, legal@, keys@, skip, r),
    {
        let mut at: Option<usize> = None;
        let mut i: usize = 0;
        while i < legal.len()
            invariant
                i <= legal@.len(),
                scores@.len() == legal@.len(),
                keys@.len() == legal@.len(),
                forall|i: int|
                    0 <= i < legal@.len() ==> #[trigger] scores@[i] == score_of(*c, g@, legal@[i]),
                at is None ==> forall|j: int| j < i ==> !#[trigger] eligible(*c, g@, legal@, skip, j),
                at matches Some(b) ==> b < i && eligible(*c, g@, legal@, skip, b as int) && forall|j: int|
                    j < i && #[trigger] eligible(*c, g@, legal@, skip, j) ==> keys@[j] <= keys@[b as int]
                        && (j < b ==> keys@[j] < keys@[b as int]),
            decreases legal.len() - i,
        {
            let a = legal[i];
            let skipped = match skip {
                Some(s) => s == a,
                None => false,
            };
            let never = matches!(scores[i], Score::Never);
            proof {
                assert(scores@[i as int] == score_of(*c, g@, legal@[i as int]));
                assert(eligible(*c, g@, legal@, skip, i as int) == (!skipped && !never));
            }
            if !skipped && !never {
                // Strictly greater keeps the choice deterministic: with equal
                // scores the earlier action wins, and enumeration order is
                // fixed.
                let better = match at {
                    Some(b) => keys[i] > keys[b],
                    None => true,
                };
                if better {
                    at = Some(i);
                }
            }
            i += 1;
        }
        match at {
            Some(b) => {
                proof {
                    assert(best(*c, g@, legal@, keys@, skip, b as int));
                }
                legal[b]
            },
            None => Action::EndTurn,
        }
    }

    /// The action to take.
    ///
    /// `weigh` orders the scores, and `apply` plays an action on a copy.
    ///
    /// Which side of a two-sided card to aim at is not in the corpus:
    /// `AnyCharacter` is the spec on Fireball and on a heal alike. Rather than
    /// guess the polarity from the printed text, the action that has won is
    /// played on a copy to see what it did to the hero. One retry: the second
    /// pick cannot be the same action, and a second self-harming one is a
    /// position with nothing better.
    pub fn choose_action<W: Fn(Score) -> i64, F: Fn(&Game, Action) -> Option<Game>>(
        &self,
        c: &Corpus,
        g: &Game,
        legal: &[Action],
        weigh: &W,
        apply: &F,
    ) -> (r: Action)
        requires
            g@.wf(*c),
            forall|s: Score| #[trigger] weigh.requires((s,)),
            forall|a: Action| #[trigger] apply.requires((g, a)),
        ensures
            exists|keys: Seq<i64>|
                #[trigger] weighed(*weigh, *c, g@, legal@, keys) && chosen(
                    *apply,
                    *c,
                    *g,
                    legal@,
                    keys,
                    r,
                ),
    {
        let mut scores: Vec<Score> = Vec::new();
        let mut keys: Vec<i64> = Vec::new();
        let mut i: usize = 0;
        while i < legal.len()
            invariant
                g@.wf(*c),
                forall|s: Score| #[trigger] weigh.requires((s,)),
                i <= legal@.len(),
                scores@.len() == i,
                keys@.len() == i,
                forall|k: int| 0 <= k < i ==> #[trigger] scores@[k] == score_of(*c, g@, legal@[k]),
                forall|k: int|
                    0 <= k < i ==> weigh.ensures((score_of(*c, g@, legal@[k]),), #[trigger] keys@[k]),
            decreases legal.len() - i,
        {
            let s = self.score(c, g, legal[i]);
            let k: i64 = weigh(s);
            scores.push(s);
            keys.push(k);
            i += 1;
        }
        assert(weighed(*weigh, *c, g@, legal@, keys@));
        let first = self.pick(c, g, legal, &scores, &keys, None);
        let hurts = self_harming_play(apply, c, g, first);
        assert(picked(*apply, *c, *g, legal@, keys@, None, first, hurts));
        if !hurts {
            return first;
        }
        let second = self.pick(c, g, legal, &scores, &keys, Some(first));
        let again = self_harming_play(apply, c, g, second);
        assert(picked(*apply, *c, *g, legal@, keys@, Some(first), second, again));
        if !again {
            assert(retried(*apply, *c, *g, legal@, keys@, first, second));
            return second;
        }
        assert(retried(*apply, *c, *g, legal@, keys@, first, Action::EndTurn));
        Action::EndTurn
    }

    /// Which of the cards drawn are kept, a bit for each: those that cost no
    /// more than the style's ceiling.
    pub fn mulligan(&self, c: &Corpus, drawn: &[CardId]) -> (r: u32)
        requires
            c.wf(),
            drawn@.len() <= 32,
            forall|i: int| 0 <= i < drawn@.len() ==> c.has(#[trigger] drawn@[i]),
        ensures
            r == kept(*c, drawn@, self.style.ceiling()),
    {
        let t: i16 = self.style.keep_threshold();
        let mut keep: u64 = 0;
        let mut bit: u64 = 1;
        let mut i: usize = 0;
        proof {
            vstd::arithmetic::power2::lemma2_to64();
        }
        while i < drawn.len()
            invariant
                c.wf(),
                drawn@.len() <= 32,
                forall|i: int| 0 <= i < drawn@.len() ==> c.has(#[trigger] drawn@[i]),
                i <= drawn@.len(),
                t == self.style.ceiling(),
                bit == vstd::arithmetic::power2::pow2(i as nat),
                bit <= 0x1_0000_0000,
                keep < bit,
                keep == kept(*c, drawn@.take(i as int), t),
            decreases drawn.len() - i,
        {
            proof {
                assert(drawn@.take(i + 1).drop_last() =~= drawn@.take(i as int));
                vstd::arithmetic::power2::lemma_pow2_unfold((i + 1) as nat);
                vstd::arithmetic::power2::lemma2_to64();
                if i + 1 < 32 {
                    vstd::arithmetic::power2::lemma_pow2_strictly_increases((i + 1) as nat, 32);
                }
            }
            if drawn[i].def(c).cost <= t {
                keep = keep + bit;
            }
            bit = bit * 2;
            i += 1;
        }
        proof {
            assert(drawn@.take(i as int) =~= drawn@);
        }
        keep as u32
    }
}

/// The cards of a hand that cost no more than a ceiling, a bit for each.
pub open spec fn kept(c: Corpus, drawn: Seq<CardId>, ceiling: i16) -> nat
    decreases drawn.len(),
{
    if drawn.len() == 0 {
        0
    } else {
        kept(c, drawn.drop_last(), ceiling) + if c.def_of(drawn.last()).cost <= ceiling {
            vstd::arithmetic::power2::pow2((drawn.len() - 1) as nat)
        } else {
            0
        }
    }
}

// ---------------------------------------------------------------- position

/// What an outcome is worth to a side, in half points: two for a win, one for
/// a draw.
pub open spec fn halves_for(outcome: Outcome, side: Side) -> int {
    match outcome {
        Outcome::Draw => 1,
        Outcome::Win(w) => if w == side {
            2
        } else {
            0
        },
    }
}

/// What an outcome is worth to a side, in half points.
pub fn score_for(outcome: Outcome, side: Side) -> (r: u8)
    ensures
        r == halves_for(outcome, side),
{
    match outcome {
        Outcome::Draw => 1,
        Outcome::Win(w) => if w == side {
            2
        } else {
            0
        },
    }
}

/// What the minions of a board that take part are worth together, in half
/// points.
pub open spec fn board_worth(c: Corpus, board: Seq<Permanent>) -> int
    decreases board.len(),
{
    if board.len() == 0 {
        0
    } else {
        board_worth(c, board.drop_last()) + if board.last().fights(c) {
            worth(board.last())
        } else {
            0
        }
    }
}

/// What the cards of a hand are worth together, in quarter points: a small
/// body each, and a quarter of what the game itself prices it at.
pub open spec fn hand_worth(c: Corpus, hand: Seq<crate::state::HandCard>) -> int
    decreases hand.len(),
{
    if hand.len() == 0 {
        0
    } else {
        hand_worth(c, hand.drop_last()) + 4 + at_least_zero(
            c.def_of(hand.last().card).cost + hand.last().cost_delta,
        )
    }
}

/// What a weapon is worth, in quarter points: half of the damage it can still
/// deal.
pub open spec fn weapon_worth(w: Option<Weapon>) -> int {
    match w {
        Some(w) => 2 * (w.atk * w.durability),
        None => 0,
    }
}

/// How good a whole position is for a side, in quarter points.
///
/// A finished game dominates everything else: no board is worth losing on.
/// Health is worth less per point than a body is.
pub open spec fn position_worth(c: Corpus, g: GameView, side: Side) -> int {
    match g.outcome {
        Some(o) => (halves_for(o, side) - 1) * 2000,
        None => {
            let me = g.player(side);
            let foe = g.player(side.opponent());
            2 * board_worth(c, me.board) - 2 * board_worth(c, foe.board) + 2 * (me.hero_hp + me.armor)
                - 2 * (foe.hero_hp + foe.armor) + hand_worth(c, me.hand) + weapon_worth(me.weapon)
                - weapon_worth(foe.weapon) + me.crystals
        },
    }
}

fn board_value(c: &Corpus, g: &Game, side: Side) -> (r: i64)
    requires
        g@.wf(*c),
    ensures
        r == board_worth(*c, g@.player(side).board),
        -127_500_000 <= r <= 127_500_000,
{
    let board = &g.player(side).board;
    let mut v: i64 = 0;
    let mut i: usize = 0;
    while i < board.len()
        invariant
            c.wf(),
            g@.player(side).wf(*c),
            board@ == g@.player(side).board,
            i <= board@.len() <= 255,
            -500_000 * i <= v <= 500_000 * i,
            v == board_worth(*c, board@.take(i as int)),
        decreases board.len() - i,
    {
        proof {
            assert(board@.take(i + 1).drop_last() =~= board@.take(i as int));
        }
        if board[i].is_minion(c) && board[i].active {
            v = v + minion_value(&board[i]) as i64;
        }
        i += 1;
    }
    proof {
        assert(board@.take(i as int) =~= board@);
    }
    v
}

fn hand_value(c: &Corpus, g: &Game, side: Side) -> (r: i64)
    requires
        g@.wf(*c),
    ensures
        r == hand_worth(*c, g@.player(side).hand),
        0 <= r <= 20_000_000,
{
    let hand = &g.player(side).hand;
    let mut v: i64 = 0;
    let mut i: usize = 0;
    while i < hand.len()
        invariant
            c.wf(),
            g@.player(side).wf(*c),
            hand@ == g@.player(side).hand,
            i <= hand@.len() <= 255,
            0 <= v <= 70_000 * i,
            v == hand_worth(*c, hand@.take(i as int)),
        decreases hand.len() - i,
    {
        proof {
            assert(hand@.take(i + 1).drop_last() =~= hand@.take(i as int));
        }
        let price: i32 = hand[i].card.def(c).cost as i32 + hand[i].cost_delta as i32;
        v = v + 4 + positive(price) as i64;
        i += 1;
    }
    proof {
        assert(hand@.take(i as int) =~= hand@);
    }
    v
}

fn weapon_value(w: Option<Weapon>) -> (r: i64)
    ensures
        r == weapon_worth(w),
        -2_200_000_000 <= r <= 2_200_000_000,
{
    match w {
        Some(w) => {
            assert(-1_073_741_824 <= w.atk * w.durability <= 1_073_741_824) by (nonlinear_arith)
                requires
                    -32_768 <= w.atk <= 32_767,
                    -32_768 <= w.durability <= 32_767,
            ;
            2 * (w.atk as i64 * w.durability as i64)
        },
        None => 0,
    }
}

/// How good a whole position is for `side`, in quarters of a stat point.
///
/// The engine needs this for exactly one thing: Rewind, which asks the player
/// to look at what a card just did and decide whether to take it or roll
/// again. Nothing here looks at the *deck*, so a Rewind that changed what is
/// left to draw is judged only by what is already on the table.
pub fn position_value(c: &Corpus, g: &Game, side: Side) -> (r: i64)
    requires
        g@.wf(*c),
    ensures
        r == position_worth(*c, g@, side),
{
    if let Some(o) = g.outcome {
        return (score_for(o, side) as i64 - 1) * 2000;
    }
    let me = g.player(side);
    let foe = g.player(side.other());
    let mut v: i64 = 2 * board_value(c, g, side) - 2 * board_value(c, g, side.other());
    v = v + 2 * (me.hero_hp as i64 + me.armor as i64);
    v = v - 2 * (foe.hero_hp as i64 + foe.armor as i64);
    v = v + hand_value(c, g, side);
    v = v + weapon_value(me.weapon);
    // Theirs counts too: a card that arms both players is a worse roll when it
    // arms them better.
    v = v - weapon_value(foe.weapon);
    v + me.crystals as i64
}

} // verus!
