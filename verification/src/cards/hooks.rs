//! What a row of the behaviour table says of a card: what it needs pointed
//! at, and which hooks it answers.

use vstd::prelude::*;

verus! {

/// What a card needs pointed at before it can be played.
///
/// This drives action enumeration, so a card whose requirement cannot be met
/// is not offered at all — the same rule the real game applies when it greys
/// a card out.
#[derive(Clone, Copy, PartialEq, Eq, Debug, Structural)]
pub enum TargetSpec {
    /// No target.
    NoTarget,
    /// Any hero or minion.
    AnyCharacter,
    AnyMinion,
    EnemyMinion,
    FriendlyMinion,
    EnemyCharacter,
    FriendlyCharacter,
    /// A minion with at most this much attack.
    MinionAtkAtMost(i16),
    /// A minion with at least this much attack.
    MinionAtkAtLeast(i16),
    DamagedEnemyMinion,
    /// Any damaged minion, either side (Ominous Nightmares).
    DamagedMinion,
    UndamagedMinion,
    FriendlyBeast,
    /// A Legendary minion, either side (Garona's Last Stand).
    LegendaryMinion,
    /// An enemy minion that has a minion type at all (Bugsquasher). A body
    /// with no tribe is not a legal target, which is the whole joke.
    EnemyMinionWithRace,
    /// An enemy minion with Taunt (The Black Knight). A requirement, not a
    /// preference: with nothing taunting, the card has no legal target at
    /// all — which is exactly when its Tradeable half earns its keep.
    EnemyTaunt,
    /// One of your own Locations (Welcome Home!). The only spec that points
    /// at something that is not a minion, which is why the guard has to ask
    /// what kind of permanent it is before it checks anything else.
    FriendlyLocation,
}

impl TargetSpec {
    /// Whether this card needs a target chosen.
    pub fn needed(self) -> (r: bool)
        ensures
            r == (self != TargetSpec::NoTarget),
    {
        !matches!(self, TargetSpec::NoTarget)
    }
}

/// The hook of a row that an effect hangs on.
#[derive(Clone, Copy, PartialEq, Eq, Debug, Structural)]
pub enum Slot {
    Spell,
    Battlecry,
    Deathrattle,
    StartOfGame,
    /// A Choose One mode, counted from nought within its row.
    Mode(u8),
}

/// A card effect, as what the engine dispatches it by: the row it belongs to
/// and the hook of that row it hangs on. No two effects of the table share
/// both.
#[derive(Clone, Copy, PartialEq, Eq, Debug, Structural)]
pub struct Effect {
    pub row: u16,
    pub slot: Slot,
}

/// A reaction to events, as the row it belongs to.
#[derive(Clone, Copy, PartialEq, Eq, Debug, Structural)]
pub struct Trigger(pub u16);

/// A secret's reaction to an event, as the row it belongs to.
#[derive(Clone, Copy, PartialEq, Eq, Debug, Structural)]
pub struct Secret(pub u16);

/// A dynamic cost adjustment: what a card in hand costs more or less.
///
/// Read every time a cost is asked for rather than applied once, because the
/// conditions are live — "costs (2) less if you're holding a Dragon" stops
/// applying the moment the Dragon is played.
#[derive(Clone, Copy, PartialEq, Eq, Debug, Structural)]
pub enum CostFn {
    /// One less for each other card in hand.
    OtherCards,
    /// So much while another card in hand is of one of these tribes.
    HoldingRace(u32, i16),
    /// So much while one of these tribes was played last turn.
    Kindred(u32, i16),
    /// One less for each minion that died this turn.
    DeathsThisTurn,
    /// So much while the card is the leftmost or rightmost in hand.
    Outcast(i16),
    /// Down to one while its holder has played a card of the opponent's class
    /// with it in hand.
    SawOpponentCard,
    /// One less for each point of the weapon's attack.
    WeaponAttack,
    /// So much after a Discover this turn.
    Discovered(i16),
    /// So much while both boards are empty.
    EmptyBoards(i16),
    /// One less for each Coin in hand.
    CoinsHeld,
    /// So much while its holder has a Legendary in play.
    ControlsLegendary(i16),
    /// So much once spells of all of these schools were cast this turn.
    CastThisTurn(u8, i16),
    /// So much while the deck holds at least so many cards.
    DeckAtLeast(u16, i16),
    /// One less for each minion of the enemy.
    EnemyMinions,
    /// So much while any minion is dormant.
    AnyDormant(i16),
    /// One less for each card played that did not start in the deck.
    NotFromDeck,
    /// So much if a spell of one of these schools was cast last turn.
    CastLastTurn(u8, i16),
    /// One less for each point of damage by spells this turn.
    SpellDamage,
}

/// What one aura source grants other minions.
///
/// Deliberately a matter of board positions rather than of the whole game: an
/// aura that could read arbitrary state would be impossible to recompute
/// safely, and every real aura is a question about who is next to whom and
/// what tribe they are.
#[derive(Clone, Copy, PartialEq, Eq, Debug, Structural)]
pub enum Aura {
    /// Every other friendly minion gets `(attack, health)`.
    Others(i16, i16),
    /// Every other friendly minion of one of these tribes gets it.
    OthersOfRace(u32, i16, i16),
    /// The friendly minions next to it get it.
    Neighbours(i16, i16),
}

/// What a minion grants itself while a condition holds, as extra attack.
///
/// A bonus reads only what its recomputation does not itself change: damage,
/// the turn, the weapon, the board, the deck.
#[derive(Clone, Copy, PartialEq, Eq, Debug, Structural)]
pub enum Bonus {
    /// While it is damaged.
    Damaged(i16),
    /// During the opponent's turn.
    OpponentsTurn(i16),
    /// While its controller has a minion of one of these tribes.
    ControlsRace(u32, i16),
    /// While its controller has no other minion.
    Alone(i16),
    /// While its controller has a weapon.
    Armed(i16),
    /// While its controller has a Location.
    ControlsLocation(i16),
    /// While its controller has crystals locked this turn.
    Overloaded(i16),
    /// While its controller's deck holds at least this many cards.
    DeckAtLeast(u16, i16),
}

/// One half of a Choose One card.
#[derive(Clone, Copy, PartialEq, Eq, Debug, Structural)]
pub struct Mode {
    pub target: TargetSpec,
    pub effect: Effect,
}

/// Shorthand for a Choose One mode.
pub fn m(target: TargetSpec, effect: Effect) -> (r: Mode)
    ensures
        r == (Mode { target, effect }),
{
    Mode { target, effect }
}

/// One card's behaviour.
#[derive(Debug)]
pub struct Behaviour {
    /// Card name, matched against every printing.
    pub name: &'static str,
    pub target: TargetSpec,
    /// Cast effect, for spells.
    pub spell: Option<Effect>,
    /// Fires when a minion or weapon is played from hand.
    pub battlecry: Option<Effect>,
    /// Fires when a minion dies.
    pub deathrattle: Option<Effect>,
    /// Fires on anything happening anywhere while this permanent is in play.
    pub trigger: Option<Trigger>,
    /// A continuous effect on other minions, true while this one is in play.
    pub aura: Option<Aura>,
    /// A continuous effect a minion has on *itself*.
    pub bonus: Option<Bonus>,
    /// A secret's reaction.
    pub secret: Option<Secret>,
    /// A cost adjustment computed from the position, in mana.
    pub cost_delta: Option<CostFn>,
    /// Choose One modes. When present these replace the card's own `spell` or
    /// `battlecry`, and each mode brings its own target requirement — the two
    /// halves of a Choose One rarely want the same thing pointed at.
    pub choose: Option<Vec<Mode>>,
    /// Fires once per game, for every copy found in a player's opening hand
    /// or deck, after both mulligans and before the Coin is handed out.
    pub start_of_game: Option<Effect>,
}

/// A row, one parameter per hook: adding a hook is a compile error everywhere
/// it matters rather than a silently defaulted field.
#[allow(clippy::too_many_arguments)]
pub fn c(
    name: &'static str,
    target: TargetSpec,
    spell: Option<Effect>,
    battlecry: Option<Effect>,
    deathrattle: Option<Effect>,
    trigger: Option<Trigger>,
    aura: Option<Aura>,
    secret: Option<Secret>,
    choose: Option<Vec<Mode>>,
    cost_delta: Option<CostFn>,
    start_of_game: Option<Effect>,
) -> (r: Behaviour)
    ensures
        r == (Behaviour {
            name,
            target,
            spell,
            battlecry,
            deathrattle,
            trigger,
            aura,
            bonus: None,
            secret,
            cost_delta,
            choose,
            start_of_game,
        }),
{
    Behaviour {
        name,
        target,
        spell,
        battlecry,
        deathrattle,
        trigger,
        aura,
        bonus: None,
        secret,
        cost_delta,
        choose,
        start_of_game,
    }
}

/// A row that answers no hook.
pub open spec fn silent(name: &'static str, target: TargetSpec) -> Behaviour {
    Behaviour {
        name,
        target,
        spell: None,
        battlecry: None,
        deathrattle: None,
        trigger: None,
        aura: None,
        bonus: None,
        secret: None,
        cost_delta: None,
        choose: None,
        start_of_game: None,
    }
}

/// A minion whose only behaviour is a continuous effect on itself.
pub fn bonus(name: &'static str, f: Bonus) -> (r: Behaviour)
    ensures
        r == (Behaviour { bonus: Some(f), ..silent(name, TargetSpec::NoTarget) }),
{
    Behaviour {
        name,
        target: TargetSpec::NoTarget,
        spell: None,
        battlecry: None,
        deathrattle: None,
        trigger: None,
        aura: None,
        bonus: Some(f),
        secret: None,
        cost_delta: None,
        choose: None,
        start_of_game: None,
    }
}

/// A card whose only behaviour is what it casts.
pub fn spell(name: &'static str, target: TargetSpec, f: Effect) -> (r: Behaviour)
    ensures
        r == (Behaviour { spell: Some(f), ..silent(name, target) }),
{
    c(name, target, Some(f), None, None, None, None, None, None, None, None)
}

/// A card whose only behaviour fires on being played.
pub fn battlecry(name: &'static str, target: TargetSpec, f: Effect) -> (r: Behaviour)
    ensures
        r == (Behaviour { battlecry: Some(f), ..silent(name, target) }),
{
    c(name, target, None, Some(f), None, None, None, None, None, None, None)
}

/// A card whose only behaviour fires on its death.
pub fn deathrattle(name: &'static str, f: Effect) -> (r: Behaviour)
    ensures
        r == (Behaviour { deathrattle: Some(f), ..silent(name, TargetSpec::NoTarget) }),
{
    c(name, TargetSpec::NoTarget, None, None, Some(f), None, None, None, None, None, None)
}

/// A Choose One card.
pub fn choose_one(name: &'static str, modes: Vec<Mode>) -> (r: Behaviour)
    ensures
        r == (Behaviour { choose: Some(modes), ..silent(name, TargetSpec::NoTarget) }),
{
    c(name, TargetSpec::NoTarget, None, None, None, None, None, None, Some(modes), None, None)
}

/// A secret.
pub fn secret(name: &'static str, f: Secret) -> (r: Behaviour)
    ensures
        r == (Behaviour { secret: Some(f), ..silent(name, TargetSpec::NoTarget) }),
{
    c(name, TargetSpec::NoTarget, None, None, None, None, None, Some(f), None, None, None)
}

/// A card whose only behaviour is a continuous effect on other minions.
pub fn aura(name: &'static str, f: Aura) -> (r: Behaviour)
    ensures
        r == (Behaviour { aura: Some(f), ..silent(name, TargetSpec::NoTarget) }),
{
    c(name, TargetSpec::NoTarget, None, None, None, None, Some(f), None, None, None, None)
}

/// A card whose only behaviour is reacting to events.
pub fn trigger(name: &'static str, f: Trigger) -> (r: Behaviour)
    ensures
        r == (Behaviour { trigger: Some(f), ..silent(name, TargetSpec::NoTarget) }),
{
    c(name, TargetSpec::NoTarget, None, None, None, Some(f), None, None, None, None, None)
}

/// A card whose only behaviour fires once at the start of the game.
pub fn start_of_game(name: &'static str, f: Effect) -> (r: Behaviour)
    ensures
        r == (Behaviour { start_of_game: Some(f), ..silent(name, TargetSpec::NoTarget) }),
{
    c(name, TargetSpec::NoTarget, None, None, None, None, None, None, None, None, Some(f))
}

} // verus!
