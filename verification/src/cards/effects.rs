//! The pieces that several cards' effects are made of.
//!
//! What only the engine can do to a game, a transformation, a death sweep or
//! a random draw, is handed in.

use vstd::prelude::*;

use super::corpus::Corpus;
use super::lists::{AZSHARA, CATACLYSMS, LEYLINES};
use super::lookup::tokens;
use super::target::Ctx;
use super::types::{CardDef, CardId, Class, Keywords, Kind};
use crate::state::{DeckCard, Game, GameView, HandCard, Permanent, PlayerView, Side, Target};
use crate::text::str_eq;

pub mod laws;

verus! {

// ---------------------------------------------------------------- Leylines

/// The Arcanomicon's first half: the cards it puts into hand, in order, all
/// three Leylines.
pub fn arcanomicon(c: &Corpus) -> (r: Vec<CardId>)
    requires
        c.wf(),
    ensures
        r@.len() == LEYLINES@.len(),
        forall|i: int|
            0 <= i < r@.len() ==> c.has(#[trigger] r@[i]) && c.info_of(r@[i]).id@ == LEYLINES@[i]@,
{
    tokens(c, &LEYLINES)
}

// ----------------------------------------------------------------- discard

/// Whether the card at `i` is the last of a hand's most expensive.
pub open spec fn costliest(c: Corpus, hand: Seq<HandCard>, i: int) -> bool {
    &&& 0 <= i < hand.len()
    &&& forall|j: int|
        0 <= j < hand.len() ==> c.def_of((#[trigger] hand[j]).card).cost <= c.def_of(hand[i].card).cost
    &&& forall|j: int|
        i < j < hand.len() ==> c.def_of((#[trigger] hand[j]).card).cost < c.def_of(hand[i].card).cost
}

fn find_costliest(c: &Corpus, g: &Game, side: Side) -> (r: Option<usize>)
    requires
        g@.wf(*c),
    ensures
        match r {
            Some(i) => costliest(*c, g@.player(side).hand, i as int),
            None => g@.player(side).hand.len() == 0,
        },
{
    let hand = &g.player(side).hand;
    let n: usize = hand.len();
    if n == 0 {
        return None;
    }
    let mut at: usize = 0;
    let mut i: usize = 1;
    while i < n
        invariant
            hand@ == g@.player(side).hand,
            g@.player(side).wf(*c),
            c.wf(),
            n == hand@.len(),
            1 <= i <= n,
            at < i,
            forall|j: int|
                0 <= j < i ==> c.def_of((#[trigger] hand@[j]).card).cost <= c.def_of(
                    hand@[at as int].card,
                ).cost,
            forall|j: int|
                at < j < i ==> c.def_of((#[trigger] hand@[j]).card).cost < c.def_of(
                    hand@[at as int].card,
                ).cost,
        decreases n - i,
    {
        if hand[i].card.def(c).cost >= hand[at].card.def(c).cost {
            at = i;
        }
        i += 1;
    }
    Some(at)
}

/// A half with the card at one place of the hand gone.
pub open spec fn without_hand_card(p: PlayerView, i: int) -> PlayerView {
    PlayerView { hand: p.hand.remove(i), ..p }
}

/// Discard this player's most expensive card, and say which it was.
///
/// Two cards do this — Chronoclaws every swing, Gemstone Hoarder once — and
/// both print "your highest Cost card" or leave the choice to the player. The
/// most expensive is the one a Face deck can least use, and for the Hoarder
/// it is also the one worth most coming back a mana cheaper.
pub fn discard_costliest(c: &Corpus, g: &mut Game, side: Side) -> (r: Option<CardId>)
    requires
        old(g)@.wf(*c),
    ensures
        match r {
            None => old(g)@.player(side).hand.len() == 0 && final(g)@ == old(g)@,
            Some(card) => exists|i: int|
                {
                    &&& #[trigger] costliest(*c, old(g)@.player(side).hand, i)
                    &&& card == old(g)@.player(side).hand[i].card
                    &&& final(g)@ == old(g)@.with_player(
                        side,
                        without_hand_card(old(g)@.player(side), i),
                    )
                },
        },
{
    match find_costliest(c, g, side) {
        None => None,
        Some(at) => {
            let p = g.player_mut(side);
            let gone = p.hand.remove(at);
            Some(gone.card)
        },
    }
}

// ----------------------------------------------------------------- Azshara

/// A deck with one card in place of another.
pub open spec fn swapped_deck(deck: Seq<DeckCard>, keep: CardId, into: CardId) -> Seq<DeckCard> {
    deck.map_values(
        |d: DeckCard|
            if d.card == keep {
                DeckCard { card: into }
            } else {
                d
            },
    )
}

/// A hand with one card in place of another, each copy keeping what it has
/// gained.
pub open spec fn swapped_hand(hand: Seq<HandCard>, keep: CardId, into: CardId) -> Seq<HandCard> {
    hand.map_values(
        |h: HandCard|
            if h.card == keep {
                HandCard { card: into, ..h }
            } else {
                h
            },
    )
}

/// A half whose deck and hand have one card in place of another.
pub open spec fn swapped(p: PlayerView, keep: CardId, into: CardId) -> PlayerView {
    PlayerView {
        deck: swapped_deck(p.deck, keep, into),
        hand: swapped_hand(p.hand, keep, into),
        ..p
    }
}

/// A half whose deck and hand no longer hold a card.
pub open spec fn stripped(p: PlayerView, drop: CardId) -> PlayerView {
    PlayerView {
        deck: p.deck.filter(|d: DeckCard| d.card != drop),
        hand: p.hand.filter(|h: HandCard| h.card != drop),
        ..p
    }
}

fn swap_cards(g: &mut Game, side: Side, keep: CardId, into: CardId)
    ensures
        final(g)@ == old(g)@.with_player(side, swapped(old(g)@.player(side), keep, into)),
{
    let mut deck: Vec<DeckCard> = Vec::new();
    let mut hand: Vec<HandCard> = Vec::new();
    let ghost before = g@.player(side);
    {
        let p = g.player(side);
        let mut i: usize = 0;
        while i < p.deck.len()
            invariant
                p@ == before,
                i <= before.deck.len(),
                deck@ == swapped_deck(before.deck, keep, into).take(i as int),
            decreases p.deck.len() - i,
        {
            let d = p.deck[i];
            deck.push(if d.card == keep { DeckCard { card: into } } else { d });
            proof {
                assert(deck@ =~= swapped_deck(before.deck, keep, into).take(i + 1));
            }
            i += 1;
        }
        let mut j: usize = 0;
        while j < p.hand.len()
            invariant
                p@ == before,
                j <= before.hand.len(),
                hand@ == swapped_hand(before.hand, keep, into).take(j as int),
            decreases p.hand.len() - j,
        {
            let h = p.hand[j];
            hand.push(if h.card == keep { HandCard { card: into, ..h } } else { h });
            proof {
                assert(hand@ =~= swapped_hand(before.hand, keep, into).take(j + 1));
            }
            j += 1;
        }
        proof {
            assert(deck@ =~= swapped_deck(before.deck, keep, into));
            assert(hand@ =~= swapped_hand(before.hand, keep, into));
        }
    }
    let p = g.player_mut(side);
    p.deck = deck;
    p.hand = hand;
}

fn strip_cards(g: &mut Game, side: Side, drop: CardId)
    ensures
        final(g)@ == old(g)@.with_player(side, stripped(old(g)@.player(side), drop)),
{
    let mut deck: Vec<DeckCard> = Vec::new();
    let mut hand: Vec<HandCard> = Vec::new();
    let ghost before = g@.player(side);
    let ghost kd = |d: DeckCard| d.card != drop;
    let ghost kh = |h: HandCard| h.card != drop;
    {
        let p = g.player(side);
        let mut i: usize = 0;
        proof {
            reveal(Seq::filter);
            assert(before.deck.take(0).filter(kd) =~= seq![]);
            assert(before.hand.take(0).filter(kh) =~= seq![]);
        }
        while i < p.deck.len()
            invariant
                p@ == before,
                kd == (|d: DeckCard| d.card != drop),
                i <= before.deck.len(),
                deck@ == before.deck.take(i as int).filter(kd),
            decreases p.deck.len() - i,
        {
            proof {
                reveal(Seq::filter);
                assert(before.deck.take(i + 1).drop_last() =~= before.deck.take(i as int));
            }
            let d = p.deck[i];
            if d.card != drop {
                deck.push(d);
            }
            i += 1;
        }
        let mut j: usize = 0;
        while j < p.hand.len()
            invariant
                p@ == before,
                kh == (|h: HandCard| h.card != drop),
                j <= before.hand.len(),
                hand@ == before.hand.take(j as int).filter(kh),
            decreases p.hand.len() - j,
        {
            proof {
                reveal(Seq::filter);
                assert(before.hand.take(j + 1).drop_last() =~= before.hand.take(j as int));
            }
            let h = p.hand[j];
            if h.card != drop {
                hand.push(h);
            }
            j += 1;
        }
        proof {
            assert(before.deck.take(i as int) =~= before.deck);
            assert(before.hand.take(j as int) =~= before.hand);
        }
    }
    let p = g.player_mut(side);
    p.deck = deck;
    p.hand = hand;
}

/// Whether `out` is what comes of turning each permanent of a board that is
/// `keep` into `into`, slot by slot from `i` to `n`.
pub open spec fn transforms<T: Fn(Game, Target, CardId) -> Game>(
    transform: T,
    side: Side,
    keep: CardId,
    into: CardId,
    i: nat,
    n: nat,
    g: Game,
    out: Game,
) -> bool
    decreases n - i,
{
    if i >= n {
        out == g
    } else if i < g@.player(side).board.len() && g@.player(side).board[i as int].card == keep {
        exists|h: Game|
            #[trigger] transform.ensures((g, Target::Minion(side, i as u8), into), h) && transforms(
                transform,
                side,
                keep,
                into,
                i + 1,
                n,
                h,
                out,
            )
    } else {
        transforms(transform, side, keep, into, i + 1, n, g, out)
    }
}

/// Whether `out` is what comes of destroying each permanent of a board that
/// is `drop`, slot by slot from `i` to `n`.
pub open spec fn destroys<D: Fn(Game, Target) -> Game>(
    destroy: D,
    side: Side,
    drop: CardId,
    i: nat,
    n: nat,
    g: Game,
    out: Game,
) -> bool
    decreases n - i,
{
    if i >= n {
        out == g
    } else if i < g@.player(side).board.len() && g@.player(side).board[i as int].card == drop {
        exists|h: Game|
            #[trigger] destroy.ensures((g, Target::Minion(side, i as u8)), h) && destroys(
                destroy,
                side,
                drop,
                i + 1,
                n,
                h,
                out,
            )
    } else {
        destroys(destroy, side, drop, i + 1, n, g, out)
    }
}

fn transform_each<T: Fn(Game, Target, CardId) -> Game>(
    transform: &T,
    g: Game,
    side: Side,
    keep: CardId,
    into: CardId,
    i: usize,
    n: usize,
) -> (out: Game)
    requires
        n <= 255,
        forall|g: Game, t: Target, card: CardId| #[trigger] transform.requires((g, t, card)),
    ensures
        transforms(*transform, side, keep, into, i as nat, n as nat, g, out),
    decreases n - i,
{
    if i >= n {
        return g;
    }
    let board = &g.player(side).board;
    if i < board.len() && board[i].card == keep {
        let ghost before = g;
        let h = transform(g, Target::Minion(side, i as u8), into);
        assert(transform.ensures((before, Target::Minion(side, i as u8), into), h));
        transform_each(transform, h, side, keep, into, i + 1, n)
    } else {
        transform_each(transform, g, side, keep, into, i + 1, n)
    }
}

fn destroy_each<D: Fn(Game, Target) -> Game>(
    destroy: &D,
    g: Game,
    side: Side,
    drop: CardId,
    i: usize,
    n: usize,
) -> (out: Game)
    requires
        n <= 255,
        forall|g: Game, t: Target| #[trigger] destroy.requires((g, t)),
    ensures
        destroys(*destroy, side, drop, i as nat, n as nat, g, out),
    decreases n - i,
{
    if i >= n {
        return g;
    }
    let board = &g.player(side).board;
    if i < board.len() && board[i].card == drop {
        let ghost before = g;
        let h = destroy(g, Target::Minion(side, i as u8));
        assert(destroy.ensures((before, Target::Minion(side, i as u8)), h));
        destroy_each(destroy, h, side, drop, i + 1, n)
    } else {
        destroy_each(destroy, g, side, drop, i + 1, n)
    }
}

/// Which of Lady Azshara's Locations is kept, what it becomes, and which is
/// destroyed.
pub open spec fn azshara_picks(c: Corpus, zin: bool, keep: CardId, into: CardId, drop: CardId) -> bool {
    let (k, i, d) = if zin {
        (2int, 3int, 0int)
    } else {
        (0int, 1int, 2int)
    };
    &&& c.has(keep) && c.info_of(keep).id@ == AZSHARA@[k]@
    &&& c.has(into) && c.info_of(into).id@ == AZSHARA@[i]@
    &&& c.has(drop) && c.info_of(drop).id@ == AZSHARA@[d]@
}

/// Whether `out` is what empowering one Location and destroying the other
/// makes of a game.
pub open spec fn empowers<
    T: Fn(Game, Target, CardId) -> Game,
    D: Fn(Game, Target) -> Game,
    S: Fn(Game) -> Game,
>(
    transform: T,
    destroy: D,
    sweep: S,
    side: Side,
    keep: CardId,
    into: CardId,
    drop: CardId,
    g: GameView,
    out: Game,
) -> bool {
    exists|a: Game, b: Game, d: Game, e: Game|
        {
            // In the deck and in hand the Location is swapped for its
            // stronger printing, then on the board.
            &&& a@ == g.with_player(side, swapped(g.player(side), keep, into))
            &&& #[trigger] transforms(
                transform,
                side,
                keep,
                into,
                0,
                a@.player(side).board.len(),
                a,
                b,
            )
            // The other one leaves the deck and the hand, then the board.
            &&& d@ == b@.with_player(side, stripped(b@.player(side), drop))
            &&& #[trigger] destroys(destroy, side, drop, 0, d@.player(side).board.len(), d, e)
            &&& sweep.ensures((e,), out)
        }
}

/// Lady Azshara's Choose One: empower one of her Locations, destroy the other.
///
/// "Empower" swaps the Location for its stronger printing and "destroy" takes
/// the other out of the game, and both of them can be sitting in any of three
/// places — still in the deck, already drawn, or already played. All three
/// are handled, because a card that only worked from the deck would silently
/// do nothing in the game where it is drawn late.
pub fn empower<
    T: Fn(Game, Target, CardId) -> Game,
    D: Fn(Game, Target) -> Game,
    S: Fn(Game) -> Game,
>(
    c: &Corpus,
    g: Game,
    side: Side,
    zin: bool,
    transform: &T,
    destroy: &D,
    sweep: &S,
) -> (out: Game)
    requires
        g@.wf(*c),
        forall|g: Game, t: Target, card: CardId| #[trigger] transform.requires((g, t, card)),
        forall|g: Game, t: Target| #[trigger] destroy.requires((g, t)),
        forall|g: Game| #[trigger] sweep.requires((g,)),
        // A transformation and a destruction leave a board that can be
        // counted.
        forall|g: Game, t: Target, card: CardId, h: Game|
            #[trigger] transform.ensures((g, t, card), h) && g@.player(side).board.len() <= 255
                ==> h@.player(side).board.len() <= 255,
    ensures
        exists|keep: CardId, into: CardId, drop: CardId|
            #[trigger] azshara_picks(*c, zin, keep, into, drop) && empowers(
                *transform,
                *destroy,
                *sweep,
                side,
                keep,
                into,
                drop,
                g@,
                out,
            ),
{
    let cards = tokens(c, &AZSHARA);
    let (keep, into, drop) = if zin {
        (cards[2], cards[3], cards[0])
    } else {
        (cards[0], cards[1], cards[2])
    };
    let ghost start = g@;
    let mut a = g;
    swap_cards(&mut a, side, keep, into);
    let n: usize = a.player(side).board.len();
    let ghost a0 = a;
    let b = transform_each(transform, a, side, keep, into, 0, n);
    let ghost b0 = b;
    proof {
        lemma_transforms_len(*transform, side, keep, into, 0, n as nat, a0, b0);
    }
    let mut d = b;
    strip_cards(&mut d, side, drop);
    let m: usize = d.player(side).board.len();
    let ghost d0 = d;
    let e = destroy_each(destroy, d, side, drop, 0, m);
    let ghost e0 = e;
    let out = sweep(e);
    proof {
        assert(azshara_picks(*c, zin, keep, into, drop));
        assert(transforms(*transform, side, keep, into, 0, a0@.player(side).board.len(), a0, b0));
        assert(destroys(*destroy, side, drop, 0, d0@.player(side).board.len(), d0, e0));
        assert(empowers(*transform, *destroy, *sweep, side, keep, into, drop, start, out));
    }
    out
}

proof fn lemma_transforms_len<T: Fn(Game, Target, CardId) -> Game>(
    transform: T,
    side: Side,
    keep: CardId,
    into: CardId,
    i: nat,
    n: nat,
    g: Game,
    out: Game,
)
    requires
        transforms(transform, side, keep, into, i, n, g, out),
        g@.player(side).board.len() <= 255,
        forall|g: Game, t: Target, card: CardId, h: Game|
            #[trigger] transform.ensures((g, t, card), h) && g@.player(side).board.len() <= 255
                ==> h@.player(side).board.len() <= 255,
    ensures
        out@.player(side).board.len() <= 255,
    decreases n - i,
{
    if i < n {
        if i < g@.player(side).board.len() && g@.player(side).board[i as int].card == keep {
            let h = choose|h: Game|
                #[trigger] transform.ensures((g, Target::Minion(side, i as u8), into), h)
                    && transforms(transform, side, keep, into, i + 1, n, h, out);
            lemma_transforms_len(transform, side, keep, into, i + 1, n, h, out);
        } else {
            lemma_transforms_len(transform, side, keep, into, i + 1, n, g, out);
        }
    }
}

// -------------------------------------------------------------- Gnomeregan

/// A half with another permanent in a board slot.
pub open spec fn with_slot(p: PlayerView, slot: u8, m: Permanent) -> PlayerView {
    PlayerView { board: p.board.update(slot as int, m), ..p }
}

fn set_slot(g: &mut Game, side: Side, slot: u8, m: Permanent)
    requires
        old(g)@.at(side, slot) is Some,
    ensures
        final(g)@ == old(g)@.with_player(side, with_slot(old(g)@.player(side), slot, m)),
{
    let p = g.player_mut(side);
    p.board.set(slot as usize, m);
}

/// The next age of a Location: it keeps the durability that was left, and has
/// been used this turn.
pub open spec fn aged(m: Permanent, spent: i16) -> Permanent {
    Permanent { damage: spent, used: true, cooldown: 1, ..m }
}

/// Whether `out` is what comes of turning a Location into its next age.
pub open spec fn advances<T: Fn(Game, Target, CardId) -> Game>(
    transform: T,
    g: Game,
    side: Side,
    source: Option<u8>,
    into: CardId,
    out: GameView,
) -> bool {
    match source {
        None => out == g@,
        Some(slot) => match g@.at(side, slot) {
            None => out == g@,
            Some(here) => exists|h: Game|
                #[trigger] transform.ensures((g, Target::Minion(side, slot), into), h) && out
                    == match h@.at(side, slot) {
                    None => h@,
                    Some(m) => h@.with_player(
                        side,
                        with_slot(h@.player(side), slot, aged(m, here.damage)),
                    ),
                },
        },
    }
}

/// Turn this Location into the next age, keeping the durability it has left.
///
/// A fresh Permanent would come with the next age's full three uses, and the
/// chain would be nine uses of an escalating Location rather than three. The
/// corpus does not say which it is and neither does the wiki, so this takes
/// the reading that cannot overrate the card.
pub fn advance_gnomeregan<T: Fn(Game, Target, CardId) -> Game>(
    g: Game,
    ctx: &Ctx,
    into: CardId,
    transform: &T,
) -> (out: Game)
    requires
        forall|g: Game, t: Target, card: CardId| #[trigger] transform.requires((g, t, card)),
    ensures
        advances(*transform, g, ctx.side, ctx.source, into, out@),
{
    let slot = match ctx.source {
        Some(slot) => slot,
        None => { return g; },
    };
    let spent: i16 = match g.slot(ctx.side, slot) {
        Some(here) => here.damage,
        None => { return g; },
    };
    let ghost before = g;
    let mut h = transform(g, Target::Minion(ctx.side, slot), into);
    assert(transform.ensures((before, Target::Minion(ctx.side, slot), into), h));
    if let Some(m) = h.slot(ctx.side, slot) {
        // The age it just became has not been used this turn; the age it was
        // has. Keeping both marks would give the chain a free extra use.
        let m2 = Permanent { damage: spent, used: true, cooldown: 1, ..m };
        set_slot(&mut h, ctx.side, slot, m2);
    }
    h
}

/// A position in which the minion pointed at carries a granted deathrattle.
pub open spec fn rattled(g: GameView, t: Option<Target>, carrier: CardId) -> GameView {
    match t {
        Some(Target::Minion(s, i)) => match g.at(s, i) {
            Some(m) => g.with_player(
                s,
                with_slot(g.player(s), i, Permanent { granted_rattle: Some(carrier), ..m }),
            ),
            None => g,
        },
        _ => g,
    }
}

/// Point a minion's granted deathrattle at `carrier`.
pub fn grant_rattle(g: &mut Game, t: Option<Target>, carrier: CardId)
    ensures
        final(g)@ == rattled(old(g)@, t, carrier),
{
    if let Some(Target::Minion(s, i)) = t {
        if let Some(m) = g.slot(s, i) {
            let m2 = Permanent { granted_rattle: Some(carrier), ..m };
            set_slot(g, s, i, m2);
        }
    }
}

// -------------------------------------------------------------- Cannoneers

/// How many permanents of a board have this name.
pub open spec fn named_on_board(c: Corpus, board: Seq<Permanent>, name: Seq<char>) -> nat
    decreases board.len(),
{
    if board.len() == 0 {
        0
    } else {
        named_on_board(c, board.drop_last(), name) + if c.name_of(board.last().card) == name {
            1nat
        } else {
            0
        }
    }
}

fn count_named(c: &Corpus, g: &Game, side: Side, name: &str) -> (r: i16)
    requires
        g@.wf(*c),
    ensures
        r == named_on_board(*c, g@.player(side).board, name@),
        0 <= r <= 255,
{
    let board = &g.player(side).board;
    let mut n: i16 = 0;
    let mut i: usize = 0;
    while i < board.len()
        invariant
            c.wf(),
            g@.player(side).wf(*c),
            board@ == g@.player(side).board,
            i <= board@.len() <= 255,
            0 <= n <= i,
            n == named_on_board(*c, board@.take(i as int), name@),
        decreases board.len() - i,
    {
        proof {
            assert(board@.take(i + 1).drop_last() =~= board@.take(i as int));
        }
        if str_eq(board[i].card.name(c), name) {
            n = n + 1;
        }
        i += 1;
    }
    proof {
        assert(board@.take(i as int) =~= board@);
    }
    n
}

/// The extra damage of a player's Pirates: one for each Blastpowder Engineer,
/// on that player's own turn.
pub open spec fn pirate_bonus(c: Corpus, g: GameView, side: Side) -> nat {
    if g.current != side {
        0
    } else {
        named_on_board(c, g.player(side).board, "Blastpowder Engineer"@)
    }
}

/// The extra damage of a player's Pirates.
///
/// "On your turn": the Engineer arms its owner's swings, not the swings taken
/// on the other player's turn.
pub fn pirate_damage_bonus(c: &Corpus, g: &Game, side: Side) -> (r: i16)
    requires
        g@.wf(*c),
    ensures
        r == pirate_bonus(*c, g@, side),
        0 <= r <= 255,
{
    if g.current != side {
        return 0;
    }
    count_named(c, g, side, "Blastpowder Engineer")
}

/// Whether `k` is what comes of one shot at a target, if there is one.
pub open spec fn hits<D: Fn(Game, Target, i16) -> Game>(
    deal: D,
    damage: i16,
    h: Game,
    t: Option<Target>,
    k: Game,
) -> bool {
    match t {
        Some(t) => deal.ensures((h, t, damage), k),
        None => k == h,
    }
}

/// Whether `out` is what comes of so many shots, each at a random enemy if
/// there is one.
pub open spec fn fires<R: Fn(Game, Side) -> (Game, Option<Target>), D: Fn(Game, Target, i16) -> Game>(
    random_enemy: R,
    deal: D,
    side: Side,
    damage: i16,
    shots: nat,
    g: Game,
    out: Game,
) -> bool
    decreases shots,
{
    if shots == 0 {
        out == g
    } else {
        exists|h: Game, t: Option<Target>, k: Game|
            {
                &&& #[trigger] random_enemy.ensures((g, side), (h, t))
                &&& #[trigger] hits(deal, damage, h, t, k)
                &&& fires(random_enemy, deal, side, damage, (shots - 1) as nat, k, out)
            }
    }
}

fn fire_shots<R: Fn(Game, Side) -> (Game, Option<Target>), D: Fn(Game, Target, i16) -> Game>(
    random_enemy: &R,
    deal: &D,
    g: Game,
    side: Side,
    damage: i16,
    shots: u8,
) -> (out: Game)
    requires
        forall|g: Game, s: Side| #[trigger] random_enemy.requires((g, s)),
        forall|g: Game, t: Target, n: i16| #[trigger] deal.requires((g, t, n)),
    ensures
        fires(*random_enemy, *deal, side, damage, shots as nat, g, out),
    decreases shots,
{
    if shots == 0 {
        return g;
    }
    let ghost before = g;
    let (h, t) = random_enemy(g, side);
    let ghost h0 = h;
    assert(random_enemy.ensures((before, side), (h0, t)));
    let k = match t {
        Some(t) => deal(h, t, damage),
        None => h,
    };
    let ghost k0 = k;
    assert(hits(*deal, damage, h0, t, k0));
    let out = fire_shots(random_enemy, deal, k, side, damage, shots - 1);
    assert(fires(*random_enemy, *deal, side, damage, (shots - 1) as nat, k0, out));
    out
}

/// How many shots one Cannoneer fires: twice while Captain Crowley is out.
pub open spec fn shots_of(c: Corpus, board: Seq<Permanent>) -> nat {
    if named_on_board(c, board, "Captain Crowley"@) > 0 {
        2
    } else {
        1
    }
}

/// One Cannoneer's shot: a point of damage at a random enemy, twice while
/// Captain Crowley is out ("Your Cannoneers fire an additional shot"). A
/// Cannoneer is a Pirate, so the Engineer arms its shot too.
///
/// Read off the board at the moment of firing rather than counted when a
/// Cannoneer arrives, because Crowley can leave: the shot is his while he is
/// there and not afterwards.
pub fn fire_one<R: Fn(Game, Side) -> (Game, Option<Target>), D: Fn(Game, Target, i16) -> Game>(
    c: &Corpus,
    g: Game,
    side: Side,
    random_enemy: &R,
    deal: &D,
) -> (out: Game)
    requires
        g@.wf(*c),
        forall|g: Game, s: Side| #[trigger] random_enemy.requires((g, s)),
        forall|g: Game, t: Target, n: i16| #[trigger] deal.requires((g, t, n)),
    ensures
        fires(
            *random_enemy,
            *deal,
            side,
            (1 + pirate_bonus(*c, g@, side)) as i16,
            shots_of(*c, g@.player(side).board),
            g,
            out,
        ),
{
    let shots: u8 = if count_named(c, &g, side, "Captain Crowley") > 0 { 2 } else { 1 };
    let damage: i16 = 1 + pirate_damage_bonus(c, &g, side);
    fire_shots(random_enemy, deal, g, side, damage, shots)
}

// ------------------------------------------------------------------- decks

/// "If your deck has no Neutral cards" — two Paladin cards ask it.
pub fn deck_has_neutrals(c: &Corpus, g: &Game, side: Side) -> (r: bool)
    requires
        g@.wf(*c),
    ensures
        r == exists|i: int|
            0 <= i < g@.player(side).deck.len() && c.def_of(
                (#[trigger] g@.player(side).deck[i]).card,
            ).class_of() == Class::Neutral,
{
    let deck = &g.player(side).deck;
    let mut i: usize = 0;
    while i < deck.len()
        invariant
            c.wf(),
            g@.player(side).wf(*c),
            deck@ == g@.player(side).deck,
            i <= deck@.len(),
            forall|k: int|
                0 <= k < i ==> c.def_of((#[trigger] deck@[k]).card).class_of() != Class::Neutral,
        decreases deck.len() - i,
    {
        if deck[i].card.def(c).class() == Class::Neutral {
            return true;
        }
        i += 1;
    }
    false
}

/// What a card has to be to be handed out: of a kind, with some keywords.
#[derive(Clone, Copy, PartialEq, Eq, Debug, Structural)]
pub struct Wanted {
    pub kind: Kind,
    pub keywords: Keywords,
}

impl Wanted {
    pub open spec fn accepts(self, d: CardDef) -> bool {
        d.kind_of() == self.kind && d.keywords.holds(self.keywords)
    }

    /// Whether a card is one of those wanted.
    pub fn takes(self, d: &CardDef) -> (r: bool)
        ensures
            r == self.accepts(*d),
    {
        d.kind() == self.kind && d.keywords.has(self.keywords)
    }
}

pub open spec fn has_rattle(d: CardDef) -> bool {
    d.kind_of() == Kind::Minion && d.keywords.holds(Keywords(Keywords::DEATHRATTLE))
}

pub open spec fn rattles() -> Wanted {
    Wanted { kind: Kind::Minion, keywords: Keywords(Keywords::DEATHRATTLE) }
}

/// What Triennium Rex draws from: minions with a Deathrattle.
pub fn deathrattle_minions() -> (r: Wanted)
    ensures
        r == rattles(),
        forall|d: CardDef| #[trigger] r.accepts(d) == has_rattle(d),
{
    Wanted { kind: Kind::Minion, keywords: Keywords(Keywords::DEATHRATTLE) }
}

/// A half whose last card in hand costs so much less.
pub open spec fn cheaper_last(p: PlayerView, by: int) -> PlayerView {
    let last = p.hand.last();
    PlayerView {
        hand: p.hand.update(
            p.hand.len() - 1,
            HandCard { cost_delta: (last.cost_delta - by) as i16, ..last },
        ),
        ..p
    }
}

/// Whether Triennium Rex can pay out like this: a minion with a Deathrattle was
/// asked for, and what arrived is the last card in hand, two mana cheaper.
pub open spec fn rex_paid<A: Fn(Game, Side, Wanted) -> (Game, bool)>(
    hand_out: A,
    g: Game,
    side: Side,
    out: GameView,
) -> bool {
    exists|h: Game, added: bool|
        #[trigger] hand_out.ensures((g, side, rattles()), (h, added)) && out == if added
            && h@.player(side).hand.len() > 0 {
            h@.with_player(side, cheaper_last(h@.player(side), 2))
        } else {
            h@
        }
}

/// Triennium Rex's payout, printed once and used by both of its hooks: a
/// random minion with a Deathrattle, two mana cheaper.
///
/// `hand_out` puts a random card of those wanted into a player's hand, if there
/// is one and there is room, and says whether it did.
pub fn deathrattle_minion_to_hand<A: Fn(Game, Side, Wanted) -> (Game, bool)>(
    g: Game,
    side: Side,
    hand_out: &A,
) -> (out: Game)
    requires
        hand_out.requires((g, side, rattles())),
        // A card does not come with a discount that leaves no room for more.
        forall|h: Game| #[trigger]
            hand_out.ensures((g, side, rattles()), (h, true)) && h@.player(side).hand.len() > 0
                ==> h@.player(side).hand.last().cost_delta >= i16::MIN + 2,
    ensures
        rex_paid(*hand_out, g, side, out@),
{
    let ghost before = g;
    let (mut h, added) = hand_out(g, side, deathrattle_minions());
    let ghost h0 = h;
    assert(hand_out.ensures((before, side, rattles()), (h0, added)));
    if added {
        let p = h.player_mut(side);
        let n: usize = p.hand.len();
        if n > 0 {
            let last = p.hand[n - 1];
            p.hand.set(n - 1, HandCard { cost_delta: last.cost_delta - 2, ..last });
        }
    }
    h
}

// -------------------------------------------------------------- Cataclysms

/// One point for each enemy that Raze damages, two more for each it kills.
pub open spec fn raze_worth(c: Corpus, board: Seq<Permanent>) -> int
    decreases board.len(),
{
    if board.len() == 0 {
        0
    } else {
        raze_worth(c, board.drop_last()) + if board.last().fights(c) {
            if board.last().left() <= 4 {
                3int
            } else {
                1
            }
        } else {
            0
        }
    }
}

/// Whether this is the most health a minion of a board that takes part has
/// left, nothing where none does.
pub open spec fn is_biggest(c: Corpus, board: Seq<Permanent>, h: int) -> bool {
    &&& forall|i: int|
        0 <= i < board.len() && (#[trigger] board[i]).fights(c) ==> board[i].left() <= h
    &&& (exists|i: int| 0 <= i < board.len() && (#[trigger] board[i]).fights(c) && board[i].left() == h)
        || (h == 0 && forall|i: int| 0 <= i < board.len() ==> !(#[trigger] board[i]).fights(c))
}

/// Whether this is what a Cataclysm is worth in this position.
pub open spec fn cataclysm_worth(c: Corpus, g: GameView, side: Side, cata: CardId, r: int) -> bool {
    let foe = g.player(side.opponent()).board;
    let id = c.info_of(cata).id@;
    if id == CATACLYSMS@[2]@ {
        r == raze_worth(c, foe)
    } else if id == CATACLYSMS@[1]@ {
        is_biggest(c, foe, r)
    } else if id == CATACLYSMS@[0]@ {
        r == if g.player(side).board.len() >= g.limits.board {
            0int
        } else {
            6
        }
    } else {
        r == 2
    }
}

fn raze_value(c: &Corpus, g: &Game, side: Side) -> (r: i32)
    requires
        g@.wf(*c),
    ensures
        r == raze_worth(*c, g@.player(side).board),
{
    let board = &g.player(side).board;
    let mut v: i32 = 0;
    let mut i: usize = 0;
    while i < board.len()
        invariant
            c.wf(),
            g@.player(side).wf(*c),
            board@ == g@.player(side).board,
            i <= board@.len() <= 255,
            0 <= v <= 3 * i,
            v == raze_worth(*c, board@.take(i as int)),
        decreases board.len() - i,
    {
        proof {
            assert(board@.take(i + 1).drop_last() =~= board@.take(i as int));
        }
        if board[i].active && board[i].is_minion(c) {
            v = v + if board[i].health() <= 4 { 3 } else { 1 };
        }
        i += 1;
    }
    proof {
        assert(board@.take(i as int) =~= board@);
    }
    v
}

fn biggest_health(c: &Corpus, g: &Game, side: Side) -> (r: i32)
    requires
        g@.wf(*c),
    ensures
        is_biggest(*c, g@.player(side).board, r as int),
{
    let board = &g.player(side).board;
    let mut found: Option<i32> = None;
    let mut i: usize = 0;
    while i < board.len()
        invariant
            c.wf(),
            g@.player(side).wf(*c),
            board@ == g@.player(side).board,
            i <= board@.len(),
            found is None ==> forall|k: int| 0 <= k < i ==> !(#[trigger] board@[k]).fights(*c),
            found matches Some(h) ==> (exists|k: int|
                0 <= k < i && (#[trigger] board@[k]).fights(*c) && board@[k].left() == h) && forall|
                k: int,
            |
                0 <= k < i && (#[trigger] board@[k]).fights(*c) ==> board@[k].left() <= h,
        decreases board.len() - i,
    {
        if board[i].active && board[i].is_minion(c) {
            let here: i32 = board[i].health();
            assert(board@[i as int].fights(*c) && board@[i as int].left() == here);
            let more = match found {
                Some(h) => here > h,
                None => true,
            };
            if more {
                found = Some(here);
            }
        }
        i += 1;
    }
    match found {
        Some(h) => h,
        None => 0,
    }
}

/// How much a Cataclysm is worth in this position, for Deathwing's pick.
///
/// Crude on purpose: enough to prefer clearing a board that is actually there
/// over shuffling Dragons into a deck the game may never reach, and no more.
/// A real evaluation belongs to a policy, which effects cannot reach.
pub fn cataclysm_score(c: &Corpus, g: &Game, side: Side, cata: CardId) -> (r: i32)
    requires
        g@.wf(*c),
        c.has(cata),
    ensures
        cataclysm_worth(*c, g@, side, cata, r as int),
{
    let foe = side.other();
    let id = cata.info(c).id;
    if str_eq(id, CATACLYSMS[2]) {
        raze_value(c, g, foe)
    } else if str_eq(id, CATACLYSMS[1]) {
        // Worth the size of what it removes, and nothing on an empty board.
        biggest_health(c, g, foe)
    } else if str_eq(id, CATACLYSMS[0]) {
        // A 12/12 is a threat wherever the board stands, but there has to be
        // room for it.
        if g.player(side).board.len() >= g.limits.board as usize {
            0
        } else {
            6
        }
    } else {
        // Value for a long game, discounted because it does nothing now.
        2
    }
}

// ------------------------------------------------------------------- setup

/// What a deck that is copied into holds in the end: as many of the copies as
/// there is room for.
pub open spec fn filled(deck: Seq<DeckCard>, theirs: Seq<DeckCard>, picks: Seq<usize>) -> Seq<DeckCard> {
    deck + picks.map_values(|k: usize| DeckCard { card: theirs[k as int].card })
}

/// Whether these are the copies that are made: twenty of the enemy's cards,
/// each drawn on its own, as far as there is room.
pub open spec fn copied<R: Fn(usize, usize) -> usize>(
    draw: R,
    deck: nat,
    theirs: nat,
    limit: u8,
    picks: Seq<usize>,
) -> bool {
    &&& picks.len() == if theirs == 0 || deck >= limit {
        0int
    } else if limit - deck < 20 {
        limit - deck
    } else {
        20
    }
    &&& forall|k: int|
        0 <= k < picks.len() ==> draw.ensures((k as usize, theirs as usize), #[trigger] picks[k])
            && picks[k] < theirs
}

/// A half as the setup leaves it.
pub open spec fn azalina(p: PlayerView, theirs: Seq<DeckCard>, picks: Seq<usize>) -> PlayerView {
    PlayerView { hero_hp: 40, deck: filled(p.deck, theirs, picks), ..p }
}

/// "Your starting Health is 40. Your deck is 20 cards, plus 20 copied from
/// your enemy."
///
/// The list is twenty by construction; this adds the other twenty. They are
/// copies — the opponent keeps every card — and they are drawn from the
/// opponent's list at random, since the card says which deck they come from
/// and not which cards. `draw` gives the `k`th of the numbers below a bound.
pub fn azalina_setup<R: Fn(usize, usize) -> usize>(g: &mut Game, side: Side, draw: &R)
    requires
        forall|k: usize, n: usize| n > 0 ==> #[trigger] draw.requires((k, n)),
        forall|k: usize, n: usize, r: usize| #[trigger] draw.ensures((k, n), r) && n > 0 ==> r < n,
    ensures
        exists|picks: Seq<usize>|
            {
                let p = old(g)@.player(side);
                let theirs = old(g)@.player(side.opponent()).deck;
                &&& #[trigger] copied(
                    *draw,
                    old(g)@.player(side).deck.len(),
                    old(g)@.player(side.opponent()).deck.len(),
                    old(g)@.limits.deck,
                    picks,
                )
                &&& final(g)@ == old(g)@.with_player(side, azalina(p, theirs, picks))
            },
{
    let ghost start = g@;
    let limit: usize = g.limits.deck as usize;
    let mut theirs: Vec<DeckCard> = Vec::new();
    let mut deck: Vec<DeckCard> = Vec::new();
    let ghost mut picks: Seq<usize> = seq![];
    {
        let foe = &g.player(side.other()).deck;
        let mut i: usize = 0;
        while i < foe.len()
            invariant
                foe@ == start.player(side.opponent()).deck,
                i <= foe@.len(),
                theirs@ == foe@.take(i as int),
            decreases foe.len() - i,
        {
            theirs.push(foe[i]);
            proof {
                assert(theirs@ =~= foe@.take(i + 1));
            }
            i += 1;
        }
        proof {
            assert(theirs@ =~= foe@);
        }
        let mine = &g.player(side).deck;
        let mut j: usize = 0;
        while j < mine.len()
            invariant
                mine@ == start.player(side).deck,
                j <= mine@.len(),
                deck@ == mine@.take(j as int),
            decreases mine.len() - j,
        {
            deck.push(mine[j]);
            proof {
                assert(deck@ =~= mine@.take(j + 1));
            }
            j += 1;
        }
        proof {
            assert(deck@ =~= mine@);
        }
    }
    let ghost mine = start.player(side).deck;
    proof {
        assert(filled(mine, theirs@, picks) =~= mine);
    }
    if theirs.len() > 0 {
        let mut k: usize = 0;
        while k < 20 && deck.len() < limit
            invariant
                k <= 20,
                theirs@.len() > 0,
                limit == start.limits.deck,
                forall|k: usize, n: usize| n > 0 ==> #[trigger] draw.requires((k, n)),
                forall|k: usize, n: usize, r: usize|
                    #[trigger] draw.ensures((k, n), r) && n > 0 ==> r < n,
                picks.len() == k,
                deck@.len() == mine.len() + k,
                k > 0 ==> deck@.len() <= limit,
                forall|j: int|
                    0 <= j < k ==> draw.ensures((j as usize, theirs@.len() as usize), #[trigger] picks[j])
                        && picks[j] < theirs@.len(),
                deck@ == filled(mine, theirs@, picks),
            decreases 20 - k,
        {
            let pick: usize = draw(k, theirs.len());
            deck.push(DeckCard { card: theirs[pick].card });
            proof {
                let more = picks.push(pick);
                assert(deck@ =~= filled(mine, theirs@, more));
                picks = more;
            }
            k += 1;
        }
    }
    proof {
        assert(copied(*draw, mine.len(), theirs@.len(), start.limits.deck, picks));
    }
    let p = g.player_mut(side);
    p.hero_hp = 40;
    p.deck = deck;
}

/// Whether a deck holds a card of this name.
pub open spec fn in_deck(c: Corpus, deck: Seq<DeckCard>, name: Seq<char>) -> bool {
    exists|i: int| 0 <= i < deck.len() && c.name_of((#[trigger] deck[i]).card) == name
}

fn deck_holds(c: &Corpus, g: &Game, side: Side, name: &str) -> (r: bool)
    requires
        g@.wf(*c),
    ensures
        r == in_deck(*c, g@.player(side).deck, name@),
{
    let deck = &g.player(side).deck;
    let mut i: usize = 0;
    while i < deck.len()
        invariant
            c.wf(),
            g@.player(side).wf(*c),
            deck@ == g@.player(side).deck,
            i <= deck@.len(),
            forall|k: int| 0 <= k < i ==> c.name_of((#[trigger] deck@[k]).card) != name@,
        decreases deck.len() - i,
    {
        if str_eq(deck[i].card.name(c), name) {
            assert(c.name_of(deck@[i as int].card) == name@);
            return true;
        }
        i += 1;
    }
    false
}

/// Apply every game-setup rule a player's opening list asks for.
///
/// These run *before* the mulligan, because they change what the mulligan is
/// dealt from: a starting Health, a deck that is a different size.
pub fn apply_game_setup<R: Fn(usize, usize) -> usize>(c: &Corpus, g: &mut Game, side: Side, draw: &R)
    requires
        old(g)@.wf(*c),
        forall|k: usize, n: usize| n > 0 ==> #[trigger] draw.requires((k, n)),
        forall|k: usize, n: usize, r: usize| #[trigger] draw.ensures((k, n), r) && n > 0 ==> r < n,
    ensures
        if in_deck(*c, old(g)@.player(side).deck, crate::deck::RESIZER@) {
            exists|picks: Seq<usize>|
                {
                    let p = old(g)@.player(side);
                    let theirs = old(g)@.player(side.opponent()).deck;
                    &&& #[trigger] copied(
                        *draw,
                        old(g)@.player(side).deck.len(),
                        old(g)@.player(side.opponent()).deck.len(),
                        old(g)@.limits.deck,
                        picks,
                    )
                    &&& final(g)@ == old(g)@.with_player(side, azalina(p, theirs, picks))
                }
        } else {
            final(g)@ == old(g)@
        },
{
    if deck_holds(c, g, side, crate::deck::RESIZER) {
        azalina_setup(g, side, draw);
    }
}

} // verus!
