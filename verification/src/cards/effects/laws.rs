//! What the shared pieces of effects do to a position.

use vstd::prelude::*;

use super::super::behaviour::laws::id_of;
use super::super::corpus::Corpus;
use super::super::target::laws::{half, takes_part};
use super::super::types::{CardDef, CardId};
use super::Wanted;
use crate::state::{DeckCard, Game, GameView, HandCard, Permanent, PlayerView, Side, Target};

verus! {

// ----------------------------------------------------------------- discard

/// The card that is discarded costs at least as much as any other in hand,
/// and more than any behind it.
pub proof fn lemma_costliest(c: Corpus, hand: Seq<HandCard>, i: int, j: int)
    requires
        super::costliest(c, hand, i),
        0 <= j < hand.len(),
    ensures
        0 <= i < hand.len(),
        c.tables.defs@[hand[j].card.0 as int].cost <= c.tables.defs@[hand[i].card.0 as int].cost,
        j > i ==> c.tables.defs@[hand[j].card.0 as int].cost
            < c.tables.defs@[hand[i].card.0 as int].cost,
{
    assert(c.def_of(hand[j].card).cost <= c.def_of(hand[i].card).cost);
}

/// A hand that loses a card keeps all the others in order, and nothing else of
/// the player changes.
pub proof fn lemma_without_hand_card(p: PlayerView, i: int, j: int)
    requires
        0 <= i < p.hand.len(),
    ensures
        ({
            let q = super::without_hand_card(p, i);
            &&& q.hand.len() == p.hand.len() - 1
            &&& 0 <= j < i ==> q.hand[j] == p.hand[j]
            &&& i <= j < q.hand.len() ==> q.hand[j] == p.hand[j + 1]
            &&& q == (PlayerView { hand: q.hand, ..p })
        }),
{
}

// ----------------------------------------------------------------- Azshara

/// A swap puts one card in the place of another, wherever that stands in the
/// deck or the hand, and leaves everything else as it was.
pub proof fn lemma_swapped(p: PlayerView, keep: CardId, into: CardId, i: int)
    ensures
        ({
            let q = super::swapped(p, keep, into);
            &&& q == (PlayerView { deck: q.deck, hand: q.hand, ..p })
            &&& q.deck.len() == p.deck.len()
            &&& q.hand.len() == p.hand.len()
            &&& 0 <= i < p.deck.len() && p.deck[i].card == keep ==> q.deck[i].card == into
            &&& 0 <= i < p.deck.len() && p.deck[i].card != keep ==> q.deck[i] == p.deck[i]
            &&& 0 <= i < p.hand.len() && p.hand[i].card == keep ==> q.hand[i] == (HandCard {
                card: into,
                ..p.hand[i]
            })
            &&& 0 <= i < p.hand.len() && p.hand[i].card != keep ==> q.hand[i] == p.hand[i]
        }),
{
}

/// Stripping a card takes every copy out of the deck and the hand, and no copy
/// of any other.
pub proof fn lemma_stripped(p: PlayerView, drop: CardId, d: DeckCard, h: HandCard)
    ensures
        ({
            let q = super::stripped(p, drop);
            &&& q == (PlayerView { deck: q.deck, hand: q.hand, ..p })
            &&& q.deck.contains(d) <==> p.deck.contains(d) && d.card != drop
            &&& q.hand.contains(h) <==> p.hand.contains(h) && h.card != drop
            &&& q.deck.to_multiset().count(d) == if d.card == drop {
                0
            } else {
                p.deck.to_multiset().count(d)
            }
            &&& q.hand.to_multiset().count(h) == if h.card == drop {
                0
            } else {
                p.hand.to_multiset().count(h)
            }
        }),
{
    lemma_filter_counts(p.deck, |x: DeckCard| x.card != drop, d);
    lemma_filter_counts(p.hand, |x: HandCard| x.card != drop, h);
    let q = super::stripped(p, drop);
    vstd::seq_lib::to_multiset_contains(q.deck, d);
    vstd::seq_lib::to_multiset_contains(p.deck, d);
    vstd::seq_lib::to_multiset_contains(q.hand, h);
    vstd::seq_lib::to_multiset_contains(p.hand, h);
}

proof fn lemma_filter_counts<A>(s: Seq<A>, keep: spec_fn(A) -> bool, x: A)
    ensures
        s.filter(keep).to_multiset().count(x) == if keep(x) {
            s.to_multiset().count(x)
        } else {
            0
        },
    decreases s.len(),
{
    broadcast use vstd::seq_lib::group_to_multiset_ensures;

    reveal(Seq::filter);
    if s.len() == 0 {
        vstd::seq_lib::to_multiset_contains(s, x);
    } else {
        let t = s.drop_last();
        lemma_filter_counts(t, keep, x);
        assert(s =~= t.push(s.last()));
        vstd::seq_lib::to_multiset_build(t, s.last());
        vstd::seq_lib::to_multiset_build(t.filter(keep), s.last());
    }
}

/// Zin-Azshari is empowered into its own stronger printing and the Well of
/// Eternity is lost, or the other way round.
pub proof fn lemma_azshara(c: Corpus, zin: bool, keep: CardId, into: CardId, drop: CardId)
    requires
        super::azshara_picks(c, zin, keep, into, drop),
    ensures
        zin ==> id_of(c, keep) == "TIME_211t2"@ && id_of(c, into) == "TIME_211t2t"@ && id_of(c, drop)
            == "TIME_211t1"@,
        !zin ==> id_of(c, keep) == "TIME_211t1"@ && id_of(c, into) == "TIME_211t1t"@ && id_of(c, drop)
            == "TIME_211t2"@,
{
}

/// A board without the card is left alone by the transformation.
pub proof fn lemma_transforms_only_what_is_there<T: Fn(Game, Target, CardId) -> Game>(
    transform: T,
    side: Side,
    keep: CardId,
    into: CardId,
    i: nat,
    n: nat,
    g: Game,
    out: Game,
)
    requires
        super::transforms(transform, side, keep, into, i, n, g, out),
        forall|k: int|
            0 <= k < half(g@, side).board.len() ==> (#[trigger] half(g@, side).board[k]).card != keep,
    ensures
        out == g,
    decreases n - i,
{
    assert(g@.player(side) == half(g@, side));
    if i < n {
        if i < half(g@, side).board.len() {
            assert(half(g@, side).board[i as int].card != keep);
        }
        lemma_transforms_only_what_is_there(transform, side, keep, into, i + 1, n, g, out);
    }
}

/// The first of the board that is the card is transformed, in its slot and
/// into what it becomes.
pub proof fn lemma_transforms_the_first<T: Fn(Game, Target, CardId) -> Game>(
    transform: T,
    side: Side,
    keep: CardId,
    into: CardId,
    i: nat,
    n: nat,
    g: Game,
    out: Game,
)
    requires
        super::transforms(transform, side, keep, into, i, n, g, out),
        i < n,
        i < half(g@, side).board.len(),
        half(g@, side).board[i as int].card == keep,
    ensures
        exists|h: Game|
            #[trigger] transform.ensures((g, Target::Minion(side, i as u8), into), h)
                && super::transforms(transform, side, keep, into, i + 1, n, h, out),
{
}

/// A board without the card is left alone by the destruction.
pub proof fn lemma_destroys_only_what_is_there<D: Fn(Game, Target) -> Game>(
    destroy: D,
    side: Side,
    drop: CardId,
    i: nat,
    n: nat,
    g: Game,
    out: Game,
)
    requires
        super::destroys(destroy, side, drop, i, n, g, out),
        forall|k: int|
            0 <= k < half(g@, side).board.len() ==> (#[trigger] half(g@, side).board[k]).card != drop,
    ensures
        out == g,
    decreases n - i,
{
    assert(g@.player(side) == half(g@, side));
    if i < n {
        if i < half(g@, side).board.len() {
            assert(half(g@, side).board[i as int].card != drop);
        }
        lemma_destroys_only_what_is_there(destroy, side, drop, i + 1, n, g, out);
    }
}

/// The first of the board that is the card is destroyed, in its slot.
pub proof fn lemma_destroys_the_first<D: Fn(Game, Target) -> Game>(
    destroy: D,
    side: Side,
    drop: CardId,
    i: nat,
    n: nat,
    g: Game,
    out: Game,
)
    requires
        super::destroys(destroy, side, drop, i, n, g, out),
        i < n,
        i < half(g@, side).board.len(),
        half(g@, side).board[i as int].card == drop,
    ensures
        exists|h: Game|
            #[trigger] destroy.ensures((g, Target::Minion(side, i as u8)), h) && super::destroys(
                destroy,
                side,
                drop,
                i + 1,
                n,
                h,
                out,
            ),
{
}

/// Empowering swaps the one Location in deck and hand before the board, and
/// takes the other out of deck and hand before the board; what is swept in the
/// end is what all of that left.
pub proof fn lemma_empowers<
    T: Fn(Game, Target, CardId) -> Game,
    D: Fn(Game, Target) -> Game,
    S: Fn(Game) -> Game,
>(
    transform: T,
    destroy: D,
    sweep: S,
    side: Side,
    keep: CardId,
    into: CardId,
    drop: CardId,
    g: GameView,
    out: Game,
)
    requires
        super::empowers(transform, destroy, sweep, side, keep, into, drop, g, out),
        forall|k: int|
            0 <= k < half(g, side).board.len() ==> (#[trigger] half(g, side).board[k]).card != keep
                && half(g, side).board[k].card != drop,
    ensures
        exists|e: Game|
            {
                let p = half(g, side);
                let q = half(e@, side);
                &&& #[trigger] sweep.ensures((e,), out)
                &&& q.board == p.board
                &&& q.deck == super::stripped(super::swapped(p, keep, into), drop).deck
                &&& q.hand == super::stripped(super::swapped(p, keep, into), drop).hand
                &&& forall|s: Side| s != side ==> half(e@, s) == half(g, s)
            },
{
    let (a, b, d, e) = choose|a: Game, b: Game, d: Game, e: Game|
        {
            &&& a@ == g.with_player(side, super::swapped(g.player(side), keep, into))
            &&& #[trigger] super::transforms(
                transform,
                side,
                keep,
                into,
                0,
                a@.player(side).board.len(),
                a,
                b,
            )
            &&& d@ == b@.with_player(side, super::stripped(b@.player(side), drop))
            &&& #[trigger] super::destroys(
                destroy,
                side,
                drop,
                0,
                d@.player(side).board.len(),
                d,
                e,
            )
            &&& sweep.ensures((e,), out)
        };
    assert(half(a@, side).board == half(g, side).board);
    lemma_transforms_only_what_is_there(
        transform,
        side,
        keep,
        into,
        0,
        a@.player(side).board.len(),
        a,
        b,
    );
    assert(half(d@, side).board == half(g, side).board);
    lemma_destroys_only_what_is_there(
        destroy,
        side,
        drop,
        0,
        d@.player(side).board.len(),
        d,
        e,
    );
    assert(sweep.ensures((e,), out));
}

// -------------------------------------------------------------- Gnomeregan

/// The next age of a Location stands in the same slot with the uses already
/// spent, is locked for this turn, and is otherwise what it became.
pub proof fn lemma_advance<T: Fn(Game, Target, CardId) -> Game>(
    transform: T,
    g: Game,
    side: Side,
    slot: u8,
    into: CardId,
    out: GameView,
)
    requires
        super::advances(transform, g, side, Some(slot), into, out),
        slot < half(g@, side).board.len(),
    ensures
        exists|h: Game|
            {
                &&& #[trigger] transform.ensures((g, Target::Minion(side, slot), into), h)
                &&& slot >= half(h@, side).board.len() ==> out == h@
                &&& slot < half(h@, side).board.len() ==> {
                    let now = half(out, side).board[slot as int];
                    let came = half(h@, side).board[slot as int];
                    &&& now.damage == half(g@, side).board[slot as int].damage
                    &&& now.used
                    &&& now.cooldown == 1
                    &&& now == (Permanent {
                        damage: now.damage,
                        used: now.used,
                        cooldown: now.cooldown,
                        ..came
                    })
                    &&& forall|k: int|
                        0 <= k < half(h@, side).board.len() && k != slot ==> #[trigger] half(
                            out,
                            side,
                        ).board[k] == half(h@, side).board[k]
                    &&& forall|s: Side| s != side ==> half(out, s) == half(h@, s)
                }
            },
{
    let here = half(g@, side).board[slot as int];
    let h = choose|h: Game|
        #[trigger] transform.ensures((g, Target::Minion(side, slot), into), h) && out == match h@.at(
            side,
            slot,
        ) {
            None => h@,
            Some(m) => h@.with_player(
                side,
                super::with_slot(h@.player(side), slot, super::aged(m, here.damage)),
            ),
        };
    assert(transform.ensures((g, Target::Minion(side, slot), into), h));
}

/// Without a Location in the slot nothing advances.
pub proof fn lemma_advance_of_nothing<T: Fn(Game, Target, CardId) -> Game>(
    transform: T,
    g: Game,
    side: Side,
    source: Option<u8>,
    into: CardId,
    out: GameView,
)
    requires
        super::advances(transform, g, side, source, into, out),
        source is None || source->Some_0 >= half(g@, side).board.len(),
    ensures
        out == g@,
{
}

/// The minion pointed at, and nothing else, carries the rattle it is granted.
pub proof fn lemma_rattled(g: GameView, side: Side, slot: u8, carrier: CardId)
    ensures
        ({
            let out = super::rattled(g, Some(Target::Minion(side, slot)), carrier);
            &&& slot >= half(g, side).board.len() ==> out == g
            &&& slot < half(g, side).board.len() ==> {
                let m = half(g, side).board[slot as int];
                let b = half(out, side).board;
                &&& b.len() == half(g, side).board.len()
                &&& b[slot as int] == (Permanent { granted_rattle: Some(carrier), ..m })
                &&& forall|k: int|
                    0 <= k < b.len() && k != slot ==> #[trigger] b[k] == half(g, side).board[k]
                &&& forall|s: Side| s != side ==> half(out, s) == half(g, s)
            }
        }),
        super::rattled(g, Some(Target::Hero(side)), carrier) == g,
        super::rattled(g, None, carrier) == g,
{
}

// -------------------------------------------------------------- Cannoneers

/// One more permanent of a name is counted, and none of another name.
pub proof fn lemma_named_on_board(c: Corpus, board: Seq<Permanent>, m: Permanent, name: Seq<char>)
    ensures
        super::named_on_board(c, Seq::<Permanent>::empty(), name) == 0,
        super::named_on_board(c, board.push(m), name) == super::named_on_board(c, board, name)
            + if c.tables.info@[m.card.0 as int].name@ == name {
            1nat
        } else {
            0
        },
{
    assert(board.push(m).drop_last() =~= board);
}

/// Each Blastpowder Engineer adds a point to what its owner's Pirates do, on
/// the owner's turn; on the other's turn none does.
pub proof fn lemma_pirates(c: Corpus, g: GameView, side: Side)
    ensures
        g.current == side ==> super::pirate_bonus(c, g, side) == super::named_on_board(
            c,
            half(g, side).board,
            "Blastpowder Engineer"@,
        ),
        g.current != side ==> super::pirate_bonus(c, g, side) == 0,
{
}

/// Whether a name is on a board.
pub open spec fn on_board(c: Corpus, board: Seq<Permanent>, name: Seq<char>) -> bool {
    exists|i: int|
        0 <= i < board.len() && c.tables.info@[(#[trigger] board[i]).card.0 as int].name@ == name
}

proof fn lemma_named_is_there(c: Corpus, board: Seq<Permanent>, name: Seq<char>)
    ensures
        super::named_on_board(c, board, name) > 0 <==> on_board(c, board, name),
    decreases board.len(),
{
    if board.len() > 0 {
        let t = board.drop_last();
        lemma_named_is_there(c, t, name);
        if on_board(c, t, name) {
            let i = choose|i: int|
                0 <= i < t.len() && c.tables.info@[(#[trigger] t[i]).card.0 as int].name@ == name;
            assert(board[i] == t[i]);
        }
        if on_board(c, board, name) {
            let i = choose|i: int|
                0 <= i < board.len() && c.tables.info@[(#[trigger] board[i]).card.0 as int].name@
                    == name;
            if i < t.len() {
                assert(t[i] == board[i]);
            }
        }
        if c.name_of(board.last().card) == name {
            assert(c.tables.info@[board[board.len() - 1].card.0 as int].name@ == name);
        }
    }
}

/// A Cannoneer fires twice with Captain Crowley on the board, else once.
pub proof fn lemma_shots(c: Corpus, board: Seq<Permanent>)
    ensures
        on_board(c, board, "Captain Crowley"@) ==> super::shots_of(c, board) == 2,
        !on_board(c, board, "Captain Crowley"@) ==> super::shots_of(c, board) == 1,
{
    lemma_named_is_there(c, board, "Captain Crowley"@);
}

/// Each shot goes at an enemy of its own, drawn for the side that fires, with
/// the damage of a shot; where there is none to hit, the shot does nothing.
pub proof fn lemma_each_shot<R: Fn(Game, Side) -> (Game, Option<Target>), D: Fn(Game, Target, i16) -> Game>(
    random_enemy: R,
    deal: D,
    side: Side,
    damage: i16,
    shots: nat,
    g: Game,
    out: Game,
)
    requires
        super::fires(random_enemy, deal, side, damage, shots, g, out),
    ensures
        shots == 0 ==> out == g,
        shots > 0 ==> exists|h: Game, t: Option<Target>, k: Game|
            {
                &&& #[trigger] random_enemy.ensures((g, side), (h, t))
                &&& t is Some ==> deal.ensures((h, t->Some_0, damage), k)
                &&& t is None ==> k == h
                &&& #[trigger] super::fires(
                    random_enemy,
                    deal,
                    side,
                    damage,
                    (shots - 1) as nat,
                    k,
                    out,
                )
            },
{
    if shots > 0 {
        let (h, t, k) = choose|h: Game, t: Option<Target>, k: Game|
            {
                &&& #[trigger] random_enemy.ensures((g, side), (h, t))
                &&& #[trigger] super::hits(deal, damage, h, t, k)
                &&& super::fires(random_enemy, deal, side, damage, (shots - 1) as nat, k, out)
            };
        assert(random_enemy.ensures((g, side), (h, t)));
        assert(super::fires(random_enemy, deal, side, damage, (shots - 1) as nat, k, out));
    }
}

// ---------------------------------------------------------------- handouts

/// What is wanted is a card of the kind, with every one of the keywords;
/// Triennium Rex wants minions with a Deathrattle.
pub proof fn lemma_wanted(w: Wanted, d: CardDef)
    ensures
        w.accepts(d) <==> d.kind_of() == w.kind && d.keywords.0 & w.keywords.0 == w.keywords.0,
        super::rattles().accepts(d) <==> d.kind == 0 && d.keywords.0 & 0x1000 == 0x1000,
        super::has_rattle(d) <==> d.kind == 0 && d.keywords.0 & 0x1000 == 0x1000,
{
}

/// The last card in hand costs so much less, and nothing else changes.
pub proof fn lemma_cheaper_last(p: PlayerView, by: int, i: int)
    requires
        p.hand.len() > 0,
        i16::MIN <= p.hand.last().cost_delta - by <= i16::MAX,
    ensures
        ({
            let q = super::cheaper_last(p, by);
            &&& q == (PlayerView { hand: q.hand, ..p })
            &&& q.hand.len() == p.hand.len()
            &&& q.hand.last() == (HandCard { cost_delta: q.hand.last().cost_delta, ..p.hand.last() })
            &&& q.hand.last().cost_delta == p.hand.last().cost_delta - by
            &&& 0 <= i < p.hand.len() - 1 ==> q.hand[i] == p.hand[i]
        }),
{
}

// -------------------------------------------------------------- Cataclysms

/// Raze is worth a point for each enemy minion that takes part, and two more
/// for each that four damage kill.
pub proof fn lemma_raze(c: Corpus, board: Seq<Permanent>, m: Permanent)
    ensures
        super::raze_worth(c, Seq::<Permanent>::empty()) == 0,
        !takes_part(c, m) ==> super::raze_worth(c, board.push(m)) == super::raze_worth(c, board),
        takes_part(c, m) && m.max_health - m.damage <= 4 ==> super::raze_worth(c, board.push(m))
            == super::raze_worth(c, board) + 3,
        takes_part(c, m) && m.max_health - m.damage > 4 ==> super::raze_worth(c, board.push(m))
            == super::raze_worth(c, board) + 1,
{
    assert(board.push(m).drop_last() =~= board);
}

/// Each Cataclysm is weighed by its own question: Raze by the enemy's board,
/// Topple by the most health on it, Dragons' Reign by whether there is room,
/// and any other at two points.
pub proof fn lemma_cataclysms(
    c: Corpus,
    g: GameView,
    side: Side,
    other: Side,
    cata: CardId,
    r: int,
    k: int,
)
    requires
        other != side,
        super::cataclysm_worth(c, g, side, cata, r),
    ensures
        ({
            let foe = half(g, other).board;
            let id = id_of(c, cata);
            &&& id == "CATA_190t12"@ ==> r == super::raze_worth(c, foe)
            &&& id == "CATA_190t11"@ && 0 <= k < foe.len() && takes_part(c, foe[k]) ==> r
                >= foe[k].max_health - foe[k].damage
            &&& id == "CATA_190t11"@ ==> (exists|i: int|
                0 <= i < foe.len() && takes_part(c, #[trigger] foe[i]) && r == foe[i].max_health
                    - foe[i].damage) || (r == 0 && forall|i: int|
                0 <= i < foe.len() ==> !takes_part(c, #[trigger] foe[i]))
            &&& id == "CATA_190t10"@ && half(g, side).board.len() < g.limits.board ==> r == 6
            &&& id == "CATA_190t10"@ && half(g, side).board.len() >= g.limits.board ==> r == 0
            &&& id != "CATA_190t10"@ && id != "CATA_190t11"@ && id != "CATA_190t12"@ ==> r == 2
        }),
{
    reveal_strlit("CATA_190t10");
    reveal_strlit("CATA_190t11");
    reveal_strlit("CATA_190t12");
    assert("CATA_190t10"@[10] == '0' && "CATA_190t11"@[10] == '1' && "CATA_190t12"@[10] == '2');
    assert(side.opponent() == other);
    let foe = half(g, other).board;
    if id_of(c, cata) == "CATA_190t11"@ {
        assert(super::is_biggest(c, foe, r));
        if 0 <= k < foe.len() && takes_part(c, foe[k]) {
            assert(foe[k].fights(c));
        }
        if exists|i: int| 0 <= i < foe.len() && (#[trigger] foe[i]).fights(c) && foe[i].left() == r {
            let i = choose|i: int|
                0 <= i < foe.len() && (#[trigger] foe[i]).fights(c) && foe[i].left() == r;
            assert(takes_part(c, foe[i]));
        } else {
            assert forall|i: int| 0 <= i < foe.len() implies !takes_part(c, #[trigger] foe[i]) by {
                assert(!foe[i].fights(c));
            }
        }
    }
}

// ------------------------------------------------------------------- setup

/// Azalina's setup makes forty the hero's health and adds to the deck, behind
/// what is there, a copy of one of the enemy's cards for each draw: twenty, or
/// as many as there is room for, or none where the enemy has none.
pub proof fn lemma_azalina<R: Fn(usize, usize) -> usize>(
    draw: R,
    p: PlayerView,
    theirs: Seq<DeckCard>,
    limit: u8,
    picks: Seq<usize>,
    i: int,
)
    requires
        super::copied(draw, p.deck.len(), theirs.len(), limit, picks),
    ensures
        ({
            let q = super::azalina(p, theirs, picks);
            let room = limit - p.deck.len();
            &&& q == (PlayerView { hero_hp: 40, deck: q.deck, ..p })
            &&& theirs.len() == 0 || room <= 0 ==> q.deck.len() == p.deck.len()
            &&& theirs.len() > 0 && 0 < room <= 20 ==> q.deck.len() == limit
            &&& theirs.len() > 0 && room > 20 ==> q.deck.len() == p.deck.len() + 20
            &&& 0 <= i < p.deck.len() ==> q.deck[i] == p.deck[i]
            &&& 0 <= i < picks.len() ==> {
                &&& picks[i] < theirs.len()
                &&& draw.ensures((i as usize, theirs.len() as usize), picks[i])
                &&& q.deck[p.deck.len() + i].card == theirs[picks[i] as int].card
            }
        }),
{
    if 0 <= i < picks.len() {
        assert(draw.ensures((i as usize, theirs.len() as usize), picks[i]));
    }
}

/// A setup is asked for by Azalina in the deck, and by nothing else.
pub proof fn lemma_setup_is_asked_for(c: Corpus, deck: Seq<DeckCard>)
    ensures
        super::in_deck(c, deck, crate::deck::RESIZER@) <==> exists|i: int|
            0 <= i < deck.len() && c.tables.info@[(#[trigger] deck[i]).card.0 as int].name@
                == "Azalina Soulsever"@,
{
    if super::in_deck(c, deck, crate::deck::RESIZER@) {
        let i = choose|i: int|
            0 <= i < deck.len() && c.name_of((#[trigger] deck[i]).card) == crate::deck::RESIZER@;
        assert(c.tables.info@[deck[i].card.0 as int].name@ == "Azalina Soulsever"@);
    }
    if exists|i: int|
        0 <= i < deck.len() && c.tables.info@[(#[trigger] deck[i]).card.0 as int].name@
            == "Azalina Soulsever"@ {
        let i = choose|i: int|
            0 <= i < deck.len() && c.tables.info@[(#[trigger] deck[i]).card.0 as int].name@
                == "Azalina Soulsever"@;
        assert(c.name_of(deck[i].card) == crate::deck::RESIZER@);
    }
}

} // verus!
