//! What holds of batches of games.

use vstd::prelude::*;

use super::{Contender, Policy, Record, Seat};
use crate::agent::Style;
use crate::state::{Outcome, Side};

verus! {

/// An engine that plays one game the same way every time: what comes out
/// depends on nothing but the decks, the seats, the seed and who leads.
pub open spec fn settled<E: Fn(Contender<'_>, Contender<'_>, [Seat; 2], u64, Side) -> Option<(Outcome, u16)>>(
    engine: E,
) -> bool {
    forall|
        a: Contender<'_>,
        b: Contender<'_>,
        seats: [Seat; 2],
        seed: u64,
        first: Side,
        x: Option<(Outcome, u16)>,
        y: Option<(Outcome, u16)>,
    |
        #[trigger] engine.ensures((a, b, seats, seed, first), x) && #[trigger] engine.ensures(
            (a, b, seats, seed, first),
            y,
        ) ==> x == y
}

/// Every seed gives one game.
pub proof fn lemma_batch_total<E: Fn(Contender<'_>, Contender<'_>, [Seat; 2], u64, Side) -> Option<(Outcome, u16)>>(
    engine: E,
    a: Contender<'_>,
    b: Contender<'_>,
    policies: [Policy; 2],
    seeds: Seq<u64>,
    r: Record,
)
    requires
        super::is_batch(engine, a, b, policies, seeds, r),
    ensures
        r.games() == seeds.len(),
{
    let results = choose|results: Seq<(Outcome, u16)>|
        {
            &&& results.len() == seeds.len()
            &&& super::batch_ends(engine, a, b, policies, seeds, 0, results)
            &&& #[trigger] r.tallies(results)
        };
    super::lemma_tally_total(results);
}

/// A batch does not depend on how it is cut into parts: two tallies of the
/// same games by an engine that plays one game the same way every time are
/// the same, whatever the number of workers.
pub proof fn lemma_batch_is_settled<E: Fn(Contender<'_>, Contender<'_>, [Seat; 2], u64, Side) -> Option<(Outcome, u16)>>(
    engine: E,
    a: Contender<'_>,
    b: Contender<'_>,
    policies: [Policy; 2],
    seeds: Seq<u64>,
    r: Record,
    q: Record,
)
    requires
        settled(engine),
        super::is_batch(engine, a, b, policies, seeds, r),
        super::is_batch(engine, a, b, policies, seeds, q),
    ensures
        r.wins@ == q.wins@,
        r.draws == q.draws,
        r.turns == q.turns,
{
    let x = choose|x: Seq<(Outcome, u16)>|
        {
            &&& x.len() == seeds.len()
            &&& super::batch_ends(engine, a, b, policies, seeds, 0, x)
            &&& #[trigger] r.tallies(x)
        };
    let y = choose|y: Seq<(Outcome, u16)>|
        {
            &&& y.len() == seeds.len()
            &&& super::batch_ends(engine, a, b, policies, seeds, 0, y)
            &&& #[trigger] q.tallies(y)
        };
    assert forall|i: int| 0 <= i < x.len() implies x[i] == y[i] by {
        assert(super::ends(engine, a, b, policies, seeds[0 + i], super::leader(0 + i), x[i]));
        assert(super::ends(engine, a, b, policies, seeds[0 + i], super::leader(0 + i), y[i]));
    }
    assert(x =~= y);
    assert(r.wins@ =~= q.wins@);
}

/// Every seed of a duel gives two games.
pub proof fn lemma_duel_total<E: Fn(Contender<'_>, Contender<'_>, [Seat; 2], u64, Side) -> Option<(Outcome, u16)>>(
    engine: E,
    deck: Contender<'_>,
    policies: [Policy; 2],
    seeds: Seq<u64>,
    r: Record,
)
    requires
        super::is_duel(engine, deck, policies, seeds, r),
    ensures
        r.games() == 2 * seeds.len(),
{
    let results = choose|results: Seq<(Outcome, u16)>|
        {
            &&& results.len() == 2 * seeds.len()
            &&& super::duels_end(engine, deck, policies, seeds, 0, results)
            &&& #[trigger] r.tallies(results)
        };
    super::lemma_tally_total(results);
}

/// A duel does not depend on how it is cut into parts.
pub proof fn lemma_duel_is_settled<E: Fn(Contender<'_>, Contender<'_>, [Seat; 2], u64, Side) -> Option<(Outcome, u16)>>(
    engine: E,
    deck: Contender<'_>,
    policies: [Policy; 2],
    seeds: Seq<u64>,
    r: Record,
    q: Record,
)
    requires
        settled(engine),
        super::is_duel(engine, deck, policies, seeds, r),
        super::is_duel(engine, deck, policies, seeds, q),
    ensures
        r.wins@ == q.wins@,
        r.draws == q.draws,
        r.turns == q.turns,
{
    let x = choose|x: Seq<(Outcome, u16)>|
        {
            &&& x.len() == 2 * seeds.len()
            &&& super::duels_end(engine, deck, policies, seeds, 0, x)
            &&& #[trigger] r.tallies(x)
        };
    let y = choose|y: Seq<(Outcome, u16)>|
        {
            &&& y.len() == 2 * seeds.len()
            &&& super::duels_end(engine, deck, policies, seeds, 0, y)
            &&& #[trigger] q.tallies(y)
        };
    assert forall|i: int| 0 <= i < x.len() implies x[i] == y[i] by {
        assert(super::duel_ends(engine, deck, policies, seeds, 0 + i, x[i]));
        assert(super::duel_ends(engine, deck, policies, seeds, 0 + i, y[i]));
        let swapped = i % 2 == 1;
        assert(super::seen(x[i], swapped) == super::seen(y[i], swapped));
        assert(super::seen(super::seen(x[i], swapped), swapped) == x[i]);
        assert(super::seen(super::seen(y[i], swapped), swapped) == y[i]);
    }
    assert(x =~= y);
    assert(r.wins@ =~= q.wins@);
}

/// Whether results come in pairs that mirror each other.
spec fn mirrored(results: Seq<(Outcome, u16)>) -> bool {
    &&& results.len() % 2 == 0
    &&& forall|i: int|
        0 <= i < results.len() && i % 2 == 0 ==> results[i + 1] == super::seen(
            #[trigger] results[i],
            true,
        )
}

proof fn lemma_mirrored_is_even(results: Seq<(Outcome, u16)>)
    requires
        mirrored(results),
    ensures
        super::won(results, Side::Player0) == super::won(results, Side::Player1),
    decreases results.len(),
{
    if results.len() > 0 {
        let n = results.len() as int;
        let front = results.drop_last().drop_last();
        assert((n - 2) % 2 == 0);
        assert(results[n - 1] == super::seen(results[n - 2], true));
        assert forall|i: int| 0 <= i < front.len() && i % 2 == 0 implies front[i + 1] == super::seen(
            #[trigger] front[i],
            true,
        ) by {
            assert(front[i] == results[i]);
            assert(front[i + 1] == results[i + 1]);
        }
        lemma_mirrored_is_even(front);
        assert(results.drop_last().last() == results[n - 2]);
        reveal_with_fuel(super::won, 3);
        match results[n - 2].0 {
            Outcome::Win(Side::Player0) => {},
            Outcome::Win(Side::Player1) => {},
            Outcome::Draw => {},
        }
    }
}

/// A policy against a copy of itself splits the wins exactly: every seed is
/// played from both seats, and the two games are one.
pub proof fn lemma_mirror_duel_is_even<E: Fn(Contender<'_>, Contender<'_>, [Seat; 2], u64, Side) -> Option<(Outcome, u16)>>(
    engine: E,
    deck: Contender<'_>,
    policies: [Policy; 2],
    seeds: Seq<u64>,
    r: Record,
)
    requires
        settled(engine),
        policies@[0] == policies@[1],
        super::is_duel(engine, deck, policies, seeds, r),
    ensures
        r.wins@[0] == r.wins@[1],
{
    let x = choose|x: Seq<(Outcome, u16)>|
        {
            &&& x.len() == 2 * seeds.len()
            &&& super::duels_end(engine, deck, policies, seeds, 0, x)
            &&& #[trigger] r.tallies(x)
        };
    assert(super::seating(policies, true) =~= policies);
    assert forall|i: int| 0 <= i < x.len() && i % 2 == 0 implies x[i + 1] == super::seen(
        #[trigger] x[i],
        true,
    ) by {
        assert(super::duel_ends(engine, deck, policies, seeds, 0 + i, x[i]));
        assert(super::duel_ends(engine, deck, policies, seeds, 0 + (i + 1), x[i + 1]));
        assert((i + 1) / 2 == i / 2 && (i + 1) % 2 == 1);
        assert(super::seen(x[i], false) == x[i]);
        assert(super::seen(x[i + 1], true) == x[i]);
        assert(super::seen(super::seen(x[i + 1], true), true) == x[i + 1]);
    }
    lemma_mirrored_is_even(x);
}

/// Whether two lists of results hold the same pairs of games, each seen from
/// the other side and in the other order.
spec fn crossed(x: Seq<(Outcome, u16)>, y: Seq<(Outcome, u16)>) -> bool {
    &&& x.len() == y.len()
    &&& x.len() % 2 == 0
    &&& forall|i: int|
        0 <= i < x.len() && i % 2 == 0 ==> y[i + 1] == super::seen(#[trigger] x[i], true) && y[i]
            == super::seen(x[i + 1], true)
}

proof fn lemma_crossed_tallies(x: Seq<(Outcome, u16)>, y: Seq<(Outcome, u16)>)
    requires
        crossed(x, y),
    ensures
        super::won(y, Side::Player0) == super::won(x, Side::Player1),
        super::won(y, Side::Player1) == super::won(x, Side::Player0),
        super::drawn(y) == super::drawn(x),
        super::turns_of(y) == super::turns_of(x),
    decreases x.len(),
{
    if x.len() > 0 {
        let n = x.len() as int;
        let (a, b) = (x.drop_last().drop_last(), y.drop_last().drop_last());
        assert((n - 2) % 2 == 0);
        assert(y[n - 1] == super::seen(x[n - 2], true) && y[n - 2] == super::seen(x[n - 1], true));
        assert forall|i: int| 0 <= i < a.len() && i % 2 == 0 implies b[i + 1] == super::seen(
            #[trigger] a[i],
            true,
        ) && b[i] == super::seen(a[i + 1], true) by {
            assert(a[i] == x[i] && a[i + 1] == x[i + 1]);
            assert(b[i] == y[i] && b[i + 1] == y[i + 1]);
        }
        lemma_crossed_tallies(a, b);
        assert(x.drop_last().last() == x[n - 2] && y.drop_last().last() == y[n - 2]);
        reveal_with_fuel(super::won, 3);
        reveal_with_fuel(super::drawn, 3);
        reveal_with_fuel(super::turns_of, 3);
        match (x[n - 2].0, x[n - 1].0) {
            (Outcome::Win(Side::Player0), _) => {},
            (Outcome::Win(Side::Player1), _) => {},
            (Outcome::Draw, _) => {},
        }
    }
}

/// Swapping the two policies of a duel swaps the wins and changes nothing
/// else, whatever the number of workers.
pub proof fn lemma_swapped_duel<E: Fn(Contender<'_>, Contender<'_>, [Seat; 2], u64, Side) -> Option<(Outcome, u16)>>(
    engine: E,
    deck: Contender<'_>,
    policies: [Policy; 2],
    other: [Policy; 2],
    seeds: Seq<u64>,
    r: Record,
    s: Record,
)
    requires
        settled(engine),
        other@[0] == policies@[1],
        other@[1] == policies@[0],
        super::is_duel(engine, deck, policies, seeds, r),
        super::is_duel(engine, deck, other, seeds, s),
    ensures
        s.wins@[0] == r.wins@[1],
        s.wins@[1] == r.wins@[0],
        s.draws == r.draws,
        s.turns == r.turns,
{
    let x = choose|x: Seq<(Outcome, u16)>|
        {
            &&& x.len() == 2 * seeds.len()
            &&& super::duels_end(engine, deck, policies, seeds, 0, x)
            &&& #[trigger] r.tallies(x)
        };
    let y = choose|y: Seq<(Outcome, u16)>|
        {
            &&& y.len() == 2 * seeds.len()
            &&& super::duels_end(engine, deck, other, seeds, 0, y)
            &&& #[trigger] s.tallies(y)
        };
    assert(super::seating(policies, true) =~= other);
    assert(super::seating(other, true) =~= policies);
    assert forall|i: int| 0 <= i < x.len() && i % 2 == 0 implies y[i + 1] == super::seen(
        #[trigger] x[i],
        true,
    ) && y[i] == super::seen(x[i + 1], true) by {
        assert(super::duel_ends(engine, deck, policies, seeds, 0 + i, x[i]));
        assert(super::duel_ends(engine, deck, policies, seeds, 0 + (i + 1), x[i + 1]));
        assert(super::duel_ends(engine, deck, other, seeds, 0 + i, y[i]));
        assert(super::duel_ends(engine, deck, other, seeds, 0 + (i + 1), y[i + 1]));
        assert((i + 1) / 2 == i / 2 && (i + 1) % 2 == 1);
        assert(super::seen(x[i], false) == x[i] && super::seen(y[i], false) == y[i]);
        assert(super::seen(y[i + 1], true) == x[i]);
        assert(super::seen(x[i + 1], true) == y[i]);
        assert(super::seen(super::seen(y[i + 1], true), true) == y[i + 1]);
    }
    lemma_crossed_tallies(x, y);
}

/// How many of the first `n` games a side leads.
pub open spec fn led(n: nat, side: Side) -> nat
    decreases n,
{
    if n == 0 {
        0
    } else {
        led((n - 1) as nat, side) + if super::leader(n - 1) == side {
            1nat
        } else {
            0
        }
    }
}

/// Over an even number of games each side leads exactly half of them.
pub proof fn lemma_leaders_alternate(half: nat, side: Side)
    ensures
        led(2 * half, side) == half,
    decreases half,
{
    if half > 0 {
        lemma_leaders_alternate((half - 1) as nat, side);
        reveal_with_fuel(led, 3);
        assert((2 * half - 1) % 2 == 1);
        assert((2 * half - 2) % 2 == 0);
    }
}

/// A seed list holds no seed twice.
pub proof fn lemma_seeds_distinct(base: u64, i: int, j: int)
    requires
        0 <= i < j < 0x1_0000_0000_0000_0000,
    ensures
        super::seed_at(base, i) != super::seed_at(base, j),
{
}

// ----------------------------------------------------------------- tallies

/// One game more is one win more for its winner and none for the other side,
/// or one draw more, and its turns more; no games give nothing.
pub proof fn lemma_one_game_more(results: Seq<(Outcome, u16)>, r: (Outcome, u16), side: Side)
    ensures
        super::won(results.push(r), side) == super::won(results, side) + if r.0 == Outcome::Win(
            side,
        ) {
            1nat
        } else {
            0
        },
        super::drawn(results.push(r)) == super::drawn(results) + if r.0 == Outcome::Draw {
            1nat
        } else {
            0
        },
        super::turns_of(results.push(r)) == super::turns_of(results) + r.1,
        super::won(Seq::<(Outcome, u16)>::empty(), side) == 0,
        super::drawn(Seq::<(Outcome, u16)>::empty()) == 0,
        super::turns_of(Seq::<(Outcome, u16)>::empty()) == 0,
{
    assert(results.push(r).drop_last() =~= results);
}

/// A record tallies games where each of its numbers is of those games: the
/// wins of each side at that side's place, the draws and the turns.
pub proof fn lemma_tallies(r: Record, results: Seq<(Outcome, u16)>)
    ensures
        r.tallies(results) <==> {
            &&& r.wins@[0] == super::won(results, Side::Player0)
            &&& r.wins@[1] == super::won(results, Side::Player1)
            &&& r.draws == super::drawn(results)
            &&& r.turns == super::turns_of(results)
        },
        r.games() == r.wins@[0] + r.wins@[1] + r.draws,
{
}

// ------------------------------------------------------------------- games

/// Who plays a side under a policy, in the style of the deck.
pub open spec fn plays(seat: Seat, policy: Policy, style: Style) -> bool {
    match seat {
        Seat::Scripted(s) => policy == Policy::Greedy && s.style == style,
        Seat::Planner { style: own, budget, depth, samples, iterative, weights } => own == style
            && policy == (Policy::Plan { budget, depth, samples, iterative, weights }),
    }
}

/// A game is between the two decks in their order, each played by its own
/// policy in its own style, on the seed and with the side that leads; what
/// comes out is the engine's answer, or a draw on turn nought where it has
/// none.
pub proof fn lemma_game<E: Fn(Contender<'_>, Contender<'_>, [Seat; 2], u64, Side) -> Option<(Outcome, u16)>>(
    engine: E,
    a: Contender<'_>,
    b: Contender<'_>,
    policies: [Policy; 2],
    seed: u64,
    first: Side,
    r: (Outcome, u16),
)
    requires
        super::ends(engine, a, b, policies, seed, first, r),
    ensures
        exists|seats: [Seat; 2], answer: Option<(Outcome, u16)>|
            {
                &&& plays(seats@[0], policies@[0], a.style)
                &&& plays(seats@[1], policies@[1], b.style)
                &&& #[trigger] engine.ensures((a, b, seats, seed, first), answer)
                &&& answer is Some ==> answer->Some_0 == r
                &&& answer is None ==> r.0 == Outcome::Draw && r.1 == 0
            },
{
    let seats = super::seats_of(a, b, policies);
    assert(plays(seats@[0], policies@[0], a.style));
    assert(plays(seats@[1], policies@[1], b.style));
    if engine.ensures((a, b, seats, seed, first), Some(r)) {
    } else {
        assert(engine.ensures((a, b, seats, seed, first), None));
    }
}

/// The engine's own policy plays both sides where none is named.
pub proof fn lemma_greedy()
    ensures
        super::greedy()@[0] == Policy::Greedy,
        super::greedy()@[1] == Policy::Greedy,
{
}

/// The first side leads the first game of a batch and every other one after
/// it, the second side the rest.
pub proof fn lemma_leader(i: int)
    requires
        i >= 0,
    ensures
        super::leader(0) == Side::Player0,
        super::leader(i + 1) != super::leader(i),
        super::leader(i + 2) == super::leader(i),
{
}

/// Every game of a batch is on its own seed, led by its own side.
pub proof fn lemma_batch_games<E: Fn(Contender<'_>, Contender<'_>, [Seat; 2], u64, Side) -> Option<(Outcome, u16)>>(
    engine: E,
    a: Contender<'_>,
    b: Contender<'_>,
    policies: [Policy; 2],
    seeds: Seq<u64>,
    r: Record,
)
    requires
        super::is_batch(engine, a, b, policies, seeds, r),
    ensures
        exists|results: Seq<(Outcome, u16)>|
            {
                &&& results.len() == seeds.len()
                &&& #[trigger] r.tallies(results)
                &&& forall|i: int|
                    0 <= i < seeds.len() ==> super::ends(
                        engine,
                        a,
                        b,
                        policies,
                        seeds[i],
                        if i % 2 == 0 { Side::Player0 } else { Side::Player1 },
                        #[trigger] results[i],
                    )
            },
{
    let results = choose|results: Seq<(Outcome, u16)>|
        {
            &&& results.len() == seeds.len()
            &&& super::batch_ends(engine, a, b, policies, seeds, 0, results)
            &&& #[trigger] r.tallies(results)
        };
    assert forall|i: int| 0 <= i < seeds.len() implies super::ends(
        engine,
        a,
        b,
        policies,
        seeds[i],
        if i % 2 == 0 { Side::Player0 } else { Side::Player1 },
        #[trigger] results[i],
    ) by {
        assert(super::ends(engine, a, b, policies, seeds[0 + i], super::leader(0 + i), results[i]));
    }
    assert(r.tallies(results));
}

/// The same outcome with the other side the winner.
pub open spec fn turned(r: (Outcome, u16)) -> (Outcome, u16) {
    if r.0 == Outcome::Win(Side::Player0) {
        (Outcome::Win(Side::Player1), r.1)
    } else if r.0 == Outcome::Win(Side::Player1) {
        (Outcome::Win(Side::Player0), r.1)
    } else {
        r
    }
}

/// Every seed of a duel is played twice with the same side leading, the second
/// time with the policies at each other's place, and a win then counts for the
/// policy that won it.
pub proof fn lemma_duel_games<E: Fn(Contender<'_>, Contender<'_>, [Seat; 2], u64, Side) -> Option<(Outcome, u16)>>(
    engine: E,
    deck: Contender<'_>,
    policies: [Policy; 2],
    other: [Policy; 2],
    seeds: Seq<u64>,
    r: Record,
)
    requires
        other@[0] == policies@[1],
        other@[1] == policies@[0],
        super::is_duel(engine, deck, policies, seeds, r),
    ensures
        exists|results: Seq<(Outcome, u16)>|
            {
                &&& results.len() == 2 * seeds.len()
                &&& #[trigger] r.tallies(results)
                &&& forall|i: int|
                    0 <= i < seeds.len() ==> {
                        let first = if i % 2 == 0 { Side::Player0 } else { Side::Player1 };
                        let s = #[trigger] seeds[i];
                        &&& super::ends(engine, deck, deck, policies, s, first, results[2 * i])
                        &&& super::ends(
                            engine,
                            deck,
                            deck,
                            other,
                            s,
                            first,
                            turned(results[2 * i + 1]),
                        )
                    }
            },
{
    let results = choose|results: Seq<(Outcome, u16)>|
        {
            &&& results.len() == 2 * seeds.len()
            &&& super::duels_end(engine, deck, policies, seeds, 0, results)
            &&& #[trigger] r.tallies(results)
        };
    assert(super::seating(policies, true) =~= other);
    assert forall|i: int| 0 <= i < seeds.len() implies {
        let first = if i % 2 == 0 { Side::Player0 } else { Side::Player1 };
        let s = #[trigger] seeds[i];
        &&& super::ends(engine, deck, deck, policies, s, first, results[2 * i])
        &&& super::ends(engine, deck, deck, other, s, first, turned(results[2 * i + 1]))
    } by {
        assert(super::duel_ends(engine, deck, policies, seeds, 0 + 2 * i, results[2 * i]));
        assert(super::duel_ends(engine, deck, policies, seeds, 0 + (2 * i + 1), results[2 * i + 1]));
        assert((2 * i + 1) / 2 == i && (2 * i + 1) % 2 == 1 && (2 * i) / 2 == i && (2 * i) % 2 == 0);
        assert(super::seen(results[2 * i + 1], true) == turned(results[2 * i + 1]));
    }
    assert(r.tallies(results));
}

/// The parts that workers take cover every game, with no more parts than
/// workers, and no part could be shorter.
pub proof fn lemma_parts(len: nat, threads: nat)
    requires
        len > 0,
    ensures
        ({
            let workers = if threads == 0 {
                1
            } else if threads > len {
                len
            } else {
                threads
            };
            let part = super::part_len(len, threads);
            part * workers >= len && (part - 1) * workers < len
        }),
        super::part_len(0, threads) == 0,
{
    let workers = if threads == 0 {
        1nat
    } else if threads > len {
        len
    } else {
        threads
    };
    let x = (len + workers - 1) as int;
    let w = workers as int;
    vstd::arithmetic::div_mod::lemma_fundamental_div_mod(x, w);
    vstd::arithmetic::div_mod::lemma_mod_bound(x, w);
    let part = x / w;
    assert(part * w >= len && (part - 1) * w < len) by (nonlinear_arith)
        requires
            x == w * part + x % w,
            0 <= x % w < w,
            x == len + w - 1,
    ;
    if threads > 0 {
        assert(super::part_len(0, threads) == 0);
    }
}

/// The seeds of a list follow each other, from a start that spreads the base.
pub proof fn lemma_seeds_follow(base: u64, i: int)
    requires
        i >= 0,
    ensures
        super::seed_at(base, 0) == (base * 0x9E37_79B9_7F4A_7C15) % 0x1_0000_0000_0000_0000,
        super::seed_at(base, i + 1) == (super::seed_at(base, i) + 1) % 0x1_0000_0000_0000_0000,
{
}

} // verus!
