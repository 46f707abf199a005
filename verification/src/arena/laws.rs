//! What holds of completed drafts.

use vstd::prelude::*;

use super::{PickBudget, PickTally, PATIENCE};
use crate::agent::Style;
use crate::batch::Contender;
use crate::cards::types::{CardId, Class};
use crate::deck::DECK_SIZE;

verus! {

proof fn lemma_tail<R: Fn(u64, usize, usize) -> usize>(
    rand: R,
    seed: u64,
    pool: Seq<CardId>,
    k: nat,
    misses: nat,
    deck: Seq<CardId>,
    out: Seq<CardId>,
)
    requires
        super::draws(rand),
        0 < pool.len() <= usize::MAX,
        misses <= PATIENCE + 1,
        super::tailed(rand, seed, pool, k, misses, deck, out),
    ensures
        deck.len() <= DECK_SIZE ==> out.len() == DECK_SIZE,
        deck.len() <= out.len(),
        deck == out.take(deck.len() as int),
        forall|i: int| deck.len() <= i < out.len() ==> pool.contains(#[trigger] out[i]),
    decreases (DECK_SIZE - deck.len()) + (PATIENCE + 1 - misses),
{
    if deck.len() >= DECK_SIZE {
        assert(out.take(deck.len() as int) =~= out);
    } else {
        let at = choose|at: usize|
            {
                &&& #[trigger] rand.ensures((seed, k as usize, pool.len() as usize), at)
                &&& if misses > PATIENCE || crate::deck::count(deck, pool[at as int]) < 2 {
                    super::tailed(rand, seed, pool, k + 1, misses, deck.push(pool[at as int]), out)
                } else {
                    super::tailed(rand, seed, pool, k + 1, misses + 1, deck, out)
                }
            };
        assert(at < pool.len());
        if misses > PATIENCE || crate::deck::count(deck, pool[at as int]) < 2 {
            let more = deck.push(pool[at as int]);
            lemma_tail(rand, seed, pool, k + 1, misses, more, out);
            assert(out.take(deck.len() as int) =~= deck) by {
                assert(more == out.take(more.len() as int));
            }
            assert forall|i: int| deck.len() <= i < out.len() implies pool.contains(#[trigger] out[i]) by {
                if i == deck.len() {
                    assert(out.take(more.len() as int)[i] == more[i]);
                }
            }
        } else {
            lemma_tail(rand, seed, pool, k + 1, misses + 1, deck, out);
        }
    }
}

/// A completed draft is a full deck that starts with what was picked, then
/// the candidate, then what comes with it; the rest is of the pool.
pub proof fn lemma_completed_draft<R: Fn(u64, usize, usize) -> usize>(
    rand: R,
    seed: u64,
    picked: Seq<CardId>,
    candidate: CardId,
    extra: Seq<CardId>,
    pool: Seq<CardId>,
    out: Seq<CardId>,
)
    requires
        super::draws(rand),
        0 < pool.len() <= usize::MAX,
        picked.len() < DECK_SIZE,
        super::completed(rand, seed, picked, candidate, extra, pool, out),
    ensures
        out.len() == DECK_SIZE,
        picked == out.take(picked.len() as int),
        out[picked.len() as int] == candidate,
        forall|i: int|
            0 <= i < extra.len() && picked.len() + 1 + i < DECK_SIZE ==> out[picked.len() + 1 + i]
                == #[trigger] extra[i],
        forall|i: int|
            picked.len() + 1 + extra.len() <= i < DECK_SIZE ==> pool.contains(#[trigger] out[i]),
{
    let start = super::opening(picked, candidate, extra);
    lemma_tail(rand, seed, pool, 0, 0, start, out);
    assert(start.len() <= DECK_SIZE);
    assert forall|i: int| 0 <= i < start.len() implies out[i] == start[i] by {
        assert(out.take(start.len() as int)[i] == start[i]);
    }
    assert(picked =~= out.take(picked.len() as int));
}

/// Draws that depend on the seed and their place alone.
pub open spec fn repeatable<R: Fn(u64, usize, usize) -> usize>(rand: R) -> bool {
    forall|seed: u64, k: usize, n: usize, x: usize, y: usize|
        #[trigger] rand.ensures((seed, k, n), x) && #[trigger] rand.ensures((seed, k, n), y) ==> x == y
}

proof fn lemma_tail_is_settled<R: Fn(u64, usize, usize) -> usize>(
    rand: R,
    seed: u64,
    pool: Seq<CardId>,
    k: nat,
    misses: nat,
    deck: Seq<CardId>,
    out: Seq<CardId>,
    other: Seq<CardId>,
)
    requires
        repeatable(rand),
        misses <= PATIENCE + 1,
        super::tailed(rand, seed, pool, k, misses, deck, out),
        super::tailed(rand, seed, pool, k, misses, deck, other),
    ensures
        out == other,
    decreases (DECK_SIZE - deck.len()) + (PATIENCE + 1 - misses),
{
    if deck.len() < DECK_SIZE {
        let at = choose|at: usize|
            {
                &&& #[trigger] rand.ensures((seed, k as usize, pool.len() as usize), at)
                &&& if misses > PATIENCE || crate::deck::count(deck, pool[at as int]) < 2 {
                    super::tailed(rand, seed, pool, k + 1, misses, deck.push(pool[at as int]), out)
                } else {
                    super::tailed(rand, seed, pool, k + 1, misses + 1, deck, out)
                }
            };
        let by = choose|by: usize|
            {
                &&& #[trigger] rand.ensures((seed, k as usize, pool.len() as usize), by)
                &&& if misses > PATIENCE || crate::deck::count(deck, pool[by as int]) < 2 {
                    super::tailed(rand, seed, pool, k + 1, misses, deck.push(pool[by as int]), other)
                } else {
                    super::tailed(rand, seed, pool, k + 1, misses + 1, deck, other)
                }
            };
        assert(at == by);
        if misses > PATIENCE || crate::deck::count(deck, pool[at as int]) < 2 {
            lemma_tail_is_settled(
                rand,
                seed,
                pool,
                k + 1,
                misses,
                deck.push(pool[at as int]),
                out,
                other,
            );
        } else {
            lemma_tail_is_settled(rand, seed, pool, k + 1, misses + 1, deck, out, other);
        }
    }
}

/// One seed completes one draft in one way only, so that a difference between
/// two candidates is a statement about the cards.
pub proof fn lemma_completion_is_settled<R: Fn(u64, usize, usize) -> usize>(
    rand: R,
    seed: u64,
    picked: Seq<CardId>,
    candidate: CardId,
    extra: Seq<CardId>,
    pool: Seq<CardId>,
    out: Seq<CardId>,
    other: Seq<CardId>,
)
    requires
        repeatable(rand),
        super::completed(rand, seed, picked, candidate, extra, pool, out),
        super::completed(rand, seed, picked, candidate, extra, pool, other),
    ensures
        out == other,
{
    lemma_tail_is_settled(
        rand,
        seed,
        pool,
        0,
        0,
        super::opening(picked, candidate, extra),
        out,
        other,
    );
}

/// An evaluation that depends on the contender, the field, the numbers of the
/// budget and the game seed alone.
pub open spec fn steady<D, P: Fn(Contender<'_>, &[D], usize, usize, u64) -> Option<(u32, u64)>>(
    play: P,
) -> bool {
    forall|
        me: Contender<'_>,
        other: Contender<'_>,
        field: &[D],
        games: usize,
        threads: usize,
        seed: u64,
        x: Option<(u32, u64)>,
        y: Option<(u32, u64)>,
    |
        me.class == other.class && me.style == other.style && me.cards@ == other.cards@
            && #[trigger] play.ensures((me, field, games, threads, seed), x)
            && #[trigger] play.ensures((other, field, games, threads, seed), y) ==> x == y
}

/// One candidate fares in one way only: with the same cards, the same extras
/// and the same seeds, two tallies are the same.
pub proof fn lemma_tally_is_settled<
    D,
    R: Fn(u64, usize, usize) -> usize,
    P: Fn(Contender<'_>, &[D], usize, usize, u64) -> Option<(u32, u64)>,
>(
    rand: R,
    play: P,
    class: Class,
    field: &[D],
    picked: Seq<CardId>,
    card: CardId,
    extra: Seq<CardId>,
    pool: Seq<CardId>,
    budget: PickBudget,
    s: PickTally,
    t: PickTally,
)
    requires
        repeatable(rand),
        steady(play),
        super::fares(rand, play, class, field, picked, card, extra, pool, budget, s),
        super::fares(rand, play, class, field, picked, card, extra, pool, budget, t),
    ensures
        s.card == t.card,
        s.extra@ == t.extra@,
        s.real_cards == t.real_cards,
        s.averages@ == t.averages@,
        s.games == t.games,
{
    let x = choose|x: Seq<Option<(u32, u64)>>|
        {
            &&& x.len() == budget.tails
            &&& forall|k: int|
                0 <= k < x.len() ==> super::tail_ends(
                    rand,
                    play,
                    class,
                    field,
                    picked,
                    card,
                    extra,
                    pool,
                    budget,
                    k,
                    #[trigger] x[k],
                )
            &&& s.averages@ == (#[trigger] super::played(x)).map_values(|r: (u32, u64)| r.1)
            &&& s.games == super::games_behind(super::played(x), budget.games_per_deck as nat)
        };
    let y = choose|y: Seq<Option<(u32, u64)>>|
        {
            &&& y.len() == budget.tails
            &&& forall|k: int|
                0 <= k < y.len() ==> super::tail_ends(
                    rand,
                    play,
                    class,
                    field,
                    picked,
                    card,
                    extra,
                    pool,
                    budget,
                    k,
                    #[trigger] y[k],
                )
            &&& t.averages@ == (#[trigger] super::played(y)).map_values(|r: (u32, u64)| r.1)
            &&& t.games == super::games_behind(super::played(y), budget.games_per_deck as nat)
        };
    assert forall|k: int| 0 <= k < x.len() implies x[k] == y[k] by {
        let seed = super::tail_seed(budget.seed, k);
        let game = (budget.seed + k) as u64;
        assert(super::tail_ends(rand, play, class, field, picked, card, extra, pool, budget, k, x[k]));
        assert(super::tail_ends(rand, play, class, field, picked, card, extra, pool, budget, k, y[k]));
        let a = choose|a: &[CardId]|
            {
                &&& super::completed(rand, seed, picked, card, extra, pool, a@)
                &&& #[trigger] play.ensures(
                    (
                        Contender { class, cards: a, style: Style::Aggro },
                        field,
                        budget.games_per_deck,
                        budget.threads,
                        game,
                    ),
                    x[k],
                )
            };
        let b = choose|b: &[CardId]|
            {
                &&& super::completed(rand, seed, picked, card, extra, pool, b@)
                &&& #[trigger] play.ensures(
                    (
                        Contender { class, cards: b, style: Style::Aggro },
                        field,
                        budget.games_per_deck,
                        budget.threads,
                        game,
                    ),
                    y[k],
                )
            };
        lemma_completion_is_settled(rand, seed, picked, card, extra, pool, a@, b@);
        let me = Contender { class, cards: a, style: Style::Aggro };
        let other = Contender { class, cards: b, style: Style::Aggro };
        let (games, threads) = (budget.games_per_deck, budget.threads);
        assert(play.ensures((me, field, games, threads, game), x[k]));
        assert(play.ensures((other, field, games, threads, game), y[k]));
    }
    assert(x =~= y);
}

/// Candidates share their tails and their game seeds: two entries with the
/// same card and the same extras, of one comparison or of a repeat of it,
/// fare alike.
pub proof fn lemma_comparison_is_settled<
    D,
    R: Fn(u64, usize, usize) -> usize,
    P: Fn(Contender<'_>, &[D], usize, usize, u64) -> Option<(u32, u64)>,
>(
    rand: R,
    play: P,
    class: Class,
    field: &[D],
    picked: Seq<CardId>,
    candidates: Seq<CardId>,
    extras: Seq<Vec<CardId>>,
    pool: Seq<CardId>,
    budget: PickBudget,
    scores: Seq<PickTally>,
    again: Seq<PickTally>,
    i: int,
    j: int,
)
    requires
        repeatable(rand),
        steady(play),
        super::compared(rand, play, class, field, picked, candidates, extras, pool, budget, scores),
        super::compared(rand, play, class, field, picked, candidates, extras, pool, budget, again),
        0 <= i < candidates.len(),
        0 <= j < candidates.len(),
        candidates[i] == candidates[j],
        super::extras_at(extras, i) == super::extras_at(extras, j),
    ensures
        scores[i].card == again[j].card,
        scores[i].extra@ == again[j].extra@,
        scores[i].real_cards == again[j].real_cards,
        scores[i].averages@ == again[j].averages@,
        scores[i].games == again[j].games,
{
    lemma_tally_is_settled(
        rand,
        play,
        class,
        field,
        picked,
        candidates[i],
        super::extras_at(extras, i),
        pool,
        budget,
        scores[i],
        again[j],
    );
}

/// A candidate without an average has no games behind it, and none has more
/// averages than tails.
pub proof fn lemma_tally_without_average<
    D,
    R: Fn(u64, usize, usize) -> usize,
    P: Fn(Contender<'_>, &[D], usize, usize, u64) -> Option<(u32, u64)>,
>(
    rand: R,
    play: P,
    class: Class,
    field: &[D],
    picked: Seq<CardId>,
    card: CardId,
    extra: Seq<CardId>,
    pool: Seq<CardId>,
    budget: PickBudget,
    s: PickTally,
)
    requires
        super::fares(rand, play, class, field, picked, card, extra, pool, budget, s),
    ensures
        s.averages@.len() == 0 ==> s.games == 0,
        s.averages@.len() <= budget.tails,
{
    let x = choose|x: Seq<Option<(u32, u64)>>|
        {
            &&& x.len() == budget.tails
            &&& s.averages@ == (#[trigger] super::played(x)).map_values(|r: (u32, u64)| r.1)
            &&& s.games == super::games_behind(super::played(x), budget.games_per_deck as nat)
        };
    lemma_played_len(x);
}

proof fn lemma_played_len(results: Seq<Option<(u32, u64)>>)
    ensures
        super::played(results).len() <= results.len(),
    decreases results.len(),
{
    if results.len() > 0 {
        lemma_played_len(results.drop_last());
    }
}

/// A full deck draws no more. Otherwise the next draw of the seed's numbers
/// names a card of the pool: one that the deck holds fewer than twice joins
/// it; one it holds twice is passed over, until a thousand have been, and
/// joins it after that.
pub proof fn lemma_next_draw<R: Fn(u64, usize, usize) -> usize>(
    rand: R,
    seed: u64,
    pool: Seq<CardId>,
    k: nat,
    misses: nat,
    deck: Seq<CardId>,
    out: Seq<CardId>,
)
    requires
        misses <= 1001,
        super::tailed(rand, seed, pool, k, misses, deck, out),
    ensures
        deck.len() >= 30 ==> out == deck,
        deck.len() < 30 ==> exists|at: usize|
            {
                let card = pool[at as int];
                let held = deck.to_multiset().count(card);
                &&& #[trigger] rand.ensures((seed, k as usize, pool.len() as usize), at)
                &&& held < 2 || misses > 1000 ==> super::tailed(
                    rand,
                    seed,
                    pool,
                    k + 1,
                    misses,
                    deck.push(card),
                    out,
                )
                &&& held >= 2 && misses <= 1000 ==> super::tailed(
                    rand,
                    seed,
                    pool,
                    k + 1,
                    misses + 1,
                    deck,
                    out,
                )
            },
{
    if deck.len() < 30 {
        let at = choose|at: usize|
            {
                &&& #[trigger] rand.ensures((seed, k as usize, pool.len() as usize), at)
                &&& if misses > PATIENCE || crate::deck::count(deck, pool[at as int]) < 2 {
                    super::tailed(rand, seed, pool, k + 1, misses, deck.push(pool[at as int]), out)
                } else {
                    super::tailed(rand, seed, pool, k + 1, misses + 1, deck, out)
                }
            };
        assert(rand.ensures((seed, k as usize, pool.len() as usize), at));
    }
}

/// A completion starts with the first of the seed's numbers and with nothing
/// passed over, from the picks, the candidate and what comes with it.
pub proof fn lemma_completion_starts<R: Fn(u64, usize, usize) -> usize>(
    rand: R,
    seed: u64,
    picked: Seq<CardId>,
    candidate: CardId,
    extra: Seq<CardId>,
    pool: Seq<CardId>,
    out: Seq<CardId>,
)
    requires
        super::completed(rand, seed, picked, candidate, extra, pool, out),
        picked.len() + 1 + extra.len() <= 30,
    ensures
        super::tailed(rand, seed, pool, 0, 0, picked + seq![candidate] + extra, out),
{
    assert(super::opening(picked, candidate, extra) =~= picked + seq![candidate] + extra);
}

/// Picks that fill a deck are left as they are.
pub proof fn lemma_full_picks<R: Fn(u64, usize, usize) -> usize>(
    rand: R,
    seed: u64,
    picked: Seq<CardId>,
    candidate: CardId,
    extra: Seq<CardId>,
    pool: Seq<CardId>,
    out: Seq<CardId>,
)
    requires
        super::completed(rand, seed, picked, candidate, extra, pool, out),
        picked.len() >= 30,
    ensures
        out == picked,
{
}

/// The tails have seeds of their own, the first that of the budget.
pub proof fn lemma_tail_seeds(seed: u64, t: int)
    requires
        0 <= t < 0x1_0000_0000_0000_0000,
    ensures
        super::tail_seed(seed, 0) == seed,
        super::tail_seed(seed, t) ^ seed == (t * 0x9E37_79B9_7F4A_7C15)
            % 0x1_0000_0000_0000_0000,
{
    let x = ((t * 0x9E37_79B9_7F4A_7C15) % 0x1_0000_0000_0000_0000) as u64;
    assert((seed ^ x) ^ seed == x) by (bit_vector);
    assert(seed ^ 0u64 == seed) by (bit_vector);
}

/// A tail is played as an aggressive deck of the drafting class, against the
/// whole field, with the games and the threads of the budget and a game seed
/// that is the budget's, one further for each tail.
pub proof fn lemma_tail_is_played<
    D,
    R: Fn(u64, usize, usize) -> usize,
    P: Fn(Contender<'_>, &[D], usize, usize, u64) -> Option<(u32, u64)>,
>(
    rand: R,
    play: P,
    class: Class,
    field: &[D],
    picked: Seq<CardId>,
    card: CardId,
    extra: Seq<CardId>,
    pool: Seq<CardId>,
    budget: PickBudget,
    t: int,
    r: Option<(u32, u64)>,
)
    requires
        super::tail_ends(rand, play, class, field, picked, card, extra, pool, budget, t, r),
        0 <= t,
        budget.seed + t <= u64::MAX,
    ensures
        exists|me: Contender<'_>, games: usize, threads: usize, seed: u64|
            {
                &&& #[trigger] play.ensures((me, field, games, threads, seed), r)
                &&& me.class == class
                &&& me.style == Style::Aggro
                &&& super::completed(
                    rand,
                    super::tail_seed(budget.seed, t),
                    picked,
                    card,
                    extra,
                    pool,
                    me.cards@,
                )
                &&& games == budget.games_per_deck
                &&& threads == budget.threads
                &&& seed == budget.seed + t
            },
{
    let game = (budget.seed + t) as u64;
    let deck = choose|deck: &[CardId]|
        {
            &&& super::completed(
                rand,
                super::tail_seed(budget.seed, t),
                picked,
                card,
                extra,
                pool,
                deck@,
            )
            &&& #[trigger] play.ensures(
                (
                    Contender { class, cards: deck, style: Style::Aggro },
                    field,
                    budget.games_per_deck,
                    budget.threads,
                    game,
                ),
                r,
            )
        };
    let me = Contender { class, cards: deck, style: Style::Aggro };
    let (games, threads) = (budget.games_per_deck, budget.threads);
    assert(play.ensures((me, field, games, threads, game), r));
}

/// A tail that could be played counts its average and its games, so many for
/// each deck it met; one that could not counts neither.
pub proof fn lemma_one_tail_more(results: Seq<Option<(u32, u64)>>, r: (u32, u64), games: nat)
    ensures
        super::played(results.push(Some(r))) == super::played(results).push(r),
        super::played(results.push(None)) == super::played(results),
        super::games_behind(super::played(results).push(r), games) == super::games_behind(
            super::played(results),
            games,
        ) + r.0 * games,
        super::played(Seq::<Option<(u32, u64)>>::empty()) == Seq::<(u32, u64)>::empty(),
        super::games_behind(Seq::<(u32, u64)>::empty(), games) == 0,
{
    assert(results.push(Some(r)).drop_last() =~= results);
    assert(results.push(None).drop_last() =~= results);
    let before = super::played(results);
    assert(before.push(r).drop_last() =~= before);
}

/// A candidate's tally is of that candidate and its own extras, and says how
/// many of the thirty cards were picked rather than drawn.
pub proof fn lemma_tally_names_its_cards<
    D,
    R: Fn(u64, usize, usize) -> usize,
    P: Fn(Contender<'_>, &[D], usize, usize, u64) -> Option<(u32, u64)>,
>(
    rand: R,
    play: P,
    class: Class,
    field: &[D],
    picked: Seq<CardId>,
    candidates: Seq<CardId>,
    extras: Seq<Vec<CardId>>,
    pool: Seq<CardId>,
    budget: PickBudget,
    scores: Seq<PickTally>,
    i: int,
)
    requires
        super::compared(rand, play, class, field, picked, candidates, extras, pool, budget, scores),
        0 <= i < candidates.len(),
    ensures
        scores.len() == candidates.len(),
        scores[i].card == candidates[i],
        i < extras.len() ==> scores[i].extra@ == extras[i]@,
        i >= extras.len() ==> scores[i].extra@.len() == 0,
        ({
            let n = picked.len() + 1 + scores[i].extra@.len();
            scores[i].real_cards == if n < 30 {
                n
            } else {
                30
            }
        }),
        super::fares(
            rand,
            play,
            class,
            field,
            picked,
            candidates[i],
            scores[i].extra@,
            pool,
            budget,
            scores[i],
        ),
{
}

/// A tally is of as many tails as the budget asks for, each ending as it may.
pub proof fn lemma_tally_tails<
    D,
    R: Fn(u64, usize, usize) -> usize,
    P: Fn(Contender<'_>, &[D], usize, usize, u64) -> Option<(u32, u64)>,
>(
    rand: R,
    play: P,
    class: Class,
    field: &[D],
    picked: Seq<CardId>,
    card: CardId,
    extra: Seq<CardId>,
    pool: Seq<CardId>,
    budget: PickBudget,
    s: PickTally,
)
    requires
        super::fares(rand, play, class, field, picked, card, extra, pool, budget, s),
    ensures
        exists|results: Seq<Option<(u32, u64)>>|
            {
                let tails = #[trigger] super::played(results);
                &&& results.len() == budget.tails
                &&& forall|t: int|
                    0 <= t < results.len() ==> super::tail_ends(
                        rand,
                        play,
                        class,
                        field,
                        picked,
                        card,
                        extra,
                        pool,
                        budget,
                        t,
                        #[trigger] results[t],
                    )
                &&& s.averages@.len() == tails.len()
                &&& forall|k: int| 0 <= k < tails.len() ==> #[trigger] s.averages@[k] == tails[k].1
                &&& s.games == super::games_behind(tails, budget.games_per_deck as nat)
            },
{
    let x = choose|x: Seq<Option<(u32, u64)>>|
        {
            &&& x.len() == budget.tails
            &&& forall|k: int|
                0 <= k < x.len() ==> super::tail_ends(
                    rand,
                    play,
                    class,
                    field,
                    picked,
                    card,
                    extra,
                    pool,
                    budget,
                    k,
                    #[trigger] x[k],
                )
            &&& s.averages@ == (#[trigger] super::played(x)).map_values(|r: (u32, u64)| r.1)
            &&& s.games == super::games_behind(super::played(x), budget.games_per_deck as nat)
        };
    let tails = super::played(x);
    assert(s.averages@.len() == tails.len());
}

} // verus!
