//! Comparing Arena draft picks by simulation.
//!
//! The question the engine can honestly answer about a pick: *if this card
//! joins the cards already taken, and the rest of the deck is filled with
//! random legal cards of the season pool, how does the whole thing fare
//! against an Arena-shaped field?* What comes out is a comparison between
//! candidates, never a season winrate — early in a draft the random tail is
//! most of the deck, and the caller is told how much of it was real picks.
//!
//! Fairness over realism: every candidate is completed with the *same* tail
//! seeds, so two decks differ by as little as the pick allows, and the same
//! game seeds, so neither candidate gets the luckier draws. What this does
//! not model is stated in [`fill`].

use vstd::prelude::*;

use crate::agent::Style;
use crate::batch::{Contender, GOLDEN};
use crate::cards::corpus::Corpus;
use crate::cards::types::{CardId, Class, Formats};
use crate::deck::{implemented_pool, DECK_SIZE};

pub mod laws;

verus! {

/// The knobs a comparison runs under.
#[derive(Clone, Copy, Debug, PartialEq, Eq, Structural)]
pub struct PickBudget {
    /// Random completions per candidate. Shared across candidates by seed.
    pub tails: usize,
    /// Games against each field deck, per tail.
    pub games_per_deck: usize,
    pub threads: usize,
    pub seed: u64,
}

impl Default for PickBudget {
    /// 3 tails x 25 games x an 11-deck field ~ 825 games per candidate: a live
    /// pick fits in seconds.
    fn default() -> (r: PickBudget)
        ensures
            r == (PickBudget { tails: 3, games_per_deck: 25, threads: 1, seed: 47 }),
    {
        PickBudget { tails: 3, games_per_deck: 25, threads: 1, seed: 47 }
    }
}

/// How often a card already there may be drawn before the cap on copies
/// yields.
pub const PATIENCE: u32 = 1_000;

/// The cards a deck starts from: the picks, the candidate and what comes with
/// it, as far as there is room.
pub open spec fn opening(picked: Seq<CardId>, candidate: CardId, extra: Seq<CardId>) -> Seq<CardId> {
    if picked.len() >= DECK_SIZE {
        picked
    } else {
        let room = DECK_SIZE - picked.len() - 1;
        picked.push(candidate) + if extra.len() <= room {
            extra
        } else {
            extra.take(room)
        }
    }
}

/// Whether `out` is what comes of filling a deck up with cards drawn from a
/// pool, the next draw being the `k`th.
///
/// A card that the deck holds twice already is passed over, but no more than
/// [`PATIENCE`] times in all.
pub open spec fn tailed<R: Fn(u64, usize, usize) -> usize>(
    rand: R,
    seed: u64,
    pool: Seq<CardId>,
    k: nat,
    misses: nat,
    deck: Seq<CardId>,
    out: Seq<CardId>,
) -> bool
    decreases (DECK_SIZE - deck.len()) + (PATIENCE + 1 - misses),
    when misses <= PATIENCE + 1
{
    if deck.len() >= DECK_SIZE {
        out == deck
    } else {
        exists|at: usize|
            {
                &&& #[trigger] rand.ensures((seed, k as usize, pool.len() as usize), at)
                &&& if misses > PATIENCE || crate::deck::count(deck, pool[at as int]) < 2 {
                    tailed(rand, seed, pool, k + 1, misses, deck.push(pool[at as int]), out)
                } else {
                    tailed(rand, seed, pool, k + 1, misses + 1, deck, out)
                }
            }
    }
}

/// Whether `out` is a draft completed with the draws of a seed.
pub open spec fn completed<R: Fn(u64, usize, usize) -> usize>(
    rand: R,
    seed: u64,
    picked: Seq<CardId>,
    candidate: CardId,
    extra: Seq<CardId>,
    pool: Seq<CardId>,
    out: Seq<CardId>,
) -> bool {
    tailed(rand, seed, pool, 0, 0, opening(picked, candidate, extra), out)
}

fn copies_of(deck: &Vec<CardId>, card: CardId) -> (r: usize)
    ensures
        r == crate::deck::count(deck@, card),
{
    crate::deck::count_of(deck.as_slice(), card)
}

/// Whether any draw below a bound that is not nought can be asked for, and
/// gives a number below it.
pub open spec fn draws<R: Fn(u64, usize, usize) -> usize>(rand: R) -> bool {
    &&& forall|seed: u64, k: usize, n: usize| n > 0 ==> #[trigger] rand.requires((seed, k, n))
    &&& forall|seed: u64, k: usize, n: usize, r: usize|
        #[trigger] rand.ensures((seed, k, n), r) && n > 0 ==> r < n
}

/// `picked` + `candidate` + `extra`, filled to [`DECK_SIZE`] with cards
/// sampled uniformly from the implemented season pool.
///
/// `extra` is a Legendary Group's support cards: the first pick is a
/// package, not a singleton. Uniform is a simplification stated openly: the
/// client offers by quality bucket with weights nobody outside Blizzard has,
/// so modelling them would be a guess wearing a number. Two copies is the
/// stack cap — an Arena deck may legally hold more, but a random tail that
/// piles four of one card is not a deck anyone was offered; if the pool is too
/// shallow to respect even that, the cap yields rather than loops.
///
/// `rand` gives the `k`th of the numbers of a seed below a bound.
pub fn fill<R: Fn(u64, usize, usize) -> usize>(
    picked: &[CardId],
    candidate: CardId,
    extra: &[CardId],
    pool: &[CardId],
    rand: &R,
    seed: u64,
) -> (r: Vec<CardId>)
    requires
        draws(*rand),
        pool@.len() > 0 || opening(picked@, candidate, extra@).len() >= DECK_SIZE,
    ensures
        completed(*rand, seed, picked@, candidate, extra@, pool@, r@),
{
    let mut deck: Vec<CardId> = Vec::new();
    let mut i: usize = 0;
    while i < picked.len()
        invariant
            i <= picked@.len(),
            deck@ == picked@.take(i as int),
        decreases picked.len() - i,
    {
        deck.push(picked[i]);
        proof {
            assert(deck@ =~= picked@.take(i + 1));
        }
        i += 1;
    }
    proof {
        assert(deck@ =~= picked@);
    }
    if deck.len() < DECK_SIZE {
        deck.push(candidate);
        let ghost base = deck@;
        let mut j: usize = 0;
        while j < extra.len() && deck.len() < DECK_SIZE
            invariant
                j <= extra@.len(),
                base == picked@.push(candidate),
                base.len() <= DECK_SIZE,
                deck@ == base + extra@.take(j as int),
                deck@.len() <= DECK_SIZE,
            decreases extra.len() - j,
        {
            deck.push(extra[j]);
            proof {
                assert(deck@ =~= base + extra@.take(j + 1));
            }
            j += 1;
        }
        proof {
            if j == extra@.len() {
                assert(extra@.take(j as int) =~= extra@);
            }
            assert(deck@ =~= opening(picked@, candidate, extra@));
        }
    }
    fill_from(pool, rand, seed, 0, 0, deck)
}

/// Fills a deck up, the next draw being the `k`th.
fn fill_from<R: Fn(u64, usize, usize) -> usize>(
    pool: &[CardId],
    rand: &R,
    seed: u64,
    k: usize,
    misses: u32,
    start: Vec<CardId>,
) -> (r: Vec<CardId>)
    requires
        draws(*rand),
        start@.len() < DECK_SIZE ==> pool@.len() > 0,
        misses <= PATIENCE + 1,
        start@.len() < DECK_SIZE ==> k + (DECK_SIZE - start@.len()) + (PATIENCE + 1 - misses) <= 2_000,
    ensures
        tailed(*rand, seed, pool@, k as nat, misses as nat, start@, r@),
    decreases (DECK_SIZE - start@.len()) + (PATIENCE + 1 - misses),
{
    if start.len() >= DECK_SIZE {
        return start;
    }
    let at: usize = rand(seed, k, pool.len());
    assert(rand.ensures((seed, k as usize, pool@.len() as usize), at));
    let c = pool[at];
    let mut deck = start;
    if misses > PATIENCE || copies_of(&deck, c) < 2 {
        deck.push(c);
        fill_from(pool, rand, seed, k + 1, misses, deck)
    } else {
        fill_from(pool, rand, seed, k + 1, misses + 1, deck)
    }
}

/// How one candidate fared.
#[derive(Clone, Debug)]
pub struct PickTally {
    pub card: CardId,
    /// The average of each tail that could be played, as the evaluation gave
    /// it. The mean of these is the candidate's winrate against the field.
    pub averages: Vec<u64>,
    /// Games behind the averages.
    pub games: u32,
    /// Support cards forced in with this candidate (a Legendary Group).
    pub extra: Vec<CardId>,
    /// `picked` + this candidate + extras that actually sat in the deck.
    pub real_cards: usize,
}

/// The seed of the `t`th tail, the same for every candidate.
pub open spec fn tail_seed(seed: u64, t: int) -> u64 {
    seed ^ (((t * GOLDEN) % 0x1_0000_0000_0000_0000) as u64)
}

/// The tails that could be played, as `(decks, average)`.
pub open spec fn played(results: Seq<Option<(u32, u64)>>) -> Seq<(u32, u64)>
    decreases results.len(),
{
    if results.len() == 0 {
        seq![]
    } else {
        match results.last() {
            Some(r) => played(results.drop_last()).push(r),
            None => played(results.drop_last()),
        }
    }
}

/// The games behind these tails.
pub open spec fn games_behind(tails: Seq<(u32, u64)>, games_per_deck: nat) -> nat
    decreases tails.len(),
{
    if tails.len() == 0 {
        0
    } else {
        games_behind(tails.drop_last(), games_per_deck) + tails.last().0 as nat * games_per_deck
    }
}

/// Whether a tail can end like this: the draft is completed with the draws of
/// the tail's seed, and the result meets the field with the tail's game seed.
///
/// It is played as an aggressive deck: a format that ends with the fifth loss
/// rewards the games that end before the late game.
pub open spec fn tail_ends<
    D,
    R: Fn(u64, usize, usize) -> usize,
    P: Fn(Contender<'_>, &[D], usize, usize, u64) -> Option<(u32, u64)>,
>(
    rand: R,
    play: P,
    class: Class,
    field: &[D],
    picked: Seq<CardId>,
    card: CardId,
    extra: Seq<CardId>,
    pool: Seq<CardId>,
    budget: PickBudget,
    t: int,
    r: Option<(u32, u64)>,
) -> bool {
    exists|deck: &[CardId]|
        {
            &&& completed(rand, tail_seed(budget.seed, t), picked, card, extra, pool, deck@)
            &&& #[trigger] play.ensures(
                (
                    Contender { class, cards: deck, style: Style::Aggro },
                    field,
                    budget.games_per_deck,
                    budget.threads,
                    (budget.seed + t) as u64,
                ),
                r,
            )
        }
}

/// The extras of the candidate at a place: none where there are none for it.
pub open spec fn extras_at(extras: Seq<Vec<CardId>>, i: int) -> Seq<CardId> {
    if i < extras.len() {
        extras[i]@
    } else {
        seq![]
    }
}

/// How many cards of a deck were real picks.
pub open spec fn real_cards(picked: nat, extra: nat) -> nat {
    if picked + 1 + extra < DECK_SIZE {
        picked + 1 + extra
    } else {
        DECK_SIZE as nat
    }
}

/// Whether this is how a candidate fared.
pub open spec fn fares<
    D,
    R: Fn(u64, usize, usize) -> usize,
    P: Fn(Contender<'_>, &[D], usize, usize, u64) -> Option<(u32, u64)>,
>(
    rand: R,
    play: P,
    class: Class,
    field: &[D],
    picked: Seq<CardId>,
    card: CardId,
    extra: Seq<CardId>,
    pool: Seq<CardId>,
    budget: PickBudget,
    s: PickTally,
) -> bool {
    &&& s.card == card
    &&& s.extra@ == extra
    &&& s.real_cards == real_cards(picked.len(), extra.len())
    &&& exists|results: Seq<Option<(u32, u64)>>|
        {
            &&& results.len() == budget.tails
            &&& forall|t: int|
                0 <= t < results.len() ==> tail_ends(
                    rand,
                    play,
                    class,
                    field,
                    picked,
                    card,
                    extra,
                    pool,
                    budget,
                    t,
                    #[trigger] results[t],
                )
            &&& s.averages@ == (#[trigger] played(results)).map_values(|r: (u32, u64)| r.1)
            &&& s.games == games_behind(played(results), budget.games_per_deck as nat)
        }
}

/// Whether this is how the candidates fared, each with its own extras.
pub open spec fn compared<
    D,
    R: Fn(u64, usize, usize) -> usize,
    P: Fn(Contender<'_>, &[D], usize, usize, u64) -> Option<(u32, u64)>,
>(
    rand: R,
    play: P,
    class: Class,
    field: &[D],
    picked: Seq<CardId>,
    candidates: Seq<CardId>,
    extras: Seq<Vec<CardId>>,
    pool: Seq<CardId>,
    budget: PickBudget,
    scores: Seq<PickTally>,
) -> bool {
    &&& scores.len() == candidates.len()
    &&& forall|i: int|
        0 <= i < scores.len() ==> fares(
            rand,
            play,
            class,
            field,
            picked,
            candidates[i],
            extras_at(extras, i),
            pool,
            budget,
            #[trigger] scores[i],
        )
}

/// Whether a comparison can be played: any contender can meet the field with
/// any game seed, no tail meets more decks than the field holds, and the
/// numbers of the budget fit.
pub open spec fn playable<D, P: Fn(Contender<'_>, &[D], usize, usize, u64) -> Option<(u32, u64)>>(
    play: P,
    field: &[D],
    budget: PickBudget,
) -> bool {
    &&& forall|me: Contender<'_>, seed: u64| #[trigger]
        play.requires((me, field, budget.games_per_deck, budget.threads, seed))
    &&& forall|me: Contender<'_>, seed: u64, r: (u32, u64)| #[trigger]
        play.ensures((me, field, budget.games_per_deck, budget.threads, seed), Some(r)) ==> r.0
            <= field@.len()
    &&& budget.tails > 0 ==> budget.seed + (budget.tails - 1) <= u64::MAX
    &&& field@.len() * budget.games_per_deck * budget.tails <= u32::MAX
}

fn copy_cards(cards: &[CardId]) -> (r: Vec<CardId>)
    ensures
        r@ == cards@,
{
    let mut out: Vec<CardId> = Vec::new();
    let mut i: usize = 0;
    while i < cards.len()
        invariant
            i <= cards@.len(),
            out@ == cards@.take(i as int),
        decreases cards.len() - i,
    {
        out.push(cards[i]);
        proof {
            assert(out@ =~= cards@.take(i + 1));
        }
        i += 1;
    }
    proof {
        assert(out@ =~= cards@);
    }
    out
}

fn score_candidate<
    D,
    R: Fn(u64, usize, usize) -> usize,
    P: Fn(Contender<'_>, &[D], usize, usize, u64) -> Option<(u32, u64)>,
>(
    rand: &R,
    play: &P,
    class: Class,
    field: &[D],
    picked: &[CardId],
    card: CardId,
    extra: &[CardId],
    pool: &[CardId],
    budget: &PickBudget,
) -> (s: PickTally)
    requires
        draws(*rand),
        playable(*play, field, *budget),
        pool@.len() > 0,
        picked@.len() < DECK_SIZE,
    ensures
        fares(*rand, *play, class, field, picked@, card, extra@, pool@, *budget, s),
{
    let mut averages: Vec<u64> = Vec::new();
    let mut games: u32 = 0;
    let ghost mut results: Seq<Option<(u32, u64)>> = seq![];
    let ghost second = |r: (u32, u64)| r.1;
    let ghost step = field@.len() * budget.games_per_deck;
    let mut t: usize = 0;
    proof {
        assert(averages@ =~= played(results).map_values(second));
    }
    while t < budget.tails
        invariant
            draws(*rand),
            playable(*play, field, *budget),
            pool@.len() > 0,
            t <= budget.tails,
            step == field@.len() * budget.games_per_deck,
            second == (|r: (u32, u64)| r.1),
            results.len() == t,
            forall|k: int|
                0 <= k < t ==> tail_ends(
                    *rand,
                    *play,
                    class,
                    field,
                    picked@,
                    card,
                    extra@,
                    pool@,
                    *budget,
                    k,
                    #[trigger] results[k],
                ),
            averages@ == played(results).map_values(second),
            games == games_behind(played(results), budget.games_per_deck as nat),
            games <= step * t,
        decreases budget.tails - t,
    {
        let mixed: u64 = (t as u64).wrapping_mul(GOLDEN);
        let deck = fill(picked, card, extra, pool, rand, budget.seed ^ mixed);
        let game: u64 = budget.seed + t as u64;
        let me = Contender { class, cards: deck.as_slice(), style: Style::Aggro };
        let r = play(me, field, budget.games_per_deck, budget.threads, game);
        let ghost before = played(results);
        proof {
            let more = results.push(r);
            assert(more.drop_last() =~= results);
            assert(mixed == (t * GOLDEN) % 0x1_0000_0000_0000_0000);
            assert(play.ensures((me, field, budget.games_per_deck, budget.threads, game), r));
            assert(completed(*rand, tail_seed(budget.seed, t as int), picked@, card, extra@, pool@, me.cards@));
            assert(tail_ends(*rand, *play, class, field, picked@, card, extra@, pool@, *budget, t as int, r));
            results = more;
            assert(step * (t + 1) == step * t + step) by (nonlinear_arith);
            assert(step * (t + 1) <= step * budget.tails) by (nonlinear_arith)
                requires
                    t + 1 <= budget.tails,
                    step >= 0,
            ;
        }
        if let Some((decks, average)) = r {
            proof {
                assert(decks <= field@.len());
                assert(decks * budget.games_per_deck <= field@.len() * budget.games_per_deck) by (nonlinear_arith)
                    requires
                        decks <= field@.len(),
                ;
                assert(played(results) == before.push((decks, average)));
                assert(before.push((decks, average)).drop_last() =~= before);
                assert(decks * budget.games_per_deck >= 0) by (nonlinear_arith);
            }
            games = games + (decks as u128 * budget.games_per_deck as u128) as u32;
            averages.push(average);
            proof {
                assert(averages@ =~= played(results).map_values(second));
            }
        }
        t += 1;
    }
    let sat: usize = if extra.len() < DECK_SIZE && picked.len() + 1 + extra.len() < DECK_SIZE {
        picked.len() + 1 + extra.len()
    } else {
        DECK_SIZE
    };
    PickTally { card, averages, games, extra: copy_cards(extra), real_cards: sat }
}

/// What is said where there is nothing to fill a draft with.
pub const NO_POOL: &'static str = "the corpus carries no Arena season pool";

/// What is said where there is nothing left to pick.
pub const FULL_DRAFT: &'static str = "the draft already holds a full deck";

/// Score each candidate: complete the draft around it and play the result
/// against the field.
///
/// The caller owns the honesty gates — every candidate and every picked card
/// implemented, or no simulation at all: a card the engine does not play is
/// *not compared*, never silently dropped. What is enforced here is what would
/// otherwise return nonsense: an empty season pool is an error, not an empty
/// answer.
///
/// `rand` gives the `k`th of the numbers of a seed below a bound. `play` plays
/// a contender against the field, so many games against each of its decks, on
/// so many threads and with a game seed, and gives how many of the decks could
/// be played and the average, or nothing where none could.
pub fn compare_picks<
    D,
    R: Fn(u64, usize, usize) -> usize,
    P: Fn(Contender<'_>, &[D], usize, usize, u64) -> Option<(u32, u64)>,
>(
    c: &Corpus,
    class: Class,
    picked: &[CardId],
    candidates: &[CardId],
    extras: &[Vec<CardId>],
    field: &[D],
    budget: &PickBudget,
    rand: &R,
    play: &P,
) -> (r: Result<Vec<PickTally>, &'static str>)
    requires
        c.wf(),
        draws(*rand),
        playable(*play, field, *budget),
    ensures
        ({
            let pool = crate::deck::implemented_pool_of(*c, class, Formats(Formats::ARENA));
            match r {
                Err(e) => if pool.len() == 0 {
                    e@ == NO_POOL@
                } else {
                    e@ == FULL_DRAFT@ && picked@.len() >= DECK_SIZE
                },
                Ok(scores) => {
                    &&& pool.len() > 0
                    &&& picked@.len() < DECK_SIZE
                    &&& compared(
                        *rand,
                        *play,
                        class,
                        field,
                        picked@,
                        candidates@,
                        extras@,
                        pool,
                        *budget,
                        scores@,
                    )
                },
            }
        }),
{
    let pool = implemented_pool(c, class, Formats(Formats::ARENA));
    if pool.len() == 0 {
        return Err(NO_POOL);
    }
    if picked.len() >= DECK_SIZE {
        return Err(FULL_DRAFT);
    }
    let none: Vec<CardId> = Vec::new();
    let mut out: Vec<PickTally> = Vec::new();
    let mut i: usize = 0;
    while i < candidates.len()
        invariant
            draws(*rand),
            playable(*play, field, *budget),
            pool@.len() > 0,
            picked@.len() < DECK_SIZE,
            none@.len() == 0,
            i <= candidates@.len(),
            out@.len() == i,
            forall|k: int|
                0 <= k < i ==> fares(
                    *rand,
                    *play,
                    class,
                    field,
                    picked@,
                    candidates@[k],
                    extras_at(extras@, k),
                    pool@,
                    *budget,
                    #[trigger] out@[k],
                ),
        decreases candidates.len() - i,
    {
        let extra: &[CardId] = if i < extras.len() {
            extras[i].as_slice()
        } else {
            none.as_slice()
        };
        proof {
            assert(extra@ =~= extras_at(extras@, i as int));
        }
        let s = score_candidate(
            rand,
            play,
            class,
            field,
            picked,
            candidates[i],
            extra,
            pool.as_slice(),
            budget,
        );
        out.push(s);
        i += 1;
    }
    Ok(out)
}

} // verus!
