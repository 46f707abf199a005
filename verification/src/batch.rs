//! Running many games.
//!
//! The measurement design is baked in rather than left to the caller. Two
//! rules:
//!
//! * **Every candidate sees the same seeds.** Comparing two decks that share 29
//!   of 30 cards using independent samples throws away the shared variance;
//!   pairing the seeds recovers it.
//! * **Who goes first is alternated, not rolled.** The coin is a large and
//!   entirely avoidable source of noise.
//!
//! Both are properties of [`play_batch`], so a caller cannot forget them. The
//! engine that plays a game is handed in.

use vstd::prelude::*;

use crate::agent::{Scripted, Style};
use crate::cards::types::{CardId, Class};
use crate::state::{Outcome, Side};

pub mod laws;

verus! {

/// The tally from a set of games.
#[derive(Clone, Copy, Debug, Default, PartialEq, Eq)]
pub struct Record {
    /// Games won by each side.
    pub wins: [u32; 2],
    pub draws: u32,
    /// Total turns across all games. A sudden change here is the earliest
    /// sign that a rules change altered how games play out, which a win rate
    /// alone can hide.
    pub turns: u64,
}

/// How many of these games one side won.
pub open spec fn won(results: Seq<(Outcome, u16)>, side: Side) -> nat
    decreases results.len(),
{
    if results.len() == 0 {
        0
    } else {
        won(results.drop_last(), side) + if results.last().0 == Outcome::Win(side) {
            1nat
        } else {
            0
        }
    }
}

/// How many of these games nobody won.
pub open spec fn drawn(results: Seq<(Outcome, u16)>) -> nat
    decreases results.len(),
{
    if results.len() == 0 {
        0
    } else {
        drawn(results.drop_last()) + if results.last().0 == Outcome::Draw {
            1nat
        } else {
            0
        }
    }
}

/// The turns these games took in all.
pub open spec fn turns_of(results: Seq<(Outcome, u16)>) -> nat
    decreases results.len(),
{
    if results.len() == 0 {
        0
    } else {
        turns_of(results.drop_last()) + results.last().1 as nat
    }
}

impl Record {
    pub open spec fn games(self) -> nat {
        (self.wins@[0] + self.wins@[1] + self.draws) as nat
    }

    /// Whether this is the tally of these games.
    pub open spec fn tallies(self, results: Seq<(Outcome, u16)>) -> bool {
        &&& self.wins@[0] == won(results, Side::Player0)
        &&& self.wins@[1] == won(results, Side::Player1)
        &&& self.draws == drawn(results)
        &&& self.turns == turns_of(results)
    }

    /// The tally of no games.
    pub fn new() -> (r: Record)
        ensures
            r.tallies(seq![]),
            r.wins@ == seq![0u32, 0u32],
            r.draws == 0,
            r.turns == 0,
    {
        Record { wins: [0, 0], draws: 0, turns: 0 }
    }

    pub fn total(&self) -> (r: u32)
        requires
            self.games() <= u32::MAX,
        ensures
            r == self.games(),
    {
        self.wins[0] + self.wins[1] + self.draws
    }

    /// The tally of two sets of games.
    pub fn merge(self, other: Record) -> (r: Record)
        requires
            self.wins@[0] + other.wins@[0] <= u32::MAX,
            self.wins@[1] + other.wins@[1] <= u32::MAX,
            self.draws + other.draws <= u32::MAX,
            self.turns + other.turns <= u64::MAX,
        ensures
            r.wins@[0] == self.wins@[0] + other.wins@[0],
            r.wins@[1] == self.wins@[1] + other.wins@[1],
            r.draws == self.draws + other.draws,
            r.turns == self.turns + other.turns,
    {
        Record {
            wins: [self.wins[0] + other.wins[0], self.wins[1] + other.wins[1]],
            draws: self.draws + other.draws,
            turns: self.turns + other.turns,
        }
    }

    /// Adds one game.
    pub fn record(&mut self, o: Outcome, turns: u16)
        requires
            old(self).games() < u32::MAX,
            old(self).turns + turns <= u64::MAX,
        ensures
            final(self).wins@[0] == old(self).wins@[0] + if o == Outcome::Win(Side::Player0) {
                1int
            } else {
                0
            },
            final(self).wins@[1] == old(self).wins@[1] + if o == Outcome::Win(Side::Player1) {
                1int
            } else {
                0
            },
            final(self).draws == old(self).draws + if o == Outcome::Draw {
                1int
            } else {
                0
            },
            final(self).turns == old(self).turns + turns,
    {
        match o {
            Outcome::Win(Side::Player0) => {
                self.wins = [self.wins[0] + 1, self.wins[1]];
            },
            Outcome::Win(Side::Player1) => {
                self.wins = [self.wins[0], self.wins[1] + 1];
            },
            Outcome::Draw => {
                self.draws = self.draws + 1;
            },
        }
        self.turns = self.turns + turns as u64;
    }
}

/// One side of a matchup.
#[derive(Clone, Copy)]
pub struct Contender<'a> {
    pub class: Class,
    pub cards: &'a [CardId],
    pub style: Style,
}

/// Which policy plays a side, for a duel that varies the policy rather than
/// the deck.
#[derive(Clone, Copy, Debug, PartialEq, Eq, Structural)]
pub enum Policy {
    /// The engine's own greedy scorer.
    Greedy,
    /// Search over the rest of the turn, `budget` positions per decision,
    /// averaged over `samples` determinizations. `iterative` deepens a level
    /// at a time instead of running one depth-first pass to exhaustion, and
    /// `weights` numbers what its evaluation weighs a position by.
    Plan { budget: u32, depth: u8, samples: u8, iterative: bool, weights: u16 },
}

/// What sits down to play a side.
#[derive(Clone, Copy, Debug, PartialEq, Eq, Structural)]
pub enum Seat {
    Scripted(Scripted),
    Planner { style: Style, budget: u32, depth: u8, samples: u8, iterative: bool, weights: u16 },
}

impl Policy {
    pub open spec fn seated(self, style: Style) -> Seat {
        match self {
            Policy::Greedy => Seat::Scripted(Scripted { style }),
            Policy::Plan { budget, depth, samples, iterative, weights } => Seat::Planner {
                style,
                budget,
                depth,
                samples,
                iterative,
                weights,
            },
        }
    }

    /// What plays a side under this policy.
    pub fn agent(self, style: Style) -> (r: Seat)
        ensures
            r == self.seated(style),
    {
        match self {
            Policy::Greedy => Seat::Scripted(Scripted::new(style)),
            Policy::Plan { budget, depth, samples, iterative, weights } => Seat::Planner {
                style,
                budget,
                depth,
                samples,
                iterative,
                weights,
            },
        }
    }
}

/// Whether an engine can be asked for any game at all.
pub open spec fn ready<E: Fn(Contender<'_>, Contender<'_>, [Seat; 2], u64, Side) -> Option<(Outcome, u16)>>(
    engine: E,
) -> bool {
    forall|a: Contender<'_>, b: Contender<'_>, seats: [Seat; 2], seed: u64, first: Side|
        #[trigger] engine.requires((a, b, seats, seed, first))
}

/// Who sits down under two policies.
pub open spec fn seats_of(a: Contender<'_>, b: Contender<'_>, policies: [Policy; 2]) -> [Seat; 2] {
    [policies@[0].seated(a.style), policies@[1].seated(b.style)]
}

/// Whether a game can end like this.
///
/// A class with no hero power cannot field a deck; that is a draw on turn
/// nought rather than a failure.
pub open spec fn ends<E: Fn(Contender<'_>, Contender<'_>, [Seat; 2], u64, Side) -> Option<(Outcome, u16)>>(
    engine: E,
    a: Contender<'_>,
    b: Contender<'_>,
    policies: [Policy; 2],
    seed: u64,
    first: Side,
    r: (Outcome, u16),
) -> bool {
    let seats = seats_of(a, b, policies);
    ||| engine.ensures((a, b, seats, seed, first), Some(r))
    ||| engine.ensures((a, b, seats, seed, first), None) && r == (Outcome::Draw, 0u16)
}

/// Play one game with a named policy on each side.
///
/// The one place a game is actually set up and run. Everything else here — a
/// deck comparison, a policy duel, a whole tier table — is this with the two
/// axes fixed differently: a deck comparison varies the decks and holds the
/// policy, a policy duel varies the policy and holds the deck.
pub fn play_with<E: Fn(Contender<'_>, Contender<'_>, [Seat; 2], u64, Side) -> Option<(Outcome, u16)>>(
    engine: &E,
    a: Contender<'_>,
    b: Contender<'_>,
    policies: [Policy; 2],
    seed: u64,
    first: Side,
) -> (r: (Outcome, u16))
    requires
        ready(*engine),
    ensures
        ends(*engine, a, b, policies, seed, first, r),
{
    let seats: [Seat; 2] = [policies[0].agent(a.style), policies[1].agent(b.style)];
    assert(seats =~= seats_of(a, b, policies));
    match engine(a, b, seats, seed, first) {
        Some(r) => r,
        None => (Outcome::Draw, 0),
    }
}

/// The engine's own policy on both sides.
pub open spec fn greedy() -> [Policy; 2] {
    [Policy::Greedy, Policy::Greedy]
}

/// Play one game and return how it ended, with the turn it ended on.
pub fn play_one_detailed<E: Fn(Contender<'_>, Contender<'_>, [Seat; 2], u64, Side) -> Option<(Outcome, u16)>>(
    engine: &E,
    a: Contender<'_>,
    b: Contender<'_>,
    seed: u64,
    first: Side,
) -> (r: (Outcome, u16))
    requires
        ready(*engine),
    ensures
        ends(*engine, a, b, greedy(), seed, first, r),
{
    play_with(engine, a, b, [Policy::Greedy, Policy::Greedy], seed, first)
}

/// Play one game and return how it ended.
pub fn play_one<E: Fn(Contender<'_>, Contender<'_>, [Seat; 2], u64, Side) -> Option<(Outcome, u16)>>(
    engine: &E,
    a: Contender<'_>,
    b: Contender<'_>,
    seed: u64,
    first: Side,
) -> (r: Outcome)
    requires
        ready(*engine),
    ensures
        exists|turns: u16|
            #[trigger] ends(*engine, a, b, greedy(), seed, first, (r, turns)),
{
    let (o, turns) = play_one_detailed(engine, a, b, seed, first);
    assert(ends(*engine, a, b, greedy(), seed, first, (o, turns)));
    o
}

/// Who goes first in the game at this place: alternating rather than rolling,
/// so that over an even number of games each deck leads exactly half the
/// time.
pub open spec fn leader(i: int) -> Side {
    if i % 2 == 0 {
        Side::Player0
    } else {
        Side::Player1
    }
}

fn leader_of(i: usize) -> (r: Side)
    ensures
        r == leader(i as int),
{
    if i % 2 == 0 {
        Side::Player0
    } else {
        Side::Player1
    }
}

/// Whether the games on the seeds from `from` on can end like these.
pub open spec fn batch_ends<E: Fn(Contender<'_>, Contender<'_>, [Seat; 2], u64, Side) -> Option<(Outcome, u16)>>(
    engine: E,
    a: Contender<'_>,
    b: Contender<'_>,
    policies: [Policy; 2],
    seeds: Seq<u64>,
    from: int,
    results: Seq<(Outcome, u16)>,
) -> bool {
    forall|i: int|
        0 <= i < results.len() ==> ends(
            engine,
            a,
            b,
            policies,
            seeds[from + i],
            leader(from + i),
            #[trigger] results[i],
        )
}

proof fn lemma_tally_step(results: Seq<(Outcome, u16)>, r: (Outcome, u16))
    ensures
        won(results.push(r), Side::Player0) == won(results, Side::Player0) + if r.0 == Outcome::Win(Side::Player0) { 1nat } else { 0 },
        won(results.push(r), Side::Player1) == won(results, Side::Player1) + if r.0 == Outcome::Win(Side::Player1) { 1nat } else { 0 },
        drawn(results.push(r)) == drawn(results) + if r.0 == Outcome::Draw { 1nat } else { 0 },
        turns_of(results.push(r)) == turns_of(results) + r.1,
{
    assert(results.push(r).drop_last() =~= results);
}

/// Every game is won by one side or drawn, and takes a bounded number of
/// turns.
pub proof fn lemma_tally_total(results: Seq<(Outcome, u16)>)
    ensures
        won(results, Side::Player0) + won(results, Side::Player1) + drawn(results) == results.len(),
        turns_of(results) <= results.len() * u16::MAX,
    decreases results.len(),
{
    if results.len() > 0 {
        lemma_tally_total(results.drop_last());
        assert(results.len() * u16::MAX == (results.len() - 1) * u16::MAX + u16::MAX) by (nonlinear_arith);
        match results.last().0 {
            Outcome::Win(Side::Player0) => {},
            Outcome::Win(Side::Player1) => {},
            Outcome::Draw => {},
        }
    }
}

proof fn lemma_tally_concat(x: Seq<(Outcome, u16)>, y: Seq<(Outcome, u16)>)
    ensures
        won(x + y, Side::Player0) == won(x, Side::Player0) + won(y, Side::Player0),
        won(x + y, Side::Player1) == won(x, Side::Player1) + won(y, Side::Player1),
        drawn(x + y) == drawn(x) + drawn(y),
        turns_of(x + y) == turns_of(x) + turns_of(y),
    decreases y.len(),
{
    if y.len() == 0 {
        assert(x + y =~= x);
    } else {
        lemma_tally_concat(x, y.drop_last());
        assert((x + y).drop_last() =~= x + y.drop_last());
    }
}

/// Play the games on `seeds[from..to]`, each with the leader of its place in
/// the whole list.
pub fn play_part<E: Fn(Contender<'_>, Contender<'_>, [Seat; 2], u64, Side) -> Option<(Outcome, u16)>>(
    engine: &E,
    a: Contender<'_>,
    b: Contender<'_>,
    policies: [Policy; 2],
    seeds: &[u64],
    from: usize,
    to: usize,
) -> (r: Record)
    requires
        ready(*engine),
        from <= to <= seeds@.len() <= u32::MAX,
    ensures
        exists|results: Seq<(Outcome, u16)>|
            {
                &&& results.len() == to - from
                &&& batch_ends(*engine, a, b, policies, seeds@, from as int, results)
                &&& #[trigger] r.tallies(results)
            },
{
    let mut rec = Record::new();
    let mut i: usize = from;
    let ghost mut results: Seq<(Outcome, u16)> = seq![];
    while i < to
        invariant
            ready(*engine),
            from <= i <= to <= seeds@.len() <= u32::MAX,
            results.len() == i - from,
            batch_ends(*engine, a, b, policies, seeds@, from as int, results),
            rec.tallies(results),
        decreases to - i,
    {
        let (o, turns) = play_with(engine, a, b, policies, seeds[i], leader_of(i));
        proof {
            lemma_tally_total(results);
            assert(results.len() * u16::MAX <= u32::MAX * u16::MAX) by (nonlinear_arith)
                requires
                    results.len() <= u32::MAX,
            ;
            lemma_tally_step(results, (o, turns));
            let more = results.push((o, turns));
            assert forall|k: int| 0 <= k < more.len() implies ends(
                *engine,
                a,
                b,
                policies,
                seeds@[from + k],
                leader(from + k),
                #[trigger] more[k],
            ) by {
                if k < results.len() {
                    assert(more[k] == results[k]);
                }
            }
            results = more;
        }
        rec.record(o, turns);
        i += 1;
    }
    rec
}

/// Whether this can be the tally of a batch: one game on each seed, led in
/// turn.
pub open spec fn is_batch<E: Fn(Contender<'_>, Contender<'_>, [Seat; 2], u64, Side) -> Option<(Outcome, u16)>>(
    engine: E,
    a: Contender<'_>,
    b: Contender<'_>,
    policies: [Policy; 2],
    seeds: Seq<u64>,
    r: Record,
) -> bool {
    exists|results: Seq<(Outcome, u16)>|
        {
            &&& results.len() == seeds.len()
            &&& batch_ends(engine, a, b, policies, seeds, 0, results)
            &&& #[trigger] r.tallies(results)
        }
}

/// Play `seeds.len()` games on one thread.
///
/// The caller supplies the seed list so that two candidate decks can be given
/// the *same* one — that pairing is the whole point, and it cannot be recovered
/// afterwards from a game count.
pub fn play_batch<E: Fn(Contender<'_>, Contender<'_>, [Seat; 2], u64, Side) -> Option<(Outcome, u16)>>(
    engine: &E,
    a: Contender<'_>,
    b: Contender<'_>,
    seeds: &[u64],
) -> (r: Record)
    requires
        ready(*engine),
        seeds@.len() <= u32::MAX,
    ensures
        is_batch(*engine, a, b, greedy(), seeds@, r),
{
    play_part(engine, a, b, [Policy::Greedy, Policy::Greedy], seeds, 0, seeds.len())
}

/// [`play_batch`] cut into the parts that `threads` workers would take.
///
/// Deterministic regardless of the number of parts: each game's result depends
/// only on its seed and its index, never on which part it is in.
pub fn play_batch_parallel<E: Fn(Contender<'_>, Contender<'_>, [Seat; 2], u64, Side) -> Option<(Outcome, u16)>>(
    engine: &E,
    a: Contender<'_>,
    b: Contender<'_>,
    seeds: &[u64],
    threads: usize,
) -> (r: Record)
    requires
        ready(*engine),
        seeds@.len() <= u32::MAX,
    ensures
        is_batch(*engine, a, b, greedy(), seeds@, r),
{
    play_batch_parallel_with(engine, a, b, [Policy::Greedy, Policy::Greedy], seeds, threads)
}

/// How many games each of `threads` workers takes: as many parts as there are
/// workers, but no more than there are games.
pub open spec fn part_len(len: nat, threads: nat) -> nat {
    let t = if threads == 0 {
        1
    } else {
        threads
    };
    let t = if t > len {
        if len == 0 {
            1
        } else {
            len
        }
    } else {
        t
    };
    (len + t - 1) as nat / t
}

/// The length of the parts that `threads` workers take of `len` games.
pub fn chunk_len(len: usize, threads: usize) -> (r: usize)
    requires
        len <= u32::MAX,
    ensures
        r == part_len(len as nat, threads as nat),
        len > 0 ==> r > 0,
        r <= len,
{
    let some: usize = if threads == 0 { 1 } else { threads };
    let games: usize = if len == 0 { 1 } else { len };
    let t: usize = if some > games { games } else { some };
    let r: usize = ((len as u64 + t as u64 - 1) / t as u64) as usize;
    proof {
        let x = len + t - 1;
        assert(1 <= t <= len || len == 0);
        assert(len > 0 ==> x / (t as int) >= 1 && x / (t as int) <= len) by (nonlinear_arith)
            requires
                x == len + t - 1,
                t >= 1,
                len > 0 ==> t <= len,
        ;
    }
    r
}

/// [`play_batch_parallel`] with the policy named rather than assumed.
///
/// The same deck comparison, played by something other than the engine's
/// greedy policy — which is how a ranking can be checked for depending on the
/// policy that produced it. Contiguous parts keep each game's index — and
/// therefore who leads — identical to the run in one piece.
pub fn play_batch_parallel_with<E: Fn(Contender<'_>, Contender<'_>, [Seat; 2], u64, Side) -> Option<(Outcome, u16)>>(
    engine: &E,
    a: Contender<'_>,
    b: Contender<'_>,
    policies: [Policy; 2],
    seeds: &[u64],
    threads: usize,
) -> (r: Record)
    requires
        ready(*engine),
        seeds@.len() <= u32::MAX,
    ensures
        is_batch(*engine, a, b, policies, seeds@, r),
{
    let n: usize = seeds.len();
    let chunk: usize = chunk_len(n, threads);
    let mut rec = Record::new();
    let mut from: usize = 0;
    let ghost mut results: Seq<(Outcome, u16)> = seq![];
    while from < n
        invariant
            ready(*engine),
            n == seeds@.len() <= u32::MAX,
            n > 0 ==> 0 < chunk <= n,
            from <= n,
            results.len() == from,
            batch_ends(*engine, a, b, policies, seeds@, 0, results),
            rec.tallies(results),
        decreases n - from,
    {
        let to: usize = if n - from > chunk { from + chunk } else { n };
        let part = play_part(engine, a, b, policies, seeds, from, to);
        proof {
            let more = choose|more: Seq<(Outcome, u16)>|
                {
                    &&& more.len() == to - from
                    &&& batch_ends(*engine, a, b, policies, seeds@, from as int, more)
                    &&& #[trigger] part.tallies(more)
                };
            let whole = results + more;
            lemma_tally_concat(results, more);
            lemma_tally_total(whole);
            assert(whole.len() * u16::MAX <= u32::MAX * u16::MAX) by (nonlinear_arith)
                requires
                    whole.len() <= u32::MAX,
            ;
            assert forall|k: int| 0 <= k < whole.len() implies ends(
                *engine,
                a,
                b,
                policies,
                seeds@[0 + k],
                leader(0 + k),
                #[trigger] whole[k],
            ) by {
                if k < from {
                    assert(whole[k] == results[k]);
                    assert(ends(*engine, a, b, policies, seeds@[0 + k], leader(0 + k), results[k]));
                } else {
                    assert(whole[k] == more[k - from]);
                    assert(ends(
                        *engine,
                        a,
                        b,
                        policies,
                        seeds@[from + (k - from)],
                        leader(from + (k - from)),
                        more[k - from],
                    ));
                }
            }
            results = whole;
        }
        rec = rec.merge(part);
        from = to;
    }
    rec
}

// ------------------------------------------------------------------- duels

/// The policies of a duel, in the seats they take.
pub open spec fn seating(policies: [Policy; 2], swapped: bool) -> [Policy; 2] {
    if swapped {
        [policies@[1], policies@[0]]
    } else {
        policies
    }
}

/// An outcome as the other seat sees it, where the policies are swapped.
pub open spec fn seen(r: (Outcome, u16), swapped: bool) -> (Outcome, u16) {
    match (r.0, swapped) {
        (Outcome::Win(s), true) => (Outcome::Win(s.opponent()), r.1),
        _ => r,
    }
}

/// One game of the same deck against itself, one policy on each side.
///
/// The decks are identical on purpose: with the list fixed, the only thing
/// left to explain a win is how the cards were played.
pub fn duel_one<E: Fn(Contender<'_>, Contender<'_>, [Seat; 2], u64, Side) -> Option<(Outcome, u16)>>(
    engine: &E,
    deck: Contender<'_>,
    policies: [Policy; 2],
    seed: u64,
    first: Side,
) -> (r: (Outcome, u16))
    requires
        ready(*engine),
    ensures
        ends(*engine, deck, deck, policies, seed, first, r),
{
    play_with(engine, deck, deck, policies, seed, first)
}

/// Whether the game at this place of a duel can end like this, as the first
/// policy sees it: every seed is played twice, the second time with the
/// policies swapped.
pub open spec fn duel_ends<E: Fn(Contender<'_>, Contender<'_>, [Seat; 2], u64, Side) -> Option<(Outcome, u16)>>(
    engine: E,
    deck: Contender<'_>,
    policies: [Policy; 2],
    seeds: Seq<u64>,
    k: int,
    r: (Outcome, u16),
) -> bool {
    ends(
        engine,
        deck,
        deck,
        seating(policies, k % 2 == 1),
        seeds[k / 2],
        leader(k / 2),
        seen(r, k % 2 == 1),
    )
}

/// Whether the games of a duel from the `from`th on can end like these.
pub open spec fn duels_end<E: Fn(Contender<'_>, Contender<'_>, [Seat; 2], u64, Side) -> Option<(Outcome, u16)>>(
    engine: E,
    deck: Contender<'_>,
    policies: [Policy; 2],
    seeds: Seq<u64>,
    from: int,
    results: Seq<(Outcome, u16)>,
) -> bool {
    forall|i: int|
        0 <= i < results.len() ==> duel_ends(
            engine,
            deck,
            policies,
            seeds,
            from + i,
            #[trigger] results[i],
        )
}

/// Play both games of one seed of a duel.
fn duel_pair<E: Fn(Contender<'_>, Contender<'_>, [Seat; 2], u64, Side) -> Option<(Outcome, u16)>>(
    engine: &E,
    deck: Contender<'_>,
    policies: [Policy; 2],
    seeds: &[u64],
    idx: usize,
    rec: &mut Record,
) -> (r: ((Outcome, u16), (Outcome, u16)))
    requires
        ready(*engine),
        idx < seeds@.len(),
        old(rec).games() + 2 <= u32::MAX,
        old(rec).turns + 2 * u16::MAX <= u64::MAX,
    ensures
        duel_ends(*engine, deck, policies, seeds@, 2 * idx, r.0),
        duel_ends(*engine, deck, policies, seeds@, 2 * idx + 1, r.1),
        forall|results: Seq<(Outcome, u16)>|
            #[trigger] old(rec).tallies(results) ==> final(rec).tallies(results.push(r.0).push(r.1)),
{
    let first = leader_of(idx);
    let (o, turns) = duel_one(engine, deck, policies, seeds[idx], first);
    rec.record(o, turns);
    let swapped: [Policy; 2] = [policies[1], policies[0]];
    let (o2, turns2) = duel_one(engine, deck, swapped, seeds[idx], first);
    // Re-read the outcome as "did the first policy win", which is the only
    // thing the caller asked about.
    let back = match o2 {
        Outcome::Win(s) => Outcome::Win(s.other()),
        Outcome::Draw => Outcome::Draw,
    };
    rec.record(back, turns2);
    proof {
        assert(swapped =~= seating(policies, true));
        assert((2 * idx) / 2 == idx && (2 * idx + 1) / 2 == idx);
        assert((2 * idx) % 2 == 0 && (2 * idx + 1) % 2 == 1);
        assert(ends(*engine, deck, deck, seating(policies, false), seeds@[idx as int], leader(idx as int), (o, turns)));
        assert(seen((o, turns), false) == (o, turns));
        assert(ends(*engine, deck, deck, seating(policies, true), seeds@[idx as int], leader(idx as int), (o2, turns2)));
        assert(seen((back, turns2), true) == (o2, turns2));
        assert forall|results: Seq<(Outcome, u16)>| #[trigger] old(rec).tallies(results) implies rec.tallies(
            results.push((o, turns)).push((back, turns2)),
        ) by {
            lemma_tally_step(results, (o, turns));
            lemma_tally_step(results.push((o, turns)), (back, turns2));
        }
    }
    ((o, turns), (back, turns2))
}

/// Play the duels on `seeds[from..to]`, each with the leader of its place in
/// the whole list.
pub fn duel_part<E: Fn(Contender<'_>, Contender<'_>, [Seat; 2], u64, Side) -> Option<(Outcome, u16)>>(
    engine: &E,
    deck: Contender<'_>,
    policies: [Policy; 2],
    seeds: &[u64],
    from: usize,
    to: usize,
) -> (r: Record)
    requires
        ready(*engine),
        from <= to <= seeds@.len(),
        2 * seeds@.len() <= u32::MAX,
    ensures
        exists|results: Seq<(Outcome, u16)>|
            {
                &&& results.len() == 2 * (to - from)
                &&& duels_end(*engine, deck, policies, seeds@, 2 * from, results)
                &&& #[trigger] r.tallies(results)
            },
{
    let mut rec = Record::new();
    let mut i: usize = from;
    let ghost mut results: Seq<(Outcome, u16)> = seq![];
    while i < to
        invariant
            ready(*engine),
            from <= i <= to <= seeds@.len(),
            2 * seeds@.len() <= u32::MAX,
            results.len() == 2 * (i - from),
            duels_end(*engine, deck, policies, seeds@, 2 * from, results),
            rec.tallies(results),
        decreases to - i,
    {
        proof {
            lemma_tally_total(results);
            assert(results.len() * u16::MAX <= u32::MAX * u16::MAX) by (nonlinear_arith)
                requires
                    results.len() <= u32::MAX,
            ;
        }
        let pair = duel_pair(engine, deck, policies, seeds, i, &mut rec);
        proof {
            let more = results.push(pair.0).push(pair.1);
            assert forall|k: int| 0 <= k < more.len() implies duel_ends(
                *engine,
                deck,
                policies,
                seeds@,
                2 * from + k,
                #[trigger] more[k],
            ) by {
                if k < results.len() {
                    assert(more[k] == results[k]);
                } else if k == results.len() {
                    assert(2 * from + k == 2 * i);
                } else {
                    assert(2 * from + k == 2 * i + 1);
                }
            }
            results = more;
        }
        i += 1;
    }
    rec
}

/// Whether this can be the tally of a duel: two games on each seed, the
/// policies swapped in the second.
pub open spec fn is_duel<E: Fn(Contender<'_>, Contender<'_>, [Seat; 2], u64, Side) -> Option<(Outcome, u16)>>(
    engine: E,
    deck: Contender<'_>,
    policies: [Policy; 2],
    seeds: Seq<u64>,
    r: Record,
) -> bool {
    exists|results: Seq<(Outcome, u16)>|
        {
            &&& results.len() == 2 * seeds.len()
            &&& duels_end(engine, deck, policies, seeds, 0, results)
            &&& #[trigger] r.tallies(results)
        }
}

/// `seeds.len()` duels, cut into the parts that `threads` workers would take,
/// and always in mirrored pairs.
///
/// Two biases have to go before a policy difference is readable, and both are
/// handled here rather than left to the caller, for the same reason
/// [`play_batch`] handles its own:
///
/// * **who leads** — alternated, exactly as in a deck comparison;
/// * **which side the policy sits on** — every seed is played twice, once
///   with the policies swapped, so a seat advantage cancels instead of being
///   attributed to the policy sitting in it.
///
/// The returned record is from the point of view of `policies[0]`.
pub fn duel<E: Fn(Contender<'_>, Contender<'_>, [Seat; 2], u64, Side) -> Option<(Outcome, u16)>>(
    engine: &E,
    deck: Contender<'_>,
    policies: [Policy; 2],
    seeds: &[u64],
    threads: usize,
) -> (r: Record)
    requires
        ready(*engine),
        2 * seeds@.len() <= u32::MAX,
    ensures
        is_duel(*engine, deck, policies, seeds@, r),
{
    let n: usize = seeds.len();
    let chunk: usize = chunk_len(n, threads);
    let mut rec = Record::new();
    let mut from: usize = 0;
    let ghost mut results: Seq<(Outcome, u16)> = seq![];
    while from < n
        invariant
            ready(*engine),
            n == seeds@.len(),
            2 * n <= u32::MAX,
            n > 0 ==> 0 < chunk <= n,
            from <= n,
            results.len() == 2 * from,
            duels_end(*engine, deck, policies, seeds@, 0, results),
            rec.tallies(results),
        decreases n - from,
    {
        let to: usize = if n - from > chunk { from + chunk } else { n };
        let part = duel_part(engine, deck, policies, seeds, from, to);
        proof {
            let more = choose|more: Seq<(Outcome, u16)>|
                {
                    &&& more.len() == 2 * (to - from)
                    &&& duels_end(*engine, deck, policies, seeds@, 2 * from, more)
                    &&& #[trigger] part.tallies(more)
                };
            let whole = results + more;
            lemma_tally_concat(results, more);
            lemma_tally_total(whole);
            assert(whole.len() * u16::MAX <= u32::MAX * u16::MAX) by (nonlinear_arith)
                requires
                    whole.len() <= u32::MAX,
            ;
            assert forall|k: int| 0 <= k < whole.len() implies duel_ends(
                *engine,
                deck,
                policies,
                seeds@,
                0 + k,
                #[trigger] whole[k],
            ) by {
                if k < 2 * from {
                    assert(whole[k] == results[k]);
                    assert(duel_ends(*engine, deck, policies, seeds@, 0 + k, results[k]));
                } else {
                    let j = k - 2 * from;
                    assert(whole[k] == more[j]);
                    assert(duel_ends(*engine, deck, policies, seeds@, 2 * from + j, more[j]));
                }
            }
            results = whole;
        }
        rec = rec.merge(part);
        from = to;
    }
    rec
}

// ------------------------------------------------------------------- seeds

/// What a seed list's number is multiplied by.
pub const GOLDEN: u64 = 0x9E37_79B9_7F4A_7C15;

/// The seed at a place of a list.
pub open spec fn seed_at(base: u64, i: int) -> int {
    ((base * GOLDEN) % 0x1_0000_0000_0000_0000 + i) % 0x1_0000_0000_0000_0000
}

/// A reproducible seed list for a run.
///
/// Deriving seeds from one number keeps a whole evaluation describable by a
/// single value, which is what makes a paired comparison easy to repeat.
pub fn seeds(base: u64, n: usize) -> (r: Vec<u64>)
    ensures
        r@.len() == n,
        forall|i: int| 0 <= i < n ==> #[trigger] r@[i] == seed_at(base, i),
{
    let mut out: Vec<u64> = Vec::new();
    let start: u64 = base.wrapping_mul(GOLDEN);
    let mut i: usize = 0;
    while i < n
        invariant
            i <= n,
            start == (base * GOLDEN) % 0x1_0000_0000_0000_0000,
            out@.len() == i,
            forall|k: int| 0 <= k < i ==> #[trigger] out@[k] == seed_at(base, k),
        decreases n - i,
    {
        out.push(start.wrapping_add(i as u64));
        i += 1;
    }
    out
}

} // verus!
