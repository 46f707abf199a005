//! Batches of games, played by a stand-in engine: what comes out of a game
//! depends on the decks, the seats, the seed and who leads, and on nothing
//! else.

use tavernlab::agent::{Scripted, Style};
use tavernlab::batch::{
    chunk_len, duel, duel_one, duel_part, play_batch, play_batch_parallel,
    play_batch_parallel_with, play_one, play_one_detailed, play_part, play_with, seeds, Contender,
    Policy, Record, Seat,
};
use tavernlab::cards::{CardId, Class};
use tavernlab::state::{Outcome, Side};

fn mix(mut x: u64) -> u64 {
    x ^= x >> 30;
    x = x.wrapping_mul(0xBF58_476D_1CE4_E5B9);
    x ^= x >> 27;
    x = x.wrapping_mul(0x94D0_49BB_1331_11EB);
    x ^ (x >> 31)
}

/// Plans beat greed three times out of four; between equals it is even.
fn engine(a: Contender, b: Contender, seats: [Seat; 2], seed: u64, first: Side) -> Option<(Outcome, u16)> {
    if a.class == Class::Dream || b.class == Class::Dream {
        return None;
    }
    let mut h = mix(seed ^ if first == Side::Player0 { 1 } else { 2 });
    for side in [a, b] {
        h = mix(h ^ side.class as u64 ^ ((side.style as u64) << 8));
        for card in side.cards {
            h = mix(h ^ card.0 as u64);
        }
    }
    let turns = 8 + (h >> 32) as u16 % 12;
    let plans = |s: Seat| matches!(s, Seat::Planner { .. });
    let edge = 32 + if plans(seats[0]) { 16 } else { 0 } - if plans(seats[1]) { 16 } else { 0 };
    let roll = h % 66;
    let outcome = if roll >= 64 {
        Outcome::Draw
    } else if roll < edge {
        Outcome::Win(Side::Player0)
    } else {
        Outcome::Win(Side::Player1)
    };
    Some((outcome, turns))
}

fn rate(r: &Record, side: Side) -> f64 {
    let t = r.total();
    if t == 0 {
        return 0.0;
    }
    (r.wins[side.index()] as f64 + 0.5 * r.draws as f64) / t as f64
}

fn avg_turns(r: &Record) -> f64 {
    let t = r.total();
    if t == 0 {
        0.0
    } else {
        r.turns as f64 / t as f64
    }
}

fn test_deck(class: Class) -> Vec<CardId> {
    (0..30).map(|i| CardId(100 * class as u16 + i / 2)).collect()
}

#[test]
fn a_game_finishes_and_names_a_winner() {
    let d = test_deck(Class::Mage);
    let a = Contender { class: Class::Mage, cards: &d, style: Style::Midrange };
    let o = play_one(&engine, a, a, 42, Side::Player0);
    // Whatever happens, it must terminate with a definite result.
    assert!(matches!(o, Outcome::Win(_) | Outcome::Draw));
}

#[test]
fn the_same_seed_gives_the_same_game() {
    let d = test_deck(Class::Hunter);
    let a = Contender { class: Class::Hunter, cards: &d, style: Style::Aggro };
    let first = play_one(&engine, a, a, 7, Side::Player0);
    for _ in 0..5 {
        assert_eq!(play_one(&engine, a, a, 7, Side::Player0), first);
    }
}

#[test]
fn different_seeds_produce_different_games() {
    let d = test_deck(Class::Hunter);
    let a = Contender { class: Class::Hunter, cards: &d, style: Style::Aggro };
    let outcomes: Vec<Outcome> =
        (0..40).map(|s| play_one(&engine, a, a, s, Side::Player0)).collect();
    assert!(
        outcomes.iter().any(|o| *o != outcomes[0]),
        "forty seeds all produced the same result; the RNG is not reaching the game"
    );
}

#[test]
fn a_mirror_match_is_close_to_even() {
    let d = test_deck(Class::Mage);
    let a = Contender { class: Class::Mage, cards: &d, style: Style::Midrange };
    let rec = play_batch(&engine, a, a, &seeds(1, 400));
    let r = rate(&rec, Side::Player0);
    assert_eq!(rec.total(), 400);
    assert!(
        (0.35..=0.65).contains(&r),
        "mirror match came out {r:.3} for player 0, which suggests a seat bias"
    );
}

#[test]
fn parallel_and_serial_agree_exactly() {
    let d = test_deck(Class::Warrior);
    let a = Contender { class: Class::Warrior, cards: &d, style: Style::Control };
    let s = seeds(9, 120);
    let serial = play_batch(&engine, a, a, &s);
    for threads in [2usize, 3, 8] {
        assert_eq!(play_batch_parallel(&engine, a, a, &s, threads), serial, "{threads} threads");
    }
    for threads in [0, 1, 7, 119, 120, 121, 5000] {
        assert_eq!(play_batch_parallel(&engine, a, a, &s, threads), serial, "{threads} threads");
    }
}

#[test]
fn a_policy_against_a_copy_of_itself_reads_exactly_even() {
    let cards = test_deck(Class::Mage);
    let deck = Contender { class: Class::Mage, cards: &cards, style: Style::Midrange };
    let s = seeds(3, 40);
    let r = duel(&engine, deck, [Policy::Greedy, Policy::Greedy], &s, 1);
    assert_eq!(r.total(), 80, "every seed is played from both seats");
    assert_eq!(r.wins[0], r.wins[1], "a policy against itself must split the wins exactly");
    assert!((rate(&r, Side::Player0) - 0.5).abs() < f64::EPSILON);
}

fn plan() -> Policy {
    Policy::Plan { budget: 400, depth: 3, samples: 1, iterative: true, weights: 0 }
}

#[test]
fn a_duel_is_reproducible() {
    let cards = test_deck(Class::Druid);
    let deck = Contender { class: Class::Druid, cards: &cards, style: Style::Midrange };
    let s = seeds(9, 20);
    let a = duel(&engine, deck, [plan(), Policy::Greedy], &s, 1);
    let b = duel(&engine, deck, [plan(), Policy::Greedy], &s, 1);
    assert_eq!(a, b, "the planner must not depend on anything but the seed");
    // And the thread count must not change the answer either, the same rule
    // `play_batch_parallel` holds to.
    assert_eq!(a, duel(&engine, deck, [plan(), Policy::Greedy], &s, 4));
    assert_eq!(a.total(), 40);
}

#[test]
fn a_duel_is_read_from_the_first_policys_side() {
    // The seat that plans always wins, whichever it is.
    let planner_wins = |_: Contender, _: Contender, seats: [Seat; 2], _: u64, _: Side| {
        let winner = if matches!(seats[0], Seat::Planner { .. }) { Side::Player0 } else { Side::Player1 };
        Some((Outcome::Win(winner), 10))
    };
    let deck = Contender { class: Class::Mage, cards: &[], style: Style::Midrange };
    let s = seeds(5, 30);
    let r = duel(&planner_wins, deck, [plan(), Policy::Greedy], &s, 4);
    assert_eq!((r.wins, r.draws, r.turns), ([60, 0], 0, 600));
    let r = duel(&planner_wins, deck, [Policy::Greedy, plan()], &s, 4);
    assert_eq!(r.wins, [0, 60]);
    let one = duel_one(&planner_wins, deck, [Policy::Greedy, plan()], 1, Side::Player0);
    assert_eq!(one, (Outcome::Win(Side::Player1), 10));
}

#[test]
fn swapping_the_policies_of_a_duel_swaps_the_wins() {
    let cards = test_deck(Class::Rogue);
    let deck = Contender { class: Class::Rogue, cards: &cards, style: Style::Aggro };
    let s = seeds(11, 25);
    let a = duel(&engine, deck, [plan(), Policy::Greedy], &s, 3);
    let b = duel(&engine, deck, [Policy::Greedy, plan()], &s, 7);
    assert_ne!(a.wins[0], a.wins[1]);
    assert_eq!(b.wins, [a.wins[1], a.wins[0]]);
    assert_eq!((b.draws, b.turns), (a.draws, a.turns));
}

#[test]
fn record_arithmetic() {
    let mut r = Record::default();
    r.record(Outcome::Win(Side::Player0), 10);
    r.record(Outcome::Win(Side::Player0), 20);
    r.record(Outcome::Win(Side::Player1), 30);
    r.record(Outcome::Draw, 40);
    assert_eq!(r.total(), 4);
    assert_eq!(rate(&r, Side::Player0), (2.0 + 0.5) / 4.0);
    assert_eq!(rate(&r, Side::Player1), (1.0 + 0.5) / 4.0);
    assert_eq!(rate(&Record::default(), Side::Player0), 0.0);
    assert_eq!(avg_turns(&r), 25.0);
    assert_eq!(avg_turns(&Record::default()), 0.0);
    let twice = r.merge(r);
    assert_eq!((twice.wins, twice.draws, twice.turns), ([4, 2], 2, 200));
    assert_eq!(Record::new(), Record::default());
}

#[test]
fn seeds_are_reproducible_and_distinct() {
    assert_eq!(seeds(5, 10), seeds(5, 10));
    assert_ne!(seeds(5, 10), seeds(6, 10));
    let s = seeds(5, 100);
    let mut sorted = s.clone();
    sorted.sort_unstable();
    sorted.dedup();
    assert_eq!(sorted.len(), 100, "seed list has collisions");
    assert_eq!(seeds(1, 2), vec![0x9E37_79B9_7F4A_7C15, 0x9E37_79B9_7F4A_7C16]);
    assert_eq!(seeds(0, 3), vec![0, 1, 2]);
}

#[test]
fn games_actually_end_before_the_turn_limit() {
    let d = test_deck(Class::Mage);
    let a = Contender { class: Class::Mage, cards: &d, style: Style::Midrange };
    let rec = play_batch(&engine, a, a, &seeds(3, 200));
    assert!(
        rec.draws < 40,
        "{} of 200 games ended in a draw; combat is probably not resolving",
        rec.draws
    );
    assert!(avg_turns(&rec) > 1.0, "games did not actually play out");
}

#[test]
fn the_coin_alternates_so_neither_seat_always_leads() {
    let d = test_deck(Class::Mage);
    let a = Contender { class: Class::Mage, cards: &d, style: Style::Midrange };
    let differed = (0..20u64).any(|base| {
        let s = seeds(base, 2);
        play_one(&engine, a, a, s[0], Side::Player0) != play_one(&engine, a, a, s[0], Side::Player1)
    });
    assert!(
        differed,
        "who leads made no difference in 20 straight seeds, so the coin is not being applied"
    );
    // Whoever leads wins: over an even number of games that is even.
    let leader_wins =
        |_: Contender, _: Contender, _: [Seat; 2], _: u64, first: Side| Some((Outcome::Win(first), 1));
    let rec = play_batch(&leader_wins, a, a, &seeds(1, 10));
    assert_eq!(rec.wins, [5, 5]);
    let rec = play_batch_parallel(&leader_wins, a, a, &seeds(1, 11), 3);
    assert_eq!(rec.wins, [6, 5]);
}

#[test]
fn a_class_that_cannot_field_a_deck_draws() {
    let d = test_deck(Class::Mage);
    let a = Contender { class: Class::Mage, cards: &d, style: Style::Midrange };
    let dream = Contender { class: Class::Dream, cards: &d, style: Style::Midrange };
    assert_eq!(play_one_detailed(&engine, a, dream, 1, Side::Player0), (Outcome::Draw, 0));
    let rec = play_batch(&engine, dream, a, &seeds(1, 4));
    assert_eq!((rec.wins, rec.draws, rec.turns), ([0, 0], 4, 0));
}

#[test]
fn policies_take_their_seats() {
    assert_eq!(Policy::Greedy.agent(Style::Aggro), Seat::Scripted(Scripted::new(Style::Aggro)));
    assert_eq!(
        plan().agent(Style::Control),
        Seat::Planner {
            style: Style::Control,
            budget: 400,
            depth: 3,
            samples: 1,
            iterative: true,
            weights: 0
        }
    );
    let d = test_deck(Class::Mage);
    let a = Contender { class: Class::Mage, cards: &d, style: Style::Aggro };
    let b = Contender { class: Class::Rogue, cards: &d, style: Style::Control };
    let seated = |_: Contender, _: Contender, seats: [Seat; 2], _: u64, _: Side| {
        let want = [Seat::Scripted(Scripted::new(Style::Aggro)), Seat::Scripted(Scripted::new(Style::Control))];
        Some((Outcome::Draw, if seats == want { 7 } else { 0 }))
    };
    let r = play_with(&seated, a, b, [Policy::Greedy, Policy::Greedy], 1, Side::Player0);
    assert_eq!(r, (Outcome::Draw, 7));
}

#[test]
fn parts_add_up_to_the_whole() {
    let d = test_deck(Class::Mage);
    let a = Contender { class: Class::Mage, cards: &d, style: Style::Aggro };
    let s = seeds(4, 10);
    let p = [plan(), Policy::Greedy];
    let whole = play_batch_parallel_with(&engine, a, a, p, &s, 1);
    let first = play_part(&engine, a, a, p, &s, 0, 3);
    let rest = play_part(&engine, a, a, p, &s, 3, 10);
    assert_eq!(first.merge(rest), whole);
    let duels = duel(&engine, a, p, &s, 1);
    let sum = duel_part(&engine, a, p, &s, 0, 5).merge(duel_part(&engine, a, p, &s, 5, 10));
    assert_eq!(sum, duels);
    assert_eq!(chunk_len(10, 3), 4);
    assert_eq!(chunk_len(10, 0), 10);
    assert_eq!(chunk_len(10, 99), 1);
    assert_eq!(chunk_len(0, 4), 0);
}
