//! What individual cards do, as far as the table and the card lists say it.
//!
//! Rows are keyed by **name**, not by card id, and attach to every printing of
//! that name. Keying by id would silently drop the behaviour from whichever
//! printing a deck happened to use.

use vstd::prelude::*;

use super::corpus::Corpus;
use super::hooks::Behaviour;
use super::lists::{
    AURAS, AWAKENED, AWAKENS, CONTROLLED, DARK_GIFTS, DRAWN_ACTORS, DRAWN_FOR_OPPONENT,
    FIRST_PARTS, IGNORES_TAUNT, KHADGARS, LEFT_HALVES, LEYLINES, RATTLES_ANYWHERE,
    REBORN_KEEPS_ALL, RIGHT_HALVES, RULES_IN_THE_ENGINE, SECOND_PARTS, SHAM_TRIAL, SHATTERS,
    UPGRADES_WHILE_HELD, WHOLES, WINDRUNNERS,
};
use super::lookup::{place_in, token, tokens};
use super::types::{CardDef, CardId, Keywords, Kind};
use crate::state::{Game, Side};

pub mod laws;

verus! {

// ------------------------------------------------------------------ lists

/// Where a card's id stands in a list.
pub open spec fn listed_at(c: Corpus, ids: Seq<&'static str>, card: CardId, i: int) -> bool {
    0 <= i < ids.len() && ids[i]@ == c.info_of(card).id@
}

/// Whether a list names a card.
pub open spec fn on_list(c: Corpus, ids: Seq<&'static str>, card: CardId) -> bool {
    exists|i: int| #[trigger] listed_at(c, ids, card, i)
}

/// The first place of a list that names a card.
fn place_on(c: &Corpus, ids: &[&'static str], card: CardId) -> (r: Option<usize>)
    requires
        c.wf(),
        c.has(card),
        c.tables.knows_all(ids@),
    ensures
        match r {
            Some(i) => listed_at(*c, ids@, card, i as int) && forall|j: int|
                j < i ==> !#[trigger] listed_at(*c, ids@, card, j),
            None => !on_list(*c, ids@, card),
        },
{
    let list = tokens(c, ids);
    let place = place_in(list.as_slice(), card);
    proof {
        assert forall|j: int| 0 <= j < ids@.len() && #[trigger] listed_at(*c, ids@, card, j) implies list@[j]
            == card by {
            super::lookup::lemma_same_id(*c, list@[j], card);
        }
        match place {
            Some(i) => {
                assert(c.has(list@[i as int]));
                assert(listed_at(*c, ids@, card, i as int));
                assert forall|j: int| j < i implies !#[trigger] listed_at(*c, ids@, card, j) by {
                    if listed_at(*c, ids@, card, j) {
                        assert(list@[j] == card);
                    }
                }
            },
            None => {
                assert forall|j: int| !#[trigger] listed_at(*c, ids@, card, j) by {
                    if listed_at(*c, ids@, card, j) {
                        assert(list@[j] == card);
                        assert(list@.contains(card));
                    }
                }
            },
        }
    }
    place
}

/// Whether a list names a card.
fn named_on(c: &Corpus, ids: &[&'static str], card: CardId) -> (r: bool)
    requires
        c.wf(),
        c.has(card),
        c.tables.knows_all(ids@),
    ensures
        r == on_list(*c, ids@, card),
{
    place_on(c, ids, card).is_some()
}

pub fn is_aura(c: &Corpus, card: CardId) -> (r: bool)
    requires
        c.wf(),
        c.has(card),
    ensures
        r == on_list(*c, AURAS@, card),
{
    named_on(c, &AURAS, card)
}

/// Whether summons count twice while this card is in play.
pub fn doubles_summons(c: &Corpus, card: CardId) -> (r: bool)
    requires
        c.wf(),
        c.has(card),
    ensures
        r == on_list(*c, KHADGARS@, card),
{
    named_on(c, &KHADGARS, card)
}

pub fn is_leyline(c: &Corpus, card: CardId) -> (r: bool)
    requires
        c.wf(),
        c.has(card),
    ensures
        r == on_list(*c, LEYLINES@, card),
{
    named_on(c, &LEYLINES, card)
}

pub fn upgrades_while_held(c: &Corpus, card: CardId) -> (r: bool)
    requires
        c.wf(),
        c.has(card),
    ensures
        r == on_list(*c, UPGRADES_WHILE_HELD@, card),
{
    named_on(c, &UPGRADES_WHILE_HELD, card)
}

pub fn rattles_from_hand_or_deck(c: &Corpus, card: CardId) -> (r: bool)
    requires
        c.wf(),
        c.has(card),
    ensures
        r == on_list(*c, RATTLES_ANYWHERE@, card),
{
    named_on(c, &RATTLES_ANYWHERE, card)
}

/// Whether the card's whole text is a standing rule the engine reads.
pub fn rule_lives_in_the_engine(c: &Corpus, card: CardId) -> (r: bool)
    requires
        c.wf(),
        c.has(card),
    ensures
        r == on_list(*c, RULES_IN_THE_ENGINE@, card),
{
    named_on(c, &RULES_IN_THE_ENGINE, card)
}

pub fn lets_attacks_ignore_taunt(c: &Corpus, card: CardId) -> (r: bool)
    requires
        c.wf(),
        c.has(card),
    ensures
        r == on_list(*c, IGNORES_TAUNT@, card),
{
    named_on(c, &IGNORES_TAUNT, card)
}

/// Whether this card's Reborn copy keeps what the body was carrying.
pub fn reborn_keeps_enchantments(c: &Corpus, card: CardId) -> (r: bool)
    requires
        c.wf(),
        c.has(card),
    ensures
        r == on_list(*c, REBORN_KEEPS_ALL@, card),
{
    named_on(c, &REBORN_KEEPS_ALL, card)
}

/// Whether a card that acts when drawn acts for the other side.
pub fn drawn_acts_for_opponent(c: &Corpus, card: CardId) -> (r: bool)
    requires
        c.wf(),
        c.has(card),
    ensures
        r == on_list(*c, DRAWN_FOR_OPPONENT@, card),
{
    named_on(c, &DRAWN_FOR_OPPONENT, card)
}

/// Whether `card` acts as it is drawn rather than reaching hand.
pub fn acts_when_drawn(c: &Corpus, card: CardId) -> (r: bool)
    requires
        c.wf(),
        c.has(card),
    ensures
        r == on_list(*c, DRAWN_ACTORS@, card),
{
    named_on(c, &DRAWN_ACTORS, card)
}

/// Godfather Kazakus's menu.
pub fn sham_trial(c: &Corpus) -> (r: Vec<CardId>)
    requires
        c.wf(),
    ensures
        r@.len() == SHAM_TRIAL@.len(),
        forall|i: int|
            0 <= i < r@.len() ==> c.has(#[trigger] r@[i]) && c.info_of(r@[i]).id@ == SHAM_TRIAL@[i]@,
{
    tokens(c, &SHAM_TRIAL)
}

// -------------------------------------------------------------- questions

/// Whether a card is the one at `i` in the list of cards asked about by
/// identity.
pub open spec fn is_controlled(c: Corpus, card: CardId, i: int) -> bool {
    c.info_of(card).id@ == CONTROLLED@[i]@
}

fn asked(c: &Corpus, card: CardId, i: usize) -> (r: bool)
    requires
        c.wf(),
        c.has(card),
        i < 8,
    ensures
        r == is_controlled(*c, card, i as int),
{
    crate::text::str_eq(card.info(c).id, CONTROLLED[i])
}

pub fn is_morchie(c: &Corpus, card: CardId) -> (r: bool)
    requires
        c.wf(),
        c.has(card),
    ensures
        r == is_controlled(*c, card, 0),
{
    asked(c, card, 0)
}

pub fn is_sinestra(c: &Corpus, card: CardId) -> (r: bool)
    requires
        c.wf(),
        c.has(card),
    ensures
        r == is_controlled(*c, card, 1),
{
    asked(c, card, 1)
}

pub fn is_niri(c: &Corpus, card: CardId) -> (r: bool)
    requires
        c.wf(),
        c.has(card),
    ensures
        r == is_controlled(*c, card, 2),
{
    asked(c, card, 2)
}

pub fn is_fletcher(c: &Corpus, card: CardId) -> (r: bool)
    requires
        c.wf(),
        c.has(card),
    ensures
        r == is_controlled(*c, card, 3),
{
    asked(c, card, 3)
}

pub fn is_naralex(c: &Corpus, card: CardId) -> (r: bool)
    requires
        c.wf(),
        c.has(card),
    ensures
        r == is_controlled(*c, card, 4),
{
    asked(c, card, 4)
}

/// The weapon, not a minion — but the same question, asked from the
/// spell-damage path on every damaging spell in the game.
pub fn is_atiesh(c: &Corpus, card: CardId) -> (r: bool)
    requires
        c.wf(),
        c.has(card),
    ensures
        r == is_controlled(*c, card, 5),
{
    asked(c, card, 5)
}

/// Mug'Zee's two Passive Hero Powers, read from the Hero Power slot rather
/// than the board.
pub fn is_mugs_magic(c: &Corpus, card: CardId) -> (r: bool)
    requires
        c.wf(),
        c.has(card),
    ensures
        r == is_controlled(*c, card, 6),
{
    asked(c, card, 6)
}

pub fn is_zees_might(c: &Corpus, card: CardId) -> (r: bool)
    requires
        c.wf(),
        c.has(card),
    ensures
        r == is_controlled(*c, card, 7),
{
    asked(c, card, 7)
}

// -------------------------------------------------------- cards and cards

/// What `card` becomes when its owner plays a Dragon while holding it.
pub fn awakened_by_dragon(c: &Corpus, card: CardId) -> (r: Option<CardId>)
    requires
        c.wf(),
        c.has(card),
    ensures
        r is Some <==> on_list(*c, AWAKENS@, card),
        r matches Some(into) ==> c.has(into) && exists|i: int| #[trigger]
            listed_at(*c, AWAKENS@, card, i) && listed_at(*c, AWAKENED@, into, i),
{
    match place_on(c, &AWAKENS, card) {
        Some(i) => {
            let into = token(c, AWAKENED[i]);
            assert(listed_at(*c, AWAKENED@, into, i as int));
            Some(into)
        },
        None => None,
    }
}

/// The two halves `card` splits into as it enters hand, left first.
pub fn shatters_into(c: &Corpus, card: CardId) -> (r: Option<(CardId, CardId)>)
    requires
        c.wf(),
        c.has(card),
    ensures
        r is Some <==> on_list(*c, SHATTERS@, card),
        r matches Some((left, right)) ==> c.has(left) && c.has(right) && exists|i: int| #[trigger]
            listed_at(*c, SHATTERS@, card, i) && listed_at(*c, LEFT_HALVES@, left, i) && listed_at(
                *c,
                RIGHT_HALVES@,
                right,
                i,
            ),
{
    match place_on(c, &SHATTERS, card) {
        Some(i) => {
            let left = token(c, LEFT_HALVES[i]);
            let right = token(c, RIGHT_HALVES[i]);
            assert(listed_at(*c, LEFT_HALVES@, left, i as int));
            assert(listed_at(*c, RIGHT_HALVES@, right, i as int));
            Some((left, right))
        },
        None => None,
    }
}

/// Whether two cards are the halves at `i`, in that order.
pub open spec fn halves_at(c: Corpus, left: CardId, right: CardId, i: int) -> bool {
    listed_at(c, LEFT_HALVES@, left, i) && listed_at(c, RIGHT_HALVES@, right, i)
}

/// The card two adjacent halves recombine into, in that order.
pub fn recombines(c: &Corpus, left: CardId, right: CardId) -> (r: Option<CardId>)
    requires
        c.wf(),
        c.has(left),
        c.has(right),
    ensures
        r is Some <==> exists|i: int| #[trigger] halves_at(*c, left, right, i),
        r matches Some(whole) ==> c.has(whole) && exists|i: int| #[trigger]
            halves_at(*c, left, right, i) && listed_at(*c, SHATTERS@, whole, i),
{
    let mut i: usize = 0;
    while i < 3
        invariant
            c.wf(),
            c.has(left),
            c.has(right),
            i <= 3,
            forall|j: int| j < i ==> !#[trigger] halves_at(*c, left, right, j),
        decreases 3 - i,
    {
        let hit = crate::text::str_eq(left.info(c).id, LEFT_HALVES[i]) && crate::text::str_eq(
            right.info(c).id,
            RIGHT_HALVES[i],
        );
        if hit {
            let whole = token(c, SHATTERS[i]);
            proof {
                assert(halves_at(*c, left, right, i as int));
                assert(listed_at(*c, SHATTERS@, whole, i as int));
            }
            return Some(whole);
        }
        i += 1;
    }
    None
}

/// Whether two cards are the parts at `i`, in either order.
pub open spec fn parts_at(c: Corpus, left: CardId, right: CardId, i: int) -> bool {
    ||| listed_at(c, FIRST_PARTS@, left, i) && listed_at(c, SECOND_PARTS@, right, i)
    ||| listed_at(c, FIRST_PARTS@, right, i) && listed_at(c, SECOND_PARTS@, left, i)
}

/// The card `left` and `right` combine into, in either order, when both are
/// held anywhere in hand.
pub fn combines(c: &Corpus, left: CardId, right: CardId) -> (r: Option<CardId>)
    requires
        c.wf(),
        c.has(left),
        c.has(right),
    ensures
        r is Some <==> exists|i: int| #[trigger] parts_at(*c, left, right, i),
        r matches Some(whole) ==> c.has(whole) && exists|i: int| #[trigger]
            parts_at(*c, left, right, i) && listed_at(*c, WHOLES@, whole, i),
{
    let mut i: usize = 0;
    while i < 1
        invariant
            c.wf(),
            c.has(left),
            c.has(right),
            i <= 1,
            forall|j: int| j < i ==> !#[trigger] parts_at(*c, left, right, j),
        decreases 1 - i,
    {
        let l = left.info(c).id;
        let r = right.info(c).id;
        let hit = (crate::text::str_eq(l, FIRST_PARTS[i]) && crate::text::str_eq(r, SECOND_PARTS[i]))
            || (crate::text::str_eq(r, FIRST_PARTS[i]) && crate::text::str_eq(l, SECOND_PARTS[i]));
        if hit {
            let whole = token(c, WHOLES[i]);
            proof {
                assert(parts_at(*c, left, right, i as int));
                assert(listed_at(*c, WHOLES@, whole, i as int));
            }
            return Some(whole);
        }
        i += 1;
    }
    None
}

// -------------------------------------------------------------- Dark Gifts

/// A Dark Gift as stored on a card: its place in the pool, counted from one.
pub fn gift_card(c: &Corpus, gift: u8) -> (r: Option<CardId>)
    requires
        c.wf(),
    ensures
        r is Some <==> 1 <= gift <= DARK_GIFTS@.len(),
        r matches Some(card) ==> c.has(card) && c.info_of(card).id@ == DARK_GIFTS@[gift - 1]@,
{
    if gift == 0 || gift as usize > DARK_GIFTS.len() {
        None
    } else {
        Some(token(c, DARK_GIFTS[gift as usize - 1]))
    }
}

/// The attack, health and cost change a Gift is worth, as printed on it.
pub open spec fn gift_worth(gift: u8) -> (i16, i16, i16) {
    if gift == 1 {
        (3, 0, 0)
    } else if gift == 2 {
        (2, 2, 0)
    } else if gift == 3 {
        ((-2) as i16, 0, (-2) as i16)
    } else if gift == 4 {
        (0, 4, 0)
    } else if gift == 8 {
        (4, 5, 0)
    } else {
        (0, 0, 0)
    }
}

/// The stats and cost a Gift is worth, applied the moment it is given:
/// `(attack, health, cost delta)`.
///
/// The keyword half is [`gift_keywords`], applied when the body reaches the
/// board.
pub fn gift_stats(gift: u8) -> (r: (i16, i16, i16))
    ensures
        r == gift_worth(gift),
{
    match gift {
        1 => (3, 0, 0),  // Waking Terror
        2 => (2, 2, 0),  // Well Rested
        3 => (-2, 0, -2),  // Short Claws
        4 => (0, 4, 0),  // Bundled Up
        8 => (4, 5, 0),  // Sweet Dreams
        _ => (0, 0, 0),
    }
}

/// The keywords a Gift grants, as printed on it.
pub open spec fn gift_bits(gift: u8) -> u64 {
    if gift == 1 {
        Keywords::LIFESTEAL
    } else if gift == 2 {
        Keywords::ELUSIVE
    } else if gift == 4 {
        Keywords::TAUNT
    } else if gift == 6 {
        Keywords::CHARGE
    } else if gift == 9 {
        Keywords::REBORN
    } else if gift == 10 {
        Keywords::DIVINE_SHIELD | Keywords::WINDFURY
    } else {
        Keywords::NONE
    }
}

/// The keywords a Gift grants, applied when the minion reaches the board.
pub fn gift_keywords(gift: u8) -> (r: Keywords)
    ensures
        r == Keywords(gift_bits(gift)),
{
    match gift {
        1 => Keywords(Keywords::LIFESTEAL),
        2 => Keywords(Keywords::ELUSIVE),
        4 => Keywords(Keywords::TAUNT),
        6 => Keywords(Keywords::CHARGE),
        9 => Keywords(Keywords::REBORN),
        10 => Keywords(Keywords::DIVINE_SHIELD | Keywords::WINDFURY),
        _ => Keywords(Keywords::NONE),
    }
}

// ------------------------------------------------------------- Windrunners

/// The bit of the sister at `i` in a player's record.
pub open spec fn sister_bit(i: int) -> u8 {
    if i == 0 {
        1
    } else if i == 1 {
        2
    } else {
        4
    }
}

/// The bit `card` sets in a player's record of the Windrunners, if it is one
/// of them.
pub fn windrunner_bit(c: &Corpus, card: CardId) -> (r: Option<u8>)
    requires
        c.wf(),
        c.has(card),
    ensures
        r is Some <==> on_list(*c, WINDRUNNERS@, card),
        r matches Some(bit) ==> exists|i: int| #[trigger]
            listed_at(*c, WINDRUNNERS@, card, i) && bit == sister_bit(i),
{
    match place_on(c, &WINDRUNNERS, card) {
        Some(i) => {
            if i == 0 {
                Some(1)
            } else if i == 1 {
                Some(2)
            } else {
                Some(4)
            }
        },
        None => None,
    }
}

/// How many of a byte's bits are set.
pub open spec fn ones(b: u8) -> nat
    decreases b,
{
    if b == 0 {
        0
    } else {
        (b % 2) as nat + ones((b / 2) as u8)
    }
}

fn count_ones(b: u8) -> (r: u32)
    ensures
        r == ones(b),
{
    let mut left: u8 = b;
    let mut n: u32 = 0;
    proof {
        lemma_ones_bound(b);
    }
    while left != 0
        invariant
            n + ones(left) == ones(b),
            ones(b) <= 255,
        decreases left,
    {
        n = n + (left % 2) as u32;
        left = left / 2;
    }
    n
}

proof fn lemma_ones_bound(b: u8)
    ensures
        ones(b) <= b,
    decreases b,
{
    if b != 0 {
        lemma_ones_bound((b / 2) as u8);
    }
}

/// The sisters a record holds besides `card` itself.
pub open spec fn sisters_in(c: Corpus, played: u8, card: CardId) -> nat {
    if exists|i: int| #[trigger] listed_at(c, WINDRUNNERS@, card, i) {
        let i = choose|i: int| #[trigger] listed_at(c, WINDRUNNERS@, card, i);
        ones(played & !sister_bit(i))
    } else {
        ones(played & !0u8)
    }
}

/// How many of `card`'s two sisters have already been played — the number
/// each of the three repeats its Battlecry for.
pub fn windrunner_sisters(c: &Corpus, g: &Game, side: Side, card: CardId) -> (r: u32)
    requires
        c.wf(),
        c.has(card),
    ensures
        r == sisters_in(*c, g@.player(side).rangers_played, card),
{
    let bit = windrunner_bit(c, card);
    let mine: u8 = match bit {
        Some(b) => b,
        None => 0,
    };
    proof {
        if on_list(*c, WINDRUNNERS@, card) {
            let i = choose|i: int| #[trigger] listed_at(*c, WINDRUNNERS@, card, i);
            let j = choose|j: int| #[trigger] listed_at(*c, WINDRUNNERS@, card, j) && mine == sister_bit(j);
            lemma_windrunners_distinct(*c, card, i, j);
        }
    }
    count_ones(g.player(side).rangers_played & !mine)
}

proof fn lemma_windrunners_distinct(c: Corpus, card: CardId, i: int, j: int)
    requires
        listed_at(c, WINDRUNNERS@, card, i),
        listed_at(c, WINDRUNNERS@, card, j),
    ensures
        i == j,
{
    reveal_strlit("TIME_609");
    reveal_strlit("TIME_609t1");
    reveal_strlit("TIME_609t2");
    assert(WINDRUNNERS@[0]@.len() == 8);
    assert(WINDRUNNERS@[1]@[9] == '1');
    assert(WINDRUNNERS@[2]@[9] == '2');
}

// ------------------------------------------------------------ implemented

/// The row attached to a card, if it has one.
pub open spec fn row_of(c: Corpus, card: CardId) -> Option<Behaviour> {
    if c.index@[card.0 as int] == 0 {
        None
    } else {
        Some(c.behaviours@[c.index@[card.0 as int] - 1])
    }
}

/// The hook table. Index it by card, the same as the behaviour index itself.
pub fn hooks(c: &Corpus) -> (r: &Vec<u8>)
    requires
        c.wf(),
    ensures
        r@.len() == c.len(),
        forall|card: CardId|
            c.has(card) ==> r@[card.0 as int] == match #[trigger] row_of(*c, card) {
                Some(b) => super::corpus::hook_bits(b),
                None => 0,
            },
{
    proof {
        assert forall|card: CardId| c.has(card) implies c.hooks@[card.0 as int] == match #[trigger] row_of(
            *c,
            card,
        ) {
            Some(b) => super::corpus::hook_bits(b),
            None => 0,
        } by {
            assert(c.hooks_ok(card.0 as int));
        }
    }
    &c.hooks
}

/// The behaviour attached to a card, if it has one: the row of its name.
pub fn behaviour_of(c: &Corpus, card: CardId) -> (r: Option<&Behaviour>)
    requires
        c.wf(),
        c.has(card),
    ensures
        match (r, row_of(*c, card)) {
            (Some(b), Some(row)) => *b == row && row.name@ == c.name_of(card),
            (None, None) => forall|k: int|
                0 <= k < c.behaviours@.len() ==> (#[trigger] c.behaviours@[k]).name@ != c.name_of(card),
            _ => false,
        },
{
    proof {
        assert(c.index_ok(card.0 as int));
    }
    let slot: usize = c.index[card.0 as usize] as usize;
    if slot == 0 {
        None
    } else {
        Some(&c.behaviours[slot - 1])
    }
}

/// Every printing of a name has the same row.
pub proof fn lemma_printings_share_a_row(c: Corpus, a: CardId, b: CardId)
    requires
        c.wf(),
        c.has(a),
        c.has(b),
        c.name_of(a) == c.name_of(b),
    ensures
        row_of(c, a) == row_of(c, b),
{
    assert(c.index_ok(a.0 as int));
    assert(c.index_ok(b.0 as int));
    let (x, y) = (c.index@[a.0 as int], c.index@[b.0 as int]);
    if x != 0 && y != 0 {
        assert(c.behaviours@[x - 1].name@ == c.behaviours@[y - 1].name@);
        assert(x == y);
    }
}

/// A card the table itself says all about: a minion or weapon whose entire
/// text is keywords the kernel already models.
pub open spec fn needs_no_code(d: CardDef) -> bool {
    (d.kind_of() == Kind::Minion || d.kind_of() == Kind::Weapon) && d.keywords.holds(
        Keywords(Keywords::TEXT_UNDERSTOOD),
    )
}

/// Whether the engine knows what a card does: it has a row, or its whole rule
/// is one of the lists', or it needs no code.
pub open spec fn implemented(c: Corpus, card: CardId) -> bool {
    ||| row_of(c, card) is Some
    ||| on_list(c, AWAKENS@, card)
    ||| on_list(c, SHATTERS@, card)
    ||| on_list(c, REBORN_KEEPS_ALL@, card)
    ||| on_list(c, IGNORES_TAUNT@, card)
    ||| on_list(c, RULES_IN_THE_ENGINE@, card)
    ||| needs_no_code(c.def_of(card))
}

/// Whether the engine knows what this card does.
///
/// A vanilla minion needs no behaviour: its stats and keywords already say
/// everything. A card with rules text and no behaviour is unimplemented, and
/// must not be offered to a deck builder.
pub fn is_implemented(c: &Corpus, card: CardId) -> (r: bool)
    requires
        c.wf(),
        c.has(card),
    ensures
        r == implemented(*c, card),
{
    if behaviour_of(c, card).is_some() {
        return true;
    }
    // A card whose whole rules text is a side-list mechanic has no hook to
    // hang a behaviour on and is still implemented.
    if awakened_by_dragon(c, card).is_some() || shatters_into(c, card).is_some()
        || reborn_keeps_enchantments(c, card) || lets_attacks_ignore_taunt(c, card)
        || rule_lives_in_the_engine(c, card) {
        return true;
    }
    let d = card.def(c);
    match d.kind() {
        Kind::Minion | Kind::Weapon => d.keywords.has(Keywords(Keywords::TEXT_UNDERSTOOD)),
        _ => false,
    }
}

// ---------------------------------------------------------------- Discover

/// Whether a Discover may offer a card at all.
pub open spec fn discoverable(c: Corpus, card: CardId) -> bool {
    c.def_of(card).collectible && c.def_of(card).is_deckable() && implemented(c, card)
}

/// What a Discover draws from before its own question is asked.
pub open spec fn discover_base(c: Corpus) -> Seq<CardId> {
    c.ids().filter(|card: CardId| discoverable(c, card))
}

/// The entries of a list that are marked.
pub open spec fn marked(list: Seq<CardId>, marks: Seq<bool>) -> Seq<CardId>
    decreases list.len(),
{
    if list.len() == 0 {
        seq![]
    } else {
        let rest = marked(list.drop_last(), marks.drop_last());
        if marks.last() {
            rest.push(list.last())
        } else {
            rest
        }
    }
}

fn base_of(c: &Corpus) -> (r: Vec<CardId>)
    requires
        c.wf(),
    ensures
        r@ == discover_base(*c),
        forall|i: int| 0 <= i < r@.len() ==> c.has(#[trigger] r@[i]),
{
    let ghost keep = |card: CardId| discoverable(*c, card);
    let n: usize = c.tables.defs.len();
    let mut out: Vec<CardId> = Vec::new();
    let mut i: usize = 0;
    proof {
        reveal(Seq::filter);
        assert(c.ids().take(0).filter(keep) =~= seq![]);
    }
    while i < n
        invariant
            c.wf(),
            n == c.len(),
            i <= n,
            keep == (|card: CardId| discoverable(*c, card)),
            out@ == c.ids().take(i as int).filter(keep),
            forall|k: int| 0 <= k < out@.len() ==> c.has(#[trigger] out@[k]),
        decreases n - i,
    {
        let card = CardId(i as u16);
        proof {
            reveal(Seq::filter);
            assert(c.ids().take(i + 1).drop_last() =~= c.ids().take(i as int));
            assert(c.has(card));
        }
        let d = card.def(c);
        if d.collectible && d.deckable() && is_implemented(c, card) {
            out.push(card);
        }
        i += 1;
    }
    proof {
        assert(c.ids().take(n as int) =~= c.ids());
    }
    out
}

/// Cards a Discover may offer: collectible, deckable, understood by the
/// engine, and what `pred` asks for.
pub fn discover_pool(c: &Corpus, pred: impl Fn(&CardDef) -> bool) -> (r: Vec<CardId>)
    requires
        c.wf(),
        forall|d: &CardDef| #[trigger] pred.requires((d,)),
    ensures
        exists|marks: Seq<bool>|
            {
                &&& #[trigger] marks.len() == discover_base(*c).len()
                &&& forall|i: int|
                    0 <= i < marks.len() ==> pred.ensures(
                        (&c.def_of(discover_base(*c)[i]),),
                        #[trigger] marks[i],
                    )
                &&& r@ == marked(discover_base(*c), marks)
            },
{
    let base = base_of(c);
    let ghost mut marks: Seq<bool> = seq![];
    let mut out: Vec<CardId> = Vec::new();
    let mut i: usize = 0;
    while i < base.len()
        invariant
            c.wf(),
            forall|d: &CardDef| #[trigger] pred.requires((d,)),
            base@ == discover_base(*c),
            forall|i: int| 0 <= i < base@.len() ==> c.has(#[trigger] base@[i]),
            i <= base@.len(),
            marks.len() == i,
            forall|k: int|
                0 <= k < i ==> pred.ensures((&c.def_of(base@[k]),), #[trigger] marks[k]),
            out@ == marked(base@.take(i as int), marks),
        decreases base.len() - i,
    {
        let card = base[i];
        let ok = pred(card.def(c));
        proof {
            let more = marks.push(ok);
            assert(base@.take(i + 1).drop_last() =~= base@.take(i as int));
            assert(more.drop_last() =~= marks);
            marks = more;
        }
        if ok {
            out.push(card);
        }
        i += 1;
    }
    proof {
        assert(base@.take(i as int) =~= base@);
        assert(marks.len() == discover_base(*c).len());
    }
    out
}

} // verus!
