//! Building and validating deck lists.
//!
//! A deck is just a card list here; the 30-card limit and copy limits are
//! checked rather than assumed, because a deck arriving from a deck code or a
//! generator is untrusted input.

use vstd::prelude::*;

use crate::cards::behaviour::is_implemented;
use crate::cards::corpus::Corpus;
use crate::cards::lookup::by_name;
use crate::cards::types::{CardDef, CardId, Class, Formats, Kind};
use crate::order::sorted;
use crate::text::str_eq;

pub mod laws;

verus! {

pub const DECK_SIZE: usize = 30;

/// The card that changes how many cards a legal list holds: "Your deck is 20
/// cards, plus 20 copied from your enemy." The other twenty arrive at the
/// start of the game.
///
/// A deckbuilding rule, not an in-game effect: the size is decided before a
/// game exists. Keyed by name; there is no tag on the card saying "this
/// resizes the deck".
pub const RESIZER: &'static str = "Azalina Soulsever";

/// The size of a list that holds [`RESIZER`].
pub const RESIZED: usize = 20;

/// Whether a list holds a card of this name.
pub open spec fn any_named(c: Corpus, cards: Seq<CardId>, name: Seq<char>) -> bool {
    exists|i: int| 0 <= i < cards.len() && c.name_of(#[trigger] cards[i]) == name
}

/// Thirty, unless something in the list says otherwise.
pub open spec fn size_for(c: Corpus, cards: Seq<CardId>) -> nat {
    if any_named(c, cards, RESIZER@) {
        RESIZED as nat
    } else {
        DECK_SIZE as nat
    }
}

/// Every card of a list is in the corpus.
pub open spec fn known(c: Corpus, cards: Seq<CardId>) -> bool {
    forall|i: int| 0 <= i < cards.len() ==> c.has(#[trigger] cards[i])
}

fn holds_name(c: &Corpus, cards: &[CardId], name: &str) -> (r: bool)
    requires
        c.wf(),
        known(*c, cards@),
    ensures
        r == any_named(*c, cards@, name@),
{
    let mut i: usize = 0;
    while i < cards.len()
        invariant
            c.wf(),
            known(*c, cards@),
            i <= cards@.len(),
            forall|k: int| 0 <= k < i ==> c.name_of(#[trigger] cards@[k]) != name@,
        decreases cards.len() - i,
    {
        if str_eq(cards[i].name(c), name) {
            assert(c.name_of(cards@[i as int]) == name@);
            return true;
        }
        i += 1;
    }
    false
}

spec fn readable(c: &Corpus, cards: &[CardId]) -> bool {
    c.wf() && known(*c, cards@)
}

spec fn mentions(c: &Corpus, cards: &[CardId], name: &str) -> bool {
    any_named(*c, cards@, name@)
}

/// How many cards a legal list of these cards holds.
pub fn legal_size(c: &Corpus, cards: &[CardId]) -> (r: usize)
    requires
        c.wf(),
        known(*c, cards@),
    ensures
        r == size_for(*c, cards@),
{
    let present = |name: &str| -> (b: bool)
        requires
            readable(c, cards),
        ensures
            b == mentions(c, cards, name),
        { holds_name(c, cards, name) };
    legal_size_by_name(present)
}

/// [`legal_size`] for a caller that has names rather than ids — the gauntlet
/// file, which is a list of names and counts.
pub fn legal_size_by_name(present: impl Fn(&str) -> bool) -> (r: usize)
    requires
        present.requires((RESIZER,)),
    ensures
        r == RESIZED && present.ensures((RESIZER,), true) || r == DECK_SIZE && present.ensures(
            (RESIZER,),
            false,
        ),
{
    if present(RESIZER) {
        RESIZED
    } else {
        DECK_SIZE
    }
}

/// What is wrong with a deck list.
#[derive(Clone, Copy, PartialEq, Eq, Debug, Structural)]
pub enum DeckError {
    WrongSize(usize),
    /// More copies than the card's rarity allows.
    TooManyCopies(CardId, u8),
    /// A card from another class.
    WrongClass(CardId),
    /// Not legal in the requested format.
    NotLegal(CardId),
    /// Not a card that can go in a deck at all.
    NotDeckable(CardId),
}

/// How many copies of a card a list holds.
pub open spec fn count(cards: Seq<CardId>, card: CardId) -> nat {
    cards.to_multiset().count(card)
}

/// What is wrong with one card of a list.
pub open spec fn error_at(
    c: Corpus,
    cards: Seq<CardId>,
    class: Class,
    format: Formats,
    card: CardId,
) -> Option<DeckError> {
    let d = c.def_of(card);
    if !d.is_deckable() {
        Some(DeckError::NotDeckable(card))
    } else if !d.is_playable_by(class) {
        Some(DeckError::WrongClass(card))
    } else if !d.formats.includes(format) {
        Some(DeckError::NotLegal(card))
    } else if count(cards, card) > d.copies() {
        Some(DeckError::TooManyCopies(card, count(cards, card) as u8))
    } else {
        None
    }
}

/// Whether the first card of a list that is wrong is wrong in this way.
pub open spec fn first_error(
    c: Corpus,
    cards: Seq<CardId>,
    class: Class,
    format: Formats,
    e: DeckError,
) -> bool {
    exists|i: int|
        {
            &&& 0 <= i < cards.len()
            &&& error_at(c, cards, class, format, #[trigger] cards[i]) == Some(e)
            &&& forall|j: int| 0 <= j < i ==> error_at(c, cards, class, format, #[trigger] cards[j]) is None
        }
}

/// Whether a list is legal.
pub open spec fn valid(c: Corpus, cards: Seq<CardId>, class: Class, format: Formats) -> bool {
    &&& cards.len() == size_for(c, cards)
    &&& forall|i: int| 0 <= i < cards.len() ==> error_at(c, cards, class, format, #[trigger] cards[i]) is None
}

proof fn lemma_count_step(cards: Seq<CardId>, card: CardId)
    requires
        cards.len() > 0,
    ensures
        count(cards, card) == count(cards.drop_last(), card) + if cards.last() == card {
            1nat
        } else {
            0
        },
{
    broadcast use vstd::seq_lib::group_to_multiset_ensures;

    assert(cards.drop_last().push(cards.last()) =~= cards);
    vstd::seq_lib::to_multiset_build(cards.drop_last(), cards.last());
}

proof fn lemma_count_empty(card: CardId)
    ensures
        count(seq![], card) == 0,
{
    broadcast use vstd::seq_lib::group_to_multiset_ensures;

    vstd::seq_lib::to_multiset_contains(Seq::<CardId>::empty(), card);
}

pub fn count_of(cards: &[CardId], card: CardId) -> (r: usize)
    ensures
        r == count(cards@, card),
        r <= cards@.len(),
{
    let mut n: usize = 0;
    let mut i: usize = 0;
    proof {
        lemma_count_empty(card);
        assert(cards@.take(0) =~= seq![]);
    }
    while i < cards.len()
        invariant
            i <= cards@.len(),
            n <= i,
            n == count(cards@.take(i as int), card),
        decreases cards.len() - i,
    {
        proof {
            lemma_count_step(cards@.take(i + 1), card);
            assert(cards@.take(i + 1).drop_last() =~= cards@.take(i as int));
        }
        if cards[i] == card {
            n += 1;
        }
        i += 1;
    }
    proof {
        assert(cards@.take(i as int) =~= cards@);
    }
    n
}

/// Check a deck list against the construction rules.
pub fn validate(c: &Corpus, cards: &[CardId], class: Class, format: Formats) -> (r: Result<(), DeckError>)
    requires
        c.wf(),
        known(*c, cards@),
    ensures
        match r {
            Ok(()) => valid(*c, cards@, class, format),
            Err(e) => if cards@.len() != size_for(*c, cards@) {
                e == DeckError::WrongSize(cards@.len() as usize)
            } else {
                first_error(*c, cards@, class, format, e)
            },
        },
{
    if cards.len() != legal_size(c, cards) {
        return Err(DeckError::WrongSize(cards.len()));
    }
    let mut i: usize = 0;
    while i < cards.len()
        invariant
            c.wf(),
            known(*c, cards@),
            cards@.len() == size_for(*c, cards@),
            i <= cards@.len(),
            forall|j: int|
                0 <= j < i ==> error_at(*c, cards@, class, format, #[trigger] cards@[j]) is None,
        decreases cards.len() - i,
    {
        let card = cards[i];
        let d = card.def(c);
        let ghost e = error_at(*c, cards@, class, format, cards@[i as int]);
        proof {
            if e is Some {
                assert(first_error(*c, cards@, class, format, e->Some_0));
            }
        }
        if !d.deckable() {
            return Err(DeckError::NotDeckable(card));
        }
        if !d.playable_by(class) {
            return Err(DeckError::WrongClass(card));
        }
        if !d.formats.has(format) {
            return Err(DeckError::NotLegal(card));
        }
        let n: usize = count_of(cards, card);
        if n > d.copy_limit() as usize {
            return Err(DeckError::TooManyCopies(card, n as u8));
        }
        i += 1;
    }
    Ok(())
}

// ------------------------------------------------------------------- pools

/// Whether a card goes in the pool of a class and a format.
pub open spec fn in_pool(d: CardDef, class: Class, format: Formats) -> bool {
    d.collectible && d.is_deckable() && d.is_playable_by(class) && d.formats.includes(format)
}

/// Every collectible card a class may play in a format.
pub open spec fn pool_of(c: Corpus, class: Class, format: Formats) -> Seq<CardId> {
    c.ids().filter(|card: CardId| in_pool(c.def_of(card), class, format))
}

/// Those of them that the engine understands.
pub open spec fn implemented_pool_of(c: Corpus, class: Class, format: Formats) -> Seq<CardId> {
    pool_of(c, class, format).filter(|card: CardId| crate::cards::behaviour::implemented(c, card))
}

/// Every collectible card a `class` may play in `format`.
pub fn pool(c: &Corpus, class: Class, format: Formats) -> (r: Vec<CardId>)
    requires
        c.wf(),
    ensures
        r@ == pool_of(*c, class, format),
        known(*c, r@),
{
    let ghost keep = |card: CardId| in_pool(c.def_of(card), class, format);
    let n: usize = c.tables.defs.len();
    let mut out: Vec<CardId> = Vec::new();
    let mut i: usize = 0;
    proof {
        reveal(Seq::filter);
        assert(c.ids().take(0).filter(keep) =~= seq![]);
    }
    while i < n
        invariant
            c.wf(),
            n == c.len(),
            i <= n,
            keep == (|card: CardId| in_pool(c.def_of(card), class, format)),
            out@ == c.ids().take(i as int).filter(keep),
            known(*c, out@),
        decreases n - i,
    {
        let card = CardId(i as u16);
        proof {
            reveal(Seq::filter);
            assert(c.ids().take(i + 1).drop_last() =~= c.ids().take(i as int));
            assert(c.has(card));
        }
        let d = card.def(c);
        if d.collectible && d.deckable() && d.playable_by(class) && d.formats.has(format) {
            out.push(card);
        }
        i += 1;
    }
    proof {
        assert(c.ids().take(n as int) =~= c.ids());
    }
    out
}

/// Cards a `class` may play in `format` that the engine actually implements.
///
/// The distinction matters for a simulation: an unimplemented card in a deck
/// is a dead draw that quietly skews every result, so a generated deck must
/// never contain one.
pub fn implemented_pool(c: &Corpus, class: Class, format: Formats) -> (r: Vec<CardId>)
    requires
        c.wf(),
    ensures
        r@ == implemented_pool_of(*c, class, format),
        known(*c, r@),
{
    let all = pool(c, class, format);
    let ghost keep = |card: CardId| crate::cards::behaviour::implemented(*c, card);
    let mut out: Vec<CardId> = Vec::new();
    let mut i: usize = 0;
    proof {
        reveal(Seq::filter);
        assert(all@.take(0).filter(keep) =~= seq![]);
    }
    while i < all.len()
        invariant
            c.wf(),
            known(*c, all@),
            i <= all@.len(),
            keep == (|card: CardId| crate::cards::behaviour::implemented(*c, card)),
            out@ == all@.take(i as int).filter(keep),
            known(*c, out@),
        decreases all.len() - i,
    {
        proof {
            reveal(Seq::filter);
            assert(all@.take(i + 1).drop_last() =~= all@.take(i as int));
        }
        if is_implemented(c, all[i]) {
            out.push(all[i]);
        }
        i += 1;
    }
    proof {
        assert(all@.take(i as int) =~= all@);
    }
    out
}

/// A card as it sorts: by cost, and by its place in the table.
pub open spec fn rank(c: Corpus, card: CardId) -> (i16, u16) {
    (c.def_of(card).cost, card.0)
}

/// Cards in the order of their cost, those of one cost in the order of the
/// table.
pub open spec fn by_cost(c: Corpus, cards: Seq<CardId>) -> Seq<CardId> {
    crate::order::sorted_keys(cards.map_values(|card: CardId| rank(c, card))).map_values(
        |k: (i16, u16)| CardId(k.1),
    )
}

/// Sorted by id as well as cost so the result never depends on table order.
fn sort_by_cost(c: &Corpus, cards: &Vec<CardId>) -> (r: Vec<CardId>)
    requires
        c.wf(),
        known(*c, cards@),
    ensures
        r@ == by_cost(*c, cards@),
        r@.to_multiset() == cards@.to_multiset(),
        known(*c, r@),
{
    let mut ranks: Vec<(i16, u16)> = Vec::new();
    let mut i: usize = 0;
    while i < cards.len()
        invariant
            c.wf(),
            known(*c, cards@),
            i <= cards@.len(),
            ranks@ == cards@.take(i as int).map_values(|card: CardId| rank(*c, card)),
        decreases cards.len() - i,
    {
        ranks.push((cards[i].def(c).cost, cards[i].0));
        proof {
            assert(ranks@ =~= cards@.take(i + 1).map_values(|card: CardId| rank(*c, card)));
        }
        i += 1;
    }
    let ghost f = |k: (i16, u16)| CardId(k.1);
    proof {
        assert(cards@.take(i as int) =~= cards@);
    }
    let s = sorted(&ranks);
    proof {
        assert(crate::order::keys(s@) =~= s@);
    }
    let mut out: Vec<CardId> = Vec::new();
    let mut j: usize = 0;
    while j < s.len()
        invariant
            j <= s@.len(),
            f == (|k: (i16, u16)| CardId(k.1)),
            out@ == s@.take(j as int).map_values(f),
        decreases s.len() - j,
    {
        out.push(CardId(s[j].1));
        proof {
            assert(out@ =~= s@.take(j + 1).map_values(f));
        }
        j += 1;
    }
    proof {
        assert(s@.take(j as int) =~= s@);
        crate::order::lemma_map_multiset(s@, ranks@, f);
        assert(ranks@.map_values(f) =~= cards@);
        lemma_known_multiset(*c, cards@, out@);
    }
    out
}

proof fn lemma_known_multiset(c: Corpus, a: Seq<CardId>, b: Seq<CardId>)
    requires
        known(c, a),
        a.to_multiset() == b.to_multiset(),
    ensures
        known(c, b),
{
    broadcast use vstd::seq_lib::group_to_multiset_ensures;

    assert forall|i: int| 0 <= i < b.len() implies c.has(#[trigger] b[i]) by {
        assert(b.contains(b[i]));
        assert(b.to_multiset().count(b[i]) > 0);
        assert(a.contains(b[i]));
    }
}

// -------------------------------------------------------- generated decks

/// Roughly a midrange curve, indexed by cost.
pub const WANT: [usize; 9] = [0, 4, 6, 6, 5, 4, 3, 1, 1];

/// Arena is a tempo format: mass on 2–4 and a thin top end. The field the
/// evaluation plays against should be shaped like an Arena deck, not like a
/// constructed midrange one.
pub const WANT_ARENA: [usize; 9] = [0, 4, 7, 6, 5, 4, 2, 1, 1];

/// The curve of a format.
pub open spec fn wanted(format: Formats) -> Seq<usize> {
    if format == Formats(Formats::ARENA) {
        WANT_ARENA@
    } else {
        WANT@
    }
}

/// A card a number of times.
pub open spec fn repeated(card: CardId, n: nat) -> Seq<CardId> {
    Seq::new(n, |i: int| card)
}

/// As many copies as its rarity, the curve and the deck have room for.
pub open spec fn portion(copies: nat, want: nat, taken: nat, len: nat) -> nat {
    let left = if taken < want {
        (want - taken) as nat
    } else {
        0
    };
    let room = if len < DECK_SIZE {
        (DECK_SIZE - len) as nat
    } else {
        0
    };
    if copies <= left && copies <= room {
        copies
    } else if left <= room {
        left
    } else {
        room
    }
}

/// A deck with the cards of one cost added in order, up to what the curve
/// wants of that cost.
pub open spec fn fill_cost(
    c: Corpus,
    p: Seq<CardId>,
    cost: int,
    want: nat,
    deck: Seq<CardId>,
    taken: nat,
) -> Seq<CardId>
    decreases p.len(),
{
    if p.len() == 0 {
        deck
    } else {
        let card = p[0];
        if c.def_of(card).cost == cost {
            let n = portion(c.def_of(card).copies() as nat, want, taken, deck.len());
            fill_cost(c, p.drop_first(), cost, want, deck + repeated(card, n), taken + n)
        } else {
            fill_cost(c, p.drop_first(), cost, want, deck, taken)
        }
    }
}

/// A deck with every cost from `cost` up filled.
pub open spec fn fill_curve(
    c: Corpus,
    p: Seq<CardId>,
    want: Seq<usize>,
    cost: nat,
    deck: Seq<CardId>,
) -> Seq<CardId>
    decreases want.len() - cost,
{
    if cost >= want.len() {
        deck
    } else {
        fill_curve(
            c,
            p,
            want,
            cost + 1,
            fill_cost(c, p, cost as int, want[cost as int] as nat, deck, 0),
        )
    }
}

/// A deck topped up with one more copy of whatever its rarity allows, in
/// order, until it is full.
pub open spec fn top_up(c: Corpus, p: Seq<CardId>, size: nat, deck: Seq<CardId>) -> Seq<CardId>
    decreases p.len(),
{
    if p.len() == 0 || deck.len() >= size {
        deck
    } else if count(deck, p[0]) < c.def_of(p[0]).copies() {
        top_up(c, p.drop_first(), size, deck.push(p[0]))
    } else {
        top_up(c, p.drop_first(), size, deck)
    }
}

/// A deck topped up again and again, until it is full or its rarity allows no
/// card another copy.
pub open spec fn fill_up(c: Corpus, p: Seq<CardId>, size: nat, deck: Seq<CardId>) -> Seq<CardId>
    decreases
            (if deck.len() < size {
                size - deck.len()
            } else {
                0
            }),
{
    let more = top_up(c, p, size, deck);
    if deck.len() >= size || more.len() <= deck.len() {
        deck
    } else {
        fill_up(c, p, size, more)
    }
}

/// How many places of a deck these cards can fill: the copies their rarity
/// allows, added up.
pub open spec fn places(c: Corpus, cards: Seq<CardId>) -> nat
    decreases cards.len(),
{
    if cards.len() == 0 {
        0
    } else {
        c.def_of(cards[0]).copies() as nat + places(c, cards.drop_first())
    }
}

/// The cards of a list that leave a deck's size alone.
pub open spec fn ordinary(c: Corpus, cards: Seq<CardId>) -> Seq<CardId> {
    cards.filter(|card: CardId| c.name_of(card) != RESIZER@)
}

/// The cards of a list that a deck of thirty is made of: those that leave its
/// size alone where they can fill it, all of them where they cannot.
pub open spec fn stock(c: Corpus, cards: Seq<CardId>) -> Seq<CardId> {
    if places(c, ordinary(c, cards)) >= DECK_SIZE {
        ordinary(c, cards)
    } else {
        cards
    }
}

/// Thirty cards by the curve, filled up with whatever is left.
pub open spec fn curved(c: Corpus, p: Seq<CardId>, format: Formats) -> Seq<CardId> {
    fill_up(c, p, DECK_SIZE as nat, fill_curve(c, p, wanted(format), 0, seq![]))
}

/// The curve deck of a class and a format, if its pool can fill thirty places.
///
/// A card that makes thirty the wrong size stays out wherever thirty places
/// can be filled without it.
pub open spec fn curve_cards(c: Corpus, class: Class, format: Formats) -> Option<Seq<CardId>> {
    let pool = implemented_pool_of(c, class, format);
    if places(c, pool) < DECK_SIZE {
        None
    } else {
        Some(curved(c, by_cost(c, stock(c, pool)), format))
    }
}

fn push_copies(deck: &mut Vec<CardId>, card: CardId, n: usize)
    ensures
        final(deck)@ == old(deck)@ + repeated(card, n as nat),
{
    let ghost before = deck@;
    let mut k: usize = 0;
    proof {
        assert(before + repeated(card, 0) =~= before);
    }
    while k < n
        invariant
            k <= n,
            deck@ == before + repeated(card, k as nat),
        decreases n - k,
    {
        deck.push(card);
        proof {
            assert(deck@ =~= before + repeated(card, (k + 1) as nat));
        }
        k += 1;
    }
}

fn add_cost(c: &Corpus, p: &Vec<CardId>, cost: i16, want: usize, deck: &mut Vec<CardId>)
    requires
        c.wf(),
        known(*c, p@),
        want <= DECK_SIZE,
    ensures
        final(deck)@ == fill_cost(*c, p@, cost as int, want as nat, old(deck)@, 0),
{
    let ghost start = deck@;
    let mut taken: usize = 0;
    let mut i: usize = 0;
    proof {
        assert(p@.skip(0) =~= p@);
    }
    while i < p.len()
        invariant
            c.wf(),
            known(*c, p@),
            start == old(deck)@,
            i <= p@.len(),
            taken <= want <= DECK_SIZE,
            fill_cost(*c, p@, cost as int, want as nat, start, 0) == fill_cost(
                *c,
                p@.skip(i as int),
                cost as int,
                want as nat,
                deck@,
                taken as nat,
            ),
        decreases p.len() - i,
    {
        proof {
            assert(p@.skip(i as int).drop_first() =~= p@.skip(i + 1));
        }
        let card = p[i];
        let d = card.def(c);
        if d.cost == cost {
            let copies: usize = d.copy_limit() as usize;
            let left: usize = want - taken;
            let room: usize = if deck.len() < DECK_SIZE { DECK_SIZE - deck.len() } else { 0 };
            let n: usize = if copies <= left && copies <= room {
                copies
            } else if left <= room {
                left
            } else {
                room
            };
            push_copies(deck, card, n);
            taken = taken + n;
        }
        i += 1;
    }
}

fn add_rest(c: &Corpus, p: &Vec<CardId>, size: usize, deck: &mut Vec<CardId>)
    requires
        c.wf(),
        known(*c, p@),
    ensures
        final(deck)@ == top_up(*c, p@, size as nat, old(deck)@),
{
    let ghost start = deck@;
    let mut i: usize = 0;
    proof {
        assert(p@.skip(0) =~= p@);
    }
    while i < p.len()
        invariant
            c.wf(),
            known(*c, p@),
            start == old(deck)@,
            i <= p@.len(),
            top_up(*c, p@, size as nat, start) == top_up(*c, p@.skip(i as int), size as nat, deck@),
        decreases p.len() - i,
    {
        proof {
            assert(p@.skip(i as int).drop_first() =~= p@.skip(i + 1));
        }
        if deck.len() >= size {
            return ;
        }
        let card = p[i];
        if count_of(deck.as_slice(), card) < card.def(c).copy_limit() as usize {
            deck.push(card);
        }
        i += 1;
    }
}

fn add_all(c: &Corpus, p: &Vec<CardId>, size: usize, deck: &mut Vec<CardId>)
    requires
        c.wf(),
        known(*c, p@),
    ensures
        final(deck)@ == fill_up(*c, p@, size as nat, old(deck)@),
{
    let ghost start = deck@;
    let mut going = true;
    while going && deck.len() < size
        invariant
            c.wf(),
            known(*c, p@),
            start == old(deck)@,
            fill_up(*c, p@, size as nat, start) == if going {
                fill_up(*c, p@, size as nat, deck@)
            } else {
                deck@
            },
        decreases
            (if going {
                1int
            } else {
                0
            }),
            (if deck@.len() < size {
                size - deck@.len()
            } else {
                0
            }),
    {
        let before: usize = deck.len();
        let ghost held = deck@;
        add_rest(c, p, size, deck);
        if deck.len() <= before {
            proof {
                laws::lemma_top_up_extends(*c, p@, size as nat, held);
                assert(deck@ =~= held);
            }
            going = false;
        }
    }
}

/// Whether these cards can fill a deck of thirty.
fn can_fill(c: &Corpus, cards: &Vec<CardId>) -> (r: bool)
    requires
        c.wf(),
        known(*c, cards@),
    ensures
        r == (places(*c, cards@) >= DECK_SIZE),
{
    let mut n: usize = 0;
    let mut i: usize = 0;
    proof {
        assert(cards@.skip(0) =~= cards@);
    }
    while i < cards.len() && n < DECK_SIZE
        invariant
            c.wf(),
            known(*c, cards@),
            i <= cards@.len(),
            n <= DECK_SIZE + 1,
            places(*c, cards@) == n + places(*c, cards@.skip(i as int)),
        decreases cards.len() - i,
    {
        proof {
            assert(cards@.skip(i as int).drop_first() =~= cards@.skip(i + 1));
        }
        n = n + cards[i].def(c).copy_limit() as usize;
        i += 1;
    }
    n >= DECK_SIZE
}

fn without_resizers(c: &Corpus, cards: &Vec<CardId>) -> (r: Vec<CardId>)
    requires
        c.wf(),
        known(*c, cards@),
    ensures
        r@ == ordinary(*c, cards@),
        known(*c, r@),
{
    let ghost keep = |card: CardId| c.name_of(card) != RESIZER@;
    let mut out: Vec<CardId> = Vec::new();
    let mut i: usize = 0;
    proof {
        reveal(Seq::filter);
        assert(cards@.take(0).filter(keep) =~= seq![]);
    }
    while i < cards.len()
        invariant
            c.wf(),
            known(*c, cards@),
            i <= cards@.len(),
            keep == (|card: CardId| c.name_of(card) != RESIZER@),
            out@ == cards@.take(i as int).filter(keep),
            known(*c, out@),
        decreases cards.len() - i,
    {
        proof {
            reveal(Seq::filter);
            assert(cards@.take(i + 1).drop_last() =~= cards@.take(i as int));
        }
        if !str_eq(cards[i].name(c), RESIZER) {
            out.push(cards[i]);
        }
        i += 1;
    }
    proof {
        assert(cards@.take(i as int) =~= cards@);
    }
    out
}

fn in_stock(c: &Corpus, cards: Vec<CardId>) -> (r: Vec<CardId>)
    requires
        c.wf(),
        known(*c, cards@),
    ensures
        r@ == stock(*c, cards@),
        known(*c, r@),
{
    let rest = without_resizers(c, &cards);
    if can_fill(c, &rest) {
        rest
    } else {
        cards
    }
}

fn curve_from(c: &Corpus, p: &Vec<CardId>, format: Formats) -> (r: Vec<CardId>)
    requires
        c.wf(),
        known(*c, p@),
    ensures
        r@ == curved(*c, p@, format),
{
    let arena = format == Formats(Formats::ARENA);
    let mut deck: Vec<CardId> = Vec::new();
    let mut cost: usize = 0;
    while cost < 9
        invariant
            c.wf(),
            known(*c, p@),
            arena == (format == Formats(Formats::ARENA)),
            cost <= 9,
            fill_curve(*c, p@, wanted(format), 0, seq![]) == fill_curve(
                *c,
                p@,
                wanted(format),
                cost as nat,
                deck@,
            ),
        decreases 9 - cost,
    {
        let want: usize = if arena { WANT_ARENA[cost] } else { WANT[cost] };
        assert(want <= 7);
        add_cost(c, p, cost as i16, want, &mut deck);
        cost += 1;
    }
    // Top up with anything legal if the curve could not be filled.
    add_all(c, p, DECK_SIZE, &mut deck);
    deck
}

/// A legal 30-card deck drawn from the implemented pool, following a normal
/// mana curve rather than the cheapest thirty cards.
///
/// Still not a good deck. It is a *representative* one: enough spells and
/// removal that a benchmark measures the engine doing real work, and
/// reproducible so two runs are comparable.
///
/// The card that makes thirty the wrong size stays out. Where thirty cards
/// cannot be found without it, it is among them, and the thirty are not legal:
/// no thirty cards of such a pool are.
///
/// Returns `None` when the implemented pool cannot fill thirty cards — which
/// is the honest answer for a class the engine barely covers yet, and better
/// than quietly handing back a short deck that fails validation later.
pub fn curve_deck(c: &Corpus, class: Class, format: Formats) -> (r: Option<Vec<CardId>>)
    requires
        c.wf(),
    ensures
        r is None <==> places(*c, implemented_pool_of(*c, class, format)) < DECK_SIZE,
        match (r, curve_cards(*c, class, format)) {
            (Some(deck), Some(cards)) => {
                &&& deck@ == cards
                &&& deck@.len() == DECK_SIZE
                &&& valid(*c, deck@, class, format) <==> places(
                    *c,
                    ordinary(*c, implemented_pool_of(*c, class, format)),
                ) >= DECK_SIZE
            },
            (None, None) => true,
            _ => false,
        },
{
    proof {
        laws::lemma_curve_deck_is_full(*c, class, format);
        laws::lemma_curve_deck_is_valid(*c, class, format);
    }
    let pool = implemented_pool(c, class, format);
    if !can_fill(c, &pool) {
        return None;
    }
    let cards = in_stock(c, pool);
    let p = sort_by_cost(c, &cards);
    Some(curve_from(c, &p, format))
}

/// Whether a card is a minion that can attack.
pub open spec fn is_fighter(d: CardDef) -> bool {
    d.kind_of() == Kind::Minion && d.atk > 0
}

/// Cards, each as often as its rarity allows.
pub open spec fn all_copies(c: Corpus, p: Seq<CardId>) -> Seq<CardId>
    decreases p.len(),
{
    if p.len() == 0 {
        seq![]
    } else {
        repeated(p[0], c.def_of(p[0]).copies() as nat) + all_copies(c, p.drop_first())
    }
}

/// The first thirty of a list, or all of it.
pub open spec fn up_to_a_deck(cards: Seq<CardId>) -> Seq<CardId> {
    if cards.len() <= DECK_SIZE {
        cards
    } else {
        cards.take(DECK_SIZE as int)
    }
}

/// The minions that can attack a class may play in a format.
pub open spec fn fighters(c: Corpus, class: Class, format: Formats) -> Seq<CardId> {
    pool_of(c, class, format).filter(|card: CardId| is_fighter(c.def_of(card)))
}

/// The cheapest minions a class may play in a format.
pub open spec fn cheapest_cards(c: Corpus, class: Class, format: Formats) -> Seq<CardId> {
    up_to_a_deck(all_copies(c, by_cost(c, stock(c, fighters(c, class, format)))))
}

/// A legal 30-card deck of the cheapest minions available, or a short one
/// where there are not enough of them.
///
/// The card that makes thirty the wrong size stays out wherever thirty can be
/// found without it.
///
/// Not a good deck — a fixed, reproducible one, for benchmarks and for tests
/// that need a deck without caring what is in it.
pub fn cheapest_minions(c: &Corpus, class: Class, format: Formats) -> (r: Vec<CardId>)
    requires
        c.wf(),
    ensures
        r@ == cheapest_cards(*c, class, format),
        r@.len() == DECK_SIZE <==> places(*c, fighters(*c, class, format)) >= DECK_SIZE,
        r@.len() == DECK_SIZE ==> (valid(*c, r@, class, format) <==> places(
            *c,
            ordinary(*c, fighters(*c, class, format)),
        ) >= DECK_SIZE),
{
    proof {
        laws::lemma_cheapest_deck_is_full(*c, class, format);
        laws::lemma_cheapest_deck_is_valid(*c, class, format);
    }
    let all = pool(c, class, format);
    let ghost keep = |card: CardId| is_fighter(c.def_of(card));
    let mut found: Vec<CardId> = Vec::new();
    let mut i: usize = 0;
    proof {
        reveal(Seq::filter);
        assert(all@.take(0).filter(keep) =~= seq![]);
    }
    while i < all.len()
        invariant
            c.wf(),
            known(*c, all@),
            i <= all@.len(),
            keep == (|card: CardId| is_fighter(c.def_of(card))),
            found@ == all@.take(i as int).filter(keep),
            known(*c, found@),
        decreases all.len() - i,
    {
        proof {
            reveal(Seq::filter);
            assert(all@.take(i + 1).drop_last() =~= all@.take(i as int));
        }
        let d = all[i].def(c);
        if d.kind() == Kind::Minion && d.atk > 0 {
            found.push(all[i]);
        }
        i += 1;
    }
    proof {
        assert(all@.take(i as int) =~= all@);
    }
    let cards = in_stock(c, found);
    let p = sort_by_cost(c, &cards);
    let mut deck: Vec<CardId> = Vec::new();
    let mut k: usize = 0;
    proof {
        assert(p@.skip(0) =~= p@);
        assert(deck@ + all_copies(*c, p@) =~= all_copies(*c, p@));
    }
    while k < p.len() && deck.len() < DECK_SIZE
        invariant
            c.wf(),
            known(*c, p@),
            k <= p@.len(),
            deck@.len() <= DECK_SIZE,
            up_to_a_deck(all_copies(*c, p@)) == up_to_a_deck(
                deck@ + all_copies(*c, p@.skip(k as int)),
            ),
        decreases p.len() - k,
    {
        let card = p[k];
        let copies: usize = card.def(c).copy_limit() as usize;
        let room: usize = DECK_SIZE - deck.len();
        let n: usize = if copies <= room { copies } else { room };
        let ghost before = deck@;
        let ghost rest = all_copies(*c, p@.skip(k + 1));
        push_copies(&mut deck, card, n);
        proof {
            assert(p@.skip(k as int).drop_first() =~= p@.skip(k + 1));
            let whole = before + (repeated(card, copies as nat) + rest);
            if n == copies {
                assert(whole =~= deck@ + rest);
            } else {
                assert(whole.len() > DECK_SIZE);
                assert(up_to_a_deck(whole) =~= deck@);
                assert(up_to_a_deck(deck@ + rest) =~= deck@);
            }
        }
        k += 1;
    }
    proof {
        let rest = all_copies(*c, p@.skip(k as int));
        if k == p@.len() {
            assert(rest =~= seq![]);
            assert(deck@ + rest =~= deck@);
        } else {
            assert(up_to_a_deck(deck@ + rest) =~= deck@);
        }
    }
    deck
}

// ------------------------------------------------------------------- slots

/// How a decklist's requested copies resolve against the implemented table.
#[derive(Debug)]
pub struct SlotReport {
    /// Requested copies covered by an implemented card of that name.
    pub ok: u32,
    /// Copies requested in total.
    pub total: u32,
    /// Names that did not resolve to an implemented card, with how many
    /// copies were asked for.
    pub missing: Vec<(String, u32)>,
}

/// Whether a name means a card that the engine understands.
pub open spec fn covered(c: Corpus, name: Seq<char>) -> bool {
    exists|card: CardId|
        c.has(card) && #[trigger] crate::cards::lookup::means(c, name, card)
            && crate::cards::behaviour::implemented(c, card)
}

/// The copies a list of `(name, copies)` asks for.
pub open spec fn asked(cards: Seq<(&str, u32)>) -> nat
    decreases cards.len(),
{
    if cards.len() == 0 {
        0
    } else {
        asked(cards.drop_last()) + cards.last().1 as nat
    }
}

/// The names and copies a report lists.
pub open spec fn listed(missing: Seq<(String, u32)>) -> Seq<(Seq<char>, u32)> {
    missing.map_values(|m: (String, u32)| (m.0@, m.1))
}

/// The names and copies of a list.
pub open spec fn named_copies(cards: Seq<(&str, u32)>) -> Seq<(Seq<char>, u32)> {
    cards.map_values(|s: (&str, u32)| (s.0@, s.1))
}

fn is_covered(c: &Corpus, name: &str) -> (r: bool)
    requires
        c.wf(),
    ensures
        r == covered(*c, name@),
{
    match by_name(c, name) {
        None => {
            proof {
                if covered(*c, name@) {
                    let card = choose|card: CardId|
                        c.has(card) && #[trigger] crate::cards::lookup::means(*c, name@, card)
                            && crate::cards::behaviour::implemented(*c, card);
                    let t = c.tables;
                    let i = choose|i: int|
                        0 <= i < t.by_name@.len() && (#[trigger] t.by_name@[i]).0@ == name@
                            && t.by_name@[i].1 == card.0;
                    assert(t.name_entry_ok(i));
                    assert(c.name_of(card) == name@);
                }
            }
            false
        },
        Some(id) => {
            proof {
                if covered(*c, name@) {
                    let card = choose|card: CardId|
                        c.has(card) && #[trigger] crate::cards::lookup::means(*c, name@, card)
                            && crate::cards::behaviour::implemented(*c, card);
                    crate::cards::lookup::lemma_means(*c, name@, card, id);
                }
            }
            is_implemented(c, id)
        },
    }
}

/// Resolve a decklist against the corpus: how many requested copies are
/// covered by an implemented card of that name.
///
/// Takes already-parsed `(name, count)` pairs rather than a file — whatever
/// reads the meta-deck file owns the parsing and hands the pairs in.
pub fn resolve_slots(c: &Corpus, cards: &[(&str, u32)]) -> (r: SlotReport)
    requires
        c.wf(),
        asked(cards@) <= u32::MAX,
    ensures
        r.total == asked(cards@),
        r.ok == asked(cards@.filter(|s: (&str, u32)| covered(*c, s.0@))),
        listed(r.missing@) == named_copies(
            cards@.filter(|s: (&str, u32)| !covered(*c, s.0@)),
        ),
{
    let ghost yes = |s: (&str, u32)| covered(*c, s.0@);
    let ghost no = |s: (&str, u32)| !covered(*c, s.0@);
    let mut ok: u32 = 0;
    let mut total: u32 = 0;
    let mut missing: Vec<(String, u32)> = Vec::new();
    let mut i: usize = 0;
    proof {
        reveal(Seq::filter);
        assert(cards@.take(0).filter(yes) =~= seq![]);
        assert(listed(missing@) =~= named_copies(cards@.take(0).filter(no)));
    }
    while i < cards.len()
        invariant
            c.wf(),
            asked(cards@) <= u32::MAX,
            yes == (|s: (&str, u32)| covered(*c, s.0@)),
            no == (|s: (&str, u32)| !covered(*c, s.0@)),
            i <= cards@.len(),
            ok <= total,
            total == asked(cards@.take(i as int)),
            ok == asked(cards@.take(i as int).filter(yes)),
            listed(missing@) == named_copies(cards@.take(i as int).filter(no)),
        decreases cards.len() - i,
    {
        let (name, n) = cards[i];
        let ghost now = cards@.take(i + 1);
        let ghost before = missing@;
        proof {
            reveal(Seq::filter);
            assert(now.drop_last() =~= cards@.take(i as int));
            lemma_asked_prefix(cards@, i + 1);
            let f = cards@.take(i as int).filter(yes);
            assert(f.push(now.last()).drop_last() =~= f);
        }
        total = total + n;
        if is_covered(c, name) {
            ok = ok + n;
        } else {
            missing.push((name.to_string(), n));
            proof {
                assert(listed(missing@) =~= listed(before).push((name@, n)));
                let f = cards@.take(i as int).filter(no);
                assert(named_copies(f.push(now.last())) =~= named_copies(f).push((name@, n)));
            }
        }
        i += 1;
    }
    proof {
        assert(cards@.take(i as int) =~= cards@);
    }
    SlotReport { ok, total, missing }
}

proof fn lemma_asked_prefix(cards: Seq<(&str, u32)>, n: int)
    requires
        0 <= n <= cards.len(),
    ensures
        asked(cards.take(n)) <= asked(cards),
    decreases cards.len() - n,
{
    if n < cards.len() {
        lemma_asked_prefix(cards, n + 1);
        assert(cards.take(n + 1).drop_last() =~= cards.take(n));
    } else {
        assert(cards.take(n) =~= cards);
    }
}

} // verus!
