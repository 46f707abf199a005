//! A deck code read against the card table.

use vstd::prelude::*;
use vstd::string::StringExecFns;

use super::code::{Decoded, DecodedView};
use super::{decode, encode, CodeError};
use crate::cards::behaviour::is_implemented;
use crate::cards::corpus::Corpus;
use crate::cards::lookup::{by_dbf, by_name};
use crate::cards::types::{CardId, Class, Formats, PLAYABLE_CLASSES};
use crate::order::sorted;
use crate::text::str_eq;

pub mod laws;

verus! {

/// A deck code read against the card table.
///
/// The four ways a slot can fail are kept apart on purpose, because they are
/// four different answers to "why can't you simulate my deck":
///
/// * `unimplemented` — a real card in this format that the engine does not
///   understand yet. The honest response is to name it and stop, never to
///   play the deck without it.
/// * `illegal` — a card the engine knows, in a format it is not legal in.
/// * `missing` — a dbf id that is in no corpus at all: a code from a newer
///   patch than the card table.
/// * `not_deckable` — a dbf id for something that cannot go in a deck.
#[derive(Clone, Debug)]
pub struct Resolved {
    pub class: Class,
    /// The pool the code asked for, `None` when its format byte names one we
    /// cannot build (Twist, Classic, unknown).
    pub format: Option<Formats>,
    /// `(name, copies)`, sorted by name, sideboard folded in.
    pub cards: Vec<(&'static str, u32)>,
    /// The deck as card ids, `copies` entries each. Empty unless the deck is
    /// [`playable`](Resolved::playable).
    pub ids: Vec<CardId>,
    pub unimplemented: Vec<&'static str>,
    pub illegal: Vec<&'static str>,
    pub missing: Vec<u32>,
    pub not_deckable: Vec<&'static str>,
}

/// The copies of a list in total.
pub open spec fn copies(cards: Seq<(&'static str, u32)>) -> nat
    decreases cards.len(),
{
    if cards.len() == 0 {
        0
    } else {
        copies(cards.drop_last()) + cards.last().1 as nat
    }
}

impl Resolved {
    pub open spec fn is_playable(self) -> bool {
        &&& self.unimplemented@.len() == 0
        &&& self.illegal@.len() == 0
        &&& self.missing@.len() == 0
        &&& self.not_deckable@.len() == 0
    }

    /// Whether the engine can field this list as it stands.
    pub fn playable(&self) -> (r: bool)
        ensures
            r == self.is_playable(),
    {
        self.unimplemented.len() == 0 && self.illegal.len() == 0 && self.missing.len() == 0
            && self.not_deckable.len() == 0
    }

    /// Copies requested in total.
    pub fn total(&self) -> (r: u32)
        requires
            copies(self.cards@) <= u32::MAX,
        ensures
            r == copies(self.cards@),
    {
        let mut n: u32 = 0;
        let mut i: usize = 0;
        while i < self.cards.len()
            invariant
                i <= self.cards@.len(),
                copies(self.cards@) <= u32::MAX,
                n == copies(self.cards@.take(i as int)),
            decreases self.cards.len() - i,
        {
            proof {
                assert(self.cards@.take(i + 1).drop_last() =~= self.cards@.take(i as int));
                lemma_copies_prefix(self.cards@, i + 1);
            }
            n = n + self.cards[i].1;
            i += 1;
        }
        proof {
            assert(self.cards@.take(i as int) =~= self.cards@);
        }
        n
    }
}

proof fn lemma_copies_prefix(cards: Seq<(&'static str, u32)>, n: int)
    requires
        0 <= n <= cards.len(),
    ensures
        copies(cards.take(n)) <= copies(cards),
    decreases cards.len() - n,
{
    if n < cards.len() {
        lemma_copies_prefix(cards, n + 1);
        assert(cards.take(n + 1).drop_last() =~= cards.take(n));
    } else {
        assert(cards.take(n) =~= cards);
    }
}

/// Why a code could not be resolved at all — as opposed to resolving into a
/// deck with problems, which [`Resolved`] describes.
#[derive(Clone, Copy, PartialEq, Eq, Debug, Structural)]
pub enum ResolveError {
    Code(CodeError),
    /// Neither the hero nor any card in the list names a class.
    NoClass,
}

impl ResolveError {
    pub open spec fn key(self) -> Seq<char> {
        match self {
            ResolveError::Code(e) => e.key(),
            ResolveError::NoClass => "no_class"@,
        }
    }

    /// A stable key for the problem — see [`CodeError::code`].
    pub fn code(self) -> (r: &'static str)
        ensures
            r@ == self.key(),
    {
        match self {
            ResolveError::Code(e) => e.code(),
            ResolveError::NoClass => "no_class",
        }
    }

    /// The problem in English, as a log or a command line prints it.
    pub open spec fn sentence(self) -> Seq<char> {
        match self {
            ResolveError::Code(e) => "invalid deck code: "@ + e.sentence(),
            ResolveError::NoClass => "cannot tell which class this deck is"@,
        }
    }

    /// The problem in English.
    pub fn message(self) -> (r: String)
        ensures
            r@ == self.sentence(),
    {
        match self {
            ResolveError::Code(e) => {
                let mut out = "invalid deck code: ".to_string();
                out.append(e.message());
                out
            },
            ResolveError::NoClass => "cannot tell which class this deck is".to_string(),
        }
    }
}

pub open spec fn format_named(format_byte: u32) -> Option<Formats> {
    if format_byte == 1 {
        Some(Formats(Formats::WILD))
    } else if format_byte == 2 {
        Some(Formats(Formats::STANDARD))
    } else {
        None
    }
}

/// The `standard` / `wild` pool a deck code's format byte names, if it names
/// one we can build. 0 (unknown), 3 (the retired Classic format) and 4 (Twist,
/// a seasonal pool that cannot be derived from set codes) name none.
pub fn format_of(format_byte: u32) -> (r: Option<Formats>)
    ensures
        r == format_named(format_byte),
{
    match format_byte {
        1 => Some(Formats(Formats::WILD)),
        2 => Some(Formats(Formats::STANDARD)),
        _ => None,
    }
}

// ------------------------------------------------------------------ slots

pub open spec fn has_dbf(c: Corpus, card: CardId, dbf: u32) -> bool {
    c.has(card) && c.info_of(card).dbf == dbf
}

/// The card with this dbf id.
pub open spec fn card_of(c: Corpus, dbf: u32) -> Option<CardId> {
    if exists|card: CardId| #[trigger] has_dbf(c, card, dbf) {
        Some(choose|card: CardId| #[trigger] has_dbf(c, card, dbf))
    } else {
        None
    }
}

/// The class a deck's hero names, unless it names none.
pub open spec fn hero_class(c: Corpus, heroes: Seq<u32>) -> Option<Class> {
    if heroes.len() == 0 {
        None
    } else {
        match card_of(c, heroes[0]) {
            None => None,
            Some(card) => if c.def_of(card).class_of() == Class::Neutral {
                None
            } else {
                Some(c.def_of(card).class_of())
            },
        }
    }
}

/// Whether a slot holds Commander Beatrix.
pub open spec fn is_beatrix(c: Corpus, dbf: u32) -> bool {
    card_of(c, dbf) matches Some(card) && c.name_of(card) == "Commander Beatrix"@
}

/// Beatrix runs her sideboard as ten copies of one card.
pub open spec fn with_beatrix(c: Corpus, cards: Seq<(u32, u32)>) -> bool {
    exists|i: int| 0 <= i < cards.len() && is_beatrix(c, (#[trigger] cards[i]).0)
}

/// Every slot of a deck, its sideboard after the rest.
pub open spec fn slots(c: Corpus, d: DecodedView) -> Seq<(u32, u32)> {
    let ten = with_beatrix(c, d.cards);
    d.cards + d.sideboards.map_values(
        |s: (u32, u32, u32)|
            (
                s.0,
                if ten {
                    10u32
                } else {
                    s.1
                },
            ),
    )
}

/// Whether a slot holds a card that can go in a deck.
pub open spec fn usable(c: Corpus, dbf: u32) -> bool {
    card_of(c, dbf) matches Some(card) && c.def_of(card).is_deckable()
}

/// The dbf ids that are in no corpus at all.
pub open spec fn missing(c: Corpus, slots: Seq<(u32, u32)>) -> Seq<u32> {
    slots.filter(|s: (u32, u32)| card_of(c, s.0) is None).map_values(|s: (u32, u32)| s.0)
}

/// Whether a slot holds something that cannot go in a deck.
pub open spec fn is_not_deckable(c: Corpus, dbf: u32) -> bool {
    card_of(c, dbf) matches Some(card) && !c.def_of(card).is_deckable()
}

/// Whether a slot holds a card the engine does not understand yet.
pub open spec fn is_unimplemented(c: Corpus, dbf: u32) -> bool {
    usable(c, dbf) && !crate::cards::behaviour::implemented(c, card_of(c, dbf)->Some_0)
}

/// Whether a slot holds a card that is not legal in the format.
pub open spec fn is_illegal(c: Corpus, format: Option<Formats>, dbf: u32) -> bool {
    &&& usable(c, dbf)
    &&& format matches Some(f) && !c.def_of(card_of(c, dbf)->Some_0).formats.includes(f)
}

/// The slots that can go in a deck, as `(name, copies)`.
pub open spec fn lines(c: Corpus, slots: Seq<(u32, u32)>) -> Seq<(&'static str, u32)> {
    slots.filter(|s: (u32, u32)| usable(c, s.0)).map_values(
        |s: (u32, u32)| (c.info_of(card_of(c, s.0)->Some_0).name, s.1),
    )
}

/// What can be said against a slot whose card the corpus knows.
#[derive(Clone, Copy, PartialEq, Eq, Debug, Structural)]
pub enum Fault {
    NotDeckable,
    Unimplemented,
    Illegal,
}

/// Whether a slot has a fault.
pub open spec fn faulty(c: Corpus, format: Option<Formats>, fault: Fault, dbf: u32) -> bool {
    match fault {
        Fault::NotDeckable => is_not_deckable(c, dbf),
        Fault::Unimplemented => is_unimplemented(c, dbf),
        Fault::Illegal => is_illegal(c, format, dbf),
    }
}

/// Whether a slot of this name has a fault.
pub open spec fn faulted(
    c: Corpus,
    slots: Seq<(u32, u32)>,
    format: Option<Formats>,
    fault: Fault,
    name: Seq<char>,
) -> bool {
    exists|i: int|
        0 <= i < slots.len() && faulty(c, format, fault, (#[trigger] slots[i]).0) && c.name_of(
            card_of(c, slots[i].0)->Some_0,
        ) == name
}

/// Each name once, in ascending order.
pub open spec fn ascends(list: Seq<&'static str>) -> bool {
    forall|i: int, j: int|
        0 <= i < j < list.len() ==> crate::text::str_le((#[trigger] list[i])@, (#[trigger] list[j])@)
            && list[i]@ != list[j]@
}

/// A list of exactly the names of the slots that have a fault, each once, in
/// ascending order.
pub open spec fn reports(
    list: Seq<&'static str>,
    c: Corpus,
    slots: Seq<(u32, u32)>,
    format: Option<Formats>,
    fault: Fault,
) -> bool {
    &&& ascends(list)
    &&& forall|name: Seq<char>|
        crate::cards::approximate::holds_str(list, name) <==> #[trigger] faulted(
            c,
            slots,
            format,
            fault,
            name,
        )
}

// ------------------------------------------------------------------ class

/// The copies a class has among the slots that can go in a deck.
pub open spec fn votes(c: Corpus, slots: Seq<(u32, u32)>, class: Class) -> nat
    decreases slots.len(),
{
    if slots.len() == 0 {
        0
    } else {
        let s = slots.last();
        votes(c, slots.drop_last(), class) + if usable(c, s.0) && c.def_of(
            card_of(c, s.0)->Some_0,
        ).class_of() == class {
            s.1 as nat
        } else {
            0
        }
    }
}

/// Whether the `i`th class has the most copies, and more than any after it.
pub open spec fn elected(c: Corpus, slots: Seq<(u32, u32)>, i: int) -> bool {
    &&& 0 <= i < PLAYABLE_CLASSES@.len()
    &&& votes(c, slots, PLAYABLE_CLASSES@[i]) > 0
    &&& forall|j: int|
        0 <= j < PLAYABLE_CLASSES@.len() ==> votes(c, slots, #[trigger] PLAYABLE_CLASSES@[j]) <= votes(
            c,
            slots,
            PLAYABLE_CLASSES@[i],
        )
    &&& forall|j: int|
        i < j < PLAYABLE_CLASSES@.len() ==> votes(c, slots, #[trigger] PLAYABLE_CLASSES@[j]) < votes(
            c,
            slots,
            PLAYABLE_CLASSES@[i],
        )
}

/// Whether no playable class has a card.
pub open spec fn nobody(c: Corpus, slots: Seq<(u32, u32)>) -> bool {
    forall|j: int|
        0 <= j < PLAYABLE_CLASSES@.len() ==> votes(c, slots, #[trigger] PLAYABLE_CLASSES@[j]) == 0
}

/// The class of a deck: its hero's, or else the winner of a vote among its
/// own class cards.
pub open spec fn is_class(c: Corpus, d: DecodedView, class: Class) -> bool {
    match hero_class(c, d.heroes) {
        Some(k) => class == k,
        None => exists|i: int| #[trigger]
            elected(c, slots(c, d), i) && class == PLAYABLE_CLASSES@[i],
    }
}

// -------------------------------------------------------------------- ids

/// The card a name means.
pub open spec fn named(c: Corpus, name: Seq<char>) -> CardId {
    choose|card: CardId| c.has(card) && #[trigger] crate::cards::lookup::means(c, name, card)
}

/// A list as card ids, one for each copy.
pub open spec fn expanded(c: Corpus, cards: Seq<(&'static str, u32)>) -> Seq<CardId>
    decreases cards.len(),
{
    if cards.len() == 0 {
        seq![]
    } else {
        expanded(c, cards.drop_last()) + Seq::new(
            cards.last().1 as nat,
            |i: int| named(c, cards.last().0@),
        )
    }
}

/// What a decoded deck resolves to.
pub open spec fn resolves(c: Corpus, d: DecodedView, r: Result<Resolved, ResolveError>) -> bool {
    let s = slots(c, d);
    let format = format_named(d.format);
    match r {
        Err(e) => e == ResolveError::NoClass && hero_class(c, d.heroes) is None && nobody(c, s),
        Ok(r) => {
            &&& is_class(c, d, r.class)
            &&& r.format == format
            &&& crate::order::keys(r.cards@) == crate::order::sorted_keys(lines(c, s))
            &&& r.cards@.to_multiset() == lines(c, s).to_multiset()
            &&& r.missing@ == missing(c, s)
            &&& reports(r.not_deckable@, c, s, format, Fault::NotDeckable)
            &&& reports(r.unimplemented@, c, s, format, Fault::Unimplemented)
            &&& reports(r.illegal@, c, s, format, Fault::Illegal)
            &&& r.ids@ == if r.is_playable() {
                expanded(c, r.cards@)
            } else {
                seq![]
            }
        },
    }
}

// -------------------------------------------------------------- executable

/// The card with this dbf id.
fn lookup(c: &Corpus, dbf: u32) -> (r: Option<CardId>)
    requires
        c.wf(),
    ensures
        r == card_of(*c, dbf),
        r matches Some(card) ==> c.has(card),
{
    let r = by_dbf(c, dbf);
    proof {
        match r {
            Some(card) => {
                assert(has_dbf(*c, card, dbf));
                let other = choose|other: CardId| #[trigger] has_dbf(*c, other, dbf);
                assert(c.info_of(other).dbf == dbf);
            },
            None => {
                assert forall|card: CardId| !#[trigger] has_dbf(*c, card, dbf) by {
                    if has_dbf(*c, card, dbf) {
                        assert(c.info_of(card).dbf != dbf);
                    }
                }
            },
        }
    }
    r
}

fn beatrix(c: &Corpus, cards: &Vec<(u32, u32)>) -> (r: bool)
    requires
        c.wf(),
    ensures
        r == with_beatrix(*c, cards@),
{
    let mut i: usize = 0;
    while i < cards.len()
        invariant
            c.wf(),
            i <= cards@.len(),
            forall|k: int| 0 <= k < i ==> !is_beatrix(*c, (#[trigger] cards@[k]).0),
        decreases cards.len() - i,
    {
        if let Some(card) = lookup(c, cards[i].0) {
            if str_eq(card.name(c), "Commander Beatrix") {
                assert(is_beatrix(*c, cards@[i as int].0));
                return true;
            }
        }
        i += 1;
    }
    false
}

fn slots_of(c: &Corpus, d: &Decoded) -> (r: Vec<(u32, u32)>)
    requires
        c.wf(),
    ensures
        r@ == slots(*c, d@),
{
    // The count in the code is 1, and the deck the simulator has to field is
    // the other one.
    let ten = beatrix(c, &d.cards);
    let mut out: Vec<(u32, u32)> = Vec::new();
    let mut i: usize = 0;
    while i < d.cards.len()
        invariant
            i <= d.cards@.len(),
            out@ == d.cards@.take(i as int),
        decreases d.cards.len() - i,
    {
        out.push(d.cards[i]);
        proof {
            assert(out@ =~= d.cards@.take(i + 1));
        }
        i += 1;
    }
    proof {
        assert(out@ =~= d.cards@);
    }
    let mut j: usize = 0;
    while j < d.sideboards.len()
        invariant
            j <= d.sideboards@.len(),
            ten == with_beatrix(*c, d.cards@),
            out@.len() == d.cards@.len() + j,
            forall|k: int| 0 <= k < out@.len() ==> #[trigger] out@[k] == slots(*c, d@)[k],
        decreases d.sideboards.len() - j,
    {
        let (dbf, n, _) = d.sideboards[j];
        out.push((dbf, if ten { 10 } else { n }));
        j += 1;
    }
    proof {
        assert(out@ =~= slots(*c, d@));
    }
    out
}

fn count_votes(c: &Corpus, slots: &Vec<(u32, u32)>, class: Class) -> (r: u128)
    requires
        c.wf(),
    ensures
        r == votes(*c, slots@, class),
{
    let mut n: u128 = 0;
    let mut i: usize = 0;
    while i < slots.len()
        invariant
            c.wf(),
            i <= slots@.len(),
            n <= i * u32::MAX,
            n == votes(*c, slots@.take(i as int), class),
        decreases slots.len() - i,
    {
        let (dbf, k) = slots[i];
        proof {
            assert(slots@.take(i + 1).drop_last() =~= slots@.take(i as int));
            assert(i * u32::MAX <= usize::MAX * u32::MAX) by (nonlinear_arith)
                requires
                    0 <= i <= usize::MAX,
            ;
            assert((i + 1) * u32::MAX == i * u32::MAX + u32::MAX) by (nonlinear_arith);
            assert(usize::MAX * u32::MAX + u32::MAX <= u128::MAX) by (nonlinear_arith)
                requires
                    usize::MAX <= u64::MAX,
            ;
        }
        if let Some(card) = lookup(c, dbf) {
            let d = card.def(c);
            if d.deckable() && d.class() == class {
                n = n + k as u128;
            }
        }
        i += 1;
    }
    proof {
        assert(slots@.take(i as int) =~= slots@);
    }
    n
}

/// The class with the most copies, the last of equals.
fn elect(c: &Corpus, slots: &Vec<(u32, u32)>) -> (r: Option<Class>)
    requires
        c.wf(),
    ensures
        match r {
            Some(class) => exists|i: int| #[trigger]
                elected(*c, slots@, i) && class == PLAYABLE_CLASSES@[i],
            None => nobody(*c, slots@),
        },
{
    let mut best: u128 = 0;
    let mut at: usize = 0;
    let mut j: usize = 0;
    while j < 11
        invariant
            c.wf(),
            j <= 11,
            at <= 11,
            best == 0 ==> forall|k: int|
                0 <= k < j ==> votes(*c, slots@, #[trigger] PLAYABLE_CLASSES@[k]) == 0,
            best > 0 ==> at < j && best == votes(*c, slots@, PLAYABLE_CLASSES@[at as int]),
            best > 0 ==> forall|k: int|
                0 <= k < j ==> votes(*c, slots@, #[trigger] PLAYABLE_CLASSES@[k]) <= best,
            best > 0 ==> forall|k: int|
                at < k < j ==> votes(*c, slots@, #[trigger] PLAYABLE_CLASSES@[k]) < best,
        decreases 11 - j,
    {
        let n: u128 = count_votes(c, slots, PLAYABLE_CLASSES[j]);
        if n > 0 && n >= best {
            best = n;
            at = j;
        }
        j += 1;
    }
    if best > 0 {
        proof {
            assert(elected(*c, slots@, at as int));
        }
        Some(PLAYABLE_CLASSES[at])
    } else {
        None
    }
}

fn missing_of(c: &Corpus, slots: &Vec<(u32, u32)>) -> (r: Vec<u32>)
    requires
        c.wf(),
    ensures
        r@ == missing(*c, slots@),
{
    let ghost keep = |s: (u32, u32)| card_of(*c, s.0) is None;
    let ghost first = |s: (u32, u32)| s.0;
    let mut out: Vec<u32> = Vec::new();
    let mut i: usize = 0;
    proof {
        reveal(Seq::filter);
        assert(slots@.take(0).filter(keep).map_values(first) =~= seq![]);
    }
    while i < slots.len()
        invariant
            c.wf(),
            i <= slots@.len(),
            keep == (|s: (u32, u32)| card_of(*c, s.0) is None),
            first == (|s: (u32, u32)| s.0),
            out@ == slots@.take(i as int).filter(keep).map_values(first),
        decreases slots.len() - i,
    {
        proof {
            reveal(Seq::filter);
            assert(slots@.take(i + 1).drop_last() =~= slots@.take(i as int));
        }
        let dbf: u32 = slots[i].0;
        if lookup(c, dbf).is_none() {
            out.push(dbf);
        }
        proof {
            assert(out@ =~= slots@.take(i + 1).filter(keep).map_values(first));
        }
        i += 1;
    }
    proof {
        assert(slots@.take(i as int) =~= slots@);
    }
    out
}

fn lines_of(c: &Corpus, slots: &Vec<(u32, u32)>) -> (r: Vec<(&'static str, u32)>)
    requires
        c.wf(),
    ensures
        r@ == lines(*c, slots@),
{
    let ghost keep = |s: (u32, u32)| usable(*c, s.0);
    let ghost line = |s: (u32, u32)| (c.info_of(card_of(*c, s.0)->Some_0).name, s.1);
    let mut out: Vec<(&'static str, u32)> = Vec::new();
    let mut i: usize = 0;
    proof {
        reveal(Seq::filter);
        assert(slots@.take(0).filter(keep).map_values(line) =~= seq![]);
    }
    while i < slots.len()
        invariant
            c.wf(),
            i <= slots@.len(),
            keep == (|s: (u32, u32)| usable(*c, s.0)),
            line == (|s: (u32, u32)| (c.info_of(card_of(*c, s.0)->Some_0).name, s.1)),
            out@ == slots@.take(i as int).filter(keep).map_values(line),
        decreases slots.len() - i,
    {
        proof {
            reveal(Seq::filter);
            assert(slots@.take(i + 1).drop_last() =~= slots@.take(i as int));
        }
        let (dbf, n) = slots[i];
        if let Some(card) = lookup(c, dbf) {
            if card.def(c).deckable() {
                out.push((card.name(c), n));
            }
        }
        proof {
            assert(out@ =~= slots@.take(i + 1).filter(keep).map_values(line));
        }
        i += 1;
    }
    proof {
        assert(slots@.take(i as int) =~= slots@);
    }
    out
}

/// Whether a slot's card has a fault.
fn has_fault(c: &Corpus, format: Option<Formats>, fault: Fault, card: CardId) -> (r: bool)
    requires
        c.wf(),
        c.has(card),
    ensures
        forall|dbf: u32| #[trigger] card_of(*c, dbf) == Some(card) ==> r == faulty(*c, format, fault, dbf),
{
    let d = card.def(c);
    match fault {
        Fault::NotDeckable => !d.deckable(),
        Fault::Unimplemented => d.deckable() && !is_implemented(c, card),
        Fault::Illegal => d.deckable() && match format {
            Some(f) => !d.formats.has(f),
            None => false,
        },
    }
}

fn faults_of(c: &Corpus, slots: &Vec<(u32, u32)>, format: Option<Formats>, fault: Fault) -> (r: Vec<&'static str>)
    requires
        c.wf(),
    ensures
        reports(r@, *c, slots@, format, fault),
{
    let mut out: Vec<&'static str> = Vec::new();
    let mut i: usize = 0;
    while i < slots.len()
        invariant
            c.wf(),
            i <= slots@.len(),
            forall|name: Seq<char>|
                crate::cards::approximate::holds_str(out@, name) <==> #[trigger] faulted(
                    *c,
                    slots@.take(i as int),
                    format,
                    fault,
                    name,
                ),
        decreases slots.len() - i,
    {
        let ghost before = out@;
        let ghost done = slots@.take(i as int);
        let ghost now = slots@.take(i + 1);
        let dbf: u32 = slots[i].0;
        let mut hit: Option<&'static str> = None;
        if let Some(card) = lookup(c, dbf) {
            if has_fault(c, format, fault, card) {
                hit = Some(card.name(c));
            }
        }
        if let Some(name) = hit {
            out.push(name);
        }
        proof {
            assert(now =~= done.push(slots@[i as int]));
            assert(hit is Some <==> faulty(*c, format, fault, dbf));
            assert forall|name: Seq<char>|
                crate::cards::approximate::holds_str(out@, name) <==> #[trigger] faulted(
                    *c,
                    now,
                    format,
                    fault,
                    name,
                ) by {
                if crate::cards::approximate::holds_str(out@, name) {
                    let k = choose|k: int| 0 <= k < out@.len() && (#[trigger] out@[k])@ == name;
                    if k < before.len() {
                        assert(before[k]@ == name);
                        assert(crate::cards::approximate::holds_str(before, name));
                        assert(faulted(*c, done, format, fault, name));
                        let m = choose|m: int|
                            0 <= m < done.len() && faulty(*c, format, fault, (#[trigger] done[m]).0)
                                && c.name_of(card_of(*c, done[m].0)->Some_0) == name;
                        assert(now[m] == done[m]);
                    } else {
                        assert(now[i as int].0 == dbf);
                    }
                }
                if faulted(*c, now, format, fault, name) {
                    let m = choose|m: int|
                        0 <= m < now.len() && faulty(*c, format, fault, (#[trigger] now[m]).0)
                            && c.name_of(card_of(*c, now[m].0)->Some_0) == name;
                    if m < i {
                        assert(done[m] == now[m]);
                        assert(faulted(*c, done, format, fault, name));
                        let k = choose|k: int| 0 <= k < before.len() && (#[trigger] before[k])@ == name;
                        assert(out@[k]@ == name);
                    } else {
                        assert(out@[before.len() as int]@ == name);
                    }
                }
            }
        }
        i += 1;
    }
    proof {
        assert(slots@.take(i as int) =~= slots@);
    }
    dedup_sorted(&out)
}

/// Each string of a list once, sorted.
pub fn dedup_sorted(v: &Vec<&'static str>) -> (r: Vec<&'static str>)
    ensures
        ascends(r@),
        forall|name: Seq<char>|
            #[trigger] crate::cards::approximate::holds_str(r@, name)
                <==> crate::cards::approximate::holds_str(v@, name),
{
    let s = sorted(v);
    let mut out: Vec<&'static str> = Vec::new();
    let mut i: usize = 0;
    let ghost le = crate::order::key_order::<&'static str>();
    proof {
        <&'static str as crate::order::Ordered>::key_order_is_total();
        crate::order::keys(v@).lemma_sort_by_ensures(le);
    }
    while i < s.len()
        invariant
            i <= s@.len(),
            le == crate::order::key_order::<&'static str>(),
            vstd::relations::total_ordering(le),
            vstd::relations::sorted_by(crate::order::keys(s@), le),
            i > 0 ==> out@.len() > 0 && out@.last()@ == s@[i - 1]@,
            i == 0 ==> out@.len() == 0,
            ascends(out@),
            forall|k: int| 0 <= k < i ==> crate::cards::approximate::holds_str(out@, (#[trigger] s@[k])@),
            forall|k: int|
                0 <= k < out@.len() ==> crate::cards::approximate::holds_str(s@, (#[trigger] out@[k])@),
        decreases s.len() - i,
    {
        let x: &'static str = s[i];
        let n: usize = out.len();
        let ghost before = out@;
        if n == 0 || !str_eq(out[n - 1], x) {
            out.push(x);
            proof {
                assert(s@[i as int]@ == x@);
                assert(crate::cards::approximate::holds_str(s@, x@));
                assert forall|a: int, b: int| 0 <= a < b < out@.len() implies crate::text::str_le(
                    (#[trigger] out@[a])@,
                    (#[trigger] out@[b])@,
                ) && out@[a]@ != out@[b]@ by {
                    if b == n {
                        let last = before[n - 1]@;
                        let ks = crate::order::keys(s@);
                        assert(ks[i - 1] == last && ks[i as int] == x@);
                        assert(le(ks[i - 1], ks[i as int]));
                        if a < n - 1 {
                            assert(le(before[a]@, last));
                            assert(le(last, x@));
                            assert(le(before[a]@, x@));
                            if before[a]@ == x@ {
                                assert(le(last, before[a]@));
                            }
                        }
                    }
                }
            }
        }
        proof {
            assert(out@.last()@ == x@);
            assert forall|k: int| 0 <= k < i + 1 implies crate::cards::approximate::holds_str(
                out@,
                (#[trigger] s@[k])@,
            ) by {
                if k < i {
                    let m = choose|m: int| 0 <= m < before.len() && (#[trigger] before[m])@ == s@[k]@;
                    assert(out@[m]@ == s@[k]@);
                } else {
                    assert(out@[out@.len() - 1]@ == x@);
                }
            }
        }
        i += 1;
    }
    proof {
        broadcast use vstd::seq_lib::group_to_multiset_ensures;

        assert forall|name: Seq<char>|
            #[trigger] crate::cards::approximate::holds_str(out@, name)
                <==> crate::cards::approximate::holds_str(v@, name) by {
            if crate::cards::approximate::holds_str(out@, name) {
                let k = choose|k: int| 0 <= k < out@.len() && (#[trigger] out@[k])@ == name;
                assert(crate::cards::approximate::holds_str(s@, name));
                let m = choose|m: int| 0 <= m < s@.len() && (#[trigger] s@[m])@ == name;
                assert(s@.contains(s@[m]));
                assert(s@.to_multiset().count(s@[m]) > 0);
                assert(v@.contains(s@[m]));
                let w = choose|w: int| 0 <= w < v@.len() && v@[w] == s@[m];
                assert(v@[w]@ == name);
            }
            if crate::cards::approximate::holds_str(v@, name) {
                let k = choose|k: int| 0 <= k < v@.len() && (#[trigger] v@[k])@ == name;
                assert(v@.contains(v@[k]));
                assert(v@.to_multiset().count(v@[k]) > 0);
                assert(s@.contains(v@[k]));
                let m = choose|m: int| 0 <= m < s@.len() && s@[m] == v@[k];
                assert(crate::cards::approximate::holds_str(out@, s@[m]@));
            }
        }
    }
    out
}

/// Whether a card has this name.
pub open spec fn is_a_name(c: Corpus, name: Seq<char>) -> bool {
    exists|card: CardId| c.has(card) && #[trigger] c.name_of(card) == name
}

/// A list as card ids, one for each copy.
fn expand(c: &Corpus, cards: &Vec<(&'static str, u32)>) -> (r: Vec<CardId>)
    requires
        c.wf(),
        forall|i: int| 0 <= i < cards@.len() ==> is_a_name(*c, (#[trigger] cards@[i]).0@),
    ensures
        r@ == expanded(*c, cards@),
{
    let mut out: Vec<CardId> = Vec::new();
    let mut i: usize = 0;
    while i < cards.len()
        invariant
            c.wf(),
            forall|i: int| 0 <= i < cards@.len() ==> is_a_name(*c, (#[trigger] cards@[i]).0@),
            i <= cards@.len(),
            out@ == expanded(*c, cards@.take(i as int)),
        decreases cards.len() - i,
    {
        let (name, n) = cards[i];
        let ghost before = out@;
        proof {
            assert(cards@.take(i + 1).drop_last() =~= cards@.take(i as int));
            assert(cards@[i as int].0@ == name@);
        }
        if let Some(id) = by_name(c, name) {
            proof {
                let other = named(*c, name@);
                assert(c.has(other) && crate::cards::lookup::means(*c, name@, other));
                crate::cards::lookup::lemma_means(*c, name@, other, id);
                assert(other == id);
            }
            let mut k: u32 = 0;
            while k < n
                invariant
                    k <= n,
                    out@ == before + Seq::new(k as nat, |j: int| id),
                decreases n - k,
            {
                out.push(id);
                proof {
                    assert(out@ =~= before + Seq::new((k + 1) as nat, |j: int| id));
                }
                k += 1;
            }
            proof {
                assert(out@ =~= before + Seq::new(n as nat, |j: int| named(*c, name@)));
            }
        } else {
            proof {
                let card = choose|card: CardId|
                    c.has(card) && #[trigger] c.name_of(card) == cards@[i as int].0@;
                assert(c.name_of(card) == name@);
                assert(false);
            }
        }
        i += 1;
    }
    proof {
        assert(cards@.take(i as int) =~= cards@);
    }
    out
}

proof fn lemma_lines_are_cards(c: Corpus, slots: Seq<(u32, u32)>, cards: Seq<(&'static str, u32)>)
    requires
        c.wf(),
        cards.to_multiset() == lines(c, slots).to_multiset(),
    ensures
        forall|i: int| 0 <= i < cards.len() ==> is_a_name(c, (#[trigger] cards[i]).0@),
{
    broadcast use vstd::seq_lib::group_to_multiset_ensures;

    let keep = |s: (u32, u32)| usable(c, s.0);
    let line = |s: (u32, u32)| (c.info_of(card_of(c, s.0)->Some_0).name, s.1);
    let l = lines(c, slots);
    assert forall|i: int| 0 <= i < cards.len() implies is_a_name(c, (#[trigger] cards[i]).0@) by {
        assert(cards.contains(cards[i]));
        assert(cards.to_multiset().count(cards[i]) > 0);
        assert(l.contains(cards[i]));
        let j = choose|j: int| 0 <= j < l.len() && l[j] == cards[i];
        let s = slots.filter(keep)[j];
        slots.lemma_filter_pred(keep, j);
        let card = card_of(c, s.0)->Some_0;
        assert(exists|k: CardId| #[trigger] has_dbf(c, k, s.0));
        assert(has_dbf(c, card, s.0));
        assert(l[j] == line(s));
        assert(c.name_of(card) == cards[i].0@);
    }
}

/// Read a decoded deck against the card table.
///
/// Never fails because of a card: an unknown, unimplemented or illegal slot
/// is *reported*, and the caller decides. Only a deck that names no class at
/// all is an error.
pub fn resolve_decoded(c: &Corpus, d: &Decoded) -> (r: Result<Resolved, ResolveError>)
    requires
        c.wf(),
    ensures
        resolves(*c, d@, r),
{
    let format = format_of(d.format);

    // The class comes from the hero portrait when it has one. A neutral or
    // unknown hero falls back to a vote among the deck's own class cards,
    // which is what a Whizbang or a hand-built code needs.
    let mut from_hero: Option<Class> = None;
    if d.heroes.len() > 0 {
        if let Some(card) = lookup(c, d.heroes[0]) {
            let class = card.def(c).class();
            if class != Class::Neutral {
                from_hero = Some(class);
            }
        }
    }
    let s = slots_of(c, d);
    let class = match from_hero {
        Some(class) => class,
        None => match elect(c, &s) {
            Some(class) => class,
            None => { return Err(ResolveError::NoClass); },
        },
    };
    let list = lines_of(c, &s);
    let cards = sorted(&list);
    let missing = missing_of(c, &s);
    let not_deckable = faults_of(c, &s, format, Fault::NotDeckable);
    let unimplemented = faults_of(c, &s, format, Fault::Unimplemented);
    let illegal = faults_of(c, &s, format, Fault::Illegal);
    let mut r = Resolved {
        class,
        format,
        cards,
        ids: Vec::new(),
        unimplemented,
        illegal,
        missing,
        not_deckable,
    };
    if r.playable() {
        proof {
            lemma_lines_are_cards(*c, s@, r.cards@);
        }
        r.ids = expand(c, &r.cards);
    }
    Ok(r)
}

/// Read a pasted deck code against the card table.
///
/// Only a code that will not decode or names no class at all is an error.
pub fn resolve(c: &Corpus, text: &str) -> (r: Result<Resolved, ResolveError>)
    requires
        c.wf(),
    ensures
        match super::paste::decoded_text(text@) {
            Err(e) => r == Err::<Resolved, ResolveError>(ResolveError::Code(e)),
            Ok(d) => resolves(*c, d, r),
        },
{
    match decode(text) {
        Err(e) => Err(ResolveError::Code(e)),
        Ok(d) => resolve_decoded(c, &d),
    }
}

// ----------------------------------------------------------------- encode

/// A list with one more copy of a card.
pub open spec fn bumped(list: Seq<(u32, u32)>, dbf: u32) -> Seq<(u32, u32)>
    decreases list.len(),
{
    if list.len() == 0 {
        seq![(dbf, 1u32)]
    } else if list[0].0 == dbf {
        seq![(dbf, (list[0].1 + 1) as u32)] + list.drop_first()
    } else {
        seq![list[0]] + bumped(list.drop_first(), dbf)
    }
}

/// Cards in the order of their first copies, with how many copies each has.
pub open spec fn tallied(dbfs: Seq<u32>) -> Seq<(u32, u32)>
    decreases dbfs.len(),
{
    if dbfs.len() == 0 {
        seq![]
    } else {
        bumped(tallied(dbfs.drop_last()), dbfs.last())
    }
}

/// The dbf ids of cards.
pub open spec fn dbfs(c: Corpus, ids: Seq<CardId>) -> Seq<u32> {
    ids.map_values(|id: CardId| c.info_of(id).dbf)
}

/// How many copies a tally gives a card.
pub open spec fn tally_of(list: Seq<(u32, u32)>, dbf: u32) -> nat
    decreases list.len(),
{
    if list.len() == 0 {
        0
    } else {
        tally_of(list.drop_first(), dbf) + if list[0].0 == dbf {
            list[0].1 as nat
        } else {
            0
        }
    }
}

/// Whether a list can be tallied: none of its cards has more copies than can
/// be counted.
pub open spec fn countable(dbfs: Seq<u32>) -> bool {
    dbfs.len() <= u32::MAX || forall|d: u32| #[trigger] dbfs.to_multiset().count(d) <= u32::MAX
}

proof fn lemma_count_within(ds: Seq<u32>, d: u32)
    ensures
        ds.to_multiset().count(d) <= ds.len(),
    decreases ds.len(),
{
    broadcast use vstd::seq_lib::group_to_multiset_ensures;

    if ds.len() == 0 {
        assert(ds.to_multiset() =~= vstd::multiset::Multiset::empty());
    } else {
        lemma_count_within(ds.drop_last(), d);
        vstd::seq_lib::to_multiset_build(ds.drop_last(), ds.last());
        assert(ds.drop_last().push(ds.last()) =~= ds);
    }
}

/// The first cards of a list that can be tallied can be.
proof fn lemma_countable_prefix(ds: Seq<u32>, n: int)
    requires
        countable(ds),
        0 <= n <= ds.len(),
    ensures
        countable(ds.take(n)),
        forall|d: u32| #[trigger] ds.take(n).to_multiset().count(d) <= u32::MAX,
{
    let (a, b) = (ds.take(n), ds.skip(n));
    assert(ds =~= a + b);
    vstd::seq_lib::lemma_multiset_commutative(a, b);
    assert forall|d: u32| #[trigger] a.to_multiset().count(d) <= u32::MAX by {
        lemma_count_within(a, d);
        assert(a.to_multiset().count(d) <= ds.to_multiset().count(d));
    }
}

proof fn lemma_entry_within(list: Seq<(u32, u32)>, i: int)
    requires
        0 <= i < list.len(),
    ensures
        list[i].1 <= tally_of(list, list[i].0),
    decreases list.len(),
{
    if i > 0 {
        lemma_entry_within(list.drop_first(), i - 1);
    }
}

proof fn lemma_bumped(list: Seq<(u32, u32)>, dbf: u32)
    requires
        forall|i: int| 0 <= i < list.len() ==> 0 < (#[trigger] list[i]).1,
        forall|i: int| 0 <= i < list.len() && (#[trigger] list[i]).0 == dbf ==> list[i].1 < u32::MAX,
    ensures
        forall|d: u32|
            #[trigger] tally_of(bumped(list, dbf), d) == tally_of(list, d) + if d == dbf {
                1nat
            } else {
                0
            },
        forall|i: int| 0 <= i < bumped(list, dbf).len() ==> 0 < (#[trigger] bumped(list, dbf)[i]).1,
    decreases list.len(),
{
    let b = bumped(list, dbf);
    if list.len() == 0 {
        assert(b.drop_first() =~= seq![]);
        assert forall|d: u32| #[trigger] tally_of(b, d) == if d == dbf { 1nat } else { 0 } by {
            assert(tally_of(b.drop_first(), d) == 0);
        }
    } else if list[0].0 == dbf {
        assert(b.drop_first() =~= list.drop_first());
        assert forall|d: u32|
            #[trigger] tally_of(b, d) == tally_of(list, d) + if d == dbf {
                1nat
            } else {
                0
            } by {
            assert(tally_of(b.drop_first(), d) == tally_of(list.drop_first(), d));
        }
    } else {
        lemma_bumped(list.drop_first(), dbf);
        assert(b.drop_first() =~= bumped(list.drop_first(), dbf));
        assert forall|d: u32|
            #[trigger] tally_of(b, d) == tally_of(list, d) + if d == dbf {
                1nat
            } else {
                0
            } by {
            assert(tally_of(bumped(list.drop_first(), dbf), d) == tally_of(list.drop_first(), d) + if d
                == dbf {
                1nat
            } else {
                0
            });
        }
        assert forall|i: int| 0 <= i < b.len() implies 0 < (#[trigger] b[i]).1 by {
            if i > 0 {
                assert(b[i] == bumped(list.drop_first(), dbf)[i - 1]);
            }
        }
    }
}

/// Collapsing a list keeps every card in its number of copies, and gives none
/// to any other.
pub proof fn lemma_tallied(ds: Seq<u32>)
    requires
        countable(ds),
    ensures
        forall|d: u32| #[trigger] tally_of(tallied(ds), d) == ds.to_multiset().count(d),
        forall|i: int| 0 <= i < tallied(ds).len() ==> 0 < (#[trigger] tallied(ds)[i]).1,
    decreases ds.len(),
{
    broadcast use vstd::seq_lib::group_to_multiset_ensures;

    if ds.len() == 0 {
        assert(ds.to_multiset() =~= vstd::multiset::Multiset::empty());
    } else {
        let rest = ds.drop_last();
        let list = tallied(rest);
        assert(rest =~= ds.take(ds.len() - 1));
        lemma_countable_prefix(ds, ds.len() - 1);
        lemma_countable_prefix(ds, ds.len() as int);
        assert(ds.take(ds.len() as int) =~= ds);
        lemma_tallied(rest);
        vstd::seq_lib::to_multiset_build(rest, ds.last());
        assert(rest.push(ds.last()) =~= ds);
        assert forall|i: int| 0 <= i < list.len() && (#[trigger] list[i]).0 == ds.last() implies list[i].1
            < u32::MAX by {
            lemma_entry_within(list, i);
            assert(tally_of(list, ds.last()) == rest.to_multiset().count(ds.last()));
            assert(ds.to_multiset().count(ds.last()) == rest.to_multiset().count(ds.last()) + 1);
        }
        lemma_bumped(list, ds.last());
        assert forall|d: u32| #[trigger] tally_of(tallied(ds), d) == ds.to_multiset().count(d) by {
            assert(tally_of(bumped(tallied(rest), ds.last()), d) == tally_of(tallied(rest), d) + if d
                == ds.last() {
                1nat
            } else {
                0
            });
        }
    }
}

/// There is room in a tally for the next copy of a list that can be tallied.
proof fn lemma_next_copy(ds: Seq<u32>, n: int)
    requires
        countable(ds),
        0 <= n < ds.len(),
    ensures
        forall|i: int|
            0 <= i < tallied(ds.take(n)).len() && (#[trigger] tallied(ds.take(n))[i]).0 == ds[n]
                ==> tallied(ds.take(n))[i].1 < u32::MAX,
{
    broadcast use vstd::seq_lib::group_to_multiset_ensures;

    let head = ds.take(n);
    let list = tallied(head);
    lemma_countable_prefix(ds, n);
    lemma_countable_prefix(ds, n + 1);
    lemma_tallied(head);
    vstd::seq_lib::to_multiset_build(head, ds[n]);
    assert(head.push(ds[n]) =~= ds.take(n + 1));
    assert forall|i: int| 0 <= i < list.len() && (#[trigger] list[i]).0 == ds[n] implies list[i].1
        < u32::MAX by {
        lemma_entry_within(list, i);
        assert(tally_of(list, ds[n]) == head.to_multiset().count(ds[n]));
        assert(ds.take(n + 1).to_multiset().count(ds[n]) == head.to_multiset().count(ds[n]) + 1);
    }
}

fn bump(list: &mut Vec<(u32, u32)>, dbf: u32)
    requires
        forall|i: int|
            0 <= i < old(list)@.len() && (#[trigger] old(list)@[i]).0 == dbf ==> old(list)@[i].1
                < u32::MAX,
    ensures
        final(list)@ == bumped(old(list)@, dbf),
{
    let ghost before = list@;
    let mut i: usize = 0;
    proof {
        assert(before.skip(0) =~= before);
        assert(before.take(0) + bumped(before, dbf) =~= bumped(before, dbf));
    }
    while i < list.len()
        invariant
            i <= list@.len(),
            list@ == before,
            before == old(list)@,
            forall|i: int|
                0 <= i < list@.len() && (#[trigger] list@[i]).0 == dbf ==> list@[i].1 < u32::MAX,
            bumped(before, dbf) == before.take(i as int) + bumped(before.skip(i as int), dbf),
        decreases list.len() - i,
    {
        let (d, n) = list[i];
        proof {
            assert(before.skip(i as int).drop_first() =~= before.skip(i + 1));
        }
        if d == dbf {
            list.set(i, (dbf, n + 1));
            proof {
                assert(list@ =~= before.take(i as int) + bumped(before.skip(i as int), dbf));
            }
            return ;
        }
        proof {
            assert(before.take(i + 1) =~= before.take(i as int) + seq![before[i as int]]);
            assert(before.take(i as int) + (seq![before[i as int]] + bumped(before.skip(i + 1), dbf))
                =~= before.take(i + 1) + bumped(before.skip(i + 1), dbf));
        }
        i += 1;
    }
    list.push((dbf, 1));
    proof {
        assert(before.take(i as int) =~= before);
        assert(before.skip(i as int) =~= seq![]);
        assert(list@ =~= before + seq![(dbf, 1u32)]);
    }
}

/// Collapse a list of card instances into `(dbfId, copies)` and encode it.
///
/// The optimizer works in ids, one entry per copy; a deck code talks in
/// counts. This is the bridge so a measured swap can be pasted back into
/// the game as a list.
pub fn encode_ids(c: &Corpus, hero_dbf: u32, ids: &[CardId], format_byte: u32) -> (r: String)
    requires
        c.wf(),
        forall|i: int| 0 <= i < ids@.len() ==> c.has(#[trigger] ids@[i]),
        countable(dbfs(*c, ids@)),
    ensures
        r@ == super::base64::encoded(
            super::code::code_bytes(hero_dbf, tallied(dbfs(*c, ids@)), format_byte),
        ),
{
    let mut cards: Vec<(u32, u32)> = Vec::new();
    let mut i: usize = 0;
    let ghost ds = dbfs(*c, ids@);
    while i < ids.len()
        invariant
            c.wf(),
            forall|i: int| 0 <= i < ids@.len() ==> c.has(#[trigger] ids@[i]),
            countable(ds),
            ds == dbfs(*c, ids@),
            i <= ids@.len(),
            cards@ == tallied(ds.take(i as int)),
        decreases ids.len() - i,
    {
        proof {
            assert(ds.take(i + 1).drop_last() =~= ds.take(i as int));
            lemma_next_copy(ds, i as int);
        }
        bump(&mut cards, ids[i].info(c).dbf);
        i += 1;
    }
    proof {
        assert(ds.take(i as int) =~= ds);
    }
    encode(hero_dbf, cards.as_slice(), format_byte)
}

} // verus!
