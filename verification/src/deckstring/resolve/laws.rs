//! What a deck code says of the cards of a table.

use vstd::prelude::*;

use super::super::code::DecodedView;
use super::{Fault, ResolveError, Resolved};
use crate::cards::behaviour::laws::{has_row, known_by_identity, says_it_all};
use crate::cards::corpus::Corpus;
use crate::cards::types::{CardDef, CardId, Class, Formats, PLAYABLE_CLASSES};

verus! {

/// The card of a number, as the table has it.
pub open spec fn printed(c: Corpus, card: CardId) -> CardDef {
    c.tables.defs@[card.0 as int]
}

/// Whether a `dbfId` is that of a card.
pub open spec fn is_of(c: Corpus, dbf: u32, card: CardId) -> bool {
    card.0 < c.tables.defs@.len() && c.tables.info@[card.0 as int].dbf == dbf
}

/// The format of a code: Wild is one, Standard is two, and no other is known.
pub proof fn lemma_format_bytes(byte: u32)
    ensures
        super::format_named(byte) == Some(Formats(2)) <==> byte == 1,
        super::format_named(byte) == Some(Formats(1)) <==> byte == 2,
        super::format_named(byte) is None <==> byte != 1 && byte != 2,
{
}

/// A `dbfId` names the card that has it, and nothing where none does.
pub proof fn lemma_named_card(c: Corpus, dbf: u32, card: CardId)
    requires
        c.wf(),
    ensures
        super::card_of(c, dbf) == Some(card) <==> is_of(c, dbf, card),
{
    if is_of(c, dbf, card) {
        assert(super::has_dbf(c, card, dbf));
        let other = super::card_of(c, dbf)->Some_0;
        assert(super::has_dbf(c, other, dbf));
        crate::cards::lookup::lemma_same_dbf(c, other, card);
    }
    if super::card_of(c, dbf) == Some(card) {
        assert(super::has_dbf(c, card, dbf));
    }
}

// ------------------------------------------------------------------- slots

/// Whether a list holds Commander Beatrix.
pub open spec fn holds_beatrix(c: Corpus, cards: Seq<(u32, u32)>) -> bool {
    exists|i: int, card: CardId|
        0 <= i < cards.len() && #[trigger] is_of(c, (#[trigger] cards[i]).0, card)
            && c.tables.info@[card.0 as int].name@ == "Commander Beatrix"@
}

/// The slots of a deck are its cards and then its sideboard, each with its
/// copies; a sideboard under Commander Beatrix comes ten times.
pub proof fn lemma_slots(c: Corpus, d: DecodedView, i: int)
    requires
        c.wf(),
    ensures
        ({
            let s = super::slots(c, d);
            &&& s.len() == d.cards.len() + d.sideboards.len()
            &&& 0 <= i < d.cards.len() ==> s[i] == d.cards[i]
            &&& 0 <= i < d.sideboards.len() ==> s[d.cards.len() + i].0 == d.sideboards[i].0
            &&& 0 <= i < d.sideboards.len() && holds_beatrix(c, d.cards) ==> s[d.cards.len() + i].1
                == 10
            &&& 0 <= i < d.sideboards.len() && !holds_beatrix(c, d.cards) ==> s[d.cards.len() + i].1
                == d.sideboards[i].1
        }),
{
    let cards = d.cards;
    if holds_beatrix(c, cards) {
        let (k, card) = choose|k: int, card: CardId|
            0 <= k < cards.len() && #[trigger] is_of(c, (#[trigger] cards[k]).0, card)
                && c.tables.info@[card.0 as int].name@ == "Commander Beatrix"@;
        lemma_named_card(c, cards[k].0, card);
        assert(super::is_beatrix(c, cards[k].0));
    }
    if super::with_beatrix(c, cards) {
        let k = choose|k: int| 0 <= k < cards.len() && super::is_beatrix(c, (#[trigger] cards[k]).0);
        let card = super::card_of(c, cards[k].0)->Some_0;
        lemma_named_card(c, cards[k].0, card);
        assert(is_of(c, cards[k].0, card));
    }
}

/// Whether a slot is of a card that can go in a deck.
pub open spec fn goes_in_a_deck(c: Corpus, dbf: u32) -> bool {
    exists|card: CardId| #[trigger] is_of(c, dbf, card) && printed(c, card).kind <= 4
}

proof fn lemma_usable(c: Corpus, dbf: u32)
    requires
        c.wf(),
    ensures
        super::usable(c, dbf) <==> goes_in_a_deck(c, dbf),
{
    if super::usable(c, dbf) {
        let card = super::card_of(c, dbf)->Some_0;
        lemma_named_card(c, dbf, card);
        assert(is_of(c, dbf, card));
    }
    if goes_in_a_deck(c, dbf) {
        let card = choose|card: CardId| #[trigger] is_of(c, dbf, card) && printed(c, card).kind <= 4;
        lemma_named_card(c, dbf, card);
    }
}

/// One slot more is one line more, of its card's name and its copies, where
/// the card can go in a deck, and none where it cannot or is not known.
pub proof fn lemma_one_slot_more(c: Corpus, slots: Seq<(u32, u32)>, s: (u32, u32), card: CardId)
    requires
        c.wf(),
    ensures
        is_of(c, s.0, card) && printed(c, card).kind <= 4 ==> super::lines(c, slots.push(s))
            == super::lines(c, slots).push((c.tables.info@[card.0 as int].name, s.1)),
        !goes_in_a_deck(c, s.0) ==> super::lines(c, slots.push(s)) == super::lines(c, slots),
        (forall|x: CardId| !is_of(c, s.0, x)) ==> super::missing(c, slots.push(s)) == super::missing(
            c,
            slots,
        ).push(s.0),
        is_of(c, s.0, card) ==> super::missing(c, slots.push(s)) == super::missing(c, slots),
        super::lines(c, Seq::<(u32, u32)>::empty()).len() == 0,
        super::missing(c, Seq::<(u32, u32)>::empty()).len() == 0,
{
    reveal(Seq::filter);
    assert(slots.push(s).drop_last() =~= slots);
    lemma_usable(c, s.0);
    lemma_named_card(c, s.0, card);
    let keep = |s: (u32, u32)| super::usable(c, s.0);
    let gone = |s: (u32, u32)| super::card_of(c, s.0) is None;
    let name = |s: (u32, u32)| (c.info_of(super::card_of(c, s.0)->Some_0).name, s.1);
    let first = |s: (u32, u32)| s.0;
    let f = slots.filter(keep);
    let g = slots.filter(gone);
    assert(f.push(s).map_values(name) =~= f.map_values(name).push(name(s)));
    assert(g.push(s).map_values(first) =~= g.map_values(first).push(s.0));
    if is_of(c, s.0, card) && printed(c, card).kind <= 4 {
        assert(goes_in_a_deck(c, s.0));
    }
    if super::card_of(c, s.0) is Some {
        let x = super::card_of(c, s.0)->Some_0;
        lemma_named_card(c, s.0, x);
    }
}

// ------------------------------------------------------------------ faults

/// Whether the engine understands a card.
pub open spec fn understood(c: Corpus, card: CardId) -> bool {
    has_row(c, card) || known_by_identity(c, card) || says_it_all(printed(c, card))
}

proof fn lemma_understood(c: Corpus, card: CardId)
    requires
        c.wf(),
        c.has(card),
    ensures
        understood(c, card) <==> crate::cards::behaviour::implemented(c, card),
{
    if understood(c, card) {
        crate::cards::behaviour::laws::lemma_read_text_is_implemented(c, card);
    } else {
        crate::cards::behaviour::laws::lemma_unread_text_is_not_implemented(c, card);
    }
}

/// What is wrong with a slot of a card: that it goes in no deck; or that it
/// does, but the engine does not understand it, or the format does not allow
/// it.
pub proof fn lemma_faults(c: Corpus, format: Option<Formats>, dbf: u32, card: CardId)
    requires
        c.wf(),
        is_of(c, dbf, card),
    ensures
        super::faulty(c, format, Fault::NotDeckable, dbf) <==> printed(c, card).kind > 4,
        super::faulty(c, format, Fault::Unimplemented, dbf) <==> printed(c, card).kind <= 4
            && !understood(c, card),
        super::faulty(c, format, Fault::Illegal, dbf) <==> printed(c, card).kind <= 4 && format is Some
            && printed(c, card).formats.0 & format->Some_0.0 == 0,
{
    lemma_named_card(c, dbf, card);
    lemma_understood(c, card);
}

/// A slot of no card has no fault but that it is missing.
pub proof fn lemma_unknown_slot(c: Corpus, format: Option<Formats>, fault: Fault, dbf: u32)
    requires
        c.wf(),
        forall|x: CardId| !is_of(c, dbf, x),
    ensures
        !super::faulty(c, format, fault, dbf),
{
    if super::card_of(c, dbf) is Some {
        lemma_named_card(c, dbf, super::card_of(c, dbf)->Some_0);
    }
}

/// A report names every card that has its fault, each name once, in order, and
/// no other.
pub proof fn lemma_report(
    list: Seq<&'static str>,
    c: Corpus,
    slots: Seq<(u32, u32)>,
    format: Option<Formats>,
    fault: Fault,
    i: int,
    card: CardId,
)
    requires
        c.wf(),
        super::reports(list, c, slots, format, fault),
        0 <= i < slots.len(),
        is_of(c, slots[i].0, card),
        super::faulty(c, format, fault, slots[i].0),
    ensures
        exists|k: int|
            0 <= k < list.len() && (#[trigger] list[k])@ == c.tables.info@[card.0 as int].name@,
{
    lemma_named_card(c, slots[i].0, card);
    let name = c.tables.info@[card.0 as int].name@;
    assert(super::faulted(c, slots, format, fault, name));
    assert(crate::cards::approximate::holds_str(list, name));
}

/// What a report names is a card of a slot that has its fault; and no name
/// stands twice.
pub proof fn lemma_report_is_of_slots(
    list: Seq<&'static str>,
    c: Corpus,
    slots: Seq<(u32, u32)>,
    format: Option<Formats>,
    fault: Fault,
    k: int,
    j: int,
)
    requires
        c.wf(),
        super::reports(list, c, slots, format, fault),
        0 <= k < list.len(),
    ensures
        exists|i: int, card: CardId|
            0 <= i < slots.len() && #[trigger] is_of(c, (#[trigger] slots[i]).0, card)
                && super::faulty(c, format, fault, slots[i].0)
                && c.tables.info@[card.0 as int].name@ == list[k]@,
        k < j < list.len() ==> list[k]@ != list[j]@ && crate::text::str_le(list[k]@, list[j]@),
{
    let name = list[k]@;
    assert(crate::cards::approximate::holds_str(list, name));
    assert(super::faulted(c, slots, format, fault, name));
    let i = choose|i: int|
        0 <= i < slots.len() && super::faulty(c, format, fault, (#[trigger] slots[i]).0) && c.name_of(
            super::card_of(c, slots[i].0)->Some_0,
        ) == name;
    let card = super::card_of(c, slots[i].0)->Some_0;
    lemma_named_card(c, slots[i].0, card);
    assert(is_of(c, slots[i].0, card));
}

/// Whether a name stands in a list.
pub open spec fn names(list: Seq<&'static str>, name: Seq<char>) -> bool {
    exists|k: int| 0 <= k < list.len() && (#[trigger] list[k])@ == name
}

/// A card of a slot that goes in no deck is named among those; one that does,
/// among the unimplemented where the engine does not understand it, and among
/// the illegal where the code's format, Wild or Standard, does not allow it.
pub proof fn lemma_reported(c: Corpus, d: DecodedView, r: Resolved, i: int, card: CardId)
    requires
        c.wf(),
        super::resolves(c, d, Ok(r)),
        0 <= i < super::slots(c, d).len(),
        is_of(c, super::slots(c, d)[i].0, card),
    ensures
        ({
            let name = c.tables.info@[card.0 as int].name@;
            let formats = printed(c, card).formats.0;
            &&& printed(c, card).kind > 4 ==> names(r.not_deckable@, name)
            &&& printed(c, card).kind <= 4 && !understood(c, card) ==> names(r.unimplemented@, name)
            &&& printed(c, card).kind <= 4 && d.format == 1 && formats & 2 == 0 ==> names(r.illegal@, name)
            &&& printed(c, card).kind <= 4 && d.format == 2 && formats & 1 == 0 ==> names(r.illegal@, name)
        }),
{
    let s = super::slots(c, d);
    let f = super::format_named(d.format);
    lemma_faults(c, f, s[i].0, card);
    if super::faulty(c, f, Fault::NotDeckable, s[i].0) {
        lemma_report(r.not_deckable@, c, s, f, Fault::NotDeckable, i, card);
    }
    if super::faulty(c, f, Fault::Unimplemented, s[i].0) {
        lemma_report(r.unimplemented@, c, s, f, Fault::Unimplemented, i, card);
    }
    if super::faulty(c, f, Fault::Illegal, s[i].0) {
        lemma_report(r.illegal@, c, s, f, Fault::Illegal, i, card);
    }
}

/// What is named as unimplemented is the card of a slot that the engine does
/// not understand, and what is named as illegal one that the code's format
/// does not allow.
pub proof fn lemma_nothing_else_is_reported(c: Corpus, d: DecodedView, r: Resolved, k: int)
    requires
        c.wf(),
        super::resolves(c, d, Ok(r)),
        0 <= k,
    ensures
        k < r.unimplemented@.len() ==> exists|i: int, card: CardId|
            0 <= i < super::slots(c, d).len() && #[trigger] is_of(
                c,
                (#[trigger] super::slots(c, d)[i]).0,
                card,
            ) && !understood(c, card) && c.tables.info@[card.0 as int].name@ == r.unimplemented@[k]@,
        k < r.illegal@.len() ==> exists|i: int, card: CardId|
            0 <= i < super::slots(c, d).len() && #[trigger] is_of(
                c,
                (#[trigger] super::slots(c, d)[i]).0,
                card,
            ) && printed(c, card).formats.0 & (if d.format == 1 {
                2u8
            } else {
                1u8
            }) == 0 && c.tables.info@[card.0 as int].name@ == r.illegal@[k]@,
{
    let s = super::slots(c, d);
    let f = super::format_named(d.format);
    if k < r.unimplemented@.len() {
        lemma_report_is_of_slots(r.unimplemented@, c, s, f, Fault::Unimplemented, k, k);
        let (i, card) = choose|i: int, card: CardId|
            0 <= i < s.len() && #[trigger] is_of(c, (#[trigger] s[i]).0, card) && super::faulty(
                c,
                f,
                Fault::Unimplemented,
                s[i].0,
            ) && c.tables.info@[card.0 as int].name@ == r.unimplemented@[k]@;
        lemma_faults(c, f, s[i].0, card);
        assert(is_of(c, super::slots(c, d)[i].0, card));
    }
    if k < r.illegal@.len() {
        lemma_report_is_of_slots(r.illegal@, c, s, f, Fault::Illegal, k, k);
        let (i, card) = choose|i: int, card: CardId|
            0 <= i < s.len() && #[trigger] is_of(c, (#[trigger] s[i]).0, card) && super::faulty(
                c,
                f,
                Fault::Illegal,
                s[i].0,
            ) && c.tables.info@[card.0 as int].name@ == r.illegal@[k]@;
        lemma_faults(c, f, s[i].0, card);
        assert(is_of(c, super::slots(c, d)[i].0, card));
    }
}

/// What is missing are the numbers of slots that no card has, and no others.
pub proof fn lemma_missing_is_reported(c: Corpus, d: DecodedView, r: Resolved, dbf: u32)
    requires
        c.wf(),
        super::resolves(c, d, Ok(r)),
    ensures
        r.missing@.contains(dbf) <==> {
            &&& exists|i: int| 0 <= i < super::slots(c, d).len() && (#[trigger] super::slots(c, d)[i]).0 == dbf
            &&& forall|x: CardId| !is_of(c, dbf, x)
        },
{
    let s = super::slots(c, d);
    let gone = |s: (u32, u32)| super::card_of(c, s.0) is None;
    let f = s.filter(gone);
    if super::card_of(c, dbf) is Some {
        let x = super::card_of(c, dbf)->Some_0;
        lemma_named_card(c, dbf, x);
        assert(is_of(c, dbf, x));
    } else {
        assert forall|x: CardId| !is_of(c, dbf, x) by {
            lemma_named_card(c, dbf, x);
        }
    }
    if r.missing@.contains(dbf) {
        let k = choose|k: int| 0 <= k < r.missing@.len() && r.missing@[k] == dbf;
        assert(f[k].0 == dbf);
        s.lemma_filter_pred(gone, k);
        assert(f.contains(f[k]));
        s.lemma_filter_contains_rev(gone, f[k]);
        let i = choose|i: int| 0 <= i < s.len() && s[i] == f[k];
        assert(super::slots(c, d)[i].0 == dbf);
    }
    if super::card_of(c, dbf) is None && exists|i: int|
        0 <= i < s.len() && (#[trigger] super::slots(c, d)[i]).0 == dbf {
        let i = choose|i: int| 0 <= i < s.len() && (#[trigger] super::slots(c, d)[i]).0 == dbf;
        assert(gone(s[i]));
        s.lemma_filter_contains(gone, i);
        let k = choose|k: int| 0 <= k < f.len() && f[k] == s[i];
        assert(r.missing@[k] == dbf);
    }
}

/// The pool that a code asks for: Wild or Standard by its number, none by any
/// other.
pub proof fn lemma_pool_asked_for(c: Corpus, d: DecodedView, r: Resolved)
    requires
        super::resolves(c, d, Ok(r)),
    ensures
        r.format matches Some(f) ==> (d.format == 1 && f.0 == 2) || (d.format == 2 && f.0 == 1),
        r.format is None <==> d.format != 1 && d.format != 2,
{
}

/// A list is playable exactly where each of its slots is a card that goes in a
/// deck, that the engine understands, and that the format, where it is known,
/// allows.
pub proof fn lemma_playable(c: Corpus, d: DecodedView, r: Resolved)
    requires
        c.wf(),
        super::resolves(c, d, Ok(r)),
    ensures
        r.is_playable() <==> forall|i: int|
            0 <= i < super::slots(c, d).len() ==> can_be_fielded(
                c,
                d.format,
                (#[trigger] super::slots(c, d)[i]).0,
            ),
{
    let s = super::slots(c, d);
    let format = super::format_named(d.format);
    super::super::laws::lemma_playable_means_sound(c, d, r);
    assert forall|dbf: u32| super::super::laws::sound(c, format, dbf) == #[trigger] can_be_fielded(
        c,
        d.format,
        dbf,
    ) by {
        if super::card_of(c, dbf) is Some {
            let card = super::card_of(c, dbf)->Some_0;
            lemma_named_card(c, dbf, card);
            lemma_understood(c, card);
        }
        if can_be_fielded(c, d.format, dbf) {
            let card = choose|card: CardId|
                {
                    &&& #[trigger] is_of(c, dbf, card)
                    &&& printed(c, card).kind <= 4
                    &&& understood(c, card)
                    &&& d.format == 1 ==> printed(c, card).formats.0 & 2 != 0
                    &&& d.format == 2 ==> printed(c, card).formats.0 & 1 != 0
                };
            lemma_named_card(c, dbf, card);
            lemma_understood(c, card);
        }
    }
    if r.is_playable() {
        assert forall|i: int| 0 <= i < s.len() implies can_be_fielded(c, d.format, (#[trigger] s[i]).0) by {
            assert(super::super::laws::sound(c, format, s[i].0));
        }
    } else if forall|i: int| 0 <= i < s.len() ==> can_be_fielded(c, d.format, (#[trigger] s[i]).0) {
        assert forall|i: int| 0 <= i < s.len() implies super::super::laws::sound(
            c,
            format,
            (#[trigger] s[i]).0,
        ) by {
            assert(can_be_fielded(c, d.format, s[i].0));
        }
    }
}

/// Whether a slot can be played as it stands.
pub open spec fn can_be_fielded(c: Corpus, format_byte: u32, dbf: u32) -> bool {
    exists|card: CardId|
        {
            &&& #[trigger] is_of(c, dbf, card)
            &&& printed(c, card).kind <= 4
            &&& understood(c, card)
            &&& format_byte == 1 ==> printed(c, card).formats.0 & 2 != 0
            &&& format_byte == 2 ==> printed(c, card).formats.0 & 1 != 0
        }
}

/// A list is playable exactly where nothing is reported of it.
pub proof fn lemma_playable_reports_nothing(r: Resolved)
    ensures
        r.is_playable() <==> r.missing@.len() + r.not_deckable@.len() + r.unimplemented@.len()
            + r.illegal@.len() == 0,
{
}

// ----------------------------------------------------------------- classes

/// A deck is of its first hero's class, where that is a card of a class.
pub proof fn lemma_hero_decides(c: Corpus, d: DecodedView, hero: CardId, class: Class)
    requires
        c.wf(),
        d.heroes.len() > 0,
        is_of(c, d.heroes[0], hero),
        printed(c, hero).class != 0,
    ensures
        super::is_class(c, d, class) <==> printed(c, hero).class_of() == class,
{
    lemma_named_card(c, d.heroes[0], hero);
}

/// Whether no hero tells the class of a deck.
pub open spec fn no_hero_tells(c: Corpus, heroes: Seq<u32>) -> bool {
    heroes.len() == 0 || forall|card: CardId|
        #[trigger] is_of(c, heroes[0], card) ==> printed(c, card).class == 0
}

proof fn lemma_no_hero_tells(c: Corpus, heroes: Seq<u32>)
    requires
        c.wf(),
    ensures
        no_hero_tells(c, heroes) <==> super::hero_class(c, heroes) is None,
{
    if heroes.len() > 0 && super::card_of(c, heroes[0]) is Some {
        let card = super::card_of(c, heroes[0])->Some_0;
        lemma_named_card(c, heroes[0], card);
        assert forall|x: CardId| #[trigger] is_of(c, heroes[0], x) implies x == card by {
            lemma_named_card(c, heroes[0], x);
        }
        assert(is_of(c, heroes[0], card));
    } else if heroes.len() > 0 {
        assert forall|x: CardId| !#[trigger] is_of(c, heroes[0], x) by {
            lemma_named_card(c, heroes[0], x);
        }
    }
}

/// Every copy of a card that goes in a deck is a vote for its class.
pub proof fn lemma_one_vote_more(
    c: Corpus,
    slots: Seq<(u32, u32)>,
    s: (u32, u32),
    card: CardId,
    class: Class,
)
    requires
        c.wf(),
    ensures
        super::votes(c, Seq::<(u32, u32)>::empty(), class) == 0,
        is_of(c, s.0, card) ==> super::votes(c, slots.push(s), class) == super::votes(c, slots, class)
            + if printed(c, card).kind <= 4 && printed(c, card).class_of() == class {
            s.1 as nat
        } else {
            0
        },
        (forall|x: CardId| !is_of(c, s.0, x)) ==> super::votes(c, slots.push(s), class)
            == super::votes(c, slots, class),
{
    assert(slots.push(s).drop_last() =~= slots);
    lemma_named_card(c, s.0, card);
    if super::card_of(c, s.0) is Some {
        lemma_named_card(c, s.0, super::card_of(c, s.0)->Some_0);
    }
}

/// Where no hero tells, the class with the most copies is the deck's, the last
/// of those in the order of the classes; and there is none only where no class
/// has a copy.
pub proof fn lemma_cards_decide(c: Corpus, d: DecodedView, class: Class, j: int)
    requires
        c.wf(),
        no_hero_tells(c, d.heroes),
        super::is_class(c, d, class),
        0 <= j < 11,
    ensures
        super::votes(c, super::slots(c, d), class) > 0,
        super::votes(c, super::slots(c, d), PLAYABLE_CLASSES@[j]) <= super::votes(
            c,
            super::slots(c, d),
            class,
        ),
        exists|i: int|
            0 <= i < 11 && #[trigger] PLAYABLE_CLASSES@[i] == class && (j > i ==> super::votes(
                c,
                super::slots(c, d),
                PLAYABLE_CLASSES@[j],
            ) < super::votes(c, super::slots(c, d), class)),
{
    lemma_no_hero_tells(c, d.heroes);
    let s = super::slots(c, d);
    let i = choose|i: int| #[trigger] super::elected(c, s, i) && class == PLAYABLE_CLASSES@[i];
    assert(super::votes(c, s, PLAYABLE_CLASSES@[j]) <= super::votes(c, s, PLAYABLE_CLASSES@[i]));
    assert(PLAYABLE_CLASSES@[i] == class);
}

/// A deck has no class only where no hero tells it and no class has a copy of
/// a card.
pub proof fn lemma_no_class(c: Corpus, d: DecodedView, e: ResolveError, j: int)
    requires
        c.wf(),
        super::resolves(c, d, Err(e)),
        0 <= j < 11,
    ensures
        e == ResolveError::NoClass,
        no_hero_tells(c, d.heroes),
        super::votes(c, super::slots(c, d), PLAYABLE_CLASSES@[j]) == 0,
{
    lemma_no_hero_tells(c, d.heroes);
    assert(super::votes(c, super::slots(c, d), PLAYABLE_CLASSES@[j]) == 0);
}

// ------------------------------------------------------------------- cards

/// The lines of a deck come sorted by name, and those of one name by copies;
/// none is lost and none is added.
pub proof fn lemma_lines_sorted(c: Corpus, d: DecodedView, r: Resolved, i: int, j: int)
    requires
        super::resolves(c, d, Ok(r)),
        0 <= i < j < r.cards@.len(),
    ensures
        r.cards@[i].0@ == r.cards@[j].0@ ==> r.cards@[i].1 <= r.cards@[j].1,
        crate::text::str_le(r.cards@[i].0@, r.cards@[j].0@),
        r.cards@.to_multiset() == super::lines(c, super::slots(c, d)).to_multiset(),
{
    let l = super::lines(c, super::slots(c, d));
    let le = crate::order::key_order::<(&'static str, u32)>();
    <(&'static str, u32) as crate::order::Ordered>::key_order_is_total();
    crate::order::keys(l).lemma_sort_by_ensures(le);
    let ks = crate::order::keys(r.cards@);
    assert(le(ks[i], ks[j]));
    assert(ks[i] == (r.cards@[i].0@, r.cards@[i].1) && ks[j] == (r.cards@[j].0@, r.cards@[j].1));
    crate::text::lemma_str_le_total();
}

/// A line more is its copies more; a deck without lines has none.
pub proof fn lemma_copies(cards: Seq<(&'static str, u32)>, line: (&'static str, u32))
    ensures
        super::copies(Seq::<(&'static str, u32)>::empty()) == 0,
        super::copies(cards.push(line)) == super::copies(cards) + line.1,
{
    assert(cards.push(line).drop_last() =~= cards);
}

/// A playable deck comes with a card for each copy, the one that its name
/// means; a deck that is not comes with none.
pub proof fn lemma_ids(c: Corpus, d: DecodedView, r: Resolved)
    requires
        super::resolves(c, d, Ok(r)),
    ensures
        r.is_playable() ==> r.ids@ == super::expanded(c, r.cards@) && r.ids@.len() == super::copies(
            r.cards@,
        ),
        !r.is_playable() ==> r.ids@.len() == 0,
{
    super::super::laws::lemma_expanded_len(c, r.cards@);
}

/// A line more is so many more of the card that its name means.
pub proof fn lemma_one_line_more(
    c: Corpus,
    cards: Seq<(&'static str, u32)>,
    name: &'static str,
    n: u32,
    card: CardId,
    i: int,
)
    requires
        c.wf(),
        c.has(card),
        crate::cards::lookup::means(c, name@, card),
    ensures
        ({
            let before = super::expanded(c, cards);
            let after = super::expanded(c, cards.push((name, n)));
            &&& after.len() == before.len() + n
            &&& after.take(before.len() as int) == before
            &&& before.len() <= i < after.len() ==> after[i] == card
        }),
{
    assert(cards.push((name, n)).drop_last() =~= cards);
    let before = super::expanded(c, cards);
    let after = super::expanded(c, cards.push((name, n)));
    assert(after.take(before.len() as int) =~= before);
    let other = super::named(c, name@);
    assert(c.has(other) && crate::cards::lookup::means(c, name@, other));
    let t = c.tables;
    let k = choose|k: int|
        0 <= k < t.by_name@.len() && (#[trigger] t.by_name@[k]).0@ == name@ && t.by_name@[k].1
            == card.0;
    assert(t.name_entry_ok(k));
    crate::cards::lookup::lemma_means(c, name@, other, card);
}

} // verus!
