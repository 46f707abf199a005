//! What the engine knows of a card.

use vstd::prelude::*;

use super::super::corpus::{hook_bits, Corpus, HAS_AURA, HAS_BONUS, HAS_TRIGGER};
use super::super::hooks::Behaviour;
use super::super::lists::{
    AURAS, AWAKENED, AWAKENS, DARK_GIFTS, DRAWN_ACTORS, DRAWN_FOR_OPPONENT, IGNORES_TAUNT, KHADGARS,
    LEFT_HALVES, LEYLINES, RATTLES_ANYWHERE, REBORN_KEEPS_ALL, RIGHT_HALVES, RULES_IN_THE_ENGINE,
    SHAM_TRIAL, SHATTERS, UPGRADES_WHILE_HELD, WHOLES, WINDRUNNERS,
};
use super::super::types::{CardDef, CardId};

verus! {

/// The string id of a card.
pub open spec fn id_of(c: Corpus, card: CardId) -> Seq<char> {
    c.tables.info@[card.0 as int].id@
}

/// Whether the behaviour table has a row for the name of a card.
pub open spec fn has_row(c: Corpus, card: CardId) -> bool {
    exists|k: int|
        0 <= k < c.behaviours@.len() && (#[trigger] c.behaviours@[k]).name@
            == c.tables.info@[card.0 as int].name@
}

/// Whether the whole rule of a card is one that the engine reads by identity:
/// the cards that a Dragon awakens, those that shatter, the one that keeps all
/// it had when Reborn, those that let attacks ignore Taunt, and the standing
/// rules.
pub open spec fn known_by_identity(c: Corpus, card: CardId) -> bool {
    let id = id_of(c, card);
    ||| id == "CATA_551"@ || id == "CATA_552"@ || id == "CATA_553"@
    ||| id == "CATA_820"@ || id == "CATA_306"@ || id == "CATA_479"@
    ||| id == "127060-sinful-steed"@
    ||| id == "BT_187"@ || id == "CORE_BT_187"@
    ||| id == "TIME_606"@ || id == "TLC_836"@ || id == "CORE_DAL_575"@
}

/// Whether all that a card says is said by its stats and its keywords: a
/// minion or a weapon whose text the kernel models.
pub open spec fn says_it_all(d: CardDef) -> bool {
    (d.kind == 0 || d.kind == 2) && d.keywords.0 & 0x100000 == 0x100000
}

/// A card has a row exactly where the table has one for its name.
pub proof fn lemma_rows(c: Corpus, card: CardId)
    requires
        c.wf(),
        c.has(card),
    ensures
        super::row_of(c, card) is Some <==> has_row(c, card),
        super::row_of(c, card) matches Some(b) ==> b.name@ == c.tables.info@[card.0 as int].name@
            && c.behaviours@.contains(b),
{
    assert(c.index_ok(card.0 as int));
    if super::row_of(c, card) is Some {
        let k = c.index@[card.0 as int] - 1;
        assert(c.behaviours@[k].name@ == c.tables.info@[card.0 as int].name@);
    }
}

proof fn lemma_on_rule_lists(c: Corpus, card: CardId)
    ensures
        known_by_identity(c, card) <==> {
            ||| super::on_list(c, AWAKENS@, card)
            ||| super::on_list(c, SHATTERS@, card)
            ||| super::on_list(c, REBORN_KEEPS_ALL@, card)
            ||| super::on_list(c, IGNORES_TAUNT@, card)
            ||| super::on_list(c, RULES_IN_THE_ENGINE@, card)
        },
{
    let id = id_of(c, card);
    assert(id == "CATA_551"@ ==> super::listed_at(c, AWAKENS@, card, 0));
    assert(id == "CATA_552"@ ==> super::listed_at(c, AWAKENS@, card, 1));
    assert(id == "CATA_553"@ ==> super::listed_at(c, AWAKENS@, card, 2));
    assert(id == "CATA_820"@ ==> super::listed_at(c, SHATTERS@, card, 0));
    assert(id == "CATA_306"@ ==> super::listed_at(c, SHATTERS@, card, 1));
    assert(id == "CATA_479"@ ==> super::listed_at(c, SHATTERS@, card, 2));
    assert(id == "127060-sinful-steed"@ ==> super::listed_at(c, REBORN_KEEPS_ALL@, card, 0));
    assert(id == "BT_187"@ ==> super::listed_at(c, IGNORES_TAUNT@, card, 0));
    assert(id == "CORE_BT_187"@ ==> super::listed_at(c, IGNORES_TAUNT@, card, 1));
    assert(id == "TIME_606"@ ==> super::listed_at(c, RULES_IN_THE_ENGINE@, card, 0));
    assert(id == "TLC_836"@ ==> super::listed_at(c, RULES_IN_THE_ENGINE@, card, 1));
    assert(id == "CORE_DAL_575"@ ==> super::listed_at(c, RULES_IN_THE_ENGINE@, card, 2));
}

/// A card without a row that the engine does not know by identity is
/// implemented only where it says all there is to it: no spell, Location or
/// hero is, nor a minion or weapon with text that the kernel does not model.
pub proof fn lemma_unread_text_is_not_implemented(c: Corpus, card: CardId)
    requires
        c.wf(),
        c.has(card),
        !has_row(c, card),
        !known_by_identity(c, card),
    ensures
        super::implemented(c, card) <==> says_it_all(c.tables.defs@[card.0 as int]),
{
    lemma_rows(c, card);
    lemma_on_rule_lists(c, card);
}

/// A card with a row, or that the engine knows by identity, or that says all
/// there is to it, is implemented.
pub proof fn lemma_read_text_is_implemented(c: Corpus, card: CardId)
    requires
        c.wf(),
        c.has(card),
        has_row(c, card) || known_by_identity(c, card) || says_it_all(
            c.tables.defs@[card.0 as int],
        ),
    ensures
        super::implemented(c, card),
{
    lemma_rows(c, card);
    lemma_on_rule_lists(c, card);
}

/// The cards that are read by identity: the Auras, Khadgar, the Leylines, what
/// upgrades while held, what rattles from anywhere, the standing rules, what
/// lets attacks ignore Taunt, what keeps all it had when Reborn, and what acts
/// when drawn. No other card is on their lists.
pub proof fn lemma_named_cards(c: Corpus, card: CardId)
    ensures
        super::on_list(c, AURAS@, card) <==> {
            let id = id_of(c, card);
            ||| id == "TIME_700"@
            ||| id == "CATA_480"@
            ||| id == "TIME_009t1"@
            ||| id == "TIME_009t2"@
            ||| id == "END_011"@
        },
        super::on_list(c, KHADGARS@, card) <==> {
            let id = id_of(c, card);
            ||| id == "CORE_DAL_575"@
            ||| id == "DAL_575"@
        },
        super::on_list(c, LEYLINES@, card) <==> {
            let id = id_of(c, card);
            ||| id == "MEND_504"@
            ||| id == "MEND_500"@
            ||| id == "MEND_502"@
        },
        super::on_list(c, UPGRADES_WHILE_HELD@, card) <==> {
            let id = id_of(c, card);
            id == "FIR_911"@
        },
        super::on_list(c, RATTLES_ANYWHERE@, card) <==> {
            let id = id_of(c, card);
            id == "JAIL_398"@
        },
        super::on_list(c, RULES_IN_THE_ENGINE@, card) <==> {
            let id = id_of(c, card);
            ||| id == "TIME_606"@
            ||| id == "TLC_836"@
            ||| id == "CORE_DAL_575"@
        },
        super::on_list(c, IGNORES_TAUNT@, card) <==> {
            let id = id_of(c, card);
            ||| id == "BT_187"@
            ||| id == "CORE_BT_187"@
        },
        super::on_list(c, REBORN_KEEPS_ALL@, card) <==> {
            let id = id_of(c, card);
            id == "127060-sinful-steed"@
        },
        super::on_list(c, DRAWN_FOR_OPPONENT@, card) <==> {
            let id = id_of(c, card);
            id == "127024-imp-formant"@
        },
        super::on_list(c, DRAWN_ACTORS@, card) <==> {
            let id = id_of(c, card);
            ||| id == "EDR_445pt3"@
            ||| id == "SW_439t"@
            ||| id == "TIME_025t"@
            ||| id == "JAIL_386t"@
            ||| id == "JAIL_881t"@
            ||| id == "JAIL_879t"@
            ||| id == "TLC_513t2"@
            ||| id == "EDR_260t"@
            ||| id == "127024-imp-formant"@
        },
{
    let id = id_of(c, card);
    assert(id == "TIME_700"@ ==> super::listed_at(c, AURAS@, card, 0));
    assert(id == "CATA_480"@ ==> super::listed_at(c, AURAS@, card, 1));
    assert(id == "TIME_009t1"@ ==> super::listed_at(c, AURAS@, card, 2));
    assert(id == "TIME_009t2"@ ==> super::listed_at(c, AURAS@, card, 3));
    assert(id == "END_011"@ ==> super::listed_at(c, AURAS@, card, 4));
    assert(id == "CORE_DAL_575"@ ==> super::listed_at(c, KHADGARS@, card, 0));
    assert(id == "DAL_575"@ ==> super::listed_at(c, KHADGARS@, card, 1));
    assert(id == "MEND_504"@ ==> super::listed_at(c, LEYLINES@, card, 0));
    assert(id == "MEND_500"@ ==> super::listed_at(c, LEYLINES@, card, 1));
    assert(id == "MEND_502"@ ==> super::listed_at(c, LEYLINES@, card, 2));
    assert(id == "FIR_911"@ ==> super::listed_at(c, UPGRADES_WHILE_HELD@, card, 0));
    assert(id == "JAIL_398"@ ==> super::listed_at(c, RATTLES_ANYWHERE@, card, 0));
    assert(id == "TIME_606"@ ==> super::listed_at(c, RULES_IN_THE_ENGINE@, card, 0));
    assert(id == "TLC_836"@ ==> super::listed_at(c, RULES_IN_THE_ENGINE@, card, 1));
    assert(id == "CORE_DAL_575"@ ==> super::listed_at(c, RULES_IN_THE_ENGINE@, card, 2));
    assert(id == "BT_187"@ ==> super::listed_at(c, IGNORES_TAUNT@, card, 0));
    assert(id == "CORE_BT_187"@ ==> super::listed_at(c, IGNORES_TAUNT@, card, 1));
    assert(id == "127060-sinful-steed"@ ==> super::listed_at(c, REBORN_KEEPS_ALL@, card, 0));
    assert(id == "127024-imp-formant"@ ==> super::listed_at(c, DRAWN_FOR_OPPONENT@, card, 0));
    assert(id == "EDR_445pt3"@ ==> super::listed_at(c, DRAWN_ACTORS@, card, 0));
    assert(id == "SW_439t"@ ==> super::listed_at(c, DRAWN_ACTORS@, card, 1));
    assert(id == "TIME_025t"@ ==> super::listed_at(c, DRAWN_ACTORS@, card, 2));
    assert(id == "JAIL_386t"@ ==> super::listed_at(c, DRAWN_ACTORS@, card, 3));
    assert(id == "JAIL_881t"@ ==> super::listed_at(c, DRAWN_ACTORS@, card, 4));
    assert(id == "JAIL_879t"@ ==> super::listed_at(c, DRAWN_ACTORS@, card, 5));
    assert(id == "TLC_513t2"@ ==> super::listed_at(c, DRAWN_ACTORS@, card, 6));
    assert(id == "EDR_260t"@ ==> super::listed_at(c, DRAWN_ACTORS@, card, 7));
    assert(id == "127024-imp-formant"@ ==> super::listed_at(c, DRAWN_ACTORS@, card, 8));
}

/// What plays a part while in play or in the Hero Power slot: Morchie,
/// Sinestra, Niri, Fletcher, Naralex, Atiesh, Mug's Magic and Zee's Might.
pub proof fn lemma_asked_about(c: Corpus, card: CardId)
    ensures
        super::is_controlled(c, card, 0) <==> id_of(c, card) == "END_036"@,
        super::is_controlled(c, card, 1) <==> id_of(c, card) == "CATA_154"@,
        super::is_controlled(c, card, 2) <==> id_of(c, card) == "TLC_836"@,
        super::is_controlled(c, card, 3) <==> id_of(c, card) == "TIME_606"@,
        super::is_controlled(c, card, 4) <==> id_of(c, card) == "EDR_844"@,
        super::is_controlled(c, card, 5) <==> id_of(c, card) == "TIME_890t"@,
        super::is_controlled(c, card, 6) <==> id_of(c, card) == "JAIL_800hp1"@,
        super::is_controlled(c, card, 7) <==> id_of(c, card) == "JAIL_800hp2"@,
{
}

/// A Dragon awakens each of the three forms into its own.
pub proof fn lemma_awakened(c: Corpus, card: CardId, into: CardId, i: int)
    requires
        super::listed_at(c, AWAKENS@, card, i),
        super::listed_at(c, AWAKENED@, into, i),
    ensures
        ({
            let (a, b) = (id_of(c, card), id_of(c, into));
            ||| a == "CATA_551"@ && b == "CATA_551t"@
            ||| a == "CATA_552"@ && b == "CATA_552t"@
            ||| a == "CATA_553"@ && b == "CATA_553t"@
        }),
{
}

/// Whether two cards are the halves of a third, the left one first.
pub open spec fn are_halves_of(c: Corpus, left: CardId, right: CardId, whole: CardId) -> bool {
    let (l, r, w) = (id_of(c, left), id_of(c, right), id_of(c, whole));
    ||| w == "CATA_820"@ && l == "CATA_820t"@ && r == "CATA_820t2"@
    ||| w == "CATA_306"@ && l == "CATA_306t1"@ && r == "CATA_306t2"@
    ||| w == "CATA_479"@ && l == "CATA_479t"@ && r == "CATA_479t2"@
}

/// What a card shatters into are its halves, the left one first, and halves
/// recombine into what they are halves of.
pub proof fn lemma_halves(c: Corpus, left: CardId, right: CardId, whole: CardId)
    ensures
        are_halves_of(c, left, right, whole) <==> exists|i: int| #[trigger]
            super::listed_at(c, SHATTERS@, whole, i) && super::listed_at(c, LEFT_HALVES@, left, i)
                && super::listed_at(c, RIGHT_HALVES@, right, i),
        are_halves_of(c, left, right, whole) <==> exists|i: int| #[trigger]
            super::halves_at(c, left, right, i) && super::listed_at(c, SHATTERS@, whole, i),
{
    let (l, r, w) = (id_of(c, left), id_of(c, right), id_of(c, whole));
    if are_halves_of(c, left, right, whole) {
        let i: int = if w == "CATA_820"@ && l == "CATA_820t"@ && r == "CATA_820t2"@ {
            0
        } else if w == "CATA_306"@ && l == "CATA_306t1"@ && r == "CATA_306t2"@ {
            1
        } else {
            2
        };
        assert(super::listed_at(c, SHATTERS@, whole, i));
        assert(super::halves_at(c, left, right, i));
    }
}

/// Two cards combine wherever they are held where one is the first half of
/// Sol'etos and the other the second, in either order, and into Sol'etos.
pub proof fn lemma_parts(c: Corpus, left: CardId, right: CardId, whole: CardId)
    ensures
        (exists|i: int| #[trigger]
            super::parts_at(c, left, right, i) && super::listed_at(c, WHOLES@, whole, i)) <==> {
            let (l, r) = (id_of(c, left), id_of(c, right));
            &&& id_of(c, whole) == "TLC_817t5"@
            &&& (l == "TLC_817t3"@ && r == "TLC_817t4"@) || (l == "TLC_817t4"@ && r == "TLC_817t3"@)
        },
{
    let (l, r) = (id_of(c, left), id_of(c, right));
    if (l == "TLC_817t3"@ && r == "TLC_817t4"@) || (l == "TLC_817t4"@ && r == "TLC_817t3"@) {
        assert(super::parts_at(c, left, right, 0));
    }
}

/// The pool of Dark Gifts, in order.
pub proof fn lemma_gifts()
    ensures
        DARK_GIFTS@.len() == 10,
        DARK_GIFTS@[0]@ == "EDR_100t"@,
        DARK_GIFTS@[1]@ == "EDR_100t1"@,
        DARK_GIFTS@[2]@ == "EDR_100t2"@,
        DARK_GIFTS@[3]@ == "EDR_100t3"@,
        DARK_GIFTS@[4]@ == "EDR_100t5"@,
        DARK_GIFTS@[5]@ == "EDR_100t6"@,
        DARK_GIFTS@[6]@ == "EDR_100t7"@,
        DARK_GIFTS@[7]@ == "EDR_100t8"@,
        DARK_GIFTS@[8]@ == "EDR_100t9"@,
        DARK_GIFTS@[9]@ == "EDR_100t13"@,
{
}

/// The menu of the sham trial, in order.
pub proof fn lemma_menu()
    ensures
        SHAM_TRIAL@.len() == 9,
        SHAM_TRIAL@[0]@ == "132837-detained-for-destruction"@,
        SHAM_TRIAL@[1]@ == "132849-convicted-for-conspiracy"@,
        SHAM_TRIAL@[2]@ == "132843-sentenced-for-smuggling"@,
        SHAM_TRIAL@[3]@ == "132838-crate-of-contraband"@,
        SHAM_TRIAL@[4]@ == "132844-spurious-shiv"@,
        SHAM_TRIAL@[5]@ == "132850-criminal-contract"@,
        SHAM_TRIAL@[6]@ == "132851-potion-of-perjury"@,
        SHAM_TRIAL@[7]@ == "132856-swill-of-suggestibility"@,
        SHAM_TRIAL@[8]@ == "132848-tonic-of-tyranny"@,
{
}

/// A card's hooks name its aura, its bonus and its trigger, a bit for each,
/// and nothing else.
pub proof fn lemma_hook_bits(b: Behaviour)
    ensures
        hook_bits(b) % 2 == 1 <==> b.aura is Some,
        (hook_bits(b) / 2) % 2 == 1 <==> b.bonus is Some,
        (hook_bits(b) / 4) % 2 == 1 <==> b.trigger is Some,
        hook_bits(b) < 8,
        HAS_AURA == 1,
        HAS_BONUS == 2,
        HAS_TRIGGER == 4,
{
}

// ---------------------------------------------------------------- Discover

/// Every card of the table is a card, and the `i`th has the number `i`.
pub proof fn lemma_every_card(c: Corpus, card: CardId, i: int)
    requires
        c.wf(),
    ensures
        c.ids().len() == c.tables.defs@.len(),
        0 <= i < c.ids().len() ==> c.ids()[i].0 == i,
        card.0 < c.tables.defs@.len() <==> c.ids().contains(card),
{
    if card.0 < c.tables.defs@.len() {
        assert(c.ids()[card.0 as int] == card);
    }
}

/// Whether a Discover may come upon a card: one that can be collected and put
/// in a deck, and that the engine understands.
pub open spec fn may_be_found(c: Corpus, card: CardId) -> bool {
    let d = c.tables.defs@[card.0 as int];
    &&& d.collectible
    &&& d.kind <= 4
    &&& has_row(c, card) || known_by_identity(c, card) || says_it_all(d)
}

/// A Discover draws from every card that may be found, and from no other.
pub proof fn lemma_discover_base(c: Corpus, card: CardId)
    requires
        c.wf(),
    ensures
        super::discover_base(c).contains(card) <==> c.has(card) && may_be_found(c, card),
{
    let keep = |card: CardId| super::discoverable(c, card);
    let base = super::discover_base(c);
    lemma_every_card(c, card, 0);
    if c.has(card) {
        lemma_rows(c, card);
        lemma_on_rule_lists(c, card);
        if may_be_found(c, card) {
            lemma_read_text_is_implemented(c, card);
            assert(c.ids()[card.0 as int] == card);
            c.ids().lemma_filter_contains(keep, card.0 as int);
        }
    }
    if base.contains(card) {
        let i = choose|i: int| 0 <= i < base.len() && base[i] == card;
        c.ids().lemma_filter_pred(keep, i);
        c.ids().lemma_filter_contains_rev(keep, card);
        if !has_row(c, card) && !known_by_identity(c, card) {
            lemma_unread_text_is_not_implemented(c, card);
        }
    }
}

/// What is offered is exactly what the question was answered yes for.
pub proof fn lemma_marked(list: Seq<CardId>, marks: Seq<bool>, card: CardId)
    requires
        marks.len() == list.len(),
    ensures
        super::marked(list, marks).contains(card) <==> exists|i: int|
            0 <= i < list.len() && marks[i] && #[trigger] list[i] == card,
    decreases list.len(),
{
    let m = super::marked(list, marks);
    if list.len() > 0 {
        let (l, k) = (list.drop_last(), marks.drop_last());
        let rest = super::marked(l, k);
        lemma_marked(l, k, card);
        if rest.contains(card) {
            let i = choose|i: int| 0 <= i < l.len() && k[i] && #[trigger] l[i] == card;
            assert(list[i] == card && marks[i]);
            let j = choose|j: int| 0 <= j < rest.len() && rest[j] == card;
            assert(m[j] == card);
        }
        if marks.last() && list.last() == card {
            assert(m[m.len() - 1] == card);
            assert(list[list.len() - 1] == card);
        }
        if exists|i: int| 0 <= i < list.len() && marks[i] && #[trigger] list[i] == card {
            let i = choose|i: int| 0 <= i < list.len() && marks[i] && #[trigger] list[i] == card;
            if i < l.len() {
                assert(l[i] == card && k[i]);
            }
        }
        if m.contains(card) && !rest.contains(card) {
            let j = choose|j: int| 0 <= j < m.len() && m[j] == card;
            if j < rest.len() {
                assert(rest[j] == card);
            }
        }
    }
}

// -------------------------------------------------------------- Dark Gifts

/// The stats of the Gifts, in the order of the pool: Waking Terror, Well
/// Rested, Short Claws, Bundled Up and Sweet Dreams change them, the others do
/// not; only Short Claws changes what the card costs.
pub proof fn lemma_gift_stats(gift: u8)
    ensures
        ({
            let (atk, hp, cost) = super::gift_worth(gift);
            &&& atk == if gift == 1 { 3int } else if gift == 2 { 2 } else if gift == 3 { -2 } else if gift == 8 { 4 } else { 0 }
            &&& hp == if gift == 2 { 2int } else if gift == 4 { 4 } else if gift == 8 { 5 } else { 0 }
            &&& cost == if gift == 3 { -2int } else { 0 }
        }),
{
}

/// The keywords of the Gifts: Lifesteal from the first, Elusive from the
/// second, Taunt from the fourth, Charge from the sixth, Reborn from the
/// ninth, Divine Shield and Windfury from the tenth, and no others.
pub proof fn lemma_gift_keywords(gift: u8)
    ensures
        super::gift_bits(gift) & 0x80 == 0x80 <==> gift == 1,
        super::gift_bits(gift) & 0x40 == 0x40 <==> gift == 2,
        super::gift_bits(gift) & 0x1 == 0x1 <==> gift == 4,
        super::gift_bits(gift) & 0x2 == 0x2 <==> gift == 6,
        super::gift_bits(gift) & 0x200 == 0x200 <==> gift == 9,
        super::gift_bits(gift) & 0x8 == 0x8 <==> gift == 10,
        super::gift_bits(gift) & 0x10 == 0x10 <==> gift == 10,
        super::gift_bits(gift) <= 0x2DB,
        super::gift_bits(gift) & 0x2DB == super::gift_bits(gift),
{
    assert(0x8u64 | 0x10u64 == 0x18u64) by (bit_vector);
    let b = super::gift_bits(gift);
    assert(b == 0 || b == 0x80 || b == 0x40 || b == 0x1 || b == 0x2 || b == 0x200 || b == 0x18);
    assert((b == 0 || b == 0x80 || b == 0x40 || b == 0x1 || b == 0x2 || b == 0x200 || b == 0x18) ==> (
    b & 0x80 == 0x80 <==> b == 0x80) && (b & 0x40 == 0x40 <==> b == 0x40) && (b & 0x1 == 0x1 <==> b
        == 0x1) && (b & 0x2 == 0x2 <==> b == 0x2) && (b & 0x200 == 0x200 <==> b == 0x200) && (b & 0x8
        == 0x8 <==> b == 0x18) && (b & 0x10 == 0x10 <==> b == 0x18) && b & 0x2DB == b) by (bit_vector);
}

// ------------------------------------------------------------- Windrunners

/// The bit of a sister in a player's record.
pub open spec fn own_bit(c: Corpus, card: CardId) -> u8 {
    if id_of(c, card) == "TIME_609"@ {
        1
    } else if id_of(c, card) == "TIME_609t1"@ {
        2
    } else if id_of(c, card) == "TIME_609t2"@ {
        4
    } else {
        0
    }
}

/// How many of the three bits of a record are set, but for one.
pub open spec fn others_set(record: u8, but: u8) -> nat {
    (if record % 2 == 1 && but != 1 {
        1nat
    } else {
        0
    }) + (if (record / 2) % 2 == 1 && but != 2 {
        1nat
    } else {
        0
    }) + (if (record / 4) % 2 == 1 && but != 4 {
        1nat
    } else {
        0
    })
}

/// The sisters that count are those of the record that are not the card
/// itself.
pub proof fn lemma_sisters(c: Corpus, record: u8, card: CardId)
    requires
        record < 8,
    ensures
        super::sisters_in(c, record, card) == others_set(record, own_bit(c, card)),
{
    reveal_strlit("TIME_609");
    reveal_strlit("TIME_609t1");
    reveal_strlit("TIME_609t2");
    assert("TIME_609"@.len() == 8);
    assert("TIME_609t1"@[9] == '1');
    assert("TIME_609t2"@[9] == '2');
    let mine = own_bit(c, card);
    if mine == 1 {
        assert(super::listed_at(c, WINDRUNNERS@, card, 0));
    } else if mine == 2 {
        assert(super::listed_at(c, WINDRUNNERS@, card, 1));
    } else if mine == 4 {
        assert(super::listed_at(c, WINDRUNNERS@, card, 2));
    }
    assert forall|i: int| #[trigger] super::listed_at(c, WINDRUNNERS@, card, i) implies super::sister_bit(i)
        == mine by {}
    let left = record & !mine;
    assert(record < 8 && (mine == 0 || mine == 1 || mine == 2 || mine == 4) ==> (record & !mine)
        < 8 && (record & !mine) % 2 == (if mine == 1 { 0u8 } else { record % 2 }) && ((record & !mine)
        / 2) % 2 == (if mine == 2 { 0u8 } else { (record / 2) % 2 }) && ((record & !mine) / 4) % 2 == (if mine
        == 4 { 0u8 } else { (record / 4) % 2 })) by (bit_vector);
    assert(record & !0u8 == record) by (bit_vector);
    reveal_with_fuel(super::ones, 4);
    assert(super::ones(left) == (left % 2) + (left / 2) % 2 + (left / 4) % 2) by {
        assert(left < 8);
    }
}

} // verus!
