//! What a card table is checked for.

use vstd::prelude::*;

use super::super::hooks::Behaviour;
use super::super::types::{CardDef, CardId, CardInfo};
use super::{Corpus, Flaw, Tables};

verus! {

/// Tables are of one length, which a card number can count; anything else is
/// the first thing reported.
pub proof fn lemma_lengths(t: Tables)
    ensures
        t.flaw() == Some(Flaw::Lengths) <==> !({
            &&& t.defs@.len() <= 65535
            &&& t.info@.len() == t.defs@.len()
            &&& t.by_dbf@.len() == t.defs@.len()
            &&& t.by_id@.len() == t.defs@.len()
            &&& t.child_slices@.len() == t.defs@.len()
        }),
{
}

/// Tables without a flaw list their cards by `dbfId` in strict order, each
/// entry leading to a card that has it and each card led to.
pub proof fn lemma_sound_by_dbf(t: Tables, i: int, j: int)
    requires
        t.flaw() is None,
        0 <= i < t.by_dbf@.len(),
    ensures
        i < j < t.by_dbf@.len() ==> t.by_dbf@[i].0 < t.by_dbf@[j].0,
        t.by_dbf@[i].1 < t.info@.len(),
        t.info@[t.by_dbf@[i].1 as int].dbf == t.by_dbf@[i].0,
        0 <= j < t.info@.len() ==> exists|k: int|
            0 <= k < t.by_dbf@.len() && (#[trigger] t.by_dbf@[k]).0 == t.info@[j].dbf
                && t.by_dbf@[k].1 == j,
{
    assert(t.dbf_entry_ok(i));
    if 0 <= j < t.info@.len() {
        assert(t.dbf_found(j));
    }
}

/// Tables without a flaw list their cards by string id in strict order, each
/// entry leading to a card that has it and each card led to.
pub proof fn lemma_sound_by_id(t: Tables, i: int, j: int)
    requires
        t.flaw() is None,
        0 <= i < t.by_id@.len(),
    ensures
        i < j < t.by_id@.len() ==> t.by_id@[i].0@ != t.by_id@[j].0@ && crate::text::str_le(
            t.by_id@[i].0@,
            t.by_id@[j].0@,
        ),
        t.by_id@[i].1 < t.info@.len(),
        t.info@[t.by_id@[i].1 as int].id@ == t.by_id@[i].0@,
        0 <= j < t.info@.len() ==> exists|k: int|
            0 <= k < t.by_id@.len() && (#[trigger] t.by_id@[k]).0@ == t.info@[j].id@ && t.by_id@[k].1
                == j,
{
    assert(t.id_entry_ok(i));
    if 0 <= j < t.info@.len() {
        assert(t.id_found(j));
    }
}

/// Whether a card is a hero's portrait.
pub open spec fn only_a_portrait(d: CardDef, info: CardInfo) -> bool {
    d.kind == 4 && info.set@ == "HERO_SKINS"@
}

/// Tables without a flaw list the names in strict order, each leading to a
/// card that has it: no portrait where another card has the name, no token
/// where one that is no portrait can be collected.
pub proof fn lemma_sound_by_name(t: Tables, i: int, j: int)
    requires
        t.flaw() is None,
        0 <= i < t.by_name@.len(),
        0 <= j < t.info@.len(),
        t.info@[j].name@ == t.by_name@[i].0@,
    ensures
        ({
            let k = t.by_name@[i].1 as int;
            &&& k < t.info@.len()
            &&& t.info@[k].name@ == t.by_name@[i].0@
            &&& only_a_portrait(t.defs@[k], t.info@[k]) ==> only_a_portrait(t.defs@[j], t.info@[j])
            &&& t.defs@[j].collectible && !only_a_portrait(t.defs@[j], t.info@[j])
                ==> t.defs@[k].collectible
        }),
{
    assert(t.name_entry_ok(i));
    assert(t.name_found(j));
    let at = choose|at: int|
        0 <= at < t.by_name@.len() && (#[trigger] t.by_name@[at]).0@ == t.info@[j].name@
            && !t.preferred(j, t.by_name@[at].1 as int);
    assert(at == i);
}

/// Tables without a flaw name no child outside the table.
pub proof fn lemma_sound_children(t: Tables, j: int, k: int)
    requires
        t.flaw() is None,
        0 <= j < t.child_slices@.len(),
        t.child_slices@[j].0 <= k < t.child_slices@[j].0 + t.child_slices@[j].1,
    ensures
        k < t.child_ids@.len(),
        t.child_ids@[k].0 < t.defs@.len(),
{
    assert(t.child_slices@[j].0 + t.child_slices@[j].1 <= t.child_ids@.len());
    assert(t.has(t.child_ids@[k]));
}

/// Whether the cards are listed by `dbfId` in strict order.
pub open spec fn in_dbf_order(t: Tables) -> bool {
    forall|i: int, j: int|
        0 <= i < j < t.by_dbf@.len() ==> (#[trigger] t.by_dbf@[i]).0 < (#[trigger] t.by_dbf@[j]).0
}

/// Whether an entry by `dbfId` leads to no card that has it.
pub open spec fn leads_astray(t: Tables, i: int) -> bool {
    t.by_dbf@[i].1 >= t.info@.len() || t.info@[t.by_dbf@[i].1 as int].dbf != t.by_dbf@[i].0
}

/// Whether no entry by `dbfId` leads to a card.
pub open spec fn left_out(t: Tables, j: int) -> bool {
    forall|k: int|
        0 <= k < t.by_dbf@.len() ==> (#[trigger] t.by_dbf@[k]).0 != t.info@[j].dbf || t.by_dbf@[k].1 != j
}

/// The list by `dbfId` is faulted only where it is out of order, leads astray
/// or leaves a card out.
pub proof fn lemma_dbf_faulted_for_a_reason(t: Tables)
    requires
        t.flaw() == Some(Flaw::Dbf),
    ensures
        !in_dbf_order(t) || (exists|i: int| 0 <= i < t.by_dbf@.len() && #[trigger] leads_astray(t, i))
            || (exists|j: int| 0 <= j < t.info@.len() && #[trigger] left_out(t, j)),
{
    if exists|i: int| 0 <= i < t.by_dbf@.len() && !#[trigger] t.dbf_entry_ok(i) {
        let i = choose|i: int| 0 <= i < t.by_dbf@.len() && !#[trigger] t.dbf_entry_ok(i);
        assert(leads_astray(t, i));
    }
    if exists|j: int| 0 <= j < t.info@.len() && !#[trigger] t.dbf_found(j) {
        let j = choose|j: int| 0 <= j < t.info@.len() && !#[trigger] t.dbf_found(j);
        assert(left_out(t, j));
    }
}

/// Legality is faulted only where a card is legal in Standard and not in Wild.
pub proof fn lemma_legality_faulted_for_a_reason(t: Tables)
    requires
        t.flaw() == Some(Flaw::Legality),
    ensures
        exists|j: int|
            0 <= j < t.defs@.len() && (#[trigger] t.defs@[j]).formats.0 & 1 != 0 && t.defs@[j].formats.0 & 2
                == 0,
{
    let j = choose|j: int| 0 <= j < t.defs@.len() && !#[trigger] t.standard_is_wild(j);
    assert(t.defs@[j].formats.0 & 1 != 0);
}

/// Children are faulted only where a stretch of them runs past the end or one
/// is no card.
pub proof fn lemma_children_faulted_for_a_reason(t: Tables)
    requires
        t.flaw() == Some(Flaw::Children),
    ensures
        (exists|j: int|
            0 <= j < t.child_slices@.len() && (#[trigger] t.child_slices@[j]).0 + t.child_slices@[j].1
                > t.child_ids@.len()) || (exists|k: int|
            0 <= k < t.child_ids@.len() && (#[trigger] t.child_ids@[k]).0 >= t.defs@.len()),
{
    if exists|k: int| 0 <= k < t.child_ids@.len() && !#[trigger] t.has(t.child_ids@[k]) {
        let k = choose|k: int| 0 <= k < t.child_ids@.len() && !#[trigger] t.has(t.child_ids@[k]);
        assert(t.child_ids@[k].0 >= t.defs@.len());
    }
}

/// Rows go with a table where there are few enough to number and no two are
/// for one name.
pub proof fn lemma_rows_that_go(rows: Seq<Behaviour>, i: int, j: int)
    ensures
        super::rows_ok(rows) ==> rows.len() < 65535,
        super::rows_ok(rows) && 0 <= i < j < rows.len() ==> rows[i].name@ != rows[j].name@,
        rows.len() < 65535 && (forall|a: int, b: int|
            0 <= a < b < rows.len() ==> (#[trigger] rows[a]).name@ != (#[trigger] rows[b]).name@)
            ==> super::rows_ok(rows),
{
}

/// A card's hooks are those of the row of its name: its aura in the first bit,
/// its bonus in the second, its trigger in the third; and none where its name
/// has no row.
pub proof fn lemma_standing_hooks(c: Corpus, card: CardId, row: int)
    requires
        c.wf(),
        c.has(card),
    ensures
        0 <= row < c.behaviours@.len() && c.behaviours@[row].name@
            == c.tables.info@[card.0 as int].name@ ==> {
            let bits = c.hooks@[card.0 as int];
            let b = c.behaviours@[row];
            &&& bits < 8
            &&& bits % 2 == 1 <==> b.aura is Some
            &&& (bits / 2) % 2 == 1 <==> b.bonus is Some
            &&& (bits / 4) % 2 == 1 <==> b.trigger is Some
        },
        (forall|k: int|
            0 <= k < c.behaviours@.len() ==> (#[trigger] c.behaviours@[k]).name@
                != c.tables.info@[card.0 as int].name@) ==> c.hooks@[card.0 as int] == 0,
{
    let i = card.0 as int;
    assert(c.index_ok(i));
    assert(c.hooks_ok(i));
    let slot = c.index@[i];
    if slot != 0 {
        assert(c.behaviours@[slot - 1].name@ == c.tables.info@[i].name@);
    }
}

} // verus!
