//! What a lookup finds.

use vstd::prelude::*;

use super::super::corpus::Corpus;
use super::super::types::{CardId, Kind};

verus! {

/// Whether a card is a hero's portrait rather than a card to play.
pub open spec fn is_portrait(c: Corpus, card: CardId) -> bool {
    c.tables.defs@[card.0 as int].kind == 4 && c.tables.info@[card.0 as int].set@ == "HERO_SKINS"@
}

/// A name means one of the cards that have it: not a portrait where there is
/// another, and not a token where there is one that can be collected.
pub proof fn lemma_name_means_the_best(c: Corpus, name: Seq<char>, card: CardId, other: CardId)
    requires
        c.wf(),
        super::means(c, name, card),
        other.0 < c.tables.defs@.len(),
        c.tables.info@[other.0 as int].name@ == name,
    ensures
        card.0 < c.tables.defs@.len(),
        c.tables.info@[card.0 as int].name@ == name,
        is_portrait(c, card) ==> is_portrait(c, other),
        !is_portrait(c, other) && c.tables.defs@[other.0 as int].collectible
            ==> c.tables.defs@[card.0 as int].collectible,
{
    super::lemma_means(c, name, card, other);
}

/// Every name that a card has means a card.
pub proof fn lemma_every_name_means(c: Corpus, card: CardId)
    requires
        c.wf(),
        card.0 < c.tables.defs@.len(),
    ensures
        exists|other: CardId| super::means(c, c.tables.info@[card.0 as int].name@, other),
{
    let t = c.tables;
    let name = t.info@[card.0 as int].name@;
    assert(t.name_found(card.0 as int));
    let i = choose|i: int|
        0 <= i < t.by_name@.len() && (#[trigger] t.by_name@[i]).0@ == name && !t.preferred(
            card.0 as int,
            t.by_name@[i].1 as int,
        );
    assert(super::means(c, name, CardId(t.by_name@[i].1)));
}

/// A card's children are the stretch of the list of children that the table
/// gives it, in order.
pub proof fn lemma_children(c: Corpus, card: CardId, i: int)
    requires
        c.wf(),
        c.has(card),
    ensures
        c.children_of(card).len() == c.tables.child_slices@[card.0 as int].1,
        0 <= i < c.children_of(card).len() ==> c.children_of(card)[i]
            == c.tables.child_ids@[c.tables.child_slices@[card.0 as int].0 + i]
            && c.children_of(card)[i].0 < c.tables.defs@.len(),
{
    let (start, len) = c.tables.child_slices@[card.0 as int];
    assert(c.tables.child_slices@[card.0 as int].0 + c.tables.child_slices@[card.0 as int].1
        <= c.tables.child_ids@.len());
    if 0 <= i < len {
        assert(c.tables.has(c.tables.child_ids@[start + i]));
    }
}

/// Of a card's children those can be summoned that are minions, and all of
/// those.
pub proof fn lemma_summonable_children(c: Corpus, card: CardId, child: CardId)
    ensures
        c.children_of(card).filter(
            |d: CardId| c.def_of(d).kind_of() == Kind::Minion,
        ).contains(child) <==> c.children_of(card).contains(child) && c.tables.defs@[child.0 as int].kind
            == 0,
{
    let keep = |d: CardId| c.def_of(d).kind_of() == Kind::Minion;
    let all = c.children_of(card);
    let f = all.filter(keep);
    if all.contains(child) && keep(child) {
        let i = choose|i: int| 0 <= i < all.len() && all[i] == child;
        all.lemma_filter_contains(keep, i);
    }
    if f.contains(child) {
        let i = choose|i: int| 0 <= i < f.len() && f[i] == child;
        all.lemma_filter_pred(keep, i);
        all.lemma_filter_contains_rev(keep, child);
    }
}

/// What is legal in Standard is legal in Wild.
pub proof fn lemma_standard_bit(c: Corpus, card: CardId)
    requires
        c.wf(),
        c.has(card),
        c.tables.defs@[card.0 as int].formats.0 & 1 != 0,
    ensures
        c.tables.defs@[card.0 as int].formats.0 & 2 != 0,
{
    assert(c.tables.standard_is_wild(card.0 as int));
}

} // verus!
