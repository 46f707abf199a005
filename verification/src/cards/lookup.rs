//! Looking cards up.

use vstd::prelude::*;

use super::corpus::Corpus;
use super::types::{CardDef, CardId, CardInfo, Kind};
use crate::order::{find, find_str};

pub mod laws;

verus! {

impl Corpus {
    /// A card's own children, as the table lists them.
    pub open spec fn children_of(self, card: CardId) -> Seq<CardId> {
        let (start, len) = self.tables.child_slices@[card.0 as int];
        self.tables.child_ids@.subrange(start as int, start + len)
    }

    /// Whether the table holds a card with this string id.
    pub open spec fn knows(self, id: Seq<char>) -> bool {
        self.tables.knows(id)
    }

    /// Every card.
    pub open spec fn ids(self) -> Seq<CardId> {
        Seq::new(self.len(), |i: int| CardId(i as u16))
    }
}

impl CardId {
    /// The card's static definition.
    pub fn def<'a>(self, c: &'a Corpus) -> (r: &'a CardDef)
        requires
            c.has(self),
        ensures
            *r == c.def_of(self),
    {
        &c.tables.defs[self.0 as usize]
    }

    /// The card's strings. Never touched on a hot path.
    pub fn info<'a>(self, c: &'a Corpus) -> (r: &'a CardInfo)
        requires
            c.wf(),
            c.has(self),
        ensures
            *r == c.info_of(self),
    {
        &c.tables.info[self.0 as usize]
    }

    pub fn name(self, c: &Corpus) -> (r: &'static str)
        requires
            c.wf(),
            c.has(self),
        ensures
            r == c.info_of(self).name,
    {
        self.info(c).name
    }

    /// The cards this one creates: its tokens, and the upgraded printings of
    /// itself.
    pub fn children(self, c: &Corpus) -> (r: Vec<CardId>)
        requires
            c.wf(),
            c.has(self),
        ensures
            r@ == c.children_of(self),
            forall|i: int| 0 <= i < r@.len() ==> c.has(#[trigger] r@[i]),
    {
        let (start, len) = c.tables.child_slices[self.0 as usize];
        let from: usize = start as usize;
        let mut out: Vec<CardId> = Vec::new();
        let mut i: usize = 0;
        while i < len as usize
            invariant
                c.wf(),
                c.has(self),
                (start, len) == c.tables.child_slices@[self.0 as int],
                from == start,
                i <= len,
                start + len <= c.tables.child_ids.len(),
                out@ == c.children_of(self).take(i as int),
            decreases len as usize - i,
        {
            out.push(c.tables.child_ids[from + i]);
            proof {
                assert(out@ =~= c.children_of(self).take(i + 1));
            }
            i += 1;
        }
        proof {
            assert(c.children_of(self).take(i as int) =~= c.children_of(self));
            assert forall|i: int| 0 <= i < out@.len() implies c.has(#[trigger] out@[i]) by {
                assert(c.tables.has(c.tables.child_ids@[start + i]));
            }
        }
        out
    }

    /// The minions among [`children`](Self::children), which is what "summon
    /// this card's token" means for a card that has one. A card lists its own
    /// upgraded printings as children too, so the filter is not optional.
    pub fn summonable_children(self, c: &Corpus) -> (r: Vec<CardId>)
        requires
            c.wf(),
            c.has(self),
        ensures
            r@ == c.children_of(self).filter(|d: CardId| c.def_of(d).kind_of() == Kind::Minion),
    {
        let all = self.children(c);
        let ghost keep = |d: CardId| c.def_of(d).kind_of() == Kind::Minion;
        let mut out: Vec<CardId> = Vec::new();
        let mut i: usize = 0;
        proof {
            reveal(Seq::filter);
            assert(all@.take(0).filter(keep) =~= seq![]);
        }
        while i < all.len()
            invariant
                c.wf(),
                i <= all@.len(),
                forall|i: int| 0 <= i < all@.len() ==> c.has(#[trigger] all@[i]),
                keep == (|d: CardId| c.def_of(d).kind_of() == Kind::Minion),
                out@ == all@.take(i as int).filter(keep),
            decreases all.len() - i,
        {
            proof {
                reveal(Seq::filter);
                assert(all@.take(i + 1).drop_last() =~= all@.take(i as int));
            }
            let d = all[i];
            if d.def(c).kind() == Kind::Minion {
                out.push(d);
            }
            i += 1;
        }
        proof {
            assert(all@.take(i as int) =~= all@);
        }
        out
    }
}

/// The card with this `dbfId`, if the corpus has one. Deck codes carry dbf ids.
pub fn by_dbf(c: &Corpus, dbf: u32) -> (r: Option<CardId>)
    requires
        c.wf(),
    ensures
        match r {
            Some(id) => c.has(id) && c.info_of(id).dbf == dbf && forall|j: CardId|
                c.has(j) && (#[trigger] c.info_of(j)).dbf == dbf ==> j == id,
            None => forall|j: CardId| c.has(j) ==> (#[trigger] c.info_of(j)).dbf != dbf,
        },
{
    match find(&c.tables.by_dbf, dbf) {
        None => {
            proof {
                assert forall|j: CardId| c.has(j) implies (#[trigger] c.info_of(j)).dbf != dbf by {
                    assert(c.tables.dbf_found(j.0 as int));
                }
            }
            None
        },
        Some(i) => {
            let id = CardId(c.tables.by_dbf[i].1);
            proof {
                assert(c.tables.dbf_entry_ok(i as int));
                assert forall|j: CardId| c.has(j) && (#[trigger] c.info_of(j)).dbf == dbf implies j
                    == id by {
                    assert(c.tables.dbf_found(j.0 as int));
                }
            }
            Some(id)
        },
    }
}

/// The card with this string id.
pub fn by_id(c: &Corpus, id: &str) -> (r: Option<CardId>)
    requires
        c.wf(),
    ensures
        match r {
            Some(card) => c.has(card) && c.info_of(card).id@ == id@ && forall|j: CardId|
                c.has(j) && (#[trigger] c.info_of(j)).id@ == id@ ==> j == card,
            None => forall|j: CardId| c.has(j) ==> (#[trigger] c.info_of(j)).id@ != id@,
        },
{
    match find_str(&c.tables.by_id, id) {
        None => {
            proof {
                assert forall|j: CardId| c.has(j) implies (#[trigger] c.info_of(j)).id@ != id@ by {
                    assert(c.tables.id_found(j.0 as int));
                }
            }
            None
        },
        Some(i) => {
            let card = CardId(c.tables.by_id[i].1);
            proof {
                assert(c.tables.id_entry_ok(i as int));
                assert forall|j: CardId| c.has(j) && (#[trigger] c.info_of(j)).id@ == id@ implies j
                    == card by {
                    lemma_same_id(*c, j, card);
                }
            }
            Some(card)
        },
    }
}

/// No two cards share a string id.
pub proof fn lemma_same_id(c: Corpus, a: CardId, b: CardId)
    requires
        c.wf(),
        c.has(a),
        c.has(b),
        c.info_of(a).id@ == c.info_of(b).id@,
    ensures
        a == b,
{
    let t = c.tables;
    assert(t.id_found(a.0 as int));
    assert(t.id_found(b.0 as int));
    let i = choose|i: int|
        0 <= i < t.by_id@.len() && (#[trigger] t.by_id@[i]).0@ == t.info@[a.0 as int].id@
            && t.by_id@[i].1 == a.0;
    let j = choose|j: int|
        0 <= j < t.by_id@.len() && (#[trigger] t.by_id@[j]).0@ == t.info@[b.0 as int].id@
            && t.by_id@[j].1 == b.0;
    assert(t.by_id@[i].0@ == t.by_id@[j].0@);
    assert(i == j);
}

/// No two cards share a `dbfId`.
pub proof fn lemma_same_dbf(c: Corpus, a: CardId, b: CardId)
    requires
        c.wf(),
        c.has(a),
        c.has(b),
        c.info_of(a).dbf == c.info_of(b).dbf,
    ensures
        a == b,
{
    assert(c.tables.dbf_found(a.0 as int));
    assert(c.tables.dbf_found(b.0 as int));
}

/// Whether a name means this card.
pub open spec fn means(c: Corpus, name: Seq<char>, card: CardId) -> bool {
    exists|i: int|
        0 <= i < c.tables.by_name@.len() && (#[trigger] c.tables.by_name@[i]).0@ == name
            && c.tables.by_name@[i].1 == card.0
}

/// A name means one printing at most, one that has this name, and none that
/// is worse than another of the same name: a real card beats a hero portrait,
/// and among real cards collectible beats token.
pub proof fn lemma_means(c: Corpus, name: Seq<char>, card: CardId, other: CardId)
    requires
        c.wf(),
        means(c, name, card),
        c.has(other),
        c.name_of(other) == name,
    ensures
        c.has(card),
        c.name_of(card) == name,
        !c.tables.preferred(other.0 as int, card.0 as int),
        means(c, name, other) ==> other == card,
{
    let t = c.tables;
    let i = choose|i: int|
        0 <= i < t.by_name@.len() && (#[trigger] t.by_name@[i]).0@ == name && t.by_name@[i].1 == card.0;
    assert(t.name_entry_ok(i));
    assert(t.name_found(other.0 as int));
    let j = choose|j: int|
        0 <= j < t.by_name@.len() && (#[trigger] t.by_name@[j]).0@ == t.info@[other.0 as int].name@
            && !t.preferred(other.0 as int, t.by_name@[j].1 as int);
    assert(t.by_name@[i].0@ == t.by_name@[j].0@);
    assert(i == j);
    if means(c, name, other) {
        let k = choose|k: int|
            0 <= k < t.by_name@.len() && (#[trigger] t.by_name@[k]).0@ == name && t.by_name@[k].1
                == other.0;
        assert(t.by_name@[i].0@ == t.by_name@[k].0@);
        assert(i == k);
    }
}

/// The card a deck list means by this name.
///
/// One printing per name: collectible beats token, and a real card always
/// beats a hero portrait that happens to share its name.
pub fn by_name(c: &Corpus, name: &str) -> (r: Option<CardId>)
    requires
        c.wf(),
    ensures
        match r {
            Some(card) => c.has(card) && c.name_of(card) == name@ && means(*c, name@, card),
            None => forall|j: CardId| c.has(j) ==> #[trigger] c.name_of(j) != name@,
        },
{
    match find_str(&c.tables.by_name, name) {
        None => {
            proof {
                assert forall|j: CardId| c.has(j) implies #[trigger] c.name_of(j) != name@ by {
                    assert(c.tables.name_found(j.0 as int));
                }
            }
            None
        },
        Some(i) => {
            proof {
                assert(c.tables.name_entry_ok(i as int));
            }
            Some(CardId(c.tables.by_name[i].1))
        },
    }
}

/// The card with this string id, which the corpus is known to hold.
pub fn token(c: &Corpus, id: &str) -> (r: CardId)
    requires
        c.wf(),
        c.knows(id@),
    ensures
        c.has(r),
        c.info_of(r).id@ == id@,
        forall|j: CardId| c.has(j) && (#[trigger] c.info_of(j)).id@ == id@ ==> j == r,
{
    let found = by_id(c, id);
    proof {
        let j = choose|j: int| 0 <= j < c.tables.info@.len() && (#[trigger] c.tables.info@[j]).id@ == id@;
        assert(c.has(CardId(j as u16)));
        assert(c.info_of(CardId(j as u16)).id@ == id@);
    }
    found.unwrap()
}

/// The cards with these string ids.
pub fn tokens(c: &Corpus, ids: &[&'static str]) -> (r: Vec<CardId>)
    requires
        c.wf(),
        c.tables.knows_all(ids@),
    ensures
        r@.len() == ids@.len(),
        forall|i: int| 0 <= i < ids@.len() ==> c.has(#[trigger] r@[i]) && c.info_of(r@[i]).id@ == ids@[i]@,
{
    let mut out: Vec<CardId> = Vec::new();
    let mut i: usize = 0;
    while i < ids.len()
        invariant
            c.wf(),
            c.tables.knows_all(ids@),
            i <= ids@.len(),
            out@.len() == i,
            forall|k: int| 0 <= k < i ==> c.has(#[trigger] out@[k]) && c.info_of(out@[k]).id@ == ids@[k]@,
        decreases ids.len() - i,
    {
        out.push(token(c, ids[i]));
        i += 1;
    }
    out
}

/// Every card, as ids.
pub fn all(c: &Corpus) -> (r: Vec<CardId>)
    requires
        c.wf(),
    ensures
        r@ == c.ids(),
{
    let n: usize = c.tables.defs.len();
    let mut out: Vec<CardId> = Vec::new();
    let mut i: usize = 0;
    while i < n
        invariant
            n == c.len(),
            n <= u16::MAX,
            i <= n,
            out@ == c.ids().take(i as int),
        decreases n - i,
    {
        out.push(CardId(i as u16));
        proof {
            assert(out@ =~= c.ids().take(i + 1));
        }
        i += 1;
    }
    proof {
        assert(c.ids().take(n as int) =~= c.ids());
    }
    out
}

/// Where `card` sits in `list`, if it is in it at all.
pub fn place_in(list: &[CardId], card: CardId) -> (r: Option<usize>)
    ensures
        match r {
            Some(i) => i < list@.len() && list@[i as int] == card && forall|j: int|
                0 <= j < i ==> #[trigger] list@[j] != card,
            None => !list@.contains(card),
        },
{
    let mut i: usize = 0;
    while i < list.len()
        invariant
            i <= list@.len(),
            forall|j: int| 0 <= j < i ==> #[trigger] list@[j] != card,
        decreases list.len() - i,
    {
        if list[i].0 == card.0 {
            return Some(i);
        }
        i += 1;
    }
    None
}

/// Whether `list` names `card`.
pub fn names(list: &[CardId], card: CardId) -> (r: bool)
    ensures
        r == list@.contains(card),
{
    place_in(list, card).is_some()
}

} // verus!
