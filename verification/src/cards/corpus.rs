//! The card table and its lookups.

use vstd::prelude::*;

use super::hooks::Behaviour;
use super::lists::{
    AURAS, AWAKENED, AWAKENS, AZSHARA, CATACLYSMS, CONTROLLED, DARK_GIFTS, DRAWN_ACTORS,
    DRAWN_FOR_OPPONENT, FIRST_PARTS, IGNORES_TAUNT, KHADGARS, LEFT_HALVES, LEYLINES,
    RATTLES_ANYWHERE, REBORN_KEEPS_ALL, RIGHT_HALVES, RULES_IN_THE_ENGINE, SECOND_PARTS,
    SHAM_TRIAL, SHATTERS, UPGRADES_WHILE_HELD, WHOLES, WINDRUNNERS,
};
use super::types::{CardDef, CardId, CardInfo, Formats, Kind};
use crate::order::{find, find_str, sorted};
use crate::text::str_eq;

pub mod laws;

verus! {

/// The card carries a continuous aura.
pub const HAS_AURA: u8 = 1;

/// The card grants itself a conditional bonus.
pub const HAS_BONUS: u8 = 2;

/// The card reacts to events.
pub const HAS_TRIGGER: u8 = 4;

/// What a card table is made of.
#[derive(Debug)]
pub struct Tables {
    /// Every card's rules-relevant data.
    pub defs: Vec<CardDef>,
    /// Every card's strings, at the same places.
    pub info: Vec<CardInfo>,
    /// Cards by their `dbfId`, in its order.
    pub by_dbf: Vec<(u32, u16)>,
    /// Cards by their string id, in its order.
    pub by_id: Vec<(&'static str, u16)>,
    /// One card for each name, in the order of the names.
    pub by_name: Vec<(&'static str, u16)>,
    /// Where each card's children start in `child_ids`, and how many it has.
    pub child_slices: Vec<(u32, u16)>,
    pub child_ids: Vec<CardId>,
}

/// What can be wrong with a card table or the rows that go with it.
#[derive(Clone, Copy, PartialEq, Eq, Debug, Structural)]
pub enum Flaw {
    /// The tables differ in length, or are too long for a card number.
    Lengths,
    /// The `dbfId` index is not sorted, or does not find every card.
    Dbf,
    /// The string id index is not sorted, or does not find every card.
    Id,
    /// The name index is not sorted, or does not lead to the right printing.
    Name,
    /// A card's children are outside the table.
    Children,
    /// A card is Standard-legal but not Wild-legal.
    Legality,
    /// A card that the engine knows by its id is not in the table.
    Token,
    /// A card has two rows, or there are too many rows to number.
    Rows,
}

impl Tables {
    pub open spec fn has(self, card: CardId) -> bool {
        card.0 < self.defs@.len()
    }

    pub open spec fn lengths_ok(self) -> bool {
        &&& self.defs@.len() <= u16::MAX
        &&& self.info@.len() == self.defs@.len()
        &&& self.by_dbf@.len() == self.defs@.len()
        &&& self.by_id@.len() == self.defs@.len()
        &&& self.child_slices@.len() == self.defs@.len()
    }

    pub open spec fn dbf_ok(self) -> bool {
        &&& crate::order::ascending(self.by_dbf@)
        &&& forall|i: int| 0 <= i < self.by_dbf@.len() ==> #[trigger] self.dbf_entry_ok(i)
        &&& forall|j: int| 0 <= j < self.info@.len() ==> #[trigger] self.dbf_found(j)
    }

    pub open spec fn dbf_entry_ok(self, i: int) -> bool {
        &&& self.by_dbf@[i].1 < self.info@.len()
        &&& self.info@[self.by_dbf@[i].1 as int].dbf == self.by_dbf@[i].0
    }

    pub open spec fn dbf_found(self, j: int) -> bool {
        exists|i: int| 0 <= i < self.by_dbf@.len() && #[trigger] self.by_dbf@[i] == (self.info@[j].dbf, j as u16)
    }

    pub open spec fn id_ok(self) -> bool {
        &&& crate::order::ascending_str(self.by_id@)
        &&& forall|i: int| 0 <= i < self.by_id@.len() ==> #[trigger] self.id_entry_ok(i)
        &&& forall|j: int| 0 <= j < self.info@.len() ==> #[trigger] self.id_found(j)
    }

    pub open spec fn id_entry_ok(self, i: int) -> bool {
        &&& self.by_id@[i].1 < self.info@.len()
        &&& self.info@[self.by_id@[i].1 as int].id@ == self.by_id@[i].0@
    }

    pub open spec fn id_found(self, j: int) -> bool {
        exists|i: int|
            0 <= i < self.by_id@.len() && (#[trigger] self.by_id@[i]).0@ == self.info@[j].id@
                && self.by_id@[i].1 == j
    }

    /// A hero portrait: it can share its name with a real card.
    pub open spec fn portrait(self, j: int) -> bool {
        self.defs@[j].kind_of() == Kind::Hero && self.info@[j].set@ == "HERO_SKINS"@
    }

    /// Whether the printing `j` is what a name means rather than `k`: a real
    /// card beats a hero portrait, and among real cards collectible beats
    /// token.
    pub open spec fn preferred(self, j: int, k: int) -> bool {
        !self.portrait(j) && (self.portrait(k) || (self.defs@[j].collectible
            && !self.defs@[k].collectible))
    }

    pub open spec fn name_ok(self) -> bool {
        &&& crate::order::ascending_str(self.by_name@)
        &&& forall|i: int| 0 <= i < self.by_name@.len() ==> #[trigger] self.name_entry_ok(i)
        &&& forall|j: int| 0 <= j < self.info@.len() ==> #[trigger] self.name_found(j)
    }

    pub open spec fn name_entry_ok(self, i: int) -> bool {
        &&& self.by_name@[i].1 < self.info@.len()
        &&& self.info@[self.by_name@[i].1 as int].name@ == self.by_name@[i].0@
    }

    pub open spec fn name_found(self, j: int) -> bool {
        exists|i: int|
            0 <= i < self.by_name@.len() && (#[trigger] self.by_name@[i]).0@ == self.info@[j].name@
                && !self.preferred(j, self.by_name@[i].1 as int)
    }

    pub open spec fn children_ok(self) -> bool {
        &&& forall|j: int|
            0 <= j < self.child_slices@.len() ==> (#[trigger] self.child_slices@[j]).0
                + self.child_slices@[j].1 <= self.child_ids@.len()
        &&& forall|k: int| 0 <= k < self.child_ids@.len() ==> #[trigger] self.has(self.child_ids@[k])
    }

    pub open spec fn legality_ok(self) -> bool {
        forall|j: int| 0 <= j < self.defs@.len() ==> #[trigger] self.standard_is_wild(j)
    }

    pub open spec fn standard_is_wild(self, j: int) -> bool {
        self.defs@[j].formats.includes(Formats(Formats::STANDARD))
            ==> self.defs@[j].formats.includes(Formats(Formats::WILD))
    }

    pub open spec fn knows(self, id: Seq<char>) -> bool {
        exists|j: int| 0 <= j < self.info@.len() && (#[trigger] self.info@[j]).id@ == id
    }

    pub open spec fn knows_all(self, ids: Seq<&'static str>) -> bool {
        forall|i: int| 0 <= i < ids.len() ==> self.knows((#[trigger] ids[i])@)
    }

    /// Every card that the engine knows by its id is there.
    pub open spec fn tokens_ok(self) -> bool {
        &&& self.knows_all(AURAS@)
        &&& self.knows_all(DARK_GIFTS@)
        &&& self.knows_all(DRAWN_ACTORS@)
        &&& self.knows_all(DRAWN_FOR_OPPONENT@)
        &&& self.knows_all(AWAKENS@)
        &&& self.knows_all(AWAKENED@)
        &&& self.knows_all(SHATTERS@)
        &&& self.knows_all(LEFT_HALVES@)
        &&& self.knows_all(RIGHT_HALVES@)
        &&& self.knows_all(FIRST_PARTS@)
        &&& self.knows_all(SECOND_PARTS@)
        &&& self.knows_all(WHOLES@)
        &&& self.knows_all(REBORN_KEEPS_ALL@)
        &&& self.knows_all(RATTLES_ANYWHERE@)
        &&& self.knows_all(KHADGARS@)
        &&& self.knows_all(LEYLINES@)
        &&& self.knows_all(UPGRADES_WHILE_HELD@)
        &&& self.knows_all(RULES_IN_THE_ENGINE@)
        &&& self.knows_all(WINDRUNNERS@)
        &&& self.knows_all(IGNORES_TAUNT@)
        &&& self.knows_all(SHAM_TRIAL@)
        &&& self.knows_all(AZSHARA@)
        &&& self.knows_all(CATACLYSMS@)
        &&& self.knows_all(CONTROLLED@)
    }

    /// The first thing wrong with the tables, if anything is.
    pub open spec fn flaw(self) -> Option<Flaw> {
        if !self.lengths_ok() {
            Some(Flaw::Lengths)
        } else if !self.dbf_ok() {
            Some(Flaw::Dbf)
        } else if !self.id_ok() {
            Some(Flaw::Id)
        } else if !self.name_ok() {
            Some(Flaw::Name)
        } else if !self.children_ok() {
            Some(Flaw::Children)
        } else if !self.legality_ok() {
            Some(Flaw::Legality)
        } else if !self.tokens_ok() {
            Some(Flaw::Token)
        } else {
            None
        }
    }

    /// The tables agree with each other.
    pub open spec fn wf(self) -> bool {
        &&& self.lengths_ok()
        &&& self.dbf_ok()
        &&& self.id_ok()
        &&& self.name_ok()
        &&& self.children_ok()
        &&& self.legality_ok()
        &&& self.tokens_ok()
    }
}

// ---------------------------------------------------------------- checking

fn check_ascending(t: &Vec<(u32, u16)>) -> (r: bool)
    ensures
        r == crate::order::ascending(t@),
{
    let mut i: usize = 1;
    while i < t.len()
        invariant
            1 <= i,
            forall|a: int, b: int| 0 <= a < b < i && b < t@.len() ==> (#[trigger] t@[a]).0 < (#[trigger] t@[b]).0,
        decreases t.len() - i,
    {
        if t[i - 1].0 >= t[i].0 {
            return false;
        }
        i += 1;
    }
    true
}

pub fn check_ascending_str(t: &Vec<(&'static str, u16)>) -> (r: bool)
    ensures
        r == crate::order::ascending_str(t@),
{
    proof {
        crate::text::lemma_str_le_total();
    }
    let ghost le = |a: Seq<char>, b: Seq<char>| crate::text::str_le(a, b);
    let mut i: usize = 1;
    while i < t.len()
        invariant
            1 <= i,
            le == (|a: Seq<char>, b: Seq<char>| crate::text::str_le(a, b)),
            vstd::relations::total_ordering(le),
            forall|a: int, b: int|
                0 <= a < b < i && b < t@.len() ==> crate::text::str_le(
                    (#[trigger] t@[a]).0@,
                    (#[trigger] t@[b]).0@,
                ) && t@[a].0@ != t@[b].0@,
        decreases t.len() - i,
    {
        if str_eq(t[i - 1].0, t[i].0) || !crate::text::str_not_after(t[i - 1].0, t[i].0) {
            return false;
        }
        proof {
            assert forall|a: int, b: int| 0 <= a < b < i + 1 && b < t@.len() implies crate::text::str_le(
                (#[trigger] t@[a]).0@,
                (#[trigger] t@[b]).0@,
            ) && t@[a].0@ != t@[b].0@ by {
                if b == i && a < i - 1 {
                    let m = t@[i - 1].0@;
                    assert(le(t@[a].0@, m) && le(m, t@[b].0@));
                    assert(le(t@[a].0@, t@[b].0@));
                    if t@[a].0@ == t@[b].0@ {
                        assert(le(m, t@[a].0@));
                    }
                }
            }
        }
        i += 1;
    }
    true
}

impl Tables {
    fn check_dbf(&self) -> (r: bool)
        requires
            self.lengths_ok(),
        ensures
            r == self.dbf_ok(),
    {
        if !check_ascending(&self.by_dbf) {
            return false;
        }
        let n: usize = self.info.len();
        let mut i: usize = 0;
        while i < self.by_dbf.len()
            invariant
                n == self.info@.len(),
                i <= self.by_dbf@.len(),
                forall|k: int| 0 <= k < i ==> #[trigger] self.dbf_entry_ok(k),
            decreases self.by_dbf.len() - i,
        {
            let (d, at) = self.by_dbf[i];
            if at as usize >= n || self.info[at as usize].dbf != d {
                proof {
                    assert(!self.dbf_entry_ok(i as int));
                }
                return false;
            }
            proof {
                assert(self.dbf_entry_ok(i as int));
            }
            i += 1;
        }
        let mut j: usize = 0;
        while j < n
            invariant
                n == self.info@.len(),
                n <= u16::MAX,
                j <= n,
                crate::order::ascending(self.by_dbf@),
                forall|k: int| 0 <= k < j ==> #[trigger] self.dbf_found(k),
            decreases n - j,
        {
            match find(&self.by_dbf, self.info[j].dbf) {
                Some(k) => {
                    if self.by_dbf[k].1 as usize != j {
                        proof {
                            assert(!self.dbf_found(j as int));
                        }
                        return false;
                    }
                    proof {
                        assert(self.by_dbf@[k as int] == (self.info@[j as int].dbf, j as u16));
                        assert(self.dbf_found(j as int));
                    }
                },
                None => {
                    proof {
                        assert(!self.dbf_found(j as int));
                    }
                    return false;
                },
            }
            j += 1;
        }
        true
    }

    fn check_id(&self) -> (r: bool)
        requires
            self.lengths_ok(),
        ensures
            r == self.id_ok(),
    {
        if !check_ascending_str(&self.by_id) {
            return false;
        }
        let n: usize = self.info.len();
        let mut i: usize = 0;
        while i < self.by_id.len()
            invariant
                n == self.info@.len(),
                i <= self.by_id@.len(),
                forall|k: int| 0 <= k < i ==> #[trigger] self.id_entry_ok(k),
            decreases self.by_id.len() - i,
        {
            let (d, at) = self.by_id[i];
            if at as usize >= n || !str_eq(self.info[at as usize].id, d) {
                proof {
                    assert(!self.id_entry_ok(i as int));
                }
                return false;
            }
            proof {
                assert(self.id_entry_ok(i as int));
            }
            i += 1;
        }
        let mut j: usize = 0;
        while j < n
            invariant
                n == self.info@.len(),
                n <= u16::MAX,
                j <= n,
                crate::order::ascending_str(self.by_id@),
                forall|k: int| 0 <= k < j ==> #[trigger] self.id_found(k),
            decreases n - j,
        {
            match find_str(&self.by_id, self.info[j].id) {
                Some(k) => {
                    if self.by_id[k].1 as usize != j {
                        proof {
                            if self.id_found(j as int) {
                                let i = choose|i: int|
                                    0 <= i < self.by_id@.len() && (#[trigger] self.by_id@[i]).0@
                                        == self.info@[j as int].id@ && self.by_id@[i].1 == j;
                                assert(self.by_id@[i].0@ == self.by_id@[k as int].0@);
                                assert(i == k);
                            }
                        }
                        return false;
                    }
                    proof {
                        assert(self.by_id@[k as int].0@ == self.info@[j as int].id@);
                        assert(self.id_found(j as int));
                    }
                },
                None => {
                    proof {
                        assert(!self.id_found(j as int));
                    }
                    return false;
                },
            }
            j += 1;
        }
        true
    }

    fn is_portrait(&self, j: usize) -> (r: bool)
        requires
            self.lengths_ok(),
            j < self.defs@.len(),
        ensures
            r == self.portrait(j as int),
    {
        self.defs[j].kind() == Kind::Hero && str_eq(self.info[j].set, "HERO_SKINS")
    }

    fn check_name(&self) -> (r: bool)
        requires
            self.lengths_ok(),
        ensures
            r == self.name_ok(),
    {
        if !check_ascending_str(&self.by_name) {
            return false;
        }
        let n: usize = self.info.len();
        let mut i: usize = 0;
        while i < self.by_name.len()
            invariant
                n == self.info@.len(),
                i <= self.by_name@.len(),
                forall|k: int| 0 <= k < i ==> #[trigger] self.name_entry_ok(k),
            decreases self.by_name.len() - i,
        {
            let (d, at) = self.by_name[i];
            if at as usize >= n || !str_eq(self.info[at as usize].name, d) {
                proof {
                    assert(!self.name_entry_ok(i as int));
                }
                return false;
            }
            proof {
                assert(self.name_entry_ok(i as int));
            }
            i += 1;
        }
        let mut j: usize = 0;
        while j < n
            invariant
                n == self.info@.len(),
                self.lengths_ok(),
                j <= n,
                crate::order::ascending_str(self.by_name@),
                forall|k: int| 0 <= k < self.by_name@.len() ==> #[trigger] self.name_entry_ok(k),
                forall|k: int| 0 <= k < j ==> #[trigger] self.name_found(k),
            decreases n - j,
        {
            match find_str(&self.by_name, self.info[j].name) {
                Some(k) => {
                    proof {
                        assert(self.name_entry_ok(k as int));
                    }
                    let at: usize = self.by_name[k].1 as usize;
                    let better = !self.is_portrait(j) && (self.is_portrait(at) || (
                    self.defs[j].collectible && !self.defs[at].collectible));
                    if better {
                        proof {
                            if self.name_found(j as int) {
                                let i = choose|i: int|
                                    0 <= i < self.by_name@.len() && (#[trigger] self.by_name@[i]).0@
                                        == self.info@[j as int].name@ && !self.preferred(
                                        j as int,
                                        self.by_name@[i].1 as int,
                                    );
                                assert(self.by_name@[i].0@ == self.by_name@[k as int].0@);
                                assert(i == k);
                            }
                        }
                        return false;
                    }
                    proof {
                        assert(self.by_name@[k as int].0@ == self.info@[j as int].name@);
                        assert(self.name_found(j as int));
                    }
                },
                None => {
                    proof {
                        assert(!self.name_found(j as int));
                    }
                    return false;
                },
            }
            j += 1;
        }
        true
    }

    fn check_children(&self) -> (r: bool)
        ensures
            r == self.children_ok(),
    {
        let total: u64 = self.child_ids.len() as u64;
        let mut j: usize = 0;
        while j < self.child_slices.len()
            invariant
                total == self.child_ids@.len(),
                j <= self.child_slices@.len(),
                forall|k: int|
                    0 <= k < j ==> (#[trigger] self.child_slices@[k]).0 + self.child_slices@[k].1
                        <= self.child_ids@.len(),
            decreases self.child_slices.len() - j,
        {
            let (start, len) = self.child_slices[j];
            if start as u64 + len as u64 > total {
                return false;
            }
            j += 1;
        }
        let mut k: usize = 0;
        while k < self.child_ids.len()
            invariant
                k <= self.child_ids@.len(),
                forall|i: int| 0 <= i < k ==> #[trigger] self.has(self.child_ids@[i]),
            decreases self.child_ids.len() - k,
        {
            if self.child_ids[k].0 as usize >= self.defs.len() {
                proof {
                    assert(!self.has(self.child_ids@[k as int]));
                }
                return false;
            }
            k += 1;
        }
        true
    }

    fn check_legality(&self) -> (r: bool)
        ensures
            r == self.legality_ok(),
    {
        let mut j: usize = 0;
        while j < self.defs.len()
            invariant
                j <= self.defs@.len(),
                forall|k: int| 0 <= k < j ==> #[trigger] self.standard_is_wild(k),
            decreases self.defs.len() - j,
        {
            let f = self.defs[j].formats;
            if f.has(Formats(Formats::STANDARD)) && !f.has(Formats(Formats::WILD)) {
                proof {
                    assert(!self.standard_is_wild(j as int));
                }
                return false;
            }
            proof {
                assert(self.standard_is_wild(j as int));
            }
            j += 1;
        }
        true
    }

    fn check_list(&self, ids: &[&'static str]) -> (r: bool)
        requires
            self.lengths_ok(),
            self.id_ok(),
        ensures
            r == self.knows_all(ids@),
    {
        let mut i: usize = 0;
        while i < ids.len()
            invariant
                self.lengths_ok(),
                self.id_ok(),
                i <= ids@.len(),
                forall|k: int| 0 <= k < i ==> self.knows((#[trigger] ids@[k])@),
            decreases ids.len() - i,
        {
            match find_str(&self.by_id, ids[i]) {
                None => {
                    proof {
                        if self.knows(ids@[i as int]@) {
                            let j = choose|j: int|
                                0 <= j < self.info@.len() && (#[trigger] self.info@[j]).id@
                                    == ids@[i as int]@;
                            assert(self.id_found(j));
                        }
                    }
                    return false;
                },
                Some(k) => {
                    proof {
                        assert(self.id_entry_ok(k as int));
                        assert(self.info@[self.by_id@[k as int].1 as int].id@ == ids@[i as int]@);
                    }
                },
            }
            i += 1;
        }
        true
    }

    fn check_tokens(&self) -> (r: bool)
        requires
            self.lengths_ok(),
            self.id_ok(),
        ensures
            r == self.tokens_ok(),
    {
        self.check_list(&AURAS) && self.check_list(&DARK_GIFTS) && self.check_list(&DRAWN_ACTORS)
            && self.check_list(&DRAWN_FOR_OPPONENT) && self.check_list(&AWAKENS)
            && self.check_list(&AWAKENED) && self.check_list(&SHATTERS) && self.check_list(
            &LEFT_HALVES,
        ) && self.check_list(&RIGHT_HALVES) && self.check_list(&FIRST_PARTS) && self.check_list(
            &SECOND_PARTS,
        ) && self.check_list(&WHOLES) && self.check_list(&REBORN_KEEPS_ALL) && self.check_list(
            &RATTLES_ANYWHERE,
        ) && self.check_list(&KHADGARS) && self.check_list(&LEYLINES) && self.check_list(
            &UPGRADES_WHILE_HELD,
        ) && self.check_list(&RULES_IN_THE_ENGINE) && self.check_list(&WINDRUNNERS)
            && self.check_list(&IGNORES_TAUNT) && self.check_list(&SHAM_TRIAL) && self.check_list(
            &AZSHARA,
        ) && self.check_list(&CATACLYSMS) && self.check_list(&CONTROLLED)
    }

    /// The first thing wrong with the tables, if anything is.
    pub fn check(&self) -> (r: Option<Flaw>)
        ensures
            r == self.flaw(),
    {
        let n: usize = self.defs.len();
        if n > 65535 || self.info.len() != n || self.by_dbf.len() != n || self.by_id.len() != n
            || self.child_slices.len() != n {
            return Some(Flaw::Lengths);
        }
        if !self.check_dbf() {
            return Some(Flaw::Dbf);
        }
        if !self.check_id() {
            return Some(Flaw::Id);
        }
        if !self.check_name() {
            return Some(Flaw::Name);
        }
        if !self.check_children() {
            return Some(Flaw::Children);
        }
        if !self.check_legality() {
            return Some(Flaw::Legality);
        }
        if !self.check_tokens() {
            return Some(Flaw::Token);
        }
        None
    }
}

// ------------------------------------------------------------------ corpus

/// The card tables with the behaviour rows attached: what every question
/// about a card is asked of.
#[derive(Debug)]
pub struct Corpus {
    pub tables: Tables,
    /// Every implemented card's row.
    pub behaviours: Vec<Behaviour>,
    /// A card's row plus one, with zero meaning "no behaviour". A dense array
    /// over the whole card table turns dispatch into a single load.
    pub index: Vec<u16>,
    /// Which of the three standing hooks a card has, one byte per card.
    pub hooks: Vec<u8>,
}

/// No two rows are for one name, and a row's number plus one fits its place
/// in the index.
pub open spec fn rows_ok(rows: Seq<Behaviour>) -> bool {
    &&& rows.len() < u16::MAX
    &&& forall|i: int, j: int| 0 <= i < j < rows.len() ==> (#[trigger] rows[i]).name@ != (#[trigger] rows[j]).name@
}

/// The standing hooks of a row.
pub open spec fn hook_bits(b: Behaviour) -> u8 {
    ((if b.aura is Some {
        HAS_AURA as int
    } else {
        0
    }) + (if b.bonus is Some {
        HAS_BONUS as int
    } else {
        0
    }) + (if b.trigger is Some {
        HAS_TRIGGER as int
    } else {
        0
    })) as u8
}

impl Corpus {
    pub open spec fn has(self, card: CardId) -> bool {
        self.tables.has(card)
    }

    pub open spec fn len(self) -> nat {
        self.tables.defs@.len()
    }

    pub open spec fn def_of(self, card: CardId) -> CardDef {
        self.tables.defs@[card.0 as int]
    }

    pub open spec fn info_of(self, card: CardId) -> CardInfo {
        self.tables.info@[card.0 as int]
    }

    pub open spec fn name_of(self, card: CardId) -> Seq<char> {
        self.info_of(card).name@
    }

    /// The row of the card at `i`: the row of its name, whatever its
    /// printing.
    pub open spec fn index_ok(self, i: int) -> bool {
        let slot = self.index@[i];
        if slot == 0 {
            forall|k: int|
                0 <= k < self.behaviours@.len() ==> (#[trigger] self.behaviours@[k]).name@
                    != self.tables.info@[i].name@
        } else {
            slot <= self.behaviours@.len() && self.behaviours@[slot - 1].name@
                == self.tables.info@[i].name@
        }
    }

    pub open spec fn hooks_ok(self, i: int) -> bool {
        self.hooks@[i] == if self.index@[i] == 0 {
            0u8
        } else {
            hook_bits(self.behaviours@[self.index@[i] - 1])
        }
    }

    pub open spec fn wf(self) -> bool {
        &&& self.tables.wf()
        &&& rows_ok(self.behaviours@)
        &&& self.index@.len() == self.len()
        &&& self.hooks@.len() == self.len()
        &&& forall|i: int| 0 <= i < self.len() ==> #[trigger] self.index_ok(i)
        &&& forall|i: int| 0 <= i < self.len() ==> #[trigger] self.hooks_ok(i)
    }

    /// A corpus of these tables and rows, or the first thing wrong with them.
    pub fn new(tables: Tables, behaviours: Vec<Behaviour>) -> (r: Result<Corpus, Flaw>)
        ensures
            match r {
                Ok(c) => c.wf() && c.tables == tables && c.behaviours == behaviours,
                Err(f) => match tables.flaw() {
                    Some(g) => f == g,
                    None => f == Flaw::Rows && !rows_ok(behaviours@),
                },
            },
    {
        if let Some(f) = tables.check() {
            return Err(f);
        }
        let names = match names_of_rows(&behaviours) {
            Some(names) => names,
            None => { return Err(Flaw::Rows); },
        };
        let index = index(&tables, &behaviours, &names);
        let hooks = hooks(&behaviours, &index);
        let c = Corpus { tables, behaviours, index, hooks };
        proof {
            assert forall|i: int| 0 <= i < c.len() implies #[trigger] c.index_ok(i) by {
                assert(slot_ok(c.tables, c.behaviours@, i, c.index@[i]));
            }
            assert forall|i: int| 0 <= i < c.len() implies #[trigger] c.hooks_ok(i) by {
                assert(c.index_ok(i));
                assert(c.hooks@[i] == bits_at(c.behaviours@, c.index@[i]));
            }
        }
        Ok(c)
    }
}

/// Whether `slot` is what the index holds for the card at `i`.
spec fn slot_ok(tables: Tables, rows: Seq<Behaviour>, i: int, slot: u16) -> bool {
    if slot == 0 {
        forall|k: int| 0 <= k < rows.len() ==> (#[trigger] rows[k]).name@ != tables.info@[i].name@
    } else {
        slot <= rows.len() && rows[slot - 1].name@ == tables.info@[i].name@
    }
}

spec fn bits_at(rows: Seq<Behaviour>, slot: u16) -> u8 {
    if slot == 0 {
        0u8
    } else {
        hook_bits(rows[slot - 1])
    }
}

/// Whether the list of rows by name holds row `k`.
spec fn row_listed(t: Seq<(&'static str, u16)>, rows: Seq<Behaviour>, k: int) -> bool {
    exists|i: int| 0 <= i < t.len() && #[trigger] t[i] == (rows[k].name, k as u16)
}

/// The rows by name, in the order of the names; nothing if a name comes twice
/// or there are too many rows.
fn names_of_rows(rows: &Vec<Behaviour>) -> (r: Option<Vec<(&'static str, u16)>>)
    ensures
        match r {
            Some(t) => {
                &&& rows_ok(rows@)
                &&& crate::order::ascending_str(t@)
                &&& forall|i: int|
                    0 <= i < t@.len() ==> (#[trigger] t@[i]).1 < rows@.len() && rows@[t@[i].1 as int].name@
                        == t@[i].0@
                &&& forall|k: int| 0 <= k < rows@.len() ==> #[trigger] row_listed(t@, rows@, k)
            },
            None => !rows_ok(rows@),
        },
{
    broadcast use vstd::seq_lib::group_to_multiset_ensures;

    if rows.len() >= 65535 {
        return None;
    }
    let mut list: Vec<(&'static str, u16)> = Vec::new();
    let mut i: usize = 0;
    while i < rows.len()
        invariant
            i <= rows@.len() < 65535,
            list@.len() == i,
            forall|k: int| 0 <= k < i ==> #[trigger] list@[k] == (rows@[k].name, k as u16),
        decreases rows.len() - i,
    {
        list.push((rows[i].name, i as u16));
        i += 1;
    }
    let t = sorted(&list);
    proof {
        assert forall|i: int| 0 <= i < t@.len() implies (#[trigger] t@[i]).1 < rows@.len()
            && rows@[t@[i].1 as int].name@ == t@[i].0@ by {
            assert(t@.contains(t@[i]));
            assert(t@.to_multiset().count(t@[i]) > 0);
            assert(list@.contains(t@[i]));
        }
        assert forall|k: int| 0 <= k < rows@.len() implies #[trigger] row_listed(t@, rows@, k) by {
            assert(list@.contains(list@[k]));
            assert(list@.to_multiset().count(list@[k]) > 0);
            assert(t@.contains(list@[k]));
        }
        assert(t@.len() == t@.to_multiset().len() == list@.len());
    }
    if check_ascending_str(&t) {
        proof {
            assert forall|i: int, j: int| 0 <= i < j < rows@.len() implies (#[trigger] rows@[i]).name@
                != (#[trigger] rows@[j]).name@ by {
                assert(row_listed(t@, rows@, i) && row_listed(t@, rows@, j));
                let a = choose|a: int| 0 <= a < t@.len() && #[trigger] t@[a] == (rows@[i].name, i as u16);
                let b = choose|b: int| 0 <= b < t@.len() && #[trigger] t@[b] == (rows@[j].name, j as u16);
                assert(a != b);
            }
        }
        Some(t)
    } else {
        proof {
            if rows_ok(rows@) {
                lemma_sorted_names_ascend(rows@, list@, t@);
            }
        }
        None
    }
}

proof fn lemma_sorted_names_ascend(
    rows: Seq<Behaviour>,
    list: Seq<(&'static str, u16)>,
    t: Seq<(&'static str, u16)>,
)
    requires
        rows_ok(rows),
        list.len() == rows.len(),
        forall|k: int| 0 <= k < list.len() ==> #[trigger] list[k] == (rows[k].name, k as u16),
        t.to_multiset() == list.to_multiset(),
        crate::order::keys(t) == crate::order::sorted_keys(list),
    ensures
        crate::order::ascending_str(t),
{
    broadcast use vstd::seq_lib::group_to_multiset_ensures;

    let le = crate::order::key_order::<(&'static str, u16)>();
    <(&'static str, u16) as crate::order::Ordered>::key_order_is_total();
    let ks = crate::order::keys(t);
    crate::order::keys(list).lemma_sort_by_ensures(le);
    // No pair stands twice in the list, so none stands twice in what is
    // sorted of it.
    assert(list.no_duplicates());
    list.lemma_multiset_has_no_duplicates();
    t.lemma_multiset_has_no_duplicates_conv();
    assert forall|i: int, j: int| 0 <= i < j < t.len() implies crate::text::str_le(
        (#[trigger] t[i]).0@,
        (#[trigger] t[j]).0@,
    ) && t[i].0@ != t[j].0@ by {
        assert(le(ks[i], ks[j]));
        assert(ks[i] == (t[i].0@, t[i].1) && ks[j] == (t[j].0@, t[j].1));
        if t[i].0@ == t[j].0@ {
            assert(t.to_multiset().count(t[i]) > 0) by {
                assert(t.contains(t[i]));
            }
            assert(t.to_multiset().count(t[j]) > 0) by {
                assert(t.contains(t[j]));
            }
            assert(list.contains(t[i]));
            assert(list.contains(t[j]));
            let a = t[i].1 as int;
            let b = t[j].1 as int;
            assert(list[a] == t[i] && list[b] == t[j]);
            assert(rows[a].name@ == rows[b].name@);
            assert(a == b);
            assert(t[i] == t[j]);
        }
    }
}

/// Every card's row plus one, zero where its name has none.
fn index(tables: &Tables, rows: &Vec<Behaviour>, names: &Vec<(&'static str, u16)>) -> (out: Vec<u16>)
    requires
        tables.lengths_ok(),
        rows_ok(rows@),
        crate::order::ascending_str(names@),
        forall|i: int|
            0 <= i < names@.len() ==> (#[trigger] names@[i]).1 < rows@.len()
                && rows@[names@[i].1 as int].name@ == names@[i].0@,
        forall|k: int| 0 <= k < rows@.len() ==> #[trigger] row_listed(names@, rows@, k),
    ensures
        out@.len() == tables.defs@.len(),
        forall|i: int| 0 <= i < out@.len() ==> slot_ok(*tables, rows@, i, #[trigger] out@[i]),
{
    let mut out: Vec<u16> = Vec::new();
    let mut i: usize = 0;
    while i < tables.info.len()
        invariant
            i <= tables.info@.len(),
            out@.len() == i,
            rows_ok(rows@),
            crate::order::ascending_str(names@),
            forall|i: int|
                0 <= i < names@.len() ==> (#[trigger] names@[i]).1 < rows@.len()
                    && rows@[names@[i].1 as int].name@ == names@[i].0@,
            forall|k: int| 0 <= k < rows@.len() ==> #[trigger] row_listed(names@, rows@, k),
            forall|k: int| 0 <= k < i ==> slot_ok(*tables, rows@, k, #[trigger] out@[k]),
        decreases tables.info.len() - i,
    {
        let slot: u16 = match find_str(names, tables.info[i].name) {
            Some(k) => {
                assert(names@[k as int].1 < rows@.len());
                names[k].1 + 1
            },
            None => 0,
        };
        out.push(slot);
        proof {
            if slot == 0 {
                assert forall|k: int| 0 <= k < rows@.len() implies (#[trigger] rows@[k]).name@
                    != tables.info@[i as int].name@ by {
                    assert(row_listed(names@, rows@, k));
                }
            }
            assert(slot_ok(*tables, rows@, i as int, slot));
        }
        i += 1;
    }
    out
}

/// Every card's standing hooks.
fn hooks(rows: &Vec<Behaviour>, index: &Vec<u16>) -> (out: Vec<u8>)
    requires
        forall|i: int| 0 <= i < index@.len() ==> (#[trigger] index@[i]) <= rows@.len(),
    ensures
        out@.len() == index@.len(),
        forall|i: int| 0 <= i < out@.len() ==> #[trigger] out@[i] == bits_at(rows@, index@[i]),
{
    let mut out: Vec<u8> = Vec::new();
    let mut i: usize = 0;
    while i < index.len()
        invariant
            i <= index@.len(),
            out@.len() == i,
            forall|i: int| 0 <= i < index@.len() ==> (#[trigger] index@[i]) <= rows@.len(),
            forall|k: int| 0 <= k < i ==> #[trigger] out@[k] == bits_at(rows@, index@[k]),
        decreases index.len() - i,
    {
        let slot: usize = index[i] as usize;
        let mut bits: u8 = 0;
        if slot != 0 {
            let b = &rows[slot - 1];
            if b.aura.is_some() {
                bits = bits + HAS_AURA;
            }
            if b.bonus.is_some() {
                bits = bits + HAS_BONUS;
            }
            if b.trigger.is_some() {
                bits = bits + HAS_TRIGGER;
            }
        }
        out.push(bits);
        i += 1;
    }
    out
}

} // verus!
