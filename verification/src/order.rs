//! Sorting, and looking things up in sorted tables.

use vstd::prelude::*;

use crate::text::str_not_after;

pub mod laws;

verus! {

/// A value that sorts by a key whose order is total.
pub trait Ordered: Sized {
    /// What the value sorts by.
    type Key;

    spec fn key(self) -> Self::Key;

    spec fn key_le(a: Self::Key, b: Self::Key) -> bool;

    /// The keys are totally ordered.
    proof fn key_order_is_total()
        ensures
            vstd::relations::total_ordering(|a: Self::Key, b: Self::Key| Self::key_le(a, b)),
    ;

    /// Whether `self` sorts no later than `other`.
    fn not_after(&self, other: &Self) -> (r: bool)
        ensures
            r == Self::key_le(self.key(), other.key()),
    ;
}

/// The order of a type's keys.
pub open spec fn key_order<T: Ordered>() -> spec_fn(T::Key, T::Key) -> bool {
    |a: T::Key, b: T::Key| T::key_le(a, b)
}

/// The keys of a list, in its order.
pub open spec fn keys<T: Ordered>(s: Seq<T>) -> Seq<T::Key> {
    s.map_values(|x: T| x.key())
}

/// The keys of a list, in ascending order.
pub open spec fn sorted_keys<T: Ordered>(s: Seq<T>) -> Seq<T::Key> {
    keys(s).sort_by(key_order::<T>())
}

impl Ordered for u32 {
    type Key = u32;

    open spec fn key(self) -> u32 {
        self
    }

    open spec fn key_le(a: u32, b: u32) -> bool {
        a <= b
    }

    proof fn key_order_is_total() {
    }

    fn not_after(&self, other: &Self) -> (r: bool) {
        *self <= *other
    }
}

/// Lexicographic order on pairs of numbers.
pub open spec fn pair_le(a: (int, int), b: (int, int)) -> bool {
    a.0 < b.0 || (a.0 == b.0 && a.1 <= b.1)
}

impl Ordered for (u32, u32) {
    type Key = (u32, u32);

    open spec fn key(self) -> (u32, u32) {
        self
    }

    open spec fn key_le(a: (u32, u32), b: (u32, u32)) -> bool {
        pair_le((a.0 as int, a.1 as int), (b.0 as int, b.1 as int))
    }

    proof fn key_order_is_total() {
    }

    fn not_after(&self, other: &Self) -> (r: bool) {
        self.0 < other.0 || (self.0 == other.0 && self.1 <= other.1)
    }
}

impl Ordered for (i16, u16) {
    type Key = (i16, u16);

    open spec fn key(self) -> (i16, u16) {
        self
    }

    open spec fn key_le(a: (i16, u16), b: (i16, u16)) -> bool {
        pair_le((a.0 as int, a.1 as int), (b.0 as int, b.1 as int))
    }

    proof fn key_order_is_total() {
    }

    fn not_after(&self, other: &Self) -> (r: bool) {
        self.0 < other.0 || (self.0 == other.0 && self.1 <= other.1)
    }
}

impl Ordered for &'static str {
    type Key = Seq<char>;

    open spec fn key(self) -> Seq<char> {
        self@
    }

    open spec fn key_le(a: Seq<char>, b: Seq<char>) -> bool {
        crate::text::str_le(a, b)
    }

    proof fn key_order_is_total() {
        crate::text::lemma_str_le_total();
    }

    fn not_after(&self, other: &Self) -> (r: bool) {
        str_not_after(self, other)
    }
}

impl Ordered for (&'static str, u32) {
    type Key = (Seq<char>, u32);

    open spec fn key(self) -> (Seq<char>, u32) {
        (self.0@, self.1)
    }

    open spec fn key_le(a: (Seq<char>, u32), b: (Seq<char>, u32)) -> bool {
        if a.0 == b.0 {
            a.1 <= b.1
        } else {
            crate::text::str_le(a.0, b.0)
        }
    }

    proof fn key_order_is_total() {
        crate::text::lemma_str_le_total();
        let le = |a: Self::Key, b: Self::Key| Self::key_le(a, b);
        assert forall|a: Self::Key, b: Self::Key| #[trigger]
            le(a, b) && #[trigger] le(b, a) implies a == b by {}
        assert forall|a: Self::Key, b: Self::Key, c: Self::Key| #[trigger]
            le(a, b) && #[trigger] le(b, c) implies le(a, c) by {
            if a.0 != b.0 && b.0 != c.0 {
                assert(crate::text::str_le(a.0, b.0) && crate::text::str_le(b.0, c.0));
                assert(crate::text::str_le(a.0, c.0));
                if a.0 == c.0 {
                    assert(crate::text::str_le(b.0, a.0));
                }
            }
        }
        assert forall|a: Self::Key, b: Self::Key| #[trigger] le(a, b) || #[trigger] le(b, a) by {
            assert(crate::text::str_le(a.0, b.0) || crate::text::str_le(b.0, a.0));
        }
    }

    fn not_after(&self, other: &Self) -> (r: bool) {
        proof {
            crate::text::lemma_str_le_total();
        }
        if str_not_after(self.0, other.0) {
            if str_not_after(other.0, self.0) {
                self.1 <= other.1
            } else {
                true
            }
        } else {
            false
        }
    }
}

impl Ordered for (&'static str, u16) {
    type Key = (Seq<char>, u16);

    open spec fn key(self) -> (Seq<char>, u16) {
        (self.0@, self.1)
    }

    open spec fn key_le(a: (Seq<char>, u16), b: (Seq<char>, u16)) -> bool {
        if a.0 == b.0 {
            a.1 <= b.1
        } else {
            crate::text::str_le(a.0, b.0)
        }
    }

    proof fn key_order_is_total() {
        crate::text::lemma_str_le_total();
        let le = |a: Self::Key, b: Self::Key| Self::key_le(a, b);
        assert forall|a: Self::Key, b: Self::Key| #[trigger]
            le(a, b) && #[trigger] le(b, a) implies a == b by {}
        assert forall|a: Self::Key, b: Self::Key, c: Self::Key| #[trigger]
            le(a, b) && #[trigger] le(b, c) implies le(a, c) by {
            if a.0 != b.0 && b.0 != c.0 {
                assert(crate::text::str_le(a.0, b.0) && crate::text::str_le(b.0, c.0));
                assert(crate::text::str_le(a.0, c.0));
                if a.0 == c.0 {
                    assert(crate::text::str_le(b.0, a.0));
                }
            }
        }
        assert forall|a: Self::Key, b: Self::Key| #[trigger] le(a, b) || #[trigger] le(b, a) by {
            assert(crate::text::str_le(a.0, b.0) || crate::text::str_le(b.0, a.0));
        }
    }

    fn not_after(&self, other: &Self) -> (r: bool) {
        proof {
            crate::text::lemma_str_le_total();
        }
        if str_not_after(self.0, other.0) {
            if str_not_after(other.0, self.0) {
                self.1 <= other.1
            } else {
                true
            }
        } else {
            false
        }
    }
}

proof fn lemma_insert_multiset<A>(s: Seq<A>, i: int, a: A)
    requires
        0 <= i <= s.len(),
    ensures
        s.insert(i, a).to_multiset() == s.to_multiset().insert(a),
{
    broadcast use vstd::seq_lib::group_to_multiset_ensures;

    let t = s.insert(i, a);
    assert(t.remove(i) =~= s);
    assert(t[i] == a);
    assert(t.contains(a));
    assert(t.to_multiset().count(a) > 0);
    assert(t.remove(i).to_multiset() =~= t.to_multiset().remove(a));
    assert(s.to_multiset().insert(a) =~= t.to_multiset());
}

/// Two lists of the same values give two lists of the same images.
pub proof fn lemma_map_multiset<A, B>(a: Seq<A>, b: Seq<A>, f: spec_fn(A) -> B)
    requires
        a.to_multiset() == b.to_multiset(),
    ensures
        a.map_values(f).to_multiset() == b.map_values(f).to_multiset(),
    decreases a.len(),
{
    broadcast use vstd::seq_lib::group_to_multiset_ensures;

    assert(a.len() == a.to_multiset().len() == b.to_multiset().len() == b.len());
    if a.len() == 0 {
        assert(a.map_values(f) =~= b.map_values(f));
    } else {
        let x = a.last();
        assert(a.contains(x));
        assert(a.to_multiset().count(x) > 0);
        assert(b.contains(x));
        let j = choose|j: int| 0 <= j < b.len() && b[j] == x;
        let rest = b.remove(j);
        let front = a.drop_last();
        assert(front.push(x) =~= a);
        vstd::seq_lib::to_multiset_build(front, x);
        assert(rest.to_multiset() =~= b.to_multiset().remove(x));
        assert(front.to_multiset() =~= rest.to_multiset());
        lemma_map_multiset(front, rest, f);
        assert(a.map_values(f) =~= front.map_values(f).push(f(x)));
        vstd::seq_lib::to_multiset_build(front.map_values(f), f(x));
        assert(b.map_values(f).remove(j) =~= rest.map_values(f));
        assert(b.map_values(f)[j] == f(x));
        assert(b.map_values(f).contains(f(x)));
        assert(b.map_values(f).to_multiset().count(f(x)) > 0);
        assert(rest.map_values(f).to_multiset() =~= b.map_values(f).to_multiset().remove(f(x)));
        assert(a.map_values(f).to_multiset() =~= b.map_values(f).to_multiset());
    }
}

/// Two lists of the same values keep the same values.
pub proof fn lemma_filter_multiset<A>(a: Seq<A>, b: Seq<A>, keep: spec_fn(A) -> bool)
    requires
        a.to_multiset() == b.to_multiset(),
    ensures
        a.filter(keep).to_multiset() == b.filter(keep).to_multiset(),
{
    assert forall|x: A|
        #[trigger] a.filter(keep).to_multiset().count(x) == b.filter(keep).to_multiset().count(x) by {
        lemma_kept_count(a, keep, x);
        lemma_kept_count(b, keep, x);
    }
    assert(a.filter(keep).to_multiset() =~= b.filter(keep).to_multiset());
}

/// Filtering keeps a value as often as it stood there, or not at all.
pub proof fn lemma_kept_count<A>(s: Seq<A>, keep: spec_fn(A) -> bool, x: A)
    ensures
        s.filter(keep).to_multiset().count(x) == if keep(x) {
            s.to_multiset().count(x)
        } else {
            0
        },
    decreases s.len(),
{
    broadcast use vstd::seq_lib::group_to_multiset_ensures;

    reveal(Seq::filter);
    if s.len() > 0 {
        let t = s.drop_last();
        lemma_kept_count(t, keep, x);
        assert(s =~= t.push(s.last()));
        vstd::seq_lib::to_multiset_build(t, s.last());
        vstd::seq_lib::to_multiset_build(t.filter(keep), s.last());
    } else {
        vstd::seq_lib::to_multiset_contains(s, x);
    }
}

/// Two lists of the same values sort alike.
pub proof fn lemma_sort_multiset<A>(a: Seq<A>, b: Seq<A>, le: spec_fn(A, A) -> bool)
    requires
        vstd::relations::total_ordering(le),
        a.to_multiset() == b.to_multiset(),
    ensures
        a.sort_by(le) == b.sort_by(le),
{
    a.lemma_sort_by_ensures(le);
    b.lemma_sort_by_ensures(le);
    vstd::seq_lib::lemma_sorted_unique(a.sort_by(le), b.sort_by(le), le);
}

/// The values of `v`, sorted.
pub fn sorted<T: Ordered + Copy>(v: &Vec<T>) -> (r: Vec<T>)
    ensures
        r@.to_multiset() == v@.to_multiset(),
        keys(r@) == sorted_keys(v@),
{
    proof {
        T::key_order_is_total();
    }
    let ghost le = key_order::<T>();
    let mut out: Vec<T> = Vec::new();
    let mut n: usize = 0;
    proof {
        assert(v@.take(0) =~= out@);
    }
    while n < v.len()
        invariant
            n <= v@.len(),
            le == key_order::<T>(),
            vstd::relations::total_ordering(le),
            out@.len() == n,
            out@.to_multiset() == v@.take(n as int).to_multiset(),
            keys(out@).to_multiset() == keys(v@.take(n as int)).to_multiset(),
            vstd::relations::sorted_by(keys(out@), le),
        decreases v.len() - n,
    {
        let x: T = v[n];
        // The first place whose value sorts after `x`.
        let mut at: usize = out.len();
        while at > 0 && !out[at - 1].not_after(&x)
            invariant
                at <= out@.len(),
                forall|j: int| at <= j < out@.len() ==> !T::key_le(#[trigger] out@[j].key(), x.key()),
            decreases at,
        {
            at -= 1;
        }
        let ghost before = out@;
        out.insert(at, x);
        proof {
            lemma_insert_multiset(before, at as int, x);
            assert(keys(out@) =~= keys(before).insert(at as int, x.key()));
            lemma_insert_multiset(keys(before), at as int, x.key());
            assert(v@.take(n + 1) =~= v@.take(n as int).push(x));
            assert(keys(v@.take(n + 1)) =~= keys(v@.take(n as int)).push(x.key()));
            vstd::seq_lib::to_multiset_build(v@.take(n as int), x);
            vstd::seq_lib::to_multiset_build(keys(v@.take(n as int)), x.key());
            let ks = keys(out@);
            let kb = keys(before);
            assert forall|i: int, j: int| 0 <= i < j < ks.len() implies #[trigger] le(ks[i], ks[j]) by {
                if i != at && j != at {
                    let ii = if i < at { i } else { i - 1 };
                    let jj = if j < at { j } else { j - 1 };
                    assert(le(kb[ii], kb[jj]));
                } else if j == at {
                    assert(le(kb[at - 1], x.key()));
                    if i < at - 1 {
                        assert(le(kb[i], kb[at - 1]));
                    }
                } else {
                    assert(!T::key_le(before[j - 1].key(), x.key()));
                    assert(le(kb[j - 1], x.key()) || le(x.key(), kb[j - 1]));
                }
            }
        }
        n += 1;
    }
    proof {
        assert(v@.take(n as int) =~= v@);
        keys(v@).lemma_sort_by_ensures(le);
        vstd::seq_lib::lemma_sorted_unique(keys(out@), keys(v@).sort_by(le), le);
    }
    out
}

// ----------------------------------------------------------------- search

/// A table in strictly ascending order of its numbers.
pub open spec fn ascending(t: Seq<(u32, u16)>) -> bool {
    forall|i: int, j: int| 0 <= i < j < t.len() ==> (#[trigger] t[i]).0 < (#[trigger] t[j]).0
}

/// A table in strictly ascending order of its strings.
pub open spec fn ascending_str(t: Seq<(&'static str, u16)>) -> bool {
    forall|i: int, j: int|
        0 <= i < j < t.len() ==> crate::text::str_le((#[trigger] t[i]).0@, (#[trigger] t[j]).0@)
            && t[i].0@ != t[j].0@
}

/// Where a number stands in a table.
pub fn find(t: &Vec<(u32, u16)>, key: u32) -> (r: Option<usize>)
    requires
        ascending(t@),
    ensures
        match r {
            Some(i) => i < t@.len() && t@[i as int].0 == key,
            None => forall|i: int| 0 <= i < t@.len() ==> (#[trigger] t@[i]).0 != key,
        },
{
    let mut lo: usize = 0;
    let mut hi: usize = t.len();
    while lo < hi
        invariant
            lo <= hi <= t@.len(),
            ascending(t@),
            forall|i: int| 0 <= i < lo ==> (#[trigger] t@[i]).0 < key,
            forall|i: int| hi <= i < t@.len() ==> (#[trigger] t@[i]).0 > key,
        decreases hi - lo,
    {
        let mid: usize = lo + (hi - lo) / 2;
        let at: u32 = t[mid].0;
        if at == key {
            return Some(mid);
        }
        if at < key {
            lo = mid + 1;
        } else {
            hi = mid;
        }
    }
    None
}

/// Where a string stands in a table.
pub fn find_str(t: &Vec<(&'static str, u16)>, key: &str) -> (r: Option<usize>)
    requires
        ascending_str(t@),
    ensures
        match r {
            Some(i) => i < t@.len() && t@[i as int].0@ == key@,
            None => forall|i: int| 0 <= i < t@.len() ==> (#[trigger] t@[i]).0@ != key@,
        },
{
    proof {
        crate::text::lemma_str_le_total();
    }
    let mut lo: usize = 0;
    let mut hi: usize = t.len();
    while lo < hi
        invariant
            lo <= hi <= t@.len(),
            ascending_str(t@),
            vstd::relations::total_ordering(|a: Seq<char>, b: Seq<char>| crate::text::str_le(a, b)),
            forall|i: int|
                0 <= i < lo ==> crate::text::str_le((#[trigger] t@[i]).0@, key@) && t@[i].0@ != key@,
            forall|i: int|
                hi <= i < t@.len() ==> crate::text::str_le(key@, (#[trigger] t@[i]).0@) && t@[i].0@
                    != key@,
        decreases hi - lo,
    {
        let mid: usize = lo + (hi - lo) / 2;
        let at = t[mid].0;
        let ghost le = |a: Seq<char>, b: Seq<char>| crate::text::str_le(a, b);
        if str_not_after(at, key) {
            if str_not_after(key, at) {
                assert(le(at@, key@) && le(key@, at@));
                return Some(mid);
            }
            proof {
                assert(le(key@, key@));
                assert forall|i: int| 0 <= i < mid + 1 implies crate::text::str_le((#[trigger] t@[i]).0@, key@)
                    && t@[i].0@ != key@ by {
                    if i < mid {
                        assert(le(t@[i].0@, at@) && le(at@, key@));
                        assert(le(t@[i].0@, key@));
                        if t@[i].0@ == key@ {
                            assert(le(key@, at@));
                        }
                    }
                }
            }
            lo = mid + 1;
        } else {
            proof {
                assert(le(at@, at@));
                assert(le(at@, key@) || le(key@, at@));
                assert forall|i: int| mid <= i < t@.len() implies crate::text::str_le(key@, (#[trigger] t@[i]).0@)
                    && t@[i].0@ != key@ by {
                    if i > mid {
                        assert(le(key@, at@) && le(at@, t@[i].0@));
                        assert(le(key@, t@[i].0@));
                        if t@[i].0@ == key@ {
                            assert(le(at@, key@));
                        }
                    }
                }
            }
            hi = mid;
        }
    }
    None
}

} // verus!
