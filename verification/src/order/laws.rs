//! What sorting and searching come to.

use vstd::prelude::*;

use super::{key_order, keys, sorted_keys, Ordered};

verus! {

/// Sorted numbers ascend.
pub proof fn lemma_sorted_numbers(v: Seq<u32>, r: Seq<u32>, i: int, j: int)
    requires
        keys(r) == sorted_keys(v),
        0 <= i < j < r.len(),
    ensures
        r.len() == v.len(),
        r[i] <= r[j],
{
    <u32 as Ordered>::key_order_is_total();
    let le = key_order::<u32>();
    keys(v).lemma_sort_by_ensures(le);
    let ks = keys(r);
    assert(ks.len() == v.len()) by {
        broadcast use vstd::seq_lib::group_to_multiset_ensures;

        assert(ks.to_multiset().len() == keys(v).to_multiset().len());
    }
    assert(le(ks[i], ks[j]));
    assert(ks[i] == r[i] && ks[j] == r[j]);
}

/// Sorted pairs ascend by the first number, and those that share it by the
/// second.
pub proof fn lemma_sorted_pairs(v: Seq<(u32, u32)>, r: Seq<(u32, u32)>, i: int, j: int)
    requires
        keys(r) == sorted_keys(v),
        0 <= i < j < r.len(),
    ensures
        r.len() == v.len(),
        r[i].0 <= r[j].0,
        r[i].0 == r[j].0 ==> r[i].1 <= r[j].1,
{
    <(u32, u32) as Ordered>::key_order_is_total();
    let le = key_order::<(u32, u32)>();
    keys(v).lemma_sort_by_ensures(le);
    let ks = keys(r);
    assert(ks.len() == v.len()) by {
        broadcast use vstd::seq_lib::group_to_multiset_ensures;

        assert(ks.to_multiset().len() == keys(v).to_multiset().len());
    }
    assert(le(ks[i], ks[j]));
    assert(ks[i] == r[i] && ks[j] == r[j]);
}

/// Sorted ranks ascend by cost, and those of one cost by place.
pub proof fn lemma_sorted_ranks(v: Seq<(i16, u16)>, r: Seq<(i16, u16)>, i: int, j: int)
    requires
        keys(r) == sorted_keys(v),
        0 <= i < j < r.len(),
    ensures
        r.len() == v.len(),
        r[i].0 <= r[j].0,
        r[i].0 == r[j].0 ==> r[i].1 <= r[j].1,
{
    <(i16, u16) as Ordered>::key_order_is_total();
    let le = key_order::<(i16, u16)>();
    keys(v).lemma_sort_by_ensures(le);
    let ks = keys(r);
    assert(ks.len() == v.len()) by {
        broadcast use vstd::seq_lib::group_to_multiset_ensures;

        assert(ks.to_multiset().len() == keys(v).to_multiset().len());
    }
    assert(le(ks[i], ks[j]));
    assert(ks[i] == r[i] && ks[j] == r[j]);
}

/// Sorted names ascend.
pub proof fn lemma_sorted_names(v: Seq<&'static str>, r: Seq<&'static str>, i: int, j: int)
    requires
        keys(r) == sorted_keys(v),
        0 <= i < j < r.len(),
    ensures
        r.len() == v.len(),
        crate::text::str_le(r[i]@, r[j]@),
{
    <&'static str as Ordered>::key_order_is_total();
    let le = key_order::<&'static str>();
    keys(v).lemma_sort_by_ensures(le);
    let ks = keys(r);
    assert(ks.len() == v.len()) by {
        broadcast use vstd::seq_lib::group_to_multiset_ensures;

        assert(ks.to_multiset().len() == keys(v).to_multiset().len());
    }
    assert(le(ks[i], ks[j]));
    assert(ks[i] == r[i]@ && ks[j] == r[j]@);
}

/// Sorted lines ascend by name, and those of one name by copies.
pub proof fn lemma_sorted_lines(v: Seq<(&'static str, u32)>, r: Seq<(&'static str, u32)>, i: int, j: int)
    requires
        keys(r) == sorted_keys(v),
        0 <= i < j < r.len(),
    ensures
        r.len() == v.len(),
        r[i].0@ != r[j].0@ ==> crate::text::str_le(r[i].0@, r[j].0@),
        r[i].0@ == r[j].0@ ==> r[i].1 <= r[j].1,
{
    <(&'static str, u32) as Ordered>::key_order_is_total();
    let le = key_order::<(&'static str, u32)>();
    keys(v).lemma_sort_by_ensures(le);
    let ks = keys(r);
    assert(ks.len() == v.len()) by {
        broadcast use vstd::seq_lib::group_to_multiset_ensures;

        assert(ks.to_multiset().len() == keys(v).to_multiset().len());
    }
    assert(le(ks[i], ks[j]));
    assert(ks[i] == (r[i].0@, r[i].1) && ks[j] == (r[j].0@, r[j].1));
}

/// Sorted entries ascend by name, and those of one name by place.
pub proof fn lemma_sorted_entries(v: Seq<(&'static str, u16)>, r: Seq<(&'static str, u16)>, i: int, j: int)
    requires
        keys(r) == sorted_keys(v),
        0 <= i < j < r.len(),
    ensures
        r.len() == v.len(),
        r[i].0@ != r[j].0@ ==> crate::text::str_le(r[i].0@, r[j].0@),
        r[i].0@ == r[j].0@ ==> r[i].1 <= r[j].1,
{
    <(&'static str, u16) as Ordered>::key_order_is_total();
    let le = key_order::<(&'static str, u16)>();
    keys(v).lemma_sort_by_ensures(le);
    let ks = keys(r);
    assert(ks.len() == v.len()) by {
        broadcast use vstd::seq_lib::group_to_multiset_ensures;

        assert(ks.to_multiset().len() == keys(v).to_multiset().len());
    }
    assert(le(ks[i], ks[j]));
    assert(ks[i] == (r[i].0@, r[i].1) && ks[j] == (r[j].0@, r[j].1));
}

} // verus!
