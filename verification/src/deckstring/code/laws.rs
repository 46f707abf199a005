//! How the bytes of a deck code are laid out.

use vstd::prelude::*;

use super::super::varint::{varint, varints};
use super::super::CodeError;

verus! {

/// Numbers behind how many there are of them.
pub open spec fn run(ns: Seq<u32>) -> Seq<u8> {
    varint(ns.len()) + varints(ns)
}

/// Records of two numbers behind how many there are of them.
pub open spec fn pair_run(ps: Seq<(u32, u32)>) -> Seq<u8> {
    varint(ps.len()) + varints(super::flat(ps))
}

/// Pairs as numbers: the first of each, then the second.
pub proof fn lemma_flat(ps: Seq<(u32, u32)>, i: int)
    requires
        0 <= i < ps.len(),
    ensures
        super::flat(ps).len() == 2 * ps.len(),
        super::flat(ps)[2 * i] == ps[i].0,
        super::flat(ps)[2 * i + 1] == ps[i].1,
{
    assert((2 * i) / 2 == i && (2 * i + 1) / 2 == i && (2 * i + 1) % 2 == 1);
}

proof fn lemma_run(ns: Seq<u32>, t: Seq<u8>)
    requires
        ns.len() <= u32::MAX,
    ensures
        super::super::varint::read_list(run(ns) + t) == Ok::<(Seq<u32>, Seq<u8>), CodeError>((ns, t)),
{
    super::lemma_read_list_round_trip(ns, t);
    super::lemma_varints_head(super::length(ns.len()), ns, t);
    assert(run(ns) + t =~= varint(ns.len()) + (varints(ns) + t));
}

proof fn lemma_pair_run(ps: Seq<(u32, u32)>, t: Seq<u8>)
    requires
        ps.len() <= u32::MAX,
    ensures
        super::super::varint::read_records(pair_run(ps) + t, 2) == Ok::<
            (Seq<u32>, Seq<u8>),
            CodeError,
        >((super::flat(ps), t)),
{
    super::lemma_read_pairs_round_trip(ps, t);
    super::lemma_varints_head(super::length(ps.len()), super::flat(ps), t);
    assert(pair_run(ps) + t =~= varint(ps.len()) + (varints(super::flat(ps)) + t));
}

/// A code is nought, the version, the format, the heroes, the single cards,
/// the pairs, and what comes in other numbers with that number; then the
/// sideboard, if there is one.
pub proof fn lemma_layout(
    version: u32,
    format: u32,
    heroes: Seq<u32>,
    ones: Seq<u32>,
    twos: Seq<u32>,
    more: Seq<(u32, u32)>,
    tail: Seq<u8>,
)
    requires
        heroes.len() <= u32::MAX,
        ones.len() <= u32::MAX,
        twos.len() <= u32::MAX,
        more.len() <= u32::MAX,
    ensures
        ({
            let bytes = varint(0) + (varint(version as nat) + (varint(format as nat) + (run(heroes) + (
            run(ones) + (run(twos) + (pair_run(more) + tail))))));
            match (super::parsed(bytes), super::sideboard_section(tail)) {
                (Ok(d), Ok(side)) => {
                    &&& d.version == version
                    &&& d.format == format
                    &&& d.heroes == heroes
                    &&& d.sideboards == side
                    &&& d.cards.len() == ones.len() + twos.len() + more.len()
                    &&& forall|i: int| 0 <= i < ones.len() ==> #[trigger] d.cards[i] == (ones[i], 1u32)
                    &&& forall|i: int|
                        ones.len() <= i < ones.len() + twos.len() ==> #[trigger] d.cards[i] == (
                            twos[i - ones.len()],
                            2u32,
                        )
                    &&& forall|i: int|
                        ones.len() + twos.len() <= i < d.cards.len() ==> #[trigger] d.cards[i]
                            == more[i - ones.len() - twos.len()]
                },
                (Err(e), Err(f)) => e == f,
                _ => false,
            }
        }),
{
    let t3 = pair_run(more) + tail;
    let t2 = run(twos) + t3;
    let t1 = run(ones) + t2;
    let t0 = run(heroes) + t1;
    let head = seq![version, format];
    let rest = varint(version as nat) + (varint(format as nat) + t0);
    assert(varints(head) + t0 =~= rest) by {
        assert(head.drop_first() =~= seq![format]);
        assert(head.drop_first().drop_first() =~= Seq::<u32>::empty());
        assert(varints(seq![format]) =~= varint(format as nat) + varints(Seq::<u32>::empty()));
    }
    super::super::varint::lemma_varint_round_trip(0, rest);
    super::super::varint::lemma_varints_round_trip(head, t0);
    lemma_run(heroes, t1);
    lemma_run(ones, t2);
    lemma_run(twos, t3);
    lemma_pair_run(more, tail);
    assert(super::pairs(super::flat(more)) =~= more);
    let bytes = varint(0) + rest;
    assert(super::header(bytes) == Ok::<(u32, u32, Seq<u32>, Seq<u8>), CodeError>(
        (version, format, heroes, t1),
    ));
    assert(super::card_sections(t1) == Ok::<(Seq<(u32, u32)>, Seq<u8>), CodeError>(
        (super::each(ones, 1) + super::each(twos, 2) + more, tail),
    ));
}

/// A sideboard is nothing, a nought or a one and then the cards that come
/// once, twice and more often, each with its owner behind it.
pub proof fn lemma_sideboard_layout(
    ones: Seq<(u32, u32)>,
    twos: Seq<(u32, u32)>,
    more: Seq<u32>,
    n: nat,
    i: int,
)
    requires
        ones.len() <= u32::MAX,
        twos.len() <= u32::MAX,
        n <= u32::MAX,
        more.len() == 3 * n,
    ensures
        super::sideboard_section(Seq::<u8>::empty()) == Ok::<Seq<(u32, u32, u32)>, CodeError>(seq![]),
        super::sideboard_section(varint(0)) == Ok::<Seq<(u32, u32, u32)>, CodeError>(seq![]),
        ({
            let bytes = varint(1) + (pair_run(ones) + (pair_run(twos) + (varint(n) + varints(more))));
            super::sideboard_section(bytes) matches Ok(side) && {
                &&& side.len() == ones.len() + twos.len() + n
                &&& 0 <= i < ones.len() ==> side[i] == (ones[i].0, 1u32, ones[i].1)
                &&& 0 <= i < twos.len() ==> side[ones.len() + i] == (twos[i].0, 2u32, twos[i].1)
                &&& 0 <= i < n ==> side[ones.len() + twos.len() + i] == (
                    more[3 * i],
                    more[3 * i + 1],
                    more[3 * i + 2],
                )
            }
        }),
{
    let t2 = varint(n) + varints(more);
    let t1 = pair_run(twos) + t2;
    let t0 = pair_run(ones) + t1;
    let none = Seq::<u8>::empty();
    super::super::varint::lemma_varint_round_trip(0, none);
    assert(varint(0) + none =~= varint(0));
    assert(varint(0).len() == 1);
    super::super::varint::lemma_varint_round_trip(1, t0);
    lemma_pair_run(ones, t1);
    lemma_pair_run(twos, t2);
    super::super::varint::lemma_varint_round_trip(n as u32, varints(more));
    super::super::varint::lemma_varints_round_trip(more, none);
    assert(varints(more) + none =~= varints(more));
    let (a, b) = (super::flat(ones), super::flat(twos));
    if 0 <= i < ones.len() {
        lemma_flat(ones, i);
    }
    if 0 <= i < twos.len() {
        lemma_flat(twos, i);
    }
}

/// What is written of a deck: version one, one hero, the cards by their
/// section, sorted, and no sideboard.
pub proof fn lemma_written_deck(hero_dbf: u32, cards: Seq<(u32, u32)>, format_byte: u32)
    requires
        super::tellable(cards),
    ensures
        super::code_bytes(hero_dbf, cards, format_byte) == varint(0) + (varint(1) + (varint(
            format_byte as nat,
        ) + (run(seq![hero_dbf]) + (run(super::firsts(super::section(cards, 1))) + (run(
            super::firsts(super::section(cards, 2)),
        ) + (pair_run(super::section(cards, 3)) + varint(0))))))),
{
    let (a, b, c) = (super::section(cards, 1), super::section(cards, 2), super::section(cards, 3));
    super::lemma_section(cards, 1);
    super::lemma_section(cards, 2);
    super::lemma_section(cards, 3);
    super::lemma_stream_parts(hero_dbf, cards, format_byte);
    let end = varints(seq![0u32]);
    let none = Seq::<u8>::empty();
    let z = seq![0u32];
    assert(z.drop_first() =~= Seq::<u32>::empty());
    assert(varints(z.drop_first()) =~= none);
    assert(end =~= varint(0) + none);
    assert(end =~= varint(0));
    super::lemma_varints_head(super::length(c.len()), super::flat(c), none);
    super::lemma_varints_head(super::length(b.len()), super::firsts(b), none);
    super::lemma_varints_head(super::length(a.len()), super::firsts(a), none);
    super::lemma_varints_head(1, seq![hero_dbf], none);
    let n3 = varints(super::counted(super::flat(c), c.len()));
    let n2 = varints(super::counted(super::firsts(b), b.len()));
    let n1 = varints(super::counted(super::firsts(a), a.len()));
    let h = varints(seq![1u32, hero_dbf]);
    assert(seq![1u32] + seq![hero_dbf] =~= seq![1u32, hero_dbf]);
    assert(n3 + none =~= n3 && n2 + none =~= n2 && n1 + none =~= n1 && h + none =~= h);
    assert(varints(super::flat(c)) + none =~= varints(super::flat(c)));
    assert(varints(super::firsts(b)) + none =~= varints(super::firsts(b)));
    assert(varints(super::firsts(a)) + none =~= varints(super::firsts(a)));
    assert(varints(seq![hero_dbf]) + none =~= varints(seq![hero_dbf]));
    assert(n3 =~= pair_run(c));
    assert(n2 =~= run(super::firsts(b)));
    assert(n1 =~= run(super::firsts(a)));
    assert(h =~= run(seq![hero_dbf]));
    let head = seq![1u32, format_byte];
    let t = h + (n1 + (n2 + (n3 + end)));
    assert(head.drop_first() =~= seq![format_byte]);
    assert(head.drop_first().drop_first() =~= Seq::<u32>::empty());
    assert(varints(seq![format_byte]) =~= varint(format_byte as nat) + varints(Seq::<u32>::empty()));
    assert(varints(head) + t =~= varint(1) + (varint(format_byte as nat) + t));
}

/// A section holds the cards of its number of copies, the third those of three
/// and more, each as often as the deck lists it and in ascending order.
pub proof fn lemma_section_cards(cards: Seq<(u32, u32)>, x: (u32, u32), i: int, j: int)
    ensures
        super::section(cards, 1).to_multiset().count(x) == if x.1 == 1 {
            cards.to_multiset().count(x)
        } else {
            0
        },
        super::section(cards, 2).to_multiset().count(x) == if x.1 == 2 {
            cards.to_multiset().count(x)
        } else {
            0
        },
        super::section(cards, 3).to_multiset().count(x) == if x.1 >= 3 {
            cards.to_multiset().count(x)
        } else {
            0
        },
        forall|k: int|
            1 <= k <= 3 && 0 <= i < j < (#[trigger] super::section(cards, k)).len() ==> super::section(
                cards,
                k,
            )[i].0 < super::section(cards, k)[j].0 || super::section(cards, k)[i].0
                == super::section(cards, k)[j].0 && super::section(cards, k)[i].1 <= super::section(
                cards,
                k,
            )[j].1,
{
    lemma_section_count(cards, 1, x);
    lemma_section_count(cards, 2, x);
    lemma_section_count(cards, 3, x);
    assert forall|k: int| 1 <= k <= 3 && 0 <= i < j < (#[trigger] super::section(cards, k)).len() implies super::section(
        cards,
        k,
    )[i].0 < super::section(cards, k)[j].0 || super::section(cards, k)[i].0 == super::section(
        cards,
        k,
    )[j].0 && super::section(cards, k)[i].1 <= super::section(cards, k)[j].1 by {
        let f = cards.filter(|c: (u32, u32)| super::in_section(k, c.1));
        let le = crate::order::key_order::<(u32, u32)>();
        <(u32, u32) as crate::order::Ordered>::key_order_is_total();
        assert(crate::order::keys(f) =~= f);
        f.lemma_sort_by_ensures(le);
        let s = super::section(cards, k);
        assert(le(s[i], s[j]));
    }
}

proof fn lemma_section_count(cards: Seq<(u32, u32)>, k: int, x: (u32, u32))
    ensures
        super::section(cards, k).to_multiset().count(x) == if super::in_section(k, x.1) {
            cards.to_multiset().count(x)
        } else {
            0
        },
{
    let keep = |c: (u32, u32)| super::in_section(k, c.1);
    super::lemma_section(cards, k);
    crate::order::lemma_kept_count(cards, keep, x);
}

} // verus!
