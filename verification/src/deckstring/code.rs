//! The bytes of a deck code: `[0, version, format, heroes, 1x, 2x, nx,
//! (sideboard)]`, every number a varint, every card a `dbfId`.

use vstd::prelude::*;

use super::varint::{put_varints, Reader};
use super::CodeError;
use crate::order::sorted;

pub mod laws;

verus! {

/// What a deck code says, before any of it is looked up in the corpus.
#[derive(Clone, Debug, PartialEq, Eq)]
pub struct Decoded {
    /// The version byte. Only 1 has ever existed.
    pub version: u32,
    /// Blizzard's `FormatType`: 1 Wild, 2 Standard, 3 the retired Classic,
    /// 4 Twist. Kept raw; `format_of` maps the two we can build a pool for.
    pub format: u32,
    pub heroes: Vec<u32>,
    /// `(dbfId, copies)`.
    pub cards: Vec<(u32, u32)>,
    /// `(dbfId, copies, owner dbfId)` — the sideboard section, which only
    /// Zilliax-style "assembled" cards and Commander Beatrix use.
    pub sideboards: Vec<(u32, u32, u32)>,
}

/// The mathematical content of a [`Decoded`].
#[verifier::ext_equal]
pub struct DecodedView {
    pub version: u32,
    pub format: u32,
    pub heroes: Seq<u32>,
    pub cards: Seq<(u32, u32)>,
    pub sideboards: Seq<(u32, u32, u32)>,
}

impl View for Decoded {
    type V = DecodedView;

    open spec fn view(&self) -> DecodedView {
        DecodedView {
            version: self.version,
            format: self.format,
            heroes: self.heroes@,
            cards: self.cards@,
            sideboards: self.sideboards@,
        }
    }
}

// ---------------------------------------------------------------- reading

/// Cards in the same number of copies each.
pub open spec fn each(ds: Seq<u32>, n: u32) -> Seq<(u32, u32)> {
    ds.map_values(|d: u32| (d, n))
}

/// Numbers two by two.
pub open spec fn pairs(xs: Seq<u32>) -> Seq<(u32, u32)> {
    Seq::new(xs.len() / 2, |i: int| (xs[2 * i], xs[2 * i + 1]))
}

/// Cards and their owners, in the same number of copies each.
pub open spec fn owned(xs: Seq<u32>, n: u32) -> Seq<(u32, u32, u32)> {
    Seq::new(xs.len() / 2, |i: int| (xs[2 * i], n, xs[2 * i + 1]))
}

/// Numbers three by three.
pub open spec fn triples(xs: Seq<u32>) -> Seq<(u32, u32, u32)> {
    Seq::new(xs.len() / 3, |i: int| (xs[3 * i], xs[3 * i + 1], xs[3 * i + 2]))
}

/// The cards of the three sections, and the stream behind them.
pub open spec fn card_sections(s: Seq<u8>) -> Result<(Seq<(u32, u32)>, Seq<u8>), CodeError> {
    match super::varint::read_list(s) {
        Err(e) => Err(e),
        Ok((ones, t)) => match super::varint::read_list(t) {
            Err(e) => Err(e),
            Ok((twos, u)) => match super::varint::read_records(u, 2) {
                Err(e) => Err(e),
                Ok((more, w)) => Ok((each(ones, 1) + each(twos, 2) + pairs(more), w)),
            },
        },
    }
}

/// The sideboard section: absent at the end of the stream or behind any
/// number but 1.
pub open spec fn sideboard_section(s: Seq<u8>) -> Result<Seq<(u32, u32, u32)>, CodeError> {
    if s.len() == 0 {
        Ok(seq![])
    } else {
        match super::varint::read(s) {
            Err(e) => Err(e),
            Ok((flag, t)) => if flag != 1 {
                Ok(seq![])
            } else {
                sideboard_records(t)
            },
        }
    }
}

pub open spec fn sideboard_records(s: Seq<u8>) -> Result<Seq<(u32, u32, u32)>, CodeError> {
    match super::varint::read_records(s, 2) {
        Err(e) => Err(e),
        Ok((ones, t)) => match super::varint::read_records(t, 2) {
            Err(e) => Err(e),
            Ok((twos, u)) => match super::varint::read_records(u, 3) {
                Err(e) => Err(e),
                Ok((more, _)) => Ok(owned(ones, 1) + owned(twos, 2) + triples(more)),
            },
        },
    }
}

/// The version, the format and the heroes, and the stream behind them.
pub open spec fn header(s: Seq<u8>) -> Result<(u32, u32, Seq<u32>, Seq<u8>), CodeError> {
    match super::varint::read(s) {
        Err(e) => Err(e),
        Ok((magic, t)) => if magic != 0 {
            Err(CodeError::BadHeader)
        } else {
            match super::varint::read_many(t, 2) {
                Err(e) => Err(e),
                Ok((head, u)) => match super::varint::read_list(u) {
                    Err(e) => Err(e),
                    Ok((heroes, w)) => Ok((head[0], head[1], heroes, w)),
                },
            }
        },
    }
}

/// The deck a stream of bytes spells, or what is wrong with it.
pub open spec fn parsed(s: Seq<u8>) -> Result<DecodedView, CodeError> {
    match header(s) {
        Err(e) => Err(e),
        Ok((version, format, heroes, t)) => match card_sections(t) {
            Err(e) => Err(e),
            Ok((cards, u)) => match sideboard_section(u) {
                Err(e) => Err(e),
                Ok(sideboards) => Ok(
                    DecodedView { version, format, heroes, cards, sideboards },
                ),
            },
        },
    }
}

proof fn lemma_read_many_len(s: Seq<u8>, n: nat)
    ensures
        super::varint::read_many(s, n) matches Ok((xs, _)) ==> xs.len() == n,
    decreases n,
{
    if n > 0 {
        if let Ok((_, t)) = super::varint::read(s) {
            lemma_read_many_len(t, (n - 1) as nat);
        }
    }
}

fn push_each(out: &mut Vec<(u32, u32)>, ds: &Vec<u32>, n: u32)
    ensures
        final(out)@ == old(out)@ + each(ds@, n),
{
    let ghost before = out@;
    let mut i: usize = 0;
    while i < ds.len()
        invariant
            i <= ds@.len(),
            out@ == before + each(ds@.take(i as int), n),
        decreases ds.len() - i,
    {
        out.push((ds[i], n));
        proof {
            assert(out@ =~= before + each(ds@.take(i + 1), n));
        }
        i += 1;
    }
    proof {
        assert(ds@.take(i as int) =~= ds@);
    }
}

fn push_pairs(out: &mut Vec<(u32, u32)>, xs: &Vec<u32>)
    ensures
        final(out)@ == old(out)@ + pairs(xs@),
{
    let ghost before = out@;
    let n: usize = xs.len() / 2;
    let mut i: usize = 0;
    while i < n
        invariant
            i <= n,
            n == xs.len() / 2,
            out@ == before + pairs(xs@).take(i as int),
        decreases n - i,
    {
        out.push((xs[2 * i], xs[2 * i + 1]));
        proof {
            assert(out@ =~= before + pairs(xs@).take(i + 1));
        }
        i += 1;
    }
    proof {
        assert(pairs(xs@).take(i as int) =~= pairs(xs@));
    }
}

fn push_owned(out: &mut Vec<(u32, u32, u32)>, xs: &Vec<u32>, n: u32)
    ensures
        final(out)@ == old(out)@ + owned(xs@, n),
{
    let ghost before = out@;
    let count: usize = xs.len() / 2;
    let mut i: usize = 0;
    while i < count
        invariant
            i <= count,
            count == xs.len() / 2,
            out@ == before + owned(xs@, n).take(i as int),
        decreases count - i,
    {
        out.push((xs[2 * i], n, xs[2 * i + 1]));
        proof {
            assert(out@ =~= before + owned(xs@, n).take(i + 1));
        }
        i += 1;
    }
    proof {
        assert(owned(xs@, n).take(i as int) =~= owned(xs@, n));
    }
}

fn push_triples(out: &mut Vec<(u32, u32, u32)>, xs: &Vec<u32>)
    ensures
        final(out)@ == old(out)@ + triples(xs@),
{
    let ghost before = out@;
    let count: usize = xs.len() / 3;
    let mut i: usize = 0;
    while i < count
        invariant
            i <= count,
            count == xs.len() / 3,
            out@ == before + triples(xs@).take(i as int),
        decreases count - i,
    {
        out.push((xs[3 * i], xs[3 * i + 1], xs[3 * i + 2]));
        proof {
            assert(out@ =~= before + triples(xs@).take(i + 1));
        }
        i += 1;
    }
    proof {
        assert(triples(xs@).take(i as int) =~= triples(xs@));
    }
}

fn parse_cards(r: &mut Reader<'_>) -> (out: Result<Vec<(u32, u32)>, CodeError>)
    requires
        old(r).wf(),
    ensures
        final(r).wf(),
        match (out, card_sections(old(r).rest())) {
            (Ok(v), Ok((w, t))) => v@ == w && final(r).rest() == t,
            (Err(e), Err(f)) => e == f,
            _ => false,
        },
{
    let ones = match r.list() {
        Ok(v) => v,
        Err(e) => { return Err(e); },
    };
    let twos = match r.list() {
        Ok(v) => v,
        Err(e) => { return Err(e); },
    };
    let more = match r.records(2) {
        Ok(v) => v,
        Err(e) => { return Err(e); },
    };
    let mut cards: Vec<(u32, u32)> = Vec::new();
    push_each(&mut cards, &ones, 1);
    push_each(&mut cards, &twos, 2);
    push_pairs(&mut cards, &more);
    proof {
        assert(cards@ =~= each(ones@, 1) + each(twos@, 2) + pairs(more@));
    }
    Ok(cards)
}

fn parse_sideboards(r: &mut Reader<'_>) -> (out: Result<Vec<(u32, u32, u32)>, CodeError>)
    requires
        old(r).wf(),
    ensures
        match (out, sideboard_section(old(r).rest())) {
            (Ok(v), Ok(w)) => v@ == w,
            (Err(e), Err(f)) => e == f,
            _ => false,
        },
{
    let mut sideboards: Vec<(u32, u32, u32)> = Vec::new();
    if r.eof() {
        return Ok(sideboards);
    }
    match r.varint() {
        Ok(flag) => {
            if flag != 1 {
                return Ok(sideboards);
            }
        },
        Err(e) => { return Err(e); },
    }
    let ones = match r.records(2) {
        Ok(v) => v,
        Err(e) => { return Err(e); },
    };
    let twos = match r.records(2) {
        Ok(v) => v,
        Err(e) => { return Err(e); },
    };
    let more = match r.records(3) {
        Ok(v) => v,
        Err(e) => { return Err(e); },
    };
    push_owned(&mut sideboards, &ones, 1);
    push_owned(&mut sideboards, &twos, 2);
    push_triples(&mut sideboards, &more);
    proof {
        assert(sideboards@ =~= owned(ones@, 1) + owned(twos@, 2) + triples(more@));
    }
    Ok(sideboards)
}

/// Reads the bytes of a deck code.
pub fn parse(data: &[u8]) -> (r: Result<Decoded, CodeError>)
    ensures
        match (r, parsed(data@)) {
            (Ok(d), Ok(v)) => d@ == v,
            (Err(e), Err(f)) => e == f,
            _ => false,
        },
{
    let mut r = Reader { data, pos: 0 };
    proof {
        assert(r.rest() =~= data@);
    }
    match r.varint() {
        Ok(magic) => {
            if magic != 0 {
                return Err(CodeError::BadHeader);
            }
        },
        Err(e) => { return Err(e); },
    }
    proof {
        lemma_read_many_len(r.rest(), 2);
    }
    let head = match r.varints(2) {
        Ok(v) => v,
        Err(e) => { return Err(e); },
    };
    let version: u32 = head[0];
    let format: u32 = head[1];
    let heroes = match r.list() {
        Ok(v) => v,
        Err(e) => { return Err(e); },
    };
    let cards = match parse_cards(&mut r) {
        Ok(v) => v,
        Err(e) => { return Err(e); },
    };
    let sideboards = match parse_sideboards(&mut r) {
        Ok(v) => v,
        Err(e) => { return Err(e); },
    };
    Ok(Decoded { version, format, heroes, cards, sideboards })
}

// ---------------------------------------------------------------- writing

/// How many copies of a card put it in a section.
pub open spec fn in_section(section: int, n: u32) -> bool {
    if section == 3 {
        n > 2
    } else {
        n == section
    }
}

/// The cards of a section, sorted.
pub open spec fn section(cards: Seq<(u32, u32)>, k: int) -> Seq<(u32, u32)> {
    crate::order::sorted_keys(cards.filter(|c: (u32, u32)| in_section(k, c.1)))
}

/// The cards of pairs.
pub open spec fn firsts(ps: Seq<(u32, u32)>) -> Seq<u32> {
    ps.map_values(|p: (u32, u32)| p.0)
}

/// Pairs as a run of numbers.
pub open spec fn flat(ps: Seq<(u32, u32)>) -> Seq<u32> {
    Seq::new(
        ps.len() * 2,
        |i: int|
            if i % 2 == 0 {
                ps[i / 2].0
            } else {
                ps[i / 2].1
            },
    )
}

/// A length as it stands in a code: the low thirty-two bits of it.
pub open spec fn length(n: nat) -> u32 {
    (n % 0x1_0000_0000) as u32
}

/// Whether a code can tell the lengths of a deck's sections.
pub open spec fn tellable(cards: Seq<(u32, u32)>) -> bool {
    cards.len() <= u32::MAX || forall|k: int|
        1 <= k <= 3 ==> #[trigger] section(cards, k).len() <= u32::MAX
}

/// The numbers of the code of a deck: a header with one hero, a section for
/// the single cards, one for the pairs, one for what comes in more copies,
/// and no sideboard.
pub open spec fn stream(hero_dbf: u32, cards: Seq<(u32, u32)>, format_byte: u32) -> Seq<u32> {
    let ones = firsts(section(cards, 1));
    let twos = firsts(section(cards, 2));
    let more = section(cards, 3);
    seq![0, 1, format_byte, 1, hero_dbf, length(ones.len())] + ones + seq![length(twos.len())]
        + twos + seq![length(more.len())] + flat(more) + seq![0]
}

/// The bytes of the code of a deck.
#[verifier::opaque]
pub open spec fn code_bytes(hero_dbf: u32, cards: Seq<(u32, u32)>, format_byte: u32) -> Seq<u8> {
    super::varint::varints(stream(hero_dbf, cards, format_byte))
}

/// What the code of a deck says.
pub open spec fn coded_deck(
    hero_dbf: u32,
    cards: Seq<(u32, u32)>,
    format_byte: u32,
) -> DecodedView {
    DecodedView {
        version: 1,
        format: format_byte,
        heroes: seq![hero_dbf],
        cards: section(cards, 1) + section(cards, 2) + section(cards, 3),
        sideboards: seq![],
    }
}

/// The cards of a section, sorted.
fn section_of(cards: &[(u32, u32)], k: u32) -> (r: Vec<(u32, u32)>)
    requires
        1 <= k <= 3,
    ensures
        r@ == section(cards@, k as int),
{
    let ghost p = |c: (u32, u32)| in_section(k as int, c.1);
    let mut out: Vec<(u32, u32)> = Vec::new();
    let mut i: usize = 0;
    proof {
        reveal(Seq::filter);
        assert(cards@.take(0).filter(p) =~= seq![]);
    }
    while i < cards.len()
        invariant
            i <= cards@.len(),
            p == (|c: (u32, u32)| in_section(k as int, c.1)),
            out@ == cards@.take(i as int).filter(p),
        decreases cards.len() - i,
    {
        let c: (u32, u32) = cards[i];
        proof {
            reveal(Seq::filter);
            assert(cards@.take(i + 1).drop_last() =~= cards@.take(i as int));
        }
        if if k == 3 { c.1 > 2 } else { c.1 == k } {
            out.push(c);
        }
        i += 1;
    }
    proof {
        assert(cards@.take(i as int) =~= cards@);
    }
    let r = sorted(&out);
    proof {
        assert(crate::order::keys(r@) =~= r@);
    }
    r
}

fn push_firsts(out: &mut Vec<u32>, ps: &Vec<(u32, u32)>)
    ensures
        final(out)@ == old(out)@ + firsts(ps@),
{
    let ghost before = out@;
    let mut i: usize = 0;
    while i < ps.len()
        invariant
            i <= ps@.len(),
            out@ == before + firsts(ps@).take(i as int),
        decreases ps.len() - i,
    {
        out.push(ps[i].0);
        proof {
            assert(out@ =~= before + firsts(ps@).take(i + 1));
        }
        i += 1;
    }
    proof {
        assert(firsts(ps@).take(i as int) =~= firsts(ps@));
    }
}

fn push_flat(out: &mut Vec<u32>, ps: &Vec<(u32, u32)>)
    ensures
        final(out)@ == old(out)@ + flat(ps@),
{
    let ghost before = out@;
    let mut i: usize = 0;
    while i < ps.len()
        invariant
            i <= ps@.len(),
            out@ == before + flat(ps@).take(2 * i),
        decreases ps.len() - i,
    {
        out.push(ps[i].0);
        out.push(ps[i].1);
        proof {
            assert(out@ =~= before + flat(ps@).take(2 * (i + 1)));
        }
        i += 1;
    }
    proof {
        assert(flat(ps@).take(2 * i) =~= flat(ps@));
    }
}

fn length_of(n: usize) -> (r: u32)
    ensures
        r == length(n as nat),
{
    (n as u64 % 0x1_0000_0000) as u32
}

/// The bytes of the code of a deck.
pub fn write(hero_dbf: u32, cards: &[(u32, u32)], format_byte: u32) -> (r: Vec<u8>)
    ensures
        r@ == code_bytes(hero_dbf, cards@, format_byte),
{
    let ones = section_of(cards, 1);
    let twos = section_of(cards, 2);
    let more = section_of(cards, 3);
    let mut ns: Vec<u32> = Vec::new();
    ns.push(0);
    ns.push(1);
    ns.push(format_byte);
    ns.push(1);
    ns.push(hero_dbf);
    ns.push(length_of(ones.len()));
    push_firsts(&mut ns, &ones);
    ns.push(length_of(twos.len()));
    push_firsts(&mut ns, &twos);
    ns.push(length_of(more.len()));
    push_flat(&mut ns, &more);
    ns.push(0);  // no sideboard section
    proof {
        assert(ns@ =~= stream(hero_dbf, cards@, format_byte));
    }
    let mut data: Vec<u8> = Vec::new();
    put_varints(&mut data, ns.as_slice());
    proof {
        reveal(code_bytes);
        assert(data@ =~= code_bytes(hero_dbf, cards@, format_byte));
    }
    data
}

// ------------------------------------------------------------- round trip

proof fn lemma_section(cards: Seq<(u32, u32)>, k: int)
    ensures
        section(cards, k).to_multiset() == cards.filter(
            |c: (u32, u32)| in_section(k, c.1),
        ).to_multiset(),
        section(cards, k).len() <= cards.len(),
        forall|i: int| 0 <= i < section(cards, k).len() ==> in_section(k, #[trigger] section(cards, k)[i].1),
{
    broadcast use vstd::seq_lib::group_to_multiset_ensures;

    let p = |c: (u32, u32)| in_section(k, c.1);
    let f = cards.filter(p);
    let le = crate::order::key_order::<(u32, u32)>();
    <(u32, u32) as crate::order::Ordered>::key_order_is_total();
    assert(crate::order::keys(f) =~= f);
    f.lemma_sort_by_ensures(le);
    let s = section(cards, k);
    assert(s == f.sort_by(le));
    assert(s.len() == s.to_multiset().len());
    assert(f.len() == f.to_multiset().len());
    cards.lemma_filter_len(p);
    assert forall|i: int| 0 <= i < s.len() implies in_section(k, #[trigger] s[i].1) by {
        assert(s.contains(s[i]));
        assert(f.contains(s[i]));
        let j = choose|j: int| 0 <= j < f.len() && f[j] == s[i];
        cards.lemma_filter_pred(p, j);
    }
}

proof fn lemma_read_list_round_trip(ns: Seq<u32>, t: Seq<u8>)
    requires
        ns.len() <= u32::MAX,
    ensures
        super::varint::read_list(
            super::varint::varints(seq![length(ns.len())] + ns) + t,
        ) == Ok::<(Seq<u32>, Seq<u8>), CodeError>((ns, t)),
{
    let n = length(ns.len());
    let body = super::varint::varints(ns) + t;
    lemma_varints_head(n, ns, t);
    super::varint::lemma_varint_round_trip(n, body);
    super::varint::lemma_varints_len(ns);
    super::varint::lemma_varints_round_trip(ns, t);
}

proof fn lemma_varints_head(n: u32, ns: Seq<u32>, t: Seq<u8>)
    ensures
        super::varint::varints(seq![n] + ns) + t == super::varint::varint(n as nat) + (
        super::varint::varints(ns) + t),
{
    let all = seq![n] + ns;
    assert(all.drop_first() =~= ns);
    assert(super::varint::varints(all) + t =~= super::varint::varint(n as nat) + (
    super::varint::varints(ns) + t));
}

proof fn lemma_read_pairs_round_trip(ps: Seq<(u32, u32)>, t: Seq<u8>)
    requires
        ps.len() <= u32::MAX,
    ensures
        super::varint::read_records(
            super::varint::varints(seq![length(ps.len())] + flat(ps)) + t,
            2,
        ) == Ok::<(Seq<u32>, Seq<u8>), CodeError>((flat(ps), t)),
{
    let n = length(ps.len());
    lemma_varints_head(n, flat(ps), t);
    super::varint::lemma_varint_round_trip(n, super::varint::varints(flat(ps)) + t);
    super::varint::lemma_varints_round_trip(flat(ps), t);
}

/// A section's cards as a length-prefixed run of numbers.
spec fn counted(ns: Seq<u32>, n: nat) -> Seq<u32> {
    seq![length(n)] + ns
}

proof fn lemma_card_sections_round_trip(
    a: Seq<(u32, u32)>,
    b: Seq<(u32, u32)>,
    c: Seq<(u32, u32)>,
    end: Seq<u8>,
)
    requires
        a.len() <= u32::MAX,
        b.len() <= u32::MAX,
        c.len() <= u32::MAX,
        forall|i: int| 0 <= i < a.len() ==> (#[trigger] a[i]).1 == 1,
        forall|i: int| 0 <= i < b.len() ==> (#[trigger] b[i]).1 == 2,
    ensures
        card_sections(
            super::varint::varints(counted(firsts(a), a.len())) + (super::varint::varints(
                counted(firsts(b), b.len()),
            ) + (super::varint::varints(counted(flat(c), c.len())) + end)),
        ) == Ok::<(Seq<(u32, u32)>, Seq<u8>), CodeError>((a + b + c, end)),
{
    let t3 = super::varint::varints(counted(flat(c), c.len())) + end;
    let t2 = super::varint::varints(counted(firsts(b), b.len())) + t3;
    lemma_read_list_round_trip(firsts(a), t2);
    lemma_read_list_round_trip(firsts(b), t3);
    lemma_read_pairs_round_trip(c, end);
    assert(each(firsts(a), 1) =~= a);
    assert(each(firsts(b), 2) =~= b);
    assert(pairs(flat(c)) =~= c);
}

proof fn lemma_header_round_trip(format_byte: u32, hero_dbf: u32, t: Seq<u8>)
    ensures
        header(
            super::varint::varint(0) + (super::varint::varints(seq![1u32, format_byte]) + (
            super::varint::varints(seq![1u32, hero_dbf]) + t)),
        ) == Ok::<(u32, u32, Seq<u32>, Seq<u8>), CodeError>((1, format_byte, seq![hero_dbf], t)),
{
    let head = seq![1u32, format_byte];
    let u = super::varint::varints(seq![1u32, hero_dbf]) + t;
    super::varint::lemma_varint_round_trip(0, super::varint::varints(head) + u);
    super::varint::lemma_varints_round_trip(head, u);
    let heroes = seq![hero_dbf];
    lemma_read_list_round_trip(heroes, t);
    assert(seq![length(heroes.len())] + heroes =~= seq![1u32, hero_dbf]);
}

proof fn lemma_no_sideboard()
    ensures
        sideboard_section(super::varint::varints(seq![0u32])) == Ok::<
            Seq<(u32, u32, u32)>,
            CodeError,
        >(seq![]),
{
    let z = seq![0u32];
    assert(super::varint::varints(z.drop_first()) =~= seq![]);
    assert(super::varint::varints(z) =~= super::varint::varint(0) + seq![]);
    super::varint::lemma_varint_round_trip(0, seq![]);
    assert(super::varint::varint(0).len() == 1);
}

/// The stream of a deck, taken apart where its reader does.
proof fn lemma_stream_parts(hero_dbf: u32, cards: Seq<(u32, u32)>, format_byte: u32)
    ensures
        code_bytes(hero_dbf, cards, format_byte) == super::varint::varint(0) + (
        super::varint::varints(seq![1u32, format_byte]) + (super::varint::varints(
            seq![1u32, hero_dbf],
        ) + (super::varint::varints(
            counted(firsts(section(cards, 1)), section(cards, 1).len()),
        ) + (super::varint::varints(
            counted(firsts(section(cards, 2)), section(cards, 2).len()),
        ) + (super::varint::varints(counted(flat(section(cards, 3)), section(cards, 3).len()))
            + super::varint::varints(seq![0u32])))))),
{
    let (a, b, c) = (section(cards, 1), section(cards, 2), section(cards, 3));
    let n1 = counted(firsts(a), a.len());
    let n2 = counted(firsts(b), b.len());
    let n3 = counted(flat(c), c.len());
    let heroes = seq![1u32, hero_dbf];
    let head = seq![1u32, format_byte];
    let tail0 = seq![0u32];
    let tail3 = n3 + tail0;
    let tail2 = n2 + tail3;
    let tail1 = n1 + tail2;
    let tailh = heroes + tail1;
    let tail = head + tailh;
    super::varint::lemma_varints_concat(n3, tail0);
    super::varint::lemma_varints_concat(n2, tail3);
    super::varint::lemma_varints_concat(n1, tail2);
    super::varint::lemma_varints_concat(heroes, tail1);
    super::varint::lemma_varints_concat(head, tailh);
    reveal(code_bytes);
    let s = stream(hero_dbf, cards, format_byte);
    assert(s =~= seq![0u32] + tail);
    assert(s.drop_first() =~= tail);
}

/// The bytes of the code of a deck read back as that deck: one hero, the
/// cards section by section, and no sideboard.
pub proof fn lemma_code_bytes_round_trip(hero_dbf: u32, cards: Seq<(u32, u32)>, format_byte: u32)
    requires
        tellable(cards),
    ensures
        parsed(code_bytes(hero_dbf, cards, format_byte)) == Ok::<DecodedView, CodeError>(
            coded_deck(hero_dbf, cards, format_byte),
        ),
{
    let (a, b, c) = (section(cards, 1), section(cards, 2), section(cards, 3));
    lemma_section(cards, 1);
    lemma_section(cards, 2);
    lemma_section(cards, 3);
    let end = super::varint::varints(seq![0u32]);
    let t = super::varint::varints(counted(firsts(a), a.len())) + (super::varint::varints(
        counted(firsts(b), b.len()),
    ) + (super::varint::varints(counted(flat(c), c.len())) + end));
    lemma_stream_parts(hero_dbf, cards, format_byte);
    lemma_header_round_trip(format_byte, hero_dbf, t);
    assert forall|i: int| 0 <= i < a.len() implies (#[trigger] a[i]).1 == 1 by {
        assert(in_section(1, a[i].1));
    }
    assert forall|i: int| 0 <= i < b.len() implies (#[trigger] b[i]).1 == 2 by {
        assert(in_section(2, b[i].1));
    }
    lemma_card_sections_round_trip(a, b, c, end);
    lemma_no_sideboard();
}

/// The code of a deck says each of its cards in its number of copies, and
/// nothing else: the decoded list is a rearrangement of what was encoded,
/// without the cards that come in no copies.
pub proof fn lemma_coded_cards(hero_dbf: u32, cards: Seq<(u32, u32)>, format_byte: u32)
    ensures
        coded_deck(hero_dbf, cards, format_byte).cards.to_multiset() == cards.filter(
            |c: (u32, u32)| c.1 > 0,
        ).to_multiset(),
{
    lemma_section(cards, 1);
    lemma_section(cards, 2);
    lemma_section(cards, 3);
    let (a, b, c) = (section(cards, 1), section(cards, 2), section(cards, 3));
    vstd::seq_lib::lemma_multiset_commutative(a, b);
    vstd::seq_lib::lemma_multiset_commutative(a + b, c);
    lemma_sections_partition(cards);
}

proof fn lemma_sections_partition(cards: Seq<(u32, u32)>)
    ensures
        cards.filter(|c: (u32, u32)| in_section(1, c.1)).to_multiset().add(
            cards.filter(|c: (u32, u32)| in_section(2, c.1)).to_multiset(),
        ).add(cards.filter(|c: (u32, u32)| in_section(3, c.1)).to_multiset()) == cards.filter(
            |c: (u32, u32)| c.1 > 0,
        ).to_multiset(),
    decreases cards.len(),
{
    broadcast use vstd::seq_lib::group_to_multiset_ensures;

    reveal(Seq::filter);
    let p1 = |c: (u32, u32)| in_section(1, c.1);
    let p2 = |c: (u32, u32)| in_section(2, c.1);
    let p3 = |c: (u32, u32)| in_section(3, c.1);
    let q = |c: (u32, u32)| c.1 > 0;
    let whole = cards.filter(p1).to_multiset().add(cards.filter(p2).to_multiset()).add(
        cards.filter(p3).to_multiset(),
    );
    if cards.len() == 0 {
        assert(whole =~= cards.filter(q).to_multiset());
    } else {
        let rest = cards.drop_last();
        let x = cards.last();
        lemma_sections_partition(rest);
        vstd::seq_lib::to_multiset_build(rest.filter(p1), x);
        vstd::seq_lib::to_multiset_build(rest.filter(p2), x);
        vstd::seq_lib::to_multiset_build(rest.filter(p3), x);
        vstd::seq_lib::to_multiset_build(rest.filter(q), x);
        let sum = rest.filter(p1).to_multiset().add(rest.filter(p2).to_multiset()).add(
            rest.filter(p3).to_multiset(),
        );
        if x.1 > 0 {
            assert(whole =~= sum.insert(x));
        } else {
            assert(whole =~= sum);
        }
    }
}

/// The code of a deck is never empty.
pub proof fn lemma_code_bytes_not_empty(hero_dbf: u32, cards: Seq<(u32, u32)>, format_byte: u32)
    ensures
        code_bytes(hero_dbf, cards, format_byte).len() > 0,
{
    reveal(code_bytes);
    super::varint::lemma_varints_len(stream(hero_dbf, cards, format_byte));
}

/// The code of a deck that has a card has one too.
pub proof fn lemma_coded_deck_has_cards(hero_dbf: u32, cards: Seq<(u32, u32)>, format_byte: u32)
    requires
        exists|i: int| 0 <= i < cards.len() && (#[trigger] cards[i]).1 > 0,
    ensures
        coded_deck(hero_dbf, cards, format_byte).cards.len() > 0,
{
    let deck = coded_deck(hero_dbf, cards, format_byte);
    let p = |c: (u32, u32)| c.1 > 0;
    let i = choose|i: int| 0 <= i < cards.len() && (#[trigger] cards[i]).1 > 0;
    lemma_coded_cards(hero_dbf, cards, format_byte);
    cards.lemma_filter_contains(p, i);
    vstd::seq_lib::to_multiset_len(deck.cards);
    vstd::seq_lib::to_multiset_len(cards.filter(p));
}

} // verus!
