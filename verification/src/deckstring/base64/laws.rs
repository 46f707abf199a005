//! What base64 symbols and groups spell.

use vstd::prelude::*;

verus! {

/// A symbol stands for its place: the capitals from nought, the small letters
/// from twenty-six, the digits from fifty-two, then plus and slash; nothing
/// else stands for anything.
pub proof fn lemma_symbol_places(c: char, v: int)
    ensures
        super::value(c) == Some(v) <==> {
            ||| 'A' <= c <= 'Z' && v == c as int - 65
            ||| 'a' <= c <= 'z' && v == c as int - 71
            ||| '0' <= c <= '9' && v == c as int + 4
            ||| c == '+' && v == 62
            ||| c == '/' && v == 63
        },
{
    reveal(super::value);
}

/// The symbol of a value stands for it.
pub proof fn lemma_symbols(v: int)
    requires
        0 <= v < 64,
    ensures
        super::value(super::symbol(v)) == Some(v),
{
    super::lemma_symbol_value(v);
}

/// Three bytes become four symbols that spell the same twenty-four bits, most
/// significant first.
pub proof fn lemma_three_bytes(x: u8, y: u8, z: u8)
    ensures
        ({
            let q = super::encoded(seq![x, y, z]);
            &&& q.len() == 4
            &&& super::value(q[0]) matches Some(a) && super::value(q[1]) matches Some(b)
                && super::value(q[2]) matches Some(c) && super::value(q[3]) matches Some(d) && a
                * 262144 + b * 4096 + c * 64 + d == x * 65536 + y * 256 + z
        }),
{
    reveal(super::group_for);
    let d = seq![x, y, z];
    let n = super::joined(d);
    super::lemma_joined(x as int, y as int, z as int);
    super::lemma_symbol_value(n / 262144);
    super::lemma_symbol_value(n / 4096 % 64);
    super::lemma_symbol_value(n / 64 % 64);
    super::lemma_symbol_value(n % 64);
}

/// One byte alone becomes two symbols, the second with its low two bits; two
/// bytes become three.
pub proof fn lemma_short_groups(x: u8, y: u8)
    ensures
        ({
            let q = super::encoded(seq![x]);
            &&& super::value(q[0]) == Some(x as int / 4)
            &&& super::value(q[1]) == Some(x as int % 4 * 16)
        }),
        ({
            let q = super::encoded(seq![x, y]);
            &&& super::value(q[0]) == Some(x as int / 4)
            &&& super::value(q[1]) == Some(x as int % 4 * 16 + y as int / 16)
            &&& super::value(q[2]) == Some(y as int % 16 * 4)
        }),
{
    reveal(super::group_for);
    let n = super::joined(seq![x]);
    lemma_sixes_of(x as int, 0, 0);
    super::lemma_symbol_value(n / 262144);
    super::lemma_symbol_value(n / 4096 % 64);
    let m = super::joined(seq![x, y]);
    lemma_sixes_of(x as int, y as int, 0);
    super::lemma_symbol_value(m / 262144);
    super::lemma_symbol_value(m / 4096 % 64);
    super::lemma_symbol_value(m / 64 % 64);
}

proof fn lemma_sixes_of(x: int, y: int, z: int)
    requires
        0 <= x < 256,
        0 <= y < 256,
        0 <= z < 256,
    ensures
        ({
            let n = x * 65536 + y * 256 + z;
            &&& n / 262144 == x / 4
            &&& n / 4096 % 64 == x % 4 * 16 + y / 16
            &&& n / 64 % 64 == y % 16 * 4 + z / 64
        }),
{
    let n = x * 65536 + y * 256 + z;
    lemma_split(x, 4);
    lemma_split(y, 16);
    lemma_split(z, 64);
    let (p, q) = (x / 4, x % 4);
    let (r, t) = (y / 16, y % 16);
    let (u, w) = (z / 64, z % 64);
    lemma_quotient(n, 262144, p, 65536 * q + 256 * y + z);
    lemma_quotient(n, 4096, 64 * p + 16 * q + r, 256 * t + z);
    lemma_quotient(n / 4096, 64, p, 16 * q + r);
    lemma_quotient(n, 64, 4096 * p + 1024 * q + 64 * r + 4 * t + u, w);
    lemma_quotient(n / 64, 64, 64 * p + 16 * q + r, 4 * t + u);
}

proof fn lemma_split(n: int, d: int)
    requires
        d > 0,
    ensures
        n == d * (n / d) + n % d,
        0 <= n % d < d,
{
    vstd::arithmetic::div_mod::lemma_fundamental_div_mod(n, d);
    vstd::arithmetic::div_mod::lemma_mod_bound(n, d);
}

proof fn lemma_quotient(n: int, d: int, q: int, r: int)
    requires
        n == d * q + r,
        0 <= r < d,
    ensures
        n / d == q,
        n % d == r,
{
    assert(q * d == d * q) by (nonlinear_arith);
    vstd::arithmetic::div_mod::lemma_fundamental_div_mod_converse(n, d, q, r);
}

proof fn lemma_eights_of(a: int, b: int, c: int, d: int)
    requires
        0 <= a < 64,
        0 <= b < 64,
        0 <= c < 64,
        0 <= d < 64,
    ensures
        ({
            let n = a * 262144 + b * 4096 + c * 64 + d;
            &&& n / 65536 == 4 * a + b / 16
            &&& n / 256 % 256 == b % 16 * 16 + c / 4
            &&& n % 256 == c % 4 * 64 + d
        }),
{
    let n = a * 262144 + b * 4096 + c * 64 + d;
    let (p, q) = (b / 16, b % 16);
    let (r, t) = (c / 4, c % 4);
    assert(n == 65536 * (4 * a + p) + (4096 * q + 64 * c + d));
    assert(n == 256 * (256 * (4 * a + p) + (16 * q + r)) + (64 * t + d));
    assert(n / 65536 == 4 * a + p);
    assert(n / 256 == 256 * (4 * a + p) + (16 * q + r));
}

proof fn lemma_values(c: char)
    ensures
        super::value(c) matches Some(v) ==> 0 <= v < 64 && c != '=',
{
    reveal(super::value);
}

/// Four symbols spell three bytes, six bits of each symbol in turn; a padding
/// at the end takes the last byte with it, two take two, and a padding with a
/// symbol behind it spells nothing.
pub proof fn lemma_group_read(q: Seq<char>, a: int, b: int)
    requires
        q.len() == 4,
        super::value(q[0]) == Some(a),
        super::value(q[1]) == Some(b),
    ensures
        q[2] == '=' && q[3] == '=' ==> super::decoded(q) == Some(seq![(4 * a + b / 16) as u8]),
        q[2] == '=' && q[3] != '=' ==> super::decoded(q) is None,
        super::value(q[2]) matches Some(c) ==> q[3] == '=' ==> super::decoded(q) == Some(
            seq![(4 * a + b / 16) as u8, (b % 16 * 16 + c / 4) as u8],
        ),
        super::value(q[2]) matches Some(c) ==> super::value(q[3]) matches Some(d) ==> super::decoded(q)
            == Some(
            seq![
                (4 * a + b / 16) as u8,
                (b % 16 * 16 + c / 4) as u8,
                (c % 4 * 64 + d) as u8,
            ],
        ),
{
    reveal(super::group);
    assert(q.take(4) =~= q);
    assert(super::groups(q.skip(4)) == Some(Seq::<u8>::empty()));
    lemma_values(q[0]);
    lemma_values(q[1]);
    lemma_values(q[2]);
    lemma_values(q[3]);
    if let Some(n) = super::bits_of(q) {
        let c = super::padded_value(q[2])->Some_0;
        let d = super::padded_value(q[3])->Some_0;
        assert(n == a * 262144 + b * 4096 + c * 64 + d);
        lemma_eights_of(a, b, c, d);
        let bytes = super::three_bytes(n).take(3 - super::pads(q));
        assert(bytes + Seq::<u8>::empty() =~= bytes);
        if q[2] == '=' && q[3] == '=' {
            assert(bytes =~= seq![(4 * a + b / 16) as u8]);
        } else if q[3] == '=' {
            assert(bytes =~= seq![(4 * a + b / 16) as u8, (b % 16 * 16 + c / 4) as u8]);
        } else if q[2] != '=' {
            assert(bytes =~= super::three_bytes(n));
        }
    }
}

/// A group and what follows it spell their bytes one after the other, where
/// both spell any and the group is not padded; else they spell nothing.
pub proof fn lemma_groups_join(q: Seq<char>, rest: Seq<char>)
    requires
        q.len() == 4,
        rest.len() > 0,
        rest.len() % 4 == 0,
    ensures
        match (super::decoded(q), super::decoded(rest)) {
            (Some(x), Some(y)) => super::decoded(q + rest) == if q[2] == '=' || q[3] == '=' {
                None
            } else {
                Some(x + y)
            },
            _ => super::decoded(q + rest) is None,
        },
{
    let s = q + rest;
    assert(s.take(4) =~= q && s.skip(4) =~= rest && q.take(4) =~= q);
    assert(super::groups(q.skip(4)) == Some(Seq::<u8>::empty()));
    if let Some(x) = super::group(q) {
        assert(x + Seq::<u8>::empty() =~= x);
    }
}

/// One byte more than full groups is padded with two signs, two with one, and
/// full groups with none; base64 is four symbols for every three bytes begun.
pub proof fn lemma_padding(d: Seq<u8>)
    ensures
        ({
            let s = super::encoded(d);
            &&& s.len() == 4 * ((d.len() + 2) / 3)
            &&& d.len() % 3 == 1 ==> s[s.len() - 1] == '=' && s[s.len() - 2] == '='
            &&& d.len() % 3 == 2 ==> s[s.len() - 1] == '=' && s[s.len() - 2] != '='
            &&& d.len() % 3 == 0 && d.len() > 0 ==> s[s.len() - 1] != '='
        }),
    decreases d.len(),
{
    if d.len() > 0 {
        let head = if d.len() <= 3 {
            d
        } else {
            d.take(3)
        };
        let y = if head.len() > 1 {
            head[1] as int
        } else {
            0
        };
        let z = if head.len() > 2 {
            head[2] as int
        } else {
            0
        };
        reveal(super::group_for);
        let n = super::joined(head);
        super::lemma_joined(head[0] as int, y, z);
        super::lemma_symbol_value(n / 64 % 64);
        super::lemma_symbol_value(n % 64);
        if d.len() > 3 {
            let rest = d.skip(3);
            lemma_padding(rest);
            let (a, b) = (super::group_for(head), super::encoded(rest));
            let s = super::encoded(d);
            assert(s == a + b);
            assert(s[s.len() - 1] == b[b.len() - 1]);
            assert(s[s.len() - 2] == b[b.len() - 2]);
        }
    }
}

/// What is read as base64 comes in groups of four, of symbols alone but for
/// padding at the very end.
pub proof fn lemma_decoded_groups(s: Seq<char>, i: int)
    requires
        super::decoded(s) is Some,
    ensures
        s.len() > 0,
        s.len() % 4 == 0,
        0 <= i < s.len() - 2 ==> super::value(s[i]) is Some,
        s[s.len() - 2] == '=' ==> s[s.len() - 1] == '=',
{
    lemma_groups_symbols(s, i);
}

proof fn lemma_groups_symbols(s: Seq<char>, i: int)
    requires
        s.len() > 0,
        s.len() % 4 == 0,
        super::groups(s) is Some,
    ensures
        0 <= i < s.len() - 2 ==> super::value(s[i]) is Some,
        s[s.len() - 2] == '=' ==> s[s.len() - 1] == '=',
    decreases s.len(),
{
    reveal(super::group);
    let q = s.take(4);
    let rest = s.skip(4);
    assert(super::group(q) is Some && super::groups(rest) is Some);
    assert(super::bits_of(q) is Some);
    assert(q[0] == s[0] && q[1] == s[1] && q[2] == s[2] && q[3] == s[3]);
    if s.len() > 4 {
        lemma_groups_symbols(rest, i - 4);
        assert(super::pads(q) == 0);
        if i >= 4 && i < s.len() {
            assert(rest[i - 4] == s[i]);
        }
        assert(rest[rest.len() - 1] == s[s.len() - 1]);
        assert(rest[rest.len() - 2] == s[s.len() - 2]);
    }
}

} // verus!
