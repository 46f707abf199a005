//! Strict base64: anything outside the alphabet fails rather than being
//! skipped, and padding stands only at the very end.

use vstd::prelude::*;
use vstd::string::StrSliceExecFns;
use vstd::string::StringExecFns;

use crate::text::chars_of;

pub mod laws;

verus! {

/// The sixty-four symbols, in the order of their values.
pub const B64: &'static str = "ABCDEFGHIJKLMNOPQRSTUVWXYZabcdefghijklmnopqrstuvwxyz0123456789+/";

/// The value a symbol stands for.
#[verifier::opaque]
pub open spec fn value(c: char) -> Option<int> {
    if 'A' <= c <= 'Z' {
        Some(c as int - 'A' as int)
    } else if 'a' <= c <= 'z' {
        Some(c as int - 'a' as int + 26)
    } else if '0' <= c <= '9' {
        Some(c as int - '0' as int + 52)
    } else if c == '+' {
        Some(62)
    } else if c == '/' {
        Some(63)
    } else {
        None
    }
}

/// How many of the last two places of a group of four are padding.
pub open spec fn pads(q: Seq<char>) -> nat {
    (if q[2] == '=' { 1nat } else { 0 }) + (if q[3] == '=' { 1nat } else { 0 })
}

/// The value of a place that may be padding.
pub open spec fn padded_value(c: char) -> Option<int> {
    if c == '=' {
        Some(0)
    } else {
        value(c)
    }
}

/// The twenty-four bits a group of four symbols spells.
pub open spec fn bits_of(q: Seq<char>) -> Option<int> {
    match (value(q[0]), value(q[1]), padded_value(q[2]), padded_value(q[3])) {
        (Some(a), Some(b), Some(c), Some(d)) => Some(a * 262144 + b * 4096 + c * 64 + d),
        _ => None,
    }
}

/// Twenty-four bits as three bytes.
pub open spec fn three_bytes(n: int) -> Seq<u8> {
    seq![(n / 65536) as u8, (n / 256 % 256) as u8, (n % 256) as u8]
}

/// The bytes a group of four symbols spells, one fewer for each padding.
/// Nothing but padding follows a padding.
#[verifier::opaque]
pub open spec fn group(q: Seq<char>) -> Option<Seq<u8>> {
    if q[2] == '=' && q[3] != '=' {
        None
    } else {
        match bits_of(q) {
            Some(n) => Some(three_bytes(n).take(3 - pads(q))),
            None => None,
        }
    }
}

/// The bytes of groups of four symbols, of which only the last may be padded.
pub open spec fn groups(s: Seq<char>) -> Option<Seq<u8>>
    decreases s.len(),
{
    if s.len() < 4 {
        Some(seq![])
    } else {
        let q = s.take(4);
        match (group(q), groups(s.skip(4))) {
            (Some(b), Some(rest)) => if pads(q) > 0 && s.len() > 4 {
                None
            } else {
                Some(b + rest)
            },
            _ => None,
        }
    }
}

/// What a text spells in base64, if it spells anything.
pub open spec fn decoded(s: Seq<char>) -> Option<Seq<u8>> {
    if s.len() == 0 || s.len() % 4 != 0 {
        None
    } else {
        groups(s)
    }
}

/// The symbol of a value.
pub open spec fn symbol(v: int) -> char {
    B64@[v]
}

/// Up to three bytes as twenty-four bits, the missing ones zero.
pub open spec fn joined(d: Seq<u8>) -> int {
    d[0] * 65536 + (if d.len() > 1 { d[1] as int } else { 0 }) * 256 + (if d.len() > 2 {
        d[2] as int
    } else {
        0
    })
}

/// The group of four that spells up to three bytes.
#[verifier::opaque]
pub open spec fn group_for(d: Seq<u8>) -> Seq<char> {
    let n = joined(d);
    seq![
        symbol(n / 262144),
        symbol(n / 4096 % 64),
        if d.len() > 1 { symbol(n / 64 % 64) } else { '=' },
        if d.len() > 2 { symbol(n % 64) } else { '=' },
    ]
}

/// Bytes in base64.
pub open spec fn encoded(d: Seq<u8>) -> Seq<char>
    decreases d.len(),
{
    if d.len() == 0 {
        seq![]
    } else if d.len() <= 3 {
        group_for(d)
    } else {
        group_for(d.take(3)) + encoded(d.skip(3))
    }
}

proof fn lemma_symbol_value(v: int)
    requires
        0 <= v < 64,
    ensures
        value(symbol(v)) == Some(v),
        symbol(v) != '=',
{
    reveal(value);
    reveal_strlit("ABCDEFGHIJKLMNOPQRSTUVWXYZabcdefghijklmnopqrstuvwxyz0123456789+/");
}

proof fn lemma_joined(x: int, y: int, z: int)
    requires
        0 <= x < 256,
        0 <= y < 256,
        0 <= z < 256,
    ensures
        ({
            let n = x * 65536 + y * 256 + z;
            &&& n / 65536 == x
            &&& n / 256 % 256 == y
            &&& n % 256 == z
            &&& 0 <= n / 262144 < 64
            &&& 0 <= n / 4096 % 64 < 64
            &&& 0 <= n / 64 % 64 < 64
            &&& 0 <= n % 64 < 64
            &&& n == (n / 262144) * 262144 + (n / 4096 % 64) * 4096 + (n / 64 % 64) * 64 + n % 64
            &&& z == 0 ==> n % 64 == 0
            &&& y == 0 && z == 0 ==> n / 64 % 64 == 0
        }),
{
    let n = x * 65536 + y * 256 + z;
    assert(n / 256 == x * 256 + y);
    assert(n / 65536 == x);
    assert(n / 64 / 64 == n / 4096);
    assert(n / 4096 / 64 == n / 262144);
    if z == 0 {
        assert(n == 64 * (x * 1024 + y * 4));
        if y == 0 {
            assert(n / 64 == 64 * (x * 16));
        }
    }
}

#[verifier::spinoff_prover]
proof fn lemma_group_round_trip(d: Seq<u8>)
    requires
        1 <= d.len() <= 3,
    ensures
        group(group_for(d)) == Some(d),
        group_for(d).len() == 4,
        pads(group_for(d)) == 3 - d.len(),
{
    let y = if d.len() > 1 { d[1] as int } else { 0 };
    let z = if d.len() > 2 { d[2] as int } else { 0 };
    let n = joined(d);
    lemma_joined(d[0] as int, y, z);
    let (a, b, c, e) = (n / 262144, n / 4096 % 64, n / 64 % 64, n % 64);
    lemma_symbol_value(a);
    lemma_symbol_value(b);
    lemma_symbol_value(c);
    lemma_symbol_value(e);
    assert(three_bytes(n).take(d.len() as int) =~= d);
    reveal(group);
    reveal(group_for);
    assert(bits_of(group_for(d)) == Some(n));
}

/// Decoding gives back what was encoded.
pub proof fn lemma_base64_round_trip(d: Seq<u8>)
    requires
        d.len() > 0,
    ensures
        decoded(encoded(d)) == Some(d),
{
    lemma_groups_round_trip(d);
}

proof fn lemma_groups_round_trip(d: Seq<u8>)
    ensures
        groups(encoded(d)) == Some(d),
        encoded(d).len() % 4 == 0,
        d.len() > 0 ==> encoded(d).len() > 0,
    decreases d.len(),
{
    if d.len() == 0 {
    } else if d.len() <= 3 {
        let s = encoded(d);
        lemma_group_round_trip(d);
        assert(s.take(4) =~= s);
        assert(groups(s.skip(4)) == Some(Seq::<u8>::empty()));
        assert(d + Seq::<u8>::empty() =~= d);
    } else {
        let s = encoded(d);
        lemma_group_round_trip(d.take(3));
        lemma_groups_round_trip(d.skip(3));
        assert(s.take(4) =~= group_for(d.take(3)));
        assert(s.skip(4) =~= encoded(d.skip(3)));
        assert(d.take(3) + d.skip(3) =~= d);
    }
}

/// An encoding is made of symbols and padding alone.
pub proof fn lemma_encoded_alphabet(d: Seq<u8>)
    ensures
        forall|i: int| 0 <= i < encoded(d).len() ==> (#[trigger] encoded(d)[i] == '=' || value(encoded(d)[i]) is Some),
    decreases d.len(),
{
    reveal(group_for);
    if d.len() > 0 {
        let head = if d.len() <= 3 { d } else { d.take(3) };
        let n = joined(head);
        lemma_symbol_value(n / 262144);
        lemma_symbol_value(n / 4096 % 64);
        lemma_symbol_value(n / 64 % 64);
        lemma_symbol_value(n % 64);
        if d.len() > 3 {
            lemma_encoded_alphabet(d.skip(3));
        }
    }
}

fn push_symbol(out: &mut String, v: u32)
    requires
        v < 64,
    ensures
        final(out)@ == old(out)@.push(symbol(v as int)),
{
    proof {
        reveal_strlit("ABCDEFGHIJKLMNOPQRSTUVWXYZabcdefghijklmnopqrstuvwxyz0123456789+/");
    }
    let s = B64.substring_ascii(v as usize, v as usize + 1);
    out.append(s);
    proof {
        assert(s@ =~= seq![symbol(v as int)]);
    }
}

fn push_pad(out: &mut String)
    ensures
        final(out)@ == old(out)@.push('='),
{
    proof {
        reveal_strlit("=");
    }
    out.append("=");
    proof {
        assert("="@ =~= seq!['=']);
    }
}

/// Bytes in base64.
pub fn b64_encode(data: &[u8]) -> (r: String)
    ensures
        r@ == encoded(data@),
{
    let mut out = String::new();
    let mut i: usize = 0;
    proof {
        reveal(group_for);
        assert(data@.skip(0) =~= data@);
    }
    while i < data.len()
        invariant
            i <= data@.len(),
            out@ + encoded(data@.skip(i as int)) == encoded(data@),
        decreases data.len() - i,
    {
        let ghost rest = data@.skip(i as int);
        let ghost before = out@;
        let left: usize = data.len() - i;
        let b0: u32 = data[i] as u32;
        let b1: u32 = if left > 1 { data[i + 1] as u32 } else { 0 };
        let b2: u32 = if left > 2 { data[i + 2] as u32 } else { 0 };
        let n: u32 = b0 * 65536 + b1 * 256 + b2;
        let ghost head = if left <= 3 { rest } else { rest.take(3) };
        assert(n == joined(head));
        push_symbol(&mut out, n / 262144);
        push_symbol(&mut out, n / 4096 % 64);
        if left > 1 {
            push_symbol(&mut out, n / 64 % 64);
        } else {
            push_pad(&mut out);
        }
        if left > 2 {
            push_symbol(&mut out, n % 64);
        } else {
            push_pad(&mut out);
        }
        proof {
            reveal(group_for);
            assert(out@ =~= before + group_for(head));
            if left > 3 {
                assert(rest.skip(3) =~= data@.skip(i + 3));
                assert(out@ + encoded(rest.skip(3)) =~= before + encoded(rest));
            } else {
                assert(data@.skip(data@.len() as int).len() == 0);
                assert(out@ + encoded(data@.skip(data@.len() as int)) =~= before + encoded(rest));
            }
        }
        i = if left > 3 { i + 3 } else { data.len() };
    }
    proof {
        assert(out@ + encoded(data@.skip(i as int)) =~= out@);
    }
    out
}

fn value_of(c: char) -> (r: Option<u32>)
    ensures
        match (r, value(c)) {
            (Some(x), Some(v)) => x == v && v < 64,
            (None, None) => true,
            _ => false,
        },
{
    proof {
        reveal(value);
    }
    let u: u32 = c as u32;
    if 'A' <= c && c <= 'Z' {
        Some(u - 65)
    } else if 'a' <= c && c <= 'z' {
        Some(u - 97 + 26)
    } else if '0' <= c && c <= '9' {
        Some(u - 48 + 52)
    } else if c == '+' {
        Some(62)
    } else if c == '/' {
        Some(63)
    } else {
        None
    }
}

/// The bytes that the four characters of `v` at `i` spell, if they do.
fn decode_group(v: &Vec<char>, i: usize) -> (r: Option<Vec<u8>>)
    requires
        i + 4 <= v.len(),
    ensures
        match (r, group(v@.subrange(i as int, i + 4))) {
            (Some(b), Some(d)) => b@ == d,
            (None, None) => true,
            _ => false,
        },
{
    let ghost q = v@.subrange(i as int, i + 4);
    proof {
        reveal(group);
        assert(q[0] == v@[i as int] && q[1] == v@[i + 1] && q[2] == v@[i + 2] && q[3] == v@[i + 3]);
    }
    let pad2 = v[i + 2] == '=';
    let pad3 = v[i + 3] == '=';
    if pad2 && !pad3 {
        return None;
    }
    let x0 = value_of(v[i]);
    let x1 = value_of(v[i + 1]);
    let x2: Option<u32> = if pad2 { Some(0) } else { value_of(v[i + 2]) };
    let x3: Option<u32> = if pad3 { Some(0) } else { value_of(v[i + 3]) };
    let n: u32 = match (x0, x1, x2, x3) {
        (Some(a), Some(b), Some(c), Some(d)) => a * 262144 + b * 4096 + c * 64 + d,
        _ => { return None; },
    };
    let mut out: Vec<u8> = Vec::new();
    out.push((n / 65536) as u8);
    if !pad2 {
        out.push((n / 256 % 256) as u8);
    }
    if !pad3 {
        out.push((n % 256) as u8);
    }
    proof {
        assert(out@ =~= three_bytes(n as int).take(3 - pads(q)));
    }
    Some(out)
}

/// The bytes that the characters `v[from..to]` spell in base64, if they do.
pub fn decode_chars(v: &Vec<char>, from: usize, to: usize) -> (r: Option<Vec<u8>>)
    requires
        from <= to <= v@.len(),
    ensures
        match (r, decoded(v@.subrange(from as int, to as int))) {
            (Some(b), Some(d)) => b@ == d,
            (None, None) => true,
            _ => false,
        },
{
    let ghost s = v@.subrange(from as int, to as int);
    if to == from || (to - from) % 4 != 0 {
        return None;
    }
    let mut out: Vec<u8> = Vec::new();
    let mut i: usize = from;
    proof {
        assert(s.skip(0) =~= s);
        if groups(s) is Some {
            assert(out@ + groups(s)->Some_0 =~= groups(s)->Some_0);
        }
    }
    while i < to
        invariant
            from <= i <= to <= v@.len(),
            (to - i) % 4 == 0,
            s == v@.subrange(from as int, to as int),
            s.len() > 0 && s.len() % 4 == 0,
            groups(s) is Some <==> groups(s.skip(i - from)) is Some,
            groups(s) is Some ==> groups(s)->Some_0 == out@ + groups(s.skip(i - from))->Some_0,
        decreases to - i,
    {
        let ghost rest = s.skip(i - from);
        let ghost q = rest.take(4);
        let ghost before = out@;
        proof {
            assert(rest.len() >= 4);
            assert(q =~= v@.subrange(i as int, i + 4));
            assert(rest.skip(4) =~= s.skip(i + 4 - from));
        }
        // Padding anywhere but at the very end.
        if (v[i + 2] == '=' || v[i + 3] == '=') && to - i > 4 {
            return None;
        }
        match decode_group(v, i) {
            None => { return None; },
            Some(mut bytes) => {
                let ghost b = bytes@;
                out.append(&mut bytes);
                proof {
                    if groups(rest.skip(4)) is Some {
                        let r = groups(rest.skip(4))->Some_0;
                        assert(before + (b + r) =~= out@ + r);
                    }
                }
            },
        }
        i += 4;
    }
    proof {
        assert(out@ + Seq::<u8>::empty() =~= out@);
    }
    Some(out)
}

/// The bytes a text spells in base64, if it spells any.
pub fn b64_decode(s: &str) -> (r: Option<Vec<u8>>)
    ensures
        match (r, decoded(s@)) {
            (Some(b), Some(d)) => b@ == d,
            (None, None) => true,
            _ => false,
        },
{
    let v = chars_of(s);
    proof {
        assert(v@.subrange(0, v@.len() as int) =~= s@);
    }
    decode_chars(&v, 0, v.len())
}

} // verus!
