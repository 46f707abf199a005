//! What holds of text operations.

use vstd::prelude::*;

verus! {

/// The characters that are white space.
pub proof fn lemma_white(c: char)
    ensures
        super::is_white(c) <==> {
            ||| c == ' ' || c == '\t' || c == '\n' || c == '\r'
            ||| c as u32 == 0x0B || c as u32 == 0x0C
            ||| c as u32 == 0x85 || c as u32 == 0xA0 || c as u32 == 0x1680
            ||| c as u32 >= 0x2000 && c as u32 <= 0x200A
            ||| c as u32 == 0x2028 || c as u32 == 0x2029 || c as u32 == 0x202F
            ||| c as u32 == 0x205F || c as u32 == 0x3000
        },
{
}

proof fn lemma_trim_start_is(s: Seq<char>)
    ensures
        exists|a: int|
            {
                &&& 0 <= a <= s.len()
                &&& super::trim_start(s) == #[trigger] s.skip(a)
                &&& forall|i: int| 0 <= i < a ==> super::is_white(#[trigger] s[i])
                &&& a < s.len() ==> !super::is_white(s[a])
            },
    decreases s.len(),
{
    if s.len() > 0 && super::is_white(s[0]) {
        let t = s.drop_first();
        lemma_trim_start_is(t);
        let a = choose|a: int|
            {
                &&& 0 <= a <= t.len()
                &&& super::trim_start(t) == #[trigger] t.skip(a)
                &&& forall|i: int| 0 <= i < a ==> super::is_white(#[trigger] t[i])
                &&& a < t.len() ==> !super::is_white(t[a])
            };
        assert(t.skip(a) =~= s.skip(a + 1));
        assert forall|i: int| 0 <= i < a + 1 implies super::is_white(#[trigger] s[i]) by {
            if i > 0 {
                assert(s[i] == t[i - 1]);
            }
        }
    } else {
        assert(s.skip(0) =~= s);
    }
}

proof fn lemma_trim_end_is(s: Seq<char>)
    ensures
        exists|b: int|
            {
                &&& 0 <= b <= s.len()
                &&& super::trim_end(s) == #[trigger] s.take(b)
                &&& forall|i: int| b <= i < s.len() ==> super::is_white(#[trigger] s[i])
                &&& b > 0 ==> !super::is_white(s[b - 1])
            },
    decreases s.len(),
{
    if s.len() > 0 && super::is_white(s.last()) {
        let t = s.drop_last();
        lemma_trim_end_is(t);
        let b = choose|b: int|
            {
                &&& 0 <= b <= t.len()
                &&& super::trim_end(t) == #[trigger] t.take(b)
                &&& forall|i: int| b <= i < t.len() ==> super::is_white(#[trigger] t[i])
                &&& b > 0 ==> !super::is_white(t[b - 1])
            };
        assert(t.take(b) =~= s.take(b));
        assert forall|i: int| b <= i < s.len() implies super::is_white(#[trigger] s[i]) by {
            if i < t.len() {
                assert(s[i] == t[i]);
            }
        }
    } else {
        assert(s.take(s.len() as int) =~= s);
    }
}

/// A trimmed text is a stretch of the text: all that is cut off either end is
/// white space, and neither end of what is left is.
pub proof fn lemma_trim(s: Seq<char>)
    ensures
        exists|a: int, b: int|
            {
                &&& 0 <= a <= b <= s.len()
                &&& super::trim(s) == #[trigger] s.subrange(a, b)
                &&& forall|i: int| 0 <= i < a || b <= i < s.len() ==> super::is_white(#[trigger] s[i])
                &&& a < b ==> !super::is_white(s[a]) && !super::is_white(s[b - 1])
            },
{
    lemma_trim_start_is(s);
    let t = super::trim_start(s);
    lemma_trim_end_is(t);
    let a = choose|a: int|
        {
            &&& 0 <= a <= s.len()
            &&& t == #[trigger] s.skip(a)
            &&& forall|i: int| 0 <= i < a ==> super::is_white(#[trigger] s[i])
            &&& a < s.len() ==> !super::is_white(s[a])
        };
    let b = choose|b: int|
        {
            &&& 0 <= b <= t.len()
            &&& super::trim_end(t) == #[trigger] t.take(b)
            &&& forall|i: int| b <= i < t.len() ==> super::is_white(#[trigger] t[i])
            &&& b > 0 ==> !super::is_white(t[b - 1])
        };
    assert(t.take(b) =~= s.subrange(a, a + b));
    assert forall|i: int| 0 <= i < a || a + b <= i < s.len() implies super::is_white(#[trigger] s[i]) by {
        if i >= a {
            assert(s[i] == t[i - a]);
        }
    }
}

/// One text stands before another where the first byte in which they differ is
/// the smaller, or where it is a beginning of the other.
pub proof fn lemma_bytes_order(p: Seq<u8>, x: u8, y: u8, a: Seq<u8>, b: Seq<u8>)
    ensures
        super::bytes_le(p, p + a),
        a.len() > 0 ==> !super::bytes_le(p + a, p),
        x < y ==> super::bytes_le(p + seq![x] + a, p + seq![y] + b),
        x < y ==> !super::bytes_le(p + seq![y] + b, p + seq![x] + a),
    decreases p.len(),
{
    let (u, v) = (p + seq![x] + a, p + seq![y] + b);
    if p.len() > 0 {
        let t = p.drop_first();
        lemma_bytes_order(t, x, y, a, b);
        assert((p + a).drop_first() =~= t + a);
        assert(u.drop_first() =~= t + seq![x] + a);
        assert(v.drop_first() =~= t + seq![y] + b);
    } else {
        assert(p + a =~= a);
        assert(u[0] == x && v[0] == y);
    }
}

} // verus!
