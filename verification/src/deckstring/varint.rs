//! Varints: numbers in groups of seven bits, least significant first, the
//! high bit set on every byte but the last.

use vstd::prelude::*;

use super::CodeError;

pub mod laws;

verus! {

/// A number as a varint.
pub open spec fn varint(n: nat) -> Seq<u8>
    decreases n,
{
    if n < 128 {
        seq![n as u8]
    } else {
        seq![(n % 128 + 128) as u8] + varint(n / 128)
    }
}

/// Numbers as varints, one after the other.
pub open spec fn varints(ns: Seq<u32>) -> Seq<u8>
    decreases ns.len(),
{
    if ns.len() == 0 {
        seq![]
    } else {
        varint(ns[0] as nat) + varints(ns.drop_first())
    }
}

/// How many bytes at the front say that another follows.
pub open spec fn continued(s: Seq<u8>) -> nat
    decreases s.len(),
{
    if s.len() == 0 || s[0] < 128 {
        0
    } else {
        1 + continued(s.drop_first())
    }
}

/// The number that bytes spell, seven bits each, least significant first.
pub open spec fn spelled(s: Seq<u8>) -> nat
    decreases s.len(),
{
    if s.len() == 0 {
        0
    } else {
        (s[0] % 128) as nat + 128 * spelled(s.drop_first())
    }
}

/// The longest varint a reader follows.
pub const LONGEST: usize = 6;

/// The varint at the front of a stream and what follows it.
///
/// A varint that runs on for too long, or spells more than thirty-two bits,
/// is not a deck code's.
pub open spec fn read(s: Seq<u8>) -> Result<(u32, Seq<u8>), CodeError> {
    let n = continued(s) as int;
    if n >= LONGEST {
        Err(CodeError::BadHeader)
    } else if n >= s.len() {
        Err(CodeError::Truncated)
    } else if spelled(s.take(n + 1)) > u32::MAX {
        Err(CodeError::BadHeader)
    } else {
        Ok((spelled(s.take(n + 1)) as u32, s.skip(n + 1)))
    }
}

/// The `n` varints at the front of a stream and what follows them.
pub open spec fn read_many(s: Seq<u8>, n: nat) -> Result<(Seq<u32>, Seq<u8>), CodeError>
    decreases n,
{
    if n == 0 {
        Ok((seq![], s))
    } else {
        match read(s) {
            Err(e) => Err(e),
            Ok((x, t)) => match read_many(t, (n - 1) as nat) {
                Err(e) => Err(e),
                Ok((xs, u)) => Ok((seq![x] + xs, u)),
            },
        }
    }
}

/// A length-prefixed run of varints.
///
/// A length is bounded by what is left to read.
pub open spec fn read_list(s: Seq<u8>) -> Result<(Seq<u32>, Seq<u8>), CodeError> {
    match read(s) {
        Err(e) => Err(e),
        Ok((n, t)) => if n > t.len() {
            Err(CodeError::Truncated)
        } else {
            read_many(t, n as nat)
        },
    }
}

/// A run of records of `k` varints each, prefixed by how many there are.
pub open spec fn read_records(s: Seq<u8>, k: nat) -> Result<(Seq<u32>, Seq<u8>), CodeError> {
    match read(s) {
        Err(e) => Err(e),
        Ok((n, t)) => read_many(t, n as nat * k),
    }
}

// ------------------------------------------------------------- round trip

proof fn lemma_varint_shape(n: nat, t: Seq<u8>)
    ensures
        varint(n).len() >= 1,
        continued(varint(n) + t) == varint(n).len() - 1,
        spelled(varint(n)) == n,
    decreases n,
{
    let s = varint(n) + t;
    if n < 128 {
        assert(s[0] == n as u8);
        assert(spelled(varint(n).drop_first()) == 0);
    } else {
        lemma_varint_shape(n / 128, t);
        assert(s.drop_first() =~= varint(n / 128) + t);
        assert(varint(n).drop_first() =~= varint(n / 128));
    }
}

proof fn lemma_varint_len(n: nat)
    requires
        n <= u32::MAX,
    ensures
        varint(n).len() <= 5,
{
    reveal_with_fuel(varint, 5);
    assert(n / 128 / 128 / 128 / 128 < 128);
}

/// A varint reads back as the number it was made from.
pub proof fn lemma_varint_round_trip(n: u32, t: Seq<u8>)
    ensures
        read(varint(n as nat) + t) == Ok::<(u32, Seq<u8>), CodeError>((n, t)),
{
    let s = varint(n as nat) + t;
    lemma_varint_shape(n as nat, t);
    lemma_varint_len(n as nat);
    let k = continued(s) as int + 1;
    assert(s.take(k) =~= varint(n as nat));
    assert(s.skip(k) =~= t);
}

/// A run of varints reads back as the numbers it was made from.
pub proof fn lemma_varints_round_trip(ns: Seq<u32>, t: Seq<u8>)
    ensures
        read_many(varints(ns) + t, ns.len()) == Ok::<(Seq<u32>, Seq<u8>), CodeError>((ns, t)),
    decreases ns.len(),
{
    if ns.len() == 0 {
        assert(varints(ns) + t =~= t);
        assert(ns =~= seq![]);
    } else {
        let rest = ns.drop_first();
        lemma_varint_round_trip(ns[0], varints(rest) + t);
        lemma_varints_round_trip(rest, t);
        assert(varints(ns) + t =~= varint(ns[0] as nat) + (varints(rest) + t));
        assert(seq![ns[0]] + rest =~= ns);
    }
}

/// Two runs of numbers are written one after the other.
pub proof fn lemma_varints_concat(a: Seq<u32>, b: Seq<u32>)
    ensures
        varints(a + b) == varints(a) + varints(b),
    decreases a.len(),
{
    if a.len() == 0 {
        assert(a + b =~= b);
        assert(varints(a) + varints(b) =~= varints(b));
    } else {
        lemma_varints_concat(a.drop_first(), b);
        assert((a + b).drop_first() =~= a.drop_first() + b);
        assert(varints(a + b) =~= varints(a) + varints(b));
    }
}

/// Every number takes a byte at least.
pub proof fn lemma_varints_len(ns: Seq<u32>)
    ensures
        varints(ns).len() >= ns.len(),
    decreases ns.len(),
{
    if ns.len() > 0 {
        lemma_varint_shape(ns[0] as nat, seq![]);
        lemma_varints_len(ns.drop_first());
    }
}

// -------------------------------------------------------------- executable

/// Appends a number as a varint.
pub fn put_varint(out: &mut Vec<u8>, n: u32)
    ensures
        final(out)@ == old(out)@ + varint(n as nat),
{
    let ghost before = out@;
    let mut left: u32 = n;
    while left >= 128
        invariant
            out@ + varint(left as nat) == before + varint(n as nat),
        decreases left,
    {
        let ghost now = out@;
        out.push((left % 128 + 128) as u8);
        proof {
            assert(out@ + varint((left / 128) as nat) =~= now + varint(left as nat));
        }
        left = left / 128;
    }
    out.push(left as u8);
    proof {
        assert(out@ =~= before + varint(n as nat));
    }
}

/// Appends numbers as varints.
pub fn put_varints(out: &mut Vec<u8>, ns: &[u32])
    ensures
        final(out)@ == old(out)@ + varints(ns@),
{
    let ghost before = out@;
    let mut i: usize = 0;
    proof {
        assert(ns@.take(0) =~= seq![]);
        assert(before + varints(seq![]) =~= before);
    }
    while i < ns.len()
        invariant
            i <= ns@.len(),
            out@ == before + varints(ns@.take(i as int)),
        decreases ns.len() - i,
    {
        put_varint(out, ns[i]);
        proof {
            let one = seq![ns@[i as int]];
            assert(ns@.take(i + 1) =~= ns@.take(i as int) + one);
            lemma_varints_concat(ns@.take(i as int), one);
            assert(varints(one.drop_first()) =~= seq![]);
            assert(varints(one) =~= varint(one[0] as nat));
            assert(out@ =~= before + varints(ns@.take(i + 1)));
        }
        i += 1;
    }
    proof {
        assert(ns@.take(i as int) =~= ns@);
    }
}

/// A place in a stream of varints.
pub struct Reader<'a> {
    pub data: &'a [u8],
    pub pos: usize,
}

impl<'a> Reader<'a> {
    /// What is left to read.
    pub open spec fn rest(self) -> Seq<u8> {
        self.data@.skip(self.pos as int)
    }

    pub open spec fn wf(self) -> bool {
        self.pos <= self.data@.len()
    }

    /// The next number.
    pub fn varint(&mut self) -> (r: Result<u32, CodeError>)
        requires
            old(self).wf(),
        ensures
            final(self).wf(),
            final(self).data == old(self).data,
            match (r, read(old(self).rest())) {
                (Ok(n), Ok((m, t))) => n == m && final(self).rest() == t,
                (Err(e), Err(f)) => e == f,
                _ => false,
            },
    {
        let ghost s = self.rest();
        let ghost start = self.pos;
        let mut scale: u64 = 1;
        let mut out: u64 = 0;
        let mut k: usize = 0;
        proof {
            assert(s.skip(0) =~= s);
        }
        while k < LONGEST
            invariant
                self.wf(),
                self.data == old(self).data,
                start + k == self.pos,
                s == self.data@.skip(start as int),
                s == old(self).rest(),
                k <= LONGEST,
                continued(s) == k + continued(s.skip(k as int)),
                k == 0 ==> scale == 1,
                k == 1 ==> scale == 128,
                k == 2 ==> scale == 16384,
                k == 3 ==> scale == 2097152,
                k == 4 ==> scale == 268435456,
                k == 5 ==> scale == 34359738368,
                k == 6 ==> scale == 4398046511104,
                out < scale,
                forall|m: int| k < m <= s.len() ==> spelled(#[trigger] s.take(m)) == out + scale * spelled(s.subrange(k as int, m)),
            decreases LONGEST - k,
        {
            if self.pos >= self.data.len() {
                return Err(CodeError::Truncated);
            }
            proof {
                assert(s.skip(k as int).drop_first() =~= s.skip(k + 1));
            }
            let b: u8 = self.data[self.pos];
            self.pos += 1;
            let ghost before = out;
            assert(((b % 128) as u64) * scale <= 127 * scale) by (nonlinear_arith)
                requires
                    (b % 128) as u64 <= 127,
            ;
            out = out + ((b % 128) as u64) * scale;
            proof {
                assert forall|m: int| k < m <= s.len() implies spelled(#[trigger] s.take(m)) == out + (128 * scale) * spelled(s.subrange(k + 1, m)) by {
                    let u = s.subrange(k as int, m);
                    assert(u.drop_first() =~= s.subrange(k + 1, m));
                    let x = (b % 128) as int;
                    let y = spelled(s.subrange(k + 1, m)) as int;
                    assert(spelled(u) == x + 128 * y);
                    assert(scale * (x + 128 * y) == x * scale + (128 * scale) * y) by (nonlinear_arith);
                }
            }
            if b < 128 {
                proof {
                    assert(continued(s) == k);
                    assert(s.subrange(k + 1, k + 1) =~= seq![]);
                    assert(spelled(s.take(k + 1)) == out + (128 * scale) * 0);
                    assert(self.rest() =~= s.skip(k + 1));
                }
                if out > u32::MAX as u64 {
                    return Err(CodeError::BadHeader);
                }
                return Ok(out as u32);
            }
            scale = scale * 128;
            k += 1;
        }
        Err(CodeError::BadHeader)
    }

    /// The next `n` numbers.
    pub fn varints(&mut self, n: u64) -> (r: Result<Vec<u32>, CodeError>)
        requires
            old(self).wf(),
        ensures
            final(self).wf(),
            final(self).data == old(self).data,
            match (r, read_many(old(self).rest(), n as nat)) {
                (Ok(v), Ok((w, t))) => v@ == w && final(self).rest() == t,
                (Err(e), Err(f)) => e == f,
                _ => false,
            },
    {
        let mut out: Vec<u32> = Vec::new();
        let ghost s = self.rest();
        let mut k: u64 = 0;
        proof {
            if read_many(s, n as nat) is Ok {
                assert(out@ + read_many(s, n as nat)->Ok_0.0 =~= read_many(s, n as nat)->Ok_0.0);
            }
        }
        while k < n
            invariant
                self.wf(),
                self.data == old(self).data,
                k <= n,
                s == old(self).rest(),
                match (read_many(s, n as nat), read_many(self.rest(), (n - k) as nat)) {
                    (Ok((w, t)), Ok((x, u))) => w == out@ + x && t == u,
                    (Err(e), Err(f)) => e == f,
                    _ => false,
                },
            decreases n - k,
        {
            let ghost before = out@;
            match self.varint() {
                Err(e) => { return Err(e); },
                Ok(x) => {
                    out.push(x);
                    proof {
                        if read_many(self.rest(), (n - k - 1) as nat) is Ok {
                            let xs = read_many(self.rest(), (n - k - 1) as nat)->Ok_0.0;
                            assert(before + (seq![x] + xs) =~= out@ + xs);
                        }
                    }
                },
            }
            k += 1;
        }
        proof {
            assert(out@ + Seq::<u32>::empty() =~= out@);
        }
        Ok(out)
    }

    /// A length-prefixed run of varints.
    pub fn list(&mut self) -> (r: Result<Vec<u32>, CodeError>)
        requires
            old(self).wf(),
        ensures
            final(self).wf(),
            final(self).data == old(self).data,
            match (r, read_list(old(self).rest())) {
                (Ok(v), Ok((w, t))) => v@ == w && final(self).rest() == t,
                (Err(e), Err(f)) => e == f,
                _ => false,
            },
    {
        match self.varint() {
            Err(e) => Err(e),
            Ok(n) => {
                // A corrupt code must not make this reserve gigabytes before
                // failing.
                if n as u64 > (self.data.len() - self.pos) as u64 {
                    Err(CodeError::Truncated)
                } else {
                    self.varints(n as u64)
                }
            },
        }
    }

    /// A run of records of `k` varints each, prefixed by how many there are.
    pub fn records(&mut self, k: u32) -> (r: Result<Vec<u32>, CodeError>)
        requires
            old(self).wf(),
        ensures
            final(self).wf(),
            final(self).data == old(self).data,
            match (r, read_records(old(self).rest(), k as nat)) {
                (Ok(v), Ok((w, t))) => v@ == w && final(self).rest() == t,
                (Err(e), Err(f)) => e == f,
                _ => false,
            },
    {
        match self.varint() {
            Err(e) => Err(e),
            Ok(n) => {
                assert(n * k <= u32::MAX * u32::MAX) by (nonlinear_arith)
                    requires
                        n <= u32::MAX,
                        k <= u32::MAX,
                ;
                self.varints(n as u64 * k as u64)
            },
        }
    }

    /// Whether everything has been read.
    pub fn eof(&self) -> (r: bool)
        requires
            self.wf(),
        ensures
            r == (self.rest().len() == 0),
    {
        self.pos >= self.data.len()
    }
}

} // verus!
