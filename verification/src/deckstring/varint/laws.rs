//! What a varint spells.

use vstd::prelude::*;

use super::super::CodeError;

verus! {

/// A byte below the mark is a number of its own; a byte above it carries the
/// low seven bits of a number whose rest follows; where nothing is left, the
/// stream ends early.
pub proof fn lemma_read_byte(b: u8, t: Seq<u8>)
    ensures
        super::read(Seq::<u8>::empty()) == Err::<(u32, Seq<u8>), CodeError>(CodeError::Truncated),
        b < 128 ==> super::read(seq![b] + t) == Ok::<(u32, Seq<u8>), CodeError>((b as u32, t)),
        b >= 128 && super::continued(t) < 5 ==> match super::read(t) {
            Ok((m, rest)) => super::read(seq![b] + t) == if (b - 128) + 128 * m <= 0xFFFF_FFFF {
                Ok::<(u32, Seq<u8>), CodeError>((((b - 128) + 128 * m) as u32, rest))
            } else {
                Err::<(u32, Seq<u8>), CodeError>(CodeError::BadHeader)
            },
            Err(e) => super::read(seq![b] + t) == Err::<(u32, Seq<u8>), CodeError>(e),
        },
        b >= 128 && super::continued(t) >= 5 ==> super::read(seq![b] + t) == Err::<
            (u32, Seq<u8>),
            CodeError,
        >(CodeError::BadHeader),
{
    let s = seq![b] + t;
    assert(s.drop_first() =~= t);
    let n = super::continued(t) as int;
    if b < 128 {
        assert(s.take(1) =~= seq![b]);
        assert(s.take(1).drop_first() =~= Seq::<u8>::empty());
        assert(super::spelled(s.take(1).drop_first()) == 0);
        assert(super::spelled(s.take(1)) == b);
        assert(s.skip(1) =~= t);
    } else if n < 5 && n < t.len() {
        assert(s.take(n + 2).drop_first() =~= t.take(n + 1));
        assert(super::spelled(s.take(n + 2)) == (b % 128) + 128 * super::spelled(t.take(n + 1)));
        assert(s.skip(n + 2) =~= t.skip(n + 1));
    }
}

/// The bytes that are marked as going on, counted from the front.
pub proof fn lemma_continued(b: u8, t: Seq<u8>)
    ensures
        super::continued(Seq::<u8>::empty()) == 0,
        super::continued(seq![b] + t) == if b >= 128 {
            super::continued(t) + 1
        } else {
            0
        },
{
    assert((seq![b] + t).drop_first() =~= t);
}

/// One number is read as by itself, and none takes nothing.
pub proof fn lemma_read_one(s: Seq<u8>)
    ensures
        super::read_many(s, 0) == Ok::<(Seq<u32>, Seq<u8>), CodeError>((Seq::<u32>::empty(), s)),
        match super::read(s) {
            Ok((x, t)) => super::read_many(s, 1) == Ok::<(Seq<u32>, Seq<u8>), CodeError>((seq![x], t)),
            Err(e) => super::read_many(s, 1) == Err::<(Seq<u32>, Seq<u8>), CodeError>(e),
        },
{
    if let Ok((x, t)) = super::read(s) {
        assert(super::read_many(t, 0) == Ok::<(Seq<u32>, Seq<u8>), CodeError>((Seq::<u32>::empty(), t)));
        assert(seq![x] + Seq::<u32>::empty() =~= seq![x]);
    }
}

/// Numbers are read in order: some and then some more are the two runs
/// together, and what stops either stops the whole.
pub proof fn lemma_read_on(s: Seq<u8>, a: nat, b: nat)
    ensures
        match super::read_many(s, a) {
            Err(e) => super::read_many(s, a + b) == Err::<(Seq<u32>, Seq<u8>), CodeError>(e),
            Ok((xs, t)) => xs.len() == a && match super::read_many(t, b) {
                Err(e) => super::read_many(s, a + b) == Err::<(Seq<u32>, Seq<u8>), CodeError>(e),
                Ok((ys, u)) => super::read_many(s, a + b) == Ok::<(Seq<u32>, Seq<u8>), CodeError>(
                    (xs + ys, u),
                ),
            },
        },
    decreases a,
{
    if a == 0 {
        if let Ok((ys, u)) = super::read_many(s, b) {
            assert(Seq::<u32>::empty() + ys =~= ys);
        }
    } else if let Ok((x, t)) = super::read(s) {
        lemma_read_on(t, (a - 1) as nat, b);
        assert(a + b - 1 == (a - 1) + b);
        if let Ok((xs, v)) = super::read_many(t, (a - 1) as nat) {
            if let Ok((ys, u)) = super::read_many(v, b) {
                assert(seq![x] + (xs + ys) =~= (seq![x] + xs) + ys);
            }
        }
    }
}

/// A list is as many numbers as it says, unless it says more than there are
/// bytes left; a run of records is as many times their size.
pub proof fn lemma_lists(s: Seq<u8>, n: u32, t: Seq<u8>, k: nat)
    requires
        super::read(s) == Ok::<(u32, Seq<u8>), CodeError>((n, t)),
    ensures
        n > t.len() ==> super::read_list(s) == Err::<(Seq<u32>, Seq<u8>), CodeError>(
            CodeError::Truncated,
        ),
        n <= t.len() ==> super::read_list(s) == super::read_many(t, n as nat),
        super::read_records(s, k) matches Ok((xs, u)) ==> xs.len() == n * k && super::read_many(
            t,
            xs.len(),
        ) == Ok::<(Seq<u32>, Seq<u8>), CodeError>((xs, u)),
{
    lemma_read_on(t, n as nat * k, 0);
}

/// A number below the mark is its own byte; a larger one is the byte of its
/// low seven bits, marked, and then the rest of it.
pub proof fn lemma_written(n: nat)
    ensures
        n < 128 ==> super::varint(n) == seq![n as u8],
        n >= 128 ==> super::varint(n) == seq![(n % 128 + 128) as u8] + super::varint(n / 128),
{
}

} // verus!
