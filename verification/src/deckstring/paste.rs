//! Deck codes in what is actually on a player's clipboard.
//!
//! Every deck site hands out a commented block around a code, and a player
//! pastes the whole thing. The code is found by *parsing* candidate lines
//! rather than by looking at their shape: a block also contains
//! base64-looking words, and a length check would happily pick one of them.

use vstd::prelude::*;
use vstd::string::StrSliceExecFns;

use super::base64::{b64_decode, decode_chars};
use super::code::{parse, Decoded};
use super::CodeError;
use crate::text::{chars_of, line_bounds, trim_bounds};

pub mod laws;

verus! {

/// Whether a text parses as a deck.
///
/// A deck has a hero and cards; short random base64 can survive the varint
/// reader by accident, but it cannot survive that.
#[verifier::opaque]
pub open spec fn plausible(code: Seq<char>) -> bool {
    match super::base64::decoded(code) {
        None => false,
        Some(bytes) => match super::code::parsed(bytes) {
            Err(_) => false,
            Ok(d) => d.version == 1 && d.heroes.len() > 0 && d.cards.len() > 0,
        },
    }
}

/// Whether a line says something that is no comment.
pub open spec fn says_something(line: Seq<char>) -> bool {
    line.len() > 0 && line[0] != '#'
}

/// The lines of a text that are neither blank nor comments, trimmed.
pub open spec fn body(text: Seq<char>) -> Seq<Seq<char>> {
    crate::text::trimmed_lines(text).filter(|l: Seq<char>| says_something(l))
}

/// The lines of a text that are codes.
pub open spec fn codes(text: Seq<char>) -> Seq<Seq<char>> {
    body(text).filter(|l: Seq<char>| plausible(l))
}

/// The bare code in a text: all of it, or the first of its lines that is one.
pub open spec fn extracted(text: Seq<char>) -> Result<Seq<char>, CodeError> {
    let whole = crate::text::trim(text);
    if whole.len() == 0 {
        Err(CodeError::Empty)
    } else if plausible(whole) {
        Ok(whole)
    } else if codes(text).len() > 0 {
        Ok(codes(text)[0])
    } else if body(text).len() == 0 {
        Err(CodeError::OnlyComments)
    } else {
        Err(CodeError::NoCode)
    }
}

/// What is wrong with a text that is nothing but base64, if it does not read
/// as a deck.
pub open spec fn broken(text: Seq<char>) -> Option<CodeError> {
    match super::base64::decoded(crate::text::trim(text)) {
        None => None,
        Some(bytes) => match super::code::parsed(bytes) {
            Err(e) => Some(e),
            Ok(_) => None,
        },
    }
}

/// The deck that a bare code or a pasted block around one spells.
///
/// Where there is no code in the text, but all of it is base64, it is a bare
/// code that is broken, and how it is broken is the real problem.
pub open spec fn decoded_text(text: Seq<char>) -> Result<super::code::DecodedView, CodeError> {
    match extracted(text) {
        Err(e) => if e == CodeError::NoCode && broken(text) is Some {
            Err(broken(text)->Some_0)
        } else {
            Err(e)
        },
        Ok(code) => match super::base64::decoded(code) {
            None => Err(CodeError::BadHeader),
            Some(bytes) => super::code::parsed(bytes),
        },
    }
}

/// What stands behind the marks of a title, if a line is one.
pub open spec fn title(line: Seq<char>) -> Option<Seq<char>> {
    if line.len() >= 3 && line[0] == '#' && line[1] == '#' && line[2] == '#' && crate::text::trim(
        line.skip(3),
    ).len() > 0 {
        Some(crate::text::trim(line.skip(3)))
    } else {
        None
    }
}

/// The titles in a text.
pub open spec fn titles(text: Seq<char>) -> Seq<Seq<char>> {
    crate::text::trimmed_lines(text).filter_map(|l: Seq<char>| title(l))
}

/// Whether the characters `v[from..to]` parse as a deck.
fn is_plausible(v: &Vec<char>, from: usize, to: usize) -> (r: bool)
    requires
        from <= to <= v@.len(),
    ensures
        r == plausible(v@.subrange(from as int, to as int)),
{
    proof {
        reveal(plausible);
    }
    match decode_chars(v, from, to) {
        None => false,
        Some(bytes) => match parse(bytes.as_slice()) {
            Err(_) => false,
            Ok(d) => d.version == 1 && d.heroes.len() > 0 && d.cards.len() > 0,
        },
    }
}

/// The bare deck code inside whatever the user pasted.
pub fn extract(text: &str) -> (r: Result<&str, CodeError>)
    ensures
        match (r, extracted(text@)) {
            (Ok(code), Ok(c)) => code@ == c,
            (Err(e), Err(f)) => e == f,
            _ => false,
        },
{
    let v = chars_of(text);
    let n: usize = v.len();
    let (from, to) = trim_bounds(&v, 0, n);
    proof {
        assert(v@.subrange(0, n as int) =~= text@);
    }
    if from == to {
        return Err(CodeError::Empty);
    }
    if is_plausible(&v, from, to) {
        return Ok(text.substring_char(from, to));
    }
    let lines = line_bounds(&v, 0, n);
    let ghost all = crate::text::trimmed_lines(text@);
    let ghost p = |l: Seq<char>| says_something(l);
    let ghost q = |l: Seq<char>| plausible(l);
    let mut seen = false;
    let mut i: usize = 0;
    proof {
        reveal(Seq::filter);
        assert(all.take(0).filter(p) =~= seq![]);
        assert(all.take(0).filter(p).filter(q) =~= seq![]);
    }
    while i < lines.len()
        invariant
            n == v@.len(),
            v@ == text@,
            !plausible(crate::text::trim(text@)),
            crate::text::trim(text@).len() > 0,
            i <= lines@.len(),
            lines@.len() == all.len(),
            all == crate::text::trimmed_lines(text@),
            p == (|l: Seq<char>| says_something(l)),
            q == (|l: Seq<char>| plausible(l)),
            forall|k: int|
                0 <= k < lines@.len() ==> (#[trigger] lines@[k]).0 <= lines@[k].1 <= v@.len()
                    && v@.subrange(lines@[k].0 as int, lines@[k].1 as int) == all[k],
            seen == (all.take(i as int).filter(p).len() > 0),
            all.take(i as int).filter(p).filter(q).len() == 0,
        decreases lines.len() - i,
    {
        let (a, b) = lines[i];
        let ghost l = all[i as int];
        proof {
            reveal(Seq::filter);
            assert(all.take(i + 1).drop_last() =~= all.take(i as int));
            let before = all.take(i as int).filter(p);
            assert(before.push(l).drop_last() =~= before);
            assert(before.filter(q) =~= seq![]);
            if says_something(l) {
                assert(l[0] == v@[a as int]);
            }
        }
        if a < b && v[a] != '#' {
            seen = true;
            if is_plausible(&v, a, b) {
                proof {
                    let rest = all.skip(i + 1);
                    assert(all =~= all.take(i + 1) + rest);
                    Seq::filter_distributes_over_add(all.take(i + 1), rest, p);
                    Seq::filter_distributes_over_add(all.take(i + 1).filter(p), rest.filter(p), q);
                    assert(codes(text@)[0] == l);
                }
                return Ok(text.substring_char(a, b));
            }
        }
        i += 1;
    }
    proof {
        assert(all.take(i as int) =~= all);
    }
    if seen {
        Err(CodeError::NoCode)
    } else {
        Err(CodeError::OnlyComments)
    }
}

/// The `### Name` title a paste carries, if it has one.
pub fn deck_name(text: &str) -> (r: Option<&str>)
    ensures
        match r {
            Some(name) => titles(text@).len() > 0 && name@ == titles(text@)[0],
            None => titles(text@).len() == 0,
        },
{
    let v = chars_of(text);
    let n: usize = v.len();
    proof {
        assert(v@.subrange(0, n as int) =~= text@);
    }
    let lines = line_bounds(&v, 0, n);
    let ghost all = crate::text::trimmed_lines(text@);
    let ghost f = |l: Seq<char>| title(l);
    let mut i: usize = 0;
    proof {
        reveal(Seq::filter_map);
        assert(all.take(0).filter_map(f) =~= seq![]);
    }
    while i < lines.len()
        invariant
            n == v@.len(),
            v@ == text@,
            i <= lines@.len(),
            lines@.len() == all.len(),
            all == crate::text::trimmed_lines(text@),
            f == (|l: Seq<char>| title(l)),
            forall|k: int|
                0 <= k < lines@.len() ==> (#[trigger] lines@[k]).0 <= lines@[k].1 <= v@.len()
                    && v@.subrange(lines@[k].0 as int, lines@[k].1 as int) == all[k],
            all.take(i as int).filter_map(f).len() == 0,
        decreases lines.len() - i,
    {
        let (a, b) = lines[i];
        let ghost l = all[i as int];
        proof {
            reveal(Seq::filter_map);
            assert(all.take(i + 1).drop_last() =~= all.take(i as int));
            assert(l.len() == b - a);
        }
        if b - a >= 3 && v[a] == '#' && v[a + 1] == '#' && v[a + 2] == '#' {
            let (x, y) = trim_bounds(&v, a + 3, b);
            proof {
                assert(l[0] == v@[a as int] && l[1] == v@[a + 1] && l[2] == v@[a + 2]);
                assert(l.skip(3) =~= v@.subrange(a + 3, b as int));
            }
            if x < y {
                proof {
                    assert(title(l) == Some(v@.subrange(x as int, y as int)));
                    lemma_filter_map_prefix(all, i + 1, f);
                    assert(all.take(i + 1).filter_map(f)[0] == title(l)->Some_0);
                }
                return Some(text.substring_char(x, y));
            }
        }
        proof {
            assert(title(l) is None) by {
                if l.len() >= 3 {
                    assert(l[0] == v@[a as int] && l[1] == v@[a + 1] && l[2] == v@[a + 2]);
                }
            }
        }
        i += 1;
    }
    proof {
        assert(all.take(i as int) =~= all);
    }
    None
}

proof fn lemma_filter_map_prefix(s: Seq<Seq<char>>, n: int, f: spec_fn(Seq<char>) -> Option<Seq<char>>)
    requires
        0 <= n <= s.len(),
    ensures
        s.take(n).filter_map(f).len() <= s.filter_map(f).len(),
        forall|i: int|
            0 <= i < s.take(n).filter_map(f).len() ==> s.filter_map(f)[i] == #[trigger] s.take(n).filter_map(f)[i],
    decreases s.len() - n,
{
    if n == s.len() {
        assert(s.take(n) =~= s);
    } else {
        reveal(Seq::filter_map);
        lemma_filter_map_prefix(s, n + 1, f);
        assert(s.take(n + 1).drop_last() =~= s.take(n));
        assert forall|i: int| 0 <= i < s.take(n).filter_map(f).len() implies s.filter_map(f)[i] == #[trigger] s.take(n).filter_map(f)[i] by {
            assert(s.take(n + 1).filter_map(f)[i] == s.take(n).filter_map(f)[i]);
        }
    }
}

/// What is wrong with a text that is nothing but base64, if it does not read
/// as a deck.
fn what_is_broken(text: &str) -> (r: Option<CodeError>)
    ensures
        r == broken(text@),
{
    let v = chars_of(text);
    let n: usize = v.len();
    proof {
        assert(v@.subrange(0, n as int) =~= text@);
    }
    let (from, to) = trim_bounds(&v, 0, n);
    match decode_chars(&v, from, to) {
        None => None,
        Some(bytes) => match parse(bytes.as_slice()) {
            Err(e) => Some(e),
            Ok(_) => None,
        },
    }
}

/// Decode a bare code or a pasted block around one.
pub fn decode(text: &str) -> (r: Result<Decoded, CodeError>)
    ensures
        match (r, decoded_text(text@)) {
            (Ok(d), Ok(v)) => d@ == v,
            (Err(e), Err(f)) => e == f,
            _ => false,
        },
{
    match extract(text) {
        Err(CodeError::NoCode) => match what_is_broken(text) {
            Some(e) => Err(e),
            None => Err(CodeError::NoCode),
        },
        Err(e) => Err(e),
        Ok(code) => match b64_decode(code) {
            None => Err(CodeError::BadHeader),
            Some(bytes) => parse(bytes.as_slice()),
        },
    }
}

} // verus!
