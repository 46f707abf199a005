//! What is found in a pasted text.

use vstd::prelude::*;

use super::super::CodeError;

verus! {

/// A code is base64 of a deck of the first version with a hero and a card.
pub proof fn lemma_plausible(code: Seq<char>)
    ensures
        super::plausible(code) <==> {
            &&& super::super::base64::decoded(code) is Some
            &&& super::super::code::parsed(super::super::base64::decoded(code)->Some_0) is Ok
            &&& {
                let d = super::super::code::parsed(
                    super::super::base64::decoded(code)->Some_0,
                )->Ok_0;
                d.version == 1 && d.heroes.len() > 0 && d.cards.len() > 0
            }
        },
{
    reveal(super::plausible);
}

/// A line counts unless it is blank or starts with a comment mark.
pub proof fn lemma_lines_that_count(text: Seq<char>, line: Seq<char>)
    ensures
        super::body(text).contains(line) <==> crate::text::trimmed_lines(text).contains(line)
            && line.len() > 0 && line[0] != '#',
{
    let keep = |l: Seq<char>| super::says_something(l);
    let all = crate::text::trimmed_lines(text);
    let f = super::body(text);
    if all.contains(line) && keep(line) {
        let i = choose|i: int| 0 <= i < all.len() && all[i] == line;
        all.lemma_filter_contains(keep, i);
    }
    if f.contains(line) {
        let i = choose|i: int| 0 <= i < f.len() && f[i] == line;
        all.lemma_filter_pred(keep, i);
        all.lemma_filter_contains_rev(keep, line);
    }
}

proof fn lemma_first_kept(s: Seq<Seq<char>>, keep: spec_fn(Seq<char>) -> bool)
    ensures
        s.filter(keep).len() > 0 ==> exists|i: int|
            {
                &&& 0 <= i < s.len()
                &&& #[trigger] s[i] == s.filter(keep)[0]
                &&& keep(s[i])
                &&& forall|j: int| 0 <= j < i ==> !keep(#[trigger] s[j])
            },
        s.filter(keep).len() == 0 ==> forall|j: int| 0 <= j < s.len() ==> !keep(#[trigger] s[j]),
    decreases s.len(),
{
    reveal(Seq::filter);
    if s.len() > 0 {
        let t = s.drop_last();
        lemma_first_kept(t, keep);
        let f = t.filter(keep);
        if f.len() > 0 {
            let i = choose|i: int|
                {
                    &&& 0 <= i < t.len()
                    &&& #[trigger] t[i] == f[0]
                    &&& keep(t[i])
                    &&& forall|j: int| 0 <= j < i ==> !keep(#[trigger] t[j])
                };
            assert(s[i] == t[i]);
            assert forall|j: int| 0 <= j < i implies !keep(#[trigger] s[j]) by {
                assert(!keep(t[j]));
            }
        } else {
            assert forall|j: int| 0 <= j < s.len() - 1 implies !keep(#[trigger] s[j]) by {
                assert(!keep(t[j]));
            }
            if keep(s.last()) {
                assert(s[s.len() - 1] == s.filter(keep)[0]);
            }
        }
    }
}

/// All of a text is taken where it is a code; else the first of its lines that
/// is one.
pub proof fn lemma_first_code_is_taken(text: Seq<char>, code: Seq<char>)
    requires
        super::extracted(text) == Ok::<Seq<char>, CodeError>(code),
    ensures
        super::plausible(crate::text::trim(text)) && crate::text::trim(text).len() > 0 ==> code
            == crate::text::trim(text),
        !super::plausible(crate::text::trim(text)) ==> exists|i: int|
            {
                &&& 0 <= i < crate::text::trimmed_lines(text).len()
                &&& #[trigger] crate::text::trimmed_lines(text)[i] == code
                &&& super::plausible(code)
                &&& forall|j: int|
                    0 <= j < i ==> !super::plausible(#[trigger] crate::text::trimmed_lines(text)[j])
            },
{
    let lines = crate::text::trimmed_lines(text);
    if !super::plausible(crate::text::trim(text)) {
        let says = |l: Seq<char>| super::says_something(l);
        let good = |l: Seq<char>| super::plausible(l);
        assert forall|l: Seq<char>| #[trigger] good(l) implies says(l) by {
            super::super::laws::lemma_plausible_alphabet(l);
        }
        super::super::laws::lemma_filter_filter(lines, says, good);
        lemma_first_kept(lines, good);
    }
}

/// Where any line of a text is a code, one is found.
pub proof fn lemma_code_is_found(text: Seq<char>, i: int)
    requires
        0 <= i < crate::text::trimmed_lines(text).len(),
        super::plausible(crate::text::trimmed_lines(text)[i]),
        crate::text::trim(text).len() > 0,
    ensures
        super::extracted(text) is Ok,
{
    let lines = crate::text::trimmed_lines(text);
    let says = |l: Seq<char>| super::says_something(l);
    let good = |l: Seq<char>| super::plausible(l);
    assert forall|l: Seq<char>| #[trigger] good(l) implies says(l) by {
        super::super::laws::lemma_plausible_alphabet(l);
    }
    super::super::laws::lemma_filter_filter(lines, says, good);
    lemma_first_kept(lines, good);
    assert(good(lines[i]));
}

/// Nothing is found where nothing was pasted, where every line is blank or a
/// comment, or where no line is a code; and the problem says which.
pub proof fn lemma_why_nothing_is_found(text: Seq<char>, e: CodeError, i: int)
    requires
        super::extracted(text) == Err::<Seq<char>, CodeError>(e),
    ensures
        e == CodeError::Empty <==> crate::text::trim(text).len() == 0,
        e == CodeError::Empty || e == CodeError::OnlyComments || e == CodeError::NoCode,
        e != CodeError::Empty && 0 <= i < crate::text::trimmed_lines(text).len() ==> !super::plausible(
            crate::text::trimmed_lines(text)[i],
        ),
        e == CodeError::OnlyComments && 0 <= i < crate::text::trimmed_lines(text).len() ==> {
            let line = crate::text::trimmed_lines(text)[i];
            line.len() == 0 || line[0] == '#'
        },
        e == CodeError::NoCode ==> exists|j: int|
            0 <= j < crate::text::trimmed_lines(text).len() && (
            #[trigger] crate::text::trimmed_lines(text)[j]).len() > 0
                && crate::text::trimmed_lines(text)[j][0] != '#',
{
    let lines = crate::text::trimmed_lines(text);
    if e != CodeError::Empty && 0 <= i < lines.len() {
        if super::plausible(lines[i]) {
            lemma_code_is_found(text, i);
        }
        lemma_lines_that_count(text, lines[i]);
        assert(lines.contains(lines[i]));
    }
    if e == CodeError::NoCode {
        let first = super::body(text)[0];
        lemma_lines_that_count(text, first);
        assert(super::body(text).contains(first));
        let j = choose|j: int| 0 <= j < lines.len() && lines[j] == first;
        assert(crate::text::trimmed_lines(text)[j].len() > 0);
    }
}

/// A text that is all base64 but no deck has the problem of that code; where
/// it is not, the problem is that there is none. A code that is found is read.
pub proof fn lemma_text_read(text: Seq<char>)
    ensures
        super::extracted(text) matches Ok(code) ==> super::decoded_text(text)
            == super::super::code::parsed(super::super::base64::decoded(code)->Some_0),
        super::extracted(text) == Err::<Seq<char>, CodeError>(CodeError::NoCode) ==> match
        super::super::base64::decoded(crate::text::trim(text)) {
            None => super::decoded_text(text) == Err::<super::super::code::DecodedView, CodeError>(
                CodeError::NoCode,
            ),
            Some(bytes) => super::super::code::parsed(bytes) matches Err(e) ==> super::decoded_text(text)
                == Err::<super::super::code::DecodedView, CodeError>(e),
        },
        super::extracted(text) matches Err(e) ==> e != CodeError::NoCode ==> super::decoded_text(text)
            == Err::<super::super::code::DecodedView, CodeError>(e),
{
    if let Ok(code) = super::extracted(text) {
        super::super::laws::lemma_extracted_is_plausible(text);
        lemma_plausible(code);
    }
}

/// Each problem has a key of its own.
pub proof fn lemma_problem_keys(e: CodeError)
    ensures
        e == CodeError::Empty ==> e.key() == "empty"@,
        e == CodeError::OnlyComments ==> e.key() == "only_comments"@,
        e == CodeError::NoCode ==> e.key() == "no_code"@,
        e == CodeError::Truncated ==> e.key() == "truncated"@,
        e == CodeError::BadHeader ==> e.key() == "bad_header"@,
{
}

/// A title is what stands behind three marks, trimmed, where anything does.
pub proof fn lemma_title(line: Seq<char>, rest: Seq<char>)
    ensures
        ({
            let marked = seq!['#', '#', '#'] + rest;
            &&& crate::text::trim(rest).len() > 0 ==> super::title(marked) == Some(
                crate::text::trim(rest),
            )
            &&& crate::text::trim(rest).len() == 0 ==> super::title(marked) is None
        }),
        line.len() < 3 || line[0] != '#' || line[1] != '#' || line[2] != '#' ==> super::title(
            line,
        ) is None,
{
    let marked = seq!['#', '#', '#'] + rest;
    assert(marked.skip(3) =~= rest);
}

/// The titles of a text are those of its lines, in order.
pub proof fn lemma_titles(before: Seq<char>, after: Seq<char>)
    ensures
        super::titles(before + seq!['\n'] + after) == super::titles(before) + super::titles(after),
{
    crate::text::lemma_lines_concat(before, after);
    let f = |l: Seq<char>| super::title(l);
    lemma_filter_map_concat(
        crate::text::trimmed_lines(before),
        crate::text::trimmed_lines(after),
        f,
    );
}

proof fn lemma_filter_map_concat(
    a: Seq<Seq<char>>,
    b: Seq<Seq<char>>,
    f: spec_fn(Seq<char>) -> Option<Seq<char>>,
)
    ensures
        (a + b).filter_map(f) == a.filter_map(f) + b.filter_map(f),
    decreases b.len(),
{
    reveal(Seq::filter_map);
    if b.len() == 0 {
        assert(a + b =~= a);
        assert(b.filter_map(f) =~= Seq::<Seq<char>>::empty());
        assert(a.filter_map(f) + b.filter_map(f) =~= a.filter_map(f));
    } else {
        lemma_filter_map_concat(a, b.drop_last(), f);
        assert((a + b).drop_last() =~= a + b.drop_last());
        assert((a + b).filter_map(f) =~= a.filter_map(f) + b.filter_map(f));
    }
}

/// A single line has the title it is, if it is one.
pub proof fn lemma_title_of_a_line(line: Seq<char>)
    requires
        forall|i: int| 0 <= i < line.len() ==> #[trigger] line[i] != '\n',
    ensures
        super::title(crate::text::trim(line)) matches Some(name) ==> super::titles(line) == seq![name],
        super::title(crate::text::trim(line)) is None ==> super::titles(line).len() == 0,
{
    reveal(Seq::filter_map);
    crate::text::lemma_single_line(line);
    let f = |l: Seq<char>| super::title(l);
    let one = seq![crate::text::trim(line)];
    assert(one.drop_last() =~= Seq::<Seq<char>>::empty());
    assert(one.drop_last().filter_map(f) =~= Seq::<Seq<char>>::empty());
    if let Some(name) = super::title(crate::text::trim(line)) {
        assert(super::titles(line) =~= seq![name]);
    }
}

} // verus!
