//! What holds of deck codes as a whole.

use vstd::prelude::*;

use super::resolve::{Fault, Resolved};
use super::CodeError;
use crate::cards::corpus::Corpus;
use crate::cards::types::{CardId, Formats};

verus! {

proof fn lemma_group_alphabet(q: Seq<char>)
    requires
        q.len() == 4,
        super::base64::group(q) is Some,
    ensures
        forall|i: int| 0 <= i < 4 ==> in_alphabet(#[trigger] q[i]),
{
    reveal(super::base64::group);
    assert(super::base64::bits_of(q) is Some);
    assert(in_alphabet(q[0]) && in_alphabet(q[1]) && in_alphabet(q[2]) && in_alphabet(q[3]));
}

/// Whether a character can stand in base64.
pub open spec fn in_alphabet(c: char) -> bool {
    c == '=' || super::base64::value(c) is Some
}

proof fn lemma_groups_alphabet(s: Seq<char>)
    requires
        s.len() % 4 == 0,
        super::base64::groups(s) is Some,
    ensures
        forall|i: int| 0 <= i < s.len() ==> in_alphabet(#[trigger] s[i]),
    decreases s.len(),
{
    if s.len() >= 4 {
        lemma_group_alphabet(s.take(4));
        lemma_groups_alphabet(s.skip(4));
        assert forall|i: int| 0 <= i < s.len() implies in_alphabet(#[trigger] s[i]) by {
            if i < 4 {
                assert(s[i] == s.take(4)[i]);
            } else {
                assert(s[i] == s.skip(4)[i - 4]);
            }
        }
    }
}

/// A code holds neither white space nor a comment mark.
pub proof fn lemma_plausible_alphabet(s: Seq<char>)
    requires
        super::paste::plausible(s),
    ensures
        s.len() > 0,
        forall|i: int|
            0 <= i < s.len() ==> !crate::text::is_white(#[trigger] s[i]) && s[i] != '#' && s[i] != '\n',
{
    reveal(super::paste::plausible);
    assert(super::base64::groups(s) is Some);
    lemma_groups_alphabet(s);
    assert forall|i: int| 0 <= i < s.len() implies !crate::text::is_white(#[trigger] s[i]) && s[i]
        != '#' && s[i] != '\n' by {
        assert(in_alphabet(s[i]));
        lemma_alphabet_char(s[i]);
    }
}

proof fn lemma_alphabet_char(c: char)
    requires
        in_alphabet(c),
    ensures
        !crate::text::is_white(c),
        c != '#',
        c != '\n',
{
    reveal(super::base64::value);
}

/// A bare code is taken as it stands.
pub proof fn lemma_bare_code(code: Seq<char>)
    requires
        super::paste::plausible(code),
    ensures
        super::paste::extracted(code) == Ok::<Seq<char>, CodeError>(code),
{
    lemma_plausible_alphabet(code);
    crate::text::lemma_trim_keeps(code);
}

/// What an extraction finds is a code.
pub proof fn lemma_extracted_is_plausible(text: Seq<char>)
    ensures
        super::paste::extracted(text) matches Ok(code) ==> super::paste::plausible(code),
{
    if super::paste::codes(text).len() > 0 {
        super::paste::body(text).lemma_filter_pred(|l: Seq<char>| super::paste::plausible(l), 0);
    }
}

/// Extracting a code from what was extracted changes nothing.
pub proof fn lemma_extracted_twice(text: Seq<char>, code: Seq<char>)
    requires
        super::paste::extracted(text) == Ok::<Seq<char>, CodeError>(code),
    ensures
        super::paste::extracted(code) == Ok::<Seq<char>, CodeError>(code),
{
    lemma_extracted_is_plausible(text);
    lemma_bare_code(code);
}

/// A text that reads as a deck is one of the first version with a hero and
/// cards. One that does not is named for its real problem: nothing was pasted,
/// or only comments, or a bare code that ends early or starts wrong, or no code
/// at all.
pub proof fn lemma_decoded_text(text: Seq<char>)
    ensures
        match super::paste::decoded_text(text) {
            Ok(d) => d.version == 1 && d.heroes.len() > 0 && d.cards.len() > 0,
            Err(CodeError::Empty) => crate::text::trim(text).len() == 0,
            Err(CodeError::OnlyComments) => crate::text::trim(text).len() > 0
                && super::paste::body(text).len() == 0,
            Err(CodeError::NoCode) => super::paste::body(text).len() > 0
                && super::paste::codes(text).len() == 0 && super::paste::broken(text) is None,
            Err(e) => super::paste::broken(text) == Some(e),
        },
{
    lemma_extracted_is_plausible(text);
    reveal(super::paste::plausible);
    if let Some(e) = super::paste::broken(text) {
        let bytes = super::base64::decoded(crate::text::trim(text))->Some_0;
        lemma_parse_errors(bytes);
    }
}

proof fn lemma_read_errors(s: Seq<u8>)
    ensures
        super::varint::read(s) matches Err(e) ==> e == CodeError::Truncated || e
            == CodeError::BadHeader,
{
}

proof fn lemma_read_many_errors(s: Seq<u8>, n: nat)
    ensures
        super::varint::read_many(s, n) matches Err(e) ==> e == CodeError::Truncated || e
            == CodeError::BadHeader,
    decreases n,
{
    if n > 0 {
        lemma_read_errors(s);
        if let Ok((_, t)) = super::varint::read(s) {
            lemma_read_many_errors(t, (n - 1) as nat);
        }
    }
}

proof fn lemma_run_errors(s: Seq<u8>, k: nat)
    ensures
        super::varint::read_list(s) matches Err(e) ==> e == CodeError::Truncated || e
            == CodeError::BadHeader,
        super::varint::read_records(s, k) matches Err(e) ==> e == CodeError::Truncated || e
            == CodeError::BadHeader,
{
    lemma_read_errors(s);
    if let Ok((n, t)) = super::varint::read(s) {
        lemma_read_many_errors(t, n as nat);
        lemma_read_many_errors(t, n as nat * k);
    }
}

proof fn lemma_card_errors(s: Seq<u8>)
    ensures
        super::code::card_sections(s) matches Err(e) ==> e == CodeError::Truncated || e
            == CodeError::BadHeader,
{
    lemma_run_errors(s, 2);
    if let Ok((_, t)) = super::varint::read_list(s) {
        lemma_run_errors(t, 2);
        if let Ok((_, u)) = super::varint::read_list(t) {
            lemma_run_errors(u, 2);
        }
    }
}

proof fn lemma_sideboard_errors(s: Seq<u8>)
    ensures
        super::code::sideboard_section(s) matches Err(e) ==> e == CodeError::Truncated || e
            == CodeError::BadHeader,
{
    lemma_read_errors(s);
    if let Ok((_, t)) = super::varint::read(s) {
        lemma_run_errors(t, 2);
        if let Ok((_, u)) = super::varint::read_records(t, 2) {
            lemma_run_errors(u, 2);
            if let Ok((_, w)) = super::varint::read_records(u, 2) {
                lemma_run_errors(w, 3);
            }
        }
    }
}

/// Bytes that are no deck end early or start wrong.
pub proof fn lemma_parse_errors(s: Seq<u8>)
    ensures
        super::code::parsed(s) matches Err(e) ==> e == CodeError::Truncated || e
            == CodeError::BadHeader,
{
    lemma_read_errors(s);
    if let Ok((_, t)) = super::varint::read(s) {
        lemma_read_many_errors(t, 2);
        if let Ok((_, u)) = super::varint::read_many(t, 2) {
            lemma_run_errors(u, 2);
        }
    }
    if let Ok((_, _, _, t)) = super::code::header(s) {
        lemma_card_errors(t);
        if let Ok((_, u)) = super::code::card_sections(t) {
            lemma_sideboard_errors(u);
        }
    }
}

/// A text with one line that says something, which is a code, is that code
/// if all of it is one.
proof fn lemma_whole_is_line(text: Seq<char>, code: Seq<char>)
    requires
        super::paste::body(text) == seq![code],
        crate::text::trim(text).len() > 0,
        super::paste::plausible(crate::text::trim(text)),
    ensures
        crate::text::trim(text) == code,
{
    let p = |l: Seq<char>| super::paste::says_something(l);
    let r = |l: Seq<char>| l.len() > 0;
    let whole = crate::text::trim(text);
    lemma_plausible_alphabet(whole);
    crate::text::lemma_single_content(text);
    let lines = crate::text::trimmed_lines(text);
    lemma_filter_filter(lines, r, p);
    crate::text::lemma_filter_one(whole, p);
    assert(seq![code][0] == seq![whole][0]);
}

proof fn lemma_block_body(before: Seq<char>, code: Seq<char>, after: Seq<char>)
    requires
        super::paste::plausible(code),
        super::paste::body(before).len() == 0,
        super::paste::body(after).len() == 0,
    ensures
        super::paste::body(before + seq!['\n'] + (code + seq!['\n'] + after)) == seq![code],
{
    let p = |l: Seq<char>| super::paste::says_something(l);
    let rest = code + seq!['\n'] + after;
    lemma_plausible_alphabet(code);
    crate::text::lemma_lines_concat(before, rest);
    crate::text::lemma_lines_concat(code, after);
    crate::text::lemma_single_line(code);
    crate::text::lemma_trim_keeps(code);
    let la = crate::text::trimmed_lines(before);
    let lb = crate::text::trimmed_lines(after);
    Seq::filter_distributes_over_add(la, seq![code] + lb, p);
    Seq::filter_distributes_over_add(seq![code], lb, p);
    crate::text::lemma_filter_one(code, p);
    assert(la.filter(p) + (seq![code] + lb.filter(p)) =~= seq![code]);
}

/// A code inside a block of comments and blank lines is found.
pub proof fn lemma_block(before: Seq<char>, code: Seq<char>, after: Seq<char>)
    requires
        super::paste::plausible(code),
        super::paste::body(before).len() == 0,
        super::paste::body(after).len() == 0,
    ensures
        super::paste::extracted(before + seq!['\n'] + (code + seq!['\n'] + after)) == Ok::<
            Seq<char>,
            CodeError,
        >(code),
{
    let text = before + seq!['\n'] + (code + seq!['\n'] + after);
    lemma_block_body(before, code, after);
    crate::text::lemma_filter_one(code, |l: Seq<char>| super::paste::plausible(l));
    lemma_plausible_alphabet(code);
    let k = before.len() + 1;
    assert(text[k as int] == code[0]);
    crate::text::lemma_trim_not_blank(text, k as int);
    if super::paste::plausible(crate::text::trim(text)) {
        lemma_whole_is_line(text, code);
    }
}

/// Keeping what is kept anyway changes nothing.
pub proof fn lemma_filter_filter(
    s: Seq<Seq<char>>,
    weak: spec_fn(Seq<char>) -> bool,
    strong: spec_fn(Seq<char>) -> bool,
)
    requires
        forall|x: Seq<char>| #[trigger] strong(x) ==> weak(x),
    ensures
        s.filter(weak).filter(strong) == s.filter(strong),
    decreases s.len(),
{
    reveal(Seq::filter);
    if s.len() > 0 {
        lemma_filter_filter(s.drop_last(), weak, strong);
        let f = s.drop_last().filter(weak);
        assert(f.push(s.last()).drop_last() =~= f);
    }
}

proof fn lemma_code_is_plausible(hero_dbf: u32, cards: Seq<(u32, u32)>, format_byte: u32)
    requires
        super::code::tellable(cards),
        exists|i: int| 0 <= i < cards.len() && (#[trigger] cards[i]).1 > 0,
    ensures
        ({
            let bytes = super::code::code_bytes(hero_dbf, cards, format_byte);
            let code = super::base64::encoded(bytes);
            &&& super::paste::plausible(code)
            &&& super::base64::decoded(code) == Some(bytes)
        }),
{
    let bytes = super::code::code_bytes(hero_dbf, cards, format_byte);
    let code = super::base64::encoded(bytes);
    super::code::lemma_code_bytes_round_trip(hero_dbf, cards, format_byte);
    super::code::lemma_code_bytes_not_empty(hero_dbf, cards, format_byte);
    super::code::lemma_coded_deck_has_cards(hero_dbf, cards, format_byte);
    super::base64::lemma_base64_round_trip(bytes);
    reveal(super::paste::plausible);
}

proof fn lemma_decoded_through(text: Seq<char>, code: Seq<char>, bytes: Seq<u8>)
    requires
        super::paste::extracted(text) == Ok::<Seq<char>, CodeError>(code),
        super::base64::decoded(code) == Some(bytes),
    ensures
        super::paste::decoded_text(text) == super::code::parsed(bytes),
{
}

/// A deck's code reads back as that deck, pasted bare or inside a block of
/// comments: one hero, the format, and every card that comes in a copy or more
/// in its number of copies.
pub proof fn lemma_deck_round_trip(
    hero_dbf: u32,
    cards: Seq<(u32, u32)>,
    format_byte: u32,
    before: Seq<char>,
    after: Seq<char>,
)
    requires
        super::code::tellable(cards),
        exists|i: int| 0 <= i < cards.len() && (#[trigger] cards[i]).1 > 0,
        super::paste::body(before).len() == 0,
        super::paste::body(after).len() == 0,
    ensures
        ({
            let code = super::base64::encoded(
                super::code::code_bytes(hero_dbf, cards, format_byte),
            );
            let deck = super::code::coded_deck(hero_dbf, cards, format_byte);
            &&& super::paste::decoded_text(code) == Ok::<super::code::DecodedView, CodeError>(deck)
            &&& super::paste::decoded_text(before + seq!['\n'] + (code + seq!['\n'] + after)) == Ok::<
                super::code::DecodedView,
                CodeError,
            >(deck)
            &&& deck.heroes == seq![hero_dbf]
            &&& deck.format == format_byte
            &&& deck.cards.to_multiset() == cards.filter(|c: (u32, u32)| c.1 > 0).to_multiset()
        }),
{
    let bytes = super::code::code_bytes(hero_dbf, cards, format_byte);
    let code = super::base64::encoded(bytes);
    super::code::lemma_code_bytes_round_trip(hero_dbf, cards, format_byte);
    super::code::lemma_coded_cards(hero_dbf, cards, format_byte);
    lemma_code_is_plausible(hero_dbf, cards, format_byte);
    lemma_bare_code(code);
    lemma_decoded_through(code, code, bytes);
    lemma_block(before, code, after);
    lemma_decoded_through(before + seq!['\n'] + (code + seq!['\n'] + after), code, bytes);
}

proof fn lemma_filter_all(s: Seq<(u32, u32)>, keep: spec_fn((u32, u32)) -> bool)
    requires
        forall|i: int| 0 <= i < s.len() ==> keep(#[trigger] s[i]),
    ensures
        s.filter(keep) == s,
    decreases s.len(),
{
    reveal(Seq::filter);
    if s.len() > 0 {
        let t = s.drop_last();
        assert forall|i: int| 0 <= i < t.len() implies keep(#[trigger] t[i]) by {
            assert(t[i] == s[i]);
        }
        lemma_filter_all(t, keep);
        assert(keep(s[s.len() - 1]));
        assert(t.push(s.last()) =~= s);
    }
}

proof fn lemma_tallied_len(ds: Seq<u32>)
    ensures
        super::resolve::tallied(ds).len() <= ds.len(),
        ds.len() > 0 ==> super::resolve::tallied(ds).len() > 0,
    decreases ds.len(),
{
    if ds.len() > 0 {
        lemma_tallied_len(ds.drop_last());
        lemma_bumped_len(super::resolve::tallied(ds.drop_last()), ds.last());
    }
}

proof fn lemma_bumped_len(list: Seq<(u32, u32)>, dbf: u32)
    ensures
        list.len() <= super::resolve::bumped(list, dbf).len() <= list.len() + 1,
        super::resolve::bumped(list, dbf).len() > 0,
    decreases list.len(),
{
    if list.len() > 0 && list[0].0 != dbf {
        lemma_bumped_len(list.drop_first(), dbf);
    }
}

/// The code of a list of cards, one entry for each copy, reads back as those
/// cards, each in its number of copies.
pub proof fn lemma_copies_round_trip(hero_dbf: u32, ds: Seq<u32>, format_byte: u32)
    requires
        ds.len() > 0,
        ds.len() <= u32::MAX || super::resolve::countable(ds) && super::code::tellable(
            super::resolve::tallied(ds),
        ),
    ensures
        ({
            let list = super::resolve::tallied(ds);
            let code = super::base64::encoded(
                super::code::code_bytes(hero_dbf, list, format_byte),
            );
            let deck = super::code::coded_deck(hero_dbf, list, format_byte);
            &&& super::paste::decoded_text(code) == Ok::<super::code::DecodedView, CodeError>(deck)
            &&& deck.cards.to_multiset() == list.to_multiset()
            &&& forall|d: u32|
                #[trigger] super::resolve::tally_of(list, d) == ds.to_multiset().count(d)
        }),
{
    let list = super::resolve::tallied(ds);
    let keep = |c: (u32, u32)| c.1 > 0;
    super::resolve::lemma_tallied(ds);
    lemma_tallied_len(ds);
    assert(list[0].1 > 0);
    lemma_filter_all(list, keep);
    super::code::lemma_coded_cards(hero_dbf, list, format_byte);
    let none = Seq::<char>::empty();
    crate::text::lemma_single_line(none);
    crate::text::lemma_filter_one(none, |l: Seq<char>| super::paste::says_something(l));
    assert(super::paste::body(none).len() == 0);
    lemma_deck_round_trip(hero_dbf, list, format_byte, none, none);
}

/// A code depends on which cards are in which number of copies, and not on
/// their order.
pub proof fn lemma_code_ignores_order(
    hero_dbf: u32,
    a: Seq<(u32, u32)>,
    b: Seq<(u32, u32)>,
    format_byte: u32,
)
    requires
        a.to_multiset() == b.to_multiset(),
    ensures
        super::code::code_bytes(hero_dbf, a, format_byte) == super::code::code_bytes(
            hero_dbf,
            b,
            format_byte,
        ),
{
    lemma_section_ignores_order(a, b, 1);
    lemma_section_ignores_order(a, b, 2);
    lemma_section_ignores_order(a, b, 3);
    reveal(super::code::code_bytes);
}

proof fn lemma_section_ignores_order(a: Seq<(u32, u32)>, b: Seq<(u32, u32)>, k: int)
    requires
        a.to_multiset() == b.to_multiset(),
    ensures
        super::code::section(a, k) == super::code::section(b, k),
{
    let keep = |c: (u32, u32)| super::code::in_section(k, c.1);
    <(u32, u32) as crate::order::Ordered>::key_order_is_total();
    crate::order::lemma_filter_multiset(a, b, keep);
    assert(crate::order::keys(a.filter(keep)) =~= a.filter(keep));
    assert(crate::order::keys(b.filter(keep)) =~= b.filter(keep));
    crate::order::lemma_sort_multiset(
        a.filter(keep),
        b.filter(keep),
        crate::order::key_order::<(u32, u32)>(),
    );
}

/// Whether a list holds each of some cards once, in the number of its copies,
/// in whatever order.
pub open spec fn is_tally(list: Seq<(u32, u32)>, ds: Seq<u32>) -> bool {
    &&& forall|i: int, j: int| 0 <= i < j < list.len() ==> (#[trigger] list[i]).0 != (#[trigger] list[j]).0
    &&& forall|i: int|
        0 <= i < list.len() ==> (#[trigger] list[i]).1 > 0 && list[i].1 == ds.to_multiset().count(
            list[i].0,
        )
    &&& forall|d: u32| #[trigger] ds.to_multiset().count(d) > 0 ==> lists(list, d)
}

/// Whether a list has an entry for a card.
pub open spec fn lists(list: Seq<(u32, u32)>, d: u32) -> bool {
    exists|i: int| 0 <= i < list.len() && (#[trigger] list[i]).0 == d
}

proof fn lemma_bumped_apart(list: Seq<(u32, u32)>, dbf: u32)
    requires
        forall|i: int, j: int| 0 <= i < j < list.len() ==> (#[trigger] list[i]).0 != (#[trigger] list[j]).0,
    ensures
        ({
            let b = super::resolve::bumped(list, dbf);
            &&& forall|i: int, j: int| 0 <= i < j < b.len() ==> (#[trigger] b[i]).0 != (#[trigger] b[j]).0
            &&& forall|i: int| 0 <= i < b.len() ==> (#[trigger] b[i]).0 == dbf || lists(list, b[i].0)
        }),
    decreases list.len(),
{
    let b = super::resolve::bumped(list, dbf);
    if list.len() > 0 {
        let t = list.drop_first();
        if list[0].0 == dbf {
            assert forall|i: int| 0 <= i < b.len() implies (#[trigger] b[i]).0 == list[i].0 by {}
        } else {
            lemma_bumped_apart(t, dbf);
            let u = super::resolve::bumped(t, dbf);
            assert forall|i: int| 0 <= i < u.len() implies (#[trigger] u[i]).0 == dbf || lists(
                list,
                u[i].0,
            ) by {
                if u[i].0 != dbf {
                    let k = choose|k: int| 0 <= k < t.len() && (#[trigger] t[k]).0 == u[i].0;
                    assert(list[k + 1].0 == u[i].0);
                }
            }
            assert(list[0].0 == b[0].0);
            assert forall|i: int| 0 <= i < b.len() implies (#[trigger] b[i]).0 == dbf || lists(
                list,
                b[i].0,
            ) by {
                if i > 0 {
                    assert(b[i] == u[i - 1]);
                }
            }
            assert forall|i: int, j: int| 0 <= i < j < b.len() implies (#[trigger] b[i]).0 != (#[trigger] b[j]).0 by {
                assert(b[j] == u[j - 1]);
                if i > 0 {
                    assert(b[i] == u[i - 1]);
                } else if u[j - 1].0 != dbf {
                    let k = choose|k: int| 0 <= k < t.len() && (#[trigger] t[k]).0 == u[j - 1].0;
                    assert(list[k + 1].0 == u[j - 1].0);
                }
            }
        }
    }
}

proof fn lemma_tallied_apart(ds: Seq<u32>)
    ensures
        forall|i: int, j: int|
            0 <= i < j < super::resolve::tallied(ds).len() ==> (#[trigger] super::resolve::tallied(
                ds,
            )[i]).0 != (#[trigger] super::resolve::tallied(ds)[j]).0,
    decreases ds.len(),
{
    if ds.len() > 0 {
        lemma_tallied_apart(ds.drop_last());
        lemma_bumped_apart(super::resolve::tallied(ds.drop_last()), ds.last());
    }
}

proof fn lemma_tally_entry(list: Seq<(u32, u32)>, d: u32)
    requires
        forall|i: int, j: int| 0 <= i < j < list.len() ==> (#[trigger] list[i]).0 != (#[trigger] list[j]).0,
    ensures
        super::resolve::tally_of(list, d) > 0 ==> lists(list, d),
        forall|i: int|
            0 <= i < list.len() && (#[trigger] list[i]).0 == d ==> super::resolve::tally_of(list, d)
                == list[i].1,
    decreases list.len(),
{
    if list.len() > 0 {
        let t = list.drop_first();
        lemma_tally_entry(t, d);
        if lists(t, d) {
            let k = choose|k: int| 0 <= k < t.len() && (#[trigger] t[k]).0 == d;
            assert(list[k + 1].0 == d);
        } else {
            assert(list[0] == list[0]);
        }
        assert forall|i: int| 0 <= i < list.len() && (#[trigger] list[i]).0 == d implies super::resolve::tally_of(
            list,
            d,
        ) == list[i].1 by {
            if i > 0 {
                assert(t[i - 1] == list[i]);
            } else if lists(t, d) {
                let k = choose|k: int| 0 <= k < t.len() && (#[trigger] t[k]).0 == d;
                assert(list[k + 1].0 == list[0].0);
            }
        }
    }
}

/// Collapsing a list of copies gives a tally of it.
pub proof fn lemma_tallied_is_tally(ds: Seq<u32>)
    requires
        super::resolve::countable(ds),
    ensures
        is_tally(super::resolve::tallied(ds), ds),
{
    let list = super::resolve::tallied(ds);
    super::resolve::lemma_tallied(ds);
    lemma_tallied_apart(ds);
    assert forall|i: int| 0 <= i < list.len() implies (#[trigger] list[i]).1 > 0
        && list[i].1 == ds.to_multiset().count(list[i].0) by {
        lemma_tally_entry(list, list[i].0);
        assert(super::resolve::tally_of(list, list[i].0) == ds.to_multiset().count(list[i].0));
    }
    assert forall|d: u32| #[trigger] ds.to_multiset().count(d) > 0 implies lists(list, d) by {
        lemma_tally_entry(list, d);
        assert(super::resolve::tally_of(list, d) == ds.to_multiset().count(d));
    }
}

proof fn lemma_tally_holds(list: Seq<(u32, u32)>, ds: Seq<u32>, x: (u32, u32))
    requires
        is_tally(list, ds),
    ensures
        list.to_multiset().count(x) == if x.1 > 0 && x.1 == ds.to_multiset().count(x.0) {
            1nat
        } else {
            0
        },
{
    assert(list.no_duplicates()) by {
        assert forall|i: int, j: int| 0 <= i < list.len() && 0 <= j < list.len() && i != j implies list[i]
            != list[j] by {
            if i < j {
                assert(list[i].0 != list[j].0);
            } else {
                assert(list[j].0 != list[i].0);
            }
        }
    }
    list.lemma_multiset_has_no_duplicates();
    vstd::seq_lib::to_multiset_contains(list, x);
    if list.contains(x) {
        let i = choose|i: int| 0 <= i < list.len() && list[i] == x;
        assert(list[i].1 == ds.to_multiset().count(list[i].0));
        assert(list.to_multiset().contains(x));
    } else if x.1 > 0 && x.1 == ds.to_multiset().count(x.0) {
        assert(lists(list, x.0));
        let i = choose|i: int| 0 <= i < list.len() && (#[trigger] list[i]).0 == x.0;
        assert(list[i] == x);
    }
}

/// The code of a list of copies is the code of any tally of it.
pub proof fn lemma_code_of_copies(
    hero_dbf: u32,
    ds: Seq<u32>,
    list: Seq<(u32, u32)>,
    format_byte: u32,
)
    requires
        super::resolve::countable(ds),
        is_tally(list, ds),
    ensures
        super::code::code_bytes(hero_dbf, super::resolve::tallied(ds), format_byte)
            == super::code::code_bytes(hero_dbf, list, format_byte),
{
    let own = super::resolve::tallied(ds);
    lemma_tallied_is_tally(ds);
    assert forall|x: (u32, u32)|
        #[trigger] own.to_multiset().count(x) == list.to_multiset().count(x) by {
        lemma_tally_holds(own, ds, x);
        lemma_tally_holds(list, ds, x);
    }
    assert(own.to_multiset() =~= list.to_multiset());
    lemma_code_ignores_order(hero_dbf, own, list, format_byte);
}

/// Reordering the cards of a deck does not change its code.
pub proof fn lemma_reordered_cards_share_a_code(
    c: Corpus,
    hero_dbf: u32,
    ids: Seq<CardId>,
    other: Seq<CardId>,
    format_byte: u32,
)
    requires
        super::resolve::countable(super::resolve::dbfs(c, ids)),
        ids.to_multiset() == other.to_multiset(),
    ensures
        super::code::code_bytes(
            hero_dbf,
            super::resolve::tallied(super::resolve::dbfs(c, ids)),
            format_byte,
        ) == super::code::code_bytes(
            hero_dbf,
            super::resolve::tallied(super::resolve::dbfs(c, other)),
            format_byte,
        ),
{
    let (a, b) = (super::resolve::dbfs(c, ids), super::resolve::dbfs(c, other));
    vstd::seq_lib::to_multiset_len(ids);
    vstd::seq_lib::to_multiset_len(other);
    crate::order::lemma_map_multiset(ids, other, |id: CardId| c.info_of(id).dbf);
    lemma_tallied_is_tally(b);
    assert(is_tally(super::resolve::tallied(b), a));
    lemma_code_of_copies(hero_dbf, a, super::resolve::tallied(b), format_byte);
}

// -------------------------------------------------------------- resolution

/// Whether a slot holds a card that can go in a deck, that the engine
/// understands, and that is legal in the format.
pub open spec fn sound(c: Corpus, format: Option<Formats>, dbf: u32) -> bool {
    &&& super::resolve::usable(c, dbf)
    &&& !super::resolve::is_unimplemented(c, dbf)
    &&& !super::resolve::is_illegal(c, format, dbf)
}

proof fn lemma_report_is_empty(
    list: Seq<&'static str>,
    c: Corpus,
    slots: Seq<(u32, u32)>,
    format: Option<Formats>,
    fault: Fault,
)
    requires
        super::resolve::reports(list, c, slots, format, fault),
    ensures
        list.len() == 0 <==> forall|i: int|
            0 <= i < slots.len() ==> !super::resolve::faulty(c, format, fault, (#[trigger] slots[i]).0),
{
    if list.len() > 0 {
        let name = list[0]@;
        assert(crate::cards::approximate::holds_str(list, name));
        assert(super::resolve::faulted(c, slots, format, fault, name));
    } else {
        assert forall|i: int| 0 <= i < slots.len() implies !super::resolve::faulty(
            c,
            format,
            fault,
            (#[trigger] slots[i]).0,
        ) by {
            if super::resolve::faulty(c, format, fault, slots[i].0) {
                let name = c.name_of(super::resolve::card_of(c, slots[i].0)->Some_0);
                assert(super::resolve::faulted(c, slots, format, fault, name));
                assert(crate::cards::approximate::holds_str(list, name));
            }
        }
    }
}

proof fn lemma_nothing_missing(c: Corpus, slots: Seq<(u32, u32)>)
    ensures
        super::resolve::missing(c, slots).len() == 0 <==> forall|i: int|
            0 <= i < slots.len() ==> super::resolve::card_of(c, (#[trigger] slots[i]).0) is Some,
{
    let gone = |s: (u32, u32)| super::resolve::card_of(c, s.0) is None;
    let f = slots.filter(gone);
    assert(super::resolve::missing(c, slots).len() == f.len());
    if f.len() > 0 {
        slots.lemma_filter_pred(gone, 0);
        assert(f.contains(f[0]));
        slots.lemma_filter_contains_rev(gone, f[0]);
        let i = choose|i: int| 0 <= i < slots.len() && slots[i] == f[0];
        assert(super::resolve::card_of(c, slots[i].0) is None);
    } else {
        assert forall|i: int| 0 <= i < slots.len() implies super::resolve::card_of(
            c,
            (#[trigger] slots[i]).0,
        ) is Some by {
            if super::resolve::card_of(c, slots[i].0) is None {
                slots.lemma_filter_contains(gone, i);
                assert(f.contains(slots[i]));
            }
        }
    }
}

/// A deck is playable exactly when every one of its slots is sound.
pub proof fn lemma_playable_means_sound(c: Corpus, d: super::code::DecodedView, r: Resolved)
    requires
        super::resolve::resolves(c, d, Ok(r)),
    ensures
        r.is_playable() <==> forall|i: int|
            0 <= i < super::resolve::slots(c, d).len() ==> sound(
                c,
                super::resolve::format_named(d.format),
                (#[trigger] super::resolve::slots(c, d)[i]).0,
            ),
{
    let s = super::resolve::slots(c, d);
    let format = super::resolve::format_named(d.format);
    lemma_nothing_missing(c, s);
    lemma_report_is_empty(r.not_deckable@, c, s, format, Fault::NotDeckable);
    lemma_report_is_empty(r.unimplemented@, c, s, format, Fault::Unimplemented);
    lemma_report_is_empty(r.illegal@, c, s, format, Fault::Illegal);
    if r.is_playable() {
        assert forall|i: int| 0 <= i < s.len() implies sound(c, format, (#[trigger] s[i]).0) by {
            assert(!super::resolve::faulty(c, format, Fault::NotDeckable, s[i].0));
            assert(!super::resolve::faulty(c, format, Fault::Unimplemented, s[i].0));
            assert(!super::resolve::faulty(c, format, Fault::Illegal, s[i].0));
        }
    } else if forall|i: int| 0 <= i < s.len() ==> sound(c, format, (#[trigger] s[i]).0) {
        assert forall|i: int| 0 <= i < s.len() implies super::resolve::card_of(c, (#[trigger] s[i]).0) is Some
            && !super::resolve::faulty(c, format, Fault::NotDeckable, s[i].0)
            && !super::resolve::faulty(c, format, Fault::Unimplemented, s[i].0)
            && !super::resolve::faulty(c, format, Fault::Illegal, s[i].0) by {
            assert(sound(c, format, s[i].0));
        }
    }
}

/// A playable list comes back as one card id for each copy.
pub proof fn lemma_expanded_len(c: Corpus, cards: Seq<(&'static str, u32)>)
    ensures
        super::resolve::expanded(c, cards).len() == super::resolve::copies(cards),
    decreases cards.len(),
{
    if cards.len() > 0 {
        lemma_expanded_len(c, cards.drop_last());
    }
}

} // verus!
