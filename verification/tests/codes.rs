//! Deck codes, without a card table.

use tavernlab::deckstring::varint::{put_varint, Reader};
use tavernlab::deckstring::{
    b64_decode, b64_encode, deck_name, decode, encode, extract, parse, CodeError, ResolveError,
};

fn a_deck() -> (u32, Vec<(u32, u32)>) {
    (1066, vec![(315, 2), (662, 2), (555, 2)])
}

#[test]
fn a_pasted_block_yields_the_code_inside_it() {
    let (hero, cards) = a_deck();
    let code = encode(hero, &cards, 2);
    let block = format!(
        "### Zee Shaman\n# Клас: Шаман\n# 2x (0) Учениця відьми\n{code}\n\
         # Колода доступна тут: https://hsreplay.net/decks/abc/\n"
    );
    assert_eq!(extract(&block), Ok(code.as_str()));
    assert_eq!(deck_name(&block), Some("Zee Shaman"));
    // The URL line is base64-looking prose and must not win.
    assert_eq!(decode(&block).unwrap().heroes, vec![hero]);
}

#[test]
fn every_failure_has_a_stable_key_for_a_translator() {
    // The UI is bilingual and composes its own sentence; the key is what it
    // keys on, so it must exist for every variant and stay distinct.
    let all = [
        CodeError::Empty,
        CodeError::OnlyComments,
        CodeError::NoCode,
        CodeError::Truncated,
        CodeError::BadHeader,
    ];
    let keys: Vec<&str> = all.iter().map(|e| e.code()).collect();
    let mut sorted = keys.clone();
    sorted.sort_unstable();
    sorted.dedup();
    assert_eq!(sorted.len(), keys.len(), "two failures share a key");
    assert_eq!(ResolveError::Code(CodeError::NoCode).code(), "no_code");
    assert_eq!(ResolveError::NoClass.code(), "no_class");
    assert_eq!(CodeError::Empty.message(), "nothing was pasted");
    assert_eq!(
        CodeError::OnlyComments.message(),
        "this is all comments — the deck code itself is missing"
    );
    assert_eq!(CodeError::NoCode.message(), "no deck code anywhere in the pasted text");
    assert_eq!(CodeError::Truncated.message(), "the deck code ends early");
    assert_eq!(CodeError::BadHeader.message(), "this is not a deck code");
    assert_eq!(
        ResolveError::Code(CodeError::Truncated).message(),
        "invalid deck code: the deck code ends early"
    );
    assert_eq!(ResolveError::NoClass.message(), "cannot tell which class this deck is");
}

#[test]
fn a_paste_without_a_code_names_the_real_problem() {
    assert_eq!(extract(""), Err(CodeError::Empty));
    assert_eq!(extract("   \n  "), Err(CodeError::Empty));
    assert_eq!(extract("### Just a title\n# and a comment"), Err(CodeError::OnlyComments));
    assert_eq!(extract("this is not a deck code"), Err(CodeError::NoCode));
}

#[test]
fn a_truncated_code_does_not_panic_or_allocate_wildly() {
    // The length prefix of a corrupt code says "read four billion varints".
    let bad = b64_encode(&[0x00, 0x01, 0x02, 0xFF, 0xFF, 0xFF, 0xFF, 0x0F]);
    assert!(parse(&b64_decode(&bad).unwrap()).is_err());
    assert_eq!(parse(&b64_decode(&bad).unwrap()), Err(CodeError::Truncated));
}

#[test]
fn base64_is_strict() {
    assert!(b64_decode("not base64!").is_none());
    assert!(b64_decode("AAA").is_none()); // unpadded
    assert!(b64_decode("A=AA").is_none()); // padding in the middle
    assert_eq!(b64_decode("AAAA"), Some(vec![0, 0, 0]));
    assert_eq!(b64_decode("AAA="), Some(vec![0, 0]));
    assert_eq!(b64_decode("AA=="), Some(vec![0]));
    assert!(b64_decode("").is_none());
    assert!(b64_decode("A===").is_none());
    assert!(b64_decode("AA==AAAA").is_none());
    assert!(b64_decode("ÄÄ").is_none());
    assert!(b64_decode("AA=A").is_none());
    assert!(b64_decode("AAAAAA=A").is_none());
    assert!(b64_decode("=AAA").is_none());
}

#[test]
fn base64_gives_back_what_it_was_given() {
    assert_eq!(b64_encode(b"Man"), "TWFu");
    assert_eq!(b64_encode(b"Ma"), "TWE=");
    assert_eq!(b64_encode(b"M"), "TQ==");
    assert_eq!(b64_encode(&[]), "");
    assert_eq!(b64_encode(&[0xFB, 0xFF, 0xFE]), "+//+");
    for n in 1..40usize {
        let data: Vec<u8> = (0..n).map(|i| (i * 37 + n * 11) as u8).collect();
        assert_eq!(b64_decode(&b64_encode(&data)), Some(data));
    }
}

#[test]
fn varints_give_back_what_they_were_given() {
    for n in [0, 1, 127, 128, 300, 16_383, 16_384, 1_000_000, u32::MAX] {
        let mut out = Vec::new();
        put_varint(&mut out, n);
        let mut r = Reader { data: &out, pos: 0 };
        assert_eq!(r.varint(), Ok(n));
        assert!(r.eof());
        assert_eq!(r.varint(), Err(CodeError::Truncated));
    }
    let mut out = Vec::new();
    put_varint(&mut out, 300);
    assert_eq!(out, vec![0xAC, 0x02]);
    // Wider than a number can be, and running on for too long.
    let wide = [0x80, 0x80, 0x80, 0x80, 0x10];
    assert_eq!(Reader { data: &wide, pos: 0 }.varint(), Err(CodeError::BadHeader));
    let long = [0x80, 0x80, 0x80, 0x80, 0x80, 0x80, 0x00];
    assert_eq!(Reader { data: &long, pos: 0 }.varint(), Err(CodeError::BadHeader));
    let short = [0x80, 0x80];
    assert_eq!(Reader { data: &short, pos: 0 }.varint(), Err(CodeError::Truncated));
    let list = [3, 5, 6];
    assert_eq!(Reader { data: &list, pos: 0 }.list(), Err(CodeError::Truncated));
    let list = [2, 5, 6];
    assert_eq!(Reader { data: &list, pos: 0 }.list(), Ok(vec![5, 6]));
}

#[test]
fn bytes_that_are_no_deck_are_refused() {
    assert_eq!(parse(&[]), Err(CodeError::Truncated));
    assert_eq!(parse(&[1, 1, 2]), Err(CodeError::BadHeader));
    assert_eq!(parse(&[0, 1]), Err(CodeError::Truncated));
    // A whole deck: one hero, one single, one pair, one in three copies, and
    // a sideboard of each kind.
    let d = parse(&[0, 1, 2, 1, 7, 1, 10, 1, 11, 1, 12, 3, 1, 1, 20, 12, 1, 21, 12, 1, 22, 4, 12]).unwrap();
    assert_eq!((d.version, d.format, d.heroes), (1, 2, vec![7]));
    assert_eq!(d.cards, vec![(10, 1), (11, 2), (12, 3)]);
    assert_eq!(d.sideboards, vec![(20, 1, 12), (21, 2, 12), (22, 4, 12)]);
    // The section may be missing altogether, or switched off.
    assert!(parse(&[0, 1, 2, 1, 7, 1, 10, 0, 0]).unwrap().sideboards.is_empty());
    assert!(parse(&[0, 1, 2, 1, 7, 1, 10, 0, 0, 0]).unwrap().sideboards.is_empty());
}

#[test]
fn a_bare_code_that_is_broken_says_how() {
    // The bytes 0, 1, 2: the header is right, and the heroes are missing.
    assert_eq!(extract("AAEC"), Err(CodeError::NoCode));
    assert_eq!(decode("AAEC"), Err(CodeError::Truncated));
    assert_eq!(decode("  AAEC\n"), Err(CodeError::Truncated));
    // The bytes 1, 1, 2: no deck code starts like this.
    assert_eq!(decode("AQEC"), Err(CodeError::BadHeader));
    // A real code without its last two groups.
    let code = encode(7, &[(300, 1), (20, 2), (10, 1)], 1);
    assert_eq!(decode(&code[..code.len() - 8]), Err(CodeError::Truncated));
    // With anything around it, the paste holds no code.
    assert_eq!(decode("AAEC\nAAEC"), Err(CodeError::NoCode));
    // It reads as a deck, but as one without cards.
    assert_eq!(decode(&b64_encode(&[0, 1, 2, 1, 7, 0, 0, 0])), Err(CodeError::NoCode));
    assert_eq!(decode("# AAEC"), Err(CodeError::OnlyComments));
    assert_eq!(decode(" "), Err(CodeError::Empty));
}

#[test]
fn a_code_sorts_its_cards_and_drops_what_comes_in_no_copies() {
    let code = encode(7, &[(30, 1), (12, 5), (20, 2), (10, 1), (99, 0), (11, 3), (5, 2)], 1);
    let d = decode(&code).unwrap();
    assert_eq!(d.format, 1);
    assert_eq!(d.heroes, vec![7]);
    assert_eq!(d.cards, vec![(10, 1), (30, 1), (5, 2), (20, 2), (11, 3), (12, 5)]);
}

#[test]
fn a_title_needs_a_name() {
    assert_eq!(deck_name("###\n  ###  Second  \n### Third"), Some("Second"));
    assert_eq!(deck_name("# not a title\n## nor this"), None);
    assert_eq!(deck_name(""), None);
    assert_eq!(deck_name("####"), Some("#"));
}

#[test]
fn a_code_is_found_bare_or_among_blank_lines() {
    let (hero, cards) = a_deck();
    let code = encode(hero, &cards, 2);
    assert_eq!(extract(&code), Ok(code.as_str()));
    let padded = format!(" \t\r\n{code}\u{3000}\n\n");
    assert_eq!(extract(&padded), Ok(code.as_str()));
    let other = encode(hero, &[(1, 1)], 2);
    let two = format!("prose first\r\n{other}\r\n{code}");
    assert_eq!(extract(&two), Ok(other.as_str()));
}
