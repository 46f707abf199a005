//! Deck codes: the format the game and every deck site exchange decks in.
//!
//! A deck code is base64 of `[0, version, format, heroes, 1x, 2x, nx,
//! (sideboard)]`, every number a varint, every card a Blizzard `dbfId`. That
//! makes it an import/export concern rather than a rule, which is why the ids
//! it speaks live in `CardInfo` rather than in the hot table.
//!
//! [`decode`] takes what is actually on a player's clipboard rather than a
//! bare code.

use vstd::prelude::*;

pub use base64::{b64_decode, b64_encode};
pub use code::{parse, Decoded};
pub use paste::{deck_name, decode, extract};
pub use resolve::{encode_ids, format_of, resolve, resolve_decoded, ResolveError, Resolved};

pub mod base64;
pub mod code;
pub mod laws;
pub mod paste;
pub mod resolve;
pub mod varint;

verus! {

/// Why a paste could not be read as a deck code.
///
/// Each variant names the real problem, so a UI can repeat it to the player
/// instead of relaying a base64 complaint about Cyrillic comments.
#[derive(Clone, Copy, PartialEq, Eq, Debug, Structural)]
pub enum CodeError {
    /// Nothing was pasted.
    Empty,
    /// There were only comment lines.
    OnlyComments,
    /// Something was pasted, but no line in it parses as a deck code.
    NoCode,
    /// A bare code that starts right but ends early.
    Truncated,
    /// A bare code whose header is not a deck code's.
    BadHeader,
}

impl CodeError {
    /// The stable key of a problem.
    pub open spec fn key(self) -> Seq<char> {
        match self {
            CodeError::Empty => "empty"@,
            CodeError::OnlyComments => "only_comments"@,
            CodeError::NoCode => "no_code"@,
            CodeError::Truncated => "truncated"@,
            CodeError::BadHeader => "bad_header"@,
        }
    }

    /// A stable key for the problem, for a caller that has to say this in a
    /// language of its own.
    pub fn code(self) -> (r: &'static str)
        ensures
            r@ == self.key(),
    {
        match self {
            CodeError::Empty => "empty",
            CodeError::OnlyComments => "only_comments",
            CodeError::NoCode => "no_code",
            CodeError::Truncated => "truncated",
            CodeError::BadHeader => "bad_header",
        }
    }

    /// The same in English, as a log or a command line prints it.
    pub open spec fn sentence(self) -> Seq<char> {
        match self {
            CodeError::Empty => "nothing was pasted"@,
            CodeError::OnlyComments => "this is all comments — the deck code itself is missing"@,
            CodeError::NoCode => "no deck code anywhere in the pasted text"@,
            CodeError::Truncated => "the deck code ends early"@,
            CodeError::BadHeader => "this is not a deck code"@,
        }
    }

    /// The problem in English.
    pub fn message(self) -> (r: &'static str)
        ensures
            r@ == self.sentence(),
    {
        match self {
            CodeError::Empty => "nothing was pasted",
            CodeError::OnlyComments => "this is all comments — the deck code itself is missing",
            CodeError::NoCode => "no deck code anywhere in the pasted text",
            CodeError::Truncated => "the deck code ends early",
            CodeError::BadHeader => "this is not a deck code",
        }
    }
}

/// No two problems share a key.
pub proof fn lemma_code_keys_distinct(a: CodeError, b: CodeError)
    requires
        a.key() == b.key(),
    ensures
        a == b,
{
    reveal_strlit("empty");
    reveal_strlit("only_comments");
    reveal_strlit("no_code");
    reveal_strlit("truncated");
    reveal_strlit("bad_header");
    assert("empty"@.len() == 5);
    assert("only_comments"@.len() == 13);
    assert("no_code"@.len() == 7);
    assert("truncated"@.len() == 9);
    assert("bad_header"@.len() == 10);
}

/// Encode a deck back into a code, so a gauntlet deck can be taken into the
/// game. `cards` is `(dbfId, copies)`.
pub fn encode(hero_dbf: u32, cards: &[(u32, u32)], format_byte: u32) -> (r: String)
    ensures
        r@ == base64::encoded(code::code_bytes(hero_dbf, cards@, format_byte)),
{
    b64_encode(code::write(hero_dbf, cards, format_byte).as_slice())
}

} // verus!
