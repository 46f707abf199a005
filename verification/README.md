# tavernlab

The core of a card-game simulator, written in Rust and verified with Verus.

* `src/cards` — the card table and its lookups, the rows that name the hooks
  and targets of cards, the lists of cards the engine knows by identity, what
  cards may be pointed at, and the pieces that some effects share.
* `src/deck.rs` — deck lists: validation, pools, and generated decks.
* `src/deckstring.rs` — deck codes: base64, varints, the code itself, codes in
  pasted text, and a code read against the card table.
* `src/state.rs` — what the rules and the policy read of a game.
* `src/agent.rs` — the scripted policy: scores, choice, mulligan, and the value
  of a position.
* `src/batch.rs` — batches of games and policy duels.
* `src/arena.rs` — Arena drafts completed and compared.
* `src/order.rs`, `src/text.rs` — sorting, searching, and the text operations
  the rest stands on.

The files named `laws.rs` hold what is proved of several functions together.

A `Corpus` is made of tables that are checked once; everything that asks about
a card takes the corpus it asks. What only an engine can do — play a game, roll
a number, transform a minion — is handed in as a function, and the contracts
say what holds whatever it returns.

`app/` is ordinary Rust around the library: floating point, threads, and the
words of errors. `tests/` runs the library.
