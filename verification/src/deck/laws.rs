//! What holds of generated decks.

use vstd::prelude::*;

use super::{DeckError, DECK_SIZE, RESIZER};
use crate::cards::corpus::Corpus;
use crate::cards::types::{CardDef, CardId, Class, Formats};

verus! {

proof fn lemma_count_concat(a: Seq<CardId>, b: Seq<CardId>, x: CardId)
    ensures
        super::count(a + b, x) == super::count(a, x) + super::count(b, x),
{
    vstd::seq_lib::lemma_multiset_commutative(a, b);
}

proof fn lemma_count_push(a: Seq<CardId>, y: CardId, x: CardId)
    ensures
        super::count(a.push(y), x) == super::count(a, x) + if x == y {
            1nat
        } else {
            0
        },
{
    broadcast use vstd::seq_lib::group_to_multiset_ensures;

    vstd::seq_lib::to_multiset_build(a, y);
}

proof fn lemma_count_repeated(card: CardId, n: nat, x: CardId)
    ensures
        super::count(super::repeated(card, n), x) == if x == card {
            n
        } else {
            0
        },
    decreases n,
{
    let r = super::repeated(card, n);
    if n == 0 {
        vstd::seq_lib::to_multiset_contains(r, x);
    } else {
        let shorter = super::repeated(card, (n - 1) as nat);
        lemma_count_repeated(card, (n - 1) as nat, x);
        assert(r =~= shorter.push(card));
        lemma_count_push(shorter, card, x);
    }
}

/// A card is in a list as soon as it is counted there.
proof fn lemma_counted(s: Seq<CardId>, x: CardId)
    ensures
        s.contains(x) <==> super::count(s, x) > 0,
{
    vstd::seq_lib::to_multiset_contains(s, x);
}

/// No card stands twice in a list.
pub open spec fn once(p: Seq<CardId>) -> bool {
    forall|x: CardId| #[trigger] super::count(p, x) <= 1
}

proof fn lemma_once_tail(p: Seq<CardId>)
    requires
        once(p),
        p.len() > 0,
    ensures
        once(p.drop_first()),
        super::count(p.drop_first(), p[0]) == 0,
        forall|x: CardId| #[trigger] super::count(p.drop_first(), x) <= super::count(p, x),
        forall|x: CardId|
            #[trigger] super::count(p, x) > 0 ==> x == p[0] || super::count(p.drop_first(), x) > 0,
{
    let t = p.drop_first();
    assert(p =~= seq![p[0]] + t);
    assert forall|x: CardId| #[trigger] super::count(p, x) == super::count(t, x) + if x == p[0] {
        1nat
    } else {
        0
    } by {
        lemma_count_concat(seq![p[0]], t, x);
        assert(seq![p[0]] =~= super::repeated(p[0], 1));
        lemma_count_repeated(p[0], 1, x);
    }
    assert forall|x: CardId| #[trigger] super::count(t, x) <= 1 by {
        assert(super::count(p, x) <= 1);
    }
    assert forall|x: CardId| #[trigger] super::count(t, x) <= super::count(p, x) by {
        assert(super::count(p, x) >= 0);
    }
    assert(super::count(p, p[0]) <= 1);
}

proof fn lemma_filter_count(s: Seq<CardId>, keep: spec_fn(CardId) -> bool, x: CardId)
    ensures
        super::count(s.filter(keep), x) == if keep(x) {
            super::count(s, x)
        } else {
            0
        },
    decreases s.len(),
{
    reveal(Seq::filter);
    if s.len() == 0 {
        lemma_counted(s, x);
    } else {
        let t = s.drop_last();
        lemma_filter_count(t, keep, x);
        assert(s =~= t.push(s.last()));
        lemma_count_push(t, s.last(), x);
        lemma_count_push(t.filter(keep), s.last(), x);
    }
}

proof fn lemma_ids_once(c: Corpus, x: CardId)
    requires
        c.wf(),
    ensures
        super::count(c.ids(), x) <= 1,
        super::count(c.ids(), x) > 0 ==> c.has(x),
{
    let s = c.ids();
    assert(s.no_duplicates()) by {
        assert forall|i: int, j: int| 0 <= i < s.len() && 0 <= j < s.len() && i != j implies s[i] != s[j] by {
            assert(s[i].0 == i && s[j].0 == j);
        }
    }
    s.lemma_multiset_has_no_duplicates();
    if super::count(s, x) > 0 {
        assert(s.to_multiset().contains(x));
        lemma_counted(s, x);
        let i = choose|i: int| 0 <= i < s.len() && s[i] == x;
        assert(s[i].0 == i);
    }
}

/// Sorting keeps the cards.
proof fn lemma_by_cost(c: Corpus, cards: Seq<CardId>)
    ensures
        super::by_cost(c, cards).to_multiset() == cards.to_multiset(),
{
    let ranks = cards.map_values(|card: CardId| super::rank(c, card));
    let f = |k: (i16, u16)| CardId(k.1);
    let le = crate::order::key_order::<(i16, u16)>();
    <(i16, u16) as crate::order::Ordered>::key_order_is_total();
    assert(crate::order::keys(ranks) =~= ranks);
    ranks.lemma_sort_by_ensures(le);
    let s = crate::order::sorted_keys(ranks);
    crate::order::lemma_map_multiset(s, ranks, f);
    assert(ranks.map_values(f) =~= cards);
}

/// Every card of a list is one of another, and stands no more often than its
/// rarity allows, in a list no longer than it may be.
pub open spec fn fair(c: Corpus, p: Seq<CardId>, size: nat, deck: Seq<CardId>) -> bool {
    &&& deck.len() <= size
    &&& forall|x: CardId| #[trigger] super::count(deck, x) > 0 ==> super::count(p, x) > 0
    &&& forall|x: CardId| #[trigger] super::count(deck, x) <= c.def_of(x).copies()
}

proof fn lemma_fill_cost(
    c: Corpus,
    all: Seq<CardId>,
    p: Seq<CardId>,
    cost: int,
    want: nat,
    deck: Seq<CardId>,
    taken: nat,
)
    requires
        fair(c, all, DECK_SIZE as nat, deck),
        once(p),
        forall|x: CardId| #[trigger] super::count(p, x) > 0 ==> super::count(all, x) > 0,
        forall|x: CardId|
            #[trigger] super::count(p, x) > 0 && c.def_of(x).cost == cost ==> super::count(deck, x) == 0,
    ensures
        fair(c, all, DECK_SIZE as nat, super::fill_cost(c, p, cost, want, deck, taken)),
        forall|x: CardId|
            c.def_of(x).cost != cost ==> #[trigger] super::count(
                super::fill_cost(c, p, cost, want, deck, taken),
                x,
            ) == super::count(deck, x),
    decreases p.len(),
{
    if p.len() > 0 {
        let card = p[0];
        let t = p.drop_first();
        lemma_once_tail(p);
        assert(super::count(p, card) > 0) by {
            lemma_counted(p, card);
        }
        assert forall|x: CardId| #[trigger] super::count(t, x) > 0 implies super::count(all, x) > 0 by {
            assert(super::count(p, x) > 0);
        }
        if c.def_of(card).cost == cost {
            let n = super::portion(c.def_of(card).copies() as nat, want, taken, deck.len());
            let more = deck + super::repeated(card, n);
            assert forall|x: CardId| #[trigger] super::count(more, x) == super::count(deck, x) + if x
                == card {
                n
            } else {
                0
            } by {
                lemma_count_concat(deck, super::repeated(card, n), x);
                lemma_count_repeated(card, n, x);
            }
            assert(super::count(deck, card) == 0);
            assert(fair(c, all, DECK_SIZE as nat, more)) by {
                assert forall|x: CardId| #[trigger] super::count(more, x) > 0 implies super::count(
                    all,
                    x,
                ) > 0 by {
                    if x != card {
                        assert(super::count(deck, x) > 0);
                    }
                }
                assert forall|x: CardId| #[trigger] super::count(more, x) <= c.def_of(x).copies() by {
                    assert(super::count(deck, x) <= c.def_of(x).copies());
                }
            }
            assert forall|x: CardId| #[trigger] super::count(t, x) > 0 && c.def_of(x).cost == cost implies super::count(
                more,
                x,
            ) == 0 by {
                assert(super::count(p, x) > 0);
                assert(x != card);
                assert(super::count(deck, x) == 0);
            }
            lemma_fill_cost(c, all, t, cost, want, more, taken + n);
            assert forall|x: CardId| c.def_of(x).cost != cost implies #[trigger] super::count(
                super::fill_cost(c, p, cost, want, deck, taken),
                x,
            ) == super::count(deck, x) by {
                assert(super::count(super::fill_cost(c, t, cost, want, more, taken + n), x)
                    == super::count(more, x));
            }
        } else {
            assert forall|x: CardId| #[trigger] super::count(t, x) > 0 && c.def_of(x).cost == cost implies super::count(
                deck,
                x,
            ) == 0 by {
                assert(super::count(p, x) > 0);
            }
            lemma_fill_cost(c, all, t, cost, want, deck, taken);
        }
    }
}

proof fn lemma_fill_curve(
    c: Corpus,
    p: Seq<CardId>,
    want: Seq<usize>,
    cost: nat,
    deck: Seq<CardId>,
)
    requires
        fair(c, p, DECK_SIZE as nat, deck),
        once(p),
        forall|x: CardId| c.def_of(x).cost >= cost ==> #[trigger] super::count(deck, x) == 0,
    ensures
        fair(c, p, DECK_SIZE as nat, super::fill_curve(c, p, want, cost, deck)),
    decreases want.len() - cost,
{
    if cost < want.len() {
        let more = super::fill_cost(c, p, cost as int, want[cost as int] as nat, deck, 0);
        lemma_fill_cost(c, p, p, cost as int, want[cost as int] as nat, deck, 0);
        assert forall|x: CardId| c.def_of(x).cost >= cost + 1 implies #[trigger] super::count(more, x)
            == 0 by {
            assert(super::count(deck, x) == 0);
        }
        lemma_fill_curve(c, p, want, cost + 1, more);
    }
}

/// Topping up adds to a deck and takes nothing out of it.
pub proof fn lemma_top_up_extends(c: Corpus, p: Seq<CardId>, size: nat, deck: Seq<CardId>)
    ensures
        deck.len() <= super::top_up(c, p, size, deck).len(),
        super::top_up(c, p, size, deck).take(deck.len() as int) == deck,
        forall|x: CardId|
            super::count(deck, x) <= #[trigger] super::count(super::top_up(c, p, size, deck), x),
    decreases p.len(),
{
    let out = super::top_up(c, p, size, deck);
    if p.len() == 0 || deck.len() >= size {
        assert(out.take(deck.len() as int) =~= deck);
    } else if super::count(deck, p[0]) < c.def_of(p[0]).copies() {
        let more = deck.push(p[0]);
        lemma_top_up_extends(c, p.drop_first(), size, more);
        assert(out.take(deck.len() as int) =~= out.take(more.len() as int).take(deck.len() as int));
        assert(more.take(deck.len() as int) =~= deck);
        assert forall|x: CardId| super::count(deck, x) <= #[trigger] super::count(out, x) by {
            lemma_count_push(deck, p[0], x);
            assert(super::count(more, x) <= super::count(out, x));
        }
    } else {
        lemma_top_up_extends(c, p.drop_first(), size, deck);
    }
}

proof fn lemma_top_up(c: Corpus, all: Seq<CardId>, p: Seq<CardId>, size: nat, deck: Seq<CardId>)
    requires
        fair(c, all, size, deck),
        once(p),
        forall|x: CardId| #[trigger] super::count(p, x) > 0 ==> super::count(all, x) > 0,
    ensures
        fair(c, all, size, super::top_up(c, p, size, deck)),
        deck.len() < size && super::top_up(c, p, size, deck).len() == deck.len() ==> forall|x: CardId|
            #[trigger] super::count(p, x) > 0 ==> super::count(deck, x) >= c.def_of(x).copies(),
    decreases p.len(),
{
    if p.len() == 0 {
        assert forall|x: CardId| #[trigger] super::count(p, x) == 0 by {
            lemma_counted(p, x);
        }
    }
    if p.len() > 0 && deck.len() < size {
        let card = p[0];
        let t = p.drop_first();
        lemma_once_tail(p);
        assert(super::count(p, card) > 0) by {
            lemma_counted(p, card);
        }
        assert forall|x: CardId| #[trigger] super::count(t, x) > 0 implies super::count(all, x) > 0 by {
            assert(super::count(p, x) > 0);
        }
        if super::count(deck, card) < c.def_of(card).copies() {
            let more = deck.push(card);
            assert forall|x: CardId| #[trigger] super::count(more, x) == super::count(deck, x) + if x
                == card {
                1nat
            } else {
                0
            } by {
                lemma_count_push(deck, card, x);
            }
            assert(fair(c, all, size, more)) by {
                assert forall|x: CardId| #[trigger] super::count(more, x) > 0 implies super::count(
                    all,
                    x,
                ) > 0 by {
                    if x != card {
                        assert(super::count(deck, x) > 0);
                    }
                }
                assert forall|x: CardId| #[trigger] super::count(more, x) <= c.def_of(x).copies() by {
                    assert(super::count(deck, x) <= c.def_of(x).copies());
                }
            }
            lemma_top_up(c, all, t, size, more);
            lemma_top_up_extends(c, t, size, more);
        } else {
            lemma_top_up(c, all, t, size, deck);
            if super::top_up(c, p, size, deck).len() == deck.len() {
                assert forall|x: CardId| #[trigger] super::count(p, x) > 0 implies super::count(deck, x)
                    >= c.def_of(x).copies() by {
                    if x != card {
                        assert(super::count(t, x) > 0);
                    }
                }
            }
        }
    }
}

/// Filling up ends with a full deck, or with every card in as many copies as
/// its rarity allows.
proof fn lemma_fill_up(c: Corpus, p: Seq<CardId>, size: nat, deck: Seq<CardId>)
    requires
        fair(c, p, size, deck),
        once(p),
    ensures
        fair(c, p, size, super::fill_up(c, p, size, deck)),
        super::fill_up(c, p, size, deck).len() == size || forall|x: CardId|
            #[trigger] super::count(p, x) > 0 ==> super::count(
                super::fill_up(c, p, size, deck),
                x,
            ) >= c.def_of(x).copies(),
        forall|x: CardId|
            super::count(deck, x) <= #[trigger] super::count(super::fill_up(c, p, size, deck), x),
    decreases size - deck.len(),
{
    let more = super::top_up(c, p, size, deck);
    lemma_top_up(c, p, p, size, deck);
    lemma_top_up_extends(c, p, size, deck);
    if deck.len() < size && more.len() > deck.len() {
        lemma_fill_up(c, p, size, more);
        let out = super::fill_up(c, p, size, deck);
        assert(out == super::fill_up(c, p, size, more));
        assert forall|x: CardId| super::count(deck, x) <= #[trigger] super::count(out, x) by {
            assert(super::count(deck, x) <= super::count(more, x));
        }
    }
}

proof fn lemma_filter_out(s: Seq<CardId>, x: CardId)
    ensures
        s.filter(|y: CardId| y != x).len() == s.len() - super::count(s, x),
    decreases s.len(),
{
    reveal(Seq::filter);
    if s.len() == 0 {
        lemma_counted(s, x);
    } else {
        let t = s.drop_last();
        lemma_filter_out(t, x);
        assert(s =~= t.push(s.last()));
        lemma_count_push(t, s.last(), x);
    }
}

/// A list that holds each of some cards as often as its rarity allows is at
/// least as long as the places they can fill.
proof fn lemma_places_at_least(c: Corpus, p: Seq<CardId>, deck: Seq<CardId>)
    requires
        once(p),
        forall|x: CardId| #[trigger] super::count(p, x) > 0 ==> super::count(deck, x) >= c.def_of(x).copies(),
    ensures
        deck.len() >= super::places(c, p),
    decreases p.len(),
{
    if p.len() > 0 {
        let card = p[0];
        let t = p.drop_first();
        let keep = |y: CardId| y != card;
        let rest = deck.filter(keep);
        lemma_once_tail(p);
        lemma_counted(p, card);
        lemma_filter_out(deck, card);
        assert(super::count(p, card) > 0);
        assert forall|x: CardId| #[trigger] super::count(t, x) > 0 implies super::count(rest, x)
            >= c.def_of(x).copies() by {
            lemma_filter_count(deck, keep, x);
            assert(super::count(p, x) > 0);
        }
        lemma_places_at_least(c, t, rest);
    }
}

/// No list of some cards, each no more often than its rarity allows, is longer
/// than the places they can fill.
pub proof fn lemma_places_at_most(c: Corpus, p: Seq<CardId>, deck: Seq<CardId>)
    requires
        once(p),
        fair(c, p, deck.len(), deck),
    ensures
        deck.len() <= super::places(c, p),
    decreases p.len(),
{
    if p.len() == 0 {
        if deck.len() > 0 {
            assert(deck.contains(deck[0]));
            lemma_counted(deck, deck[0]);
            lemma_counted(p, deck[0]);
        }
    } else {
        let card = p[0];
        let t = p.drop_first();
        let keep = |y: CardId| y != card;
        let rest = deck.filter(keep);
        lemma_once_tail(p);
        lemma_filter_out(deck, card);
        assert(super::count(deck, card) <= c.def_of(card).copies());
        assert forall|x: CardId|
            #[trigger] super::count(rest, x) <= c.def_of(x).copies() && (super::count(rest, x) > 0
                ==> super::count(t, x) > 0) by {
            lemma_filter_count(deck, keep, x);
            assert(super::count(deck, x) <= c.def_of(x).copies());
            if super::count(rest, x) > 0 {
                assert(super::count(p, x) > 0);
            }
        }
        lemma_places_at_most(c, t, rest);
    }
}

proof fn lemma_places_remove(c: Corpus, s: Seq<CardId>, j: int)
    requires
        0 <= j < s.len(),
    ensures
        super::places(c, s) == c.def_of(s[j]).copies() + super::places(c, s.remove(j)),
    decreases s.len(),
{
    if j == 0 {
        assert(s.remove(0) =~= s.drop_first());
    } else {
        let t = s.drop_first();
        lemma_places_remove(c, t, j - 1);
        assert(s.remove(j).drop_first() =~= t.remove(j - 1));
        assert(s.remove(j)[0] == s[0]);
    }
}

/// The places that cards can fill do not depend on their order.
proof fn lemma_places_multiset(c: Corpus, a: Seq<CardId>, b: Seq<CardId>)
    requires
        a.to_multiset() == b.to_multiset(),
    ensures
        super::places(c, a) == super::places(c, b),
    decreases a.len(),
{
    broadcast use vstd::seq_lib::group_to_multiset_ensures;

    assert(a.len() == a.to_multiset().len() == b.to_multiset().len() == b.len());
    if a.len() > 0 {
        let x = a[0];
        assert(a.contains(x));
        assert(a.to_multiset().count(x) > 0);
        assert(b.contains(x));
        let j = choose|j: int| 0 <= j < b.len() && b[j] == x;
        assert(a.remove(0) =~= a.drop_first());
        assert(a.remove(0).to_multiset() =~= a.to_multiset().remove(x));
        assert(b.remove(j).to_multiset() =~= b.to_multiset().remove(x));
        lemma_places_remove(c, b, j);
        lemma_places_multiset(c, a.drop_first(), b.remove(j));
    }
}

proof fn lemma_pool_once(c: Corpus, class: Class, format: Formats)
    requires
        c.wf(),
    ensures
        once(super::pool_of(c, class, format)),
        forall|x: CardId|
            #[trigger] super::count(super::pool_of(c, class, format), x) > 0 ==> super::in_pool(
                c.def_of(x),
                class,
                format,
            ),
{
    let pool = super::pool_of(c, class, format);
    let of_pool = |card: CardId| super::in_pool(c.def_of(card), class, format);
    assert forall|x: CardId|
        #[trigger] super::count(pool, x) <= 1 && (super::count(pool, x) > 0 ==> super::in_pool(
            c.def_of(x),
            class,
            format,
        )) by {
        lemma_filter_count(c.ids(), of_pool, x);
        lemma_ids_once(c, x);
    }
}

proof fn lemma_filter_once(s: Seq<CardId>, keep: spec_fn(CardId) -> bool)
    requires
        once(s),
    ensures
        once(s.filter(keep)),
        forall|x: CardId|
            #[trigger] super::count(s.filter(keep), x) > 0 ==> keep(x) && super::count(s, x) > 0,
{
    assert forall|x: CardId|
        #[trigger] super::count(s.filter(keep), x) <= 1 && (super::count(s.filter(keep), x) > 0
            ==> keep(x) && super::count(s, x) > 0) by {
        lemma_filter_count(s, keep, x);
        assert(super::count(s, x) <= 1);
    }
}

proof fn lemma_sorted_once(c: Corpus, s: Seq<CardId>)
    requires
        once(s),
    ensures
        once(super::by_cost(c, s)),
        forall|x: CardId| #[trigger] super::count(super::by_cost(c, s), x) == super::count(s, x),
        super::places(c, super::by_cost(c, s)) == super::places(c, s),
{
    let p = super::by_cost(c, s);
    lemma_by_cost(c, s);
    lemma_places_multiset(c, p, s);
    assert forall|x: CardId| #[trigger] super::count(p, x) <= 1 by {
        assert(super::count(s, x) <= 1);
    }
}

proof fn lemma_implemented_pool(c: Corpus, class: Class, format: Formats)
    requires
        c.wf(),
    ensures
        once(super::implemented_pool_of(c, class, format)),
        forall|x: CardId|
            #[trigger] super::count(super::implemented_pool_of(c, class, format), x) > 0
                ==> super::in_pool(c.def_of(x), class, format)
                && crate::cards::behaviour::implemented(c, x),
{
    lemma_pool_once(c, class, format);
    lemma_filter_once(
        super::pool_of(c, class, format),
        |card: CardId| crate::cards::behaviour::implemented(c, card),
    );
}

proof fn lemma_fair_is_valid(
    c: Corpus,
    p: Seq<CardId>,
    size: nat,
    deck: Seq<CardId>,
    class: Class,
    format: Formats,
)
    requires
        fair(c, p, size, deck),
        forall|x: CardId| #[trigger] super::count(p, x) > 0 ==> super::in_pool(c.def_of(x), class, format),
        deck.len() == super::size_for(c, deck),
    ensures
        super::valid(c, deck, class, format),
{
    assert forall|i: int| 0 <= i < deck.len() implies super::error_at(
        c,
        deck,
        class,
        format,
        #[trigger] deck[i],
    ) is None by {
        let x = deck[i];
        assert(deck.contains(x));
        lemma_counted(deck, x);
        assert(super::count(p, x) > 0);
        assert(super::count(deck, x) <= c.def_of(x).copies());
    }
}

/// A list of cards that leave a deck's size alone does not hold one that
/// changes it.
proof fn lemma_no_resizer(c: Corpus, p: Seq<CardId>, size: nat, deck: Seq<CardId>)
    requires
        fair(c, p, size, deck),
        forall|x: CardId| #[trigger] super::count(p, x) > 0 ==> c.name_of(x) != RESIZER@,
    ensures
        !super::any_named(c, deck, RESIZER@),
{
    assert forall|i: int| 0 <= i < deck.len() implies c.name_of(#[trigger] deck[i]) != RESIZER@ by {
        assert(deck.contains(deck[i]));
        lemma_counted(deck, deck[i]);
        assert(super::count(p, deck[i]) > 0);
    }
}

/// What can be filled is: by the curve a full deck of thirty comes out.
proof fn lemma_curved(c: Corpus, s: Seq<CardId>, format: Formats)
    requires
        once(s),
        super::places(c, s) >= DECK_SIZE,
    ensures
        fair(c, s, DECK_SIZE as nat, super::curved(c, super::by_cost(c, s), format)),
        super::curved(c, super::by_cost(c, s), format).len() == DECK_SIZE,
{
    let p = super::by_cost(c, s);
    lemma_sorted_once(c, s);
    let none = Seq::<CardId>::empty();
    assert forall|x: CardId| #[trigger] super::count(none, x) == 0 by {
        lemma_counted(none, x);
    }
    lemma_fill_curve(c, p, super::wanted(format), 0, none);
    let start = super::fill_curve(c, p, super::wanted(format), 0, none);
    lemma_fill_up(c, p, DECK_SIZE as nat, start);
    let deck = super::curved(c, p, format);
    if deck.len() != DECK_SIZE {
        lemma_places_at_least(c, p, deck);
    }
    assert forall|x: CardId| #[trigger] super::count(deck, x) > 0 implies super::count(s, x) > 0 by {
        assert(super::count(p, x) > 0);
    }
}

/// Thirty cards are legal where none of them changes a deck's size, and thirty
/// such cards are there to be had.
proof fn lemma_thirty(
    c: Corpus,
    s: Seq<CardId>,
    deck: Seq<CardId>,
    class: Class,
    format: Formats,
)
    requires
        once(s),
        forall|x: CardId| #[trigger] super::count(s, x) > 0 ==> super::in_pool(c.def_of(x), class, format),
        fair(c, super::stock(c, s), DECK_SIZE as nat, deck),
        deck.len() == DECK_SIZE,
    ensures
        super::valid(c, deck, class, format) <==> super::places(c, super::ordinary(c, s))
            >= DECK_SIZE,
{
    let keep = |card: CardId| c.name_of(card) != RESIZER@;
    let rest = super::ordinary(c, s);
    lemma_filter_once(s, keep);
    if super::places(c, rest) >= DECK_SIZE {
        lemma_no_resizer(c, rest, DECK_SIZE as nat, deck);
        lemma_fair_is_valid(c, rest, DECK_SIZE as nat, deck, class, format);
    } else if !super::any_named(c, deck, RESIZER@) {
        assert forall|x: CardId| #[trigger] super::count(deck, x) > 0 implies super::count(rest, x)
            > 0 by {
            lemma_counted(deck, x);
            let i = choose|i: int| 0 <= i < deck.len() && deck[i] == x;
            assert(c.name_of(deck[i]) != RESIZER@);
            assert(super::count(s, x) > 0);
            lemma_filter_count(s, keep, x);
        }
        lemma_places_at_most(c, rest, deck);
    }
}

/// Every card of a curve deck is one of its stock, in no more copies than its
/// rarity allows, and there are thirty of them.
proof fn lemma_curve_deck_is_fair(c: Corpus, class: Class, format: Formats)
    requires
        c.wf(),
    ensures
        super::curve_cards(c, class, format) matches Some(deck) ==> fair(
            c,
            super::stock(c, super::implemented_pool_of(c, class, format)),
            DECK_SIZE as nat,
            deck,
        ) && deck.len() == DECK_SIZE,
{
    let pool = super::implemented_pool_of(c, class, format);
    lemma_implemented_pool(c, class, format);
    if super::places(c, pool) >= DECK_SIZE {
        lemma_filter_once(pool, |card: CardId| c.name_of(card) != RESIZER@);
        lemma_curved(c, super::stock(c, pool), format);
    }
}

/// What is in stock was in the list.
proof fn lemma_stock(c: Corpus, s: Seq<CardId>)
    requires
        once(s),
    ensures
        once(super::stock(c, s)),
        forall|x: CardId|
            #[trigger] super::count(super::stock(c, s), x) > 0 ==> super::count(s, x) > 0,
{
    lemma_filter_once(s, |card: CardId| c.name_of(card) != RESIZER@);
}

/// Every card of a curve deck is one that the engine understands.
pub proof fn lemma_curve_deck_is_implemented(c: Corpus, class: Class, format: Formats)
    requires
        c.wf(),
    ensures
        super::curve_cards(c, class, format) matches Some(deck) ==> forall|i: int|
            0 <= i < deck.len() ==> crate::cards::behaviour::implemented(c, #[trigger] deck[i]),
{
    let pool = super::implemented_pool_of(c, class, format);
    lemma_curve_deck_is_fair(c, class, format);
    lemma_implemented_pool(c, class, format);
    lemma_stock(c, pool);
    if let Some(deck) = super::curve_cards(c, class, format) {
        assert forall|i: int| 0 <= i < deck.len() implies crate::cards::behaviour::implemented(
            c,
            #[trigger] deck[i],
        ) by {
            assert(deck.contains(deck[i]));
            lemma_counted(deck, deck[i]);
            assert(super::count(super::stock(c, pool), deck[i]) > 0);
            assert(super::count(pool, deck[i]) > 0);
        }
    }
}

/// A curve deck is legal wherever thirty cards can be found that leave a
/// deck's size alone, and only there.
pub proof fn lemma_curve_deck_is_valid(c: Corpus, class: Class, format: Formats)
    requires
        c.wf(),
    ensures
        super::curve_cards(c, class, format) matches Some(deck) ==> (super::valid(
            c,
            deck,
            class,
            format,
        ) <==> super::places(c, super::ordinary(c, super::implemented_pool_of(c, class, format)))
            >= DECK_SIZE),
{
    let pool = super::implemented_pool_of(c, class, format);
    lemma_curve_deck_is_fair(c, class, format);
    lemma_implemented_pool(c, class, format);
    if let Some(deck) = super::curve_cards(c, class, format) {
        lemma_thirty(c, pool, deck, class, format);
    }
}

/// A curve deck holds thirty cards, and there is one wherever thirty can be
/// found.
pub proof fn lemma_curve_deck_is_full(c: Corpus, class: Class, format: Formats)
    requires
        c.wf(),
    ensures
        super::curve_cards(c, class, format) is Some <==> super::places(
            c,
            super::implemented_pool_of(c, class, format),
        ) >= DECK_SIZE,
        super::curve_cards(c, class, format) matches Some(deck) ==> deck.len() == DECK_SIZE,
{
    lemma_curve_deck_is_fair(c, class, format);
}

proof fn lemma_ordinary_places(c: Corpus, s: Seq<CardId>)
    ensures
        super::places(c, super::ordinary(c, s)) <= super::places(c, s),
    decreases s.len(),
{
    reveal(Seq::filter);
    if s.len() > 0 {
        let t = s.drop_last();
        lemma_ordinary_places(c, t);
        lemma_places_remove(c, s, s.len() - 1);
        assert(s.remove(s.len() - 1) =~= t);
        let kept = super::ordinary(c, t);
        let more = kept.push(s.last());
        lemma_places_remove(c, more, more.len() - 1);
        assert(more.remove(more.len() - 1) =~= kept);
    }
}

proof fn lemma_all_copies(c: Corpus, p: Seq<CardId>, x: CardId)
    requires
        once(p),
    ensures
        super::count(super::all_copies(c, p), x) == if super::count(p, x) > 0 {
            c.def_of(x).copies() as nat
        } else {
            0
        },
    decreases p.len(),
{
    if p.len() == 0 {
        lemma_counted(p, x);
        lemma_counted(super::all_copies(c, p), x);
    } else {
        let card = p[0];
        let t = p.drop_first();
        lemma_once_tail(p);
        lemma_all_copies(c, t, x);
        lemma_counted(p, card);
        let first = super::repeated(card, c.def_of(card).copies() as nat);
        lemma_count_concat(first, super::all_copies(c, t), x);
        lemma_count_repeated(card, c.def_of(card).copies() as nat, x);
        assert(super::count(t, x) <= super::count(p, x));
    }
}

proof fn lemma_take_count(s: Seq<CardId>, n: int, x: CardId)
    requires
        0 <= n <= s.len(),
    ensures
        super::count(s.take(n), x) <= super::count(s, x),
{
    assert(s =~= s.take(n) + s.skip(n));
    lemma_count_concat(s.take(n), s.skip(n), x);
}

proof fn lemma_all_copies_len(c: Corpus, p: Seq<CardId>)
    ensures
        super::all_copies(c, p).len() == super::places(c, p),
    decreases p.len(),
{
    if p.len() > 0 {
        lemma_all_copies_len(c, p.drop_first());
    }
}

/// There are thirty of the cheapest minions wherever thirty can be found, and
/// never more.
pub proof fn lemma_cheapest_deck_is_full(c: Corpus, class: Class, format: Formats)
    requires
        c.wf(),
    ensures
        super::cheapest_cards(c, class, format).len() <= DECK_SIZE,
        super::cheapest_cards(c, class, format).len() == DECK_SIZE <==> super::places(
            c,
            super::fighters(c, class, format),
        ) >= DECK_SIZE,
{
    let s = super::fighters(c, class, format);
    lemma_pool_once(c, class, format);
    lemma_filter_once(
        super::pool_of(c, class, format),
        |card: CardId| super::is_fighter(c.def_of(card)),
    );
    lemma_stock(c, s);
    lemma_sorted_once(c, super::stock(c, s));
    lemma_ordinary_places(c, s);
    lemma_all_copies_len(c, super::by_cost(c, super::stock(c, s)));
}

/// Thirty of the cheapest minions are legal wherever thirty can be found that
/// leave a deck's size alone, and only there.
pub proof fn lemma_cheapest_deck_is_valid(c: Corpus, class: Class, format: Formats)
    requires
        c.wf(),
    ensures
        super::cheapest_cards(c, class, format).len() == DECK_SIZE ==> (super::valid(
            c,
            super::cheapest_cards(c, class, format),
            class,
            format,
        ) <==> super::places(c, super::ordinary(c, super::fighters(c, class, format)))
            >= DECK_SIZE),
{
    let keep = |card: CardId| super::is_fighter(c.def_of(card));
    let pool = super::pool_of(c, class, format);
    let s = super::fighters(c, class, format);
    let p = super::by_cost(c, super::stock(c, s));
    let deck = super::cheapest_cards(c, class, format);
    lemma_pool_once(c, class, format);
    lemma_filter_once(pool, keep);
    lemma_stock(c, s);
    lemma_sorted_once(c, super::stock(c, s));
    let whole = super::all_copies(c, p);
    assert forall|x: CardId|
        #[trigger] super::count(deck, x) <= c.def_of(x).copies() && (super::count(deck, x) > 0
            ==> super::count(super::stock(c, s), x) > 0) by {
        lemma_all_copies(c, p, x);
        if whole.len() > DECK_SIZE {
            lemma_take_count(whole, DECK_SIZE as int, x);
        }
        assert(super::count(p, x) == super::count(super::stock(c, s), x));
    }
    assert forall|x: CardId| #[trigger] super::count(s, x) > 0 implies super::in_pool(
        c.def_of(x),
        class,
        format,
    ) by {
        assert(super::count(pool, x) > 0);
    }
    if deck.len() == DECK_SIZE {
        lemma_thirty(c, s, deck, class, format);
    }
}

/// A legal list passes, and only a legal list does.
pub proof fn lemma_valid_has_no_error(
    c: Corpus,
    cards: Seq<CardId>,
    class: Class,
    format: Formats,
    e: DeckError,
)
    requires
        super::valid(c, cards, class, format),
    ensures
        !super::first_error(c, cards, class, format, e),
{
}

// ------------------------------------------------------------------- rules

/// The card of a number, as the table has it.
pub open spec fn printed(c: Corpus, card: CardId) -> CardDef {
    c.tables.defs@[card.0 as int]
}

/// Whether a class may play a card in a format: a card of its own or a neutral
/// one, of a kind that goes in a deck, whose formats share a bit with it.
pub open spec fn may_play(d: CardDef, class: Class, format: Formats) -> bool {
    &&& d.kind <= 4
    &&& d.class == 0 || d.class_of() == class
    &&& d.formats.0 & format.0 != 0
}

/// One copy of a Legendary, two of anything else.
pub open spec fn allowed(d: CardDef) -> nat {
    if d.rarity == 5 {
        1
    } else {
        2
    }
}

/// Whether a list holds Azalina Soulsever.
pub open spec fn holds_azalina(c: Corpus, cards: Seq<CardId>) -> bool {
    exists|i: int|
        0 <= i < cards.len() && c.tables.info@[(#[trigger] cards[i]).0 as int].name@
            == "Azalina Soulsever"@
}

/// A legal list holds thirty cards, or twenty around Azalina.
pub proof fn lemma_legal_size(c: Corpus, cards: Seq<CardId>)
    ensures
        holds_azalina(c, cards) ==> super::size_for(c, cards) == 20,
        !holds_azalina(c, cards) ==> super::size_for(c, cards) == 30,
        DECK_SIZE == 30,
        super::RESIZED == 20,
        RESIZER@ == "Azalina Soulsever"@,
{
    if holds_azalina(c, cards) {
        let i = choose|i: int|
            0 <= i < cards.len() && c.tables.info@[(#[trigger] cards[i]).0 as int].name@
                == "Azalina Soulsever"@;
        assert(c.name_of(cards[i]) == RESIZER@);
    }
}

/// A list is legal exactly where it is of the right size, and each of its
/// cards is one the class may play in the format and stands in it no more
/// often than its rarity allows: a Legendary once, anything else twice.
pub proof fn lemma_legal_list(c: Corpus, cards: Seq<CardId>, class: Class, format: Formats)
    ensures
        super::valid(c, cards, class, format) <==> {
            &&& cards.len() == if holds_azalina(c, cards) { 20int } else { 30 }
            &&& forall|i: int|
                0 <= i < cards.len() ==> may_play(printed(c, #[trigger] cards[i]), class, format)
            &&& forall|i: int|
                0 <= i < cards.len() ==> cards.to_multiset().count(#[trigger] cards[i]) <= allowed(
                    printed(c, cards[i]),
                )
        },
{
    lemma_legal_size(c, cards);
    if super::valid(c, cards, class, format) {
        assert forall|i: int| 0 <= i < cards.len() implies may_play(
            printed(c, #[trigger] cards[i]),
            class,
            format,
        ) && cards.to_multiset().count(cards[i]) <= allowed(printed(c, cards[i])) by {
            assert(super::error_at(c, cards, class, format, cards[i]) is None);
        }
    }
}

/// Whether one card of a list is as it should be.
pub open spec fn sound_card(
    c: Corpus,
    cards: Seq<CardId>,
    class: Class,
    format: Formats,
    x: CardId,
) -> bool {
    may_play(printed(c, x), class, format) && cards.to_multiset().count(x) <= allowed(printed(c, x))
}

/// What is reported of a list of the right size is its first card that is not
/// as it should be, and the first thing wrong with that card: that it goes in
/// no deck, that it is another class's, that it is not legal in the format, or
/// how often it stands there.
pub proof fn lemma_reported_error(
    c: Corpus,
    cards: Seq<CardId>,
    class: Class,
    format: Formats,
    e: DeckError,
)
    requires
        cards.len() <= 255,
        super::first_error(c, cards, class, format, e),
    ensures
        !(e is WrongSize),
        exists|i: int|
            {
                let x = #[trigger] cards[i];
                let d = printed(c, x);
                let own = d.class == 0 || d.class_of() == class;
                &&& 0 <= i < cards.len()
                &&& forall|j: int| 0 <= j < i ==> sound_card(c, cards, class, format, #[trigger] cards[j])
                &&& !sound_card(c, cards, class, format, x)
                &&& e == DeckError::NotDeckable(x) <==> d.kind > 4
                &&& e == DeckError::WrongClass(x) <==> d.kind <= 4 && !own
                &&& e == DeckError::NotLegal(x) <==> d.kind <= 4 && own && d.formats.0 & format.0 == 0
                &&& may_play(d, class, format) ==> (e matches DeckError::TooManyCopies(y, n) && y == x
                    && n == cards.to_multiset().count(x))
            },
{
    let i = choose|i: int|
        {
            &&& 0 <= i < cards.len()
            &&& super::error_at(c, cards, class, format, #[trigger] cards[i]) == Some(e)
            &&& forall|j: int|
                0 <= j < i ==> super::error_at(c, cards, class, format, #[trigger] cards[j]) is None
        };
    lemma_count_within(cards, cards[i]);
    assert forall|j: int| 0 <= j < i implies sound_card(c, cards, class, format, #[trigger] cards[j]) by {
        assert(super::error_at(c, cards, class, format, cards[j]) is None);
    }
    assert(cards[i] == cards[i]);
}

proof fn lemma_count_within(cards: Seq<CardId>, x: CardId)
    ensures
        cards.to_multiset().count(x) <= cards.len(),
    decreases cards.len(),
{
    if cards.len() == 0 {
        lemma_counted(cards, x);
    } else {
        lemma_count_within(cards.drop_last(), x);
        assert(cards =~= cards.drop_last().push(cards.last()));
        lemma_count_push(cards.drop_last(), cards.last(), x);
    }
}

/// A list of the right size that is not legal has something to report.
pub proof fn lemma_illegal_list_has_an_error(
    c: Corpus,
    cards: Seq<CardId>,
    class: Class,
    format: Formats,
    i: int,
)
    requires
        0 <= i < cards.len(),
        !sound_card(c, cards, class, format, cards[i]),
    ensures
        exists|e: DeckError| super::first_error(c, cards, class, format, e),
    decreases i,
{
    if exists|j: int| 0 <= j < i && !sound_card(c, cards, class, format, #[trigger] cards[j]) {
        let j = choose|j: int| 0 <= j < i && !sound_card(c, cards, class, format, #[trigger] cards[j]);
        lemma_illegal_list_has_an_error(c, cards, class, format, j);
    } else {
        let e = super::error_at(c, cards, class, format, cards[i])->Some_0;
        assert forall|j: int| 0 <= j < i implies super::error_at(
            c,
            cards,
            class,
            format,
            #[trigger] cards[j],
        ) is None by {
            assert(sound_card(c, cards, class, format, cards[j]));
        }
        assert(super::first_error(c, cards, class, format, e));
    }
}

// ------------------------------------------------------------------- pools

proof fn lemma_filter_ascends(s: Seq<CardId>, keep: spec_fn(CardId) -> bool)
    requires
        forall|i: int, j: int| 0 <= i < j < s.len() ==> (#[trigger] s[i]).0 < (#[trigger] s[j]).0,
    ensures
        ({
            let f = s.filter(keep);
            &&& forall|i: int, j: int| 0 <= i < j < f.len() ==> (#[trigger] f[i]).0 < (#[trigger] f[j]).0
            &&& f.len() > 0 ==> s.len() > 0 && f.last().0 <= s.last().0
        }),
    decreases s.len(),
{
    reveal(Seq::filter);
    if s.len() > 0 {
        let t = s.drop_last();
        assert forall|i: int, j: int| 0 <= i < j < t.len() implies (#[trigger] t[i]).0 < (#[trigger] t[j]).0 by {
            assert(s[i].0 < s[j].0);
        }
        lemma_filter_ascends(t, keep);
        let f = t.filter(keep);
        if f.len() > 0 {
            assert(s[s.len() - 2].0 < s[s.len() - 1].0);
            assert forall|i: int| 0 <= i < f.len() implies (#[trigger] f[i]).0 < s.last().0 by {
                if i < f.len() - 1 {
                    assert(f[i].0 < f[f.len() - 1].0);
                }
            }
        }
    }
}

/// The pool of a class and a format holds every card of the table that can be
/// collected and that the class may play in the format, whatever its kind, and
/// no other; in the order of the table, each once.
pub proof fn lemma_pool(c: Corpus, class: Class, format: Formats, card: CardId, i: int, j: int)
    requires
        c.wf(),
    ensures
        super::pool_of(c, class, format).contains(card) <==> card.0 < c.tables.defs@.len()
            && printed(c, card).collectible && may_play(printed(c, card), class, format),
        0 <= i < j < super::pool_of(c, class, format).len() ==> super::pool_of(
            c,
            class,
            format,
        )[i].0 < super::pool_of(c, class, format)[j].0,
{
    let keep = |card: CardId| super::in_pool(c.def_of(card), class, format);
    let pool = super::pool_of(c, class, format);
    crate::cards::behaviour::laws::lemma_every_card(c, card, 0);
    lemma_filter_ascends(c.ids(), keep);
    if card.0 < c.tables.defs@.len() {
        assert(c.ids()[card.0 as int] == card);
        if keep(card) {
            c.ids().lemma_filter_contains(keep, card.0 as int);
        }
    }
    if pool.contains(card) {
        let k = choose|k: int| 0 <= k < pool.len() && pool[k] == card;
        c.ids().lemma_filter_pred(keep, k);
        c.ids().lemma_filter_contains_rev(keep, card);
    }
}

/// The implemented pool holds every card of the pool that the engine
/// understands, and no other; in the order of the table, each once.
pub proof fn lemma_implemented_cards(
    c: Corpus,
    class: Class,
    format: Formats,
    card: CardId,
    i: int,
    j: int,
)
    requires
        c.wf(),
    ensures
        super::implemented_pool_of(c, class, format).contains(card) <==> {
            &&& card.0 < c.tables.defs@.len()
            &&& crate::cards::behaviour::laws::may_be_found(c, card)
            &&& may_play(printed(c, card), class, format)
        },
        0 <= i < j < super::implemented_pool_of(c, class, format).len()
            ==> super::implemented_pool_of(c, class, format)[i].0 < super::implemented_pool_of(
            c,
            class,
            format,
        )[j].0,
{
    let keep = |card: CardId| crate::cards::behaviour::implemented(c, card);
    let pool = super::pool_of(c, class, format);
    let out = super::implemented_pool_of(c, class, format);
    lemma_pool(c, class, format, card, 0, 0);
    assert forall|i: int, j: int| 0 <= i < j < pool.len() implies (#[trigger] pool[i]).0 < (#[trigger] pool[j]).0 by {
        lemma_pool(c, class, format, card, i, j);
    }
    lemma_filter_ascends(pool, keep);
    if card.0 < c.tables.defs@.len() {
        if crate::cards::behaviour::laws::has_row(c, card)
            || crate::cards::behaviour::laws::known_by_identity(c, card)
            || crate::cards::behaviour::laws::says_it_all(printed(c, card)) {
            crate::cards::behaviour::laws::lemma_read_text_is_implemented(c, card);
        } else {
            crate::cards::behaviour::laws::lemma_unread_text_is_not_implemented(c, card);
        }
    }
    if pool.contains(card) && keep(card) {
        let k = choose|k: int| 0 <= k < pool.len() && pool[k] == card;
        pool.lemma_filter_contains(keep, k);
    }
    if out.contains(card) {
        let k = choose|k: int| 0 <= k < out.len() && out[k] == card;
        pool.lemma_filter_pred(keep, k);
        pool.lemma_filter_contains_rev(keep, card);
    }
}

// --------------------------------------------------------- generated decks

/// A card more fills one place more if it is Legendary, else two; no cards
/// fill none.
pub proof fn lemma_places(c: Corpus, cards: Seq<CardId>, card: CardId)
    ensures
        super::places(c, Seq::<CardId>::empty()) == 0,
        super::places(c, cards.push(card)) == super::places(c, cards) + allowed(printed(c, card)),
{
    let more = cards.push(card);
    lemma_places_remove(c, more, more.len() - 1);
    assert(more.remove(more.len() - 1) =~= cards);
}

/// The cards that leave a deck's size alone are all but Azalina.
pub proof fn lemma_ordinary_cards(c: Corpus, cards: Seq<CardId>, card: CardId)
    ensures
        super::ordinary(c, cards).to_multiset().count(card) == if c.tables.info@[card.0 as int].name@
            == "Azalina Soulsever"@ {
            0
        } else {
            cards.to_multiset().count(card)
        },
{
    lemma_filter_count(cards, |card: CardId| c.name_of(card) != RESIZER@, card);
}

/// Whether one card comes before another, or is it: by cost, then by its place
/// in the table.
pub open spec fn not_after(c: Corpus, a: CardId, b: CardId) -> bool {
    printed(c, a).cost < printed(c, b).cost || printed(c, a).cost == printed(c, b).cost && a.0
        <= b.0
}

/// Cards sorted by cost keep their number and stand in order.
pub proof fn lemma_sorted_by_cost(c: Corpus, cards: Seq<CardId>, i: int, j: int, x: CardId)
    ensures
        super::by_cost(c, cards).to_multiset().count(x) == cards.to_multiset().count(x),
        0 <= i <= j < super::by_cost(c, cards).len() ==> not_after(
            c,
            super::by_cost(c, cards)[i],
            super::by_cost(c, cards)[j],
        ),
{
    broadcast use vstd::seq_lib::group_to_multiset_ensures;

    lemma_by_cost(c, cards);
    let ranks = cards.map_values(|card: CardId| super::rank(c, card));
    let le = crate::order::key_order::<(i16, u16)>();
    <(i16, u16) as crate::order::Ordered>::key_order_is_total();
    assert(crate::order::keys(ranks) =~= ranks);
    ranks.lemma_sort_by_ensures(le);
    let s = crate::order::sorted_keys(ranks);
    let out = super::by_cost(c, cards);
    assert forall|k: int| 0 <= k < s.len() implies #[trigger] s[k] == super::rank(c, out[k]) by {
        assert(s.contains(s[k]));
        assert(s.to_multiset().count(s[k]) > 0);
        assert(ranks.contains(s[k]));
        let m = choose|m: int| 0 <= m < ranks.len() && ranks[m] == s[k];
        assert(ranks[m] == super::rank(c, cards[m]));
    }
    if 0 <= i < j < out.len() {
        assert(le(s[i], s[j]));
    }
}

/// The shape of a curve deck: how many cards of each cost it asks for.
pub open spec fn shape(format: Formats, cost: int) -> nat {
    if cost == 1 {
        4
    } else if cost == 2 {
        if format == Formats(4) {
            7
        } else {
            6
        }
    } else if cost == 3 {
        6
    } else if cost == 4 {
        5
    } else if cost == 5 {
        4
    } else if cost == 6 {
        if format == Formats(4) {
            2
        } else {
            3
        }
    } else if cost == 7 || cost == 8 {
        1
    } else {
        0
    }
}

/// How many cards the shape asks for below a cost.
pub open spec fn shape_below(format: Formats, cost: nat) -> nat
    decreases cost,
{
    if cost == 0 {
        0
    } else {
        shape_below(format, (cost - 1) as nat) + shape(format, cost - 1)
    }
}

proof fn lemma_shape(format: Formats, cost: int)
    requires
        0 <= cost < 9,
    ensures
        super::wanted(format).len() == 9,
        super::wanted(format)[cost] == shape(format, cost),
        shape_below(format, cost as nat) + shape(format, cost) <= 30,
{
    reveal_with_fuel(shape_below, 10);
}

/// The curve asks for thirty cards.
pub proof fn lemma_shape_is_a_deck(format: Formats)
    ensures
        shape_below(format, 9) == 30,
{
    reveal_with_fuel(shape_below, 10);
}

/// The cards of a list of one cost.
pub open spec fn of_cost(c: Corpus, cards: Seq<CardId>, cost: int) -> Seq<CardId> {
    cards.filter(|x: CardId| printed(c, x).cost == cost)
}

/// So many of a list's first, or all of it.
pub open spec fn first_of(s: Seq<CardId>, n: nat) -> Seq<CardId> {
    if s.len() <= n {
        s
    } else {
        s.take(n as int)
    }
}

proof fn lemma_fill_cost_is(
    c: Corpus,
    p: Seq<CardId>,
    cost: int,
    want: nat,
    deck: Seq<CardId>,
    taken: nat,
)
    requires
        taken <= want,
        deck.len() + (want - taken) <= DECK_SIZE,
    ensures
        super::fill_cost(c, p, cost, want, deck, taken) == deck + first_of(
            super::all_copies(c, of_cost(c, p, cost)),
            (want - taken) as nat,
        ),
    decreases p.len(),
{
    let keep = |x: CardId| printed(c, x).cost == cost;
    if p.len() == 0 {
        reveal(Seq::filter);
        assert(of_cost(c, p, cost) =~= seq![]);
        assert(super::all_copies(c, of_cost(c, p, cost)) =~= seq![]);
        assert(deck + Seq::<CardId>::empty() =~= deck);
    } else {
        let card = p[0];
        let t = p.drop_first();
        assert(p =~= seq![card] + t);
        Seq::filter_distributes_over_add(seq![card], t, keep);
        assert(seq![card].filter(keep) =~= if keep(card) { seq![card] } else { seq![] }) by {
            reveal(Seq::filter);
            let one = seq![card];
            assert(one.drop_last() =~= Seq::<CardId>::empty());
            assert(one.drop_last().filter(keep) =~= Seq::<CardId>::empty());
        }
        if keep(card) {
            let copies = c.def_of(card).copies() as nat;
            let n = super::portion(copies, want, taken, deck.len());
            let more = deck + super::repeated(card, n);
            lemma_fill_cost_is(c, t, cost, want, more, taken + n);
            let rest = super::all_copies(c, of_cost(c, t, cost));
            let all = of_cost(c, p, cost);
            assert(all =~= seq![card] + of_cost(c, t, cost));
            assert(all.drop_first() =~= of_cost(c, t, cost));
            let whole = super::repeated(card, copies) + rest;
            assert(super::all_copies(c, all) == whole);
            let left = (want - taken) as nat;
            if n == copies {
                assert(first_of(whole, left) =~= super::repeated(card, n) + first_of(
                    rest,
                    (left - n) as nat,
                ));
            } else {
                assert(n == left);
                assert(first_of(rest, 0) =~= seq![]);
                assert(first_of(whole, left) =~= super::repeated(card, n));
            }
            assert(deck + first_of(whole, left) =~= more + first_of(rest, (left - n) as nat));
        } else {
            lemma_fill_cost_is(c, t, cost, want, deck, taken);
            assert(of_cost(c, p, cost) =~= of_cost(c, t, cost));
        }
    }
}

proof fn lemma_all_copies_cost(c: Corpus, p: Seq<CardId>, cost: int)
    requires
        forall|i: int| 0 <= i < p.len() ==> printed(c, #[trigger] p[i]).cost == cost,
    ensures
        forall|i: int|
            0 <= i < super::all_copies(c, p).len() ==> printed(
                c,
                #[trigger] super::all_copies(c, p)[i],
            ).cost == cost,
    decreases p.len(),
{
    if p.len() > 0 {
        let t = p.drop_first();
        assert forall|i: int| 0 <= i < t.len() implies printed(c, #[trigger] t[i]).cost == cost by {
            assert(t[i] == p[i + 1]);
        }
        lemma_all_copies_cost(c, t, cost);
        let first = super::repeated(p[0], c.def_of(p[0]).copies() as nat);
        let rest = super::all_copies(c, t);
        assert forall|i: int| 0 <= i < (first + rest).len() implies printed(
            c,
            #[trigger] (first + rest)[i],
        ).cost == cost by {
            if i >= first.len() {
                assert((first + rest)[i] == rest[i - first.len()]);
            }
        }
    }
}

proof fn lemma_filter_uniform(s: Seq<CardId>, keep: spec_fn(CardId) -> bool, yes: bool)
    requires
        forall|i: int| 0 <= i < s.len() ==> keep(#[trigger] s[i]) == yes,
    ensures
        s.filter(keep) == if yes {
            s
        } else {
            seq![]
        },
    decreases s.len(),
{
    reveal(Seq::filter);
    if s.len() > 0 {
        let t = s.drop_last();
        assert forall|i: int| 0 <= i < t.len() implies keep(#[trigger] t[i]) == yes by {
            assert(t[i] == s[i]);
        }
        lemma_filter_uniform(t, keep, yes);
        assert(keep(s[s.len() - 1]) == yes);
        if yes {
            assert(t.push(s.last()) =~= s);
        }
    } else {
        assert(s =~= seq![]);
    }
}

/// The slice of one cost that the curve takes: the first copies there are, as
/// many as the shape asks for.
pub open spec fn slice(c: Corpus, p: Seq<CardId>, format: Formats, cost: int) -> Seq<CardId> {
    first_of(super::all_copies(c, of_cost(c, p, cost)), shape(format, cost))
}

proof fn lemma_slice_cost(c: Corpus, p: Seq<CardId>, format: Formats, cost: int, k: int)
    ensures
        of_cost(c, slice(c, p, format, cost), k) == if k == cost {
            slice(c, p, format, cost)
        } else {
            seq![]
        },
        slice(c, p, format, cost).len() <= shape(format, cost),
{
    let keep = |x: CardId| printed(c, x).cost == cost;
    let q = of_cost(c, p, cost);
    assert forall|i: int| 0 <= i < q.len() implies printed(c, #[trigger] q[i]).cost == cost by {
        p.lemma_filter_pred(keep, i);
    }
    lemma_all_copies_cost(c, q, cost);
    let s = slice(c, p, format, cost);
    let whole = super::all_copies(c, q);
    assert forall|i: int| 0 <= i < s.len() implies printed(c, #[trigger] s[i]).cost == cost by {
        assert(s[i] == whole[i]);
    }
    lemma_filter_uniform(s, |x: CardId| printed(c, x).cost == k, k == cost);
}

proof fn lemma_fill_curve_is(
    c: Corpus,
    p: Seq<CardId>,
    format: Formats,
    cost: nat,
    deck: Seq<CardId>,
    k: int,
)
    requires
        cost <= 9,
        deck.len() <= shape_below(format, cost),
        0 <= k < 9,
    ensures
        ({
            let out = super::fill_curve(c, p, super::wanted(format), cost, deck);
            of_cost(c, out, k) == of_cost(c, deck, k) + if k >= cost {
                slice(c, p, format, k)
            } else {
                seq![]
            }
        }),
    decreases 9 - cost,
{
    let keep = |x: CardId| printed(c, x).cost == k;
    if cost < 9 {
        lemma_shape(format, cost as int);
        let want = shape(format, cost as int);
        let more = super::fill_cost(c, p, cost as int, want, deck, 0);
        lemma_fill_cost_is(c, p, cost as int, want, deck, 0);
        let piece = slice(c, p, format, cost as int);
        assert(more == deck + piece);
        lemma_slice_cost(c, p, format, cost as int, k);
        Seq::filter_distributes_over_add(deck, piece, keep);
        lemma_fill_curve_is(c, p, format, cost + 1, more, k);
        assert(of_cost(c, more, k) =~= of_cost(c, deck, k) + of_cost(c, piece, k));
        if k == cost {
            assert(of_cost(c, more, k) + Seq::<CardId>::empty() =~= of_cost(c, more, k));
        } else {
            assert(of_cost(c, deck, k) + Seq::<CardId>::empty() =~= of_cost(c, deck, k));
        }
    } else {
        lemma_shape(format, 0);
        assert(of_cost(c, deck, k) + Seq::<CardId>::empty() =~= of_cost(c, deck, k));
    }
}

proof fn lemma_fill_up_extends(c: Corpus, p: Seq<CardId>, size: nat, deck: Seq<CardId>)
    ensures
        deck.len() <= super::fill_up(c, p, size, deck).len(),
        super::fill_up(c, p, size, deck).take(deck.len() as int) == deck,
    decreases
            (if deck.len() < size {
                size - deck.len()
            } else {
                0
            }),
{
    let more = super::top_up(c, p, size, deck);
    let out = super::fill_up(c, p, size, deck);
    if deck.len() >= size || more.len() <= deck.len() {
        assert(out.take(deck.len() as int) =~= deck);
    } else {
        lemma_top_up_extends(c, p, size, deck);
        lemma_fill_up_extends(c, p, size, more);
        assert(out.take(deck.len() as int) =~= out.take(more.len() as int).take(deck.len() as int));
    }
}

/// A curve deck follows the curve: of each cost it holds at least as many
/// cards as the curve asks for, or all there are, and they are the first of
/// that cost in the order of the table.
pub proof fn lemma_curve_deck_follows_the_curve(
    c: Corpus,
    class: Class,
    format: Formats,
    cost: int,
)
    requires
        c.wf(),
        0 <= cost < 9,
    ensures
        super::curve_cards(c, class, format) matches Some(deck) ==> {
            let stock = super::by_cost(
                c,
                super::stock(c, super::implemented_pool_of(c, class, format)),
            );
            let there = super::all_copies(c, of_cost(c, stock, cost));
            let asked = if there.len() < shape(format, cost) {
                there.len()
            } else {
                shape(format, cost)
            };
            let got = of_cost(c, deck, cost);
            asked <= got.len() && got.take(asked as int) == there.take(asked as int)
        },
{
    if let Some(deck) = super::curve_cards(c, class, format) {
        let p = super::by_cost(
            c,
            super::stock(c, super::implemented_pool_of(c, class, format)),
        );
        let keep = |x: CardId| printed(c, x).cost == cost;
        let none = Seq::<CardId>::empty();
        lemma_fill_curve_is(c, p, format, 0, none, cost);
        let start = super::fill_curve(c, p, super::wanted(format), 0, none);
        assert(super::fill_curve(c, p, super::wanted(format), 0, seq![]) == start);
        lemma_fill_up_extends(c, p, DECK_SIZE as nat, start);
        let rest = deck.skip(start.len() as int);
        assert(deck =~= start + rest);
        Seq::filter_distributes_over_add(start, rest, keep);
        assert(of_cost(c, none, cost) =~= none) by {
            reveal(Seq::filter);
        }
        let piece = slice(c, p, format, cost);
        assert(of_cost(c, start, cost) =~= piece);
        let got = of_cost(c, deck, cost);
        assert(got =~= piece + of_cost(c, rest, cost));
        let there = super::all_copies(c, of_cost(c, p, cost));
        assert(got.take(piece.len() as int) =~= piece);
        assert(there.take(piece.len() as int) =~= piece);
    }
}

proof fn lemma_all_copies_sorted(c: Corpus, p: Seq<CardId>)
    requires
        forall|i: int, j: int| 0 <= i <= j < p.len() ==> not_after(c, #[trigger] p[i], #[trigger] p[j]),
    ensures
        ({
            let all = super::all_copies(c, p);
            &&& forall|i: int, j: int|
                0 <= i <= j < all.len() ==> not_after(c, #[trigger] all[i], #[trigger] all[j])
            &&& forall|i: int| 0 <= i < all.len() ==> p.contains(#[trigger] all[i])
        }),
    decreases p.len(),
{
    if p.len() > 0 {
        let t = p.drop_first();
        assert forall|i: int, j: int| 0 <= i <= j < t.len() implies not_after(
            c,
            #[trigger] t[i],
            #[trigger] t[j],
        ) by {
            assert(not_after(c, p[i + 1], p[j + 1]));
        }
        lemma_all_copies_sorted(c, t);
        let first = super::repeated(p[0], c.def_of(p[0]).copies() as nat);
        let rest = super::all_copies(c, t);
        let all = first + rest;
        assert forall|i: int| 0 <= i < all.len() implies p.contains(#[trigger] all[i]) && not_after(
            c,
            p[0],
            all[i],
        ) by {
            if i < first.len() {
                assert(all[i] == p[0]);
                assert(not_after(c, p[0], p[0]));
            } else {
                assert(all[i] == rest[i - first.len()]);
                assert(t.contains(rest[i - first.len()]));
                let k = choose|k: int| 0 <= k < t.len() && t[k] == all[i];
                assert(p[k + 1] == all[i]);
                assert(not_after(c, p[0], p[k + 1]));
            }
        }
        assert forall|i: int, j: int| 0 <= i <= j < all.len() implies not_after(
            c,
            #[trigger] all[i],
            #[trigger] all[j],
        ) by {
            if i < first.len() {
                assert(all[i] == p[0]);
            } else {
                assert(all[i] == rest[i - first.len()] && all[j] == rest[j - first.len()]);
            }
        }
    }
}

/// The cheapest minions are the cheapest: each is a minion that can attack, of
/// the pool, and none that was left out, wholly or in a copy, comes before one
/// that was not.
pub proof fn lemma_nothing_cheaper_is_left_out(
    c: Corpus,
    class: Class,
    format: Formats,
    i: int,
    other: CardId,
)
    requires
        c.wf(),
        0 <= i < super::cheapest_cards(c, class, format).len(),
    ensures
        ({
            let deck = super::cheapest_cards(c, class, format);
            let d = printed(c, deck[i]);
            &&& d.collectible && d.kind == 0 && d.atk > 0 && may_play(d, class, format)
            &&& super::stock(c, super::fighters(c, class, format)).contains(other)
                && deck.to_multiset().count(other) < allowed(printed(c, other)) ==> not_after(
                c,
                deck[i],
                other,
            )
        }),
{
    let keep = |card: CardId| super::is_fighter(c.def_of(card));
    let pool = super::pool_of(c, class, format);
    let s = super::fighters(c, class, format);
    let st = super::stock(c, s);
    let p = super::by_cost(c, st);
    let whole = super::all_copies(c, p);
    let deck = super::cheapest_cards(c, class, format);
    lemma_pool_once(c, class, format);
    lemma_filter_once(pool, keep);
    lemma_stock(c, s);
    lemma_sorted_once(c, st);
    assert forall|a: int, b: int| 0 <= a <= b < p.len() implies not_after(
        c,
        #[trigger] p[a],
        #[trigger] p[b],
    ) by {
        lemma_sorted_by_cost(c, st, a, b, other);
    }
    lemma_all_copies_sorted(c, p);
    let x = deck[i];
    assert(x == whole[i]);
    assert(p.contains(x));
    lemma_counted(p, x);
    assert(super::count(st, x) > 0);
    assert(super::count(s, x) > 0);
    lemma_counted(s, x);
    let k = choose|k: int| 0 <= k < s.len() && s[k] == x;
    pool.lemma_filter_pred(keep, k);
    pool.lemma_filter_contains_rev(keep, x);
    lemma_pool(c, class, format, x, 0, 0);
    if st.contains(other) && super::count(deck, other) < allowed(printed(c, other)) {
        lemma_counted(st, other);
        assert(super::count(p, other) == super::count(st, other));
        lemma_all_copies(c, p, other);
        assert(super::count(whole, other) == allowed(printed(c, other)));
        assert(whole.len() > DECK_SIZE);
        let rest = whole.skip(DECK_SIZE as int);
        assert(whole =~= deck + rest);
        lemma_count_concat(deck, rest, other);
        lemma_counted(rest, other);
        let m = choose|m: int| 0 <= m < rest.len() && rest[m] == other;
        assert(whole[DECK_SIZE + m] == other);
        assert(not_after(c, whole[i], whole[DECK_SIZE + m]));
    }
}

/// The minions that can attack are all of the pool's.
pub proof fn lemma_fighters(c: Corpus, class: Class, format: Formats, card: CardId)
    requires
        c.wf(),
    ensures
        super::fighters(c, class, format).contains(card) <==> {
            let d = printed(c, card);
            &&& card.0 < c.tables.defs@.len()
            &&& d.collectible && d.kind == 0 && d.atk > 0 && may_play(d, class, format)
        },
{
    let keep = |card: CardId| super::is_fighter(c.def_of(card));
    let pool = super::pool_of(c, class, format);
    let s = super::fighters(c, class, format);
    lemma_pool(c, class, format, card, 0, 0);
    if pool.contains(card) && keep(card) {
        let k = choose|k: int| 0 <= k < pool.len() && pool[k] == card;
        pool.lemma_filter_contains(keep, k);
    }
    if s.contains(card) {
        let k = choose|k: int| 0 <= k < s.len() && s[k] == card;
        pool.lemma_filter_pred(keep, k);
        pool.lemma_filter_contains_rev(keep, card);
    }
}

// ------------------------------------------------------------------- slots

/// One name more asks for its copies more; no names ask for none.
pub proof fn lemma_asked(cards: Seq<(&str, u32)>, name: &str, n: u32)
    ensures
        super::asked(Seq::<(&str, u32)>::empty()) == 0,
        super::asked(cards.push((name, n))) == super::asked(cards) + n,
{
    assert(cards.push((name, n)).drop_last() =~= cards);
}

/// Every copy that was asked for is covered or missing, and none is both.
pub proof fn lemma_slots_add_up(c: Corpus, cards: Seq<(&str, u32)>)
    ensures
        super::asked(cards) == super::asked(
            cards.filter(|s: (&str, u32)| super::covered(c, s.0@)),
        ) + super::asked(cards.filter(|s: (&str, u32)| !super::covered(c, s.0@))),
    decreases cards.len(),
{
    reveal(Seq::filter);
    let yes = |s: (&str, u32)| super::covered(c, s.0@);
    let no = |s: (&str, u32)| !super::covered(c, s.0@);
    if cards.len() > 0 {
        let t = cards.drop_last();
        lemma_slots_add_up(c, t);
        let x = cards.last();
        assert(t.filter(yes).push(x).drop_last() =~= t.filter(yes));
        assert(t.filter(no).push(x).drop_last() =~= t.filter(no));
    }
}

/// A name is covered exactly where it means a card that the engine
/// understands.
pub proof fn lemma_covered(c: Corpus, name: Seq<char>, card: CardId)
    requires
        c.wf(),
        c.has(card),
        crate::cards::lookup::means(c, name, card),
    ensures
        super::covered(c, name) <==> {
            ||| crate::cards::behaviour::laws::has_row(c, card)
            ||| crate::cards::behaviour::laws::known_by_identity(c, card)
            ||| crate::cards::behaviour::laws::says_it_all(printed(c, card))
        },
{
    if crate::cards::behaviour::laws::has_row(c, card)
        || crate::cards::behaviour::laws::known_by_identity(c, card)
        || crate::cards::behaviour::laws::says_it_all(printed(c, card)) {
        crate::cards::behaviour::laws::lemma_read_text_is_implemented(c, card);
    } else {
        crate::cards::behaviour::laws::lemma_unread_text_is_not_implemented(c, card);
        if super::covered(c, name) {
            let other = choose|other: CardId|
                c.has(other) && #[trigger] crate::cards::lookup::means(c, name, other)
                    && crate::cards::behaviour::implemented(c, other);
            let t = c.tables;
            let i = choose|i: int|
                0 <= i < t.by_name@.len() && (#[trigger] t.by_name@[i]).0@ == name && t.by_name@[i].1
                    == card.0;
            assert(t.name_entry_ok(i));
            crate::cards::lookup::lemma_means(c, name, other, card);
        }
    }
}

/// A name that no card has is not covered.
pub proof fn lemma_unknown_name_is_not_covered(c: Corpus, name: Seq<char>)
    requires
        c.wf(),
        forall|j: int| 0 <= j < c.tables.info@.len() ==> (#[trigger] c.tables.info@[j]).name@ != name,
    ensures
        !super::covered(c, name),
{
    if super::covered(c, name) {
        let card = choose|card: CardId|
            c.has(card) && #[trigger] crate::cards::lookup::means(c, name, card)
                && crate::cards::behaviour::implemented(c, card);
        let t = c.tables;
        let i = choose|i: int|
            0 <= i < t.by_name@.len() && (#[trigger] t.by_name@[i]).0@ == name && t.by_name@[i].1
                == card.0;
        assert(t.name_entry_ok(i));
        assert(t.info@[card.0 as int].name@ == name);
    }
}

/// What is reported missing is every name that is not covered, with the copies
/// that were asked for, in order.
pub proof fn lemma_missing(cards: Seq<(&str, u32)>, i: int)
    requires
        0 <= i < cards.len(),
    ensures
        super::named_copies(cards).len() == cards.len(),
        super::named_copies(cards)[i] == (cards[i].0@, cards[i].1),
{
}

} // verus!
