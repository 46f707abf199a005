//! What holds of the cards as a whole.

use vstd::prelude::*;

use super::corpus::Corpus;
use super::effects::Wanted;
use super::hooks::Aura;
use super::lists::{LEFT_HALVES, SHATTERS};
use super::types::{CardId, Formats};
use crate::state::{Game, GameView, Permanent, Side};

verus! {

proof fn lemma_left_halves_distinct(i: int, j: int)
    requires
        0 <= i < LEFT_HALVES@.len(),
        0 <= j < LEFT_HALVES@.len(),
        LEFT_HALVES@[i]@ == LEFT_HALVES@[j]@,
    ensures
        i == j,
{
    reveal_strlit("CATA_820t");
    reveal_strlit("CATA_306t1");
    reveal_strlit("CATA_479t");
    assert(LEFT_HALVES@[0]@[5] == '8');
    assert(LEFT_HALVES@[1]@[5] == '3');
    assert(LEFT_HALVES@[2]@[5] == '4');
}

/// The two halves a card shatters into recombine into that card and no other.
pub proof fn lemma_shattered_recombines(
    c: Corpus,
    card: CardId,
    left: CardId,
    right: CardId,
    whole: CardId,
    i: int,
    j: int,
)
    requires
        c.wf(),
        c.has(card),
        c.has(whole),
        super::behaviour::listed_at(c, SHATTERS@, card, i),
        super::behaviour::halves_at(c, left, right, i),
        super::behaviour::halves_at(c, left, right, j),
        super::behaviour::listed_at(c, SHATTERS@, whole, j),
    ensures
        whole == card,
{
    lemma_left_halves_distinct(i, j);
    super::lookup::lemma_same_id(c, whole, card);
}

/// Two parts combine in either order or in none.
pub proof fn lemma_combines_either_way(c: Corpus, left: CardId, right: CardId, i: int)
    ensures
        super::behaviour::parts_at(c, left, right, i) == super::behaviour::parts_at(c, right, left, i),
{
}

/// Every card that is legal in Standard is legal in Wild.
pub proof fn lemma_standard_is_wild(c: Corpus, card: CardId)
    requires
        c.wf(),
        c.has(card),
    ensures
        c.def_of(card).formats.includes(Formats(Formats::STANDARD)) ==> c.def_of(
            card,
        ).formats.includes(Formats(Formats::WILD)),
{
    assert(c.tables.standard_is_wild(card.0 as int));
}

/// No aura reaches its own source or the other side.
pub proof fn lemma_auras_reach_friends(a: Aura, side: Side, slot: u8, other: u8, m: Permanent)
    ensures
        a.worth(side, slot, side, slot, m) == (0i16, 0i16),
        a.worth(side, slot, side.opponent(), other, m) == (0i16, 0i16),
{
}

/// A card whose name has a row is implemented in every printing.
pub proof fn lemma_printings_are_implemented(c: Corpus, a: CardId, b: CardId)
    requires
        c.wf(),
        c.has(a),
        c.has(b),
        c.name_of(a) == c.name_of(b),
        super::behaviour::row_of(c, a) is Some,
    ensures
        super::behaviour::implemented(c, b),
{
    super::behaviour::lemma_printings_share_a_row(c, a, b);
}

/// What a Discover offers is collectible, can go in a deck, and is understood
/// by the engine, whatever it asks for.
pub proof fn lemma_discover_offers(c: Corpus, marks: Seq<bool>, card: CardId)
    requires
        marks.len() == super::behaviour::discover_base(c).len(),
        super::behaviour::marked(super::behaviour::discover_base(c), marks).contains(card),
    ensures
        super::behaviour::discoverable(c, card),
{
    let base = super::behaviour::discover_base(c);
    lemma_marked_is_listed(base, marks, card);
    let i = choose|i: int| 0 <= i < base.len() && base[i] == card;
    c.ids().lemma_filter_pred(|card: CardId| super::behaviour::discoverable(c, card), i);
}

proof fn lemma_marked_is_listed(list: Seq<CardId>, marks: Seq<bool>, card: CardId)
    requires
        marks.len() == list.len(),
        super::behaviour::marked(list, marks).contains(card),
    ensures
        list.contains(card),
    decreases list.len(),
{
    if list.len() > 0 {
        let rest = super::behaviour::marked(list.drop_last(), marks.drop_last());
        if rest.contains(card) {
            lemma_marked_is_listed(list.drop_last(), marks.drop_last(), card);
            let i = choose|i: int| 0 <= i < list.drop_last().len() && list.drop_last()[i] == card;
            assert(list[i] == card);
        } else {
            let m = super::behaviour::marked(list, marks);
            let k = choose|k: int| 0 <= k < m.len() && m[k] == card;
            if k < rest.len() {
                assert(rest[k] == card);
            }
            assert(list[list.len() - 1] == card);
        }
    }
}

/// A handing out that heeds what is wanted: what arrives is the last card in
/// hand, and one of those asked for.
pub open spec fn heeds<A: Fn(Game, Side, Wanted) -> (Game, bool)>(c: Corpus, hand_out: A) -> bool {
    forall|g: Game, side: Side, wanted: Wanted, h: Game| #[trigger]
        hand_out.ensures((g, side, wanted), (h, true)) ==> h@.player(side).hand.len() > 0
            && wanted.accepts(c.def_of(h@.player(side).hand.last().card))
}

/// Where what is wanted is heeded, Triennium Rex pays out a minion with a
/// Deathrattle that costs two less than it came for, or nothing.
pub proof fn lemma_rex_pays_a_deathrattle_minion<A: Fn(Game, Side, Wanted) -> (Game, bool)>(
    c: Corpus,
    hand_out: A,
    g: Game,
    side: Side,
    out: GameView,
)
    requires
        heeds(c, hand_out),
        super::effects::rex_paid(hand_out, g, side, out),
        forall|h: Game| #[trigger]
            hand_out.ensures((g, side, super::effects::rattles()), (h, true)) ==> h@.player(
                side,
            ).hand.last().cost_delta >= i16::MIN + 2,
    ensures
        exists|h: Game, added: bool|
            {
                &&& #[trigger] hand_out.ensures((g, side, super::effects::rattles()), (h, added))
                &&& !added ==> out == h@
                &&& added ==> {
                    let came = h@.player(side).hand.last();
                    let kept = out.player(side).hand.last();
                    &&& out.player(side).hand.len() == h@.player(side).hand.len()
                    &&& kept.card == came.card
                    &&& kept.cost_delta == came.cost_delta - 2
                    &&& super::effects::has_rattle(c.def_of(kept.card))
                }
            },
{
    let (h, added) = choose|h: Game, added: bool|
        #[trigger] hand_out.ensures((g, side, super::effects::rattles()), (h, added)) && out
            == if added && h@.player(side).hand.len() > 0 {
            h@.with_player(side, super::effects::cheaper_last(h@.player(side), 2))
        } else {
            h@
        };
    assert(hand_out.ensures((g, side, super::effects::rattles()), (h, added)));
}

} // verus!
