//! Where the cards are: the ids of the cards in every pile of a game, counted with
//! their multiplicity, so that moving a card from one pile to another keeps them.
use vstd::prelude::*;
use vstd::multiset::Multiset;

use crate::card::{Card, Id, Points, Suit};
use crate::controller::discards_through;
use crate::game::{cards_from, first_id_or_zero, has_id, is_first_id, jokers_as, trick_cards, turned, Game};
use crate::hand::{face_down_first, joker_as, lemma_map_permutation, lemma_sorted_hand, sorted_hand};

verus! {

broadcast use vstd::seq_lib::group_to_multiset_ensures, vstd::multiset::group_multiset_axioms;

/// The ids of the cards of `s`.
pub open spec fn ids_of(s: Seq<Card>) -> Multiset<Id> {
    s.map_values(|c: Card| c.id).to_multiset()
}

/// The ids of the cards of a list of hands.
pub open spec fn lists_ids(hs: Seq<Vec<Card>>) -> Multiset<Id>
    decreases hs.len(),
{
    if hs.len() == 0 {
        Multiset::empty()
    } else {
        lists_ids(hs.drop_last()).add(ids_of(hs.last()@))
    }
}

/// The id of the card in a slot of the trick, if any.
pub open spec fn slot_id(o: Option<Card>) -> Multiset<Id> {
    match o {
        Some(c) => Multiset::singleton(c.id),
        None => Multiset::empty(),
    }
}

/// The ids of the cards played to a trick.
pub open spec fn slot_ids(cards: Seq<Option<Card>>) -> Multiset<Id>
    decreases cards.len(),
{
    if cards.len() == 0 {
        Multiset::empty()
    } else {
        slot_ids(cards.drop_last()).add(slot_id(cards.last()))
    }
}

/// The ids of every card of the game: in the deck, the exchange, the nest, the hands,
/// the cards taken and the trick.
pub open spec fn game_ids(g: Game) -> Multiset<Id> {
    ids_of(g.deck@).add(ids_of(g.exchange@)).add(ids_of(g.nest@)).add(lists_ids(g.hands@)).add(
        lists_ids(g.taken@),
    ).add(slot_ids(g.trick.cards@))
}

/// Adding a card adds its id.
pub proof fn lemma_ids_push(s: Seq<Card>, c: Card)
    ensures
        ids_of(s.push(c)) == ids_of(s).insert(c.id),
{
    assert(s.push(c).map_values(|c: Card| c.id) =~= s.map_values(|c: Card| c.id).push(c.id));
}

/// The ids of a sequence are those without its last card and the last card's id.
pub proof fn lemma_ids_drop_last(s: Seq<Card>)
    requires
        s.len() > 0,
    ensures
        ids_of(s) == ids_of(s.drop_last()).insert(s.last().id),
{
    assert(s == s.drop_last().push(s.last()));
    lemma_ids_push(s.drop_last(), s.last());
}

/// The ids of two sequences in a row are the ids of each.
pub proof fn lemma_ids_concat(a: Seq<Card>, b: Seq<Card>)
    ensures
        ids_of(a + b) == ids_of(a).add(ids_of(b)),
{
    assert((a + b).map_values(|c: Card| c.id) =~= a.map_values(|c: Card| c.id) + b.map_values(|c: Card| c.id));
    vstd::seq_lib::lemma_multiset_commutative(a.map_values(|c: Card| c.id), b.map_values(|c: Card| c.id));
}

/// Removing a card removes its id.
pub proof fn lemma_ids_remove(s: Seq<Card>, i: int)
    requires
        0 <= i < s.len(),
    ensures
        ids_of(s) == ids_of(s.remove(i)).insert(s[i].id),
{
    let m = s.map_values(|c: Card| c.id);
    assert(s.remove(i).map_values(|c: Card| c.id) =~= m.remove(i));
    assert(m[i] == s[i].id);
    assert(m.to_multiset().count(s[i].id) > 0) by {
        assert(m.contains(m[i]));
    }
}

/// Two orderings of the same cards have the same ids.
pub proof fn lemma_ids_perm(a: Seq<Card>, b: Seq<Card>)
    requires
        a.to_multiset() == b.to_multiset(),
    ensures
        ids_of(a) == ids_of(b),
{
    lemma_map_permutation(a, b, |c: Card| c.id);
}

/// Changing cards without changing their ids keeps the ids.
pub proof fn lemma_ids_same(a: Seq<Card>, b: Seq<Card>)
    requires
        a.len() == b.len(),
        forall|i: int| 0 <= i < a.len() ==> (#[trigger] a[i]).id == b[i].id,
    ensures
        ids_of(a) == ids_of(b),
{
    assert(a.map_values(|c: Card| c.id) =~= b.map_values(|c: Card| c.id));
}

/// Sorting keeps the ids.
pub proof fn lemma_ids_sorted(s: Seq<Card>)
    ensures
        ids_of(sorted_hand(s)) == ids_of(s),
{
    lemma_sorted_hand(s);
    lemma_ids_perm(sorted_hand(s), s);
}

/// Reversing keeps the ids.
pub proof fn lemma_ids_reverse(s: Seq<Card>)
    ensures
        ids_of(s.reverse()) == ids_of(s),
{
    s.lemma_reverse_to_multiset();
    lemma_ids_perm(s.reverse(), s);
}

/// The face-down cards followed by the face-up ones are the same cards.
pub proof fn lemma_face_down_first_perm(s: Seq<Card>)
    ensures
        face_down_first(s).to_multiset() == s.to_multiset(),
    decreases s.len(),
{
    let down = |c: Card| !c.face_up;
    let up = |c: Card| c.face_up;
    if s.len() == 0 {
        assert(face_down_first(s) =~= s);
    } else {
        let s0 = s.drop_last();
        let x = s.last();
        lemma_face_down_first_perm(s0);
        assert(s == s0.push(x));
        s0.lemma_filter_push(x, down);
        s0.lemma_filter_push(x, up);
        vstd::seq_lib::lemma_multiset_commutative(s0.filter(down), s0.filter(up));
        if x.face_up {
            assert(face_down_first(s) =~= face_down_first(s0).push(x));
        } else {
            vstd::seq_lib::lemma_multiset_commutative(s0.filter(down).push(x), s0.filter(up));
            vstd::seq_lib::lemma_multiset_commutative(s0.filter(down), s0.filter(up));
        }
    }
}

/// Replacing a hand of a list swaps its ids for the new hand's.
pub proof fn lemma_lists_update(hs: Seq<Vec<Card>>, i: int, v: Vec<Card>)
    requires
        0 <= i < hs.len(),
    ensures
        lists_ids(hs.update(i, v)).add(ids_of(hs[i]@)) == lists_ids(hs).add(ids_of(v@)),
    decreases hs.len(),
{
    let u = hs.update(i, v);
    if i == hs.len() - 1 {
        assert(u.drop_last() =~= hs.drop_last());
        assert(lists_ids(u).add(ids_of(hs[i]@)) =~= lists_ids(hs).add(ids_of(v@)));
    } else {
        lemma_lists_update(hs.drop_last(), i, v);
        assert(u.drop_last() =~= hs.drop_last().update(i, v));
        assert(u.last() == hs.last());
        assert(hs[i] == hs.drop_last()[i]);
        let a = lists_ids(hs.drop_last().update(i, v));
        let b = ids_of(hs.last()@);
        assert(lists_ids(u) == a.add(b));
        assert(lists_ids(hs) == lists_ids(hs.drop_last()).add(b));
        assert(a.add(ids_of(hs[i]@)) == lists_ids(hs.drop_last()).add(ids_of(v@)));
        assert forall|x: Id| #[trigger] lists_ids(u).add(ids_of(hs[i]@)).count(x) == lists_ids(hs).add(ids_of(v@)).count(x) by {
            assert(a.add(ids_of(hs[i]@)).count(x) == lists_ids(hs.drop_last()).add(ids_of(v@)).count(x));
        }
        assert(lists_ids(u).add(ids_of(hs[i]@)) =~= lists_ids(hs).add(ids_of(v@)));
    }
}

/// Lists whose hands hold the same ids, hand by hand, hold the same ids.
pub proof fn lemma_lists_same(a: Seq<Vec<Card>>, b: Seq<Vec<Card>>)
    requires
        a.len() == b.len(),
        forall|i: int| 0 <= i < a.len() ==> ids_of((#[trigger] a[i])@) == ids_of(b[i]@),
    ensures
        lists_ids(a) == lists_ids(b),
    decreases a.len(),
{
    if a.len() > 0 {
        lemma_lists_same(a.drop_last(), b.drop_last());
    }
}

/// Empty hands hold no ids.
pub proof fn lemma_lists_empty(hs: Seq<Vec<Card>>)
    requires
        forall|i: int| 0 <= i < hs.len() ==> (#[trigger] hs[i])@.len() == 0,
    ensures
        lists_ids(hs) == Multiset::<Id>::empty(),
    decreases hs.len(),
{
    if hs.len() > 0 {
        lemma_lists_empty(hs.drop_last());
        assert(hs.last()@.map_values(|c: Card| c.id) =~= Seq::<Id>::empty());
    }
}

/// The ids of the hands are the ids of all their cards in a row.
pub proof fn lemma_lists_flatten(hs: Seq<Vec<Card>>)
    ensures
        lists_ids(hs) == ids_of(hs.map_values(|v: Vec<Card>| v@).flatten_alt()),
    decreases hs.len(),
{
    let f = |v: Vec<Card>| v@;
    if hs.len() == 0 {
        assert(hs.map_values(f).flatten_alt() =~= Seq::<Card>::empty());
    } else {
        let h0 = hs.drop_last();
        lemma_lists_flatten(h0);
        assert(hs.map_values(f).drop_last() =~= h0.map_values(f));
        assert(hs.map_values(f).last() == hs.last()@);
        lemma_ids_concat(h0.map_values(f).flatten_alt(), hs.last()@);
    }
}

/// Playing a card to an empty slot adds its id.
pub proof fn lemma_slots_fill(cards: Seq<Option<Card>>, i: int, c: Card)
    requires
        0 <= i < cards.len(),
        cards[i].is_none(),
    ensures
        slot_ids(cards.update(i, Some(c))) == slot_ids(cards).insert(c.id),
    decreases cards.len(),
{
    let u = cards.update(i, Some(c));
    if i == cards.len() - 1 {
        assert(u.drop_last() =~= cards.drop_last());
    } else {
        lemma_slots_fill(cards.drop_last(), i, c);
        assert(u.drop_last() =~= cards.drop_last().update(i, Some(c)));
    }
}

/// An empty trick holds no ids.
pub proof fn lemma_slots_empty(cards: Seq<Option<Card>>)
    requires
        forall|i: int| 0 <= i < cards.len() ==> (#[trigger] cards[i]).is_none(),
    ensures
        slot_ids(cards) == Multiset::<Id>::empty(),
    decreases cards.len(),
{
    if cards.len() > 0 {
        lemma_slots_empty(cards.drop_last());
    }
}

/// The cards of a complete trick, turned face down, have the trick's ids.
pub proof fn lemma_slots_complete(cards: Seq<Option<Card>>)
    requires
        forall|i: int| 0 <= i < cards.len() ==> (#[trigger] cards[i]).is_some(),
    ensures
        slot_ids(cards) == ids_of(cards.map_values(|o: Option<Card>| Card { face_up: false, ..o->0 })),
    decreases cards.len(),
{
    let f = |o: Option<Card>| Card { face_up: false, ..o->0 };
    if cards.len() == 0 {
        assert(cards.map_values(f) =~= Seq::<Card>::empty());
    } else {
        let c0 = cards.drop_last();
        lemma_slots_complete(c0);
        assert(cards.map_values(f) =~= c0.map_values(f).push(f(cards.last())));
        lemma_ids_push(c0.map_values(f), f(cards.last()));
    }
}


/// No cards, no ids.
pub proof fn lemma_ids_empty(s: Seq<Card>)
    requires
        s.len() == 0,
    ensures
        ids_of(s) == Multiset::<Id>::empty(),
{
    assert(s.map_values(|c: Card| c.id) =~= Seq::<Id>::empty());
}

/// Replacing one hand of a list changes the list's ids by the change in that hand.
pub proof fn lemma_lists_replace(hs0: Seq<Vec<Card>>, hs1: Seq<Vec<Card>>, i: int)
    requires
        0 <= i < hs0.len(),
        hs1.len() == hs0.len(),
        forall|q: int| 0 <= q < hs0.len() && q != i ==> #[trigger] hs1[q] == hs0[q],
    ensures
        forall|x: Id| #[trigger] lists_ids(hs1).count(x) + ids_of(hs0[i]@).count(x)
            == lists_ids(hs0).count(x) + ids_of(hs1[i]@).count(x),
{
    assert(hs1 =~= hs0.update(i, hs1[i]));
    lemma_lists_update(hs0, i, hs1[i]);
    assert forall|x: Id| #[trigger] lists_ids(hs1).count(x) + ids_of(hs0[i]@).count(x)
        == lists_ids(hs0).count(x) + ids_of(hs1[i]@).count(x) by {
        assert(lists_ids(hs1).add(ids_of(hs0[i]@)).count(x) == lists_ids(hs0).add(ids_of(hs1[i]@)).count(x));
    }
}

/// Dealing a card to a hand adds its id to the hand.
proof fn lemma_hand_after_deal_ids(g: Game, p: int, c: Card)
    ensures
        ids_of(g.hand_after_deal(p, c)) == ids_of(g.hand(p)).insert(c.id),
{
    let shown = Card { face_up: !g.bot_players@[p] || crate::game::DEBUGGING, ..c };
    lemma_ids_push(g.hand(p), shown);
    lemma_ids_sorted(g.hand(p).push(shown));
}

/// Every card of the game stays in it when a card is dealt to the active hand.
pub proof fn lemma_deal_to_hand_keeps(g0: Game, g1: Game)
    requires
        g0.wf(),
        g0.deck@.len() > 0,
        Game::deal_card_to_hand_post(g0, g1),
    ensures
        game_ids(g1) == game_ids(g0),
{
    let a = g0.active as int;
    let c = g0.deck@.last();
    lemma_ids_drop_last(g0.deck@);
    lemma_hand_after_deal_ids(g0, a, c);
    lemma_lists_replace(g0.hands@, g1.hands@, a);
    assert(game_ids(g1) =~= game_ids(g0));
}

/// Every card of the game stays in it when a card is dealt to the exchange.
pub proof fn lemma_deal_to_exchange_keeps(g0: Game, g1: Game)
    requires
        g0.deck@.len() > 0,
        Game::deal_card_to_exchange_post(g0, g1),
    ensures
        game_ids(g1) == game_ids(g0),
{
    let c = g0.deck@.last();
    lemma_ids_drop_last(g0.deck@);
    lemma_ids_push(g0.exchange@, c);
    lemma_ids_push(g0.exchange@, Card { face_up: true, ..c });
    assert(game_ids(g1) =~= game_ids(g0));
}

/// Every card of the game stays in it when a card is dealt to the nest.
pub proof fn lemma_deal_to_nest_keeps(g0: Game, g1: Game)
    requires
        g0.deck@.len() > 0,
        Game::deal_card_to_nest_post(g0, g1),
    ensures
        game_ids(g1) == game_ids(g0),
{
    let c = g0.deck@.last();
    lemma_ids_drop_last(g0.deck@);
    lemma_ids_push(g0.nest@, c);
    lemma_ids_push(g0.nest@, Card { face_up: true, ..c });
    assert(game_ids(g1) =~= game_ids(g0));
}

/// Turning or marking cards keeps their ids.
proof fn lemma_ids_map_keeps(s: Seq<Card>, f: spec_fn(Card) -> Card)
    requires
        forall|c: Card| #[trigger] f(c).id == c.id,
    ensures
        ids_of(s.map_values(f)) == ids_of(s),
{
    assert forall|i: int| 0 <= i < s.len() implies (#[trigger] s.map_values(f)[i]).id == s[i].id by {
        assert(f(s[i]).id == s[i].id);
    }
    lemma_ids_same(s.map_values(f), s);
}

/// Every card of the game stays in it when the exchange joins the maker's hand and
/// the discards are marked.
pub proof fn lemma_move_and_mark_keeps(g0: Game, gm: Game, g1: Game)
    requires
        g0.wf(),
        g0.maker.is_some(),
        Game::move_exchange_cards_to_maker_post(g0, gm),
        Game::mark_eligible_discards_post(gm, g1),
    ensures
        game_ids(g1) == game_ids(g0),
{
    let m = g0.maker->0 as int;
    let h = g0.hand(m);
    let e = turned(g0.exchange@.reverse(), !g0.bot_players@[m] || crate::game::DEBUGGING);
    lemma_ids_sorted(h + e);
    lemma_ids_concat(h, e);
    lemma_ids_map_keeps(g0.exchange@.reverse(), |c: Card| Card { face_up: !g0.bot_players@[m] || crate::game::DEBUGGING, ..c });
    lemma_ids_reverse(g0.exchange@);
    lemma_ids_empty(gm.exchange@);
    lemma_lists_replace(g0.hands@, gm.hands@, m);
    let hm = gm.hand(m);
    lemma_ids_map_keeps(hm, |c: Card| Card { eligible: gm.discard_eligible(hm, c), ..c });
    lemma_lists_replace(gm.hands@, g1.hands@, m);
    assert(game_ids(gm) =~= game_ids(g0));
    assert(game_ids(g1) =~= game_ids(gm));
}

/// Every card of the game stays in it when a card moves between the maker's hand and
/// the exchange.
pub proof fn lemma_swap_keeps(g0: Game, g1: Game, id: Id)
    requires
        g0.wf(),
        g0.maker.is_some(),
        Game::swap_with_exchange_post(g0, g1, id),
    ensures
        game_ids(g1) == game_ids(g0),
        g1.wf(),
        g1.maker == g0.maker,
{
    let m = g0.maker->0 as int;
    let h = g0.hand(m);
    let e = g0.exchange@;
    if g1 != g0 {
        if has_id(h, id) {
            let i = choose|i: int| {
                &&& #[trigger] is_first_id(h, id, i)
                &&& g1.hands@ =~= g0.hands@.update(m, g1.hands@[m])
                &&& g1.hand(m) =~= h.remove(i)
                &&& g1.exchange@ =~= e.push(h[i])
                &&& g1 == (Game { hands: g1.hands, exchange: g1.exchange, ..g0 })
            };
            lemma_ids_remove(h, i);
            lemma_ids_push(e, h[i]);
            lemma_lists_replace(g0.hands@, g1.hands@, m);
            assert(game_ids(g1) =~= game_ids(g0));
        } else {
            let i = choose|i: int| {
                &&& #[trigger] is_first_id(e, id, i)
                &&& g1.hands@ =~= g0.hands@.update(m, g1.hands@[m])
                &&& g1.hand(m) =~= sorted_hand(h.push(e[i]))
                &&& g1.exchange@ =~= e.remove(i)
                &&& g1 == (Game { hands: g1.hands, exchange: g1.exchange, ..g0 })
            };
            lemma_ids_remove(e, i);
            lemma_ids_push(h, e[i]);
            lemma_ids_sorted(h.push(e[i]));
            lemma_lists_replace(g0.hands@, g1.hands@, m);
            assert(game_ids(g1) =~= game_ids(g0));
        }
    }
}

/// Every card of the game stays in it through a run of discards.
pub proof fn lemma_discards_keep(states: Seq<Game>, ids: Seq<Id>, j: int)
    requires
        discards_through(states, ids),
        states[0].wf(),
        states[0].maker.is_some(),
        0 <= j < states.len(),
    ensures
        game_ids(states[j]) == game_ids(states[0]),
        states[j].wf(),
        states[j].maker == states[0].maker,
        states[j] == (Game { hands: states[j].hands, exchange: states[j].exchange, ..states[0] }),
    decreases j,
{
    if j > 0 {
        lemma_discards_keep(states, ids, j - 1);
        assert(Game::swap_with_exchange_post(states[j - 1], states[(j - 1) + 1], ids[j - 1]));
        lemma_swap_keeps(states[j - 1], states[j], ids[j - 1]);
    }
}

/// Every card of the game stays in it when the discards join the nest.
pub proof fn lemma_exchange_to_nest_keeps(g0: Game, gm: Game, g1: Game)
    requires
        Game::turn_exchange_cards_post(g0, gm),
        Game::add_exchange_cards_to_nest_post(gm, g1),
    ensures
        game_ids(g1) == game_ids(g0),
{
    lemma_ids_map_keeps(g0.exchange@, |c: Card| Card { face_up: g0.shows_discarded_points() && c.points > 0, ..c });
    let all = gm.nest@ + gm.exchange@.reverse();
    lemma_face_down_first_perm(all);
    lemma_ids_perm(face_down_first(all), all);
    lemma_ids_concat(gm.nest@, gm.exchange@.reverse());
    lemma_ids_reverse(gm.exchange@);
    lemma_ids_empty(g1.exchange@);
    assert(game_ids(gm) =~= game_ids(g0));
    assert(game_ids(g1) =~= game_ids(gm));
}

/// Setting jokers' suits keeps the cards' ids.
proof fn lemma_jokers_keep(s: Seq<Card>, suit: Suit)
    ensures
        ids_of(jokers_as(s, suit)) == ids_of(s),
{
    lemma_ids_map_keeps(s, |c: Card| joker_as(c, suit));
}

/// Every card of the game stays in it when the trump suit is named and the first
/// player set.
pub proof fn lemma_trump_keeps(g0: Game, g1: Game, suit: Suit)
    requires
        g0.wf(),
        Game::set_trump_suit_post(g0, g1, suit),
    ensures
        game_ids(g1) == game_ids(g0),
{
    let n = g0.hands@.len();
    assert forall|p: int| 0 <= p < n implies ids_of((#[trigger] g1.hands@[p])@) == ids_of(g0.hands@[p]@) by {
        lemma_jokers_keep(g0.hand(p), suit);
        lemma_ids_sorted(jokers_as(g0.hand(0), suit));
        lemma_ids_sorted(g0.hand(0));
        assert(g1.hand(p) == g1.hands@[p]@);
    }
    lemma_lists_same(g1.hands@, g0.hands@);
    lemma_jokers_keep(g0.exchange@, suit);
    lemma_jokers_keep(g0.nest@, suit);
    lemma_jokers_keep(g0.deck@, suit);
    assert(game_ids(g1) =~= game_ids(g0));
}

/// Every card of the game stays in it when the playable cards are marked.
pub proof fn lemma_mark_playable_keeps(g0: Game, g1: Game, r: Seq<Id>)
    requires
        g0.wf(),
        Game::get_playable_card_ids_post(g0, g1, r),
    ensures
        game_ids(g1) == game_ids(g0),
{
    let a = g0.active as int;
    lemma_ids_map_keeps(g0.hand(a), |c: Card| Card { eligible: g0.playable(c), ..c });
    lemma_lists_replace(g0.hands@, g1.hands@, a);
    assert(game_ids(g1) =~= game_ids(g0));
}

/// Every card of the game stays in it when a card is played to an empty slot of the
/// trick.
pub proof fn lemma_play_keeps(g0: Game, g1: Game, id: Id)
    requires
        g0.wf(),
        g0.hand(g0.active as int).len() > 0,
        g0.trick.cards@[g0.active as int].is_none(),
        Game::play_card_id_post(g0, g1, id),
    ensures
        game_ids(g1) == game_ids(g0),
{
    let a = g0.active as int;
    let h = g0.hand(a);
    let i = first_id_or_zero(h, id);
    if has_id(h, id) {
        crate::simulation::lemma_first_exists(h, id);
    }
    assert(0 <= i < h.len());
    lemma_ids_remove(h, i);
    lemma_lists_replace(g0.hands@, g1.hands@, a);
    lemma_slots_fill(g0.trick.cards@, a, Card { face_up: true, ..h[i] });
    assert(game_ids(g1) =~= game_ids(g0));
}

/// Every card of the game stays in it when a complete trick is taken and the next one
/// begins.
pub proof fn lemma_award_keeps(g0: Game, g1: Game)
    requires
        g0.wf(),
        g0.trick.is_complete(),
        g0.trick.winner.is_some(),
        Game::award_trick_post(g0, g1),
    ensures
        game_ids(g1) == game_ids(g0),
        g1.trick.is_empty(),
{
    let w = g0.trick.winner->0 as int;
    assert forall|i: int| 0 <= i < g0.trick.cards@.len() implies (#[trigger] g0.trick.cards@[i]).is_some() by {}
    lemma_slots_complete(g0.trick.cards@);
    lemma_slots_empty(g1.trick.cards@);
    lemma_ids_concat(g0.taken@[w]@, trick_cards(g0.trick));
    lemma_lists_replace(g0.taken@, g1.taken@, w);
    assert(game_ids(g1) =~= game_ids(g0));
}

/// Clearing an empty trick keeps every card of the game.
pub proof fn lemma_next_trick_keeps(g0: Game, g1: Game)
    requires
        g0.trick.is_empty(),
        Game::reset_for_next_trick_post(g0, g1),
    ensures
        game_ids(g1) == game_ids(g0),
{
    lemma_slots_empty(g0.trick.cards@);
    lemma_slots_empty(g1.trick.cards@);
    assert(game_ids(g1) =~= game_ids(g0));
}

/// Turning the nest face up keeps every card of the game.
pub proof fn lemma_award_nest_keeps(g0: Game, g1: Game, points: Points)
    requires
        Game::award_nest_cards_post(g0, g1, points),
    ensures
        game_ids(g1) == game_ids(g0),
{
    lemma_ids_map_keeps(g0.nest@, |c: Card| Card { face_up: true, ..c });
    assert(game_ids(g1) =~= game_ids(g0));
}

/// A new hand gathers the cards taken and the nest into the deck; with no card left in
/// the trick, every card of the game stays in it.
pub proof fn lemma_new_hand_keeps(g0: Game, g1: Game)
    requires
        g0.wf(),
        g0.trick.is_empty(),
        Game::reset_for_new_hand_post(g0, g1),
    ensures
        game_ids(g1) == game_ids(g0),
{
    let f = |v: Vec<Card>| v@;
    let tk = g0.taken@.map_values(f);
    let all = g0.gathered();
    tk.lemma_flatten_and_flatten_alt_are_equivalent();
    lemma_lists_flatten(g0.taken@);
    lemma_ids_concat(g0.deck@, tk.flatten());
    lemma_ids_concat(g0.deck@ + tk.flatten(), g0.nest@);
    lemma_ids_map_keeps(all, |c: Card| Card { face_up: false, ..c });
    lemma_jokers_keep(turned(all, false), Suit::Joker);
    lemma_ids_perm(g1.deck@, jokers_as(turned(all, false), Suit::Joker));
    lemma_ids_empty(g1.nest@);
    assert forall|p: int| 0 <= p < g1.taken@.len() implies (#[trigger] g1.taken@[p])@.len() == 0 by {}
    lemma_lists_empty(g1.taken@);
    assert forall|p: int| 0 <= p < g1.hands@.len() implies ids_of((#[trigger] g1.hands@[p])@) == ids_of(g0.hands@[p]@) by {
        assert(g1.hand(p) == jokers_as(g0.hand(p), Suit::Joker));
        lemma_jokers_keep(g0.hand(p), Suit::Joker);
    }
    lemma_lists_same(g1.hands@, g0.hands@);
    lemma_jokers_keep(g0.exchange@, Suit::Joker);
    lemma_slots_empty(g0.trick.cards@);
    lemma_slots_empty(g1.trick.cards@);
    assert(game_ids(g1) =~= game_ids(g0));
}

/// Creating the deck adds the cards of the deck list, numbered from 0.
pub proof fn lemma_create_deck_adds(g0: Game, g1: Game)
    requires
        Game::create_deck_post(g0, g1),
    ensures
        game_ids(g1) == game_ids(g0).add(ids_of(cards_from(g0.options.cards_in_deck@))),
{
    lemma_ids_concat(g0.deck@, cards_from(g0.options.cards_in_deck@));
    assert(game_ids(g1) =~= game_ids(g0).add(ids_of(cards_from(g0.options.cards_in_deck@))));
}

} // verus!
