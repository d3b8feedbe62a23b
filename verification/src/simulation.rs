use vstd::prelude::*;
use vstd::multiset::Multiset;

use crate::card::{Card, Id, Points};
use crate::game::{fits, seat_after, sum_points, Game};
use crate::game_options::DefendersWin;
use crate::random::choice;
use crate::scoring::Scoring;
use crate::trick::Trick;

verus! {

/// Whether bounds `cap` on the points of a card and `lim` on the magnitude of a score
/// or option value leave room for every sum that playing out and scoring a hand
/// computes: both are non-negative and sixteen times `lim` fits in an `isize`.
pub open spec fn limits_fit(cap: int, lim: int) -> bool {
    &&& 0 <= cap
    &&& 0 <= lim
    &&& 16 * lim <= isize::MAX
}

/// Whether the total of `n` simulated scores, each at most eight times `lim` in
/// magnitude, fits in an `isize`.
pub open spec fn totals_fit(n: int, lim: int) -> bool {
    n * (8 * lim) <= isize::MAX
}

/// Whether a card is worth between 0 and `cap`.
pub open spec fn card_in_range(x: Card, cap: int) -> bool {
    0 <= x.points <= cap
}

/// Whether every card of `s` is in range.
pub open spec fn cards_in_range(s: Seq<Card>, cap: int) -> bool {
    forall|i: int| 0 <= i < s.len() ==> card_in_range(#[trigger] s[i], cap)
}

/// The number of cards in a list of hands.
pub open spec fn total_cards(hs: Seq<Vec<Card>>) -> int
    decreases hs.len(),
{
    if hs.len() == 0 {
        0
    } else {
        total_cards(hs.drop_last()) + hs.last()@.len()
    }
}

/// The number of cards played to a trick.
pub open spec fn played_count(cards: Seq<Option<Card>>) -> int
    decreases cards.len(),
{
    if cards.len() == 0 {
        0
    } else {
        played_count(cards.drop_last()) + (if cards.last().is_some() { 1int } else { 0 })
    }
}

/// Whether a value is at most `lim` in magnitude.
pub open spec fn small(x: int, lim: int) -> bool {
    -lim <= x <= lim
}

/// Whether the trick's winner is known once a suit is led or a card is played.
pub open spec fn trick_consistent(t: Trick) -> bool {
    (t.lead_suit.is_some() || !t.is_empty()) ==> t.winner.is_some()
}

/// Whether every card played to the trick is in range.
pub open spec fn trick_cards_in_range(t: Trick, cap: int) -> bool {
    forall|i: int| 0 <= i < t.cards@.len() ==> (#[trigger] t.cards@[i] matches Some(c) ==> card_in_range(c, cap))
}

/// Whether player `p` has played to the trick.
pub open spec fn filled(g: Game, p: int) -> bool {
    g.trick.cards@[p].is_some()
}

/// Whether the trick was played in turn: the players who have played are exactly the
/// ones just before the active player, as many as have played.
pub open spec fn in_turn(g: Game) -> bool {
    let n = g.options.players as int;
    let k = played_count(g.trick.cards@);
    forall|j: int| 0 <= j < n ==> (filled(g, #[trigger] seat_after(g.active as int, j, n)) <==> j >= n - k)
}

/// A player's cards, counting the card played to the trick.
pub open spec fn weight(g: Game, p: int) -> int {
    g.hand(p).len() + (if filled(g, p) { 1int } else { 0 })
}

/// Whether every player holds as many cards, counting the cards played to the trick.
pub open spec fn balanced(g: Game) -> bool {
    let n = g.options.players as int;
    forall|p: int, q: int| 0 <= p < n && 0 <= q < n ==> #[trigger] weight(g, p) == #[trigger] weight(g, q)
}

/// Whether the hand can be played out and scored without overflow, with cards worth at
/// most `cap` and values at most `lim` in magnitude (see `sim_base`): the trick was
/// played in turn and every player holds as many cards.
pub open spec fn sim_ready(g: Game, cap: int, lim: int) -> bool {
    &&& sim_base(g, cap, lim)
    &&& in_turn(g)
    &&& balanced(g)
}

/// Whether the hand can be played out from this state and `n` simulated scores added up
/// without overflow: some bounds on card points and on values hold (`sim_ready`) and
/// leave room for the total of `n` scores (`totals_fit`).
pub open spec fn sim_fits(g: Game, n: int) -> bool {
    exists|cap: int, lim: int| #[trigger] sim_ready(g, cap, lim) && totals_fit(n, lim)
}

/// Whether the game is within bounds `cap` and `lim` that fit (`limits_fit`): every
/// card in play is worth between 0 and `cap`, the nest's points, every score and option
/// value and the high bid are at most `lim` in magnitude, the points taken together
/// with `cap` for each card in hand are at most three times `lim`, and the trick counts
/// can count every trick left in a byte.
pub open spec fn sim_base(g: Game, cap: int, lim: int) -> bool {
    let s = g.scoring;
    let o = g.options;
    &&& g.wf()
    &&& g.maker.is_some()
    &&& trick_consistent(g.trick)
    &&& trick_cards_in_range(g.trick, cap)
    &&& forall|p: int| 0 <= p < g.hands@.len() ==> cards_in_range(#[trigger] g.hands@[p]@, cap)
    &&& cards_in_range(g.nest@, cap)
    &&& cards_in_range(g.deck@, cap)
    &&& sum_points(g.nest@) <= lim
    &&& limits_fit(cap, lim)
    &&& 0 <= g.trick.points
    &&& s.trick_count[0] + s.trick_count[1] + total_cards(g.hands@) + played_count(g.trick.cards@) <= u8::MAX
    &&& s.points_taken[0] >= -lim
    &&& s.points_taken[1] >= -lim
    &&& s.points_taken[0] + s.points_taken[1] + g.trick.points + cap * total_cards(g.hands@) <= 3 * lim
    &&& small(s.nest[0] as int, lim)
    &&& small(s.last_trick[0] as int, lim)
    &&& small(s.majority_bonus[0] as int, lim)
    &&& small(s.bid[0] as int, lim)
    &&& small(s.bonus[0] as int, lim)
    &&& small(s.game[0] as int, lim)
    &&& small(s.nest[1] as int, lim)
    &&& small(s.last_trick[1] as int, lim)
    &&& small(s.majority_bonus[1] as int, lim)
    &&& small(s.bid[1] as int, lim)
    &&& small(s.bonus[1] as int, lim)
    &&& small(s.game[1] as int, lim)
    &&& small(o.last_trick_pts as int, lim)
    &&& small(o.majority_of_tricks_pts as int, lim)
    &&& small(o.slam_bonus as int, lim)
    &&& small(o.max_bid as int, lim)
    &&& (o.defenders_win matches DefendersWin::PointsTaken(b) && small(b as int, lim))
    &&& small(g.high_bid as int, lim)
}

/// Changing one hand changes the card count by the change in its length.
pub proof fn lemma_total_cards_update(hs: Seq<Vec<Card>>, i: int, v: Vec<Card>)
    requires
        0 <= i < hs.len(),
    ensures
        total_cards(hs.update(i, v)) == total_cards(hs) - hs[i]@.len() + v@.len(),
    decreases hs.len(),
{
    let u = hs.update(i, v);
    if i == hs.len() - 1 {
        assert(u.drop_last() == hs.drop_last());
    } else {
        lemma_total_cards_update(hs.drop_last(), i, v);
        assert(u.drop_last() == hs.drop_last().update(i, v));
    }
}

/// Hand lists of equal lengths hold equally many cards.
pub proof fn lemma_total_cards_same_lengths(a: Seq<Vec<Card>>, b: Seq<Vec<Card>>)
    requires
        a.len() == b.len(),
        forall|i: int| 0 <= i < a.len() ==> (#[trigger] a[i])@.len() == b[i]@.len(),
    ensures
        total_cards(a) == total_cards(b),
    decreases a.len(),
{
    if a.len() > 0 {
        lemma_total_cards_same_lengths(a.drop_last(), b.drop_last());
    }
}

/// No hand holds more cards than all hands together.
pub proof fn lemma_total_cards_bounds(hs: Seq<Vec<Card>>, i: int)
    requires
        0 <= i < hs.len(),
    ensures
        hs[i]@.len() <= total_cards(hs),
        total_cards(hs) >= 0,
    decreases hs.len(),
{
    lemma_total_cards_nonneg(hs.drop_last());
    if i < hs.len() - 1 {
        lemma_total_cards_bounds(hs.drop_last(), i);
    }
}

/// A card count is not negative.
pub proof fn lemma_total_cards_nonneg(hs: Seq<Vec<Card>>)
    ensures
        total_cards(hs) >= 0,
    decreases hs.len(),
{
    if hs.len() > 0 {
        lemma_total_cards_nonneg(hs.drop_last());
    }
}

/// Playing into one slot of a trick raises its count by at most one.
pub proof fn lemma_played_count_update(cards: Seq<Option<Card>>, i: int, c: Card)
    requires
        0 <= i < cards.len(),
    ensures
        played_count(cards.update(i, Some(c))) <= played_count(cards) + 1,
        played_count(cards.update(i, Some(c))) >= 1,
    decreases cards.len(),
{
    let u = cards.update(i, Some(c));
    lemma_played_count_nonneg(cards.drop_last());
    if i == cards.len() - 1 {
        assert(u.drop_last() == cards.drop_last());
    } else {
        lemma_played_count_update(cards.drop_last(), i, c);
        assert(u.drop_last() == cards.drop_last().update(i, Some(c)));
    }
}

/// A played count is not negative.
pub proof fn lemma_played_count_nonneg(cards: Seq<Option<Card>>)
    ensures
        played_count(cards) >= 0,
    decreases cards.len(),
{
    if cards.len() > 0 {
        lemma_played_count_nonneg(cards.drop_last());
    }
}

/// A trick with no cards has a count of zero; a complete one has a count of its size.
pub proof fn lemma_played_count_extremes(cards: Seq<Option<Card>>)
    ensures
        (forall|i: int| 0 <= i < cards.len() ==> (#[trigger] cards[i]).is_none()) ==> played_count(cards) == 0,
        (forall|i: int| 0 <= i < cards.len() ==> (#[trigger] cards[i]).is_some()) ==> played_count(cards) == cards.len(),
    decreases cards.len(),
{
    if cards.len() > 0 {
        lemma_played_count_extremes(cards.drop_last());
    }
}

/// Cards worth at least 0 add up to at least 0.
pub proof fn lemma_sum_points_in_range(s: Seq<Card>, cap: int)
    requires
        cards_in_range(s, cap),
    ensures
        0 <= sum_points(s),
    decreases s.len(),
{
    if s.len() > 0 {
        assert(cards_in_range(s.drop_last(), cap));
        lemma_sum_points_in_range(s.drop_last(), cap);
        assert(card_in_range(s[s.len() - 1], cap));
    }
}

/// The count of played cards is at most the number of slots, and reaches it exactly
/// when every slot is filled.
pub proof fn lemma_played_count_full(cards: Seq<Option<Card>>)
    ensures
        played_count(cards) <= cards.len(),
        played_count(cards) == cards.len() <==> forall|i: int| 0 <= i < cards.len() ==> (#[trigger] cards[i]).is_some(),
    decreases cards.len(),
{
    if cards.len() > 0 {
        let c0 = cards.drop_last();
        lemma_played_count_full(c0);
        if played_count(cards) == cards.len() {
            assert forall|i: int| 0 <= i < cards.len() implies (#[trigger] cards[i]).is_some() by {
                if i < cards.len() - 1 {
                    assert(c0[i] == cards[i]);
                }
            }
        }
        if forall|i: int| 0 <= i < cards.len() ==> (#[trigger] cards[i]).is_some() {
            assert forall|i: int| 0 <= i < c0.len() implies (#[trigger] c0[i]).is_some() by {
                assert(cards[i].is_some());
            }
            assert(cards[cards.len() - 1].is_some());
        }
    }
}

/// Filling an empty slot raises the count by one.
pub proof fn lemma_played_count_fill(cards: Seq<Option<Card>>, i: int, c: Card)
    requires
        0 <= i < cards.len(),
        cards[i].is_none(),
    ensures
        played_count(cards.update(i, Some(c))) == played_count(cards) + 1,
    decreases cards.len(),
{
    let u = cards.update(i, Some(c));
    if i == cards.len() - 1 {
        assert(u.drop_last() == cards.drop_last());
    } else {
        lemma_played_count_fill(cards.drop_last(), i, c);
        assert(u.drop_last() == cards.drop_last().update(i, Some(c)));
    }
}

/// Seats counted from the next player are the seats counted one further from this one.
pub proof fn lemma_seat_shift(a: int, j: int, n: int)
    requires
        n >= 1,
        0 <= a < n,
        0 <= j,
    ensures
        seat_after((a + 1) % n, j, n) == seat_after(a, j + 1, n),
{
    vstd::arithmetic::div_mod::lemma_add_mod_noop(a + 1, j, n);
    vstd::arithmetic::div_mod::lemma_mod_twice(a + 1, n);
    vstd::arithmetic::div_mod::lemma_add_mod_noop((a + 1) % n, j, n);
}

/// Seats between one and `n - 1` places on are other seats; `0` and `n` places on is
/// the seat itself; every seat is in range.
pub proof fn lemma_seat_facts(a: int, m: int, n: int)
    requires
        n >= 1,
        0 <= a < n,
        0 <= m <= n,
    ensures
        0 <= seat_after(a, m, n) < n,
        (0 < m < n) ==> seat_after(a, m, n) != a,
        (m == 0 || m == n) ==> seat_after(a, m, n) == a,
{
    if a + m < n {
        vstd::arithmetic::div_mod::lemma_small_mod((a + m) as nat, n as nat);
    } else {
        vstd::arithmetic::div_mod::lemma_mod_sub_multiples_vanish(a + m, n);
        vstd::arithmetic::div_mod::lemma_small_mod((a + m - n) as nat, n as nat);
    }
}

/// In a trick played in turn that is not complete, the active player has not played.
pub proof fn lemma_active_free(g: Game)
    requires
        g.wf(),
        in_turn(g),
        !g.trick.is_complete(),
    ensures
        !filled(g, g.active as int),
        played_count(g.trick.cards@) < g.options.players,
{
    let n = g.options.players as int;
    lemma_played_count_full(g.trick.cards@);
    lemma_seat_facts(g.active as int, 0, n);
    assert(filled(g, seat_after(g.active as int, 0, n)) <==> 0 >= n - played_count(g.trick.cards@));
}

/// When the trick is complete, every player holds the same number of cards.
pub proof fn lemma_complete_balanced(g: Game, p: int, q: int)
    requires
        g.wf(),
        balanced(g),
        g.trick.is_complete(),
        0 <= p < g.options.players,
        0 <= q < g.options.players,
    ensures
        g.hand(p).len() == g.hand(q).len(),
{
    assert(weight(g, p) == weight(g, q));
    assert(filled(g, p) && filled(g, q));
}

/// A card with the id exists, so a first one does.
pub proof fn lemma_first_exists(s: Seq<Card>, id: Id)
    requires
        crate::game::has_id(s, id),
    ensures
        exists|i: int| crate::game::is_first_id(s, id, i),
    decreases s.len(),
{
    let t = s.drop_last();
    if crate::game::has_id(t, id) {
        lemma_first_exists(t, id);
        let i = choose|i: int| crate::game::is_first_id(t, id, i);
        assert forall|j: int| 0 <= j < i implies (#[trigger] s[j]).id != id by {
            assert(t[j] == s[j]);
        }
        assert(s[i] == t[i]);
        assert(crate::game::is_first_id(s, id, i));
    } else {
        let k = s.len() - 1;
        assert forall|j: int| 0 <= j < k implies (#[trigger] s[j]).id != id by {
            assert(t[j] == s[j]);
        }
        let w = choose|i: int| 0 <= i < s.len() && (#[trigger] s[i]).id == id;
        if w < k {
            assert(t[w].id == id);
        }
        assert(crate::game::is_first_id(s, id, k));
    }
}

/// A hand with a card has a playable card.
pub proof fn lemma_some_playable(g: Game)
    requires
        g.active < g.hands@.len(),
        g.hand(g.active as int).len() > 0,
    ensures
        g.hand(g.active as int).filter(|c: Card| g.playable(c)).len() > 0,
{
    let h = g.hand(g.active as int);
    let pred = |c: Card| g.playable(c);
    let k: int = if g.must_follow() {
        let lead = g.trick.lead_suit->0;
        choose|i: int| 0 <= i < h.len() && (#[trigger] h[i]).suit == lead
    } else {
        0
    };
    assert(pred(h[k]));
    assert(h.contains(h[k]));
    h.lemma_filter_contains_rev(pred, h[k]);
}

/// Marks the active player's playable cards and returns their ids, keeping the bounds.
pub fn mark_playable(sim: &mut Game, Ghost(cap): Ghost<int>, Ghost(lim): Ghost<int>) -> (ids: Vec<Id>)
    requires
        sim_ready(*old(sim), cap, lim),
    ensures
        sim_ready(*final(sim), cap, lim),
        ids@ == old(sim).hand(old(sim).active as int).filter(|c: Card| old(sim).playable(c)).map_values(|c: Card| c.id),
        old(sim).hand(old(sim).active as int).len() > 0 ==> ids@.len() > 0,
        final(sim).hand(old(sim).active as int) == old(sim).hand(old(sim).active as int).map_values(
            |c: Card| Card { eligible: old(sim).playable(c), ..c }),
        forall|q: int| 0 <= q < old(sim).hands@.len() && q != old(sim).active ==> #[trigger] final(sim).hands@[q] == old(sim).hands@[q],
        final(sim).hands@.len() == old(sim).hands@.len(),
        total_cards(final(sim).hands@) == total_cards(old(sim).hands@),
        *final(sim) == (Game { hands: final(sim).hands, ..*old(sim) }),
        Game::get_playable_card_ids_post(*old(sim), *final(sim), ids@),
{
    let ghost g0 = *sim;
    proof {
        if g0.hand(g0.active as int).len() > 0 {
            lemma_some_playable(*sim);
        }
    }
    let ids = sim.get_playable_card_ids();
    proof {
        let n = g0.options.players as int;
        let a = g0.active as int;
        lemma_total_cards_update(g0.hands@, a, sim.hands@[a]);
        assert(sim.hands@ == g0.hands@.update(a, sim.hands@[a]));
        assert forall|p: int| 0 <= p < sim.hands@.len() implies cards_in_range(#[trigger] sim.hands@[p]@, cap) by {
            if p != a {
                assert(sim.hands@[p] == g0.hands@[p]);
            } else {
                assert forall|j: int| 0 <= j < sim.hands@[p]@.len() implies card_in_range(#[trigger] sim.hands@[p]@[j], cap) by {
                    assert(card_in_range(g0.hands@[a]@[j], cap));
                }
            }
        }
        assert forall|p: int, q: int| 0 <= p < n && 0 <= q < n implies #[trigger] weight(*sim, p) == #[trigger] weight(*sim, q) by {
            assert(weight(g0, p) == weight(g0, q));
            assert(sim.hand(p).len() == g0.hand(p).len());
            assert(sim.hand(q).len() == g0.hand(q).len());
        }
        assert forall|j: int| 0 <= j < n implies (filled(*sim, #[trigger] seat_after(sim.active as int, j, n)) <==> j >= n - played_count(sim.trick.cards@)) by {
            assert(filled(g0, seat_after(g0.active as int, j, n)) <==> j >= n - played_count(g0.trick.cards@));
        }
    }
    ids
}

/// The active player plays the card with this id (the first card when no card has it)
/// to a trick that is not complete.
pub fn play_card_in_turn(sim: &mut Game, id: Id, Ghost(cap): Ghost<int>, Ghost(lim): Ghost<int>)
    requires
        sim_ready(*old(sim), cap, lim),
        !old(sim).trick.is_complete(),
        old(sim).hand(old(sim).active as int).len() > 0,
    ensures
        sim_ready(*final(sim), cap, lim),
        final(sim).trick.winner.is_some(),
        total_cards(final(sim).hands@) == total_cards(old(sim).hands@) - 1,
        final(sim).options == old(sim).options,
        final(sim).nest == old(sim).nest,
        final(sim).maker == old(sim).maker,
        final(sim).high_bid == old(sim).high_bid,
        final(sim).scoring == old(sim).scoring,
        Game::play_card_id_post(*old(sim), *final(sim), id),
{
    let ghost g1 = *sim;
    proof {
        lemma_active_free(*sim);
        let a = g1.active as int;
        let h = g1.hand(a);
        let i = crate::game::first_id_or_zero(h, id);
        if crate::game::has_id(h, id) {
            lemma_first_exists(h, id);
        }
        assert(0 <= i < h.len());
        assert(cards_in_range(g1.hands@[a]@, cap));
        assert(card_in_range(h[i], cap));
        lemma_total_cards_bounds(g1.hands@, a);
        lemma_total_cards_nonneg(g1.hands@);
        lemma_played_count_full(g1.trick.cards@);
        let t = total_cards(g1.hands@);
        assert(t >= 1);
        assert(cap * (t - 1) == cap * t - cap) by (nonlinear_arith);
        assert(cap <= cap * t) by (nonlinear_arith)
            requires cap >= 0, t >= 1;
    }
    sim.play_card_id(id);
    proof {
        let n = g1.options.players as int;
        let a = g1.active as int;
        let h = g1.hand(a);
        let i = crate::game::first_id_or_zero(h, id);
        let c = Card { face_up: true, ..h[i] };
        assert(!filled(g1, a));
        lemma_total_cards_update(g1.hands@, a, sim.hands@[a]);
        lemma_played_count_fill(g1.trick.cards@, a, c);
        assert forall|p: int| 0 <= p < sim.hands@.len() implies cards_in_range(#[trigger] sim.hands@[p]@, cap) by {
            if p != a {
                assert(sim.hands@[p] == g1.hands@[p]);
            } else {
                assert forall|j: int| 0 <= j < sim.hands@[p]@.len() implies card_in_range(#[trigger] sim.hands@[p]@[j], cap) by {
                    if j < i {
                        assert(sim.hands@[p]@[j] == h[j]);
                        assert(card_in_range(g1.hands@[a]@[j], cap));
                    } else {
                        assert(sim.hands@[p]@[j] == h[j + 1]);
                        assert(card_in_range(g1.hands@[a]@[j + 1], cap));
                    }
                }
            }
        }
        assert forall|k: int| 0 <= k < sim.trick.cards@.len() implies (#[trigger] sim.trick.cards@[k] matches Some(x) ==> card_in_range(x, cap)) by {
            if k != a {
                assert(sim.trick.cards@[k] == g1.trick.cards@[k]);
            }
        }
        assert forall|j: int| 0 <= j < n implies (filled(*sim, #[trigger] seat_after(sim.active as int, j, n)) <==> j >= n - played_count(sim.trick.cards@)) by {
            lemma_seat_shift(a, j, n);
            lemma_seat_facts(a, j + 1, n);
            let q = seat_after(a, j + 1, n);
            assert(sim.active == (a + 1) % n);
            assert(seat_after(sim.active as int, j, n) == q);
            assert(sim.trick.cards@ == g1.trick.cards@.update(a, Some(c)));
            assert(played_count(sim.trick.cards@) == played_count(g1.trick.cards@) + 1);
            lemma_played_count_nonneg(g1.trick.cards@);
            if j + 1 == n {
                assert(q == a);
                assert(filled(*sim, q));
            } else {
                assert(filled(g1, seat_after(a, j + 1, n)) <==> j + 1 >= n - played_count(g1.trick.cards@));
                assert(sim.trick.cards@[q] == g1.trick.cards@[q]);
            }
        }
        assert forall|p: int, q: int| 0 <= p < n && 0 <= q < n implies #[trigger] weight(*sim, p) == #[trigger] weight(*sim, q) by {
            assert(weight(g1, p) == weight(g1, q));
            if p != a {
                assert(sim.hands@[p] == g1.hands@[p]);
                assert(sim.trick.cards@[p] == g1.trick.cards@[p]);
            }
            if q != a {
                assert(sim.hands@[q] == g1.hands@[q]);
                assert(sim.trick.cards@[q] == g1.trick.cards@[q]);
            }
        }
    }
}

/// One turn of random play: the active player's playable cards are marked, and the
/// active player plays one of them.
pub open spec fn random_turn(g0: Game, g2: Game) -> bool {
    exists|g1: Game, ids: Seq<Id>, id: Id|
        #![trigger Game::get_playable_card_ids_post(g0, g1, ids), Game::play_card_id_post(g1, g2, id)]
        Game::get_playable_card_ids_post(g0, g1, ids) && ids.contains(id) && Game::play_card_id_post(g1, g2, id)
}

/// A complete trick is awarded and its winner leads the next one.
pub open spec fn trick_turnover(g0: Game, g2: Game) -> bool {
    exists|g1: Game| #[trigger] Game::award_trick_post(g0, g1) && Game::reset_for_next_trick_post(g1, g2)
}

/// One round of random play: a complete trick is awarded first, then a random turn.
pub open spec fn play_round(g0: Game, g2: Game) -> bool {
    if g0.trick.is_complete() {
        exists|g1: Game| #[trigger] trick_turnover(g0, g1) && random_turn(g1, g2)
    } else {
        random_turn(g0, g2)
    }
}

/// Whether the game after `i` in the list follows from it by a round of play, the
/// active player holding a card.
pub open spec fn round_at(gs: Seq<Game>, i: int) -> bool {
    &&& gs[i].hand(gs[i].active as int).len() > 0
    &&& play_round(gs[i], gs[i + 1])
}

/// Whether the games are a hand played at random to its end: each follows from the one
/// before by a round of play, and in the last the active player holds no card.
pub open spec fn played_to_end(gs: Seq<Game>) -> bool {
    &&& gs.len() >= 1
    &&& forall|i: int| 0 <= i < gs.len() - 1 ==> #[trigger] round_at(gs, i)
    &&& gs.last().hand(gs.last().active as int).len() == 0
}

/// Whether `g1` is `g0` played out at random to the end of the hand.
pub open spec fn played_out(g0: Game, g1: Game) -> bool {
    exists|gs: Seq<Game>| #[trigger] played_to_end(gs) && gs[0] == g0 && gs.last() == g1
}

/// The active player plays a random playable card to a trick that is not complete.
fn play_turn(sim: &mut Game, Ghost(cap): Ghost<int>, Ghost(lim): Ghost<int>)
    requires
        sim_ready(*old(sim), cap, lim),
        !old(sim).trick.is_complete(),
        old(sim).hand(old(sim).active as int).len() > 0,
    ensures
        sim_ready(*final(sim), cap, lim),
        final(sim).trick.winner.is_some(),
        total_cards(final(sim).hands@) == total_cards(old(sim).hands@) - 1,
        final(sim).options == old(sim).options,
        final(sim).nest == old(sim).nest,
        final(sim).maker == old(sim).maker,
        final(sim).high_bid == old(sim).high_bid,
        final(sim).scoring == old(sim).scoring,
        random_turn(*old(sim), *final(sim)),
{
    let ghost g0 = *sim;
    let ids = mark_playable(sim, Ghost(cap), Ghost(lim));
    let ghost g1 = *sim;
    let ghost v = ids@;
    match choice(ids) {
        Some(id) => {
            play_card_in_turn(sim, id, Ghost(cap), Ghost(lim));
            assert(Game::get_playable_card_ids_post(g0, g1, v) && v.contains(id) && Game::play_card_id_post(g1, *sim, id));
        },
        None => {
            assert(false);
        },
    }
}

/// Awards a complete trick and lets its winner lead the next one.
fn award_and_reset(sim: &mut Game, Ghost(cap): Ghost<int>, Ghost(lim): Ghost<int>)
    requires
        sim_ready(*old(sim), cap, lim),
        old(sim).trick.is_complete(),
        old(sim).hand(old(sim).active as int).len() > 0,
    ensures
        sim_ready(*final(sim), cap, lim),
        !final(sim).trick.is_complete(),
        final(sim).hand(final(sim).active as int).len() > 0,
        total_cards(final(sim).hands@) == total_cards(old(sim).hands@),
        final(sim).options == old(sim).options,
        final(sim).nest == old(sim).nest,
        final(sim).maker == old(sim).maker,
        final(sim).high_bid == old(sim).high_bid,
        final(sim).scoring == (Scoring {
            points_taken: final(sim).scoring.points_taken,
            trick_count: final(sim).scoring.trick_count,
            hand_subtotal: final(sim).scoring.hand_subtotal,
            ..old(sim).scoring
        }),
        trick_turnover(*old(sim), *final(sim)),
{
    let ghost g0 = *sim;
    proof {
        let n = g0.options.players as int;
        lemma_played_count_full(g0.trick.cards@);
        lemma_total_cards_nonneg(g0.hands@);
        assert(g0.trick.cards@[0].is_some());
        assert(!g0.trick.is_empty());
        assert(small(g0.scoring.nest[0] as int, lim) && small(g0.scoring.last_trick[0] as int, lim) && small(g0.scoring.majority_bonus[0] as int, lim));
        assert(small(g0.scoring.nest[1] as int, lim) && small(g0.scoring.last_trick[1] as int, lim) && small(g0.scoring.majority_bonus[1] as int, lim));
    }
    sim.award_trick();
    let ghost g1 = *sim;
    sim.reset_for_next_trick();
    proof {
        assert(Game::award_trick_post(g0, g1) && Game::reset_for_next_trick_post(g1, *sim));
        let n = g0.options.players as int;
        let w = g0.trick.winner->0 as int;
        lemma_played_count_extremes(sim.trick.cards@);
        assert(sim.hands == g0.hands);
        assert(sim.trick.cards@[0].is_none());
        lemma_complete_balanced(g0, w, g0.active as int);
        assert forall|j: int| 0 <= j < n implies (filled(*sim, #[trigger] seat_after(sim.active as int, j, n)) <==> j >= n - played_count(sim.trick.cards@)) by {
            lemma_seat_facts(sim.active as int, j, n);
        }
        assert forall|p: int, q: int| 0 <= p < n && 0 <= q < n implies #[trigger] weight(*sim, p) == #[trigger] weight(*sim, q) by {
            lemma_complete_balanced(g0, p, q);
        }
        assert forall|k: int| 0 <= k < sim.trick.cards@.len() implies (#[trigger] sim.trick.cards@[k] matches Some(x) ==> card_in_range(x, cap)) by {}
        assert forall|p: int| 0 <= p < sim.hands@.len() implies cards_in_range(#[trigger] sim.hands@[p]@, cap) by {
            assert(sim.hands@[p] == g0.hands@[p]);
        }
    }
}

/// Plays the rest of the hand at random: whenever a trick is complete it is awarded and
/// its winner leads; each player in turn plays a random playable card.
pub fn play_out(sim: &mut Game, Ghost(cap): Ghost<int>, Ghost(lim): Ghost<int>)
    requires
        sim_ready(*old(sim), cap, lim),
        old(sim).trick.winner.is_some(),
    ensures
        sim_ready(*final(sim), cap, lim),
        final(sim).hand(final(sim).active as int).len() == 0,
        final(sim).trick.winner.is_some(),
        final(sim).options == old(sim).options,
        final(sim).nest == old(sim).nest,
        final(sim).maker == old(sim).maker,
        final(sim).high_bid == old(sim).high_bid,
        final(sim).scoring == (Scoring {
            points_taken: final(sim).scoring.points_taken,
            trick_count: final(sim).scoring.trick_count,
            hand_subtotal: final(sim).scoring.hand_subtotal,
            ..old(sim).scoring
        }),
        played_out(*old(sim), *final(sim)),
{
    let ghost mut gs: Seq<Game> = seq![*sim];
    while !sim.hand_completed()
        invariant
            sim_ready(*sim, cap, lim),
            sim.trick.winner.is_some(),
            sim.options == old(sim).options,
            sim.nest == old(sim).nest,
            sim.maker == old(sim).maker,
            sim.high_bid == old(sim).high_bid,
            sim.scoring == (Scoring {
                points_taken: sim.scoring.points_taken,
                trick_count: sim.scoring.trick_count,
                hand_subtotal: sim.scoring.hand_subtotal,
                ..old(sim).scoring
            }),
            gs.len() >= 1,
            gs[0] == *old(sim),
            gs.last() == *sim,
            forall|i: int| 0 <= i < gs.len() - 1 ==> #[trigger] round_at(gs, i),
        decreases total_cards(sim.hands@),
    {
        let ghost before = total_cards(sim.hands@);
        let ghost g0 = *sim;
        proof {
            lemma_total_cards_nonneg(sim.hands@);
        }
        if sim.trick_completed() {
            award_and_reset(sim, Ghost(cap), Ghost(lim));
        }
        let ghost gm = *sim;
        assert(total_cards(sim.hands@) == before);
        play_turn(sim, Ghost(cap), Ghost(lim));
        assert(total_cards(sim.hands@) == before - 1);
        proof {
            lemma_total_cards_nonneg(sim.hands@);
            if g0.trick.is_complete() {
                assert(trick_turnover(g0, gm) && random_turn(gm, *sim));
            } else {
                assert(gm == g0);
            }
            assert(play_round(g0, *sim));
            let old_gs = gs;
            gs = gs.push(*sim);
            assert forall|i: int| 0 <= i < gs.len() - 1 implies #[trigger] round_at(gs, i) by {
                if i < old_gs.len() - 1 {
                    assert(round_at(old_gs, i));
                    assert(gs[i] == old_gs[i] && gs[i + 1] == old_gs[i + 1]);
                } else {
                    assert(gs[i] == g0 && gs[i + 1] == *sim);
                }
            }
        }
    }
    proof {
        assert(played_to_end(gs));
    }
}

/// Whether the scores going into the end of a hand are within the bounds that keep its
/// scoring from overflowing.
pub open spec fn end_bounds(g: Game, lim: int) -> bool {
    let s = g.scoring;
    let o = g.options;
    &&& 0 <= lim
    &&& 16 * lim <= isize::MAX
    &&& -lim <= s.points_taken[0] <= 4 * lim
    &&& -lim <= s.points_taken[1] <= 4 * lim
    &&& small(s.nest[0] as int, lim) && small(s.nest[1] as int, lim)
    &&& small(s.last_trick[0] as int, lim) && small(s.last_trick[1] as int, lim)
    &&& small(s.majority_bonus[0] as int, lim) && small(s.majority_bonus[1] as int, lim)
    &&& small(s.bid[0] as int, lim) && small(s.bid[1] as int, lim)
    &&& small(s.bonus[0] as int, lim) && small(s.bonus[1] as int, lim)
    &&& small(s.game[0] as int, lim) && small(s.game[1] as int, lim)
    &&& small(o.last_trick_pts as int, lim)
    &&& small(o.majority_of_tricks_pts as int, lim)
    &&& small(o.slam_bonus as int, lim)
    &&& small(o.max_bid as int, lim)
    &&& (o.defenders_win matches DefendersWin::PointsTaken(b) && small(b as int, lim))
    &&& small(g.high_bid as int, lim)
}

/// Within the end bounds, every number that scoring the hand computes fits.
#[verifier::rlimit(50)]
proof fn lemma_end_bounds_fit(g: Game, lim: int)
    requires
        g.wf(),
        g.maker.is_some(),
        end_bounds(g, lim),
    ensures
        g.hand_scores_fit(),
        forall|t: int| 0 <= t < 2 ==> -5 * lim <= #[trigger] g.final_subtotal(t) <= 8 * lim,
{
    assert forall|t: int| 0 <= t < 2 implies -5 * lim <= #[trigger] g.final_subtotal(t) <= 8 * lim by {
        assert(-2 * lim <= g.final_nest(t) <= 2 * lim);
        assert(-lim <= g.final_majority(t) <= lim);
    }
    assert forall|t: int| 0 <= t < 2 implies {
        &&& fits(#[trigger] g.final_nest(t))
        &&& fits(g.final_subtotal(t))
        &&& fits(g.final_subtotal(t) + 5)
        &&& fits(g.final_score(t))
        &&& fits(g.scoring.game[t] + g.final_score(t))
    } by {
        let m = g.maker_team();
        let d = g.defender_team();
        assert(-5 * lim <= g.final_subtotal(m) <= 8 * lim);
        assert(-5 * lim <= g.final_subtotal(d) <= 8 * lim);
        assert(-lim <= g.final_bonus(t) <= lim);
        assert(-lim <= g.final_bonus(m) <= lim);
        assert(-lim <= g.final_bonus(d) <= lim);
        let x = g.final_subtotal(d);
        let y = if trunc_rem_is_zero(x) { x + 5 } else { x };
        assert(-5 * lim <= y <= 8 * lim + 5);
        assert(-5 * lim <= Game::half_points(x) <= 8 * lim + 5);
        assert(-10 * lim - 5 <= g.final_score(t) <= 10 * lim + 5);
    }
}

/// Whether Rust's remainder of `x` by 5 is zero.
spec fn trunc_rem_is_zero(x: int) -> bool {
    crate::game::trunc_rem(x, 5) == 0
}

/// After play, the scores are within the end bounds.
proof fn lemma_ready_end_bounds(g: Game, cap: int, lim: int)
    requires
        sim_ready(g, cap, lim),
    ensures
        end_bounds(g, lim),
{
    lemma_total_cards_nonneg(g.hands@);
}

/// Whether `score` is team `team`'s points from tricks, nest, last trick and majority
/// once the nest of `g0` is awarded and the hand completed.
pub open spec fn hand_score(g0: Game, team: int, score: int) -> bool {
    exists|g1: Game, p: Points, g2: Game|
        #![trigger Game::award_nest_cards_post(g0, g1, p), Game::complete_hand_post(g1, g2)]
        Game::award_nest_cards_post(g0, g1, p) && Game::complete_hand_post(g1, g2)
        && score == g2.scoring.points_taken[team] + g2.scoring.nest[team] + g2.scoring.last_trick[team]
            + g2.scoring.majority_bonus[team]
}

/// Whether `score` is what one simulated hand can give team `team`: the cards in
/// `hidden` are dealt in some order to the players other than the active one, the
/// active player plays the card with id `card_id`, the hand is played out at random, and
/// the team's points are counted.
pub open spec fn simulated_score(game: Game, hidden: Multiset<Card>, card_id: Id, team: int, score: int) -> bool {
    exists|start: Game, dealt: Seq<Card>, g1: Game, g2: Game, g3: Game|
        #![trigger redealt(start, g1, dealt, game.active as int), Game::play_card_id_post(g1, g2, card_id), played_out(g2, g3)]
        start.same_state(game) && dealt.to_multiset() == hidden && redealt(start, g1, dealt, game.active as int)
            && Game::play_card_id_post(g1, g2, card_id) && played_out(g2, g3) && hand_score(g3, team, score)
}

/// Turns up and scores the nest and scores the hand; returns the team's points from
/// tricks, nest, last trick and majority.
pub fn score_hand(sim: &mut Game, team: usize, Ghost(cap): Ghost<int>, Ghost(lim): Ghost<int>) -> (score: Points)
    requires
        sim_ready(*old(sim), cap, lim),
        old(sim).trick.winner.is_some(),
        team < 2,
    ensures
        score == final(sim).scoring.points_taken[team as int] + final(sim).scoring.nest[team as int]
            + final(sim).scoring.last_trick[team as int] + final(sim).scoring.majority_bonus[team as int],
        -5 * lim <= score <= 8 * lim,
        exists|gm: Game, p: Points| #[trigger] Game::award_nest_cards_post(*old(sim), gm, p)
            && Game::complete_hand_post(gm, *final(sim)),
        hand_score(*old(sim), team as int, score as int),
{
    let ghost g0 = *sim;
    proof {
        lemma_ready_end_bounds(g0, cap, lim);
        lemma_sum_points_in_range(g0.nest@, cap);
    }
    let nest_points = sim.award_nest_cards();
    let ghost g1 = *sim;
    proof {
        lemma_end_bounds_fit(g1, lim);
    }
    sim.complete_hand();
    proof {
        assert(sim.scoring.points_taken[team as int] + sim.scoring.nest[team as int]
            + sim.scoring.last_trick[team as int] + sim.scoring.majority_bonus[team as int] == g1.final_subtotal(team as int));
    }
    assert(Game::award_nest_cards_post(g0, g1, nest_points));
    assert(Game::complete_hand_post(g1, *sim));
    let total = sim.scoring.points_taken[team] as i128 + sim.scoring.nest[team] as i128
        + sim.scoring.last_trick[team] as i128 + sim.scoring.majority_bonus[team] as i128;
    total as isize
}

/// The number of cards in the hands of the players before `k`, other than player `a`.
pub open spec fn others_total(hs: Seq<Vec<Card>>, a: int, k: int) -> int
    decreases k,
{
    if k <= 0 {
        0
    } else {
        others_total(hs, a, k - 1) + (if k - 1 == a { 0 } else { hs[k - 1]@.len() as int })
    }
}

/// Counting more players never counts fewer cards.
proof fn lemma_others_total_mono(hs: Seq<Vec<Card>>, a: int, j: int, k: int)
    requires
        0 <= j <= k,
    ensures
        others_total(hs, a, j) <= others_total(hs, a, k),
    decreases k - j,
{
    if j < k {
        lemma_others_total_mono(hs, a, j, k - 1);
    }
}

/// Lists of hands of the same lengths count the same cards for other players.
pub proof fn lemma_others_total_same(x: Seq<Vec<Card>>, y: Seq<Vec<Card>>, a: int, k: int)
    requires
        x.len() == y.len(),
        0 <= k <= x.len(),
        forall|i: int| 0 <= i < x.len() ==> (#[trigger] x[i])@ == y[i]@,
    ensures
        others_total(x, a, k) == others_total(y, a, k),
    decreases k,
{
    if k > 0 {
        lemma_others_total_same(x, y, a, k - 1);
        assert(x[k - 1]@ == y[k - 1]@);
    }
}

/// A game in the same state is ready for simulation as well.
pub proof fn lemma_same_state_ready(x: Game, y: Game, cap: int, lim: int)
    requires
        x.same_state(y),
        sim_ready(y, cap, lim),
    ensures
        sim_ready(x, cap, lim),
        total_cards(x.hands@) == total_cards(y.hands@),
        forall|p: int| 0 <= p < x.hands@.len() ==> #[trigger] x.hand(p) == y.hand(p),
{
    lemma_total_cards_same_lengths(x.hands@, y.hands@);
    let n = x.options.players as int;
    assert forall|p: int| 0 <= p < x.hands@.len() implies #[trigger] x.hand(p) == y.hand(p) by {
        assert(x.hands@[p]@ == y.hands@[p]@);
    }
    assert forall|p: int, q: int| 0 <= p < n && 0 <= q < n implies #[trigger] weight(x, p) == #[trigger] weight(x, q) by {
        assert(weight(y, p) == weight(y, q));
        assert(x.hand(p) == y.hand(p));
        assert(x.hand(q) == y.hand(q));
    }
    assert forall|j: int| 0 <= j < n implies (filled(x, #[trigger] seat_after(x.active as int, j, n)) <==> j >= n - played_count(x.trick.cards@)) by {
        assert(filled(y, seat_after(y.active as int, j, n)) <==> j >= n - played_count(y.trick.cards@));
    }
    assert forall|p: int| 0 <= p < x.hands@.len() implies cards_in_range(#[trigger] x.hands@[p]@, cap) by {
        assert(x.hands@[p]@ == y.hands@[p]@);
        assert(cards_in_range(y.hands@[p]@, cap));
    }
    assert(x.trick.is_empty() == y.trick.is_empty());
}

/// The cards hidden from player `a` among the first `k` players: each other player's
/// hand, followed each time by the deck.
pub open spec fn hidden_of(hs: Seq<Vec<Card>>, deck: Seq<Card>, a: int, k: int) -> Seq<Card>
    decreases k,
{
    if k <= 0 {
        Seq::empty()
    } else {
        hidden_of(hs, deck, a, k - 1) + (if k - 1 == a { Seq::<Card>::empty() } else { hs[k - 1]@ + deck })
    }
}

/// The hidden cards are in range and at least as many as the other players hold.
proof fn lemma_hidden_of(hs: Seq<Vec<Card>>, deck: Seq<Card>, a: int, k: int, cap: int)
    requires
        forall|p: int| 0 <= p < hs.len() ==> cards_in_range(#[trigger] hs[p]@, cap),
        cards_in_range(deck, cap),
        0 <= k <= hs.len(),
    ensures
        hidden_of(hs, deck, a, k).len() >= others_total(hs, a, k),
        cards_in_range(hidden_of(hs, deck, a, k), cap),
    decreases k,
{
    if k > 0 {
        lemma_hidden_of(hs, deck, a, k - 1, cap);
        let prev = hidden_of(hs, deck, a, k - 1);
        let add = if k - 1 == a { Seq::<Card>::empty() } else { hs[k - 1]@ + deck };
        assert(cards_in_range(hs[k - 1]@, cap));
        assert forall|i: int| 0 <= i < (prev + add).len() implies card_in_range(#[trigger] (prev + add)[i], cap) by {
            if i < prev.len() {
                assert((prev + add)[i] == prev[i]);
            } else if k - 1 != a {
                let j = i - prev.len();
                if j < hs[k - 1]@.len() {
                    assert(add[j] == hs[k - 1]@[j]);
                } else {
                    assert(add[j] == deck[j - hs[k - 1]@.len()]);
                }
            }
        }
    }
}

/// The cards the active player cannot see: every other player's hand, each followed by
/// the deck.
pub fn hidden_cards(game: &Game, Ghost(cap): Ghost<int>) -> (hidden: Vec<Card>)
    requires
        game.wf(),
        forall|p: int| 0 <= p < game.hands@.len() ==> cards_in_range(#[trigger] game.hands@[p]@, cap),
        cards_in_range(game.deck@, cap),
    ensures
        hidden@ == hidden_of(game.hands@, game.deck@, game.active as int, game.options.players as int),
        hidden@.len() >= others_total(game.hands@, game.active as int, game.options.players as int),
        cards_in_range(hidden@, cap),
{
    let mut hidden: Vec<Card> = Vec::new();
    let n = game.options.players;
    let a = game.active;
    for p in 0..n
        invariant
            n == game.options.players,
            a == game.active,
            game.wf(),
            hidden@ == hidden_of(game.hands@, game.deck@, a as int, p as int),
    {
        let ghost before = hidden@;
        if p != a {
            let hand = &game.hands[p];
            let k = hand.len();
            for j in 0..k
                invariant
                    k == hand@.len(),
                    hidden@ == before + hand@.take(j as int),
            {
                hidden.push(hand[j]);
                proof {
                    assert(hand@.take(j + 1) == hand@.take(j as int).push(hand@[j as int]));
                }
            }
            let d = game.deck.len();
            for j in 0..d
                invariant
                    d == game.deck@.len(),
                    k == hand@.len(),
                    hidden@ == before + hand@ + game.deck@.take(j as int),
            {
                proof {
                    if j == 0 {
                        assert(hand@.take(k as int) == hand@);
                    }
                }
                hidden.push(game.deck[j]);
                proof {
                    assert(game.deck@.take(j + 1) == game.deck@.take(j as int).push(game.deck@[j as int]));
                }
            }
            proof {
                if d == 0 {
                    assert(hand@.take(k as int) == hand@);
                }
                assert(game.deck@.take(d as int) == game.deck@);
                assert(hidden@ == before + (hand@ + game.deck@));
            }
        } else {
            assert(hidden@ == before + Seq::<Card>::empty());
        }
    }
    proof {
        lemma_hidden_of(game.hands@, game.deck@, a as int, n as int, cap);
    }
    hidden
}

/// Whether `g1` is `g0` with every hand but player `a`'s dealt afresh, in seat order,
/// from the start of `cards`, each player receiving as many cards as they held.
pub open spec fn redealt(g0: Game, g1: Game, cards: Seq<Card>, a: int) -> bool {
    &&& g1.hands@.len() == g0.hands@.len()
    &&& g1.hands@[a] == g0.hands@[a]
    &&& forall|p: int| 0 <= p < g0.hands@.len() && p != a ==> (#[trigger] g1.hands@[p])@ == cards.subrange(
        others_total(g0.hands@, a, p),
        others_total(g0.hands@, a, p) + g0.hands@[p]@.len(),
    )
    &&& g1 == (Game { hands: g1.hands, ..g0 })
}

/// Deals the hidden cards, from the start, to every player but `a`, each receiving as
/// many as they held.
pub fn redeal(sim: &mut Game, hidden: &Vec<Card>, a: usize, Ghost(cap): Ghost<int>, Ghost(lim): Ghost<int>)
    requires
        sim_ready(*old(sim), cap, lim),
        a == old(sim).active,
        hidden@.len() >= others_total(old(sim).hands@, a as int, old(sim).options.players as int),
        cards_in_range(hidden@, cap),
    ensures
        sim_ready(*final(sim), cap, lim),
        final(sim).hands@.len() == old(sim).hands@.len(),
        forall|p: int| 0 <= p < old(sim).hands@.len() ==> (#[trigger] final(sim).hands@[p])@.len() == old(sim).hands@[p]@.len(),
        final(sim).hands@[a as int] == old(sim).hands@[a as int],
        forall|p: int| 0 <= p < old(sim).hands@.len() && p != a ==> (#[trigger] final(sim).hands@[p])@ == hidden@.subrange(
            others_total(old(sim).hands@, a as int, p),
            others_total(old(sim).hands@, a as int, p) + old(sim).hands@[p]@.len(),
        ),
        total_cards(final(sim).hands@) == total_cards(old(sim).hands@),
        *final(sim) == (Game { hands: final(sim).hands, ..*old(sim) }),
        redealt(*old(sim), *final(sim), hidden@, a as int),
{
    let ghost g0 = *sim;
    let n = sim.options.players;
    let hl = hidden.len();
    let mut idx: usize = 0;
    for p in 0..n
        invariant
            hl == hidden@.len(),
            n == g0.options.players,
            a == g0.active,
            g0.wf(),
            sim.hands@.len() == n,
            hidden@.len() >= others_total(g0.hands@, a as int, n as int),
            cards_in_range(hidden@, cap),
            idx == others_total(g0.hands@, a as int, p as int),
            forall|q: int| 0 <= q < n ==> (#[trigger] sim.hands@[q])@.len() == g0.hands@[q]@.len(),
            forall|q: int| 0 <= q < n ==> cards_in_range(#[trigger] sim.hands@[q]@, cap),
            sim.hands@[a as int] == g0.hands@[a as int],
            forall|q: int| 0 <= q < p && q != a ==> (#[trigger] sim.hands@[q])@ == hidden@.subrange(
                others_total(g0.hands@, a as int, q),
                others_total(g0.hands@, a as int, q) + g0.hands@[q]@.len(),
            ),
            *sim == (Game { hands: sim.hands, ..g0 }),
    {
        proof {
            lemma_others_total_mono(g0.hands@, a as int, p + 1, n as int);
        }
        if p != a {
            let k = sim.hands[p].len();
            assert(idx + k == others_total(g0.hands@, a as int, p + 1));
            assert(idx + k <= hidden@.len());
            let mut hand: Vec<Card> = Vec::new();
            for j in 0..k
                invariant
                    hand@.len() == j,
                    hl == hidden@.len(),
                    idx + k <= hidden@.len(),
                    cards_in_range(hidden@, cap),
                    cards_in_range(hand@, cap),
                    hand@ == hidden@.subrange(idx as int, idx + j),
            {
                assert(idx + j < hidden@.len());
                assert(card_in_range(hidden@[idx + j], cap));
                hand.push(hidden[idx + j]);
                assert(hand@ == hidden@.subrange(idx as int, idx + j + 1));
            }
            sim.hands.set(p, hand);
            assert(idx + k <= hidden@.len());
            idx = idx + k;
        }
    }
    proof {
        lemma_total_cards_same_lengths(sim.hands@, g0.hands@);
        let nn = n as int;
        assert forall|p: int, q: int| 0 <= p < nn && 0 <= q < nn implies #[trigger] weight(*sim, p) == #[trigger] weight(*sim, q) by {
            assert(weight(g0, p) == weight(g0, q));
        }
        assert forall|j: int| 0 <= j < nn implies (filled(*sim, #[trigger] seat_after(sim.active as int, j, nn)) <==> j >= nn - played_count(sim.trick.cards@)) by {
            assert(filled(g0, seat_after(g0.active as int, j, nn)) <==> j >= nn - played_count(g0.trick.cards@));
        }
    }
}

} // verus!
