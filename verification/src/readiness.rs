//! Checks, run before a bot is asked for a decision, that the game is in a state the
//! bot can simulate: the conditions of the bot's methods, computed.
use vstd::prelude::*;

use crate::card::{Card, Points, Suit};
use crate::game::{seat_after, sum_points, Game};
use crate::game_options::{DefendersWin, GameOptions};
use crate::scoring::Scoring;
use crate::simulation::{
    balanced, cards_in_range, filled, in_turn, limits_fit, played_count, sim_base, sim_fits, sim_ready, small,
    total_cards, totals_fit, trick_cards_in_range, trick_consistent, weight, lemma_seat_facts,
    lemma_total_cards_nonneg, lemma_played_count_full,
};
use crate::trick::Trick;
use crate::bot_monte::{bid_fits, bidding_state, discard_ready, eligible_cards, suit_score};

verus! {

/// Whether every card of `v` is worth between 0 and `cap` points.
pub fn cards_fit(v: &Vec<Card>, cap: isize) -> (r: bool)
    ensures
        r == cards_in_range(v@, cap as int),
{
    let n = v.len();
    for i in 0..n
        invariant
            n == v@.len(),
            forall|j: int| 0 <= j < i ==> crate::simulation::card_in_range(#[trigger] v@[j], cap as int),
    {
        if v[i].points < 0 || v[i].points > cap {
            assert(!crate::simulation::card_in_range(v@[i as int], cap as int));
            return false;
        }
    }
    true
}

/// Whether every hand of the game holds cards worth between 0 and `cap` points.
fn hands_fit(hs: &Vec<Vec<Card>>, cap: isize) -> (r: bool)
    ensures
        r == forall|p: int| 0 <= p < hs@.len() ==> cards_in_range(#[trigger] hs@[p]@, cap as int),
{
    let n = hs.len();
    for p in 0..n
        invariant
            n == hs@.len(),
            forall|q: int| 0 <= q < p ==> cards_in_range(#[trigger] hs@[q]@, cap as int),
    {
        if !cards_fit(&hs[p], cap) {
            return false;
        }
    }
    true
}

/// The number of cards in the hands, or `cap + 1` when there are more than `cap`.
fn capped_total(hs: &Vec<Vec<Card>>, cap: usize) -> (r: usize)
    requires
        cap < usize::MAX,
    ensures
        r == (if total_cards(hs@) <= cap { total_cards(hs@) } else { cap + 1 }),
{
    let n = hs.len();
    let mut sum: usize = 0;
    for i in 0..n
        invariant
            n == hs@.len(),
            cap < usize::MAX,
            sum == (if total_cards(hs@.take(i as int)) <= cap { total_cards(hs@.take(i as int)) } else { cap + 1 }),
    {
        proof {
            assert(hs@.take(i + 1).drop_last() == hs@.take(i as int));
            assert(hs@.take(i + 1).last() == hs@[i as int]);
            lemma_total_cards_nonneg(hs@.take(i as int));
        }
        let len = hs[i].len();
        if sum <= cap {
            if len > cap - sum {
                sum = cap + 1;
            } else {
                sum = sum + len;
            }
        }
    }
    proof {
        assert(hs@.take(n as int) == hs@);
    }
    sum
}

/// The number of cards played to the trick.
fn count_played(cards: &Vec<Option<Card>>) -> (r: usize)
    ensures
        r == played_count(cards@),
{
    let n = cards.len();
    let mut k: usize = 0;
    for i in 0..n
        invariant
            n == cards@.len(),
            k == played_count(cards@.take(i as int)),
            k <= i,
    {
        proof {
            assert(cards@.take(i + 1).drop_last() == cards@.take(i as int));
            assert(cards@.take(i + 1).last() == cards@[i as int]);
        }
        if cards[i].is_some() {
            k = k + 1;
        }
    }
    proof {
        assert(cards@.take(n as int) == cards@);
    }
    k
}

/// Whether no card has been played to the trick.
fn trick_empty(t: &Trick) -> (r: bool)
    ensures
        r == t.is_empty(),
{
    let n = t.cards.len();
    for i in 0..n
        invariant
            n == t.cards@.len(),
            forall|j: int| 0 <= j < i ==> (#[trigger] t.cards@[j]).is_none(),
    {
        if t.cards[i].is_some() {
            return false;
        }
    }
    true
}

/// Whether every card played to the trick is worth between 0 and `cap` points.
fn trick_cards_fit(t: &Trick, cap: isize) -> (r: bool)
    ensures
        r == trick_cards_in_range(*t, cap as int),
{
    let n = t.cards.len();
    for i in 0..n
        invariant
            n == t.cards@.len(),
            forall|j: int| 0 <= j < i ==> (#[trigger] t.cards@[j] matches Some(c) ==> crate::simulation::card_in_range(c, cap as int)),
    {
        if let Some(c) = t.cards[i] {
            if c.points < 0 || c.points > cap {
                return false;
            }
        }
    }
    true
}

/// Whether a value is at most `lim` in magnitude.
fn fits_limit(x: isize, lim: isize) -> (r: bool)
    requires
        lim >= 0,
    ensures
        r == small(x as int, lim as int),
{
    -lim <= x && x <= lim
}

/// The points of the cards, or `bound + 1` once they pass `bound`; every card is worth
/// at least 0.
fn nest_points_capped(v: &Vec<Card>, bound: isize) -> (r: i128)
    requires
        bound >= 0,
        forall|i: int| 0 <= i < v@.len() ==> (#[trigger] v@[i]).points >= 0,
    ensures
        r == (if sum_points(v@) <= bound { sum_points(v@) } else { bound + 1 }),
{
    let n = v.len();
    let mut acc: i128 = 0;
    for i in 0..n
        invariant
            n == v@.len(),
            bound >= 0,
            forall|j: int| 0 <= j < v@.len() ==> (#[trigger] v@[j]).points >= 0,
            acc == (if sum_points(v@.take(i as int)) <= bound { sum_points(v@.take(i as int)) } else { bound + 1 }),
    {
        proof {
            assert(v@.take(i + 1).drop_last() == v@.take(i as int));
            assert(v@.take(i + 1).last() == v@[i as int]);
        }
        if acc <= bound as i128 {
            acc = acc + v[i].points as i128;
            if acc > bound as i128 {
                acc = bound as i128 + 1;
            }
        }
    }
    proof {
        assert(v@.take(n as int) == v@);
    }
    acc
}

/// Whether the seats of the table are in order: at least one player, a hand and a slot
/// of the trick for each, and the active player at the table.
pub open spec fn table_wf(g: Game) -> bool {
    &&& g.options.players >= 1
    &&& g.hands@.len() == g.options.players
    &&& g.trick.cards@.len() == g.options.players
    &&& g.active < g.options.players
}

/// Whether the game, with this maker, is well formed.
fn wf_with(g: &Game, maker: Option<usize>) -> (r: bool)
    ensures
        r == (Game { maker, ..*g }).wf(),
{
    let n = g.options.players;
    n >= 1 && g.bot_players.len() == n && g.hands.len() == n && g.bids.len() == n && g.taken.len() == n
        && g.trick.cards.len() == n && g.active < n && g.dealer < n && g.last_trick_winner < n
        && match maker {
        Some(m) => m < n,
        None => true,
    } && match g.trick.winner {
        Some(w) => w < n,
        None => true,
    } && (g.trick.lead_suit.is_none() || g.trick.winning_suit.is_some())
}

/// Whether the game is well formed.
pub fn game_wf(g: &Game) -> (r: bool)
    ensures
        r == g.wf(),
{
    assert(Game { maker: g.maker, ..*g } == *g);
    wf_with(g, g.maker)
}

/// Whether the trick was played in turn.
fn played_in_turn(g: &Game) -> (r: bool)
    requires
        table_wf(*g),
    ensures
        r == in_turn(*g),
{
    let n = g.options.players;
    let a = g.active;
    let k = count_played(&g.trick.cards);
    proof {
        lemma_played_count_full(g.trick.cards@);
    }
    for j in 0..n
        invariant
            n == g.options.players,
            a == g.active,
            table_wf(*g),
            k == played_count(g.trick.cards@),
            k <= n,
            forall|i: int| 0 <= i < j ==> (filled(*g, #[trigger] seat_after(a as int, i, n as int)) <==> i >= n - k),
    {
        let seat = if j < n - a { a + j } else { j - (n - a) };
        proof {
            lemma_seat_facts(a as int, j as int, n as int);
            if a + j < n {
                vstd::arithmetic::div_mod::lemma_small_mod((a + j) as nat, n as nat);
            } else {
                vstd::arithmetic::div_mod::lemma_mod_sub_multiples_vanish(a + j, n as int);
                vstd::arithmetic::div_mod::lemma_small_mod((a + j - n) as nat, n as nat);
            }
            assert(seat == seat_after(a as int, j as int, n as int));
        }
        if g.trick.cards[seat].is_some() != (j >= n - k) {
            assert(!(filled(*g, seat_after(a as int, j as int, n as int)) <==> j >= n - k));
            return false;
        }
    }
    true
}

/// Whether every player holds as many cards, counting the card played to the trick.
fn hands_balanced(g: &Game) -> (r: bool)
    requires
        table_wf(*g),
    ensures
        r == balanced(*g),
{
    let n = g.options.players;
    let w0: u128 = g.hands[0].len() as u128 + if g.trick.cards[0].is_some() { 1u128 } else { 0u128 };
    assert(w0 == weight(*g, 0));
    for p in 0..n
        invariant
            n == g.options.players,
            table_wf(*g),
            w0 == weight(*g, 0),
            forall|q: int| 0 <= q < p ==> #[trigger] weight(*g, q) == weight(*g, 0),
    {
        let w: u128 = g.hands[p].len() as u128 + if g.trick.cards[p].is_some() { 1u128 } else { 0u128 };
        assert(w == weight(*g, p as int));
        if w != w0 {
            assert(!balanced(*g)) by {
                assert(weight(*g, p as int) != weight(*g, 0));
            }
            return false;
        }
    }
    assert(balanced(*g)) by {
        assert forall|p: int, q: int| 0 <= p < n && 0 <= q < n implies #[trigger] weight(*g, p) == #[trigger] weight(*g, q) by {
            assert(weight(*g, p) == weight(*g, 0));
            assert(weight(*g, q) == weight(*g, 0));
        }
    }
    true
}

/// Whether the game, with this maker and high bid, is within the bounds `cap` and
/// `lim`.
fn base_with(g: &Game, maker: Option<usize>, high_bid: Points, cap: isize, lim: isize) -> (r: bool)
    ensures
        r == sim_base(Game { maker, high_bid, ..*g }, cap as int, lim as int),
{
    let ghost h = Game { maker, high_bid, ..*g };
    if cap < 0 || lim < 0 || lim > isize::MAX / 16 {
        return false;
    }
    assert(limits_fit(cap as int, lim as int));
    let n = g.options.players;
    let maker_at_table = match maker {
        Some(m) => m < n,
        None => false,
    };
    if !wf_with(g, maker) || !maker_at_table {
        return false;
    }
    assert(h.wf());
    let s = &g.scoring;
    let o = &g.options;
    let consistent = (g.trick.lead_suit.is_none() && trick_empty(&g.trick)) || g.trick.winner.is_some();
    assert(consistent == trick_consistent(g.trick));
    if !consistent || !trick_cards_fit(&g.trick, cap) || !hands_fit(&g.hands, cap) || !cards_fit(&g.nest, cap)
        || !cards_fit(&g.deck, cap) || g.trick.points < 0 {
        return false;
    }
    if nest_points_capped(&g.nest, lim) > lim as i128 {
        return false;
    }
    let total = capped_total(&g.hands, 255);
    let played = count_played(&g.trick.cards);
    proof {
        lemma_total_cards_nonneg(g.hands@);
        lemma_played_count_full(g.trick.cards@);
    }
    if total > 255 || played > 255 || s.trick_count[0] as usize + s.trick_count[1] as usize + total + played > 255 {
        return false;
    }
    if s.points_taken[0] < -lim || s.points_taken[1] < -lim {
        return false;
    }
    assert(0 <= (cap as int) * (total as int) <= 0x8000_0000_0000_0000 * 255) by (nonlinear_arith)
        requires 0 <= cap < 0x8000_0000_0000_0000, 0 <= total <= 255;
    let budget: i128 = s.points_taken[0] as i128 + s.points_taken[1] as i128 + g.trick.points as i128 + (cap as i128)
        * (total as i128);
    if budget > 3 * (lim as i128) {
        return false;
    }
    let defenders_bonus_fits = match o.defenders_win {
        DefendersWin::PointsTaken(b) => fits_limit(b, lim),
    };
    let fits = fits_limit(s.nest[0], lim) && fits_limit(s.last_trick[0], lim) && fits_limit(s.majority_bonus[0], lim)
        && fits_limit(s.bid[0], lim) && fits_limit(s.bonus[0], lim) && fits_limit(s.game[0], lim) && fits_limit(
        s.nest[1],
        lim,
    ) && fits_limit(s.last_trick[1], lim) && fits_limit(s.majority_bonus[1], lim) && fits_limit(s.bid[1], lim)
        && fits_limit(s.bonus[1], lim) && fits_limit(s.game[1], lim) && fits_limit(o.last_trick_pts, lim) && fits_limit(
        o.majority_of_tricks_pts,
        lim,
    ) && fits_limit(o.slam_bonus, lim) && fits_limit(o.max_bid, lim) && defenders_bonus_fits && fits_limit(
        high_bid,
        lim,
    );
    if !fits {
        return false;
    }
    assert(sim_base(h, cap as int, lim as int));
    true
}

/// Whether no card of `s` is worth more than `c`.
pub open spec fn points_below(s: Seq<Card>, c: int) -> bool {
    forall|i: int| 0 <= i < s.len() ==> (#[trigger] s[i]).points <= c
}

/// Whether no card of the first `k` lists is worth more than `c`.
pub open spec fn lists_below(hs: Seq<Vec<Card>>, k: int, c: int) -> bool {
    forall|q: int| 0 <= q < k ==> #[trigger] points_below(hs[q]@, c)
}

/// Whether no card played to the trick is worth more than `c`.
pub open spec fn slots_below(cards: Seq<Option<Card>>, c: int) -> bool {
    forall|i: int| 0 <= i < cards.len() ==> (#[trigger] cards[i] matches Some(x) ==> x.points <= c)
}

/// Whether no card in play, in the hands, the nest, the deck and the trick, and in the
/// exchange when `with_exchange` says so, is worth more than `c`.
pub open spec fn cards_below(g: Game, c: int, with_exchange: bool) -> bool {
    &&& lists_below(g.hands@, g.hands@.len() as int, c)
    &&& points_below(g.nest@, c)
    &&& points_below(g.deck@, c)
    &&& slots_below(g.trick.cards@, c)
    &&& with_exchange ==> points_below(g.exchange@, c)
}

/// The greatest of `m` and the points of the cards.
fn max_points(v: &Vec<Card>, m: isize) -> (r: isize)
    ensures
        r >= m,
        points_below(v@, r as int),
        r == m || exists|j: int| 0 <= j < v@.len() && (#[trigger] v@[j]).points == r,
{
    let n = v.len();
    let mut r = m;
    for i in 0..n
        invariant
            n == v@.len(),
            r >= m,
            forall|j: int| 0 <= j < i ==> (#[trigger] v@[j]).points <= r,
            r == m || exists|j: int| 0 <= j < i && (#[trigger] v@[j]).points == r,
    {
        if v[i].points > r {
            r = v[i].points;
            assert(v@[i as int].points == r);
        }
    }
    r
}

/// The greatest of `m` and the points of the cards played to the trick.
fn max_slot_points(v: &Vec<Option<Card>>, m: isize) -> (r: isize)
    ensures
        r >= m,
        slots_below(v@, r as int),
        r == m || exists|j: int| 0 <= j < v@.len() && (#[trigger] v@[j] matches Some(x) && x.points == r),
{
    let n = v.len();
    let mut r = m;
    for i in 0..n
        invariant
            n == v@.len(),
            r >= m,
            forall|j: int| 0 <= j < i ==> (#[trigger] v@[j] matches Some(x) ==> x.points <= r),
            r == m || exists|j: int| 0 <= j < i && (#[trigger] v@[j] matches Some(x) && x.points == r),
    {
        if let Some(x) = v[i] {
            if x.points > r {
                r = x.points;
                assert(v@[i as int] matches Some(y) && y.points == r);
            }
        }
    }
    r
}

/// Whether `m` is 0 or the points of a card of one of the first `k` lists.
pub open spec fn in_lists(hs: Seq<Vec<Card>>, k: int, m: int) -> bool {
    m == 0 || exists|q: int, j: int| 0 <= q < k && 0 <= j < hs[q]@.len() && (#[trigger] hs[q]@[j]).points == m
}

/// Whether `m` is the points of a card of `s`.
pub open spec fn in_cards(s: Seq<Card>, m: int) -> bool {
    exists|j: int| 0 <= j < s.len() && (#[trigger] s[j]).points == m
}

/// The least bound, at least 0, on the points of the cards in play.
fn card_bound(g: &Game, with_exchange: bool) -> (r: isize)
    ensures
        r >= 0,
        cards_below(*g, r as int, with_exchange),
        forall|c: int| c >= 0 && #[trigger] cards_below(*g, c, with_exchange) ==> r <= c,
{
    let mut m: isize = 0;
    let nh = g.hands.len();
    for p in 0..nh
        invariant
            nh == g.hands@.len(),
            m >= 0,
            lists_below(g.hands@, p as int, m as int),
            in_lists(g.hands@, p as int, m as int),
    {
        let m2 = max_points(&g.hands[p], m);
        proof {
            assert forall|q: int| 0 <= q < p + 1 implies #[trigger] points_below(g.hands@[q]@, m2 as int) by {
                if q < p {
                    assert(points_below(g.hands@[q]@, m as int));
                }
            }
            if m2 != m {
                let j = choose|j: int| 0 <= j < g.hands@[p as int]@.len() && (#[trigger] g.hands@[p as int]@[j]).points == m2;
                assert(g.hands@[p as int]@[j].points == m2);
            } else if m != 0 {
                let (q, j) = choose|q: int, j: int| 0 <= q < p && 0 <= j < g.hands@[q]@.len() && (#[trigger] g.hands@[q]@[j]).points == m;
                assert(g.hands@[q]@[j].points == m2);
            }
        }
        m = m2;
    }
    let m1 = m;
    let m2 = max_points(&g.nest, m1);
    let m3 = max_points(&g.deck, m2);
    let m4 = max_slot_points(&g.trick.cards, m3);
    let m5 = if with_exchange {
        max_points(&g.exchange, m4)
    } else {
        m4
    };
    proof {
        assert(lists_below(g.hands@, g.hands@.len() as int, m5 as int)) by {
            assert forall|q: int| 0 <= q < g.hands@.len() implies #[trigger] points_below(g.hands@[q]@, m5 as int) by {
                assert(points_below(g.hands@[q]@, m1 as int));
            }
        }
        assert(points_below(g.nest@, m5 as int)) by {
            assert forall|i: int| 0 <= i < g.nest@.len() implies (#[trigger] g.nest@[i]).points <= m5 by {
                assert(points_below(g.nest@, m2 as int));
            }
        }
        assert(points_below(g.deck@, m5 as int)) by {
            assert forall|i: int| 0 <= i < g.deck@.len() implies (#[trigger] g.deck@[i]).points <= m5 by {
                assert(points_below(g.deck@, m3 as int));
            }
        }
        assert(slots_below(g.trick.cards@, m5 as int)) by {
            assert forall|i: int| 0 <= i < g.trick.cards@.len() implies (#[trigger] g.trick.cards@[i] matches Some(x) ==> x.points <= m5) by {
                assert(slots_below(g.trick.cards@, m4 as int));
            }
        }
        assert forall|c: int| c >= 0 && #[trigger] cards_below(*g, c, with_exchange) implies m5 <= c by {
            if m1 != 0 {
                let (q, j) = choose|q: int, j: int| 0 <= q < nh && 0 <= j < g.hands@[q]@.len() && (#[trigger] g.hands@[q]@[j]).points == m1;
                assert(points_below(g.hands@[q]@, c));
                assert(g.hands@[q]@[j].points <= c);
            }
            if m2 != m1 {
                let j = choose|j: int| 0 <= j < g.nest@.len() && (#[trigger] g.nest@[j]).points == m2;
                assert(g.nest@[j].points <= c);
            }
            if m3 != m2 {
                let j = choose|j: int| 0 <= j < g.deck@.len() && (#[trigger] g.deck@[j]).points == m3;
                assert(g.deck@[j].points <= c);
            }
            if m4 != m3 {
                let j = choose|j: int| 0 <= j < g.trick.cards@.len() && (#[trigger] g.trick.cards@[j] matches Some(x) && x.points == m4);
                assert(g.trick.cards@[j] matches Some(x) ==> x.points <= c);
            }
            if m5 != m4 {
                let j = choose|j: int| 0 <= j < g.exchange@.len() && (#[trigger] g.exchange@[j]).points == m5;
                assert(g.exchange@[j].points <= c);
            }
        }
    }
    m5
}

/// Whether `l` is at least 0 and bounds the magnitude of every score of the sheet, and
/// the points taken below 0.
pub open spec fn scores_covered(s: Scoring, l: int) -> bool {
    &&& 0 <= l
    &&& s.points_taken[0] >= -l
    &&& s.points_taken[1] >= -l
    &&& small(s.nest[0] as int, l)
    &&& small(s.last_trick[0] as int, l)
    &&& small(s.majority_bonus[0] as int, l)
    &&& small(s.bid[0] as int, l)
    &&& small(s.bonus[0] as int, l)
    &&& small(s.game[0] as int, l)
    &&& small(s.nest[1] as int, l)
    &&& small(s.last_trick[1] as int, l)
    &&& small(s.majority_bonus[1] as int, l)
    &&& small(s.bid[1] as int, l)
    &&& small(s.bonus[1] as int, l)
    &&& small(s.game[1] as int, l)
}

/// Whether `l` is at least 0 and bounds the magnitude of the option values that scoring
/// uses and of the high bid.
pub open spec fn options_covered(o: GameOptions, high_bid: Points, l: int) -> bool {
    &&& 0 <= l
    &&& small(o.last_trick_pts as int, l)
    &&& small(o.majority_of_tricks_pts as int, l)
    &&& small(o.slam_bonus as int, l)
    &&& small(o.max_bid as int, l)
    &&& (o.defenders_win matches DefendersWin::PointsTaken(b) && small(b as int, l))
    &&& small(high_bid as int, l)
}

/// Whether `l` bounds every value that bounds for simulation must cover in the game,
/// with cards worth at most `cap`: the scores, options and high bid, the nest's points,
/// and a third of the points taken together with `cap` for each card in hand.
pub open spec fn lim_covers(g: Game, cap: int, l: int) -> bool {
    let s = g.scoring;
    &&& scores_covered(s, l)
    &&& options_covered(g.options, g.high_bid, l)
    &&& sum_points(g.nest@) <= l
    &&& s.points_taken[0] + s.points_taken[1] + g.trick.points + cap * total_cards(g.hands@) <= 3 * l
}

/// The greater of `l` and the magnitude of `x`.
fn raise_abs(l: i128, x: isize) -> (r: i128)
    ensures
        r == (if l >= x && l >= -x { l as int } else if x >= 0 { x as int } else { -x }),
{
    let a: i128 = if x < 0 { -(x as i128) } else { x as i128 };
    if a > l { a } else { l }
}

/// The greater of `l` and `x`.
fn raise(l: i128, x: i128) -> (r: i128)
    ensures
        r == (if x > l { x } else { l }),
{
    if x > l { x } else { l }
}

/// The least value that covers the score sheet.
fn scores_bound(s: &Scoring) -> (r: i128)
    ensures
        scores_covered(*s, r as int),
        forall|l: int| #[trigger] scores_covered(*s, l) ==> r <= l,
{
    let l0: i128 = 0;
    let l1 = raise_abs(l0, s.nest[0]);
    let l2 = raise_abs(l1, s.last_trick[0]);
    let l3 = raise_abs(l2, s.majority_bonus[0]);
    let l4 = raise_abs(l3, s.bid[0]);
    let l5 = raise_abs(l4, s.bonus[0]);
    let l6 = raise_abs(l5, s.game[0]);
    let l7 = raise_abs(l6, s.nest[1]);
    let l8 = raise_abs(l7, s.last_trick[1]);
    let l9 = raise_abs(l8, s.majority_bonus[1]);
    let l10 = raise_abs(l9, s.bid[1]);
    let l11 = raise_abs(l10, s.bonus[1]);
    let l12 = raise_abs(l11, s.game[1]);
    let l13 = raise(l12, -(s.points_taken[0] as i128));
    let l14 = raise(l13, -(s.points_taken[1] as i128));
    proof {
        assert forall|l: int| #[trigger] scores_covered(*s, l) implies l14 <= l by {
            assert(l1 <= l);
            assert(l2 <= l);
            assert(l3 <= l);
            assert(l4 <= l);
            assert(l5 <= l);
            assert(l6 <= l);
            assert(l7 <= l);
            assert(l8 <= l);
            assert(l9 <= l);
            assert(l10 <= l);
            assert(l11 <= l);
            assert(l12 <= l);
            assert(l13 <= l);
        }
    }
    l14
}

/// The least value that covers the options and the high bid.
fn options_bound(o: &GameOptions, high_bid: Points) -> (r: i128)
    ensures
        options_covered(*o, high_bid, r as int),
        forall|l: int| #[trigger] options_covered(*o, high_bid, l) ==> r <= l,
{
    let l0: i128 = 0;
    let l1 = raise_abs(l0, o.last_trick_pts);
    let l2 = raise_abs(l1, o.majority_of_tricks_pts);
    let l3 = raise_abs(l2, o.slam_bonus);
    let l4 = raise_abs(l3, o.max_bid);
    let l5 = match o.defenders_win {
        DefendersWin::PointsTaken(b) => raise_abs(l4, b),
    };
    let l6 = raise_abs(l5, high_bid);
    proof {
        assert forall|l: int| #[trigger] options_covered(*o, high_bid, l) implies l6 <= l by {
            assert(l1 <= l);
            assert(l2 <= l);
            assert(l3 <= l);
            assert(l4 <= l);
            assert(l5 <= l);
        }
    }
    l6
}

/// The least `l` that covers the game (as `lim_covers` says) with cards worth at most
/// `cap`, when sixteen times it fits in an `isize`; none otherwise.
fn least_lim(g: &Game, maker: Option<usize>, high_bid: Points, cap: isize, total: usize) -> (r: Option<isize>)
    requires
        cap >= 0,
        total == total_cards(g.hands@),
        total <= 255,
        forall|i: int| 0 <= i < g.nest@.len() ==> (#[trigger] g.nest@[i]).points >= 0,
    ensures
        ({
            let h = Game { maker, high_bid, ..*g };
            match r {
                Some(l) => lim_covers(h, cap as int, l as int) && 16 * l <= isize::MAX
                    && forall|l2: int| #[trigger] lim_covers(h, cap as int, l2) ==> l <= l2,
                None => forall|l2: int| #[trigger] lim_covers(h, cap as int, l2) ==> 16 * l2 > isize::MAX,
            }
        }),
{
    let ghost h = Game { maker, high_bid, ..*g };
    let s = &g.scoring;
    let ls = scores_bound(s);
    let lo = options_bound(&g.options, high_bid);
    let l1 = raise(ls, lo);
    let np = nest_points_capped(&g.nest, isize::MAX / 16);
    let l2 = raise(l1, np);
    assert(0 <= (cap as int) * (total as int) <= 0x8000_0000_0000_0000 * 255) by (nonlinear_arith)
        requires 0 <= cap < 0x8000_0000_0000_0000, 0 <= total <= 255;
    let budget: i128 = s.points_taken[0] as i128 + s.points_taken[1] as i128 + g.trick.points as i128 + (cap as i128)
        * (total as i128);
    let third: i128 = if budget <= 0 { 0 } else { (budget + 2) / 3 };
    let l = raise(l2, third);
    proof {
        assert(third * 3 >= budget);
        assert forall|m: int| #[trigger] lim_covers(h, cap as int, m) implies l <= m || 16 * m > isize::MAX by {
            assert(scores_covered(*s, m));
            assert(options_covered(g.options, high_bid, m));
            assert(ls <= m);
            assert(lo <= m);
            assert(third <= m);
            if sum_points(g.nest@) > isize::MAX / 16 {
                assert(16 * m > isize::MAX);
            } else {
                assert(np <= m);
            }
        }
    }
    if l > (isize::MAX / 16) as i128 {
        proof {
            assert forall|m: int| #[trigger] lim_covers(h, cap as int, m) implies 16 * m > isize::MAX by {
                assert(l <= m || 16 * m > isize::MAX);
            }
        }
        None
    } else {
        proof {
            assert(np == sum_points(g.nest@));
            assert(lim_covers(h, cap as int, l as int));
            assert forall|m: int| #[trigger] lim_covers(h, cap as int, m) implies l <= m by {
                assert(l <= m || 16 * m > isize::MAX);
            }
        }
        Some(l as isize)
    }
}

/// Bounds that hold of a game cover it at the least card bound, which is no greater.
proof fn lemma_bounds_cover(h: Game, c2: int, l2: int, cap: int, with_exchange: bool)
    requires
        sim_base(h, c2, l2),
        with_exchange ==> cards_in_range(h.exchange@, c2),
        forall|c: int| c >= 0 && #[trigger] cards_below(h, c, with_exchange) ==> cap <= c,
        cap >= 0,
    ensures
        cap <= c2,
        lim_covers(h, cap, l2),
{
    assert(cards_below(h, c2, with_exchange)) by {
        assert forall|q: int| 0 <= q < h.hands@.len() implies #[trigger] points_below(h.hands@[q]@, c2) by {
            assert(cards_in_range(h.hands@[q]@, c2));
        }
    }
    let t = total_cards(h.hands@);
    lemma_total_cards_nonneg(h.hands@);
    assert(cap * t <= c2 * t) by (nonlinear_arith)
        requires 0 <= cap <= c2, 0 <= t;
}

/// Bounds that hold of a game still hold at the least card bound and a covering value
/// below them.
proof fn lemma_least_bounds_hold(h: Game, c2: int, l2: int, cap: int, lim: int, with_exchange: bool)
    requires
        sim_base(h, c2, l2),
        with_exchange ==> cards_in_range(h.exchange@, c2),
        cards_below(h, cap, with_exchange),
        cap >= 0,
        lim_covers(h, cap, lim),
        lim <= l2,
    ensures
        sim_base(h, cap, lim),
        with_exchange ==> cards_in_range(h.exchange@, cap),
{
    assert forall|p: int| 0 <= p < h.hands@.len() implies cards_in_range(#[trigger] h.hands@[p]@, cap) by {
        assert(cards_in_range(h.hands@[p]@, c2));
        assert(points_below(h.hands@[p]@, cap));
    }
    assert(trick_cards_in_range(h.trick, cap)) by {
        assert forall|i: int| 0 <= i < h.trick.cards@.len() implies (#[trigger] h.trick.cards@[i] matches Some(c) ==> crate::simulation::card_in_range(c, cap)) by {
            assert(h.trick.cards@[i] matches Some(c) ==> crate::simulation::card_in_range(c, c2));
        }
    }
}

/// The least bounds under which the game, with this maker and high bid, can be
/// simulated (with the exchange's cards also in range when `with_exchange` says so): a
/// card bound and the least value bound for it; none when no bounds hold.
fn least_bounds(g: &Game, maker: Option<usize>, high_bid: Points, with_exchange: bool) -> (r: Option<(isize, isize)>)
    ensures
        ({
            let h = Game { maker, high_bid, ..*g };
            match r {
                Some((c, l)) => sim_base(h, c as int, l as int) && (with_exchange ==> cards_in_range(g.exchange@, c as int))
                    && forall|c2: int, l2: int| #[trigger] sim_base(h, c2, l2) && (with_exchange ==> cards_in_range(g.exchange@, c2)) ==> l <= l2,
                None => forall|c2: int, l2: int| #[trigger] sim_base(h, c2, l2) ==> !(with_exchange ==> cards_in_range(g.exchange@, c2)),
            }
        }),
{
    let ghost h = Game { maker, high_bid, ..*g };
    let cap = card_bound(g, with_exchange);
    assert forall|c: int| c >= 0 && #[trigger] cards_below(h, c, with_exchange) implies cap <= c by {
        assert(cards_below(*g, c, with_exchange));
    }
    if !cards_fit(&g.nest, cap) {
        proof {
            assert forall|c2: int, l2: int| #[trigger] sim_base(h, c2, l2) implies !(with_exchange ==> cards_in_range(g.exchange@, c2)) by {
                if with_exchange ==> cards_in_range(g.exchange@, c2) {
                    lemma_bounds_cover(h, c2, l2, cap as int, with_exchange);
                    assert(cards_in_range(g.nest@, cap as int)) by {
                        assert forall|i: int| 0 <= i < g.nest@.len() implies crate::simulation::card_in_range(#[trigger] g.nest@[i], cap as int) by {
                            assert(crate::simulation::card_in_range(g.nest@[i], c2));
                            assert(points_below(g.nest@, cap as int));
                        }
                    }
                }
            }
        }
        return None;
    }
    let total = capped_total(&g.hands, 255);
    proof {
        lemma_total_cards_nonneg(g.hands@);
        lemma_played_count_full(g.trick.cards@);
        crate::simulation::lemma_played_count_nonneg(g.trick.cards@);
    }
    if total > 255 {
        return None;
    }
    match least_lim(g, maker, high_bid, cap, total) {
        None => {
            proof {
                assert forall|c2: int, l2: int| #[trigger] sim_base(h, c2, l2) implies !(with_exchange ==> cards_in_range(g.exchange@, c2)) by {
                    if with_exchange ==> cards_in_range(g.exchange@, c2) {
                        lemma_bounds_cover(h, c2, l2, cap as int, with_exchange);
                    }
                }
            }
            None
        },
        Some(lim) => {
            let ok = base_with(g, maker, high_bid, cap, lim) && (!with_exchange || cards_fit(&g.exchange, cap));
            proof {
                assert forall|c2: int, l2: int| #[trigger] sim_base(h, c2, l2) && (with_exchange ==> cards_in_range(g.exchange@, c2)) implies ok && lim <= l2 by {
                    lemma_bounds_cover(h, c2, l2, cap as int, with_exchange);
                    assert(cards_below(h, cap as int, with_exchange));
                    lemma_least_bounds_hold(h, c2, l2, cap as int, lim as int, with_exchange);
                }
            }
            if ok {
                Some((cap, lim))
            } else {
                None
            }
        },
    }
}

/// Whether `n` simulated scores, each at most eight times `lim` in magnitude, add up
/// within an `isize`.
fn totals_check(n: usize, lim: isize) -> (r: bool)
    requires
        0 <= lim,
        16 * lim <= isize::MAX,
    ensures
        r == totals_fit(n as int, lim as int),
{
    let per: u128 = 8 * (lim as u128);
    assert((n as u128) * per < 0x1_0000_0000_0000_0000_0000_0000_0000_0000) by (nonlinear_arith)
        requires n < 0x1_0000_0000_0000_0000, per < 0x1_0000_0000_0000_0000;
    (n as u128) * per <= (isize::MAX as u128)
}

/// Room for a total at a bound leaves room at any smaller bound.
proof fn lemma_totals_mono(n: int, l: int, l2: int)
    requires
        0 <= n,
        0 <= l <= l2,
        totals_fit(n, l2),
    ensures
        totals_fit(n, l),
{
    assert(n * (8 * l) <= n * (8 * l2)) by (nonlinear_arith)
        requires 0 <= n, 0 <= l <= l2;
}

/// Whether the total rank of the cards of a suit fits in a byte.
fn suit_score_fits(cards: &[Card], suit: Suit) -> (r: bool)
    ensures
        r == (suit_score(cards@, suit) <= u8::MAX),
{
    let n = cards.len();
    let mut sum: u64 = 0;
    for i in 0..n
        invariant
            n == cards@.len(),
            sum == (if suit_score(cards@.take(i as int), suit) <= 256 { suit_score(cards@.take(i as int), suit) } else { 256 }),
    {
        proof {
            assert(cards@.take(i + 1).drop_last() == cards@.take(i as int));
            assert(cards@.take(i + 1).last() == cards@[i as int]);
            lemma_suit_score_nonneg(cards@.take(i as int), suit);
        }
        if sum <= 256 && cards[i].suit == suit {
            sum = sum + cards[i].rank as u64;
            if sum > 256 {
                sum = 256;
            }
        }
    }
    proof {
        assert(cards@.take(n as int) == cards@);
    }
    sum <= 255
}

/// A suit's score is not negative.
proof fn lemma_suit_score_nonneg(cards: Seq<Card>, suit: Suit)
    ensures
        suit_score(cards, suit) >= 0,
    decreases cards.len(),
{
    if cards.len() > 0 {
        lemma_suit_score_nonneg(cards.drop_last(), suit);
    }
}

/// Whether the suits of the cards can be scored, as the bot does to find its best suit.
pub fn suits_fit(cards: &[Card]) -> (r: bool)
    ensures
        r == (suit_score(cards@, Suit::Club) <= u8::MAX && suit_score(cards@, Suit::Diamond) <= u8::MAX
            && suit_score(cards@, Suit::Heart) <= u8::MAX && suit_score(cards@, Suit::Spade) <= u8::MAX),
{
    suit_score_fits(cards, Suit::Club) && suit_score_fits(cards, Suit::Diamond) && suit_score_fits(cards, Suit::Heart)
        && suit_score_fits(cards, Suit::Spade)
}

/// Whether the game, with this maker and high bid, was played in turn with balanced
/// hands.
fn turn_and_balance(g: &Game, maker: Option<usize>, high_bid: Points) -> (r: bool)
    requires
        table_wf(*g),
    ensures
        r == (in_turn(Game { maker, high_bid, ..*g }) && balanced(Game { maker, high_bid, ..*g })),
{
    let ghost h = Game { maker, high_bid, ..*g };
    let r = played_in_turn(g) && hands_balanced(g);
    assert(in_turn(h) == in_turn(*g)) by {
        let n = g.options.players as int;
        assert forall|p: int| #[trigger] filled(h, p) == filled(*g, p) by {}
        assert(played_count(h.trick.cards@) == played_count(g.trick.cards@));
        if in_turn(*g) {
            assert forall|j: int| 0 <= j < n implies (filled(h, #[trigger] seat_after(h.active as int, j, n)) <==> j >= n - played_count(h.trick.cards@)) by {
                assert(filled(*g, seat_after(g.active as int, j, n)) <==> j >= n - played_count(g.trick.cards@));
            }
        }
        if in_turn(h) {
            assert forall|j: int| 0 <= j < n implies (filled(*g, #[trigger] seat_after(g.active as int, j, n)) <==> j >= n - played_count(g.trick.cards@)) by {
                assert(filled(h, seat_after(h.active as int, j, n)) <==> j >= n - played_count(h.trick.cards@));
            }
        }
    }
    assert(balanced(h) == balanced(*g)) by {
        let n = g.options.players as int;
        assert forall|p: int| #[trigger] weight(h, p) == weight(*g, p) by {}
        if balanced(*g) {
            assert forall|p: int, q: int| 0 <= p < n && 0 <= q < n implies #[trigger] weight(h, p) == #[trigger] weight(h, q) by {
                assert(weight(*g, p) == weight(*g, q));
            }
        }
        if balanced(h) {
            assert forall|p: int, q: int| 0 <= p < n && 0 <= q < n implies #[trigger] weight(*g, p) == #[trigger] weight(*g, q) by {
                assert(weight(h, p) == weight(h, q));
            }
        }
    }
    r
}

/// Whether the hand can be played out and scored by simulation from this state: some
/// bounds that fit hold, the trick was played in turn and the hands are balanced.
pub fn simulation_ready(g: &Game) -> (r: bool)
    ensures
        r == exists|c: int, l: int| #[trigger] sim_ready(*g, c, l),
{
    assert(Game { maker: g.maker, high_bid: g.high_bid, ..*g } == *g);
    match least_bounds(g, g.maker, g.high_bid, false) {
        None => false,
        Some((c, l)) => {
            let r = turn_and_balance(g, g.maker, g.high_bid);
            proof {
                if r {
                    assert(sim_ready(*g, c as int, l as int));
                }
            }
            r
        },
    }
}

/// Whether the bot can be asked for a bid in this state, with this many simulations.
pub fn bid_ready(game: &Game, simulations: usize) -> (r: bool)
    ensures
        r == (bid_fits(*game, simulations as int) && game.trick.lead_suit.is_none() && !game.trick.is_complete()
            && game.hand(game.active as int).len() > 0
            && suit_score(game.hand(game.active as int), Suit::Club) <= u8::MAX
            && suit_score(game.hand(game.active as int), Suit::Diamond) <= u8::MAX
            && suit_score(game.hand(game.active as int), Suit::Heart) <= u8::MAX
            && suit_score(game.hand(game.active as int), Suit::Spade) <= u8::MAX),
{
    let ghost h = bidding_state(*game);
    match least_bounds(game, Some(game.active), 0, true) {
        None => {
            assert(!bid_fits(*game, simulations as int));
            false
        },
        Some((c, l)) => {
            let ok = turn_and_balance(game, Some(game.active), 0) && totals_check(simulations, l);
            proof {
                if ok {
                    assert(sim_ready(h, c as int, l as int) && cards_in_range(game.exchange@, c as int)
                        && totals_fit(simulations as int, l as int));
                }
                if bid_fits(*game, simulations as int) {
                    let (c2, l2) = choose|c2: int, l2: int| #[trigger] sim_ready(h, c2, l2)
                        && cards_in_range(game.exchange@, c2) && totals_fit(simulations as int, l2);
                    assert(sim_base(h, c2, l2));
                    lemma_totals_mono(simulations as int, l as int, l2);
                }
            }
            ok && game.trick.lead_suit.is_none() && !game.trick.completed() && game.hands[game.active].len() > 0
                && suits_fit(game.hands[game.active].as_slice())
        },
    }
}

/// Whether the bot can be asked which card to play in this state, with this many
/// simulations.
pub fn play_ready(game: &Game, simulations: usize) -> (r: bool)
    ensures
        r == (sim_fits(*game, simulations as int) && !game.trick.is_complete() && game.hand(game.active as int).len() > 0),
{
    assert(Game { maker: game.maker, high_bid: game.high_bid, ..*game } == *game);
    match least_bounds(game, game.maker, game.high_bid, false) {
        None => {
            assert(!sim_fits(*game, simulations as int));
            false
        },
        Some((c, l)) => {
            let ok = turn_and_balance(game, game.maker, game.high_bid) && totals_check(simulations, l);
            proof {
                if ok {
                    assert(sim_ready(*game, c as int, l as int) && totals_fit(simulations as int, l as int));
                }
                if sim_fits(*game, simulations as int) {
                    let (c2, l2) = choose|c2: int, l2: int| #[trigger] sim_ready(*game, c2, l2)
                        && totals_fit(simulations as int, l2);
                    assert(sim_base(*game, c2, l2));
                    lemma_totals_mono(simulations as int, l as int, l2);
                }
            }
            ok && !game.trick.completed() && game.hands[game.active].len() > 0
        },
    }
}

/// Whether the bot can be asked for its discards in this state.
pub fn discards_ready(game: &Game, exchange_size: usize) -> (r: bool)
    ensures
        r == (discard_ready(*game, exchange_size as int) && 1 <= exchange_size <= eligible_cards(
            game.hand(game.active as int),
        ).len()),
{
    assert(Game { maker: game.maker, high_bid: game.high_bid, ..*game } == *game);
    let bounded = match least_bounds(game, game.maker, game.high_bid, false) {
        None => false,
        Some((c, l)) => {
            let ok = totals_check(100, l);
            proof {
                if ok {
                    assert(sim_base(*game, c as int, l as int) && totals_fit(100, l as int));
                }
                assert forall|c2: int, l2: int| #[trigger] sim_base(*game, c2, l2) && totals_fit(100, l2) implies ok by {
                    lemma_totals_mono(100, l as int, l2);
                }
            }
            ok
        },
    };
    if !bounded {
        return false;
    }
    let a = game.active;
    let n = game.options.players;
    let len = game.hands[a].len();
    if !(game.trick.lead_suit.is_none() && trick_empty(&game.trick) && len > exchange_size) {
        return false;
    }
    for p in 0..n
        invariant
            n == game.options.players,
            a == game.active,
            game.wf(),
            len == game.hand(a as int).len(),
            len > exchange_size,
            forall|q: int| 0 <= q < p && q != a ==> #[trigger] game.hand(q).len() + exchange_size == len,
    {
        if p != a && game.hands[p].len() != len - exchange_size {
            assert(game.hand(p as int).len() + exchange_size != len);
            return false;
        }
    }
    let eligible = count_eligible_cards(&game.hands[a]);
    1 <= exchange_size && exchange_size <= eligible
}

/// The number of eligible cards.
fn count_eligible_cards(v: &Vec<Card>) -> (r: usize)
    ensures
        r == eligible_cards(v@).len(),
{
    let n = v.len();
    let mut k: usize = 0;
    for i in 0..n
        invariant
            n == v@.len(),
            k == eligible_cards(v@.take(i as int)).len(),
            k <= i,
    {
        proof {
            assert(v@.take(i + 1) == v@.take(i as int).push(v@[i as int]));
            v@.take(i as int).lemma_filter_push(v@[i as int], |c: Card| c.eligible);
        }
        if v[i].eligible {
            k = k + 1;
        }
    }
    proof {
        assert(v@.take(n as int) == v@);
    }
    k
}

/// Whether the trump suit can be chosen by the bot in this state.
pub fn trump_ready(game: &Game) -> (r: bool)
    ensures
        r == (game.active < game.hands@.len() && suit_score(game.hand(game.active as int), Suit::Club) <= u8::MAX
            && suit_score(game.hand(game.active as int), Suit::Diamond) <= u8::MAX
            && suit_score(game.hand(game.active as int), Suit::Heart) <= u8::MAX
            && suit_score(game.hand(game.active as int), Suit::Spade) <= u8::MAX),
{
    game.active < game.hands.len() && suits_fit(game.hands[game.active].as_slice())
}

} // verus!
