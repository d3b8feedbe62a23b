use vstd::prelude::*;

use crate::card::{Card, Id, Points, Rank, Suit};
use crate::game_options::{
    BiddersLose, BiddersWin, DefendersLose, DefendersWin, DiscardedPointCards, FirstPlayer,
    GameOptions, JokerKind, MajorityTricksTie, NestAwarded,
};
use crate::hand::{face_down_first, joker_as, lemma_map_permutation, put_face_down_first, sort_cards, sorted_hand};
use crate::random::{random_index, shuffle};
use crate::scoring::Scoring;
use crate::trick::Trick;

verus! {

/// Whether hidden cards are shown anyway, for debugging.
pub const DEBUGGING: bool = false;

/// What a player, human or bot, decides to do.
#[derive(Clone, Debug)]
pub enum PlayerAction {
    Bid(Bid),
    /// A human moves a card between hand and exchange.
    Exchange(Id),
    /// A bot discards these cards.
    Discard(Vec<Id>),
    DoneExchanging,
    ChooseTrump(Suit),
    PlayCard(Id),
    NextHand,
    ShouldExit,
}

/// A bid: a pass or a number of points.
#[derive(Clone, Copy, Debug, PartialEq, Eq, Structural)]
pub enum Bid {
    Pass,
    Points(Points),
}

/// The state of a game.
#[derive(Clone, Debug)]
pub struct Game {
    pub options: GameOptions,
    pub bot_players: Vec<bool>,
    pub scoring: Scoring,
    pub deck: Vec<Card>,
    pub exchange: Vec<Card>,
    pub nest: Vec<Card>,
    pub hands: Vec<Vec<Card>>,
    pub bids: Vec<Option<Bid>>,
    pub taken: Vec<Vec<Card>>,
    pub dealer: usize,
    /// The active player.
    pub active: usize,
    pub exchange_face_up_count: usize,
    pub nest_face_up_count: usize,
    /// The high bidder.
    pub maker: Option<usize>,
    pub high_bid: Points,
    /// The hand's trump suit.
    pub trump_suit: Option<Suit>,
    /// The current trick.
    pub trick: Trick,
    pub last_trick_winner: usize,
    pub hand_cards_to_deal: usize,
    pub exchange_cards_to_deal: usize,
    pub nest_cards_to_deal: usize,
}

/// The cards of `s` with each joker's suit set to `suit`.
pub open spec fn jokers_as(s: Seq<Card>, suit: Suit) -> Seq<Card> {
    s.map_values(|c: Card| joker_as(c, suit))
}

/// The cards of `s`, each turned face up or down as `up` says.
pub open spec fn turned(s: Seq<Card>, up: bool) -> Seq<Card> {
    s.map_values(|c: Card| Card { face_up: up, ..c })
}

/// The number of cards in `s` worth `pts` points.
pub open spec fn count_worth(s: Seq<Card>, pts: Points) -> int {
    s.filter(|c: Card| c.points == pts).len() as int
}

/// Whether `s` holds a card with this id.
pub open spec fn has_id(s: Seq<Card>, id: Id) -> bool {
    exists|i: int| 0 <= i < s.len() && (#[trigger] s[i]).id == id
}

/// Whether `i` is the first position in `s` of a card with this id.
pub open spec fn is_first_id(s: Seq<Card>, id: Id, i: int) -> bool {
    &&& 0 <= i < s.len()
    &&& s[i].id == id
    &&& forall|j: int| 0 <= j < i ==> (#[trigger] s[j]).id != id
}

/// The position of the first card with this id, if any.
pub(crate) fn position_of_id(v: &Vec<Card>, id: Id) -> (r: Option<usize>)
    ensures
        r matches Some(i) ==> is_first_id(v@, id, i as int),
        r is None ==> !has_id(v@, id),
{
    let n = v.len();
    for i in 0..n
        invariant
            n == v@.len(),
            forall|j: int| 0 <= j < i ==> (#[trigger] v@[j]).id != id,
    {
        if v[i].id == id {
            return Some(i);
        }
    }
    None
}

/// Two sequences whose cards are worth the same, position by position, have as many
/// cards worth `pts`.
proof fn lemma_count_worth_same_points(s: Seq<Card>, t: Seq<Card>, pts: Points)
    requires
        s.len() == t.len(),
        forall|j: int| 0 <= j < s.len() ==> (#[trigger] s[j]).points == t[j].points,
    ensures
        count_worth(s, pts) == count_worth(t, pts),
    decreases s.len(),
{
    if s.len() > 0 {
        let s0 = s.drop_last();
        let t0 = t.drop_last();
        lemma_count_worth_same_points(s0, t0, pts);
        assert(s == s0.push(s.last()));
        assert(t == t0.push(t.last()));
        s0.lemma_filter_push(s.last(), |c: Card| c.points == pts);
        t0.lemma_filter_push(t.last(), |c: Card| c.points == pts);
    } else {
        assert(s.filter(|c: Card| c.points == pts).len() == 0);
        assert(t.filter(|c: Card| c.points == pts).len() == 0);
    }
}

/// Marks every card eligible.
fn mark_all_eligible(v: &mut Vec<Card>)
    ensures
        final(v)@ == old(v)@.map_values(|c: Card| Card { eligible: true, ..c }),
{
    let ghost s = v@;
    let n = v.len();
    for i in 0..n
        invariant
            n == s.len(),
            v@.len() == n,
            forall|j: int| 0 <= j < i ==> v@[j] == (Card { eligible: true, ..s[j] }),
            forall|j: int| i <= j < n ==> v@[j] == s[j],
    {
        let c = v[i];
        v.set(i, Card { eligible: true, ..c });
    }
    assert(v@ =~= s.map_values(|c: Card| Card { eligible: true, ..c }));
}

/// Marks eligible exactly the cards worth `pts`; returns how many there are.
fn mark_only_worth(v: &mut Vec<Card>, pts: Points) -> (k: usize)
    ensures
        final(v)@ == old(v)@.map_values(|c: Card| Card { eligible: c.points == pts, ..c }),
        k == count_worth(old(v)@, pts),
{
    let ghost s = v@;
    let n = v.len();
    let mut k: usize = 0;
    for i in 0..n
        invariant
            n == s.len(),
            v@.len() == n,
            forall|j: int| 0 <= j < i ==> v@[j] == (Card { eligible: s[j].points == pts, ..s[j] }),
            forall|j: int| i <= j < n ==> v@[j] == s[j],
            k == count_worth(s.take(i as int), pts),
            k <= i,
    {
        proof {
            assert(s.take(i + 1) == s.take(i as int).push(s[i as int]));
            s.take(i as int).lemma_filter_push(s[i as int], |c: Card| c.points == pts);
        }
        let c = v[i];
        v.set(i, Card { eligible: c.points == pts, ..c });
        if c.points == pts {
            k = k + 1;
        }
    }
    assert(s.take(n as int) == s);
    assert(v@ =~= s.map_values(|c: Card| Card { eligible: c.points == pts, ..c }));
    k
}

/// Also marks eligible the cards worth `pts`; returns how many there are.
fn mark_also_worth(v: &mut Vec<Card>, pts: Points) -> (k: usize)
    ensures
        final(v)@ == old(v)@.map_values(|c: Card| Card { eligible: c.eligible || c.points == pts, ..c }),
        k == count_worth(old(v)@, pts),
{
    let ghost s = v@;
    let n = v.len();
    let mut k: usize = 0;
    for i in 0..n
        invariant
            n == s.len(),
            v@.len() == n,
            forall|j: int| 0 <= j < i ==> v@[j] == (Card { eligible: s[j].eligible || s[j].points == pts, ..s[j] }),
            forall|j: int| i <= j < n ==> v@[j] == s[j],
            k == count_worth(s.take(i as int), pts),
            k <= i,
    {
        proof {
            assert(s.take(i + 1) == s.take(i as int).push(s[i as int]));
            s.take(i as int).lemma_filter_push(s[i as int], |c: Card| c.points == pts);
        }
        let c = v[i];
        v.set(i, Card { eligible: c.eligible || c.points == pts, ..c });
        if c.points == pts {
            k = k + 1;
        }
    }
    assert(s.take(n as int) == s);
    assert(v@ =~= s.map_values(|c: Card| Card { eligible: c.eligible || c.points == pts, ..c }));
    k
}

/// The position of the first card with this id, or 0 when there is none.
pub open spec fn first_id_or_zero(s: Seq<Card>, id: Id) -> int {
    if has_id(s, id) {
        choose|i: int| is_first_id(s, id, i)
    } else {
        0
    }
}

/// There is at most one first position of an id, and it exists when the id does.
pub proof fn lemma_first_id(s: Seq<Card>, id: Id, i: int)
    requires
        is_first_id(s, id, i),
    ensures
        first_id_or_zero(s, id) == i,
{
    let k = first_id_or_zero(s, id);
    assert(is_first_id(s, id, k));
    if k < i {
        assert(s[k].id != id);
    }
    if i < k {
        assert(s[i].id != id);
    }
}

/// Rust's integer division, which rounds toward zero.
pub open spec fn trunc_div(a: int, b: int) -> int {
    if a >= 0 {
        a / b
    } else {
        -((-a) / b)
    }
}

/// The remainder of Rust's integer division, which takes the sign of `a`.
pub open spec fn trunc_rem(a: int, b: int) -> int {
    a - trunc_div(a, b) * b
}

/// The cards of a complete trick, turned face down.
pub open spec fn trick_cards(t: Trick) -> Seq<Card> {
    t.cards@.map_values(|o: Option<Card>| Card { face_up: false, ..o->0 })
}

/// The total of the points of the cards.
pub open spec fn sum_points(s: Seq<Card>) -> int
    decreases s.len(),
{
    if s.len() == 0 {
        0
    } else {
        sum_points(s.drop_last()) + s.last().points
    }
}

/// Whether a value fits in the points type.
pub open spec fn fits(x: int) -> bool {
    isize::MIN <= x <= isize::MAX
}

/// The pair `a` with entry `t` replaced by `v`.
fn with_entry(a: [Points; 2], t: usize, v: Points) -> (r: [Points; 2])
    requires
        t < 2,
    ensures
        r[t as int] == v,
        r[1 - t] == a[1 - t],
{
    if t == 0 {
        [v, a[1]]
    } else {
        [a[0], v]
    }
}

/// The card made from an entry of a deck list, with the given id.
pub open spec fn card_from(id: int, e: (Suit, Rank, Points)) -> Card {
    Card { id: id as u8, suit: e.0, rank: e.1, is_joker: e.0 == Suit::Joker, points: e.2, face_up: false, eligible: false }
}

/// The cards made from a deck list, numbered from 0.
pub open spec fn cards_from(d: Seq<(Suit, Rank, Points)>) -> Seq<Card> {
    Seq::new(d.len(), |i: int| card_from(i, d[i]))
}

/// A copy of a vector of copyable values.
pub fn copy_vec<T: Copy>(v: &Vec<T>) -> (r: Vec<T>)
    ensures
        r@ == v@,
{
    let mut r: Vec<T> = Vec::new();
    let n = v.len();
    for i in 0..n
        invariant
            n == v@.len(),
            r@ == v@.take(i as int),
    {
        r.push(v[i]);
        assert(v@.take(i + 1) == v@.take(i as int).push(v@[i as int]));
    }
    assert(v@.take(n as int) == v@);
    r
}

/// Whether two lists of card lists hold the same cards.
pub open spec fn same_lists(a: Seq<Vec<Card>>, b: Seq<Vec<Card>>) -> bool {
    a.len() == b.len() && forall|i: int| 0 <= i < a.len() ==> (#[trigger] a[i])@ == b[i]@
}

/// A copy of a list of card lists.
fn copy_card_lists(v: &Vec<Vec<Card>>) -> (r: Vec<Vec<Card>>)
    ensures
        same_lists(r@, v@),
{
    let mut r: Vec<Vec<Card>> = Vec::new();
    let n = v.len();
    for i in 0..n
        invariant
            n == v@.len(),
            r@.len() == i,
            forall|j: int| 0 <= j < i ==> (#[trigger] r@[j])@ == v@[j]@,
    {
        r.push(copy_vec(&v[i]));
    }
    r
}

/// The team of a player: players sit alternately in the two teams.
pub open spec fn team_of(player: int) -> int {
    player % 2
}

/// Sets the suit of each joker among the cards to `suit`.
fn set_jokers_in(v: &mut Vec<Card>, suit: Suit)
    ensures
        final(v)@ == jokers_as(old(v)@, suit),
{
    let ghost s = v@;
    let n = v.len();
    for i in 0..n
        invariant
            n == s.len(),
            v@.len() == n,
            forall|j: int| 0 <= j < i ==> v@[j] == joker_as(s[j], suit),
            forall|j: int| i <= j < n ==> v@[j] == s[j],
    {
        let c = v[i];
        if c.is_joker {
            v.set(i, Card { suit: suit, ..c });
        }
    }
    assert(v@ == jokers_as(s, suit));
}

/// Taking the successor modulo `n` does not depend on reducing first.
pub proof fn lemma_mod_succ(a: int, n: int)
    requires
        n >= 1,
        a >= 0,
    ensures
        ((a % n) + 1) % n == (a + 1) % n,
{
    if n == 1 {
        vstd::arithmetic::div_mod::lemma_mod_self_0(1);
        assert(((a % n) + 1) % n == 0) by (nonlinear_arith) requires n == 1;
        assert((a + 1) % n == 0) by (nonlinear_arith) requires n == 1;
    } else {
        vstd::arithmetic::div_mod::lemma_add_mod_noop(a, 1, n);
        vstd::arithmetic::div_mod::lemma_small_mod(1, n as nat);
    }
}

/// Every seat `q` is reached from seat `a` by stepping forward between 1 and `n` times.
pub proof fn lemma_seat_reached(a: int, q: int, n: int) -> (k: int)
    requires
        n >= 1,
        0 <= a < n,
        0 <= q < n,
    ensures
        1 <= k <= n,
        (a + k) % n == q,
{
    let k = if q > a { q - a } else { q - a + n };
    assert((a + k) % n == q) by {
        if q > a {
            vstd::arithmetic::div_mod::lemma_small_mod(q as nat, n as nat);
        } else {
            vstd::arithmetic::div_mod::lemma_mod_add_multiples_vanish(q, n);
            vstd::arithmetic::div_mod::lemma_small_mod(q as nat, n as nat);
        }
    }
    k
}

/// The seat `j` places after seat `a` around a table of `n`.
pub open spec fn seat_after(a: int, j: int, n: int) -> int {
    (a + j) % n
}

/// The number of bids of points in a list of bids.
pub open spec fn point_bid_count(bids: Seq<Option<Bid>>) -> int
    decreases bids.len(),
{
    if bids.len() == 0 {
        0
    } else {
        point_bid_count(bids.drop_last()) + (if bids.last() matches Some(Bid::Points(_)) { 1int } else { 0 })
    }
}

impl Game {
    /// The shape the game keeps: one entry per player in each per-player list, and
    /// player indices in range.
    pub open spec fn wf(&self) -> bool {
        let n = self.options.players;
        &&& n >= 1
        &&& self.bot_players@.len() == n
        &&& self.hands@.len() == n
        &&& self.bids@.len() == n
        &&& self.taken@.len() == n
        &&& self.trick.cards@.len() == n
        &&& self.active < n
        &&& self.dealer < n
        &&& self.last_trick_winner < n
        &&& (self.maker matches Some(m) ==> m < n)
        &&& (self.trick.winner matches Some(w) ==> w < n)
        &&& self.trick.wf()
    }

    /// The cards in the hand of player `p`.
    pub open spec fn hand(&self, p: int) -> Seq<Card> {
        self.hands@[p]@
    }

    /// The effect of `deal_card_to_hand` on the game.
    pub open spec fn deal_card_to_hand_post(g0: Game, g1: Game) -> bool {
        &&& g1.wf()
        &&& g1.deck@ =~= g0.deck@.drop_last()
        &&& g1.hands@.len() == g0.hands@.len()
        &&& g1.hand(g0.active as int) =~= g0.hand_after_deal(g0.active as int, g0.deck@.last())
        &&& forall|q: int| 0 <= q < g0.hands@.len() && q != g0.active ==> #[trigger] g1.hands@[q] == g0.hands@[q]
        &&& g1.active == (g0.active + 1) % (g0.options.players as int)
        &&& g1 == (Game { deck: g1.deck, hands: g1.hands, active: g1.active, ..g0 })
    }

    /// The effect of `deal_card_to_nest` on the game.
    pub open spec fn deal_card_to_nest_post(g0: Game, g1: Game) -> bool {
        &&& g1.deck@ =~= g0.deck@.drop_last()
        &&& g0.nest_face_up_count < g0.options.nest_face_up ==> {
            &&& g1.nest@ =~= g0.nest@.push(Card { face_up: true, ..g0.deck@.last() })
            &&& g1.nest_face_up_count == g0.nest_face_up_count + 1
        }
        &&& g0.nest_face_up_count >= g0.options.nest_face_up ==> {
            &&& g1.nest@ =~= g0.nest@.push(g0.deck@.last())
            &&& g1.nest_face_up_count == g0.nest_face_up_count
        }
        &&& g1 == (Game {
            deck: g1.deck,
            nest: g1.nest,
            nest_face_up_count: g1.nest_face_up_count,
            ..g0
        })
    }

    /// The effect of `make_bid` on the game.
    pub open spec fn make_bid_post(g0: Game, g1: Game, bid: Bid) -> bool {
        &&& g1.bids@ =~= g0.bids_after(bid)
        &&& match bid {
            Bid::Points(p) => {
                &&& g1.high_bid == p
                &&& g1.maker == Some(g0.active)
                &&& g1.scoring.bid[0] == (if team_of(g0.active as int) == 0 { p } else { 0 })
                &&& g1.scoring.bid[1] == (if team_of(g0.active as int) == 1 { p } else { 0 })
                &&& g1.scoring == (Scoring { bid: g1.scoring.bid, ..g0.scoring })
            },
            Bid::Pass => {
                &&& g1.high_bid == g0.high_bid
                &&& g1.maker == g0.maker
                &&& g1.scoring == g0.scoring
            },
        }
        &&& g1 == (Game {
            bids: g1.bids,
            high_bid: g1.high_bid,
            maker: g1.maker,
            scoring: g1.scoring,
            ..g0
        })
    }

    /// The effect of `move_exchange_cards_to_maker` on the game.
    pub open spec fn move_exchange_cards_to_maker_post(g0: Game, g1: Game) -> bool {
        &&& g1.exchange@.len() == 0
        &&& g1.hands@.len() == g0.hands@.len()
        &&& g1.hand(g0.maker->0 as int) =~= g0.hand_with_exchange(g0.maker->0 as int)
        &&& forall|q: int| 0 <= q < g0.hands@.len() && q != g0.maker->0 ==> #[trigger] g1.hands@[q] == g0.hands@[q]
        &&& g1 == (Game { exchange: g1.exchange, hands: g1.hands, ..g0 })
    }

    /// The effect of `swap_with_exchange` on the game.
    pub open spec fn swap_with_exchange_post(g0: Game, g1: Game, id: Id) -> bool {
        &&& ({
            let m = g0.maker->0 as int;
            let h = g0.hand(m);
            let e = g0.exchange@;
            if has_id(h, id) {
                if e.len() == g0.options.exchange_size {
                    g1 == g0
                } else {
                    exists|i: int| {
                        &&& #[trigger] is_first_id(h, id, i)
                        &&& g1.hands@ =~= g0.hands@.update(m, g1.hands@[m])
                        &&& g1.hand(m) =~= h.remove(i)
                        &&& g1.exchange@ =~= e.push(h[i])
                        &&& g1 == (Game { hands: g1.hands, exchange: g1.exchange, ..g0 })
                    }
                }
            } else if has_id(e, id) {
                exists|i: int| {
                    &&& #[trigger] is_first_id(e, id, i)
                    &&& g1.hands@ =~= g0.hands@.update(m, g1.hands@[m])
                    &&& g1.hand(m) =~= sorted_hand(h.push(e[i]))
                    &&& g1.exchange@ =~= e.remove(i)
                    &&& g1 == (Game { hands: g1.hands, exchange: g1.exchange, ..g0 })
                }
            } else {
                g1 == g0
            }
        })
    }

    /// The effect of `turn_exchange_cards` on the game.
    pub open spec fn turn_exchange_cards_post(g0: Game, g1: Game) -> bool {
        &&& g1.exchange@ =~= g0.exchange@.map_values(
            |c: Card| Card { face_up: g0.shows_discarded_points() && c.points > 0, ..c })
        &&& g1 == (Game { exchange: g1.exchange, ..g0 })
    }

    /// The effect of `add_exchange_cards_to_nest` on the game.
    pub open spec fn add_exchange_cards_to_nest_post(g0: Game, g1: Game) -> bool {
        &&& g1.exchange@.len() == 0
        &&& g1.nest@ =~= face_down_first(g0.nest@ + g0.exchange@.reverse())
        &&& g1 == (Game { exchange: g1.exchange, nest: g1.nest, ..g0 })
    }

    /// The effect of `set_trump_suit` on the game.
    pub open spec fn set_trump_suit_post(g0: Game, g1: Game, suit: Suit) -> bool {
        &&& g1.trump_suit == Some(suit)
        &&& g1.hands@.len() == g0.hands@.len()
        &&& g0.options.joker_kind == JokerKind::Trump ==> {
            &&& g1.hand(0) =~= sorted_hand(jokers_as(g0.hand(0), suit))
            &&& forall|p: int| 1 <= p < g0.hands@.len() ==> #[trigger] g1.hand(p) =~= jokers_as(g0.hand(p), suit)
            &&& g1.exchange@ =~= jokers_as(g0.exchange@, suit)
            &&& g1.nest@ =~= jokers_as(g0.nest@, suit)
            &&& g1.deck@ =~= jokers_as(g0.deck@, suit)
        }
        &&& g0.options.joker_kind != JokerKind::Trump ==> {
            &&& g1.hand(0) =~= sorted_hand(g0.hand(0))
            &&& forall|p: int| 1 <= p < g0.hands@.len() ==> #[trigger] g1.hands@[p] == g0.hands@[p]
            &&& g1.exchange == g0.exchange
            &&& g1.nest == g0.nest
            &&& g1.deck == g0.deck
        }
        &&& g1 == (Game {
            trump_suit: g1.trump_suit,
            hands: g1.hands,
            exchange: g1.exchange,
            nest: g1.nest,
            deck: g1.deck,
            ..g0
        })
    }

    /// The effect of `get_playable_card_ids` on the game.
    pub open spec fn get_playable_card_ids_post(g0: Game, g1: Game, r: Seq<Id>) -> bool {
        &&& g1.hands@.len() == g0.hands@.len()
        &&& g1.hand(g0.active as int) =~= g0.hand(g0.active as int).map_values(
            |c: Card| Card { eligible: g0.playable(c), ..c })
        &&& r =~= g0.hand(g0.active as int).filter(|c: Card| g0.playable(c)).map_values(|c: Card| c.id)
        &&& forall|q: int| 0 <= q < g0.hands@.len() && q != g0.active ==> #[trigger] g1.hands@[q] == g0.hands@[q]
        &&& g1 == (Game { hands: g1.hands, ..g0 })
    }

    /// The effect of `play_card_id` on the game.
    pub open spec fn play_card_id_post(g0: Game, g1: Game, card_id: Id) -> bool {
        &&& ({
            let a = g0.active as int;
            let h = g0.hand(a);
            let i = first_id_or_zero(h, card_id);
            &&& g1.wf()
            &&& g1.hands@ =~= g0.hands@.update(a, g1.hands@[a])
            &&& g1.hand(a) =~= h.remove(i)
            &&& g0.trick.added(g1.trick, g0.active, Card { face_up: true, ..h[i] },
                g0.trump_suit, g0.options.joker_kind)
            &&& g1.active == (a + 1) % (g0.options.players as int)
            &&& g1 == (Game { hands: g1.hands, trick: g1.trick, active: g1.active, ..g0 })
        })
    }

    /// The effect of `award_trick` on the game.
    pub open spec fn award_trick_post(g0: Game, g1: Game) -> bool {
        &&& ({
            let w = g0.trick.winner->0 as int;
            let team = team_of(w);
            let s0 = g0.scoring;
            let s1 = g1.scoring;
            &&& g1.wf()
            &&& g1.last_trick_winner == w
            &&& forall|t: int| 0 <= t < 2 ==> #[trigger] s1.points_taken[t] == s0.points_taken[t] + (if t == team { g0.trick.points as int } else { 0 })
            &&& forall|t: int| 0 <= t < 2 ==> #[trigger] s1.trick_count[t] == s0.trick_count[t] + (if t == team { 1int } else { 0 })
            &&& forall|t: int| 0 <= t < 2 ==> #[trigger] s1.hand_subtotal[t] == crate::scoring::subtotal_of(s1, t)
            &&& s1 == (Scoring { points_taken: s1.points_taken, trick_count: s1.trick_count, hand_subtotal: s1.hand_subtotal, ..s0 })
            &&& g1.taken@ =~= g0.taken@.update(w, g1.taken@[w])
            &&& g1.taken@[w]@ =~= g0.taken@[w]@ + trick_cards(g0.trick)
            &&& g1.trick.cards@.len() == g0.trick.cards@.len()
            &&& g1.trick.is_empty()
            &&& g1.trick == (Trick { cards: g1.trick.cards, ..g0.trick })
            &&& g1 == (Game {
                last_trick_winner: g1.last_trick_winner,
                scoring: g1.scoring,
                taken: g1.taken,
                trick: g1.trick,
                ..g0
            })
        })
    }

    /// The effect of `reset_for_next_trick` on the game.
    pub open spec fn reset_for_next_trick_post(g0: Game, g1: Game) -> bool {
        &&& g1.wf()
        &&& g1.active == g0.trick.winner->0
        &&& g1.trick.cards@.len() == g0.trick.cards@.len()
        &&& g1.trick.is_cleared()
        &&& g1 == (Game { active: g1.active, trick: g1.trick, ..g0 })
    }

    /// The effect of `award_nest_cards` on the game.
    pub open spec fn award_nest_cards_post(g0: Game, g1: Game, points: Points) -> bool {
        &&& points == sum_points(g0.nest@)
        &&& g1.nest@ =~= g0.nest@.map_values(|c: Card| Card { face_up: true, ..c })
        &&& forall|t: int| 0 <= t < 2 ==> #[trigger] g1.scoring.nest[t] == (if t == g0.nest_team() { points as int } else { g0.scoring.nest[t] as int })
        &&& forall|t: int| 0 <= t < 2 ==> #[trigger] g1.scoring.hand_subtotal[t] == crate::scoring::subtotal_of(g1.scoring, t)
        &&& g1.scoring == (Scoring { nest: g1.scoring.nest, hand_subtotal: g1.scoring.hand_subtotal, ..g0.scoring })
        &&& g1 == (Game { nest: g1.nest, scoring: g1.scoring, ..g0 })
    }

    /// The effect of `complete_hand` on the game.
    pub open spec fn complete_hand_post(g0: Game, g1: Game) -> bool {
        &&& forall|t: int| 0 <= t < 2 ==> {
            &&& #[trigger] g1.scoring.nest[t] == g0.final_nest(t)
            &&& g1.scoring.majority_bonus[t] == g0.final_majority(t)
            &&& g1.scoring.hand_subtotal[t] == g0.final_subtotal(t)
            &&& g1.scoring.bonus[t] == g0.final_bonus(t)
            &&& g1.scoring.hand_final[t] == g0.final_score(t)
            &&& g1.scoring.game[t] == g0.scoring.game[t] + g0.final_score(t)
        }
        &&& g1.scoring == (Scoring {
            nest: g1.scoring.nest,
            majority_bonus: g1.scoring.majority_bonus,
            hand_subtotal: g1.scoring.hand_subtotal,
            bonus: g1.scoring.bonus,
            hand_final: g1.scoring.hand_final,
            game: g1.scoring.game,
            ..g0.scoring
        })
        &&& g1 == (Game { scoring: g1.scoring, ..g0 })
    }

    /// The effect of `reset_for_new_hand` on the game.
    pub open spec fn reset_for_new_hand_post(g0: Game, g1: Game) -> bool {
        &&& g1.wf()
        &&& g1.deck@.to_multiset() =~= jokers_as(turned(g0.gathered(), false), Suit::Joker).to_multiset()
        &&& g1.nest@.len() == 0
        &&& forall|p: int| 0 <= p < g0.options.players ==> (#[trigger] g1.taken@[p])@.len() == 0
        &&& forall|p: int| 0 <= p < g0.options.players ==> #[trigger] g1.bids@[p] == None::<Bid>
        &&& forall|p: int| 0 <= p < g0.options.players ==> #[trigger] g1.hand(p) =~= jokers_as(g0.hand(p), Suit::Joker)
        &&& g1.exchange@ =~= jokers_as(g0.exchange@, Suit::Joker)
        &&& crate::scoring::all_zero(Scoring { game: [0, 0], ..g1.scoring })
        &&& crate::scoring::pair(g1.scoring.game) == crate::scoring::pair(g0.scoring.game)
        &&& g1.dealer == (g0.dealer + 1) % (g0.options.players as int)
        &&& g1.active == g1.dealer
        &&& g1.exchange_face_up_count == 0
        &&& g1.nest_face_up_count == 0
        &&& g1.maker.is_none()
        &&& g1.high_bid == 0
        &&& g1.trick.is_cleared()
        &&& g1.trick.cards@.len() == g0.trick.cards@.len()
        &&& g1.hand_cards_to_deal == g0.options.hand_size * g0.options.players
        &&& g1.exchange_cards_to_deal == g0.options.exchange_size
        &&& g1.nest_cards_to_deal == g0.options.nest_size
        &&& g1.hands@.len() == g0.hands@.len()
        &&& g1.bids@.len() == g0.bids@.len()
        &&& g1.taken@.len() == g0.taken@.len()
        &&& g1.options == g0.options
        &&& g1.bot_players == g0.bot_players
        &&& g1.trump_suit == g0.trump_suit
        &&& g1.last_trick_winner == g0.last_trick_winner
    }

    /// The effect of `deal_card_to_exchange` on the game.
    pub open spec fn deal_card_to_exchange_post(g0: Game, g1: Game) -> bool {
        &&& g1.deck@ =~= g0.deck@.drop_last()
        &&& g0.exchange_face_up_count < g0.options.exchange_face_up ==> {
            &&& g1.exchange@ =~= g0.exchange@.push(Card { face_up: true, ..g0.deck@.last() })
            &&& g1.exchange_face_up_count == g0.exchange_face_up_count + 1
        }
        &&& g0.exchange_face_up_count >= g0.options.exchange_face_up ==> {
            &&& g1.exchange@ =~= g0.exchange@.push(g0.deck@.last())
            &&& g1.exchange_face_up_count == g0.exchange_face_up_count
        }
        &&& g1 == (Game {
            deck: g1.deck,
            exchange: g1.exchange,
            exchange_face_up_count: g1.exchange_face_up_count,
            ..g0
        })
    }

    /// The effect of `next_bidding_player` on the game: the turn passes to the first
    /// player after the active one, going round the table, who may still bid.
    pub open spec fn next_bidding_player_post(g0: Game, g1: Game) -> bool {
        &&& exists|k: int| {
            &&& 1 <= k <= g0.options.players
            &&& g1.active == #[trigger] seat_after(g0.active as int, k, g0.options.players as int)
            &&& forall|j: int| 1 <= j < k ==> !g0.may_bid(#[trigger] seat_after(g0.active as int, j, g0.options.players as int))
        }
        &&& g0.may_bid(g1.active as int)
        &&& g1 == (Game { active: g1.active, ..g0 })
    }

    /// The effect of `mark_eligible_discards` on the game.
    pub open spec fn mark_eligible_discards_post(g0: Game, g1: Game) -> bool {
        let m = g0.maker->0 as int;
        &&& g1.hands@.len() == g0.hands@.len()
        &&& g1.hand(m) =~= g0.hand(m).map_values(|c: Card| Card { eligible: g0.discard_eligible(g0.hand(m), c), ..c })
        &&& forall|q: int| 0 <= q < g0.hands@.len() && q != m ==> #[trigger] g1.hands@[q] == g0.hands@[q]
        &&& g1 == (Game { hands: g1.hands, ..g0 })
    }

    /// Whether bidding is over: every player has bid, and exactly one bid is of points.
    pub open spec fn bidding_done(&self) -> bool {
        &&& forall|q: int| 0 <= q < self.bids@.len() ==> (#[trigger] self.bids@[q]).is_some()
        &&& point_bid_count(self.bids@) == 1
        &&& self.bids@.len() == self.options.players
    }

    /// The effect of `create_deck` on the game.
    pub open spec fn create_deck_post(g0: Game, g1: Game) -> bool {
        &&& g1.deck@ =~= g0.deck@ + cards_from(g0.options.cards_in_deck@)
        &&& g1 == (Game { deck: g1.deck, ..g0 })
    }

    /// The index of a player's team.
    pub fn team_index(&self, player: usize) -> (r: usize)
        ensures
            r == team_of(player as int),
    {
        player % 2
    }

    /// The index of the other team.
    pub fn opponent_index(&self, player: usize) -> (r: usize)
        ensures
            r == team_of(player + 1),
    {
        (player % 2 + 1) % 2
    }

    /// Whether the active player is a bot.
    pub fn bot_is_active(&self) -> (r: bool)
        requires
            self.active < self.bot_players@.len(),
        ensures
            r == self.bot_players@[self.active as int],
    {
        self.bot_players[self.active]
    }

    /// The active player's hand.
    pub fn active_hand(&self) -> (r: &[Card])
        requires
            self.active < self.hands@.len(),
        ensures
            r@ == self.hand(self.active as int),
    {
        self.hands[self.active].as_slice()
    }

    /// The active player's hand, to change in place.
    pub fn active_hand_mut(&mut self) -> (r: &mut Vec<Card>)
        requires
            old(self).active < old(self).hands@.len(),
        ensures
            *r == old(self).hands@[old(self).active as int],
            final(self).hands@ == old(self).hands@.update(old(self).active as int, *final(r)),
            *final(self) == (Game { hands: final(self).hands, ..*old(self) }),
    {
        &mut self.hands[self.active]
    }

    /// Passes the turn to the next player in order.
    fn next_player(&mut self)
        requires
            old(self).options.players >= 1,
        ensures
            final(self).active == (old(self).active + 1) % (old(self).options.players as int),
            *final(self) == (Game { active: final(self).active, ..*old(self) }),
    {
        let a = self.active;
        let n = self.options.players;
        proof {
            lemma_mod_succ(a as int, n as int);
        }
        self.active = ((a % n) + 1) % n;
    }

    /// Sets the suit of every joker in the hands, exchange, nest and deck to `suit`.
    fn set_joker_suit(&mut self, suit: Suit)
        requires
            old(self).hands@.len() == old(self).options.players,
        ensures
            final(self).hands@.len() == old(self).hands@.len(),
            forall|p: int| 0 <= p < old(self).hands@.len() ==> #[trigger] final(self).hand(p) == jokers_as(old(self).hand(p), suit),
            final(self).exchange@ == jokers_as(old(self).exchange@, suit),
            final(self).nest@ == jokers_as(old(self).nest@, suit),
            final(self).deck@ == jokers_as(old(self).deck@, suit),
            *final(self) == (Game { hands: final(self).hands, exchange: final(self).exchange, nest: final(self).nest, deck: final(self).deck, ..*old(self) }),
    {
        let n = self.options.players;
        for p in 0..n
            invariant
                n == old(self).options.players,
                self.hands@.len() == n,
                forall|q: int| 0 <= q < p ==> (#[trigger] self.hands@[q])@ == jokers_as(old(self).hands@[q]@, suit),
                forall|q: int| p <= q < n ==> #[trigger] self.hands@[q] == old(self).hands@[q],
                *self == (Game { hands: self.hands, ..*old(self) }),
        {
            let ghost before = self.hands@;
            set_jokers_in(&mut self.hands[p], suit);
            assert(self.hands@[p as int]@ == jokers_as(before[p as int]@, suit));
            assert(forall|q: int| 0 <= q < n && q != p ==> self.hands@[q] == before[q]);
        }
        set_jokers_in(&mut self.exchange, suit);
        set_jokers_in(&mut self.nest, suit);
        set_jokers_in(&mut self.deck, suit);
    }

    /// Player `p`'s hand after player `p` is dealt card `c`: the card is shown to a
    /// human, and a human's hand is kept sorted.
    pub open spec fn hand_after_deal(&self, p: int, c: Card) -> Seq<Card> {
        let shown = Card { face_up: !self.bot_players@[p] || DEBUGGING, ..c };
        if self.bot_players@[p] {
            self.hand(p).push(shown)
        } else {
            sorted_hand(self.hand(p).push(shown))
        }
    }

    /// Deals the top card of the deck to the active player and passes the turn.
    pub fn deal_card_to_hand(&mut self)
        requires
            old(self).wf(),
            old(self).deck@.len() > 0,
        ensures
            Game::deal_card_to_hand_post(*old(self), *final(self)),

    {
        let mut card = self.deck.pop().unwrap();
        let a = self.active;
        card.face_up = !self.bot_players[a] || DEBUGGING;
        self.hands[a].push(card);
        if !self.bot_players[a] {
            self.sort_hand(a);
        }
        self.next_player();
    }

    /// Deals the top card of the deck to the exchange, face up while the option allows.
    pub fn deal_card_to_exchange(&mut self)
        requires
            old(self).deck@.len() > 0,
        ensures
            Game::deal_card_to_exchange_post(*old(self), *final(self)),

    {
        let mut card = self.deck.pop().unwrap();
        if self.exchange_face_up_count < self.options.exchange_face_up {
            card.face_up = true;
            self.exchange_face_up_count = self.exchange_face_up_count + 1;
        }
        self.exchange.push(card);
    }

    /// Deals the top card of the deck to the nest, face up while the option allows.
    pub fn deal_card_to_nest(&mut self)
        requires
            old(self).deck@.len() > 0,
        ensures
            Game::deal_card_to_nest_post(*old(self), *final(self)),

    {
        let mut card = self.deck.pop().unwrap();
        if self.nest_face_up_count < self.options.nest_face_up {
            card.face_up = true;
            self.nest_face_up_count = self.nest_face_up_count + 1;
        }
        self.nest.push(card);
    }

    /// After the deal, the player left of the dealer is active.
    pub fn set_active_player_after_deal(&mut self)
        requires
            old(self).options.players >= 1,
        ensures
            final(self).active == (old(self).dealer + 1) % (old(self).options.players as int),
            *final(self) == (Game { active: final(self).active, ..*old(self) }),
    {
        self.active = self.dealer;
        self.next_player();
    }

    /// Sorts the hand of player `p`.
    pub fn sort_hand(&mut self, p: usize)
        requires
            p < old(self).hands@.len(),
        ensures
            final(self).hands@ == old(self).hands@.update(p as int, final(self).hands@[p as int]),
            final(self).hand(p as int) == sorted_hand(old(self).hand(p as int)),
            *final(self) == (Game { hands: final(self).hands, ..*old(self) }),
    {
        sort_cards(&mut self.hands[p]);
    }

    /// The least bid that may be made now: the options' minimum before any bid of
    /// points, and the high bid raised by the increment after one.
    pub open spec fn least_bid(&self) -> int {
        if self.high_bid == 0 {
            self.options.min_bid as int
        } else {
            self.high_bid + self.options.bid_increment
        }
    }

    /// The lowest bid allowed now: the minimum bid, or the high bid plus the increment.
    pub fn min_current_bid(&self) -> (r: Points)
        requires
            self.high_bid != 0 ==> self.high_bid + self.options.bid_increment <= isize::MAX,
            self.high_bid != 0 ==> self.high_bid + self.options.bid_increment >= isize::MIN,
        ensures
            r == self.least_bid(),
    {
        if self.high_bid == 0 {
            self.options.min_bid
        } else {
            self.high_bid + self.options.bid_increment
        }
    }

    /// The bids after the active player bids `bid`. A bid of points, when bidding after
    /// passing is allowed, clears every other player's bid.
    pub open spec fn bids_after(&self, bid: Bid) -> Seq<Option<Bid>> {
        if bid is Points && self.options.bid_after_passing {
            Seq::new(self.bids@.len(), |q: int| if q == self.active { Some(bid) } else { None::<Bid> })
        } else {
            self.bids@.update(self.active as int, Some(bid))
        }
    }

    /// Records the active player's bid. A bid of points makes the player the maker with
    /// the high bid and sets the team bids.
    pub fn make_bid(&mut self, bid: Bid)
        requires
            old(self).active < old(self).bids@.len(),
        ensures
            Game::make_bid_post(*old(self), *final(self), bid),

    {
        if let Bid::Points(p) = bid {
            self.high_bid = p;
            self.maker = Some(self.active);
            if self.options.bid_after_passing {
                let n = self.bids.len();
                let mut new_bids: Vec<Option<Bid>> = Vec::new();
                for q in 0..n
                    invariant
                        n == self.bids@.len(),
                        new_bids@.len() == q,
                        forall|j: int| 0 <= j < q ==> #[trigger] new_bids@[j] == (if j == self.active { self.bids@[j] } else { None::<Bid> }),
                {
                    if q == self.active {
                        new_bids.push(self.bids[q]);
                    } else {
                        new_bids.push(None);
                    }
                }
                self.bids = new_bids;
            }
            let team = self.team_index(self.active);
            self.scoring.update_bids(team, p);
        }
        let a = self.active;
        self.bids.set(a, Some(bid));
        assert(self.bids@ == old(self).bids_after(bid));
    }

    /// Whether bidding may stop at player `q`: bidding after passing is allowed, or `q`
    /// has not passed.
    pub open spec fn may_bid(&self, q: int) -> bool {
        self.options.bid_after_passing || self.bids@[q] != Some(Bid::Pass)
    }

    /// Passes the turn to the next player who may bid.
    pub fn next_bidding_player(&mut self)
        requires
            old(self).wf(),
            exists|q: int| 0 <= q < old(self).options.players && old(self).may_bid(q),
        ensures
            Game::next_bidding_player_post(*old(self), *final(self)),

    {
        let ghost a0 = self.active as int;
        let ghost n = self.options.players as int;
        let ghost mut k: int = 0;
        proof {
            vstd::arithmetic::div_mod::lemma_small_mod(a0 as nat, n as nat);
        }
        loop
            invariant_except_break
                0 <= k < n,
                self.active == seat_after(a0, k, n),
                forall|j: int| 1 <= j <= k ==> !old(self).may_bid(#[trigger] seat_after(a0, j, n)),
            invariant
                *self == (Game { active: self.active, ..*old(self) }),
                old(self).wf(),
                a0 == old(self).active,
                n == old(self).options.players,
                exists|q: int| 0 <= q < n && old(self).may_bid(q),
            ensures
                exists|k: int| {
                    &&& 1 <= k <= n
                    &&& self.active == #[trigger] seat_after(a0, k, n)
                    &&& forall|j: int| 1 <= j < k ==> !old(self).may_bid(#[trigger] seat_after(a0, j, n))
                },
                old(self).may_bid(self.active as int),
                *self == (Game { active: self.active, ..*old(self) }),
            decreases n - k,
        {
            self.next_player();
            proof {
                lemma_mod_succ(a0 + k, n);
                k = k + 1;
            }
            proof {
                assert(self.active == seat_after(a0, k, n));
                assert(1 <= k <= n);
            }
            if self.options.bid_after_passing {
                break;
            }
            let stop = match &self.bids[self.active] {
                None => true,
                Some(bid) => match bid {
                    Bid::Pass => false,
                    Bid::Points(_) => true,
                },
            };
            if stop {
                break;
            }
            proof {
                if k == n {
                    let q = choose|q: int| 0 <= q < n && old(self).may_bid(q);
                    let kq = lemma_seat_reached(a0, q, n);
                    assert(seat_after(a0, kq, n) == q);
                }
            }
        }
    }

    /// Bidding is over when every player has bid and exactly one bid is for points.
    pub fn bidding_completed(&self) -> (r: bool)
        ensures
            r == self.bidding_done(),

    {
        let mut passes: usize = 0;
        let mut bids: usize = 0;
        let n = self.bids.len();
        for i in 0..n
            invariant
                n == self.bids@.len(),
                forall|q: int| 0 <= q < i ==> (#[trigger] self.bids@[q]).is_some(),
                bids == point_bid_count(self.bids@.take(i as int)),
                bids + passes == i,
        {
            proof {
                assert(self.bids@.take(i + 1).drop_last() == self.bids@.take(i as int));
            }
            match &self.bids[i] {
                Some(bid) => match bid {
                    Bid::Pass => passes = passes + 1,
                    Bid::Points(_) => bids = bids + 1,
                },
                None => return false,
            }
        }
        assert(self.bids@.take(n as int) == self.bids@);
        bids == 1 && (bids + passes) == self.options.players
    }

    /// The maker becomes the active player.
    pub fn end_bidding(&mut self)
        requires
            old(self).maker.is_some(),
        ensures
            final(self).active == old(self).maker->0,
            *final(self) == (Game { active: final(self).active, ..*old(self) }),
    {
        self.active = self.maker.unwrap();
    }

    /// The maker's hand after taking the exchange: the exchange cards come off the top of
    /// the exchange, are shown to a human maker, and the hand is sorted.
    pub open spec fn hand_with_exchange(&self, m: int) -> Seq<Card> {
        sorted_hand(self.hand(m) + turned(self.exchange@.reverse(), !self.bot_players@[m] || DEBUGGING))
    }

    /// Moves every exchange card into the maker's hand and sorts it.
    pub fn move_exchange_cards_to_maker(&mut self)
        requires
            old(self).wf(),
            old(self).maker.is_some(),
        ensures
            Game::move_exchange_cards_to_maker_post(*old(self), *final(self)),

    {
        let maker = self.maker.unwrap();
        let is_human = !self.bot_players[maker];
        let ghost e = self.exchange@;
        let ghost h = self.hand(maker as int);
        let ghost up = is_human || DEBUGGING;
        while !self.exchange.is_empty()
            invariant
                old(self).wf(),
                maker < self.hands@.len(),
                self.hands@.len() == old(self).hands@.len(),
                self.exchange@ == e.take(self.exchange@.len() as int),
                self.exchange@.len() <= e.len(),
                self.hand(maker as int) == h + turned(e.skip(self.exchange@.len() as int).reverse(), up),
                forall|q: int| 0 <= q < old(self).hands@.len() && q != maker ==> #[trigger] self.hands@[q] == old(self).hands@[q],
                *self == (Game { exchange: self.exchange, hands: self.hands, ..*old(self) }),
                is_human == !old(self).bot_players@[maker as int],
                up == (is_human || DEBUGGING),
                e == old(self).exchange@,
                h == old(self).hand(maker as int),
                maker == old(self).maker->0,
            decreases self.exchange@.len(),
        {
            let ghost m = self.exchange@.len() as int;
            if let Some(mut card) = self.exchange.pop() {
                card.face_up = is_human || DEBUGGING;
                self.hands[maker].push(card);
                proof {
                    assert(e.skip(m - 1).reverse() == e.skip(m).reverse().push(e[m - 1]));
                    assert(self.exchange@ == e.take(m - 1));
                }
            }
        }
        proof {
            assert(e.skip(0) == e);
        }
        self.sort_hand(maker);
    }

    /// Whether a card of the maker's hand may be discarded: any card when the options
    /// allow it; otherwise cards without points, then 5-point cards if there are too few
    /// of those, then 10-point cards if there are still too few.
    pub open spec fn discard_eligible(&self, hand: Seq<Card>, c: Card) -> bool {
        match self.options.discard_point_cards {
            DiscardedPointCards::Allowed(_) => true,
            DiscardedPointCards::OnlyWhenForced(_) => {
                let zeros = count_worth(hand, 0);
                let fives = count_worth(hand, 5);
                ||| c.points == 0
                ||| (zeros < self.options.exchange_size && c.points == 5)
                ||| (zeros + fives < self.options.exchange_size && c.points == 10)
            },
        }
    }

    /// Marks which cards of the maker's hand may be discarded.
    pub fn mark_eligible_discards(&mut self)
        requires
            old(self).wf(),
            old(self).maker.is_some(),
            old(self).options.discard_point_cards is OnlyWhenForced ==> count_worth(old(self).hand(old(self).maker->0 as int), 0)
                + count_worth(old(self).hand(old(self).maker->0 as int), 5) + count_worth(old(self).hand(old(self).maker->0 as int), 10)
                >= old(self).options.exchange_size,
        ensures
            Game::mark_eligible_discards_post(*old(self), *final(self)),

    {
        let maker = self.maker.unwrap();
        let ghost h = self.hand(maker as int);
        let ghost g = *self;
        let size = self.options.exchange_size;
        match self.options.discard_point_cards {
            DiscardedPointCards::Allowed(_) => {
                mark_all_eligible(&mut self.hands[maker]);
            },
            DiscardedPointCards::OnlyWhenForced(_) => {
                let zeros = mark_only_worth(&mut self.hands[maker], 0);
                if zeros >= size {
                    assert(self.hand(maker as int) =~= h.map_values(|c: Card| Card { eligible: g.discard_eligible(h, c), ..c }));
                    return;
                }
                proof {
                    lemma_count_worth_same_points(h, self.hand(maker as int), 5);
                }
                let fives = mark_also_worth(&mut self.hands[maker], 5);
                assert(count_worth(h, 0) == zeros && count_worth(h, 5) == fives);
                assert forall|j: int| 0 <= j < h.len() implies #[trigger] self.hand(maker as int)[j] == (Card {
                    eligible: h[j].points == 0 || h[j].points == 5,
                    ..h[j]
                }) by {}
                if fives >= size - zeros {
                    assert(self.hand(maker as int) =~= h.map_values(|c: Card| Card { eligible: g.discard_eligible(h, c), ..c }));
                    return;
                }
                proof {
                    lemma_count_worth_same_points(h, self.hand(maker as int), 10);
                }
                let tens = mark_also_worth(&mut self.hands[maker], 10);
                assert forall|j: int| 0 <= j < h.len() implies #[trigger] self.hand(maker as int)[j] == (Card {
                    eligible: h[j].points == 0 || h[j].points == 5 || h[j].points == 10,
                    ..h[j]
                }) by {}
                assert(self.hand(maker as int) =~= h.map_values(|c: Card| Card { eligible: g.discard_eligible(h, c), ..c }));
            },
        }
    }

    /// Whether the exchange holds as many cards as the options set for it.
    pub fn exchange_is_full(&self) -> (r: bool)
        ensures
            r == (self.exchange@.len() == self.options.exchange_size),
    {
        self.exchange.len() == self.options.exchange_size
    }

    /// Moves the card with this id between the maker's hand and the exchange: a hand
    /// card goes to the exchange unless it is full; an exchange card returns to the
    /// hand, which is sorted again.
    pub fn swap_with_exchange(&mut self, id: Id)
        requires
            old(self).wf(),
            old(self).maker.is_some(),
        ensures
            Game::swap_with_exchange_post(*old(self), *final(self), id),

    {
        let maker = self.maker.unwrap();
        if let Some(idx) = position_of_id(&self.hands[maker], id) {
            if !self.exchange_is_full() {
                let card = self.hands[maker].remove(idx);
                self.exchange.push(card);
                assert(is_first_id(old(self).hand(maker as int), id, idx as int));
            }
        } else if let Some(idx) = position_of_id(&self.exchange, id) {
            let card = self.exchange.remove(idx);
            self.hands[maker].push(card);
            self.sort_hand(maker);
            assert(is_first_id(old(self).exchange@, id, idx as int));
        }
    }

    /// Whether the options show discarded point cards.
    pub open spec fn shows_discarded_points(&self) -> bool {
        match self.options.discard_point_cards {
            DiscardedPointCards::Allowed(up) => up,
            DiscardedPointCards::OnlyWhenForced(up) => up,
        }
    }

    /// Turns the exchange cards face down, except point cards when the options show them.
    pub fn turn_exchange_cards(&mut self)
        ensures
            Game::turn_exchange_cards_post(*old(self), *final(self)),

    {
        let up = match self.options.discard_point_cards {
            DiscardedPointCards::Allowed(face_up) => face_up,
            DiscardedPointCards::OnlyWhenForced(face_up) => face_up,
        };
        let ghost s = self.exchange@;
        let n = self.exchange.len();
        for i in 0..n
            invariant
                n == s.len(),
                self.exchange@.len() == n,
                up == old(self).shows_discarded_points(),
                s == old(self).exchange@,
                forall|j: int| 0 <= j < i ==> self.exchange@[j] == (Card { face_up: up && s[j].points > 0, ..s[j] }),
                forall|j: int| i <= j < n ==> self.exchange@[j] == s[j],
                *self == (Game { exchange: self.exchange, ..*old(self) }),
        {
            let c = self.exchange[i];
            self.exchange.set(i, Card { face_up: up && c.points > 0, ..c });
        }
        assert(self.exchange@ =~= s.map_values(|c: Card| Card { face_up: up && c.points > 0, ..c }));
    }

    /// Moves the exchange cards, from the top, onto the nest; then the nest's face-down
    /// cards come first.
    pub fn add_exchange_cards_to_nest(&mut self)
        ensures
            Game::add_exchange_cards_to_nest_post(*old(self), *final(self)),

    {
        let ghost e = self.exchange@;
        while !self.exchange.is_empty()
            invariant
                self.exchange@ == e.take(self.exchange@.len() as int),
                self.exchange@.len() <= e.len(),
                self.nest@ == old(self).nest@ + e.skip(self.exchange@.len() as int).reverse(),
                e == old(self).exchange@,
                *self == (Game { exchange: self.exchange, nest: self.nest, ..*old(self) }),
            decreases self.exchange@.len(),
        {
            let ghost m = self.exchange@.len() as int;
            let card = self.exchange.pop().unwrap();
            self.nest.push(card);
            proof {
                assert(e.skip(m - 1).reverse() == e.skip(m).reverse().push(e[m - 1]));
                assert(self.exchange@ == e.take(m - 1));
            }
        }
        assert(e.skip(0) == e);
        put_face_down_first(&mut self.nest);
    }

    /// Names the trump suit; under the trump-joker rule the jokers join it. The first
    /// player's hand is sorted again.
    pub fn set_trump_suit(&mut self, suit: Suit)
        requires
            old(self).wf(),
        ensures
            Game::set_trump_suit_post(*old(self), *final(self), suit),

    {
        self.trump_suit = Some(suit);
        if self.options.joker_kind == JokerKind::Trump {
            self.set_joker_suit(suit);
        }
        let ghost mid = *self;
        assert(old(self).options.joker_kind == JokerKind::Trump ==> self.hand(0) == jokers_as(old(self).hand(0), suit));
        self.sort_hand(0);
        assert forall|p: int| 1 <= p < old(self).hands@.len() implies #[trigger] self.hands@[p] == mid.hands@[p] by {}
        assert forall|p: int| 1 <= p < old(self).hands@.len() && old(self).options.joker_kind == JokerKind::Trump
            implies #[trigger] self.hand(p) == jokers_as(old(self).hand(p), suit) by {
            assert(mid.hand(p) == jokers_as(old(self).hand(p), suit));
        }
    }

    /// The player who leads the first trick, as the options say.
    pub open spec fn first_player(&self) -> int {
        let n = self.options.players as int;
        match self.options.first_player {
            FirstPlayer::Bidder => self.maker->0 as int,
            FirstPlayer::LeftOfBidder => (self.maker->0 + 1) % n,
            FirstPlayer::LeftOfDealer => (self.dealer + 1) % n,
        }
    }

    /// Makes the first player of the hand active.
    pub fn set_first_player(&mut self)
        requires
            old(self).options.players >= 1,
            old(self).options.first_player is Bidder || old(self).options.first_player is LeftOfBidder
                ==> old(self).maker.is_some(),
        ensures
            final(self).active == old(self).first_player(),
            *final(self) == (Game { active: final(self).active, ..*old(self) }),
    {
        match self.options.first_player {
            FirstPlayer::Bidder => {
                self.active = self.maker.unwrap();
            },
            FirstPlayer::LeftOfBidder => {
                self.active = self.maker.unwrap();
                self.next_player();
            },
            FirstPlayer::LeftOfDealer => {
                self.active = self.dealer;
                self.next_player();
            },
        }
    }

    /// Whether the active player must follow suit: a suit was led and the active hand
    /// holds a card of it.
    pub open spec fn must_follow(&self) -> bool {
        match self.trick.lead_suit {
            Some(lead) => exists|i: int|
                0 <= i < self.hand(self.active as int).len() && (#[trigger] self.hand(self.active as int)[i]).suit == lead,
            None => false,
        }
    }

    /// Whether the active player may play `c`: any card unless suit must be followed.
    pub open spec fn playable(&self, c: Card) -> bool {
        !self.must_follow() || Some(c.suit) == self.trick.lead_suit
    }

    /// Whether the active hand holds a card of the suit that was led.
    fn player_has_card_in_lead_suit(&self) -> (r: bool)
        requires
            self.active < self.hands@.len(),
        ensures
            r == self.must_follow(),
    {
        if let Some(lead_suit) = &self.trick.lead_suit {
            let hand = self.active_hand();
            let n = hand.len();
            for i in 0..n
                invariant
                    n == hand@.len(),
                    hand@ == self.hand(self.active as int),
                    self.trick.lead_suit == Some(*lead_suit),
                    forall|j: int| 0 <= j < i ==> (#[trigger] hand@[j]).suit != *lead_suit,
            {
                if hand[i].suit == *lead_suit {
                    assert(self.hand(self.active as int)[i as int].suit == *lead_suit);
                    assert(self.trick.lead_suit == Some(*lead_suit));
                    assert(self.must_follow());
                    return true;
                }
            }
        }
        false
    }

    /// Marks which cards of the active hand may be played and returns their ids in
    /// hand order.
    pub fn get_playable_card_ids(&mut self) -> (r: Vec<Id>)
        requires
            old(self).wf(),
        ensures
            Game::get_playable_card_ids_post(*old(self), *final(self), r@),

    {
        let follow = self.player_has_card_in_lead_suit();
        let a = self.active;
        let lead = self.trick.lead_suit;
        let ghost h = self.hand(a as int);
        let ghost g = *self;
        let mut eligible_ids: Vec<Id> = Vec::new();
        let n = self.hands[a].len();
        for i in 0..n
            invariant
                n == h.len(),
                a == g.active,
                a < self.hands@.len(),
                self.hands@.len() == g.hands@.len(),
                follow == g.must_follow(),
                lead == g.trick.lead_suit,
                h == g.hand(a as int),
                self.hand(a as int).len() == n,
                forall|j: int| 0 <= j < i ==> self.hand(a as int)[j] == (Card { eligible: g.playable(h[j]), ..h[j] }),
                forall|j: int| i <= j < n ==> self.hand(a as int)[j] == h[j],
                forall|q: int| 0 <= q < g.hands@.len() && q != a ==> #[trigger] self.hands@[q] == g.hands@[q],
                *self == (Game { hands: self.hands, ..g }),
                eligible_ids@ == h.take(i as int).filter(|c: Card| g.playable(c)).map_values(|c: Card| c.id),
        {
            proof {
                assert(h.take(i + 1) == h.take(i as int).push(h[i as int]));
                h.take(i as int).lemma_filter_push(h[i as int], |c: Card| g.playable(c));
            }
            let c = self.hands[a][i];
            let ok = match lead {
                Some(s) => !follow || c.suit == s,
                None => true,
            };
            self.hands[a].set(i, Card { eligible: ok, ..c });
            if ok {
                eligible_ids.push(c.id);
            }
        }
        proof {
            assert(h.take(n as int) == h);
            assert(self.hand(a as int) =~= h.map_values(|c: Card| Card { eligible: g.playable(c), ..c }));
        }
        eligible_ids
    }

    /// Plays the active player's card with this id (the first card of the hand when
    /// no card has it) face up to the trick, and passes the turn.
    pub fn play_card_id(&mut self, card_id: Id)
        requires
            old(self).wf(),
            old(self).hand(old(self).active as int).len() > 0,
            isize::MIN <= old(self).trick.points + old(self).hand(old(self).active as int)[first_id_or_zero(
                old(self).hand(old(self).active as int),
                card_id,
            )].points <= isize::MAX,
        ensures
            Game::play_card_id_post(*old(self), *final(self), card_id),

    {
        let a = self.active;
        let mut index: usize = 0;
        match position_of_id(&self.hands[a], card_id) {
            Some(i) => {
                index = i;
                proof { lemma_first_id(self.hand(a as int), card_id, i as int); }
            },
            None => {},
        }
        let mut card = self.hands[a].remove(index);
        card.face_up = true;
        let trump = self.trump_suit;
        let kind = self.options.joker_kind;
        self.trick.add(a, card, &trump, kind);
        self.next_player();
    }

    /// Whether every player has played to the trick.
    pub fn trick_completed(&self) -> (r: bool)
        ensures
            r == self.trick.is_complete(),
    {
        self.trick.completed()
    }

    /// The trick's winner takes its cards face down; the winner's team scores its points
    /// and one more trick, and the subtotals are brought up to date.
    pub fn award_trick(&mut self)
        requires
            old(self).wf(),
            old(self).trick.is_complete(),
            old(self).trick.winner.is_some(),
            old(self).scoring.trick_count[team_of(old(self).trick.winner->0 as int)] < u8::MAX,
            forall|t: int| 0 <= t < 2 ==> isize::MIN <= #[trigger] old(self).scoring.points_taken[t]
                + (if t == team_of(old(self).trick.winner->0 as int) { old(self).trick.points as int } else { 0 }) <= isize::MAX,
            forall|t: int| 0 <= t < 2 ==> isize::MIN <= #[trigger] crate::scoring::subtotal_of(old(self).scoring, t)
                + (if t == team_of(old(self).trick.winner->0 as int) { old(self).trick.points as int } else { 0 }) <= isize::MAX,
        ensures
            Game::award_trick_post(*old(self), *final(self)),

    {
        let w = self.trick.winner.unwrap();
        self.last_trick_winner = w;
        let team = self.team_index(w);
        let tp = self.trick.points;
        if team == 0 {
            self.scoring.points_taken = [self.scoring.points_taken[0] + tp, self.scoring.points_taken[1]];
            self.scoring.trick_count = [self.scoring.trick_count[0] + 1, self.scoring.trick_count[1]];
        } else {
            self.scoring.points_taken = [self.scoring.points_taken[0], self.scoring.points_taken[1] + tp];
            self.scoring.trick_count = [self.scoring.trick_count[0], self.scoring.trick_count[1] + 1];
        }
        assert(crate::scoring::subtotal_of(self.scoring, 0) == crate::scoring::subtotal_of(old(self).scoring, 0)
            + (if 0 == team { tp as int } else { 0 }));
        assert(crate::scoring::subtotal_of(self.scoring, 1) == crate::scoring::subtotal_of(old(self).scoring, 1)
            + (if 1 == team { tp as int } else { 0 }));
        self.scoring.update_hand_subtotals();
        assert(crate::scoring::subtotal_of(self.scoring, 0) == self.scoring.hand_subtotal[0]);
        assert(crate::scoring::subtotal_of(self.scoring, 1) == self.scoring.hand_subtotal[1]);

        let ghost t0 = self.trick;
        let ghost g1 = *self;
        let ghost k0 = self.taken@[w as int]@;
        let n = self.trick.cards.len();
        for i in 0..n
            invariant
                n == t0.cards@.len(),
                w < self.taken@.len(),
                self.trick.cards@.len() == n,
                self.taken@.len() == old(self).taken@.len(),
                forall|q: int| 0 <= q < self.taken@.len() && q != w ==> #[trigger] self.taken@[q] == old(self).taken@[q],
                self.taken@[w as int]@ == k0 + trick_cards(t0).take(i as int),
                forall|j: int| 0 <= j < i ==> (#[trigger] self.trick.cards@[j]).is_none(),
                forall|j: int| i <= j < n ==> #[trigger] self.trick.cards@[j] == t0.cards@[j],
                t0.is_complete(),
                self.trick == (Trick { cards: self.trick.cards, ..t0 }),
                *self == (Game { taken: self.taken, trick: self.trick, ..g1 }),
        {
            let opt = self.trick.cards[i];
            let mut card = opt.unwrap();
            card.face_up = false;
            self.trick.cards.set(i, None);
            self.taken[w].push(card);
            proof {
                assert(trick_cards(t0).take(i + 1) == trick_cards(t0).take(i as int).push(trick_cards(t0)[i as int]));
            }
        }
        proof {
            assert(trick_cards(t0).take(n as int) == trick_cards(t0));
        }
    }

    /// The trick's winner leads the next trick, which starts empty.
    pub fn reset_for_next_trick(&mut self)
        requires
            old(self).wf(),
            old(self).trick.winner.is_some(),
        ensures
            Game::reset_for_next_trick_post(*old(self), *final(self)),

    {
        self.active = self.trick.winner.unwrap();
        self.trick.reset();
    }

    /// Whether the active player has no cards left.
    pub fn hand_completed(&self) -> (r: bool)
        requires
            self.active < self.hands@.len(),
        ensures
            r == (self.hand(self.active as int).len() == 0),
    {
        self.active_hand().len() == 0
    }

    /// The team that scores the nest, as the options say.
    pub open spec fn nest_team(&self) -> int {
        match self.options.nest_awarded {
            NestAwarded::ToLastTrickWinner => team_of(self.trick.winner->0 as int),
            NestAwarded::ToDefenders => team_of(self.maker->0 + 1),
        }
    }

    /// Turns the nest face up and scores its points for the team the options name;
    /// returns the points.
    pub fn award_nest_cards(&mut self) -> (points: Points)
        requires
            old(self).options.nest_awarded is ToLastTrickWinner ==> old(self).trick.winner.is_some(),
            old(self).options.nest_awarded is ToDefenders ==> old(self).maker.is_some(),
            isize::MIN <= sum_points(old(self).nest@) <= isize::MAX,
            forall|t: int| 0 <= t < 2 ==> isize::MIN <= #[trigger] crate::scoring::subtotal_of(old(self).scoring, t)
                - old(self).scoring.nest[t] + (if t == old(self).nest_team() { sum_points(old(self).nest@) } else { old(self).scoring.nest[t] as int }) <= isize::MAX,
        ensures
            Game::award_nest_cards_post(*old(self), *final(self), points),

    {
        let ghost s = self.nest@;
        let mut total: i128 = 0;
        let n = self.nest.len();
        for i in 0..n
            invariant
                n == s.len(),
                self.nest@.len() == n,
                s == old(self).nest@,
                forall|j: int| 0 <= j < i ==> self.nest@[j] == (Card { face_up: true, ..s[j] }),
                forall|j: int| i <= j < n ==> self.nest@[j] == s[j],
                total == sum_points(s.take(i as int)),
                -(i as int) * 0x8000_0000_0000_0000 <= total <= (i as int) * 0x8000_0000_0000_0000,
                *self == (Game { nest: self.nest, ..*old(self) }),
        {
            proof {
                assert(s.take(i + 1).drop_last() == s.take(i as int));
                assert(i < 0x1_0000_0000_0000_0000);
                assert((i + 1) * 0x8000_0000_0000_0000 <= 0x1_0000_0000_0000_0000 * 0x8000_0000_0000_0000) by (nonlinear_arith)
                    requires i + 1 <= 0x1_0000_0000_0000_0000;
            }
            let c = self.nest[i];
            total = total + c.points as i128;
            self.nest.set(i, Card { face_up: true, ..c });
        }
        proof {
            assert(s.take(n as int) == s);
            assert(self.nest@ =~= s.map_values(|c: Card| Card { face_up: true, ..c }));
        }
        let points = total as isize;
        let team: usize = match self.options.nest_awarded {
            NestAwarded::ToLastTrickWinner => {
                let winner = self.trick.winner.unwrap();
                self.team_index(winner)
            },
            NestAwarded::ToDefenders => {
                let m = self.maker.unwrap();
                self.opponent_index(m)
            },
        };
        if team == 0 {
            self.scoring.nest = [points, self.scoring.nest[1]];
        } else {
            self.scoring.nest = [self.scoring.nest[0], points];
        }
        assert(team == old(self).nest_team());
        assert(isize::MIN <= crate::scoring::subtotal_of(old(self).scoring, 0) - old(self).scoring.nest[0] + (if 0 == old(self).nest_team() { sum_points(old(self).nest@) } else { old(self).scoring.nest[0] as int }) <= isize::MAX);
        assert(isize::MIN <= crate::scoring::subtotal_of(old(self).scoring, 1) - old(self).scoring.nest[1] + (if 1 == old(self).nest_team() { sum_points(old(self).nest@) } else { old(self).scoring.nest[1] as int }) <= isize::MAX);
        self.scoring.update_hand_subtotals();
        assert(crate::scoring::subtotal_of(self.scoring, 0) == self.scoring.hand_subtotal[0]);
        assert(crate::scoring::subtotal_of(self.scoring, 1) == self.scoring.hand_subtotal[1]);
        points
    }

    /// The maker's team.
    pub open spec fn maker_team(&self) -> int {
        team_of(self.maker->0 as int)
    }

    /// The defenders' team.
    pub open spec fn defender_team(&self) -> int {
        team_of(self.maker->0 + 1)
    }

    /// A team's nest points once the last trick's bonus is added to the nest of the team
    /// that won the last trick.
    pub open spec fn final_nest(&self, t: int) -> int {
        self.scoring.nest[t] + (if t == team_of(self.last_trick_winner as int) { self.options.last_trick_pts as int } else { 0 })
    }

    /// A team's bonus for the majority of tricks: the team with more tricks gets it;
    /// a tie goes as the options say.
    pub open spec fn final_majority(&self, t: int) -> int {
        let m = self.maker_team();
        let d = self.defender_team();
        let tc = self.scoring.trick_count;
        let maj = self.options.majority_of_tricks_pts as int;
        if tc[m] > tc[d] {
            if t == m { maj } else { self.scoring.majority_bonus[t] as int }
        } else if tc[d] > tc[m] {
            if t == d { maj } else { self.scoring.majority_bonus[t] as int }
        } else {
            match self.options.majority_tricks_tie {
                MajorityTricksTie::ToDefenders => if t == d { maj } else { self.scoring.majority_bonus[t] as int },
                MajorityTricksTie::SplitBetween => trunc_div(maj, 2),
                MajorityTricksTie::NoPoints => self.scoring.majority_bonus[t] as int,
            }
        }
    }

    /// A team's subtotal for the hand once the last trick and majority are scored.
    pub open spec fn final_subtotal(&self, t: int) -> int {
        self.scoring.points_taken[t] + self.final_nest(t) + self.scoring.last_trick[t] + self.final_majority(t)
    }

    /// Whether the makers took at least the points they bid.
    pub open spec fn bid_made(&self) -> bool {
        self.final_subtotal(self.maker_team()) >= self.high_bid
    }

    /// A team's bonus: the slam bonus for makers who took the maximum points (and, when
    /// the bid is what they score, also bid it); the defenders' bonus when the makers fail.
    pub open spec fn final_bonus(&self, t: int) -> int {
        let m = self.maker_team();
        let d = self.defender_team();
        let sub = self.final_subtotal(m);
        if self.bid_made() {
            let slam = match self.options.bidders_win {
                BiddersWin::PointsBid => self.high_bid == self.options.max_bid && sub == self.options.max_bid,
                BiddersWin::PointsTaken => sub == self.options.max_bid,
            };
            if t == m && slam { self.options.slam_bonus as int } else { self.scoring.bonus[t] as int }
        } else {
            match self.options.defenders_win {
                DefendersWin::PointsTaken(b) => if t == d { b as int } else { self.scoring.bonus[t] as int },
            }
        }
    }

    /// Half the defenders' subtotal when they lose under the half-points rule; a
    /// multiple of five is first raised by five.
    pub open spec fn half_points(x: int) -> int {
        trunc_div(if trunc_rem(x, 5) == 0 { x + 5 } else { x }, 2)
    }

    /// A team's final score for the hand, as the options say for making or failing the bid.
    pub open spec fn final_score(&self, t: int) -> int {
        let m = self.maker_team();
        let d = self.defender_team();
        if self.bid_made() {
            if t == m {
                match self.options.bidders_win {
                    BiddersWin::PointsBid => self.scoring.bid[m] + self.final_bonus(m),
                    BiddersWin::PointsTaken => self.final_subtotal(m) + self.final_bonus(m),
                }
            } else {
                match self.options.defenders_lose {
                    DefendersLose::PointsTaken => self.final_subtotal(d),
                    DefendersLose::HalfPoints => Self::half_points(self.final_subtotal(d)),
                    DefendersLose::Zero => 0,
                }
            }
        } else {
            if t == m {
                match self.options.bidders_lose {
                    BiddersLose::Zero => 0,
                    BiddersLose::MinusBid => -self.scoring.bid[m],
                }
            } else {
                self.final_subtotal(d) + self.final_bonus(d)
            }
        }
    }

    /// Whether every number that scoring the hand computes fits in the points type.
    pub open spec fn hand_scores_fit(&self) -> bool {
        forall|t: int| 0 <= t < 2 ==> {
            &&& fits(#[trigger] self.final_nest(t))
            &&& fits(self.final_subtotal(t))
            &&& fits(self.final_subtotal(t) + 5)
            &&& fits(self.final_score(t))
            &&& fits(self.scoring.game[t] + self.final_score(t))
        }
    }

    /// Scores the hand: the last trick's bonus goes to the nest of the team that took
    /// it, the majority bonus is awarded, the subtotals, bonuses and final scores are
    /// set, and the final scores are added to the game scores.
    pub fn complete_hand(&mut self)
        requires
            old(self).wf(),
            old(self).maker.is_some(),
            old(self).hand_scores_fit(),
        ensures
            Game::complete_hand_post(*old(self), *final(self)),

    {
        let n0 = self.compute_final_nest(0);
        let n1 = self.compute_final_nest(1);
        let m0 = self.compute_final_majority(0);
        let m1 = self.compute_final_majority(1);
        let s0 = self.compute_final_subtotal(0);
        let s1 = self.compute_final_subtotal(1);
        let b0 = self.compute_final_bonus(0);
        let b1 = self.compute_final_bonus(1);
        let f0 = self.compute_final_score(0);
        let f1 = self.compute_final_score(1);
        let g0 = self.scoring.game[0] + f0;
        let g1 = self.scoring.game[1] + f1;
        self.scoring.nest = [n0, n1];
        self.scoring.majority_bonus = [m0, m1];
        self.scoring.hand_subtotal = [s0, s1];
        self.scoring.bonus = [b0, b1];
        self.scoring.hand_final = [f0, f1];
        self.scoring.game = [g0, g1];
    }

    /// A team's nest points after the last trick is scored.
    fn compute_final_nest(&self, t: usize) -> (r: Points)
        requires
            self.wf(),
            t < 2,
            fits(self.final_nest(t as int)),
        ensures
            r == self.final_nest(t as int),
    {
        let lt = self.team_index(self.last_trick_winner);
        if t == lt {
            self.scoring.nest[t] + self.options.last_trick_pts
        } else {
            self.scoring.nest[t]
        }
    }

    /// A team's majority bonus after the hand.
    fn compute_final_majority(&self, t: usize) -> (r: Points)
        requires
            self.wf(),
            self.maker.is_some(),
            t < 2,
        ensures
            r == self.final_majority(t as int),
    {
        let maker = self.maker.unwrap();
        let m = self.team_index(maker);
        let d = self.opponent_index(maker);
        let maj = self.options.majority_of_tricks_pts;
        let tm = self.scoring.trick_count[m];
        let td = self.scoring.trick_count[d];
        if tm > td {
            if t == m { maj } else { self.scoring.majority_bonus[t] }
        } else if td > tm {
            if t == d { maj } else { self.scoring.majority_bonus[t] }
        } else {
            match self.options.majority_tricks_tie {
                MajorityTricksTie::ToDefenders => if t == d { maj } else { self.scoring.majority_bonus[t] },
                MajorityTricksTie::SplitBetween => maj / 2,
                MajorityTricksTie::NoPoints => self.scoring.majority_bonus[t],
            }
        }
    }

    /// A team's subtotal after the last trick and the majority are scored.
    fn compute_final_subtotal(&self, t: usize) -> (r: Points)
        requires
            self.wf(),
            self.maker.is_some(),
            t < 2,
            fits(self.final_nest(t as int)),
            fits(self.final_subtotal(t as int)),
        ensures
            r == self.final_subtotal(t as int),
    {
        let n = self.compute_final_nest(t);
        let m = self.compute_final_majority(t);
        let total = self.scoring.points_taken[t] as i128 + n as i128 + self.scoring.last_trick[t] as i128 + m as i128;
        total as isize
    }

    /// A team's bonus after the hand.
    fn compute_final_bonus(&self, t: usize) -> (r: Points)
        requires
            self.wf(),
            self.maker.is_some(),
            t < 2,
            self.hand_scores_fit(),
        ensures
            r == self.final_bonus(t as int),
    {
        let maker = self.maker.unwrap();
        let m = self.team_index(maker);
        let d = self.opponent_index(maker);
        assert(fits(self.final_nest(m as int)) && fits(self.final_subtotal(m as int)));
        let sub = self.compute_final_subtotal(m);
        if sub >= self.high_bid {
            let slam = match self.options.bidders_win {
                BiddersWin::PointsBid => self.high_bid == self.options.max_bid && sub == self.options.max_bid,
                BiddersWin::PointsTaken => sub == self.options.max_bid,
            };
            if t == m && slam { self.options.slam_bonus } else { self.scoring.bonus[t] }
        } else {
            match self.options.defenders_win {
                DefendersWin::PointsTaken(b) => if t == d { b } else { self.scoring.bonus[t] },
            }
        }
    }

    /// A team's final score for the hand.
    fn compute_final_score(&self, t: usize) -> (r: Points)
        requires
            self.wf(),
            self.maker.is_some(),
            t < 2,
            self.hand_scores_fit(),
        ensures
            r == self.final_score(t as int),
    {
        let maker = self.maker.unwrap();
        let m = self.team_index(maker);
        let d = self.opponent_index(maker);
        assert(fits(self.final_nest(m as int)) && fits(self.final_subtotal(m as int)));
        assert(fits(self.final_nest(d as int)) && fits(self.final_subtotal(d as int)));
        assert(fits(self.final_subtotal(d as int) + 5) && fits(self.final_score(t as int)));
        let sub = self.compute_final_subtotal(m);
        if sub >= self.high_bid {
            if t == m {
                let bonus = self.compute_final_bonus(m);
                match self.options.bidders_win {
                    BiddersWin::PointsBid => self.scoring.bid[m] + bonus,
                    BiddersWin::PointsTaken => sub + bonus,
                }
            } else {
                let dsub = self.compute_final_subtotal(d);
                match self.options.defenders_lose {
                    DefendersLose::PointsTaken => dsub,
                    DefendersLose::HalfPoints => {
                        let mut rounded = dsub;
                        if rounded % 5 == 0 {
                            rounded = rounded + 5;
                        }
                        rounded / 2
                    },
                    DefendersLose::Zero => 0,
                }
            }
        } else {
            if t == m {
                match self.options.bidders_lose {
                    BiddersLose::Zero => 0,
                    BiddersLose::MinusBid => -self.scoring.bid[m],
                }
            } else {
                let dsub = self.compute_final_subtotal(d);
                let bonus = self.compute_final_bonus(d);
                dsub + bonus
            }
        }
    }

    /// A team's nest points after the last trick is scored, computed without overflow.
    fn wide_final_nest(&self, t: usize) -> (r: i128)
        requires
            t < 2,
        ensures
            r == self.final_nest(t as int),
    {
        let lt = self.team_index(self.last_trick_winner);
        if t == lt {
            self.scoring.nest[t] as i128 + self.options.last_trick_pts as i128
        } else {
            self.scoring.nest[t] as i128
        }
    }

    /// A team's subtotal after the last trick and the majority are scored, computed
    /// without overflow.
    fn wide_final_subtotal(&self, t: usize) -> (r: i128)
        requires
            self.wf(),
            self.maker.is_some(),
            t < 2,
        ensures
            r == self.final_subtotal(t as int),
    {
        self.scoring.points_taken[t] as i128 + self.wide_final_nest(t) + self.scoring.last_trick[t] as i128
            + self.compute_final_majority(t) as i128
    }

    /// A team's bonus after the hand, computed without overflow.
    fn wide_final_bonus(&self, t: usize) -> (r: i128)
        requires
            self.wf(),
            self.maker.is_some(),
            t < 2,
        ensures
            r == self.final_bonus(t as int),
    {
        let maker = self.maker.unwrap();
        let m = self.team_index(maker);
        let d = self.opponent_index(maker);
        let sub = self.wide_final_subtotal(m);
        if sub >= self.high_bid as i128 {
            let slam = match self.options.bidders_win {
                BiddersWin::PointsBid => self.high_bid == self.options.max_bid && sub == self.options.max_bid as i128,
                BiddersWin::PointsTaken => sub == self.options.max_bid as i128,
            };
            if t == m && slam {
                self.options.slam_bonus as i128
            } else {
                self.scoring.bonus[t] as i128
            }
        } else {
            match self.options.defenders_win {
                DefendersWin::PointsTaken(b) => if t == d { b as i128 } else { self.scoring.bonus[t] as i128 },
            }
        }
    }

    /// A team's final score for the hand, computed without overflow.
    fn wide_final_score(&self, t: usize) -> (r: i128)
        requires
            self.wf(),
            self.maker.is_some(),
            t < 2,
        ensures
            r == self.final_score(t as int),
    {
        let maker = self.maker.unwrap();
        let m = self.team_index(maker);
        let d = self.opponent_index(maker);
        let sub = self.wide_final_subtotal(m);
        if sub >= self.high_bid as i128 {
            if t == m {
                let bonus = self.wide_final_bonus(m);
                match self.options.bidders_win {
                    BiddersWin::PointsBid => self.scoring.bid[m] as i128 + bonus,
                    BiddersWin::PointsTaken => sub + bonus,
                }
            } else {
                let dsub = self.wide_final_subtotal(d);
                match self.options.defenders_lose {
                    DefendersLose::PointsTaken => dsub,
                    DefendersLose::HalfPoints => {
                        let mut rounded = dsub;
                        if rounded % 5 == 0 {
                            rounded = rounded + 5;
                        }
                        rounded / 2
                    },
                    DefendersLose::Zero => 0,
                }
            }
        } else {
            if t == m {
                match self.options.bidders_lose {
                    BiddersLose::Zero => 0,
                    BiddersLose::MinusBid => -(self.scoring.bid[m] as i128),
                }
            } else {
                self.wide_final_subtotal(d) + self.wide_final_bonus(d)
            }
        }
    }

    /// Whether a team's scores for the hand fit in the points type.
    fn team_scores_fit(&self, t: usize) -> (r: bool)
        requires
            self.wf(),
            self.maker.is_some(),
            t < 2,
        ensures
            r == {
                &&& fits(self.final_nest(t as int))
                &&& fits(self.final_subtotal(t as int))
                &&& fits(self.final_subtotal(t as int) + 5)
                &&& fits(self.final_score(t as int))
                &&& fits(self.scoring.game[t as int] + self.final_score(t as int))
            },
    {
        let lo = isize::MIN as i128;
        let hi = isize::MAX as i128;
        let nest = self.wide_final_nest(t);
        let sub = self.wide_final_subtotal(t);
        let score = self.wide_final_score(t);
        let game = self.scoring.game[t] as i128 + score;
        lo <= nest && nest <= hi && lo <= sub && sub <= hi && sub + 5 <= hi && lo <= score && score <= hi && lo <= game
            && game <= hi
    }

    /// Whether the scores of the hand fit in the points type, as scoring the hand
    /// requires.
    pub fn hand_scores_fit_check(&self) -> (r: bool)
        requires
            self.wf(),
            self.maker.is_some(),
        ensures
            r == self.hand_scores_fit(),
    {
        let r = self.team_scores_fit(0) && self.team_scores_fit(1);
        assert(r == self.hand_scores_fit()) by {
            if r {
                assert forall|t: int| 0 <= t < 2 implies {
                    &&& fits(#[trigger] self.final_nest(t))
                    &&& fits(self.final_subtotal(t))
                    &&& fits(self.final_subtotal(t) + 5)
                    &&& fits(self.final_score(t))
                    &&& fits(self.scoring.game[t] + self.final_score(t))
                } by {
                    if t == 0 {
                    } else {
                        assert(t == 1);
                    }
                }
            }
            if self.hand_scores_fit() {
                assert(fits(self.final_nest(0)));
                assert(fits(self.final_nest(1)));
            }
        }
        r
    }

    /// Adds a face-down card to the deck.
    fn create_card(&mut self, id: Id, suit: Suit, rank: Rank, points: Points)
        ensures
            final(self).deck@ == old(self).deck@.push(card_from(id as int, (suit, rank, points))),
            *final(self) == (Game { deck: final(self).deck, ..*old(self) }),
    {
        let mut card = Card::new(id, suit, rank, points);
        card.face_up = false;
        self.deck.push(card);
    }

    /// Adds the cards of the options' deck list to the deck, numbered from 0.
    pub fn create_deck(&mut self)
        requires
            old(self).options.cards_in_deck@.len() <= 255,
        ensures
            Game::create_deck_post(*old(self), *final(self)),

    {
        let mut id: Id = 0;
        let n = self.options.cards_in_deck.len();
        let ghost d = self.options.cards_in_deck@;
        for i in 0..n
            invariant
                n == d.len(),
                n <= 255,
                id == i,
                d == self.options.cards_in_deck@,
                self.deck@ == old(self).deck@ + cards_from(d).take(i as int),
                *self == (Game { deck: self.deck, ..*old(self) }),
        {
            let (suit, rank, points) = self.options.cards_in_deck[i];
            self.create_card(id, suit, rank, points);
            id = id + 1;
            assert(cards_from(d).take(i + 1) == cards_from(d).take(i as int).push(card_from(i as int, d[i as int])));
        }
        assert(cards_from(d).take(n as int) == cards_from(d));
    }

    /// The cards gathered for a new hand: the deck, then each player's taken cards in
    /// player order, then the nest.
    pub open spec fn gathered(&self) -> Seq<Card> {
        self.deck@ + self.taken@.map_values(|v: Vec<Card>| v@).flatten() + self.nest@
    }

    /// Gathers the taken cards and the nest into the deck, turns it face down, shuffles
    /// it, moves the deal to the next dealer, clears the bids, the maker, the trick and
    /// the scores of the hand, resets the jokers' suit and sets how many cards to deal.
    pub fn reset_for_new_hand(&mut self)
        requires
            old(self).wf(),
            old(self).options.hand_size * old(self).options.players <= usize::MAX,
        ensures
            Game::reset_for_new_hand_post(*old(self), *final(self)),

    {
        self.scoring = self.scoring.new_for_next_hand();
        let n = self.options.players;
        let ghost tk = old(self).taken@.map_values(|v: Vec<Card>| v@);
        let ghost pre0 = *self;
        for p in 0..n
            invariant
                *self == (Game { deck: self.deck, taken: self.taken, bids: self.bids, ..pre0 }),
                pre0 == (Game { scoring: pre0.scoring, ..*old(self) }),
                n == old(self).options.players,
                old(self).wf(),
                self.taken@.len() == n,
                self.bids@.len() == n,
                self.options == old(self).options,
                tk == old(self).taken@.map_values(|v: Vec<Card>| v@),
                self.deck@ == old(self).deck@ + tk.take(p as int).flatten_alt(),
                self.nest == old(self).nest,
                self.hands == old(self).hands,
                self.exchange == old(self).exchange,
                forall|q: int| 0 <= q < p ==> (#[trigger] self.taken@[q])@.len() == 0,
                forall|q: int| p <= q < n ==> #[trigger] self.taken@[q] == old(self).taken@[q],
                forall|q: int| 0 <= q < p ==> #[trigger] self.bids@[q] == None::<Bid>,
        {
            proof {
                assert(tk.take(p + 1).drop_last() == tk.take(p as int));
                assert(tk.take(p + 1).last() == self.taken@[p as int]@);
            }
            if !self.taken[p].is_empty() {
                self.deck.append(&mut self.taken[p]);
            }
            self.bids.set(p, None);
        }
        proof {
            assert(tk.take(n as int) == tk);
            tk.lemma_flatten_and_flatten_alt_are_equivalent();
        }
        self.deck.append(&mut self.nest);
        let ghost all = self.deck@;
        let ghost pre = *self;
        assert(all == old(self).gathered());
        let m = self.deck.len();
        for i in 0..m
            invariant
                *self == (Game { deck: self.deck, ..pre }),
                m == all.len(),
                self.deck@.len() == m,
                forall|j: int| 0 <= j < i ==> self.deck@[j] == (Card { face_up: false, ..all[j] }),
                forall|j: int| i <= j < m ==> self.deck@[j] == all[j],
        {
            let c = self.deck[i];
            self.deck.set(i, Card { face_up: false, ..c });
        }
        assert(self.deck@ =~= turned(all, false));
        shuffle(&mut self.deck);
        let ghost shuffled = self.deck@;

        self.dealer = (self.dealer % n + 1) % n;
        proof {
            lemma_mod_succ(old(self).dealer as int, n as int);
        }
        self.active = self.dealer;
        self.exchange_face_up_count = 0;
        self.nest_face_up_count = 0;
        self.maker = None;
        self.high_bid = 0;
        self.trick.reset();
        let ghost before_jokers = *self;
        self.set_joker_suit(Suit::Joker);
        let ghost after_jokers = *self;
        proof {
            lemma_map_permutation(shuffled, turned(all, false), |c: Card| joker_as(c, Suit::Joker));
        }
        self.hand_cards_to_deal = self.options.hand_size * self.options.players;
        self.exchange_cards_to_deal = self.options.exchange_size;
        self.nest_cards_to_deal = self.options.nest_size;
        assert forall|p: int| 0 <= p < old(self).options.players implies #[trigger] self.hand(p) == jokers_as(old(self).hand(p), Suit::Joker) by {
            assert(before_jokers.hand(p) == old(self).hand(p));
            assert(after_jokers.hand(p) == jokers_as(before_jokers.hand(p), Suit::Joker));
        }
    }

    /// Whether this is a new game with these options and this dealer: player 0 is
    /// human, the others are bots; the dealer is active; nothing is dealt and nothing is
    /// scored.
    pub open spec fn is_fresh(&self, options: GameOptions, dealer: usize) -> bool {
        &&& self.wf()
        &&& self.options == options
        &&& self.dealer == dealer
        &&& self.active == dealer
        &&& forall|p: int| 0 <= p < options.players ==> #[trigger] self.bot_players@[p] == (p != 0)
        &&& forall|p: int| 0 <= p < options.players ==> #[trigger] self.hand(p).len() == 0
        &&& forall|p: int| 0 <= p < options.players ==> (#[trigger] self.taken@[p])@.len() == 0
        &&& forall|p: int| 0 <= p < options.players ==> #[trigger] self.bids@[p] == None::<Bid>
        &&& crate::scoring::all_zero(self.scoring)
        &&& self.deck@.len() == 0
        &&& self.exchange@.len() == 0
        &&& self.nest@.len() == 0
        &&& self.exchange_face_up_count == 0
        &&& self.nest_face_up_count == 0
        &&& self.maker.is_none()
        &&& self.high_bid == 0
        &&& self.trump_suit.is_none()
        &&& self.trick.is_cleared()
        &&& self.last_trick_winner == 0
        &&& self.hand_cards_to_deal == 0
        &&& self.exchange_cards_to_deal == 0
        &&& self.nest_cards_to_deal == 0
    }

    /// A game with the given options and dealer: player 0 is human, the others are
    /// bots; the dealer is active; nothing is dealt and nothing is scored.
    pub fn with_dealer(options: GameOptions, dealer: usize) -> (g: Game)
        requires
            dealer < options.players,
        ensures
            g.is_fresh(options, dealer),
    {
        let players = options.players;
        let mut bot_players: Vec<bool> = Vec::new();
        let mut hands: Vec<Vec<Card>> = Vec::new();
        let mut bids: Vec<Option<Bid>> = Vec::new();
        let mut taken: Vec<Vec<Card>> = Vec::new();
        for p in 0..players
            invariant
                bot_players@.len() == p,
                hands@.len() == p,
                bids@.len() == p,
                taken@.len() == p,
                forall|q: int| 0 <= q < p ==> #[trigger] bot_players@[q] == (q != 0),
                forall|q: int| 0 <= q < p ==> (#[trigger] hands@[q])@.len() == 0,
                forall|q: int| 0 <= q < p ==> (#[trigger] taken@[q])@.len() == 0,
                forall|q: int| 0 <= q < p ==> #[trigger] bids@[q] == None::<Bid>,
        {
            if p == 0 {
                bot_players.push(false);
            } else {
                bot_players.push(true);
            }
            bids.push(None);
            hands.push(Vec::new());
            taken.push(Vec::new());
        }
        Game {
            options,
            bot_players,
            scoring: Scoring::new(),
            deck: Vec::new(),
            exchange: Vec::new(),
            nest: Vec::new(),
            hands,
            bids,
            taken,
            dealer,
            active: dealer,
            exchange_face_up_count: 0,
            nest_face_up_count: 0,
            maker: None,
            high_bid: 0,
            trump_suit: None,
            trick: Trick::new(players),
            last_trick_winner: 0,
            hand_cards_to_deal: 0,
            exchange_cards_to_deal: 0,
            nest_cards_to_deal: 0,
        }
    }

    /// A game with the given options and a dealer drawn at random.
    pub fn new(options: GameOptions) -> (g: Game)
        requires
            options.players >= 1,
        ensures
            g.dealer < options.players,
            g.is_fresh(options, g.dealer),
    {
        let dealer = random_index(options.players);
        Game::with_dealer(options, dealer)
    }

    /// Whether two games are in the same state: every list holds the same cards, and
    /// every other field is equal.
    pub open spec fn same_state(&self, other: Game) -> bool {
        &&& self.options == (GameOptions { cards_in_deck: self.options.cards_in_deck, ..other.options })
        &&& self.options.cards_in_deck@ == other.options.cards_in_deck@
        &&& self.bot_players@ == other.bot_players@
        &&& self.deck@ == other.deck@
        &&& self.exchange@ == other.exchange@
        &&& self.nest@ == other.nest@
        &&& self.bids@ == other.bids@
        &&& same_lists(self.hands@, other.hands@)
        &&& same_lists(self.taken@, other.taken@)
        &&& self.trick == (Trick { cards: self.trick.cards, ..other.trick })
        &&& self.trick.cards@ == other.trick.cards@
        &&& *self == (Game {
            options: self.options,
            bot_players: self.bot_players,
            deck: self.deck,
            exchange: self.exchange,
            nest: self.nest,
            bids: self.bids,
            hands: self.hands,
            taken: self.taken,
            trick: self.trick,
            ..other
        })
    }

    /// An independent copy of the game.
    pub fn duplicate(&self) -> (r: Game)
        ensures
            r.same_state(*self),
    {
        let options = GameOptions {
            cards_in_deck: copy_vec(&self.options.cards_in_deck),
            ..self.options
        };
        let trick = Trick { cards: copy_vec(&self.trick.cards), ..self.trick };
        Game {
            options,
            bot_players: copy_vec(&self.bot_players),
            scoring: self.scoring,
            deck: copy_vec(&self.deck),
            exchange: copy_vec(&self.exchange),
            nest: copy_vec(&self.nest),
            hands: copy_card_lists(&self.hands),
            bids: copy_vec(&self.bids),
            taken: copy_card_lists(&self.taken),
            trick,
            ..*self
        }
    }
}

} // verus!
