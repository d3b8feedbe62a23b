//! Properties of the game that hold across its operations.
use vstd::prelude::*;

use crate::card::{order_key, Card, Id, Points, Suit};
use crate::controller::{discards_through, step_allowed, step_post, GameAction, Step};
use crate::scoring::pair;
use crate::game::{cards_from, count_worth, has_id, is_first_id, team_of, trunc_div, trunc_rem, Bid, Game};
use crate::hand::{insert_sorted, is_sorted_hand, is_strictly_sorted, lemma_insert_back, lemma_sorted_fixed, sorted_hand};
use crate::game_options::{BiddersLose, BiddersWin, DefendersLose, DefendersWin, DiscardedPointCards, JokerKind};
use crate::trick::{beats, Trick};
use crate::conservation::{
    game_ids, ids_of, lemma_award_keeps, lemma_award_nest_keeps, lemma_create_deck_adds, lemma_deal_to_exchange_keeps,
    lemma_deal_to_hand_keeps, lemma_deal_to_nest_keeps, lemma_discards_keep, lemma_exchange_to_nest_keeps,
    lemma_mark_playable_keeps, lemma_move_and_mark_keeps, lemma_new_hand_keeps, lemma_next_trick_keeps, lemma_play_keeps,
    lemma_swap_keeps, lemma_trump_keeps,
};

verus! {

/// Players sit in two alternating teams: each player is on team 0 or team 1, the next
/// player at the table is on the other team, and the player two seats on is a partner.
pub proof fn law_alternating_teams(p: int)
    requires
        0 <= p,
    ensures
        team_of(p) == 0 || team_of(p) == 1,
        team_of(p) != team_of(p + 1),
        team_of(p) == team_of(p + 2),
{
}

/// Whether a trick's winner, if it has one, is a player who has played a card to it,
/// and a trick with a lead suit has a winner.
pub open spec fn winner_played(t: Trick) -> bool {
    &&& t.winner matches Some(w) ==> w < t.cards@.len() && t.cards@[w as int].is_some()
    &&& t.lead_suit.is_some() ==> t.winner.is_some()
}

/// Once a card is played to a trick, the trick has a winner, and the winner is always a
/// player who has played a card to it.
pub proof fn law_trick_winner_played(
    t: Trick,
    next: Trick,
    player: usize,
    card: Card,
    trump: Option<Suit>,
    joker_kind: JokerKind,
)
    requires
        winner_played(t),
        player < t.cards@.len(),
        t.added(next, player, card, trump, joker_kind),
    ensures
        next.winner.is_some(),
        winner_played(next),
{
}

/// The lead suit, once set by the first card that is not a phoenix joker, stays for the
/// rest of the trick.
pub proof fn law_lead_suit_kept(
    t: Trick,
    next: Trick,
    player: usize,
    card: Card,
    trump: Option<Suit>,
    joker_kind: JokerKind,
)
    requires
        t.lead_suit.is_some(),
        t.added(next, player, card, trump, joker_kind),
    ensures
        next.lead_suit == t.lead_suit,
{
}

/// Under the phoenix rule a joker takes the trick whenever it is played, and leaves the
/// winning suit and rank as they were once a lead suit is set.
pub proof fn law_phoenix_takes_trick(
    t: Trick,
    next: Trick,
    player: usize,
    card: Card,
    trump: Option<Suit>,
)
    requires
        card.suit == Suit::Joker,
        t.added(next, player, card, trump, JokerKind::Phoenix),
    ensures
        next.winner == Some(player),
        next.winning_suit == t.winning_suit,
        next.winning_rank == t.winning_rank,
        next.lead_suit == t.lead_suit,
{
}

/// A trump beats any card of another suit, and a card that is neither trump nor of the
/// winning suit never beats the winning card.
pub proof fn law_trump_beats_plain(rank: u8, winning_suit: Suit, winning_rank: u8, trump: Suit, other: Suit)
    requires
        winning_suit != trump,
        other != trump,
        other != winning_suit,
    ensures
        beats(trump, rank, winning_suit, winning_rank, Some(trump)),
        !beats(other, rank, winning_suit, winning_rank, Some(trump)),
        !beats(other, rank, winning_suit, winning_rank, None),
{
}

/// The total of the points of the cards played to a trick.
pub open spec fn played_points(cards: Seq<Option<Card>>) -> int
    decreases cards.len(),
{
    if cards.len() == 0 {
        0
    } else {
        played_points(cards.drop_last()) + match cards.last() {
            Some(c) => c.points as int,
            None => 0,
        }
    }
}

/// Filling an empty slot adds the card's points to the total.
proof fn lemma_played_points_fill(cards: Seq<Option<Card>>, i: int, c: Card)
    requires
        0 <= i < cards.len(),
        cards[i].is_none(),
    ensures
        played_points(cards.update(i, Some(c))) == played_points(cards) + c.points,
    decreases cards.len(),
{
    let u = cards.update(i, Some(c));
    if i == cards.len() - 1 {
        assert(u.drop_last() =~= cards.drop_last());
    } else {
        lemma_played_points_fill(cards.drop_last(), i, c);
        assert(u.drop_last() =~= cards.drop_last().update(i, Some(c)));
    }
}

/// A trick's points are the points of the cards played to it: playing a card to an empty
/// slot keeps that so.
pub proof fn law_trick_points(
    t: Trick,
    next: Trick,
    player: usize,
    card: Card,
    trump: Option<Suit>,
    joker_kind: JokerKind,
)
    requires
        t.points == played_points(t.cards@),
        player < t.cards@.len(),
        t.cards@[player as int].is_none(),
        t.added(next, player, card, trump, joker_kind),
    ensures
        next.points == played_points(next.cards@),
{
    lemma_played_points_fill(t.cards@, player as int, card);
}

/// Every step of the game keeps it well formed: the player lists keep one entry per
/// player, and the active player, the dealer, the maker and the trick's winner stay at
/// the table.
pub proof fn law_step_keeps_wf(g0: Game, g1: Game, action: GameAction, s: Step)
    requires
        g0.wf(),
        step_allowed(g0, action),
        step_post(g0, g1, action, s),
    ensures
        g1.wf(),
{
    match action {
        GameAction::Discard(ids) => {
            let states = choose|states: Seq<Game>|
                #[trigger] discards_through(states, ids@) && states[0] == g0 && states.last() == g1;
            crate::conservation::lemma_discards_keep(states, ids@, states.len() - 1);
        },
        _ => {},
    }
}

/// The number of cards marked eligible.
pub open spec fn count_eligible(s: Seq<Card>) -> int {
    s.filter(|c: Card| c.eligible).len() as int
}

/// When every card of `a` that meets `p` sits where `b` holds a card that meets `q`,
/// `b` has at least as many cards that meet `q`.
proof fn lemma_filter_len_mono(a: Seq<Card>, b: Seq<Card>, p: spec_fn(Card) -> bool, q: spec_fn(Card) -> bool)
    requires
        a.len() == b.len(),
        forall|i: int| 0 <= i < a.len() && p(#[trigger] a[i]) ==> q(b[i]),
    ensures
        a.filter(p).len() <= b.filter(q).len(),
    decreases a.len(),
{
    if a.len() > 0 {
        let a0 = a.drop_last();
        let b0 = b.drop_last();
        assert forall|i: int| 0 <= i < a0.len() && p(#[trigger] a0[i]) implies q(b0[i]) by {
            assert(a0[i] == a[i] && b0[i] == b[i]);
        }
        lemma_filter_len_mono(a0, b0, p, q);
        assert(a == a0.push(a.last()));
        assert(b == b0.push(b.last()));
        a0.lemma_filter_push(a.last(), p);
        b0.lemma_filter_push(b.last(), q);
    }
}

/// Cards that meet one of two exclusive conditions are as many as those that meet the
/// first plus those that meet the second.
proof fn lemma_filter_len_or(s: Seq<Card>, p: spec_fn(Card) -> bool, q: spec_fn(Card) -> bool)
    requires
        forall|c: Card| !(#[trigger] p(c) && q(c)),
    ensures
        s.filter(|c: Card| p(c) || q(c)).len() == s.filter(p).len() + s.filter(q).len(),
    decreases s.len(),
{
    let pq = |c: Card| p(c) || q(c);
    if s.len() > 0 {
        let s0 = s.drop_last();
        lemma_filter_len_or(s0, p, q);
        assert(s == s0.push(s.last()));
        s0.lemma_filter_push(s.last(), p);
        s0.lemma_filter_push(s.last(), q);
        s0.lemma_filter_push(s.last(), pq);
    } else {
        assert(s.filter(pq) =~= s);
        assert(s.filter(p) =~= s);
        assert(s.filter(q) =~= s);
    }
}

/// After the maker's discards are marked, the maker can always discard enough cards:
/// every card when point cards may be discarded, and otherwise at least as many as the
/// exchange takes, given that the hand holds that many cards worth 0, 5 or 10.
pub proof fn law_enough_discards(g0: Game, g1: Game)
    requires
        g0.wf(),
        g0.maker.is_some(),
        g0.options.discard_point_cards is OnlyWhenForced ==> count_worth(g0.hand(g0.maker->0 as int), 0)
            + count_worth(g0.hand(g0.maker->0 as int), 5) + count_worth(g0.hand(g0.maker->0 as int), 10)
            >= g0.options.exchange_size,
        Game::mark_eligible_discards_post(g0, g1),
    ensures
        g0.options.discard_point_cards is Allowed ==> count_eligible(g1.hand(g0.maker->0 as int))
            == g1.hand(g0.maker->0 as int).len(),
        g0.options.discard_point_cards is OnlyWhenForced ==> count_eligible(g1.hand(g0.maker->0 as int))
            >= g0.options.exchange_size,
{
    let m = g0.maker->0 as int;
    let h = g0.hand(m);
    let h1 = g1.hand(m);
    let size = g0.options.exchange_size;
    let el = |c: Card| c.eligible;
    let zero = |c: Card| c.points == 0;
    let five = |c: Card| c.points == 5;
    let ten = |c: Card| c.points == 10;
    assert(h1.len() == h.len());
    assert forall|i: int| 0 <= i < h.len() implies #[trigger] h1[i] == (Card { eligible: g0.discard_eligible(h, h[i]), ..h[i] }) by {}
    match g0.options.discard_point_cards {
        DiscardedPointCards::Allowed(_) => {
            let all = |c: Card| true;
            lemma_filter_len_mono(h, h1, all, el);
            crate::bot_monte::lemma_filter_all(h, all);
        },
        DiscardedPointCards::OnlyWhenForced(_) => {
            let z = count_worth(h, 0);
            let f = count_worth(h, 5);
            assert(z == h.filter(zero).len());
            assert(f == h.filter(five).len());
            assert(count_worth(h, 10) == h.filter(ten).len());
            if z >= size {
                lemma_filter_len_mono(h, h1, zero, el);
            } else if z + f >= size {
                let zf = |c: Card| zero(c) || five(c);
                lemma_filter_len_or(h, zero, five);
                lemma_filter_len_mono(h, h1, zf, el);
            } else {
                let zf = |c: Card| zero(c) || five(c);
                let zft = |c: Card| zf(c) || ten(c);
                lemma_filter_len_or(h, zero, five);
                lemma_filter_len_or(h, zf, ten);
                lemma_filter_len_mono(h, h1, zft, el);
            }
        },
    }
}

/// After a bid of points, the bidder is the maker, and the least bid that may follow is
/// that bid raised by the options' increment.
pub proof fn law_min_bid_after_bid(g0: Game, g1: Game, points: Points)
    requires
        points != 0,
        Game::make_bid_post(g0, g1, Bid::Points(points)),
    ensures
        g1.least_bid() == points + g0.options.bid_increment,
        g1.maker == Some(g0.active),
{
}

/// A player with a card in hand always has a card that may be played, and when the
/// player holds a card of the suit that was led, only cards of that suit may be played.
pub proof fn law_always_playable(g: Game)
    requires
        g.active < g.hands@.len(),
        g.hand(g.active as int).len() > 0,
    ensures
        g.hand(g.active as int).filter(|c: Card| g.playable(c)).len() > 0,
        g.must_follow() ==> forall|c: Card| g.playable(c) ==> Some(c.suit) == g.trick.lead_suit,
{
    crate::simulation::lemma_some_playable(g);
}

/// No step of the game loses a card or makes one up: the ids of the cards in the deck,
/// the exchange, the nest, the hands, the cards taken and the trick stay the same, and
/// the first step adds the cards of the deck list. This holds as long as a new hand
/// starts with no card left in the trick and a card is played to an empty slot, as
/// every hand played by steps does.
pub proof fn law_step_keeps_cards(g0: Game, g1: Game, action: GameAction, s: Step)
    requires
        g0.wf(),
        step_allowed(g0, action),
        step_post(g0, g1, action, s),
        action is ResetForNewHand ==> g0.trick.is_empty(),
        action is PlayCard ==> g0.trick.cards@[g0.active as int].is_none(),
    ensures
        action is Setup ==> game_ids(g1) == game_ids(g0).add(ids_of(cards_from(g0.options.cards_in_deck@))),
        !(action is Setup) ==> game_ids(g1) == game_ids(g0),
{
    match action {
        GameAction::Setup => {
            lemma_create_deck_adds(g0, g1);
        },
        GameAction::ResetForNewHand => {
            lemma_new_hand_keeps(g0, g1);
        },
        GameAction::DealToHands => {
            if g0.hand_cards_to_deal > 0 {
                let gm = Game { hand_cards_to_deal: (g0.hand_cards_to_deal - 1) as usize, ..g0 };
                lemma_deal_to_hand_keeps(gm, g1);
            }
        },
        GameAction::DealToNest => {
            if g0.exchange_cards_to_deal > 0 {
                let gm = Game { exchange_cards_to_deal: (g0.exchange_cards_to_deal - 1) as usize, ..g0 };
                lemma_deal_to_exchange_keeps(gm, g1);
            } else if g0.nest_cards_to_deal > 0 {
                let gm = Game { nest_cards_to_deal: (g0.nest_cards_to_deal - 1) as usize, ..g0 };
                lemma_deal_to_nest_keeps(gm, g1);
            }
        },
        GameAction::MakeBid(bid) => {
            let gm = choose|gm: Game| {
                &&& #[trigger] Game::make_bid_post(g0, gm, bid)
                &&& if gm.bidding_done() {
                    &&& g1 == gm
                    &&& s.next == Some(GameAction::EndBidding)
                    &&& s.delay_ms == 2000
                } else {
                    &&& Game::next_bidding_player_post(gm, g1)
                    &&& s.next == Some(GameAction::GetBid)
                    &&& s.delay_ms == 1000
                }
            };
            assert(game_ids(gm) == game_ids(g0));
        },
        GameAction::MoveNestToMaker => {
            let gm = choose|gm: Game| #[trigger] Game::move_exchange_cards_to_maker_post(g0, gm)
                && Game::mark_eligible_discards_post(gm, g1);
            lemma_move_and_mark_keeps(g0, gm, g1);
        },
        GameAction::Exchange(id) => {
            lemma_swap_keeps(g0, g1, id);
        },
        GameAction::Discard(ids) => {
            let states = choose|states: Seq<Game>|
                #[trigger] discards_through(states, ids@) && states[0] == g0 && states.last() == g1;
            lemma_discards_keep(states, ids@, states.len() - 1);
        },
        GameAction::EndExchanging => {
            let gm = choose|gm: Game| #[trigger] Game::turn_exchange_cards_post(g0, gm)
                && Game::add_exchange_cards_to_nest_post(gm, g1);
            lemma_exchange_to_nest_keeps(g0, gm, g1);
        },
        GameAction::ChooseTrump(suit) => {
            let gm = choose|gm: Game| {
                &&& #[trigger] Game::set_trump_suit_post(g0, gm, suit)
                &&& g1.active == gm.first_player()
                &&& g1 == (Game { active: g1.active, ..gm })
            };
            lemma_trump_keeps(g0, gm, suit);
        },
        GameAction::GetCardPlay => {
            if !crate::controller::bot_active(g0) {
                let r = choose|r: Seq<crate::card::Id>| #[trigger] Game::get_playable_card_ids_post(g0, g1, r);
                lemma_mark_playable_keeps(g0, g1, r);
            }
        },
        GameAction::PlayCard(id) => {
            lemma_play_keeps(g0, g1, id);
        },
        GameAction::AwardTrick => {
            let gm = choose|gm: Game| {
                &&& #[trigger] Game::award_trick_post(g0, gm)
                &&& if gm.hand(gm.active as int).len() == 0 {
                    &&& g1 == gm
                    &&& s.next == Some(GameAction::AwardNest)
                } else {
                    &&& Game::reset_for_next_trick_post(gm, g1)
                    &&& s.next == Some(GameAction::GetCardPlay)
                }
            };
            lemma_award_keeps(g0, gm);
            if gm.hand(gm.active as int).len() != 0 {
                lemma_next_trick_keeps(gm, g1);
            }
        },
        GameAction::AwardNest => {
            let p = choose|p: Points| {
                &&& #[trigger] Game::award_nest_cards_post(g0, g1, p)
                &&& s.view@ =~= seq![crate::controller::ViewCommand::UpdateMessage(crate::controller::Message::NestPoints(p)),
                    crate::controller::ViewCommand::UpdateInfo, crate::controller::ViewCommand::UpdateNest(false)]
            };
            lemma_award_nest_keeps(g0, g1, p);
        },
        _ => {},
    }
}

/// Whether no two cards of `s` share an id.
pub open spec fn distinct_ids(s: Seq<Card>) -> bool {
    forall|j: int, k: int| 0 <= j < k < s.len() ==> (#[trigger] s[j]).id != (#[trigger] s[k]).id
}

/// Moving a card from the maker's hand to the exchange and then moving it back returns
/// the exchange to what it was and gives the maker the same cards, sorted, when no two
/// cards of the hand share an id, the card's id is not in the exchange, and the
/// exchange does not hold exactly its size.
pub proof fn law_exchange_returns_card(g0: Game, g1: Game, g2: Game, id: Id)
    requires
        g0.wf(),
        g0.maker.is_some(),
        distinct_ids(g0.hand(g0.maker->0 as int)),
        has_id(g0.hand(g0.maker->0 as int), id),
        !has_id(g0.exchange@, id),
        g0.exchange@.len() != g0.options.exchange_size,
        Game::swap_with_exchange_post(g0, g1, id),
        Game::swap_with_exchange_post(g1, g2, id),
    ensures
        g2.hand(g0.maker->0 as int).to_multiset() == g0.hand(g0.maker->0 as int).to_multiset(),
        is_sorted_hand(g2.hand(g0.maker->0 as int)),
        g2.hands@.len() == g0.hands@.len(),
        forall|p: int| 0 <= p < g0.hands@.len() && p != g0.maker->0 ==> #[trigger] g2.hands@[p] == g0.hands@[p],
        g2.exchange@ == g0.exchange@,
        g2 == (Game { hands: g2.hands, exchange: g2.exchange, ..g0 }),
{
    broadcast use vstd::seq_lib::group_to_multiset_ensures;
    let m = g0.maker->0 as int;
    let h = g0.hand(m);
    let e = g0.exchange@;
    let i = choose|i: int| {
        &&& #[trigger] is_first_id(h, id, i)
        &&& g1.hands@ =~= g0.hands@.update(m, g1.hands@[m])
        &&& g1.hand(m) =~= h.remove(i)
        &&& g1.exchange@ =~= e.push(h[i])
        &&& g1 == (Game { hands: g1.hands, exchange: g1.exchange, ..g0 })
    };
    let h1 = g1.hand(m);
    let e1 = g1.exchange@;
    assert(!has_id(h1, id)) by {
        if has_id(h1, id) {
            let k = choose|k: int| 0 <= k < h1.len() && (#[trigger] h1[k]).id == id;
            if k < i {
                assert(h1[k] == h[k]);
            } else {
                assert(h1[k] == h[k + 1]);
            }
        }
    }
    let k = e.len() as int;
    assert(is_first_id(e1, id, k)) by {
        assert forall|j: int| 0 <= j < k implies (#[trigger] e1[j]).id != id by {
            assert(e1[j] == e[j]);
        }
    }
    assert(has_id(e1, id));
    let k2 = choose|k2: int| {
        &&& #[trigger] is_first_id(e1, id, k2)
        &&& g2.hands@ =~= g1.hands@.update(m, g2.hands@[m])
        &&& g2.hand(m) =~= sorted_hand(h1.push(e1[k2]))
        &&& g2.exchange@ =~= e1.remove(k2)
        &&& g2 == (Game { hands: g2.hands, exchange: g2.exchange, ..g1 })
    };
    assert(k2 == k) by {
        if k2 < k {
            assert(e1[k2] == e[k2]);
        }
    }
    assert(e1[k] == h[i]);
    crate::hand::lemma_sorted_hand(h1.push(h[i]));
    assert(h.to_multiset() == h1.to_multiset().insert(h[i])) by {
        vstd::seq_lib::to_multiset_remove(h, i);
        assert(h.to_multiset().count(h[i]) > 0) by {
            assert(h.contains(h[i]));
        }
        assert(h1.to_multiset().insert(h[i]) =~= h.to_multiset());
    }
    assert(g2.exchange@ =~= e);
    assert forall|p: int| 0 <= p < g0.hands@.len() && p != m implies #[trigger] g2.hands@[p] == g0.hands@[p] by {
        assert(g2.hands@[p] == g1.hands@[p]);
        assert(g1.hands@[p] == g0.hands@[p]);
    }
}

/// Moving a card from the maker's hand to the exchange and then moving it back leaves
/// the game as it was, when the hand is sorted with no two cards in the same place and
/// no two with the same id, the card's id is not in the exchange, and the exchange
/// does not hold exactly its size.
pub proof fn law_exchange_undone(g0: Game, g1: Game, g2: Game, id: Id)
    requires
        g0.wf(),
        g0.maker.is_some(),
        is_strictly_sorted(g0.hand(g0.maker->0 as int)),
        distinct_ids(g0.hand(g0.maker->0 as int)),
        has_id(g0.hand(g0.maker->0 as int), id),
        !has_id(g0.exchange@, id),
        g0.exchange@.len() != g0.options.exchange_size,
        Game::swap_with_exchange_post(g0, g1, id),
        Game::swap_with_exchange_post(g1, g2, id),
    ensures
        g2.hands@.len() == g0.hands@.len(),
        forall|p: int| 0 <= p < g0.hands@.len() ==> (#[trigger] g2.hands@[p])@ == g0.hands@[p]@,
        g2.exchange@ == g0.exchange@,
        g2 == (Game { hands: g2.hands, exchange: g2.exchange, ..g0 }),
{
    let m = g0.maker->0 as int;
    let h = g0.hand(m);
    let e = g0.exchange@;
    let i = choose|i: int| {
        &&& #[trigger] is_first_id(h, id, i)
        &&& g1.hands@ =~= g0.hands@.update(m, g1.hands@[m])
        &&& g1.hand(m) =~= h.remove(i)
        &&& g1.exchange@ =~= e.push(h[i])
        &&& g1 == (Game { hands: g1.hands, exchange: g1.exchange, ..g0 })
    };
    let h1 = g1.hand(m);
    let e1 = g1.exchange@;
    assert(!has_id(h1, id)) by {
        if has_id(h1, id) {
            let k = choose|k: int| 0 <= k < h1.len() && (#[trigger] h1[k]).id == id;
            if k < i {
                assert(h1[k] == h[k]);
            } else {
                assert(h1[k] == h[k + 1]);
            }
        }
    }
    let k = e.len() as int;
    assert(is_first_id(e1, id, k)) by {
        assert forall|j: int| 0 <= j < k implies (#[trigger] e1[j]).id != id by {
            assert(e1[j] == e[j]);
        }
    }
    assert(has_id(e1, id));
    let k2 = choose|k2: int| {
        &&& #[trigger] is_first_id(e1, id, k2)
        &&& g2.hands@ =~= g1.hands@.update(m, g2.hands@[m])
        &&& g2.hand(m) =~= sorted_hand(h1.push(e1[k2]))
        &&& g2.exchange@ =~= e1.remove(k2)
        &&& g2 == (Game { hands: g2.hands, exchange: g2.exchange, ..g1 })
    };
    assert(k2 == k) by {
        if k2 < k {
            assert(e1[k2] == e[k2]);
        }
    }
    assert(is_sorted_hand(h1)) by {
        assert forall|a: int, b: int| 0 <= a <= b < h1.len() implies order_key(#[trigger] h1[a]) <= order_key(#[trigger] h1[b]) by {
            let a0 = if a < i { a } else { a + 1 };
            let b0 = if b < i { b } else { b + 1 };
            assert(h1[a] == h[a0]);
            assert(h1[b] == h[b0]);
            if a0 < b0 {
                assert(order_key(h[a0]) < order_key(h[b0]));
            }
        }
    }
    lemma_sorted_fixed(h1);
    lemma_insert_back(h, i);
    assert(e1[k] == h[i]);
    assert(sorted_hand(h1.push(h[i])) == insert_sorted(sorted_hand(h1), h[i])) by {
        assert(h1.push(h[i]).drop_last() == h1);
    }
    assert(g2.hand(m) == h);
    assert(g2.exchange@ =~= e);
    assert forall|p: int| 0 <= p < g0.hands@.len() implies (#[trigger] g2.hands@[p])@ == g0.hands@[p]@ by {
        if p != m {
            assert(g2.hands@[p] == g1.hands@[p]);
            assert(g1.hands@[p] == g0.hands@[p]);
        }
    }
}

/// No step changes the options or which players are bots, and the game scores change
/// only when a hand is scored, by each team's final score for the hand.
pub proof fn law_step_keeps_options_and_scores(g0: Game, g1: Game, action: GameAction, s: Step)
    requires
        g0.wf(),
        step_allowed(g0, action),
        step_post(g0, g1, action, s),
    ensures
        g1.options == g0.options,
        g1.bot_players == g0.bot_players,
        !(action is PresentScore) ==> pair(g1.scoring.game) == pair(g0.scoring.game),
        action is PresentScore ==> g1.scoring.game[0] == g0.scoring.game[0] + g0.final_score(0)
            && g1.scoring.game[1] == g0.scoring.game[1] + g0.final_score(1),
{
    match action {
        GameAction::Discard(ids) => {
            let states = choose|states: Seq<Game>|
                #[trigger] discards_through(states, ids@) && states[0] == g0 && states.last() == g1;
            lemma_discards_keep(states, ids@, states.len() - 1);
        },
        GameAction::PresentScore => {
            assert(g1.scoring.nest[0] == g0.final_nest(0));
            assert(g1.scoring.nest[1] == g0.final_nest(1));
        },
        _ => {},
    }
}

/// The card dealt `i`-th from a deck: the deck's cards are dealt from its end.
pub open spec fn dealt(deck: Seq<Card>, i: int) -> Card {
    deck[deck.len() - 1 - i]
}

/// The card as it lands after dealing: face up when it is among the first `up` dealt.
pub open spec fn landed(c: Card, i: int, up: int) -> Card {
    if i < up {
        Card { face_up: true, ..c }
    } else {
        c
    }
}

/// Whether each game of `states` is the one before it with one more card dealt to the
/// exchange.
pub open spec fn exchange_deals(states: Seq<Game>) -> bool {
    forall|j: int| 0 <= j < states.len() - 1 ==> #[trigger] Game::deal_card_to_exchange_post(states[j], states[j + 1])
}

/// Whether each game of `states` is the one before it with one more card dealt to the
/// nest.
pub open spec fn nest_deals(states: Seq<Game>) -> bool {
    forall|j: int| 0 <= j < states.len() - 1 ==> #[trigger] Game::deal_card_to_nest_post(states[j], states[j + 1])
}

proof fn lemma_exchange_deals(states: Seq<Game>, k: int)
    requires
        exchange_deals(states),
        0 <= k < states.len(),
        states.len() - 1 <= states[0].deck@.len(),
        states[0].exchange@.len() == 0,
        states[0].exchange_face_up_count == 0,
    ensures
        states[k].deck@ == states[0].deck@.take(states[0].deck@.len() - k),
        states[k].exchange@.len() == k,
        forall|i: int| 0 <= i < k ==> #[trigger] states[k].exchange@[i] == landed(
            dealt(states[0].deck@, i),
            i,
            states[0].options.exchange_face_up as int,
        ),
        states[k].exchange_face_up_count == (if k < states[0].options.exchange_face_up { k } else {
            states[0].options.exchange_face_up as int
        }),
        states[k] == (Game {
            deck: states[k].deck,
            exchange: states[k].exchange,
            exchange_face_up_count: states[k].exchange_face_up_count,
            ..states[0]
        }),
    decreases k,
{
    if k > 0 {
        lemma_exchange_deals(states, k - 1);
        let g = states[k - 1];
        assert(Game::deal_card_to_exchange_post(g, states[(k - 1) + 1]));
        let d0 = states[0].deck@;
        assert(g.deck@.last() == dealt(d0, k - 1));
        assert(states[k].deck@ =~= d0.take(d0.len() - k));
        assert forall|i: int| 0 <= i < k implies #[trigger] states[k].exchange@[i] == landed(
            dealt(d0, i),
            i,
            states[0].options.exchange_face_up as int,
        ) by {
            if i < k - 1 {
                assert(states[k].exchange@[i] == g.exchange@[i]);
            }
        }
    }
}

/// Dealing `n` cards to an empty exchange, at the start of a hand, deals the last `n`
/// cards of the deck from its end, the first ones face up as the options say.
pub proof fn law_exchange_dealt_face_up(states: Seq<Game>)
    requires
        states.len() >= 1,
        exchange_deals(states),
        states.len() - 1 <= states[0].deck@.len(),
        states[0].exchange@.len() == 0,
        states[0].exchange_face_up_count == 0,
    ensures
        states.last().exchange@.len() == states.len() - 1,
        forall|i: int| 0 <= i < states.len() - 1 ==> #[trigger] states.last().exchange@[i] == landed(
            dealt(states[0].deck@, i),
            i,
            states[0].options.exchange_face_up as int,
        ),
        states.last().deck@ == states[0].deck@.take(states[0].deck@.len() - (states.len() - 1)),
        states.last() == (Game {
            deck: states.last().deck,
            exchange: states.last().exchange,
            exchange_face_up_count: states.last().exchange_face_up_count,
            ..states[0]
        }),
{
    lemma_exchange_deals(states, states.len() - 1);
}

proof fn lemma_nest_deals(states: Seq<Game>, k: int)
    requires
        nest_deals(states),
        0 <= k < states.len(),
        states.len() - 1 <= states[0].deck@.len(),
        states[0].nest@.len() == 0,
        states[0].nest_face_up_count == 0,
    ensures
        states[k].deck@ == states[0].deck@.take(states[0].deck@.len() - k),
        states[k].nest@.len() == k,
        forall|i: int| 0 <= i < k ==> #[trigger] states[k].nest@[i] == landed(
            dealt(states[0].deck@, i),
            i,
            states[0].options.nest_face_up as int,
        ),
        states[k].nest_face_up_count == (if k < states[0].options.nest_face_up { k } else {
            states[0].options.nest_face_up as int
        }),
        states[k] == (Game {
            deck: states[k].deck,
            nest: states[k].nest,
            nest_face_up_count: states[k].nest_face_up_count,
            ..states[0]
        }),
    decreases k,
{
    if k > 0 {
        lemma_nest_deals(states, k - 1);
        let g = states[k - 1];
        assert(Game::deal_card_to_nest_post(g, states[(k - 1) + 1]));
        let d0 = states[0].deck@;
        assert(g.deck@.last() == dealt(d0, k - 1));
        assert(states[k].deck@ =~= d0.take(d0.len() - k));
        assert forall|i: int| 0 <= i < k implies #[trigger] states[k].nest@[i] == landed(
            dealt(d0, i),
            i,
            states[0].options.nest_face_up as int,
        ) by {
            if i < k - 1 {
                assert(states[k].nest@[i] == g.nest@[i]);
            }
        }
    }
}

/// Dealing `n` cards to an empty nest, at the start of a hand, deals the last `n` cards
/// of the deck from its end, the first ones face up as the options say; the exchange
/// is not counted.
pub proof fn law_nest_dealt_face_up(states: Seq<Game>)
    requires
        states.len() >= 1,
        nest_deals(states),
        states.len() - 1 <= states[0].deck@.len(),
        states[0].nest@.len() == 0,
        states[0].nest_face_up_count == 0,
    ensures
        states.last().nest@.len() == states.len() - 1,
        forall|i: int| 0 <= i < states.len() - 1 ==> #[trigger] states.last().nest@[i] == landed(
            dealt(states[0].deck@, i),
            i,
            states[0].options.nest_face_up as int,
        ),
        states.last().deck@ == states[0].deck@.take(states[0].deck@.len() - (states.len() - 1)),
        states.last() == (Game {
            deck: states.last().deck,
            nest: states.last().nest,
            nest_face_up_count: states.last().nest_face_up_count,
            ..states[0]
        }),
{
    lemma_nest_deals(states, states.len() - 1);
}

/// When the makers make their bid and they score the points they bid, their final
/// score for the hand is their bid plus their bonus, whatever points they took.
pub proof fn law_points_bid_scores_the_bid(g0: Game, g1: Game)
    requires
        g0.maker.is_some(),
        g0.options.bidders_win == BiddersWin::PointsBid,
        Game::complete_hand_post(g0, g1),
        g1.scoring.hand_subtotal[team_of(g0.maker->0 as int)] >= g0.high_bid,
    ensures
        g1.scoring.hand_final[team_of(g0.maker->0 as int)] == g0.scoring.bid[team_of(g0.maker->0 as int)]
            + g1.scoring.bonus[team_of(g0.maker->0 as int)],
        g1.scoring.bid == g0.scoring.bid,
{
    let m = team_of(g0.maker->0 as int);
    assert(0 <= m < 2);
    assert(g1.scoring.nest[m] == g0.final_nest(m));
    assert(g0.bid_made());
}

/// When the makers score the points they take, makers whose subtotal is the maximum bid
/// receive the slam bonus, whatever they bid (a bid never above the maximum), and
/// score the maximum bid plus that bonus.
pub proof fn law_points_taken_slam(g0: Game, g1: Game)
    requires
        g0.maker.is_some(),
        g0.options.bidders_win == BiddersWin::PointsTaken,
        g0.high_bid <= g0.options.max_bid,
        Game::complete_hand_post(g0, g1),
        g1.scoring.hand_subtotal[team_of(g0.maker->0 as int)] == g0.options.max_bid,
    ensures
        g1.scoring.bonus[team_of(g0.maker->0 as int)] == g0.options.slam_bonus,
        g1.scoring.hand_final[team_of(g0.maker->0 as int)] == g0.options.max_bid + g0.options.slam_bonus,
{
    let m = team_of(g0.maker->0 as int);
    assert(0 <= m < 2);
    assert(g1.scoring.nest[m] == g0.final_nest(m));
    assert(g0.bid_made());
}

/// Whether some card of `s` is of `suit`.
pub open spec fn holds_suit(s: Seq<Card>, suit: Suit) -> bool {
    exists|i: int| 0 <= i < s.len() && (#[trigger] s[i]).suit == suit
}

/// Whether some card of `s` of `suit` has this id.
pub open spec fn id_of_suit(s: Seq<Card>, suit: Suit, id: Id) -> bool {
    exists|i: int| 0 <= i < s.len() && (#[trigger] s[i]).suit == suit && s[i].id == id
}

/// After the playable cards are marked, when a suit was led and the active hand holds a
/// card of that suit, exactly the cards of the led suit are eligible and every playable
/// id is that of such a card, whatever the trump suit; when the hand holds no card of
/// the led suit, every card is eligible.
pub proof fn law_follow_lead_suit(g0: Game, g1: Game, ids: Seq<Id>, lead: Suit)
    requires
        g0.active < g0.hands@.len(),
        g0.trick.lead_suit == Some(lead),
        Game::get_playable_card_ids_post(g0, g1, ids),
    ensures
        holds_suit(g0.hand(g0.active as int), lead) ==> forall|i: int| 0 <= i < g0.hand(g0.active as int).len()
            ==> (#[trigger] g1.hand(g0.active as int)[i]).eligible == (g0.hand(g0.active as int)[i].suit == lead),
        holds_suit(g0.hand(g0.active as int), lead) ==> forall|k: int| 0 <= k < ids.len()
            ==> id_of_suit(g0.hand(g0.active as int), lead, #[trigger] ids[k]),
        !holds_suit(g0.hand(g0.active as int), lead) ==> forall|i: int| 0 <= i < g0.hand(g0.active as int).len()
            ==> (#[trigger] g1.hand(g0.active as int)[i]).eligible,
{
    let a = g0.active as int;
    let h = g0.hand(a);
    let pred = |c: Card| g0.playable(c);
    if holds_suit(h, lead) {
        assert(g0.must_follow());
        assert forall|k: int| 0 <= k < ids.len() implies id_of_suit(h, lead, #[trigger] ids[k]) by {
            let f = h.filter(pred);
            assert(ids[k] == f[k].id);
            h.lemma_filter_pred(pred, k);
            assert(f.contains(f[k]));
            h.lemma_filter_contains_rev(pred, f[k]);
            let i = choose|i: int| 0 <= i < h.len() && h[i] == f[k];
            assert(h[i].suit == lead);
        }
    } else {
        assert(!g0.must_follow());
    }
}

/// Turning the exchange cards shows a point card only when the options show discarded
/// point cards; under `Allowed(false)` and `OnlyWhenForced(false)` every card of the
/// exchange ends face down. The cards are otherwise unchanged.
pub proof fn law_discards_face(g0: Game, g1: Game)
    requires
        Game::turn_exchange_cards_post(g0, g1),
    ensures
        g1.exchange@.len() == g0.exchange@.len(),
        forall|i: int| 0 <= i < g0.exchange@.len() ==> (#[trigger] g1.exchange@[i]) == (Card { face_up: g1.exchange@[i].face_up, ..g0.exchange@[i] }),
        (g0.options.discard_point_cards == DiscardedPointCards::Allowed(false)
            || g0.options.discard_point_cards == DiscardedPointCards::OnlyWhenForced(false))
            ==> forall|i: int| 0 <= i < g1.exchange@.len() ==> !(#[trigger] g1.exchange@[i]).face_up,
        (g0.options.discard_point_cards == DiscardedPointCards::Allowed(true)
            || g0.options.discard_point_cards == DiscardedPointCards::OnlyWhenForced(true))
            ==> forall|i: int| 0 <= i < g1.exchange@.len() ==> (#[trigger] g1.exchange@[i]).face_up == (g0.exchange@[i].points > 0),
{
}

/// Scoring a hand: each team's subtotal is its points taken, nest (with the last
/// trick's points added to the team that took it), last trick and majority bonus; the
/// makers made their bid when their subtotal reaches the high bid. Made, they score
/// their bid (points bid) or their subtotal (points taken) plus their bonus, which is
/// the slam bonus exactly when the slam rule holds; the defenders score their
/// subtotal, half of it (a multiple of five first raised by five) or nothing. Failed,
/// the makers score nothing or minus their bid, and the defenders their subtotal plus
/// the defenders' bonus. Each game score grows by the hand's final score.
pub proof fn law_hand_scoring(g0: Game, g1: Game)
    requires
        g0.maker.is_some(),
        Game::complete_hand_post(g0, g1),
    ensures
        forall|t: int| 0 <= t < 2 ==> #[trigger] g1.scoring.hand_subtotal[t] == g1.scoring.points_taken[t]
            + g1.scoring.nest[t] + g1.scoring.last_trick[t] + g1.scoring.majority_bonus[t],
        forall|t: int| 0 <= t < 2 ==> #[trigger] g1.scoring.nest[t] == g0.scoring.nest[t]
            + (if t == team_of(g0.last_trick_winner as int) { g0.options.last_trick_pts as int } else { 0 }),
        forall|t: int| 0 <= t < 2 ==> #[trigger] g1.scoring.game[t] == g0.scoring.game[t] + g1.scoring.hand_final[t],
        g1.scoring.points_taken == g0.scoring.points_taken,
        g1.scoring.bid == g0.scoring.bid,
        ({
            let m = team_of(g0.maker->0 as int);
            let d = team_of(g0.maker->0 + 1);
            let sub = g1.scoring.hand_subtotal;
            let made = sub[m] >= g0.high_bid;
            let o = g0.options;
            &&& made && o.bidders_win == BiddersWin::PointsBid ==> g1.scoring.hand_final[m] == g0.scoring.bid[m] + g1.scoring.bonus[m]
            &&& made && o.bidders_win == BiddersWin::PointsTaken ==> g1.scoring.hand_final[m] == sub[m] + g1.scoring.bonus[m]
            &&& made && o.bidders_win == BiddersWin::PointsBid ==> g1.scoring.bonus[m] == (if g0.high_bid == o.max_bid
                && sub[m] == o.max_bid { o.slam_bonus } else { g0.scoring.bonus[m] })
            &&& made && o.bidders_win == BiddersWin::PointsTaken ==> g1.scoring.bonus[m] == (if sub[m] == o.max_bid {
                o.slam_bonus } else { g0.scoring.bonus[m] })
            &&& made && o.defenders_lose == DefendersLose::PointsTaken ==> g1.scoring.hand_final[d] == sub[d]
            &&& made && o.defenders_lose == DefendersLose::Zero ==> g1.scoring.hand_final[d] == 0
            &&& made && o.defenders_lose == DefendersLose::HalfPoints ==> g1.scoring.hand_final[d] == trunc_div(
                if trunc_rem(sub[d] as int, 5) == 0 { sub[d] + 5 } else { sub[d] as int }, 2)
            &&& !made && o.bidders_lose == BiddersLose::Zero ==> g1.scoring.hand_final[m] == 0
            &&& !made && o.bidders_lose == BiddersLose::MinusBid ==> g1.scoring.hand_final[m] == -g0.scoring.bid[m]
            &&& !made ==> g1.scoring.bonus[d] == (match o.defenders_win { DefendersWin::PointsTaken(b) => b })
            &&& !made ==> g1.scoring.hand_final[d] == sub[d] + g1.scoring.bonus[d]
        }),
{
    let m = team_of(g0.maker->0 as int);
    let d = team_of(g0.maker->0 + 1);
    assert(0 <= m < 2 && 0 <= d < 2 && m != d);
    assert(g1.scoring.nest[m] == g0.final_nest(m));
    assert(g1.scoring.nest[d] == g0.final_nest(d));
    assert forall|t: int| 0 <= t < 2 implies #[trigger] g1.scoring.hand_subtotal[t] == g1.scoring.points_taken[t]
        + g1.scoring.nest[t] + g1.scoring.last_trick[t] + g1.scoring.majority_bonus[t] by {
        assert(g1.scoring.nest[t] == g0.final_nest(t));
    }
    assert forall|t: int| 0 <= t < 2 implies #[trigger] g1.scoring.game[t] == g0.scoring.game[t] + g1.scoring.hand_final[t] by {
        assert(g1.scoring.nest[t] == g0.final_nest(t));
    }
    assert forall|t: int| 0 <= t < 2 implies #[trigger] g1.scoring.nest[t] == g0.scoring.nest[t]
        + (if t == team_of(g0.last_trick_winner as int) { g0.options.last_trick_pts as int } else { 0 }) by {
        assert(g1.scoring.nest[t] == g0.final_nest(t));
    }
}

/// Before any suit is led, every card of the active hand is playable: marking the
/// playable cards marks them all, and their ids, in hand order, are the playable ids.
pub proof fn law_free_lead(g0: Game, g1: Game, ids: Seq<Id>)
    requires
        g0.active < g0.hands@.len(),
        g0.trick.lead_suit.is_none(),
        Game::get_playable_card_ids_post(g0, g1, ids),
    ensures
        forall|i: int| 0 <= i < g0.hand(g0.active as int).len() ==> (#[trigger] g1.hand(g0.active as int)[i]).eligible,
        ids.len() == g0.hand(g0.active as int).len(),
        forall|i: int| 0 <= i < ids.len() ==> #[trigger] ids[i] == g0.hand(g0.active as int)[i].id,
{
    let h = g0.hand(g0.active as int);
    let pred = |c: Card| g0.playable(c);
    assert(!g0.must_follow());
    crate::bot_monte::lemma_filter_all(h, pred);
}

} // verus!
