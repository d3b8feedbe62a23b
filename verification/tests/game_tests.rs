use whiskey::card::{Card, Suit};
use whiskey::game::{Bid, Game};
use whiskey::game_options::{
    BiddersLose, BiddersWin, DefendersLose, DefendersWin, DiscardedPointCards, FirstPlayer, GameOptions, JokerKind,
    MajorityTricksTie, NestAwarded,
};

fn card(id: u8, suit: Suit, rank: u8, points: isize) -> Card {
    Card::new(id, suit, rank, points)
}

fn ids(cards: &[Card]) -> Vec<u8> {
    cards.iter().map(|c| c.id).collect()
}

fn game4(dealer: usize) -> Game {
    Game::with_dealer(GameOptions::whiskey_4(), dealer)
}

#[test]
fn with_dealer_starts_a_fresh_game() {
    let g = game4(2);
    assert_eq!(g.dealer, 2);
    assert_eq!(g.active, 2);
    assert_eq!(g.bot_players, vec![false, true, true, true]);
    assert_eq!(g.hands.len(), 4);
    assert!(g.hands.iter().all(|h| h.is_empty()));
    assert!(g.taken.iter().all(|h| h.is_empty()));
    assert!(g.bids.iter().all(|b| b.is_none()));
    assert!(g.deck.is_empty() && g.exchange.is_empty() && g.nest.is_empty());
    assert_eq!(g.maker, None);
    assert_eq!(g.high_bid, 0);
    assert_eq!(g.trump_suit, None);
    assert_eq!(g.trick.cards.len(), 4);
    assert_eq!(g.scoring.game, [0, 0]);
}

#[test]
fn new_picks_a_dealer_at_the_table() {
    let mut seen = [false; 4];
    for _ in 0..200 {
        let g = Game::new(GameOptions::whiskey_4());
        assert!(g.dealer < 4);
        assert_eq!(g.active, g.dealer);
        seen[g.dealer] = true;
    }
    assert!(seen.iter().filter(|s| **s).count() > 1);
}

#[test]
fn create_deck_numbers_the_cards() {
    let mut g = game4(0);
    g.create_deck();
    assert_eq!(g.deck.len(), 38);
    for (i, c) in g.deck.iter().enumerate() {
        assert_eq!(c.id as usize, i);
        assert!(!c.face_up);
        assert!(!c.eligible);
    }
    assert_eq!((g.deck[0].suit, g.deck[0].rank, g.deck[0].points), (Suit::Club, 5, 5));
    assert!(g.deck[36].is_joker && g.deck[37].is_joker);
    assert_eq!(g.deck.iter().map(|c| c.points).sum::<isize>(), 130);
}

#[test]
fn reset_for_new_hand_gathers_cards_and_passes_the_deal() {
    let mut g = game4(0);
    g.create_deck();
    for _ in 0..3 {
        let c = g.deck.pop().unwrap();
        g.taken[1].push(c);
    }
    let c = g.deck.pop().unwrap();
    g.nest.push(c);
    g.deck[0].face_up = true;
    g.scoring.game = [50, 10];
    g.scoring.points_taken = [20, 30];
    g.bids[2] = Some(Bid::Pass);
    g.maker = Some(2);
    g.high_bid = 70;
    g.reset_for_new_hand();
    assert_eq!(g.deck.len(), 38);
    let mut sorted = ids(&g.deck);
    sorted.sort();
    assert_eq!(sorted, (0..38).collect::<Vec<u8>>());
    assert!(g.deck.iter().all(|c| !c.face_up));
    assert_ne!(ids(&g.deck), (0..38).collect::<Vec<u8>>());
    assert!(g.taken.iter().all(|h| h.is_empty()));
    assert!(g.nest.is_empty());
    assert!(g.bids.iter().all(|b| b.is_none()));
    assert_eq!(g.dealer, 1);
    assert_eq!(g.active, 1);
    assert_eq!(g.maker, None);
    assert_eq!(g.high_bid, 0);
    assert_eq!(g.hand_cards_to_deal, 36);
    assert_eq!(g.exchange_cards_to_deal, 2);
    assert_eq!(g.nest_cards_to_deal, 0);
    assert_eq!(g.scoring.game, [50, 10]);
    assert_eq!(g.scoring.points_taken, [0, 0]);
}

#[test]
fn dealing_fills_hands_in_turn() {
    let mut g = game4(3);
    g.create_deck();
    g.reset_for_new_hand();
    assert_eq!(g.active, 0);
    while g.hand_cards_to_deal > 0 {
        g.hand_cards_to_deal -= 1;
        g.deal_card_to_hand();
    }
    assert_eq!(g.active, 0);
    for p in 0..4 {
        assert_eq!(g.hands[p].len(), 9);
    }
    assert!(g.hands[0].iter().all(|c| c.face_up));
    assert!(g.hands[1].iter().all(|c| !c.face_up));
    let orders: Vec<u8> = g.hands[0].iter().map(|c| c.sort_order()).collect();
    let mut sorted = orders.clone();
    sorted.sort();
    assert_eq!(orders, sorted);
    assert_eq!(g.deck.len(), 2);
    g.deal_card_to_exchange();
    g.deal_card_to_exchange();
    assert_eq!(g.exchange.len(), 2);
    assert!(g.deck.is_empty());
    g.set_active_player_after_deal();
    assert_eq!(g.active, 1);
}

#[test]
fn deal_card_to_hand_takes_the_top_card() {
    let mut g = game4(0);
    g.deck = vec![card(1, Suit::Club, 9, 0), card(2, Suit::Heart, 7, 0)];
    g.active = 1;
    g.deal_card_to_hand();
    assert_eq!(ids(&g.hands[1]), vec![2]);
    assert!(!g.hands[1][0].face_up);
    assert_eq!(g.active, 2);
    g.active = 0;
    g.hands[0] = vec![card(3, Suit::Spade, 5, 5)];
    g.deal_card_to_hand();
    assert_eq!(ids(&g.hands[0]), vec![1, 3]);
    assert!(g.hands[0][0].face_up);
    assert_eq!(g.active, 1);
}

#[test]
fn exchange_and_nest_cards_turn_up_as_options_say() {
    let mut g = game4(0);
    g.options.exchange_face_up = 1;
    g.options.nest_face_up = 1;
    g.deck = (0..4).map(|i| card(i, Suit::Club, 7 + i, 0)).collect();
    g.deal_card_to_exchange();
    g.deal_card_to_exchange();
    assert_eq!(ids(&g.exchange), vec![3, 2]);
    assert!(g.exchange[0].face_up && !g.exchange[1].face_up);
    assert_eq!(g.exchange_face_up_count, 1);
    g.deal_card_to_nest();
    g.deal_card_to_nest();
    assert_eq!(ids(&g.nest), vec![1, 0]);
    assert!(g.nest[0].face_up && !g.nest[1].face_up);
    assert_eq!(g.nest_face_up_count, 1);
}

#[test]
fn teams_alternate_around_the_table() {
    let g = game4(0);
    assert_eq!(
        (0..4).map(|p| g.team_index(p)).collect::<Vec<usize>>(),
        vec![0, 1, 0, 1]
    );
    assert_eq!(
        (0..4).map(|p| g.opponent_index(p)).collect::<Vec<usize>>(),
        vec![1, 0, 1, 0]
    );
}

#[test]
fn make_bid_records_points_and_reopens_bidding() {
    let mut g = game4(0);
    assert_eq!(g.min_current_bid(), 65);
    g.bids[0] = Some(Bid::Pass);
    g.bids[3] = Some(Bid::Points(65));
    g.active = 1;
    g.make_bid(Bid::Points(70));
    assert_eq!(g.bids, vec![None, Some(Bid::Points(70)), None, None]);
    assert_eq!(g.maker, Some(1));
    assert_eq!(g.high_bid, 70);
    assert_eq!(g.scoring.bid, [0, 70]);
    assert_eq!(g.min_current_bid(), 75);
    g.active = 2;
    g.make_bid(Bid::Pass);
    assert_eq!(g.bids[2], Some(Bid::Pass));
    assert_eq!(g.maker, Some(1));
    assert_eq!(g.high_bid, 70);
}

#[test]
fn make_bid_keeps_passes_when_rebidding_is_not_allowed() {
    let mut g = game4(0);
    g.options.bid_after_passing = false;
    g.bids[0] = Some(Bid::Pass);
    g.active = 2;
    g.make_bid(Bid::Points(80));
    assert_eq!(g.bids, vec![Some(Bid::Pass), None, Some(Bid::Points(80)), None]);
    assert_eq!(g.scoring.bid, [80, 0]);
}

#[test]
fn bidding_completes_with_one_point_bid_from_all() {
    let mut g = game4(0);
    g.bids = vec![Some(Bid::Pass), Some(Bid::Points(70)), Some(Bid::Pass), Some(Bid::Pass)];
    assert!(g.bidding_completed());
    g.bids[0] = None;
    assert!(!g.bidding_completed());
    g.bids[0] = Some(Bid::Points(75));
    assert!(!g.bidding_completed());
    g.bids = vec![Some(Bid::Pass); 4];
    assert!(!g.bidding_completed());
}

#[test]
fn next_bidding_player_skips_players_who_passed() {
    let mut g = game4(0);
    g.options.bid_after_passing = false;
    g.bids = vec![Some(Bid::Pass), None, Some(Bid::Pass), Some(Bid::Points(70))];
    g.active = 0;
    g.next_bidding_player();
    assert_eq!(g.active, 1);
    g.next_bidding_player();
    assert_eq!(g.active, 3);
    g.next_bidding_player();
    assert_eq!(g.active, 1);
    g.options.bid_after_passing = true;
    g.next_bidding_player();
    assert_eq!(g.active, 2);
}

#[test]
fn end_bidding_gives_the_turn_to_the_maker() {
    let mut g = game4(0);
    g.maker = Some(2);
    g.end_bidding();
    assert_eq!(g.active, 2);
}

#[test]
fn exchange_cards_go_to_the_maker() {
    let mut g = game4(0);
    g.maker = Some(0);
    g.hands[0] = vec![card(1, Suit::Club, 7, 0), card(2, Suit::Spade, 14, 10)];
    g.exchange = vec![card(3, Suit::Heart, 10, 10), card(4, Suit::Club, 5, 5)];
    g.move_exchange_cards_to_maker();
    assert!(g.exchange.is_empty());
    assert_eq!(ids(&g.hands[0]), vec![4, 1, 3, 2]);
    assert!(g.hands[0][0].face_up && g.hands[0][2].face_up);

    let mut b = game4(0);
    b.maker = Some(1);
    b.exchange = vec![card(3, Suit::Heart, 10, 10)];
    b.move_exchange_cards_to_maker();
    assert_eq!(ids(&b.hands[1]), vec![3]);
    assert!(!b.hands[1][0].face_up);
}

#[test]
fn discards_are_marked_as_options_say() {
    let hand = vec![
        card(1, Suit::Club, 7, 0),
        card(2, Suit::Club, 5, 5),
        card(3, Suit::Heart, 5, 5),
        card(4, Suit::Heart, 10, 10),
        card(5, Suit::Spade, 14, 10),
    ];
    let mut g = game4(0);
    g.maker = Some(0);
    g.options.discard_point_cards = DiscardedPointCards::OnlyWhenForced(false);
    g.hands[0] = hand.clone();
    g.mark_eligible_discards();
    let flags: Vec<bool> = g.hands[0].iter().map(|c| c.eligible).collect();
    assert_eq!(flags, vec![true, true, true, false, false]);

    g.options.exchange_size = 4;
    g.hands[0] = hand.clone();
    g.mark_eligible_discards();
    assert!(g.hands[0].iter().all(|c| c.eligible));

    g.options.exchange_size = 1;
    g.hands[0] = hand.clone();
    g.mark_eligible_discards();
    let flags: Vec<bool> = g.hands[0].iter().map(|c| c.eligible).collect();
    assert_eq!(flags, vec![true, false, false, false, false]);

    g.options.discard_point_cards = DiscardedPointCards::Allowed(false);
    g.hands[0] = hand;
    g.mark_eligible_discards();
    assert!(g.hands[0].iter().all(|c| c.eligible));
}

#[test]
fn swap_with_exchange_moves_cards_both_ways() {
    let mut g = game4(0);
    g.maker = Some(0);
    g.hands[0] = vec![card(1, Suit::Club, 7, 0), card(2, Suit::Club, 9, 0), card(3, Suit::Heart, 8, 0)];
    g.swap_with_exchange(2);
    assert_eq!(ids(&g.hands[0]), vec![1, 3]);
    assert_eq!(ids(&g.exchange), vec![2]);
    assert!(!g.exchange_is_full());
    g.swap_with_exchange(1);
    assert_eq!(ids(&g.hands[0]), vec![3]);
    assert_eq!(ids(&g.exchange), vec![2, 1]);
    assert!(g.exchange_is_full());
    g.swap_with_exchange(3);
    assert_eq!(ids(&g.hands[0]), vec![3]);
    assert_eq!(ids(&g.exchange), vec![2, 1]);
    g.swap_with_exchange(2);
    assert_eq!(ids(&g.hands[0]), vec![2, 3]);
    assert_eq!(ids(&g.exchange), vec![1]);
    g.swap_with_exchange(99);
    assert_eq!(ids(&g.hands[0]), vec![2, 3]);
    assert_eq!(ids(&g.exchange), vec![1]);
}

#[test]
fn discarded_cards_join_the_nest_face_down_first() {
    let mut g = game4(0);
    g.options.discard_point_cards = DiscardedPointCards::Allowed(true);
    g.exchange = vec![card(1, Suit::Club, 7, 0), card(2, Suit::Club, 10, 10)];
    g.turn_exchange_cards();
    assert!(!g.exchange[0].face_up && g.exchange[1].face_up);
    let mut up = card(3, Suit::Heart, 8, 0);
    up.face_up = true;
    g.nest = vec![up];
    g.add_exchange_cards_to_nest();
    assert!(g.exchange.is_empty());
    assert_eq!(ids(&g.nest), vec![1, 3, 2]);

    g.options.discard_point_cards = DiscardedPointCards::OnlyWhenForced(false);
    g.exchange = vec![card(4, Suit::Club, 10, 10)];
    g.exchange[0].face_up = true;
    g.turn_exchange_cards();
    assert!(!g.exchange[0].face_up);
}

#[test]
fn trump_jokers_take_the_trump_suit() {
    let mut g = game4(0);
    g.options.joker_kind = JokerKind::Trump;
    g.hands[0] = vec![card(1, Suit::Spade, 9, 0), card(2, Suit::Joker, 0, 15)];
    g.hands[1] = vec![card(3, Suit::Joker, 0, 15)];
    g.set_trump_suit(Suit::Heart);
    assert_eq!(g.trump_suit, Some(Suit::Heart));
    assert_eq!(ids(&g.hands[0]), vec![2, 1]);
    assert_eq!(g.hands[0][0].suit, Suit::Heart);
    assert_eq!(g.hands[1][0].suit, Suit::Heart);

    let mut p = game4(0);
    p.hands[1] = vec![card(3, Suit::Joker, 0, 15)];
    p.set_trump_suit(Suit::Club);
    assert_eq!(p.trump_suit, Some(Suit::Club));
    assert_eq!(p.hands[1][0].suit, Suit::Joker);
}

#[test]
fn first_player_follows_the_options() {
    let mut g = game4(3);
    g.maker = Some(1);
    g.options.first_player = FirstPlayer::Bidder;
    g.set_first_player();
    assert_eq!(g.active, 1);
    g.options.first_player = FirstPlayer::LeftOfBidder;
    g.set_first_player();
    assert_eq!(g.active, 2);
    g.options.first_player = FirstPlayer::LeftOfDealer;
    g.set_first_player();
    assert_eq!(g.active, 0);
}

#[test]
fn playable_cards_follow_the_lead_suit() {
    let mut g = game4(0);
    g.hands[0] = vec![card(1, Suit::Club, 7, 0), card(2, Suit::Heart, 9, 0), card(3, Suit::Heart, 14, 10)];
    g.active = 0;
    assert_eq!(g.get_playable_card_ids(), vec![1, 2, 3]);
    g.trick.add(3, card(9, Suit::Heart, 8, 0), &None, JokerKind::Phoenix);
    assert_eq!(g.get_playable_card_ids(), vec![2, 3]);
    let flags: Vec<bool> = g.hands[0].iter().map(|c| c.eligible).collect();
    assert_eq!(flags, vec![false, true, true]);
    g.trick.reset();
    g.trick.add(3, card(9, Suit::Spade, 8, 0), &None, JokerKind::Phoenix);
    assert_eq!(g.get_playable_card_ids(), vec![1, 2, 3]);
}

#[test]
fn a_trick_is_played_and_awarded() {
    let mut g = game4(3);
    g.trump_suit = Some(Suit::Spade);
    g.hands[0] = vec![card(1, Suit::Heart, 10, 10)];
    g.hands[1] = vec![card(2, Suit::Heart, 14, 10)];
    g.hands[2] = vec![card(3, Suit::Spade, 7, 0)];
    g.hands[3] = vec![card(4, Suit::Heart, 5, 5)];
    g.active = 0;
    for id in 1..=4 {
        assert!(!g.trick_completed());
        g.play_card_id(id);
    }
    assert_eq!(g.active, 0);
    assert!(g.trick_completed());
    assert_eq!(g.trick.winner, Some(2));
    assert_eq!(g.trick.points, 25);
    assert!(g.trick.cards.iter().all(|c| c.map_or(false, |c| c.face_up)));
    g.award_trick();
    assert_eq!(g.last_trick_winner, 2);
    assert_eq!(g.scoring.points_taken, [25, 0]);
    assert_eq!(g.scoring.trick_count, [1, 0]);
    assert_eq!(g.scoring.hand_subtotal, [25, 0]);
    assert_eq!(ids(&g.taken[2]), vec![1, 2, 3, 4]);
    assert!(g.taken[2].iter().all(|c| !c.face_up));
    assert!(g.trick.cards.iter().all(|c| c.is_none()));
    assert!(g.hand_completed());
    g.reset_for_next_trick();
    assert_eq!(g.active, 2);
    assert_eq!(g.trick.winner, None);
    assert_eq!(g.trick.points, 0);
}

#[test]
fn nest_points_go_to_the_team_the_options_name() {
    let mut g = game4(0);
    g.nest = vec![card(1, Suit::Club, 10, 10), card(2, Suit::Club, 5, 5)];
    g.trick.winner = Some(3);
    g.scoring.points_taken = [40, 50];
    let points = g.award_nest_cards();
    assert_eq!(points, 15);
    assert_eq!(g.scoring.nest, [0, 15]);
    assert_eq!(g.scoring.hand_subtotal, [40, 65]);
    assert!(g.nest.iter().all(|c| c.face_up));

    let mut d = game4(0);
    d.options.nest_awarded = NestAwarded::ToDefenders;
    d.maker = Some(1);
    d.nest = vec![card(1, Suit::Club, 10, 10)];
    assert_eq!(d.award_nest_cards(), 10);
    assert_eq!(d.scoring.nest, [10, 0]);
}

fn scored_game(maker: usize, high_bid: isize, points_taken: [isize; 2], trick_count: [u8; 2]) -> Game {
    let mut g = game4(0);
    g.maker = Some(maker);
    g.high_bid = high_bid;
    g.scoring.update_bids(maker % 2, high_bid);
    g.scoring.points_taken = points_taken;
    g.scoring.trick_count = trick_count;
    g
}

#[test]
fn complete_hand_makers_take_their_points() {
    let mut g = scored_game(1, 70, [50, 80], [4, 5]);
    g.scoring.game = [100, 20];
    g.last_trick_winner = 1;
    g.complete_hand();
    assert_eq!(g.scoring.hand_subtotal, [50, 80]);
    assert_eq!(g.scoring.hand_final, [50, 80]);
    assert_eq!(g.scoring.game, [150, 100]);
}

#[test]
fn complete_hand_set_makers_lose_their_bid() {
    let mut g = scored_game(0, 80, [60, 70], [4, 5]);
    g.options.bidders_lose = BiddersLose::MinusBid;
    g.options.defenders_win = DefendersWin::PointsTaken(10);
    g.complete_hand();
    assert_eq!(g.scoring.hand_final, [-80, 80]);
    assert_eq!(g.scoring.bonus, [0, 10]);
    assert_eq!(g.scoring.game, [-80, 80]);

    let mut z = scored_game(0, 80, [60, 70], [4, 5]);
    z.complete_hand();
    assert_eq!(z.scoring.hand_final, [0, 70]);
}

#[test]
fn complete_hand_slam_with_bonuses_and_half_points() {
    let mut g = scored_game(0, 130, [100, 25], [5, 4]);
    g.options.bidders_win = BiddersWin::PointsBid;
    g.options.defenders_lose = DefendersLose::HalfPoints;
    g.options.last_trick_pts = 10;
    g.options.majority_of_tricks_pts = 20;
    g.last_trick_winner = 2;
    g.complete_hand();
    assert_eq!(g.scoring.nest, [10, 0]);
    assert_eq!(g.scoring.majority_bonus, [20, 0]);
    assert_eq!(g.scoring.hand_subtotal, [130, 25]);
    assert_eq!(g.scoring.bonus, [70, 0]);
    assert_eq!(g.scoring.hand_final, [200, 15]);
    assert_eq!(g.scoring.game, [200, 15]);
}

#[test]
fn complete_hand_tied_tricks_and_rounding() {
    let mut g = scored_game(1, 70, [23, 80], [4, 4]);
    g.options.defenders_lose = DefendersLose::HalfPoints;
    g.options.majority_of_tricks_pts = 20;
    g.options.majority_tricks_tie = MajorityTricksTie::SplitBetween;
    g.complete_hand();
    assert_eq!(g.scoring.majority_bonus, [10, 10]);
    assert_eq!(g.scoring.hand_subtotal, [33, 90]);
    assert_eq!(g.scoring.hand_final, [16, 90]);

    let mut t = scored_game(1, 70, [40, 90], [4, 4]);
    t.options.majority_of_tricks_pts = 20;
    t.options.majority_tricks_tie = MajorityTricksTie::ToDefenders;
    t.options.defenders_lose = DefendersLose::Zero;
    t.complete_hand();
    assert_eq!(t.scoring.majority_bonus, [20, 0]);
    assert_eq!(t.scoring.hand_final, [0, 90]);
}

#[test]
fn duplicate_copies_the_game() {
    let mut g = game4(1);
    g.create_deck();
    g.reset_for_new_hand();
    for _ in 0..10 {
        g.hand_cards_to_deal -= 1;
        g.deal_card_to_hand();
    }
    let d = g.duplicate();
    assert_eq!(ids(&d.deck), ids(&g.deck));
    for p in 0..4 {
        assert_eq!(ids(&d.hands[p]), ids(&g.hands[p]));
    }
    assert_eq!(d.active, g.active);
    assert_eq!(d.dealer, g.dealer);
    assert_eq!(d.options.cards_in_deck, g.options.cards_in_deck);
    assert_eq!(d.hand_cards_to_deal, g.hand_cards_to_deal);
}

#[test]
fn active_hand_and_bots() {
    let mut g = game4(0);
    g.hands[2] = vec![card(1, Suit::Club, 7, 0)];
    g.active = 2;
    assert_eq!(ids(g.active_hand()), vec![1]);
    assert!(g.bot_is_active());
    g.active_hand_mut().push(card(2, Suit::Club, 8, 0));
    assert_eq!(ids(&g.hands[2]), vec![1, 2]);
    g.active = 0;
    assert!(!g.bot_is_active());
    g.sort_hand(2);
    assert_eq!(ids(&g.hands[2]), vec![1, 2]);
}
