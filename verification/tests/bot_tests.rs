use whiskey::bot_monte::{first_best_index, sort_points, BotMonte};
use whiskey::card::{Card, Suit};
use whiskey::game::{Bid, Game, PlayerAction};
use whiskey::game_options::{BiddersWin, GameOptions};
use whiskey::readiness::{bid_ready, play_ready};

fn card(id: u8, suit: Suit, rank: u8, points: isize) -> Card {
    Card::new(id, suit, rank, points)
}

#[test]
fn best_suit_has_the_highest_total_rank() {
    let bot = BotMonte::new();
    let cards = vec![
        card(1, Suit::Club, 14, 10),
        card(2, Suit::Heart, 9, 0),
        card(3, Suit::Heart, 8, 0),
        card(4, Suit::Spade, 13, 0),
    ];
    assert_eq!(bot.best_suit(&cards), Suit::Heart);
    let tie = vec![card(1, Suit::Diamond, 10, 10), card(2, Suit::Spade, 10, 10)];
    assert_eq!(bot.best_suit(&tie), Suit::Diamond);
    assert_eq!(bot.best_suit(&[]), Suit::Club);
}

#[test]
fn lowest_non_trump_card_is_cheap_and_low() {
    let bot = BotMonte::new();
    let cards = vec![
        card(1, Suit::Heart, 7, 0),
        card(2, Suit::Club, 9, 0),
        card(3, Suit::Club, 5, 5),
        card(4, Suit::Spade, 8, 0),
    ];
    assert_eq!(bot.lowest_non_trump_card(&cards, &Some(Suit::Heart)), 4);
    assert_eq!(bot.lowest_non_trump_card(&cards, &None), 1);
    let no_cheap = vec![card(5, Suit::Club, 5, 5), card(6, Suit::Club, 10, 10)];
    assert_eq!(bot.lowest_non_trump_card(&no_cheap, &None), 5);
}

#[test]
fn simple_discards_drop_cheap_cards() {
    let bot = BotMonte::new();
    let mut g = Game::with_dealer(GameOptions::whiskey_4(), 0);
    g.active = 1;
    let mut hand = vec![
        card(1, Suit::Heart, 14, 10),
        card(2, Suit::Heart, 13, 0),
        card(3, Suit::Club, 8, 0),
        card(4, Suit::Spade, 7, 0),
        card(5, Suit::Club, 10, 10),
    ];
    for c in hand.iter_mut() {
        c.eligible = true;
    }
    g.hands[1] = hand;
    assert!(matches!(bot.choose_discards_simple(&g, 2), PlayerAction::Discard(ids) if ids == vec![4, 3]));
    assert!(matches!(bot.choose_trump(&g), PlayerAction::ChooseTrump(Suit::Heart)));
}

#[test]
fn sort_points_orders_ascending() {
    let mut v: Vec<isize> = vec![30, -5, 12, 0, 12, 7];
    sort_points(&mut v);
    assert_eq!(v, vec![-5, 0, 7, 12, 12, 30]);
}

#[test]
fn bid_for_scores_bids_when_the_score_reaches_the_minimum() {
    let scores: Vec<isize> = vec![40, 60, 80, 100];
    assert_eq!(BotMonte::bid_for_scores(&scores, 2, 65, BiddersWin::PointsTaken), Bid::Points(65));
    assert_eq!(BotMonte::bid_for_scores(&scores, 2, 65, BiddersWin::PointsBid), Bid::Points(80));
    assert_eq!(BotMonte::bid_for_scores(&scores, 1, 65, BiddersWin::PointsBid), Bid::Pass);
}

fn dealt_game() -> Game {
    let mut g = Game::with_dealer(GameOptions::whiskey_4(), 3);
    g.create_deck();
    g.reset_for_new_hand();
    while g.hand_cards_to_deal > 0 {
        g.hand_cards_to_deal -= 1;
        g.deal_card_to_hand();
    }
    while g.exchange_cards_to_deal > 0 {
        g.exchange_cards_to_deal -= 1;
        g.deal_card_to_exchange();
    }
    g.set_active_player_after_deal();
    g
}

#[test]
fn bid_scores_are_sorted_simulation_results() {
    let bot = BotMonte::new();
    let g = dealt_game();
    let scores = bot.bid_scores(&g, 2);
    assert_eq!(scores.len(), 2 * 9);
    assert!(scores.windows(2).all(|w| w[0] <= w[1]));
    assert!(scores.iter().all(|s| *s >= 0 && *s <= 130));
}

#[test]
fn bots_discard_and_play_legal_cards() {
    let bot = BotMonte::new();
    let mut g = dealt_game();
    g.make_bid(Bid::Points(65));
    g.maker = Some(g.active);
    g.end_bidding();
    g.move_exchange_cards_to_maker();
    g.mark_eligible_discards();
    let maker = g.maker.unwrap();
    let hand_ids: Vec<u8> = g.hands[maker].iter().map(|c| c.id).collect();
    let ids = match bot.choose_discards(&g, 2) {
        PlayerAction::Discard(ids) => ids,
        other => panic!("expected discards, got {:?}", other),
    };
    assert_eq!(ids.len(), 2);
    assert_ne!(ids[0], ids[1]);
    assert!(ids.iter().all(|id| hand_ids.contains(id)));
    for id in &ids {
        g.swap_with_exchange(*id);
    }
    g.turn_exchange_cards();
    g.add_exchange_cards_to_nest();
    g.set_trump_suit(Suit::Spade);
    g.set_first_player();
    let before: Vec<u8> = g.active_hand().iter().map(|c| c.id).collect();
    let legal = g.duplicate().get_playable_card_ids();
    match bot.get_play(&mut g, 3) {
        PlayerAction::PlayCard(id) => assert!(legal.contains(&id)),
        other => panic!("expected a play, got {:?}", other),
    }
    let after: Vec<u8> = g.active_hand().iter().map(|c| c.id).collect();
    assert_eq!(before, after);
}

#[test]
fn first_best_index_takes_the_first_greatest() {
    assert_eq!(first_best_index(&vec![3, 7, 2, 7, 5]), 1);
    assert_eq!(first_best_index(&vec![-4]), 0);
    assert_eq!(first_best_index(&vec![-9, -2, -2]), 1);
    assert_eq!(first_best_index(&vec![isize::MIN, isize::MIN]), 0);
    assert_eq!(first_best_index(&vec![1, 2, 3, 4]), 3);
}

#[test]
fn bots_simulate_games_with_large_card_points() {
    let bot = BotMonte::new();
    let mut options = GameOptions::whiskey_4();
    for c in options.cards_in_deck.iter_mut() {
        c.2 *= 1_000_000;
    }
    options.max_bid = 130_000_000;
    let mut g = Game::with_dealer(options, 3);
    g.create_deck();
    g.reset_for_new_hand();
    while g.hand_cards_to_deal > 0 {
        g.hand_cards_to_deal -= 1;
        g.deal_card_to_hand();
    }
    while g.exchange_cards_to_deal > 0 {
        g.exchange_cards_to_deal -= 1;
        g.deal_card_to_exchange();
    }
    g.set_active_player_after_deal();
    assert!(bid_ready(&g, 3));
    let scores = bot.bid_scores(&g, 3);
    assert_eq!(scores.len(), 3 * 9);
    assert!(scores.iter().all(|s| *s >= 0 && *s <= 130_000_000));
    g.make_bid(Bid::Points(65_000_000));
    g.end_bidding();
    assert!(play_ready(&g, 3));
    let legal = g.duplicate().get_playable_card_ids();
    match bot.get_play(&mut g, 3) {
        PlayerAction::PlayCard(id) => assert!(legal.contains(&id)),
        other => panic!("expected a play, got {:?}", other),
    }
}
