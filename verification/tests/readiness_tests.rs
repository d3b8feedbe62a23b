use whiskey::card::{Card, Suit};
use whiskey::controller::{step_allowed_check, GameAction};
use whiskey::game::{Bid, Game};
use whiskey::game_options::{DiscardedPointCards, GameOptions};
use whiskey::readiness::{
    bid_ready, cards_fit, discards_ready, game_wf, play_ready, simulation_ready, suits_fit, trump_ready,
};

fn card(id: u8, suit: Suit, rank: u8, points: isize) -> Card {
    Card::new(id, suit, rank, points)
}

fn dealt_game() -> Game {
    let mut g = Game::with_dealer(GameOptions::whiskey_4(), 3);
    g.create_deck();
    g.reset_for_new_hand();
    while g.hand_cards_to_deal > 0 {
        g.hand_cards_to_deal -= 1;
        g.deal_card_to_hand();
    }
    while g.exchange_cards_to_deal > 0 {
        g.exchange_cards_to_deal -= 1;
        g.deal_card_to_exchange();
    }
    g.set_active_player_after_deal();
    g
}

#[test]
fn well_formed_games_are_recognised() {
    let mut g = Game::with_dealer(GameOptions::whiskey_4(), 0);
    assert!(game_wf(&g));
    g.active = 4;
    assert!(!game_wf(&g));
    g.active = 0;
    g.maker = Some(7);
    assert!(!game_wf(&g));
    g.maker = Some(3);
    g.hands.pop();
    assert!(!game_wf(&g));
}

#[test]
fn card_points_must_be_in_range() {
    let mut g = Game::with_dealer(GameOptions::whiskey_4(), 0);
    g.create_deck();
    assert!(cards_fit(&g.deck, 15));
    assert!(!cards_fit(&g.deck, 14));
    g.deck.push(card(99, Suit::Club, 5, 150));
    assert!(!cards_fit(&g.deck, 100));
    assert!(cards_fit(&g.deck, 150));
    assert!(!cards_fit(&vec![card(1, Suit::Club, 5, -5)], 100));
}

#[test]
fn suit_scores_must_fit_a_byte() {
    let few: Vec<Card> = (0..5).map(|i| card(i, Suit::Club, 14, 10)).collect();
    assert!(suits_fit(&few));
    let many: Vec<Card> = (0..20).map(|i| card(i, Suit::Club, 14, 10)).collect();
    assert!(!suits_fit(&many));
}

#[test]
fn bots_are_asked_only_in_states_they_can_simulate() {
    let mut g = dealt_game();
    assert!(!simulation_ready(&g));
    assert!(bid_ready(&g, 100));
    assert!(bid_ready(&g, 5000));
    assert!(!bid_ready(&g, usize::MAX));
    assert!(trump_ready(&g));
    g.make_bid(Bid::Points(65));
    g.end_bidding();
    assert!(simulation_ready(&g));
    assert!(!discards_ready(&g, 2));
    g.move_exchange_cards_to_maker();
    g.mark_eligible_discards();
    assert!(discards_ready(&g, 2));
    assert!(!discards_ready(&g, 0));
    let ids: Vec<u8> = g.active_hand().iter().take(2).map(|c| c.id).collect();
    for id in ids {
        g.swap_with_exchange(id);
    }
    g.turn_exchange_cards();
    g.add_exchange_cards_to_nest();
    g.set_trump_suit(Suit::Heart);
    g.set_first_player();
    assert!(simulation_ready(&g));
    assert!(play_ready(&g, 10));
    g.hands[1].pop();
    assert!(!simulation_ready(&g));
    assert!(!play_ready(&g, 10));
}

#[test]
fn step_conditions_are_checked() {
    let mut g = Game::with_dealer(GameOptions::whiskey_4(), 0);
    assert!(step_allowed_check(&g, &GameAction::Setup));
    g.hand_cards_to_deal = 1;
    assert!(!step_allowed_check(&g, &GameAction::DealToHands));
    g.deck.push(card(1, Suit::Club, 7, 0));
    assert!(step_allowed_check(&g, &GameAction::DealToHands));
    assert!(!step_allowed_check(&g, &GameAction::EndBidding));
    assert!(!step_allowed_check(&g, &GameAction::PlayCard(1)));
    g.hands[0].push(card(2, Suit::Club, 8, 0));
    assert!(step_allowed_check(&g, &GameAction::PlayCard(2)));
    assert!(!step_allowed_check(&g, &GameAction::AwardTrick));
    assert!(step_allowed_check(&g, &GameAction::GetBid));

    g.options.bid_after_passing = false;
    g.bids = vec![Some(Bid::Pass), Some(Bid::Pass), Some(Bid::Pass), None];
    g.active = 3;
    assert!(!step_allowed_check(&g, &GameAction::MakeBid(Bid::Pass)));
    assert!(step_allowed_check(&g, &GameAction::MakeBid(Bid::Points(65))));

    g.maker = Some(1);
    assert!(step_allowed_check(&g, &GameAction::PresentScore));
    g.scoring.game[1] = isize::MAX;
    g.scoring.points_taken[1] = 80;
    g.high_bid = 70;
    assert!(!step_allowed_check(&g, &GameAction::PresentScore));
}

#[test]
fn forced_discards_need_enough_cheap_cards() {
    let mut g = Game::with_dealer(GameOptions::whiskey_4(), 0);
    g.maker = Some(0);
    g.options.discard_point_cards = DiscardedPointCards::OnlyWhenForced(false);
    g.hands[0] = vec![card(1, Suit::Club, 2, 20), card(2, Suit::Club, 3, 20)];
    g.exchange = vec![card(3, Suit::Club, 4, 20), card(4, Suit::Club, 7, 0)];
    assert!(!step_allowed_check(&g, &GameAction::MoveNestToMaker));
    g.exchange[0].points = 5;
    assert!(step_allowed_check(&g, &GameAction::MoveNestToMaker));
}

#[test]
fn large_values_are_simulated_while_the_sums_fit() {
    let mut g = dealt_game();
    g.make_bid(Bid::Points(65));
    g.end_bidding();
    assert!(play_ready(&g, 5000));
    assert!(!play_ready(&g, usize::MAX));
    g.hands[0][0].points = 1_000_000;
    g.scoring.game[0] = 50_000_000;
    assert!(simulation_ready(&g));
    assert!(play_ready(&g, 1000));
    g.scoring.game[0] = isize::MAX / 8;
    assert!(!simulation_ready(&g));
    g.scoring.game[0] = 0;
    g.hands[0][0].points = -1;
    assert!(!simulation_ready(&g));
}
