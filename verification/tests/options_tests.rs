use whiskey::card::Suit;
use whiskey::game_options::{
    BiddersLose, BiddersWin, DefendersLose, DefendersWin, DiscardedPointCards, FirstPlayer, GameOptions, JokerKind,
    MajorityTricksTie, NestAwarded,
};

#[test]
fn whiskey_4_preset() {
    let o = GameOptions::whiskey_4();
    assert_eq!(o.players, 4);
    assert_eq!(o.joker_kind, JokerKind::Phoenix);
    assert_eq!(o.hand_size, 9);
    assert_eq!(o.exchange_size, 2);
    assert_eq!(o.nest_size, 0);
    assert_eq!(o.min_bid, 65);
    assert_eq!(o.max_bid, 130);
    assert_eq!(o.bid_increment, 5);
    assert!(o.bid_after_passing);
    assert!(matches!(o.discard_point_cards, DiscardedPointCards::Allowed(false)));
    assert!(matches!(o.nest_awarded, NestAwarded::ToLastTrickWinner));
    assert!(matches!(o.first_player, FirstPlayer::LeftOfBidder));
    assert!(matches!(o.majority_tricks_tie, MajorityTricksTie::NoPoints));
    assert!(matches!(o.bidders_win, BiddersWin::PointsTaken));
    assert!(matches!(o.bidders_lose, BiddersLose::Zero));
    assert!(matches!(o.defenders_win, DefendersWin::PointsTaken(0)));
    assert!(matches!(o.defenders_lose, DefendersLose::PointsTaken));
    assert_eq!(o.slam_bonus, 70);
    assert_eq!(o.points_to_win_game, 400);
    assert_eq!(o.cards_in_deck.len(), 38);
    assert_eq!(o.cards_in_deck[0], (Suit::Club, 5, 5));
    assert_eq!(o.cards_in_deck[37], (Suit::Joker, 0, 15));
}

#[test]
fn whiskey_4_plus_preset() {
    let o = GameOptions::whiskey_4_plus();
    assert_eq!(o.players, 4);
    assert_eq!(o.hand_size, 10);
    assert_eq!(o.exchange_size, 3);
    assert_eq!(o.min_bid, 75);
    assert_eq!(o.max_bid, 150);
    assert_eq!(o.slam_bonus, 50);
    assert_eq!(o.cards_in_deck.len(), 43);
    assert_eq!(o.cards_in_deck[0], (Suit::Club, 2, 20));
}

#[test]
fn preset_decks_hold_the_max_bid() {
    for o in [GameOptions::whiskey_4(), GameOptions::whiskey_4_plus()] {
        let deck_points: isize = o.cards_in_deck.iter().map(|c| c.2).sum();
        assert_eq!(deck_points + o.last_trick_pts + o.majority_of_tricks_pts, o.max_bid);
        assert_eq!(o.cards_in_deck.len(), o.hand_size * o.players + o.exchange_size + o.nest_size);
    }
}

fn deck_total(o: &GameOptions) -> isize {
    o.cards_in_deck.iter().map(|c| c.2).sum()
}

#[test]
fn dixie_preset_counts_fives_tens_and_kings() {
    let o = GameOptions::dixie();
    assert_eq!(o.joker_kind, JokerKind::Trump);
    assert_eq!((o.hand_size, o.exchange_size, o.nest_size), (9, 3, 1));
    assert_eq!((o.min_bid, o.max_bid, o.bid_increment), (50, 100, 5));
    assert!(matches!(o.discard_point_cards, DiscardedPointCards::Allowed(true)));
    assert!(matches!(o.first_player, FirstPlayer::Bidder));
    assert!(matches!(o.majority_tricks_tie, MajorityTricksTie::ToDefenders));
    assert_eq!(o.points_to_win_game, 200);
    assert_eq!(o.cards_in_deck.len(), 40);
    assert_eq!(deck_total(&o), 100);
    assert!(o.cards_in_deck.iter().all(|c| (c.2 > 0) == (c.1 == 5 || c.1 == 10 || c.1 == 13)));
}

#[test]
fn whiskey_3_6_preset() {
    let o = GameOptions::whiskey_3_6();
    assert_eq!((o.hand_size, o.exchange_size, o.nest_size), (10, 3, 2));
    assert_eq!((o.min_bid, o.max_bid, o.bid_increment), (100, 200, 10));
    assert!(matches!(o.discard_point_cards, DiscardedPointCards::OnlyWhenForced(true)));
    assert!(matches!(o.first_player, FirstPlayer::LeftOfDealer));
    assert!(matches!(o.bidders_win, BiddersWin::PointsBid));
    assert_eq!(o.slam_bonus, 40);
    assert_eq!(o.cards_in_deck.len(), 45);
    assert_eq!(o.cards_in_deck[44], (Suit::Joker, 15, 0));
    assert_eq!(deck_total(&o), 160);
}

#[test]
fn whiskey_3_7_preset() {
    let o = GameOptions::whiskey_3_7();
    assert_eq!((o.hand_size, o.exchange_size, o.nest_size), (10, 2, 0));
    assert_eq!((o.min_bid, o.max_bid), (80, 150));
    assert!(matches!(o.first_player, FirstPlayer::LeftOfBidder));
    assert_eq!(o.slam_bonus, 50);
    assert_eq!(o.cards_in_deck.len(), 42);
    assert_eq!(deck_total(&o), 140);
}

#[test]
fn kentucky_discard_has_a_low_trump_joker() {
    let o = GameOptions::kentucky_discard();
    assert_eq!(o.joker_kind, JokerKind::Trump);
    assert_eq!((o.hand_size, o.exchange_size), (9, 5));
    assert!(matches!(o.bidders_lose, BiddersLose::MinusBid));
    assert!(matches!(o.majority_tricks_tie, MajorityTricksTie::NoPoints));
    assert_eq!(o.cards_in_deck.len(), 41);
    assert_eq!(o.cards_in_deck[40], (Suit::Joker, 1, 20));
    assert_eq!(deck_total(&o), 120);
}

#[test]
fn two_hundred_preset() {
    let o = GameOptions::two_hundred();
    assert!(matches!(o.discard_point_cards, DiscardedPointCards::Allowed(true)));
    assert!(matches!(o.nest_awarded, NestAwarded::ToLastTrickWinner));
    assert!(matches!(o.bidders_lose, BiddersLose::Zero));
    assert_eq!((o.hand_size, o.exchange_size), (9, 4));
    assert_eq!(o.cards_in_deck.len(), 40);
    assert!(o.cards_in_deck.iter().all(|c| c.0 != Suit::Joker));
    assert_eq!(deck_total(&o), 100);
}
