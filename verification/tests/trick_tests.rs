use whiskey::card::{Card, Suit};
use whiskey::game_options::JokerKind;
use whiskey::trick::Trick;

fn card(id: u8, suit: Suit, rank: u8, points: isize) -> Card {
    Card::new(id, suit, rank, points)
}

#[test]
fn new_trick_is_empty() {
    let t = Trick::new(4);
    assert_eq!(t.cards.len(), 4);
    assert!(t.cards.iter().all(|c| c.is_none()));
    assert_eq!(t.lead_suit, None);
    assert_eq!(t.winner, None);
    assert_eq!(t.points, 0);
    assert!(!t.completed());
}

#[test]
fn first_card_leads_and_wins() {
    let mut t = Trick::new(4);
    t.add(2, card(1, Suit::Heart, 9, 0), &Some(Suit::Spade), JokerKind::Phoenix);
    assert_eq!(t.lead_suit, Some(Suit::Heart));
    assert_eq!(t.winning_suit, Some(Suit::Heart));
    assert_eq!(t.winning_rank, 9);
    assert_eq!(t.winner, Some(2));
}

#[test]
fn higher_card_of_winning_suit_takes_lead() {
    let mut t = Trick::new(4);
    t.add(0, card(1, Suit::Heart, 9, 0), &Some(Suit::Spade), JokerKind::Phoenix);
    t.add(1, card(2, Suit::Heart, 8, 0), &Some(Suit::Spade), JokerKind::Phoenix);
    assert_eq!(t.winner, Some(0));
    t.add(2, card(3, Suit::Heart, 14, 10), &Some(Suit::Spade), JokerKind::Phoenix);
    assert_eq!(t.winner, Some(2));
    assert_eq!(t.winning_rank, 14);
    t.add(3, card(4, Suit::Club, 14, 10), &Some(Suit::Spade), JokerKind::Phoenix);
    assert_eq!(t.winner, Some(2));
    assert_eq!(t.points, 20);
    assert!(t.completed());
}

#[test]
fn trump_beats_off_suit_and_equal_trump_rank_takes_lead() {
    let mut t = Trick::new(4);
    t.add(0, card(1, Suit::Heart, 14, 10), &Some(Suit::Spade), JokerKind::Trump);
    t.add(1, card(2, Suit::Spade, 5, 5), &Some(Suit::Spade), JokerKind::Trump);
    assert_eq!(t.winner, Some(1));
    assert_eq!(t.winning_suit, Some(Suit::Spade));
    assert_eq!(t.lead_suit, Some(Suit::Heart));
    t.add(2, card(3, Suit::Spade, 5, 5), &Some(Suit::Spade), JokerKind::Trump);
    assert_eq!(t.winner, Some(2));
    t.add(3, card(4, Suit::Heart, 13, 0), &Some(Suit::Spade), JokerKind::Trump);
    assert_eq!(t.winner, Some(2));
    assert_eq!(t.points, 20);
}

#[test]
fn without_trump_only_winning_suit_can_take_lead() {
    let mut t = Trick::new(3);
    t.add(0, card(1, Suit::Diamond, 7, 0), &None, JokerKind::Phoenix);
    t.add(1, card(2, Suit::Club, 14, 10), &None, JokerKind::Phoenix);
    assert_eq!(t.winner, Some(0));
    t.add(2, card(3, Suit::Diamond, 8, 0), &None, JokerKind::Phoenix);
    assert_eq!(t.winner, Some(2));
}

#[test]
fn phoenix_joker_leads_without_setting_lead_suit() {
    let mut t = Trick::new(4);
    t.add(1, card(1, Suit::Joker, 0, 15), &Some(Suit::Club), JokerKind::Phoenix);
    assert_eq!(t.winner, Some(1));
    assert_eq!(t.lead_suit, None);
    t.add(2, card(2, Suit::Heart, 7, 0), &Some(Suit::Club), JokerKind::Phoenix);
    assert_eq!(t.winner, Some(2));
    assert_eq!(t.lead_suit, Some(Suit::Heart));
    assert_eq!(t.points, 15);
}

#[test]
fn phoenix_joker_takes_trick_later_keeping_winning_card() {
    let mut t = Trick::new(4);
    t.add(0, card(1, Suit::Heart, 10, 10), &Some(Suit::Club), JokerKind::Phoenix);
    t.add(1, card(2, Suit::Club, 14, 10), &Some(Suit::Club), JokerKind::Phoenix);
    t.add(2, card(3, Suit::Joker, 0, 15), &Some(Suit::Club), JokerKind::Phoenix);
    assert_eq!(t.winner, Some(2));
    assert_eq!(t.winning_suit, Some(Suit::Club));
    assert_eq!(t.winning_rank, 14);
    t.add(3, card(4, Suit::Club, 5, 5), &Some(Suit::Club), JokerKind::Phoenix);
    assert_eq!(t.winner, Some(2));
    assert_eq!(t.points, 40);
}

#[test]
fn reset_clears_the_trick() {
    let mut t = Trick::new(4);
    t.add(0, card(1, Suit::Heart, 10, 10), &None, JokerKind::Phoenix);
    t.reset();
    assert_eq!(t.cards.len(), 4);
    assert!(t.cards.iter().all(|c| c.is_none()));
    assert_eq!(t.winner, None);
    assert_eq!(t.lead_suit, None);
    assert_eq!(t.winning_suit, None);
    assert_eq!(t.winning_rank, 0);
    assert_eq!(t.points, 0);
}
