use whiskey::card::{Card, Suit};

#[test]
fn card_new_is_face_down_and_marks_jokers() {
    let c = Card::new(3, Suit::Heart, 12, 0);
    assert_eq!(c.id, 3);
    assert!(!c.face_up);
    assert!(!c.eligible);
    assert!(!c.is_joker);
    let j = Card::new(4, Suit::Joker, 0, 15);
    assert!(j.is_joker);
}

#[test]
fn sort_order_adds_suit_offset() {
    assert_eq!(Card::new(0, Suit::Club, 5, 5).sort_order(), 5);
    assert_eq!(Card::new(0, Suit::Diamond, 5, 5).sort_order(), 25);
    assert_eq!(Card::new(0, Suit::Heart, 14, 10).sort_order(), 54);
    assert_eq!(Card::new(0, Suit::Spade, 11, 0).sort_order(), 71);
    assert_eq!(Card::new(0, Suit::Joker, 0, 15).sort_order(), 80);
}

#[test]
fn file_string_names_image() {
    assert_eq!(Card::new(0, Suit::Club, 14, 10).file_string(), "clbA");
    assert_eq!(Card::new(0, Suit::Diamond, 10, 10).file_string(), "dia10");
    assert_eq!(Card::new(0, Suit::Heart, 5, 5).file_string(), "hrt5");
    assert_eq!(Card::new(0, Suit::Spade, 11, 0).file_string(), "spdJ");
    assert_eq!(Card::new(0, Suit::Joker, 0, 15).file_string(), "joker");
}

#[test]
fn rank_string_names_face_cards() {
    assert_eq!(Card::new(0, Suit::Club, 11, 0).rank_string(), "J");
    assert_eq!(Card::new(0, Suit::Club, 12, 0).rank_string(), "Q");
    assert_eq!(Card::new(0, Suit::Club, 13, 0).rank_string(), "K");
    assert_eq!(Card::new(0, Suit::Club, 14, 10).rank_string(), "A");
    assert_eq!(Card::new(0, Suit::Club, 7, 0).rank_string(), "7");
    assert_eq!(Card::new(0, Suit::Club, 0, 15).rank_string(), "0");
    assert_eq!(Card::new(0, Suit::Club, 200, 15).rank_string(), "200");
}

#[test]
fn display_string_shows_rank_and_suit() {
    assert_eq!(Card::new(0, Suit::Spade, 14, 10).display_string(), "A\u{2664}");
    assert_eq!(Card::new(0, Suit::Club, 10, 10).display_string(), "10\u{2667}");
    assert_eq!(Card::new(0, Suit::Diamond, 5, 5).display_string(), "5\u{2666}\u{fe0f}");
    assert_eq!(Card::new(0, Suit::Heart, 12, 0).display_string(), "Q\u{2665}\u{fe0f}");
    assert_eq!(Card::new(0, Suit::Joker, 0, 15).display_string(), "0,Jkr");
}

#[test]
fn is_trump_compares_suits() {
    let c = Card::new(0, Suit::Heart, 9, 0);
    assert!(c.is_trump(&Some(Suit::Heart)));
    assert!(!c.is_trump(&Some(Suit::Spade)));
    assert!(!c.is_trump(&None));
}

#[test]
fn cards_equal_by_suit_and_rank_and_order_by_sort_order() {
    let a = Card::new(1, Suit::Heart, 9, 0);
    let mut b = Card::new(2, Suit::Heart, 9, 5);
    b.face_up = true;
    assert!(a == b);
    assert!(a != Card::new(1, Suit::Spade, 9, 0));
    assert!(Card::new(0, Suit::Club, 14, 10) < Card::new(0, Suit::Diamond, 5, 5));
    assert!(Card::new(0, Suit::Spade, 14, 10) < Card::new(0, Suit::Joker, 0, 15));
    assert_eq!(a.partial_cmp(&b), Some(std::cmp::Ordering::Equal));
}
