use vstd::prelude::*;

use crate::card::{Points, Rank, Suit};

verus! {

/// How a joker behaves.
#[derive(Clone, Copy, Debug, PartialEq, Eq, Structural)]
pub enum JokerKind {
    /// The joker joins the trump suit.
    Trump,
    /// The joker takes the lead of any trick it is played to.
    Phoenix,
}

/// Whether the maker may discard point cards.
#[derive(Clone, Copy, Debug, PartialEq, Eq, Structural)]
pub enum DiscardedPointCards {
    /// Any card may be discarded; the flag says whether discarded point cards are shown.
    Allowed(bool),
    /// Point cards may be discarded only when too few others are left; the flag says
    /// whether discarded point cards are shown.
    OnlyWhenForced(bool),
}

/// Which team scores the points in the nest.
#[derive(Clone, Copy, Debug, PartialEq, Eq, Structural)]
pub enum NestAwarded {
    ToLastTrickWinner,
    ToDefenders,
}

/// What happens to the bonus for the majority of tricks when the teams tie.
#[derive(Clone, Copy, Debug, PartialEq, Eq, Structural)]
pub enum MajorityTricksTie {
    ToDefenders,
    SplitBetween,
    NoPoints,
}

/// Who leads the first trick of a hand.
#[derive(Clone, Copy, Debug, PartialEq, Eq, Structural)]
pub enum FirstPlayer {
    Bidder,
    LeftOfBidder,
    LeftOfDealer,
}

/// What the makers score when they make their bid.
#[derive(Clone, Copy, Debug, PartialEq, Eq, Structural)]
pub enum BiddersWin {
    PointsBid,
    PointsTaken,
}

/// What the makers score when they fail.
#[derive(Clone, Copy, Debug, PartialEq, Eq, Structural)]
pub enum BiddersLose {
    Zero,
    MinusBid,
}

/// What the defenders score when the makers fail.
#[derive(Clone, Copy, Debug, PartialEq, Eq, Structural)]
pub enum DefendersWin {
    /// The points taken plus the given bonus for defeating the bidders.
    PointsTaken(Points),
}

/// What the defenders score when the makers make their bid.
#[derive(Clone, Copy, Debug, PartialEq, Eq, Structural)]
pub enum DefendersLose {
    PointsTaken,
    HalfPoints,
    Zero,
}

/// The rules of one variant of the game.
#[derive(Clone, Debug)]
pub struct GameOptions {
    pub players: usize,
    pub joker_kind: JokerKind,
    /// With `exchange_size` and `nest_size`, how many cards are dealt; the rest of the
    /// deck is out of play for the hand.
    pub hand_size: usize,
    /// The number of cards dealt to the exchange. After the bidder exchanges with the
    /// cards in his hand, the exchange cards are added to the nest.
    pub exchange_size: usize,
    /// The number of exchange cards dealt face up.
    pub exchange_face_up: usize,
    /// The number of cards dealt directly to the nest and not exchanged.
    pub nest_size: usize,
    /// The number of nest cards dealt face up.
    pub nest_face_up: usize,
    pub min_bid: Points,
    pub max_bid: Points,
    pub bid_increment: Points,
    pub bid_after_passing: bool,
    pub discard_point_cards: DiscardedPointCards,
    pub nest_awarded: NestAwarded,
    pub first_player: FirstPlayer,
    pub last_trick_pts: Points,
    pub majority_of_tricks_pts: Points,
    pub majority_tricks_tie: MajorityTricksTie,
    pub bidders_win: BiddersWin,
    pub bidders_lose: BiddersLose,
    pub defenders_win: DefendersWin,
    pub defenders_lose: DefendersLose,
    /// Bonus for taking the maximum points. With `BiddersWin::PointsBid` the bid must be
    /// for the maximum too.
    pub slam_bonus: Points,
    pub points_to_win_game: Points,
    pub cards_in_deck: Vec<(Suit, Rank, Points)>,
}

/// The total of the points of the cards in a deck list.
pub open spec fn deck_points(d: Seq<(Suit, Rank, Points)>) -> int
    decreases d.len(),
{
    if d.len() == 0 {
        0
    } else {
        deck_points(d.drop_last()) + d.last().2
    }
}

/// The deck of the four-player Whiskey game: 5, 7 to Ace in each suit, and two jokers.
pub open spec fn whiskey_4_deck() -> Seq<(Suit, Rank, Points)> {
    seq![
        (Suit::Club, 5, 5),
        (Suit::Club, 7, 0),
        (Suit::Club, 8, 0),
        (Suit::Club, 9, 0),
        (Suit::Club, 10, 10),
        (Suit::Club, 11, 0),
        (Suit::Club, 12, 0),
        (Suit::Club, 13, 0),
        (Suit::Club, 14, 10),
        (Suit::Diamond, 5, 5),
        (Suit::Diamond, 7, 0),
        (Suit::Diamond, 8, 0),
        (Suit::Diamond, 9, 0),
        (Suit::Diamond, 10, 10),
        (Suit::Diamond, 11, 0),
        (Suit::Diamond, 12, 0),
        (Suit::Diamond, 13, 0),
        (Suit::Diamond, 14, 10),
        (Suit::Heart, 5, 5),
        (Suit::Heart, 7, 0),
        (Suit::Heart, 8, 0),
        (Suit::Heart, 9, 0),
        (Suit::Heart, 10, 10),
        (Suit::Heart, 11, 0),
        (Suit::Heart, 12, 0),
        (Suit::Heart, 13, 0),
        (Suit::Heart, 14, 10),
        (Suit::Spade, 5, 5),
        (Suit::Spade, 7, 0),
        (Suit::Spade, 8, 0),
        (Suit::Spade, 9, 0),
        (Suit::Spade, 10, 10),
        (Suit::Spade, 11, 0),
        (Suit::Spade, 12, 0),
        (Suit::Spade, 13, 0),
        (Suit::Spade, 14, 10),
        (Suit::Joker, 0, 15),
        (Suit::Joker, 0, 15),
    ]
}

/// The deck of the larger four-player game: 5 to Ace in each suit, the 2 of clubs, and
/// two jokers.
pub open spec fn whiskey_4_plus_deck() -> Seq<(Suit, Rank, Points)> {
    seq![
        (Suit::Club, 2, 20),
        (Suit::Club, 5, 5),
        (Suit::Club, 6, 0),
        (Suit::Club, 7, 0),
        (Suit::Club, 8, 0),
        (Suit::Club, 9, 0),
        (Suit::Club, 10, 10),
        (Suit::Club, 11, 0),
        (Suit::Club, 12, 0),
        (Suit::Club, 13, 0),
        (Suit::Club, 14, 10),
        (Suit::Diamond, 5, 5),
        (Suit::Diamond, 6, 0),
        (Suit::Diamond, 7, 0),
        (Suit::Diamond, 8, 0),
        (Suit::Diamond, 9, 0),
        (Suit::Diamond, 10, 10),
        (Suit::Diamond, 11, 0),
        (Suit::Diamond, 12, 0),
        (Suit::Diamond, 13, 0),
        (Suit::Diamond, 14, 10),
        (Suit::Heart, 5, 5),
        (Suit::Heart, 6, 0),
        (Suit::Heart, 7, 0),
        (Suit::Heart, 8, 0),
        (Suit::Heart, 9, 0),
        (Suit::Heart, 10, 10),
        (Suit::Heart, 11, 0),
        (Suit::Heart, 12, 0),
        (Suit::Heart, 13, 0),
        (Suit::Heart, 14, 10),
        (Suit::Spade, 5, 5),
        (Suit::Spade, 6, 0),
        (Suit::Spade, 7, 0),
        (Suit::Spade, 8, 0),
        (Suit::Spade, 9, 0),
        (Suit::Spade, 10, 10),
        (Suit::Spade, 11, 0),
        (Suit::Spade, 12, 0),
        (Suit::Spade, 13, 0),
        (Suit::Spade, 14, 10),
        (Suit::Joker, 0, 15),
        (Suit::Joker, 0, 15),
    ]
}

/// The deck of Dixie: 5 to Ace in each suit, with the 5, 10 and King as point cards.
pub open spec fn dixie_deck() -> Seq<(Suit, Rank, Points)> {
    seq![
        (Suit::Club, 5, 5),
        (Suit::Club, 6, 0),
        (Suit::Club, 7, 0),
        (Suit::Club, 8, 0),
        (Suit::Club, 9, 0),
        (Suit::Club, 10, 10),
        (Suit::Club, 11, 0),
        (Suit::Club, 12, 0),
        (Suit::Club, 13, 10),
        (Suit::Club, 14, 0),
        (Suit::Diamond, 5, 5),
        (Suit::Diamond, 6, 0),
        (Suit::Diamond, 7, 0),
        (Suit::Diamond, 8, 0),
        (Suit::Diamond, 9, 0),
        (Suit::Diamond, 10, 10),
        (Suit::Diamond, 11, 0),
        (Suit::Diamond, 12, 0),
        (Suit::Diamond, 13, 10),
        (Suit::Diamond, 14, 0),
        (Suit::Heart, 5, 5),
        (Suit::Heart, 6, 0),
        (Suit::Heart, 7, 0),
        (Suit::Heart, 8, 0),
        (Suit::Heart, 9, 0),
        (Suit::Heart, 10, 10),
        (Suit::Heart, 11, 0),
        (Suit::Heart, 12, 0),
        (Suit::Heart, 13, 10),
        (Suit::Heart, 14, 0),
        (Suit::Spade, 5, 5),
        (Suit::Spade, 6, 0),
        (Suit::Spade, 7, 0),
        (Suit::Spade, 8, 0),
        (Suit::Spade, 9, 0),
        (Suit::Spade, 10, 10),
        (Suit::Spade, 11, 0),
        (Suit::Spade, 12, 0),
        (Suit::Spade, 13, 10),
        (Suit::Spade, 14, 0),
    ]
}

/// The deck of the Whiskey game with a nest of two: 4 to Ace in each suit and a high
/// joker.
pub open spec fn whiskey_3_6_deck() -> Seq<(Suit, Rank, Points)> {
    seq![
        (Suit::Club, 4, 0),
        (Suit::Club, 5, 10),
        (Suit::Club, 6, 0),
        (Suit::Club, 7, 0),
        (Suit::Club, 8, 0),
        (Suit::Club, 9, 0),
        (Suit::Club, 10, 10),
        (Suit::Club, 11, 0),
        (Suit::Club, 12, 0),
        (Suit::Club, 13, 10),
        (Suit::Club, 14, 10),
        (Suit::Diamond, 4, 0),
        (Suit::Diamond, 5, 10),
        (Suit::Diamond, 6, 0),
        (Suit::Diamond, 7, 0),
        (Suit::Diamond, 8, 0),
        (Suit::Diamond, 9, 0),
        (Suit::Diamond, 10, 10),
        (Suit::Diamond, 11, 0),
        (Suit::Diamond, 12, 0),
        (Suit::Diamond, 13, 10),
        (Suit::Diamond, 14, 10),
        (Suit::Heart, 4, 0),
        (Suit::Heart, 5, 10),
        (Suit::Heart, 6, 0),
        (Suit::Heart, 7, 0),
        (Suit::Heart, 8, 0),
        (Suit::Heart, 9, 0),
        (Suit::Heart, 10, 10),
        (Suit::Heart, 11, 0),
        (Suit::Heart, 12, 0),
        (Suit::Heart, 13, 10),
        (Suit::Heart, 14, 10),
        (Suit::Spade, 4, 0),
        (Suit::Spade, 5, 10),
        (Suit::Spade, 6, 0),
        (Suit::Spade, 7, 0),
        (Suit::Spade, 8, 0),
        (Suit::Spade, 9, 0),
        (Suit::Spade, 10, 10),
        (Suit::Spade, 11, 0),
        (Suit::Spade, 12, 0),
        (Suit::Spade, 13, 10),
        (Suit::Spade, 14, 10),
        (Suit::Joker, 15, 0),
    ]
}

/// The deck of the two-joker Whiskey game: 5 to Ace in each suit and two high jokers.
pub open spec fn whiskey_3_7_deck() -> Seq<(Suit, Rank, Points)> {
    seq![
        (Suit::Club, 5, 5),
        (Suit::Club, 6, 0),
        (Suit::Club, 7, 0),
        (Suit::Club, 8, 0),
        (Suit::Club, 9, 0),
        (Suit::Club, 10, 10),
        (Suit::Club, 11, 0),
        (Suit::Club, 12, 0),
        (Suit::Club, 13, 10),
        (Suit::Club, 14, 10),
        (Suit::Diamond, 5, 5),
        (Suit::Diamond, 6, 0),
        (Suit::Diamond, 7, 0),
        (Suit::Diamond, 8, 0),
        (Suit::Diamond, 9, 0),
        (Suit::Diamond, 10, 10),
        (Suit::Diamond, 11, 0),
        (Suit::Diamond, 12, 0),
        (Suit::Diamond, 13, 10),
        (Suit::Diamond, 14, 10),
        (Suit::Heart, 5, 5),
        (Suit::Heart, 6, 0),
        (Suit::Heart, 7, 0),
        (Suit::Heart, 8, 0),
        (Suit::Heart, 9, 0),
        (Suit::Heart, 10, 10),
        (Suit::Heart, 11, 0),
        (Suit::Heart, 12, 0),
        (Suit::Heart, 13, 10),
        (Suit::Heart, 14, 10),
        (Suit::Spade, 5, 5),
        (Suit::Spade, 6, 0),
        (Suit::Spade, 7, 0),
        (Suit::Spade, 8, 0),
        (Suit::Spade, 9, 0),
        (Suit::Spade, 10, 10),
        (Suit::Spade, 11, 0),
        (Suit::Spade, 12, 0),
        (Suit::Spade, 13, 10),
        (Suit::Spade, 14, 10),
        (Suit::Joker, 15, 0),
        (Suit::Joker, 15, 0),
    ]
}

/// The deck of Kentucky Discard: 5 to Ace in each suit and one low joker worth 20.
pub open spec fn kentucky_discard_deck() -> Seq<(Suit, Rank, Points)> {
    seq![
        (Suit::Club, 5, 5),
        (Suit::Club, 6, 0),
        (Suit::Club, 7, 0),
        (Suit::Club, 8, 0),
        (Suit::Club, 9, 0),
        (Suit::Club, 10, 10),
        (Suit::Club, 11, 0),
        (Suit::Club, 12, 0),
        (Suit::Club, 13, 0),
        (Suit::Club, 14, 10),
        (Suit::Diamond, 5, 5),
        (Suit::Diamond, 6, 0),
        (Suit::Diamond, 7, 0),
        (Suit::Diamond, 8, 0),
        (Suit::Diamond, 9, 0),
        (Suit::Diamond, 10, 10),
        (Suit::Diamond, 11, 0),
        (Suit::Diamond, 12, 0),
        (Suit::Diamond, 13, 0),
        (Suit::Diamond, 14, 10),
        (Suit::Heart, 5, 5),
        (Suit::Heart, 6, 0),
        (Suit::Heart, 7, 0),
        (Suit::Heart, 8, 0),
        (Suit::Heart, 9, 0),
        (Suit::Heart, 10, 10),
        (Suit::Heart, 11, 0),
        (Suit::Heart, 12, 0),
        (Suit::Heart, 13, 0),
        (Suit::Heart, 14, 10),
        (Suit::Spade, 5, 5),
        (Suit::Spade, 6, 0),
        (Suit::Spade, 7, 0),
        (Suit::Spade, 8, 0),
        (Suit::Spade, 9, 0),
        (Suit::Spade, 10, 10),
        (Suit::Spade, 11, 0),
        (Suit::Spade, 12, 0),
        (Suit::Spade, 13, 0),
        (Suit::Spade, 14, 10),
        (Suit::Joker, 1, 20),
    ]
}

/// The deck of Two Hundred: 5 to Ace in each suit.
pub open spec fn two_hundred_deck() -> Seq<(Suit, Rank, Points)> {
    seq![
        (Suit::Club, 5, 5),
        (Suit::Club, 6, 0),
        (Suit::Club, 7, 0),
        (Suit::Club, 8, 0),
        (Suit::Club, 9, 0),
        (Suit::Club, 10, 10),
        (Suit::Club, 11, 0),
        (Suit::Club, 12, 0),
        (Suit::Club, 13, 0),
        (Suit::Club, 14, 10),
        (Suit::Diamond, 5, 5),
        (Suit::Diamond, 6, 0),
        (Suit::Diamond, 7, 0),
        (Suit::Diamond, 8, 0),
        (Suit::Diamond, 9, 0),
        (Suit::Diamond, 10, 10),
        (Suit::Diamond, 11, 0),
        (Suit::Diamond, 12, 0),
        (Suit::Diamond, 13, 0),
        (Suit::Diamond, 14, 10),
        (Suit::Heart, 5, 5),
        (Suit::Heart, 6, 0),
        (Suit::Heart, 7, 0),
        (Suit::Heart, 8, 0),
        (Suit::Heart, 9, 0),
        (Suit::Heart, 10, 10),
        (Suit::Heart, 11, 0),
        (Suit::Heart, 12, 0),
        (Suit::Heart, 13, 0),
        (Suit::Heart, 14, 10),
        (Suit::Spade, 5, 5),
        (Suit::Spade, 6, 0),
        (Suit::Spade, 7, 0),
        (Suit::Spade, 8, 0),
        (Suit::Spade, 9, 0),
        (Suit::Spade, 10, 10),
        (Suit::Spade, 11, 0),
        (Suit::Spade, 12, 0),
        (Suit::Spade, 13, 0),
        (Suit::Spade, 14, 10),
    ]
}

impl GameOptions {
    /// Four players, nine cards each, an exchange of two; the deck holds 130 points.
    pub fn whiskey_4() -> (r: Self)
        ensures
            r.players == 4,
            r.joker_kind == JokerKind::Phoenix,
            r.hand_size == 9,
            r.exchange_size == 2,
            r.exchange_face_up == 0,
            r.nest_size == 0,
            r.nest_face_up == 0,
            r.min_bid == 65,
            r.max_bid == 130,
            r.bid_increment == 5,
            r.bid_after_passing == true,
            r.discard_point_cards == DiscardedPointCards::Allowed(false),
            r.nest_awarded == NestAwarded::ToLastTrickWinner,
            r.first_player == FirstPlayer::LeftOfBidder,
            r.last_trick_pts == 0,
            r.majority_of_tricks_pts == 0,
            r.majority_tricks_tie == MajorityTricksTie::NoPoints,
            r.bidders_win == BiddersWin::PointsTaken,
            r.bidders_lose == BiddersLose::Zero,
            r.defenders_win == DefendersWin::PointsTaken(0),
            r.defenders_lose == DefendersLose::PointsTaken,
            r.slam_bonus == 70,
            r.points_to_win_game == 400,
            r.cards_in_deck@ == whiskey_4_deck(),
            deck_points(r.cards_in_deck@) + r.last_trick_pts + r.majority_of_tricks_pts == r.max_bid,
    {
        let mut d: Vec<(Suit, Rank, Points)> = Vec::new();
        d.push((Suit::Club, 5, 5));
        d.push((Suit::Club, 7, 0));
        d.push((Suit::Club, 8, 0));
        d.push((Suit::Club, 9, 0));
        d.push((Suit::Club, 10, 10));
        d.push((Suit::Club, 11, 0));
        d.push((Suit::Club, 12, 0));
        d.push((Suit::Club, 13, 0));
        d.push((Suit::Club, 14, 10));
        d.push((Suit::Diamond, 5, 5));
        d.push((Suit::Diamond, 7, 0));
        d.push((Suit::Diamond, 8, 0));
        d.push((Suit::Diamond, 9, 0));
        d.push((Suit::Diamond, 10, 10));
        d.push((Suit::Diamond, 11, 0));
        d.push((Suit::Diamond, 12, 0));
        d.push((Suit::Diamond, 13, 0));
        d.push((Suit::Diamond, 14, 10));
        d.push((Suit::Heart, 5, 5));
        d.push((Suit::Heart, 7, 0));
        d.push((Suit::Heart, 8, 0));
        d.push((Suit::Heart, 9, 0));
        d.push((Suit::Heart, 10, 10));
        d.push((Suit::Heart, 11, 0));
        d.push((Suit::Heart, 12, 0));
        d.push((Suit::Heart, 13, 0));
        d.push((Suit::Heart, 14, 10));
        d.push((Suit::Spade, 5, 5));
        d.push((Suit::Spade, 7, 0));
        d.push((Suit::Spade, 8, 0));
        d.push((Suit::Spade, 9, 0));
        d.push((Suit::Spade, 10, 10));
        d.push((Suit::Spade, 11, 0));
        d.push((Suit::Spade, 12, 0));
        d.push((Suit::Spade, 13, 0));
        d.push((Suit::Spade, 14, 10));
        d.push((Suit::Joker, 0, 15));
        d.push((Suit::Joker, 0, 15));
        proof {
            assert(d@ == whiskey_4_deck());
            reveal_with_fuel(deck_points, 40);
        }
        GameOptions {
            players: 4,
            joker_kind: JokerKind::Phoenix,
            hand_size: 9,
            exchange_size: 2,
            exchange_face_up: 0,
            nest_size: 0,
            nest_face_up: 0,
            min_bid: 65,
            max_bid: 130,
            bid_increment: 5,
            bid_after_passing: true,
            discard_point_cards: DiscardedPointCards::Allowed(false),
            nest_awarded: NestAwarded::ToLastTrickWinner,
            first_player: FirstPlayer::LeftOfBidder,
            last_trick_pts: 0,
            majority_of_tricks_pts: 0,
            majority_tricks_tie: MajorityTricksTie::NoPoints,
            bidders_win: BiddersWin::PointsTaken,
            bidders_lose: BiddersLose::Zero,
            defenders_win: DefendersWin::PointsTaken(0),
            defenders_lose: DefendersLose::PointsTaken,
            slam_bonus: 70,
            points_to_win_game: 400,
            cards_in_deck: d,
        }
    }

    /// Four players, ten cards each, an exchange of three; the deck holds 150 points.
    pub fn whiskey_4_plus() -> (r: Self)
        ensures
            r.players == 4,
            r.joker_kind == JokerKind::Phoenix,
            r.hand_size == 10,
            r.exchange_size == 3,
            r.exchange_face_up == 0,
            r.nest_size == 0,
            r.nest_face_up == 0,
            r.min_bid == 75,
            r.max_bid == 150,
            r.bid_increment == 5,
            r.bid_after_passing == true,
            r.discard_point_cards == DiscardedPointCards::Allowed(false),
            r.nest_awarded == NestAwarded::ToLastTrickWinner,
            r.first_player == FirstPlayer::LeftOfBidder,
            r.last_trick_pts == 0,
            r.majority_of_tricks_pts == 0,
            r.majority_tricks_tie == MajorityTricksTie::NoPoints,
            r.bidders_win == BiddersWin::PointsTaken,
            r.bidders_lose == BiddersLose::Zero,
            r.defenders_win == DefendersWin::PointsTaken(0),
            r.defenders_lose == DefendersLose::PointsTaken,
            r.slam_bonus == 50,
            r.points_to_win_game == 400,
            r.cards_in_deck@ == whiskey_4_plus_deck(),
            deck_points(r.cards_in_deck@) + r.last_trick_pts + r.majority_of_tricks_pts == r.max_bid,
    {
        let mut d: Vec<(Suit, Rank, Points)> = Vec::new();
        d.push((Suit::Club, 2, 20));
        d.push((Suit::Club, 5, 5));
        d.push((Suit::Club, 6, 0));
        d.push((Suit::Club, 7, 0));
        d.push((Suit::Club, 8, 0));
        d.push((Suit::Club, 9, 0));
        d.push((Suit::Club, 10, 10));
        d.push((Suit::Club, 11, 0));
        d.push((Suit::Club, 12, 0));
        d.push((Suit::Club, 13, 0));
        d.push((Suit::Club, 14, 10));
        d.push((Suit::Diamond, 5, 5));
        d.push((Suit::Diamond, 6, 0));
        d.push((Suit::Diamond, 7, 0));
        d.push((Suit::Diamond, 8, 0));
        d.push((Suit::Diamond, 9, 0));
        d.push((Suit::Diamond, 10, 10));
        d.push((Suit::Diamond, 11, 0));
        d.push((Suit::Diamond, 12, 0));
        d.push((Suit::Diamond, 13, 0));
        d.push((Suit::Diamond, 14, 10));
        d.push((Suit::Heart, 5, 5));
        d.push((Suit::Heart, 6, 0));
        d.push((Suit::Heart, 7, 0));
        d.push((Suit::Heart, 8, 0));
        d.push((Suit::Heart, 9, 0));
        d.push((Suit::Heart, 10, 10));
        d.push((Suit::Heart, 11, 0));
        d.push((Suit::Heart, 12, 0));
        d.push((Suit::Heart, 13, 0));
        d.push((Suit::Heart, 14, 10));
        d.push((Suit::Spade, 5, 5));
        d.push((Suit::Spade, 6, 0));
        d.push((Suit::Spade, 7, 0));
        d.push((Suit::Spade, 8, 0));
        d.push((Suit::Spade, 9, 0));
        d.push((Suit::Spade, 10, 10));
        d.push((Suit::Spade, 11, 0));
        d.push((Suit::Spade, 12, 0));
        d.push((Suit::Spade, 13, 0));
        d.push((Suit::Spade, 14, 10));
        d.push((Suit::Joker, 0, 15));
        d.push((Suit::Joker, 0, 15));
        proof {
            assert(d@ == whiskey_4_plus_deck());
            reveal_with_fuel(deck_points, 45);
        }
        GameOptions {
            players: 4,
            joker_kind: JokerKind::Phoenix,
            hand_size: 10,
            exchange_size: 3,
            exchange_face_up: 0,
            nest_size: 0,
            nest_face_up: 0,
            min_bid: 75,
            max_bid: 150,
            bid_increment: 5,
            bid_after_passing: true,
            discard_point_cards: DiscardedPointCards::Allowed(false),
            nest_awarded: NestAwarded::ToLastTrickWinner,
            first_player: FirstPlayer::LeftOfBidder,
            last_trick_pts: 0,
            majority_of_tricks_pts: 0,
            majority_tricks_tie: MajorityTricksTie::NoPoints,
            bidders_win: BiddersWin::PointsTaken,
            bidders_lose: BiddersLose::Zero,
            defenders_win: DefendersWin::PointsTaken(0),
            defenders_lose: DefendersLose::PointsTaken,
            slam_bonus: 50,
            points_to_win_game: 400,
            cards_in_deck: d,
        }
    }

    /// Dixie, with the 5, 10 and King as the point cards: four players, nine cards
    /// each, an exchange of three and a nest of one; the deck holds 100 points.
    pub fn dixie() -> (r: Self)
        ensures
            r.players == 4,
            r.joker_kind == JokerKind::Trump,
            r.hand_size == 9,
            r.exchange_size == 3,
            r.exchange_face_up == 0,
            r.nest_size == 1,
            r.nest_face_up == 0,
            r.min_bid == 50,
            r.max_bid == 100,
            r.bid_increment == 5,
            r.bid_after_passing == false,
            r.discard_point_cards == DiscardedPointCards::Allowed(true),
            r.nest_awarded == NestAwarded::ToLastTrickWinner,
            r.first_player == FirstPlayer::Bidder,
            r.last_trick_pts == 0,
            r.majority_of_tricks_pts == 0,
            r.majority_tricks_tie == MajorityTricksTie::ToDefenders,
            r.bidders_win == BiddersWin::PointsTaken,
            r.bidders_lose == BiddersLose::Zero,
            r.defenders_win == DefendersWin::PointsTaken(0),
            r.defenders_lose == DefendersLose::PointsTaken,
            r.slam_bonus == 0,
            r.points_to_win_game == 200,
            r.cards_in_deck@ == dixie_deck(),
            deck_points(r.cards_in_deck@) == 100,
    {
        let mut d: Vec<(Suit, Rank, Points)> = Vec::new();
        d.push((Suit::Club, 5, 5));
        d.push((Suit::Club, 6, 0));
        d.push((Suit::Club, 7, 0));
        d.push((Suit::Club, 8, 0));
        d.push((Suit::Club, 9, 0));
        d.push((Suit::Club, 10, 10));
        d.push((Suit::Club, 11, 0));
        d.push((Suit::Club, 12, 0));
        d.push((Suit::Club, 13, 10));
        d.push((Suit::Club, 14, 0));
        d.push((Suit::Diamond, 5, 5));
        d.push((Suit::Diamond, 6, 0));
        d.push((Suit::Diamond, 7, 0));
        d.push((Suit::Diamond, 8, 0));
        d.push((Suit::Diamond, 9, 0));
        d.push((Suit::Diamond, 10, 10));
        d.push((Suit::Diamond, 11, 0));
        d.push((Suit::Diamond, 12, 0));
        d.push((Suit::Diamond, 13, 10));
        d.push((Suit::Diamond, 14, 0));
        d.push((Suit::Heart, 5, 5));
        d.push((Suit::Heart, 6, 0));
        d.push((Suit::Heart, 7, 0));
        d.push((Suit::Heart, 8, 0));
        d.push((Suit::Heart, 9, 0));
        d.push((Suit::Heart, 10, 10));
        d.push((Suit::Heart, 11, 0));
        d.push((Suit::Heart, 12, 0));
        d.push((Suit::Heart, 13, 10));
        d.push((Suit::Heart, 14, 0));
        d.push((Suit::Spade, 5, 5));
        d.push((Suit::Spade, 6, 0));
        d.push((Suit::Spade, 7, 0));
        d.push((Suit::Spade, 8, 0));
        d.push((Suit::Spade, 9, 0));
        d.push((Suit::Spade, 10, 10));
        d.push((Suit::Spade, 11, 0));
        d.push((Suit::Spade, 12, 0));
        d.push((Suit::Spade, 13, 10));
        d.push((Suit::Spade, 14, 0));
        proof {
            assert(d@ == dixie_deck());
            reveal_with_fuel(deck_points, 42);
        }
        GameOptions {
            players: 4,
            joker_kind: JokerKind::Trump,
            hand_size: 9,
            exchange_size: 3,
            exchange_face_up: 0,
            nest_size: 1,
            nest_face_up: 0,
            min_bid: 50,
            max_bid: 100,
            bid_increment: 5,
            bid_after_passing: false,
            discard_point_cards: DiscardedPointCards::Allowed(true),
            nest_awarded: NestAwarded::ToLastTrickWinner,
            first_player: FirstPlayer::Bidder,
            last_trick_pts: 0,
            majority_of_tricks_pts: 0,
            majority_tricks_tie: MajorityTricksTie::ToDefenders,
            bidders_win: BiddersWin::PointsTaken,
            bidders_lose: BiddersLose::Zero,
            defenders_win: DefendersWin::PointsTaken(0),
            defenders_lose: DefendersLose::PointsTaken,
            slam_bonus: 0,
            points_to_win_game: 200,
            cards_in_deck: d,
        }
    }

    /// Four players, ten cards each, an exchange of three and a nest of two; the deck
    /// holds 160 points.
    pub fn whiskey_3_6() -> (r: Self)
        ensures
            r.players == 4,
            r.joker_kind == JokerKind::Trump,
            r.hand_size == 10,
            r.exchange_size == 3,
            r.exchange_face_up == 0,
            r.nest_size == 2,
            r.nest_face_up == 0,
            r.min_bid == 100,
            r.max_bid == 200,
            r.bid_increment == 10,
            r.bid_after_passing == false,
            r.discard_point_cards == DiscardedPointCards::OnlyWhenForced(true),
            r.nest_awarded == NestAwarded::ToLastTrickWinner,
            r.first_player == FirstPlayer::LeftOfDealer,
            r.last_trick_pts == 0,
            r.majority_of_tricks_pts == 0,
            r.majority_tricks_tie == MajorityTricksTie::ToDefenders,
            r.bidders_win == BiddersWin::PointsBid,
            r.bidders_lose == BiddersLose::Zero,
            r.defenders_win == DefendersWin::PointsTaken(0),
            r.defenders_lose == DefendersLose::PointsTaken,
            r.slam_bonus == 40,
            r.points_to_win_game == 400,
            r.cards_in_deck@ == whiskey_3_6_deck(),
            deck_points(r.cards_in_deck@) == 160,
    {
        let mut d: Vec<(Suit, Rank, Points)> = Vec::new();
        d.push((Suit::Club, 4, 0));
        d.push((Suit::Club, 5, 10));
        d.push((Suit::Club, 6, 0));
        d.push((Suit::Club, 7, 0));
        d.push((Suit::Club, 8, 0));
        d.push((Suit::Club, 9, 0));
        d.push((Suit::Club, 10, 10));
        d.push((Suit::Club, 11, 0));
        d.push((Suit::Club, 12, 0));
        d.push((Suit::Club, 13, 10));
        d.push((Suit::Club, 14, 10));
        d.push((Suit::Diamond, 4, 0));
        d.push((Suit::Diamond, 5, 10));
        d.push((Suit::Diamond, 6, 0));
        d.push((Suit::Diamond, 7, 0));
        d.push((Suit::Diamond, 8, 0));
        d.push((Suit::Diamond, 9, 0));
        d.push((Suit::Diamond, 10, 10));
        d.push((Suit::Diamond, 11, 0));
        d.push((Suit::Diamond, 12, 0));
        d.push((Suit::Diamond, 13, 10));
        d.push((Suit::Diamond, 14, 10));
        d.push((Suit::Heart, 4, 0));
        d.push((Suit::Heart, 5, 10));
        d.push((Suit::Heart, 6, 0));
        d.push((Suit::Heart, 7, 0));
        d.push((Suit::Heart, 8, 0));
        d.push((Suit::Heart, 9, 0));
        d.push((Suit::Heart, 10, 10));
        d.push((Suit::Heart, 11, 0));
        d.push((Suit::Heart, 12, 0));
        d.push((Suit::Heart, 13, 10));
        d.push((Suit::Heart, 14, 10));
        d.push((Suit::Spade, 4, 0));
        d.push((Suit::Spade, 5, 10));
        d.push((Suit::Spade, 6, 0));
        d.push((Suit::Spade, 7, 0));
        d.push((Suit::Spade, 8, 0));
        d.push((Suit::Spade, 9, 0));
        d.push((Suit::Spade, 10, 10));
        d.push((Suit::Spade, 11, 0));
        d.push((Suit::Spade, 12, 0));
        d.push((Suit::Spade, 13, 10));
        d.push((Suit::Spade, 14, 10));
        d.push((Suit::Joker, 15, 0));
        proof {
            assert(d@ == whiskey_3_6_deck());
            reveal_with_fuel(deck_points, 47);
        }
        GameOptions {
            players: 4,
            joker_kind: JokerKind::Trump,
            hand_size: 10,
            exchange_size: 3,
            exchange_face_up: 0,
            nest_size: 2,
            nest_face_up: 0,
            min_bid: 100,
            max_bid: 200,
            bid_increment: 10,
            bid_after_passing: false,
            discard_point_cards: DiscardedPointCards::OnlyWhenForced(true),
            nest_awarded: NestAwarded::ToLastTrickWinner,
            first_player: FirstPlayer::LeftOfDealer,
            last_trick_pts: 0,
            majority_of_tricks_pts: 0,
            majority_tricks_tie: MajorityTricksTie::ToDefenders,
            bidders_win: BiddersWin::PointsBid,
            bidders_lose: BiddersLose::Zero,
            defenders_win: DefendersWin::PointsTaken(0),
            defenders_lose: DefendersLose::PointsTaken,
            slam_bonus: 40,
            points_to_win_game: 400,
            cards_in_deck: d,
        }
    }

    /// Four players, ten cards each, an exchange of two and no nest; the deck holds 140
    /// points.
    pub fn whiskey_3_7() -> (r: Self)
        ensures
            r.players == 4,
            r.joker_kind == JokerKind::Trump,
            r.hand_size == 10,
            r.exchange_size == 2,
            r.exchange_face_up == 0,
            r.nest_size == 0,
            r.nest_face_up == 0,
            r.min_bid == 80,
            r.max_bid == 150,
            r.bid_increment == 5,
            r.bid_after_passing == false,
            r.discard_point_cards == DiscardedPointCards::Allowed(false),
            r.nest_awarded == NestAwarded::ToLastTrickWinner,
            r.first_player == FirstPlayer::LeftOfBidder,
            r.last_trick_pts == 0,
            r.majority_of_tricks_pts == 0,
            r.majority_tricks_tie == MajorityTricksTie::ToDefenders,
            r.bidders_win == BiddersWin::PointsBid,
            r.bidders_lose == BiddersLose::Zero,
            r.defenders_win == DefendersWin::PointsTaken(0),
            r.defenders_lose == DefendersLose::PointsTaken,
            r.slam_bonus == 50,
            r.points_to_win_game == 400,
            r.cards_in_deck@ == whiskey_3_7_deck(),
            deck_points(r.cards_in_deck@) == 140,
    {
        let mut d: Vec<(Suit, Rank, Points)> = Vec::new();
        d.push((Suit::Club, 5, 5));
        d.push((Suit::Club, 6, 0));
        d.push((Suit::Club, 7, 0));
        d.push((Suit::Club, 8, 0));
        d.push((Suit::Club, 9, 0));
        d.push((Suit::Club, 10, 10));
        d.push((Suit::Club, 11, 0));
        d.push((Suit::Club, 12, 0));
        d.push((Suit::Club, 13, 10));
        d.push((Suit::Club, 14, 10));
        d.push((Suit::Diamond, 5, 5));
        d.push((Suit::Diamond, 6, 0));
        d.push((Suit::Diamond, 7, 0));
        d.push((Suit::Diamond, 8, 0));
        d.push((Suit::Diamond, 9, 0));
        d.push((Suit::Diamond, 10, 10));
        d.push((Suit::Diamond, 11, 0));
        d.push((Suit::Diamond, 12, 0));
        d.push((Suit::Diamond, 13, 10));
        d.push((Suit::Diamond, 14, 10));
        d.push((Suit::Heart, 5, 5));
        d.push((Suit::Heart, 6, 0));
        d.push((Suit::Heart, 7, 0));
        d.push((Suit::Heart, 8, 0));
        d.push((Suit::Heart, 9, 0));
        d.push((Suit::Heart, 10, 10));
        d.push((Suit::Heart, 11, 0));
        d.push((Suit::Heart, 12, 0));
        d.push((Suit::Heart, 13, 10));
        d.push((Suit::Heart, 14, 10));
        d.push((Suit::Spade, 5, 5));
        d.push((Suit::Spade, 6, 0));
        d.push((Suit::Spade, 7, 0));
        d.push((Suit::Spade, 8, 0));
        d.push((Suit::Spade, 9, 0));
        d.push((Suit::Spade, 10, 10));
        d.push((Suit::Spade, 11, 0));
        d.push((Suit::Spade, 12, 0));
        d.push((Suit::Spade, 13, 10));
        d.push((Suit::Spade, 14, 10));
        d.push((Suit::Joker, 15, 0));
        d.push((Suit::Joker, 15, 0));
        proof {
            assert(d@ == whiskey_3_7_deck());
            reveal_with_fuel(deck_points, 44);
        }
        GameOptions {
            players: 4,
            joker_kind: JokerKind::Trump,
            hand_size: 10,
            exchange_size: 2,
            exchange_face_up: 0,
            nest_size: 0,
            nest_face_up: 0,
            min_bid: 80,
            max_bid: 150,
            bid_increment: 5,
            bid_after_passing: false,
            discard_point_cards: DiscardedPointCards::Allowed(false),
            nest_awarded: NestAwarded::ToLastTrickWinner,
            first_player: FirstPlayer::LeftOfBidder,
            last_trick_pts: 0,
            majority_of_tricks_pts: 0,
            majority_tricks_tie: MajorityTricksTie::ToDefenders,
            bidders_win: BiddersWin::PointsBid,
            bidders_lose: BiddersLose::Zero,
            defenders_win: DefendersWin::PointsTaken(0),
            defenders_lose: DefendersLose::PointsTaken,
            slam_bonus: 50,
            points_to_win_game: 400,
            cards_in_deck: d,
        }
    }

    /// Kentucky Discard, with the joker as the low trump: four players, nine cards
    /// each, an exchange of five; the deck holds 120 points.
    pub fn kentucky_discard() -> (r: Self)
        ensures
            r.players == 4,
            r.joker_kind == JokerKind::Trump,
            r.hand_size == 9,
            r.exchange_size == 5,
            r.exchange_face_up == 0,
            r.nest_size == 0,
            r.nest_face_up == 0,
            r.min_bid == 60,
            r.max_bid == 120,
            r.bid_increment == 5,
            r.bid_after_passing == false,
            r.discard_point_cards == DiscardedPointCards::Allowed(false),
            r.nest_awarded == NestAwarded::ToLastTrickWinner,
            r.first_player == FirstPlayer::LeftOfBidder,
            r.last_trick_pts == 0,
            r.majority_of_tricks_pts == 0,
            r.majority_tricks_tie == MajorityTricksTie::NoPoints,
            r.bidders_win == BiddersWin::PointsTaken,
            r.bidders_lose == BiddersLose::MinusBid,
            r.defenders_win == DefendersWin::PointsTaken(0),
            r.defenders_lose == DefendersLose::PointsTaken,
            r.slam_bonus == 0,
            r.points_to_win_game == 200,
            r.cards_in_deck@ == kentucky_discard_deck(),
            deck_points(r.cards_in_deck@) == 120,
    {
        let mut d: Vec<(Suit, Rank, Points)> = Vec::new();
        d.push((Suit::Club, 5, 5));
        d.push((Suit::Club, 6, 0));
        d.push((Suit::Club, 7, 0));
        d.push((Suit::Club, 8, 0));
        d.push((Suit::Club, 9, 0));
        d.push((Suit::Club, 10, 10));
        d.push((Suit::Club, 11, 0));
        d.push((Suit::Club, 12, 0));
        d.push((Suit::Club, 13, 0));
        d.push((Suit::Club, 14, 10));
        d.push((Suit::Diamond, 5, 5));
        d.push((Suit::Diamond, 6, 0));
        d.push((Suit::Diamond, 7, 0));
        d.push((Suit::Diamond, 8, 0));
        d.push((Suit::Diamond, 9, 0));
        d.push((Suit::Diamond, 10, 10));
        d.push((Suit::Diamond, 11, 0));
        d.push((Suit::Diamond, 12, 0));
        d.push((Suit::Diamond, 13, 0));
        d.push((Suit::Diamond, 14, 10));
        d.push((Suit::Heart, 5, 5));
        d.push((Suit::Heart, 6, 0));
        d.push((Suit::Heart, 7, 0));
        d.push((Suit::Heart, 8, 0));
        d.push((Suit::Heart, 9, 0));
        d.push((Suit::Heart, 10, 10));
        d.push((Suit::Heart, 11, 0));
        d.push((Suit::Heart, 12, 0));
        d.push((Suit::Heart, 13, 0));
        d.push((Suit::Heart, 14, 10));
        d.push((Suit::Spade, 5, 5));
        d.push((Suit::Spade, 6, 0));
        d.push((Suit::Spade, 7, 0));
        d.push((Suit::Spade, 8, 0));
        d.push((Suit::Spade, 9, 0));
        d.push((Suit::Spade, 10, 10));
        d.push((Suit::Spade, 11, 0));
        d.push((Suit::Spade, 12, 0));
        d.push((Suit::Spade, 13, 0));
        d.push((Suit::Spade, 14, 10));
        d.push((Suit::Joker, 1, 20));
        proof {
            assert(d@ == kentucky_discard_deck());
            reveal_with_fuel(deck_points, 43);
        }
        GameOptions {
            players: 4,
            joker_kind: JokerKind::Trump,
            hand_size: 9,
            exchange_size: 5,
            exchange_face_up: 0,
            nest_size: 0,
            nest_face_up: 0,
            min_bid: 60,
            max_bid: 120,
            bid_increment: 5,
            bid_after_passing: false,
            discard_point_cards: DiscardedPointCards::Allowed(false),
            nest_awarded: NestAwarded::ToLastTrickWinner,
            first_player: FirstPlayer::LeftOfBidder,
            last_trick_pts: 0,
            majority_of_tricks_pts: 0,
            majority_tricks_tie: MajorityTricksTie::NoPoints,
            bidders_win: BiddersWin::PointsTaken,
            bidders_lose: BiddersLose::MinusBid,
            defenders_win: DefendersWin::PointsTaken(0),
            defenders_lose: DefendersLose::PointsTaken,
            slam_bonus: 0,
            points_to_win_game: 200,
            cards_in_deck: d,
        }
    }

    /// Two Hundred, changed from its base rules: discarded point cards are face up, the
    /// last trick's winner takes the nest points, and a failed bid scores 0 instead of
    /// minus the bid. Four players, nine cards each, an exchange of four; the deck
    /// holds 100 points.
    pub fn two_hundred() -> (r: Self)
        ensures
            r.players == 4,
            r.joker_kind == JokerKind::Trump,
            r.hand_size == 9,
            r.exchange_size == 4,
            r.exchange_face_up == 0,
            r.nest_size == 0,
            r.nest_face_up == 0,
            r.min_bid == 50,
            r.max_bid == 100,
            r.bid_increment == 5,
            r.bid_after_passing == false,
            r.discard_point_cards == DiscardedPointCards::Allowed(true),
            r.nest_awarded == NestAwarded::ToLastTrickWinner,
            r.first_player == FirstPlayer::Bidder,
            r.last_trick_pts == 0,
            r.majority_of_tricks_pts == 0,
            r.majority_tricks_tie == MajorityTricksTie::NoPoints,
            r.bidders_win == BiddersWin::PointsTaken,
            r.bidders_lose == BiddersLose::Zero,
            r.defenders_win == DefendersWin::PointsTaken(0),
            r.defenders_lose == DefendersLose::PointsTaken,
            r.slam_bonus == 0,
            r.points_to_win_game == 200,
            r.cards_in_deck@ == two_hundred_deck(),
            deck_points(r.cards_in_deck@) == 100,
    {
        let mut d: Vec<(Suit, Rank, Points)> = Vec::new();
        d.push((Suit::Club, 5, 5));
        d.push((Suit::Club, 6, 0));
        d.push((Suit::Club, 7, 0));
        d.push((Suit::Club, 8, 0));
        d.push((Suit::Club, 9, 0));
        d.push((Suit::Club, 10, 10));
        d.push((Suit::Club, 11, 0));
        d.push((Suit::Club, 12, 0));
        d.push((Suit::Club, 13, 0));
        d.push((Suit::Club, 14, 10));
        d.push((Suit::Diamond, 5, 5));
        d.push((Suit::Diamond, 6, 0));
        d.push((Suit::Diamond, 7, 0));
        d.push((Suit::Diamond, 8, 0));
        d.push((Suit::Diamond, 9, 0));
        d.push((Suit::Diamond, 10, 10));
        d.push((Suit::Diamond, 11, 0));
        d.push((Suit::Diamond, 12, 0));
        d.push((Suit::Diamond, 13, 0));
        d.push((Suit::Diamond, 14, 10));
        d.push((Suit::Heart, 5, 5));
        d.push((Suit::Heart, 6, 0));
        d.push((Suit::Heart, 7, 0));
        d.push((Suit::Heart, 8, 0));
        d.push((Suit::Heart, 9, 0));
        d.push((Suit::Heart, 10, 10));
        d.push((Suit::Heart, 11, 0));
        d.push((Suit::Heart, 12, 0));
        d.push((Suit::Heart, 13, 0));
        d.push((Suit::Heart, 14, 10));
        d.push((Suit::Spade, 5, 5));
        d.push((Suit::Spade, 6, 0));
        d.push((Suit::Spade, 7, 0));
        d.push((Suit::Spade, 8, 0));
        d.push((Suit::Spade, 9, 0));
        d.push((Suit::Spade, 10, 10));
        d.push((Suit::Spade, 11, 0));
        d.push((Suit::Spade, 12, 0));
        d.push((Suit::Spade, 13, 0));
        d.push((Suit::Spade, 14, 10));
        proof {
            assert(d@ == two_hundred_deck());
            reveal_with_fuel(deck_points, 42);
        }
        GameOptions {
            players: 4,
            joker_kind: JokerKind::Trump,
            hand_size: 9,
            exchange_size: 4,
            exchange_face_up: 0,
            nest_size: 0,
            nest_face_up: 0,
            min_bid: 50,
            max_bid: 100,
            bid_increment: 5,
            bid_after_passing: false,
            discard_point_cards: DiscardedPointCards::Allowed(true),
            nest_awarded: NestAwarded::ToLastTrickWinner,
            first_player: FirstPlayer::Bidder,
            last_trick_pts: 0,
            majority_of_tricks_pts: 0,
            majority_tricks_tie: MajorityTricksTie::NoPoints,
            bidders_win: BiddersWin::PointsTaken,
            bidders_lose: BiddersLose::Zero,
            defenders_win: DefendersWin::PointsTaken(0),
            defenders_lose: DefendersLose::PointsTaken,
            slam_bonus: 0,
            points_to_win_game: 200,
            cards_in_deck: d,
        }
    }
}

} // verus!
