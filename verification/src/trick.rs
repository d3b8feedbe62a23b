use vstd::prelude::*;

use crate::card::{Card, Points, Rank, Suit};
use crate::game_options::JokerKind;

verus! {

/// The trick being played: one slot per player.
#[derive(Clone, Debug)]
pub struct Trick {
    pub cards: Vec<Option<Card>>,
    pub lead_suit: Option<Suit>,
    pub winner: Option<usize>,
    pub winning_suit: Option<Suit>,
    pub winning_rank: Rank,
    pub points: Points,
}

/// Whether a card of `suit` and `rank` takes the lead from the winning card, given the
/// trump suit. A trump beats a non-trump; within the winning suit a higher rank wins,
/// and a trump of equal rank to a winning trump wins too.
pub open spec fn beats(suit: Suit, rank: Rank, winning_suit: Suit, winning_rank: Rank, trump: Option<Suit>) -> bool {
    match trump {
        Some(t) => if winning_suit == t && suit == t {
            rank >= winning_rank
        } else if suit == t {
            true
        } else {
            suit == winning_suit && rank > winning_rank
        },
        None => suit == winning_suit && rank > winning_rank,
    }
}

/// Whether the card is a joker that takes the lead under the phoenix rule.
pub open spec fn is_phoenix(card: Card, joker_kind: JokerKind) -> bool {
    joker_kind == JokerKind::Phoenix && card.suit == Suit::Joker
}

impl Trick {
    /// A lead suit always comes with a winning suit.
    pub open spec fn wf(&self) -> bool {
        self.lead_suit.is_some() ==> self.winning_suit.is_some()
    }

    /// Whether every player has played to the trick.
    pub open spec fn is_complete(&self) -> bool {
        forall|i: int| 0 <= i < self.cards@.len() ==> (#[trigger] self.cards@[i]).is_some()
    }

    /// Whether no player has played to the trick.
    pub open spec fn is_empty(&self) -> bool {
        forall|i: int| 0 <= i < self.cards@.len() ==> (#[trigger] self.cards@[i]).is_none()
    }

    /// Whether the trick has been reset: no cards, no lead, no winner, no points.
    pub open spec fn is_cleared(&self) -> bool {
        &&& self.is_empty()
        &&& self.lead_suit.is_none()
        &&& self.winner.is_none()
        &&& self.winning_suit.is_none()
        &&& self.winning_rank == 0
        &&& self.points == 0
    }

    /// Whether `next` is this trick after `player` plays `card`: the card fills the
    /// player's slot and adds its points. The first card leads (a phoenix joker leads
    /// without setting a lead suit); a later phoenix joker takes the trick without
    /// changing the winning suit and rank; any other card takes it when it `beats` the
    /// winning card.
    pub open spec fn added(&self, next: Trick, player: usize, card: Card, trump: Option<Suit>, joker_kind: JokerKind) -> bool {
        let takes = self.lead_suit.is_none() || is_phoenix(card, joker_kind)
            || beats(card.suit, card.rank, self.winning_suit->0, self.winning_rank, trump);
        let sets_winning = !is_phoenix(card, joker_kind) && (self.lead_suit.is_none()
            || beats(card.suit, card.rank, self.winning_suit->0, self.winning_rank, trump));
        &&& next.wf()
        &&& next.cards@ == self.cards@.update(player as int, Some(card))
        &&& next.points == self.points + card.points
        &&& next.winner == (if takes { Some(player) } else { self.winner })
        &&& next.lead_suit == (if self.lead_suit.is_none() && !is_phoenix(card, joker_kind) {
            Some(card.suit)
        } else {
            self.lead_suit
        })
        &&& next.winning_suit == (if sets_winning { Some(card.suit) } else { self.winning_suit })
        &&& next.winning_rank == (if sets_winning { card.rank } else { self.winning_rank })
    }

    /// An empty trick for `player_count` players.
    pub fn new(player_count: usize) -> (t: Self)
        ensures
            t.cards@.len() == player_count,
            t.is_cleared(),
            t.wf(),
    {
        let mut cards: Vec<Option<Card>> = Vec::new();
        for i in 0..player_count
            invariant
                cards@.len() == i,
                forall|j: int| 0 <= j < i ==> (#[trigger] cards@[j]).is_none(),
        {
            cards.push(None);
        }
        Trick { cards, lead_suit: None, winner: None, winning_suit: None, winning_rank: 0, points: 0 }
    }

    /// Empties the trick, keeping its number of slots.
    pub fn reset(&mut self)
        ensures
            final(self).cards@.len() == old(self).cards@.len(),
            final(self).is_cleared(),
            final(self).wf(),
    {
        let n = self.cards.len();
        let mut cards: Vec<Option<Card>> = Vec::new();
        for i in 0..n
            invariant
                cards@.len() == i,
                forall|j: int| 0 <= j < i ==> (#[trigger] cards@[j]).is_none(),
        {
            cards.push(None);
        }
        self.cards = cards;
        self.lead_suit = None;
        self.winner = None;
        self.winning_suit = None;
        self.winning_rank = 0;
        self.points = 0;
    }

    /// Plays `card` for `player`. The first card leads (a phoenix joker leads without
    /// setting a lead suit); a later phoenix joker takes the trick without changing the
    /// winning suit and rank; any other card takes it when it `beats` the winning card.
    pub fn add(&mut self, player: usize, card: Card, trump_suit: &Option<Suit>, joker_kind: JokerKind)
        requires
            old(self).wf(),
            player < old(self).cards@.len(),
            isize::MIN <= old(self).points + card.points <= isize::MAX,
        ensures
            old(self).added(*final(self), player, card, *trump_suit, joker_kind),
    {
        self.points = self.points + card.points;
        let card_suit = card.suit;
        let card_rank = card.rank;
        self.cards.set(player, Some(card));

        if self.lead_suit.is_none() {
            self.winner = Some(player);
            if joker_kind == JokerKind::Phoenix && card_suit == Suit::Joker {
                return;
            }
            self.lead_suit = Some(card_suit);
            self.winning_suit = Some(card_suit);
            self.winning_rank = card_rank;
            return;
        }
        let winning_suit = self.winning_suit.unwrap();

        if joker_kind == JokerKind::Phoenix && card_suit == Suit::Joker {
            self.winner = Some(player);
            return;
        }

        let mut new_winner = false;

        if let Some(trump_suit) = trump_suit {
            if winning_suit == *trump_suit && card_suit == *trump_suit {
                if card_rank >= self.winning_rank {
                    new_winner = true;
                }
            } else {
                if card_suit == *trump_suit {
                    new_winner = true;
                } else {
                    if card_suit == winning_suit && card_rank > self.winning_rank {
                        new_winner = true;
                    }
                }
            }
        } else {
            if card_suit == winning_suit && card_rank > self.winning_rank {
                new_winner = true;
            }
        }

        if new_winner {
            self.winner = Some(player);
            self.winning_suit = Some(card_suit);
            self.winning_rank = card_rank;
        }
    }

    /// Whether every player has played to the trick.
    pub fn completed(&self) -> (r: bool)
        ensures
            r == self.is_complete(),
    {
        let n = self.cards.len();
        for i in 0..n
            invariant
                n == self.cards@.len(),
                forall|j: int| 0 <= j < i ==> (#[trigger] self.cards@[j]).is_some(),
        {
            if self.cards[i].is_none() {
                return false;
            }
        }
        true
    }
}

} // verus!
