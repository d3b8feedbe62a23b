use vstd::prelude::*;
use vstd::string::StringExecFns;

verus! {

/// The suits of the deck. The joker has a suit of its own until a trump suit is named.
#[derive(Copy, Clone, Debug, PartialEq, Eq, Hash, Structural)]
pub enum Suit {
    Club,
    Diamond,
    Heart,
    Spade,
    Joker,
}

pub type Id = u8;

pub type Rank = u8;

pub type Points = isize;

/// A playing card.
#[derive(Copy, Clone, Debug)]
pub struct Card {
    pub id: Id,
    pub suit: Suit,
    pub rank: Rank,
    /// Remembers that a card is a joker when its suit is changed to trump.
    pub is_joker: bool,
    pub points: Points,
    pub face_up: bool,
    /// Whether the card may be discarded or played to a trick.
    pub eligible: bool,
}

/// The offset that a suit adds to a card's rank to give its place in a sorted hand.
pub open spec fn suit_offset(suit: Suit) -> int {
    match suit {
        Suit::Club => 0,
        Suit::Diamond => 20,
        Suit::Heart => 40,
        Suit::Spade => 60,
        Suit::Joker => 80,
    }
}

/// A card's place in a sorted hand: its rank plus the offset of its suit.
pub open spec fn order_key(c: Card) -> int {
    c.rank + suit_offset(c.suit)
}

/// The character of a decimal digit.
pub open spec fn digit_char(d: int) -> char {
    if d == 0 { '0' }
    else if d == 1 { '1' }
    else if d == 2 { '2' }
    else if d == 3 { '3' }
    else if d == 4 { '4' }
    else if d == 5 { '5' }
    else if d == 6 { '6' }
    else if d == 7 { '7' }
    else if d == 8 { '8' }
    else { '9' }
}

/// The decimal representation of a natural number, without leading zeros.
pub open spec fn decimal(n: nat) -> Seq<char>
    decreases n,
{
    if n < 10 {
        seq![digit_char(n as int)]
    } else {
        decimal(n / 10) + seq![digit_char((n % 10) as int)]
    }
}

/// How a rank is written: J, Q, K and A for 11 to 14, otherwise the number.
pub open spec fn rank_text(rank: Rank) -> Seq<char> {
    if rank == 11 {
        seq!['J']
    } else if rank == 12 {
        seq!['Q']
    } else if rank == 13 {
        seq!['K']
    } else if rank == 14 {
        seq!['A']
    } else {
        decimal(rank as nat)
    }
}

/// The name of the image file of a card, without extension.
pub open spec fn file_text(suit: Suit, rank: Rank) -> Seq<char> {
    match suit {
        Suit::Club => seq!['c', 'l', 'b'] + rank_text(rank),
        Suit::Diamond => seq!['d', 'i', 'a'] + rank_text(rank),
        Suit::Heart => seq!['h', 'r', 't'] + rank_text(rank),
        Suit::Spade => seq!['s', 'p', 'd'] + rank_text(rank),
        Suit::Joker => seq!['j', 'o', 'k', 'e', 'r'],
    }
}

/// How a card is shown in text: its rank and a suit symbol, or `,Jkr` for a joker.
pub open spec fn display_text(suit: Suit, rank: Rank) -> Seq<char> {
    match suit {
        Suit::Spade => rank_text(rank) + seq!['\u{2664}'],
        Suit::Club => rank_text(rank) + seq!['\u{2667}'],
        Suit::Diamond => rank_text(rank) + seq!['\u{2666}', '\u{fe0f}'],
        Suit::Heart => rank_text(rank) + seq!['\u{2665}', '\u{fe0f}'],
        Suit::Joker => rank_text(rank) + seq![',', 'J', 'k', 'r'],
    }
}

/// Appends the digit `d` to `s`.
fn push_digit(s: &mut String, d: u8)
    requires
        d < 10,
    ensures
        final(s)@ == old(s)@ + seq![digit_char(d as int)],
{
    proof {
        reveal_strlit("0");
        reveal_strlit("1");
        reveal_strlit("2");
        reveal_strlit("3");
        reveal_strlit("4");
        reveal_strlit("5");
        reveal_strlit("6");
        reveal_strlit("7");
        reveal_strlit("8");
        reveal_strlit("9");
    }
    if d == 0 {
        s.append("0");
    } else if d == 1 {
        s.append("1");
    } else if d == 2 {
        s.append("2");
    } else if d == 3 {
        s.append("3");
    } else if d == 4 {
        s.append("4");
    } else if d == 5 {
        s.append("5");
    } else if d == 6 {
        s.append("6");
    } else if d == 7 {
        s.append("7");
    } else if d == 8 {
        s.append("8");
    } else {
        s.append("9");
    }
}

/// The decimal representation of `n`.
fn decimal_string(n: u8) -> (r: String)
    ensures
        r@ == decimal(n as nat),
{
    let mut s = String::new();
    if n >= 100 {
        push_digit(&mut s, n / 100);
        push_digit(&mut s, (n / 10) % 10);
        assert(s@ == decimal((n / 10) as nat)) by {
            assert(decimal((n / 100) as nat) == seq![digit_char((n / 100) as int)]);
            assert((n / 10) / 10 == n / 100);
        }
    } else if n >= 10 {
        push_digit(&mut s, n / 10);
        assert(s@ == decimal((n / 10) as nat));
    }
    push_digit(&mut s, n % 10);
    assert(n >= 10 ==> s@ == decimal((n / 10) as nat) + seq![digit_char((n % 10) as int)]);
    s
}

impl Card {
    /// A face-down, ineligible card; it is a joker exactly when its suit is the joker's.
    pub fn new(id: Id, suit: Suit, rank: Rank, points: Points) -> (c: Self)
        ensures
            c.id == id,
            c.suit == suit,
            c.rank == rank,
            c.points == points,
            c.is_joker == (suit == Suit::Joker),
            !c.face_up,
            !c.eligible,
    {
        let is_joker = match suit {
            Suit::Joker => true,
            _ => false,
        };
        Card { id, suit, rank, is_joker, points, face_up: false, eligible: false }
    }

    /// Whether the card belongs to the trump suit, when there is one.
    pub fn is_trump(&self, trump_suit: &Option<Suit>) -> (r: bool)
        ensures
            r == (*trump_suit == Some(self.suit)),
    {
        match trump_suit {
            Some(suit) => self.suit == *suit,
            None => false,
        }
    }

    /// The card's place in a sorted hand: its rank plus 0, 20, 40, 60 or 80 by suit.
    pub fn sort_order(&self) -> (r: u8)
        requires
            self.rank + suit_offset(self.suit) <= u8::MAX,
        ensures
            r == order_key(*self),
    {
        let offset: u8 = match self.suit {
            Suit::Club => 0,
            Suit::Diamond => 20,
            Suit::Heart => 40,
            Suit::Spade => 60,
            Suit::Joker => 80,
        };
        self.rank + offset
    }

    /// How the card's rank is written.
    pub fn rank_string(&self) -> (r: String)
        ensures
            r@ == rank_text(self.rank),
    {
        proof {
            reveal_strlit("J");
            reveal_strlit("Q");
            reveal_strlit("K");
            reveal_strlit("A");
        }
        if self.rank == 11 {
            String::from_str("J")
        } else if self.rank == 12 {
            String::from_str("Q")
        } else if self.rank == 13 {
            String::from_str("K")
        } else if self.rank == 14 {
            String::from_str("A")
        } else {
            decimal_string(self.rank)
        }
    }

    /// The card in text, as shown to a player.
    pub fn display_string(&self) -> (r: String)
        ensures
            r@ == display_text(self.suit, self.rank),
    {
        proof {
            reveal_strlit("\u{2664}");
            reveal_strlit("\u{2667}");
            reveal_strlit("\u{2666}\u{fe0f}");
            reveal_strlit("\u{2665}\u{fe0f}");
            reveal_strlit(",Jkr");
        }
        let rank = self.rank_string();
        match self.suit {
            Suit::Spade => rank.concat("\u{2664}"),
            Suit::Club => rank.concat("\u{2667}"),
            Suit::Diamond => rank.concat("\u{2666}\u{fe0f}"),
            Suit::Heart => rank.concat("\u{2665}\u{fe0f}"),
            Suit::Joker => rank.concat(",Jkr"),
        }
    }

    /// The name of the card's image file, without extension.
    pub fn file_string(&self) -> (r: String)
        ensures
            r@ == file_text(self.suit, self.rank),
    {
        proof {
            reveal_strlit("clb");
            reveal_strlit("dia");
            reveal_strlit("hrt");
            reveal_strlit("spd");
            reveal_strlit("joker");
        }
        match self.suit {
            Suit::Club => String::from_str("clb").concat(self.rank_string().as_str()),
            Suit::Diamond => String::from_str("dia").concat(self.rank_string().as_str()),
            Suit::Heart => String::from_str("hrt").concat(self.rank_string().as_str()),
            Suit::Spade => String::from_str("spd").concat(self.rank_string().as_str()),
            Suit::Joker => String::from_str("joker"),
        }
    }
}

} // verus!
