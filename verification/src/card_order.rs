//! Equality and order of cards: two cards are equal when they have the same suit and
//! rank, and cards are ordered by their place in a sorted hand.
use vstd::prelude::*;
use vstd::std_specs::cmp::{PartialEqSpecImpl, PartialOrdSpecImpl};
use std::cmp::Ordering;

use crate::card::{order_key, Card};
use crate::hand::key_of;

verus! {

impl PartialEq for Card {
    fn eq(&self, other: &Self) -> (r: bool) {
        self.suit == other.suit && self.rank == other.rank
    }
}

impl Eq for Card {
}

impl PartialEqSpecImpl for Card {
    open spec fn obeys_eq_spec() -> bool {
        true
    }

    open spec fn eq_spec(&self, other: &Self) -> bool {
        self.suit == other.suit && self.rank == other.rank
    }
}

impl PartialOrd for Card {
    fn partial_cmp(&self, other: &Self) -> (r: Option<Ordering>) {
        let a = key_of(self);
        let b = key_of(other);
        if a < b {
            Some(Ordering::Less)
        } else if a == b {
            Some(Ordering::Equal)
        } else {
            Some(Ordering::Greater)
        }
    }
}

impl PartialOrdSpecImpl for Card {
    open spec fn obeys_partial_cmp_spec() -> bool {
        true
    }

    open spec fn partial_cmp_spec(&self, other: &Self) -> Option<Ordering> {
        if order_key(*self) < order_key(*other) {
            Some(Ordering::Less)
        } else if order_key(*self) == order_key(*other) {
            Some(Ordering::Equal)
        } else {
            Some(Ordering::Greater)
        }
    }
}

} // verus!
