use vstd::prelude::*;

use crate::card::Points;

verus! {

/// The score sheet of a hand, one entry per team, and the running game scores.
#[derive(Clone, Copy, Debug)]
pub struct Scoring {
    pub bid: [Points; 2],
    pub points_taken: [Points; 2],
    pub nest: [Points; 2],
    pub last_trick: [Points; 2],
    pub trick_count: [u8; 2],
    pub majority_bonus: [Points; 2],
    pub hand_subtotal: [Points; 2],
    pub bonus: [Points; 2],
    pub hand_final: [Points; 2],
    pub game: [Points; 2],
}

/// A pair of values, one per team.
pub open spec fn pair<T>(a: [T; 2]) -> (T, T) {
    (a[0], a[1])
}

/// The sum that makes up a team's hand subtotal.
pub open spec fn subtotal_of(s: Scoring, t: int) -> int {
    s.points_taken[t] + s.nest[t] + s.last_trick[t] + s.majority_bonus[t]
}

/// Whether every field of the sheet is zero.
pub open spec fn all_zero(s: Scoring) -> bool {
    &&& pair(s.bid) == (0isize, 0isize)
    &&& pair(s.points_taken) == (0isize, 0isize)
    &&& pair(s.nest) == (0isize, 0isize)
    &&& pair(s.last_trick) == (0isize, 0isize)
    &&& pair(s.trick_count) == (0u8, 0u8)
    &&& pair(s.majority_bonus) == (0isize, 0isize)
    &&& pair(s.hand_subtotal) == (0isize, 0isize)
    &&& pair(s.bonus) == (0isize, 0isize)
    &&& pair(s.hand_final) == (0isize, 0isize)
    &&& pair(s.game) == (0isize, 0isize)
}

impl Scoring {
    /// A sheet of zeros.
    pub fn new() -> (s: Self)
        ensures
            all_zero(s),
    {
        Scoring {
            bid: [0, 0],
            points_taken: [0, 0],
            nest: [0, 0],
            last_trick: [0, 0],
            trick_count: [0, 0],
            majority_bonus: [0, 0],
            hand_subtotal: [0, 0],
            bonus: [0, 0],
            hand_final: [0, 0],
            game: [0, 0],
        }
    }

    /// A fresh sheet that keeps this sheet's game scores.
    pub fn new_for_next_hand(&self) -> (s: Self)
        ensures
            all_zero(Scoring { game: [0, 0], ..s }),
            pair(s.game) == pair(self.game),
    {
        let mut new_scoring = Scoring::new();
        new_scoring.game = [self.game[0], self.game[1]];
        new_scoring
    }

    /// Records `points` as the bid of `team` and zero as the other team's bid.
    pub fn update_bids(&mut self, team: usize, points: Points)
        ensures
            final(self).bid[0] == (if team == 0 { points } else { 0 }),
            final(self).bid[1] == (if team == 1 { points } else { 0 }),
            *final(self) == (Scoring { bid: final(self).bid, ..*old(self) }),
    {
        let b0: Points = if team == 0 { points } else { 0 };
        let b1: Points = if team == 1 { points } else { 0 };
        self.bid = [b0, b1];
    }

    /// Sets each team's subtotal to its points taken, nest, last trick and majority bonus.
    pub fn update_hand_subtotals(&mut self)
        requires
            forall|t: int| 0 <= t < 2 ==> isize::MIN <= #[trigger] subtotal_of(*old(self), t) <= isize::MAX,
        ensures
            final(self).hand_subtotal[0] == subtotal_of(*old(self), 0),
            final(self).hand_subtotal[1] == subtotal_of(*old(self), 1),
            *final(self) == (Scoring { hand_subtotal: final(self).hand_subtotal, ..*old(self) }),
    {
        assert(isize::MIN <= subtotal_of(*self, 0) <= isize::MAX);
        assert(isize::MIN <= subtotal_of(*self, 1) <= isize::MAX);
        let s0 = self.points_taken[0] as i128 + self.nest[0] as i128 + self.last_trick[0] as i128
            + self.majority_bonus[0] as i128;
        let s1 = self.points_taken[1] as i128 + self.nest[1] as i128 + self.last_trick[1] as i128
            + self.majority_bonus[1] as i128;
        self.hand_subtotal = [s0 as isize, s1 as isize];
    }

    /// Adds each team's final hand score to its game score.
    pub fn update_game_scores(&mut self)
        requires
            forall|t: int| 0 <= t < 2 ==> isize::MIN <= #[trigger] old(self).game[t] + old(self).hand_final[t] <= isize::MAX,
        ensures
            final(self).game[0] == old(self).game[0] + old(self).hand_final[0],
            final(self).game[1] == old(self).game[1] + old(self).hand_final[1],
            *final(self) == (Scoring { game: final(self).game, ..*old(self) }),
    {
        assert(isize::MIN <= self.game[0] + self.hand_final[0] <= isize::MAX);
        assert(isize::MIN <= self.game[1] + self.hand_final[1] <= isize::MAX);
        self.game = [self.game[0] + self.hand_final[0], self.game[1] + self.hand_final[1]];
    }
}

} // verus!
