use whiskey::scoring::Scoring;

#[test]
fn new_scoring_is_zero() {
    let s = Scoring::new();
    assert_eq!(s.bid, [0, 0]);
    assert_eq!(s.points_taken, [0, 0]);
    assert_eq!(s.trick_count, [0, 0]);
    assert_eq!(s.game, [0, 0]);
    assert_eq!(s.hand_final, [0, 0]);
}

#[test]
fn next_hand_keeps_only_game_scores() {
    let mut s = Scoring::new();
    s.game = [120, -65];
    s.points_taken = [40, 90];
    s.bid = [0, 70];
    s.trick_count = [3, 6];
    let n = s.new_for_next_hand();
    assert_eq!(n.game, [120, -65]);
    assert_eq!(n.points_taken, [0, 0]);
    assert_eq!(n.bid, [0, 0]);
    assert_eq!(n.trick_count, [0, 0]);
}

#[test]
fn update_bids_sets_one_team() {
    let mut s = Scoring::new();
    s.update_bids(1, 85);
    assert_eq!(s.bid, [0, 85]);
    s.update_bids(0, 90);
    assert_eq!(s.bid, [90, 0]);
}

#[test]
fn subtotals_add_the_parts() {
    let mut s = Scoring::new();
    s.points_taken = [40, 60];
    s.nest = [15, 0];
    s.last_trick = [0, 5];
    s.majority_bonus = [10, 0];
    s.update_hand_subtotals();
    assert_eq!(s.hand_subtotal, [65, 65]);
}

#[test]
fn game_scores_add_hand_scores() {
    let mut s = Scoring::new();
    s.game = [100, 200];
    s.hand_final = [-70, 45];
    s.update_game_scores();
    assert_eq!(s.game, [30, 245]);
}
