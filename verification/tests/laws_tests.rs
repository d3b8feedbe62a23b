use whiskey::card::{Card, Suit};
use whiskey::controller::{action_for, step, step_allowed_check, BotRequest, GameAction};
use whiskey::game::{Bid, Game, PlayerAction};
use whiskey::game_options::{DiscardedPointCards, GameOptions, JokerKind};
use whiskey::trick::Trick;

fn card(id: u8, suit: Suit, rank: u8, points: isize) -> Card {
    Card::new(id, suit, rank, points)
}

#[test]
fn trick_winner_has_always_played() {
    let mut t = Trick::new(4);
    let plays = [
        (1, card(1, Suit::Joker, 0, 15)),
        (2, card(2, Suit::Club, 9, 0)),
        (3, card(3, Suit::Club, 14, 10)),
        (0, card(4, Suit::Heart, 5, 5)),
    ];
    let mut total = 0;
    for (p, c) in plays {
        total += c.points;
        t.add(p, c, &Some(Suit::Heart), JokerKind::Phoenix);
        let w = t.winner.unwrap();
        assert!(t.cards[w].is_some());
        assert_eq!(t.points, total);
    }
    assert_eq!(t.winner, Some(0));
    assert_eq!(t.lead_suit, Some(Suit::Club));
}

#[test]
fn lead_suit_stays_once_set() {
    let mut t = Trick::new(3);
    t.add(0, card(1, Suit::Diamond, 9, 0), &Some(Suit::Spade), JokerKind::Trump);
    t.add(1, card(2, Suit::Spade, 9, 0), &Some(Suit::Spade), JokerKind::Trump);
    t.add(2, card(3, Suit::Club, 14, 10), &Some(Suit::Spade), JokerKind::Trump);
    assert_eq!(t.lead_suit, Some(Suit::Diamond));
    assert_eq!(t.winner, Some(1));
}

#[test]
fn enough_discards_are_always_marked() {
    let mut g = Game::with_dealer(GameOptions::whiskey_4_plus(), 0);
    g.maker = Some(0);
    g.options.discard_point_cards = DiscardedPointCards::OnlyWhenForced(true);
    g.hands[0] = vec![
        card(1, Suit::Club, 10, 10),
        card(2, Suit::Club, 5, 5),
        card(3, Suit::Heart, 14, 10),
        card(4, Suit::Heart, 2, 20),
        card(5, Suit::Spade, 7, 0),
    ];
    g.mark_eligible_discards();
    let eligible = g.hands[0].iter().filter(|c| c.eligible).count();
    assert!(eligible >= g.options.exchange_size);
    assert!(!g.hands[0][3].eligible);
}

#[test]
fn least_bid_rises_by_the_increment() {
    let mut g = Game::with_dealer(GameOptions::whiskey_4(), 0);
    g.active = 2;
    g.make_bid(Bid::Points(90));
    assert_eq!(g.maker, Some(2));
    assert_eq!(g.min_current_bid(), 95);
}

#[test]
fn a_card_can_always_be_played() {
    let mut g = Game::with_dealer(GameOptions::whiskey_4(), 0);
    g.hands[0] = vec![card(1, Suit::Club, 7, 0), card(2, Suit::Diamond, 9, 0)];
    g.trick.add(3, card(3, Suit::Heart, 8, 0), &None, JokerKind::Phoenix);
    assert_eq!(g.get_playable_card_ids(), vec![1, 2]);
    g.hands[0].push(card(4, Suit::Heart, 10, 10));
    assert_eq!(g.get_playable_card_ids(), vec![4]);
}

#[test]
fn a_step_keeps_the_player_lists() {
    let mut g = Game::with_dealer(GameOptions::whiskey_4(), 0);
    step(&mut g, &GameAction::Setup);
    step(&mut g, &GameAction::ResetForNewHand);
    assert_eq!(g.hands.len(), 4);
    assert_eq!(g.bids.len(), 4);
    assert_eq!(g.taken.len(), 4);
    assert!(g.active < 4 && g.dealer < 4);
}

#[test]
fn players_sit_in_alternating_teams() {
    let g = Game::with_dealer(GameOptions::whiskey_4(), 0);
    for p in 0..8 {
        assert_ne!(g.team_index(p), g.team_index(p + 1));
        assert_eq!(g.team_index(p), g.team_index(p + 2));
        assert_eq!(g.opponent_index(p), g.team_index(p + 1));
    }
}

fn all_ids(g: &Game) -> Vec<u8> {
    let mut v: Vec<u8> = Vec::new();
    v.extend(g.deck.iter().map(|c| c.id));
    v.extend(g.exchange.iter().map(|c| c.id));
    v.extend(g.nest.iter().map(|c| c.id));
    for h in g.hands.iter().chain(g.taken.iter()) {
        v.extend(h.iter().map(|c| c.id));
    }
    v.extend(g.trick.cards.iter().flatten().map(|c| c.id));
    v.sort();
    v
}

fn first_eligible(cards: &[Card]) -> u8 {
    cards.iter().find(|c| c.eligible).map(|c| c.id).unwrap()
}

#[test]
fn no_step_loses_or_makes_up_a_card() {
    let bot = whiskey::bot_monte::BotMonte::new();
    let mut g = Game::with_dealer(GameOptions::whiskey_4(), 1);
    let mut next = Some(GameAction::Setup);
    let mut steps = 0;
    while let Some(action) = next.take() {
        steps += 1;
        assert!(steps < 5000);
        assert!(step_allowed_check(&g, &action));
        let s = step(&mut g, &action);
        assert_eq!(all_ids(&g), (0..38).collect::<Vec<u8>>());
        assert_eq!(g.bot_players, vec![false, true, true, true]);
        assert_eq!(g.options.cards_in_deck.len(), 38);
        if action == GameAction::PresentScore {
            assert_eq!(g.scoring.game, g.scoring.hand_final);
            break;
        }
        assert_eq!(g.scoring.game, [0, 0]);
        next = s.next.clone();
        if next.is_none() {
            let decision = match s.bot {
                Some(BotRequest::Bid) | None if matches!(action, GameAction::GetBid) => {
                    if g.high_bid == 0 {
                        PlayerAction::Bid(Bid::Points(g.min_current_bid()))
                    } else {
                        PlayerAction::Bid(Bid::Pass)
                    }
                },
                Some(BotRequest::Discard) => bot.choose_discards_simple(&g, g.options.exchange_size),
                Some(BotRequest::Trump) => bot.choose_trump(&g),
                Some(BotRequest::Play) => {
                    let legal = g.duplicate().get_playable_card_ids();
                    PlayerAction::PlayCard(legal[0])
                },
                _ => match action {
                    GameAction::GetExchanges | GameAction::Exchange(_) => {
                        if g.exchange_is_full() {
                            PlayerAction::DoneExchanging
                        } else {
                            PlayerAction::Exchange(first_eligible(&g.hands[0]))
                        }
                    },
                    GameAction::GetTrump => PlayerAction::ChooseTrump(Suit::Club),
                    GameAction::GetCardPlay => PlayerAction::PlayCard(first_eligible(&g.hands[0])),
                    _ => panic!("no decision after {:?}", action),
                },
            };
            next = Some(action_for(decision));
        }
    }
    assert!(g.hands.iter().all(|h| h.is_empty()));
}

#[test]
fn exchanging_a_card_and_taking_it_back_restores_the_hand() {
    let mut g = Game::with_dealer(GameOptions::whiskey_4(), 0);
    g.maker = Some(0);
    g.hands[0] = vec![
        card(1, Suit::Club, 7, 0),
        card(2, Suit::Diamond, 9, 0),
        card(3, Suit::Heart, 14, 10),
        card(4, Suit::Spade, 5, 5),
    ];
    g.exchange = vec![card(5, Suit::Club, 8, 0)];
    let hand: Vec<u8> = g.hands[0].iter().map(|c| c.id).collect();
    for id in [1, 3, 4] {
        g.swap_with_exchange(id);
        g.swap_with_exchange(id);
        assert_eq!(g.hands[0].iter().map(|c| c.id).collect::<Vec<u8>>(), hand);
        assert_eq!(g.exchange.iter().map(|c| c.id).collect::<Vec<u8>>(), vec![5]);
    }
}
