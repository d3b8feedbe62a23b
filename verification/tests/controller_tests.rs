use whiskey::bot_monte::BotMonte;
use whiskey::card::Suit;
use whiskey::controller::{action_for, step, BotRequest, GameAction, Message, ViewCommand};
use whiskey::game::{Bid, Game, PlayerAction};
use whiskey::game_options::GameOptions;

#[test]
fn player_actions_become_game_actions() {
    assert_eq!(action_for(PlayerAction::Bid(Bid::Pass)), GameAction::MakeBid(Bid::Pass));
    assert_eq!(action_for(PlayerAction::Exchange(4)), GameAction::Exchange(4));
    assert_eq!(action_for(PlayerAction::Discard(vec![1, 2])), GameAction::Discard(vec![1, 2]));
    assert_eq!(action_for(PlayerAction::DoneExchanging), GameAction::EndExchanging);
    assert_eq!(action_for(PlayerAction::ChooseTrump(Suit::Heart)), GameAction::ChooseTrump(Suit::Heart));
    assert_eq!(action_for(PlayerAction::PlayCard(7)), GameAction::PlayCard(7));
    assert_eq!(action_for(PlayerAction::NextHand), GameAction::ResetForNewHand);
}

#[test]
fn setup_step_creates_the_deck() {
    let mut g = Game::with_dealer(GameOptions::whiskey_4(), 0);
    let s = step(&mut g, &GameAction::Setup);
    assert_eq!(g.deck.len(), 38);
    assert_eq!(s.next, Some(GameAction::ResetForNewHand));
    assert_eq!(
        s.view,
        vec![ViewCommand::CreateCardViews, ViewCommand::UpdateDeck, ViewCommand::UpdateMessage(Message::Welcome)]
    );
    assert_eq!(s.bot, None);
    assert_eq!(s.delay_ms, 0);
}

#[test]
fn bidding_steps_ask_bots_and_humans() {
    let mut g = Game::with_dealer(GameOptions::whiskey_4(), 0);
    g.active = 1;
    let s = step(&mut g, &GameAction::GetBid);
    assert_eq!(s.bot, Some(BotRequest::Bid));
    assert_eq!(s.next, None);
    g.active = 0;
    let s = step(&mut g, &GameAction::GetBid);
    assert_eq!(s.bot, None);
    assert_eq!(
        s.view,
        vec![
            ViewCommand::UpdateInfo,
            ViewCommand::UpdateBids,
            ViewCommand::UpdateMessage(Message::YourBid),
            ViewCommand::GetHumanBid
        ]
    );
    let s = step(&mut g, &GameAction::MakeBid(Bid::Points(65)));
    assert_eq!(g.maker, Some(0));
    assert_eq!(g.active, 1);
    assert_eq!(s.next, Some(GameAction::GetBid));
    assert_eq!(s.delay_ms, 1000);
    assert_eq!(s.view.last(), Some(&ViewCommand::EndHumanBid));
    for _ in 0..3 {
        let s = step(&mut g, &GameAction::MakeBid(Bid::Pass));
        if g.bidding_completed() {
            assert_eq!(s.next, Some(GameAction::EndBidding));
            assert_eq!(s.delay_ms, 2000);
        }
    }
    assert!(g.bidding_completed());
    let s = step(&mut g, &GameAction::EndBidding);
    assert_eq!(g.active, 0);
    assert_eq!(s.next, Some(GameAction::MoveNestToMaker));
}

fn first_eligible(cards: &[whiskey::card::Card]) -> u8 {
    cards.iter().find(|c| c.eligible).map(|c| c.id).unwrap()
}

fn human_action(g: &Game, last: &GameAction) -> PlayerAction {
    match last {
        GameAction::GetBid => {
            if g.high_bid == 0 {
                PlayerAction::Bid(Bid::Points(g.min_current_bid()))
            } else {
                PlayerAction::Bid(Bid::Pass)
            }
        },
        GameAction::GetExchanges | GameAction::Exchange(_) => {
            if g.exchange_is_full() {
                PlayerAction::DoneExchanging
            } else {
                PlayerAction::Exchange(first_eligible(&g.hands[0]))
            }
        },
        GameAction::GetTrump => PlayerAction::ChooseTrump(Suit::Heart),
        GameAction::GetCardPlay => PlayerAction::PlayCard(first_eligible(&g.hands[0])),
        _ => panic!("no decision after {:?}", last),
    }
}

fn bot_action(g: &mut Game, req: BotRequest) -> PlayerAction {
    let bot = BotMonte::new();
    match req {
        BotRequest::Bid => {
            if g.high_bid == 0 {
                PlayerAction::Bid(Bid::Points(g.min_current_bid()))
            } else {
                PlayerAction::Bid(Bid::Pass)
            }
        },
        BotRequest::Discard => bot.choose_discards(g, g.options.exchange_size),
        BotRequest::Trump => bot.choose_trump(g),
        BotRequest::Play => bot.get_play(g, 3),
    }
}

fn play_a_hand(dealer: usize) -> Game {
    let mut g = Game::with_dealer(GameOptions::whiskey_4(), dealer);
    let mut next = Some(GameAction::Setup);
    let mut steps = 0;
    while let Some(action) = next.take() {
        steps += 1;
        assert!(steps < 5000);
        let s = step(&mut g, &action);
        if action == GameAction::PresentScore {
            assert_eq!(s.next, None);
            break;
        }
        next = s.next.clone();
        if next.is_none() {
            let decision = match s.bot {
                Some(req) => bot_action(&mut g, req),
                None => human_action(&g, &action),
            };
            next = Some(action_for(decision));
        }
    }
    g
}

#[test]
fn a_whole_hand_is_played_by_steps() {
    for dealer in [3, 2] {
        let g = play_a_hand(dealer);
        assert!(g.hands.iter().all(|h| h.is_empty()));
        assert!(g.exchange.is_empty());
        assert!(g.deck.is_empty());
        assert_eq!(g.taken.iter().map(|t| t.len()).sum::<usize>(), 36);
        assert_eq!(g.nest.len(), 2);
        let s = &g.scoring;
        assert_eq!(s.points_taken[0] + s.points_taken[1] + s.nest[0] + s.nest[1], 130);
        assert_eq!(s.trick_count[0] as usize + s.trick_count[1] as usize, 9);
        assert_eq!(s.game, s.hand_final);
        let maker = g.maker.unwrap();
        assert_eq!(g.high_bid, 65);
        assert_eq!(maker, (dealer + 2) % 4);
    }
}
