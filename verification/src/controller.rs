use vstd::prelude::*;

use crate::card::{Card, Id, Points, Suit};
use crate::game::{count_worth, first_id_or_zero, sum_points, team_of, turned, Bid, Game, PlayerAction};
use crate::game_options::{DiscardedPointCards, NestAwarded};

verus! {

/// The steps of a game, as the controller runs them.
#[derive(Clone, Debug, PartialEq)]
pub enum GameAction {
    Setup,
    ResetForNewHand,
    DealToHands,
    DealToNest,
    GetBid,
    MakeBid(Bid),
    EndBidding,
    MoveNestToMaker,
    GetExchanges,
    Exchange(u8),
    Discard(Vec<u8>),
    EndExchanging,
    GetTrump,
    ChooseTrump(Suit),
    GetCardPlay,
    PlayCard(u8),
    AwardTrick,
    AwardNest,
    PresentScore,
}

/// A message shown to the human player.
#[derive(Clone, Copy, Debug, PartialEq, Eq, Structural)]
pub enum Message {
    Welcome,
    Clear,
    YourBid,
    /// How many points the nest held.
    NestPoints(Points),
}

/// What the view is asked to show after a step.
#[derive(Clone, Copy, Debug, PartialEq, Eq, Structural)]
pub enum ViewCommand {
    CreateCardViews,
    UpdateDeck,
    UpdateMessage(Message),
    UpdateInfo,
    UpdateHand(usize),
    UpdateExchange,
    /// Shows the nest, set aside when the flag is true.
    UpdateNest(bool),
    UpdateBids,
    GetHumanBid,
    EndHumanBid,
    HideBidsExceptMaker,
    SetDiscardableHandCards,
    GetBotDiscards,
    GetHumanExchanges,
    /// Shows the button that ends the exchange, enabled when the flag is true.
    ShowDoneExchangingButton(bool),
    ResetHandEligibility(usize),
    ResetNestEligibility,
    HideDoneExchangingButton,
    GetBotTrump,
    ShowTrumpChooser(bool),
    SetTrumpSuit(Suit),
    GetBotCardPlay,
    GetHumanCardPlay,
    UpdateTrick,
    UpdateTaken,
    ShowNextHandButton(bool),
}

/// The decision a bot is asked to make.
#[derive(Clone, Copy, Debug, PartialEq, Eq, Structural)]
pub enum BotRequest {
    Bid,
    Discard,
    Trump,
    Play,
}

/// What a step leaves to do: the next action (none while waiting for a player), the
/// delay before it in milliseconds, what the view shows, and the bot to ask, if any.
#[derive(Clone, Debug)]
pub struct Step {
    pub next: Option<GameAction>,
    pub delay_ms: u32,
    pub view: Vec<ViewCommand>,
    pub bot: Option<BotRequest>,
}

/// The action a player's decision leads to; a request for the next hand starts one. A
/// request to leave is not a game action: the caller ends the game instead.
pub fn action_for(msg: PlayerAction) -> (r: GameAction)
    requires
        !(msg is ShouldExit),
    ensures
        match msg {
            PlayerAction::Bid(bid) => r == GameAction::MakeBid(bid),
            PlayerAction::Exchange(id) => r == GameAction::Exchange(id),
            PlayerAction::Discard(ids) => r == GameAction::Discard(ids),
            PlayerAction::DoneExchanging => r == GameAction::EndExchanging,
            PlayerAction::ChooseTrump(suit) => r == GameAction::ChooseTrump(suit),
            PlayerAction::PlayCard(id) => r == GameAction::PlayCard(id),
            PlayerAction::NextHand => r == GameAction::ResetForNewHand,
            PlayerAction::ShouldExit => false,
        },
{
    match msg {
        PlayerAction::Bid(bid) => GameAction::MakeBid(bid),
        PlayerAction::Exchange(id) => GameAction::Exchange(id),
        PlayerAction::Discard(ids) => GameAction::Discard(ids),
        PlayerAction::DoneExchanging => GameAction::EndExchanging,
        PlayerAction::ChooseTrump(suit) => GameAction::ChooseTrump(suit),
        PlayerAction::PlayCard(id) => GameAction::PlayCard(id),
        PlayerAction::NextHand => GameAction::ResetForNewHand,
        PlayerAction::ShouldExit => {
            proof {
                assert(false);
            }
            GameAction::Setup
        },
    }
}

/// A step with the given parts.
fn step_of(next: Option<GameAction>, delay_ms: u32, view: Vec<ViewCommand>, bot: Option<BotRequest>) -> (s: Step)
    ensures
        s.next == next,
        s.delay_ms == delay_ms,
        s.view@ =~= view@,
        s.bot == bot,
{
    Step { next, delay_ms, view, bot }
}


/// Whether the active player is a bot.
pub open spec fn bot_active(g: Game) -> bool {
    g.bot_players@[g.active as int]
}

/// Whether `award_trick` may run: the trick is complete, and the winning team's trick
/// count and both teams' points and subtotals stay in range.
pub open spec fn can_award_trick(g: Game) -> bool {
    let w = team_of(g.trick.winner->0 as int);
    &&& g.wf()
    &&& g.trick.is_complete()
    &&& g.trick.winner.is_some()
    &&& g.scoring.trick_count[w] < u8::MAX
    &&& forall|t: int| 0 <= t < 2 ==> isize::MIN <= #[trigger] g.scoring.points_taken[t]
        + (if t == w { g.trick.points as int } else { 0 }) <= isize::MAX
    &&& forall|t: int| 0 <= t < 2 ==> isize::MIN <= #[trigger] crate::scoring::subtotal_of(g.scoring, t)
        + (if t == w { g.trick.points as int } else { 0 }) <= isize::MAX
}

/// Whether `award_nest_cards` may run: the team that gets the nest is known, and the
/// nest's points and the new subtotals stay in range.
pub open spec fn can_award_nest(g: Game) -> bool {
    &&& g.options.nest_awarded is ToLastTrickWinner ==> g.trick.winner.is_some()
    &&& g.options.nest_awarded is ToDefenders ==> g.maker.is_some()
    &&& isize::MIN <= sum_points(g.nest@) <= isize::MAX
    &&& forall|t: int| 0 <= t < 2 ==> isize::MIN <= #[trigger] crate::scoring::subtotal_of(g.scoring, t)
        - g.scoring.nest[t] + (if t == g.nest_team() { sum_points(g.nest@) } else { g.scoring.nest[t] as int }) <= isize::MAX
}

/// Whether a step may run this action on the game: what the game's methods that the
/// step calls require of it. A bid needs someone left who may bid after it, as the
/// turn passes to that player.
pub open spec fn step_allowed(g: Game, action: GameAction) -> bool {
    let n = g.options.players;
    let a = g.active as int;
    let m = g.maker->0 as int;
    match action {
        GameAction::Setup => g.options.cards_in_deck@.len() <= 255,
        GameAction::ResetForNewHand => g.wf() && g.options.hand_size * g.options.players <= usize::MAX,
        GameAction::DealToHands => g.wf() && (g.hand_cards_to_deal > 0 ==> g.deck@.len() > 0),
        GameAction::DealToNest => g.wf() && (g.exchange_cards_to_deal > 0 || g.nest_cards_to_deal > 0 ==> g.deck@.len() > 0),
        GameAction::MakeBid(bid) => g.wf() && (g.options.bid_after_passing
            || exists|q: int| 0 <= q < n && #[trigger] g.bids_after(bid)[q] != Some(Bid::Pass)),
        GameAction::EndBidding => g.maker.is_some(),
        GameAction::MoveNestToMaker => {
            &&& g.wf()
            &&& g.maker.is_some()
            &&& g.options.discard_point_cards is OnlyWhenForced ==> count_worth(g.hand_with_exchange(m), 0)
                + count_worth(g.hand_with_exchange(m), 5) + count_worth(g.hand_with_exchange(m), 10)
                >= g.options.exchange_size
        },
        GameAction::Exchange(_) => g.wf() && g.maker.is_some(),
        GameAction::Discard(_) => g.wf() && g.maker.is_some(),
        GameAction::EndExchanging => g.maker.is_some(),
        GameAction::ChooseTrump(_) => g.wf() && g.maker.is_some(),
        GameAction::PlayCard(id) => {
            &&& g.wf()
            &&& g.hand(a).len() > 0
            &&& isize::MIN <= g.trick.points + g.hand(a)[first_id_or_zero(g.hand(a), id)].points <= isize::MAX
        },
        GameAction::AwardTrick => can_award_trick(g),
        GameAction::AwardNest => can_award_nest(g),
        GameAction::PresentScore => g.wf() && g.maker.is_some() && g.hand_scores_fit(),
        _ => g.wf(),
    }
}

/// The games a run of discards passes through: each discard moves from one game to
/// the next.
pub open spec fn discards_through(states: Seq<Game>, ids: Seq<Id>) -> bool {
    &&& states.len() == ids.len() + 1
    &&& forall|j: int| 0 <= j < ids.len() ==> #[trigger] Game::swap_with_exchange_post(states[j], states[j + 1], ids[j])
}

/// The bot's discards, one after the other, take the game from `g0` to `g1`.
pub open spec fn discards_done(g0: Game, ids: Seq<Id>, g1: Game) -> bool {
    exists|states: Seq<Game>| #[trigger] discards_through(states, ids) && states[0] == g0 && states.last() == g1
}

/// What a step of `action` does: the game goes from `g0` to `g1` and `s` says what
/// comes next.
pub open spec fn step_post(g0: Game, g1: Game, action: GameAction, s: Step) -> bool {
    let a = g0.active as int;
    let m = g0.maker->0;
    match action {
        GameAction::Setup => {
            &&& Game::create_deck_post(g0, g1)
            &&& s.view@ =~= seq![ViewCommand::CreateCardViews, ViewCommand::UpdateDeck, ViewCommand::UpdateMessage(Message::Welcome)]
            &&& s.next == Some(GameAction::ResetForNewHand)
            &&& s.delay_ms == 0
            &&& s.bot.is_none()
        },
        GameAction::ResetForNewHand => {
            &&& Game::reset_for_new_hand_post(g0, g1)
            &&& s.view@ =~= seq![ViewCommand::UpdateInfo, ViewCommand::UpdateDeck, ViewCommand::UpdateMessage(Message::Clear),
                ViewCommand::ShowNextHandButton(false)]
            &&& s.next == Some(GameAction::DealToHands)
            &&& s.delay_ms == 0
            &&& s.bot.is_none()
        },
        GameAction::DealToHands => {
            &&& if g0.hand_cards_to_deal > 0 {
                &&& Game::deal_card_to_hand_post(Game { hand_cards_to_deal: (g0.hand_cards_to_deal - 1) as usize, ..g0 }, g1)
                &&& s.view@ =~= seq![ViewCommand::UpdateHand(g0.active)]
                &&& s.next == Some(GameAction::DealToHands)
            } else {
                &&& g1 == g0
                &&& s.view@ =~= Seq::<ViewCommand>::empty()
                &&& s.next == Some(GameAction::DealToNest)
            }
            &&& s.delay_ms == 0
            &&& s.bot.is_none()
        },
        GameAction::DealToNest => {
            &&& if g0.exchange_cards_to_deal > 0 {
                &&& Game::deal_card_to_exchange_post(Game { exchange_cards_to_deal: (g0.exchange_cards_to_deal - 1) as usize, ..g0 }, g1)
                &&& s.view@ =~= seq![ViewCommand::UpdateExchange]
                &&& s.next == Some(GameAction::DealToNest)
                &&& s.delay_ms == 500
            } else if g0.nest_cards_to_deal > 0 {
                &&& Game::deal_card_to_nest_post(Game { nest_cards_to_deal: (g0.nest_cards_to_deal - 1) as usize, ..g0 }, g1)
                &&& s.view@ =~= seq![ViewCommand::UpdateNest(false)]
                &&& s.next == Some(GameAction::DealToNest)
                &&& s.delay_ms == 500
            } else {
                &&& g1.active == (g0.dealer + 1) % (g0.options.players as int)
                &&& g1 == (Game { active: g1.active, ..g0 })
                &&& s.view@ =~= Seq::<ViewCommand>::empty()
                &&& s.next == Some(GameAction::GetBid)
                &&& s.delay_ms == 1000
            }
            &&& s.bot.is_none()
        },
        GameAction::GetBid => {
            &&& g1 == g0
            &&& if bot_active(g0) {
                &&& s.view@ =~= seq![ViewCommand::UpdateInfo, ViewCommand::UpdateBids]
                &&& s.bot == Some(BotRequest::Bid)
            } else {
                &&& s.view@ =~= seq![ViewCommand::UpdateInfo, ViewCommand::UpdateBids,
                    ViewCommand::UpdateMessage(Message::YourBid), ViewCommand::GetHumanBid]
                &&& s.bot.is_none()
            }
            &&& s.next.is_none()
            &&& s.delay_ms == 0
        },
        GameAction::MakeBid(bid) => {
            &&& exists|gm: Game| {
                &&& #[trigger] Game::make_bid_post(g0, gm, bid)
                &&& if gm.bidding_done() {
                    &&& g1 == gm
                    &&& s.next == Some(GameAction::EndBidding)
                    &&& s.delay_ms == 2000
                } else {
                    &&& Game::next_bidding_player_post(gm, g1)
                    &&& s.next == Some(GameAction::GetBid)
                    &&& s.delay_ms == 1000
                }
            }
            &&& s.view@ =~= if bot_active(g0) {
                seq![ViewCommand::UpdateInfo, ViewCommand::UpdateMessage(Message::Clear), ViewCommand::UpdateBids]
            } else {
                seq![ViewCommand::UpdateInfo, ViewCommand::UpdateMessage(Message::Clear), ViewCommand::UpdateBids,
                    ViewCommand::EndHumanBid]
            }
            &&& s.bot.is_none()
        },
        GameAction::EndBidding => {
            &&& g1 == (Game { active: m, ..g0 })
            &&& s.view@ =~= seq![ViewCommand::HideBidsExceptMaker]
            &&& s.next == Some(GameAction::MoveNestToMaker)
            &&& s.delay_ms == 0
            &&& s.bot.is_none()
        },
        GameAction::MoveNestToMaker => {
            &&& exists|gm: Game| #[trigger] Game::move_exchange_cards_to_maker_post(g0, gm)
                && Game::mark_eligible_discards_post(gm, g1)
            &&& s.view@ =~= seq![ViewCommand::UpdateHand(m), ViewCommand::SetDiscardableHandCards]
            &&& s.next == Some(GameAction::GetExchanges)
            &&& s.delay_ms == 0
            &&& s.bot.is_none()
        },
        GameAction::GetExchanges => {
            &&& g1 == g0
            &&& if bot_active(g0) {
                &&& s.view@ =~= seq![ViewCommand::GetBotDiscards]
                &&& s.bot == Some(BotRequest::Discard)
            } else {
                &&& s.view@ =~= seq![ViewCommand::GetHumanExchanges]
                &&& s.bot.is_none()
            }
            &&& s.next.is_none()
            &&& s.delay_ms == 1000
        },
        GameAction::Exchange(id) => {
            &&& Game::swap_with_exchange_post(g0, g1, id)
            &&& s.view@ =~= seq![ViewCommand::ShowDoneExchangingButton(g1.exchange@.len() == g1.options.exchange_size),
                ViewCommand::UpdateHand(m), ViewCommand::UpdateExchange]
            &&& s.next.is_none()
            &&& s.delay_ms == 0
            &&& s.bot.is_none()
        },
        GameAction::Discard(ids) => {
            &&& discards_done(g0, ids@, g1)
            &&& s.view@ =~= seq![ViewCommand::UpdateHand(m), ViewCommand::UpdateExchange]
            &&& s.next == Some(GameAction::EndExchanging)
            &&& s.delay_ms == 1500
            &&& s.bot.is_none()
        },
        GameAction::EndExchanging => {
            &&& exists|gm: Game| #[trigger] Game::turn_exchange_cards_post(g0, gm)
                && Game::add_exchange_cards_to_nest_post(gm, g1)
            &&& s.view@ =~= seq![ViewCommand::ResetHandEligibility(m), ViewCommand::ResetNestEligibility,
                ViewCommand::HideDoneExchangingButton, ViewCommand::UpdateNest(true)]
            &&& s.next == Some(GameAction::GetTrump)
            &&& s.delay_ms == 0
            &&& s.bot.is_none()
        },
        GameAction::GetTrump => {
            &&& g1 == g0
            &&& if bot_active(g0) {
                &&& s.view@ =~= seq![ViewCommand::GetBotTrump]
                &&& s.bot == Some(BotRequest::Trump)
            } else {
                &&& s.view@ =~= seq![ViewCommand::ShowTrumpChooser(true)]
                &&& s.bot.is_none()
            }
            &&& s.next.is_none()
            &&& s.delay_ms == 1000
        },
        GameAction::ChooseTrump(suit) => {
            &&& exists|gm: Game| {
                &&& #[trigger] Game::set_trump_suit_post(g0, gm, suit)
                &&& g1.active == gm.first_player()
                &&& g1 == (Game { active: g1.active, ..gm })
            }
            &&& s.view@ =~= seq![ViewCommand::UpdateHand(0), ViewCommand::ShowTrumpChooser(false), ViewCommand::SetTrumpSuit(suit)]
            &&& s.next == Some(GameAction::GetCardPlay)
            &&& s.delay_ms == 1000
            &&& s.bot.is_none()
        },
        GameAction::GetCardPlay => {
            &&& if bot_active(g0) {
                &&& g1 == g0
                &&& s.view@ =~= seq![ViewCommand::GetBotCardPlay]
                &&& s.bot == Some(BotRequest::Play)
            } else {
                &&& exists|r: Seq<Id>| #[trigger] Game::get_playable_card_ids_post(g0, g1, r)
                &&& s.view@ =~= seq![ViewCommand::GetHumanCardPlay]
                &&& s.bot.is_none()
            }
            &&& s.next.is_none()
            &&& s.delay_ms == 1000
        },
        GameAction::PlayCard(id) => {
            &&& Game::play_card_id_post(g0, g1, id)
            &&& s.view@ =~= seq![ViewCommand::ResetHandEligibility(g0.active), ViewCommand::UpdateHand(g0.active),
                ViewCommand::UpdateTrick]
            &&& if g1.trick.is_complete() {
                &&& s.next == Some(GameAction::AwardTrick)
                &&& s.delay_ms == 1000
            } else {
                &&& s.next == Some(GameAction::GetCardPlay)
                &&& s.delay_ms == 0
            }
            &&& s.bot.is_none()
        },
        GameAction::AwardTrick => {
            &&& exists|gm: Game| {
                &&& #[trigger] Game::award_trick_post(g0, gm)
                &&& if gm.hand(gm.active as int).len() == 0 {
                    &&& g1 == gm
                    &&& s.next == Some(GameAction::AwardNest)
                } else {
                    &&& Game::reset_for_next_trick_post(gm, g1)
                    &&& s.next == Some(GameAction::GetCardPlay)
                }
            }
            &&& s.view@ =~= seq![ViewCommand::UpdateTaken, ViewCommand::UpdateInfo]
            &&& s.delay_ms == 0
            &&& s.bot.is_none()
        },
        GameAction::AwardNest => {
            &&& exists|p: Points| {
                &&& #[trigger] Game::award_nest_cards_post(g0, g1, p)
                &&& s.view@ =~= seq![ViewCommand::UpdateMessage(Message::NestPoints(p)), ViewCommand::UpdateInfo,
                    ViewCommand::UpdateNest(false)]
            }
            &&& s.next == Some(GameAction::PresentScore)
            &&& s.delay_ms == 3000
            &&& s.bot.is_none()
        },
        GameAction::PresentScore => {
            &&& Game::complete_hand_post(g0, g1)
            &&& s.view@ =~= seq![ViewCommand::UpdateInfo, ViewCommand::ShowNextHandButton(true)]
            &&& s.next.is_none()
            &&& s.delay_ms == 0
            &&& s.bot.is_none()
        },
    }
}

/// Runs one step of the game: performs `action` on the game and says what the view
/// shows, which bot to ask, and what comes next after how long a delay.
#[verifier::rlimit(50)]
pub fn step(game: &mut Game, action: &GameAction) -> (s: Step)
    requires
        step_allowed(*old(game), *action),
    ensures
        step_post(*old(game), *final(game), *action, s),
{
    let mut view: Vec<ViewCommand> = Vec::new();
    match action {
        GameAction::Setup => {
            game.create_deck();
            view.push(ViewCommand::CreateCardViews);
            view.push(ViewCommand::UpdateDeck);
            view.push(ViewCommand::UpdateMessage(Message::Welcome));
            step_of(Some(GameAction::ResetForNewHand), 0, view, None)
        },
        GameAction::ResetForNewHand => {
            game.reset_for_new_hand();
            view.push(ViewCommand::UpdateInfo);
            view.push(ViewCommand::UpdateDeck);
            view.push(ViewCommand::UpdateMessage(Message::Clear));
            view.push(ViewCommand::ShowNextHandButton(false));
            step_of(Some(GameAction::DealToHands), 0, view, None)
        },
        GameAction::DealToHands => {
            if game.hand_cards_to_deal > 0 {
                game.hand_cards_to_deal = game.hand_cards_to_deal - 1;
                let player = game.active;
                game.deal_card_to_hand();
                view.push(ViewCommand::UpdateHand(player));
                step_of(Some(GameAction::DealToHands), 0, view, None)
            } else {
                step_of(Some(GameAction::DealToNest), 0, view, None)
            }
        },
        GameAction::DealToNest => {
            if game.exchange_cards_to_deal > 0 {
                game.exchange_cards_to_deal = game.exchange_cards_to_deal - 1;
                game.deal_card_to_exchange();
                view.push(ViewCommand::UpdateExchange);
                step_of(Some(GameAction::DealToNest), 500, view, None)
            } else if game.nest_cards_to_deal > 0 {
                game.nest_cards_to_deal = game.nest_cards_to_deal - 1;
                game.deal_card_to_nest();
                view.push(ViewCommand::UpdateNest(false));
                step_of(Some(GameAction::DealToNest), 500, view, None)
            } else {
                game.set_active_player_after_deal();
                step_of(Some(GameAction::GetBid), 1000, view, None)
            }
        },
        GameAction::GetBid => {
            view.push(ViewCommand::UpdateInfo);
            view.push(ViewCommand::UpdateBids);
            if game.bot_is_active() {
                step_of(None, 0, view, Some(BotRequest::Bid))
            } else {
                view.push(ViewCommand::UpdateMessage(Message::YourBid));
                view.push(ViewCommand::GetHumanBid);
                step_of(None, 0, view, None)
            }
        },
        GameAction::MakeBid(bid) => {
            let is_bot = game.bot_is_active();
            let ghost g0 = *game;
            game.make_bid(*bid);
            let ghost gm = *game;
            view.push(ViewCommand::UpdateInfo);
            view.push(ViewCommand::UpdateMessage(Message::Clear));
            view.push(ViewCommand::UpdateBids);
            if !is_bot {
                view.push(ViewCommand::EndHumanBid);
            }
            if game.bidding_completed() {
                assert(Game::make_bid_post(g0, gm, *bid));
                step_of(Some(GameAction::EndBidding), 2000, view, None)
            } else {
                proof {
                    if !g0.options.bid_after_passing {
                        let q = choose|q: int| 0 <= q < g0.options.players && #[trigger] g0.bids_after(*bid)[q] != Some(Bid::Pass);
                        assert(gm.may_bid(q));
                    } else {
                        assert(gm.may_bid(0));
                    }
                }
                game.next_bidding_player();
                assert(Game::make_bid_post(g0, gm, *bid));
                step_of(Some(GameAction::GetBid), 1000, view, None)
            }
        },
        GameAction::EndBidding => {
            game.end_bidding();
            view.push(ViewCommand::HideBidsExceptMaker);
            step_of(Some(GameAction::MoveNestToMaker), 0, view, None)
        },
        GameAction::MoveNestToMaker => {
            game.move_exchange_cards_to_maker();
            let ghost gm = *game;
            game.mark_eligible_discards();
            let maker = game.maker.unwrap();
            view.push(ViewCommand::UpdateHand(maker));
            view.push(ViewCommand::SetDiscardableHandCards);
            assert(Game::move_exchange_cards_to_maker_post(*old(game), gm));
            step_of(Some(GameAction::GetExchanges), 0, view, None)
        },
        GameAction::GetExchanges => {
            if game.bot_is_active() {
                view.push(ViewCommand::GetBotDiscards);
                step_of(None, 1000, view, Some(BotRequest::Discard))
            } else {
                view.push(ViewCommand::GetHumanExchanges);
                step_of(None, 1000, view, None)
            }
        },
        GameAction::Exchange(id) => {
            game.swap_with_exchange(*id);
            let maker = game.maker.unwrap();
            let full = game.exchange_is_full();
            view.push(ViewCommand::ShowDoneExchangingButton(full));
            view.push(ViewCommand::UpdateHand(maker));
            view.push(ViewCommand::UpdateExchange);
            step_of(None, 0, view, None)
        },
        GameAction::Discard(ids) => {
            let ghost g0 = *game;
            let ghost mut states: Seq<Game> = seq![g0];
            let maker = game.maker.unwrap();
            let n = ids.len();
            for i in 0..n
                invariant
                    n == ids@.len(),
                    game.wf(),
                    game.maker == g0.maker,
                    g0.maker == Some(maker),
                    states.len() == i + 1,
                    states[0] == g0,
                    states[i as int] == *game,
                    forall|j: int| 0 <= j < i ==> #[trigger] Game::swap_with_exchange_post(states[j], states[j + 1], ids@[j]),
            {
                game.swap_with_exchange(ids[i]);
                proof {
                    states = states.push(*game);
                }
            }
            assert(discards_through(states, ids@));
            view.push(ViewCommand::UpdateHand(maker));
            view.push(ViewCommand::UpdateExchange);
            step_of(Some(GameAction::EndExchanging), 1500, view, None)
        },
        GameAction::EndExchanging => {
            let maker = game.maker.unwrap();
            game.turn_exchange_cards();
            let ghost gm = *game;
            game.add_exchange_cards_to_nest();
            assert(Game::turn_exchange_cards_post(*old(game), gm));
            view.push(ViewCommand::ResetHandEligibility(maker));
            view.push(ViewCommand::ResetNestEligibility);
            view.push(ViewCommand::HideDoneExchangingButton);
            view.push(ViewCommand::UpdateNest(true));
            step_of(Some(GameAction::GetTrump), 0, view, None)
        },
        GameAction::GetTrump => {
            if game.bot_is_active() {
                view.push(ViewCommand::GetBotTrump);
                step_of(None, 1000, view, Some(BotRequest::Trump))
            } else {
                view.push(ViewCommand::ShowTrumpChooser(true));
                step_of(None, 1000, view, None)
            }
        },
        GameAction::ChooseTrump(suit) => {
            game.set_trump_suit(*suit);
            let ghost gm = *game;
            game.set_first_player();
            assert(Game::set_trump_suit_post(*old(game), gm, *suit));
            view.push(ViewCommand::UpdateHand(0));
            view.push(ViewCommand::ShowTrumpChooser(false));
            view.push(ViewCommand::SetTrumpSuit(*suit));
            step_of(Some(GameAction::GetCardPlay), 1000, view, None)
        },
        GameAction::GetCardPlay => {
            if game.bot_is_active() {
                view.push(ViewCommand::GetBotCardPlay);
                step_of(None, 1000, view, Some(BotRequest::Play))
            } else {
                let ids = game.get_playable_card_ids();
                assert(Game::get_playable_card_ids_post(*old(game), *game, ids@));
                view.push(ViewCommand::GetHumanCardPlay);
                step_of(None, 1000, view, None)
            }
        },
        GameAction::PlayCard(id) => {
            let player = game.active;
            game.play_card_id(*id);
            view.push(ViewCommand::ResetHandEligibility(player));
            view.push(ViewCommand::UpdateHand(player));
            view.push(ViewCommand::UpdateTrick);
            if game.trick_completed() {
                step_of(Some(GameAction::AwardTrick), 1000, view, None)
            } else {
                step_of(Some(GameAction::GetCardPlay), 0, view, None)
            }
        },
        GameAction::AwardTrick => {
            game.award_trick();
            let ghost gm = *game;
            view.push(ViewCommand::UpdateTaken);
            view.push(ViewCommand::UpdateInfo);
            if game.hand_completed() {
                assert(Game::award_trick_post(*old(game), gm));
                step_of(Some(GameAction::AwardNest), 0, view, None)
            } else {
                game.reset_for_next_trick();
                assert(Game::award_trick_post(*old(game), gm));
                step_of(Some(GameAction::GetCardPlay), 0, view, None)
            }
        },
        GameAction::AwardNest => {
            let points = game.award_nest_cards();
            view.push(ViewCommand::UpdateMessage(Message::NestPoints(points)));
            view.push(ViewCommand::UpdateInfo);
            view.push(ViewCommand::UpdateNest(false));
            assert(Game::award_nest_cards_post(*old(game), *game, points));
            step_of(Some(GameAction::PresentScore), 3000, view, None)
        },
        GameAction::PresentScore => {
            game.complete_hand();
            view.push(ViewCommand::UpdateInfo);
            view.push(ViewCommand::ShowNextHandButton(true));
            step_of(None, 0, view, None)
        },
    }
}

/// Whether some player may still bid once this bid is made, when passing ends a
/// player's bidding.
fn someone_may_bid(g: &Game, bid: Bid) -> (r: bool)
    requires
        g.wf(),
        !g.options.bid_after_passing,
    ensures
        r == exists|q: int| 0 <= q < g.options.players && #[trigger] g.bids_after(bid)[q] != Some(Bid::Pass),
{
    let n = g.options.players;
    for q in 0..n
        invariant
            n == g.options.players,
            g.wf(),
            !g.options.bid_after_passing,
            forall|j: int| 0 <= j < q ==> #[trigger] g.bids_after(bid)[j] == Some(Bid::Pass),
    {
        let b = if q == g.active { Some(bid) } else { g.bids[q] };
        assert(b == g.bids_after(bid)[q as int]);
        match b {
            Some(Bid::Pass) => {},
            _ => {
                return true;
            },
        }
    }
    false
}

/// The number of cards worth `pts` points.
fn count_worth_of(v: &Vec<Card>, pts: Points) -> (r: usize)
    ensures
        r == count_worth(v@, pts),
{
    let n = v.len();
    let mut k: usize = 0;
    for i in 0..n
        invariant
            n == v@.len(),
            k == count_worth(v@.take(i as int), pts),
            k <= i,
    {
        proof {
            assert(v@.take(i + 1) == v@.take(i as int).push(v@[i as int]));
            v@.take(i as int).lemma_filter_push(v@[i as int], |c: Card| c.points == pts);
        }
        if v[i].points == pts {
            k = k + 1;
        }
    }
    proof {
        assert(v@.take(n as int) == v@);
    }
    k
}

/// The maker's hand once the exchange joins it.
fn hand_with_exchange_of(g: &Game, m: usize) -> (v: Vec<Card>)
    requires
        g.wf(),
        m < g.options.players,
    ensures
        v@ == g.hand_with_exchange(m as int),
{
    let mut v = crate::game::copy_vec(&g.hands[m]);
    let up = !g.bot_players[m] || crate::game::DEBUGGING;
    let e = &g.exchange;
    let k = e.len();
    let ghost h = g.hand(m as int);
    let ghost t = turned(e@.reverse(), up);
    for i in 0..k
        invariant
            k == e@.len(),
            t == turned(e@.reverse(), up),
            v@ == h + t.take(i as int),
    {
        let c = e[k - 1 - i];
        v.push(Card { face_up: up, ..c });
        proof {
            assert(t.take(i + 1) == t.take(i as int).push(t[i as int]));
            assert(t[i as int] == Card { face_up: up, ..c });
        }
    }
    proof {
        assert(t.take(k as int) == t);
    }
    crate::hand::sort_cards(&mut v);
    v
}

/// Whether the maker will hold enough cards worth 0, 5 or 10 to discard, once the
/// exchange joins the hand, when point cards may be discarded only if forced.
fn enough_cheap_discards(g: &Game) -> (r: bool)
    requires
        g.wf(),
        g.maker.is_some(),
    ensures
        r == (g.options.discard_point_cards is OnlyWhenForced ==> count_worth(g.hand_with_exchange(g.maker->0 as int), 0)
            + count_worth(g.hand_with_exchange(g.maker->0 as int), 5) + count_worth(g.hand_with_exchange(g.maker->0 as int), 10)
            >= g.options.exchange_size),
{
    match g.options.discard_point_cards {
        DiscardedPointCards::Allowed(_) => true,
        DiscardedPointCards::OnlyWhenForced(_) => {
            let v = hand_with_exchange_of(g, g.maker.unwrap());
            let z = count_worth_of(&v, 0);
            let f = count_worth_of(&v, 5);
            let t = count_worth_of(&v, 10);
            z as u128 + f as u128 + t as u128 >= g.options.exchange_size as u128
        },
    }
}

/// Whether the active player's card with this id (or the first card, when none has
/// it) can be added to the trick's points without overflow.
fn play_fits(g: &Game, id: Id) -> (r: bool)
    requires
        g.wf(),
    ensures
        r == (g.hand(g.active as int).len() > 0 && isize::MIN <= g.trick.points + g.hand(g.active as int)[first_id_or_zero(
            g.hand(g.active as int),
            id,
        )].points <= isize::MAX),
{
    let h = &g.hands[g.active];
    if h.len() == 0 {
        return false;
    }
    let i = match crate::game::position_of_id(h, id) {
        Some(i) => {
            proof {
                crate::game::lemma_first_id(h@, id, i as int);
            }
            i
        },
        None => 0,
    };
    let total = g.trick.points as i128 + h[i].points as i128;
    isize::MIN as i128 <= total && total <= isize::MAX as i128
}

/// Whether a value with a team's addition fits in the points type.
fn sum_fits(x: i128) -> (r: bool)
    ensures
        r == (isize::MIN <= x <= isize::MAX),
{
    isize::MIN as i128 <= x && x <= isize::MAX as i128
}

/// Whether the complete trick can be awarded.
fn award_trick_fits(g: &Game) -> (r: bool)
    ensures
        r == can_award_trick(*g),
{
    if !crate::readiness::game_wf(g) || !g.trick.completed() {
        return false;
    }
    let w = match g.trick.winner {
        Some(w) => g.team_index(w),
        None => {
            return false;
        },
    };
    if g.scoring.trick_count[w] == 255 {
        return false;
    }
    let tp = g.trick.points as i128;
    let s = &g.scoring;
    let p0 = s.points_taken[0] as i128 + if w == 0 { tp } else { 0 };
    let p1 = s.points_taken[1] as i128 + if w == 1 { tp } else { 0 };
    let t0 = s.points_taken[0] as i128 + s.nest[0] as i128 + s.last_trick[0] as i128 + s.majority_bonus[0] as i128 + if w
        == 0 {
        tp
    } else {
        0
    };
    let t1 = s.points_taken[1] as i128 + s.nest[1] as i128 + s.last_trick[1] as i128 + s.majority_bonus[1] as i128 + if w
        == 1 {
        tp
    } else {
        0
    };
    let r = sum_fits(p0) && sum_fits(p1) && sum_fits(t0) && sum_fits(t1);
    assert(r == can_award_trick(*g)) by {
        if r {
            assert forall|t: int| 0 <= t < 2 implies isize::MIN <= #[trigger] g.scoring.points_taken[t]
                + (if t == w { g.trick.points as int } else { 0 }) <= isize::MAX by {
                if t == 1 {
                }
            }
            assert forall|t: int| 0 <= t < 2 implies isize::MIN <= #[trigger] crate::scoring::subtotal_of(g.scoring, t)
                + (if t == w { g.trick.points as int } else { 0 }) <= isize::MAX by {
                if t == 1 {
                }
            }
        }
        if can_award_trick(*g) {
            assert(isize::MIN <= g.scoring.points_taken[0] + (if 0 == w { g.trick.points as int } else { 0 }) <= isize::MAX);
            assert(isize::MIN <= g.scoring.points_taken[1] + (if 1 == w { g.trick.points as int } else { 0 }) <= isize::MAX);
            assert(isize::MIN <= crate::scoring::subtotal_of(g.scoring, 0) + (if 0 == w { g.trick.points as int } else { 0 }) <= isize::MAX);
            assert(isize::MIN <= crate::scoring::subtotal_of(g.scoring, 1) + (if 1 == w { g.trick.points as int } else { 0 }) <= isize::MAX);
        }
    }
    r
}

/// The total of the points of the cards, computed without overflow.
fn points_of(v: &Vec<Card>) -> (r: i128)
    ensures
        r == sum_points(v@),
{
    let n = v.len();
    let mut sum: i128 = 0;
    for i in 0..n
        invariant
            n == v@.len(),
            sum == sum_points(v@.take(i as int)),
            -(i as int) * 0x8000_0000_0000_0000 <= sum <= (i as int) * 0x8000_0000_0000_0000,
    {
        proof {
            assert(v@.take(i + 1).drop_last() == v@.take(i as int));
            assert(v@.take(i + 1).last() == v@[i as int]);
        }
        sum = sum + v[i].points as i128;
    }
    proof {
        assert(v@.take(n as int) == v@);
    }
    sum
}

/// Whether the nest can be awarded.
fn award_nest_fits(g: &Game) -> (r: bool)
    ensures
        r == can_award_nest(*g),
{
    let team = match g.options.nest_awarded {
        NestAwarded::ToLastTrickWinner => match g.trick.winner {
            Some(w) => g.team_index(w),
            None => {
                return false;
            },
        },
        NestAwarded::ToDefenders => match g.maker {
            Some(m) => g.opponent_index(m),
            None => {
                return false;
            },
        },
    };
    assert(team == g.nest_team());
    let points = points_of(&g.nest);
    if !sum_fits(points) {
        return false;
    }
    let s = &g.scoring;
    let t0 = s.points_taken[0] as i128 + s.last_trick[0] as i128 + s.majority_bonus[0] as i128 + if team == 0 {
        points
    } else {
        s.nest[0] as i128
    };
    let t1 = s.points_taken[1] as i128 + s.last_trick[1] as i128 + s.majority_bonus[1] as i128 + if team == 1 {
        points
    } else {
        s.nest[1] as i128
    };
    let r = sum_fits(t0) && sum_fits(t1);
    assert(r == can_award_nest(*g)) by {
        let sp = sum_points(g.nest@);
        if r {
            assert forall|t: int| 0 <= t < 2 implies isize::MIN <= #[trigger] crate::scoring::subtotal_of(g.scoring, t)
                - g.scoring.nest[t] + (if t == g.nest_team() { sp } else { g.scoring.nest[t] as int }) <= isize::MAX by {
                if t == 1 {
                }
            }
        }
        if can_award_nest(*g) {
            assert(isize::MIN <= crate::scoring::subtotal_of(g.scoring, 0) - g.scoring.nest[0] + (if 0 == g.nest_team() { sp } else { g.scoring.nest[0] as int }) <= isize::MAX);
            assert(isize::MIN <= crate::scoring::subtotal_of(g.scoring, 1) - g.scoring.nest[1] + (if 1 == g.nest_team() { sp } else { g.scoring.nest[1] as int }) <= isize::MAX);
        }
    }
    r
}

/// Whether a step may run this action on the game: `step_allowed`, computed.
pub fn step_allowed_check(g: &Game, action: &GameAction) -> (r: bool)
    ensures
        r == step_allowed(*g, *action),
{
    let wf = crate::readiness::game_wf(g);
    match action {
        GameAction::Setup => g.options.cards_in_deck.len() <= 255,
        GameAction::ResetForNewHand => wf && g.options.hand_size.checked_mul(g.options.players).is_some(),
        GameAction::DealToHands => wf && (g.hand_cards_to_deal == 0 || g.deck.len() > 0),
        GameAction::DealToNest => wf && ((g.exchange_cards_to_deal == 0 && g.nest_cards_to_deal == 0) || g.deck.len() > 0),
        GameAction::MakeBid(bid) => wf && (g.options.bid_after_passing || someone_may_bid(g, *bid)),
        GameAction::EndBidding => g.maker.is_some(),
        GameAction::MoveNestToMaker => wf && g.maker.is_some() && enough_cheap_discards(g),
        GameAction::Exchange(_) => wf && g.maker.is_some(),
        GameAction::Discard(_) => wf && g.maker.is_some(),
        GameAction::EndExchanging => g.maker.is_some(),
        GameAction::ChooseTrump(_) => wf && g.maker.is_some(),
        GameAction::PlayCard(id) => wf && play_fits(g, *id),
        GameAction::AwardTrick => award_trick_fits(g),
        GameAction::AwardNest => award_nest_fits(g),
        GameAction::PresentScore => wf && g.maker.is_some() && g.hand_scores_fit_check(),
        _ => wf,
    }
}

} // verus!
