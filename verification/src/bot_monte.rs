use vstd::prelude::*;

use crate::card::{Card, Id, Points, Suit};
use crate::game_options::BiddersWin;
use crate::game::{first_id_or_zero, has_id, position_of_id, Bid, Game, PlayerAction};
use crate::random::shuffle;
use crate::combos::{choices_of, is_choice_list, is_increasing_choice, lemma_choice_room, lemma_choices_nonempty, lex_less};
use crate::simulation::{
    card_in_range, cards_in_range, hidden_cards, mark_playable, others_total, play_card_in_turn, play_out,
    redeal, score_hand, sim_ready, lemma_same_state_ready, lemma_others_total_same,
    hidden_of, redealt, played_out, simulated_score, totals_fit, sim_fits, sim_base,
};
use crate::game::{same_lists, team_of};

verus! {

/// A bot that plays by Monte Carlo simulation.
#[derive(Clone, Copy, Debug)]
pub struct BotMonte {}

/// The total rank of the cards of a suit.
pub open spec fn suit_score(cards: Seq<Card>, suit: Suit) -> int
    decreases cards.len(),
{
    if cards.len() == 0 {
        0
    } else {
        suit_score(cards.drop_last(), suit) + (if cards.last().suit == suit { cards.last().rank as int } else { 0 })
    }
}

/// The first of clubs, diamonds, hearts and spades with the highest total rank.
pub open spec fn best_suit_of(cards: Seq<Card>) -> Suit {
    let c = suit_score(cards, Suit::Club);
    let d = suit_score(cards, Suit::Diamond);
    let h = suit_score(cards, Suit::Heart);
    let s = suit_score(cards, Suit::Spade);
    if c >= d && c >= h && c >= s {
        Suit::Club
    } else if d >= h && d >= s {
        Suit::Diamond
    } else if h >= s {
        Suit::Heart
    } else {
        Suit::Spade
    }
}

/// Whether a card is a cheap discard: not trump, below rank 99, and worth no points.
pub open spec fn is_cheap(c: Card, trump: Option<Suit>) -> bool {
    trump != Some(c.suit) && c.rank < 99 && c.points == 0
}

/// Whether `i` is the first of the cheap cards of lowest rank.
pub open spec fn is_lowest_cheap(cards: Seq<Card>, trump: Option<Suit>, i: int) -> bool {
    &&& 0 <= i < cards.len()
    &&& is_cheap(cards[i], trump)
    &&& forall|j: int| 0 <= j < cards.len() && is_cheap(#[trigger] cards[j], trump) ==> cards[i].rank <= cards[j].rank
    &&& forall|j: int| 0 <= j < i && is_cheap(#[trigger] cards[j], trump) ==> cards[j].rank > cards[i].rank
}

/// The id of the first cheap card of lowest rank, or of the first card when none is cheap.
pub open spec fn lowest_cheap_id(cards: Seq<Card>, trump: Option<Suit>) -> Id {
    if exists|i: int| is_lowest_cheap(cards, trump, i) {
        cards[choose|i: int| is_lowest_cheap(cards, trump, i)].id
    } else {
        cards[0].id
    }
}

/// The discards of the simple strategy: `k` times, the lowest cheap card (or the first
/// card) is discarded and its place taken by the last card.
pub open spec fn simple_discards(cards: Seq<Card>, trump: Option<Suit>, k: nat) -> Seq<Id>
    decreases k,
{
    if k == 0 {
        Seq::empty()
    } else {
        let id = lowest_cheap_id(cards, trump);
        let i = first_id_or_zero(cards, id);
        let rest = if has_id(cards, id) { cards.update(i, cards.last()).drop_last() } else { cards };
        seq![id] + simple_discards(rest, trump, (k - 1) as nat)
    }
}

/// The eligible cards of a hand, in order.
pub open spec fn eligible_cards(hand: Seq<Card>) -> Seq<Card> {
    hand.filter(|c: Card| c.eligible)
}

/// The lowest cheap id is the id of one of the cards.
proof fn lemma_lowest_cheap_id_present(cards: Seq<Card>, trump: Option<Suit>)
    requires
        cards.len() > 0,
    ensures
        has_id(cards, lowest_cheap_id(cards, trump)),
{
    if exists|i: int| is_lowest_cheap(cards, trump, i) {
        let i = choose|i: int| is_lowest_cheap(cards, trump, i);
        assert(cards[i].id == lowest_cheap_id(cards, trump));
    } else {
        assert(cards[0].id == lowest_cheap_id(cards, trump));
    }
}

/// The first lowest cheap card is unique, and exists when a cheap card does.
proof fn lemma_lowest_cheap_unique(cards: Seq<Card>, trump: Option<Suit>, i: int, k: int)
    requires
        is_lowest_cheap(cards, trump, i),
        is_lowest_cheap(cards, trump, k),
    ensures
        i == k,
{
    if i < k {
        assert(cards[i].rank > cards[k].rank);
    }
    if k < i {
        assert(cards[k].rank > cards[i].rank);
    }
}

impl BotMonte {
    /// A new bot.
    pub fn new() -> (b: Self) {
        BotMonte {}
    }

    /// The total rank of the cards of a suit; the total must fit a rank.
    fn score_of_suit(cards: &[Card], suit: Suit) -> (r: u8)
        requires
            suit_score(cards@, suit) <= u8::MAX,
        ensures
            r == suit_score(cards@, suit),
    {
        let mut total: u8 = 0;
        let n = cards.len();
        for i in 0..n
            invariant
                n == cards@.len(),
                suit_score(cards@, suit) <= u8::MAX,
                total == suit_score(cards@.take(i as int), suit),
        {
            proof {
                assert(cards@.take(i + 1).drop_last() == cards@.take(i as int));
                lemma_suit_score_prefix(cards@, suit, i + 1);
                lemma_suit_score_mono(cards@, suit, i + 1);
            }
            if cards[i].suit == suit {
                total = total + cards[i].rank;
            }
        }
        assert(cards@.take(n as int) == cards@);
        total
    }

    /// The first of clubs, diamonds, hearts and spades whose cards have the highest total
    /// rank; clubs when no suit scores.
    pub fn best_suit(&self, cards: &[Card]) -> (r: Suit)
        requires
            suit_score(cards@, Suit::Club) <= u8::MAX,
            suit_score(cards@, Suit::Diamond) <= u8::MAX,
            suit_score(cards@, Suit::Heart) <= u8::MAX,
            suit_score(cards@, Suit::Spade) <= u8::MAX,
        ensures
            r == best_suit_of(cards@),
    {
        let mut best_suit_score: u8 = 0;
        let mut best_suit = Suit::Club;
        let c = Self::score_of_suit(cards, Suit::Club);
        if c > best_suit_score {
            best_suit_score = c;
            best_suit = Suit::Club;
        }
        let d = Self::score_of_suit(cards, Suit::Diamond);
        if d > best_suit_score {
            best_suit_score = d;
            best_suit = Suit::Diamond;
        }
        let h = Self::score_of_suit(cards, Suit::Heart);
        if h > best_suit_score {
            best_suit_score = h;
            best_suit = Suit::Heart;
        }
        let s = Self::score_of_suit(cards, Suit::Spade);
        if s > best_suit_score {
            best_suit_score = s;
            best_suit = Suit::Spade;
        }
        best_suit
    }

    /// The id of the first non-trump card without points of lowest rank below 99; the
    /// first card's id when there is none.
    pub fn lowest_non_trump_card(&self, cards: &[Card], trump: &Option<Suit>) -> (r: Id)
        requires
            cards@.len() > 0,
        ensures
            r == lowest_cheap_id(cards@, *trump),
    {
        let mut lowest_rank: u8 = 99;
        let mut lowest_id = cards[0].id;
        let ghost mut best: int = -1;
        let n = cards.len();
        for i in 0..n
            invariant
                n == cards@.len(),
                n > 0,
                best == -1 ==> lowest_rank == 99 && lowest_id == cards@[0].id
                    && forall|j: int| 0 <= j < i ==> !is_cheap(#[trigger] cards@[j], *trump),
                best != -1 ==> {
                    &&& 0 <= best < i
                    &&& is_cheap(cards@[best], *trump)
                    &&& lowest_rank == cards@[best].rank
                    &&& lowest_id == cards@[best].id
                    &&& forall|j: int| 0 <= j < i && is_cheap(#[trigger] cards@[j], *trump) ==> cards@[best].rank <= cards@[j].rank
                    &&& forall|j: int| 0 <= j < best && is_cheap(#[trigger] cards@[j], *trump) ==> cards@[j].rank > cards@[best].rank
                },
        {
            let card = cards[i];
            if !card.is_trump(trump) && card.rank < lowest_rank && card.points == 0 {
                lowest_rank = card.rank;
                lowest_id = card.id;
                proof {
                    best = i as int;
                }
            }
        }
        proof {
            if best == -1 {
                assert(!exists|i: int| is_lowest_cheap(cards@, *trump, i));
            } else {
                assert(is_lowest_cheap(cards@, *trump, best));
                let k = choose|i: int| is_lowest_cheap(cards@, *trump, i);
                lemma_lowest_cheap_unique(cards@, *trump, best, k);
            }
        }
        lowest_id
    }

    /// The cards of the hand that are marked eligible, in order.
    fn collect_eligible(hand: &[Card]) -> (r: Vec<Card>)
        ensures
            r@ == eligible_cards(hand@),
    {
        let mut r: Vec<Card> = Vec::new();
        let n = hand.len();
        for i in 0..n
            invariant
                n == hand@.len(),
                r@ == hand@.take(i as int).filter(|c: Card| c.eligible),
        {
            proof {
                assert(hand@.take(i + 1) == hand@.take(i as int).push(hand@[i as int]));
                hand@.take(i as int).lemma_filter_push(hand@[i as int], |c: Card| c.eligible);
            }
            if hand[i].eligible {
                r.push(hand[i]);
            }
        }
        assert(hand@.take(n as int) == hand@);
        r
    }

    /// The simple discard strategy: takes the best suit of the active hand as trump and
    /// discards, one at a time, the lowest cheap eligible card.
    pub fn choose_discards_simple(&self, game: &Game, exchange_size: usize) -> (r: PlayerAction)
        requires
            game.active < game.hands@.len(),
            suit_score(game.hand(game.active as int), Suit::Club) <= u8::MAX,
            suit_score(game.hand(game.active as int), Suit::Diamond) <= u8::MAX,
            suit_score(game.hand(game.active as int), Suit::Heart) <= u8::MAX,
            suit_score(game.hand(game.active as int), Suit::Spade) <= u8::MAX,
            eligible_cards(game.hand(game.active as int)).len() > 0,
            exchange_size <= eligible_cards(game.hand(game.active as int)).len(),
        ensures
            r matches PlayerAction::Discard(ids) && ids@ == simple_discards(
                eligible_cards(game.hand(game.active as int)),
                Some(best_suit_of(game.hand(game.active as int))),
                exchange_size as nat,
            ),
    {
        let trump = self.best_suit(game.active_hand());
        let mut eligible = Self::collect_eligible(game.active_hand());
        let ghost all = eligible@;
        let ghost t = Some(trump);
        let mut discards: Vec<Id> = Vec::new();
        while discards.len() < exchange_size
            invariant
                discards@.len() <= exchange_size,
                eligible@.len() + discards@.len() == all.len(),
                exchange_size <= all.len(),
                t == Some(trump),
                discards@ + simple_discards(eligible@, t, (exchange_size - discards@.len()) as nat)
                    == simple_discards(all, t, exchange_size as nat),
            decreases exchange_size - discards@.len(),
        {
            let ghost before = eligible@;
            let ghost k = (exchange_size - discards@.len()) as nat;
            let trump_opt = Some(trump);
            let lowest_card_id = self.lowest_non_trump_card(eligible.as_slice(), &trump_opt);
            proof {
                lemma_lowest_cheap_id_present(before, t);
            }
            discards.push(lowest_card_id);
            let pos = position_of_id(&eligible, lowest_card_id);
            match pos {
                Some(idx) => {
                    proof {
                        crate::game::lemma_first_id(before, lowest_card_id, idx as int);
                    }
                    eligible.swap_remove(idx);
                },
                None => {},
            }
            proof {
                assert(simple_discards(before, t, k) == seq![lowest_card_id] + simple_discards(eligible@, t, (k - 1) as nat));
                assert(discards@ + simple_discards(eligible@, t, (exchange_size - discards@.len()) as nat)
                    == (discards@.drop_last() + seq![lowest_card_id]) + simple_discards(eligible@, t, (k - 1) as nat));
            }
        }
        proof {
            assert(simple_discards(eligible@, t, 0) == Seq::<Id>::empty());
            assert(discards@ + Seq::<Id>::empty() == discards@);
        }
        PlayerAction::Discard(discards)
    }

    /// Chooses the bot's trump: the best suit of the active hand.
    pub fn choose_trump(&self, game: &Game) -> (r: PlayerAction)
        requires
            game.active < game.hands@.len(),
            suit_score(game.hand(game.active as int), Suit::Club) <= u8::MAX,
            suit_score(game.hand(game.active as int), Suit::Diamond) <= u8::MAX,
            suit_score(game.hand(game.active as int), Suit::Heart) <= u8::MAX,
            suit_score(game.hand(game.active as int), Suit::Spade) <= u8::MAX,
        ensures
            r == PlayerAction::ChooseTrump(best_suit_of(game.hand(game.active as int))),
    {
        let cards = game.active_hand();
        let suit = self.best_suit(cards);
        PlayerAction::ChooseTrump(suit)
    }
}

/// The score of a prefix is at most the score of the whole.
proof fn lemma_suit_score_mono(cards: Seq<Card>, suit: Suit, k: int)
    requires
        0 <= k <= cards.len(),
    ensures
        suit_score(cards.take(k), suit) <= suit_score(cards, suit),
    decreases cards.len() - k,
{
    if k == cards.len() {
        assert(cards.take(k) == cards);
    } else {
        lemma_suit_score_prefix(cards, suit, k + 1);
        lemma_suit_score_mono(cards, suit, k + 1);
    }
}

/// The score of a prefix grows by the last card's rank when it is of the suit.
proof fn lemma_suit_score_prefix(cards: Seq<Card>, suit: Suit, k: int)
    requires
        0 < k <= cards.len(),
    ensures
        suit_score(cards.take(k), suit) == suit_score(cards.take(k - 1), suit)
            + (if cards[k - 1].suit == suit { cards[k - 1].rank as int } else { 0 }),
        suit_score(cards.take(k - 1), suit) <= suit_score(cards.take(k), suit),
{
    assert(cards.take(k).drop_last() == cards.take(k - 1));
}

/// The sum of a sequence of scores.
pub open spec fn seq_sum(s: Seq<Points>) -> int
    decreases s.len(),
{
    if s.len() == 0 {
        0
    } else {
        seq_sum(s.drop_last()) + s.last()
    }
}

/// The sum of the `i`-th block of `m` scores.
pub open spec fn block_sum(scores: Seq<Points>, m: int, i: int) -> int {
    seq_sum(scores.subrange(i * m, i * m + m))
}

/// The ids of the cards the active player may play, in hand order.
pub open spec fn legal_ids(g: Game) -> Seq<Id> {
    g.hand(g.active as int).filter(|c: Card| g.playable(c)).map_values(|c: Card| c.id)
}

/// Whether `(id, best, scores)` is a choice of the card whose block of scores has the
/// highest sum, the first such card on ties.
pub open spec fn is_best_choice(legal: Seq<Id>, m: int, id: Id, best: Points, scores: Seq<Points>) -> bool {
    &&& scores.len() == m * legal.len()
    &&& exists|i: int| {
        &&& 0 <= i < legal.len()
        &&& id == legal[i]
        &&& best == #[trigger] block_sum(scores, m, i)
        &&& forall|k: int| 0 <= k < legal.len() ==> #[trigger] block_sum(scores, m, k) <= best
        &&& forall|k: int| 0 <= k < i ==> #[trigger] block_sum(scores, m, k) < best
    }
}

/// A block lies before the start of any later block.
proof fn lemma_block_before(k: int, c: int, m: int)
    requires
        0 <= k < c,
        m >= 0,
    ensures
        k * m + m <= c * m,
        0 <= k * m,
{
    assert(k * m + m <= c * m) by (nonlinear_arith)
        requires 0 <= k < c, m >= 0;
    assert(0 <= k * m) by (nonlinear_arith)
        requires 0 <= k, m >= 0;
}

/// A running total of `k` scores, each between `-5 * lim` and `8 * lim`, stays within
/// bounds that one more score moves by at most one step, below the bound for `n` scores.
proof fn lemma_total_step(lim: int, k: int, n: int)
    requires
        0 <= lim,
        0 <= k < n,
    ensures
        (5 * lim) * (k + 1) == (5 * lim) * k + 5 * lim,
        (8 * lim) * (k + 1) == (8 * lim) * k + 8 * lim,
        (5 * lim) * (k + 1) <= n * (8 * lim),
        (8 * lim) * (k + 1) <= n * (8 * lim),
{
    assert((5 * lim) * (k + 1) == (5 * lim) * k + 5 * lim) by (nonlinear_arith);
    assert((8 * lim) * (k + 1) == (8 * lim) * k + 8 * lim) by (nonlinear_arith);
    assert((5 * lim) * (k + 1) <= n * (8 * lim)) by (nonlinear_arith)
        requires 0 <= lim, 0 <= k < n;
    assert((8 * lim) * (k + 1) <= n * (8 * lim)) by (nonlinear_arith)
        requires 0 <= lim, 0 <= k < n;
}

/// The score at position `k` of block `c` belongs to block `c`.
proof fn lemma_block_index(c: int, m: int, k: int)
    requires
        0 <= c,
        0 <= k < m,
    ensures
        (c * m + k) / m == c,
{
    assert((c * m + k) / m == c) by (nonlinear_arith)
        requires 0 <= c, 0 <= k < m;
}

/// Extending the scores after a block does not change its sum.
proof fn lemma_block_stable(before: Seq<Points>, after: Seq<Points>, m: int, k: int, c: int)
    requires
        0 <= k < c,
        m >= 0,
        c * m <= before.len() <= after.len(),
        before == after.subrange(0, before.len() as int),
    ensures
        block_sum(after, m, k) == block_sum(before, m, k),
{
    lemma_block_before(k, c, m);
    assert(after.subrange(k * m, k * m + m) == before.subrange(k * m, k * m + m));
}

/// Shuffled cards are still in range.
proof fn lemma_shuffled_in_range(a: Seq<Card>, b: Seq<Card>, cap: int)
    requires
        a.to_multiset() == b.to_multiset(),
        cards_in_range(b, cap),
    ensures
        cards_in_range(a, cap),
{
    broadcast use vstd::seq_lib::group_to_multiset_ensures;
    assert forall|i: int| 0 <= i < a.len() implies card_in_range(#[trigger] a[i], cap) by {
        assert(a.to_multiset().count(a[i]) > 0);
        assert(b.contains(a[i]));
    }
}

/// Whether `scores` can be what the simulations give for game `g`, `m` hands for each
/// card the active player may play, card by card: in a copy of `g` with the playable
/// cards of the active hand marked, score `i` is that of a hand simulated with the card
/// of its block, `legal_ids(g)[i / m]`, played first, for the active player's team.
pub open spec fn simulation_outcome(g: Game, m: int, scores: Seq<Points>) -> bool {
    exists|g0: Game, g1: Game, ids: Seq<Id>|
        #![trigger Game::get_playable_card_ids_post(g0, g1, ids)]
        g0.same_state(g) && Game::get_playable_card_ids_post(g0, g1, ids)
        && forall|i: int| 0 <= i < scores.len() ==> simulated_score(
            g1,
            hidden_of(g1.hands@, g1.deck@, g.active as int, g.options.players as int).to_multiset(),
            legal_ids(g)[i / m],
            team_of(g.active as int),
            #[trigger] scores[i] as int,
        )
}

/// Games in the same state as a third are in the same state as each other.
proof fn lemma_same_state_trans(a: Game, b: Game, c: Game)
    requires
        a.same_state(b),
        b.same_state(c),
    ensures
        a.same_state(c),
{
    assert(same_lists(a.hands@, c.hands@));
    assert(same_lists(a.taken@, c.taken@));
}

/// What simulating a copy of a game can give, simulating the game can give.
proof fn lemma_outcome_of_copy(a: Game, b: Game, m: int, scores: Seq<Points>)
    requires
        a.same_state(b),
        legal_ids(a) == legal_ids(b),
        simulation_outcome(a, m, scores),
    ensures
        simulation_outcome(b, m, scores),
{
    let (g0, g1, ids) = choose|g0: Game, g1: Game, ids: Seq<Id>|
        #![trigger Game::get_playable_card_ids_post(g0, g1, ids)]
        g0.same_state(a) && Game::get_playable_card_ids_post(g0, g1, ids)
        && forall|i: int| 0 <= i < scores.len() ==> simulated_score(
            g1,
            hidden_of(g1.hands@, g1.deck@, a.active as int, a.options.players as int).to_multiset(),
            legal_ids(a)[i / m],
            team_of(a.active as int),
            #[trigger] scores[i] as int,
        );
    lemma_same_state_trans(g0, a, b);
}

impl BotMonte {
    /// Plays one random hand: the hidden cards are shuffled and dealt to the other
    /// players, the active player plays the card with this id, the rest is played at
    /// random, and the hand is scored; returns the team's points.
    fn simulate_once(game: &Game, hidden: &mut Vec<Card>, card_id: Id, team: usize, Ghost(cap): Ghost<int>, Ghost(lim): Ghost<int>) -> (score: Points)
        requires
            sim_ready(*game, cap, lim),
            !game.trick.is_complete(),
            game.hand(game.active as int).len() > 0,
            old(hidden)@.len() >= others_total(game.hands@, game.active as int, game.options.players as int),
            cards_in_range(old(hidden)@, cap),
            team < 2,
        ensures
            final(hidden)@.len() == old(hidden)@.len(),
            final(hidden)@.to_multiset() == old(hidden)@.to_multiset(),
            cards_in_range(final(hidden)@, cap),
            -5 * lim <= score <= 8 * lim,
            simulated_score(*game, old(hidden)@.to_multiset(), card_id, team as int, score as int),
    {
        let mut sim_game = game.duplicate();
        let ghost start = sim_game;
        proof {
            lemma_same_state_ready(sim_game, *game, cap, lim);
        }
        let ghost h0 = hidden@;
        shuffle(hidden);
        proof {
            lemma_shuffled_in_range(hidden@, h0, cap);
        }
        proof {
            lemma_others_total_same(sim_game.hands@, game.hands@, game.active as int, game.options.players as int);
        }
        redeal(&mut sim_game, hidden, game.active, Ghost(cap), Ghost(lim));
        let ghost g1 = sim_game;
        play_card_in_turn(&mut sim_game, card_id, Ghost(cap), Ghost(lim));
        let ghost g2 = sim_game;
        play_out(&mut sim_game, Ghost(cap), Ghost(lim));
        let ghost g3 = sim_game;
        let score = score_hand(&mut sim_game, team, Ghost(cap), Ghost(lim));
        proof {
            assert(redealt(start, g1, hidden@, game.active as int) && Game::play_card_id_post(g1, g2, card_id)
                && played_out(g2, g3));
        }
        score
    }

    /// Simulates `simulations` random hands for each card the active player may play,
    /// and returns the card whose hands score best for the player's team (the first on
    /// ties), its total, and every hand's score, card by card. The playable cards of the
    /// active hand are marked.
    pub fn run_simulations(&self, game: &mut Game, simulations: usize) -> (r: (Id, Points, Vec<Points>))
        requires
            sim_fits(*old(game), simulations as int),
            !old(game).trick.is_complete(),
            old(game).hand(old(game).active as int).len() > 0,
        ensures
            is_best_choice(legal_ids(*old(game)), simulations as int, r.0, r.1, r.2@),
            final(game).hand(old(game).active as int) == old(game).hand(old(game).active as int).map_values(
                |c: Card| Card { eligible: old(game).playable(c), ..c }),
            forall|q: int| 0 <= q < old(game).hands@.len() && q != old(game).active ==> #[trigger] final(game).hands@[q] == old(game).hands@[q],
            final(game).hands@.len() == old(game).hands@.len(),
            *final(game) == (Game { hands: final(game).hands, ..*old(game) }),
            simulation_outcome(*old(game), simulations as int, r.2@),
    {
        let ghost g_start = *game;
        let ghost bounds = choose|cap: int, lim: int| #[trigger] sim_ready(*game, cap, lim) && totals_fit(simulations as int, lim);
        let ghost cap = bounds.0;
        let ghost lim = bounds.1;
        let team = game.team_index(game.active);
        let legal_card_ids = mark_playable(game, Ghost(cap), Ghost(lim));
        let ghost gm = *game;
        let ghost legal = legal_card_ids@;
        let ghost m = simulations as int;
        proof {
            assert(game.hand(game.active as int).len() > 0);
        }
        let mut best_score: Points = isize::MIN;
        let mut all_scores: Vec<Points> = Vec::new();
        let mut best_card_id = legal_card_ids[0];
        let ghost mut best_index: int = 0;
        let mut hidden = hidden_cards(game, Ghost(cap));
        let ghost hm = hidden@.to_multiset();
        let n = legal_card_ids.len();
        assert(0 * m == 0);
        for c in 0..n
            invariant
                n == legal.len(),
                n > 0,
                legal_card_ids@ == legal,
                m == simulations,
                totals_fit(simulations as int, lim),
                team < 2,
                sim_ready(*game, cap, lim),
                !game.trick.is_complete(),
                game.hand(game.active as int).len() > 0,
                hidden@.len() >= others_total(game.hands@, game.active as int, game.options.players as int),
                cards_in_range(hidden@, cap),
                *game == gm,
                hidden@.to_multiset() == hm,
                forall|i: int| 0 <= i < all_scores@.len() ==> simulated_score(gm, hm, legal[i / m], team as int, #[trigger] all_scores@[i] as int),
                all_scores@.len() == c * m,
                c == 0 ==> best_score == isize::MIN && best_card_id == legal[0] && best_index == 0,
                c > 0 ==> {
                    &&& 0 <= best_index < c
                    &&& best_card_id == legal[best_index]
                    &&& best_score == block_sum(all_scores@, m, best_index)
                    &&& forall|k: int| 0 <= k < c ==> #[trigger] block_sum(all_scores@, m, k) <= best_score
                    &&& forall|k: int| 0 <= k < best_index ==> #[trigger] block_sum(all_scores@, m, k) < best_score
                },
        {
            let card_id = legal_card_ids[c];
            let ghost before = all_scores@;
            let mut sim_score: Points = 0;
            assert(c * m + m == (c + 1) * m) by (nonlinear_arith);
            for k in 0..simulations
                invariant
                    totals_fit(simulations as int, lim),
                    m == simulations,
                    team < 2,
                    sim_ready(*game, cap, lim),
                    !game.trick.is_complete(),
                    game.hand(game.active as int).len() > 0,
                    hidden@.len() >= others_total(game.hands@, game.active as int, game.options.players as int),
                    cards_in_range(hidden@, cap),
                    *game == gm,
                    hidden@.to_multiset() == hm,
                    c < n,
                    card_id == legal[c as int],
                    legal_card_ids@ == legal,
                    forall|i: int| 0 <= i < all_scores@.len() ==> simulated_score(gm, hm, legal[i / m], team as int, #[trigger] all_scores@[i] as int),
                    before.len() == c * m,
                    all_scores@.len() == c * m + k,
                    before == all_scores@.subrange(0, c * m),
                    sim_score == seq_sum(all_scores@.subrange(c * m, c * m + k)),
                    -((5 * lim) * k) <= sim_score <= (8 * lim) * k,
            {
                let score = Self::simulate_once(game, &mut hidden, card_id, team, Ghost(cap), Ghost(lim));
                let ghost prev = all_scores@;
                all_scores.push(score);
                proof {
                    lemma_block_index(c as int, m, k as int);
                    assert forall|i: int| 0 <= i < all_scores@.len() implies simulated_score(gm, hm, legal[i / m], team as int, #[trigger] all_scores@[i] as int) by {
                        if i < prev.len() {
                            assert(all_scores@[i] == prev[i]);
                        }
                    }
                    assert(all_scores@.subrange(c * m, c * m + k + 1).drop_last() == prev.subrange(c * m, c * m + k));
                    assert(all_scores@.subrange(0, c * m) == prev.subrange(0, c * m));
                    lemma_total_step(lim, k as int, simulations as int);
                }
                sim_score = sim_score + score;
            }
            proof {
                assert forall|k: int| 0 <= k < c implies #[trigger] block_sum(all_scores@, m, k) == block_sum(before, m, k) by {
                    lemma_block_stable(before, all_scores@, m, k, c as int);
                }
                assert(block_sum(all_scores@, m, c as int) == sim_score);
                if c > 0 {
                    assert(block_sum(before, m, best_index) == block_sum(all_scores@, m, best_index));
                }
            }
            if sim_score > best_score {
                best_score = sim_score;
                best_card_id = card_id;
                proof {
                    best_index = c as int;
                }
            }
            proof {
                assert(all_scores@.len() == (c + 1) * m);
            }
        }
        proof {
            assert(Game::get_playable_card_ids_post(g_start, gm, legal));
            assert(g_start.same_state(g_start));
            assert(forall|i: int| 0 <= i < all_scores@.len() ==> simulated_score(gm,
                hidden_of(gm.hands@, gm.deck@, g_start.active as int, g_start.options.players as int).to_multiset(),
                legal_ids(g_start)[i / m], team_of(g_start.active as int), #[trigger] all_scores@[i] as int));
            assert(is_best_choice(legal, m, best_card_id, best_score, all_scores@)) by {
                assert(all_scores@.len() == m * legal.len()) by (nonlinear_arith)
                    requires all_scores@.len() == n * m, n == legal.len();
            }
        }
        (best_card_id, best_score, all_scores)
    }
}

/// Whether the scores never decrease.
pub open spec fn is_ascending(s: Seq<Points>) -> bool {
    forall|i: int, j: int| 0 <= i <= j < s.len() ==> #[trigger] s[i] <= #[trigger] s[j]
}

/// Sorts the scores in ascending order.
pub fn sort_points(v: &mut Vec<Points>)
    ensures
        is_ascending(final(v)@),
        final(v)@.to_multiset() == old(v)@.to_multiset(),
{
    broadcast use vstd::seq_lib::group_to_multiset_ensures;
    let ghost s = v@;
    let mut r: Vec<Points> = Vec::new();
    let n = v.len();
    for i in 0..n
        invariant
            n == s.len(),
            v@ == s,
            is_ascending(r@),
            r@.to_multiset() == s.take(i as int).to_multiset(),
    {
        let x = v[i];
        let mut pos = r.len();
        while pos > 0 && r[pos - 1] > x
            invariant
                0 <= pos <= r@.len(),
                is_ascending(r@),
                forall|k: int| pos <= k < r@.len() ==> r@[k] > x,
            decreases pos,
        {
            pos = pos - 1;
        }
        let ghost before = r@;
        r.insert(pos, x);
        proof {
            assert(s.take(i + 1) == s.take(i as int).push(x));
            assert(r@ == before.insert(pos as int, x));
            before.insert_ensures(pos as int, x);
            assert forall|a: int, b: int| 0 <= a <= b < r@.len() implies #[trigger] r@[a] <= #[trigger] r@[b] by {
                if a < pos && b > pos {
                    assert(r@[a] == before[a]);
                    assert(r@[b] == before[b - 1]);
                } else if a < pos && b == pos {
                    assert(r@[a] == before[a]);
                    assert(before[pos - 1] <= x);
                    assert(before[a] <= before[pos - 1]);
                } else if a == pos && b > pos {
                    assert(r@[b] == before[b - 1]);
                } else if a > pos {
                    assert(r@[a] == before[a - 1]);
                    assert(r@[b] == before[b - 1]);
                } else if b < pos {
                    assert(r@[a] == before[a]);
                    assert(r@[b] == before[b]);
                }
            }
            assert(r@.to_multiset() == before.to_multiset().insert(x)) by {
                vstd::seq_lib::to_multiset_insert(before, pos as int, x);
            }
            s.take(i as int).to_multiset_ensures();
            assert(s.take(i as int).push(x).to_multiset() == s.take(i as int).to_multiset().insert(x));
        }
    }
    proof {
        assert(s.take(n as int) == s);
    }
    *v = r;
}

impl BotMonte {
    /// The bid for a sorted list of simulated scores: the score at `index` if it
    /// reaches the minimum bid (the minimum itself when the makers score the points
    /// they take), otherwise a pass.
    pub fn bid_for_scores(scores: &Vec<Points>, index: usize, min: Points, bidders_win: BiddersWin) -> (b: Bid)
        requires
            index < scores@.len(),
        ensures
            b == (if scores@[index as int] >= min {
                match bidders_win {
                    BiddersWin::PointsBid => Bid::Points(scores@[index as int]),
                    BiddersWin::PointsTaken => Bid::Points(min),
                }
            } else {
                Bid::Pass
            }),
    {
        let bid_pts = scores[index];
        let mut bid = Bid::Pass;
        if bid_pts >= min {
            match bidders_win {
                BiddersWin::PointsBid => {
                    bid = Bid::Points(bid_pts);
                },
                BiddersWin::PointsTaken => {
                    bid = Bid::Points(min);
                },
            }
        }
        bid
    }
}

/// A filter that keeps every element keeps the whole sequence.
pub(crate) proof fn lemma_filter_all<A>(s: Seq<A>, pred: spec_fn(A) -> bool)
    requires
        forall|i: int| 0 <= i < s.len() ==> pred(#[trigger] s[i]),
    ensures
        s.filter(pred) == s,
    decreases s.len(),
{
    if s.len() > 0 {
        lemma_filter_all(s.drop_last(), pred);
        s.drop_last().lemma_filter_push(s.last(), pred);
        assert(s.drop_last().push(s.last()) == s);
    } else {
        assert(s.filter(pred) =~= s);
    }
}

/// Changing jokers' suits keeps the cards' points.
proof fn lemma_jokers_in_range(s: Seq<Card>, suit: Suit, cap: int)
    requires
        cards_in_range(s, cap),
    ensures
        cards_in_range(crate::game::jokers_as(s, suit), cap),
        crate::game::jokers_as(s, suit).len() == s.len(),
{
    assert forall|i: int| 0 <= i < s.len() implies card_in_range(#[trigger] crate::game::jokers_as(s, suit)[i], cap) by {
        assert(card_in_range(s[i], cap));
    }
}

/// Changing jokers' suits keeps the cards' total points.
proof fn lemma_jokers_points(s: Seq<Card>, suit: Suit)
    ensures
        crate::game::sum_points(crate::game::jokers_as(s, suit)) == crate::game::sum_points(s),
    decreases s.len(),
{
    if s.len() > 0 {
        lemma_jokers_points(s.drop_last(), suit);
        assert(crate::game::jokers_as(s, suit).drop_last() == crate::game::jokers_as(s.drop_last(), suit));
    }
}

/// Sorting keeps the cards in range.
proof fn lemma_sorted_in_range(s: Seq<Card>, cap: int)
    requires
        cards_in_range(s, cap),
    ensures
        cards_in_range(crate::hand::sorted_hand(s), cap),
        crate::hand::sorted_hand(s).len() == s.len(),
{
    crate::hand::lemma_sorted_hand(s);
    lemma_shuffled_in_range(crate::hand::sorted_hand(s), s, cap);
}

/// Whether the bot can simulate its bid: the game as it bids (`bidding_state`) fits
/// simulating `n` hands for each card (as `sim_fits` says), with the cards of the
/// exchange worth between 0 and the same card bound.
pub open spec fn bid_fits(g: Game, n: int) -> bool {
    exists|cap: int, lim: int| #[trigger] sim_ready(bidding_state(g), cap, lim)
        && cards_in_range(g.exchange@, cap) && totals_fit(n, lim)
}

/// The game the bot simulates when it bids: the active player is the maker of a bid
/// yet to be set.
pub open spec fn bidding_state(g: Game) -> Game {
    Game { maker: Some(g.active), high_bid: 0, ..g }
}

impl BotMonte {
    /// The simulated scores on which the bot bases its bid, in ascending order: the
    /// active player is made the maker with the best suit of the hand as trump, and the
    /// hand is simulated `simulations` times for each card of the hand.
    pub fn bid_scores(&self, game: &Game, simulations: usize) -> (r: Vec<Points>)
        requires
            bid_fits(*game, simulations as int),
            game.trick.lead_suit.is_none(),
            !game.trick.is_complete(),
            game.hand(game.active as int).len() > 0,
            suit_score(game.hand(game.active as int), Suit::Club) <= u8::MAX,
            suit_score(game.hand(game.active as int), Suit::Diamond) <= u8::MAX,
            suit_score(game.hand(game.active as int), Suit::Heart) <= u8::MAX,
            suit_score(game.hand(game.active as int), Suit::Spade) <= u8::MAX,
        ensures
            is_ascending(r@),
            r@.len() == simulations * game.hand(game.active as int).len(),
            exists|g0: Game, g1: Game, scores: Seq<Points>|
                #![trigger Game::set_trump_suit_post(g0, g1, best_suit_of(game.hand(game.active as int))), simulation_outcome(Game { active: game.active, ..g1 }, simulations as int, scores)]
                g0.same_state(bidding_state(*game))
                && Game::set_trump_suit_post(g0, g1, best_suit_of(game.hand(game.active as int)))
                && simulation_outcome(Game { active: game.active, ..g1 }, simulations as int, scores)
                && r@.to_multiset() == scores.to_multiset(),
    {
        let ghost bounds = choose|cap: int, lim: int| #[trigger] sim_ready(bidding_state(*game), cap, lim)
            && cards_in_range(game.exchange@, cap) && totals_fit(simulations as int, lim);
        let ghost cap = bounds.0;
        let ghost lim = bounds.1;
        let mut sim_game = game.duplicate();
        proof {
            lemma_same_state_ready(Game { maker: Some(game.active), high_bid: 0, ..sim_game }, bidding_state(*game), cap, lim);
        }
        let suit = self.best_suit(sim_game.active_hand());
        sim_game.maker = Some(sim_game.active);
        sim_game.high_bid = 0;
        let ghost g0 = sim_game;
        sim_game.set_trump_suit(suit);
        let ghost g1 = sim_game;
        sim_game.active = game.active;
        proof {
            let n = g0.options.players as int;
            let a = g0.active as int;
            assert forall|p: int| 0 <= p < sim_game.hands@.len() implies cards_in_range(#[trigger] sim_game.hands@[p]@, cap)
                && sim_game.hands@[p]@.len() == g0.hands@[p]@.len() by {
                assert(cards_in_range(g0.hands@[p]@, cap));
                lemma_jokers_in_range(g0.hand(p), suit, cap);
                if p == 0 {
                    lemma_sorted_in_range(g0.hand(0), cap);
                    lemma_sorted_in_range(crate::game::jokers_as(g0.hand(0), suit), cap);
                } else {
                    assert(sim_game.hand(p) == crate::game::jokers_as(g0.hand(p), suit) || sim_game.hands@[p] == g0.hands@[p]);
                }
            }
            crate::simulation::lemma_total_cards_same_lengths(sim_game.hands@, g0.hands@);
            lemma_jokers_in_range(g0.nest@, suit, cap);
            lemma_jokers_points(g0.nest@, suit);
            lemma_jokers_in_range(g0.deck@, suit, cap);
            assert forall|p: int, q: int| 0 <= p < n && 0 <= q < n implies
                #[trigger] crate::simulation::weight(sim_game, p) == #[trigger] crate::simulation::weight(sim_game, q) by {
                assert(crate::simulation::weight(g0, p) == crate::simulation::weight(g0, q));
            }
            assert forall|j: int| 0 <= j < n implies (crate::simulation::filled(sim_game, #[trigger] crate::game::seat_after(sim_game.active as int, j, n))
                <==> j >= n - crate::simulation::played_count(sim_game.trick.cards@)) by {
                assert(crate::simulation::filled(g0, crate::game::seat_after(g0.active as int, j, n))
                    <==> j >= n - crate::simulation::played_count(g0.trick.cards@));
            }
            assert(sim_ready(sim_game, cap, lim));
            assert(sim_ready(sim_game, cap, lim) && totals_fit(simulations as int, lim));
        }
        let ghost before_run = sim_game;
        proof {
            let h = before_run.hand(before_run.active as int);
            assert(!before_run.must_follow());
            lemma_filter_all(h, |c: Card| before_run.playable(c));
            assert(h.len() == game.hand(game.active as int).len()) by {
                if game.active == 0 {
                    crate::hand::lemma_sorted_hand(crate::game::jokers_as(g0.hand(0), suit));
                    crate::hand::lemma_sorted_hand(g0.hand(0));
                }
                assert(g0.hand(game.active as int) == game.hand(game.active as int)) by {
                    assert(g0.hands@[game.active as int]@ == game.hands@[game.active as int]@);
                }
            }
        }
        let (_id, _best_score, mut all_scores) = self.run_simulations(&mut sim_game, simulations);
        let ghost unsorted = all_scores@;
        sort_points(&mut all_scores);
        proof {
            broadcast use vstd::seq_lib::group_to_multiset_ensures;
            assert(all_scores@.len() == all_scores@.to_multiset().len());
            assert(unsorted.len() == unsorted.to_multiset().len());
            assert(g0.hand(g0.active as int) == game.hand(game.active as int)) by {
                assert(g0.hands@[game.active as int]@ == game.hands@[game.active as int]@);
            }
            assert(g0.same_state(bidding_state(*game)));
            assert(before_run == Game { active: game.active, ..g1 });
            assert(Game::set_trump_suit_post(g0, g1, best_suit_of(game.hand(game.active as int)))
                && simulation_outcome(Game { active: game.active, ..g1 }, simulations as int, unsorted));
        }
        all_scores
    }
}

/// Whether the game is ready for the bot to weigh discards of `size` cards: within
/// bounds that fit and leave room for the total of 100 simulated scores, the active
/// player holds `size` cards more than each other player, and no card has been played
/// or led.
pub open spec fn discard_ready(g: Game, size: int) -> bool {
    &&& exists|cap: int, lim: int| #[trigger] sim_base(g, cap, lim) && totals_fit(100, lim)
    &&& g.trick.lead_suit.is_none()
    &&& g.trick.is_empty()
    &&& g.hand(g.active as int).len() > size
    &&& forall|p: int| 0 <= p < g.options.players && p != g.active ==> #[trigger] g.hand(p).len() + size == g.hand(g.active as int).len()
}

/// The ids of the eligible cards at the positions of the choice.
pub open spec fn chosen_ids(eligible: Seq<Card>, combo: Seq<usize>) -> Seq<Id> {
    combo.map_values(|i: usize| eligible[i as int].id)
}

/// The hand after the card at each position of the choice, from the last position to
/// the first, is removed and the hand's last card moved into its place.
pub open spec fn swap_removed(h: Seq<Card>, combo: Seq<usize>) -> Seq<Card>
    decreases combo.len(),
{
    if combo.len() == 0 {
        h
    } else {
        swap_removed(h.update(combo.last() as int, h.last()).drop_last(), combo.drop_last())
    }
}

/// Removes from the active hand, from the last position of the choice to the first,
/// the card at each position, moving the hand's last card into its place.
fn remove_choice(sim: &mut Game, combo: &Vec<usize>, Ghost(n): Ghost<int>)
    requires
        old(sim).active < old(sim).hands@.len(),
        is_increasing_choice(combo@, combo@.len() as int, n),
        n <= old(sim).hand(old(sim).active as int).len(),
    ensures
        final(sim).hands@.len() == old(sim).hands@.len(),
        final(sim).hand(old(sim).active as int).len() == old(sim).hand(old(sim).active as int).len() - combo@.len(),
        forall|j: int| 0 <= j < final(sim).hand(old(sim).active as int).len() ==>
            old(sim).hand(old(sim).active as int).contains(#[trigger] final(sim).hand(old(sim).active as int)[j]),
        final(sim).hands@ == old(sim).hands@.update(old(sim).active as int, final(sim).hands@[old(sim).active as int]),
        *final(sim) == (Game { hands: final(sim).hands, ..*old(sim) }),
        final(sim).hand(old(sim).active as int) == swap_removed(old(sim).hand(old(sim).active as int), combo@),
{
    let a = sim.active;
    let ghost h0 = sim.hand(a as int);
    let k = combo.len();
    let mut j = k;
    assert(combo@.take(k as int) == combo@);
    while j > 0
        invariant
            a == old(sim).active,
            a < sim.hands@.len(),
            sim.hands@.len() == old(sim).hands@.len(),
            h0 == old(sim).hand(a as int),
            k == combo@.len(),
            0 <= j <= k,
            is_increasing_choice(combo@, k as int, n),
            n <= h0.len(),
            sim.hand(a as int).len() == h0.len() - (k - j),
            forall|t: int| 0 <= t < sim.hand(a as int).len() ==> h0.contains(#[trigger] sim.hand(a as int)[t]),
            sim.hands@ == old(sim).hands@.update(a as int, sim.hands@[a as int]),
            *sim == (Game { hands: sim.hands, ..*old(sim) }),
            swap_removed(h0, combo@) == swap_removed(sim.hand(a as int), combo@.take(j as int)),
        decreases j,
    {
        let idx = combo[j - 1];
        proof {
            lemma_choice_room(combo@, k as int, n, j - 1);
        }
        let ghost before = sim.hand(a as int);
        let ghost hs = sim.hands@;
        sim.hands[a].swap_remove(idx);
        proof {
            assert forall|t: int| 0 <= t < sim.hand(a as int).len() implies h0.contains(#[trigger] sim.hand(a as int)[t]) by {
                if t == idx {
                    assert(sim.hand(a as int)[t] == before[before.len() - 1]);
                } else {
                    assert(sim.hand(a as int)[t] == before[t]);
                }
            }
            assert(sim.hands@ == hs.update(a as int, sim.hands@[a as int]));
            let t = combo@.take(j as int);
            assert(t.last() == idx && t.drop_last() == combo@.take(j - 1));
            assert(sim.hand(a as int) == before.update(idx as int, before.last()).drop_last());
        }
        j = j - 1;
    }
    proof {
        assert(combo@.take(0) == Seq::<usize>::empty());
    }
}

/// Whether `i` is the first position of the greatest value.
pub open spec fn is_first_max(values: Seq<Points>, i: int) -> bool {
    &&& 0 <= i < values.len()
    &&& forall|k: int| 0 <= k < values.len() ==> #[trigger] values[k] <= values[i]
    &&& forall|k: int| 0 <= k < i ==> #[trigger] values[k] < values[i]
}

/// The position of the greatest value, the first on ties.
pub fn first_best_index(values: &Vec<Points>) -> (i: usize)
    requires
        values@.len() > 0,
    ensures
        is_first_max(values@, i as int),
{
    let mut best: usize = 0;
    let n = values.len();
    for k in 1..n
        invariant
            n == values@.len(),
            n > 0,
            is_first_max(values@.take(k as int), best as int),
    {
        if values[k] > values[best] {
            best = k;
        }
        proof {
            assert(values@.take(k + 1).drop_last() == values@.take(k as int));
        }
    }
    assert(values@.take(n as int) == values@);
    best
}

/// Whether `mean` is what the bot can find for discarding the choice `combo` of the
/// eligible cards: in a copy of the game whose active hand has the cards at the choice's
/// positions removed as `swap_removed` says, the mean of the simulated scores, rounded
/// toward zero, with 100 hands for each playable card.
pub open spec fn discard_mean(game: Game, combo: Seq<usize>, mean: Points) -> bool {
    exists|g0: Game, sim: Game, scores: Seq<Points>|
        #![trigger g0.same_state(game), simulation_outcome(sim, 100, scores)]
        g0.same_state(game)
        && sim.hands@ == g0.hands@.update(game.active as int, sim.hands@[game.active as int])
        && sim.hand(game.active as int) == swap_removed(g0.hand(game.active as int), combo)
        && sim == (Game { hands: sim.hands, ..g0 })
        && simulation_outcome(sim, 100, scores)
        && scores.len() > 0
        && mean == crate::game::trunc_div(seq_sum(scores), scores.len() as int)
}

impl BotMonte {
    /// Chooses the bot's play: the card whose simulated hands score best.
    pub fn get_play(&self, game: &mut Game, simulations: usize) -> (r: PlayerAction)
        requires
            sim_fits(*old(game), simulations as int),
            !old(game).trick.is_complete(),
            old(game).hand(old(game).active as int).len() > 0,
        ensures
            r matches PlayerAction::PlayCard(id) && legal_ids(*old(game)).contains(id)
                && exists|best: Points, scores: Seq<Points>| #[trigger] is_best_choice(
                legal_ids(*old(game)),
                simulations as int,
                id,
                best,
                scores,
            ) && simulation_outcome(*old(game), simulations as int, scores),
            *final(game) == *old(game),
    {
        let ghost bounds = choose|cap: int, lim: int| #[trigger] sim_ready(*game, cap, lim) && totals_fit(simulations as int, lim);
        let mut sim_game = game.duplicate();
        proof {
            lemma_same_state_ready(sim_game, *game, bounds.0, bounds.1);
            assert(sim_ready(sim_game, bounds.0, bounds.1) && totals_fit(simulations as int, bounds.1));
            assert(sim_game.hand(sim_game.active as int) == game.hand(game.active as int));
            assert(sim_game.must_follow() == game.must_follow());
            assert((|c: Card| sim_game.playable(c)) =~= (|c: Card| game.playable(c)));
            assert(legal_ids(sim_game) == legal_ids(*game));
        }
        let ghost g0 = sim_game;
        let (best_play_id, _score, _all_scores) = self.run_simulations(&mut sim_game, simulations);
        proof {
            let legal = legal_ids(g0);
            let i = choose|i: int| {
                &&& 0 <= i < legal.len()
                &&& best_play_id == legal[i]
                &&& _score == #[trigger] block_sum(_all_scores@, simulations as int, i)
                &&& forall|k: int| 0 <= k < legal.len() ==> #[trigger] block_sum(_all_scores@, simulations as int, k) <= _score
                &&& forall|k: int| 0 <= k < i ==> #[trigger] block_sum(_all_scores@, simulations as int, k) < _score
            };
            assert(legal.contains(best_play_id));
            assert(is_best_choice(legal_ids(*game), simulations as int, best_play_id, _score, _all_scores@));
            lemma_outcome_of_copy(g0, *game, simulations as int, _all_scores@);
        }
        PlayerAction::PlayCard(best_play_id)
    }

    /// Chooses the bot's discards: for every choice of `exchange_size` of the eligible
    /// cards, the hand without them is simulated 100 times for each playable card, and
    /// the choice with the best mean score is discarded (the first on ties).
    pub fn choose_discards(&self, game: &Game, exchange_size: usize) -> (r: PlayerAction)
        requires
            discard_ready(*game, exchange_size as int),
            1 <= exchange_size <= eligible_cards(game.hand(game.active as int)).len(),
        ensures
            r matches PlayerAction::Discard(ids) && exists|combos: Seq<Seq<usize>>, means: Seq<Points>, best: int|
                #![trigger is_choice_list(combos, exchange_size as int, eligible_cards(game.hand(game.active as int)).len() as int), is_first_max(means, best)]
                is_choice_list(combos, exchange_size as int, eligible_cards(game.hand(game.active as int)).len() as int)
                && means.len() == combos.len()
                && (forall|i: int| 0 <= i < combos.len() ==> #[trigger] discard_mean(*game, combos[i], means[i]))
                && is_first_max(means, best)
                && ids@ == chosen_ids(eligible_cards(game.hand(game.active as int)), combos[best]),
            r matches PlayerAction::Discard(ids) && (crate::laws::distinct_ids(eligible_cards(game.hand(game.active as int)))
                ==> ids@.no_duplicates()),
    {
        let eligible = Self::collect_eligible(game.active_hand());
        let ghost el = eligible@;
        let mut indices: Vec<usize> = Vec::new();
        let ne = eligible.len();
        for i in 0..ne
            invariant
                indices@.len() == i,
                forall|t: int| 0 <= t < i ==> #[trigger] indices@[t] == t,
        {
            indices.push(i);
        }
        let idx_combos = choices_of(&indices, exchange_size);
        let ghost combos = idx_combos@.map_values(|v: Vec<usize>| v@);
        proof {
            lemma_choices_nonempty(idx_combos@, exchange_size as int, ne as int);
            el.lemma_filter_len(|c: Card| c.eligible);
            assert forall|s: Seq<usize>| 1 <= exchange_size && #[trigger] is_increasing_choice(s, exchange_size as int, ne as int)
                implies exists|i: int| 0 <= i < combos.len() && #[trigger] combos[i] == s by {
                let k = choose|k: int| 0 <= k < idx_combos@.len() && (#[trigger] idx_combos@[k])@ == s;
                assert(combos[k] == s);
            }
            assert forall|a: int, b: int| 0 <= a < b < combos.len() implies lex_less(#[trigger] combos[a], #[trigger] combos[b]) by {
                assert(lex_less(idx_combos@[a]@, idx_combos@[b]@));
            }
            assert(is_choice_list(combos, exchange_size as int, ne as int));
        }
        let mut means: Vec<Points> = Vec::new();
        let nc = idx_combos.len();
        for ci in 0..nc
            invariant
                nc == idx_combos@.len(),
                ne == el.len(),
                el == eligible_cards(game.hand(game.active as int)),
                ne <= game.hand(game.active as int).len(),
                discard_ready(*game, exchange_size as int),
                combos == idx_combos@.map_values(|v: Vec<usize>| v@),
                forall|k: int| 0 <= k < idx_combos@.len() ==> is_increasing_choice(#[trigger] idx_combos@[k]@, exchange_size as int, ne as int),
                means@.len() == ci,
                forall|i: int| 0 <= i < ci ==> #[trigger] discard_mean(*game, combos[i], means@[i]),
        {
            let combo = &idx_combos[ci];
            let mut sim_game = game.duplicate();
            proof {
                assert(is_increasing_choice(idx_combos@[ci as int]@, exchange_size as int, ne as int));
            }
            let ghost g0 = sim_game;
            remove_choice(&mut sim_game, combo, Ghost(ne as int));
            proof {
                self.lemma_discard_sim_ready(*game, g0, sim_game, exchange_size as int);
            }
            let ghost sim = sim_game;
            let (_id, _best_score, all_scores) = self.run_simulations(&mut sim_game, 100);
            let mean = mean_of(&all_scores);
            let ghost before = means@;
            means.push(mean);
            proof {
                assert(discard_mean(*game, combos[ci as int], mean)) by {
                    assert(combos[ci as int] == combo@);
                    assert(g0.same_state(*game) && simulation_outcome(sim, 100, all_scores@));
                }
                assert forall|i: int| 0 <= i < ci + 1 implies #[trigger] discard_mean(*game, combos[i], means@[i]) by {
                    if i < ci {
                        assert(means@[i] == before[i]);
                    }
                }
            }
        }
        let best = first_best_index(&means);
        let best_combo = &idx_combos[best];
        let mut discards: Vec<Id> = Vec::new();
        let k = best_combo.len();
        proof {
            assert(is_increasing_choice(idx_combos@[best as int]@, exchange_size as int, ne as int));
        }
        for t in 0..k
            invariant
                k == best_combo@.len(),
                ne == eligible@.len(),
                is_increasing_choice(best_combo@, exchange_size as int, ne as int),
                discards@ == best_combo@.take(t as int).map_values(|i: usize| eligible@[i as int].id),
        {
            let idx = best_combo[t];
            discards.push(eligible[idx].id);
            proof {
                assert(best_combo@.take(t + 1) == best_combo@.take(t as int).push(idx));
                assert(best_combo@.take(t + 1).map_values(|i: usize| eligible@[i as int].id)
                    == best_combo@.take(t as int).map_values(|i: usize| eligible@[i as int].id).push(eligible@[idx as int].id));
            }
        }
        proof {
            assert(best_combo@.take(k as int) == best_combo@);
            assert(discards@ == chosen_ids(el, combos[best as int]));
            if crate::laws::distinct_ids(el) {
                assert forall|i: int, j: int| 0 <= i < discards@.len() && 0 <= j < discards@.len() && i != j
                    implies discards@[i] != discards@[j] by {
                    let bc = best_combo@;
                    if i < j {
                        assert(bc[i] < bc[j]);
                        assert(el[bc[i] as int].id != el[bc[j] as int].id);
                    } else {
                        assert(bc[j] < bc[i]);
                        assert(el[bc[j] as int].id != el[bc[i] as int].id);
                    }
                }
            }
            assert(is_choice_list(combos, exchange_size as int, ne as int) && is_first_max(means@, best as int));
        }
        PlayerAction::Discard(discards)
    }

    /// After the choice is removed, the simulated game is ready.
    proof fn lemma_discard_sim_ready(&self, game: Game, g0: Game, sim: Game, size: int)
        requires
            size >= 0,
            discard_ready(game, size),
            g0.same_state(game),
            sim.hands@.len() == g0.hands@.len(),
            sim.hand(g0.active as int).len() == g0.hand(g0.active as int).len() - size,
            forall|j: int| 0 <= j < sim.hand(g0.active as int).len() ==> g0.hand(g0.active as int).contains(#[trigger] sim.hand(g0.active as int)[j]),
            sim.hands@ == g0.hands@.update(g0.active as int, sim.hands@[g0.active as int]),
            sim == (Game { hands: sim.hands, ..g0 }),
        ensures
            sim_fits(sim, 100),
            !sim.trick.is_complete(),
            sim.hand(sim.active as int).len() > 0,
    {
        let (cap, lim) = choose|cap: int, lim: int| #[trigger] sim_base(game, cap, lim) && totals_fit(100, lim);
        let n = game.options.players as int;
        let a = game.active as int;
        assert forall|p: int| 0 <= p < g0.hands@.len() implies #[trigger] g0.hand(p) == game.hand(p) by {
            assert(g0.hands@[p]@ == game.hands@[p]@);
        }
        crate::simulation::lemma_total_cards_update(g0.hands@, a, sim.hands@[a]);
        crate::simulation::lemma_total_cards_same_lengths(g0.hands@, game.hands@);
        crate::simulation::lemma_played_count_extremes(sim.trick.cards@);
        assert(sim.trick.cards@[0].is_none());
        assert forall|p: int| 0 <= p < sim.hands@.len() implies cards_in_range(#[trigger] sim.hands@[p]@, cap) by {
            assert(cards_in_range(game.hands@[p]@, cap));
            if p != a {
                assert(sim.hands@[p] == g0.hands@[p]);
                assert(g0.hands@[p]@ == game.hands@[p]@);
            } else {
                assert forall|j: int| 0 <= j < sim.hands@[p]@.len() implies card_in_range(#[trigger] sim.hands@[p]@[j], cap) by {
                    assert(g0.hand(a).contains(sim.hand(a)[j]));
                    let w = choose|w: int| 0 <= w < g0.hand(a).len() && g0.hand(a)[w] == sim.hand(a)[j];
                    assert(card_in_range(game.hands@[a]@[w], cap));
                }
            }
        }
        assert forall|p: int, q: int| 0 <= p < n && 0 <= q < n implies
            #[trigger] crate::simulation::weight(sim, p) == #[trigger] crate::simulation::weight(sim, q) by {
            assert(sim.trick.cards@ == game.trick.cards@);
            assert(!crate::simulation::filled(sim, p));
            assert(!crate::simulation::filled(sim, q));
            if p != a {
                assert(sim.hands@[p] == g0.hands@[p]);
                assert(game.hand(p).len() + size == game.hand(a).len());
            }
            if q != a {
                assert(sim.hands@[q] == g0.hands@[q]);
                assert(game.hand(q).len() + size == game.hand(a).len());
            }
        }
        assert forall|j: int| 0 <= j < n implies (crate::simulation::filled(sim, #[trigger] crate::game::seat_after(sim.active as int, j, n))
            <==> j >= n - crate::simulation::played_count(sim.trick.cards@)) by {
            crate::simulation::lemma_seat_facts(a, j, n);
            assert(sim.trick.cards@ == game.trick.cards@);
        }
        crate::simulation::lemma_total_cards_nonneg(sim.hands@);
        assert(sim.nest@ == game.nest@);
        assert(sim.trick.cards@ == game.trick.cards@);
        assert(total_cards_eq(sim, game, size));
        let t = crate::simulation::total_cards(game.hands@);
        assert(cap * (t - size) <= cap * t) by (nonlinear_arith)
            requires cap >= 0, size >= 0;
        assert(crate::simulation::sim_base(sim, cap, lim));
        assert(crate::simulation::in_turn(sim));
        assert(crate::simulation::balanced(sim));
        assert(sim_ready(sim, cap, lim) && totals_fit(100, lim));
    }
}

/// The simulated hands hold `size` fewer cards than the game's.
spec fn total_cards_eq(sim: Game, game: Game, size: int) -> bool {
    crate::simulation::total_cards(sim.hands@) == crate::simulation::total_cards(game.hands@) - size
}

/// The mean of the scores, rounded toward zero.
fn mean_of(scores: &Vec<Points>) -> (mean: Points)
    requires
        scores@.len() > 0,
    ensures
        mean == crate::game::trunc_div(seq_sum(scores@), scores@.len() as int),
{
    let n = scores.len();
    let mut total: i128 = 0;
    for i in 0..n
        invariant
            n == scores@.len(),
            n > 0,
            total == seq_sum(scores@.take(i as int)),
            i * (isize::MIN as int) <= total <= i * (isize::MAX as int),
    {
        proof {
            assert(scores@.take(i + 1).drop_last() == scores@.take(i as int));
            lemma_mean_step(i as int);
        }
        total = total + scores[i] as i128;
    }
    assert(scores@.take(n as int) == scores@);
    let q = total / (n as i128);
    proof {
        lemma_mean_bounds(total as int, n as int);
    }
    q as isize
}

/// One more score keeps a total of fewer than 2^64 scores within an `i128`.
proof fn lemma_mean_step(i: int)
    requires
        0 <= i < 0x1_0000_0000_0000_0000,
    ensures
        (i + 1) * (isize::MIN as int) == i * (isize::MIN as int) + isize::MIN,
        (i + 1) * (isize::MAX as int) == i * (isize::MAX as int) + isize::MAX,
        i128::MIN <= (i + 1) * (isize::MIN as int),
        (i + 1) * (isize::MAX as int) <= i128::MAX,
{
    let lo = isize::MIN as int;
    let hi = isize::MAX as int;
    assert(-0x8000_0000_0000_0000 <= lo <= 0 <= hi < 0x8000_0000_0000_0000);
    assert((i + 1) * lo == i * lo + lo) by (nonlinear_arith);
    assert((i + 1) * hi == i * hi + hi) by (nonlinear_arith);
    assert(-0x8000_0000_0000_0000_0000_0000_0000_0000 <= (i + 1) * lo) by (nonlinear_arith)
        requires 0 <= i < 0x1_0000_0000_0000_0000, -0x8000_0000_0000_0000 <= lo <= 0;
    assert((i + 1) * hi <= 0x7fff_ffff_ffff_ffff_ffff_ffff_ffff_ffff) by (nonlinear_arith)
        requires 0 <= i < 0x1_0000_0000_0000_0000, 0 <= hi < 0x8000_0000_0000_0000;
}

/// The mean of `n` values of an `isize`, rounded toward zero, is an `isize`.
proof fn lemma_mean_bounds(total: int, n: int)
    requires
        n > 0,
        n * (isize::MIN as int) <= total <= n * (isize::MAX as int),
    ensures
        isize::MIN <= crate::game::trunc_div(total, n) <= isize::MAX,
{
    let lo = isize::MIN as int;
    let hi = isize::MAX as int;
    assert(lo <= 0 <= hi && lo == -hi - 1);
    if total >= 0 {
        assert(total / n <= hi) by (nonlinear_arith)
            requires n > 0, 0 <= total <= n * hi;
        assert(total / n >= 0) by (nonlinear_arith)
            requires n > 0, 0 <= total;
    } else {
        assert(n * lo == -(n * (hi + 1))) by (nonlinear_arith)
            requires lo == -hi - 1;
        assert((-total) / n <= hi + 1) by (nonlinear_arith)
            requires n > 0, 0 <= -total <= n * (hi + 1);
        assert((-total) / n >= 0) by (nonlinear_arith)
            requires n > 0, 0 <= -total;
    }
}

} // verus!
