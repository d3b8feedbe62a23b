# Whiskey

The rules and game state of Whiskey, a trick-taking card game for four players in
two teams, with bidding, an exchange of cards with the maker, a trump suit, jokers and
Monte Carlo bots, written in Verus with its behaviour stated in contracts and proved.

## Layout

- `src/card.rs`, `src/card_order.rs`: cards, how they are written and ordered.
- `src/hand.rs`: sorting hands, face-down-first ordering.
- `src/game_options.rs`: the options of a game and the preset games.
- `src/scoring.rs`: the score sheet of a hand and a game.
- `src/trick.rs`: playing a card to a trick and who takes it.
- `src/game.rs`: the game: dealing, bidding, the exchange, trump, play and scoring.
- `src/controller.rs`: one step of the game at a time, as a function from the game and
  an action to the next action, what the view shows and which bot to ask.
- `src/simulation.rs`, `src/bot_monte.rs`, `src/combos.rs`: the bots, which simulate
  the rest of the hand at random to choose bids, discards and plays.
- `src/readiness.rs`: the conditions of the bots' and steps' methods, computed, so that
  callers can check them first.
- `src/random.rs`: the random numbers the game and the bots use.
- `src/conservation.rs`, `src/laws.rs`: properties that hold across the operations,
  such as that no step loses a card or makes one up.
- `tests/`: tests of the library.
- `app/`: the program: the window, the view, the options file and the bot threads.
