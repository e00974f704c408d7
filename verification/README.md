# blackjack

A blackjack game engine with its rules proved in Verus, and the REST server
that plays it.

- `src/game/card.rs` — suits, ranks, the six-deck shoe and its shuffle.
- `src/game/hand.rs` — hands and their scoring (soft and hard Aces).
- `src/game/state.rs` — the table: phases, legal actions, drawing from the shoe.
- `src/game/dealer.rs` — the house rule: hit on 16 or less, stand on 17 or more.
- `src/game/rules.rs` — the rules of a round as spec functions: settlement,
  headroom of the chip count, and what each player action leads to.
- `src/game/actions.rs` — deal, hit, stand, double, split, insurance, new hand
  and settlement, each proved against `rules.rs`.
- `src/handlers.rs` — the client view of a game (the hole card stays hidden).
- `src/session.rs` — the table of live sessions and their expiry.
- `app/` — the HTTP server (axum), the command line, the shared session store
  and the JSON shapes of the library's types.
