# ortalab

Scoring of a single round of Ortalab (a simplified subset of Balatro), as a
library whose behaviour is stated in contracts and proved with Verus, plus a
small command around it.

## Layout

- `src/cards.rs` — ranks, suits, enhancements, editions, jokers, cards, the
  round, and the fixed tables (rank chips, face ranks, base chips and mult of
  each poker hand, which cards count as which suit).
- `src/ranks.rs` — counting the ranks of the non-stone cards (a map from rank
  number to count) and the rank-based hands (pairs, three and four of a kind, full house).
- `src/patterns.rs` — combinations of the non-stone cards, straights and
  flushes, and the search for the first one among five (or, with Four Fingers,
  four) cards.
- `src/hands.rs` — the best poker hand of the played cards.
- `src/selection.rs` — which played cards score for that hand.
- `src/jokers.rs` — Blueprint resolution, the lowest held card, the Flower
  Pot's suit cover.
- `src/score.rs` — the full scoring of a round as an ordered list of steps
  (add chips, add mult, multiply mult).
- `src/classic.rs` — the scoring that the command performs (the hand judged
  without jokers, and only the independent bonuses of the basic jokers and
  the Abstract Joker).
- `src/laws.rs` — properties that hold for every round (stone cards always
  score, Splash scores every card, Blueprint copies to the right, Shortcut,
  Smeared Joker and Four Fingers only widen, the straight condition is the
  sorted-run condition, the scoring cards are well formed and never missing).
- `src/joker_laws.rs` — a plain Joker placed last adds one +4 mult step after
  every other effect.
- `src/hand_laws.rs` — the poker hand ignores the order of the played cards
  and of the jokers, and a stone card slipped in among at most four cards.
- `src/input.rs` — reading a round from its YAML text: the text is parsed by
  serde_yaml into ortalib's round, and the decoding of its fields into the
  library's types is verified.
- `app/` — the command: argument handling, reading the round's text from a
  file or standard input, and applying the steps in floating point.
- `tests/` — scenario tests.

Chips and mult are floating-point numbers in the game's own types; the
library produces the exact steps, and the command (and the tests) apply them
in `f64`.
