# duels_agents

The decision logic of two game-playing agents for a two-player
card-drafting game, verified with Verus:

- a one-ply evaluator whose terminal "rails" recognise a position that is
  already won (the mover can close the game, or the waiting player holds a
  close no reply can take away), and whose forward-looking terms decide
  which table entry each card reads;
- a Monte Carlo tree search over an index arena of decision, chance and
  terminal nodes, searched as an ensemble of determinized trees whose root
  visits are pooled.

## Layout

- `src/` — the verified library. Positions are handed in as plain values
  (`rails::RailPosition`, `terms::TurnView`, `menu::BoardView`, …); every
  function states what it returns in its `ensures`, and the laws that span
  functions are public proof functions (`lemma_*`). The only outside calls
  are the random draws in `src/rng.rs`.
- `tests/` — scenarios on concrete values for each module.
- `app/` — the floating-point side: value sums, UCB1, the progressive
  widening allowance, and the weight tables the playout and the evaluation
  apply to the entries the library picks out.
