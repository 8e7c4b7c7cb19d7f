# pt_core inference core

Verified building blocks of a Bayesian process-triage engine: the discrete
decisions, data structures and texts of its inference modules, proved with
Verus.

- `src/` — the verified library. Process forests and their traversal orders
  (`belief_prop`), context-tree weighting counts (`ctw`), dwell bookkeeping of
  the semi-Markov model (`hsmm`), dependency-impact categories, child counts
  and explanations (`impact`), confidence badges and status lines
  (`confidence_viz`), neighbor graphs (`graph_smoothing`), and the labels and
  error texts of the other models.
- `tests/` — tests of the library.
- `app/` — the floating-point numerics (message passing, log-losses, scores),
  `/proc` inspection and serde/thiserror types around the library.
