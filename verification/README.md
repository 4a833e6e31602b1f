# mdlc

Readers and writers around compiled models, as a Verus library.

- `src/qc/`: model scripts. `lexer` takes text apart, `read` reads words and numbers, one module
  for each family of commands (`settings`, `body`, `sequence`, `collision`, ...), `flexrule`
  compiles flex expressions, `parse` runs a script and completes the model. `laws`,
  `alike` and `joining` hold what is proved of every script.
- `src/smd.rs`, `src/vta.rs`: meshes with skeletons, and vertex animations.
- `src/phy/`: collision files. `placed`, `solid`, `tree`, `bounds`, `mass` and `surface` lay hulls
  out, `section` writes the text behind them, `write` puts a file together, `check` reads one back,
  `faults` says what is wrong with one, and `roundtrip` and `legible` prove that what is written keeps every rule by which it is read.
  `ragdoll`, `plan`, `pose`, `world`, `pieces`, `compact` and `making` lead from a collision mesh to a file.
- `src/tangent.rs`: tangents for normal maps; `src/across.rs` bounds their rounding errors.
- `src/big.rs`, `src/single.rs`, `src/double.rs`, `src/arith.rs`, `src/decimals.rs`, `src/plain.rs`:
  numbers of any size, and floating-point numbers as bit patterns: reading, arithmetic, printing, all exact to the
  rounding.
- `src/prof.rs`, `src/assets.rs`: timing, and where test data is found.
- `app/`: files, the clock, the environment, and the geometry that `parry3d` computes.
