# latent_calculator

A natural-language calculator without learned weights, verified with Verus.

- `src/` is the verified library: the lexer (`lexer.rs`), operand extraction
  (`extract.rs`), intent resolution (`intent.rs`), the answer's form and
  sentence (`engine.rs`), the plausibility gate (`plausibility.rs`), the
  transformer's discrete front end (`transformer.rs`), intent evidence
  (`underspec.rs`), cross-stage properties (`laws.rs`) and the `Calculator`
  entry points in `lib.rs`. Amounts are carried as their decimal literal text.
- `app/` is the terminal program and the floating-point part: the values of
  computations, number formatting and the transformer's forward pass.
- `tests/` runs the library on concrete sentences.
