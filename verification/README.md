# ix_trace_rs

The argument grammar of the `#[trace(...)]` and `#[implements(...)]` marker
attributes, verified with Verus over a plain-value model of a token stream.

- `src/id.rs` — the shape of a spec id (`KIND-SEGMENT(-SEGMENT)*`, a digit after the kind).
- `src/tokens.rs` — the token model and `respan`.
- `src/grammar.rs` — `validate`: the comma-separated literal list and its diagnostics.
- `src/expand.rs` — `trace`, `implements`, and the spanned `compile_error!` they emit.
- `src/laws.rs` — properties proved of the grammar and the expansion.
- `app/lib.rs` — conversion between `proc_macro` token streams and the model.
