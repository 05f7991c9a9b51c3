# json_e

The expression interpreter of JSON-e: a Pratt parser that reads an
expression such as `2*(3+4)`, `[1,2][-1]` or `{a: x, "b c": 'd' + 'e'}` and
evaluates it against a context of named JSON values.

## Layout

- `src/tokenizer.rs` — the scanner: token kinds, white space, the token that
  starts at a position, with a specification over the characters.
- `src/value.rs`, `src/number.rs` — JSON values and numbers (decimal
  mantissa and exponent, as the `json` crate keeps them), their
  mathematical model, and the two number operations taken from `json`.
- `src/context.rs` — the context of named values, and object entries.
- `src/interpreter.rs` — the grammar and the rules of each operator, as
  specification functions and as the verified parser that follows them.
- `src/replay.rs` — laws of the evaluation protocol.
- `src/laws.rs` — laws of indexing, lists and objects.
- `app/lib.rs` — the interpreter over `json::JsonValue`.

## Floating point

Number literals, `+`, `*` and `**` on numbers are computed in `f64`, which
the verified library does not hold. `Interpreter::parse` therefore takes the
results computed so far and either finishes or asks for the next
computation (`Step::Compute`); `app/lib.rs` performs it and evaluates again.
`replay.rs` proves that this loop ends and that its result does not depend
on results supplied beyond those asked for.
