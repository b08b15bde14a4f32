# ooxml_numfmt

Excel-compatible ECMA-376 number format codes, with their logic proved by
Verus.

A format code such as `#,##0.00;[Red](#,##0.00);"zero";@` is parsed into one to
four sections of format parts, each section is compiled once into an execution
plan, and values are then evaluated into ordered output parts whose fill
(`*x`) and skip (`_x`) directives are resolved only at the final layout stage,
with a caller-chosen fill count.

## Layout

- `src/` is the verified library.
  - `lexer.rs`, `parser/` — tokens and the parser, specified character by
    character (`parser/spec.rs`), with fraction and subsecond detection
    (`parser/detect.rs`) and bracket contents (`parser/bracket.rs`).
  - `ast.rs` — format parts and sections; a section holds at most one fill.
  - `numfmt.rs` — `NumberFormat`: one to four sections and their plans.
  - `compile.rs` — execution plans derived from sections.
  - `formatter/` — operation evaluation, layout (`render.rs`), text values
    (`text.rs`), number structure and digits (`number.rs`), fractions
    (`fraction.rs`) and exact large integers (`bigint.rs`).
  - `output.rs`, `options.rs`, `error.rs`, `chars.rs`, `digits.rs`.
- `tests/` exercise the library.
- `app/` holds what works on floating-point values (rounding, logarithms,
  fraction approximation, condition thresholds), the error types with
  `Display`, the `BigInt` entry points and the one-call convenience functions.
