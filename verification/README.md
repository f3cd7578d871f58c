# soundry

A parser for the SFZ instrument format, written in Verus and verified.

Parsing works in three layers, each with a mathematical model that the
functions' contracts speak of:

- `text`, `number`: characters, whitespace, trimming, line splitting, comment
  removal, substring replacement, and the integer and floating-point value
  syntax that Rust's `FromStr` accepts.
- `parser`: the raw parse into header blocks, with `#define` substitution;
  `expand`: `#include` expansion through a caller-provided `IncludeResolver`.
- `resolve`, `opcode_mapping`: control details, region inheritance
  (global, master, group, region), override by key, and typed validation of the
  core opcode subset with diagnostics for invalid values.
- `laws`: properties of the whole, proved over the models.

Floating-point opcode values (`volume`, `pan`, `amp_veltrack`, `set_ccN`,
`vNNN`) are kept as a `Number` holding the text that was written; the library
checks that the text is one that `f32::from_str` accepts, and callers convert
it when they need the value.

`app/main.rs` is a small program that parses an example document.
