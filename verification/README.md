# xmlangee

The native libraries of the XMLangEE scripting language, verified with Verus.

- `src/value.rs`: run-time values, their mathematical model (`Val`), structural
  equality and copying.
- `src/arrays.rs`, `src/strings.rs`, `src/numbers.rs`, `src/dicts.rs`,
  `src/display.rs`: the standard library's functions and how values are shown.
- `src/randlib.rs`, `src/cryptolib.rs`: the random and cryptography libraries,
  over the `rand`, `uuid`, `md5`, `sha2`, `hmac` and `bcrypt` crates.
- `src/natives.rs`: calling a native function; the outside work a call needs
  (output, input, sleeping, the clock, random floats) is handed back as an
  `Effect`.
- `src/interp.rs`, `src/stdlib.rs`, `src/libs.rs`: the interpreter's variables,
  the tables of native functions and `import`.
- `app/`: the command-line program and the code that carries out effects and
  writes floats.
