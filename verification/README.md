# Static analysis of executables

A library that reads Windows (PE) and Linux/Unix (ELF) executables without ever
running them, and a command-line program, `sma`, around it. It reports headers,
sections, imports, exports, strings and indicators of compromise, the functions
of a program and the APIs they reach, control-flow graphs, listings and raw
bytes, and closes every report with what static analysis could not resolve.

Every byte of a file is untrusted. The library is written in Verus: its functions
carry contracts that say what they return for every input, and Verus proves that
the code meets them, that it never reads out of bounds, overflows or panics.

## Layout

- `src/` is the verified library.
  - `text`, `search`, `order`, `keys`, `wrapping`, `calendar`: strings, numerals,
    sorted collections, line breaking, dates.
  - `reader`, `error`, `binary`, `entropy`, `imports`, `exports`, `pe`, `elf`: the
    formats, and the model of an executable that both parse into.
  - `strings`, `packers`, `rules`, `limits`: what stands out in a file.
  - `engine`, `cfg`, `symbols`, `tally`, `functions`, `disasm`: code. `engine`
    holds the calls into Capstone.
  - `report`, `json`, `inventory`, `listing`, `dot`, `hexdump`: what is printed.
  - `cli`, `view`: verbs and flags, and what each command shows.
  - `json_grammar`: what a well-formed JSON text is.
  - Modules whose name ends in `_laws`, and the sections headed "Laws" elsewhere,
    state and prove what holds across functions.
- `tests/` runs the library on concrete inputs.
- `app/` is the program: arguments, files, standard output, and the measurement of
  entropy, which is floating-point arithmetic.

## What is taken on trust

The contracts of `engine::decode` and `engine::decode_memory` (Capstone), of
`imports::lossy_text` (`String::from_utf8_lossy`) and of `String::push` are
believed, not proved; their doc comments say what they claim. What Capstone makes
of given bytes, and whether it fails on them, is named and not stated; how much
memory the machine has is left aside.
