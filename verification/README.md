# llrt_core

The bytecode loader of the LLRT JavaScript runtime, verified with Verus.

`src/` is the verified library:

- `bytecode` — the header of a compiled module (`lrt01`, a flag byte, and for
  compressed payloads a little-endian `u32` size before the zstd frames).
- `decompress` — the single call into zstd.
- `loader` — `EmbeddedLoader`: reading headers, normalising module names,
  deciding where a module is loaded from, and caching the program of a
  self-contained executable under `main` and `main.js`.
- `executable` — the trailer of a self-contained executable
  (`[runtime][module][size: u64 le][LLRT_EXE]`).
- `cache` — the bytecode cache, a map from module names to bytecode.
- `cli` — what the command line asks for, how a file argument is run, and
  which test files are run, in which order.
- `sdk_client` — which AWS SDK client a module specifier names.
- `text` — verified operations on the characters of strings.

`app/` is the `llrt` program around it: reading files and the running
executable, the shared cache, and the QuickJS engine. `tests/` runs the
library on concrete inputs.
