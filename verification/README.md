# fcache

A compiler cache for gfortran, written in Verus.

`fcache gfortran -c x.f90 -o x.o` runs the compiler once. When the same compilation is asked for
again, the stored object, module files, dependency file and messages are put in place instead. What
is not certain to be the same is compiled.

## Layout

`src/` is the library. It decides everything and touches nothing: file contents, metadata, process
output and times come in as plain values, and steps to be taken go out. Every function has a
contract that Verus proves.

- `compiler` reads gfortran command lines and dependency files, models the search order of
  includes and modules, and identifies a toolchain.
- `cache` holds action keys, manifests, stored content, the index of recorded compilations, the
  order in which results are put in place, locks, trimming and statistics.
- `launcher` follows one compilation from the command line to its end: `flow` is the sequence of
  steps, `search` looks for a recorded compilation that still holds, `observing` and `recording`
  turn what a probe shows into an observation and a record, and `promises` states what holds of
  every run.
- `cli`, `config` and `process` describe the command line, the settings and the processes.
- `bstr`, `decimal`, `digest`, `framing`, `hex`, `names`, `text`, `upath` and `words` are the ground
  that the rest stands on.

Functions named `law_...` state what holds across several functions.

Three calls leave the library: `digest::hash` calls `blake3::hash`, `bstr::to_text` calls
`str::from_utf8`, and `words::lossy` calls `String::from_utf8_lossy`. Their contracts are taken on
trust.

`app/` is the program: it reads files, runs compilers, takes locks, writes JSON and TOML, and does
what the library's steps say.

`tests/` runs the library on concrete values.
