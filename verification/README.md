# goplus

A compiler from GoPlus (`.gp`), a Go dialect with enums, `match`, `?` error
propagation and decorators, to Go, written in Verus.

- `src/` is the verified library: the lexer, the parser, semantic analysis
  (declarations, decorators, `?` and `match` rules), Go code generation, the
  formatter, source maps, source navigation, cache keys, the choice of a package's
  source files, and the packages of a module: found from the entry package, then
  built in dependency order (Kahn's algorithm), an import cycle refused. Each
  public function states its result in `ensures`; laws that span several
  functions are proof functions (`src/sema/laws.rs`, `src/sema/reanalysis.rs`,
  `src/compiler/project.rs`, `src/compiler/navigate.rs`, `src/compiler/walk.rs`).
- `app/` is the `goplus` command line: reading and writing files, running `go`
  and `gofmt`, and the JSON forms of source maps and cache manifests.
- `tests/` runs the library on concrete programs.
