# ayuc

The front end of the Ayu compiler (a statically typed language that compiles to Luau),
written in Verus: each function states what it computes in its contract, and Verus
proves it.

## Layout

- `src/` — the verified library.
  - `span`, `source`: byte spans, source files and the cache of source texts.
  - `predicate`, `scan_spec`, `raw_token`, `scanner`: the raw scanner. `scan_spec` states
    the lexical grammar over the characters of the source and their UTF-8 byte offsets;
    `Scanner::next_token` and `RawTokenStream::from_scanner` are proved to follow it.
  - `pretty`: documents and the renderer that turns them into text, in pretty or
    one-line mode.
  - `interning`, `symbol`, `types`: interning of strings and of type kinds, and the text
    of interned types.
  - `ast`: the parts of the syntax tree that resolution and checking read.
  - `resolve`: definitions, the scope stack of name resolution, the first pass that
    registers items (`name_res`), the resolution of paths (`path_res`), the typing of
    expressions and `let` statements (`type_res`), resolved types and the resolution
    results.
  - `hir`, `sema`: the packages that semantic analysis works on, the scope tree of a
    package, and the passes that build it and check the names used in function bodies;
    the checks of the type checker (`typecheck`), of patterns and extern modules
    (`general`), of assignments to immutable variables (`mutability`) and of `break`
    outside loops (`flow`).
  - `session`, `tyctx`, `registry`: the items, packages and modules of a compilation.
- `tests/` — tests of the library on concrete inputs.
- `app/` — what prints or talks to the diagnostics renderer (`ariadne`): text forms of
  the library's types, spans and a source cache for reports, the reports of the
  diagnostics the library finds, and the reporting of the scope passes.

Laws that relate several functions are public proof functions whose names start with
`law_`.

## What is not here

- The parser, the resolver that runs name and then type resolution, and the drivers of
  the semantic phases are not part of this library. They are written
  against the token stream, syntax tree, ids, diagnostics and item types of other crates
  of the compiler (the lexer, `ast`, `ast_visit`, `id`, `diagnostic`, `item`, `hir`),
  which this repository does not hold; the checks those drivers run are here, each on
  the values it reads. The module registry (`registry`) holds each module's syntax tree
  and its path; the high-level module and the dependency list that the compiler also
  keeps per module are of those missing crates' types, and no function here reads them.
- The type interner finds an equal kind by a linear search over the keys of its slot
  map rather than by a hash map keyed by kinds: a map keyed by a type of this library
  would rest on a derived `Hash`/`Eq` that the verifier does not read, so nothing could
  be proved of its lookups.
- `Doc` has a hand-written `Clone` (the derived one is refused for a recursive enum);
  it is proved to give the same document.
