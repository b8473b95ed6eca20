# compiler_codegen

Analyses and rewrites of the Nova code generator, written in Verus and
proved against their contracts.

## Layout

- `src/` is the verified library. Every function there is checked by Verus
  against its `requires`/`ensures`; the contracts speak of spec functions
  over `Seq`, `Set`, `Map` and the views of the library's types.
  - `ast` — the syntax tree the passes work on.
  - `field_cache` — the field-caching pass: the read/write sets of methods
    and their closure over the call graph (strongly connected components
    leaves first, with a one-slot cache keyed by a graph fingerprint), the
    per-method cache plans, loop-invariant hoisting, nested caches, pure
    call caching, chain caching, the explain report and the cycle-savings
    estimate.
  - `escape_analyze` — which locals escape their function.
  - `effect_surface` — the effects a package's public API declares, and the
    difference between two surfaces.
  - `embed_pass`, `embed_resolve` — the `embed`, `embed_str` and
    `embed_dir` intrinsics: the requests a module makes, and the rewrite of
    the module from what the host found on disk (paths, globs, sort order,
    warnings and diagnostics).
  - `git_cache` — cache layout, lock table, and the state machine that
    resolves a git pin to a commit, one `git` action at a time.
  - `doc` — the doc-test runner's steps and the parse cache of watched
    files.
- `app/` is plain Rust around the library: it reads the environment and
  the file system, runs `git`, and feeds the results to the library's
  functions.
- `tests/` runs the library on concrete inputs.

## What is trusted

Two functions are taken on trust, each a thin call into std:
`hashing::hash_str_into` (`<str as Hash>::hash` into a `DefaultHasher`,
whose result is named, not described) and `text::push_char`
(`String::push`). Everything that rests on a hash value — the graph
fingerprint and the literal keys of pure-call caching — is stated in terms
of that name.

File-system facts (which paths exist, what they hold, the Unicode normal
form of a file name) and the output of `git` reach the library as values
that `app/` supplies; the library's contracts hold for every such value.
