# relay_codegen

A verified library that builds the JavaScript ASTs from which GraphQL
artifacts are printed: the normalization AST of an operation, the reader AST of a
fragment, request parameters, and the request that ties them together.  It
also computes which fragments of base projects a project's definitions reach.

Every exported function is checked by Verus against a contract stated over a
mathematical model of its output:

- `ast` — the interning arena (`AstBuilder`) and the meaning of a key as a
  fully expanded `Tree`.
- `ir` — the GraphQL IR that code generation reads.
- `selection_trees`, `definition_trees`, `arguments` — the trees generated for
  each kind of selection and definition, as spec functions.
- `builder`, `selections`, `fields`, `definitions`, `codegen` — the code that
  builds them, each function proved to build exactly the specified tree and to
  keep every node built before.
- `dependencies`, `syntax` — reachability of base fragments (the least set
  closed under fragment spreads) and the references of each definition.
- `hashing` — the `cacheID` (MD5 in lowercase hex, through the `md-5` and
  `hex` crates).
- `laws` — properties that span calls: interning is idempotent, and generated
  lists are sorted by name stably.
