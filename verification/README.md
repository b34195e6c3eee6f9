# dossier

Dossier reads TypeScript and Python source code and describes the
interfaces, classes, functions and types in it, with their docstrings, as
entities that can be written out as JSON.

The library under `src/` is written in Verus: every function there has a
contract, and Verus proves the code meets it.

- `syntax.rs` reads a tree-sitter parse into a plain syntax tree
  (`SyntaxTree`) that the parsers and their contracts work on. Each node
  of it stands for the node of the code that a path of child positions
  leads to, holding what tree-sitter gives there (`tree_reads`).
- `text.rs`, `paths.rs` and `common.rs` hold the string helpers, the
  resolution of import paths, and the entities, errors and fully qualified
  names shared by the front ends.
- `ts/` is the TypeScript front end: the symbols and types a file declares
  (`parse.rs`, `declarations.rs`), the symbol table with its scopes, imports
  and type resolution (`symbol_table.rs`), entities (`entity.rs`), and the
  whole pipeline from files to entities (`parser.rs`).
- `ts2/` is a smaller TypeScript front end built on an ordered map of
  entries per scope.
- `py/` is the Python front end: classes, functions, their parameters and
  the types they name.
- `laws.rs` in `ts/` and `ts2/` state what the symbol tables keep across
  operations: what a lookup finds after a symbol is added (the nearest
  scope's declaration wins), that leaving a scope undoes entering it, how
  names are qualified inside a scope, what type resolution leaves
  unchanged, and what any sequence of calls leaves in a table (its root
  and current scope, its symbols, imports and entries).
- Scope and symbol identifiers come from counters (`ScopeIds`,
  `SymbolIds`) that the caller threads through every table and parse whose
  identifiers must differ: each identifier handed out is larger than the
  ones before it, so tables made in turn share none.

`app/` is the command line program: it reads the files, runs a front end,
and prints the entities as JSON. `tests/` exercises the library.
