# surfacide

Static analysis for Surface modules, written in Verus.

- `src/` is the verified library: the typed AST, the diagnostic
  catalogue, the module graph, the checking passes (mandatory slots,
  derived fields, cross-slot consistency, obligations), and the reading
  of syntax trees (`CstNode`) into the AST: syntax errors, names, types,
  expressions and paths, effect statements, scenarios, headers, imports,
  slot values, and every declaration of a file (surface, substrate,
  partial-substrate and compose blocks, `acknowledged { … }` entries,
  attackers, observables and the rest), up to the whole module file. Each pass
  is stated exactly over spec functions of its input, and the laws of the
  library are public proof functions beside the code they speak of.
- `tests/` runs the library on concrete inputs.
- `app/` is the command-line program: it walks a directory, parses each
  `.surf` file with the tree-sitter grammar, copies the trees into
  `CstNode`s, hands them to the library and renders the diagnostics with
  `miette`. The grammar's generated parser is linked in at build time.
