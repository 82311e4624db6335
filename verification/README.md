# projets2020

A verified library, written in Verus, for three school projects that share
their parsing machinery:

- **automata** — regular-expression lexers (`automata::lexer`) and an LR(1)
  parser generator (`automata::parser`): the item sets, the parsing table,
  and the run of the pushdown automaton over a token sequence.
- **sim** — a simulator for digital circuits given as netlists: the netlist
  reader (`sim::parsing`), the dependency graph (`sim::build_graph`), its
  ordering (`sim::sort_graph`), the machine (`sim::runner`), the runs against
  expected outputs (`sim::testbench`) and the checks that a run needs
  (`sim::bounds`).
- **parser / ir** — the static typing of Petit Julia (`parser::typing`),
  and the compilation pipeline Petit Julia → HIR → LIR → x86-64 assembly
  (`ir::ast_to_hir`, `ir::hir_to_lir`, `ir::lir_to_asm`), with readers for
  the text forms of the two intermediate languages (`ir::hir_parsing`,
  `ir::lir_parsing`).

Every function of `src/` states what it computes in its `requires` and
`ensures`, over spec functions written in the same modules; the laws that
relate several functions are public proof functions named `law_...`.

Layout:

- `src/` — the library, verified by Verus.
- `tests/` — tests run against the compiled library.
- `app/` — the simulator's command line (`run` and `test`), which reads files
  and prints; it calls the library for everything else.
