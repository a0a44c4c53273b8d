# wirth

Tools after Niklaus Wirth's *Compiler Construction*, verified with Verus:

- `risc` and `dom_risc`: two versions of the RISC machine, with the encoding
  of its instructions, and an assembler for each;
- `dom_ast`: a scanner, a scope and a recursive descent parser of Oberon-0
  that builds first-child, next-sibling syntax trees, with `progress`, the
  proof that parsing always moves on and reaches a result;
- `oberon` and `compiler`: smaller scanners and parsers of Oberon;
- `bin_graph`: the Graphviz text of a syntax tree;
- `symbols`, `text`, `arith`, `sharing`: what the others share.

`src/` is the verified library, `tests/` its tests, and `app/` a command
line front end (`wirth scan | parse | graph | run | regs`).
