# minilang

Three small languages and their tooling, with the logic proved correct by Verus.

* `calculator` — arithmetic expressions (`+ - * /`, parentheses, `;` between expressions):
  a parser, a tree-walking interpreter, a stack machine with its bytecode compiler and
  disassembler, a type check (integer or floating point), and the commands of its prompt.
  The stack machine is proved to agree with the interpreter on every program the interpreter
  evaluates whose constant pool holds at most 2^16 entries and which never needs more than
  the machine's 512 stack slots.
* `fl` — a small interpreted language with functions, recursion, `if`, `while` and `print`:
  a parser, an interpreter whose meaning is a step-bounded mathematical semantics (proved to
  keep the caller's frames and to be unaffected by tracing), a textual
  macro preprocessor, and the decisions of its prompt (bracket continuation, commands).
* `sl` — a typed language: its types and their text, and a parser that builds its function
  definitions (names and typed parameters).

`src/` is the verified library. `app/` holds the command-line programs around it: reading
files and terminals, printing, argument parsing, and the LLVM back end of the calculator,
which computes in floating point. `tests/` runs the library on concrete programs.
