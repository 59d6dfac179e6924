# haru

The front end of the hana language, verified with Verus: the lexer and the
parser (`src/ast`), the bytecode generator (`src/compiler.rs`,
`src/ast/emit.rs`), the pure parts of the standard library (`src/hanayo`:
string methods and the `Cmd` argument), the loading of modules
(`src/modules.rs`), the data structures shared with the virtual machine
(`src/vmbindings`), and the text of error reports (`src/report.rs`).

The contracts of the lexer, the code generator, the module loader and the
data structures state exactly what they return. The parser's contracts
state what a tree it returns is made of (which tokens each node was read
from, by which rule of the grammar), and that the programs of a plain
subset of the language are always read: expressions made of names,
literals, parentheses, unary and binary operators, `?:`, assignments,
arrays, calls, indexing, `.name`/`::name` accesses, function literals
(`function(..)` and `|..| {..}`) and record literals; `if`, `while`,
`for`, `try`..`case`..`end`, `begin`..`end`, named records and
functions, `return`, `raise`, `use`, `continue` and `break`. They do not
promise that every program the grammar allows is read, nor that its tree
is the only one. The laws of the library (code already emitted never
changes, interning over any run of calls, split/join, copy/delete, opcode
round trip) are public proof functions.

`app/` holds the command-line program and the prompt: it reads files and
lines, prints trees, bytecode and errors, and calls the library.
