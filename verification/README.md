# Quarter

A Forth interpreter whose core is written and proved in Verus.

The library (`src/`) holds the whole interpreter: memory with 8-byte little-endian
cells, the data, return and loop stacks, the primitive words, the dictionary, the
lexer and parser, the AST interpreter with tail-call loops, `EVALUATE` and
`CATCH`, and the line and file processing of a session. Each public function
states what it returns or changes over abstract models (`MState`, `DictView`,
`SAst`, sequences of characters and bytes), and Verus checks the code against
those statements.

Modules:

- `memory`, `stack`, `machine`: the machine state and its abstract view.
- `words`: the primitive words and their step function `prim_step`.
- `ast`, `dictionary`, `registry`, `ast_words`: syntax trees, the word
  dictionary, the AST registry and the words that inspect it.
- `lexer`, `parser`: comments, tokens, numbers and the parser.
- `interp`: the semantics of running an AST (`run_node`, `run_word`, ...) and
  the executable interpreter proved to follow it.
- `session`: definitions, `INCLUDE`, and the processing of lines and files.
- `budget`, `tail_calls`: laws about the step budget and tail-call loops.
- `text`: decimal formatting, UTF-8 and the few standard-library calls the rest
  relies on.

Execution is bounded by a step budget (`Machine::steps`); a run that exhausts it
stops with "Execution step limit exceeded". The laws in `budget` show that a
larger budget never changes a run that finished.

`app/` is the command-line program: argument handling, reading files, the
interactive prompt (rustyline) and printing what the machine wrote. Native-code
compilation is not available in this build; the program interprets.
