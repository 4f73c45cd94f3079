# codecrafters_shell

An interactive POSIX-style shell whose decisions are verified with Verus.

- `src/` is the verified library: the tokenizer (quotes, escapes, `$NAME` and
  `${NAME}`, redirection and pipeline operators), the parser, the builtins
  (`echo`, `exit`, `type`, `pwd`, `cd`, `complete`, `jobs`, `history`,
  `declare`) as functions from their arguments and state to their output,
  the job table, pipeline wiring, and the TAB-completion state machines.
  Each public function states its result exactly over spec functions; the
  `law_*` proof functions state what holds across calls (text escaped by
  `declare -p` reads back through the tokenizer, a bell press followed by
  the same press lists the candidates, a later redirection wins, ...).
- `app/` is the program around it: the `rustyline` editor, files, processes,
  `PATH` and the environment.
- `tests/` runs the library on concrete inputs.
