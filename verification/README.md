# tsh

A small Unix shell. The library (`src/`, verified with Verus) holds the command
language and the decisions the shell takes; the program (`app/`) holds what
touches the machine: reading lines, the search path, processes, files and the
terminal.

- `text`: whitespace, trimming, splitting and joining of command text.
- `command`: the commands (`cd`, `exit`, external programs, `pipe`, `tofile`,
  `clear`, `ls`), what a parsed command is, and how a name is looked up.
- `parser`: a single command and a pipeline read from text.
- `shell`: the shell's modes and context, and one whole command line read
  from text.
- `err`: the parse and execution errors.

The parser does not look at the machine itself: the program first asks the
library which command names a line needs (`shell::lookup_names`), finds them
on `PATH`, reads the current directory, and hands both over in an `Env`.
