# cph-engine

A competitive programming helper: it receives problems from the Competitive
Companion browser extension, saves their example tests, and compiles and runs
a solution against them.

- `src/` is the verified library: the language table and lookups
  (`language`), the saved settings (`config`), the problem model (`models`),
  what is written for a received problem (`server`), the search for a
  problem folder and the test run as a state machine (`runner`), and the
  text operations they share (`text`).
- `app/` is the command-line program around it: argument parsing, the HTTP
  listener, files, processes and colored output.
- `tests/` exercises the library on concrete values.
