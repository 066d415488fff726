# Pipeline

A task runner on top of [Just](https://just.systems): a `Pipelinefile` is passed
to Just as it is, a `pipeline.yml` is compiled to a Just dependency graph, and
either can run as Git hooks. The library is written in Verus: what it decides is
stated in contracts and proved.

- `src/definition` finds, validates, selects from and renders definitions. It
  proves, among other things, that validation is exact, that the generated graph
  is acyclic and closed, and that jobs wait for what they need.
- `src/hooks` knows repositories, hook files and updates. Installation is a
  transaction; it is proved that an aborted one puts every file back, and that
  no hook is replaced or deleted that Pipeline does not own. After an
  installation the installed hooks are those of before and those asked for;
  after a removal, those of before without those asked for.
- `src/policy.rs` merges the policies of the system and the repository; neither
  can loosen what the other asks for.
- `src/just_runtime` finds a Just executable, in a container image if need be.
  Whatever it finds is at least as recent as the configuration asks for.
- `src/dispatch` holds the course of a command or hook, `src/protocol.rs` the
  conversation of a `proc-receive` hook that is not there.
- `src/text.rs`, `src/names.rs` and `src/native.rs` are the strings, name sets
  and paths under all of it.

What alternates between decisions and work on the system is a state machine: it
names the next step, and takes how that step went. `app/` is the program around
the library: it parses the command line and YAML, runs processes and touches
files. `tests/` runs the library on concrete values.
