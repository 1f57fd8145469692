# autogen

Planning logic for `AutoGen`, a command-line tool that generates Unreal Engine
assets, and the assets they depend on, from their serialised JSON dumps.

The library (`src/`) is verified with Verus:

- `text`: character-sequence operations (replacement, search, joining,
  decimal numbers) proved against their specifications.
- `input`: `key=value` arguments, the run mode, the configuration path.
- `pattern`: regular expressions through the `regex` crate, whose results are
  named rather than restated.
- `output`: colour tags such as `<<red>>…</red>>` turned into ANSI sequences.
- `config`: the configuration file's settings and their checks.
- `fs`: directory trees of dumps: file counts, JSON files, batches.
- `walk`: the depth-first dependency walk over the dumps, keeping the
  greatest depth met.
- `process`: the records of each depth, the order of asset classes, asset
  paths and the generator's program and arguments.
- `schedule`: the generation schedule as a state machine: rounds from the
  greatest depth down, dumps parked and put back, existing assets removed,
  one generator run per asset class, and the missing assets collected. The
  program performs each action and answers with an event.
- `report`: the texts printed while generating and searching.

`app/` is the program: it reads arguments, files and directories, carries out
the schedule's actions (moving files, running the generator, printing) and
prints what the library computes. `tests/` runs the library on
concrete cases.
