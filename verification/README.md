# skill_dynamic_context

A skill's text may hold inline command placeholders: an exclamation mark and a
command between backticks. This library finds them, decides which commands may
be run and under which limits, and puts a block with what came of each command
in the place of its placeholder. It is written in Verus: every function states
in its contract what it returns, and the laws of the library are proof functions
whose names begin with `law_`.

- `src/dynamic_context.rs`: the placeholders of a text
- `src/replacement.rs`, `src/segments.rs`: replacing stretches of a text by byte
  offsets
- `src/render.rs`, `src/markup.rs`: the block, and what holds of every block
- `src/output.rs`: what is kept of a command's output
- `src/command.rs`, `src/json.rs`, `src/env.rs`: one command on its way through
  the hooks and the shell
- `src/skill.rs`: skills and their limits
- `src/expansion.rs`, `src/expansion_laws.rs`: the expansion of one text
- `src/injection.rs`, `src/turn.rs`: the expansion of all the texts of a turn
- `src/text.rs`: text operations
- `app/`: the driver that runs hooks and commands in a session

The library runs nothing itself. It hands out the commands that are to be run
and is told what came of them; the driver does the rest.
