# patchcord

A helper that shares the audio of chosen applications over PipeWire. It makes a
virtual sink, on demand a virtual microphone on top of it, links the output
ports of the chosen nodes with the sink, and takes everything down again. It is
driven by newline-delimited JSON on standard input and answers on standard
output.

## Layout

- `src/` is the library. It holds the whole logic, verified with Verus: reading
  the dump and the port listings (`snapshot`, `collect`), mapping ports
  (`routing`), choosing what to link (`plan`), listing nodes (`shareable`), the
  operations as a state machine (`state`) with what it has to log
  (`messages`), what whole operations come to (`runs`), requests and responses
  (`session`), and what these rest on.
- `app/` runs the commands, the clock and the threads, and speaks JSON.
- `tests/` runs the library on concrete values.

## Options

| Flag | Description |
|---|---|
| `--sink-prefix <PREFIX>` | What the name of the virtual sink starts with |
| `--sink-description <DESC>` | The visible description of the virtual sink |
| `--virtual-mic` | Make a virtual microphone of the monitor of the sink |
| `--virtual-mic-name <NAME>` | The internal name of the virtual microphone |
| `--virtual-mic-description <DESC>` | The visible description of the virtual microphone |
| `-h`, `--help` | Print help and exit |

With `PATCHCORD_TRACE` in the environment, debug and trace messages are logged
too, and the log is also kept in a file.
