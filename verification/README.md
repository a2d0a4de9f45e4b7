# metronome

A terminal metronome. The library in `src/` holds its logic, verified with Verus:

- `cli.rs`, `parse.rs`: the command line (options, subcommands `tap` and `ramp`)
  and a parser whose result is specified by a grammar over the arguments;
  reading time signatures such as `7/8`.
- `tap.rs`: tap tempo: the tempo estimated from tap times, and the session
  that collects taps from key events.
- `layout.rs`, `ui.rs`, `track.rs`, `footer.rs`: where the parts of the
  screens go, their texts, and the cells of the bar track.
- `text.rs`: decimal numbers as text.

`app/` is the program around it: it reads the command line and the keyboard
and draws with ratatui and crossterm.
