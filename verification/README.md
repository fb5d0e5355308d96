# linesmith_core

The engine of a status line for the terminal, written in Rust and verified
with Verus.

A line is a list of segments with separators between them. Every segment
declares how much it matters and how wide it may be; the layout drops, shrinks
or cuts segments until the line fits. Configuration decides which segments make
up which line, in which style and behind which icon. Plugins may add segments
of their own; what they return is checked before it reaches the terminal.

## Layout

- `src/` is the library. `layout`, `segments` and `segments::builder` each hold
  a `model` (or specification functions beside the code) that says what comes
  out, and a `laws` module or public proof functions that say what holds of it.
- `src/driver.rs` goes from a parsed payload to the lines to write.
- `tests/` runs the library, with the real outside crates linked.
- `app/` is what a host needs around it: streams, the environment, the process
  logger, TOML and JSON files, the script engine.

## What is proved

- A line that was laid out fits the terminal, or holds only segments that may
  never be dropped; those are neither dropped nor changed.
- Separators stand only between two segments that show.
- No text of a segment, and no link, carries a control character to the
  terminal.
- A line that is built holds no segment twice, and a plugin renders on one line
  only.
- A group of segments shows in the color of its lead, but for segments whose
  color the user fixed.
- Bars fill exactly the cells they are given, and the percentage behind the
  context bar is the one that the context window segment shows.

The widths of texts and the boundaries of grapheme clusters come from
`unicode-width` and `unicode-segmentation`; their results are named. Of widths
it is only said that plain ASCII characters take one column each.
