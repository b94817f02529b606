# mdansi

A Markdown-to-ANSI terminal renderer: Markdown text in, styled terminal text out, with GFM
tables, task lists, footnotes, math passthrough, syntax-highlighted code blocks, OSC-8
hyperlinks, TOML themes and a streaming mode for incremental input.

The library under `src/` is written in Verus. Each function states what it returns in its
contract, and Verus proves the code against it.

- `doc.rs`, `parser.rs`: comrak parses the Markdown and writes CommonMark XML; a verified
  reader turns that XML into a node arena (children before parents, the root last), and
  control characters are removed from every text of the user's.
- `render.rs`: the rendering of every node kind, stated as spec functions over the arena and
  the options, with the executable renderer proved equal to them.
- `plain.rs`: plain output with hyperlinks and highlighting off holds no escape character,
  whatever the input holds.
- `words.rs`: words of text; wrapping keeps them in order, and fits each line of printable
  ASCII text in the width unless it is a single word.
- `wrap.rs`, `table.rs`, `style.rs`, `theme.rs`, `hyperlink.rs`, `highlight.rs`: wrapping and
  padding, table layout, ANSI styles, themes and theme files, OSC-8 links, syntect runs.
- `stream.rs`: the streaming state machine; it returns the text to emit for each chunk, and
  what it emits does not depend on how the input is split into chunks.
- `terminal.rs`, `cli.rs`: the rules that turn the environment and the command line into
  capabilities and rendering options.
- `text.rs`: character-sequence helpers shared by the others.

The command under `app/` reads files, stdin and the environment, parses arguments with clap,
loads TOML theme files with serde, and writes what the library returns.
