# emma

A text editor whose editing core is verified with Verus.

- `src/` is the library, every function of it verified: keys and key
  sequences, key maps and their lookup, the text rope, buffers with undo
  history, cursors, markers and search, the tree of panes, the overlays
  (search and open-file prompts), the editor state that carries out
  actions, match highlighting of style spans, the pieces of a line drawn
  around the cursor, syntax highlighting of a
  buffer's lines, the colors of theme files, and the splitting of command
  lines into words. Calls into `ropey`,
  `unicode-segmentation`, `aho-corasick`, `rand`, `syntect` and `shlex` go through
  small trusted functions whose contracts state what those crates
  document.
- `tests/` runs the library on concrete values.
- `app/` is the GTK program around the library: the window, drawing,
  key events, files, processes, the configuration file, the theme's
  syntect form, and the SQLite store of open buffers and pane layout.
