# ultron_core

The editing core of a small text editor, verified with Verus: a buffer of
characters laid out in lines and addressed by display column (wide characters
take two columns), editing commands with undo and redo, selections in linear
and block mode, editors that run batches of commands and tell listeners of
changes, and the key and pointer input that drives them.

Layout of `src/`:

- `point`, `width`, `text`: positions, the display width of characters (from
  `unicode-width`), and splitting text into lines.
- `text_buffer`: the buffer of cells and the cursor, with a model of every
  operation over sequences of lines.
- `action`, `history`: the edits that can be undone, and their history in groups.
- `text_edit`: a buffer with a history and a selection; the editing commands.
- `options`, `base_editor`, `editor`: editors that apply commands in batches and
  tell their listeners when the content changes.
- `web_editor`: what a key press, a pointer event or a context menu action
  does to an editor, and when the editor in a web page is ready.
- `editor_web`: the key map of the editor drawn on top of `editor`.
- `util`: small helpers on points and numbers.
- `laws`: what holds across operations: each edit and its inverse, undo and
  redo, text that goes in and comes back out, typed text that is read back, and
  how many cells a cut removes.
