# vrac

The logic of the Vrac terminal outliner as a library whose behaviour is
stated in contracts and proved with Verus.

- `src/` is the verified library: identifiers and their text forms,
  pagination cursors, the portable clipboard outline (writing a subtree,
  reading pasted text, planning where pasted items go, and the proof that
  a copied subtree reads back as the nodes it came from), the inline
  editor and reference/tag completion, the launchers and prompts, the
  outline rows and footers drawn on screen, which loaded nodes are shown
  and how they stay current, structural edits, the folder picker's
  decisions, settings and workspace records.
- `app/` is the plumbing that the library leaves out: files, directories,
  the terminal and its key events, and the interactive folder picker.
- `tests/` runs the library on concrete values.
