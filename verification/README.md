# rdom_tui

The default behaviors of the built-in elements of a terminal UI runtime
(select, table, checkbox and radio, ARIA tree, details, dialog, forms,
labels, links, buttons, canvas, progress and meter, range and number
inputs, CSS transitions), written over a small element tree and verified
with Verus.

## Layout

- `src/` is the verified library. Each element's behavior lives in a
  module of its own (`select/` holds the listbox and dropdown pieces);
  `dom.rs` models the element tree, `path.rs` addresses nodes in it, and
  `forms.rs` holds the control classification the form modules share.
  Public functions state what they return or change in `ensures` over
  spec functions of the tree (see each function's contract for how
  much it pins down: a few, such as the canvas paint flag, say less
  than everything), and the properties that span several calls
  (what a reset restores, what a second toggle undoes, that registering
  a transition replaces the one in flight, that moving the tree cursor
  leaves one active row) are public `law_*` proof functions.
- Text width and grapheme counting go to `unicode-width` and
  `unicode-segmentation` through the trusted wrappers in `src/text.rs`.
- `tests/` runs the library on concrete documents.
- `app/` is the terminal side: crossterm input mapped to the library's
  key values, terminal mode and the panic hook, the cross-thread handle,
  the floating-point parts (transition easing, gauge and range values),
  and the event loop that hands each event to the library's default
  actions.
