# flat_storage

Scrollback storage for the rows of a terminal grid, verified with Verus.

Rows are kept as their graphemes (a character and the zero-width characters
that follow it) and styles only: spacer cells and trailing empty cells are not
stored. The storage hands rows back as cells at its
current width, reflows its logical lines when the width changes, and keeps at
most a given number of rows, dropping the oldest first.

Layout of `src/`:

- `flags.rs`, `cell.rs`, `row.rs`: cells, their attribute bits, and rows of cells.
- `model.rs`: the mathematical model — stored rows, greedy wrapping, logical
  lines, how stored rows are laid out as cells and read back from them.
- `builder.rs`: the executable counterparts of the model's operations.
- `storage.rs`: `FlatStorage` and its row iterator.
- `content.rs`: laying text out on rows: grapheme clusters from the
  `unicode-segmentation` crate, widths from the `unicode-width` crate.
- `wrap_lemmas.rs`, `layout_lemmas.rs`, `storage_lemmas.rs`: proofs used by the
  code; `laws.rs`: the laws that relate the operations.

Every row handed out is as wide as the storage, and each wide character in it
is followed by its spacer, whatever rows were pushed before.
