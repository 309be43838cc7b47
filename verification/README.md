# selection_footer

The selection logic of a file manager, verified with Verus: what a selection
holds, which actions it offers, how its summary and its preview read, how the
floating footer under a tab is chosen and laid out, and how selected paths are
grouped for duplication.

- `src/item.rs` — items of a tab as plain values, and what each contributes to a selection.
- `src/tab.rs` — a tab; the statistics of its selection; whether all selectable items are selected.
- `src/selection.rs` — selection statistics, menu actions, the texts composed from them, and the messages and arguments of the phrases.
- `src/footer.rs` — the application state that the footer reads; which footer is shown and how.
- `src/preview.rs` — the preview of a multiple selection: its buttons and lines, tally of types, owners and permission rows, and the row to open it with an application.
- `src/paths.rs` — paths of trashed folders, grouping of paths by parent (over `std::path`), the dialog to move out of the trash.
- `src/text.rs` — joining, decimal numerals, the order of strings and sorted sets.
- `src/laws.rs` — properties that span several functions.
- `app/lib.rs` — conversions from the `trash`, `uzers` and `mime_guess` crates, rendering of phrases, and the hand-off of copy groups and dialogs.
