# terminal_studio

The logic of a tabbed terminal workspace application, written in Verus and
proved against its contracts: terminal and tab titles, shell quoting, fuzzy
filtering, the debouncer of the command palette, panes and sessions, windows
and workspaces, the merge-conflict resolver's choices, the quick switcher,
and the directory watcher (both its interface-side table and the decisions of
its thread).

- `src/` is the verified library, one module per concern; each module's
  first lines say what it holds. Public `lemma_*` proof functions state the
  properties the library keeps across calls.
- `tests/` runs the library on concrete values.
- `app/` is the unverified edge: the watcher thread that owns the `notify`
  watcher and reads the disk, and a headless entry point that prints what the
  watcher reports for the directories given on the command line.

Outside crates: `fuzzy-matcher` (the skim matcher behind the sidebar and
quick-switcher filters, called from `src/matching.rs`) and `notify` (used in
`app/`).
