# conflict_select

State and rules of an interactive tool that resolves file conflicts, verified
with Verus.

There are two viewers. The hunk viewer shows the conflicts within a file and
lets each be replaced by a side, a base or all sides together, or hands the
contents to an editor. The term viewer shows the values of a path on all sides
of a merge and keeps one of them.

* `src/merge.rs`, `src/labels.rs`: merges and labels for their terms.
* `src/simplification.rs`: cancelling equal sides and bases.
* `src/selection.rs`: what a conflict can be replaced by.
* `src/files.rs`: contents split into hunks and put together again.
* `src/text.rs`, `src/screen.rs`, `src/scroll.rs`: what is shown, how many rows
  it takes and which rows are visible.
* `src/conflict.rs`: conflicts, keys and requests to the program around.
* `src/hunk_model.rs`, `src/hunk_laws.rs`: the hunk viewer as a mathematical
  object, and what holds of it whatever keys are pressed.
* `src/hunk_viewer.rs`: the hunk viewer.
* `src/term_viewer.rs`: the term viewer, its model and its laws.
* `app/`: the viewers on a terminal, for repositories of Jujutsu.

Each viewer's view is its model. The contract of each operation says that the
model takes the step of the same name. Calls into other crates stand in small
functions marked `external_body`; their contracts are not proved.
