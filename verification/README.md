# term_editor

The editing logic of a desktop editor for a knowledge base of logical terms
(facts and rules, as in Prolog), written in Verus and proved against its
contracts.

Layout of `src/`:

- `model` — terms: names and descriptions, arguments, facts, rules, and the
  record of which terms refer to a term.
- `terms_filter` — the store of terms by name, with the laws that a read
  gives back what a write stored and that a deletion forgets only its term.
- `change_tracking_list`, `drag_and_drop` — reorderable lists that record
  their pushes, moves and removals, so that the edits can be replayed on data
  that follows the list's order.
- `placeholder`, `edit_screen`, `points_in_time`, `term_screen`,
  `term_text`, `term_list`, `tabs` — the state of the screens: facts and
  rules being written, a version of a term being edited and the kinds of
  changes an editing session made, the versions of a term, a term's screen
  with its editing session and deletion, how facts and rules are written
  out, the list of terms and the tabs with their selection.
- `change_propagator`, `batch_propagation`, `related_terms` — how the edits
  of a term reach the terms that mention it or that it mentions.
- `two_phase_commit`, `commit` — the approvals that a change of several
  terms waits for, and how a finished change is written to the store.
- `ask` — queries about a term and the table of their answers.
- `load_module` — the local name of a knowledge module loaded from git.

The user interface (drawing, input, loading from disk and from git) is not
part of this crate.
