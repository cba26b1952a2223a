# jd_app

The verified core of Junk Drawer, a desk of index cards over a Markdown
vault. `src/` is a Verus library: every function carries a contract that
Verus proves, and the `lemma_*` proof functions state the laws that hold
across calls (toggling a task box twice restores the body unless it was
checked with a capital `X`, a failed undo leaves the history as it was, a
body is asked for once, ...).

- `card`: card faces (task boxes as glyphs, click-to-toggle), shapes, rules.
- `editor`: Enter list continuation, Tab indent, autocomplete, URL paste.
- `palette`: the Ctrl+K strata, selection and activation.
- `journal`, `create`, `shortcuts`: undo/redo, pending creation, app keys.
- `session`, `events`: the desks' cards and their journaled steps (rail
  drops, card menu, drags, palette arrivals, split placement); the vault's
  reports (scans, outside changes, failures, conflicts).
- `state`: the body cache. `ops`: vault operations.
- `surfaces`: desk, drawer, inbox, map and desk-picker decisions.
- `text`, `ids`, `sort`: strings, id sets and keyed sorting.

`app/` holds the program entry and the floating-point screen geometry
(bands, camera, radii, ghost scores, orphan ring); `tests/` exercise the
library on concrete values.
