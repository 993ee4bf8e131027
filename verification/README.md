# innovator_workspace

The workspace shell of the Innovator app as a verified library: the composed
container graph (workspaces, pages, pods, components and particle slots joined by
ordered Binding edges), Binding depth tiers, valence reports, the page cache and
its templates, per-size-class layout overrides and their saved form, capturing
and restoring saved workspaces, the shell's selection and focus rules, and the
decisions of the analysis workspace (wall signals, field builder) and of the
window's pop-ups.

- `src/` — the library, verified with Verus. Each module opens with what it holds.
- `tests/` — tests of the library on concrete values.
- `app/` — host-side glue: the JSON layout file and its serde records, window
  geometry in `f32`, and handing saved workspace records to the library's restore
  (the workspace bodies themselves are built by the host).
