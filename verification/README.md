# turbogit_ui

The decision logic of a multi-repository Git desktop client's user
interface, written in Verus and proved against its contracts: what every
panel shows and what each click or key press asks for, as plain values.
Rendering is left to the host application.

## Layout

- `src/` — the verified library, one module per surface:
  - `diff_model`, `diff_panes`, `diff_laws`, `hunk_nav`: unified-diff
    parsing, the display model and its laws, non-text panes, hunk navigation;
  - `branches_tree`, `branch_tree_view`, `branches`, `branch_widget`: the
    branch tree, the Branches tab and the status-bar branches popup;
  - `commit_window`, `staging`: the commit window's rows, sections and
    selection;
  - `log_window`, `blame_view`, `clock`: history, lane colours, dates, blame;
  - `dialogs`, `interactive_rebase`, `conflict_resolver`, `cherry_across`,
    `bulk_preflight`, `bulk_monitor`, `activity`: the dialogs and run monitors;
  - `text`, `sorting`, `binary64`, `domain`, `theme`, `components`: shared
    text, ordering, exact float arithmetic, data model and design tokens.
- `tests/` — tests of the compiled library, including comparisons against
  the standard library's float formatting and path handling.
- `app/` — the floating-point helpers that stay outside the verified code.
