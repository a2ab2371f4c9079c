# scribobulate

The window-state core of the Scribobulate Markdown editor, written in Verus.
The navigation history, the window registry, the status-message stack, tab
closing, the toolbar's show/hide toggles, crash-recovery timing and decisions,
and the text the windows show are verified functions here, with contracts over
mathematical models; the properties that span several operations are proved
as laws. Building widgets and wiring signals stays with the GTK shell.

## Layout

- `src/` — the verified library.
  - `navhistory/` — the per-window Back/Forward history of visited places:
    the model (`model.rs`), recording (`record.rs`), upkeep when tabs close or
    headings go stale (`maintain.rs`), the traversal and stamp decisions
    (`decide.rs`), and the laws (`laws.rs`).
  - `registry.rs` — windows, their tabs, the active tab and each window's
    history; closing and moving tabs.
  - `status.rs` — the footer's stack of status messages and their handles.
  - `closing.rs` — closing one tab, and the one-at-a-time prompts of
    Close Other Tabs.
  - `chrome.rs` — the toolbar's show/hide toggles and the last-section veto.
  - `swap.rs` — when crash-recovery snapshots are taken.
  - `recovery.rs` — the crash-recovery pass's own decisions and notice.
  - `decisions.rs`, `documents.rs`, `tabs.rs` (the tab menu and its
    sensitivity), `viewmode.rs`, `fmtinsert.rs`,
    `wheel.rs` — enablement predicates, titles, labels and menus.
  - `selfdelete.rs`, `writegate.rs` — the self-delete guard and the
    one-writer-at-a-time write pass.
  - `workaround.rs` — what the GTK 4.6 compose-table workaround reads, links
    and writes.
  - `markup.rs` — markup escaping by the rules of GLib's
    `g_markup_escape_text` (the five entities, and hexadecimal references for
    control characters), written and proved here rather than called.
  - `text.rs`, `ids.rs` — text helpers, identities.
- `app/` — the unverified shell: session-file serialisation, the file-system
  and environment side of the compose workaround, reading another process's
  name, and the scope guard that hands a write pass back.
- `tests/` — tests of the library on concrete values.
