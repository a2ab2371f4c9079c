//! Display-free decision cores: action-enable predicates, the window-title and
//! tab-label formulas, the save-safety check, and the external-change action.

use vstd::prelude::*;

use crate::text::{decimal, push_decimal, push_signed_decimal, same_text, signed_decimal};
use crate::viewmode::ViewMode;

verus! {

/// Whether an editor-only Edit command is enabled: only when the editor is
/// visible (edit or split mode) and the command has something to act on
/// (`has_target`: a selection, or a link under the caret).
pub fn edit_actions_enabled(mode: ViewMode, has_target: bool) -> (r: bool)
    ensures
        r == ((mode == ViewMode::Edit || mode == ViewMode::Split) && has_target),
{
    mode.is_editor_visible() && has_target
}

/// Whether Save is enabled. Save is a file-side operation, enabled in every view
/// mode, whenever there is unsaved work (`dirty`) or the backing file is gone
/// (`backing_missing`: Save re-creates it).
pub fn save_enabled(dirty: bool, backing_missing: bool) -> (r: bool)
    ensures
        r == (dirty || backing_missing),
{
    dirty || backing_missing
}

/// Whether Rename is enabled for a document: it has a file, no unsaved edits,
/// and the file is not known to be gone.
pub fn rename_enabled(has_path: bool, dirty: bool, backing_missing: bool) -> (r: bool)
    ensures
        r == (has_path && !dirty && !backing_missing),
{
    has_path && !dirty && !backing_missing
}

/// Whether a window is a reusable blank: no backing file and the editor still
/// holds the untouched welcome text.
pub fn is_blank_welcome(path_present: bool, buffer_text: &str, welcome: &str) -> (r: bool)
    ensures
        r == (!path_present && buffer_text@ == welcome@),
{
    !path_present && same_text(buffer_text, welcome)
}

/// The application's display name.
pub const APP_NAME: &'static str = "Scribobulate";

/// The parenthetical count of a window's other documents: nothing at zero,
/// singular at one.
pub open spec fn others_suffix(others: nat) -> Seq<char> {
    if others == 0 {
        Seq::empty()
    } else if others == 1 {
        " (+1 document)"@
    } else {
        " (+"@ + decimal(others) + " documents)"@
    }
}

/// The window title: the active tab's name, the count of the window's other
/// tabs, and the app name; or, with no active name, the app name carrying the
/// count itself.
pub open spec fn window_title(tab_count: nat, active: Option<Seq<char>>) -> Seq<char> {
    let others: nat = if tab_count == 0 {
        0
    } else {
        (tab_count - 1) as nat
    };
    match active {
        Some(name) => name + others_suffix(others) + " — "@ + "Scribobulate"@,
        None => "Scribobulate"@ + others_suffix(others),
    }
}

/// The window-title formula: the only function that produces a window title.
/// `foo.md (+2 documents) — Scribobulate` for three tabs; `Scribobulate (+1
/// document)` for two tabs with an untitled active one; a zero-tab window reads
/// as the bare app name.
pub fn window_title_for_tabs(tab_count: usize, active_tab_name: Option<&str>) -> (s: String)
    ensures
        s@ == window_title(
            tab_count as nat,
            match active_tab_name {
                Some(n) => Some(n@),
                None => None,
            },
        ),
{
    let others = if tab_count == 0 {
        0
    } else {
        tab_count - 1
    };
    let mut extra = String::new();
    if others == 1 {
        extra.append(" (+1 document)");
    } else if others > 1 {
        extra.append(" (+");
        push_decimal(&mut extra, others as u64);
        extra.append(" documents)");
    }
    assert(extra@ =~= others_suffix(others as nat));
    match active_tab_name {
        Some(name) => {
            let mut s = String::from_str(name);
            s.append(extra.as_str());
            s.append(" — ");
            s.append(APP_NAME);
            assert(s@ =~= window_title(tab_count as nat, Some(name@)));
            s
        },
        None => {
            let mut s = String::from_str(APP_NAME);
            s.append(extra.as_str());
            assert(s@ =~= window_title(tab_count as nat, None));
            s
        },
    }
}

/// The independent per-tab badge bits that drive a tab's label.
#[derive(Clone, Copy, PartialEq, Eq, Debug, Structural)]
pub struct TabBadgeState {
    /// Unsaved changes (trailing "•").
    pub dirty: bool,
    /// An external change is awaiting replay on activation (leading "⟳").
    pub pending_external: bool,
    /// The backing file was deleted from disk (leading, coloured "⚠").
    pub backing_missing: bool,
}

/// A tab's label markup: a leading coloured "⚠" while the backing file is
/// missing, a leading "⟳" while an external change is pending, the name, and a
/// trailing "•" while dirty.
pub open spec fn tab_label(name: Seq<char>, badge: TabBadgeState, warn_color: Seq<char>) -> Seq<
    char,
> {
    (if badge.backing_missing {
        "<span foreground=\""@ + warn_color + "\">⚠</span> "@
    } else {
        Seq::empty()
    }) + (if badge.pending_external {
        "⟳ "@
    } else {
        Seq::empty()
    }) + name + (if badge.dirty {
        " •"@
    } else {
        Seq::empty()
    })
}

/// The tab-label formula. `name` must already be markup-escaped by the caller;
/// `warn_color` is interpolated verbatim into the "⚠" span.
pub fn tab_label_markup(name: &str, badge: TabBadgeState, warn_color: &str) -> (s: String)
    ensures
        s@ == tab_label(name@, badge, warn_color@),
{
    let mut label = String::new();
    if badge.backing_missing {
        label.append("<span foreground=\"");
        label.append(warn_color);
        label.append("\">⚠</span> ");
    }
    if badge.pending_external {
        label.append("⟳ ");
    }
    label.append(name);
    if badge.dirty {
        label.append(" •");
    }
    assert(label@ =~= tab_label(name@, badge, warn_color@));
    label
}

/// The caret line/column indicator text.
pub open spec fn line_col_text(line: int, col: nat) -> Seq<char> {
    "Ln "@ + signed_decimal(line) + ", Col "@ + decimal(col)
}

/// The footer's caret indicator: hidden (`None`) when the mode has no editor
/// pane, otherwise `Ln L, Col C` for the editor's own caret.
pub fn line_col_indicator(mode: ViewMode, line: i32, visual_col: u32) -> (r: Option<String>)
    ensures
        match r {
            Some(s) => (mode == ViewMode::Edit || mode == ViewMode::Split) && s@ == line_col_text(
                line as int,
                visual_col as nat,
            ),
            None => mode == ViewMode::Preview,
        },
{
    if !mode.is_editor_visible() {
        return None;
    }
    let mut s = String::from_str("Ln ");
    push_signed_decimal(&mut s, line as i64);
    s.append(", Col ");
    push_decimal(&mut s, visual_col as u64);
    assert(s@ =~= line_col_text(line as int, visual_col as nat));
    Some(s)
}

/// Whether it is safe to overwrite the file on save: content-gated. Safe when
/// the on-disk content could not be read, or is identical to `baseline` (what
/// was last loaded or saved); anything else means something else wrote to it.
pub fn save_is_safe(baseline: &str, disk_content: Option<&str>) -> (r: bool)
    ensures
        r == match disk_content {
            Some(disk) => disk@ == baseline@,
            None => true,
        },
{
    match disk_content {
        Some(disk) => same_text(disk, baseline),
        None => true,
    }
}

/// What to do when the backing file is found to have changed on disk.
#[derive(Clone, Copy, PartialEq, Eq, Debug, Structural)]
pub enum ExternalChange {
    /// No actionable change: content identical, or a dirty buffer whose conflict
    /// notice the user already dismissed.
    Ignore,
    /// Content changed under a dirty buffer: raise the conflict notice.
    Toast,
    /// Content changed and the buffer is clean: reload silently.
    Reload,
}

/// Decide how to respond to an external file change.
pub fn external_change_action(content_differs: bool, dirty: bool, suppressed: bool) -> (r:
    ExternalChange)
    ensures
        r == (if !content_differs {
            ExternalChange::Ignore
        } else if !dirty {
            ExternalChange::Reload
        } else if suppressed {
            ExternalChange::Ignore
        } else {
            ExternalChange::Toast
        }),
{
    if !content_differs {
        ExternalChange::Ignore
    } else if !dirty {
        ExternalChange::Reload
    } else if suppressed {
        ExternalChange::Ignore
    } else {
        ExternalChange::Toast
    }
}

} // verus!
