//! The window's view mode and split focused-pane, plus the `copy_target`
//! decision that ties them together.

use vstd::prelude::*;

use crate::text::same_text;

verus! {

/// The window's current view mode: read-only preview, editor-only, or a split
/// editor and preview. Threaded as this enum everywhere except the action and
/// session-file boundaries, which use the lowercase strings of [`ViewMode::as_str`].
#[derive(Clone, Copy, PartialEq, Eq, Debug, Structural)]
pub enum ViewMode {
    Preview,
    Edit,
    Split,
}

/// The boundary string of a mode.
pub open spec fn mode_text(m: ViewMode) -> Seq<char> {
    match m {
        ViewMode::Preview => "preview"@,
        ViewMode::Edit => "edit"@,
        ViewMode::Split => "split"@,
    }
}

impl ViewMode {
    /// The action-state and session-file string for this mode.
    pub fn as_str(self) -> (s: &'static str)
        ensures
            s@ == mode_text(self),
    {
        match self {
            ViewMode::Preview => "preview",
            ViewMode::Edit => "edit",
            ViewMode::Split => "split",
        }
    }

    /// Parse a boundary string back into a mode; `None` for anything else.
    pub fn parse(s: &str) -> (r: Option<ViewMode>)
        ensures
            match r {
                Some(m) => mode_text(m) == s@,
                None => forall|m: ViewMode| mode_text(m) != s@,
            },
    {
        if same_text(s, "preview") {
            Some(ViewMode::Preview)
        } else if same_text(s, "edit") {
            Some(ViewMode::Edit)
        } else if same_text(s, "split") {
            Some(ViewMode::Split)
        } else {
            proof {
                assert forall|m: ViewMode| mode_text(m) != s@ by {
                    match m {
                        ViewMode::Preview => {},
                        ViewMode::Edit => {},
                        ViewMode::Split => {},
                    }
                }
            }
            None
        }
    }

    /// True in the two modes where the editor is visible (edit, split).
    pub fn is_editor_visible(self) -> (r: bool)
        ensures
            r == (self == ViewMode::Edit || self == ViewMode::Split),
    {
        match self {
            ViewMode::Edit | ViewMode::Split => true,
            ViewMode::Preview => false,
        }
    }

    /// True in the two modes where the preview is visible (preview, split).
    pub fn is_preview_visible(self) -> (r: bool)
        ensures
            r == (self == ViewMode::Preview || self == ViewMode::Split),
    {
        match self {
            ViewMode::Preview | ViewMode::Split => true,
            ViewMode::Edit => false,
        }
    }

    /// The three boundary strings are pairwise distinct, so parsing a mode's own
    /// string gives that mode back.
    pub proof fn text_round_trips(m: ViewMode, n: ViewMode)
        ensures
            mode_text(m) == mode_text(n) <==> m == n,
    {
        reveal_strlit("preview");
        reveal_strlit("edit");
        reveal_strlit("split");
        assert("preview"@.len() == 7);
        assert("edit"@.len() == 4);
        assert("split"@.len() == 5);
    }
}

impl Default for ViewMode {
    fn default() -> (m: ViewMode)
        ensures
            m == ViewMode::Preview,
    {
        ViewMode::Preview
    }
}

impl core::str::FromStr for ViewMode {
    type Err = ();

    fn from_str(s: &str) -> (r: Result<ViewMode, ()>)
        ensures
            match r {
                Ok(m) => mode_text(m) == s@,
                Err(_) => forall|m: ViewMode| mode_text(m) != s@,
            },
    {
        match ViewMode::parse(s) {
            Some(m) => Ok(m),
            None => Err(()),
        }
    }
}

/// In split mode, which of the two panes last genuinely held focus.
#[derive(Clone, Copy, PartialEq, Eq, Debug, Structural)]
pub enum FocusedPane {
    Editor,
    Preview,
}

/// Which view copy and select-all target: `None` for the sole visible view
/// (preview-only or edit-only), `Some(pane)` for that split pane. Only split
/// mode distinguishes panes.
pub fn copy_target(mode: ViewMode, focused: FocusedPane) -> (r: Option<FocusedPane>)
    ensures
        r == (if mode == ViewMode::Split {
            Some(focused)
        } else {
            None
        }),
{
    match mode {
        ViewMode::Split => Some(focused),
        ViewMode::Preview | ViewMode::Edit => None,
    }
}

} // verus!
