//! Tests of the view mode and the copy-target decision.

use scribobulate::viewmode::{copy_target, FocusedPane, ViewMode};


#[test]
fn view_mode_str_round_trips() {
    for m in [ViewMode::Preview, ViewMode::Edit, ViewMode::Split] {
        assert_eq!(m.as_str().parse::<ViewMode>(), Ok(m));
    }
    assert!("bogus".parse::<ViewMode>().is_err());
}

#[test]
fn copy_target_follows_focus_only_in_split() {
    // Non-split: always the sole visible view, regardless of the (stale) focus flag.
    for focused in [FocusedPane::Editor, FocusedPane::Preview] {
        assert_eq!(copy_target(ViewMode::Preview, focused), None);
        assert_eq!(copy_target(ViewMode::Edit, focused), None);
    }
    // Split: whichever pane holds focus — the fix for TDD 9.25 / ScrAP-72.
    assert_eq!(
        copy_target(ViewMode::Split, FocusedPane::Preview),
        Some(FocusedPane::Preview)
    );
    assert_eq!(
        copy_target(ViewMode::Split, FocusedPane::Editor),
        Some(FocusedPane::Editor)
    );
}
