//! Tests of the tab strip's decisions: the context menu, tab cycling, and the
//! toolkit versions that still need scroll coalescing.

use scribobulate::tabs::{cycle_target, item_sensitive, TabMenuItem};
use scribobulate::wheel::defect_present;

#[test]
fn the_context_menu_lists_every_item_in_order_with_its_separators() {
    let items = TabMenuItem::all();
    let labels: Vec<&str> = items.iter().map(|i| i.label()).collect();
    assert_eq!(
        labels,
        vec![
            "_Save",
            "Save _As…",
            "_Close Tab",
            "Close _Other Tabs",
            "_Move to New Window",
            "Copy _Full Path",
            "_Reload",
            "Re_name…"
        ]
    );
    let separated: Vec<TabMenuItem> = items.iter().copied().filter(|i| i.separator_after()).collect();
    assert_eq!(
        separated,
        vec![TabMenuItem::SaveAs, TabMenuItem::CloseOthers, TabMenuItem::MoveToNewWindow]
    );
}

#[test]
fn cycling_wraps_around_both_ends() {
    assert_eq!(cycle_target(0, 3, 1), Some(1));
    assert_eq!(cycle_target(2, 3, 1), Some(0));
    assert_eq!(cycle_target(0, 3, -1), Some(2));
    assert_eq!(cycle_target(1, 4, -6), Some(3));
    assert_eq!(cycle_target(1, 4, 8), Some(1));
}

#[test]
fn cycling_needs_at_least_two_pages() {
    assert_eq!(cycle_target(0, 1, 1), None);
    assert_eq!(cycle_target(0, 1, -1), None);
}

#[test]
fn the_gate_turns_off_at_exactly_4_10_1() {
    assert!(
        defect_present(4, 6, 9),
        "4.6.9 — this project's floor — is affected"
    );
    assert!(
        defect_present(4, 8, 3),
        "the fix was never backported to 4.8 either"
    );
    assert!(defect_present(4, 10, 0), "4.10.0 predates the fix");
    assert!(
        !defect_present(4, 10, 1),
        "4.10.1 carries the GtkListTile rewrite"
    );
    assert!(!defect_present(4, 22, 4), "and everything after it");
}

#[test]
fn each_menu_item_is_sensitive_by_its_own_rule() {
    // dirty, backing_missing, has_path, has_others, move_enabled
    assert!(item_sensitive(TabMenuItem::Save, true, false, true, false, false));
    assert!(item_sensitive(TabMenuItem::Save, false, true, true, false, false));
    assert!(!item_sensitive(TabMenuItem::Save, false, false, true, true, true));
    assert!(item_sensitive(TabMenuItem::SaveAs, false, false, false, false, false));
    assert!(item_sensitive(TabMenuItem::Close, false, false, false, false, false));
    assert!(item_sensitive(TabMenuItem::CloseOthers, false, false, false, true, false));
    assert!(!item_sensitive(TabMenuItem::CloseOthers, true, true, true, false, true));
    assert!(item_sensitive(TabMenuItem::MoveToNewWindow, false, false, false, false, true));
    assert!(!item_sensitive(TabMenuItem::MoveToNewWindow, true, true, true, true, false));
    assert!(item_sensitive(TabMenuItem::CopyFullPath, false, false, true, false, false));
    assert!(!item_sensitive(TabMenuItem::Reload, true, true, false, true, true));
    assert!(item_sensitive(TabMenuItem::Rename, false, false, true, false, false));
    assert!(!item_sensitive(TabMenuItem::Rename, true, false, true, false, false));
    assert!(!item_sensitive(TabMenuItem::Rename, false, true, true, false, false));
    assert!(!item_sensitive(TabMenuItem::Rename, false, false, false, false, false));
}

#[test]
fn every_menu_access_key_is_its_own() {
    let keys: Vec<char> = TabMenuItem::all()
        .iter()
        .map(|i| {
            let label = i.label();
            assert_eq!(label.matches('_').count(), 1);
            let after = label.split('_').nth(1).unwrap();
            after.chars().next().unwrap().to_ascii_lowercase()
        })
        .collect();
    assert_eq!(keys, vec!['s', 'a', 'c', 'o', 'm', 'f', 'r', 'n']);
}
