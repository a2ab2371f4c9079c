//! Tests of the window registry: tab identities, window entries, closing and
//! moving tabs, and each window's navigation history.

use scribobulate::ids::{TabId, WindowId};
use scribobulate::navhistory::NavDir;
use scribobulate::registry::Registry;

fn w(n: u64) -> WindowId {
    WindowId::from_raw(n)
}

fn t(n: u64) -> TabId {
    TabId::from_raw(n)
}

#[test]
fn register_creates_a_lookup_reachable_tab_and_unregister_clears_it() {
    let mut r = Registry::new();
    let a = r.alloc_tab_id();
    let b = r.alloc_tab_id();
    assert_ne!(a, b, "each allocated tab id must be unique");
    assert!(
        b.raw() > a.raw(),
        "tab ids must be monotonically increasing"
    );
    r.register(w(1), a);
    assert!(r.is_registered(w(1)));
    assert_eq!(r.tabs_for_window(w(1)), vec![a]);
    assert_eq!(r.unregister(w(1)), Some(vec![a]));
    assert!(!r.is_registered(w(1)));
    assert_eq!(r.unregister(w(1)), None);
}

#[test]
fn a_new_window_has_its_first_tab_active_and_added_tabs_keep_it_so() {
    let mut r = Registry::new();
    r.register(w(1), t(1));
    r.add_tab(w(1), t(2));
    assert_eq!(r.tab_count(w(1)), 2);
    assert_eq!(r.active_tab(w(1)), Some(t(1)));
    r.set_active_tab(w(1), t(2));
    assert_eq!(r.active_tab(w(1)), Some(t(2)));
    // A tab the window does not list is never made active.
    r.set_active_tab(w(1), t(9));
    assert_eq!(r.active_tab(w(1)), Some(t(2)));
    assert_eq!(r.tab_count(w(7)), 0);
    assert_eq!(r.active_tab(w(7)), None);
}

#[test]
fn closing_the_active_tab_hands_over_to_the_first_remaining_and_forgets_it() {
    let mut r = Registry::new();
    r.register(w(1), t(1));
    r.add_tab(w(1), t(2));
    r.add_tab(w(1), t(3));
    r.nav_record(w(1), t(2));
    r.set_active_tab(w(1), t(2));
    r.remove_tab(w(1), t(2));
    assert_eq!(r.tabs_for_window(w(1)), vec![t(1), t(3)]);
    assert_eq!(r.active_tab(w(1)), Some(t(1)));
    // The history no longer offers the closed tab.
    assert!(!r.nav_can(w(1), NavDir::Back));
}

#[test]
fn a_moved_tab_leaves_its_old_window_and_is_active_in_the_new_one() {
    let mut r = Registry::new();
    r.register(w(1), t(1));
    r.add_tab(w(1), t(2));
    r.register(w(2), t(3));
    r.set_active_tab(w(1), t(2));
    r.rehome_tab(w(2), t(2));
    assert_eq!(r.tabs_for_window(w(1)), vec![t(1)]);
    assert_eq!(r.active_tab(w(1)), Some(t(1)));
    assert_eq!(r.tabs_for_window(w(2)), vec![t(3), t(2)]);
    assert_eq!(r.active_tab(w(2)), Some(t(2)));
}

#[test]
fn moving_a_windows_only_tab_leaves_it_with_no_active_tab() {
    let mut r = Registry::new();
    r.register(w(1), t(1));
    r.register(w(2), t(2));
    r.rehome_tab(w(2), t(1));
    assert_eq!(r.tab_count(w(1)), 0);
    assert_eq!(r.active_tab(w(1)), None);
}

#[test]
fn each_window_keeps_its_own_history() {
    let mut r = Registry::new();
    r.register(w(1), t(1));
    r.register(w(2), t(5));
    r.add_tab(w(1), t(2));
    r.nav_record(w(1), t(2));
    assert!(r.nav_can(w(1), NavDir::Back));
    assert!(!r.nav_can(w(2), NavDir::Back));
    assert_eq!(r.nav_step(w(1), NavDir::Back), Some(t(1)));
    assert_eq!(r.nav_step(w(1), NavDir::Forward), Some(t(2)));
    assert_eq!(r.nav_step(w(1), NavDir::Forward), None);
    assert_eq!(r.nav_step(w(9), NavDir::Back), None);
}

#[test]
fn a_suppressed_switch_follows_rather_than_records() {
    let mut r = Registry::new();
    r.register(w(1), t(1));
    r.add_tab(w(1), t(2));
    r.nav_suppress(w(1));
    // The current place is re-pointed at the new tab; nothing is appended.
    r.nav_record(w(1), t(2));
    assert!(!r.nav_can(w(1), NavDir::Back));
    r.nav_unsuppress(w(1));
    r.nav_record(w(1), t(1));
    assert_eq!(r.nav_step(w(1), NavDir::Back), Some(t(2)));
}

#[test]
fn closing_a_windows_last_tab_leaves_it_with_no_active_tab() {
    let mut r = Registry::new();
    r.register(w(1), t(1));
    r.remove_tab(w(1), t(1));
    assert_eq!(r.tab_count(w(1)), 0);
    assert_eq!(r.active_tab(w(1)), None);
}
