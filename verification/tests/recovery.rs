//! Tests of the crash-recovery bookkeeping: whether a process image names this
//! application, which open tab a snapshot lands in, and the per-window counts.

use scribobulate::ids::WindowId;
use scribobulate::recovery::{
    eq_ignore_ascii_case, note_recovery, owner_is_live, recovery_announcement, tab_id_at_same_path,
    windows_image_is_this_app, Platform,
};

#[test]
fn the_windows_image_name_matches_this_app_with_its_extension_and_any_casing() {
    assert!(windows_image_is_this_app("scribobulate.exe"));
    assert!(
        windows_image_is_this_app("SCRIBOBULATE.EXE"),
        "Windows chooses the casing, not us — a stock ping reports PING.EXE",
    );
    assert!(
        !windows_image_is_this_app("scribobulate"),
        "the bare package name is what the Linux and macOS arms compare against; \
         matching it here would mean the extension was never accounted for",
    );
    assert!(!windows_image_is_this_app("notepad.exe"));
    assert!(!windows_image_is_this_app("scribobulate-helper.exe"));
}

#[test]
fn ascii_case_folding_leaves_other_characters_alone() {
    assert!(eq_ignore_ascii_case("ÉtÉ", "ÉTÉ"));
    assert!(!eq_ignore_ascii_case("été", "ÉTÉ"));
    assert!(eq_ignore_ascii_case("", ""));
    assert!(!eq_ignore_ascii_case("a", "ab"));
}

#[test]
fn an_untitled_snapshot_never_lands_in_an_open_tab() {
    let claimed: Vec<String> = Vec::new();
    assert_eq!(tab_id_at_same_path(true, Some("doc-1".to_string()), &claimed), None);
}

#[test]
fn a_snapshot_lands_in_the_tab_showing_its_file_unless_that_tab_is_claimed() {
    let mut claimed: Vec<String> = Vec::new();
    assert_eq!(
        tab_id_at_same_path(false, Some("doc-1".to_string()), &claimed),
        Some("doc-1".to_string())
    );
    assert_eq!(tab_id_at_same_path(false, None, &claimed), None);
    claimed.push("doc-0".to_string());
    claimed.push("doc-1".to_string());
    assert_eq!(tab_id_at_same_path(false, Some("doc-1".to_string()), &claimed), None);
    assert_eq!(
        tab_id_at_same_path(false, Some("doc-2".to_string()), &claimed),
        Some("doc-2".to_string())
    );
}

#[test]
fn recoveries_are_counted_per_window_in_order_of_first_recovery() {
    let a = WindowId::from_raw(10);
    let b = WindowId::from_raw(20);
    let mut per_window: Vec<(WindowId, usize)> = Vec::new();
    note_recovery(&mut per_window, a);
    note_recovery(&mut per_window, b);
    note_recovery(&mut per_window, a);
    note_recovery(&mut per_window, a);
    assert_eq!(per_window, vec![(a, 3), (b, 1)]);
}

#[test]
fn a_pid_with_no_readable_process_is_not_live() {
    assert!(!owner_is_live(4_000_000, 1, Platform::Linux, None));
    assert!(!owner_is_live(4_000_000, 1, Platform::Linux, Some("")));
}

#[test]
fn a_live_process_that_is_not_scribobulate_is_not_live() {
    assert!(!owner_is_live(77, 1, Platform::Linux, Some("sleep\n")));
    assert!(!owner_is_live(77, 1, Platform::Linux, Some("scribobulate-helper\n")));
}

#[test]
fn a_live_scribobulate_is_live_unless_it_is_this_process() {
    assert!(owner_is_live(77, 1, Platform::Linux, Some("scribobulate\n")));
    assert!(owner_is_live(77, 1, Platform::Linux, Some("  scribobulate \t")));
    assert!(!owner_is_live(77, 77, Platform::Linux, Some("scribobulate\n")));
}

#[test]
fn a_recovery_is_announced_with_its_document_count() {
    assert_eq!(recovery_announcement(0), None);
    assert_eq!(
        recovery_announcement(1).as_deref(),
        Some("Recovered unsaved changes in 1 document")
    );
    assert_eq!(
        recovery_announcement(12).as_deref(),
        Some("Recovered unsaved changes in 12 documents")
    );
}

#[test]
fn each_system_names_this_application_its_own_way() {
    assert!(owner_is_live(77, 1, Platform::MacOs, Some("scribobulate")));
    assert!(!owner_is_live(77, 1, Platform::MacOs, Some("scribobulate\n")));
    assert!(owner_is_live(77, 1, Platform::Windows, Some("SCRIBOBULATE.EXE")));
    assert!(!owner_is_live(77, 1, Platform::Windows, Some("scribobulate")));
    assert!(!owner_is_live(77, 1, Platform::Other, Some("scribobulate")));
    assert!(!owner_is_live(77, 77, Platform::Windows, Some("scribobulate.exe")));
}

#[test]
fn a_repeated_window_counts_at_its_first_entry() {
    let a = WindowId::from_raw(10);
    let b = WindowId::from_raw(20);
    let mut per_window: Vec<(WindowId, usize)> = vec![(b, 1), (a, 2), (a, 5)];
    note_recovery(&mut per_window, a);
    assert_eq!(per_window, vec![(b, 1), (a, 3), (a, 5)]);
}
