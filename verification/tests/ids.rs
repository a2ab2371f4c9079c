//! Tests of the tab and window identities and their string form.

use scribobulate::ids::{TabId, WindowId};

#[test]
fn a_tab_id_round_trips_through_its_action_target_string() {
    for raw in [0u64, 7, 42, 1_000_000, u64::MAX] {
        let id = TabId::from_raw(raw);
        let text = id.to_text();
        assert_eq!(text, raw.to_string());
        assert_eq!(TabId::parse_text(&text), Some(id));
        assert_eq!(text.parse::<TabId>(), Ok(id));
    }
}

#[test]
fn a_tab_id_string_is_read_as_u64_reads_it() {
    assert_eq!(TabId::parse_text("+12"), Some(TabId::from_raw(12)));
    assert_eq!(TabId::parse_text("007"), Some(TabId::from_raw(7)));
    assert_eq!(TabId::parse_text(""), None);
    assert_eq!(TabId::parse_text("+"), None);
    assert_eq!(TabId::parse_text("-1"), None);
    assert_eq!(TabId::parse_text(" 1"), None);
    assert_eq!(TabId::parse_text("1a"), None);
    assert_eq!(TabId::parse_text("18446744073709551616"), None);
    assert_eq!(
        TabId::parse_text("18446744073709551615"),
        Some(TabId::from_raw(u64::MAX))
    );
}

#[test]
fn identities_compare_by_their_raw_values() {
    assert_eq!(WindowId::from_raw(3), WindowId::from_raw(3));
    assert_ne!(WindowId::from_raw(3), WindowId::from_raw(4));
    assert_eq!(WindowId::from_raw(3).raw(), 3);
    assert_eq!(TabId::from_raw(9).raw(), 9);
}
