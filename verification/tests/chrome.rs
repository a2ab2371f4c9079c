//! Tests of the toolbar's show/hide toggles.

use scribobulate::chrome::{section_hide_vetoed, ToolbarChrome};

#[test]
fn hiding_the_last_visible_section_hides_the_bar_and_keeps_its_tick() {
    let mut c = ToolbarChrome::new(true, [false, false, true, false, false, false]);
    c.request_section(2, false);
    assert!(!c.toolbar_shown());
    assert!(c.section_shown(2), "the section keeps its tick");
    c.set_toolbar(true);
    assert!(c.toolbar_shown());
    assert!(c.section_shown(2), "showing the bar restores exactly that section");
}

#[test]
fn hiding_a_section_while_others_remain_is_an_ordinary_hide() {
    let mut c = ToolbarChrome::new(true, [true, false, true, false, false, false]);
    c.request_section(0, false);
    assert!(c.toolbar_shown());
    assert!(!c.section_shown(0));
    assert!(c.section_shown(2));
    c.request_section(4, true);
    assert!(c.section_shown(4));
}

#[test]
fn section_items_are_disabled_while_the_bar_is_hidden() {
    let mut c = ToolbarChrome::new(false, [true; 6]);
    assert!(!c.section_enabled(3));
    c.request_section(3, false);
    assert!(c.section_shown(3), "a disabled toggle changes nothing");
    c.set_toolbar(true);
    assert!(c.section_enabled(3));
    assert!((0..6).all(|i| c.section_shown(i)), "the bar's toggle never touches a tick");
}

#[test]
fn only_a_hide_of_the_last_shown_section_is_vetoed() {
    let shown = [false, true, false, false, false, false];
    assert!(section_hide_vetoed(false, 1, &shown));
    assert!(!section_hide_vetoed(true, 1, &shown));
    assert!(!section_hide_vetoed(false, 0, &shown));
    assert!(section_hide_vetoed(false, 3, &[false; 6]));
}
