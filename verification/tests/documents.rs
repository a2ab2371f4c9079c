//! Tests of the names the document surfaces show: the documents button, the
//! Documents menu items, the tab tooltip and the tab-strip label.

use scribobulate::decisions::TabBadgeState;
use scribobulate::documents::{
    documents_button_label, documents_item_label, ellipsize, tab_display_markup,
    tooltip_for_path, DOCUMENTS_BUTTON_MAX_CHARS,
};

#[test]
fn ellipsize_leaves_a_short_name_untouched() {
    assert_eq!(ellipsize("notes.md", 24), "notes.md");
}

#[test]
fn ellipsize_at_exactly_the_limit_is_untouched() {
    let s = "a".repeat(DOCUMENTS_BUTTON_MAX_CHARS);
    assert_eq!(ellipsize(&s, DOCUMENTS_BUTTON_MAX_CHARS), s);
}

#[test]
fn ellipsize_cuts_an_over_long_name_to_the_limit_with_an_ellipsis() {
    let out = ellipsize("a_very_long_document_filename.md", 10);
    // 9 kept glyphs + the single ellipsis glyph == the limit.
    assert_eq!(out.chars().count(), 10);
    assert!(out.ends_with('…'));
    assert_eq!(out, "a_very_lo…");
}

#[test]
fn ellipsize_counts_glyphs_not_bytes_for_non_ascii() {
    // Five 2-byte glyphs; a byte-based slice would panic or split a sequence.
    let out = ellipsize("ééééé.md", 4);
    assert_eq!(out.chars().count(), 4);
    assert_eq!(out, "ééé…");
}

#[test]
fn tooltip_is_the_full_path_when_saved() {
    assert_eq!(
        tooltip_for_path(Some("/home/u/notes/todo.md")),
        "/home/u/notes/todo.md"
    );
}

#[test]
fn tooltip_is_unsaved_when_pathless() {
    assert_eq!(tooltip_for_path(None), "Unsaved");
}

#[test]
fn ellipsize_to_a_zero_limit_leaves_nothing() {
    assert_eq!(ellipsize("notes.md", 0), "");
    assert_eq!(ellipsize("", 0), "");
}

#[test]
fn the_documents_button_names_an_untitled_document() {
    assert_eq!(documents_button_label(None), "Untitled");
    assert_eq!(documents_button_label(Some("todo.md")), "todo.md");
}

#[test]
fn the_documents_button_ellipsizes_a_long_name_at_its_limit() {
    let long = "an_extremely_long_file_name_for_a_note.md";
    let out = documents_button_label(Some(long));
    assert_eq!(out.chars().count(), DOCUMENTS_BUTTON_MAX_CHARS);
    assert_eq!(out, "an_extremely_long_file_…");
}

#[test]
fn a_documents_menu_item_doubles_underscores_so_none_is_a_mnemonic() {
    assert_eq!(documents_item_label(Some("my_notes_v2.md")), "my__notes__v2.md");
    assert_eq!(documents_item_label(None), "Untitled");
    assert_eq!(documents_item_label(Some("__")), "____");
}

#[test]
fn the_tab_label_escapes_the_name_before_adding_badges() {
    let clean = TabBadgeState {
        dirty: false,
        pending_external: false,
        backing_missing: false,
    };
    assert_eq!(tab_display_markup(Some("a<b>&c.md"), clean), "a&lt;b&gt;&amp;c.md");
    assert_eq!(tab_display_markup(None, clean), "Untitled");
    let dirty = TabBadgeState {
        dirty: true,
        pending_external: false,
        backing_missing: false,
    };
    assert_eq!(tab_display_markup(Some("x.md"), dirty), "x.md •");
    let missing = TabBadgeState {
        dirty: false,
        pending_external: false,
        backing_missing: true,
    };
    assert_eq!(
        tab_display_markup(Some("x.md"), missing),
        "<span foreground=\"#e5a50a\">⚠</span> x.md"
    );
}
