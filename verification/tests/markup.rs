//! Tests of escaping text for markup.

use scribobulate::markup::markup_escape_text;

#[test]
fn the_five_metacharacters_become_entities() {
    assert_eq!(
        markup_escape_text("a<b>&\"c\"'d'"),
        "a&lt;b&gt;&amp;&quot;c&quot;&apos;d&apos;"
    );
}

#[test]
fn plain_text_and_layout_whitespace_pass_through() {
    assert_eq!(markup_escape_text("héllo\tworld\r\n"), "héllo\tworld\r\n");
    assert_eq!(markup_escape_text(""), "");
}

#[test]
fn control_characters_become_hexadecimal_references() {
    assert_eq!(markup_escape_text("\u{1}"), "&#x1;");
    assert_eq!(markup_escape_text("a\u{1f}b"), "a&#x1f;b");
    assert_eq!(markup_escape_text("\u{7f}\u{85}\u{86}\u{9f}"), "&#x7f;\u{85}&#x86;&#x9f;");
    assert_eq!(markup_escape_text("\u{b}\u{c}"), "&#xb;&#xc;");
}
