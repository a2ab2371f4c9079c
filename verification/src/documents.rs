//! The text of the surfaces that name a window's documents: the toolbar's
//! documents button, the Documents menu items, the tab-strip label and tooltip.
//! A document is named by its file name, or "Untitled" when it has no path.

use vstd::prelude::*;

use crate::decisions::{tab_label, tab_label_markup, TabBadgeState};
use crate::markup::{escaped, markup_escape_text};
use crate::text::{chars_of, push_char, string_of};

verus! {

/// Max glyphs shown in the documents button label before it is ellipsized.
pub const DOCUMENTS_BUTTON_MAX_CHARS: usize = 24;

/// The colour the tab strip's deleted-backing badge is drawn in.
pub const BACKING_MISSING_BADGE_COLOR: &'static str = "#e5a50a";

/// `s` cut to at most `max` characters, the last replaced by an ellipsis when
/// anything is cut; with no room at all, nothing is left.
pub open spec fn ellipsized(s: Seq<char>, max: nat) -> Seq<char> {
    if s.len() <= max {
        s
    } else if max == 0 {
        Seq::empty()
    } else {
        s.take(max - 1) + seq!['…']
    }
}

/// The name a document is shown under: its file name, or "Untitled".
pub open spec fn shown_name(name: Option<Seq<char>>) -> Seq<char> {
    match name {
        Some(n) => n,
        None => "Untitled"@,
    }
}

/// `s` with every underscore doubled, so a menu shows it literally rather than
/// reading it as a mnemonic marker.
pub open spec fn doubled_underscores(s: Seq<char>) -> Seq<char>
    decreases s.len(),
{
    if s.len() == 0 {
        Seq::empty()
    } else {
        doubled_underscores(s.drop_last()) + if s.last() == '_' {
            seq!['_', '_']
        } else {
            seq![s.last()]
        }
    }
}

/// The model of an optional text.
pub open spec fn opt_text(s: Option<&str>) -> Option<Seq<char>> {
    match s {
        Some(t) => Some(t@),
        None => None,
    }
}

/// Truncate `s` to at most `max` characters, appending a single-glyph ellipsis
/// when it is cut. Counts characters, never bytes.
pub fn ellipsize(s: &str, max: usize) -> (r: String)
    ensures
        r@ == ellipsized(s@, max as nat),
        r@.len() <= max,
        r@.len() == max || r@ == s@,
{
    let cs = chars_of(s);
    if cs.len() <= max {
        return string_of(&cs);
    }
    if max == 0 {
        return String::new();
    }
    let keep = max - 1;
    let mut r = String::new();
    let mut i: usize = 0;
    while i < keep
        invariant
            keep < cs.len(),
            cs@ == s@,
            i <= keep,
            r@ == cs@.take(i as int),
        decreases keep - i,
    {
        push_char(&mut r, cs[i]);
        assert(cs@.take(i as int).push(cs@[i as int]) =~= cs@.take(i + 1));
        i = i + 1;
    }
    push_char(&mut r, '…');
    assert(r@ =~= ellipsized(s@, max as nat));
    r
}

/// A tab's hover tooltip: the full stored path of its file, or "Unsaved" for a
/// buffer never saved to a path.
pub fn tooltip_for_path(path: Option<&str>) -> (r: String)
    ensures
        r@ == match path {
            Some(p) => p@,
            None => "Unsaved"@,
        },
{
    match path {
        Some(p) => String::from_str(p),
        None => String::from_str("Unsaved"),
    }
}

/// The toolbar documents button label: the active document's name, ellipsized
/// to [`DOCUMENTS_BUTTON_MAX_CHARS`]. Not underscore-doubled: a button's plain
/// label is not a mnemonic context.
pub fn documents_button_label(name: Option<&str>) -> (r: String)
    ensures
        r@ == ellipsized(shown_name(opt_text(name)), DOCUMENTS_BUTTON_MAX_CHARS as nat),
{
    match name {
        Some(n) => ellipsize(n, DOCUMENTS_BUTTON_MAX_CHARS),
        None => ellipsize("Untitled", DOCUMENTS_BUTTON_MAX_CHARS),
    }
}

/// A document's Documents-menu label: its name with underscores doubled, since
/// menu labels read `_` as a mnemonic marker. No dirty marker.
pub fn documents_item_label(name: Option<&str>) -> (r: String)
    ensures
        r@ == doubled_underscores(shown_name(opt_text(name))),
{
    let cs = match name {
        Some(n) => chars_of(n),
        None => chars_of("Untitled"),
    };
    let mut r = String::new();
    let mut i: usize = 0;
    while i < cs.len()
        invariant
            cs@ == shown_name(opt_text(name)),
            i <= cs.len(),
            r@ == doubled_underscores(cs@.take(i as int)),
        decreases cs.len() - i,
    {
        let c = cs[i];
        push_char(&mut r, c);
        if c == '_' {
            push_char(&mut r, '_');
        }
        proof {
            assert(cs@.take(i + 1).drop_last() =~= cs@.take(i as int));
            assert(cs@.take(i + 1).last() == c);
        }
        i = i + 1;
    }
    assert(cs@.take(cs.len() as int) =~= cs@);
    r
}

/// A tab's strip label: its name, markup-escaped, with its badges.
pub fn tab_display_markup(name: Option<&str>, badge: TabBadgeState) -> (r: String)
    ensures
        r@ == tab_label(escaped(shown_name(opt_text(name))), badge, BACKING_MISSING_BADGE_COLOR@),
{
    let escaped_name = match name {
        Some(n) => markup_escape_text(n),
        None => markup_escape_text("Untitled"),
    };
    tab_label_markup(escaped_name.as_str(), badge, BACKING_MISSING_BADGE_COLOR)
}

} // verus!
