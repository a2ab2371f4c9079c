//! The tab strip's own decisions: the context menu's items, labels and
//! grouping, and which page the next/previous-tab commands land on.

use vstd::prelude::*;

use crate::workaround::lower_char;

verus! {

/// The items of a tab's context menu.
#[derive(Clone, Copy, PartialEq, Eq, Debug, Structural)]
pub enum TabMenuItem {
    Save,
    SaveAs,
    Close,
    CloseOthers,
    MoveToNewWindow,
    CopyFullPath,
    Reload,
    Rename,
}

/// The `_`-marked label of an item: its text and its access key in one string.
pub open spec fn item_label(item: TabMenuItem) -> Seq<char> {
    match item {
        TabMenuItem::Save => "_Save"@,
        TabMenuItem::SaveAs => "Save _As…"@,
        TabMenuItem::Close => "_Close Tab"@,
        TabMenuItem::CloseOthers => "Close _Other Tabs"@,
        TabMenuItem::MoveToNewWindow => "_Move to New Window"@,
        TabMenuItem::CopyFullPath => "Copy _Full Path"@,
        TabMenuItem::Reload => "_Reload"@,
        TabMenuItem::Rename => "Re_name…"@,
    }
}

/// The items in the order the menu presents them.
pub open spec fn menu_order() -> Seq<TabMenuItem> {
    seq![
        TabMenuItem::Save,
        TabMenuItem::SaveAs,
        TabMenuItem::Close,
        TabMenuItem::CloseOthers,
        TabMenuItem::MoveToNewWindow,
        TabMenuItem::CopyFullPath,
        TabMenuItem::Reload,
        TabMenuItem::Rename,
    ]
}

impl TabMenuItem {
    /// Every item this menu ships, in the order it presents them.
    pub fn all() -> (items: [TabMenuItem; 8])
        ensures
            items@ == menu_order(),
    {
        let items = [
            TabMenuItem::Save,
            TabMenuItem::SaveAs,
            TabMenuItem::Close,
            TabMenuItem::CloseOthers,
            TabMenuItem::MoveToNewWindow,
            TabMenuItem::CopyFullPath,
            TabMenuItem::Reload,
            TabMenuItem::Rename,
        ];
        assert(items@ =~= menu_order());
        items
    }

    /// Whether a separator follows this item: after Save As, after Close Other
    /// Tabs, and after Move to New Window.
    pub fn separator_after(self) -> (r: bool)
        ensures
            r == (self == TabMenuItem::SaveAs || self == TabMenuItem::CloseOthers || self
                == TabMenuItem::MoveToNewWindow),
    {
        match self {
            TabMenuItem::SaveAs | TabMenuItem::CloseOthers | TabMenuItem::MoveToNewWindow => true,
            _ => false,
        }
    }

    /// The `_`-marked label: the button's text and its access key.
    pub fn label(self) -> (s: &'static str)
        ensures
            s@ == item_label(self),
    {
        match self {
            TabMenuItem::Save => "_Save",
            TabMenuItem::SaveAs => "Save _As…",
            TabMenuItem::Close => "_Close Tab",
            TabMenuItem::CloseOthers => "Close _Other Tabs",
            TabMenuItem::MoveToNewWindow => "_Move to New Window",
            TabMenuItem::CopyFullPath => "Copy _Full Path",
            TabMenuItem::Reload => "_Reload",
            TabMenuItem::Rename => "Re_name…",
        }
    }
}

/// The page the next/previous-tab commands land on: `current + delta`, wrapping
/// around the `pages` pages; `None` (nothing to do) with fewer than two pages.
pub fn cycle_target(current: u32, pages: u32, delta: i32) -> (r: Option<u32>)
    requires
        current < pages,
        pages <= i32::MAX,
    ensures
        pages < 2 ==> r is None,
        pages >= 2 ==> r == Some(((current + delta) % (pages as int)) as u32),
{
    if pages < 2 {
        return None;
    }
    let x: i64 = current as i64 + delta as i64;
    let n: i64 = pages as i64;
    if x >= 0 {
        let r = (x as u64 % n as u64) as u32;
        assert(r == x % n);
        Some(r)
    } else {
        let y: u64 = (-x) as u64;
        let k: u64 = y % (n as u64);
        let r: u32 = if k == 0 {
            0
        } else {
            (n as u64 - k) as u32
        };
        proof {
            let xi = x as int;
            let ni = n as int;
            let yi = y as int;
            let ki = k as int;
            assert(ki == yi % ni);
            let q = yi / ni;
            vstd::arithmetic::div_mod::lemma_fundamental_div_mod(yi, ni);
            assert(yi == ni * q + ki);
            assert(yi == -xi);
            if ki == 0 {
                assert(xi == (-q) * ni) by (nonlinear_arith)
                    requires
                        yi == ni * q + ki,
                        ki == 0,
                        yi == -xi,
                ;
                vstd::arithmetic::div_mod::lemma_fundamental_div_mod_converse(xi, ni, -q, 0);
            } else {
                assert(xi == (-q - 1) * ni + (ni - ki)) by (nonlinear_arith)
                    requires
                        yi == ni * q + ki,
                        yi == -xi,
                ;
                vstd::arithmetic::div_mod::lemma_fundamental_div_mod_converse(xi, ni, -q - 1, ni - ki);
            }
        }
        Some(r)
    }
}

/// Whether a context-menu item can be chosen for the clicked tab: Save when
/// there is unsaved work or the file is gone; Close Other Tabs when the window
/// has another tab; Move to New Window when the window's move command is
/// enabled; Copy Full Path and Reload when the tab has a file; Rename when it
/// has a file, no unsaved edits and the file is not gone; the rest always.
pub fn item_sensitive(
    item: TabMenuItem,
    dirty: bool,
    backing_missing: bool,
    has_path: bool,
    has_others: bool,
    move_enabled: bool,
) -> (r: bool)
    ensures
        r == match item {
            TabMenuItem::Save => dirty || backing_missing,
            TabMenuItem::CloseOthers => has_others,
            TabMenuItem::MoveToNewWindow => move_enabled,
            TabMenuItem::CopyFullPath | TabMenuItem::Reload => has_path,
            TabMenuItem::Rename => has_path && !dirty && !backing_missing,
            _ => true,
        },
{
    match item {
        TabMenuItem::Save => crate::decisions::save_enabled(dirty, backing_missing),
        TabMenuItem::CloseOthers => has_others,
        TabMenuItem::MoveToNewWindow => move_enabled,
        TabMenuItem::CopyFullPath | TabMenuItem::Reload => has_path,
        TabMenuItem::Rename => crate::decisions::rename_enabled(has_path, dirty, backing_missing),
        TabMenuItem::SaveAs | TabMenuItem::Close => true,
    }
}

/// How many times `c` occurs in `s` from index `i` on.
pub open spec fn count_from(s: Seq<char>, c: char, i: int) -> nat
    decreases s.len() - i,
{
    if i < 0 || i >= s.len() {
        0
    } else {
        (if s[i] == c {
            1nat
        } else {
            0nat
        }) + count_from(s, c, i + 1)
    }
}

/// The first index at or after `i` holding `c`, or -1.
pub open spec fn first_from(s: Seq<char>, c: char, i: int) -> int
    decreases s.len() - i,
{
    if i < 0 || i >= s.len() {
        -1
    } else if s[i] == c {
        i
    } else {
        first_from(s, c, i + 1)
    }
}

/// The access key a `_`-marked label gives: the character after its mark,
/// lowered.
pub open spec fn access_key(label: Seq<char>) -> char {
    lower_char(label[first_from(label, '_', 0) + 1])
}

/// The access key each item's label gives.
pub open spec fn item_key(item: TabMenuItem) -> char {
    match item {
        TabMenuItem::Save => 's',
        TabMenuItem::SaveAs => 'a',
        TabMenuItem::Close => 'c',
        TabMenuItem::CloseOthers => 'o',
        TabMenuItem::MoveToNewWindow => 'm',
        TabMenuItem::CopyFullPath => 'f',
        TabMenuItem::Reload => 'r',
        TabMenuItem::Rename => 'n',
    }
}

proof fn lemma_item_key(item: TabMenuItem)
    ensures
        count_from(item_label(item), '_', 0) == 1,
        0 <= first_from(item_label(item), '_', 0) < item_label(item).len() - 1,
        access_key(item_label(item)) == item_key(item),
{
    reveal_with_fuel(count_from, 24);
    reveal_with_fuel(first_from, 24);
    match item {
        TabMenuItem::Save => {
            reveal_strlit("_Save");
        },
        TabMenuItem::SaveAs => {
            reveal_strlit("Save _As…");
        },
        TabMenuItem::Close => {
            reveal_strlit("_Close Tab");
        },
        TabMenuItem::CloseOthers => {
            reveal_strlit("Close _Other Tabs");
        },
        TabMenuItem::MoveToNewWindow => {
            reveal_strlit("_Move to New Window");
        },
        TabMenuItem::CopyFullPath => {
            reveal_strlit("Copy _Full Path");
        },
        TabMenuItem::Reload => {
            reveal_strlit("_Reload");
        },
        TabMenuItem::Rename => {
            reveal_strlit("Re_name…");
        },
    }
}

/// Every item's label carries exactly one access-key mark, with a character
/// after it, and no two items share an access key, so each key reaches one item.
pub proof fn law_menu_access_keys_are_distinct(a: TabMenuItem, b: TabMenuItem)
    ensures
        count_from(item_label(a), '_', 0) == 1,
        0 <= first_from(item_label(a), '_', 0) < item_label(a).len() - 1,
        a != b ==> access_key(item_label(a)) != access_key(item_label(b)),
{
    lemma_item_key(a);
    lemma_item_key(b);
}

} // verus!
