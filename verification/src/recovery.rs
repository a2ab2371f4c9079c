//! The crash-recovery pass's own bookkeeping: whether a process image names
//! this application, and how many documents each window recovered.

use vstd::prelude::*;

use crate::ids::WindowId;
use crate::text::{chars_of, decimal, push_decimal, same_text, trim_chars, trimmed};

verus! {

/// The executable image basename of this application on Windows.
pub const WINDOWS_IMAGE_NAME: &'static str = "scribobulate.exe";

/// The code of `c` with ASCII upper-case letters lowered.
pub open spec fn ascii_lower(c: char) -> u32 {
    if 65 <= (c as u32) <= 90 {
        (c as u32 + 32) as u32
    } else {
        c as u32
    }
}

/// This application's process name, as the operating system reports it.
pub const PACKAGE_NAME: &'static str = "scribobulate";

/// Two texts equal up to ASCII letter case.
pub open spec fn equal_ignoring_ascii_case(a: Seq<char>, b: Seq<char>) -> bool {
    a.len() == b.len() && forall|i: int| 0 <= i < a.len() ==> #[trigger] ascii_lower(a[i])
        == ascii_lower(b[i])
}

fn lower(c: char) -> (r: u32)
    ensures
        r == ascii_lower(c),
{
    let u = c as u32;
    if 65 <= u && u <= 90 {
        u + 32
    } else {
        u
    }
}

/// Whether two texts are equal up to ASCII letter case.
pub fn eq_ignore_ascii_case(a: &str, b: &str) -> (r: bool)
    ensures
        r == equal_ignoring_ascii_case(a@, b@),
{
    let x = chars_of(a);
    let y = chars_of(b);
    if x.len() != y.len() {
        return false;
    }
    let mut i: usize = 0;
    while i < x.len()
        invariant
            x@ == a@,
            y@ == b@,
            x.len() == y.len(),
            i <= x.len(),
            forall|j: int| 0 <= j < i ==> #[trigger] ascii_lower(a@[j]) == ascii_lower(b@[j]),
        decreases x.len() - i,
    {
        if lower(x[i]) != lower(y[i]) {
            return false;
        }
        i = i + 1;
    }
    true
}

/// Whether a Windows image basename names this application: its extension is
/// part of the name, and the file system chooses the casing.
pub fn windows_image_is_this_app(image: &str) -> (r: bool)
    ensures
        r == equal_ignoring_ascii_case(image@, WINDOWS_IMAGE_NAME@),
{
    eq_ignore_ascii_case(image, WINDOWS_IMAGE_NAME)
}

/// No window appears twice.
pub open spec fn keys_unique(counts: Seq<(WindowId, usize)>) -> bool {
    forall|i: int, j: int|
        0 <= i < j < counts.len() ==> (#[trigger] counts[i]).0 != (#[trigger] counts[j]).0
}

/// The index of the first entry of `counts` for `window`, or -1.
pub open spec fn first_entry(counts: Seq<(WindowId, usize)>, window: WindowId) -> int
    decreases counts.len(),
{
    if counts.len() == 0 {
        -1
    } else {
        let r = first_entry(counts.drop_last(), window);
        if r >= 0 {
            r
        } else if counts.last().0 == window {
            counts.len() - 1
        } else {
            -1
        }
    }
}

/// `counts` after `window` gained one more recovered document: the first
/// entry for it counts one more, or, with none, it joins the end with one.
pub open spec fn noted(counts: Seq<(WindowId, usize)>, window: WindowId) -> Seq<(WindowId, usize)> {
    let f = first_entry(counts, window);
    if f >= 0 {
        counts.update(f, (window, (counts[f].1 + 1) as usize))
    } else {
        counts.push((window, 1usize))
    }
}

proof fn lemma_first_entry(counts: Seq<(WindowId, usize)>, window: WindowId)
    ensures
        -1 <= first_entry(counts, window) < counts.len(),
        first_entry(counts, window) >= 0 ==> counts[first_entry(counts, window)].0 == window,
        forall|k: int|
            0 <= k < counts.len() && (first_entry(counts, window) < 0 || k < first_entry(
                counts,
                window,
            )) ==> #[trigger] counts[k].0 != window,
    decreases counts.len(),
{
    if counts.len() > 0 {
        lemma_first_entry(counts.drop_last(), window);
        assert forall|k: int| 0 <= k < counts.len() - 1 implies counts.drop_last()[k] == counts[k] by {}
    }
}

proof fn lemma_first_entry_at(counts: Seq<(WindowId, usize)>, window: WindowId, i: int)
    requires
        0 <= i < counts.len(),
        counts[i].0 == window,
        forall|k: int| 0 <= k < i ==> #[trigger] counts[k].0 != window,
    ensures
        first_entry(counts, window) == i,
{
    lemma_first_entry(counts, window);
}

/// Record that `window` gained one more recovered document: the first entry
/// for it counts one more, or it joins the end of the list with a count of one.
/// Order of first recovery is kept, and a list with no window twice keeps so.
pub fn note_recovery(per_window: &mut Vec<(WindowId, usize)>, window: WindowId)
    requires
        first_entry(old(per_window)@, window) >= 0 ==> old(per_window)@[first_entry(
            old(per_window)@,
            window,
        )].1 < usize::MAX,
    ensures
        final(per_window)@ == noted(old(per_window)@, window),
        keys_unique(old(per_window)@) ==> keys_unique(final(per_window)@),
{
    proof {
        lemma_first_entry(per_window@, window);
    }
    let n = per_window.len();
    let mut i: usize = 0;
    while i < n
        invariant
            n == per_window@.len(),
            per_window@ == old(per_window)@,
            first_entry(old(per_window)@, window) >= 0 ==> old(per_window)@[first_entry(
                old(per_window)@,
                window,
            )].1 < usize::MAX,
            i <= n,
            forall|k: int| 0 <= k < i ==> #[trigger] per_window@[k].0 != window,
        decreases n - i,
    {
        if per_window[i].0 == window {
            proof {
                lemma_first_entry_at(per_window@, window, i as int);
            }
            let count = per_window[i].1;
            per_window.set(i, (window, count + 1));
            proof {
                assert(per_window@ =~= noted(old(per_window)@, window));
                if keys_unique(old(per_window)@) {
                    assert forall|a: int, b: int|
                        0 <= a < b < per_window@.len() implies (#[trigger] per_window@[a]).0 != (
                        #[trigger] per_window@[b]).0 by {
                        assert(per_window@[a].0 == old(per_window)@[a].0);
                        assert(per_window@[b].0 == old(per_window)@[b].0);
                        assert(old(per_window)@[a].0 != old(per_window)@[b].0);
                    }
                }
            }
            return;
        }
        i = i + 1;
    }
    proof {
        lemma_first_entry(per_window@, window);
        if first_entry(per_window@, window) >= 0 {
            let f = first_entry(per_window@, window);
            assert(per_window@[f].0 != window);
        }
    }
    per_window.push((window, 1));
    proof {
        assert(per_window@ =~= noted(old(per_window)@, window));
        if keys_unique(old(per_window)@) {
            assert forall|a: int, b: int|
                0 <= a < b < per_window@.len() implies (#[trigger] per_window@[a]).0 != (
                #[trigger] per_window@[b]).0 by {
                if b == n {
                    assert(old(per_window)@[a].0 != window);
                } else {
                    assert(old(per_window)@[a].0 != old(per_window)@[b].0);
                }
            }
        }
    }
}

/// Whether `id` is among the document ids `claimed` so far.
pub open spec fn is_claimed(claimed: Seq<String>, id: Seq<char>) -> bool {
    exists|j: int| 0 <= j < claimed.len() && (#[trigger] claimed[j])@ == id
}

/// The document id of an open tab already backing a snapshot's file, when the
/// snapshot names a file and no earlier snapshot of this pass has claimed that
/// tab. `found` is the id of the open tab showing the snapshot's path, if any
/// (the lookup that resolves paths belongs to the application).
pub fn tab_id_at_same_path(untitled: bool, found: Option<String>, claimed: &Vec<String>) -> (r:
    Option<String>)
    ensures
        untitled ==> r is None,
        !untitled ==> match found {
            None => r is None,
            Some(id) => if is_claimed(claimed@, id@) {
                r is None
            } else {
                r matches Some(x) && x@ == id@
            },
        },
{
    if untitled {
        return None;
    }
    match found {
        None => None,
        Some(id) => {
            let mut j: usize = 0;
            while j < claimed.len()
                invariant
                    j <= claimed@.len(),
                    found == Some(id),
                    forall|k: int| 0 <= k < j ==> (#[trigger] claimed@[k])@ != id@,
                decreases claimed@.len() - j,
            {
                if same_text(claimed[j].as_str(), id.as_str()) {
                    assert((claimed@[j as int])@ == id@);
                    assert(is_claimed(claimed@, id@));
                    return None;
                }
                j = j + 1;
            }
            Some(id)
        },
    }
}

/// The operating systems whose process names the recovery pass can read.
#[derive(Clone, Copy, PartialEq, Eq, Debug, Structural)]
pub enum Platform {
    /// `/proc/<pid>/comm`: the process name, with a trailing newline.
    Linux,
    /// The executable's file name.
    MacOs,
    /// The executable image's file name, extension included, in the file
    /// system's own casing.
    Windows,
    /// Any other system: a process name cannot be read.
    Other,
}

/// Whether `name`, as `platform` reports a process's name, names this
/// application.
pub open spec fn names_this_app(platform: Platform, name: Seq<char>) -> bool {
    match platform {
        Platform::Linux => trimmed(name) == PACKAGE_NAME@,
        Platform::MacOs => name == PACKAGE_NAME@,
        Platform::Windows => equal_ignoring_ascii_case(name, WINDOWS_IMAGE_NAME@),
        Platform::Other => false,
    }
}

fn same_chars(a: &Vec<char>, b: &Vec<char>) -> (r: bool)
    ensures
        r == (a@ == b@),
{
    if a.len() != b.len() {
        return false;
    }
    let mut i: usize = 0;
    while i < a.len()
        invariant
            i <= a@.len(),
            a@.len() == b@.len(),
            forall|j: int| 0 <= j < i ==> a@[j] == b@[j],
        decreases a@.len() - i,
    {
        if a[i] != b[i] {
            assert(a@[i as int] != b@[i as int]);
            return false;
        }
        i = i + 1;
    }
    assert(a@ =~= b@);
    true
}

/// Whether the process `pid` that left a snapshot is a live instance of this
/// application, answered only on positive confirmation: our own process never
/// counts, and otherwise the system must report the process (`name`, `None`
/// when there is no such process or its name cannot be read) under this
/// application's name, as `platform` writes it. A false "live" would skip a
/// recovery and lose work; a false "not live" costs at most a duplicated tab.
pub fn owner_is_live(pid: u32, own_pid: u32, platform: Platform, name: Option<&str>) -> (r: bool)
    ensures
        r == (pid != own_pid && match name {
            Some(n) => names_this_app(platform, n@),
            None => false,
        }),
{
    if pid == own_pid {
        return false;
    }
    match name {
        None => false,
        Some(n) => match platform {
            Platform::Linux => {
                let cs = chars_of(n);
                let t = trim_chars(&cs);
                let app = chars_of(PACKAGE_NAME);
                same_chars(&t, &app)
            },
            Platform::MacOs => same_text(n, PACKAGE_NAME),
            Platform::Windows => windows_image_is_this_app(n),
            Platform::Other => false,
        },
    }
}

/// The session-wide notice of a recovery: how many documents got their unsaved
/// changes back. An empty recovery says nothing.
pub open spec fn announcement(count: nat) -> Option<Seq<char>> {
    if count == 0 {
        None
    } else if count == 1 {
        Some("Recovered unsaved changes in 1 document"@)
    } else {
        Some("Recovered unsaved changes in "@ + decimal(count) + " documents"@)
    }
}

/// The notice announcing that `count` documents were recovered, if any were.
pub fn recovery_announcement(count: usize) -> (r: Option<String>)
    ensures
        match announcement(count as nat) {
            Some(m) => r matches Some(x) && x@ == m,
            None => r is None,
        },
{
    if count == 0 {
        return None;
    }
    if count == 1 {
        return Some("Recovered unsaved changes in 1 document".to_owned());
    }
    let mut s = String::new();
    s.append("Recovered unsaved changes in ");
    push_decimal(&mut s, count as u64);
    s.append(" documents");
    proof {
        assert(s@ =~= "Recovered unsaved changes in "@ + decimal(count as nat) + " documents"@);
    }
    Some(s)
}

/// How many recoveries `counts` records for `window`, over all its entries.
pub open spec fn recovered(counts: Seq<(WindowId, usize)>, window: WindowId) -> int
    decreases counts.len(),
{
    if counts.len() == 0 {
        0
    } else {
        recovered(counts.drop_last(), window) + if counts.last().0 == window {
            counts.last().1 as int
        } else {
            0
        }
    }
}

proof fn lemma_recovered_update(counts: Seq<(WindowId, usize)>, i: int, entry: (WindowId, usize), window: WindowId)
    requires
        0 <= i < counts.len(),
    ensures
        recovered(counts.update(i, entry), window) == recovered(counts, window) - (if counts[i].0
            == window {
            counts[i].1 as int
        } else {
            0
        }) + (if entry.0 == window {
            entry.1 as int
        } else {
            0
        }),
    decreases counts.len(),
{
    let u = counts.update(i, entry);
    if i < counts.len() - 1 {
        assert(u.drop_last() =~= counts.drop_last().update(i, entry));
        lemma_recovered_update(counts.drop_last(), i, entry, window);
    } else {
        assert(u.drop_last() =~= counts.drop_last());
    }
}

/// Noting a recovery for `window` adds exactly one to what the list records for
/// that window, changes nothing it records for any other window, and keeps
/// every window's entries in place: at most one entry is added, at the end.
pub proof fn law_a_recovery_counts_once_for_its_window(
    counts: Seq<(WindowId, usize)>,
    window: WindowId,
    other: WindowId,
)
    requires
        first_entry(counts, window) >= 0 ==> counts[first_entry(counts, window)].1 < usize::MAX,
        other != window,
    ensures
        recovered(noted(counts, window), window) == recovered(counts, window) + 1,
        recovered(noted(counts, window), other) == recovered(counts, other),
        counts.len() <= noted(counts, window).len() <= counts.len() + 1,
        forall|i: int| 0 <= i < counts.len() ==> #[trigger] noted(counts, window)[i].0 == counts[i].0,
{
    lemma_first_entry(counts, window);
    let f = first_entry(counts, window);
    if f >= 0 {
        let e = (window, (counts[f].1 + 1) as usize);
        lemma_recovered_update(counts, f, e, window);
        lemma_recovered_update(counts, f, e, other);
    } else {
        let n = counts.push((window, 1usize));
        assert(n.drop_last() =~= counts);
    }
}

} // verus!
