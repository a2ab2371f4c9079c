//! The window/tab registry core: which tabs each window has, which one is
//! active, each window's Back/Forward history, and tab-id allocation. The
//! display shell keeps the per-tab and per-window widget state keyed by the
//! identities this registry hands out.
//!
//! A tab that stops belonging to a window (closed, or moved to another window)
//! leaves every window's history here, so no history can be left holding a tab
//! its window no longer has.

use vstd::prelude::*;

use crate::ids::{TabId, WindowId};
use crate::navhistory::model::{mentions, NavDir, NavModel};
use crate::navhistory::NavHistory;

verus! {

/// The model of one window's registry entry.
pub struct WindowModel {
    pub window: WindowId,
    /// `None`: the window currently has no active tab.
    pub active: Option<TabId>,
    /// The window's tabs, in the order they were added.
    pub tabs: Seq<TabId>,
    pub nav: NavModel,
}

/// The model of the registry.
#[verifier::ext_equal]
pub struct RegistryModel {
    pub windows: Seq<WindowModel>,
    /// The identity the next allocation hands out.
    pub next_tab_id: u64,
}

/// The index of `window`'s entry, or -1.
pub open spec fn index_of_window(s: Seq<WindowModel>, window: WindowId) -> int
    decreases s.len(),
{
    if s.len() == 0 {
        -1
    } else {
        let r = index_of_window(s.drop_last(), window);
        if r >= 0 {
            r
        } else if s.last().window == window {
            s.len() - 1
        } else {
            -1
        }
    }
}

/// `s` without `tab`, order kept.
pub open spec fn drop_tab(s: Seq<TabId>, tab: TabId) -> Seq<TabId>
    decreases s.len(),
{
    if s.len() == 0 {
        s
    } else {
        let r = drop_tab(s.drop_last(), tab);
        if s.last() == tab {
            r
        } else {
            r.push(s.last())
        }
    }
}

/// Every window's history with `tab` forgotten.
pub open spec fn forget_everywhere(s: Seq<WindowModel>, tab: TabId) -> Seq<WindowModel> {
    Seq::new(s.len(), |i: int| WindowModel { nav: s[i].nav.forget(tab), ..s[i] })
}

/// A window after `tab` is closed in it: the tab leaves its list, and if it was
/// active, the first remaining tab stands in, or no tab when none remains.
pub open spec fn after_close(e: WindowModel, tab: TabId) -> WindowModel {
    let tabs = drop_tab(e.tabs, tab);
    WindowModel {
        tabs,
        active: if e.active == Some(tab) {
            if tabs.len() > 0 {
                Some(tabs[0])
            } else {
                None
            }
        } else {
            e.active
        },
        ..e
    }
}

/// A window after `tab` moves elsewhere: if the window listed it, the tab
/// leaves its list, and if it was active, the first remaining tab stands in, or
/// no tab when none remains.
pub open spec fn after_departure(e: WindowModel, tab: TabId) -> WindowModel {
    if !e.tabs.contains(tab) {
        e
    } else {
        let tabs = drop_tab(e.tabs, tab);
        WindowModel {
            tabs,
            active: if e.active == Some(tab) {
                if tabs.len() > 0 {
                    Some(tabs[0])
                } else {
                    None
                }
            } else {
                e.active
            },
            ..e
        }
    }
}

impl RegistryModel {
    /// No window has two entries, and every history is well formed.
    pub open spec fn wf(self) -> bool {
        &&& forall|i: int, j: int|
            0 <= i < j < self.windows.len() ==> (#[trigger] self.windows[i]).window != (
            #[trigger] self.windows[j]).window
        &&& forall|i: int| 0 <= i < self.windows.len() ==> (#[trigger] self.windows[i]).nav.wf()
    }

    /// The entry of `window`, if registered.
    pub open spec fn entry(self, window: WindowId) -> Option<WindowModel> {
        let i = index_of_window(self.windows, window);
        if 0 <= i < self.windows.len() {
            Some(self.windows[i])
        } else {
            None
        }
    }

    /// Register a window with its first tab, which is active and is its
    /// history's first entry. Replaces any earlier entry for the window.
    pub open spec fn register(self, window: WindowId, tab: TabId) -> RegistryModel {
        let fresh = WindowModel {
            window,
            active: Some(tab),
            tabs: seq![tab],
            nav: NavModel::seeded(tab),
        };
        let i = index_of_window(self.windows, window);
        RegistryModel {
            windows: if i >= 0 {
                self.windows.update(i, fresh)
            } else {
                self.windows.push(fresh)
            },
            ..self
        }
    }

    /// Add a tab to a registered window, without changing which is active.
    pub open spec fn add_tab(self, window: WindowId, tab: TabId) -> RegistryModel {
        let i = index_of_window(self.windows, window);
        if i >= 0 {
            RegistryModel {
                windows: self.windows.update(
                    i,
                    WindowModel { tabs: self.windows[i].tabs.push(tab), ..self.windows[i] },
                ),
                ..self
            }
        } else {
            self
        }
    }

    /// Close `tab` in `window`: every history forgets it, and the window's entry
    /// loses it.
    pub open spec fn remove_tab(self, window: WindowId, tab: TabId) -> RegistryModel {
        let f = forget_everywhere(self.windows, tab);
        let i = index_of_window(self.windows, window);
        RegistryModel {
            windows: if i >= 0 {
                f.update(i, after_close(f[i], tab))
            } else {
                f
            },
            ..self
        }
    }

    /// Move `tab` to `dest`: every history forgets it, every window listing it
    /// lets it go, and `dest` lists it (once) as its active tab.
    pub open spec fn rehome_tab(self, dest: WindowId, tab: TabId) -> RegistryModel {
        let f = forget_everywhere(self.windows, tab);
        let g = Seq::new(f.len(), |k: int| after_departure(f[k], tab));
        let i = index_of_window(self.windows, dest);
        RegistryModel {
            windows: if i >= 0 {
                g.update(
                    i,
                    WindowModel {
                        tabs: if g[i].tabs.contains(tab) {
                            g[i].tabs
                        } else {
                            g[i].tabs.push(tab)
                        },
                        active: Some(tab),
                        ..g[i]
                    },
                )
            } else {
                g
            },
            ..self
        }
    }

    /// Make `tab` the active tab of `window`, if the window has it.
    pub open spec fn set_active_tab(self, window: WindowId, tab: TabId) -> RegistryModel {
        let i = index_of_window(self.windows, window);
        if i >= 0 && self.windows[i].tabs.contains(tab) {
            RegistryModel {
                windows: self.windows.update(i, WindowModel { active: Some(tab), ..self.windows[i] }),
                ..self
            }
        } else {
            self
        }
    }

    /// The registry after a tab identity is handed out: the counter moves on.
    pub open spec fn after_alloc(self) -> RegistryModel {
        RegistryModel { next_tab_id: (self.next_tab_id + 1) as u64, ..self }
    }

    /// Drop a window's entry.
    pub open spec fn unregister(self, window: WindowId) -> RegistryModel {
        let i = index_of_window(self.windows, window);
        if i >= 0 {
            RegistryModel { windows: self.windows.remove(i), ..self }
        } else {
            self
        }
    }

    /// Apply `nav` to `window`'s history, if registered.
    pub open spec fn with_nav(self, window: WindowId, nav: NavModel) -> RegistryModel {
        let i = index_of_window(self.windows, window);
        if i >= 0 {
            RegistryModel {
                windows: self.windows.update(i, WindowModel { nav, ..self.windows[i] }),
                ..self
            }
        } else {
            self
        }
    }
}

/// A lookup in the model finds the first entry for the window, or none.
pub proof fn lemma_index_of_window(s: Seq<WindowModel>, window: WindowId)
    ensures
        -1 <= index_of_window(s, window) < s.len(),
        index_of_window(s, window) >= 0 ==> s[index_of_window(s, window)].window == window,
        index_of_window(s, window) < 0 ==> forall|j: int|
            0 <= j < s.len() ==> #[trigger] s[j].window != window,
    decreases s.len(),
{
    if s.len() > 0 {
        let d = s.drop_last();
        lemma_index_of_window(d, window);
        if index_of_window(s, window) < 0 {
            assert forall|j: int| 0 <= j < s.len() implies #[trigger] s[j].window != window by {
                if j < s.len() - 1 {
                    assert(s[j] == d[j]);
                }
            }
        }
    }
}

/// Entries with the same windows in the same order give the same lookups.
pub proof fn lemma_index_of_same_windows(s: Seq<WindowModel>, t: Seq<WindowModel>, window: WindowId)
    requires
        s.len() == t.len(),
        forall|j: int| 0 <= j < s.len() ==> #[trigger] s[j].window == t[j].window,
    ensures
        index_of_window(s, window) == index_of_window(t, window),
    decreases s.len(),
{
    if s.len() > 0 {
        lemma_index_of_same_windows(s.drop_last(), t.drop_last(), window);
        assert(s.last().window == t.last().window);
    }
}

/// `drop_tab` removes exactly the given tab, keeps every other, and changes
/// nothing when the tab is absent.
pub proof fn lemma_drop_tab(s: Seq<TabId>, tab: TabId)
    ensures
        forall|k: int|
            0 <= k < drop_tab(s, tab).len() ==> #[trigger] drop_tab(s, tab)[k] != tab && s.contains(
                drop_tab(s, tab)[k],
            ),
        forall|m: int| 0 <= m < s.len() && #[trigger] s[m] != tab ==> drop_tab(s, tab).contains(s[m]),
        drop_tab(s, tab).len() <= s.len(),
        !s.contains(tab) ==> drop_tab(s, tab) == s,
    decreases s.len(),
{
    if s.len() > 0 {
        let d = s.drop_last();
        lemma_drop_tab(d, tab);
        let r = drop_tab(d, tab);
        let out = drop_tab(s, tab);
        assert(out == if s.last() == tab {
            r
        } else {
            r.push(s.last())
        });
        assert forall|k: int| 0 <= k < out.len() implies #[trigger] out[k] != tab && s.contains(out[k]) by {
            if k < r.len() {
                assert(out[k] == r[k]);
                assert(d.contains(r[k]));
                let m = choose|m: int| 0 <= m < d.len() && d[m] == r[k];
                assert(s[m] == d[m]);
            } else {
                assert(out[k] == s[s.len() - 1]);
            }
        }
        assert forall|m: int| 0 <= m < s.len() && #[trigger] s[m] != tab implies out.contains(s[m]) by {
            if m < s.len() - 1 {
                assert(s[m] == d[m]);
                assert(r.contains(d[m]));
                let k = choose|k: int| 0 <= k < r.len() && r[k] == d[m];
                assert(out[k] == r[k]);
            } else {
                assert(out[r.len() as int] == s[m]);
            }
        }
        if !s.contains(tab) {
            assert(!d.contains(tab)) by {
                if d.contains(tab) {
                    let m = choose|m: int| 0 <= m < d.len() && d[m] == tab;
                    assert(s[m] == tab);
                }
            }
            assert(s[s.len() - 1] != tab);
            assert(d.push(s.last()) =~= s);
        }
    }
}

/// One window's entry in the registry.
pub struct WindowEntry {
    window: WindowId,
    active_tab: Option<TabId>,
    tabs: Vec<TabId>,
    nav: NavHistory,
}

impl View for WindowEntry {
    type V = WindowModel;

    closed spec fn view(&self) -> WindowModel {
        WindowModel { window: self.window, active: self.active_tab, tabs: self.tabs@, nav: self.nav@ }
    }
}

impl WindowEntry {
    closed spec fn nav_wf(&self) -> bool {
        self.nav.wf()
    }

    proof fn lemma_view(&self)
        ensures
            self@.window == self.window,
            self@.active == self.active_tab,
            self@.tabs == self.tabs@,
            self@.nav == self.nav@,
            self.nav_wf() <==> self@.nav.wf(),
    {
    }

    /// An inert entry, used only to hold a slot while its real entry is edited.
    fn placeholder() -> (e: WindowEntry)
        ensures
            e@.nav.wf(),
    {
        WindowEntry {
            window: WindowId::from_raw(0),
            active_tab: None,
            tabs: Vec::new(),
            nav: NavHistory::new(),
        }
    }
}

/// The models of a sequence of entries.
pub open spec fn entry_models(s: Seq<WindowEntry>) -> Seq<WindowModel> {
    s.map_values(|e: WindowEntry| e@)
}

proof fn lemma_entry_models(s: Seq<WindowEntry>)
    ensures
        entry_models(s).len() == s.len(),
        forall|i: int| 0 <= i < s.len() ==> #[trigger] entry_models(s)[i] == s[i]@,
        forall|e: WindowEntry| #[trigger] entry_models(s.push(e)) == entry_models(s).push(e@),
        forall|i: int, e: WindowEntry|
            0 <= i < s.len() ==> #[trigger] entry_models(s.update(i, e)) == entry_models(s).update(i, e@),
        forall|i: int| 0 <= i < s.len() ==> #[trigger] entry_models(s.remove(i)) == entry_models(s).remove(i),
{
    assert forall|e: WindowEntry| #[trigger] entry_models(s.push(e)) == entry_models(s).push(e@) by {
        assert(entry_models(s.push(e)) =~= entry_models(s).push(e@));
    }
    assert forall|i: int, e: WindowEntry|
        0 <= i < s.len() implies #[trigger] entry_models(s.update(i, e)) == entry_models(s).update(i, e@) by {
        assert(entry_models(s.update(i, e)) =~= entry_models(s).update(i, e@));
    }
    assert forall|i: int| 0 <= i < s.len() implies #[trigger] entry_models(s.remove(i)) == entry_models(s).remove(i) by {
        assert(entry_models(s.remove(i)) =~= entry_models(s).remove(i));
    }
}

/// The registry of windows, their tabs and their histories.
pub struct Registry {
    windows: Vec<WindowEntry>,
    next_tab_id: u64,
}

impl View for Registry {
    type V = RegistryModel;

    closed spec fn view(&self) -> RegistryModel {
        RegistryModel { windows: entry_models(self.windows@), next_tab_id: self.next_tab_id }
    }
}

impl Registry {
    /// The registry's well-formedness, in terms of its model.
    pub open spec fn wf(&self) -> bool {
        self@.wf()
    }

    proof fn lemma_view(&self)
        ensures
            self@.windows == entry_models(self.windows@),
            self@.next_tab_id == self.next_tab_id,
            self@.windows.len() == self.windows@.len(),
            forall|i: int| 0 <= i < self.windows@.len() ==> #[trigger] self@.windows[i] == self.windows@[i]@,
    {
        lemma_entry_models(self.windows@);
    }

    /// An empty registry whose first allocated tab identity is 1.
    pub fn new() -> (r: Registry)
        ensures
            r.wf(),
            r@.windows.len() == 0,
            r@.next_tab_id == 1,
    {
        let r = Registry { windows: Vec::new(), next_tab_id: 1 };
        proof {
            r.lemma_view();
        }
        r
    }

    /// Allocate a fresh tab identity; each is larger than every earlier one.
    pub fn alloc_tab_id(&mut self) -> (id: TabId)
        requires
            old(self).wf(),
            old(self)@.next_tab_id < u64::MAX,
        ensures
            final(self).wf(),
            id.spec_raw() == old(self)@.next_tab_id,
            final(self)@ == old(self)@.after_alloc(),
    {
        proof {
            self.lemma_view();
        }
        let id = TabId::from_raw(self.next_tab_id);
        self.next_tab_id = self.next_tab_id + 1;
        proof {
            self.lemma_view();
            assert(self@ =~= old(self)@.after_alloc());
        }
        id
    }

    /// The position of `window`'s entry.
    fn find(&self, window: WindowId) -> (r: Option<usize>)
        ensures
            match r {
                Some(i) => index_of_window(self@.windows, window) == i as int && i
                    < self.windows@.len(),
                None => index_of_window(self@.windows, window) < 0,
            },
    {
        proof {
            self.lemma_view();
            lemma_index_of_window(self@.windows, window);
        }
        let n = self.windows.len();
        let mut i: usize = 0;
        while i < n
            invariant
                n == self.windows@.len(),
                n == self@.windows.len(),
                i <= n,
                forall|j: int| 0 <= j < i ==> #[trigger] self@.windows[j].window != window,
                forall|j: int| 0 <= j < n ==> #[trigger] self@.windows[j] == self.windows@[j]@,
            decreases n - i,
        {
            proof {
                self.windows@[i as int].lemma_view();
            }
            if self.windows[i].window == window {
                proof {
                    lemma_first_index(self@.windows, window, i as int);
                }
                return Some(i);
            }
            i = i + 1;
        }
        proof {
            lemma_first_index_absent(self@.windows, window);
        }
        None
    }

    /// Register a brand-new window with its first tab: the tab is active and is
    /// the first entry of the window's history.
    pub fn register(&mut self, window: WindowId, tab: TabId)
        requires
            old(self).wf(),
        ensures
            final(self).wf(),
            final(self)@ == old(self)@.register(window, tab),
    {
        let mut tabs = Vec::new();
        tabs.push(tab);
        let fresh = WindowEntry { window, active_tab: Some(tab), tabs, nav: NavHistory::seeded(tab) };
        proof {
            self.lemma_view();
            fresh.lemma_view();
            assert(fresh@.tabs =~= seq![tab]);
        }
        match self.find(window) {
            Some(i) => {
                self.windows.set(i, fresh);
            },
            None => {
                self.windows.push(fresh);
            },
        }
        proof {
            self.lemma_view();
            lemma_index_of_window(old(self)@.windows, window);
            let spec = old(self)@.register(window, tab);
            assert(self@.windows =~= spec.windows);
            assert(self@ =~= spec);
            assert forall|a: int, b: int|
                0 <= a < b < self@.windows.len() implies (#[trigger] self@.windows[a]).window != (
                #[trigger] self@.windows[b]).window by {
                if index_of_window(old(self)@.windows, window) < 0 {
                    if b < old(self)@.windows.len() {
                        assert(old(self)@.windows[a].window != old(self)@.windows[b].window);
                    }
                } else {
                    assert(old(self)@.windows[a].window != old(self)@.windows[b].window);
                }
            }
        }
    }

    /// Take `window`'s entry at position `i` out for editing, leaving a
    /// placeholder in its slot.
    fn take_entry(&mut self, i: usize) -> (e: WindowEntry)
        requires
            i < old(self).windows@.len(),
        ensures
            e == old(self).windows@[i as int],
            final(self).windows@.len() == old(self).windows@.len(),
            forall|j: int| 0 <= j < final(self).windows@.len() && j != i ==> #[trigger] final(self).windows@[j] == old(self).windows@[j],
            final(self).next_tab_id == old(self).next_tab_id,
    {
        let mut e = WindowEntry::placeholder();
        self.windows.set_and_swap(i, &mut e);
        e
    }

    /// Add another tab to an already-registered window. Does not change which
    /// tab is active; nothing happens for an unregistered window.
    pub fn add_tab(&mut self, window: WindowId, tab: TabId)
        requires
            old(self).wf(),
        ensures
            final(self).wf(),
            final(self)@ == old(self)@.add_tab(window, tab),
    {
        proof {
            self.lemma_view();
        }
        match self.find(window) {
            Some(i) => {
                let mut e = self.take_entry(i);
                e.tabs.push(tab);
                proof {
                    e.lemma_view();
                }
                self.windows.set(i, e);
                proof {
                    self.lemma_view();
                    lemma_entry_models(old(self).windows@);
                    let spec = old(self)@.add_tab(window, tab);
                    assert(self@.windows =~= spec.windows);
                    assert(self@ =~= spec);
                }
            },
            None => {},
        }
    }

    /// Forget `tab` in every window's history.
    fn forget_everywhere(&mut self, tab: TabId)
        requires
            old(self).wf(),
        ensures
            final(self).wf(),
            final(self)@ == (RegistryModel {
                windows: forget_everywhere(old(self)@.windows, tab),
                ..old(self)@
            }),
    {
        proof {
            self.lemma_view();
        }
        let n = self.windows.len();
        let ghost w0 = self@.windows;
        let mut i: usize = 0;
        while i < n
            invariant
                n == self.windows@.len(),
                w0.len() == n,
                i <= n,
                self.next_tab_id == old(self).next_tab_id,
                w0 == old(self)@.windows,
                old(self)@.wf(),
                forall|j: int| 0 <= j < i ==> #[trigger] self.windows@[j]@ == (WindowModel {
                    nav: w0[j].nav.forget(tab),
                    ..w0[j]
                }),
                forall|j: int| i <= j < n ==> #[trigger] self.windows@[j]@ == w0[j],
            decreases n - i,
        {
            proof {
                self.lemma_view();
                assert(w0[i as int].nav.wf());
            }
            let mut e = self.take_entry(i);
            proof {
                e.lemma_view();
            }
            e.nav.forget(tab);
            proof {
                e.lemma_view();
            }
            self.windows.set(i, e);
            i = i + 1;
        }
        proof {
            self.lemma_view();
            let target = forget_everywhere(w0, tab);
            assert(self@.windows =~= target);
            assert(self@ =~= RegistryModel { windows: target, ..old(self)@ });
            assert forall|a: int| 0 <= a < self@.windows.len() implies (#[trigger] self@.windows[a]).nav.wf() by {
                crate::navhistory::laws::law_forgetting_removes_every_entry(w0[a].nav, tab);
            }
            assert forall|a: int, b: int|
                0 <= a < b < self@.windows.len() implies (#[trigger] self@.windows[a]).window != (
                #[trigger] self@.windows[b]).window by {
                assert(w0[a].window != w0[b].window);
            }
        }
    }
    /// Close `tab` in `window`: every window's history forgets it, and the
    /// window's entry lets it go. If it was the active tab, the first remaining
    /// tab stands in until the shell reports the real switch, and a window left
    /// with no tab has no active tab.
    pub fn remove_tab(&mut self, window: WindowId, tab: TabId)
        requires
            old(self).wf(),
        ensures
            final(self).wf(),
            final(self)@ == old(self)@.remove_tab(window, tab),
    {
        self.forget_everywhere(tab);
        let ghost mid = self@;
        proof {
            self.lemma_view();
            lemma_index_of_same_windows(mid.windows, old(self)@.windows, window);
        }
        match self.find(window) {
            Some(i) => {
                let mut e = self.take_entry(i);
                proof {
                    e.lemma_view();
                }
                let tabs = without_tab(&e.tabs, tab);
                let active = if e.active_tab == Some(tab) {
                    if tabs.len() > 0 {
                        Some(tabs[0])
                    } else {
                        None
                    }
                } else {
                    e.active_tab
                };
                e.tabs = tabs;
                e.active_tab = active;
                proof {
                    e.lemma_view();
                    assert(e@ == after_close(mid.windows[i as int], tab));
                }
                self.windows.set(i, e);
                proof {
                    self.lemma_view();
                    lemma_entry_models(old(self).windows@);
                    let spec = old(self)@.remove_tab(window, tab);
                    assert(self@.windows =~= spec.windows);
                    assert(self@ =~= spec);
                    assert forall|a: int, b: int|
                        0 <= a < b < self@.windows.len() implies (#[trigger] self@.windows[a]).window != (
                        #[trigger] self@.windows[b]).window by {
                        assert(mid.windows[a].window != mid.windows[b].window);
                    }
                }
            },
            None => {
                proof {
                    assert(self@ =~= old(self)@.remove_tab(window, tab));
                }
            },
        }
    }

    /// Move `tab` into `dest`: every window's history forgets it (a traversal
    /// must never reach a document living in another window), every window
    /// listing it lets it go (one left with no tab has no active tab), and
    /// `dest` lists it once, as its active tab.
    pub fn rehome_tab(&mut self, dest: WindowId, tab: TabId)
        requires
            old(self).wf(),
        ensures
            final(self).wf(),
            final(self)@ == old(self)@.rehome_tab(dest, tab),
    {
        self.forget_everywhere(tab);
        let ghost f = self@.windows;
        proof {
            self.lemma_view();
        }
        let n = self.windows.len();
        let mut k: usize = 0;
        while k < n
            invariant
                n == self.windows@.len(),
                f.len() == n,
                k <= n,
                self.next_tab_id == old(self).next_tab_id,
                forall|j: int| 0 <= j < k ==> #[trigger] self.windows@[j]@ == after_departure(f[j], tab),
                forall|j: int| k <= j < n ==> #[trigger] self.windows@[j]@ == f[j],
            decreases n - k,
        {
            let mut e = self.take_entry(k);
            proof {
                e.lemma_view();
            }
            if holds_tab(&e.tabs, tab) {
                let tabs = without_tab(&e.tabs, tab);
                let active = if e.active_tab == Some(tab) {
                    if tabs.len() > 0 {
                        Some(tabs[0])
                    } else {
                        None
                    }
                } else {
                    e.active_tab
                };
                e.tabs = tabs;
                e.active_tab = active;
            }
            proof {
                e.lemma_view();
                assert(e@ == after_departure(f[k as int], tab));
            }
            self.windows.set(k, e);
            k = k + 1;
        }
        let ghost g = Seq::new(f.len(), |j: int| after_departure(f[j], tab));
        proof {
            self.lemma_view();
            assert(self@.windows =~= g);
            lemma_index_of_same_windows(g, old(self)@.windows, dest);
        }
        match self.find(dest) {
            Some(i) => {
                let mut e = self.take_entry(i);
                proof {
                    e.lemma_view();
                }
                if !holds_tab(&e.tabs, tab) {
                    e.tabs.push(tab);
                }
                e.active_tab = Some(tab);
                proof {
                    e.lemma_view();
                }
                self.windows.set(i, e);
            },
            None => {},
        }
        proof {
            self.lemma_view();
            lemma_entry_models(old(self).windows@);
            let spec = old(self)@.rehome_tab(dest, tab);
            assert(self@.windows =~= spec.windows);
            assert(self@ =~= spec);
            assert forall|a: int, b: int|
                0 <= a < b < self@.windows.len() implies (#[trigger] self@.windows[a]).window != (
                #[trigger] self@.windows[b]).window by {
                assert(f[a].window != f[b].window);
            }
            assert forall|a: int| 0 <= a < self@.windows.len() implies (#[trigger] self@.windows[a]).nav.wf() by {
                assert(f[a].nav.wf());
            }
        }
    }

    /// Make `tab` the active tab of `window`; nothing happens if the window does
    /// not have that tab.
    pub fn set_active_tab(&mut self, window: WindowId, tab: TabId)
        requires
            old(self).wf(),
        ensures
            final(self).wf(),
            final(self)@ == old(self)@.set_active_tab(window, tab),
    {
        proof {
            self.lemma_view();
        }
        match self.find(window) {
            Some(i) => {
                proof {
                    self.windows@[i as int].lemma_view();
                }
                if holds_tab(&self.windows[i].tabs, tab) {
                    let mut e = self.take_entry(i);
                    e.active_tab = Some(tab);
                    proof {
                        e.lemma_view();
                    }
                    self.windows.set(i, e);
                    proof {
                        self.lemma_view();
                        lemma_entry_models(old(self).windows@);
                        let spec = old(self)@.set_active_tab(window, tab);
                        assert(self@.windows =~= spec.windows);
                        assert(self@ =~= spec);
                    }
                }
            },
            None => {},
        }
    }

    /// Drop a window's entry (its tabs go with it), returning the tabs it had so
    /// the shell can release their state.
    pub fn unregister(&mut self, window: WindowId) -> (tabs: Option<Vec<TabId>>)
        requires
            old(self).wf(),
        ensures
            final(self).wf(),
            final(self)@ == old(self)@.unregister(window),
            match tabs {
                Some(t) => old(self)@.entry(window) matches Some(e) && t@ == e.tabs,
                None => old(self)@.entry(window) is None,
            },
    {
        proof {
            self.lemma_view();
            lemma_index_of_window(self@.windows, window);
        }
        match self.find(window) {
            Some(i) => {
                let e = self.windows.remove(i);
                proof {
                    e.lemma_view();
                    self.lemma_view();
                    lemma_entry_models(old(self).windows@);
                    let spec = old(self)@.unregister(window);
                    assert(self@.windows =~= spec.windows);
                    assert(self@ =~= spec);
                    assert forall|a: int, b: int|
                        0 <= a < b < self@.windows.len() implies (#[trigger] self@.windows[a]).window != (
                        #[trigger] self@.windows[b]).window by {
                        let oa = if a < i { a } else { a + 1 };
                        let ob = if b < i { b } else { b + 1 };
                        assert(self@.windows[a] == old(self)@.windows[oa]);
                        assert(self@.windows[b] == old(self)@.windows[ob]);
                        assert(old(self)@.windows[oa].window != old(self)@.windows[ob].window);
                    }
                    assert forall|a: int| 0 <= a < self@.windows.len() implies (#[trigger] self@.windows[a]).nav.wf() by {
                        let oa = if a < i { a } else { a + 1 };
                        assert(self@.windows[a] == old(self)@.windows[oa]);
                    }
                }
                Some(e.tabs)
            },
            None => None,
        }
    }

    /// Number of tabs registered to `window` (0 for an unregistered window).
    pub fn tab_count(&self, window: WindowId) -> (n: usize)
        ensures
            n == match self@.entry(window) {
                Some(e) => e.tabs.len(),
                None => 0,
            },
    {
        proof {
            self.lemma_view();
        }
        match self.find(window) {
            Some(i) => {
                proof {
                    self.windows@[i as int].lemma_view();
                }
                self.windows[i].tabs.len()
            },
            None => 0,
        }
    }

    /// The active tab of `window`, if it is registered and has one.
    pub fn active_tab(&self, window: WindowId) -> (t: Option<TabId>)
        ensures
            t == match self@.entry(window) {
                Some(e) => e.active,
                None => None,
            },
    {
        proof {
            self.lemma_view();
        }
        match self.find(window) {
            Some(i) => {
                proof {
                    self.windows@[i as int].lemma_view();
                }
                self.windows[i].active_tab
            },
            None => None,
        }
    }

    /// The tabs of `window` in the order they were added (empty for an
    /// unregistered window).
    pub fn tabs_for_window(&self, window: WindowId) -> (t: Vec<TabId>)
        ensures
            t@ == match self@.entry(window) {
                Some(e) => e.tabs,
                None => Seq::empty(),
            },
    {
        proof {
            self.lemma_view();
        }
        match self.find(window) {
            Some(i) => {
                proof {
                    self.windows@[i as int].lemma_view();
                }
                self.windows[i].tabs.clone()
            },
            None => Vec::new(),
        }
    }

    /// Whether `window` is registered.
    pub fn is_registered(&self, window: WindowId) -> (r: bool)
        ensures
            r == self@.entry(window) is Some,
    {
        proof {
            self.lemma_view();
        }
        self.find(window).is_some()
    }

    /// Record that `tab` became `window`'s active tab in its history.
    pub fn nav_record(&mut self, window: WindowId, tab: TabId)
        requires
            old(self).wf(),
        ensures
            final(self).wf(),
            final(self)@ == match old(self)@.entry(window) {
                Some(e) => old(self)@.with_nav(window, e.nav.record(tab)),
                None => old(self)@,
            },
    {
        proof {
            self.lemma_view();
        }
        match self.find(window) {
            Some(i) => {
                proof {
                    assert(self@.windows[i as int].nav.wf());
                }
                let mut e = self.take_entry(i);
                proof {
                    e.lemma_view();
                }
                e.nav.record(tab);
                proof {
                    e.lemma_view();
                }
                self.windows.set(i, e);
                proof {
                    self.finish_nav_edit(old(self)@, i as int, window);
                }
            },
            None => {},
        }
    }

    /// Step `window`'s history one entry in `dir`, returning the tab to activate.
    pub fn nav_step(&mut self, window: WindowId, dir: NavDir) -> (t: Option<TabId>)
        requires
            old(self).wf(),
        ensures
            final(self).wf(),
            match old(self)@.entry(window) {
                Some(e) => final(self)@ == old(self)@.with_nav(window, e.nav.step(dir).0) && t == match e.nav.step(dir).1 {
                    Some(p) => Some(p.tab),
                    None => None,
                },
                None => final(self)@ == old(self)@ && t is None,
            },
    {
        proof {
            self.lemma_view();
        }
        match self.find(window) {
            Some(i) => {
                proof {
                    assert(self@.windows[i as int].nav.wf());
                }
                let mut e = self.take_entry(i);
                proof {
                    e.lemma_view();
                }
                let r = e.nav.step(dir);
                proof {
                    e.lemma_view();
                }
                self.windows.set(i, e);
                proof {
                    self.finish_nav_edit(old(self)@, i as int, window);
                }
                match r {
                    Some(p) => Some(p.tab),
                    None => None,
                }
            },
            None => None,
        }
    }

    /// Whether a step of `window`'s history in `dir` would go anywhere.
    pub fn nav_can(&self, window: WindowId, dir: NavDir) -> (r: bool)
        requires
            self.wf(),
        ensures
            r == match self@.entry(window) {
                Some(e) => e.nav.can(dir),
                None => false,
            },
    {
        proof {
            self.lemma_view();
        }
        match self.find(window) {
            Some(i) => {
                proof {
                    self.windows@[i as int].lemma_view();
                    assert(self@.windows[i as int].nav.wf());
                }
                self.windows[i].nav.can(dir)
            },
            None => false,
        }
    }

    /// Open a scope in which `window`'s page switches are not navigations. The
    /// shell closes it with [`nav_unsuppress`](Self::nav_unsuppress) on every
    /// exit from the scope.
    pub fn nav_suppress(&mut self, window: WindowId)
        requires
            old(self).wf(),
            old(self)@.entry(window) matches Some(e) ==> e.nav.suppress < u32::MAX,
        ensures
            final(self).wf(),
            final(self)@ == match old(self)@.entry(window) {
                Some(e) => old(self)@.with_nav(window, e.nav.suppressed()),
                None => old(self)@,
            },
    {
        proof {
            self.lemma_view();
        }
        match self.find(window) {
            Some(i) => {
                proof {
                    assert(self@.windows[i as int].nav.wf());
                }
                let mut e = self.take_entry(i);
                proof {
                    e.lemma_view();
                }
                e.nav.suppress();
                proof {
                    e.lemma_view();
                }
                self.windows.set(i, e);
                proof {
                    self.finish_nav_edit(old(self)@, i as int, window);
                }
            },
            None => {},
        }
    }

    /// Close a scope opened by [`nav_suppress`](Self::nav_suppress); a window
    /// unregistered inside the scope has nothing left to release.
    pub fn nav_unsuppress(&mut self, window: WindowId)
        requires
            old(self).wf(),
        ensures
            final(self).wf(),
            final(self)@ == match old(self)@.entry(window) {
                Some(e) => old(self)@.with_nav(window, e.nav.unsuppressed()),
                None => old(self)@,
            },
    {
        proof {
            self.lemma_view();
        }
        match self.find(window) {
            Some(i) => {
                proof {
                    assert(self@.windows[i as int].nav.wf());
                }
                let mut e = self.take_entry(i);
                proof {
                    e.lemma_view();
                }
                e.nav.unsuppress();
                proof {
                    e.lemma_view();
                }
                self.windows.set(i, e);
                proof {
                    self.finish_nav_edit(old(self)@, i as int, window);
                }
            },
            None => {},
        }
    }

    /// After the entry at `i` had only its history replaced by a well-formed
    /// one, the registry is that edit of `before`.
    proof fn finish_nav_edit(&self, before: RegistryModel, i: int, window: WindowId)
        requires
            before.wf(),
            0 <= i < before.windows.len(),
            index_of_window(before.windows, window) == i,
            self.windows@.len() == before.windows.len(),
            self.next_tab_id == before.next_tab_id,
            forall|j: int| 0 <= j < self.windows@.len() && j != i ==> #[trigger] self.windows@[j]@ == before.windows[j],
            self.windows@[i]@.window == before.windows[i].window,
            self.windows@[i]@.active == before.windows[i].active,
            self.windows@[i]@.tabs == before.windows[i].tabs,
            self.windows@[i]@.nav.wf(),
        ensures
            self.wf(),
            self@ == before.with_nav(window, self.windows@[i]@.nav),
    {
        self.lemma_view();
        let spec = before.with_nav(window, self.windows@[i]@.nav);
        assert(self@.windows =~= spec.windows);
        assert(self@ =~= spec);
        assert forall|a: int, b: int|
            0 <= a < b < self@.windows.len() implies (#[trigger] self@.windows[a]).window != (
            #[trigger] self@.windows[b]).window by {
            assert(before.windows[a].window != before.windows[b].window);
        }
        assert forall|a: int| 0 <= a < self@.windows.len() implies (#[trigger] self@.windows[a]).nav.wf() by {
            if a != i {
                assert(before.windows[a].nav.wf());
            }
        }
    }

}

/// `tabs` without `tab`, order kept.
fn without_tab(tabs: &Vec<TabId>, tab: TabId) -> (r: Vec<TabId>)
    ensures
        r@ == drop_tab(tabs@, tab),
{
    let mut r: Vec<TabId> = Vec::new();
    let mut i: usize = 0;
    while i < tabs.len()
        invariant
            i <= tabs.len(),
            r@ == drop_tab(tabs@.take(i as int), tab),
        decreases tabs.len() - i,
    {
        proof {
            assert(tabs@.take(i + 1).drop_last() =~= tabs@.take(i as int));
        }
        if tabs[i] != tab {
            r.push(tabs[i]);
        }
        i = i + 1;
    }
    assert(tabs@.take(tabs.len() as int) =~= tabs@);
    r
}

/// Whether `tabs` holds `tab`.
fn holds_tab(tabs: &Vec<TabId>, tab: TabId) -> (r: bool)
    ensures
        r == tabs@.contains(tab),
{
    let mut i: usize = 0;
    while i < tabs.len()
        invariant
            i <= tabs.len(),
            forall|j: int| 0 <= j < i ==> tabs@[j] != tab,
        decreases tabs.len() - i,
    {
        if tabs[i] == tab {
            assert(tabs@[i as int] == tab);
            return true;
        }
        i = i + 1;
    }
    false
}

/// The first index of a window found by a left-to-right scan is its lookup.
proof fn lemma_first_index(s: Seq<WindowModel>, window: WindowId, i: int)
    requires
        0 <= i < s.len(),
        s[i].window == window,
        forall|j: int| 0 <= j < i ==> #[trigger] s[j].window != window,
    ensures
        index_of_window(s, window) == i,
    decreases s.len(),
{
    if i < s.len() - 1 {
        lemma_first_index(s.drop_last(), window, i);
    } else {
        lemma_first_index_absent(s.drop_last(), window);
    }
}

/// A window no entry names has no lookup.
proof fn lemma_first_index_absent(s: Seq<WindowModel>, window: WindowId)
    requires
        forall|j: int| 0 <= j < s.len() ==> #[trigger] s[j].window != window,
    ensures
        index_of_window(s, window) < 0,
    decreases s.len(),
{
    if s.len() > 0 {
        lemma_first_index_absent(s.drop_last(), window);
    }
}


/// No window's history mentions `tab`.
pub open spec fn forgotten_everywhere(m: RegistryModel, tab: TabId) -> bool {
    forall|i: int| 0 <= i < m.windows.len() ==> !mentions(#[trigger] m.windows[i].nav.entries, tab)
}

/// The window's active tab, when it has one, is one of its tabs.
pub open spec fn active_is_listed(w: WindowModel) -> bool {
    match w.active {
        Some(a) => w.tabs.contains(a),
        None => true,
    }
}

/// Every window's active tab, when it has one, is one of its tabs.
pub open spec fn active_among_tabs(m: RegistryModel) -> bool {
    forall|i: int| 0 <= i < m.windows.len() ==> active_is_listed(#[trigger] m.windows[i])
}

proof fn lemma_forget_everywhere(s: Seq<WindowModel>, tab: TabId)
    requires
        forall|i: int| 0 <= i < s.len() ==> (#[trigger] s[i]).nav.wf(),
    ensures
        forget_everywhere(s, tab).len() == s.len(),
        forall|i: int|
            0 <= i < s.len() ==> !mentions(#[trigger] forget_everywhere(s, tab)[i].nav.entries, tab),
        forall|i: int| 0 <= i < s.len() ==> (#[trigger] forget_everywhere(s, tab)[i]).window == s[i].window,
{
    assert forall|i: int| 0 <= i < s.len() implies !mentions(#[trigger] forget_everywhere(s, tab)[i].nav.entries, tab) by {
        crate::navhistory::laws::law_forgetting_removes_every_entry(s[i].nav, tab);
        let e = forget_everywhere(s, tab)[i].nav.entries;
        if mentions(e, tab) {
            let k = choose|k: int| 0 <= k < e.len() && #[trigger] e[k].tab == tab;
            assert(e[k].tab != tab);
        }
    }
}

/// Closing a tab leaves no trace of it in any window's history, and the window
/// it was closed in no longer lists it.
pub proof fn law_closing_a_tab_leaves_no_trace(m: RegistryModel, window: WindowId, tab: TabId)
    requires
        m.wf(),
    ensures
        forgotten_everywhere(m.remove_tab(window, tab), tab),
        m.remove_tab(window, tab).entry(window) matches Some(e) ==> !e.tabs.contains(tab),
        m.remove_tab(window, tab).windows.len() == m.windows.len(),
{
    let f = forget_everywhere(m.windows, tab);
    let r = m.remove_tab(window, tab);
    lemma_forget_everywhere(m.windows, tab);
    lemma_index_of_window(m.windows, window);
    lemma_index_of_same_windows(r.windows, m.windows, window);
    let i = index_of_window(m.windows, window);
    if i >= 0 {
        lemma_drop_tab(f[i].tabs, tab);
        assert forall|j: int| 0 <= j < r.windows.len() implies !mentions(#[trigger] r.windows[j].nav.entries, tab) by {
            assert(r.windows[j].nav == f[j].nav);
        }
    }
}

/// Moving a tab into a registered window leaves it with exactly one home: the
/// destination lists it and has it active, no other window lists it, and no
/// history mentions it.
pub proof fn law_a_moved_tab_has_exactly_one_home(m: RegistryModel, dest: WindowId, tab: TabId)
    requires
        m.wf(),
        m.entry(dest) is Some,
    ensures
        m.rehome_tab(dest, tab).entry(dest) matches Some(e) && e.tabs.contains(tab) && e.active == Some(tab),
        forall|i: int|
            0 <= i < m.rehome_tab(dest, tab).windows.len() && (#[trigger] m.rehome_tab(dest, tab).windows[i]).window
                != dest ==> !m.rehome_tab(dest, tab).windows[i].tabs.contains(tab),
        forgotten_everywhere(m.rehome_tab(dest, tab), tab),
{
    let f = forget_everywhere(m.windows, tab);
    let g = Seq::new(f.len(), |k: int| after_departure(f[k], tab));
    let r = m.rehome_tab(dest, tab);
    lemma_forget_everywhere(m.windows, tab);
    lemma_index_of_window(m.windows, dest);
    let i = index_of_window(m.windows, dest);
    assert forall|j: int| 0 <= j < g.len() implies #[trigger] g[j].window == m.windows[j].window by {}
    lemma_index_of_same_windows(r.windows, m.windows, dest);
    assert forall|j: int|
        0 <= j < r.windows.len() && (#[trigger] r.windows[j]).window != dest implies !r.windows[j].tabs.contains(tab) by {
        lemma_drop_tab(f[j].tabs, tab);
        assert(j != i);
        assert(r.windows[j] == g[j]);
    }
    assert forall|j: int| 0 <= j < r.windows.len() implies !mentions(#[trigger] r.windows[j].nav.entries, tab) by {
        assert(r.windows[j].nav == f[j].nav);
    }
    let e = r.windows[i];
    if !g[i].tabs.contains(tab) {
        assert(e.tabs[e.tabs.len() - 1] == tab);
    }
}

/// Making a tab active only ever picks one of the window's own tabs, and every
/// operation that changes which tab is active keeps the active tab among the
/// window's tabs.
pub proof fn law_the_active_tab_is_among_the_windows_tabs(
    m: RegistryModel,
    window: WindowId,
    tab: TabId,
)
    requires
        m.wf(),
        active_among_tabs(m),
    ensures
        active_among_tabs(m.set_active_tab(window, tab)),
        active_among_tabs(m.add_tab(window, tab)),
        active_among_tabs(m.register(window, tab)),
        active_among_tabs(m.rehome_tab(window, tab)),
{
    let i = index_of_window(m.windows, window);
    lemma_index_of_window(m.windows, window);
    let a = m.add_tab(window, tab);
    assert forall|j: int| 0 <= j < a.windows.len() implies active_is_listed(#[trigger] a.windows[j]) by {
        if j == i && i >= 0 {
            match a.windows[j].active {
                Some(x) => {
                    assert(active_is_listed(m.windows[j]));
                    let k = choose|k: int| 0 <= k < m.windows[j].tabs.len() && m.windows[j].tabs[k] == x;
                    assert(a.windows[j].tabs[k] == x);
                },
                None => {},
            }
        }
    }
    let reg = m.register(window, tab);
    assert forall|j: int| 0 <= j < reg.windows.len() implies active_is_listed(#[trigger] reg.windows[j]) by {
        if (i >= 0 && j == i) || (i < 0 && j == m.windows.len()) {
            assert(reg.windows[j].tabs[0] == tab);
        }
    }
    let f = forget_everywhere(m.windows, tab);
    let g = Seq::new(f.len(), |k: int| after_departure(f[k], tab));
    let r = m.rehome_tab(window, tab);
    lemma_forget_everywhere(m.windows, tab);
    assert forall|j: int| 0 <= j < r.windows.len() implies active_is_listed(#[trigger] r.windows[j]) by {
        lemma_drop_tab(f[j].tabs, tab);
        let d = drop_tab(f[j].tabs, tab);
        if i >= 0 && j == i {
            let e = r.windows[j];
            if !g[j].tabs.contains(tab) {
                assert(e.tabs[e.tabs.len() - 1] == tab);
            }
        } else if f[j].tabs.contains(tab) {
            match r.windows[j].active {
                Some(x) => {
                    if f[j].active == Some(tab) {
                        assert(d[0] == x);
                    } else {
                        assert(f[j].active == m.windows[j].active);
                        assert(active_is_listed(m.windows[j]));
                        let k = choose|k: int| 0 <= k < f[j].tabs.len() && f[j].tabs[k] == x;
                        assert(f[j].tabs[k] != tab);
                    }
                },
                None => {},
            }
        } else {
            assert(r.windows[j].active == m.windows[j].active);
        }
    }
}

/// Closing a tab keeps every active tab among its window's tabs; a window whose
/// last tab closes is left with no active tab.
pub proof fn law_closing_keeps_the_active_tab_among_the_tabs(
    m: RegistryModel,
    window: WindowId,
    tab: TabId,
)
    requires
        m.wf(),
        active_among_tabs(m),
    ensures
        active_among_tabs(m.remove_tab(window, tab)),
        m.remove_tab(window, tab).entry(window) matches Some(e) ==> e.active != Some(tab) && (
        e.tabs.len() == 0 ==> e.active is None),
{
    let i = index_of_window(m.windows, window);
    lemma_index_of_window(m.windows, window);
    let f = forget_everywhere(m.windows, tab);
    lemma_forget_everywhere(m.windows, tab);
    let r = m.remove_tab(window, tab);
    assert forall|j: int| 0 <= j < r.windows.len() implies active_is_listed(#[trigger] r.windows[j]) by {
        assert(active_is_listed(m.windows[j]));
        if i >= 0 && j == i {
            lemma_drop_tab(f[j].tabs, tab);
            let d = drop_tab(f[j].tabs, tab);
            match r.windows[j].active {
                Some(x) => {
                    if f[j].active == Some(tab) {
                        assert(d[0] == x);
                    } else {
                        assert(active_is_listed(m.windows[j]));
                        let k = choose|k: int| 0 <= k < f[j].tabs.len() && f[j].tabs[k] == x;
                        assert(f[j].tabs[k] != tab);
                    }
                },
                None => {},
            }
        }
    }
    lemma_index_of_same_windows(r.windows, m.windows, window);
    if i >= 0 {
        lemma_drop_tab(f[i].tabs, tab);
        assert(active_is_listed(r.windows[i]));
    }
}

/// Tab identities are unique and strictly increasing: an allocation hands out
/// the counter and moves it on by one, and no window operation moves it back,
/// so every later allocation hands out a larger identity than every earlier one.
pub proof fn law_tab_ids_strictly_increase(m: RegistryModel, window: WindowId, tab: TabId)
    requires
        m.next_tab_id < u64::MAX,
    ensures
        m.after_alloc().next_tab_id == m.next_tab_id + 1,
        ({
            let a = m.next_tab_id;
            let b = m.after_alloc().next_tab_id;
            a != b && b > a && b == a + 1
        }),
        m.register(window, tab).next_tab_id == m.next_tab_id,
        m.add_tab(window, tab).next_tab_id == m.next_tab_id,
        m.remove_tab(window, tab).next_tab_id == m.next_tab_id,
        m.rehome_tab(window, tab).next_tab_id == m.next_tab_id,
        m.set_active_tab(window, tab).next_tab_id == m.next_tab_id,
        m.unregister(window).next_tab_id == m.next_tab_id,
{
}
/// Closing a tab that is not the window's active tab leaves the window's active
/// tab as it was; closing the active tab hands over to the first tab still
/// listed, or to no tab when none is left. Every other window keeps its active
/// tab and its tabs, and the closed window keeps every tab but the closed one.
pub proof fn law_closing_a_background_tab_keeps_the_active_tab(
    m: RegistryModel,
    window: WindowId,
    tab: TabId,
)
    requires
        m.wf(),
    ensures
        m.remove_tab(window, tab).windows.len() == m.windows.len(),
        forall|j: int|
            0 <= j < m.windows.len() && m.windows[j].window != window ==> (#[trigger] m.remove_tab(
                window,
                tab,
            ).windows[j]).active == m.windows[j].active && m.remove_tab(window, tab).windows[j].tabs
                == m.windows[j].tabs,
        m.entry(window) matches Some(e) ==> {
            let r = m.remove_tab(window, tab).entry(window);
            &&& r is Some
            &&& e.active != Some(tab) ==> r->0.active == e.active
            &&& e.active == Some(tab) ==> (r->0.tabs.len() == 0 <==> r->0.active is None)
            &&& e.active == Some(tab) && r->0.tabs.len() > 0 ==> r->0.active == Some(r->0.tabs[0])
            &&& forall|x: TabId| #[trigger] r->0.tabs.contains(x) <==> (e.tabs.contains(x) && x != tab)
        },
{
    let i = index_of_window(m.windows, window);
    lemma_index_of_window(m.windows, window);
    let f = forget_everywhere(m.windows, tab);
    lemma_forget_everywhere(m.windows, tab);
    let r = m.remove_tab(window, tab);
    lemma_index_of_same_windows(r.windows, m.windows, window);
    if i >= 0 {
        lemma_drop_tab(f[i].tabs, tab);
        let d = drop_tab(f[i].tabs, tab);
        assert forall|x: TabId| #[trigger] d.contains(x) <==> (m.windows[i].tabs.contains(x) && x != tab) by {
            if d.contains(x) {
                let k = choose|k: int| 0 <= k < d.len() && d[k] == x;
                assert(d[k] != tab && f[i].tabs.contains(d[k]));
            }
            if m.windows[i].tabs.contains(x) && x != tab {
                let k = choose|k: int| 0 <= k < m.windows[i].tabs.len() && m.windows[i].tabs[k] == x;
                assert(f[i].tabs[k] != tab);
            }
        }
        assert(r.windows[i].tabs == d);
    }
}

/// Moving a tab out of a window where it is not the active tab leaves that
/// window's active tab as it was; a window whose active tab leaves hands over
/// to its first remaining tab, or to none. Whatever else happens, no window
/// but the destination keeps the moved tab active.
pub proof fn law_moving_a_background_tab_keeps_the_source_active_tab(
    m: RegistryModel,
    dest: WindowId,
    tab: TabId,
)
    requires
        m.wf(),
    ensures
        m.rehome_tab(dest, tab).windows.len() == m.windows.len(),
        forall|j: int|
            0 <= j < m.windows.len() && m.windows[j].window != dest && m.windows[j].active != Some(tab)
                ==> (#[trigger] m.rehome_tab(dest, tab).windows[j]).active == m.windows[j].active,
        active_among_tabs(m) ==> forall|j: int|
            0 <= j < m.windows.len() && m.windows[j].window != dest ==> (#[trigger] m.rehome_tab(
                dest,
                tab,
            ).windows[j]).active != Some(tab),
        forall|j: int|
            0 <= j < m.windows.len() && m.windows[j].window != dest && m.windows[j].active == Some(tab)
                && m.windows[j].tabs.contains(tab) && (#[trigger] m.rehome_tab(dest, tab).windows[j]).tabs.len()
                > 0 ==> m.rehome_tab(dest, tab).windows[j].active == Some(
                m.rehome_tab(dest, tab).windows[j].tabs[0],
            ),
{
    let i = index_of_window(m.windows, dest);
    lemma_index_of_window(m.windows, dest);
    let f = forget_everywhere(m.windows, tab);
    lemma_forget_everywhere(m.windows, tab);
    let r = m.rehome_tab(dest, tab);
    assert forall|j: int|
        active_among_tabs(m) && 0 <= j < m.windows.len() && m.windows[j].window != dest implies (
        #[trigger] r.windows[j]).active != Some(tab) by {
        assert(j != i);
        assert(active_is_listed(m.windows[j]));
        lemma_drop_tab(f[j].tabs, tab);
        let d = drop_tab(f[j].tabs, tab);
        if f[j].tabs.contains(tab) && f[j].active == Some(tab) && d.len() > 0 {
            assert(d[0] != tab);
        }
        if !f[j].tabs.contains(tab) && f[j].active == Some(tab) {
            assert(r.windows[j].active == Some(tab));
        }
    }
}

} // verus!
