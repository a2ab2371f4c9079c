//! The mutations driven by the world changing *under* the history rather than
//! by the reader navigating: a tab left the window, a document's headings were
//! replaced, or a page switch the reader did not ask for moved which tab is
//! active.
//!
//! Each can leave consecutive duplicates (`[A, X, A]` becomes `[A, A]`), and an
//! adjacent duplicate is a Back press that reports itself available and then
//! visibly does nothing, so each ends by collapsing runs of equal neighbours.
//!
//! A stale heading degrades its entry to "just this document"; it never
//! redirects it. A stale line is not degraded: an integer line cannot be
//! recognised as stale.

use vstd::prelude::*;

use super::model::{collapsed, degraded, is_heading_in, mentions, whole, without, NavModel, PlaceModel, SpotModel};
use super::{lemma_views, views, NavHistory, NavPlace, NavSpot};
use crate::ids::TabId;

verus! {

/// Whether `f` answered `b` for some string holding `slug`.
pub open spec fn answered<F: Fn(&str) -> bool>(f: F, slug: Seq<char>, b: bool) -> bool {
    exists|s: &str| s@ == slug && call_ensures(f, (s,), b)
}

/// `stale` marks exactly the heading entries of `tab` whose slug `f` reported
/// as no longer resolving.
pub open spec fn stale_marks<F: Fn(&str) -> bool>(
    entries: Seq<PlaceModel>,
    tab: TabId,
    f: F,
    stale: Seq<bool>,
) -> bool {
    &&& stale.len() == entries.len()
    &&& forall|i: int|
        0 <= i < entries.len() ==> (#[trigger] stale[i] ==> is_heading_in(entries[i], tab))
    &&& forall|i: int|
        0 <= i < entries.len() && is_heading_in(entries[i], tab) ==> match entries[i].spot {
            Some(SpotModel::Heading(slug)) => answered(f, slug, !#[trigger] stale[i]),
            _ => true,
        }
}

impl NavHistory {
    /// Re-point the reader's current place at `tab` without recording a
    /// navigation: the suppressed-switch half of [`record`](NavHistory::record).
    ///
    /// Overwrites the cursor's entry rather than appending, then collapses the
    /// duplicate that can create against either neighbour.
    pub(super) fn follow(&mut self, tab: TabId)
        requires
            old(self).wf(),
        ensures
            final(self).wf(),
            final(self)@ == old(self)@.follow(tab),
    {
        proof {
            self.lemma_wf();
        }
        let cursor = match self.cursor {
            Some(c) => c,
            None => {
                let depth = self.suppress;
                *self = NavHistory::seeded(tab);
                self.suppress = depth;
                proof {
                    self.lemma_wf();
                    assert(self@ =~= old(self)@.follow(tab));
                }
                return;
            },
        };
        let ghost before = self@;
        proof {
            lemma_views(self.entries@);
        }
        self.entries.set(cursor, NavPlace::whole(tab));
        proof {
            self.lemma_wf();
            assert(self@ =~= NavModel {
                entries: before.entries.update(cursor as int, whole(tab)),
                ..before
            });
        }
        self.collapse();
    }

    /// Drop every entry for `tab`: it has been closed, or moved to another
    /// window, and the history must behave as though it were never visited.
    ///
    /// The cursor lands on the newest surviving entry at or before its old
    /// position, or on the oldest survivor when nothing before it survives.
    pub fn forget(&mut self, tab: TabId)
        requires
            old(self).wf(),
        ensures
            final(self).wf(),
            final(self)@ == old(self)@.forget(tab),
    {
        proof {
            self.lemma_wf();
        }
        let n = self.entries.len();
        let mut found = false;
        let mut k: usize = 0;
        while k < n
            invariant
                n == self.entries@.len(),
                k <= n,
                found <==> exists|j: int| 0 <= j < k && #[trigger] self.entries@[j].tab == tab,
            decreases n - k,
        {
            if self.entries[k].tab == tab {
                found = true;
            }
            k = k + 1;
        }
        if !found {
            proof {
                if mentions(self@.entries, tab) {
                    let j = choose|j: int| 0 <= j < self@.entries.len() && #[trigger] self@.entries[j].tab == tab;
                    assert(self.entries@[j].tab == tab);
                }
            }
            return;
        }
        let ghost e = self@.entries;
        proof {
            let j = choose|j: int| 0 <= j < n && #[trigger] self.entries@[j].tab == tab;
            assert(e[j].tab == tab);
            assert(mentions(e, tab));
        }
        let old_cursor = self.cursor;
        let mut kept: Vec<NavPlace> = Vec::new();
        let mut new_cursor: Option<usize> = None;
        let mut i: usize = 0;
        while i < n
            invariant
                n == self.entries@.len(),
                e == views(self.entries@),
                e.len() == n,
                i <= n,
                views(kept@) == collapsed(without(e.take(i as int), tab)),
                old_cursor == self.cursor,
                self.cursor matches Some(c) ==> c < n,
                match new_cursor {
                    Some(nc) => nc < kept@.len(),
                    None => true,
                },
                match old_cursor {
                    None => new_cursor is None,
                    Some(c) => {
                        let pre = collapsed(without(e.take(if i <= c + 1 { i as int } else { c + 1 }), tab));
                        new_cursor == if pre.len() == 0 { None::<usize> } else { Some((pre.len() - 1) as usize) }
                    },
                },
            decreases n - i,
        {
            let ghost prev_kept = views(kept@);
            let place = &self.entries[i];
            let ghost w = without(e.take(i as int), tab);
            proof {
                lemma_views(kept@);
                assert(e.take(i + 1).drop_last() =~= e.take(i as int));
                assert(e.take(i + 1).last() == place@);
                if place@.tab == tab {
                    assert(without(e.take(i + 1), tab) == w);
                } else {
                    assert(without(e.take(i + 1), tab) == w.push(place@));
                    assert(w.push(place@).drop_last() =~= w);
                    assert(collapsed(w.push(place@)) == if collapsed(w).len() > 0
                        && collapsed(w).last() == place@ {
                        collapsed(w)
                    } else {
                        collapsed(w).push(place@)
                    });
                }
            }
            if place.tab != tab {
                let dup = if kept.len() > 0 {
                    kept[kept.len() - 1].same_place(place)
                } else {
                    false
                };
                if !dup {
                    proof {
                        lemma_views(kept@);
                    }
                    kept.push(place.duplicate());
                }
                match old_cursor {
                    Some(c) => {
                        if i <= c {
                            new_cursor = Some(kept.len() - 1);
                        }
                    },
                    None => {},
                }
            }
            i = i + 1;
        }
        assert(e.take(n as int) =~= e);
        let empty = kept.len() == 0;
        self.entries = kept;
        self.cursor = match (new_cursor, empty) {
            (_, true) => None,
            (None, false) => Some(0),
            (Some(c), false) => Some(c),
        };
        proof {
            self.lemma_wf();
            lemma_collapsed_len(without(e, tab));
            lemma_without_len(e, tab);
            let spec = old(self)@.forget(tab);
            match old_cursor {
                Some(c) => {
                    assert(e.take(n as int) =~= e.take(c + 1) || n > c + 1);
                    lemma_collapsed_len(without(e.take(c + 1), tab));
                    lemma_without_len(e.take(c + 1), tab);
                },
                None => {},
            }
            assert(e == old(self)@.entries);
            assert(mentions(old(self)@.entries, tab));
            assert(self@.entries =~= spec.entries);
            assert(self@.suppress == spec.suppress);
            assert(self@.cursor == spec.cursor);
            assert(self@ =~= spec);
        }
    }

    /// Reconcile `tab`'s entries against the headings that document now has:
    /// any heading whose slug `resolves` reports absent degrades to "just this
    /// document", and the collapse then removes whatever that made redundant.
    ///
    /// `resolves` is asked once for each heading entry of `tab`, oldest first.
    pub fn degrade_stale_headings<F: Fn(&str) -> bool>(&mut self, tab: TabId, resolves: F)
        requires
            old(self).wf(),
            forall|s: &str| #[trigger] resolves.requires((s,)),
        ensures
            final(self).wf(),
            exists|stale: Seq<bool>|
                stale_marks(old(self)@.entries, tab, resolves, stale) && final(self)@
                    == old(self)@.degrade(stale),
    {
        proof {
            self.lemma_wf();
        }
        let ghost e = self@.entries;
        let n = self.entries.len();
        let mut stale: Vec<bool> = Vec::new();
        let mut changed = false;
        let mut i: usize = 0;
        while i < n
            invariant
                n == self.entries@.len(),
                e == views(self.entries@),
                i <= n,
                stale@.len() == i,
                forall|s: &str| #[trigger] resolves.requires((s,)),
                forall|j: int| 0 <= j < i ==> (#[trigger] stale@[j] ==> is_heading_in(e[j], tab)),
                forall|j: int|
                    0 <= j < i && is_heading_in(e[j], tab) ==> match e[j].spot {
                        Some(SpotModel::Heading(slug)) => answered(resolves, slug, !#[trigger] stale@[j]),
                        _ => true,
                    },
                changed <==> exists|j: int| 0 <= j < i && #[trigger] stale@[j],
            decreases n - i,
        {
            let ghost old_stale = stale@;
            let ghost old_changed = changed;
            let place = &self.entries[i];
            let mut is_stale = false;
            if place.tab == tab {
                match &place.spot {
                    Some(NavSpot::Heading(slug)) => {
                        let s = slug.as_str();
                        let ok = resolves(s);
                        assert(answered(resolves, slug@, ok));
                        is_stale = !ok;
                    },
                    _ => {},
                }
            }
            stale.push(is_stale);
            if is_stale {
                changed = true;
            }
            proof {
                assert(stale@ == old_stale.push(is_stale));
                assert(forall|j: int| 0 <= j < i ==> stale@[j] == old_stale[j]);
                if is_stale {
                    assert(stale@[i as int]);
                } else if old_changed {
                    let j = choose|j: int| 0 <= j < i && #[trigger] old_stale[j];
                    assert(stale@[j]);
                } else {
                    assert forall|j: int| 0 <= j < i + 1 implies !#[trigger] stale@[j] by {
                        if j < i {
                            assert(!old_stale[j]);
                        }
                    }
                }
            }
            i = i + 1;
        }
        if changed {
            let ghost before = self@;
            let mut j: usize = 0;
            while j < n
                invariant
                    n == self.entries@.len(),
                    stale@.len() == n,
                    j <= n,
                    e.len() == n,
                    forall|q: int| 0 <= q < j ==> #[trigger] views(self.entries@)[q] == degraded(e[q], stale@[q]),
                    forall|q: int| j <= q < n ==> #[trigger] views(self.entries@)[q] == e[q],
                    self@.cursor == before.cursor,
                    self@.suppress == before.suppress,
                decreases n - j,
            {
                let ghost prev = self.entries@;
                proof {
                    lemma_views(self.entries@);
                    assert(views(prev)[j as int] == e[j as int]);
                }
                if stale[j] {
                    let t = self.entries[j].tab;
                    self.entries.set(j, NavPlace::whole(t));
                    proof {
                        lemma_views(self.entries@);
                        assert(views(self.entries@) == views(prev).update(j as int, super::model::whole(t)));
                        assert(views(self.entries@)[j as int] == degraded(e[j as int], stale@[j as int]));
                    }
                } else {
                    assert(views(self.entries@)[j as int] == degraded(e[j as int], stale@[j as int]));
                }
                j = j + 1;
            }
            proof {
                self.lemma_wf();
                assert(self@ =~= NavModel {
                    entries: Seq::new(e.len(), |q: int| degraded(e[q], stale@[q])),
                    ..before
                });
            }
            self.collapse();
        }
        proof {
            assert(stale_marks(e, tab, resolves, stale@));
            assert(e == old(self)@.entries);
            if changed {
                let j = choose|j: int| 0 <= j < n && #[trigger] stale@[j];
                assert(0 <= j < old(self)@.entries.len() && stale@[j]);
                assert(Seq::new(e.len(), |q: int| degraded(e[q], stale@[q])) =~= Seq::new(
                    old(self)@.entries.len(),
                    |q: int| degraded(old(self)@.entries[q], stale@[q]),
                ));
            } else {
                assert(!exists|q: int| 0 <= q < old(self)@.entries.len() && #[trigger] stale@[q]);
            }
            assert(self@ == old(self)@.degrade(stale@));
        }
    }

    /// Drop runs of equal adjacent places, keeping the cursor on the survivor of
    /// whichever run it was in.
    fn collapse(&mut self)
        requires
            old(self).wf(),
        ensures
            final(self).wf(),
            final(self)@ == old(self)@.collapse(),
    {
        proof {
            self.lemma_wf();
        }
        let old_cursor = match self.cursor {
            Some(c) => c,
            None => return,
        };
        let ghost e = self@.entries;
        let n = self.entries.len();
        let mut kept: Vec<NavPlace> = Vec::new();
        let mut new_cursor: usize = 0;
        let mut i: usize = 0;
        while i < n
            invariant
                n == self.entries@.len(),
                e == views(self.entries@),
                e.len() == n,
                old_cursor < n,
                i <= n,
                views(kept@) == collapsed(e.take(i as int)),
                i > 0 ==> new_cursor < kept@.len(),
                i > 0 ==> new_cursor == collapsed(
                    e.take(if i <= old_cursor + 1 { i as int } else { old_cursor + 1 }),
                ).len() - 1,
            decreases n - i,
        {
            let ghost prev_kept = views(kept@);
            let place = &self.entries[i];
            proof {
                lemma_views(kept@);
                let t = e.take(i as int);
                assert(e.take(i + 1).drop_last() =~= t);
                assert(e.take(i + 1).last() == place@);
                assert(e.take(i + 1) =~= t.push(place@));
                assert(t.push(place@).drop_last() =~= t);
                assert(collapsed(t.push(place@)) == if collapsed(t).len() > 0
                    && collapsed(t).last() == place@ {
                    collapsed(t)
                } else {
                    collapsed(t).push(place@)
                });
            }
            let dup = if kept.len() > 0 {
                kept[kept.len() - 1].same_place(place)
            } else {
                false
            };
            if !dup {
                proof {
                    lemma_views(kept@);
                }
                kept.push(place.duplicate());
            }
            if i <= old_cursor {
                new_cursor = kept.len() - 1;
            }
            i = i + 1;
        }
        assert(e.take(n as int) =~= e);
        self.cursor = if kept.len() > 0 {
            Some(new_cursor)
        } else {
            None
        };
        self.entries = kept;
        proof {
            self.lemma_wf();
            lemma_collapsed_len(e);
            assert(self@ =~= old(self)@.collapse());
        }
    }
}

/// Collapsing never lengthens, and empties only the empty sequence.
pub proof fn lemma_collapsed_len(s: Seq<PlaceModel>)
    ensures
        collapsed(s).len() <= s.len(),
        collapsed(s).len() == 0 <==> s.len() == 0,
    decreases s.len(),
{
    if s.len() > 0 {
        lemma_collapsed_len(s.drop_last());
    }
}

/// Filtering never lengthens.
pub proof fn lemma_without_len(s: Seq<PlaceModel>, tab: TabId)
    ensures
        without(s, tab).len() <= s.len(),
    decreases s.len(),
{
    if s.len() > 0 {
        lemma_without_len(s.drop_last(), tab);
    }
}

} // verus!
