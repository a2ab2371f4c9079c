//! The mathematical model of a navigation history: a sequence of places, a
//! cursor into it, and a suppression depth, with one spec function per
//! operation. The executable history is proved against these.

use vstd::prelude::*;

use crate::ids::TabId;

verus! {

/// The furthest back a window remembers.
pub const MAX_ENTRIES: usize = 50;

/// The model of a position inside a document.
pub enum SpotModel {
    /// A heading's anchor slug.
    Heading(Seq<char>),
    /// A top-of-viewport buffer line.
    Line(i32),
}

/// The model of one visited place.
pub struct PlaceModel {
    pub tab: TabId,
    pub spot: Option<SpotModel>,
}

/// Which way a traversal goes.
#[derive(Clone, Copy, PartialEq, Eq, Debug, Structural)]
pub enum NavDir {
    Back,
    Forward,
}

/// The model of one window's history.
#[verifier::ext_equal]
pub struct NavModel {
    /// Visited places, oldest first.
    pub entries: Seq<PlaceModel>,
    /// The index of the place the reader is on.
    pub cursor: Option<int>,
    /// Nesting depth of the "page switches are not navigations" scopes.
    pub suppress: nat,
}

/// The whole document `tab`, with no position inside it.
pub open spec fn whole(tab: TabId) -> PlaceModel {
    PlaceModel { tab, spot: None }
}

/// `s` with every run of equal adjacent places reduced to one.
pub open spec fn collapsed(s: Seq<PlaceModel>) -> Seq<PlaceModel>
    decreases s.len(),
{
    if s.len() == 0 {
        s
    } else {
        let r = collapsed(s.drop_last());
        if r.len() > 0 && r.last() == s.last() {
            r
        } else {
            r.push(s.last())
        }
    }
}

/// `s` without any place in document `tab`.
pub open spec fn without(s: Seq<PlaceModel>, tab: TabId) -> Seq<PlaceModel>
    decreases s.len(),
{
    if s.len() == 0 {
        s
    } else {
        let r = without(s.drop_last(), tab);
        if s.last().tab == tab {
            r
        } else {
            r.push(s.last())
        }
    }
}

/// No two adjacent places in `s` are the same place.
pub open spec fn no_adjacent_duplicates(s: Seq<PlaceModel>) -> bool {
    forall|i: int| 0 <= i < s.len() - 1 ==> #[trigger] s[i] != s[i + 1]
}

/// Whether some place in `s` is in document `tab`.
pub open spec fn mentions(s: Seq<PlaceModel>, tab: TabId) -> bool {
    exists|i: int| 0 <= i < s.len() && #[trigger] s[i].tab == tab
}

/// `p` with its spot dropped when `stale` says so.
pub open spec fn degraded(p: PlaceModel, stale: bool) -> PlaceModel {
    if stale {
        PlaceModel { tab: p.tab, spot: None }
    } else {
        p
    }
}

/// Whether place `p` names a heading in document `tab`.
pub open spec fn is_heading_in(p: PlaceModel, tab: TabId) -> bool {
    p.tab == tab && p.spot matches Some(SpotModel::Heading(_))
}

impl NavModel {
    /// The empty history.
    pub open spec fn empty() -> NavModel {
        NavModel { entries: Seq::empty(), cursor: None, suppress: 0 }
    }

    /// A history whose single entry is the whole of `tab`.
    pub open spec fn seeded(tab: TabId) -> NavModel {
        NavModel { entries: seq![whole(tab)], cursor: Some(0), suppress: 0 }
    }

    /// The cursor names an entry exactly when there is one, and the list is bounded.
    pub open spec fn wf(self) -> bool {
        &&& self.entries.len() <= MAX_ENTRIES
        &&& (self.cursor is None <==> self.entries.len() == 0)
        &&& (self.cursor matches Some(c) ==> 0 <= c < self.entries.len())
    }

    /// The place the cursor sits on.
    pub open spec fn current(self) -> Option<PlaceModel> {
        match self.cursor {
            Some(c) => if 0 <= c < self.entries.len() {
                Some(self.entries[c])
            } else {
                None
            },
            None => None,
        }
    }

    /// The document the cursor sits on.
    pub open spec fn current_tab(self) -> Option<TabId> {
        match self.current() {
            Some(p) => Some(p.tab),
            None => None,
        }
    }

    /// Whether a step in `dir` would go anywhere.
    pub open spec fn can(self, dir: NavDir) -> bool {
        match self.cursor {
            None => false,
            Some(c) => match dir {
                NavDir::Back => c > 0,
                NavDir::Forward => c + 1 < self.entries.len(),
            },
        }
    }

    /// One step in `dir`: the new history and the place now under the cursor.
    pub open spec fn step(self, dir: NavDir) -> (NavModel, Option<PlaceModel>) {
        if self.can(dir) {
            let next = match dir {
                NavDir::Back => self.cursor->0 - 1,
                NavDir::Forward => self.cursor->0 + 1,
            };
            (NavModel { cursor: Some(next), ..self }, Some(self.entries[next]))
        } else {
            (self, None)
        }
    }

    /// Enter one more suppression scope.
    pub open spec fn suppressed(self) -> NavModel {
        NavModel { suppress: self.suppress + 1, ..self }
    }

    /// Leave one suppression scope, never going below zero.
    pub open spec fn unsuppressed(self) -> NavModel {
        NavModel {
            suppress: if self.suppress > 0 {
                (self.suppress - 1) as nat
            } else {
                0
            },
            ..self
        }
    }

    /// Decline the forward trail, append `place`, drop the oldest entries past
    /// the bound, and put the cursor on the new tail.
    pub open spec fn pushed(self, place: PlaceModel) -> NavModel {
        let base = match self.cursor {
            Some(c) => self.entries.take(c + 1),
            None => Seq::empty(),
        };
        let grown = base.push(place);
        let kept = if grown.len() > MAX_ENTRIES {
            grown.skip(grown.len() - MAX_ENTRIES)
        } else {
            grown
        };
        NavModel { entries: kept, cursor: Some(kept.len() - 1), suppress: self.suppress }
    }

    /// Reduce runs of equal adjacent places to one, keeping the cursor on the
    /// survivor of the run it was in.
    pub open spec fn collapse(self) -> NavModel {
        match self.cursor {
            None => self,
            Some(c) => {
                let kept = collapsed(self.entries);
                NavModel {
                    entries: kept,
                    cursor: if kept.len() > 0 {
                        Some(collapsed(self.entries.take(c + 1)).len() - 1)
                    } else {
                        None
                    },
                    suppress: self.suppress,
                }
            },
        }
    }

    /// Re-point the reader's current place at the whole of `tab` without
    /// recording a navigation. An empty history gains `tab` as its one entry;
    /// either way the suppression depth is left as it was, so an open scope
    /// goes on suppressing.
    pub open spec fn follow(self, tab: TabId) -> NavModel {
        match self.cursor {
            None => NavModel { suppress: self.suppress, ..NavModel::seeded(tab) },
            Some(c) => NavModel {
                entries: self.entries.update(c, whole(tab)),
                ..self
            }.collapse(),
        }
    }

    /// `tab` became active.
    pub open spec fn record(self, tab: TabId) -> NavModel {
        if self.current_tab() == Some(tab) {
            self
        } else if self.suppress > 0 {
            self.follow(tab)
        } else {
            self.pushed(whole(tab))
        }
    }

    /// The reader moved within document `tab` from `from` to `to`.
    pub open spec fn record_jump(
        self,
        tab: TabId,
        from: Option<SpotModel>,
        to: SpotModel,
    ) -> NavModel {
        let arrival = PlaceModel { tab, spot: Some(to) };
        if self.suppress > 0 || self.current() == Some(arrival) {
            self
        } else {
            let stamped = match (self.cursor, from) {
                (Some(c), Some(f)) => if self.entries[c].tab == tab {
                    NavModel {
                        entries: self.entries.update(c, PlaceModel { tab, spot: Some(f) }),
                        ..self
                    }
                } else {
                    self
                },
                _ => self,
            };
            stamped.pushed(arrival)
        }
    }

    /// Drop every place in document `tab`, collapsing the duplicates that exposes.
    pub open spec fn forget(self, tab: TabId) -> NavModel {
        if !mentions(self.entries, tab) {
            self
        } else {
            let kept = collapsed(without(self.entries, tab));
            let before = match self.cursor {
                Some(c) => collapsed(without(self.entries.take(c + 1), tab)),
                None => Seq::empty(),
            };
            NavModel {
                entries: kept,
                cursor: if kept.len() == 0 {
                    None
                } else if before.len() == 0 {
                    Some(0)
                } else {
                    Some(before.len() - 1)
                },
                suppress: self.suppress,
            }
        }
    }

    /// Drop the spot of every entry `stale` marks, then collapse if any was dropped.
    pub open spec fn degrade(self, stale: Seq<bool>) -> NavModel {
        if exists|i: int| 0 <= i < self.entries.len() && #[trigger] stale[i] {
            NavModel {
                entries: Seq::new(self.entries.len(), |i: int| degraded(self.entries[i], stale[i])),
                ..self
            }.collapse()
        } else {
            self
        }
    }
}

} // verus!
