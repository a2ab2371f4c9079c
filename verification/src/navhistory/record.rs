//! Writing the history: the two ways a place is appended, and the bound they
//! share. Kept apart from the walking half because a history that recorded its
//! own traversals would stop being an escape route.

use vstd::prelude::*;

use super::model::{whole, MAX_ENTRIES, NavModel, PlaceModel, SpotModel};
use super::{lemma_views, NavHistory, NavPlace, NavSpot};
use crate::ids::TabId;

verus! {

impl NavHistory {
    /// Record that `tab` became active.
    ///
    /// Appends a navigation, unless suppressed, in which case the cursor merely
    /// follows the active tab. A no-op either way when `tab` is already the
    /// cursor's tab, so an idempotent switch neither pollutes the history nor
    /// discards the spot a within-document jump recorded for that document.
    pub fn record(&mut self, tab: TabId)
        requires
            old(self).wf(),
        ensures
            final(self).wf(),
            final(self)@ == old(self)@.record(tab),
    {
        if self.current_tab() == Some(tab) {
            return;
        }
        if self.suppress > 0 {
            self.follow(tab);
            return;
        }
        self.push(NavPlace::whole(tab));
    }

    /// Record a navigation within one document: the reader was at `from` in
    /// `tab` and went to `to`.
    ///
    /// `from` is stamped onto the entry being left, so Back returns to where the
    /// link was followed from; `None` leaves that entry's spot alone. A no-op when
    /// the arrival is the place the reader is already on, or while suppressed.
    pub fn record_jump(&mut self, tab: TabId, from: Option<NavSpot>, to: NavSpot)
        requires
            old(self).wf(),
        ensures
            final(self).wf(),
            final(self)@ == old(self)@.record_jump(tab, super::spot_view(from), to@),
    {
        if self.suppress > 0 {
            return;
        }
        let arrival = NavPlace { tab, spot: Some(to) };
        let same = match self.current() {
            Some(p) => p.same_place(&arrival),
            None => false,
        };
        if same {
            return;
        }
        proof {
            self.lemma_wf();
        }
        let ghost before = self@;
        // Stamp after the equality test and before the append: the test compares
        // against the place as the reader knows it.
        match (self.cursor, from) {
            (Some(cursor), Some(from)) => {
                if self.entries[cursor].tab == tab {
                    let stamped = NavPlace { tab, spot: Some(from) };
                    proof {
                        lemma_views(self.entries@);
                    }
                    self.entries.set(cursor, stamped);
                    proof {
                        self.lemma_wf();
                        assert(self@.entries =~= before.entries.update(
                            cursor as int,
                            PlaceModel { tab, spot: Some(from@) },
                        ));
                    }
                }
            },
            _ => {},
        }
        self.push(arrival);
    }

    /// Truncate the forward trail, append `place`, and re-anchor the cursor:
    /// the shared tail of both recording paths.
    fn push(&mut self, place: NavPlace)
        requires
            old(self).wf(),
        ensures
            final(self).wf(),
            final(self)@ == old(self)@.pushed(place@),
    {
        proof {
            self.lemma_wf();
        }
        let ghost base = match old(self)@.cursor {
            Some(c) => old(self)@.entries.take(c + 1),
            None => Seq::<PlaceModel>::empty(),
        };
        let ghost grown = base.push(place@);
        proof {
            lemma_views(self.entries@);
        }
        match self.cursor {
            Some(cursor) => {
                self.entries.truncate(cursor + 1);
            },
            None => {
                self.entries.clear();
            },
        }
        proof {
            assert(super::views(self.entries@) =~= base);
        }
        proof {
            lemma_views(self.entries@);
        }
        self.entries.push(place);
        proof {
            assert(super::views(self.entries@) =~= grown);
        }
        while self.entries.len() > MAX_ENTRIES
            invariant
                grown.len() <= MAX_ENTRIES + 1,
                self.suppress == old(self).suppress,
                1 <= self.entries@.len() <= grown.len(),
                self.entries@.len() >= MAX_ENTRIES || self.entries@.len() == grown.len(),
                super::views(self.entries@) =~= grown.skip(grown.len() - self.entries@.len()),
            decreases self.entries@.len(),
        {
            let ghost prev = self.entries@;
            proof {
                lemma_views(self.entries@);
            }
            self.entries.remove(0);
            proof {
                assert(super::views(self.entries@) =~= super::views(prev).skip(1));
                assert(grown.skip(grown.len() - prev.len()).skip(1) =~= grown.skip(
                    grown.len() - self.entries@.len(),
                ));
            }
        }
        self.cursor = Some(self.entries.len() - 1);
        proof {
            self.lemma_wf();
            let kept = if grown.len() > MAX_ENTRIES {
                grown.skip(grown.len() - MAX_ENTRIES)
            } else {
                grown
            };
            assert(grown.skip(0) =~= grown);
            assert(self@.entries =~= kept);
            assert(self@.cursor == old(self)@.pushed(place@).cursor);
            assert(self@.suppress == old(self)@.pushed(place@).suppress);
            assert(self@ =~= old(self)@.pushed(place@));
        }
    }
}

} // verus!
