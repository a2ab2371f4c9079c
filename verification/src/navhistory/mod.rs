//! The per-window Back/Forward navigation history: a list of visited *places*
//! plus a cursor into it. Display-free: it knows only tab identities and the
//! slugs and lines a place is described by.
//!
//! | Module | Owns |
//! |---|---|
//! | this one | the types, and the walking half: traverse, suppress |
//! | [`model`] | the mathematical model every operation is proved against |
//! | [`record`] | the two ways a place is appended, and the bound they share |
//! | [`maintain`] | what happens when the world changes under the history |
//! | [`decide`] | the two decisions the display half would otherwise make inline |
//! | [`laws`] | the properties that span operations |
//!
//! `entries[cursor]` is always the place the reader is on, and the two
//! directions are the slices either side of it.

pub mod decide;
pub mod laws;
pub mod maintain;
pub mod model;
pub mod record;

use vstd::prelude::*;

use crate::ids::TabId;
use crate::text::same_text;
pub use model::{NavDir, NavModel, PlaceModel, SpotModel, MAX_ENTRIES};

verus! {

/// Where inside a document a history entry points.
#[derive(Clone, Debug)]
pub enum NavSpot {
    /// A heading's anchor slug, re-resolved against the document's live heading map.
    Heading(String),
    /// A top-of-viewport buffer line.
    Line(i32),
}

impl View for NavSpot {
    type V = SpotModel;

    open spec fn view(&self) -> SpotModel {
        match self {
            NavSpot::Heading(s) => SpotModel::Heading(s@),
            NavSpot::Line(l) => SpotModel::Line(*l),
        }
    }
}

/// The model of an optional spot.
pub open spec fn spot_view(s: Option<NavSpot>) -> Option<SpotModel> {
    match s {
        Some(x) => Some(x@),
        None => None,
    }
}

impl NavSpot {
    /// A copy of this spot.
    pub fn duplicate(&self) -> (r: NavSpot)
        ensures
            r@ == self@,
    {
        match self {
            NavSpot::Heading(s) => NavSpot::Heading(s.clone()),
            NavSpot::Line(l) => NavSpot::Line(*l),
        }
    }

    /// Whether two spots denote the same position.
    pub fn same_spot(&self, other: &NavSpot) -> (r: bool)
        ensures
            r == (self@ == other@),
    {
        match (self, other) {
            (NavSpot::Heading(a), NavSpot::Heading(b)) => same_text(a.as_str(), b.as_str()),
            (NavSpot::Line(a), NavSpot::Line(b)) => *a == *b,
            _ => false,
        }
    }
}

impl PartialEq for NavSpot {
    fn eq(&self, other: &NavSpot) -> (r: bool) {
        self.same_spot(other)
    }
}

impl vstd::std_specs::cmp::PartialEqSpecImpl for NavSpot {
    open spec fn obeys_eq_spec() -> bool {
        true
    }

    open spec fn eq_spec(&self, other: &NavSpot) -> bool {
        self@ == other@
    }
}

impl Eq for NavSpot {
}

/// A copy of an optional spot.
pub fn duplicate_spot(s: &Option<NavSpot>) -> (r: Option<NavSpot>)
    ensures
        spot_view(r) == spot_view(*s),
{
    match s {
        Some(x) => Some(x.duplicate()),
        None => None,
    }
}

/// One visited place: a document, and optionally where inside it. Equality is
/// the whole place, so two positions in one document are two places.
#[derive(Clone, Debug)]
pub struct NavPlace {
    pub tab: TabId,
    /// `None` means "this document, wherever it is sitting".
    pub spot: Option<NavSpot>,
}

impl View for NavPlace {
    type V = PlaceModel;

    open spec fn view(&self) -> PlaceModel {
        PlaceModel { tab: self.tab, spot: spot_view(self.spot) }
    }
}

impl NavPlace {
    /// The whole document, with no position inside it.
    pub fn whole(tab: TabId) -> (p: NavPlace)
        ensures
            p@ == model::whole(tab),
    {
        NavPlace { tab, spot: None }
    }

    /// A copy of this place.
    pub fn duplicate(&self) -> (r: NavPlace)
        ensures
            r@ == self@,
    {
        NavPlace { tab: self.tab, spot: duplicate_spot(&self.spot) }
    }

    /// Whether two places are the same place: same document, same spot.
    pub fn same_place(&self, other: &NavPlace) -> (r: bool)
        ensures
            r == (self@ == other@),
    {
        if self.tab != other.tab {
            return false;
        }
        match (&self.spot, &other.spot) {
            (None, None) => true,
            (Some(a), Some(b)) => a.same_spot(b),
            _ => false,
        }
    }
}

impl PartialEq for NavPlace {
    fn eq(&self, other: &NavPlace) -> (r: bool) {
        self.same_place(other)
    }
}

impl vstd::std_specs::cmp::PartialEqSpecImpl for NavPlace {
    open spec fn obeys_eq_spec() -> bool {
        true
    }

    open spec fn eq_spec(&self, other: &NavPlace) -> bool {
        self@ == other@
    }
}

impl Eq for NavPlace {
}

/// The models of a sequence of places.
pub open spec fn views(s: Seq<NavPlace>) -> Seq<PlaceModel> {
    s.map_values(|p: NavPlace| p@)
}

/// How `views` distributes over the sequence operations the history uses.
pub proof fn lemma_views(s: Seq<NavPlace>)
    ensures
        views(s).len() == s.len(),
        forall|i: int| 0 <= i < s.len() ==> #[trigger] views(s)[i] == s[i]@,
        forall|p: NavPlace| #[trigger] views(s.push(p)) == views(s).push(p@),
        forall|i: int, p: NavPlace|
            0 <= i < s.len() ==> #[trigger] views(s.update(i, p)) == views(s).update(i, p@),
        forall|n: int| 0 <= n <= s.len() ==> #[trigger] views(s.take(n)) == views(s).take(n),
        s.len() > 0 ==> views(s.remove(0)) == views(s).skip(1),
{
    assert forall|p: NavPlace| #[trigger] views(s.push(p)) == views(s).push(p@) by {
        assert(views(s.push(p)) =~= views(s).push(p@));
    }
    assert forall|i: int, p: NavPlace|
        0 <= i < s.len() implies #[trigger] views(s.update(i, p)) == views(s).update(i, p@) by {
        assert(views(s.update(i, p)) =~= views(s).update(i, p@));
    }
    assert forall|n: int| 0 <= n <= s.len() implies #[trigger] views(s.take(n)) == views(
        s,
    ).take(n) by {
        assert(views(s.take(n)) =~= views(s).take(n));
    }
    if s.len() > 0 {
        assert(views(s.remove(0)) =~= views(s).skip(1));
    }
}

/// One window's visited-place history.
pub struct NavHistory {
    /// Visited places, oldest first.
    entries: Vec<NavPlace>,
    /// Index into `entries` of the place the reader is on; `None` only while
    /// `entries` is empty.
    cursor: Option<usize>,
    /// Nesting depth of the "this page switch is not a navigation" scopes.
    suppress: u32,
}

impl View for NavHistory {
    type V = NavModel;

    closed spec fn view(&self) -> NavModel {
        NavModel {
            entries: views(self.entries@),
            cursor: match self.cursor {
                Some(c) => Some(c as int),
                None => None,
            },
            suppress: self.suppress as nat,
        }
    }
}

impl NavHistory {
    /// The history's well-formedness: the model's, in terms of the fields.
    pub open spec fn wf(&self) -> bool {
        self@.wf()
    }

    proof fn lemma_wf(&self)
        ensures
            self.wf() <==> self@.wf(),
            self@.entries.len() == self.entries@.len(),
            self@.suppress == self.suppress as nat,
            self.cursor is None <==> self@.cursor is None,
            self.cursor matches Some(c) ==> self@.cursor == Some(c as int),
            forall|i: int|
                0 <= i < self.entries@.len() ==> #[trigger] self@.entries[i] == self.entries@[i]@,
    {
    }

    /// The empty history.
    pub fn new() -> (h: NavHistory)
        ensures
            h.wf(),
            h@ == NavModel::empty(),
    {
        let h = NavHistory { entries: Vec::new(), cursor: None, suppress: 0 };
        assert(h@.entries =~= Seq::<PlaceModel>::empty());
        h
    }

    /// A history whose single entry is `tab`: a window's first document.
    pub fn seeded(tab: TabId) -> (h: NavHistory)
        ensures
            h.wf(),
            h@ == NavModel::seeded(tab),
    {
        let mut entries = Vec::new();
        entries.push(NavPlace::whole(tab));
        let h = NavHistory { entries, cursor: Some(0), suppress: 0 };
        assert(h@.entries =~= seq![model::whole(tab)]);
        h
    }

    /// Move the cursor one step in `dir` and return the place now under it, or
    /// `None` when there is nothing that way (the ends stop; they do not wrap).
    pub fn step(&mut self, dir: NavDir) -> (r: Option<NavPlace>)
        requires
            old(self).wf(),
        ensures
            final(self).wf(),
            final(self)@ == old(self)@.step(dir).0,
            match r {
                Some(p) => old(self)@.step(dir).1 == Some(p@),
                None => old(self)@.step(dir).1 is None,
            },
    {
        proof {
            self.lemma_wf();
        }
        let cursor = match self.cursor {
            Some(c) => c,
            None => return None,
        };
        let next = match dir {
            NavDir::Back => {
                if cursor == 0 {
                    return None;
                }
                cursor - 1
            },
            NavDir::Forward => {
                if cursor + 1 >= self.entries.len() {
                    return None;
                }
                cursor + 1
            },
        };
        self.cursor = Some(next);
        let r = self.entries[next].duplicate();
        proof {
            self.lemma_wf();
            assert(self@ =~= old(self)@.step(dir).0);
        }
        Some(r)
    }

    /// Whether a [`step`](Self::step) in `dir` would go anywhere: the single
    /// source of both actions' enabled state.
    pub fn can(&self, dir: NavDir) -> (r: bool)
        requires
            self.wf(),
        ensures
            r == self@.can(dir),
    {
        proof {
            self.lemma_wf();
        }
        match self.cursor {
            None => false,
            Some(c) => match dir {
                NavDir::Back => c > 0,
                NavDir::Forward => c + 1 < self.entries.len(),
            },
        }
    }

    /// The place the cursor sits on, if any.
    pub fn current(&self) -> (r: Option<&NavPlace>)
        requires
            self.wf(),
        ensures
            match r {
                Some(p) => self@.current() == Some(p@),
                None => self@.current() is None,
            },
    {
        proof {
            self.lemma_wf();
        }
        match self.cursor {
            Some(c) => Some(&self.entries[c]),
            None => None,
        }
    }

    /// The tab the cursor sits on, if any.
    pub fn current_tab(&self) -> (r: Option<TabId>)
        requires
            self.wf(),
        ensures
            r == self@.current_tab(),
    {
        match self.current() {
            Some(p) => Some(p.tab),
            None => None,
        }
    }

    /// Enter a scope in which page switches are not navigations, and return the
    /// new depth so the caller can assert its own balance.
    pub fn suppress(&mut self) -> (depth: u32)
        requires
            old(self).wf(),
            old(self)@.suppress < u32::MAX,
        ensures
            final(self).wf(),
            final(self)@ == old(self)@.suppressed(),
            depth == final(self)@.suppress,
    {
        proof {
            self.lemma_wf();
        }
        self.suppress = self.suppress + 1;
        proof {
            self.lemma_wf();
            assert(self@ =~= old(self)@.suppressed());
        }
        self.suppress
    }

    /// Leave a [`suppress`](Self::suppress) scope. Saturating: an unbalanced
    /// release must not underflow into "suppressed forever".
    pub fn unsuppress(&mut self)
        requires
            old(self).wf(),
        ensures
            final(self).wf(),
            final(self)@ == old(self)@.unsuppressed(),
    {
        proof {
            self.lemma_wf();
        }
        if self.suppress > 0 {
            self.suppress = self.suppress - 1;
        }
        proof {
            self.lemma_wf();
            assert(self@ =~= old(self)@.unsuppressed());
        }
    }

    /// Whether recording is currently suppressed.
    pub fn is_suppressed(&self) -> (r: bool)
        ensures
            r == (self@.suppress > 0),
    {
        self.suppress > 0
    }

    /// The visited places, oldest first.
    pub fn entries(&self) -> (r: &Vec<NavPlace>)
        ensures
            views(r@) == self@.entries,
    {
        &self.entries
    }

    /// The cursor: the index of the place the reader is on.
    pub fn cursor(&self) -> (r: Option<usize>)
        ensures
            match r {
                Some(c) => self@.cursor == Some(c as int),
                None => self@.cursor is None,
            },
    {
        self.cursor
    }
}

impl Default for NavHistory {
    fn default() -> (h: NavHistory)
        ensures
            h.wf(),
            h@ == NavModel::empty(),
    {
        NavHistory::new()
    }
}

} // verus!
