//! The two decisions the display half of Back/Forward would otherwise make
//! inline, as functions over plain data. Neither takes a history: they answer
//! questions *about* a place, and the caller supplies what it has observed.

use vstd::prelude::*;

use super::model::{PlaceModel, SpotModel};
use super::{duplicate_spot, spot_view, NavPlace, NavSpot};
use crate::ids::TabId;

verus! {

/// What a traversal onto a place has to do, given which document is active now.
#[derive(Debug)]
pub struct Traversal {
    /// The document to make active, or `None` when it already is.
    pub switch_to: Option<TabId>,
    /// Where to put the viewport once that document is showing, or `None` to
    /// leave it where the reader left it.
    pub spot: Option<NavSpot>,
}

impl PartialEq for Traversal {
    fn eq(&self, other: &Traversal) -> (r: bool) {
        let spots_equal = match (&self.spot, &other.spot) {
            (None, None) => true,
            (Some(a), Some(b)) => a.same_spot(b),
            _ => false,
        };
        self.switch_to == other.switch_to && spots_equal
    }
}

impl vstd::std_specs::cmp::PartialEqSpecImpl for Traversal {
    open spec fn obeys_eq_spec() -> bool {
        true
    }

    open spec fn eq_spec(&self, other: &Traversal) -> bool {
        self.switch_to == other.switch_to && spot_view(self.spot) == spot_view(other.spot)
    }
}

impl Eq for Traversal {
}

/// Decide what traversing onto `place` requires: a page switch only when the
/// place is in another document (a place inside the document on screen is
/// reached by scrolling alone), and the place's own spot.
pub fn traversal_to(place: &NavPlace, active: Option<TabId>) -> (t: Traversal)
    ensures
        t.switch_to == (if active == Some(place.tab) {
            None
        } else {
            Some(place.tab)
        }),
        spot_view(t.spot) == spot_view(place.spot),
{
    let switch_to = if active == Some(place.tab) {
        None
    } else {
        Some(place.tab)
    };
    Traversal { switch_to, spot: duplicate_spot(&place.spot) }
}

/// Whether `f` answered `r` for some string holding `slug`.
pub open spec fn resolved_to<F: Fn(&str) -> Option<i32>>(
    f: F,
    slug: Seq<char>,
    r: Option<i32>,
) -> bool {
    exists|s: &str| s@ == slug && call_ensures(f, (s,), r)
}

/// The slug of the heading `current` names, when it names one in document `tab`.
pub open spec fn heading_left(current: Option<&NavPlace>, tab: TabId) -> Option<Seq<char>> {
    match current {
        Some(p) => if p.tab == tab {
            match p@.spot {
                Some(SpotModel::Heading(slug)) => Some(slug),
                _ => None,
            }
        } else {
            None
        },
        None => None,
    }
}

/// Decide what to stamp onto the entry the reader is leaving, when they
/// navigate within document `tab`.
///
/// Normally the reader's live line. The exception: when that entry already
/// names a heading in this same document and the reader has not moved off it
/// (`resolve_heading` places the slug at `reading_line`), `None`, meaning
/// "leave that entry's spot alone", so the slug survives.
pub fn departure_stamp<F: Fn(&str) -> Option<i32>>(
    current: Option<&NavPlace>,
    tab: TabId,
    reading_line: i32,
    resolve_heading: F,
) -> (r: Option<NavSpot>)
    requires
        forall|s: &str| #[trigger] resolve_heading.requires((s,)),
    ensures
        r matches Some(s) ==> s@ == SpotModel::Line(reading_line),
        r is None ==> heading_left(current, tab) is Some && resolved_to(
            resolve_heading,
            heading_left(current, tab)->0,
            Some(reading_line),
        ),
        r is Some && heading_left(current, tab) is Some ==> exists|o: Option<i32>|
            o != Some(reading_line) && resolved_to(
                resolve_heading,
                heading_left(current, tab)->0,
                o,
            ),
{
    match current {
        Some(place) => {
            if place.tab == tab {
                match &place.spot {
                    Some(NavSpot::Heading(slug)) => {
                        let s = slug.as_str();
                        let at = resolve_heading(s);
                        assert(resolved_to(resolve_heading, slug@, at));
                        if at == Some(reading_line) {
                            return None;
                        }
                        let r = Some(NavSpot::Line(reading_line));
                        proof {
                            assert(place@.spot == Some(SpotModel::Heading(slug@)));
                            assert(heading_left(current, tab) == Some(slug@));
                            assert(heading_left(current, tab)->0 == slug@);
                            assert(resolved_to(resolve_heading, heading_left(current, tab)->0, at));
                            assert(at != Some(reading_line) && resolved_to(resolve_heading, slug@, at));
                            assert(exists|o: Option<i32>|
                                o != Some(reading_line) && resolved_to(
                                    resolve_heading,
                                    heading_left(current, tab)->0,
                                    o,
                                ));
                        }
                        return r;
                    },
                    _ => {},
                }
            }
        },
        None => {},
    }
    Some(NavSpot::Line(reading_line))
}

} // verus!
