//! Tests of the navigation history: recording, traversal, suppression,
//! forgetting, heading degradation, and the traversal and stamp decisions.

use scribobulate::ids::TabId;
use scribobulate::navhistory::decide::{departure_stamp, traversal_to, Traversal};
use scribobulate::navhistory::{NavDir, NavHistory, NavPlace, NavSpot, MAX_ENTRIES};

fn tab(n: u64) -> TabId {
    TabId::from_raw(n)
}

fn heading(slug: &str) -> NavSpot {
    NavSpot::Heading(slug.to_string())
}

/// Record `ns` in order, as N separate navigations between documents.
fn history_of(ns: &[u64]) -> NavHistory {
    let mut h = NavHistory::default();
    for &n in ns {
        h.record(tab(n));
    }
    h
}

/// The visited places, oldest first, and the cursor.
fn snapshot(h: &NavHistory) -> (Vec<(u64, Option<NavSpot>)>, Option<usize>) {
    (
        h.entries()
            .iter()
            .map(|place| (place.tab.raw(), place.spot.clone()))
            .collect(),
        h.cursor(),
    )
}

/// The visited tabs and the cursor.
fn docs(h: &NavHistory) -> (Vec<u64>, Option<usize>) {
    let (places, cursor) = snapshot(h);
    (places.into_iter().map(|(tab, _)| tab).collect(), cursor)
}

fn at_heading(t: u64, slug: &str) -> NavPlace {
    NavPlace {
        tab: tab(t),
        spot: Some(NavSpot::Heading(slug.into())),
    }
}

/// A resolver that puts every heading it knows at a fixed line and answers
/// `None` for anything else.
fn resolver(known: &'static str, line: i32) -> impl Fn(&str) -> Option<i32> {
    move |slug| (slug == known).then_some(line)
}

/// Every heading slug ever recorded still resolves.
fn all_resolve(_: &str) -> bool {
    true
}


/// TDD 23.1/23.2 — Back and Forward are exact inverses over an unchanged
/// history.
#[test]
fn mod_back_and_forward_are_inverses() {
    let mut h = history_of(&[1, 2, 3]);
    assert_eq!(h.current_tab(), Some(tab(3)));
    assert_eq!(h.step(NavDir::Back).map(|p| p.tab), Some(tab(2)));
    assert_eq!(h.step(NavDir::Back).map(|p| p.tab), Some(tab(1)));
    assert_eq!(h.step(NavDir::Forward).map(|p| p.tab), Some(tab(2)));
    assert_eq!(h.step(NavDir::Forward).map(|p| p.tab), Some(tab(3)));
    assert_eq!(docs(&h), (vec![1, 2, 3], Some(2)));
}

/// TDD 23.5 — the ends stop rather than wrapping, and `can` agrees with
/// what `step` actually does at each end (they are one decision; a
/// disagreement is a button that is enabled and does nothing).
#[test]
fn mod_the_ends_stop_and_can_agrees_with_step() {
    let mut h = NavHistory::default();
    assert!(!h.can(NavDir::Back) && !h.can(NavDir::Forward));
    assert_eq!(h.step(NavDir::Back), None);
    assert_eq!(h.step(NavDir::Forward), None);

    let mut h = history_of(&[1]);
    assert!(
        !h.can(NavDir::Back),
        "one visited tab is not somewhere to go back to"
    );
    assert_eq!(h.step(NavDir::Back), None);

    h.record(tab(2));
    assert!(h.can(NavDir::Back) && !h.can(NavDir::Forward));
    h.step(NavDir::Back);
    assert!(!h.can(NavDir::Back) && h.can(NavDir::Forward));
}

/// TDD 23.3 — traversal is not itself history: ten round trips leave the
/// list byte-identical.
#[test]
fn mod_traversal_never_grows_the_history() {
    let mut h = history_of(&[1, 2, 3]);
    let before = snapshot(&h);
    for _ in 0..10 {
        h.step(NavDir::Back);
        h.step(NavDir::Back);
        h.step(NavDir::Forward);
        h.step(NavDir::Forward);
    }
    assert_eq!(snapshot(&h), before);
}

/// TDD 23.9's suppression, and why it is a depth: the inner scope's exit
/// must not re-arm recording for the remainder of the outer one.
#[test]
fn mod_suppression_nests_and_releases_exactly() {
    let mut h = history_of(&[1]);
    h.suppress();
    h.suppress();
    h.record(tab(2));
    h.unsuppress();
    assert!(h.is_suppressed(), "the outer scope is still open");
    h.record(tab(3));
    h.unsuppress();
    assert!(!h.is_suppressed());
    assert_eq!(
        docs(&h),
        (vec![3], Some(0)),
        "no navigation was appended inside the suppressed scopes — the cursor \
         merely followed the active tab, so the history is still one entry deep"
    );
    assert!(!h.can(NavDir::Back) && !h.can(NavDir::Forward));
    h.record(tab(4));
    assert_eq!(docs(&h), (vec![3, 4], Some(1)));
    assert_eq!(
        h.step(NavDir::Back).map(|p| p.tab),
        Some(tab(3)),
        "Back must return to where the reader actually was, not to a tab the \
         suppressed sweep had moved them off"
    );
}

/// TDD 23.9/23.10, the session-restore shape: a window is registered with its
/// first tab, more tabs are added in the background, then the tab that was
/// active last launch is selected — not a navigation. The restored document
/// must be the only thing in the history, with both directions dead, and the
/// reader's NEXT navigation must be recorded against it (not against the
/// window's construction-time first tab).
#[test]
fn mod_a_suppressed_switch_reseeds_rather_than_leaving_a_stale_place() {
    let mut h = NavHistory::seeded(tab(1));
    h.suppress();
    h.record(tab(3));
    h.unsuppress();
    assert_eq!(docs(&h), (vec![3], Some(0)));
    assert!(!h.can(NavDir::Back) && !h.can(NavDir::Forward));
    h.record(tab(5));
    assert_eq!(h.step(NavDir::Back).map(|p| p.tab), Some(tab(3)));
}

/// An unbalanced release must not underflow into permanent suppression —
/// that failure mode disables the feature silently, app-wide, forever.
#[test]
fn mod_an_unbalanced_release_cannot_wedge_suppression_on() {
    let mut h = NavHistory::default();
    h.unsuppress();
    h.unsuppress();
    h.record(tab(1));
    h.record(tab(2));
    assert_eq!(docs(&h), (vec![1, 2], Some(1)));
}

/// The collapse that enforces the adjacent-duplicate invariant compares whole
/// places, so this equality IS that invariant's definition — pinned here
/// rather than left to the derive, because widening it (to compare tabs only)
/// would silently delete real traversals and every collapse test would still
/// pass on the cases that happen to differ by tab.
#[test]
fn two_positions_in_one_document_are_two_different_places() {
    let a = NavPlace {
        tab: TabId::from_raw(1),
        spot: Some(NavSpot::Heading("intro".into())),
    };
    let b = NavPlace {
        tab: TabId::from_raw(1),
        spot: Some(NavSpot::Heading("appendix".into())),
    };
    let whole = NavPlace::whole(TabId::from_raw(1));
    assert_ne!(a, b, "same document, different sections");
    assert_ne!(a, whole, "a section is not the whole document");
    assert_eq!(a, a.clone());
}

/// …and the same position in two documents is likewise two places, so a
/// shared slug cannot make one document's entry collapse into another's.
#[test]
fn one_position_in_two_documents_are_two_different_places() {
    let spot = Some(NavSpot::Heading("overview".into()));
    assert_ne!(
        NavPlace {
            tab: TabId::from_raw(1),
            spot: spot.clone()
        },
        NavPlace {
            tab: TabId::from_raw(2),
            spot
        }
    );
}

/// `whole` is what every plain tab switch records and what a stale spot
/// degrades to; both rely on it carrying no position at all.
#[test]
fn the_whole_document_carries_no_position() {
    assert_eq!(NavPlace::whole(TabId::from_raw(3)).spot, None);
}

/// TDD 23.4 — navigating after going Back discards the forward trail.
#[test]
fn record_a_new_navigation_truncates_the_forward_trail() {
    let mut h = history_of(&[1, 2, 3]);
    h.step(NavDir::Back);
    h.record(tab(4));
    assert_eq!(docs(&h), (vec![1, 2, 4], Some(2)));
    assert!(
        !h.can(NavDir::Forward),
        "the declined future must not remain reachable"
    );
}

/// A switch to the tab already current is not a navigation — an idempotent
/// `focus_page` (a resync, a context menu acting on the active tab) must not
/// stack an entry, or Back would need pressing twice to move once.
#[test]
fn record_recording_the_current_tab_again_is_a_no_op() {
    let mut h = history_of(&[1, 2]);
    h.record(tab(2));
    h.record(tab(2));
    assert_eq!(docs(&h), (vec![1, 2], Some(1)));
}

/// The same idempotent switch must not silently discard the SPOT a
/// within-document jump recorded for that document — which is why `record`
/// tests the cursor's tab and not its whole place.
#[test]
fn an_idempotent_switch_does_not_erase_the_readers_place_in_the_document() {
    let mut h = history_of(&[1]);
    h.record_jump(tab(1), Some(NavSpot::Line(40)), heading("intro"));
    h.record(tab(1));
    assert_eq!(
        h.current(),
        Some(&NavPlace {
            tab: tab(1),
            spot: Some(heading("intro")),
        })
    );
}

/// A→B→A is a real pair of navigations and stays two entries: Back from the
/// second A goes to B (this is why `record`'s dedup tests only the CURSOR's
/// entry, never "is it anywhere in the list").
#[test]
fn record_revisiting_a_tab_records_it_again() {
    let mut h = history_of(&[1, 2, 1]);
    assert_eq!(docs(&h), (vec![1, 2, 1], Some(2)));
    assert_eq!(h.step(NavDir::Back).map(|p| p.tab), Some(tab(2)));
}

/// TDD 23.11/23.12 — the whole point of the feature: following a link to a
/// section of the document already being read is a navigation, and Back returns
/// to the position the link was clicked from rather than to the top.
#[test]
fn a_jump_within_one_document_records_where_it_was_made_from() {
    let mut h = history_of(&[1]);
    assert!(!h.can(NavDir::Back), "precondition: nothing to go back to");

    h.record_jump(tab(1), Some(NavSpot::Line(12)), heading("stem-repair"));

    assert_eq!(
        snapshot(&h),
        (
            vec![
                (1, Some(NavSpot::Line(12))),
                (1, Some(heading("stem-repair"))),
            ],
            Some(1)
        ),
        "the entry being left is stamped with the reader's live position, and the \
         arrival is appended as the heading it names"
    );
    assert!(
        h.can(NavDir::Back),
        "Back is available even though the active document never changed"
    );
    assert_eq!(
        h.step(NavDir::Back),
        Some(NavPlace {
            tab: tab(1),
            spot: Some(NavSpot::Line(12)),
        })
    );
    assert_eq!(
        h.step(NavDir::Forward),
        Some(NavPlace {
            tab: tab(1),
            spot: Some(heading("stem-repair"))
        }),
        "Forward is Back's exact inverse for a within-document jump too"
    );
}

/// `from: None` is the call site saying "the reader never moved off the place
/// this entry already names" — the stronger heading reference must then survive
/// rather than being overwritten by a weaker line.
#[test]
fn a_jump_made_without_moving_keeps_the_stronger_reference() {
    let mut h = history_of(&[1]);
    h.record_jump(tab(1), Some(NavSpot::Line(4)), heading("one"));
    h.record_jump(tab(1), None, heading("two"));
    assert_eq!(
        snapshot(&h),
        (
            vec![
                (1, Some(NavSpot::Line(4))),
                (1, Some(heading("one"))),
                (1, Some(heading("two"))),
            ],
            Some(2)
        ),
        "the `one` entry keeps its slug, which survives an edit as a line would not"
    );
}

/// Clicking the link for the section you are already in moves the viewport but
/// must not append an inert stop — Back would otherwise need two presses to
/// leave a place the reader only arrived at once.
#[test]
fn re_following_the_link_to_the_current_place_is_not_a_navigation() {
    let mut h = history_of(&[1]);
    h.record_jump(tab(1), Some(NavSpot::Line(3)), heading("here"));
    let before = snapshot(&h);
    h.record_jump(tab(1), Some(NavSpot::Line(9)), heading("here"));
    assert_eq!(
        snapshot(&h),
        before,
        "neither the stamp nor the append may run when the arrival is where we are"
    );
}

/// TDD 23.13 — document switches and within-document jumps are one history, and
/// walking back retraces them in the order they happened.
#[test]
fn document_switches_and_in_document_jumps_interleave() {
    let mut h = history_of(&[1]);
    h.record_jump(tab(1), Some(NavSpot::Line(6)), heading("toc-target"));
    h.record(tab(2));
    h.record_jump(tab(2), Some(NavSpot::Line(2)), heading("other-doc"));

    assert_eq!(
        snapshot(&h),
        (
            vec![
                (1, Some(NavSpot::Line(6))),
                (1, Some(heading("toc-target"))),
                (2, Some(NavSpot::Line(2))),
                (2, Some(heading("other-doc"))),
            ],
            Some(3)
        )
    );
    assert_eq!(h.step(NavDir::Back).map(|p| p.tab), Some(tab(2)));
    assert_eq!(h.step(NavDir::Back).map(|p| p.tab), Some(tab(1)));
    assert_eq!(
        h.step(NavDir::Back),
        Some(NavPlace {
            tab: tab(1),
            spot: Some(NavSpot::Line(6)),
        })
    );
}

/// A within-document jump declines the forward trail exactly as a document
/// switch does (TDD 23.4 is about navigation, not about which kind).
#[test]
fn a_jump_truncates_the_forward_trail_too() {
    let mut h = history_of(&[1, 2, 3]);
    h.step(NavDir::Back);
    h.record_jump(tab(2), Some(NavSpot::Line(5)), heading("elsewhere"));
    assert_eq!(docs(&h), (vec![1, 2, 2], Some(2)));
    assert!(!h.can(NavDir::Forward));
}

/// A within-document jump inside a suppressed scope is not a navigation either —
/// the sweeps that reveal documents on the reader's behalf must not leave a
/// trail whichever mechanism they move the viewport with.
#[test]
fn a_suppressed_scope_swallows_a_within_document_jump_too() {
    let mut h = history_of(&[1]);
    h.suppress();
    h.record_jump(tab(1), Some(NavSpot::Line(30)), heading("swept-past"));
    h.unsuppress();
    assert_eq!(snapshot(&h), (vec![(1, None)], Some(0)));
    assert!(!h.can(NavDir::Back) && !h.can(NavDir::Forward));
}

/// TDD 23.10's bound: the oldest entries drop and the cursor stays on the
/// newest, so the list cannot grow without limit in a long session. Within-
/// document jumps count against the same bound — they are navigations.
#[test]
fn record_the_history_is_bounded_and_drops_the_oldest() {
    let mut h = NavHistory::default();
    for n in 1..=(MAX_ENTRIES as u64 + 10) {
        h.record(tab(n));
    }
    let (entries, cursor) = docs(&h);
    assert_eq!(entries.len(), MAX_ENTRIES);
    assert_eq!(cursor, Some(MAX_ENTRIES - 1));
    assert_eq!(entries.first().copied(), Some(11));
    assert_eq!(h.current_tab(), Some(tab(MAX_ENTRIES as u64 + 10)));
    // The cursor is still walkable to the far end — proof the drop-from-front
    // re-derivation kept it consistent rather than merely in range.
    for _ in 0..MAX_ENTRIES {
        h.step(NavDir::Back);
    }
    assert_eq!(h.current_tab(), Some(tab(11)));
    assert!(!h.can(NavDir::Back));
}

/// The bound holds for a reader who never leaves one document — a long walk
/// through one file's own sections must not grow the list without limit.
#[test]
fn the_bound_counts_within_document_jumps_too() {
    let mut h = NavHistory::seeded(tab(1));
    for n in 0..(MAX_ENTRIES + 10) {
        h.record_jump(tab(1), None, heading(&format!("section-{n}")));
    }
    let (entries, cursor) = snapshot(&h);
    assert_eq!(entries.len(), MAX_ENTRIES);
    assert_eq!(cursor, Some(MAX_ENTRIES - 1));
}

/// The close-the-active-tab ORDER: the strip switches to the neighbour
/// (suppressed) *before* the registry forgets the closed tab, so `follow`
/// must collapse the duplicate that overwrite exposes. Left uncollapsed the
/// history reads `[A, A]` and Back is enabled but visibly does nothing.
#[test]
fn maintain_a_suppressed_switch_to_the_previous_entry_collapses_instead_of_duplicating() {
    let mut h = history_of(&[1, 2]);
    h.suppress();
    h.record(tab(1));
    h.unsuppress();
    assert_eq!(docs(&h), (vec![1], Some(0)));
    assert!(
        !h.can(NavDir::Back),
        "one entry means nowhere back to — never an enabled Back that no-ops"
    );
    h.forget(tab(2));
    assert_eq!(docs(&h), (vec![1], Some(0)));
}

/// The same collapse against the FORWARD neighbour: a suppressed switch onto
/// the tab the forward trail already names must not leave it twice.
#[test]
fn maintain_a_suppressed_switch_onto_the_forward_neighbour_collapses_too() {
    let mut h = history_of(&[1, 2, 3]);
    h.step(NavDir::Back);
    h.suppress();
    h.record(tab(3));
    h.unsuppress();
    assert_eq!(docs(&h), (vec![1, 3], Some(1)));
    assert!(!h.can(NavDir::Forward));
    assert_eq!(h.step(NavDir::Back).map(|p| p.tab), Some(tab(1)));
}

/// A suppressed switch into an empty history seeds it — the ordinary startup
/// path for a window whose first tab was removed before another arrived
/// (`spawn_bare_window_for_tab`'s throwaway starter tab).
#[test]
fn maintain_a_suppressed_switch_into_an_empty_history_seeds_it() {
    let mut h = NavHistory::default();
    h.suppress();
    h.record(tab(7));
    h.unsuppress();
    assert_eq!(docs(&h), (vec![7], Some(0)));
    assert_eq!(h.current_tab(), Some(tab(7)));
}

/// TDD 23.8 — the closed tab is gone from both directions, and the cursor
/// still names the tab the reader is on.
#[test]
fn maintain_forgetting_a_tab_removes_every_entry_for_it() {
    let mut h = history_of(&[1, 2, 3, 2]);
    h.forget(tab(2));
    assert_eq!(docs(&h), (vec![1, 3], Some(1)));
    assert_eq!(h.current_tab(), Some(tab(3)));
    assert!(h.can(NavDir::Back) && !h.can(NavDir::Forward));
}

/// The collapse case, and the reason `forget` — not its caller — owns
/// removal: `[A, X, A]` must not become `[A, A]`, where Back reports itself
/// available and then activates the tab already active (a press that
/// visibly does nothing).
#[test]
fn maintain_forgetting_collapses_the_duplicate_it_exposes() {
    let mut h = history_of(&[1, 2, 1]);
    h.forget(tab(2));
    assert_eq!(docs(&h), (vec![1], Some(0)));
    assert!(
        !h.can(NavDir::Back),
        "with only one document ever visited there is nowhere back to"
    );
}

/// …but two places in ONE document either side of the removed tab are NOT a
/// duplicate — `[A#x, B, A#y]` must survive as `[A#x, A#y]`, because a
/// traversal between them is a scroll the reader can see. The collapse tests
/// the whole place, never just the tab.
#[test]
fn forgetting_does_not_collapse_two_distinct_places_in_one_document() {
    let mut h = history_of(&[1]);
    h.record_jump(tab(1), None, heading("x"));
    h.record(tab(2));
    h.record(tab(1));
    h.record_jump(tab(1), None, heading("y"));

    h.forget(tab(2));

    assert_eq!(
        snapshot(&h),
        (
            vec![
                (1, None),
                (1, Some(heading("x"))),
                (1, None),
                (1, Some(heading("y"))),
            ],
            Some(3)
        )
    );
    assert!(h.can(NavDir::Back));
}

/// The close-the-active-tab shape: the reader is ON the tab being forgotten,
/// so the cursor falls back to the newest thing left behind it — which is
/// the tab the strip exposes, so Back correctly reports nothing behind it.
#[test]
fn maintain_forgetting_the_current_tab_falls_back_to_the_previous_entry() {
    let mut h = history_of(&[1, 2]);
    h.forget(tab(2));
    assert_eq!(docs(&h), (vec![1], Some(0)));
    assert!(!h.can(NavDir::Back) && !h.can(NavDir::Forward));
}

/// Forgetting everything behind the cursor leaves the reader's place at the
/// oldest surviving entry rather than at `None` with a non-empty list — the
/// `(None, false)` arm, which is unreachable from the public API by accident
/// and would otherwise be a silent "Back does nothing, forever".
#[test]
fn maintain_forgetting_everything_up_to_the_cursor_reanchors_at_the_oldest_survivor() {
    let mut h = history_of(&[1, 2, 3]);
    h.step(NavDir::Back);
    h.step(NavDir::Back);
    assert_eq!(h.current_tab(), Some(tab(1)));
    h.forget(tab(1));
    assert_eq!(docs(&h), (vec![2, 3], Some(0)));
    assert!(!h.can(NavDir::Back) && h.can(NavDir::Forward));
}

/// Forgetting the only tab empties the history without leaving a cursor
/// pointing into nothing.
#[test]
fn maintain_forgetting_the_only_tab_empties_the_history() {
    let mut h = history_of(&[1]);
    h.forget(tab(1));
    assert_eq!(docs(&h), (Vec::new(), None));
    assert!(!h.can(NavDir::Back) && !h.can(NavDir::Forward));
    assert_eq!(h.current_tab(), None);
}

/// Forgetting a tab that was never visited is a no-op — closing a
/// background tab must not disturb the reader's place.
#[test]
fn maintain_forgetting_an_unvisited_tab_changes_nothing() {
    let mut h = history_of(&[1, 2]);
    let before = snapshot(&h);
    h.forget(tab(99));
    assert_eq!(snapshot(&h), before);
}

/// TDD 23.14, the cross-document half — a stale slug degrades its entry to
/// "just this document", which is still a real destination, so the entry
/// survives and the traversal still activates that document.
#[test]
fn a_stale_heading_in_another_document_degrades_but_stays_a_destination() {
    let mut h = history_of(&[1]);
    h.record(tab(2));
    h.record_jump(tab(2), Some(NavSpot::Line(8)), heading("gone"));
    h.record(tab(3));

    h.degrade_stale_headings(tab(2), |slug| slug != "gone");

    assert_eq!(
        snapshot(&h),
        (
            vec![(1, None), (2, Some(NavSpot::Line(8))), (2, None), (3, None),],
            Some(3)
        ),
        "the entry keeps naming document 2 — only the position inside it is lost"
    );
    h.step(NavDir::Back);
    assert_eq!(
        h.current(),
        Some(&NavPlace {
            tab: tab(2),
            spot: None,
        }),
        "Back still reaches that document, and leaves its viewport where it is"
    );
}

/// TDD 23.14, the same-document half — an entry that degrades to the document
/// the reader is already on is no longer a distinct place, so the
/// adjacent-duplicate collapse removes it and Back becomes insensitive rather
/// than enabled-and-inert. The skip falls out of the invariant; nothing in the
/// traversal special-cases it.
#[test]
fn a_stale_heading_in_the_current_document_stops_being_a_stop_at_all() {
    let mut h = history_of(&[1]);
    h.record_jump(tab(1), None, heading("vanishes"));
    assert!(h.can(NavDir::Back), "precondition: the jump was recorded");

    h.degrade_stale_headings(tab(1), |slug| slug != "vanishes");

    assert_eq!(
        snapshot(&h),
        (vec![(1, None)], Some(0)),
        "two `document 1, nowhere in particular` entries are one place"
    );
    assert!(
        !h.can(NavDir::Back),
        "an enabled Back whose only stop is imperceptible is the failure this \
         degradation exists to prevent"
    );
}

/// The collapse must not swallow entries that merely share a document: two
/// jumps to two headings that BOTH still resolve are two distinct places.
#[test]
fn degrading_leaves_headings_that_still_resolve_alone() {
    let mut h = history_of(&[1]);
    h.record_jump(tab(1), None, heading("one"));
    h.record_jump(tab(1), None, heading("two"));
    let before = snapshot(&h);
    h.degrade_stale_headings(tab(1), all_resolve);
    assert_eq!(snapshot(&h), before);
    assert!(h.can(NavDir::Back));
}

/// Degrading is scoped to the document whose headings changed — a re-render of
/// one tab must not reach into another tab's recorded places.
#[test]
fn degrading_one_document_does_not_touch_another() {
    let mut h = history_of(&[1]);
    h.record_jump(tab(1), None, heading("shared-slug"));
    h.record(tab(2));
    h.record_jump(tab(2), None, heading("shared-slug"));

    h.degrade_stale_headings(tab(1), |_| false);

    assert_eq!(
        snapshot(&h),
        (
            vec![(1, None), (2, None), (2, Some(heading("shared-slug")))],
            Some(2)
        ),
        "document 2's identically-named heading is untouched"
    );
}

/// A degradation that lands on the cursor's own entry must leave the cursor on
/// the surviving place, not adrift — otherwise the reader's position in the
/// history silently moves.
#[test]
fn degrading_the_cursors_own_entry_keeps_the_cursor_on_the_survivor() {
    let mut h = history_of(&[1, 2]);
    h.record_jump(tab(2), None, heading("gone"));
    assert_eq!(h.current().map(|p| p.tab), Some(tab(2)));

    h.degrade_stale_headings(tab(2), |_| false);

    assert_eq!(docs(&h), (vec![1, 2], Some(1)));
    assert_eq!(
        h.current(),
        Some(&NavPlace {
            tab: tab(2),
            spot: None
        })
    );
    assert!(h.can(NavDir::Back) && !h.can(NavDir::Forward));
}

#[test]
fn traversing_to_another_document_switches_and_carries_its_spot() {
    let place = at_heading(2, "intro");
    assert_eq!(
        traversal_to(&place, Some(tab(1))),
        Traversal {
            switch_to: Some(tab(2)),
            spot: Some(NavSpot::Heading("intro".into())),
        }
    );
}

/// The within-document case: no page switch, just a scroll.
#[test]
fn traversing_within_the_active_document_switches_nothing() {
    let place = at_heading(1, "intro");
    assert_eq!(
        traversal_to(&place, Some(tab(1))),
        Traversal {
            switch_to: None,
            spot: Some(NavSpot::Heading("intro".into())),
        }
    );
}

/// A place with no spot — every entry a plain tab switch records — must
/// traverse without scrolling, which is TDD 23.1 surviving this feature.
#[test]
fn a_place_with_no_position_scrolls_nothing() {
    let place = NavPlace::whole(tab(2));
    assert_eq!(
        traversal_to(&place, Some(tab(1))),
        Traversal {
            switch_to: Some(tab(2)),
            spot: None,
        }
    );
}

/// A window with no active document yet still names one to switch to, rather
/// than deciding it is already there.
#[test]
fn traversing_with_no_active_document_still_switches() {
    assert_eq!(
        traversal_to(&NavPlace::whole(tab(4)), None).switch_to,
        Some(tab(4))
    );
}

#[test]
fn the_departure_is_normally_the_readers_live_line() {
    assert_eq!(
        departure_stamp(Some(&NavPlace::whole(tab(1))), tab(1), 42, resolver("x", 7)),
        Some(NavSpot::Line(42))
    );
}

/// The one exception: still sitting on the heading the entry already names,
/// so the slug must survive rather than being overwritten by a line meaning
/// the same thing.
#[test]
fn a_reader_who_has_not_moved_off_the_heading_stamps_nothing() {
    assert_eq!(
        departure_stamp(
            Some(&at_heading(1, "intro")),
            tab(1),
            7,
            resolver("intro", 7)
        ),
        None
    );
}

/// Moved away from it — a line now describes them better than the slug does.
#[test]
fn a_reader_who_scrolled_off_the_heading_stamps_their_line() {
    assert_eq!(
        departure_stamp(
            Some(&at_heading(1, "intro")),
            tab(1),
            80,
            resolver("intro", 7)
        ),
        Some(NavSpot::Line(80))
    );
}

/// The heading is in a DIFFERENT document, so it says nothing about where the
/// reader is in this one — the tab test is not redundant with the line test.
#[test]
fn a_heading_recorded_for_another_document_never_suppresses_the_stamp() {
    assert_eq!(
        departure_stamp(
            Some(&at_heading(2, "intro")),
            tab(1),
            7,
            resolver("intro", 7)
        ),
        Some(NavSpot::Line(7))
    );
}

/// A slug the document no longer has resolves to nothing, so it cannot claim
/// the reader is still on it.
#[test]
fn a_heading_that_no_longer_resolves_never_suppresses_the_stamp() {
    assert_eq!(
        departure_stamp(
            Some(&at_heading(1, "gone")),
            tab(1),
            7,
            resolver("intro", 7)
        ),
        Some(NavSpot::Line(7))
    );
}

/// An entry that names a line rather than a heading has no slug to preserve.
#[test]
fn an_entry_naming_a_line_always_takes_the_fresh_stamp() {
    let place = NavPlace {
        tab: tab(1),
        spot: Some(NavSpot::Line(7)),
    };
    assert_eq!(
        departure_stamp(Some(&place), tab(1), 7, resolver("intro", 7)),
        Some(NavSpot::Line(7))
    );
}

/// An empty history has nothing to stamp against.
#[test]
fn an_empty_history_takes_the_fresh_stamp() {
    assert_eq!(
        departure_stamp(None, tab(1), 5, resolver("intro", 5)),
        Some(NavSpot::Line(5))
    );
}

/// TDD 23.1/23.2 — Back and Forward are exact inverses over an unchanged
/// history.
#[test]
fn navhistory_back_and_forward_are_inverses() {
    let mut h = history_of(&[1, 2, 3]);
    assert_eq!(h.current_tab(), Some(tab(3)));
    assert_eq!(h.step(NavDir::Back).map(|p| p.tab), Some(tab(2)));
    assert_eq!(h.step(NavDir::Back).map(|p| p.tab), Some(tab(1)));
    assert_eq!(h.step(NavDir::Forward).map(|p| p.tab), Some(tab(2)));
    assert_eq!(h.step(NavDir::Forward).map(|p| p.tab), Some(tab(3)));
    assert_eq!(docs(&h), (vec![1, 2, 3], Some(2)));
}

/// TDD 23.5 — the ends stop rather than wrapping, and `can` agrees with
/// what `step` actually does at each end (they are one decision; a
/// disagreement is a button that is enabled and does nothing).
#[test]
fn navhistory_the_ends_stop_and_can_agrees_with_step() {
    let mut h = NavHistory::default();
    assert!(!h.can(NavDir::Back) && !h.can(NavDir::Forward));
    assert_eq!(h.step(NavDir::Back).map(|p| p.tab), None);
    assert_eq!(h.step(NavDir::Forward).map(|p| p.tab), None);

    let mut h = history_of(&[1]);
    assert!(
        !h.can(NavDir::Back),
        "one visited tab is not somewhere to go back to"
    );
    assert_eq!(h.step(NavDir::Back).map(|p| p.tab), None);

    h.record(tab(2));
    assert!(h.can(NavDir::Back) && !h.can(NavDir::Forward));
    h.step(NavDir::Back);
    assert!(!h.can(NavDir::Back) && h.can(NavDir::Forward));
}

/// TDD 23.3 — traversal is not itself history: ten round trips leave the
/// list byte-identical.
#[test]
fn navhistory_traversal_never_grows_the_history() {
    let mut h = history_of(&[1, 2, 3]);
    let before = docs(&h);
    for _ in 0..10 {
        h.step(NavDir::Back);
        h.step(NavDir::Back);
        h.step(NavDir::Forward);
        h.step(NavDir::Forward);
    }
    assert_eq!(docs(&h), before);
}

/// TDD 23.4 — navigating after going Back discards the forward trail.
#[test]
fn navhistory_a_new_navigation_truncates_the_forward_trail() {
    let mut h = history_of(&[1, 2, 3]);
    h.step(NavDir::Back);
    h.record(tab(4));
    assert_eq!(docs(&h), (vec![1, 2, 4], Some(2)));
    assert!(
        !h.can(NavDir::Forward),
        "the declined future must not remain reachable"
    );
}

/// A switch to the tab already current is not a navigation — an idempotent
/// `focus_page` (a resync, a context menu acting on the active tab) must not
/// stack an entry, or Back would need pressing twice to move once.
#[test]
fn navhistory_recording_the_current_tab_again_is_a_no_op() {
    let mut h = history_of(&[1, 2]);
    h.record(tab(2));
    h.record(tab(2));
    assert_eq!(docs(&h), (vec![1, 2], Some(1)));
}

/// A→B→A is a real pair of navigations and stays two entries: Back from the
/// second A goes to B (this is why `record`'s dedup tests only the CURSOR's
/// entry, never "is it anywhere in the list").
#[test]
fn navhistory_revisiting_a_tab_records_it_again() {
    let mut h = history_of(&[1, 2, 1]);
    assert_eq!(docs(&h), (vec![1, 2, 1], Some(2)));
    assert_eq!(h.step(NavDir::Back).map(|p| p.tab), Some(tab(2)));
}

/// TDD 23.9's suppression, and why it is a depth: the inner scope's exit
/// must not re-arm recording for the remainder of the outer one.
#[test]
fn navhistory_suppression_nests_and_releases_exactly() {
    let mut h = history_of(&[1]);
    h.suppress();
    h.suppress();
    h.record(tab(2));
    h.unsuppress();
    assert!(h.is_suppressed(), "the outer scope is still open");
    h.record(tab(3));
    h.unsuppress();
    assert!(!h.is_suppressed());
    assert_eq!(
        docs(&h),
        (vec![3], Some(0)),
        "no navigation was appended inside the suppressed scopes — the cursor \
         merely followed the active tab, so the history is still one entry deep"
    );
    assert!(!h.can(NavDir::Back) && !h.can(NavDir::Forward));
    h.record(tab(4));
    assert_eq!(docs(&h), (vec![3, 4], Some(1)));
    assert_eq!(
        h.step(NavDir::Back).map(|p| p.tab),
        Some(tab(3)),
        "Back must return to where the reader actually was, not to a tab the \
         suppressed sweep had moved them off"
    );
}

/// TDD 23.9/23.10, the session-restore shape: a window is registered with its
/// first tab, more tabs are added in the background, then the tab that was
/// active last launch is selected — not a navigation. The restored document
/// must be the only thing in the history, with both directions dead, and the
/// reader's NEXT navigation must be recorded against it (not against the
/// window's construction-time first tab).
#[test]
fn navhistory_a_suppressed_switch_reseeds_rather_than_leaving_a_stale_place() {
    let mut h = NavHistory::seeded(tab(1));
    h.suppress();
    h.record(tab(3));
    h.unsuppress();
    assert_eq!(docs(&h), (vec![3], Some(0)));
    assert!(!h.can(NavDir::Back) && !h.can(NavDir::Forward));
    h.record(tab(5));
    assert_eq!(h.step(NavDir::Back).map(|p| p.tab), Some(tab(3)));
}

/// The close-the-active-tab ORDER: the strip switches to the neighbour
/// (suppressed) *before* the registry forgets the closed tab, so `follow`
/// must collapse the duplicate that overwrite exposes. Left uncollapsed the
/// history reads `[A, A]` and Back is enabled but visibly does nothing.
#[test]
fn navhistory_a_suppressed_switch_to_the_previous_entry_collapses_instead_of_duplicating() {
    let mut h = history_of(&[1, 2]);
    h.suppress();
    h.record(tab(1));
    h.unsuppress();
    assert_eq!(docs(&h), (vec![1], Some(0)));
    assert!(
        !h.can(NavDir::Back),
        "one entry means nowhere back to — never an enabled Back that no-ops"
    );
    h.forget(tab(2));
    assert_eq!(docs(&h), (vec![1], Some(0)));
}

/// The same collapse against the FORWARD neighbour: a suppressed switch onto
/// the tab the forward trail already names must not leave it twice.
#[test]
fn navhistory_a_suppressed_switch_onto_the_forward_neighbour_collapses_too() {
    let mut h = history_of(&[1, 2, 3]);
    h.step(NavDir::Back);
    h.suppress();
    h.record(tab(3));
    h.unsuppress();
    assert_eq!(docs(&h), (vec![1, 3], Some(1)));
    assert!(!h.can(NavDir::Forward));
    assert_eq!(h.step(NavDir::Back).map(|p| p.tab), Some(tab(1)));
}

/// A suppressed switch into an empty history seeds it — the ordinary startup
/// path for a window whose first tab was removed before another arrived
/// (`spawn_bare_window_for_tab`'s throwaway starter tab).
#[test]
fn navhistory_a_suppressed_switch_into_an_empty_history_seeds_it() {
    let mut h = NavHistory::default();
    h.suppress();
    h.record(tab(7));
    h.unsuppress();
    assert_eq!(docs(&h), (vec![7], Some(0)));
    assert_eq!(h.current_tab(), Some(tab(7)));
}

/// An unbalanced release must not underflow into permanent suppression —
/// that failure mode disables the feature silently, app-wide, forever.
#[test]
fn navhistory_an_unbalanced_release_cannot_wedge_suppression_on() {
    let mut h = NavHistory::default();
    h.unsuppress();
    h.unsuppress();
    h.record(tab(1));
    h.record(tab(2));
    assert_eq!(docs(&h), (vec![1, 2], Some(1)));
}

/// TDD 23.8 — the closed tab is gone from both directions, and the cursor
/// still names the tab the reader is on.
#[test]
fn navhistory_forgetting_a_tab_removes_every_entry_for_it() {
    let mut h = history_of(&[1, 2, 3, 2]);
    h.forget(tab(2));
    assert_eq!(docs(&h), (vec![1, 3], Some(1)));
    assert_eq!(h.current_tab(), Some(tab(3)));
    assert!(h.can(NavDir::Back) && !h.can(NavDir::Forward));
}

/// The collapse case, and the reason `forget` — not its caller — owns
/// removal: `[A, X, A]` must not become `[A, A]`, where Back reports itself
/// available and then activates the tab already active (a press that
/// visibly does nothing).
#[test]
fn navhistory_forgetting_collapses_the_duplicate_it_exposes() {
    let mut h = history_of(&[1, 2, 1]);
    h.forget(tab(2));
    assert_eq!(docs(&h), (vec![1], Some(0)));
    assert!(
        !h.can(NavDir::Back),
        "with only one document ever visited there is nowhere back to"
    );
}

/// The close-the-active-tab shape: the reader is ON the tab being forgotten,
/// so the cursor falls back to the newest thing left behind it — which is
/// the tab the strip exposes, so Back correctly reports nothing behind it.
#[test]
fn navhistory_forgetting_the_current_tab_falls_back_to_the_previous_entry() {
    let mut h = history_of(&[1, 2]);
    h.forget(tab(2));
    assert_eq!(docs(&h), (vec![1], Some(0)));
    assert!(!h.can(NavDir::Back) && !h.can(NavDir::Forward));
}

/// Forgetting everything behind the cursor leaves the reader's place at the
/// oldest surviving entry rather than at `None` with a non-empty list — the
/// `(None, false)` arm, which is unreachable from the public API by accident
/// and would otherwise be a silent "Back does nothing, forever".
#[test]
fn navhistory_forgetting_everything_up_to_the_cursor_reanchors_at_the_oldest_survivor() {
    let mut h = history_of(&[1, 2, 3]);
    h.step(NavDir::Back);
    h.step(NavDir::Back);
    assert_eq!(h.current_tab(), Some(tab(1)));
    h.forget(tab(1));
    assert_eq!(docs(&h), (vec![2, 3], Some(0)));
    assert!(!h.can(NavDir::Back) && h.can(NavDir::Forward));
}

/// Forgetting the only tab empties the history without leaving a cursor
/// pointing into nothing.
#[test]
fn navhistory_forgetting_the_only_tab_empties_the_history() {
    let mut h = history_of(&[1]);
    h.forget(tab(1));
    assert_eq!(docs(&h), (Vec::new(), None));
    assert!(!h.can(NavDir::Back) && !h.can(NavDir::Forward));
    assert_eq!(h.current_tab(), None);
}

/// Forgetting a tab that was never visited is a no-op — closing a
/// background tab must not disturb the reader's place.
#[test]
fn navhistory_forgetting_an_unvisited_tab_changes_nothing() {
    let mut h = history_of(&[1, 2]);
    let before = docs(&h);
    h.forget(tab(99));
    assert_eq!(docs(&h), before);
}

/// TDD 23.10's bound: the oldest entries drop and the cursor stays on the
/// newest, so the list cannot grow without limit in a long session.
#[test]
fn navhistory_the_history_is_bounded_and_drops_the_oldest() {
    let mut h = NavHistory::default();
    for n in 1..=(MAX_ENTRIES as u64 + 10) {
        h.record(tab(n));
    }
    let (entries, cursor) = docs(&h);
    assert_eq!(entries.len(), MAX_ENTRIES);
    assert_eq!(cursor, Some(MAX_ENTRIES - 1));
    assert_eq!(entries.first().copied(), Some(11));
    assert_eq!(h.current_tab(), Some(tab(MAX_ENTRIES as u64 + 10)));
    // The cursor is still walkable to the far end — proof the drop-from-front
    // re-derivation kept it consistent rather than merely in range.
    for _ in 0..MAX_ENTRIES {
        h.step(NavDir::Back);
    }
    assert_eq!(h.current_tab(), Some(tab(11)));
    assert!(!h.can(NavDir::Back));
}

#[test]
fn an_open_scope_keeps_suppressing_after_a_switch_into_an_empty_history() {
    let mut h = NavHistory::default();
    h.suppress();
    h.record(tab(7));
    assert_eq!(docs(&h), (vec![7], Some(0)));
    assert!(h.is_suppressed(), "the open scope still suppresses");
    h.record(tab(8));
    assert_eq!(docs(&h), (vec![8], Some(0)), "nothing is appended while suppressed");
    h.unsuppress();
    assert!(!h.is_suppressed());
}
