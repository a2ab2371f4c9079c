//! The properties of the history that span operations, proved over the model
//! that every executable operation is verified against.

use vstd::prelude::*;

use super::model::{
    collapsed, degraded, mentions, no_adjacent_duplicates, whole, without, NavDir, NavModel,
    PlaceModel, SpotModel, MAX_ENTRIES,
};
use crate::ids::TabId;

verus! {

/// Collapsing leaves no two adjacent places equal.
pub proof fn lemma_collapsed_no_duplicates(s: Seq<PlaceModel>)
    ensures
        no_adjacent_duplicates(collapsed(s)),
    decreases s.len(),
{
    if s.len() > 0 {
        lemma_collapsed_no_duplicates(s.drop_last());
    }
}

/// Collapsing keeps the last place.
pub proof fn lemma_collapsed_last(s: Seq<PlaceModel>)
    requires
        s.len() > 0,
    ensures
        collapsed(s).len() > 0,
        collapsed(s).last() == s.last(),
{
}

/// Collapsing a prefix gives a prefix of the collapsed whole.
pub proof fn lemma_collapsed_prefix(s: Seq<PlaceModel>, k: int)
    requires
        0 <= k <= s.len(),
    ensures
        collapsed(s.take(k)).len() <= collapsed(s).len(),
        forall|i: int|
            0 <= i < collapsed(s.take(k)).len() ==> #[trigger] collapsed(s.take(k))[i]
                == collapsed(s)[i],
    decreases s.len(),
{
    if k == s.len() {
        assert(s.take(k) =~= s);
    } else {
        assert(s.take(k) =~= s.drop_last().take(k));
        lemma_collapsed_prefix(s.drop_last(), k);
    }
}

/// A property of every place's document survives collapsing.
pub proof fn lemma_collapsed_avoids(s: Seq<PlaceModel>, tab: TabId)
    requires
        forall|i: int| 0 <= i < s.len() ==> #[trigger] s[i].tab != tab,
    ensures
        forall|i: int| 0 <= i < collapsed(s).len() ==> #[trigger] collapsed(s)[i].tab != tab,
    decreases s.len(),
{
    if s.len() > 0 {
        lemma_collapsed_avoids(s.drop_last(), tab);
    }
}

/// Filtering out a document leaves none of its places.
pub proof fn lemma_without_avoids(s: Seq<PlaceModel>, tab: TabId)
    ensures
        forall|i: int|
            0 <= i < without(s, tab).len() ==> #[trigger] without(s, tab)[i].tab != tab,
    decreases s.len(),
{
    if s.len() > 0 {
        lemma_without_avoids(s.drop_last(), tab);
    }
}

/// Filtering a prefix gives a prefix of the filtered whole.
pub proof fn lemma_without_prefix(s: Seq<PlaceModel>, tab: TabId, k: int)
    requires
        0 <= k <= s.len(),
    ensures
        without(s.take(k), tab) == without(s, tab).take(without(s.take(k), tab).len() as int),
        without(s.take(k), tab).len() <= without(s, tab).len(),
    decreases s.len(),
{
    if k == s.len() {
        assert(s.take(k) =~= s);
        assert(without(s, tab).take(without(s, tab).len() as int) =~= without(s, tab));
    } else {
        assert(s.take(k) =~= s.drop_last().take(k));
        lemma_without_prefix(s.drop_last(), tab, k);
        let w = without(s.drop_last(), tab);
        let p = without(s.take(k), tab);
        if s.last().tab != tab {
            assert(w.push(s.last()).take(p.len() as int) =~= w.take(p.len() as int));
        }
    }
}

/// Taking a prefix keeps adjacent places distinct.
pub proof fn lemma_take_no_duplicates(s: Seq<PlaceModel>, k: int)
    requires
        0 <= k <= s.len(),
        no_adjacent_duplicates(s),
    ensures
        no_adjacent_duplicates(s.take(k)),
{
    assert forall|i: int| 0 <= i < s.take(k).len() - 1 implies #[trigger] s.take(k)[i] != s.take(
        k,
    )[i + 1] by {
        assert(s.take(k)[i] == s[i]);
        assert(s.take(k)[i + 1] == s[i + 1]);
    }
}

/// Back then Forward returns to exactly the history it started from, and
/// Forward reports the place the reader was on.
pub proof fn law_back_then_forward_is_identity(m: NavModel)
    requires
        m.wf(),
        m.can(NavDir::Back),
    ensures
        m.step(NavDir::Back).0.step(NavDir::Forward).0 == m,
        m.step(NavDir::Back).0.step(NavDir::Forward).1 == m.current(),
{
}

/// Forward then Back returns to exactly the history it started from, and Back
/// reports the place the reader was on.
pub proof fn law_forward_then_back_is_identity(m: NavModel)
    requires
        m.wf(),
        m.can(NavDir::Forward),
    ensures
        m.step(NavDir::Forward).0.step(NavDir::Back).0 == m,
        m.step(NavDir::Forward).0.step(NavDir::Back).1 == m.current(),
{
}

/// `can` agrees with what `step` does: a step goes somewhere exactly when `can`
/// says so, and a step that cannot go anywhere changes nothing (the ends stop,
/// they do not wrap).
pub proof fn law_can_agrees_with_step(m: NavModel, dir: NavDir)
    requires
        m.wf(),
    ensures
        m.can(dir) <==> m.step(dir).1 is Some,
        !m.can(dir) ==> m.step(dir).0 == m,
        m.step(dir).1 is Some ==> m.step(dir).1 == m.step(dir).0.current(),
{
}

/// Traversal is not itself history: a step never changes the visited places,
/// only the cursor, and keeps the history well formed.
pub proof fn law_traversal_never_changes_the_places(m: NavModel, dir: NavDir)
    requires
        m.wf(),
    ensures
        m.step(dir).0.entries == m.entries,
        m.step(dir).0.suppress == m.suppress,
        m.step(dir).0.wf(),
{
}

/// Switching to the tab already current is not a navigation.
pub proof fn law_recording_the_current_tab_is_a_no_op(m: NavModel, tab: TabId)
    requires
        m.current_tab() == Some(tab),
    ensures
        m.record(tab) == m,
{
}

/// A navigation to a new document declines the forward trail, lands the cursor
/// on that document as a whole, keeps everything up to the reader's old place
/// (less whatever the bound drops from the front), and never exceeds the bound.
pub proof fn law_a_navigation_truncates_the_forward_trail(m: NavModel, tab: TabId)
    requires
        m.wf(),
        m.suppress == 0,
        m.current_tab() != Some(tab),
    ensures
        m.record(tab).wf(),
        !m.record(tab).can(NavDir::Forward),
        m.record(tab).current() == Some(whole(tab)),
        m.record(tab).entries.len() <= MAX_ENTRIES,
        m.cursor matches Some(c) ==> {
            let r = m.record(tab).entries;
            let kept = m.entries.take(c + 1);
            r.len() <= kept.len() + 1 && forall|i: int|
                0 <= i < r.len() - 1 ==> #[trigger] r[i] == kept[i + (kept.len() + 1 - r.len())]
        },
        m.cursor is None ==> m.record(tab).entries == seq![whole(tab)],
{
    let r = m.record(tab);
    let base = match m.cursor {
        Some(c) => m.entries.take(c + 1),
        None => Seq::empty(),
    };
    let grown = base.push(whole(tab));
    if m.cursor is None {
        assert(grown =~= seq![whole(tab)]);
    }
}

/// A switch while suppressed appends nothing: the cursor merely follows the
/// active document, the history never grows past one entry beyond an empty
/// one, and stays well formed.
pub proof fn law_a_suppressed_switch_appends_nothing(m: NavModel, tab: TabId)
    requires
        m.wf(),
        m.suppress > 0,
    ensures
        m.record(tab).wf(),
        m.record(tab).current_tab() == Some(tab),
        m.entries.len() > 0 ==> m.record(tab).entries.len() <= m.entries.len(),
        m.entries.len() == 0 ==> m.record(tab).entries.len() == 1,
        m.record(tab).suppress == m.suppress,
{
    if m.current_tab() == Some(tab) {
    } else {
        match m.cursor {
            None => {},
            Some(c) => {
                let u = m.entries.update(c, whole(tab));
                crate::navhistory::maintain::lemma_collapsed_len(u);
                lemma_collapsed_prefix(u, c + 1);
                assert(u.take(c + 1).last() == whole(tab));
                lemma_collapsed_last(u.take(c + 1));
                let k = collapsed(u.take(c + 1));
                assert(collapsed(u)[k.len() - 1] == k[k.len() - 1]);
            },
        }
    }
}

/// Forgetting a document removes every entry for it, and the history stays
/// well formed.
pub proof fn law_forgetting_removes_every_entry(m: NavModel, tab: TabId)
    requires
        m.wf(),
    ensures
        m.forget(tab).wf(),
        forall|i: int|
            0 <= i < m.forget(tab).entries.len() ==> #[trigger] m.forget(tab).entries[i].tab
                != tab,
{
    if mentions(m.entries, tab) {
        let w = without(m.entries, tab);
        lemma_without_avoids(m.entries, tab);
        lemma_collapsed_avoids(w, tab);
        crate::navhistory::maintain::lemma_collapsed_len(w);
        crate::navhistory::maintain::lemma_without_len(m.entries, tab);
        match m.cursor {
            Some(c) => {
                lemma_without_prefix(m.entries, tab, c + 1);
                let wp = without(m.entries.take(c + 1), tab);
                assert(wp == w.take(wp.len() as int));
                lemma_collapsed_prefix(w, wp.len() as int);
            },
            None => {},
        }
    } else {
        assert forall|i: int| 0 <= i < m.entries.len() implies #[trigger] m.entries[i].tab != tab by {
            if m.entries[i].tab == tab {
                assert(mentions(m.entries, tab));
            }
        }
    }
}

/// Forgetting a document that was never visited changes nothing.
pub proof fn law_forgetting_an_unvisited_tab_changes_nothing(m: NavModel, tab: TabId)
    requires
        forall|i: int| 0 <= i < m.entries.len() ==> #[trigger] m.entries[i].tab != tab,
    ensures
        m.forget(tab) == m,
{
}

/// The operations driven by the world changing under the history (a
/// suppressed switch, forgetting a document, degrading stale headings) never
/// leave two adjacent entries denoting the same place, so Back and Forward
/// never report a stop the reader cannot see.
pub proof fn law_maintenance_leaves_no_adjacent_duplicates(
    m: NavModel,
    tab: TabId,
    stale: Seq<bool>,
)
    requires
        m.wf(),
        no_adjacent_duplicates(m.entries),
        stale.len() == m.entries.len(),
    ensures
        no_adjacent_duplicates(m.forget(tab).entries),
        no_adjacent_duplicates(m.degrade(stale).entries),
        m.suppress > 0 ==> no_adjacent_duplicates(m.record(tab).entries),
{
    lemma_collapsed_no_duplicates(without(m.entries, tab));
    let d = Seq::new(m.entries.len(), |i: int| degraded(m.entries[i], stale[i]));
    lemma_collapsed_no_duplicates(d);
    match m.cursor {
        Some(c) => lemma_collapsed_no_duplicates(m.entries.update(c, whole(tab))),
        None => {},
    }
}

/// A navigation to a new document keeps adjacent entries distinct.
pub proof fn law_a_navigation_leaves_no_adjacent_duplicates(m: NavModel, tab: TabId)
    requires
        m.wf(),
        no_adjacent_duplicates(m.entries),
        m.suppress == 0,
    ensures
        no_adjacent_duplicates(m.record(tab).entries),
{
    if m.current_tab() != Some(tab) {
        let base = match m.cursor {
            Some(c) => m.entries.take(c + 1),
            None => Seq::empty(),
        };
        match m.cursor {
            Some(c) => lemma_take_no_duplicates(m.entries, c + 1),
            None => {},
        }
        let grown = base.push(whole(tab));
        assert forall|i: int| 0 <= i < grown.len() - 1 implies #[trigger] grown[i] != grown[i + 1] by {
            if i + 1 == grown.len() - 1 {
                assert(grown[i + 1] == whole(tab));
                assert(grown[i] == base[i]);
            } else {
                assert(grown[i] == base[i]);
                assert(grown[i + 1] == base[i + 1]);
            }
        }
        if grown.len() > MAX_ENTRIES {
            let kept = grown.skip(grown.len() - MAX_ENTRIES);
            assert forall|i: int| 0 <= i < kept.len() - 1 implies #[trigger] kept[i] != kept[i + 1] by {
                assert(kept[i] == grown[i + 1]);
                assert(kept[i + 1] == grown[i + 2]);
            }
        }
    }
}

/// Suppression is a depth: entering and leaving a scope restores it exactly.
pub proof fn law_suppression_nests_and_releases_exactly(m: NavModel)
    ensures
        m.suppressed().unsuppressed() == m,
        m.suppressed().suppressed().unsuppressed().suppress > 0,
{
}

/// An unbalanced release cannot wedge suppression on: leaving a scope that was
/// never entered leaves recording enabled.
pub proof fn law_an_unbalanced_release_cannot_wedge_suppression(m: NavModel)
    requires
        m.suppress == 0,
    ensures
        m.unsuppressed().suppress == 0,
        m.unsuppressed() == m,
{
}

/// A within-document jump inside a suppressed scope is not a navigation either.
pub proof fn law_a_suppressed_jump_changes_nothing(
    m: NavModel,
    tab: TabId,
    from: Option<SpotModel>,
    to: SpotModel,
)
    requires
        m.suppress > 0,
    ensures
        m.record_jump(tab, from, to) == m,
{
}

/// Following the link to the place the reader is already on is not a
/// navigation.
pub proof fn law_rejumping_to_the_current_place_changes_nothing(
    m: NavModel,
    tab: TabId,
    from: Option<SpotModel>,
    to: SpotModel,
)
    requires
        m.current() == Some(PlaceModel { tab, spot: Some(to) }),
    ensures
        m.record_jump(tab, from, to) == m,
{
}

/// A within-document jump lands on its arrival, declines the forward trail,
/// and, when the reader's entry is in the same document, records where the
/// jump was made from.
pub proof fn law_a_jump_records_where_it_was_made_from(
    m: NavModel,
    tab: TabId,
    from: SpotModel,
    to: SpotModel,
)
    requires
        m.wf(),
        m.suppress == 0,
        m.current() != Some(PlaceModel { tab, spot: Some(to) }),
        m.current_tab() == Some(tab),
        m.entries.len() < MAX_ENTRIES,
    ensures
        m.record_jump(tab, Some(from), to).wf(),
        m.record_jump(tab, Some(from), to).current() == Some(PlaceModel { tab, spot: Some(to) }),
        !m.record_jump(tab, Some(from), to).can(NavDir::Forward),
        m.record_jump(tab, Some(from), to).step(NavDir::Back).1 == Some(
            PlaceModel { tab, spot: Some(from) },
        ),
{
}

/// Recording never changes the suppression depth, so a scope that is open
/// before a switch is still open after it: even a switch that lands in an
/// empty history leaves an open scope suppressing.
pub proof fn law_recording_keeps_the_suppression_depth(m: NavModel, tab: TabId)
    ensures
        m.record(tab).suppress == m.suppress,
        m.suppress > 0 ==> m.record(tab).suppress > 0,
{
}

/// `m` after entering `k` suppression scopes.
pub open spec fn suppressed_times(m: NavModel, k: nat) -> NavModel
    decreases k,
{
    if k == 0 {
        m
    } else {
        suppressed_times(m, (k - 1) as nat).suppressed()
    }
}

/// `m` after leaving `j` suppression scopes.
pub open spec fn unsuppressed_times(m: NavModel, j: nat) -> NavModel
    decreases j,
{
    if j == 0 {
        m
    } else {
        unsuppressed_times(m, (j - 1) as nat).unsuppressed()
    }
}

proof fn lemma_suppressed_times(m: NavModel, k: nat)
    ensures
        suppressed_times(m, k) == (NavModel { suppress: m.suppress + k, ..m }),
    decreases k,
{
    if k > 0 {
        lemma_suppressed_times(m, (k - 1) as nat);
    }
}

proof fn lemma_unsuppressed_times(m: NavModel, j: nat)
    ensures
        unsuppressed_times(m, j) == (NavModel {
            suppress: if m.suppress >= j {
                (m.suppress - j) as nat
            } else {
                0
            },
            ..m
        }),
    decreases j,
{
    if j > 0 {
        lemma_unsuppressed_times(m, (j - 1) as nat);
    }
}

/// Suppression is a depth, whatever the counts: entering `k` scopes and then
/// leaving `j` leaves the depth at `k - j` above where it started, never below
/// zero, and touches nothing else; recording is suppressed exactly while that
/// depth is positive.
pub proof fn law_nested_scopes_release_exactly(m: NavModel, k: nat, j: nat)
    ensures
        unsuppressed_times(suppressed_times(m, k), j).suppress == if m.suppress + k >= j {
            (m.suppress + k - j) as nat
        } else {
            0
        },
        unsuppressed_times(suppressed_times(m, k), j).entries == m.entries,
        unsuppressed_times(suppressed_times(m, k), j).cursor == m.cursor,
        m.suppress == 0 ==> (unsuppressed_times(suppressed_times(m, k), j).suppress > 0 <==> j
            < k),
        m.suppress == 0 ==> unsuppressed_times(suppressed_times(m, k), j).suppress == if k >= j {
            (k - j) as nat
        } else {
            0
        },
{
    lemma_suppressed_times(m, k);
    lemma_unsuppressed_times(suppressed_times(m, k), j);
}

/// Once every scope is released, even by more releases than there were scopes,
/// recording is back: a switch to another document appends it again.
pub proof fn law_released_scopes_record_again(m: NavModel, k: nat, j: nat, tab: TabId)
    requires
        m.suppress == 0,
        k <= j,
        unsuppressed_times(suppressed_times(m, k), j).current_tab() != Some(tab),
    ensures
        unsuppressed_times(suppressed_times(m, k), j).record(tab) == unsuppressed_times(
            suppressed_times(m, k),
            j,
        ).pushed(whole(tab)),
{
    law_nested_scopes_release_exactly(m, k, j);
}

/// Without the places of `tab`, the last survivor of `s` is its newest entry
/// in another document; when every entry is in `tab`, nothing survives.
proof fn lemma_without_last(s: Seq<PlaceModel>, tab: TabId)
    ensures
        (forall|k: int| 0 <= k < s.len() ==> #[trigger] s[k].tab == tab) ==> without(s, tab).len()
            == 0,
        forall|j: int|
            0 <= j < s.len() && s[j].tab != tab && (forall|k: int|
                j < k < s.len() ==> #[trigger] s[k].tab == tab) ==> without(s, tab).len() > 0
                && #[trigger] without(s, tab).last() == s[j],
    decreases s.len(),
{
    if s.len() > 0 {
        lemma_without_last(s.drop_last(), tab);
        let d = s.drop_last();
        assert forall|k: int| 0 <= k < d.len() implies d[k] == s[k] by {}
        if s.last().tab != tab {
            assert forall|j: int|
                0 <= j < s.len() && s[j].tab != tab && (forall|k: int|
                    j < k < s.len() ==> #[trigger] s[k].tab == tab) implies without(s, tab).len() > 0
                && #[trigger] without(s, tab).last() == s[j] by {
                if j < s.len() - 1 {
                    assert(s[s.len() - 1].tab == tab);
                }
            }
        } else {
            assert forall|j: int|
                0 <= j < s.len() && s[j].tab != tab && (forall|k: int|
                    j < k < s.len() ==> #[trigger] s[k].tab == tab) implies without(s, tab).len() > 0
                && #[trigger] without(s, tab).last() == s[j] by {
                assert(j < s.len() - 1);
                assert(d[j] == s[j]);
                assert forall|k: int| j < k < d.len() implies #[trigger] d[k].tab == tab by {
                    assert(d[k] == s[k]);
                }
            }
            if forall|k: int| 0 <= k < s.len() ==> #[trigger] s[k].tab == tab {
                assert forall|k: int| 0 <= k < d.len() implies #[trigger] d[k].tab == tab by {
                    assert(d[k] == s[k]);
                }
            }
        }
    }
}

/// Forgetting a document keeps the reader where they were as far as it can:
/// the cursor lands on the newest place at or before its old position that is
/// not in the forgotten document, and on the oldest survivor when every place
/// up to the reader was in it. The history is empty only when every place was.
pub proof fn law_forgetting_keeps_the_reader_near_their_place(m: NavModel, tab: TabId)
    requires
        m.wf(),
        mentions(m.entries, tab),
    ensures
        m.forget(tab).cursor is None <==> m.forget(tab).entries.len() == 0,
        forall|j: int|
            #![trigger m.entries[j]]
            m.cursor matches Some(c) && 0 <= j <= c && m.entries[j].tab != tab && (forall|k: int|
                j < k <= c ==> #[trigger] m.entries[k].tab == tab) ==> (m.forget(tab).cursor matches Some(
                d) && m.forget(tab).entries[d] == m.entries[j]),
        (m.cursor matches Some(c) && (forall|k: int| 0 <= k <= c ==> #[trigger] m.entries[k].tab
            == tab) && m.forget(tab).entries.len() > 0) ==> m.forget(tab).cursor == Some(0int),
{
    law_forgetting_removes_every_entry(m, tab);
    match m.cursor {
        None => {},
        Some(c) => {
            let p = m.entries.take(c + 1);
            let w = without(m.entries, tab);
            lemma_without_last(p, tab);
            lemma_without_prefix(m.entries, tab, c + 1);
            let wp = without(p, tab);
            assert(wp == w.take(wp.len() as int));
            lemma_collapsed_prefix(w, wp.len() as int);
            crate::navhistory::maintain::lemma_collapsed_len(w);
            crate::navhistory::maintain::lemma_collapsed_len(wp);
            assert forall|j: int|
                #![trigger m.entries[j]]
                0 <= j <= c && m.entries[j].tab != tab && (forall|k: int|
                    j < k <= c ==> #[trigger] m.entries[k].tab == tab) implies (m.forget(tab).cursor matches Some(
                d) && m.forget(tab).entries[d] == m.entries[j]) by {
                assert(p[j] == m.entries[j]);
                assert forall|k: int| j < k < p.len() implies #[trigger] p[k].tab == tab by {
                    assert(p[k] == m.entries[k]);
                }
                assert(wp.len() > 0 && wp.last() == m.entries[j]);
                lemma_collapsed_last(wp);
                let cw = collapsed(wp);
                assert(collapsed(w)[cw.len() - 1] == cw[cw.len() - 1]);
            }
            if forall|k: int| 0 <= k <= c ==> #[trigger] m.entries[k].tab == tab {
                assert forall|k: int| 0 <= k < p.len() implies #[trigger] p[k].tab == tab by {
                    assert(p[k] == m.entries[k]);
                }
            }
        },
    }
}

} // verus!
