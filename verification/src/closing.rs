//! What closing tabs decides: whether closing one tab closes the window, closes
//! the tab at once or asks first, and the order and outcome of the one-at-a-time
//! prompts of "Close Other Tabs". The shell shows the dialogs and closes the
//! pages; these functions say what it does next.

use vstd::prelude::*;

use crate::ids::TabId;

verus! {

/// What a request to close one tab of a window comes to.
#[derive(Clone, Copy, PartialEq, Eq, Debug, Structural)]
pub enum CloseDecision {
    /// The window's only tab: closing it is closing the window, whose own
    /// close flow prompts for unsaved work.
    CloseWindow,
    /// Nothing to lose: close it without asking.
    CloseNow,
    /// Ask Save, Discard or Cancel first.
    Ask,
}

/// How the reader answered a Save / Discard / Cancel prompt for one tab.
#[derive(Clone, Copy, PartialEq, Eq, Debug, Structural)]
pub enum PromptAnswer {
    /// Save was chosen and the save went through.
    Saved,
    /// Save was chosen but the reader backed out of the Save As dialog.
    SaveBackedOut,
    /// Discard was chosen.
    Discarded,
    /// Cancel was chosen, or the prompt was dismissed.
    Cancelled,
}

/// Whether a tab must be asked about before it closes: it has unsaved edits,
/// or its file was deleted, so the buffer is the document's only copy.
pub open spec fn needs_prompt(dirty: bool, backing_missing: bool) -> bool {
    dirty || backing_missing
}

/// Decide what closing one tab comes to, for a window of `tab_count` tabs.
pub fn close_decision(tab_count: usize, dirty: bool, backing_missing: bool) -> (r: CloseDecision)
    ensures
        tab_count <= 1 ==> r == CloseDecision::CloseWindow,
        tab_count > 1 && !needs_prompt(dirty, backing_missing) ==> r == CloseDecision::CloseNow,
        tab_count > 1 && needs_prompt(dirty, backing_missing) ==> r == CloseDecision::Ask,
{
    if tab_count <= 1 {
        CloseDecision::CloseWindow
    } else if dirty || backing_missing {
        CloseDecision::Ask
    } else {
        CloseDecision::CloseNow
    }
}

/// Whether the tab a prompt was about closes: after a completed save or a
/// discard, and not after a cancel or a backed-out save.
pub fn closes_after(answer: PromptAnswer) -> (r: bool)
    ensures
        r == (answer == PromptAnswer::Saved || answer == PromptAnswer::Discarded),
{
    match answer {
        PromptAnswer::Saved | PromptAnswer::Discarded => true,
        PromptAnswer::SaveBackedOut | PromptAnswer::Cancelled => false,
    }
}

/// What the shell does next in a Close Other Tabs batch.
#[derive(Clone, Copy, PartialEq, Eq, Debug, Structural)]
pub enum BatchStep {
    /// Bring this tab forward (not as a navigation) and ask about it.
    Prompt(TabId),
    /// The batch is over: bring the kept tab forward again.
    Finish(TabId),
}

/// The model of a Close Other Tabs batch: the tab kept, and the tabs still to
/// ask about, asked from the end.
pub struct BatchModel {
    pub keep: TabId,
    pub queue: Seq<TabId>,
}

impl BatchModel {
    /// The kept tab is never queued.
    pub open spec fn wf(self) -> bool {
        !self.queue.contains(self.keep)
    }

    /// The next step: ask about the last queued tab, or finish.
    pub open spec fn step(self) -> BatchStep {
        if self.queue.len() == 0 {
            BatchStep::Finish(self.keep)
        } else {
            BatchStep::Prompt(self.queue.last())
        }
    }

    /// The batch after the prompt about the last queued tab was answered: that
    /// tab leaves the queue, and a cancel or a backed-out save abandons the rest.
    pub open spec fn answered(self, answer: PromptAnswer) -> BatchModel {
        BatchModel {
            queue: if answer == PromptAnswer::Saved || answer == PromptAnswer::Discarded {
                self.queue.drop_last()
            } else {
                Seq::empty()
            },
            ..self
        }
    }
}

/// The tabs other than `keep` of a window, in order, that satisfy `dirty`
/// (each given with whether it must be asked about before closing).
pub open spec fn others_where(tabs: Seq<(TabId, bool)>, keep: TabId, dirty: bool) -> Seq<TabId>
    decreases tabs.len(),
{
    if tabs.len() == 0 {
        Seq::empty()
    } else {
        let rest = others_where(tabs.drop_last(), keep, dirty);
        if tabs.last().0 != keep && tabs.last().1 == dirty {
            rest.push(tabs.last().0)
        } else {
            rest
        }
    }
}

proof fn lemma_others_exclude_keep(tabs: Seq<(TabId, bool)>, keep: TabId, dirty: bool)
    ensures
        !others_where(tabs, keep, dirty).contains(keep),
    decreases tabs.len(),
{
    if tabs.len() > 0 {
        lemma_others_exclude_keep(tabs.drop_last(), keep, dirty);
        let rest = others_where(tabs.drop_last(), keep, dirty);
        if tabs.last().0 != keep && tabs.last().1 == dirty {
            assert forall|i: int| 0 <= i < rest.len() + 1 implies rest.push(tabs.last().0)[i] != keep by {
                if i < rest.len() {
                    assert(rest[i] != keep);
                }
            }
        }
    }
}

/// A Close Other Tabs batch in progress.
pub struct CloseOthersBatch {
    keep: TabId,
    queue: Vec<TabId>,
}

impl View for CloseOthersBatch {
    type V = BatchModel;

    closed spec fn view(&self) -> BatchModel {
        BatchModel { keep: self.keep, queue: self.queue@ }
    }
}

impl CloseOthersBatch {
    /// Start closing every tab of a window but `keep`. `tabs` lists the window's
    /// tabs in order, each with whether it must be asked about first. Returns
    /// the batch, whose queue is the tabs to ask about, and the tabs to close at
    /// once, before any prompt.
    pub fn start(keep: TabId, tabs: &Vec<(TabId, bool)>) -> (r: (CloseOthersBatch, Vec<TabId>))
        ensures
            r.0@.wf(),
            r.0@.keep == keep,
            r.0@.queue == others_where(tabs@, keep, true),
            r.1@ == others_where(tabs@, keep, false),
    {
        let mut queue: Vec<TabId> = Vec::new();
        let mut now: Vec<TabId> = Vec::new();
        let mut i: usize = 0;
        while i < tabs.len()
            invariant
                i <= tabs@.len(),
                queue@ == others_where(tabs@.take(i as int), keep, true),
                now@ == others_where(tabs@.take(i as int), keep, false),
            decreases tabs@.len() - i,
        {
            let (t, ask) = tabs[i];
            proof {
                assert(tabs@.take(i + 1).drop_last() =~= tabs@.take(i as int));
                assert(tabs@.take(i + 1).last() == tabs@[i as int]);
            }
            if t != keep {
                if ask {
                    queue.push(t);
                } else {
                    now.push(t);
                }
            }
            i = i + 1;
        }
        assert(tabs@.take(tabs@.len() as int) =~= tabs@);
        proof {
            lemma_others_exclude_keep(tabs@, keep, true);
        }
        (CloseOthersBatch { keep, queue }, now)
    }

    /// Whether every queued prompt has been answered or the batch abandoned.
    pub fn is_finished(&self) -> (r: bool)
        ensures
            r == (self@.queue.len() == 0),
    {
        self.queue.len() == 0
    }

    /// What the shell does next.
    pub fn next_step(&self) -> (r: BatchStep)
        ensures
            r == self@.step(),
    {
        let n = self.queue.len();
        if n == 0 {
            BatchStep::Finish(self.keep)
        } else {
            BatchStep::Prompt(self.queue[n - 1])
        }
    }

    /// Take the answer to the prompt about the last queued tab. Returns the tab
    /// to close now, if the answer closes it; a cancel or a backed-out save
    /// abandons the rest of the batch, leaving those tabs open.
    pub fn answer(&mut self, answer: PromptAnswer) -> (closed: Option<TabId>)
        requires
            old(self)@.wf(),
            old(self)@.queue.len() > 0,
        ensures
            final(self)@ == old(self)@.answered(answer),
            final(self)@.wf(),
            closed == if answer == PromptAnswer::Saved || answer == PromptAnswer::Discarded {
                Some(old(self)@.queue.last())
            } else {
                None
            },
            closed matches Some(t) ==> t != old(self)@.keep,
    {
        if closes_after(answer) {
            let t = self.queue.pop();
            proof {
                assert(old(self)@.queue[old(self)@.queue.len() - 1] != old(self)@.keep);
                assert forall|i: int| 0 <= i < self@.queue.len() implies self@.queue[i] != self@.keep by {
                    assert(self@.queue[i] == old(self)@.queue[i]);
                }
            }
            t
        } else {
            self.queue = Vec::new();
            assert(self@.queue =~= Seq::<TabId>::empty());
            None
        }
    }
}

/// A cancel, or a save backed out of, ends the batch on the kept tab: the
/// remaining tabs stay open and the shell brings the kept tab forward.
pub proof fn law_an_abandoned_batch_finishes_on_the_kept_tab(b: BatchModel, answer: PromptAnswer)
    requires
        answer == PromptAnswer::Cancelled || answer == PromptAnswer::SaveBackedOut,
    ensures
        b.answered(answer).step() == BatchStep::Finish(b.keep),
{
}

/// Every answered prompt shortens the batch, so it always finishes, and it
/// always finishes on the kept tab.
pub proof fn law_the_batch_always_finishes_on_the_kept_tab(b: BatchModel, answer: PromptAnswer)
    requires
        b.queue.len() > 0,
    ensures
        b.answered(answer).queue.len() < b.queue.len(),
        b.answered(answer).keep == b.keep,
        b.answered(answer).queue.len() == 0 ==> b.answered(answer).step() == BatchStep::Finish(
            b.keep,
        ),
{
}

/// The kept tab is never asked about and never closed: it is in neither list
/// that starting a batch produces, and no answer can name it.
pub proof fn law_the_kept_tab_is_never_closed(tabs: Seq<(TabId, bool)>, keep: TabId)
    ensures
        !others_where(tabs, keep, true).contains(keep),
        !others_where(tabs, keep, false).contains(keep),
{
    lemma_others_exclude_keep(tabs, keep, true);
    lemma_others_exclude_keep(tabs, keep, false);
}

/// What becomes of the window a tab was moved out of.
#[derive(Clone, Copy, PartialEq, Eq, Debug, Structural)]
pub enum SourceWindowAfterMove {
    /// No tab is left: a window with no tabs is never a valid state, so it closes.
    Close,
    /// Tabs remain: its title is brought up to date.
    Retitle,
}

/// Decide what becomes of the window a tab left, from how many tabs it still has.
pub fn source_window_after_move(remaining_tabs: usize) -> (r: SourceWindowAfterMove)
    ensures
        r == if remaining_tabs == 0 {
            SourceWindowAfterMove::Close
        } else {
            SourceWindowAfterMove::Retitle
        },
{
    if remaining_tabs == 0 {
        SourceWindowAfterMove::Close
    } else {
        SourceWindowAfterMove::Retitle
    }
}

/// A completed save or a discard closes the prompted tab and goes on with the
/// rest: the queue loses exactly its last tab, keeps every other in order, and
/// the next step asks about the tab before it, finishing only when none is
/// left. Only a cancel or a backed-out save ends the batch early.
pub proof fn law_a_closing_answer_moves_on_to_the_next_prompt(b: BatchModel, answer: PromptAnswer)
    requires
        b.queue.len() > 0,
    ensures
        (answer == PromptAnswer::Saved || answer == PromptAnswer::Discarded) ==> {
            &&& b.answered(answer).queue.len() == b.queue.len() - 1
            &&& forall|i: int|
                0 <= i < b.queue.len() - 1 ==> #[trigger] b.answered(answer).queue[i] == b.queue[i]
            &&& b.queue.len() >= 2 ==> b.answered(answer).step() == BatchStep::Prompt(
                b.queue[b.queue.len() - 2],
            )
            &&& b.queue.len() == 1 ==> b.answered(answer).step() == BatchStep::Finish(b.keep)
        },
        b.queue.len() >= 2 && b.answered(answer).queue.len() == 0 ==> (answer
            == PromptAnswer::Cancelled || answer == PromptAnswer::SaveBackedOut),
{
}

} // verus!
