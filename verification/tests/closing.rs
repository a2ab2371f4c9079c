//! Tests of what closing tabs decides: one tab, and the Close Other Tabs batch.

use scribobulate::closing::{
    close_decision, closes_after, source_window_after_move, BatchStep, CloseDecision,
    CloseOthersBatch, PromptAnswer, SourceWindowAfterMove,
};
use scribobulate::ids::TabId;

fn t(n: u64) -> TabId {
    TabId::from_raw(n)
}

#[test]
fn closing_a_windows_only_tab_closes_the_window() {
    assert_eq!(close_decision(1, true, false), CloseDecision::CloseWindow);
    assert_eq!(close_decision(1, false, false), CloseDecision::CloseWindow);
    assert_eq!(close_decision(0, false, false), CloseDecision::CloseWindow);
}

#[test]
fn a_tab_with_unsaved_work_or_a_deleted_file_is_asked_about() {
    assert_eq!(close_decision(3, false, false), CloseDecision::CloseNow);
    assert_eq!(close_decision(3, true, false), CloseDecision::Ask);
    assert_eq!(close_decision(3, false, true), CloseDecision::Ask);
}

#[test]
fn only_a_completed_save_or_a_discard_closes_the_tab() {
    assert!(closes_after(PromptAnswer::Saved));
    assert!(closes_after(PromptAnswer::Discarded));
    assert!(!closes_after(PromptAnswer::SaveBackedOut));
    assert!(!closes_after(PromptAnswer::Cancelled));
}

#[test]
fn close_others_closes_the_clean_ones_at_once_and_asks_about_the_dirty_ones_last_first() {
    let tabs = vec![(t(1), true), (t(2), false), (t(3), true), (t(4), true), (t(5), false)];
    let (mut batch, now) = CloseOthersBatch::start(t(3), &tabs);
    assert_eq!(now, vec![t(2), t(5)]);
    assert_eq!(batch.next_step(), BatchStep::Prompt(t(4)));
    assert_eq!(batch.answer(PromptAnswer::Discarded), Some(t(4)));
    assert_eq!(batch.next_step(), BatchStep::Prompt(t(1)));
    assert_eq!(batch.answer(PromptAnswer::Saved), Some(t(1)));
    assert!(batch.is_finished());
    assert_eq!(batch.next_step(), BatchStep::Finish(t(3)));
}

#[test]
fn a_cancel_leaves_the_remaining_tabs_open_and_returns_to_the_kept_one() {
    let tabs = vec![(t(1), true), (t(2), true), (t(3), true)];
    let (mut batch, now) = CloseOthersBatch::start(t(1), &tabs);
    assert!(now.is_empty());
    assert_eq!(batch.next_step(), BatchStep::Prompt(t(3)));
    assert_eq!(batch.answer(PromptAnswer::Cancelled), None);
    assert!(batch.is_finished());
    assert_eq!(batch.next_step(), BatchStep::Finish(t(1)));
}

#[test]
fn a_backed_out_save_abandons_the_batch_too() {
    let tabs = vec![(t(1), false), (t(2), true), (t(3), true)];
    let (mut batch, _) = CloseOthersBatch::start(t(1), &tabs);
    assert_eq!(batch.answer(PromptAnswer::SaveBackedOut), None);
    assert_eq!(batch.next_step(), BatchStep::Finish(t(1)));
}

#[test]
fn a_window_left_with_no_tab_closes_and_any_other_is_retitled() {
    assert_eq!(source_window_after_move(0), SourceWindowAfterMove::Close);
    assert_eq!(source_window_after_move(1), SourceWindowAfterMove::Retitle);
    assert_eq!(source_window_after_move(5), SourceWindowAfterMove::Retitle);
}
