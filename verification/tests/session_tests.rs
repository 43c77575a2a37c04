use piccy_picky::commands::Decision;
use piccy_picky::session::{Action, Session, SessionState};

fn deciding(session: &Session) -> usize {
    match session.state {
        SessionState::Deciding { slot, awaiting_trash: false } => slot,
        other => panic!("expected a decision prompt, got {:?}", other),
    }
}

fn rendered_all_ok(session: &mut Session) -> Action {
    let n = session.batch.len();
    let ok = vec![true; n];
    session.on_rendered(&ok)
}

#[test]
fn empty_working_set_finishes_at_once() {
    let mut s = Session::new(Vec::new(), false);
    assert_eq!(s.start_round(), Action::Finished);
    assert_eq!(s.state, SessionState::Finished);
}

#[test]
fn batch_size_is_min_of_three_and_working_set() {
    let mut s = Session::new(vec![1, 2], false);
    assert_eq!(s.start_round(), Action::Render);
    assert_eq!(s.batch.len(), 2);

    let mut s3 = Session::new(vec![1, 2, 3, 4, 5], false);
    assert_eq!(s3.start_round(), Action::Render);
    assert_eq!(s3.batch.len(), 3);
}

#[test]
fn sampled_batch_is_distinct_and_from_the_working_set() {
    let ids: Vec<u64> = (0..20).collect();
    let mut s = Session::new(ids.clone(), false);
    s.start_round();
    for (i, a) in s.batch.iter().enumerate() {
        assert!(ids.contains(&a.image));
        assert!(a.decision.is_none());
        for b in &s.batch[i + 1..] {
            assert_ne!(a.image, b.image);
        }
    }
}

#[test]
fn keep_decisions_complete_a_batch_and_shrink_the_working_set() {
    let mut s = Session::new(vec![10, 20, 30, 40, 50], false);
    s.start_round();
    let a = rendered_all_ok(&mut s);
    assert_eq!(a, Action::PromptDecision { slot: 0 });

    assert_eq!(s.on_key(b'k'), Action::PromptDecision { slot: 1 });
    assert_eq!(s.on_key(b'K'), Action::PromptDecision { slot: 2 });
    let done = s.on_key(b'k');
    assert_eq!(done, Action::PromptContinue);
    assert_eq!(s.state, SessionState::BatchComplete);
    // Exactly the three decided images left the working set.
    assert_eq!(s.working.len(), 2);

    // Continue alone never shrinks the working set.
    assert_eq!(s.on_batch_key(b'c'), Action::Proceed { clear: false });
    assert_eq!(s.state, SessionState::SelectingBatch);
    assert_eq!(s.working.len(), 2);
}

#[test]
fn failed_bin_reprompts_the_same_slot() {
    let mut s = Session::new(vec![7, 8, 9], false);
    s.start_round();
    rendered_all_ok(&mut s);
    let slot = deciding(&s);
    let image = s.batch[slot].image;

    assert_eq!(s.on_key(b'b'), Action::RequestTrash { image });
    // The trash operation fails: no decision is recorded and the very same
    // slot is prompted again, however often it fails.
    for _ in 0..5 {
        assert_eq!(s.on_trash_result(false), Action::Bell);
        assert_eq!(deciding(&s), slot);
        assert!(s.batch[slot].decision.is_none());
        assert_eq!(s.working.len(), 3);
        assert_eq!(s.on_key(b'b'), Action::RequestTrash { image });
    }
    // Success finally records the bin and advances.
    assert_eq!(s.on_trash_result(true), Action::PromptDecision { slot: slot + 1 });
    assert_eq!(s.batch[slot].decision, Some(Decision::Bin));
}

#[test]
fn side_channel_commands_do_not_consume_the_slot() {
    let mut s = Session::new(vec![1, 2, 3], false);
    s.start_round();
    rendered_all_ok(&mut s);
    let slot = deciding(&s);
    let image = s.batch[slot].image;

    assert_eq!(s.on_key(12), Action::Redraw);
    assert_eq!(deciding(&s), slot);
    assert_eq!(s.on_key(b'i'), Action::ShowImageInfo { image });
    assert_eq!(deciding(&s), slot);
    assert_eq!(s.on_key(b'I'), Action::ShowBatchInfo);
    assert_eq!(deciding(&s), slot);
    assert_eq!(s.on_key(b' '), Action::Preview { image });
    assert_eq!(s.on_key(b'l'), Action::Preview { image });
    assert_eq!(deciding(&s), slot);
    assert_eq!(s.on_key(b'x'), Action::Bell);
    assert_eq!(deciding(&s), slot);
}

#[test]
fn quit_bypasses_remaining_slots() {
    let mut s = Session::new(vec![1, 2, 3], false);
    s.start_round();
    rendered_all_ok(&mut s);
    assert_eq!(s.on_key(b'q'), Action::Quit);
    assert_eq!(s.state, SessionState::Quitting);
    assert_eq!(s.working.len(), 3);
}

#[test]
fn mode_toggle_replays_the_same_batch() {
    let mut s = Session::new(vec![1, 2, 3], true);
    s.start_round();
    let before: Vec<u64> = s.batch.iter().map(|x| x.image).collect();
    rendered_all_ok(&mut s);
    assert_eq!(s.on_key(b'k'), Action::PromptDecision { slot: 1 });

    // Toggling flips the policy and goes back to rendering the same batch.
    assert!(!s.per_slot_mode);
    assert_eq!(s.on_key(b'm'), Action::Render);
    assert!(s.per_slot_mode);
    assert_eq!(s.state, SessionState::Rendering);
    let after: Vec<u64> = s.batch.iter().map(|x| x.image).collect();
    assert_eq!(before, after);
    // The recorded decision survives the replay: prompting resumes after it.
    assert_eq!(rendered_all_ok(&mut s), Action::PromptDecision { slot: 1 });
    assert_eq!(s.batch[0].decision, Some(Decision::Keep));
}

#[test]
fn mode_toggle_is_invalid_when_disabled() {
    let mut s = Session::new(vec![1, 2, 3], false);
    s.start_round();
    rendered_all_ok(&mut s);
    assert_eq!(s.on_key(b'm'), Action::Bell);
    assert_eq!(deciding(&s), 0);
}

#[test]
fn render_failures_drop_slots_from_the_displayed_set_only() {
    let mut s = Session::new(vec![1, 2, 3], false);
    s.start_round();
    let a = s.on_rendered(&vec![false, true, true]);
    // The first displayed slot is prompted, skipping the failed one.
    assert_eq!(a, Action::PromptDecision { slot: 1 });
    assert_eq!(s.on_key(b'k'), Action::PromptDecision { slot: 2 });
    assert_eq!(s.on_key(b'k'), Action::PromptContinue);
    // The failed slot's image stays in the working set.
    assert_eq!(s.working.len(), 1);
    assert_eq!(s.working[0], s.batch[0].image);
}

#[test]
fn nothing_displayed_ends_the_session() {
    let mut s = Session::new(vec![1, 2, 3], false);
    s.start_round();
    let n = s.batch.len();
    assert_eq!(s.on_rendered(&vec![false; n]), Action::Finished);
    assert_eq!(s.state, SessionState::Finished);
    assert_eq!(s.working.len(), 3);
}

#[test]
fn restart_clears_the_batch_and_keeps_the_working_set() {
    let mut s = Session::new(vec![1, 2], false);
    s.start_round();
    rendered_all_ok(&mut s);
    s.on_key(b'k');
    s.on_key(b'k');
    assert_eq!(s.state, SessionState::BatchComplete);
    assert_eq!(s.on_batch_key(b'x'), Action::Bell);
    assert_eq!(s.on_batch_key(b'r'), Action::Proceed { clear: true });
    assert_eq!(s.batch.len(), 0);
    assert_eq!(s.working.len(), 0);
    // The next round finds the working set empty and finishes.
    assert_eq!(s.start_round(), Action::Finished);
}

#[test]
fn quit_from_the_batch_prompt() {
    let mut s = Session::new(vec![1], false);
    s.start_round();
    rendered_all_ok(&mut s);
    s.on_key(b'b');
    assert_eq!(s.on_trash_result(true), Action::PromptContinue);
    assert_eq!(s.on_batch_key(b'q'), Action::Quit);
    assert_eq!(s.state, SessionState::Quitting);
}
