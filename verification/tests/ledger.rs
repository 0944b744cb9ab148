use completion::{
    Due, GroupResult, Ledger, Phase, Policy, Readiness, SlotState, Status, Teardown, Verdict,
    WakeTable,
};

#[test]
fn wake_table_starts_with_every_flag_set() {
    let t = WakeTable::new(3);
    assert_eq!(t.len(), 3);
    assert!(t.is_due(0) && t.is_due(1) && t.is_due(2));
    assert!(!t.is_due(3));
    assert!(t.any_due());
    assert!(!WakeTable::new(0).any_due());
}

#[test]
fn wake_table_take_clears_one_flag() {
    let mut t = WakeTable::new(3);
    assert!(t.take(1));
    assert!(!t.is_due(1));
    assert!(t.is_due(0) && t.is_due(2));
    assert!(!t.take(1));
    assert!(!t.take(3));
    assert!(t.take(0));
    assert!(t.take(2));
    assert!(!t.any_due());
}

#[test]
fn wake_table_keeps_presence_not_a_count() {
    let mut t = WakeTable::new(2);
    assert!(t.take(0));
    assert!(t.take(1));
    t.wake(1);
    t.wake(1);
    t.wake(1);
    assert!(t.is_due(1));
    assert!(!t.is_due(0));
    assert!(t.take(1));
    assert!(!t.take(1));
    t.wake(2);
    assert!(!t.any_due());
    assert_eq!(t.len(), 2);
}

#[test]
fn slot_transitions() {
    let run: SlotState<u8> = SlotState::Running;
    assert_eq!(run.apply_ready(Readiness::Pending, Verdict::Success), SlotState::Running);
    let run: SlotState<u8> = SlotState::Running;
    assert_eq!(
        run.apply_ready(Readiness::Done(9), Verdict::Error),
        SlotState::Finished { output: 9, verdict: Verdict::Error }
    );
    let run: SlotState<u8> = SlotState::Running;
    assert_eq!(run.apply_cancel_request(), SlotState::CancelRequested);
    let asked: SlotState<u8> = SlotState::CancelRequested;
    assert_eq!(asked.apply_cancel(Teardown::Pending), SlotState::CancelRequested);
    let asked: SlotState<u8> = SlotState::CancelRequested;
    assert_eq!(asked.apply_cancel(Teardown::Cancelled), SlotState::Cancelled);
    let done: SlotState<u8> = SlotState::Finished { output: 4, verdict: Verdict::Success };
    assert_eq!(done.apply_cancel_request(), SlotState::Cancelled);
}

#[test]
fn slot_ignores_answers_that_its_state_did_not_ask_for() {
    let done: SlotState<u8> = SlotState::Finished { output: 4, verdict: Verdict::Success };
    assert_eq!(
        done.apply_ready(Readiness::Done(5), Verdict::Error),
        SlotState::Finished { output: 4, verdict: Verdict::Success }
    );
    let done: SlotState<u8> = SlotState::Finished { output: 4, verdict: Verdict::Success };
    assert_eq!(
        done.apply_cancel(Teardown::Cancelled),
        SlotState::Finished { output: 4, verdict: Verdict::Success }
    );
    let run: SlotState<u8> = SlotState::Running;
    assert_eq!(run.apply_cancel(Teardown::Cancelled), SlotState::Running);
    let asked: SlotState<u8> = SlotState::CancelRequested;
    assert_eq!(asked.apply_ready(Readiness::Done(1), Verdict::Success), SlotState::CancelRequested);
    let asked: SlotState<u8> = SlotState::CancelRequested;
    assert_eq!(asked.apply_cancel_request(), SlotState::CancelRequested);
    let gone: SlotState<u8> = SlotState::Cancelled;
    assert_eq!(gone.apply_ready(Readiness::Done(1), Verdict::Success), SlotState::Cancelled);
    let gone: SlotState<u8> = SlotState::Cancelled;
    assert_eq!(gone.apply_cancel_request(), SlotState::Cancelled);
    let gone: SlotState<u8> = SlotState::Cancelled;
    assert_eq!(gone.apply_cancel(Teardown::Pending), SlotState::Cancelled);
}

#[test]
fn slot_state_queries() {
    let run: SlotState<u8> = SlotState::Running;
    let done: SlotState<u8> = SlotState::Finished { output: 4, verdict: Verdict::Success };
    let asked: SlotState<u8> = SlotState::CancelRequested;
    let gone: SlotState<u8> = SlotState::Cancelled;
    assert!(run.running() && !run.terminal() && !run.finished());
    assert!(done.finished() && done.terminal() && !done.cancelled());
    assert!(asked.cancel_requested() && !asked.terminal() && !asked.running());
    assert!(gone.cancelled() && gone.terminal() && !gone.cancel_requested());
}

#[test]
fn policy_rules() {
    assert!(!Policy::Zip.does_classify());
    assert!(Policy::TryZip.does_classify());
    assert!(!Policy::Race.does_classify());
    assert!(Policy::RaceOk.does_classify());
    assert_eq!(Policy::Zip.retain(Verdict::Error), Verdict::Success);
    assert_eq!(Policy::Race.retain(Verdict::Error), Verdict::Success);
    assert_eq!(Policy::TryZip.retain(Verdict::Error), Verdict::Error);
    assert_eq!(Policy::RaceOk.retain(Verdict::Success), Verdict::Success);
    assert!(!Policy::Zip.cuts_short(Verdict::Success));
    assert!(!Policy::Zip.cuts_short(Verdict::Error));
    assert!(Policy::TryZip.cuts_short(Verdict::Error));
    assert!(!Policy::TryZip.cuts_short(Verdict::Success));
    assert!(Policy::Race.cuts_short(Verdict::Success));
    assert!(Policy::Race.cuts_short(Verdict::Error));
    assert!(Policy::RaceOk.cuts_short(Verdict::Success));
    assert!(!Policy::RaceOk.cuts_short(Verdict::Error));
}

#[test]
fn policy_triggers_and_first_hit() {
    let states: Vec<SlotState<u8>> = vec![
        SlotState::Running,
        SlotState::Finished { output: 1, verdict: Verdict::Error },
        SlotState::Finished { output: 2, verdict: Verdict::Success },
        SlotState::Finished { output: 3, verdict: Verdict::Error },
    ];
    assert_eq!(completion::policy::find_first(&states, None), Some(1));
    assert_eq!(completion::policy::find_first(&states, Some(Verdict::Success)), Some(2));
    assert_eq!(completion::policy::find_first(&states, Some(Verdict::Error)), Some(1));
    assert!(completion::policy::is_hit(&states[1], Some(Verdict::Error)));
    assert!(!completion::policy::is_hit(&states[1], Some(Verdict::Success)));
    assert!(!completion::policy::is_hit(&states[0], None));
    assert!(!completion::policy::every_finished(&states));
    assert!(!completion::policy::every_terminal(&states));
    assert!(!Policy::Zip.triggers(&states));
    assert!(Policy::TryZip.triggers(&states));
    assert!(Policy::Race.triggers(&states));
    assert!(Policy::RaceOk.triggers(&states));
    let waiting: Vec<SlotState<u8>> = vec![
        SlotState::Running,
        SlotState::Finished { output: 1, verdict: Verdict::Success },
    ];
    assert!(!Policy::TryZip.triggers(&waiting));
    assert!(Policy::RaceOk.triggers(&waiting));
    assert_eq!(completion::policy::find_first(&waiting, Some(Verdict::Error)), None);
    let done: Vec<SlotState<u8>> = vec![
        SlotState::Finished { output: 1, verdict: Verdict::Error },
        SlotState::Cancelled,
    ];
    assert!(completion::policy::every_terminal(&done));
    assert!(!completion::policy::every_finished(&done));
    assert!(!Policy::Zip.triggers(&done));
    assert!(!Policy::RaceOk.triggers(&done));
}

#[test]
fn ledger_says_which_query_a_slot_is_owed() {
    let mut l: Ledger<u8> = Ledger::new(3, Policy::Race);
    assert_eq!(l.arity(), 3);
    assert_eq!(l.policy(), Policy::Race);
    assert_eq!(l.phase(), Phase::Driving);
    assert!(l.any_due());
    assert_eq!(l.take(0), Due::PollReady);
    assert_eq!(l.take(0), Due::Idle);
    assert_eq!(l.take(3), Due::Idle);
    l.record_ready(0, Readiness::Pending, Verdict::Success);
    assert_eq!(l.slot(0), Some(&SlotState::Running));
    assert_eq!(l.take(1), Due::PollReady);
    l.record_ready(1, Readiness::Done(5), Verdict::Success);
    assert_eq!(l.phase(), Phase::Settling);
    assert_eq!(l.slot(0), Some(&SlotState::CancelRequested));
    assert_eq!(l.slot(2), Some(&SlotState::CancelRequested));
    assert!(l.is_due(0) && l.is_due(2));
    assert!(!l.is_due(1));
    assert_eq!(l.take(1), Due::Idle);
    assert_eq!(l.take(0), Due::PollCancel);
    l.record_cancel(0, Teardown::Pending);
    assert_eq!(l.slot(0), Some(&SlotState::CancelRequested));
    assert_eq!(l.take(0), Due::Idle);
    l.wake(0);
    assert_eq!(l.take(0), Due::PollCancel);
    l.record_cancel(0, Teardown::Cancelled);
    assert_eq!(l.status(), Status::Pending);
    assert_eq!(l.take(2), Due::PollCancel);
    l.record_cancel(2, Teardown::Cancelled);
    assert!(!l.any_due());
    assert_eq!(l.status(), Status::Ready);
    assert_eq!(l.finish().ok(), Some(GroupResult::First(5)));
}

#[test]
fn ledger_drops_answers_for_slots_that_were_not_asked() {
    let mut l: Ledger<u8> = Ledger::new(2, Policy::Zip);
    l.record_ready(2, Readiness::Done(1), Verdict::Success);
    l.record_cancel(2, Teardown::Cancelled);
    l.record_cancel(0, Teardown::Cancelled);
    assert_eq!(l.slot(0), Some(&SlotState::Running));
    assert_eq!(l.slot(1), Some(&SlotState::Running));
    assert_eq!(l.slot(2), None);
    l.record_ready(0, Readiness::Done(1), Verdict::Success);
    l.record_ready(0, Readiness::Done(2), Verdict::Success);
    assert_eq!(l.slot(0), Some(&SlotState::Finished { output: 1, verdict: Verdict::Success }));
    assert_eq!(l.phase(), Phase::Driving);
    let mut l = match l.finish() {
        Ok(_) => panic!("one slot is still running"),
        Err(l) => l,
    };
    l.record_ready(1, Readiness::Done(3), Verdict::Error);
    assert_eq!(l.phase(), Phase::Settling);
    assert_eq!(l.status(), Status::Ready);
    assert_eq!(l.finish().ok(), Some(GroupResult::All(vec![1, 3])));
}

#[test]
fn ledger_cancel_of_the_whole_group() {
    let mut l: Ledger<u8> = Ledger::new(2, Policy::TryZip);
    assert_eq!(l.take(0), Due::PollReady);
    assert_eq!(l.take(1), Due::PollReady);
    l.record_ready(1, Readiness::Done(1), Verdict::Success);
    l.cancel();
    assert_eq!(l.phase(), Phase::Aborting);
    assert_eq!(l.slot(0), Some(&SlotState::CancelRequested));
    assert_eq!(l.slot(1), Some(&SlotState::Cancelled));
    assert!(l.is_due(0));
    assert!(!l.is_due(1));
    assert_eq!(l.status(), Status::Pending);
    assert_eq!(l.take(0), Due::PollCancel);
    l.record_cancel(0, Teardown::Cancelled);
    assert_eq!(l.status(), Status::Cancelled);
    assert!(l.finish().is_err());
}

#[test]
fn ledger_of_no_slots() {
    let l: Ledger<u8> = Ledger::new(0, Policy::Zip);
    assert_eq!(l.phase(), Phase::Settling);
    assert_eq!(l.status(), Status::Ready);
    assert_eq!(l.finish().ok(), Some(GroupResult::All(vec![])));
    let l: Ledger<u8> = Ledger::new(0, Policy::TryZip);
    assert_eq!(l.finish().ok(), Some(GroupResult::All(vec![])));
    let l: Ledger<u8> = Ledger::new(0, Policy::RaceOk);
    assert_eq!(l.finish().ok(), Some(GroupResult::AllFailed(vec![])));
    let l: Ledger<u8> = Ledger::new(0, Policy::Race);
    assert_eq!(l.phase(), Phase::Driving);
    assert_eq!(l.status(), Status::Pending);
    assert!(l.finish().is_err());
}

#[test]
fn ledger_try_zip_reports_the_error_that_triggered() {
    let mut l: Ledger<u8> = Ledger::new(3, Policy::TryZip);
    l.record_ready(2, Readiness::Done(30), Verdict::Success);
    l.record_ready(1, Readiness::Done(20), Verdict::Error);
    assert_eq!(l.slot(0), Some(&SlotState::CancelRequested));
    assert_eq!(l.slot(2), Some(&SlotState::Cancelled));
    l.record_ready(0, Readiness::Done(10), Verdict::Error);
    assert_eq!(l.slot(0), Some(&SlotState::CancelRequested));
    l.record_cancel(0, Teardown::Cancelled);
    assert_eq!(l.finish().ok(), Some(GroupResult::Failed(20)));
}
