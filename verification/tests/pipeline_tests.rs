use job_dispatcher::dispatch::plan;
use job_dispatcher::dispatch::Action;
use job_dispatcher::dispatch::PollOutcome;
use job_dispatcher::executor::execute;
use job_dispatcher::executor::ExecOutcome;
use job_dispatcher::supervisor::JobState;
use job_dispatcher::supervisor::Supervisor;

#[test]
fn echo_entry_runs_to_succeeded_without_blocking_the_next_poll() {
    // One raw entry is popped, decoded, admitted, and the echo handler runs
    // it to the Succeeded terminal state; the directive's zero delay means
    // the next poll is not held up by the execution.
    let raw = br#"{"job_type":"echo","payload":{"msg":"hi"}}"#.to_vec();
    let d = plan(PollOutcome::Entry(raw));
    assert_eq!(d.delay_secs, 0);
    let job = match d.action {
        Action::Admit(job) => job,
        _ => panic!("the echo entry must be admitted"),
    };
    let mut sup = Supervisor::new();
    let id = sup.admit_job();
    sup.begin(id);
    let (outcome, out) = execute(&job);
    assert_eq!(outcome, ExecOutcome::Succeeded);
    assert_eq!(out, Some(br#"{"msg":"hi"}"#.to_vec()));
    sup.complete(id, outcome == ExecOutcome::Succeeded);
    assert_eq!(sup.state_of(id), JobState::Succeeded);
}

#[test]
fn decode_failure_leaves_loop_ready_and_later_entries_unaffected() {
    // A malformed entry is dropped; the very next poll may happen at once
    // and a later well-formed entry still goes through.
    let bad = plan(PollOutcome::Entry(b"}{".to_vec()));
    assert_eq!(bad.delay_secs, 0);
    assert!(matches!(bad.action, Action::Discard(_)));
    let good = plan(PollOutcome::Entry(
        br#"{"job_type":"echo","payload":null}"#.to_vec(),
    ));
    assert!(matches!(good.action, Action::Admit(_)));
}
