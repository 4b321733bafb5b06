use job_dispatcher::dispatch::plan;
use job_dispatcher::dispatch::Action;
use job_dispatcher::dispatch::PollOutcome;
use job_dispatcher::executor::execute;
use job_dispatcher::executor::ExecOutcome;
use job_dispatcher::supervisor::JobState;
use job_dispatcher::supervisor::Supervisor;

#[test]
fn admission_assigns_dense_ids_in_order() {
    let mut sup = Supervisor::new();
    assert_eq!(sup.admitted_count(), 0);
    assert_eq!(sup.admit_job(), 0);
    assert_eq!(sup.admit_job(), 1);
    assert_eq!(sup.admit_job(), 2);
    assert_eq!(sup.admitted_count(), 3);
    for id in 0..3 {
        assert_eq!(sup.state_of(id), JobState::Admitted);
    }
}

#[test]
fn one_job_walks_to_succeeded() {
    let mut sup = Supervisor::new();
    let id = sup.admit_job();
    sup.begin(id);
    assert_eq!(sup.state_of(id), JobState::Running);
    sup.complete(id, true);
    assert_eq!(sup.state_of(id), JobState::Succeeded);
}

#[test]
fn failure_is_terminal_and_isolated() {
    let mut sup = Supervisor::new();
    let a = sup.admit_job();
    let b = sup.admit_job();
    sup.begin(a);
    sup.begin(b);
    sup.complete(a, false);
    assert_eq!(sup.state_of(a), JobState::Failed);
    // The sibling execution is untouched by the failure.
    assert_eq!(sup.state_of(b), JobState::Running);
    sup.complete(b, true);
    assert_eq!(sup.state_of(b), JobState::Succeeded);
}

#[test]
fn in_flight_counts_non_terminal_executions() {
    let mut sup = Supervisor::new();
    assert_eq!(sup.in_flight(), 0);
    let a = sup.admit_job();
    let b = sup.admit_job();
    let c = sup.admit_job();
    assert_eq!(sup.in_flight(), 3);
    sup.begin(a);
    assert_eq!(sup.in_flight(), 3);
    sup.complete(a, true);
    assert_eq!(sup.in_flight(), 2);
    sup.begin(c);
    sup.complete(c, false);
    assert_eq!(sup.in_flight(), 1);
    sup.begin(b);
    sup.complete(b, true);
    assert_eq!(sup.in_flight(), 0);
}

#[test]
fn burst_of_entries_is_fully_admitted_and_reaches_terminal_states() {
    // Three entries popped in immediate succession, no empty or error
    // result between them: all three must be admitted, and each must reach
    // a terminal state whatever the completion order.
    let raws = [
        br#"{"job_type":"echo","payload":1}"#.to_vec(),
        br#"{"job_type":"echo","payload":2}"#.to_vec(),
        br#"{"job_type":"other","payload":3}"#.to_vec(),
    ];
    let mut sup = Supervisor::new();
    let mut jobs = Vec::new();
    for raw in raws {
        let d = plan(PollOutcome::Entry(raw));
        assert_eq!(d.delay_secs, 0);
        match d.action {
            Action::Admit(job) => {
                let id = sup.admit_job();
                jobs.push((id, job));
            }
            _ => panic!("every decoded entry of the burst must be admitted"),
        }
    }
    assert_eq!(sup.admitted_count(), 3);
    // Complete in reverse admission order: ordering across jobs is free.
    for (id, job) in jobs.iter().rev() {
        sup.begin(*id);
        let (outcome, _) = execute(job);
        sup.complete(*id, outcome == ExecOutcome::Succeeded);
    }
    assert_eq!(sup.state_of(0), JobState::Succeeded);
    assert_eq!(sup.state_of(1), JobState::Succeeded);
    assert_eq!(sup.state_of(2), JobState::Failed);
    assert_eq!(sup.in_flight(), 0);
}
