use job_dispatcher::decode::DecodeError;
use job_dispatcher::dispatch::plan;
use job_dispatcher::dispatch::Action;
use job_dispatcher::dispatch::PollOutcome;
use job_dispatcher::dispatch::EMPTY_BACKOFF_SECS;
use job_dispatcher::dispatch::ERROR_BACKOFF_SECS;

#[test]
fn entry_with_valid_job_is_admitted_without_delay() {
    let raw = br#"{"job_type":"echo","payload":{"msg":"hi"}}"#.to_vec();
    let d = plan(PollOutcome::Entry(raw));
    assert_eq!(d.delay_secs, 0);
    match d.action {
        Action::Admit(job) => {
            assert_eq!(job.job_type, b"echo".to_vec());
            assert_eq!(job.payload, br#"{"msg":"hi"}"#.to_vec());
        }
        _ => panic!("a well-formed entry must be admitted"),
    }
}

#[test]
fn malformed_entry_is_discarded_and_loop_polls_again_at_once() {
    let d = plan(PollOutcome::Entry(b"not json".to_vec()));
    assert_eq!(d.delay_secs, 0);
    match d.action {
        Action::Discard(e) => assert_eq!(e, DecodeError::Malformed),
        _ => panic!("a malformed entry must be discarded, not admitted"),
    }
}

#[test]
fn entry_without_job_type_is_discarded_with_its_own_error() {
    let d = plan(PollOutcome::Entry(br#"{"payload":1}"#.to_vec()));
    assert_eq!(d.delay_secs, 0);
    match d.action {
        Action::Discard(e) => assert_eq!(e, DecodeError::MissingJobType),
        _ => panic!("an entry without job_type must be discarded"),
    }
}

#[test]
fn empty_queue_directs_empty_backoff() {
    let d = plan(PollOutcome::Empty);
    assert_eq!(d.delay_secs, EMPTY_BACKOFF_SECS);
    assert_eq!(d.delay_secs, 1);
    assert!(matches!(d.action, Action::Idle));
}

#[test]
fn transport_error_directs_error_backoff() {
    let d = plan(PollOutcome::TransportError);
    assert_eq!(d.delay_secs, ERROR_BACKOFF_SECS);
    assert_eq!(d.delay_secs, 5);
    assert!(matches!(d.action, Action::Idle));
}

#[test]
fn two_empty_polls_space_three_pop_attempts_by_twice_the_backoff() {
    // A model of a faithful loop: each next poll waits the directed delay.
    let t0: u64 = 100;
    let d0 = plan(PollOutcome::Empty);
    let t1 = t0 + d0.delay_secs;
    let d1 = plan(PollOutcome::Empty);
    let t2 = t1 + d1.delay_secs;
    assert!(t2 - t0 >= 2 * EMPTY_BACKOFF_SECS);
}

#[test]
fn burst_of_entries_directs_no_delay_between_polls() {
    let raws = [
        br#"{"job_type":"echo","payload":1}"#.to_vec(),
        br#"{"job_type":"resize","payload":2}"#.to_vec(),
        br#"{"job_type":"echo","payload":3}"#.to_vec(),
    ];
    for raw in raws {
        let d = plan(PollOutcome::Entry(raw));
        assert_eq!(d.delay_secs, 0);
        assert!(matches!(d.action, Action::Admit(_)));
    }
}
