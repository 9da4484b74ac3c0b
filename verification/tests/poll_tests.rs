use axpoll::poll::{
    check_request, deadline_after, entry_mask, poll_all, timeout_from_millis, wait, wait_step,
    LookupError, PollEntry, PollError, PollState, ScanRecord, Timeout, WaitOutcome, WaitStep,
    POLL_ERR, POLL_IN, POLL_OUT,
};

fn entry(fd: i32, events: u16) -> PollEntry {
    PollEntry { fd, events, revents: 0 }
}

fn ready(readable: bool, writable: bool) -> Result<PollState, LookupError> {
    Ok(PollState { readable, writable })
}

fn failed() -> Result<PollState, LookupError> {
    Err(LookupError)
}

fn scan(replies: Vec<Result<PollState, LookupError>>, now: u64) -> ScanRecord {
    ScanRecord { replies, now }
}

#[test]
fn empty_request_is_invalid_for_every_timeout() {
    for timeout in [Timeout::Infinite, Timeout::Immediate, Timeout::Relative(5)] {
        let mut entries: Vec<PollEntry> = Vec::new();
        let r = wait(&mut entries, timeout, 0, &Vec::new());
        assert_eq!(r, Err(PollError::InvalidArgument));
        assert!(entries.is_empty());
    }
}

#[test]
fn check_request_rejects_only_the_empty_request() {
    assert_eq!(check_request(&Vec::new()), Err(PollError::InvalidArgument));
    assert_eq!(check_request(&vec![entry(0, POLL_IN)]), Ok(()));
}

#[test]
fn single_readable_descriptor_returns_one() {
    for timeout in [Timeout::Infinite, Timeout::Immediate, Timeout::Relative(50)] {
        let mut entries = vec![entry(3, POLL_IN)];
        let scans = vec![scan(vec![ready(true, false)], 7)];
        let r = wait(&mut entries, timeout, 5, &scans);
        assert_eq!(r, Ok(WaitOutcome::Complete(1)));
        assert_eq!(entries[0].revents, POLL_IN);
        assert_eq!(entries[0].fd, 3);
        assert_eq!(entries[0].events, POLL_IN);
    }
}

#[test]
fn readable_and_failing_descriptor_both_report_on_first_scan() {
    let mut entries = vec![entry(3, POLL_IN), entry(9, POLL_ERR)];
    let scans = vec![scan(vec![ready(true, false), failed()], 7)];
    let r = wait(&mut entries, Timeout::Infinite, 0, &scans);
    assert_eq!(r, Ok(WaitOutcome::Complete(2)));
    assert_eq!(entries[0].revents, POLL_IN);
    assert_eq!(entries[1].revents, POLL_ERR);
}

#[test]
fn lookup_failure_without_error_interest_is_silent() {
    let mut entries = vec![entry(7, POLL_IN)];
    let scans = vec![scan(vec![failed()], 3)];
    let r = wait(&mut entries, Timeout::Immediate, 3, &scans);
    assert_eq!(r, Ok(WaitOutcome::Complete(0)));
    assert_eq!(entries[0].revents, 0);
}

#[test]
fn relative_timeout_with_nothing_ready_returns_zero_at_deadline() {
    let mut entries = vec![entry(1, POLL_IN), entry(2, POLL_OUT)];
    let not_ready = || vec![ready(false, false), ready(false, false)];
    let scans = vec![scan(not_ready(), 105), scan(not_ready(), 110)];
    let r = wait(&mut entries, Timeout::Relative(10), 100, &scans);
    assert_eq!(r, Ok(WaitOutcome::Complete(0)));
    assert_eq!(entries[0].revents, 0);
    assert_eq!(entries[1].revents, 0);
}

#[test]
fn relative_timeout_keeps_waiting_before_the_deadline() {
    let mut entries = vec![entry(1, POLL_IN)];
    let scans = vec![scan(vec![ready(false, false)], 103), scan(vec![ready(false, false)], 107)];
    let r = wait(&mut entries, Timeout::Relative(10), 100, &scans);
    assert_eq!(r, Ok(WaitOutcome::Pending));
    assert_eq!(entries[0].revents, 0);
}

#[test]
fn infinite_timeout_never_times_out() {
    let mut entries = vec![entry(1, POLL_IN)];
    let not_ready = || vec![ready(false, false)];
    let scans = vec![scan(not_ready(), 1000), scan(not_ready(), 2000), scan(not_ready(), 3000)];
    let r = wait(&mut entries, Timeout::Infinite, 0, &scans);
    assert_eq!(r, Ok(WaitOutcome::Pending));
    assert_eq!(entries[0].revents, 0);
}

#[test]
fn immediate_timeout_performs_exactly_one_scan() {
    // the second scan would report readiness; an immediate wait must never
    // reach it, so the result is decided by the first scan alone
    let mut entries = vec![entry(4, POLL_IN)];
    let scans = vec![scan(vec![ready(false, false)], 9), scan(vec![ready(true, false)], 11)];
    let r = wait(&mut entries, Timeout::Immediate, 8, &scans);
    assert_eq!(r, Ok(WaitOutcome::Complete(0)));
    assert_eq!(entries[0].revents, 0);

    // and it matches the run over the one-scan prefix
    let mut entries_prefix = vec![entry(4, POLL_IN)];
    let prefix = vec![scan(vec![ready(false, false)], 9)];
    let r_prefix = wait(&mut entries_prefix, Timeout::Immediate, 8, &prefix);
    assert_eq!(r, r_prefix);
    assert_eq!(entries, entries_prefix);
}

#[test]
fn immediate_wait_is_idempotent() {
    let scans = || vec![scan(vec![ready(true, false), failed()], 21)];
    let mut entries = vec![entry(3, POLL_IN), entry(5, POLL_ERR)];
    let first = wait(&mut entries, Timeout::Immediate, 20, &scans());
    let masks_first: Vec<u16> = entries.iter().map(|e| e.revents).collect();
    // second call reuses the mutated request, as a caller would
    let second = wait(&mut entries, Timeout::Immediate, 20, &scans());
    let masks_second: Vec<u16> = entries.iter().map(|e| e.revents).collect();
    assert_eq!(first, Ok(WaitOutcome::Complete(2)));
    assert_eq!(first, second);
    assert_eq!(masks_first, masks_second);
}

#[test]
fn entry_order_does_not_change_any_entry_result() {
    let mut forward = vec![entry(3, POLL_IN), entry(9, POLL_ERR)];
    let mut backward = vec![entry(9, POLL_ERR), entry(3, POLL_IN)];
    let fwd = wait(&mut forward, Timeout::Immediate, 0, &vec![scan(
        vec![ready(true, true), failed()],
        1,
    )]);
    let bwd = wait(&mut backward, Timeout::Immediate, 0, &vec![scan(
        vec![failed(), ready(true, true)],
        1,
    )]);
    assert_eq!(fwd, Ok(WaitOutcome::Complete(2)));
    assert_eq!(bwd, Ok(WaitOutcome::Complete(2)));
    assert_eq!(forward[0].revents, backward[1].revents);
    assert_eq!(forward[1].revents, backward[0].revents);
}

#[test]
fn result_masks_respect_the_interest_mask() {
    // readable and writable both on, but the caller only asked for writable
    assert_eq!(entry_mask(POLL_OUT, &ready(true, true)), POLL_OUT);
    // interest in both gets both bits
    assert_eq!(entry_mask(POLL_IN | POLL_OUT, &ready(true, true)), POLL_IN | POLL_OUT);
    // no readiness reports nothing
    assert_eq!(entry_mask(POLL_IN | POLL_OUT, &ready(false, false)), 0);
    // a lookup failure reports the error bit exactly when asked for
    assert_eq!(entry_mask(POLL_IN | POLL_ERR, &failed()), POLL_ERR);
    assert_eq!(entry_mask(POLL_IN, &failed()), 0);
}

#[test]
fn poll_all_rewrites_masks_and_counts_reporting_entries() {
    let mut entries = vec![
        entry(0, POLL_IN),
        entry(1, POLL_OUT),
        entry(2, POLL_IN | POLL_ERR),
        entry(3, POLL_IN),
    ];
    // stale bits from an earlier scan must be overwritten, not kept
    entries[3].revents = POLL_IN;
    let replies = vec![ready(true, false), ready(false, true), failed(), ready(false, false)];
    let count = poll_all(&mut entries, &replies);
    assert_eq!(count, 3);
    assert_eq!(entries[0].revents, POLL_IN);
    assert_eq!(entries[1].revents, POLL_OUT);
    assert_eq!(entries[2].revents, POLL_ERR);
    assert_eq!(entries[3].revents, 0);
}

#[test]
fn wait_step_decides_ready_timeout_or_retry() {
    let mut entries = vec![entry(1, POLL_IN)];
    let s = wait_step(&mut entries, &vec![ready(true, false)], Some(10), 4);
    assert_eq!(s, WaitStep::Ready(1));

    let mut entries = vec![entry(1, POLL_IN)];
    let s = wait_step(&mut entries, &vec![ready(false, false)], Some(10), 10);
    assert_eq!(s, WaitStep::TimedOut);

    let mut entries = vec![entry(1, POLL_IN)];
    let s = wait_step(&mut entries, &vec![ready(false, false)], Some(10), 9);
    assert_eq!(s, WaitStep::Retry);

    let mut entries = vec![entry(1, POLL_IN)];
    let s = wait_step(&mut entries, &vec![ready(false, false)], None, 999);
    assert_eq!(s, WaitStep::Retry);
}

#[test]
fn timeout_argument_parses_by_sign() {
    assert_eq!(timeout_from_millis(-1), Timeout::Infinite);
    assert_eq!(timeout_from_millis(i32::MIN), Timeout::Infinite);
    assert_eq!(timeout_from_millis(0), Timeout::Immediate);
    assert_eq!(timeout_from_millis(17), Timeout::Relative(17));
    assert_eq!(timeout_from_millis(i32::MAX), Timeout::Relative(i32::MAX as u32));
}

#[test]
fn deadline_is_derived_once_from_entry_time() {
    assert_eq!(deadline_after(Timeout::Infinite, 42), None);
    assert_eq!(deadline_after(Timeout::Immediate, 42), Some(42));
    assert_eq!(deadline_after(Timeout::Relative(8), 42), Some(50));
}
