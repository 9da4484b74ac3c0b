//! The multiplexed wait orchestrator.
//!
//! A wait request is an ordered sequence of entries, each naming a
//! descriptor and an interest mask over the events readable, writable and
//! error.  One *scan* queries the readiness oracle once per entry and
//! rewrites that entry's result mask from the oracle's answer alone; the
//! orchestrator repeats scans, cooperatively yielding in between, until an
//! entry has an event to report or the deadline derived from the caller's
//! timeout has passed.

use vstd::prelude::*;

verus! {

/// Interest / result bit for "descriptor is readable".
pub const POLL_IN: u16 = 0x1;

/// Interest / result bit for "descriptor is writable".
pub const POLL_OUT: u16 = 0x4;

/// Interest / result bit for "descriptor lookup failed".
pub const POLL_ERR: u16 = 0x8;

/// One entry of a wait request: a descriptor, the events the caller wants
/// reported (`events`), and the events found by the most recent scan
/// (`revents`).
#[derive(Clone, Copy, PartialEq, Eq, Structural, Debug)]
pub struct PollEntry {
    pub fd: i32,
    pub events: u16,
    pub revents: u16,
}

/// The readiness oracle's answer for one live descriptor: two independent
/// level-triggered flags.
#[derive(Clone, Copy, PartialEq, Eq, Structural, Debug)]
pub struct PollState {
    pub readable: bool,
    pub writable: bool,
}

/// The readiness oracle's failure for one descriptor (invalid or closed
/// handle).  Never a call-level error: it is folded into the entry's
/// result mask when the caller asked for error events.
#[derive(Clone, Copy, PartialEq, Eq, Structural, Debug)]
pub struct LookupError;

/// The result mask a single scan writes into an entry with interest mask
/// `events` when the oracle answers `reply`.
pub open spec fn event_mask(events: u16, reply: Result<PollState, LookupError>) -> u16 {
    match reply {
        Result::Err(_) => if events & POLL_ERR != 0 {
            POLL_ERR
        } else {
            0u16
        },
        Result::Ok(s) => {
            let r = if s.readable && events & POLL_IN != 0 {
                POLL_IN
            } else {
                0u16
            };
            let w = if s.writable && events & POLL_OUT != 0 {
                POLL_OUT
            } else {
                0u16
            };
            r | w
        },
    }
}

/// Computes the result mask for one entry from its interest mask and the
/// oracle's reply for its descriptor.
pub fn entry_mask(events: u16, reply: &Result<PollState, LookupError>) -> (m: u16)
    ensures
        m == event_mask(events, *reply),
{
    match reply {
        Result::Err(_) => if events & POLL_ERR != 0 {
            POLL_ERR
        } else {
            0
        },
        Result::Ok(s) => {
            let r: u16 = if s.readable && events & POLL_IN != 0 {
                POLL_IN
            } else {
                0
            };
            let w: u16 = if s.writable && events & POLL_OUT != 0 {
                POLL_OUT
            } else {
                0
            };
            r | w
        },
    }
}

/// How many entries of `entries` report at least one event.
pub open spec fn ready_count(entries: Seq<PollEntry>) -> nat
    decreases entries.len(),
{
    if entries.len() == 0 {
        0
    } else {
        ready_count(entries.drop_last()) + (if entries.last().revents != 0 {
            1nat
        } else {
            0nat
        })
    }
}

/// The request after one scan: every entry keeps its descriptor and
/// interest mask, and its result mask is recomputed from scratch out of
/// the oracle's reply for its position.
pub open spec fn scan_masks(
    entries: Seq<PollEntry>,
    replies: Seq<Result<PollState, LookupError>>,
) -> Seq<PollEntry> {
    Seq::new(
        entries.len(),
        |i: int|
            (PollEntry {
                fd: entries[i].fd,
                events: entries[i].events,
                revents: event_mask(entries[i].events, replies[i]),
            }),
    )
}

proof fn lemma_ready_count_step(s: Seq<PollEntry>, i: int)
    requires
        0 <= i < s.len(),
    ensures
        ready_count(s.subrange(0, i + 1)) == ready_count(s.subrange(0, i)) + (if s[i].revents != 0 {
            1nat
        } else {
            0nat
        }),
{
    assert(s.subrange(0, i + 1).drop_last() =~= s.subrange(0, i));
    assert(s.subrange(0, i + 1).last() == s[i]);
}

/// No more entries report an event than there are entries.
pub proof fn lemma_ready_count_le_len(s: Seq<PollEntry>)
    ensures
        ready_count(s) <= s.len(),
    decreases s.len(),
{
    if s.len() > 0 {
        lemma_ready_count_le_len(s.drop_last());
    }
}

/// A request in which no entry reports an event has a ready count of zero,
/// and conversely.
pub proof fn lemma_ready_count_zero(s: Seq<PollEntry>)
    ensures
        ready_count(s) == 0 <==> (forall|i: int| 0 <= i < s.len() ==> s[i].revents == 0),
    decreases s.len(),
{
    if s.len() > 0 {
        let d = s.drop_last();
        lemma_ready_count_zero(d);
        if ready_count(s) == 0 {
            assert forall|i: int| 0 <= i < s.len() implies s[i].revents == 0 by {
                if i < s.len() - 1 {
                    assert(d[i] == s[i]);
                    assert(d[i].revents == 0);
                } else {
                    assert(s.last() == s[i]);
                }
            }
        } else {
            if forall|i: int| 0 <= i < s.len() ==> #[trigger] s[i].revents == 0 {
                assert forall|i: int| 0 <= i < d.len() implies #[trigger] d[i].revents == 0 by {
                    assert(d[i] == s[i]);
                    assert(s[i].revents == 0);
                }
                assert(s[s.len() - 1].revents == 0);
                assert(ready_count(s) == 0);
            }
        }
    }
}

/// The caller's wait policy.  Instants and durations are millisecond
/// ticks of the collaborating monotonic clock.
#[derive(Clone, Copy, PartialEq, Eq, Structural, Debug)]
pub enum Timeout {
    /// Block until some entry reports an event, however long that takes.
    Infinite,
    /// Scan once and return, never yielding.
    Immediate,
    /// Block at most this many milliseconds.
    Relative(u32),
}

/// The single call-level error: all per-descriptor problems are reported
/// through entry result masks instead.
#[derive(Clone, Copy, PartialEq, Eq, Structural, Debug)]
pub enum PollError {
    /// The request held no entries.  An empty request is a caller error,
    /// not a wait-forever request.
    InvalidArgument,
}

/// The duration a relative timeout asks for; zero for the other policies.
pub open spec fn timeout_millis(timeout: Timeout) -> int {
    match timeout {
        Timeout::Relative(ms) => ms as int,
        _ => 0,
    }
}

/// The absolute deadline a wait derives once at entry from the clock
/// reading `entry_now`: none for an infinite wait, `entry_now` itself for
/// an immediate one (already passed), and `entry_now + duration` for a
/// relative one.
pub open spec fn deadline_for(timeout: Timeout, entry_now: u64) -> Option<u64> {
    match timeout {
        Timeout::Infinite => Option::None,
        Timeout::Immediate => Option::Some(entry_now),
        Timeout::Relative(ms) => Option::Some((entry_now + ms) as u64),
    }
}

/// Whether the deadline, if there is one, has passed at clock reading
/// `now`.
pub open spec fn expired(deadline: Option<u64>, now: u64) -> bool {
    match deadline {
        Option::Some(d) => now >= d,
        Option::None => false,
    }
}

/// Parses the caller-facing timeout argument: a negative value blocks
/// forever, zero scans once, a positive value blocks at most that many
/// milliseconds.
pub fn timeout_from_millis(timeout: i32) -> (t: Timeout)
    ensures
        timeout < 0 ==> t == Timeout::Infinite,
        timeout == 0 ==> t == Timeout::Immediate,
        timeout > 0 ==> t == Timeout::Relative(timeout as u32),
{
    if timeout < 0 {
        Timeout::Infinite
    } else if timeout == 0 {
        Timeout::Immediate
    } else {
        Timeout::Relative(timeout as u32)
    }
}

/// Computes the absolute deadline for a wait entered at clock reading
/// `entry_now`.
pub fn deadline_after(timeout: Timeout, entry_now: u64) -> (d: Option<u64>)
    requires
        entry_now + timeout_millis(timeout) <= u64::MAX,
    ensures
        d == deadline_for(timeout, entry_now),
{
    match timeout {
        Timeout::Infinite => None,
        Timeout::Immediate => Some(entry_now),
        Timeout::Relative(ms) => Some(entry_now + ms as u64),
    }
}

/// Validates a wait request: the one call-level check, made once before
/// any scan.
pub fn check_request(entries: &Vec<PollEntry>) -> (r: Result<(), PollError>)
    ensures
        r is Ok <==> entries@.len() > 0,
        r is Err ==> r == Result::<(), PollError>::Err(PollError::InvalidArgument),
{
    if entries.len() == 0 {
        Err(PollError::InvalidArgument)
    } else {
        Ok(())
    }
}

/// What the orchestrator does after one scan.
#[derive(Clone, Copy, PartialEq, Eq, Structural, Debug)]
pub enum WaitStep {
    /// Some entries report events: return their count to the caller.
    Ready(usize),
    /// Nothing is ready and the deadline has passed: return zero.
    TimedOut,
    /// Nothing is ready and time remains: yield, then scan again.
    Retry,
}

/// The decision after a scan that left `count` entries reporting events,
/// when the clock read `now` against `deadline`.
pub open spec fn step_decision(count: nat, deadline: Option<u64>, now: u64) -> WaitStep {
    if count > 0 {
        WaitStep::Ready(count as usize)
    } else if expired(deadline, now) {
        WaitStep::TimedOut
    } else {
        WaitStep::Retry
    }
}

/// One iteration of the wait loop: scans the request with the replies the
/// oracle gave for this pass, then decides whether the wait is over.  The
/// caller yields and rescans exactly when `Retry` comes back.
pub fn wait_step(
    entries: &mut Vec<PollEntry>,
    replies: &Vec<Result<PollState, LookupError>>,
    deadline: Option<u64>,
    now: u64,
) -> (s: WaitStep)
    requires
        old(entries)@.len() == replies@.len(),
    ensures
        final(entries)@ == scan_masks(old(entries)@, replies@),
        s == step_decision(ready_count(final(entries)@), deadline, now),
{
    let count = poll_all(entries, replies);
    proof {
        lemma_ready_count_le_len(entries@);
    }
    if count > 0 {
        WaitStep::Ready(count)
    } else {
        let timed_out = match deadline {
            Some(d) => now >= d,
            None => false,
        };
        if timed_out {
            WaitStep::TimedOut
        } else {
            WaitStep::Retry
        }
    }
}

/// One full scan of the request.  Queries nothing itself: the oracle's
/// replies, one per entry in order, are handed in.  Rewrites every entry's
/// result mask from its reply alone and returns how many entries now
/// report at least one event.
pub fn poll_all(
    entries: &mut Vec<PollEntry>,
    replies: &Vec<Result<PollState, LookupError>>,
) -> (count: usize)
    requires
        old(entries)@.len() == replies@.len(),
    ensures
        final(entries)@ == scan_masks(old(entries)@, replies@),
        count == ready_count(final(entries)@),
{
    let ghost e0 = entries@;
    let n = entries.len();
    let mut count: usize = 0;
    let mut i: usize = 0;
    while i < n
        invariant
            i <= n,
            n == entries@.len(),
            e0.len() == n,
            replies@.len() == n,
            forall|j: int| 0 <= j < i ==> entries@[j] == scan_masks(e0, replies@)[j],
            forall|j: int| i <= j < n ==> entries@[j] == e0[j],
            count == ready_count(entries@.subrange(0, i as int)),
            count <= i,
        decreases n - i,
    {
        let ghost pre = entries@;
        let events = entries[i].events;
        let m = entry_mask(events, &replies[i]);
        let mut updated = entries[i];
        updated.revents = m;
        entries.set(i, updated);
        if m != 0 {
            count = count + 1;
        }
        proof {
            assert(entries@.subrange(0, i as int) =~= pre.subrange(0, i as int));
            lemma_ready_count_step(entries@, i as int);
        }
        i = i + 1;
    }
    proof {
        assert(entries@ =~= scan_masks(e0, replies@));
        assert(entries@.subrange(0, n as int) =~= entries@);
    }
    count
}

/// What the readiness oracle and the clock answered during one scan of
/// the wait loop: one reply per entry, in entry order, and the clock
/// reading taken right after the scan.
#[derive(Debug)]
pub struct ScanRecord {
    pub replies: Vec<Result<PollState, LookupError>>,
    pub now: u64,
}

/// How a wait over a recorded sequence of scans ended.
#[derive(Clone, Copy, PartialEq, Eq, Structural, Debug)]
pub enum WaitOutcome {
    /// The wait returned to the caller with this ready count: positive
    /// when entries reported events, zero when the deadline passed first.
    Complete(usize),
    /// Every recorded scan ended in a yield; the wait is still blocked.
    Pending,
}

/// The request as it stands when the wait loop stops or the recorded
/// scans run out: the masks written by the last scan executed.
pub open spec fn run_masks(
    entries: Seq<PollEntry>,
    deadline: Option<u64>,
    scans: Seq<ScanRecord>,
) -> Seq<PollEntry>
    decreases scans.len(),
{
    if scans.len() == 0 {
        entries
    } else {
        let after = scan_masks(entries, scans[0].replies@);
        if step_decision(ready_count(after), deadline, scans[0].now) is Retry {
            run_masks(after, deadline, scans.drop_first())
        } else {
            after
        }
    }
}

/// The ready count the wait loop returns over the recorded scans: `Some`
/// with the count of reporting entries as soon as a scan finds one, `Some`
/// of zero at the first scan that sees the deadline passed, `None` when
/// every recorded scan ends in a yield.
pub open spec fn run_outcome(
    entries: Seq<PollEntry>,
    deadline: Option<u64>,
    scans: Seq<ScanRecord>,
) -> Option<nat>
    decreases scans.len(),
{
    if scans.len() == 0 {
        Option::None
    } else {
        let after = scan_masks(entries, scans[0].replies@);
        let c = ready_count(after);
        if c > 0 {
            Option::Some(c)
        } else if expired(deadline, scans[0].now) {
            Option::Some(0nat)
        } else {
            run_outcome(after, deadline, scans.drop_first())
        }
    }
}

/// Runs the wait loop over the scans recorded in `scans`: validates the
/// request, derives the deadline once from the clock reading `entry_now`
/// taken at entry, then for each recorded scan rewrites the result masks
/// and decides whether to return.  `Complete` carries the ready count
/// handed to the caller; `Pending` means every recorded scan ended in a
/// yield and the live loop would go on scanning.
pub fn wait(
    entries: &mut Vec<PollEntry>,
    timeout: Timeout,
    entry_now: u64,
    scans: &Vec<ScanRecord>,
) -> (r: Result<WaitOutcome, PollError>)
    requires
        forall|i: int|
            0 <= i < scans@.len() ==> #[trigger] scans@[i].replies@.len() == old(entries)@.len(),
        entry_now + timeout_millis(timeout) <= u64::MAX,
    ensures
        old(entries)@.len() == 0 ==> r == Result::<WaitOutcome, PollError>::Err(
            PollError::InvalidArgument,
        ) && final(entries)@ == old(entries)@,
        old(entries)@.len() > 0 ==> r is Ok && final(entries)@ == run_masks(
            old(entries)@,
            deadline_for(timeout, entry_now),
            scans@,
        ) && (match run_outcome(old(entries)@, deadline_for(timeout, entry_now), scans@) {
            Option::Some(c) => r == Result::<WaitOutcome, PollError>::Ok(
                WaitOutcome::Complete(c as usize),
            ),
            Option::None => r == Result::<WaitOutcome, PollError>::Ok(WaitOutcome::Pending),
        }),
{
    let ghost e0 = entries@;
    let ghost dl = deadline_for(timeout, entry_now);
    if entries.len() == 0 {
        return Err(PollError::InvalidArgument);
    }
    let deadline = deadline_after(timeout, entry_now);
    let n_scans = scans.len();
    proof {
        assert(scans@.skip(0) =~= scans@);
    }
    let mut k: usize = 0;
    while k < n_scans
        invariant
            k <= n_scans,
            n_scans == scans@.len(),
            e0 == old(entries)@,
            e0.len() > 0,
            dl == deadline_for(timeout, entry_now),
            deadline == dl,
            entries@.len() == e0.len(),
            forall|i: int|
                0 <= i < scans@.len() ==> #[trigger] scans@[i].replies@.len() == e0.len(),
            forall|i: int|
                0 <= i < e0.len() ==> entries@[i].fd == e0[i].fd && entries@[i].events
                    == e0[i].events,
            run_masks(e0, dl, scans@) == run_masks(entries@, dl, scans@.skip(k as int)),
            run_outcome(e0, dl, scans@) == run_outcome(entries@, dl, scans@.skip(k as int)),
        decreases n_scans - k,
    {
        let ghost pre = entries@;
        let ghost rest = scans@.skip(k as int);
        let rec = &scans[k];
        let s = wait_step(entries, &rec.replies, deadline, rec.now);
        proof {
            assert(rest[0] == scans@[k as int]);
            assert(scan_masks(pre, rest[0].replies@) =~= scan_masks(e0, rest[0].replies@));
            assert(entries@ == scan_masks(pre, scans@[k as int].replies@));
        }
        match s {
            WaitStep::Ready(c) => {
                proof {
                    lemma_ready_count_le_len(entries@);
                    assert(run_masks(pre, dl, rest) == entries@);
                    assert(run_outcome(pre, dl, rest) == Option::Some(ready_count(entries@)));
                }
                return Ok(WaitOutcome::Complete(c));
            },
            WaitStep::TimedOut => {
                proof {
                    assert(run_masks(pre, dl, rest) == entries@);
                    assert(run_outcome(pre, dl, rest) == Option::Some(0nat));
                }
                return Ok(WaitOutcome::Complete(0));
            },
            WaitStep::Retry => {
                proof {
                    assert(rest.drop_first() =~= scans@.skip(k as int + 1));
                    assert(run_masks(pre, dl, rest) == run_masks(entries@, dl, rest.drop_first()));
                    assert(run_outcome(pre, dl, rest) == run_outcome(
                        entries@,
                        dl,
                        rest.drop_first(),
                    ));
                }
            },
        }
        k = k + 1;
    }
    proof {
        assert(scans@.skip(n_scans as int) =~= Seq::<ScanRecord>::empty());
    }
    Ok(WaitOutcome::Pending)
}

/// A scan reports only events the caller asked for: a result mask never
/// holds a bit outside the entry's interest mask, except the error bit,
/// which is reported whenever the caller's interest mask includes it.
pub proof fn lemma_mask_within_interest(events: u16, reply: Result<PollState, LookupError>)
    ensures
        event_mask(events, reply) & !(events | POLL_ERR) == 0,
{
    match reply {
        Result::Err(_) => {
            let m = if events & POLL_ERR != 0 {
                POLL_ERR
            } else {
                0u16
            };
            assert(m & !(events | POLL_ERR) == 0) by (bit_vector)
                requires
                    m == 8u16 || m == 0u16,
            ;
        },
        Result::Ok(s) => {
            let r = if s.readable && events & POLL_IN != 0 {
                POLL_IN
            } else {
                0u16
            };
            let w = if s.writable && events & POLL_OUT != 0 {
                POLL_OUT
            } else {
                0u16
            };
            assert((r | w) & !(events | 8u16) == 0) by (bit_vector)
                requires
                    (r == 1u16 && events & 1u16 != 0) || r == 0u16,
                    (w == 4u16 && events & 4u16 != 0) || w == 0u16,
            ;
        },
    }
}

/// An immediate wait performs exactly one scan and never yields: with the
/// deadline already passed at entry, the first scan's decision is final —
/// its masks are the masks handed back, and its ready count (possibly
/// zero) is the count returned — however many further scans the oracle
/// could have answered.
pub proof fn lemma_immediate_single_scan(
    entries: Seq<PollEntry>,
    entry_now: u64,
    scans: Seq<ScanRecord>,
)
    requires
        scans.len() >= 1,
        scans[0].now >= entry_now,
    ensures
        ({
            let dl = deadline_for(Timeout::Immediate, entry_now);
            let after = scan_masks(entries, scans[0].replies@);
            run_masks(entries, dl, scans) == after && run_outcome(entries, dl, scans)
                == Option::Some(ready_count(after)) && step_decision(
                ready_count(after),
                dl,
                scans[0].now,
            ) != WaitStep::Retry
        }),
{
}

/// A request whose single entry wants readable events returns a ready
/// count of one on the first scan whenever the oracle reports the
/// descriptor readable, with the readable bit set in the entry's result
/// mask — under every timeout policy.
pub proof fn lemma_single_readable_ready(
    entries: Seq<PollEntry>,
    deadline: Option<u64>,
    scans: Seq<ScanRecord>,
    s: PollState,
)
    requires
        entries.len() == 1,
        entries[0].events & POLL_IN != 0,
        scans.len() >= 1,
        scans[0].replies@.len() == 1,
        scans[0].replies@[0] == Result::<PollState, LookupError>::Ok(s),
        s.readable,
    ensures
        run_outcome(entries, deadline, scans) == Option::Some(1nat),
        run_masks(entries, deadline, scans).len() == 1,
        run_masks(entries, deadline, scans)[0].revents & POLL_IN != 0,
{
    let after = scan_masks(entries, scans[0].replies@);
    let w = if s.writable && entries[0].events & POLL_OUT != 0 {
        POLL_OUT
    } else {
        0u16
    };
    assert(after[0].revents == POLL_IN | w);
    assert((1u16 | w) & 1u16 != 0 && (1u16 | w) != 0) by (bit_vector)
        requires
            w == 4u16 || w == 0u16,
    ;
    assert(ready_count(after) == 1) by {
        assert(after[0].revents != 0);
        let d = after.drop_last();
        assert(d =~= Seq::<PollEntry>::empty());
        assert(ready_count(d) == 0);
        assert(after.last() == after[0]);
    }
}

/// With a deadline and an oracle that never reports readiness, the wait
/// returns a ready count of zero at the first scan that runs at or after
/// the deadline, and every entry's result mask stays empty.
pub proof fn lemma_never_ready_times_out(
    entries: Seq<PollEntry>,
    deadline: u64,
    scans: Seq<ScanRecord>,
)
    requires
        scans.len() >= 1,
        forall|i: int|
            0 <= i < scans.len() ==> #[trigger] scans[i].replies@.len() == entries.len(),
        forall|i: int, j: int|
            0 <= i < scans.len() && 0 <= j < entries.len() ==> event_mask(
                #[trigger] entries[j].events,
                #[trigger] scans[i].replies@[j],
            ) == 0,
        scans[scans.len() - 1].now >= deadline,
    ensures
        run_outcome(entries, Option::Some(deadline), scans) == Option::Some(0nat),
        run_masks(entries, Option::Some(deadline), scans).len() == entries.len(),
        forall|j: int|
            0 <= j < entries.len() ==> #[trigger] run_masks(
                entries,
                Option::Some(deadline),
                scans,
            )[j].revents == 0,
    decreases scans.len(),
{
    let dl = Option::Some(deadline);
    let after = scan_masks(entries, scans[0].replies@);
    assert(forall|j: int| 0 <= j < after.len() ==> #[trigger] after[j].revents == 0);
    lemma_ready_count_zero(after);
    if !expired(dl, scans[0].now) {
        let rest = scans.drop_first();
        assert(scans.len() >= 2);
        assert forall|i: int, j: int|
            0 <= i < rest.len() && 0 <= j < after.len() implies event_mask(
            #[trigger] after[j].events,
            #[trigger] rest[i].replies@[j],
        ) == 0 by {
            assert(rest[i] == scans[i + 1]);
            assert(after[j].events == entries[j].events);
            assert(event_mask(entries[j].events, scans[i + 1].replies@[j]) == 0);
        }
        assert forall|i: int| 0 <= i < rest.len() implies #[trigger] rest[i].replies@.len()
            == after.len() by {
            assert(rest[i] == scans[i + 1]);
        }
        assert(rest[rest.len() - 1] == scans[scans.len() - 1]);
        lemma_never_ready_times_out(after, deadline, rest);
    }
}

/// A scan's result masks and ready count depend only on the entries'
/// interest masks and the oracle's replies, never on the result masks the
/// entries carried in: repeating a wait against the same oracle state
/// gives identical results.
pub proof fn lemma_scan_ignores_prior_results(
    e1: Seq<PollEntry>,
    e2: Seq<PollEntry>,
    replies: Seq<Result<PollState, LookupError>>,
)
    requires
        e1.len() == e2.len(),
        forall|i: int|
            0 <= i < e1.len() ==> #[trigger] e1[i].fd == e2[i].fd && e1[i].events == e2[i].events,
    ensures
        scan_masks(e1, replies) == scan_masks(e2, replies),
        ready_count(scan_masks(e1, replies)) == ready_count(scan_masks(e2, replies)),
{
    assert(scan_masks(e1, replies) =~= scan_masks(e2, replies));
}

/// Repeating an immediate wait against the same oracle state gives
/// identical result masks and an identical ready count, whatever result
/// masks the request carried in from the earlier call and whenever the
/// two calls entered: an immediate wait is decided by its one scan alone.
pub proof fn lemma_immediate_wait_idempotent(
    e1: Seq<PollEntry>,
    e2: Seq<PollEntry>,
    now1: u64,
    now2: u64,
    scans1: Seq<ScanRecord>,
    scans2: Seq<ScanRecord>,
)
    requires
        e1.len() == e2.len(),
        forall|i: int|
            0 <= i < e1.len() ==> #[trigger] e1[i].fd == e2[i].fd && e1[i].events == e2[i].events,
        scans1.len() >= 1,
        scans2.len() >= 1,
        scans1[0].now >= now1,
        scans2[0].now >= now2,
        scans1[0].replies@ == scans2[0].replies@,
    ensures
        run_masks(e1, deadline_for(Timeout::Immediate, now1), scans1) == run_masks(
            e2,
            deadline_for(Timeout::Immediate, now2),
            scans2,
        ),
        run_outcome(e1, deadline_for(Timeout::Immediate, now1), scans1) == run_outcome(
            e2,
            deadline_for(Timeout::Immediate, now2),
            scans2,
        ),
{
    lemma_immediate_single_scan(e1, now1, scans1);
    lemma_immediate_single_scan(e2, now2, scans2);
    lemma_scan_ignores_prior_results(e1, e2, scans1[0].replies@);
}

/// The position an entry occupies in the request never changes what a
/// scan writes into it: an entry with the same interest mask and the same
/// oracle reply gets the same result mask at any position of any request.
pub proof fn lemma_entry_mask_order_independent(
    e1: Seq<PollEntry>,
    r1: Seq<Result<PollState, LookupError>>,
    i: int,
    e2: Seq<PollEntry>,
    r2: Seq<Result<PollState, LookupError>>,
    j: int,
)
    requires
        0 <= i < e1.len(),
        0 <= j < e2.len(),
        e1[i].events == e2[j].events,
        r1[i] == r2[j],
    ensures
        scan_masks(e1, r1)[i].revents == scan_masks(e2, r2)[j].revents,
{
}

} // verus!
