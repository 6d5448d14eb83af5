//! The backfill state machine: a cursor that walks back one day at a time, a
//! circuit breaker on days that fail in a row, and an optional cap on days
//! that succeed.

use vstd::prelude::*;
use crate::day::{in_calendar, Day, MAX_EPOCH_DAY, MIN_EPOCH_DAY};

verus! {

/// Failed days in a row after which a run gives up, unless told otherwise.
pub const DEFAULT_ERROR_THRESHOLD: u64 = 10;

/// Days that an open-ended run reaches back from its first day.
pub const DEFAULT_RANGE_DAYS: i64 = 365;

/// Why a run stopped.
#[derive(Debug, Clone, Copy, PartialEq, Eq, Structural)]
pub enum StopReason {
    /// The cap on successful days was reached.
    LimitReached,
    /// As many days in a row failed as the threshold allows.
    ErrorThreshold,
    /// The cursor passed the end of the range.
    RangeExhausted,
    /// The observer asked the run to end.
    Cancelled,
}

/// Where a run stands.
#[derive(Debug, Clone, Copy, PartialEq, Eq, Structural)]
pub enum RunState {
    Idle,
    Running,
    Stopped(StopReason),
}

/// The cursor of a run, as it stands at one moment.
#[derive(Debug, Clone, Copy, PartialEq, Eq, Structural)]
pub struct BackfillCursor {
    /// The day being processed; none once the cursor has walked past the
    /// first day of the calendar.
    pub current: Option<Day>,
    /// Days that succeeded so far.
    pub successes: u64,
    /// Days that failed in a row, up to now.
    pub consecutive_failures: u64,
    /// The cap on successful days, if there is one.
    pub cap: Option<u64>,
}

/// What the scheduler wants done next.
#[derive(Debug, Clone, Copy, PartialEq, Eq, Structural)]
pub enum Action {
    /// The run was not started: nothing to do.
    Wait,
    /// Fetch the file of this day and report how it went.
    Fetch(Day),
    /// The run is over.
    Stop(StopReason),
}

/// The mathematical content of a scheduler. Days are numbers of days since
/// 1 January 1970.
pub struct SchedulerView {
    pub state: RunState,
    /// The day that the cursor stands on: the next to fetch.
    pub position: int,
    /// The first day of the run.
    pub origin: int,
    /// The last day of the range: the cursor stops once it is before it.
    pub end: int,
    /// Days that succeeded so far.
    pub successes: nat,
    /// Days that failed in a row, up to now.
    pub failures: nat,
    /// The cap on successful days, if there is one.
    pub cap: Option<nat>,
    /// Failed days in a row at which the run gives up.
    pub threshold: nat,
}

/// The day on which a fresh run starts: the day before the earliest day that
/// the store holds, and `yesterday` where it holds none.
pub open spec fn resume_position(earliest: Option<int>, yesterday: int) -> int {
    match earliest {
        Some(day) => day - 1,
        None => yesterday,
    }
}

/// The last day of an open-ended run that starts on `origin`: a year before
/// it, and the first day of the calendar where that would lie before it.
pub open spec fn open_end(origin: int) -> int {
    if origin - DEFAULT_RANGE_DAYS >= MIN_EPOCH_DAY {
        origin - DEFAULT_RANGE_DAYS
    } else {
        MIN_EPOCH_DAY as int
    }
}

impl SchedulerView {
    /// Why a running scheduler stops now, if it does. The checks are made in
    /// this order: the request to end, the range, the cap, the threshold.
    pub open spec fn stop_reason(self, cancel: bool) -> Option<StopReason> {
        if cancel {
            Some(StopReason::Cancelled)
        } else if self.position < self.end {
            Some(StopReason::RangeExhausted)
        } else if self.cap is Some && self.successes >= self.cap.unwrap() {
            Some(StopReason::LimitReached)
        } else if self.failures >= self.threshold {
            Some(StopReason::ErrorThreshold)
        } else {
            None
        }
    }

    /// Whether a fetch is due: the run is on and nothing stops it.
    pub open spec fn due(self) -> bool {
        self.state == RunState::Running && self.stop_reason(false) is None
    }

    /// The scheduler after it was asked what to do next.
    pub open spec fn polled(self, cancel: bool) -> SchedulerView {
        match self.state {
            RunState::Running => match self.stop_reason(cancel) {
                Some(reason) => SchedulerView { state: RunState::Stopped(reason), ..self },
                None => self,
            },
            _ => self,
        }
    }

    /// What the scheduler wants done next.
    pub open spec fn action(self, cancel: bool) -> Option<StopReason> {
        match self.polled(cancel).state {
            RunState::Stopped(reason) => Some(reason),
            _ => None,
        }
    }

    /// The number of the attempt that is due, counted from 1.
    pub open spec fn attempt_number(self) -> int {
        self.origin - self.position + 1
    }

    /// The scheduler after the day that was due failed: one more failure in a
    /// row, the cursor a day back. Where no fetch is due, nothing changes.
    pub open spec fn after_failure(self) -> SchedulerView {
        if self.due() {
            SchedulerView { failures: self.failures + 1, position: self.position - 1, ..self }
        } else {
            self
        }
    }

    /// The scheduler after the day that was due succeeded: one more success,
    /// no failures in a row, the cursor a day back. Where no fetch is due,
    /// nothing changes.
    pub open spec fn after_success(self) -> SchedulerView {
        if self.due() {
            SchedulerView {
                successes: self.successes + 1,
                failures: 0,
                position: self.position - 1,
                ..self
            }
        } else {
            self
        }
    }

    /// The scheduler after the day that was due ended as `success` tells.
    pub open spec fn settled(self, success: bool) -> SchedulerView {
        if success {
            self.after_success()
        } else {
            self.after_failure()
        }
    }

    /// The scheduler after a run in which the fetches end as `results` tell,
    /// one after the other: it is asked, the day is settled, and so on until
    /// it stops or the results are used up; then it is asked once more.
    pub open spec fn run(self, results: Seq<bool>) -> SchedulerView
        decreases results.len(),
    {
        let asked = self.polled(false);
        if results.len() == 0 || asked.state != RunState::Running {
            asked
        } else {
            asked.settled(results[0]).run(results.skip(1))
        }
    }

    /// Whether the numbers fit together: the cursor is at most one day past
    /// the end of the range or has not moved, and no more days were settled
    /// than the cursor walked.
    pub open spec fn consistent(self) -> bool {
        &&& MIN_EPOCH_DAY - 1 <= self.position <= self.origin <= MAX_EPOCH_DAY
        &&& in_calendar(self.end)
        &&& self.position >= self.end - 1 || self.position == self.origin
        &&& self.successes + self.failures <= self.origin - self.position
    }
}

/// A sequence of `n` fetches that all end as `success` tells.
pub open spec fn repeated(success: bool, n: nat) -> Seq<bool> {
    Seq::new(n, |i: int| success)
}

/// Circuit breaker: a running scheduler that is `n` failures short of its
/// threshold, with room for `n` days in its range and its cap not reached,
/// stops for the threshold after exactly `n` failed fetches in a row, and
/// none of them counts as a success.
pub proof fn lemma_circuit_breaker(v: SchedulerView, n: nat)
    requires
        v.state == RunState::Running,
        v.failures + n == v.threshold,
        v.position - n >= v.end,
        v.cap is Some ==> v.successes < v.cap.unwrap(),
    ensures
        v.run(repeated(false, n)).state == RunState::Stopped(StopReason::ErrorThreshold),
        v.run(repeated(false, n)).successes == v.successes,
        v.run(repeated(false, n)).position == v.position - n,
        forall|k: nat| k < n ==> #[trigger] v.run(repeated(false, k)).state == RunState::Running,
    decreases n,
{
    if n > 0 {
        let next = v.after_failure();
        assert(repeated(false, n).skip(1) =~= repeated(false, (n - 1) as nat));
        lemma_circuit_breaker(next, (n - 1) as nat);
        assert forall|k: nat| k < n implies #[trigger] v.run(repeated(false, k)).state
            == RunState::Running by {
            if k > 0 {
                assert(repeated(false, k).skip(1) =~= repeated(false, (k - 1) as nat));
                assert(next.run(repeated(false, (k - 1) as nat)).state == RunState::Running);
            }
        }
    }
}

/// Success cap: a running scheduler that is `n` successes short of its cap,
/// with room for `n` days in its range and its threshold not reached, stops
/// for the cap after exactly `n` successful fetches, however many more the
/// fetcher could serve, and has counted as many successes as the cap allows.
pub proof fn lemma_success_cap(v: SchedulerView, n: nat, served: nat)
    requires
        v.state == RunState::Running,
        v.cap is Some,
        v.successes + n == v.cap.unwrap(),
        v.position - n >= v.end,
        v.failures < v.threshold,
        served >= n,
    ensures
        v.run(repeated(true, served)).state == RunState::Stopped(StopReason::LimitReached),
        v.run(repeated(true, served)).successes == v.cap.unwrap(),
        v.run(repeated(true, served)).position == v.position - n,
    decreases n,
{
    if n > 0 {
        let next = v.after_success();
        assert(repeated(true, served).skip(1) =~= repeated(true, (served - 1) as nat));
        lemma_success_cap(next, (n - 1) as nat, (served - 1) as nat);
    }
}

/// A success closes the circuit breaker: whatever failed before, no failure
/// in a row is left after a day that succeeded, and a failure adds one.
pub proof fn lemma_failures_reset(v: SchedulerView)
    requires
        v.due(),
    ensures
        v.after_success().failures == 0,
        v.after_success().successes == v.successes + 1,
        v.after_failure().failures == v.failures + 1,
        v.after_failure().successes == v.successes,
        v.after_success().position == v.position - 1,
        v.after_failure().position == v.position - 1,
{
}

/// A scheduler: the cursor of one backfill run and the rules that end it.
#[derive(Debug)]
pub struct Scheduler {
    state: RunState,
    position: i64,
    origin: i64,
    end: i64,
    successes: u64,
    failures: u64,
    cap: Option<u64>,
    threshold: u64,
}

/// The cap as a mathematical integer.
pub open spec fn cap_view(cap: Option<u64>) -> Option<nat> {
    match cap {
        Some(c) => Some(c as nat),
        None => None,
    }
}

impl View for Scheduler {
    type V = SchedulerView;

    closed spec fn view(&self) -> SchedulerView {
        SchedulerView {
            state: self.state,
            position: self.position as int,
            origin: self.origin as int,
            end: self.end as int,
            successes: self.successes as nat,
            failures: self.failures as nat,
            cap: cap_view(self.cap),
            threshold: self.threshold as nat,
        }
    }
}

impl Scheduler {
    #[verifier::type_invariant]
    spec fn numbers_fit(self) -> bool {
        self@.consistent()
    }

    /// A scheduler that was not started, with an optional cap on successful
    /// days and the number of failed days in a row at which it gives up.
    pub fn new(cap: Option<u64>, threshold: u64) -> (scheduler: Scheduler)
        ensures
            scheduler@.state == RunState::Idle,
            scheduler@.cap == cap_view(cap),
            scheduler@.threshold == threshold,
            scheduler@.successes == 0,
            scheduler@.failures == 0,
            scheduler@.consistent(),
    {
        Scheduler {
            state: RunState::Idle,
            position: 0,
            origin: 0,
            end: 0,
            successes: 0,
            failures: 0,
            cap,
            threshold,
        }
    }

    /// Starts an open-ended run: from the day before `earliest`, the earliest
    /// day that the store holds, or from `yesterday` where it holds none,
    /// back over a year. Only a scheduler that was not started starts.
    pub fn start(&mut self, earliest: Option<Day>, yesterday: Day)
        ensures
            old(self)@.state != RunState::Idle ==> final(self)@ == old(self)@,
            old(self)@.state == RunState::Idle ==> final(self)@ == (SchedulerView {
                state: RunState::Running,
                position: resume_position(day_view(earliest), yesterday@),
                origin: resume_position(day_view(earliest), yesterday@),
                end: open_end(resume_position(day_view(earliest), yesterday@)),
                successes: 0,
                failures: 0,
                cap: old(self)@.cap,
                threshold: old(self)@.threshold,
            }),
            final(self)@.consistent(),
    {
        proof {
            use_type_invariant(&*self);
        }
        if self.state != RunState::Idle {
            return ;
        }
        let origin: i64 = match earliest {
            Some(day) => day.epoch_days() as i64 - 1,
            None => yesterday.epoch_days() as i64,
        };
        let end: i64 = if origin - DEFAULT_RANGE_DAYS >= MIN_EPOCH_DAY as i64 {
            origin - DEFAULT_RANGE_DAYS
        } else {
            MIN_EPOCH_DAY as i64
        };
        *self = Scheduler {
            state: RunState::Running,
            position: origin,
            origin,
            end,
            successes: 0,
            failures: 0,
            cap: self.cap,
            threshold: self.threshold,
        };
    }

    /// Starts a run from `start` back to `end`, both included. Only a
    /// scheduler that was not started starts.
    pub fn start_range(&mut self, start: Day, end: Day)
        ensures
            old(self)@.state != RunState::Idle ==> final(self)@ == old(self)@,
            old(self)@.state == RunState::Idle ==> final(self)@ == (SchedulerView {
                state: RunState::Running,
                position: start@,
                origin: start@,
                end: end@,
                successes: 0,
                failures: 0,
                cap: old(self)@.cap,
                threshold: old(self)@.threshold,
            }),
            final(self)@.consistent(),
    {
        proof {
            use_type_invariant(&*self);
        }
        if self.state != RunState::Idle {
            return ;
        }
        *self = Scheduler {
            state: RunState::Running,
            position: start.epoch_days() as i64,
            origin: start.epoch_days() as i64,
            end: end.epoch_days() as i64,
            successes: 0,
            failures: 0,
            cap: self.cap,
            threshold: self.threshold,
        };
    }

    /// Why the scheduler stops now, if it runs and does.
    fn reason_to_stop(&self, cancel: bool) -> (reason: Option<StopReason>)
        ensures
            reason == self@.stop_reason(cancel),
    {
        if cancel {
            return Some(StopReason::Cancelled);
        }
        if self.position < self.end {
            return Some(StopReason::RangeExhausted);
        }
        let capped = match self.cap {
            Some(cap) => self.successes >= cap,
            None => false,
        };
        if capped {
            Some(StopReason::LimitReached)
        } else if self.failures >= self.threshold {
            Some(StopReason::ErrorThreshold)
        } else {
            None
        }
    }

    /// Asks what to do next, at the top of an iteration. A running scheduler
    /// stops where `cancel` is set, the cursor is past the range, the cap is
    /// reached or the threshold is, in this order; else it names the day to
    /// fetch. Asking twice without settling the day in between names the same
    /// day again.
    pub fn poll(&mut self, cancel: bool) -> (action: Action)
        ensures
            final(self)@ == old(self)@.polled(cancel),
            final(self)@.consistent(),
            match action {
                Action::Wait => old(self)@.state == RunState::Idle,
                Action::Fetch(day) => final(self)@.due() && day@ == final(self)@.position && !cancel,
                Action::Stop(reason) => final(self)@.state == RunState::Stopped(reason),
            },
    {
        proof {
            use_type_invariant(&*self);
        }
        match self.state {
            RunState::Idle => Action::Wait,
            RunState::Stopped(reason) => Action::Stop(reason),
            RunState::Running => match self.reason_to_stop(cancel) {
                Some(reason) => {
                    self.state = RunState::Stopped(reason);
                    Action::Stop(reason)
                },
                None => {
                    match Day::from_epoch_days(self.position as i32) {
                        Some(day) => Action::Fetch(day),
                        None => Action::Wait,
                    }
                },
            },
        }
    }

    /// Settles the day that is due as failed: one more failure in a row, and
    /// the cursor moves a day back. Where no fetch is due, nothing changes.
    pub fn day_failed(&mut self)
        ensures
            final(self)@ == old(self)@.after_failure(),
            final(self)@.consistent(),
    {
        proof {
            use_type_invariant(&*self);
        }
        if self.state == RunState::Running && self.reason_to_stop(false).is_none() {
            *self = Scheduler {
                state: self.state,
                position: self.position - 1,
                origin: self.origin,
                end: self.end,
                successes: self.successes,
                failures: self.failures + 1,
                cap: self.cap,
                threshold: self.threshold,
            };
        }
    }

    /// Settles the day that is due as succeeded: one more success, no failure
    /// in a row, and the cursor moves a day back. Where no fetch is due,
    /// nothing changes.
    pub fn day_succeeded(&mut self)
        ensures
            final(self)@ == old(self)@.after_success(),
            final(self)@.consistent(),
    {
        proof {
            use_type_invariant(&*self);
        }
        if self.state == RunState::Running && self.reason_to_stop(false).is_none() {
            *self = Scheduler {
                state: self.state,
                position: self.position - 1,
                origin: self.origin,
                end: self.end,
                successes: self.successes + 1,
                failures: 0,
                cap: self.cap,
                threshold: self.threshold,
            };
        }
    }

    /// Where the run stands.
    pub fn state(&self) -> (state: RunState)
        ensures
            state == self@.state,
    {
        self.state
    }

    /// Days that succeeded so far.
    pub fn successes(&self) -> (n: u64)
        ensures
            n == self@.successes,
    {
        self.successes
    }

    /// Days that failed in a row, up to now.
    pub fn consecutive_failures(&self) -> (n: u64)
        ensures
            n == self@.failures,
    {
        self.failures
    }

    /// The cap on successful days, if there is one.
    pub fn cap(&self) -> (cap: Option<u64>)
        ensures
            cap_view(cap) == self@.cap,
            cap == self.spec_cap(),
    {
        self.cap
    }

    /// The cap on successful days as the machine holds it.
    pub closed spec fn spec_cap(&self) -> Option<u64> {
        self.cap
    }

    /// Failed days in a row at which the run gives up.
    pub fn threshold(&self) -> (n: u64)
        ensures
            n == self@.threshold,
    {
        self.threshold
    }

    /// The number of the attempt that is due, counted from 1: days that the
    /// cursor walked, and one.
    pub fn attempt_number(&self) -> (n: u64)
        ensures
            n == self@.attempt_number(),
            self@.consistent(),
    {
        proof {
            use_type_invariant(self);
        }
        (self.origin - self.position + 1) as u64
    }

    /// The day that the cursor stands on, while it has a calendar date.
    pub fn current(&self) -> (day: Option<Day>)
        ensures
            day is Some <==> in_calendar(self@.position),
            day matches Some(d) ==> d@ == self@.position,
    {
        proof {
            use_type_invariant(self);
        }
        Day::from_epoch_days(self.position as i32)
    }

    /// The cursor as it stands.
    pub fn cursor(&self) -> (cursor: BackfillCursor)
        ensures
            cursor.current is Some <==> in_calendar(self@.position),
            cursor.current matches Some(d) ==> d@ == self@.position,
            cursor.successes == self@.successes,
            cursor.consecutive_failures == self@.failures,
            cap_view(cursor.cap) == self@.cap,
    {
        BackfillCursor {
            current: self.current(),
            successes: self.successes,
            consecutive_failures: self.failures,
            cap: self.cap,
        }
    }

    /// The first day of the run.
    pub fn origin(&self) -> (day: Option<Day>)
        ensures
            day is Some <==> in_calendar(self@.origin),
            day matches Some(d) ==> d@ == self@.origin,
    {
        proof {
            use_type_invariant(self);
        }
        Day::from_epoch_days(self.origin as i32)
    }

    /// The last day of the range.
    pub fn end(&self) -> (day: Day)
        ensures
            day@ == self@.end,
    {
        proof {
            use_type_invariant(self);
        }
        match Day::from_epoch_days(self.end as i32) {
            Some(day) => day,
            None => Day::epoch(),
        }
    }
}

/// The number of an optional day.
pub open spec fn day_view(day: Option<Day>) -> Option<int> {
    match day {
        Some(d) => Some(d@),
        None => None,
    }
}

} // verus!
