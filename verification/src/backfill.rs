//! One day of a backfill, from the outcome of its fetch to the rows in the
//! store, and the run that walks day by day.

use vstd::prelude::*;
use crate::archive::{extract_single_member, first_member};
use crate::day::{Day, SECONDS_PER_DAY};
use crate::fetch::{artifact_location, artifact_path, FetchOutcome, OutcomeView};
use crate::mapper::{decode, decoded, ColumnNames, InvalidPayloadError};
use crate::models::{completed_label, AttemptRow, NseDownload};
use crate::progress::{
    announce_line,
    announce_text,
    attempt_line,
    attempt_text,
    completed_line,
    completed_text,
    http_error_line,
    http_error_text,
    invalid_line,
    invalid_text,
    limit_line,
    limit_text,
    messages_of,
    network_error_line,
    network_error_text,
    processing_line,
    processing_text,
    threshold_line,
    threshold_text,
    BhavCopyMessage,
    MessageView,
};
use crate::record::{rows_of, TradingDayRecord, TradingDayRow};
use crate::scheduler::{
    open_end,
    resume_position,
    Action,
    RunState,
    Scheduler,
    SchedulerView,
    StopReason,
};
use crate::store::{
    holds_attempt,
    is_extent,
    recorded,
    upsert,
    MemoryStore,
    StoreView,
    StoreWriteError,
};

verus! {

/// Why a day yielded no rows. To the scheduler they are all one: the day
/// failed.
#[derive(Debug, Clone, Copy, PartialEq, Eq, Structural)]
pub enum DayFailure {
    /// The request did not get through.
    Network,
    /// The remote side answered with no usable content.
    Http,
    /// The archive could not be opened or read.
    CorruptArchive,
    /// The archive's member is no trading-day file.
    InvalidPayload(InvalidPayloadError),
}

/// What a day's fetch came to.
#[derive(Debug, Clone, PartialEq, Eq)]
pub enum DayResult {
    /// The day's rows, and the size of the table they were read from.
    Ingested { rows: Vec<TradingDayRecord>, bytes: usize },
    /// No rows, the reason, and the line that reports it.
    Failed { kind: DayFailure, line: String },
}

/// The mathematical content of what a day's fetch came to.
pub enum DayResultView {
    Ingested { rows: Seq<TradingDayRow>, bytes: nat },
    Failed { kind: DayFailure, line: Seq<char> },
}

impl View for DayResult {
    type V = DayResultView;

    open spec fn view(&self) -> DayResultView {
        match self {
            DayResult::Ingested { rows, bytes } => DayResultView::Ingested {
                rows: rows_of(rows@),
                bytes: *bytes as nat,
            },
            DayResult::Failed { kind, line } => DayResultView::Failed { kind: *kind, line: line@ },
        }
    }
}

/// What the fetch of `day` comes to, given its outcome: a failed fetch is a
/// failed day; a body that is no archive, or whose member fails validation,
/// is a failed day too; else the day yields the rows of its table.
pub open spec fn digested(day: int, outcome: OutcomeView, names: ColumnNames) -> DayResultView {
    match outcome {
        OutcomeView::TransportFailure { reason } => DayResultView::Failed {
            kind: DayFailure::Network,
            line: network_error_text(reason, day),
        },
        OutcomeView::RetryableFailure { reason } => DayResultView::Failed {
            kind: DayFailure::Http,
            line: http_error_text(reason, day),
        },
        OutcomeView::Success { body, content_type } => match first_member(body) {
            None => DayResultView::Failed {
                kind: DayFailure::CorruptArchive,
                line: invalid_text(day),
            },
            Some(member) => match decoded(member, names, day) {
                Err(e) => DayResultView::Failed {
                    kind: DayFailure::InvalidPayload(e),
                    line: invalid_text(day),
                },
                Ok(rows) => DayResultView::Ingested { rows, bytes: member.len() },
            },
        },
    }
}

/// Whether the outcome of a fetch yields rows, whatever the day.
pub open spec fn ingestible(outcome: OutcomeView, names: ColumnNames) -> bool {
    digested(0, outcome, names) is Ingested
}

/// Whether a fetch yields rows does not depend on the day it is for.
pub proof fn lemma_ingestible_any_day(day: int, outcome: OutcomeView, names: ColumnNames)
    ensures
        digested(day, outcome, names) is Ingested <==> ingestible(outcome, names),
{
}

/// Turns the outcome of the fetch of `day` into the day's rows, or into the
/// reason for which it has none and the line that reports it.
pub fn digest(day: Day, outcome: &FetchOutcome, names: &ColumnNames) -> (result: DayResult)
    ensures
        result@ == digested(day@, outcome@, *names),
{
    match outcome {
        FetchOutcome::TransportFailure { reason } => DayResult::Failed {
            kind: DayFailure::Network,
            line: network_error_line(reason.as_str(), day),
        },
        FetchOutcome::RetryableFailure { reason } => DayResult::Failed {
            kind: DayFailure::Http,
            line: http_error_line(reason.as_str(), day),
        },
        FetchOutcome::Success { body, content_type } => match extract_single_member(
            body.as_slice(),
        ) {
            Err(_) => DayResult::Failed {
                kind: DayFailure::CorruptArchive,
                line: invalid_line(day),
            },
            Ok(member) => match decode(member.as_slice(), names, day) {
                Err(e) => DayResult::Failed {
                    kind: DayFailure::InvalidPayload(e),
                    line: invalid_line(day),
                },
                Ok(rows) => DayResult::Ingested { rows, bytes: member.len() },
            },
        },
    }
}

/// The state of a run: its scheduler, its store, what it has reported, and
/// whether a write to the store failed, which ends it.
pub struct RunView {
    pub scheduler: SchedulerView,
    pub store: StoreView,
    pub messages: Seq<MessageView>,
    pub failed: bool,
}

/// The size of a table as a record holds it: none where it is beyond what a
/// record can hold.
pub open spec fn size_view(bytes: nat) -> Option<i64> {
    if bytes <= i64::MAX {
        Some(bytes as i64)
    } else {
        None
    }
}

/// The attempt that a day whose table of `bytes` bytes was ingested leaves
/// in the log: for the whole market, from and to the day's midnight,
/// completed. Its identifier and moment are given by the store.
pub open spec fn day_attempt(day: int, bytes: nat) -> AttemptRow {
    AttemptRow {
        id: 0,
        symbol: None,
        from_date: day * SECONDS_PER_DAY,
        to_date: day * SECONDS_PER_DAY,
        file_path: artifact_location(day),
        file_size: size_view(bytes),
        status: completed_label(),
        error_message: None,
        downloaded_at: 0,
    }
}

/// The event that tells the range of days that `rows` span, where there are
/// rows.
pub open spec fn extent_messages(rows: Seq<TradingDayRow>) -> Seq<MessageView> {
    match crate::store::extent_of(rows, None) {
        Some(p) => seq![MessageView::DateRangeUpdated(p.0, p.1)],
        None => Seq::empty(),
    }
}

/// The store after the rows of `day` were ingested at `now`.
pub open spec fn store_after_day(
    store: StoreView,
    day: int,
    rows: Seq<TradingDayRow>,
    bytes: nat,
    now: int,
) -> StoreView {
    StoreView {
        rows: upsert(store.rows, rows),
        attempts: recorded(store.attempts, day_attempt(day, bytes), now, store.next_id),
        next_id: if holds_attempt(store.attempts, day_attempt(day, bytes).key()) {
            store.next_id
        } else {
            store.next_id + 1
        },
    }
}

/// Whether the store has no identifier left for the attempt of `day`.
pub open spec fn store_is_full(store: StoreView, day: int, bytes: nat) -> bool {
    !holds_attempt(store.attempts, day_attempt(day, bytes).key()) && store.next_id == i64::MAX
}

/// The run after `day` was settled with `result` at `now`.
///
/// A failed day is absorbed: the failure is counted, its line reported, the
/// cursor moves on, and the store is left alone. An ingested day is logged as
/// a completed attempt, its rows are upserted, the success is counted and
/// reported with the range of days that the store holds now. Where the store
/// cannot take the attempt, the run fails and nothing else changes.
pub open spec fn settled_day(run: RunView, day: int, result: DayResultView, now: int) -> RunView {
    match result {
        DayResultView::Failed { kind, line } => RunView {
            scheduler: run.scheduler.after_failure(),
            store: run.store,
            messages: run.messages.push(MessageView::Progress(line)),
            failed: false,
        },
        DayResultView::Ingested { rows, bytes } => if store_is_full(run.store, day, bytes) {
            RunView { failed: true, ..run }
        } else {
            let store = store_after_day(run.store, day, rows, bytes, now);
            let scheduler = run.scheduler.after_success();
            RunView {
                scheduler,
                store,
                messages: run.messages + seq![
                    MessageView::Progress(processing_text(day)),
                    MessageView::Progress(completed_text(day, scheduler.successes)),
                ] + extent_messages(store.rows),
                failed: false,
            }
        },
    }
}

/// The line that tells why a run stopped, where it stopped just now and for
/// its cap or its threshold.
pub open spec fn stop_messages(before: SchedulerView, after: SchedulerView) -> Seq<MessageView> {
    if before.state == RunState::Running {
        match after.state {
            RunState::Stopped(StopReason::LimitReached) => seq![
                MessageView::Progress(limit_text(before.cap.unwrap())),
            ],
            RunState::Stopped(StopReason::ErrorThreshold) => seq![
                MessageView::Progress(threshold_text(before.threshold)),
            ],
            _ => Seq::empty(),
        }
    } else {
        Seq::empty()
    }
}

/// The run after the fetches of its days ended as `outcomes` tell, one after
/// the other. At the top of each iteration the scheduler is asked; where it
/// stops, the run is over; where no outcome is left, the run rests as it is;
/// else the attempt is announced and the day settled. A failed write to the
/// store ends the run at once.
pub open spec fn run_all(run: RunView, outcomes: Seq<OutcomeView>, names: ColumnNames, now: int) -> RunView
    decreases outcomes.len(),
{
    let asked = run.scheduler.polled(false);
    if asked.state != RunState::Running {
        RunView {
            scheduler: asked,
            messages: run.messages + stop_messages(run.scheduler, asked),
            ..run
        }
    } else if outcomes.len() == 0 {
        run
    } else {
        let day = asked.position;
        let opened = RunView {
            messages: run.messages.push(
                MessageView::Progress(
                    attempt_text(
                        day,
                        asked.attempt_number() as nat,
                        asked.successes,
                        asked.failures,
                    ),
                ),
            ),
            ..run
        };
        let next = settled_day(opened, day, digested(day, outcomes[0], names), now);
        if next.failed {
            next
        } else {
            run_all(next, outcomes.skip(1), names, now)
        }
    }
}

/// The contents of a sequence of outcomes.
pub open spec fn outcomes_of(outcomes: Seq<FetchOutcome>) -> Seq<OutcomeView> {
    Seq::new(outcomes.len(), |i: int| outcomes[i]@)
}

/// Settles `day` with what its fetch came to, at `now`, seconds since the
/// epoch: counts it, writes to the store what it yielded, and adds to
/// `messages` what an observer is told. Fails only where the store cannot
/// take the attempt; then nothing has changed.
pub fn settle_day(
    scheduler: &mut Scheduler,
    store: &mut MemoryStore,
    day: Day,
    result: DayResult,
    now: i64,
    messages: &mut Vec<BhavCopyMessage>,
) -> (r: Result<(), StoreWriteError>)
    requires
        old(store).wf(),
    ensures
        final(store).wf(),
        ({
            let before = RunView {
                scheduler: old(scheduler)@,
                store: old(store)@,
                messages: messages_of(old(messages)@),
                failed: false,
            };
            let after = settled_day(before, day@, result@, now as int);
            &&& final(scheduler)@ == after.scheduler
            &&& final(store)@ == after.store
            &&& messages_of(final(messages)@) == after.messages
            &&& r is Err <==> after.failed
        }),
{
    let ghost told = messages_of(messages@);
    match result {
        DayResult::Failed { kind, line } => {
            scheduler.day_failed();
            let message = BhavCopyMessage::Progress(line);
            messages.push(message);
            proof {
                assert(messages_of(messages@) =~= told.push(message@));
            }
            Ok(())
        },
        DayResult::Ingested { rows, bytes } => {
            let wide: u64 = bytes as u64;
            let size: Option<i64> = if wide <= 9_223_372_036_854_775_807u64 {
                Some(wide as i64)
            } else {
                None
            };
            let attempt = NseDownload::completed_day(day.timestamp(), artifact_path(day), size);
            assert(attempt@ == day_attempt(day@, bytes as nat));
            match store.record_attempt(attempt, now) {
                Err(e) => {
                    return Err(e);
                },
                Ok(_) => {},
            }
            let first = BhavCopyMessage::Progress(processing_line(day));
            messages.push(first);
            let _ = store.upsert_trading_day(&rows);
            scheduler.day_succeeded();
            let second = BhavCopyMessage::Progress(completed_line(day, scheduler.successes()));
            messages.push(second);
            proof {
                assert(messages_of(messages@) =~= told + seq![first@, second@]);
            }
            match store.get_date_extent(None) {
                Some((lo, hi)) => {
                    let third = BhavCopyMessage::DateRangeUpdated(lo, hi);
                    messages.push(third);
                    proof {
                        assert(messages_of(messages@) =~= told + seq![first@, second@] + seq![
                            third@,
                        ]);
                    }
                },
                None => {
                    proof {
                        assert(told + seq![first@, second@] + Seq::<MessageView>::empty() =~= told
                            + seq![first@, second@]);
                    }
                },
            }
            Ok(())
        },
    }
}

/// Adds to `messages` the line that tells why the scheduler stopped, where
/// it stopped just now and for its cap or its threshold.
fn report_stop(
    was_running: bool,
    reason: StopReason,
    scheduler: &Scheduler,
    messages: &mut Vec<BhavCopyMessage>,
    Ghost(before): Ghost<SchedulerView>,
)
    requires
        was_running == (before.state == RunState::Running),
        scheduler@ == before.polled(false),
        scheduler@.state == RunState::Stopped(reason),
    ensures
        messages_of(final(messages)@) == messages_of(old(messages)@) + stop_messages(
            before,
            scheduler@,
        ),
{
    let ghost told = messages_of(messages@);
    if was_running {
        match reason {
            StopReason::LimitReached => {
                match scheduler.cap() {
                    Some(cap) => {
                        let message = BhavCopyMessage::Progress(limit_line(cap));
                        messages.push(message);
                        proof {
                            assert(messages_of(messages@) =~= told + seq![message@]);
                        }
                    },
                    None => {},
                }
            },
            StopReason::ErrorThreshold => {
                let message = BhavCopyMessage::Progress(threshold_line(scheduler.threshold()));
                messages.push(message);
                proof {
                    assert(messages_of(messages@) =~= told + seq![message@]);
                }
            },
            _ => {
                proof {
                    assert(told + Seq::<MessageView>::empty() =~= told);
                }
            },
        }
    } else {
        proof {
            assert(told + Seq::<MessageView>::empty() =~= told);
        }
    }
}

/// Runs a backfill against fetches whose outcomes are given in advance, one
/// for each day that the scheduler asks for, in order. The run ends where
/// the scheduler stops or the outcomes are used up; every failed day is
/// absorbed. It fails only where the store cannot take an attempt, and then
/// at once.
pub fn run_backfill(
    scheduler: &mut Scheduler,
    store: &mut MemoryStore,
    names: &ColumnNames,
    outcomes: &Vec<FetchOutcome>,
    now: i64,
    messages: &mut Vec<BhavCopyMessage>,
) -> (r: Result<(), StoreWriteError>)
    requires
        old(store).wf(),
    ensures
        final(store).wf(),
        ({
            let before = RunView {
                scheduler: old(scheduler)@,
                store: old(store)@,
                messages: messages_of(old(messages)@),
                failed: false,
            };
            let after = run_all(before, outcomes_of(outcomes@), *names, now as int);
            &&& final(scheduler)@ == after.scheduler
            &&& final(store)@ == after.store
            &&& messages_of(final(messages)@) == after.messages
            &&& r is Err <==> after.failed
        }),
{
    let ghost all = outcomes_of(outcomes@);
    let ghost start = RunView {
        scheduler: scheduler@,
        store: store@,
        messages: messages_of(messages@),
        failed: false,
    };
    let mut i: usize = 0;
    proof {
        assert(all.skip(0) =~= all);
    }
    loop
        invariant
            0 <= i <= outcomes.len(),
            store.wf(),
            all == outcomes_of(outcomes@),
            start == (RunView {
                scheduler: old(scheduler)@,
                store: old(store)@,
                messages: messages_of(old(messages)@),
                failed: false,
            }),
            run_all(
                RunView {
                    scheduler: scheduler@,
                    store: store@,
                    messages: messages_of(messages@),
                    failed: false,
                },
                all.skip(i as int),
                *names,
                now as int,
            ) == run_all(start, all, *names, now as int),
        decreases outcomes.len() - i,
    {
        let ghost here = RunView {
            scheduler: scheduler@,
            store: store@,
            messages: messages_of(messages@),
            failed: false,
        };
        let was_running = scheduler.state() == RunState::Running;
        match scheduler.poll(false) {
            Action::Wait => {
                proof {
                    assert(here.messages + Seq::<MessageView>::empty() =~= here.messages);
                }
                return Ok(());
            },
            Action::Stop(reason) => {
                report_stop(was_running, reason, scheduler, messages, Ghost(here.scheduler));
                return Ok(());
            },
            Action::Fetch(day) => {
                if i == outcomes.len() {
                    return Ok(());
                }
                let opening = BhavCopyMessage::Progress(
                    attempt_line(
                        day,
                        scheduler.attempt_number(),
                        scheduler.successes(),
                        scheduler.consecutive_failures(),
                    ),
                );
                messages.push(opening);
                proof {
                    assert(messages_of(messages@) =~= here.messages.push(opening@));
                    assert(all.skip(i as int)[0] == outcomes@[i as int]@);
                    assert(all.skip(i as int).skip(1) =~= all.skip(i + 1));
                }
                let result = digest(day, &outcomes[i], names);
                match settle_day(scheduler, store, day, result, now, messages) {
                    Err(e) => {
                        return Err(e);
                    },
                    Ok(_) => {},
                }
                i = i + 1;
            },
        }
    }
}

/// How each of `outcomes` ends a day: with rows, or as a failure.
pub open spec fn results_of(outcomes: Seq<OutcomeView>, names: ColumnNames) -> Seq<bool> {
    Seq::new(outcomes.len(), |i: int| ingestible(outcomes[i], names))
}

/// A run drives its scheduler as the outcomes of its fetches tell: unless a
/// write to the store fails, the scheduler ends where the state machine ends
/// on the successes and failures of the days.
pub proof fn lemma_run_follows_results(
    run: RunView,
    outcomes: Seq<OutcomeView>,
    names: ColumnNames,
    now: int,
)
    requires
        !run_all(run, outcomes, names, now).failed,
    ensures
        run_all(run, outcomes, names, now).scheduler == run.scheduler.run(
            results_of(outcomes, names),
        ),
    decreases outcomes.len(),
{
    let asked = run.scheduler.polled(false);
    if asked.state == RunState::Running && outcomes.len() > 0 {
        let day = asked.position;
        let opened = RunView {
            messages: run.messages.push(
                MessageView::Progress(
                    attempt_text(
                        day,
                        asked.attempt_number() as nat,
                        asked.successes,
                        asked.failures,
                    ),
                ),
            ),
            ..run
        };
        let next = settled_day(opened, day, digested(day, outcomes[0], names), now);
        lemma_ingestible_any_day(day, outcomes[0], names);
        lemma_run_follows_results(next, outcomes.skip(1), names, now);
        assert(results_of(outcomes, names).skip(1) =~= results_of(outcomes.skip(1), names));
        assert(results_of(outcomes, names)[0] == ingestible(outcomes[0], names));
    }
}

/// Whether every whole-market attempt of the log is for a day after
/// `position`: the log holds nothing yet for the days that a cursor at
/// `position` is about to walk.
pub open spec fn log_is_ahead(attempts: Seq<AttemptRow>, position: int) -> bool {
    forall|i: int|
        0 <= i < attempts.len() && (#[trigger] attempts[i]).symbol is None ==> attempts[i].from_date
            > position * SECONDS_PER_DAY
}

/// Days that fail never reach the store: a run whose fetches all fail leaves
/// the rows and the log of attempts as they were, and does not fail itself.
pub proof fn lemma_failed_days_write_nothing(
    run: RunView,
    outcomes: Seq<OutcomeView>,
    names: ColumnNames,
    now: int,
)
    requires
        !run.failed,
        forall|i: int| 0 <= i < outcomes.len() ==> !ingestible(#[trigger] outcomes[i], names),
    ensures
        run_all(run, outcomes, names, now).store == run.store,
        !run_all(run, outcomes, names, now).failed,
        run_all(run, outcomes, names, now).scheduler.successes == run.scheduler.successes,
    decreases outcomes.len(),
{
    let asked = run.scheduler.polled(false);
    if asked.state == RunState::Running && outcomes.len() > 0 {
        let day = asked.position;
        let opened = RunView {
            messages: run.messages.push(
                MessageView::Progress(
                    attempt_text(
                        day,
                        asked.attempt_number() as nat,
                        asked.successes,
                        asked.failures,
                    ),
                ),
            ),
            ..run
        };
        let next = settled_day(opened, day, digested(day, outcomes[0], names), now);
        lemma_ingestible_any_day(day, outcomes[0], names);
        assert forall|i: int| 0 <= i < outcomes.skip(1).len() implies !ingestible(
            #[trigger] outcomes.skip(1)[i],
            names,
        ) by {
            assert(outcomes.skip(1)[i] == outcomes[i + 1]);
        }
        lemma_failed_days_write_nothing(next, outcomes.skip(1), names, now);
    }
}

/// Circuit breaker, for a run: where the fetches fail for exactly as many
/// days in a row as the scheduler is short of its threshold, the run stops
/// for the threshold, has counted no success, and has written nothing.
pub proof fn lemma_run_trips_breaker(
    run: RunView,
    outcomes: Seq<OutcomeView>,
    names: ColumnNames,
    now: int,
)
    requires
        !run.failed,
        run.scheduler.state == RunState::Running,
        run.scheduler.failures + outcomes.len() == run.scheduler.threshold,
        run.scheduler.position - outcomes.len() >= run.scheduler.end,
        run.scheduler.cap is Some ==> run.scheduler.successes < run.scheduler.cap.unwrap(),
        forall|i: int| 0 <= i < outcomes.len() ==> !ingestible(#[trigger] outcomes[i], names),
    ensures
        run_all(run, outcomes, names, now).scheduler.state == RunState::Stopped(
            StopReason::ErrorThreshold,
        ),
        run_all(run, outcomes, names, now).scheduler.successes == run.scheduler.successes,
        run_all(run, outcomes, names, now).store == run.store,
        !run_all(run, outcomes, names, now).failed,
{
    lemma_failed_days_write_nothing(run, outcomes, names, now);
    lemma_run_follows_results(run, outcomes, names, now);
    assert(results_of(outcomes, names) =~= crate::scheduler::repeated(false, outcomes.len()));
    crate::scheduler::lemma_circuit_breaker(run.scheduler, outcomes.len());
}

/// Success cap, for a run: where every fetch yields rows, the scheduler is
/// `n` successes short of its cap with room for `n` days in its range, the
/// log holds nothing yet for the days ahead and the store has identifiers
/// left, the run stops for the cap after exactly `n` days, and exactly `n`
/// attempts, all completed, were added to the log.
pub proof fn lemma_run_meets_cap(
    run: RunView,
    outcomes: Seq<OutcomeView>,
    names: ColumnNames,
    now: int,
    n: nat,
)
    requires
        !run.failed,
        run.scheduler.state == RunState::Running,
        run.scheduler.cap is Some,
        run.scheduler.successes + n == run.scheduler.cap.unwrap(),
        run.scheduler.position - n >= run.scheduler.end,
        run.scheduler.failures < run.scheduler.threshold,
        outcomes.len() >= n,
        forall|i: int| 0 <= i < outcomes.len() ==> ingestible(#[trigger] outcomes[i], names),
        log_is_ahead(run.store.attempts, run.scheduler.position),
        run.store.next_id + n <= i64::MAX,
    ensures
        run_all(run, outcomes, names, now).scheduler.state == RunState::Stopped(
            StopReason::LimitReached,
        ),
        run_all(run, outcomes, names, now).scheduler.successes == run.scheduler.cap.unwrap(),
        !run_all(run, outcomes, names, now).failed,
        run_all(run, outcomes, names, now).store.attempts.len() == run.store.attempts.len() + n,
        crate::store::completed_count(run_all(run, outcomes, names, now).store.attempts)
            == crate::store::completed_count(run.store.attempts) + n,
    decreases n,
{
    let asked = run.scheduler.polled(false);
    if n > 0 {
        let day = asked.position;
        let opened = RunView {
            messages: run.messages.push(
                MessageView::Progress(
                    attempt_text(
                        day,
                        asked.attempt_number() as nat,
                        asked.successes,
                        asked.failures,
                    ),
                ),
            ),
            ..run
        };
        let result = digested(day, outcomes[0], names);
        lemma_ingestible_any_day(day, outcomes[0], names);
        let next = settled_day(opened, day, result, now);
        let bytes = result->Ingested_bytes;
        let attempt = day_attempt(day, bytes);
        assert(!holds_attempt(run.store.attempts, attempt.key())) by {
            if holds_attempt(run.store.attempts, attempt.key()) {
                let i = choose|i: int|
                    crate::store::is_attempt_at(run.store.attempts, attempt.key(), i);
                assert(run.store.attempts[i].symbol is None);
                assert(run.store.attempts[i].from_date > day * SECONDS_PER_DAY);
            }
        }
        crate::store::lemma_recorded_fresh_completed(
            run.store.attempts,
            attempt,
            now,
            run.store.next_id,
        );
        assert(log_is_ahead(next.store.attempts, next.scheduler.position)) by {
            assert forall|i: int|
                0 <= i < next.store.attempts.len() && (
                #[trigger] next.store.attempts[i]).symbol is None implies next.store.attempts[i].from_date
                > next.scheduler.position * SECONDS_PER_DAY by {
                if i < run.store.attempts.len() {
                    assert(next.store.attempts[i] == run.store.attempts[i]);
                }
            }
        }
        assert forall|i: int| 0 <= i < outcomes.skip(1).len() implies ingestible(
            #[trigger] outcomes.skip(1)[i],
            names,
        ) by {
            assert(outcomes.skip(1)[i] == outcomes[i + 1]);
        }
        lemma_run_meets_cap(next, outcomes.skip(1), names, now, (n - 1) as nat);
    }
}

/// The earliest day of an extent.
pub open spec fn earliest_of(extent: Option<(int, int)>) -> Option<int> {
    match extent {
        Some(p) => Some(p.0),
        None => None,
    }
}

/// The line that opens a run, where its first day has a calendar date.
pub open spec fn opening_messages(v: SchedulerView) -> Seq<MessageView> {
    if v.state == RunState::Running && crate::day::in_calendar(v.origin) {
        seq![MessageView::Progress(announce_text(v.origin, v.end))]
    } else {
        Seq::empty()
    }
}

/// Announces a run that has just been started.
fn announce(scheduler: &Scheduler, messages: &mut Vec<BhavCopyMessage>)
    ensures
        messages_of(final(messages)@) == messages_of(old(messages)@) + opening_messages(
            scheduler@,
        ),
{
    let ghost told = messages_of(messages@);
    if scheduler.state() == RunState::Running {
        match scheduler.origin() {
            Some(first) => {
                let message = BhavCopyMessage::Progress(announce_line(first, scheduler.end()));
                messages.push(message);
                proof {
                    assert(messages_of(messages@) =~= told + seq![message@]);
                }
                return ;
            },
            None => {},
        }
    }
    proof {
        assert(told + Seq::<MessageView>::empty() =~= told);
    }
}

/// Starts an open-ended backfill: the cursor is set on the day before the
/// earliest day that `store` holds, never on a day that it covers already, and
/// on `yesterday` where the store is empty; the range reaches a year back from
/// there. The run is announced. A scheduler that was started before is left
/// as it is, and nothing is announced.
pub fn begin_backfill(
    scheduler: &mut Scheduler,
    store: &MemoryStore,
    yesterday: Day,
    messages: &mut Vec<BhavCopyMessage>,
)
    ensures
        old(scheduler)@.state != RunState::Idle ==> final(scheduler)@ == old(scheduler)@
            && messages_of(final(messages)@) == messages_of(old(messages)@),
        old(scheduler)@.state == RunState::Idle ==> {
            &&& final(scheduler)@.state == RunState::Running
            &&& final(scheduler)@.position == resume_position(
                earliest_of(crate::store::extent_of(store@.rows, None)),
                yesterday@,
            )
            &&& final(scheduler)@.origin == final(scheduler)@.position
            &&& final(scheduler)@.end == open_end(final(scheduler)@.position)
            &&& final(scheduler)@.successes == 0
            &&& final(scheduler)@.failures == 0
            &&& final(scheduler)@.cap == old(scheduler)@.cap
            &&& final(scheduler)@.threshold == old(scheduler)@.threshold
            &&& messages_of(final(messages)@) == messages_of(old(messages)@) + opening_messages(
                final(scheduler)@,
            )
        },
{
    if scheduler.state() != RunState::Idle {
        return ;
    }
    let earliest = match store.get_date_extent(None) {
        Some((lo, hi)) => Some(lo),
        None => None,
    };
    scheduler.start(earliest, yesterday);
    announce(scheduler, messages);
}

/// Starts a backfill from `start` back to `end`, both included, and
/// announces it. A scheduler that was started before is left as it is, and
/// nothing is announced.
pub fn begin_range(
    scheduler: &mut Scheduler,
    start: Day,
    end: Day,
    messages: &mut Vec<BhavCopyMessage>,
)
    ensures
        old(scheduler)@.state != RunState::Idle ==> final(scheduler)@ == old(scheduler)@
            && messages_of(final(messages)@) == messages_of(old(messages)@),
        old(scheduler)@.state == RunState::Idle ==> {
            &&& final(scheduler)@.state == RunState::Running
            &&& final(scheduler)@.position == start@
            &&& final(scheduler)@.origin == start@
            &&& final(scheduler)@.end == end@
            &&& final(scheduler)@.successes == 0
            &&& final(scheduler)@.failures == 0
            &&& final(scheduler)@.cap == old(scheduler)@.cap
            &&& final(scheduler)@.threshold == old(scheduler)@.threshold
            &&& messages_of(final(messages)@) == messages_of(old(messages)@) + opening_messages(
                final(scheduler)@,
            )
        },
{
    if scheduler.state() != RunState::Idle {
        return ;
    }
    scheduler.start_range(start, end);
    announce(scheduler, messages);
}

/// Resume from the earliest: where the store holds rows and `earliest` is the
/// earliest of their days, a fresh run starts on the day before it, whatever
/// day yesterday was.
pub proof fn lemma_resume_from_earliest(
    rows: Seq<TradingDayRow>,
    earliest: int,
    latest: int,
    yesterday: int,
)
    requires
        is_extent(rows, None, earliest, latest),
    ensures
        resume_position(earliest_of(crate::store::extent_of(rows, None)), yesterday) == earliest - 1,
{
    crate::store::lemma_extent_is_unique(rows, None, earliest, latest);
}

} // verus!
