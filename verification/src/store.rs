//! An idempotent store of trading-day rows and of the log of attempts, held
//! in memory. Rows are unique by symbol and day, attempts by symbol and range.

use vstd::prelude::*;
use crate::day::Day;
use crate::models::{AttemptRow, NseDownload};
use crate::record::{rows_of, TradingDayRecord, TradingDayRow};

verus! {

/// Most rows that one write holds.
pub const BATCH_SIZE: usize = 100;

/// Whether some row of `rows` has the key `key`.
pub open spec fn holds_key(rows: Seq<TradingDayRow>, key: (Seq<char>, int)) -> bool {
    exists|i: int| 0 <= i < rows.len() && #[trigger] rows[i].key() == key
}

/// `rows` with `row` added at the end, unless a row with its key is there
/// already: then `rows` as they are.
pub open spec fn insert_or_ignore(rows: Seq<TradingDayRow>, row: TradingDayRow) -> Seq<
    TradingDayRow,
> {
    if holds_key(rows, row.key()) {
        rows
    } else {
        rows.push(row)
    }
}

/// `rows` after each row of `new` was inserted or ignored, in order.
pub open spec fn upsert(rows: Seq<TradingDayRow>, new: Seq<TradingDayRow>) -> Seq<TradingDayRow>
    decreases new.len(),
{
    if new.len() == 0 {
        rows
    } else {
        insert_or_ignore(upsert(rows, new.drop_last()), new.last())
    }
}

/// Whether no two rows share a key.
pub open spec fn keys_unique(rows: Seq<TradingDayRow>) -> bool {
    forall|i: int, j: int|
        0 <= i < j < rows.len() ==> (#[trigger] rows[i]).key() != (#[trigger] rows[j]).key()
}

/// The sizes of the batches in which `n` rows are written, `size` rows to a
/// batch and the rest in the last.
pub open spec fn batch_sizes(n: nat, size: nat) -> Seq<nat>
    decreases n,
{
    if n == 0 || size == 0 {
        Seq::empty()
    } else if n <= size {
        seq![n]
    } else {
        seq![size] + batch_sizes((n - size) as nat, size)
    }
}

/// Inserting or ignoring a row keeps the keys unique.
pub proof fn lemma_insert_keeps_unique(rows: Seq<TradingDayRow>, row: TradingDayRow)
    requires
        keys_unique(rows),
    ensures
        keys_unique(insert_or_ignore(rows, row)),
{
    let after = insert_or_ignore(rows, row);
    if !holds_key(rows, row.key()) {
        assert forall|i: int, j: int| 0 <= i < j < after.len() implies (#[trigger] after[i]).key()
            != (#[trigger] after[j]).key() by {
            if j == rows.len() {
                assert(rows[i].key() != row.key());
            } else {
                assert(rows[i].key() != rows[j].key());
            }
        }
    }
}

/// An upsert keeps the keys unique.
pub proof fn lemma_upsert_keeps_unique(rows: Seq<TradingDayRow>, new: Seq<TradingDayRow>)
    requires
        keys_unique(rows),
    ensures
        keys_unique(upsert(rows, new)),
    decreases new.len(),
{
    if new.len() > 0 {
        lemma_upsert_keeps_unique(rows, new.drop_last());
        lemma_insert_keeps_unique(upsert(rows, new.drop_last()), new.last());
    }
}

/// Writing in two batches is writing at once.
pub proof fn lemma_upsert_concat(
    rows: Seq<TradingDayRow>,
    first: Seq<TradingDayRow>,
    second: Seq<TradingDayRow>,
)
    ensures
        upsert(rows, first + second) == upsert(upsert(rows, first), second),
    decreases second.len(),
{
    if second.len() == 0 {
        assert(first + second =~= first);
    } else {
        lemma_upsert_concat(rows, first, second.drop_last());
        assert((first + second).drop_last() =~= first + second.drop_last());
        assert((first + second).last() == second.last());
    }
}

/// An upsert keeps what was there, in place, and only adds behind it.
pub proof fn lemma_upsert_extends(rows: Seq<TradingDayRow>, new: Seq<TradingDayRow>)
    ensures
        rows.len() <= upsert(rows, new).len() <= rows.len() + new.len(),
        forall|i: int| 0 <= i < rows.len() ==> upsert(rows, new)[i] == rows[i],
        forall|key: (Seq<char>, int)| holds_key(rows, key) ==> holds_key(upsert(rows, new), key),
    decreases new.len(),
{
    if new.len() > 0 {
        let before = upsert(rows, new.drop_last());
        lemma_upsert_extends(rows, new.drop_last());
        let after = upsert(rows, new);
        assert forall|key: (Seq<char>, int)| holds_key(rows, key) implies holds_key(
            after,
            key,
        ) by {
            let i = choose|i: int| 0 <= i < rows.len() && #[trigger] rows[i].key() == key;
            assert(after[i].key() == key);
        }
    }
}

/// After an upsert the store holds the key of every row that was written.
pub proof fn lemma_upsert_holds_new(rows: Seq<TradingDayRow>, new: Seq<TradingDayRow>, i: int)
    requires
        0 <= i < new.len(),
    ensures
        holds_key(upsert(rows, new), new[i].key()),
    decreases new.len(),
{
    let before = upsert(rows, new.drop_last());
    let after = upsert(rows, new);
    if i == new.len() - 1 {
        if !holds_key(before, new.last().key()) {
            assert(after[before.len() as int].key() == new.last().key());
        }
    } else {
        lemma_upsert_holds_new(rows, new.drop_last(), i);
        let k = choose|k: int| 0 <= k < before.len() && #[trigger] before[k].key() == new[i].key();
        if !holds_key(before, new.last().key()) {
            assert(after[k] == before[k]);
        }
        assert(after[k].key() == new[i].key());
    }
}

/// Writing rows whose keys are all held changes nothing.
pub proof fn lemma_upsert_of_held(rows: Seq<TradingDayRow>, new: Seq<TradingDayRow>)
    requires
        forall|i: int| 0 <= i < new.len() ==> holds_key(rows, #[trigger] new[i].key()),
    ensures
        upsert(rows, new) == rows,
    decreases new.len(),
{
    if new.len() > 0 {
        assert forall|i: int| 0 <= i < new.drop_last().len() implies holds_key(
            rows,
            #[trigger] new.drop_last()[i].key(),
        ) by {
            assert(new.drop_last()[i] == new[i]);
        }
        lemma_upsert_of_held(rows, new.drop_last());
        assert(holds_key(rows, new[new.len() - 1].key()));
    }
}

/// Idempotence: writing the same rows a second time leaves the store as the
/// first write left it, row for row, so the number of rows does not change.
pub proof fn lemma_upsert_idempotent(rows: Seq<TradingDayRow>, new: Seq<TradingDayRow>)
    ensures
        upsert(upsert(rows, new), new) == upsert(rows, new),
        upsert(upsert(rows, new), new).len() == upsert(rows, new).len(),
{
    let once = upsert(rows, new);
    assert forall|i: int| 0 <= i < new.len() implies holds_key(once, #[trigger] new[i].key()) by {
        lemma_upsert_holds_new(rows, new, i);
    }
    lemma_upsert_of_held(once, new);
}

/// Rows with keys of their own, none of them held yet, are all added, in
/// order.
pub proof fn lemma_upsert_of_fresh(rows: Seq<TradingDayRow>, new: Seq<TradingDayRow>)
    requires
        keys_unique(new),
        forall|i: int| 0 <= i < new.len() ==> !holds_key(rows, #[trigger] new[i].key()),
    ensures
        upsert(rows, new) == rows + new,
        upsert(rows, new).len() == rows.len() + new.len(),
    decreases new.len(),
{
    if new.len() == 0 {
        assert(rows + new =~= rows);
    } else {
        let head = new.drop_last();
        assert forall|i: int| 0 <= i < head.len() implies !holds_key(
            rows,
            #[trigger] head[i].key(),
        ) by {
            assert(head[i] == new[i]);
        }
        assert(keys_unique(head)) by {
            assert forall|i: int, j: int| 0 <= i < j < head.len() implies (#[trigger] head[i]).key()
                != (#[trigger] head[j]).key() by {
                assert(head[i] == new[i] && head[j] == new[j]);
            }
        }
        lemma_upsert_of_fresh(rows, head);
        let before = rows + head;
        let last = new.last();
        if holds_key(before, last.key()) {
            let k = choose|k: int| 0 <= k < before.len() && #[trigger] before[k].key() == last.key();
            if k < rows.len() {
                assert(rows[k].key() == new[new.len() - 1].key());
                assert(holds_key(rows, new[new.len() - 1].key()));
            } else {
                assert(before[k] == new[k - rows.len()]);
                assert(new[k - rows.len()].key() != new[new.len() - 1].key());
            }
        }
        assert((rows + head).push(last) =~= rows + new);
    }
}

/// Whether some attempt of `attempts` has the key `key`.
pub open spec fn holds_attempt(
    attempts: Seq<AttemptRow>,
    key: (Option<Seq<char>>, int, int),
) -> bool {
    exists|i: int| is_attempt_at(attempts, key, i)
}

/// Whether the attempt at `i` has the key `key`.
pub open spec fn is_attempt_at(
    attempts: Seq<AttemptRow>,
    key: (Option<Seq<char>>, int, int),
    i: int,
) -> bool {
    0 <= i < attempts.len() && attempts[i].key() == key
}

/// Whether no two attempts share a key.
pub open spec fn attempt_keys_unique(attempts: Seq<AttemptRow>) -> bool {
    forall|i: int, j: int|
        0 <= i < j < attempts.len() ==> (#[trigger] attempts[i]).key() != (
        #[trigger] attempts[j]).key()
}

/// `attempt` as a store keeps it: under the identifier `id`, made at `now`.
pub open spec fn stamped(attempt: AttemptRow, id: int, now: int) -> AttemptRow {
    AttemptRow {
        id: id,
        symbol: attempt.symbol,
        from_date: attempt.from_date,
        to_date: attempt.to_date,
        file_path: attempt.file_path,
        file_size: attempt.file_size,
        status: attempt.status,
        error_message: attempt.error_message,
        downloaded_at: now,
    }
}

/// The log after `attempt` was recorded at `now`: the attempt with its key
/// is replaced and keeps its identifier; where there is none, the attempt is
/// added under `next_id`.
pub open spec fn recorded(
    attempts: Seq<AttemptRow>,
    attempt: AttemptRow,
    now: int,
    next_id: int,
) -> Seq<AttemptRow> {
    if holds_attempt(attempts, attempt.key()) {
        let i = choose|i: int| is_attempt_at(attempts, attempt.key(), i);
        attempts.update(i, stamped(attempt, attempts[i].id, now))
    } else {
        attempts.push(stamped(attempt, next_id, now))
    }
}

/// Number of attempts in the log that are marked as completed.
pub open spec fn completed_count(attempts: Seq<AttemptRow>) -> nat
    decreases attempts.len(),
{
    if attempts.len() == 0 {
        0
    } else {
        completed_count(attempts.drop_last()) + if attempts.last().is_completed() {
            1nat
        } else {
            0nat
        }
    }
}

/// Whether a query for `symbol` selects `row`: every row without a symbol,
/// the rows of the symbol with one.
pub open spec fn selects(symbol: Option<Seq<char>>, row: TradingDayRow) -> bool {
    match symbol {
        Some(s) => row.symbol == s,
        None => true,
    }
}

/// Whether a query for `symbol` selects some row.
pub open spec fn has_selected(rows: Seq<TradingDayRow>, symbol: Option<Seq<char>>) -> bool {
    exists|i: int| 0 <= i < rows.len() && selects(symbol, #[trigger] rows[i])
}

/// Whether `lo` and `hi` are the earliest and the latest day among the rows
/// that a query for `symbol` selects.
pub open spec fn is_extent(
    rows: Seq<TradingDayRow>,
    symbol: Option<Seq<char>>,
    lo: int,
    hi: int,
) -> bool {
    &&& exists|i: int| 0 <= i < rows.len() && selects(symbol, #[trigger] rows[i]) && rows[i].date == lo
    &&& exists|i: int| 0 <= i < rows.len() && selects(symbol, #[trigger] rows[i]) && rows[i].date == hi
    &&& forall|i: int|
        0 <= i < rows.len() && selects(symbol, #[trigger] rows[i]) ==> lo <= rows[i].date <= hi
}

/// The contents of a sequence of attempts.
pub open spec fn attempts_of(attempts: Seq<NseDownload>) -> Seq<AttemptRow> {
    Seq::new(attempts.len(), |i: int| attempts[i]@)
}

/// The sizes of batches as mathematical integers.
pub open spec fn sizes_of(batches: Seq<usize>) -> Seq<nat> {
    Seq::new(batches.len(), |i: int| batches[i] as nat)
}

/// What a store holds: its rows and its log of attempts in the order of
/// their arrival, and the identifier that the next new attempt gets.
pub struct StoreView {
    pub rows: Seq<TradingDayRow>,
    pub attempts: Seq<AttemptRow>,
    pub next_id: int,
}

/// Why a write to the store failed. Such a failure ends a run.
#[derive(Debug, Clone, Copy, PartialEq, Eq, Structural)]
pub enum StoreWriteError {
    /// The store has no identifier left for a new attempt.
    Full,
}

/// What an upsert did.
#[derive(Debug, Clone, PartialEq, Eq)]
pub struct UpsertReport {
    /// The size of each batch, in the order in which they were written.
    pub batches: Vec<usize>,
    /// Rows that were added.
    pub inserted: usize,
    /// Rows that were dropped because their key was held already.
    pub ignored: usize,
}

/// A store in memory.
#[derive(Debug)]
pub struct MemoryStore {
    rows: Vec<TradingDayRecord>,
    attempts: Vec<NseDownload>,
    next_id: i64,
}

impl View for MemoryStore {
    type V = StoreView;

    closed spec fn view(&self) -> StoreView {
        StoreView {
            rows: rows_of(self.rows@),
            attempts: attempts_of(self.attempts@),
            next_id: self.next_id as int,
        }
    }
}

impl MemoryStore {
    /// Whether the store is well formed: no two rows share a symbol and day,
    /// no two attempts a symbol and range, and identifiers start at 1.
    pub closed spec fn wf(&self) -> bool {
        &&& keys_unique(rows_of(self.rows@))
        &&& attempt_keys_unique(attempts_of(self.attempts@))
        &&& 1 <= self.next_id
    }

    /// In a well-formed store every key is held once.
    pub proof fn lemma_wf(&self)
        requires
            self.wf(),
        ensures
            keys_unique(self@.rows),
            attempt_keys_unique(self@.attempts),
            1 <= self@.next_id,
    {
    }

    /// An empty store; its first attempt gets the identifier 1.
    pub fn new() -> (store: MemoryStore)
        ensures
            store.wf(),
            store@.rows == Seq::<TradingDayRow>::empty(),
            store@.attempts == Seq::<AttemptRow>::empty(),
            store@.next_id == 1,
    {
        let store = MemoryStore { rows: Vec::new(), attempts: Vec::new(), next_id: 1 };
        proof {
            assert(rows_of(store.rows@) =~= Seq::<TradingDayRow>::empty());
            assert(attempts_of(store.attempts@) =~= Seq::<AttemptRow>::empty());
        }
        store
    }

    /// An empty store whose first attempt gets the identifier `next_id`, as a
    /// store has it that held and lost attempts before; identifiers start at
    /// 1 at the earliest.
    pub fn starting_at(next_id: i64) -> (store: MemoryStore)
        ensures
            store.wf(),
            store@.rows == Seq::<TradingDayRow>::empty(),
            store@.attempts == Seq::<AttemptRow>::empty(),
            store@.next_id == if next_id >= 1 {
                next_id as int
            } else {
                1
            },
    {
        let first: i64 = if next_id >= 1 {
            next_id
        } else {
            1
        };
        let store = MemoryStore { rows: Vec::new(), attempts: Vec::new(), next_id: first };
        proof {
            assert(rows_of(store.rows@) =~= Seq::<TradingDayRow>::empty());
            assert(attempts_of(store.attempts@) =~= Seq::<AttemptRow>::empty());
        }
        store
    }

    /// Number of rows held.
    pub fn row_count(&self) -> (n: usize)
        ensures
            n == self@.rows.len(),
    {
        self.rows.len()
    }

    /// Number of attempts in the log.
    pub fn attempt_count(&self) -> (n: usize)
        ensures
            n == self@.attempts.len(),
    {
        self.attempts.len()
    }

    /// The row at `index`, in the order of arrival.
    pub fn row(&self, index: usize) -> (r: Option<&TradingDayRecord>)
        ensures
            r is Some <==> index < self@.rows.len(),
            r matches Some(record) ==> record@ == self@.rows[index as int],
    {
        if index < self.rows.len() {
            Some(&self.rows[index])
        } else {
            None
        }
    }

    /// The attempt at `index`, in the order of arrival.
    pub fn attempt(&self, index: usize) -> (r: Option<&NseDownload>)
        ensures
            r is Some <==> index < self@.attempts.len(),
            r matches Some(a) ==> a@ == self@.attempts[index as int],
    {
        if index < self.attempts.len() {
            Some(&self.attempts[index])
        } else {
            None
        }
    }

    /// Whether a row with the key of `record` is held.
    pub fn contains_key(&self, record: &TradingDayRecord) -> (held: bool)
        ensures
            held == holds_key(self@.rows, record@.key()),
    {
        let mut i: usize = 0;
        while i < self.rows.len()
            invariant
                0 <= i <= self.rows.len(),
                forall|j: int| 0 <= j < i ==> (#[trigger] rows_of(self.rows@)[j]).key() != record@.key(),
            decreases self.rows.len() - i,
        {
            if self.rows[i].same_key(record) {
                proof {
                    assert(rows_of(self.rows@)[i as int].key() == record@.key());
                }
                return true;
            }
            i = i + 1;
        }
        false
    }

    /// Writes the rows from `start` up to `end` as one batch.
    fn write_batch(&mut self, rows: &Vec<TradingDayRecord>, start: usize, end: usize) -> (added:
        usize)
        requires
            old(self).wf(),
            start <= end <= rows.len(),
        ensures
            final(self).wf(),
            final(self)@.rows == upsert(
                old(self)@.rows,
                rows_of(rows@).subrange(start as int, end as int),
            ),
            final(self)@.attempts == old(self)@.attempts,
            final(self)@.next_id == old(self)@.next_id,
            added + old(self)@.rows.len() == final(self)@.rows.len(),
            added <= end - start,
    {
        let ghost before = self@;
        let ghost batch = rows_of(rows@).subrange(start as int, end as int);
        let mut added: usize = 0;
        let mut i: usize = start;
        proof {
            assert(batch.subrange(0, 0) =~= Seq::<TradingDayRow>::empty());
        }
        while i < end
            invariant
                start <= i <= end <= rows.len(),
                self.wf(),
                batch == rows_of(rows@).subrange(start as int, end as int),
                self@.rows == upsert(before.rows, batch.subrange(0, i - start)),
                self@.attempts == before.attempts,
                self@.next_id == before.next_id,
                added + before.rows.len() == self@.rows.len(),
                added <= i - start,
            decreases end - i,
        {
            let ghost held = self@.rows;
            proof {
                let upto = batch.subrange(0, i - start + 1);
                assert(upto.drop_last() =~= batch.subrange(0, i - start));
                assert(upto.last() == rows@[i as int]@);
                lemma_insert_keeps_unique(held, rows@[i as int]@);
            }
            if !self.contains_key(&rows[i]) {
                let copy = rows[i].duplicate();
                self.rows.push(copy);
                added = added + 1;
                proof {
                    assert(rows_of(self.rows@) =~= held.push(rows@[i as int]@));
                }
            }
            i = i + 1;
        }
        proof {
            assert(batch.subrange(0, i - start) =~= batch);
        }
        added
    }
}

impl MemoryStore {
    /// Inserts `rows` in batches of at most `BATCH_SIZE`, in order. A row
    /// whose symbol and day are held already, by the store or by an earlier
    /// row of the same call, is dropped without an error.
    pub fn upsert_trading_day(&mut self, rows: &Vec<TradingDayRecord>) -> (report: UpsertReport)
        requires
            old(self).wf(),
        ensures
            final(self).wf(),
            final(self)@.rows == upsert(old(self)@.rows, rows_of(rows@)),
            final(self)@.attempts == old(self)@.attempts,
            final(self)@.next_id == old(self)@.next_id,
            sizes_of(report.batches@) == batch_sizes(rows@.len(), BATCH_SIZE as nat),
            report.batches@.len() == batch_sizes(rows@.len(), BATCH_SIZE as nat).len(),
            report.inserted + old(self)@.rows.len() == final(self)@.rows.len(),
            report.inserted + report.ignored == rows@.len(),
    {
        let ghost before = self@;
        let ghost all = rows_of(rows@);
        let mut batches: Vec<usize> = Vec::new();
        let mut inserted: usize = 0;
        let mut start: usize = 0;
        proof {
            assert(all.subrange(0, 0) =~= Seq::<TradingDayRow>::empty());
            assert(sizes_of(batches@) =~= Seq::<nat>::empty());
            assert(sizes_of(batches@) + batch_sizes(rows@.len(), BATCH_SIZE as nat) =~= batch_sizes(
                rows@.len(),
                BATCH_SIZE as nat,
            ));
        }
        while start < rows.len()
            invariant
                0 <= start <= rows.len(),
                self.wf(),
                all == rows_of(rows@),
                self@.rows == upsert(before.rows, all.subrange(0, start as int)),
                self@.attempts == before.attempts,
                self@.next_id == before.next_id,
                sizes_of(batches@) + batch_sizes((rows@.len() - start) as nat, BATCH_SIZE as nat)
                    == batch_sizes(rows@.len(), BATCH_SIZE as nat),
                inserted + before.rows.len() == self@.rows.len(),
                inserted <= start,
            decreases rows.len() - start,
        {
            let end: usize = if rows.len() - start > BATCH_SIZE {
                start + BATCH_SIZE
            } else {
                rows.len()
            };
            let ghost done = sizes_of(batches@);
            let ghost left = (rows@.len() - start) as nat;
            let added = self.write_batch(rows, start, end);
            batches.push(end - start);
            proof {
                lemma_upsert_concat(
                    before.rows,
                    all.subrange(0, start as int),
                    all.subrange(start as int, end as int),
                );
                assert(all.subrange(0, start as int) + all.subrange(start as int, end as int)
                    =~= all.subrange(0, end as int));
                let size = (end - start) as nat;
                assert(sizes_of(batches@) =~= done + seq![size]);
                let rest = batch_sizes((rows@.len() - end) as nat, BATCH_SIZE as nat);
                if left <= BATCH_SIZE {
                    assert(rest =~= Seq::<nat>::empty());
                    assert(batch_sizes(left, BATCH_SIZE as nat) =~= seq![size] + rest);
                }
                assert((done + seq![size]) + rest =~= done + (seq![size] + rest));
            }
            inserted = inserted + added;
            start = end;
        }
        proof {
            assert(all.subrange(0, start as int) =~= all);
        }
        UpsertReport { batches, inserted, ignored: rows.len() - inserted }
    }

    /// The earliest and the latest day for which rows are held: of all rows
    /// where `symbol` is `None`, of the rows of that symbol otherwise. `None`
    /// where no such row is held.
    pub fn get_date_extent(&self, symbol: Option<&String>) -> (r: Option<(Day, Day)>)
        ensures
            r is Some <==> has_selected(self@.rows, wanted_symbol(symbol)),
            r matches Some(extent) ==> is_extent(
                self@.rows,
                wanted_symbol(symbol),
                extent.0@,
                extent.1@,
            ),
            days_view(r) == extent_of(self@.rows, wanted_symbol(symbol)),
    {
        let ghost wanted = wanted_symbol(symbol);
        let ghost held = rows_of(self.rows@);
        let mut extent: Option<(Day, Day)> = None;
        let mut i: usize = 0;
        while i < self.rows.len()
            invariant
                0 <= i <= self.rows.len(),
                held == rows_of(self.rows@),
                wanted == wanted_symbol(symbol),
                extent is Some <==> has_selected(held.subrange(0, i as int), wanted),
                extent matches Some(e) ==> is_extent(held.subrange(0, i as int), wanted, e.0@, e.1@),
            decreases self.rows.len() - i,
        {
            let row = &self.rows[i];
            let ghost upto = held.subrange(0, i as int);
            let ghost next = held.subrange(0, i + 1);
            let chosen = match symbol {
                Some(s) => row.symbol == *s,
                None => true,
            };
            proof {
                assert(chosen == selects(wanted, held[i as int]));
                assert(next[i as int] == held[i as int]);
                assert forall|j: int| 0 <= j < i implies next[j] == upto[j] by {}
                if has_selected(upto, wanted) {
                    let j = choose|j: int| 0 <= j < upto.len() && selects(wanted, #[trigger] upto[j]);
                    assert(selects(wanted, next[j]));
                }
                if has_selected(next, wanted) && !chosen {
                    let j = choose|j: int| 0 <= j < next.len() && selects(wanted, #[trigger] next[j]);
                    assert(selects(wanted, upto[j]));
                }
            }
            if chosen {
                let day = row.date;
                let ghost old_extent = extent;
                extent = match extent {
                    None => Some((day, day)),
                    Some((lo, hi)) => {
                        let new_lo = if day.is_on_or_before(lo) {
                            day
                        } else {
                            lo
                        };
                        let new_hi = if hi.is_on_or_before(day) {
                            day
                        } else {
                            hi
                        };
                        Some((new_lo, new_hi))
                    },
                };
                proof {
                    let e = extent.unwrap();
                    assert(selects(wanted, next[i as int]));
                    match old_extent {
                        None => {
                            assert forall|j: int|
                                0 <= j < next.len() && selects(wanted, #[trigger] next[j]) implies e.0@
                                <= next[j].date <= e.1@ by {
                                if j < i {
                                    assert(selects(wanted, upto[j]));
                                }
                            }
                        },
                        Some(o) => {
                            let a = choose|a: int|
                                0 <= a < upto.len() && selects(wanted, #[trigger] upto[a])
                                    && upto[a].date == o.0@;
                            let b = choose|b: int|
                                0 <= b < upto.len() && selects(wanted, #[trigger] upto[b])
                                    && upto[b].date == o.1@;
                            assert(selects(wanted, next[a]) && next[a].date == o.0@);
                            assert(selects(wanted, next[b]) && next[b].date == o.1@);
                            assert forall|j: int|
                                0 <= j < next.len() && selects(wanted, #[trigger] next[j]) implies e.0@
                                <= next[j].date <= e.1@ by {
                                if j < i {
                                    assert(selects(wanted, upto[j]));
                                }
                            }
                        },
                    }
                    assert(is_extent(next, wanted, e.0@, e.1@));
                }
            } else {
                proof {
                    if let Some(e) = extent {
                        let a = choose|a: int|
                            0 <= a < upto.len() && selects(wanted, #[trigger] upto[a]) && upto[a].date
                                == e.0@;
                        let b = choose|b: int|
                            0 <= b < upto.len() && selects(wanted, #[trigger] upto[b]) && upto[b].date
                                == e.1@;
                        assert(selects(wanted, next[a]) && next[a].date == e.0@);
                        assert(selects(wanted, next[b]) && next[b].date == e.1@);
                        assert forall|j: int|
                            0 <= j < next.len() && selects(wanted, #[trigger] next[j]) implies e.0@
                            <= next[j].date <= e.1@ by {
                            assert(selects(wanted, upto[j]));
                        }
                    }
                }
            }
            i = i + 1;
        }
        proof {
            assert(held.subrange(0, i as int) =~= held);
            if let Some(e) = extent {
                lemma_extent_is_unique(held, wanted, e.0@, e.1@);
            }
        }
        extent
    }
}

/// The symbol that a query asks for, as characters.
pub open spec fn wanted_symbol(symbol: Option<&String>) -> Option<Seq<char>> {
    match symbol {
        Some(s) => Some(s@),
        None => None,
    }
}

/// The attempts of `attempts` that name a symbol, in order.
pub open spec fn symbol_attempts(attempts: Seq<AttemptRow>) -> Seq<AttemptRow>
    decreases attempts.len(),
{
    if attempts.len() == 0 {
        Seq::empty()
    } else if attempts.last().symbol is Some {
        symbol_attempts(attempts.drop_last()).push(attempts.last())
    } else {
        symbol_attempts(attempts.drop_last())
    }
}

/// What is kept of a log is a part of it, in order.
pub proof fn lemma_symbol_attempts_are_held(attempts: Seq<AttemptRow>, i: int)
    requires
        0 <= i < symbol_attempts(attempts).len(),
    ensures
        exists|k: int|
            0 <= k < attempts.len() && attempts[k] == symbol_attempts(attempts)[i] && i <= k,
        symbol_attempts(attempts).len() <= attempts.len(),
    decreases attempts.len(),
{
    if attempts.len() > 0 {
        let head = attempts.drop_last();
        let kept = symbol_attempts(head);
        if i < kept.len() {
            lemma_symbol_attempts_are_held(head, i);
            let k = choose|k: int| 0 <= k < head.len() && head[k] == kept[i] && i <= k;
            assert(attempts[k] == symbol_attempts(attempts)[i]);
        } else {
            lemma_symbol_attempts_length(head);
            assert(attempts[attempts.len() - 1] == symbol_attempts(attempts)[i]);
        }
        lemma_symbol_attempts_length(attempts);
    }
}

/// No more attempts are kept than the log holds.
pub proof fn lemma_symbol_attempts_length(attempts: Seq<AttemptRow>)
    ensures
        symbol_attempts(attempts).len() <= attempts.len(),
    decreases attempts.len(),
{
    if attempts.len() > 0 {
        lemma_symbol_attempts_length(attempts.drop_last());
    }
}

/// The attempts that name a symbol keep their keys apart.
pub proof fn lemma_symbol_attempts_unique(attempts: Seq<AttemptRow>)
    requires
        attempt_keys_unique(attempts),
    ensures
        attempt_keys_unique(symbol_attempts(attempts)),
    decreases attempts.len(),
{
    if attempts.len() > 0 {
        let head = attempts.drop_last();
        assert(attempt_keys_unique(head)) by {
            assert forall|i: int, j: int| 0 <= i < j < head.len() implies (#[trigger] head[i]).key()
                != (#[trigger] head[j]).key() by {
                assert(head[i] == attempts[i] && head[j] == attempts[j]);
            }
        }
        lemma_symbol_attempts_unique(head);
        let kept = symbol_attempts(attempts);
        let kept_head = symbol_attempts(head);
        if attempts.last().symbol is Some {
            assert forall|i: int, j: int| 0 <= i < j < kept.len() implies (#[trigger] kept[i]).key()
                != (#[trigger] kept[j]).key() by {
                if j == kept_head.len() {
                    lemma_symbol_attempts_are_held(head, i);
                    let k = choose|k: int| 0 <= k < head.len() && head[k] == kept_head[i] && i <= k;
                    assert(attempts[k].key() != attempts[attempts.len() - 1].key());
                } else {
                    assert(kept_head[i].key() != kept_head[j].key());
                }
            }
        }
    }
}

/// Recording a completed attempt under a key that the log does not hold
/// adds one completed attempt to it.
pub proof fn lemma_recorded_fresh_completed(
    attempts: Seq<AttemptRow>,
    attempt: AttemptRow,
    now: int,
    next_id: int,
)
    requires
        !holds_attempt(attempts, attempt.key()),
        attempt.is_completed(),
    ensures
        recorded(attempts, attempt, now, next_id).len() == attempts.len() + 1,
        completed_count(recorded(attempts, attempt, now, next_id)) == completed_count(attempts) + 1,
{
    let after = recorded(attempts, attempt, now, next_id);
    assert(after.drop_last() =~= attempts);
}

impl MemoryStore {
    /// Position of the attempt with the key of `attempt`, if one is held.
    fn find_attempt(&self, attempt: &NseDownload) -> (r: Option<usize>)
        ensures
            r is Some <==> holds_attempt(self@.attempts, attempt@.key()),
            r matches Some(i) ==> is_attempt_at(self@.attempts, attempt@.key(), i as int),
    {
        let mut i: usize = 0;
        while i < self.attempts.len()
            invariant
                0 <= i <= self.attempts.len(),
                forall|j: int| 0 <= j < i ==> !is_attempt_at(self@.attempts, attempt@.key(), j),
            decreases self.attempts.len() - i,
        {
            if self.attempts[i].same_key(attempt) {
                proof {
                    assert(is_attempt_at(self@.attempts, attempt@.key(), i as int));
                }
                return Some(i);
            }
            i = i + 1;
        }
        None
    }

    /// Records an attempt made at `now`, seconds since the epoch. Where the
    /// log holds an attempt for the same symbol and range, that one is
    /// replaced and keeps its identifier; else the attempt is added under the
    /// next identifier. The identifier and the moment that `attempt` itself
    /// carries are not used. Returns the identifier under which the attempt
    /// is held, and fails only where a new attempt finds no identifier left.
    pub fn record_attempt(&mut self, attempt: NseDownload, now: i64) -> (r: Result<
        i64,
        StoreWriteError,
    >)
        requires
            old(self).wf(),
        ensures
            final(self).wf(),
            final(self)@.rows == old(self)@.rows,
            r is Err <==> !holds_attempt(old(self)@.attempts, attempt@.key()) && old(self)@.next_id
                == i64::MAX,
            r is Err ==> final(self)@ == old(self)@,
            r matches Ok(id) ==> {
                &&& final(self)@.attempts == recorded(
                    old(self)@.attempts,
                    attempt@,
                    now as int,
                    old(self)@.next_id,
                )
                &&& final(self)@.next_id == if holds_attempt(old(self)@.attempts, attempt@.key()) {
                    old(self)@.next_id
                } else {
                    old(self)@.next_id + 1
                }
                &&& exists|i: int|
                    is_attempt_at(final(self)@.attempts, attempt@.key(), i)
                        && final(self)@.attempts[i].id == id
            },
    {
        let ghost before = self@;
        let ghost key = attempt@.key();
        match self.find_attempt(&attempt) {
            Some(i) => {
                let id = self.attempts[i].id;
                let kept = NseDownload {
                    id,
                    symbol: attempt.symbol,
                    from_date: attempt.from_date,
                    to_date: attempt.to_date,
                    file_path: attempt.file_path,
                    file_size: attempt.file_size,
                    status: attempt.status,
                    error_message: attempt.error_message,
                    downloaded_at: now,
                };
                proof {
                    let chosen = choose|c: int| is_attempt_at(before.attempts, key, c);
                    if chosen != i {
                        if chosen < i {
                            assert(before.attempts[chosen].key() != before.attempts[i as int].key());
                        } else {
                            assert(before.attempts[i as int].key() != before.attempts[chosen].key());
                        }
                    }
                    assert(kept@ == stamped(attempt@, before.attempts[i as int].id, now as int));
                }
                self.attempts.set(i, kept);
                proof {
                    let after = attempts_of(self.attempts@);
                    assert(after =~= before.attempts.update(i as int, kept@));
                    assert forall|a: int, b: int| 0 <= a < b < after.len() implies (
                    #[trigger] after[a]).key() != (#[trigger] after[b]).key() by {
                        assert(after[a].key() == before.attempts[a].key());
                        assert(after[b].key() == before.attempts[b].key());
                    }
                    assert(is_attempt_at(after, key, i as int));
                }
                Ok(id)
            },
            None => {
                if self.next_id == i64::MAX {
                    return Err(StoreWriteError::Full);
                }
                let id = self.next_id;
                let kept = NseDownload {
                    id,
                    symbol: attempt.symbol,
                    from_date: attempt.from_date,
                    to_date: attempt.to_date,
                    file_path: attempt.file_path,
                    file_size: attempt.file_size,
                    status: attempt.status,
                    error_message: attempt.error_message,
                    downloaded_at: now,
                };
                self.attempts.push(kept);
                self.next_id = id + 1;
                proof {
                    let after = attempts_of(self.attempts@);
                    assert(after =~= before.attempts.push(kept@));
                    assert forall|a: int, b: int| 0 <= a < b < after.len() implies (
                    #[trigger] after[a]).key() != (#[trigger] after[b]).key() by {
                        if b == before.attempts.len() {
                            assert(!is_attempt_at(before.attempts, key, a));
                        } else {
                            assert(before.attempts[a].key() != before.attempts[b].key());
                        }
                    }
                    assert(is_attempt_at(after, key, before.attempts.len() as int));
                }
                Ok(id)
            },
        }
    }

    /// Number of attempts in the log that are marked as completed.
    pub fn completed_attempts(&self) -> (n: usize)
        ensures
            n == completed_count(self@.attempts),
    {
        let ghost all = attempts_of(self.attempts@);
        let done = String::from_str("completed");
        let mut n: usize = 0;
        let mut i: usize = 0;
        proof {
            assert(all.subrange(0, 0) =~= Seq::<AttemptRow>::empty());
        }
        while i < self.attempts.len()
            invariant
                0 <= i <= self.attempts.len(),
                all == attempts_of(self.attempts@),
                done@ == crate::models::completed_label(),
                n == completed_count(all.subrange(0, i as int)),
                n <= i,
            decreases self.attempts.len() - i,
        {
            proof {
                let upto = all.subrange(0, i + 1);
                assert(upto.drop_last() =~= all.subrange(0, i as int));
                assert(upto.last() == self.attempts@[i as int]@);
            }
            if self.attempts[i].status == done {
                n = n + 1;
            }
            i = i + 1;
        }
        proof {
            assert(all.subrange(0, i as int) =~= all);
        }
        n
    }

    /// Forgets every row, and every attempt that names no symbol: the
    /// whole-market files. Attempts for a symbol stay, in order.
    pub fn clear_bhavcopy_data(&mut self)
        requires
            old(self).wf(),
        ensures
            final(self).wf(),
            final(self)@.rows == Seq::<TradingDayRow>::empty(),
            final(self)@.attempts == symbol_attempts(old(self)@.attempts),
            final(self)@.next_id == old(self)@.next_id,
    {
        let ghost before = self@;
        let mut kept: Vec<NseDownload> = Vec::new();
        let mut i: usize = 0;
        proof {
            assert(before.attempts.subrange(0, 0) =~= Seq::<AttemptRow>::empty());
            assert(attempts_of(kept@) =~= Seq::<AttemptRow>::empty());
        }
        while i < self.attempts.len()
            invariant
                0 <= i <= self.attempts.len(),
                self@ == before,
                attempts_of(kept@) == symbol_attempts(before.attempts.subrange(0, i as int)),
            decreases self.attempts.len() - i,
        {
            let ghost done = attempts_of(kept@);
            proof {
                let upto = before.attempts.subrange(0, i + 1);
                assert(upto.drop_last() =~= before.attempts.subrange(0, i as int));
                assert(upto.last() == self.attempts@[i as int]@);
            }
            if self.attempts[i].symbol.is_some() {
                let copy = self.attempts[i].duplicate();
                kept.push(copy);
                proof {
                    assert(attempts_of(kept@) =~= done.push(copy@));
                }
            }
            i = i + 1;
        }
        proof {
            assert(before.attempts.subrange(0, i as int) =~= before.attempts);
            lemma_symbol_attempts_unique(before.attempts);
        }
        self.rows = Vec::new();
        self.attempts = kept;
        proof {
            assert(rows_of(self.rows@) =~= Seq::<TradingDayRow>::empty());
        }
    }
}

/// The earliest and the latest day among the rows that a query for `symbol`
/// selects, if it selects any.
pub open spec fn extent_of(rows: Seq<TradingDayRow>, symbol: Option<Seq<char>>) -> Option<
    (int, int),
> {
    if has_selected(rows, symbol) {
        Some(choose|p: (int, int)| is_extent(rows, symbol, p.0, p.1))
    } else {
        None
    }
}

/// There is one earliest and one latest day.
pub proof fn lemma_extent_is_unique(
    rows: Seq<TradingDayRow>,
    symbol: Option<Seq<char>>,
    lo: int,
    hi: int,
)
    requires
        is_extent(rows, symbol, lo, hi),
    ensures
        extent_of(rows, symbol) == Some((lo, hi)),
        lo <= hi,
{
    let a = choose|i: int| 0 <= i < rows.len() && selects(symbol, #[trigger] rows[i]) && rows[i].date == lo;
    let b = choose|i: int| 0 <= i < rows.len() && selects(symbol, #[trigger] rows[i]) && rows[i].date == hi;
    assert(has_selected(rows, symbol));
    let witness = (lo, hi);
    assert(is_extent(rows, symbol, witness.0, witness.1));
    let p = choose|p: (int, int)| is_extent(rows, symbol, p.0, p.1);
    let c = choose|i: int| 0 <= i < rows.len() && selects(symbol, #[trigger] rows[i]) && rows[i].date == p.0;
    let d = choose|i: int| 0 <= i < rows.len() && selects(symbol, #[trigger] rows[i]) && rows[i].date == p.1;
    assert(lo <= rows[c].date && rows[d].date <= hi);
    assert(p.0 <= rows[a].date && rows[b].date <= p.1);
    assert(p.0 == lo && p.1 == hi);
}

/// The numbers of an optional pair of days.
pub open spec fn days_view(extent: Option<(Day, Day)>) -> Option<(int, int)> {
    match extent {
        Some(e) => Some((e.0@, e.1@)),
        None => None,
    }
}

/// The sizes of a sequence of ranges.
pub open spec fn range_sizes(ranges: Seq<(usize, usize)>) -> Seq<nat> {
    Seq::new(ranges.len(), |i: int| (ranges[i].1 - ranges[i].0) as nat)
}

/// Whether `ranges` lie end to end from 0 to `n`, none of them backwards.
pub open spec fn covers(ranges: Seq<(usize, usize)>, n: nat) -> bool {
    &&& forall|i: int| 0 <= i < ranges.len() ==> (#[trigger] ranges[i]).0 <= ranges[i].1
    &&& forall|i: int| 0 < i < ranges.len() ==> (#[trigger] ranges[i]).0 == ranges[i - 1].1
    &&& ranges.len() > 0 ==> ranges[0].0 == 0 && ranges.last().1 == n
    &&& ranges.len() == 0 ==> n == 0
}

/// Cuts `n` rows into the batches in which they are written: for each batch
/// the position of its first row and the position behind its last.
pub fn batch_ranges(n: usize) -> (ranges: Vec<(usize, usize)>)
    ensures
        covers(ranges@, n as nat),
        range_sizes(ranges@) == batch_sizes(n as nat, BATCH_SIZE as nat),
{
    let mut ranges: Vec<(usize, usize)> = Vec::new();
    let mut start: usize = 0;
    proof {
        assert(range_sizes(ranges@) =~= Seq::<nat>::empty());
        assert(range_sizes(ranges@) + batch_sizes(n as nat, BATCH_SIZE as nat) =~= batch_sizes(
            n as nat,
            BATCH_SIZE as nat,
        ));
    }
    while start < n
        invariant
            0 <= start <= n,
            forall|i: int| 0 <= i < ranges@.len() ==> (#[trigger] ranges@[i]).0 <= ranges@[i].1,
            forall|i: int| 0 < i < ranges@.len() ==> (#[trigger] ranges@[i]).0 == ranges@[i - 1].1,
            ranges@.len() > 0 ==> ranges@[0].0 == 0 && ranges@.last().1 == start,
            ranges@.len() == 0 ==> start == 0,
            range_sizes(ranges@) + batch_sizes((n - start) as nat, BATCH_SIZE as nat)
                == batch_sizes(n as nat, BATCH_SIZE as nat),
        decreases n - start,
    {
        let end: usize = if n - start > BATCH_SIZE {
            start + BATCH_SIZE
        } else {
            n
        };
        let ghost done = range_sizes(ranges@);
        let ghost left = (n - start) as nat;
        ranges.push((start, end));
        proof {
            let size = (end - start) as nat;
            assert(range_sizes(ranges@) =~= done + seq![size]);
            let rest = batch_sizes((n - end) as nat, BATCH_SIZE as nat);
            if left <= BATCH_SIZE {
                assert(rest =~= Seq::<nat>::empty());
                assert(batch_sizes(left, BATCH_SIZE as nat) =~= seq![size] + rest);
            }
            assert((done + seq![size]) + rest =~= done + (seq![size] + rest));
        }
        start = end;
    }
    proof {
        assert(range_sizes(ranges@) + Seq::<nat>::empty() =~= range_sizes(ranges@));
    }
    ranges
}

} // verus!
