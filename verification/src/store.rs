//! The relational store, modelled in memory.
//!
//! One `Store` value stands for the backend database: the five row-family
//! tables, the processor-status table, and the ledger-info table. Row
//! families follow the insert-on-conflict-do-nothing discipline, statuses
//! the upsert discipline; both are stated as the folds of `crate::table`.
//! A well-formed store holds each primary key at most once.
//!
//! Commits can be made to fail on purpose (`inject_commit_failures`), which
//! stands for the backend rejecting a transaction; a failed commit changes
//! nothing. A ghost history records every status write ever applied, so
//! that contracts can state that a *started* write precedes every
//! successful one.

use vstd::prelude::*;

use crate::database::get_chunks;
use crate::models::{
    BlockMetadataTransactionRow, BlockMetadataTransactionRowView, EventRow, EventRowView,
    LedgerInfo, ProcessorStatusRow, ProcessorStatusRowView, TransactionRow, TransactionRowView,
    UserTransactionRow, UserTransactionRowView, WriteSetChangeRow, WriteSetChangeRowView,
    bm_txn_key, event_key, status_key, txn_key, user_txn_key, wsc_key,
};
use crate::table::{
    find_by, has_key, insert_missing, lemma_find_by, lemma_find_by_unique,
    lemma_insert_missing_singleton, lemma_insert_missing_unique, lemma_upsert_singleton,
    lemma_upsert_unique, row_at, unique_keys, upsert_rows,
};

verus! {

/// Number of columns of each row family, for sizing chunks.
pub const TRANSACTION_FIELD_COUNT: usize = 8;

pub const USER_TRANSACTION_FIELD_COUNT: usize = 8;

pub const BLOCK_METADATA_TRANSACTION_FIELD_COUNT: usize = 6;

pub const EVENT_FIELD_COUNT: usize = 6;

pub const WRITE_SET_CHANGE_FIELD_COUNT: usize = 7;

pub const PROCESSOR_STATUS_FIELD_COUNT: usize = 5;

/// What a store error stands for.
#[derive(PartialEq, Eq, Debug, Clone, Copy)]
pub enum StoreError {
    /// The backend rejected the transaction; nothing was written.
    Backend,
    /// A plain insert hit an existing primary key.
    DuplicateKey,
}

/// The mathematical content of a store: every table as a sequence of row
/// views, in insertion order.
pub ghost struct DbView {
    pub transactions: Seq<TransactionRowView>,
    pub user_transactions: Seq<UserTransactionRowView>,
    pub block_metadata_transactions: Seq<BlockMetadataTransactionRowView>,
    pub events: Seq<EventRowView>,
    pub write_set_changes: Seq<WriteSetChangeRowView>,
    pub processor_statuses: Seq<ProcessorStatusRowView>,
    pub ledger_infos: Seq<i64>,
}

/// Every table holds each primary key at most once.
pub open spec fn db_wf(db: DbView) -> bool {
    &&& unique_keys(db.transactions, txn_key())
    &&& unique_keys(db.user_transactions, user_txn_key())
    &&& unique_keys(db.block_metadata_transactions, bm_txn_key())
    &&& unique_keys(db.events, event_key())
    &&& unique_keys(db.write_set_changes, wsc_key())
    &&& unique_keys(db.processor_statuses, status_key())
    &&& forall|i: int, j: int|
        0 <= i < j < db.ledger_infos.len() ==> db.ledger_infos[i] != db.ledger_infos[j]
}

pub struct Store {
    transactions: Vec<TransactionRow>,
    user_transactions: Vec<UserTransactionRow>,
    block_metadata_transactions: Vec<BlockMetadataTransactionRow>,
    events: Vec<EventRow>,
    write_set_changes: Vec<WriteSetChangeRow>,
    processor_statuses: Vec<ProcessorStatusRow>,
    ledger_infos: Vec<LedgerInfo>,
    fail_commits: u64,
    history: Ghost<Seq<ProcessorStatusRowView>>,
}

impl View for Store {
    type V = DbView;

    closed spec fn view(&self) -> DbView {
        DbView {
            transactions: self.transactions@.map_values(|r: TransactionRow| r@),
            user_transactions: self.user_transactions@.map_values(|r: UserTransactionRow| r@),
            block_metadata_transactions: self.block_metadata_transactions@.map_values(
                |r: BlockMetadataTransactionRow| r@,
            ),
            events: self.events@.map_values(|r: EventRow| r@),
            write_set_changes: self.write_set_changes@.map_values(|r: WriteSetChangeRow| r@),
            processor_statuses: self.processor_statuses@.map_values(|r: ProcessorStatusRow| r@),
            ledger_infos: self.ledger_infos@.map_values(|r: LedgerInfo| r.chain_id),
        }
    }
}

impl Store {
    pub open spec fn wf(&self) -> bool {
        db_wf(self@)
    }

    /// How many commits are still set up to fail.
    pub closed spec fn pending_failures(&self) -> u64 {
        self.fail_commits
    }

    /// Every status write ever applied, in order.
    pub closed spec fn history(&self) -> Seq<ProcessorStatusRowView> {
        self.history@
    }

    /// An empty database.
    pub fn new() -> (r: Store)
        ensures
            r.wf(),
            r@.transactions.len() == 0,
            r@.user_transactions.len() == 0,
            r@.block_metadata_transactions.len() == 0,
            r@.events.len() == 0,
            r@.write_set_changes.len() == 0,
            r@.processor_statuses.len() == 0,
            r@.ledger_infos.len() == 0,
            r.pending_failures() == 0,
            r.history().len() == 0,
    {
        Store {
            transactions: Vec::new(),
            user_transactions: Vec::new(),
            block_metadata_transactions: Vec::new(),
            events: Vec::new(),
            write_set_changes: Vec::new(),
            processor_statuses: Vec::new(),
            ledger_infos: Vec::new(),
            fail_commits: 0,
            history: Ghost(Seq::empty()),
        }
    }

    /// Arrange for the next `n` commits to be rejected by the backend, as a
    /// test harness for transient failures.
    pub fn inject_commit_failures(&mut self, n: u64)
        ensures
            final(self)@ == old(self)@,
            final(self).pending_failures() == n,
            final(self).history() == old(self).history(),
    {
        self.fail_commits = n;
    }

    /// Consume one pending injected failure, if any.
    pub(crate) fn take_pending_failure(&mut self) -> (failed: bool)
        ensures
            final(self)@ == old(self)@,
            final(self).history() == old(self).history(),
            failed == (old(self).pending_failures() > 0),
            failed ==> final(self).pending_failures() == old(self).pending_failures() - 1,
            !failed ==> final(self).pending_failures() == 0,
    {
        if self.fail_commits > 0 {
            self.fail_commits = self.fail_commits - 1;
            true
        } else {
            false
        }
    }

    // -----------------------------------------------------------------------
    // Read access
    // -----------------------------------------------------------------------

    pub fn transactions(&self) -> (r: &Vec<TransactionRow>)
        ensures
            r@.map_values(|x: TransactionRow| x@) == self@.transactions,
    {
        &self.transactions
    }

    pub fn user_transactions(&self) -> (r: &Vec<UserTransactionRow>)
        ensures
            r@.map_values(|x: UserTransactionRow| x@) == self@.user_transactions,
    {
        &self.user_transactions
    }

    pub fn block_metadata_transactions(&self) -> (r: &Vec<BlockMetadataTransactionRow>)
        ensures
            r@.map_values(|x: BlockMetadataTransactionRow| x@) == self@.block_metadata_transactions,
    {
        &self.block_metadata_transactions
    }

    pub fn events(&self) -> (r: &Vec<EventRow>)
        ensures
            r@.map_values(|x: EventRow| x@) == self@.events,
    {
        &self.events
    }

    pub fn write_set_changes(&self) -> (r: &Vec<WriteSetChangeRow>)
        ensures
            r@.map_values(|x: WriteSetChangeRow| x@) == self@.write_set_changes,
    {
        &self.write_set_changes
    }

    pub fn processor_statuses(&self) -> (r: &Vec<ProcessorStatusRow>)
        ensures
            r@.map_values(|x: ProcessorStatusRow| x@) == self@.processor_statuses,
    {
        &self.processor_statuses
    }

    // -----------------------------------------------------------------------
    // Transactions
    // -----------------------------------------------------------------------

    fn contains_txn_version(&self, version: u64) -> (r: bool)
        ensures
            r == has_key(self@.transactions, txn_key(), version),
    {
        let n = self.transactions.len();
        let mut i: usize = 0;
        while i < n
            invariant
                i <= n,
                n == self.transactions.len(),
                forall|j: int| 0 <= j < i ==> (#[trigger] self@.transactions[j]).version != version,
            decreases n - i,
        {
            if self.transactions[i].version == version {
                proof {
                    let kf = txn_key();
                    assert(self@.transactions[i as int] == self.transactions@[i as int]@);
                    assert(kf(self@.transactions[i as int]) == version);
                    lemma_find_by(self@.transactions, txn_key(), version);
                }
                return true;
            }
            i = i + 1;
        }
        proof {
            lemma_find_by(self@.transactions, txn_key(), version);
        }
        false
    }

    fn insert_transaction_row(&mut self, row: &TransactionRow)
        requires
            old(self).wf(),
        ensures
            final(self).wf(),
            final(self)@ == (DbView {
                transactions: insert_missing(old(self)@.transactions, seq![row@], txn_key()),
                ..old(self)@
            }),
            final(self).pending_failures() == old(self).pending_failures(),
            final(self).history() == old(self).history(),
    {
        proof {
            lemma_insert_missing_singleton(self@.transactions, row@, txn_key());
            lemma_insert_missing_unique(self@.transactions, seq![row@], txn_key());
        }
        let found = self.contains_txn_version(row.version);
        if !found {
            let ghost pre = self@.transactions;
            self.transactions.push(row.clone_row());
            proof {
                assert(self@.transactions =~= pre.push(row@));
            }
        }
    }

    /// Insert a batch of transaction rows, one chunk of statements at a
    /// time; rows whose version is already stored are left alone.
    pub(crate) fn insert_transactions(&mut self, rows: &Vec<TransactionRow>)
        requires
            old(self).wf(),
        ensures
            final(self).wf(),
            final(self)@ == (DbView {
                transactions: insert_missing(
                    old(self)@.transactions,
                    rows@.map_values(|r: TransactionRow| r@),
                    txn_key(),
                ),
                ..old(self)@
            }),
            final(self).pending_failures() == old(self).pending_failures(),
            final(self).history() == old(self).history(),
    {
        let ghost t0 = self@.transactions;
        let ghost rv = rows@.map_values(|r: TransactionRow| r@);
        let chunks = get_chunks(rows.len(), TRANSACTION_FIELD_COUNT);
        let nchunks = chunks.len();
        let mut ci: usize = 0;
        let mut done: usize = 0;
        proof {
            assert(rv.take(0) =~= Seq::<TransactionRowView>::empty());
        }
        while ci < nchunks
            invariant
                self.wf(),
                nchunks == chunks@.len(),
                rv == rows@.map_values(|r: TransactionRow| r@),
                t0 == old(self)@.transactions,
                ci <= nchunks,
                done <= rows@.len(),
                ci == 0 ==> done == 0,
                ci > 0 ==> done == chunks@[ci - 1].1,
                ci == nchunks ==> done == rows@.len(),
                forall|i: int|
                    0 <= i < chunks@.len() ==> (#[trigger] chunks@[i]).0 < chunks@[i].1
                        && chunks@[i].1 <= rows@.len(),
                forall|i: int|
                    0 <= i < chunks@.len() - 1 ==> (#[trigger] chunks@[i]).1 == chunks@[i + 1].0,
                rows@.len() > 0 ==> chunks@.len() > 0 && chunks@[0].0 == 0
                    && chunks@[chunks@.len() - 1].1 == rows@.len(),
                self@ == (DbView {
                    transactions: insert_missing(t0, rv.take(done as int), txn_key()),
                    ..old(self)@
                }),
                self.pending_failures() == old(self).pending_failures(),
                self.history() == old(self).history(),
            decreases nchunks - ci,
        {
            let pair = chunks[ci];
            let cend = pair.1;
            let mut k = pair.0;
            proof {
                assert(k == done);
            }
            while k < cend
                invariant
                    self.wf(),
                    rv == rows@.map_values(|r: TransactionRow| r@),
                    t0 == old(self)@.transactions,
                    k <= cend,
                    cend <= rows@.len(),
                    self@ == (DbView {
                        transactions: insert_missing(t0, rv.take(k as int), txn_key()),
                        ..old(self)@
                    }),
                    self.pending_failures() == old(self).pending_failures(),
                    self.history() == old(self).history(),
                decreases cend - k,
            {
                let ghost before = insert_missing(t0, rv.take(k as int), txn_key());
                self.insert_transaction_row(&rows[k]);
                proof {
                    assert(rv.take(k + 1).drop_last() =~= rv.take(k as int));
                    assert(rv.take(k + 1).last() == rv[k as int]);
                    lemma_insert_missing_singleton(before, rv[k as int], txn_key());
                    assert(rv[k as int] == rows@[k as int]@);
                }
                k = k + 1;
            }
            done = cend;
            ci = ci + 1;
        }
        proof {
            assert(rv.take(done as int) =~= rv);
        }
    }

    // -----------------------------------------------------------------------
    // User transactions
    // -----------------------------------------------------------------------

    fn contains_user_txn_version(&self, version: u64) -> (r: bool)
        ensures
            r == has_key(self@.user_transactions, user_txn_key(), version),
    {
        let n = self.user_transactions.len();
        let mut i: usize = 0;
        while i < n
            invariant
                i <= n,
                n == self.user_transactions.len(),
                forall|j: int|
                    0 <= j < i ==> (#[trigger] self@.user_transactions[j]).version != version,
            decreases n - i,
        {
            if self.user_transactions[i].version == version {
                proof {
                    let kf = user_txn_key();
                    assert(self@.user_transactions[i as int] == self.user_transactions@[i as int]@);
                    assert(kf(self@.user_transactions[i as int]) == version);
                    lemma_find_by(self@.user_transactions, user_txn_key(), version);
                }
                return true;
            }
            i = i + 1;
        }
        proof {
            lemma_find_by(self@.user_transactions, user_txn_key(), version);
        }
        false
    }

    fn insert_user_transaction_row(&mut self, row: &UserTransactionRow)
        requires
            old(self).wf(),
        ensures
            final(self).wf(),
            final(self)@ == (DbView {
                user_transactions: insert_missing(
                    old(self)@.user_transactions,
                    seq![row@],
                    user_txn_key(),
                ),
                ..old(self)@
            }),
            final(self).pending_failures() == old(self).pending_failures(),
            final(self).history() == old(self).history(),
    {
        proof {
            lemma_insert_missing_singleton(self@.user_transactions, row@, user_txn_key());
            lemma_insert_missing_unique(self@.user_transactions, seq![row@], user_txn_key());
        }
        let found = self.contains_user_txn_version(row.version);
        if !found {
            let ghost pre = self@.user_transactions;
            self.user_transactions.push(row.clone_row());
            proof {
                assert(self@.user_transactions =~= pre.push(row@));
            }
        }
    }

    /// Insert a batch of user-transaction rows, chunked, skipping versions
    /// already stored.
    pub(crate) fn insert_user_transactions(&mut self, rows: &Vec<UserTransactionRow>)
        requires
            old(self).wf(),
        ensures
            final(self).wf(),
            final(self)@ == (DbView {
                user_transactions: insert_missing(
                    old(self)@.user_transactions,
                    rows@.map_values(|r: UserTransactionRow| r@),
                    user_txn_key(),
                ),
                ..old(self)@
            }),
            final(self).pending_failures() == old(self).pending_failures(),
            final(self).history() == old(self).history(),
    {
        let ghost t0 = self@.user_transactions;
        let ghost rv = rows@.map_values(|r: UserTransactionRow| r@);
        let chunks = get_chunks(rows.len(), USER_TRANSACTION_FIELD_COUNT);
        let nchunks = chunks.len();
        let mut ci: usize = 0;
        let mut done: usize = 0;
        proof {
            assert(rv.take(0) =~= Seq::<UserTransactionRowView>::empty());
        }
        while ci < nchunks
            invariant
                self.wf(),
                nchunks == chunks@.len(),
                rv == rows@.map_values(|r: UserTransactionRow| r@),
                t0 == old(self)@.user_transactions,
                ci <= nchunks,
                done <= rows@.len(),
                ci == 0 ==> done == 0,
                ci > 0 ==> done == chunks@[ci - 1].1,
                ci == nchunks ==> done == rows@.len(),
                forall|i: int|
                    0 <= i < chunks@.len() ==> (#[trigger] chunks@[i]).0 < chunks@[i].1
                        && chunks@[i].1 <= rows@.len(),
                forall|i: int|
                    0 <= i < chunks@.len() - 1 ==> (#[trigger] chunks@[i]).1 == chunks@[i + 1].0,
                rows@.len() > 0 ==> chunks@.len() > 0 && chunks@[0].0 == 0
                    && chunks@[chunks@.len() - 1].1 == rows@.len(),
                self@ == (DbView {
                    user_transactions: insert_missing(t0, rv.take(done as int), user_txn_key()),
                    ..old(self)@
                }),
                self.pending_failures() == old(self).pending_failures(),
                self.history() == old(self).history(),
            decreases nchunks - ci,
        {
            let pair = chunks[ci];
            let cend = pair.1;
            let mut k = pair.0;
            proof {
                assert(k == done);
            }
            while k < cend
                invariant
                    self.wf(),
                    rv == rows@.map_values(|r: UserTransactionRow| r@),
                    t0 == old(self)@.user_transactions,
                    k <= cend,
                    cend <= rows@.len(),
                    self@ == (DbView {
                        user_transactions: insert_missing(t0, rv.take(k as int), user_txn_key()),
                        ..old(self)@
                    }),
                    self.pending_failures() == old(self).pending_failures(),
                    self.history() == old(self).history(),
                decreases cend - k,
            {
                let ghost before = insert_missing(t0, rv.take(k as int), user_txn_key());
                self.insert_user_transaction_row(&rows[k]);
                proof {
                    assert(rv.take(k + 1).drop_last() =~= rv.take(k as int));
                    assert(rv.take(k + 1).last() == rv[k as int]);
                    lemma_insert_missing_singleton(before, rv[k as int], user_txn_key());
                    assert(rv[k as int] == rows@[k as int]@);
                }
                k = k + 1;
            }
            done = cend;
            ci = ci + 1;
        }
        proof {
            assert(rv.take(done as int) =~= rv);
        }
    }

    // -----------------------------------------------------------------------
    // Block-metadata transactions
    // -----------------------------------------------------------------------

    fn contains_bm_txn_version(&self, version: u64) -> (r: bool)
        ensures
            r == has_key(self@.block_metadata_transactions, bm_txn_key(), version),
    {
        let n = self.block_metadata_transactions.len();
        let mut i: usize = 0;
        while i < n
            invariant
                i <= n,
                n == self.block_metadata_transactions.len(),
                forall|j: int|
                    0 <= j < i ==> (#[trigger] self@.block_metadata_transactions[j]).version
                        != version,
            decreases n - i,
        {
            if self.block_metadata_transactions[i].version == version {
                proof {
                    let kf = bm_txn_key();
                    assert(self@.block_metadata_transactions[i as int]
                        == self.block_metadata_transactions@[i as int]@);
                    assert(kf(self@.block_metadata_transactions[i as int]) == version);
                    lemma_find_by(self@.block_metadata_transactions, bm_txn_key(), version);
                }
                return true;
            }
            i = i + 1;
        }
        proof {
            lemma_find_by(self@.block_metadata_transactions, bm_txn_key(), version);
        }
        false
    }

    fn insert_bm_transaction_row(&mut self, row: &BlockMetadataTransactionRow)
        requires
            old(self).wf(),
        ensures
            final(self).wf(),
            final(self)@ == (DbView {
                block_metadata_transactions: insert_missing(
                    old(self)@.block_metadata_transactions,
                    seq![row@],
                    bm_txn_key(),
                ),
                ..old(self)@
            }),
            final(self).pending_failures() == old(self).pending_failures(),
            final(self).history() == old(self).history(),
    {
        proof {
            lemma_insert_missing_singleton(self@.block_metadata_transactions, row@, bm_txn_key());
            lemma_insert_missing_unique(
                self@.block_metadata_transactions,
                seq![row@],
                bm_txn_key(),
            );
        }
        let found = self.contains_bm_txn_version(row.version);
        if !found {
            let ghost pre = self@.block_metadata_transactions;
            self.block_metadata_transactions.push(row.clone_row());
            proof {
                assert(self@.block_metadata_transactions =~= pre.push(row@));
            }
        }
    }

    /// Insert a batch of block-metadata rows, chunked, skipping versions
    /// already stored.
    pub(crate) fn insert_block_metadata_transactions(
        &mut self,
        rows: &Vec<BlockMetadataTransactionRow>,
    )
        requires
            old(self).wf(),
        ensures
            final(self).wf(),
            final(self)@ == (DbView {
                block_metadata_transactions: insert_missing(
                    old(self)@.block_metadata_transactions,
                    rows@.map_values(|r: BlockMetadataTransactionRow| r@),
                    bm_txn_key(),
                ),
                ..old(self)@
            }),
            final(self).pending_failures() == old(self).pending_failures(),
            final(self).history() == old(self).history(),
    {
        let ghost t0 = self@.block_metadata_transactions;
        let ghost rv = rows@.map_values(|r: BlockMetadataTransactionRow| r@);
        let chunks = get_chunks(rows.len(), BLOCK_METADATA_TRANSACTION_FIELD_COUNT);
        let nchunks = chunks.len();
        let mut ci: usize = 0;
        let mut done: usize = 0;
        proof {
            assert(rv.take(0) =~= Seq::<BlockMetadataTransactionRowView>::empty());
        }
        while ci < nchunks
            invariant
                self.wf(),
                nchunks == chunks@.len(),
                rv == rows@.map_values(|r: BlockMetadataTransactionRow| r@),
                t0 == old(self)@.block_metadata_transactions,
                ci <= nchunks,
                done <= rows@.len(),
                ci == 0 ==> done == 0,
                ci > 0 ==> done == chunks@[ci - 1].1,
                ci == nchunks ==> done == rows@.len(),
                forall|i: int|
                    0 <= i < chunks@.len() ==> (#[trigger] chunks@[i]).0 < chunks@[i].1
                        && chunks@[i].1 <= rows@.len(),
                forall|i: int|
                    0 <= i < chunks@.len() - 1 ==> (#[trigger] chunks@[i]).1 == chunks@[i + 1].0,
                rows@.len() > 0 ==> chunks@.len() > 0 && chunks@[0].0 == 0
                    && chunks@[chunks@.len() - 1].1 == rows@.len(),
                self@ == (DbView {
                    block_metadata_transactions: insert_missing(
                        t0,
                        rv.take(done as int),
                        bm_txn_key(),
                    ),
                    ..old(self)@
                }),
                self.pending_failures() == old(self).pending_failures(),
                self.history() == old(self).history(),
            decreases nchunks - ci,
        {
            let pair = chunks[ci];
            let cend = pair.1;
            let mut k = pair.0;
            proof {
                assert(k == done);
            }
            while k < cend
                invariant
                    self.wf(),
                    rv == rows@.map_values(|r: BlockMetadataTransactionRow| r@),
                    t0 == old(self)@.block_metadata_transactions,
                    k <= cend,
                    cend <= rows@.len(),
                    self@ == (DbView {
                        block_metadata_transactions: insert_missing(
                            t0,
                            rv.take(k as int),
                            bm_txn_key(),
                        ),
                        ..old(self)@
                    }),
                    self.pending_failures() == old(self).pending_failures(),
                    self.history() == old(self).history(),
                decreases cend - k,
            {
                let ghost before = insert_missing(t0, rv.take(k as int), bm_txn_key());
                self.insert_bm_transaction_row(&rows[k]);
                proof {
                    assert(rv.take(k + 1).drop_last() =~= rv.take(k as int));
                    assert(rv.take(k + 1).last() == rv[k as int]);
                    lemma_insert_missing_singleton(before, rv[k as int], bm_txn_key());
                    assert(rv[k as int] == rows@[k as int]@);
                }
                k = k + 1;
            }
            done = cend;
            ci = ci + 1;
        }
        proof {
            assert(rv.take(done as int) =~= rv);
        }
    }

    // -----------------------------------------------------------------------
    // Events
    // -----------------------------------------------------------------------

    fn contains_event_pk(
        &self,
        account_address: &String,
        creation_number: u64,
        sequence_number: u64,
    ) -> (r: bool)
        ensures
            r == has_key(
                self@.events,
                event_key(),
                (account_address@, creation_number, sequence_number),
            ),
    {
        let n = self.events.len();
        let mut i: usize = 0;
        while i < n
            invariant
                i <= n,
                n == self.events.len(),
                forall|j: int|
                    0 <= j < i ==> ((#[trigger] self@.events[j]).account_address,
                    self@.events[j].creation_number, self@.events[j].sequence_number) != (
                    account_address@,
                    creation_number,
                    sequence_number,
                ),
            decreases n - i,
        {
            if self.events[i].account_address == *account_address
                && self.events[i].creation_number == creation_number
                && self.events[i].sequence_number == sequence_number {
                proof {
                    let kf = event_key();
                    assert(self@.events[i as int] == self.events@[i as int]@);
                    assert(kf(self@.events[i as int]) == (
                        account_address@,
                        creation_number,
                        sequence_number,
                    ));
                    lemma_find_by(
                        self@.events,
                        event_key(),
                        (account_address@, creation_number, sequence_number),
                    );
                }
                return true;
            }
            i = i + 1;
        }
        proof {
            lemma_find_by(
                self@.events,
                event_key(),
                (account_address@, creation_number, sequence_number),
            );
        }
        false
    }

    fn insert_event_row(&mut self, row: &EventRow)
        requires
            old(self).wf(),
        ensures
            final(self).wf(),
            final(self)@ == (DbView {
                events: insert_missing(old(self)@.events, seq![row@], event_key()),
                ..old(self)@
            }),
            final(self).pending_failures() == old(self).pending_failures(),
            final(self).history() == old(self).history(),
    {
        proof {
            lemma_insert_missing_singleton(self@.events, row@, event_key());
            lemma_insert_missing_unique(self@.events, seq![row@], event_key());
        }
        let found = self.contains_event_pk(
            &row.account_address,
            row.creation_number,
            row.sequence_number,
        );
        if !found {
            let ghost pre = self@.events;
            self.events.push(row.clone_row());
            proof {
                assert(self@.events =~= pre.push(row@));
            }
        }
    }

    /// Insert a batch of event rows, chunked, skipping primary keys already
    /// stored.
    pub(crate) fn insert_events(&mut self, rows: &Vec<EventRow>)
        requires
            old(self).wf(),
        ensures
            final(self).wf(),
            final(self)@ == (DbView {
                events: insert_missing(
                    old(self)@.events,
                    rows@.map_values(|r: EventRow| r@),
                    event_key(),
                ),
                ..old(self)@
            }),
            final(self).pending_failures() == old(self).pending_failures(),
            final(self).history() == old(self).history(),
    {
        let ghost t0 = self@.events;
        let ghost rv = rows@.map_values(|r: EventRow| r@);
        let chunks = get_chunks(rows.len(), EVENT_FIELD_COUNT);
        let nchunks = chunks.len();
        let mut ci: usize = 0;
        let mut done: usize = 0;
        proof {
            assert(rv.take(0) =~= Seq::<EventRowView>::empty());
        }
        while ci < nchunks
            invariant
                self.wf(),
                nchunks == chunks@.len(),
                rv == rows@.map_values(|r: EventRow| r@),
                t0 == old(self)@.events,
                ci <= nchunks,
                done <= rows@.len(),
                ci == 0 ==> done == 0,
                ci > 0 ==> done == chunks@[ci - 1].1,
                ci == nchunks ==> done == rows@.len(),
                forall|i: int|
                    0 <= i < chunks@.len() ==> (#[trigger] chunks@[i]).0 < chunks@[i].1
                        && chunks@[i].1 <= rows@.len(),
                forall|i: int|
                    0 <= i < chunks@.len() - 1 ==> (#[trigger] chunks@[i]).1 == chunks@[i + 1].0,
                rows@.len() > 0 ==> chunks@.len() > 0 && chunks@[0].0 == 0
                    && chunks@[chunks@.len() - 1].1 == rows@.len(),
                self@ == (DbView {
                    events: insert_missing(t0, rv.take(done as int), event_key()),
                    ..old(self)@
                }),
                self.pending_failures() == old(self).pending_failures(),
                self.history() == old(self).history(),
            decreases nchunks - ci,
        {
            let pair = chunks[ci];
            let cend = pair.1;
            let mut k = pair.0;
            proof {
                assert(k == done);
            }
            while k < cend
                invariant
                    self.wf(),
                    rv == rows@.map_values(|r: EventRow| r@),
                    t0 == old(self)@.events,
                    k <= cend,
                    cend <= rows@.len(),
                    self@ == (DbView {
                        events: insert_missing(t0, rv.take(k as int), event_key()),
                        ..old(self)@
                    }),
                    self.pending_failures() == old(self).pending_failures(),
                    self.history() == old(self).history(),
                decreases cend - k,
            {
                let ghost before = insert_missing(t0, rv.take(k as int), event_key());
                self.insert_event_row(&rows[k]);
                proof {
                    assert(rv.take(k + 1).drop_last() =~= rv.take(k as int));
                    assert(rv.take(k + 1).last() == rv[k as int]);
                    lemma_insert_missing_singleton(before, rv[k as int], event_key());
                    assert(rv[k as int] == rows@[k as int]@);
                }
                k = k + 1;
            }
            done = cend;
            ci = ci + 1;
        }
        proof {
            assert(rv.take(done as int) =~= rv);
        }
    }

    // -----------------------------------------------------------------------
    // Write-set changes
    // -----------------------------------------------------------------------

    fn contains_wsc_pk(&self, transaction_version: u64, index: u64) -> (r: bool)
        ensures
            r == has_key(self@.write_set_changes, wsc_key(), (transaction_version, index)),
    {
        let n = self.write_set_changes.len();
        let mut i: usize = 0;
        while i < n
            invariant
                i <= n,
                n == self.write_set_changes.len(),
                forall|j: int|
                    0 <= j < i ==> ((#[trigger] self@.write_set_changes[j]).transaction_version,
                    self@.write_set_changes[j].index) != (transaction_version, index),
            decreases n - i,
        {
            if self.write_set_changes[i].transaction_version == transaction_version
                && self.write_set_changes[i].index == index {
                proof {
                    let kf = wsc_key();
                    assert(self@.write_set_changes[i as int]
                        == self.write_set_changes@[i as int]@);
                    assert(kf(self@.write_set_changes[i as int]) == (transaction_version, index));
                    lemma_find_by(self@.write_set_changes, wsc_key(), (transaction_version, index));
                }
                return true;
            }
            i = i + 1;
        }
        proof {
            lemma_find_by(self@.write_set_changes, wsc_key(), (transaction_version, index));
        }
        false
    }

    fn insert_wsc_row(&mut self, row: &WriteSetChangeRow)
        requires
            old(self).wf(),
        ensures
            final(self).wf(),
            final(self)@ == (DbView {
                write_set_changes: insert_missing(
                    old(self)@.write_set_changes,
                    seq![row@],
                    wsc_key(),
                ),
                ..old(self)@
            }),
            final(self).pending_failures() == old(self).pending_failures(),
            final(self).history() == old(self).history(),
    {
        proof {
            lemma_insert_missing_singleton(self@.write_set_changes, row@, wsc_key());
            lemma_insert_missing_unique(self@.write_set_changes, seq![row@], wsc_key());
        }
        let found = self.contains_wsc_pk(row.transaction_version, row.index);
        if !found {
            let ghost pre = self@.write_set_changes;
            self.write_set_changes.push(row.clone_row());
            proof {
                assert(self@.write_set_changes =~= pre.push(row@));
            }
        }
    }

    /// Insert a batch of write-set-change rows, chunked, skipping primary
    /// keys already stored.
    pub(crate) fn insert_write_set_changes(&mut self, rows: &Vec<WriteSetChangeRow>)
        requires
            old(self).wf(),
        ensures
            final(self).wf(),
            final(self)@ == (DbView {
                write_set_changes: insert_missing(
                    old(self)@.write_set_changes,
                    rows@.map_values(|r: WriteSetChangeRow| r@),
                    wsc_key(),
                ),
                ..old(self)@
            }),
            final(self).pending_failures() == old(self).pending_failures(),
            final(self).history() == old(self).history(),
    {
        let ghost t0 = self@.write_set_changes;
        let ghost rv = rows@.map_values(|r: WriteSetChangeRow| r@);
        let chunks = get_chunks(rows.len(), WRITE_SET_CHANGE_FIELD_COUNT);
        let nchunks = chunks.len();
        let mut ci: usize = 0;
        let mut done: usize = 0;
        proof {
            assert(rv.take(0) =~= Seq::<WriteSetChangeRowView>::empty());
        }
        while ci < nchunks
            invariant
                self.wf(),
                nchunks == chunks@.len(),
                rv == rows@.map_values(|r: WriteSetChangeRow| r@),
                t0 == old(self)@.write_set_changes,
                ci <= nchunks,
                done <= rows@.len(),
                ci == 0 ==> done == 0,
                ci > 0 ==> done == chunks@[ci - 1].1,
                ci == nchunks ==> done == rows@.len(),
                forall|i: int|
                    0 <= i < chunks@.len() ==> (#[trigger] chunks@[i]).0 < chunks@[i].1
                        && chunks@[i].1 <= rows@.len(),
                forall|i: int|
                    0 <= i < chunks@.len() - 1 ==> (#[trigger] chunks@[i]).1 == chunks@[i + 1].0,
                rows@.len() > 0 ==> chunks@.len() > 0 && chunks@[0].0 == 0
                    && chunks@[chunks@.len() - 1].1 == rows@.len(),
                self@ == (DbView {
                    write_set_changes: insert_missing(t0, rv.take(done as int), wsc_key()),
                    ..old(self)@
                }),
                self.pending_failures() == old(self).pending_failures(),
                self.history() == old(self).history(),
            decreases nchunks - ci,
        {
            let pair = chunks[ci];
            let cend = pair.1;
            let mut k = pair.0;
            proof {
                assert(k == done);
            }
            while k < cend
                invariant
                    self.wf(),
                    rv == rows@.map_values(|r: WriteSetChangeRow| r@),
                    t0 == old(self)@.write_set_changes,
                    k <= cend,
                    cend <= rows@.len(),
                    self@ == (DbView {
                        write_set_changes: insert_missing(t0, rv.take(k as int), wsc_key()),
                        ..old(self)@
                    }),
                    self.pending_failures() == old(self).pending_failures(),
                    self.history() == old(self).history(),
                decreases cend - k,
            {
                let ghost before = insert_missing(t0, rv.take(k as int), wsc_key());
                self.insert_wsc_row(&rows[k]);
                proof {
                    assert(rv.take(k + 1).drop_last() =~= rv.take(k as int));
                    assert(rv.take(k + 1).last() == rv[k as int]);
                    lemma_insert_missing_singleton(before, rv[k as int], wsc_key());
                    assert(rv[k as int] == rows@[k as int]@);
                }
                k = k + 1;
            }
            done = cend;
            ci = ci + 1;
        }
        proof {
            assert(rv.take(done as int) =~= rv);
        }
    }

    // -----------------------------------------------------------------------
    // Processor statuses
    // -----------------------------------------------------------------------

    fn find_status_index(&self, name: &String, version: u64) -> (r: Option<usize>)
        requires
            self.wf(),
        ensures
            match r {
                Option::Some(i) => i < self@.processor_statuses.len() && find_by(
                    self@.processor_statuses,
                    status_key(),
                    (name@, version),
                ) == i as int,
                Option::None => find_by(self@.processor_statuses, status_key(), (name@, version))
                    == -1,
            },
    {
        let n = self.processor_statuses.len();
        let mut i: usize = 0;
        while i < n
            invariant
                self.wf(),
                i <= n,
                n == self.processor_statuses.len(),
                forall|j: int|
                    0 <= j < i ==> ((#[trigger] self@.processor_statuses[j]).name,
                    self@.processor_statuses[j].version) != (name@, version),
            decreases n - i,
        {
            if self.processor_statuses[i].name == *name
                && self.processor_statuses[i].version == version {
                proof {
                    let kf = status_key();
                    assert(self@.processor_statuses[i as int]
                        == self.processor_statuses@[i as int]@);
                    assert(kf(self@.processor_statuses[i as int]) == (name@, version));
                    lemma_find_by_unique(
                        self@.processor_statuses,
                        status_key(),
                        (name@, version),
                        i as int,
                    );
                }
                return Option::Some(i);
            }
            i = i + 1;
        }
        proof {
            lemma_find_by(self@.processor_statuses, status_key(), (name@, version));
        }
        Option::None
    }

    fn upsert_status_row(&mut self, row: &ProcessorStatusRow)
        requires
            old(self).wf(),
        ensures
            final(self).wf(),
            final(self)@ == (DbView {
                processor_statuses: upsert_rows(
                    old(self)@.processor_statuses,
                    seq![row@],
                    status_key(),
                ),
                ..old(self)@
            }),
            final(self).pending_failures() == old(self).pending_failures(),
            final(self).history() == old(self).history() + seq![row@],
    {
        proof {
            lemma_upsert_singleton(self@.processor_statuses, row@, status_key());
            lemma_upsert_unique(self@.processor_statuses, seq![row@], status_key());
        }
        let idx = self.find_status_index(&row.name, row.version);
        match idx {
            Option::Some(i) => {
                let ghost pre = self@.processor_statuses;
                self.processor_statuses.set(i, row.clone_row());
                proof {
                    assert(self@.processor_statuses =~= pre.update(i as int, row@));
                }
            },
            Option::None => {
                let ghost pre = self@.processor_statuses;
                self.processor_statuses.push(row.clone_row());
                proof {
                    assert(self@.processor_statuses =~= pre.push(row@));
                }
            },
        }
        self.history = Ghost(self.history@ + seq![row@]);
    }

    /// Upsert a batch of status rows by `(name, version)`, one chunk of
    /// statements at a time; on conflict the new row overwrites the old.
    pub fn apply_processor_status(&mut self, rows: &Vec<ProcessorStatusRow>)
        requires
            old(self).wf(),
        ensures
            final(self).wf(),
            final(self)@ == (DbView {
                processor_statuses: upsert_rows(
                    old(self)@.processor_statuses,
                    rows@.map_values(|r: ProcessorStatusRow| r@),
                    status_key(),
                ),
                ..old(self)@
            }),
            final(self).pending_failures() == old(self).pending_failures(),
            final(self).history() == old(self).history() + rows@.map_values(
                |r: ProcessorStatusRow| r@,
            ),
    {
        let ghost t0 = self@.processor_statuses;
        let ghost h0 = self.history();
        let ghost rv = rows@.map_values(|r: ProcessorStatusRow| r@);
        let chunks = get_chunks(rows.len(), PROCESSOR_STATUS_FIELD_COUNT);
        let nchunks = chunks.len();
        let mut ci: usize = 0;
        let mut done: usize = 0;
        proof {
            assert(rv.take(0) =~= Seq::<ProcessorStatusRowView>::empty());
            assert(h0 + rv.take(0) =~= h0);
        }
        while ci < nchunks
            invariant
                self.wf(),
                nchunks == chunks@.len(),
                rv == rows@.map_values(|r: ProcessorStatusRow| r@),
                t0 == old(self)@.processor_statuses,
                h0 == old(self).history(),
                ci <= nchunks,
                done <= rows@.len(),
                ci == 0 ==> done == 0,
                ci > 0 ==> done == chunks@[ci - 1].1,
                ci == nchunks ==> done == rows@.len(),
                forall|i: int|
                    0 <= i < chunks@.len() ==> (#[trigger] chunks@[i]).0 < chunks@[i].1
                        && chunks@[i].1 <= rows@.len(),
                forall|i: int|
                    0 <= i < chunks@.len() - 1 ==> (#[trigger] chunks@[i]).1 == chunks@[i + 1].0,
                rows@.len() > 0 ==> chunks@.len() > 0 && chunks@[0].0 == 0
                    && chunks@[chunks@.len() - 1].1 == rows@.len(),
                self@ == (DbView {
                    processor_statuses: upsert_rows(t0, rv.take(done as int), status_key()),
                    ..old(self)@
                }),
                self.pending_failures() == old(self).pending_failures(),
                self.history() == h0 + rv.take(done as int),
            decreases nchunks - ci,
        {
            let pair = chunks[ci];
            let cend = pair.1;
            let mut k = pair.0;
            proof {
                assert(k == done);
            }
            while k < cend
                invariant
                    self.wf(),
                    rv == rows@.map_values(|r: ProcessorStatusRow| r@),
                    t0 == old(self)@.processor_statuses,
                    h0 == old(self).history(),
                    k <= cend,
                    cend <= rows@.len(),
                    self@ == (DbView {
                        processor_statuses: upsert_rows(t0, rv.take(k as int), status_key()),
                        ..old(self)@
                    }),
                    self.pending_failures() == old(self).pending_failures(),
                    self.history() == h0 + rv.take(k as int),
                decreases cend - k,
            {
                let ghost before = upsert_rows(t0, rv.take(k as int), status_key());
                self.upsert_status_row(&rows[k]);
                proof {
                    assert(rv.take(k + 1).drop_last() =~= rv.take(k as int));
                    assert(rv.take(k + 1).last() == rv[k as int]);
                    lemma_upsert_singleton(before, rv[k as int], status_key());
                    assert(rv[k as int] == rows@[k as int]@);
                    assert(h0 + rv.take(k as int) + seq![rv[k as int]] =~= h0 + rv.take(k + 1));
                }
                k = k + 1;
            }
            done = cend;
            ci = ci + 1;
        }
        proof {
            assert(rv.take(done as int) =~= rv);
        }
    }

    /// The largest version with a status row for this processor, whatever
    /// its success flag; this is the resume point after a restart.
    pub fn get_max_version(&self, processor_name: &String) -> (r: Option<u64>)
        ensures
            r == max_version_of(self@.processor_statuses, processor_name@),
    {
        let ghost s = self@.processor_statuses;
        let n = self.processor_statuses.len();
        let mut best: Option<u64> = Option::None;
        let mut i: usize = 0;
        proof {
            assert(s.take(0) =~= Seq::<ProcessorStatusRowView>::empty());
        }
        while i < n
            invariant
                s == self@.processor_statuses,
                i <= n,
                n == self.processor_statuses.len(),
                best == max_version_of(s.take(i as int), processor_name@),
            decreases n - i,
        {
            let matches_name = self.processor_statuses[i].name == *processor_name;
            let v = self.processor_statuses[i].version;
            proof {
                assert(s.take(i + 1).drop_last() =~= s.take(i as int));
                assert(s.take(i + 1).last() == s[i as int]);
                assert(s[i as int] == self.processor_statuses@[i as int]@);
            }
            if matches_name {
                best = match best {
                    Option::Some(m) => if v > m {
                        Option::Some(v)
                    } else {
                        Option::Some(m)
                    },
                    Option::None => Option::Some(v),
                };
            }
            i = i + 1;
        }
        proof {
            assert(s.take(n as int) =~= s);
        }
        best
    }

    /// Every version this processor has not finished successfully —
    /// crashed *started* rows and explicit errors alike — in ascending
    /// order.
    pub fn get_error_versions(&self, processor_name: &String) -> (r: Vec<u64>)
        requires
            self.wf(),
        ensures
            forall|a: int, b: int| 0 <= a < b < r@.len() ==> r@[a] < r@[b],
            forall|v: u64| #![auto]
                r@.contains(v) == is_error_version(
                    self@.processor_statuses,
                    processor_name@,
                    v,
                ),
    {
        let ghost s = self@.processor_statuses;
        let ghost name = processor_name@;
        let n = self.processor_statuses.len();
        let mut out: Vec<u64> = Vec::new();
        let mut i: usize = 0;
        while i < n
            invariant
                self.wf(),
                s == self@.processor_statuses,
                name == processor_name@,
                i <= n,
                n == self.processor_statuses.len(),
                forall|a: int, b: int| 0 <= a < b < out@.len() ==> out@[a] < out@[b],
                forall|v: u64| #![auto]
                    out@.contains(v) == exists|j: int|
                        0 <= j < i && row_is_error(s[j], name, v),
            decreases n - i,
        {
            let row = &self.processor_statuses[i];
            proof {
                assert(s[i as int] == self.processor_statuses@[i as int]@);
            }
            if row.name == *processor_name && !row.success {
                let v = row.version;
                let ghost pre = out@;
                proof {
                    // v cannot be in `out` yet: an earlier row with the same
                    // (name, version) key would break key uniqueness
                    assert(!pre.contains(v)) by {
                        if pre.contains(v) {
                            let j = choose|j: int| 0 <= j < i && row_is_error(s[j], name, v);
                            let kf = status_key();
                            assert(kf(s[j]) == kf(s[i as int]));
                        }
                    }
                }
                let mut pos: usize = 0;
                while pos < out.len() && out[pos] < v
                    invariant
                        pos <= out@.len(),
                        forall|a: int, b: int| 0 <= a < b < out@.len() ==> out@[a] < out@[b],
                        forall|a: int| 0 <= a < pos ==> out@[a] < v,
                        out@ == pre,
                    decreases out@.len() - pos,
                {
                    pos = pos + 1;
                }
                proof {
                    assert forall|a: int| pos <= a < pre.len() implies pre[a] >= v by {
                        if a > pos {
                            assert(pre[pos as int] < pre[a]);
                        }
                    }
                    assert forall|a: int| pos <= a < pre.len() implies pre[a] != v by {
                        if pre[a] == v {
                            assert(pre.contains(v));
                        }
                    }
                }
                out.insert(pos, v);
                proof {
                    pre.insert_ensures(pos as int, v);
                    let cur = out@;
                    assert forall|a: int, b: int| 0 <= a < b < cur.len() implies cur[a]
                        < cur[b] by {
                        if b < pos {
                        } else if a < pos && b == pos {
                            assert(cur[a] == pre[a] && cur[b] == v);
                        } else if a < pos && b > pos {
                            assert(cur[a] == pre[a] && cur[b] == pre[b - 1]);
                            assert(pre[b - 1] != v && pre[b - 1] >= v);
                        } else if a == pos {
                            assert(cur[a] == v && cur[b] == pre[b - 1]);
                            assert(pre[b - 1] != v && pre[b - 1] >= v);
                        } else {
                            assert(cur[a] == pre[a - 1] && cur[b] == pre[b - 1]);
                        }
                    }
                    assert forall|u: u64| #![auto] cur.contains(u) implies (pre.contains(u) || u
                        == v) by {
                        let k = choose|k: int| 0 <= k < cur.len() && cur[k] == u;
                        if k < pos {
                            assert(pre[k] == u);
                        } else if k > pos {
                            assert(pre[k - 1] == u);
                        }
                    }
                    assert forall|u: u64| #![auto] pre.contains(u) implies cur.contains(u) by {
                        let k = choose|k: int| 0 <= k < pre.len() && pre[k] == u;
                        if k < pos {
                            assert(cur[k] == u);
                        } else {
                            assert(cur[k + 1] == u);
                        }
                    }
                    assert(cur[pos as int] == v);
                    assert(cur.contains(v));
                }
            }
            i = i + 1;
        }
        proof {
            assert forall|v: u64| #![auto]
                out@.contains(v) == is_error_version(s, name, v) by {
                if out@.contains(v) {
                    let j = choose|j: int| 0 <= j < n && row_is_error(s[j], name, v);
                    lemma_find_by_unique(s, status_key(), (name, v), j);
                }
                if is_error_version(s, name, v) {
                    lemma_find_by(s, status_key(), (name, v));
                    let j = find_by(s, status_key(), (name, v));
                    assert(row_is_error(s[j], name, v));
                }
            }
        }
        out
    }

    // -----------------------------------------------------------------------
    // Ledger infos
    // -----------------------------------------------------------------------

    /// The first stored ledger-info row, if any.
    pub fn load_ledger_info(&self) -> (r: Option<LedgerInfo>)
        ensures
            match r {
                Option::Some(li) => self@.ledger_infos.len() > 0 && li.chain_id
                    == self@.ledger_infos[0],
                Option::None => self@.ledger_infos.len() == 0,
            },
    {
        if self.ledger_infos.len() > 0 {
            Option::Some(LedgerInfo { chain_id: self.ledger_infos[0].chain_id })
        } else {
            Option::None
        }
    }

    /// Plain insert of a ledger-info row: a duplicate chain id is a
    /// primary-key conflict and is rejected.
    pub fn insert_ledger_info(&mut self, ledger_info: LedgerInfo) -> (r: Result<(), StoreError>)
        requires
            old(self).wf(),
        ensures
            final(self).wf(),
            final(self).pending_failures() == old(self).pending_failures(),
            final(self).history() == old(self).history(),
            old(self)@.ledger_infos.contains(ledger_info.chain_id) ==> r is Err && final(self)@
                == old(self)@,
            !old(self)@.ledger_infos.contains(ledger_info.chain_id) ==> r is Ok && final(self)@
                == (DbView {
                ledger_infos: old(self)@.ledger_infos.push(ledger_info.chain_id),
                ..old(self)@
            }),
    {
        let ghost pre = self@.ledger_infos;
        let n = self.ledger_infos.len();
        let mut i: usize = 0;
        while i < n
            invariant
                pre == self@.ledger_infos,
                self@ == old(self)@,
                self.wf(),
                self.pending_failures() == old(self).pending_failures(),
                self.history() == old(self).history(),
                i <= n,
                n == self.ledger_infos.len(),
                forall|j: int| 0 <= j < i ==> self@.ledger_infos[j] != ledger_info.chain_id,
            decreases n - i,
        {
            if self.ledger_infos[i].chain_id == ledger_info.chain_id {
                proof {
                    assert(self@.ledger_infos[i as int] == self.ledger_infos@[i as int].chain_id);
                    assert(pre.contains(ledger_info.chain_id));
                }
                return Result::Err(StoreError::DuplicateKey);
            }
            i = i + 1;
        }
        proof {
            if pre.contains(ledger_info.chain_id) {
                let j = choose|j: int| 0 <= j < pre.len() && pre[j] == ledger_info.chain_id;
                assert(false);
            }
        }
        self.ledger_infos.push(ledger_info);
        proof {
            assert(self@.ledger_infos =~= pre.push(ledger_info.chain_id));
            assert forall|a: int, b: int| 0 <= a < b < self@.ledger_infos.len() implies self@
                .ledger_infos[a] != self@.ledger_infos[b] by {
                if b == self@.ledger_infos.len() - 1 {
                    assert(self@.ledger_infos[a] == pre[a]);
                }
            }
        }
        Result::Ok(())
    }
}

/// A status row recording that `(name, v)` has not succeeded.
pub open spec fn row_is_error(r: ProcessorStatusRowView, name: Seq<char>, v: u64) -> bool {
    r.name == name && r.version == v && !r.success
}

/// Whether the status table holds `(name, v)` with `success == false`.
pub open spec fn is_error_version(
    s: Seq<ProcessorStatusRowView>,
    name: Seq<char>,
    v: u64,
) -> bool {
    has_key(s, status_key(), (name, v)) && !row_at(s, status_key(), (name, v)).success
}

/// The largest version among the status rows of one processor.
pub open spec fn max_version_of(s: Seq<ProcessorStatusRowView>, name: Seq<char>) -> Option<u64>
    decreases s.len(),
{
    if s.len() == 0 {
        Option::None
    } else {
        let prev = max_version_of(s.drop_last(), name);
        if s.last().name == name {
            match prev {
                Option::Some(m) => if s.last().version > m {
                    Option::Some(s.last().version)
                } else {
                    Option::Some(m)
                },
                Option::None => Option::Some(s.last().version),
            }
        } else {
            prev
        }
    }
}

} // verus!
