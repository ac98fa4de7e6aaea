//! The default processor: decompose raw transactions into the five row
//! families and commit them, together with the range's statuses, in one
//! backend transaction.

use vstd::prelude::*;

use crate::counters::{Counters, spec_count_run};
use crate::errors::{ProcessingResult, TransactionProcessingError};
use crate::models::{
    BlockMetadataTransactionRow, BlockMetadataTransactionRowView, EventRow, EventRowView,
    ProcessorStatusRow, RawTransaction, RawTransactionView, TransactionRow, TransactionRowView,
    TxnDetail, TxnDetailView, UserTransactionRow, UserTransactionRowView, WriteSetChangeRow,
    WriteSetChangeRowView, bm_txn_key, event_key, raw_views, status_rows_for_range, txn_key,
    user_txn_key, versions_dense, wsc_key, status_key,
};
use crate::store::{DbView, Store, StoreError};
use crate::table::{find_last, has_key, insert_missing, row_at, unique_keys, upsert_rows};
use crate::transaction_processor::TransactionProcessor;

verus! {

// ---------------------------------------------------------------------------
// The decomposition, as mathematics
// ---------------------------------------------------------------------------

/// The common-field row every raw transaction produces.
pub open spec fn txn_row_of(t: RawTransactionView) -> TransactionRowView {
    TransactionRowView {
        version: t.version,
        hash: t.hash,
        state_change_hash: t.state_change_hash,
        event_root_hash: t.event_root_hash,
        gas_used: t.gas_used,
        success: t.success,
        vm_status: t.vm_status,
        accumulator_root_hash: t.accumulator_root_hash,
    }
}

/// One transaction row per raw transaction, in order.
pub open spec fn txn_rows_of(ts: Seq<RawTransactionView>) -> Seq<TransactionRowView> {
    ts.map_values(|t: RawTransactionView| txn_row_of(t))
}

/// One user-transaction row per raw transaction of the user variant, in
/// order.
pub open spec fn user_rows_of(ts: Seq<RawTransactionView>) -> Seq<UserTransactionRowView>
    decreases ts.len(),
{
    if ts.len() == 0 {
        Seq::empty()
    } else {
        let prefix = user_rows_of(ts.drop_last());
        match ts.last().detail {
            TxnDetailView::User {
                parent_signature_type,
                sender,
                sequence_number,
                max_gas_amount,
                expiration_timestamp_secs,
                gas_unit_price,
                timestamp,
            } => prefix.push(
                UserTransactionRowView {
                    version: ts.last().version,
                    parent_signature_type,
                    sender,
                    sequence_number,
                    max_gas_amount,
                    expiration_timestamp_secs,
                    gas_unit_price,
                    timestamp,
                },
            ),
            _ => prefix,
        }
    }
}

/// One block-metadata row per raw transaction of the block-metadata
/// variant, in order.
pub open spec fn bm_rows_of(ts: Seq<RawTransactionView>) -> Seq<BlockMetadataTransactionRowView>
    decreases ts.len(),
{
    if ts.len() == 0 {
        Seq::empty()
    } else {
        let prefix = bm_rows_of(ts.drop_last());
        match ts.last().detail {
            TxnDetailView::BlockMetadata { id, round, previous_block_votes, proposer, timestamp } => prefix.push(
                BlockMetadataTransactionRowView {
                    version: ts.last().version,
                    id,
                    round,
                    previous_block_votes,
                    proposer,
                    timestamp,
                },
            ),
            _ => prefix,
        }
    }
}

/// The event rows of one raw transaction, in embedded order.
pub open spec fn event_rows_of_txn(t: RawTransactionView) -> Seq<EventRowView> {
    Seq::new(
        t.events.len(),
        |i: int|
            EventRowView {
                account_address: t.events[i].account,
                creation_number: t.events[i].creation_number,
                sequence_number: t.events[i].sequence_number,
                transaction_version: t.version,
                event_type: t.events[i].event_type,
                data: t.events[i].data,
            },
    )
}

/// All event rows of a sequence of raw transactions, flattened in order.
pub open spec fn event_rows_of(ts: Seq<RawTransactionView>) -> Seq<EventRowView>
    decreases ts.len(),
{
    if ts.len() == 0 {
        Seq::empty()
    } else {
        event_rows_of(ts.drop_last()) + event_rows_of_txn(ts.last())
    }
}

/// The write-set-change rows of one raw transaction, indexed densely
/// from 0 in embedded order.
pub open spec fn wsc_rows_of_txn(t: RawTransactionView) -> Seq<WriteSetChangeRowView> {
    Seq::new(
        t.changes.len(),
        |i: int|
            WriteSetChangeRowView {
                transaction_version: t.version,
                index: i as u64,
                hash: t.changes[i].hash,
                change_type: t.changes[i].change_type,
                address: t.changes[i].address,
                state_key_hash: t.changes[i].state_key_hash,
                data: t.changes[i].data,
            },
    )
}

/// All write-set-change rows of a sequence of raw transactions, flattened
/// in order.
pub open spec fn wsc_rows_of(ts: Seq<RawTransactionView>) -> Seq<WriteSetChangeRowView>
    decreases ts.len(),
{
    if ts.len() == 0 {
        Seq::empty()
    } else {
        wsc_rows_of(ts.drop_last()) + wsc_rows_of_txn(ts.last())
    }
}

// ---------------------------------------------------------------------------
// The decomposition, executed
// ---------------------------------------------------------------------------

/// Decompose a batch of raw transactions into the five row families:
/// always a transaction row; a user or block-metadata row for those
/// variants; the embedded events flattened in order; and the embedded
/// write-set changes flattened in order with per-transaction indices
/// dense from 0.
pub fn from_transactions(txns: &Vec<RawTransaction>) -> (r: (
    Vec<TransactionRow>,
    Vec<UserTransactionRow>,
    Vec<BlockMetadataTransactionRow>,
    Vec<EventRow>,
    Vec<WriteSetChangeRow>,
))
    ensures
        r.0@.map_values(|x: TransactionRow| x@) == txn_rows_of(raw_views(txns@)),
        r.1@.map_values(|x: UserTransactionRow| x@) == user_rows_of(raw_views(txns@)),
        r.2@.map_values(|x: BlockMetadataTransactionRow| x@) == bm_rows_of(raw_views(txns@)),
        r.3@.map_values(|x: EventRow| x@) == event_rows_of(raw_views(txns@)),
        r.4@.map_values(|x: WriteSetChangeRow| x@) == wsc_rows_of(raw_views(txns@)),
{
    let ghost rv = raw_views(txns@);
    let mut t_rows: Vec<TransactionRow> = Vec::new();
    let mut u_rows: Vec<UserTransactionRow> = Vec::new();
    let mut b_rows: Vec<BlockMetadataTransactionRow> = Vec::new();
    let mut e_rows: Vec<EventRow> = Vec::new();
    let mut w_rows: Vec<WriteSetChangeRow> = Vec::new();
    let n = txns.len();
    let mut i: usize = 0;
    proof {
        assert(rv.take(0) =~= Seq::<RawTransactionView>::empty());
    }
    while i < n
        invariant
            n == txns@.len(),
            rv == raw_views(txns@),
            rv.len() == n,
            i <= n,
            t_rows@.map_values(|x: TransactionRow| x@) == txn_rows_of(rv.take(i as int)),
            u_rows@.map_values(|x: UserTransactionRow| x@) == user_rows_of(rv.take(i as int)),
            b_rows@.map_values(|x: BlockMetadataTransactionRow| x@) == bm_rows_of(
                rv.take(i as int),
            ),
            e_rows@.map_values(|x: EventRow| x@) == event_rows_of(rv.take(i as int)),
            w_rows@.map_values(|x: WriteSetChangeRow| x@) == wsc_rows_of(rv.take(i as int)),
        decreases n - i,
    {
        let txn = &txns[i];
        proof {
            assert(rv[i as int] == txns@[i as int]@);
            assert(rv.take(i + 1).drop_last() =~= rv.take(i as int));
            assert(rv.take(i + 1).last() == rv[i as int]);
        }
        let trow = TransactionRow {
            version: txn.version,
            hash: txn.hash.clone(),
            state_change_hash: txn.state_change_hash.clone(),
            event_root_hash: txn.event_root_hash.clone(),
            gas_used: txn.gas_used,
            success: txn.success,
            vm_status: txn.vm_status.clone(),
            accumulator_root_hash: txn.accumulator_root_hash.clone(),
        };
        proof {
            assert(trow@ == txn_row_of(rv[i as int]));
            assert(t_rows@.push(trow).map_values(|x: TransactionRow| x@) =~= t_rows@.map_values(
                |x: TransactionRow| x@,
            ).push(trow@));
            assert(txn_rows_of(rv.take(i + 1)) =~= txn_rows_of(rv.take(i as int)).push(
                txn_row_of(rv[i as int]),
            ));
        }
        t_rows.push(trow);
        match &txn.detail {
            TxnDetail::User {
                parent_signature_type,
                sender,
                sequence_number,
                max_gas_amount,
                expiration_timestamp_secs,
                gas_unit_price,
                timestamp,
            } => {
                let urow = UserTransactionRow {
                    version: txn.version,
                    parent_signature_type: parent_signature_type.clone(),
                    sender: sender.clone(),
                    sequence_number: *sequence_number,
                    max_gas_amount: *max_gas_amount,
                    expiration_timestamp_secs: *expiration_timestamp_secs,
                    gas_unit_price: *gas_unit_price,
                    timestamp: *timestamp,
                };
                proof {
                    assert(rv[i as int].detail is User);
                    assert(u_rows@.push(urow).map_values(|x: UserTransactionRow| x@)
                        =~= u_rows@.map_values(|x: UserTransactionRow| x@).push(urow@));
                    assert(user_rows_of(rv.take(i + 1)) == user_rows_of(rv.take(i as int)).push(
                        urow@,
                    ));
                    assert(bm_rows_of(rv.take(i + 1)) == bm_rows_of(rv.take(i as int)));
                }
                u_rows.push(urow);
            },
            TxnDetail::BlockMetadata { id, round, previous_block_votes, proposer, timestamp } => {
                let brow = BlockMetadataTransactionRow {
                    version: txn.version,
                    id: id.clone(),
                    round: *round,
                    previous_block_votes: previous_block_votes.clone(),
                    proposer: proposer.clone(),
                    timestamp: *timestamp,
                };
                proof {
                    assert(rv[i as int].detail is BlockMetadata);
                    assert(b_rows@.push(brow).map_values(|x: BlockMetadataTransactionRow| x@)
                        =~= b_rows@.map_values(|x: BlockMetadataTransactionRow| x@).push(brow@));
                    assert(bm_rows_of(rv.take(i + 1)) == bm_rows_of(rv.take(i as int)).push(
                        brow@,
                    ));
                    assert(user_rows_of(rv.take(i + 1)) == user_rows_of(rv.take(i as int)));
                }
                b_rows.push(brow);
            },
            TxnDetail::Genesis => {
                proof {
                    assert(rv[i as int].detail is Genesis);
                    assert(user_rows_of(rv.take(i + 1)) == user_rows_of(rv.take(i as int)));
                    assert(bm_rows_of(rv.take(i + 1)) == bm_rows_of(rv.take(i as int)));
                }
            },
        }
        let m = txn.events.len();
        let mut j: usize = 0;
        proof {
            assert(rv[i as int].events =~= txn.events@.map_values(|e: crate::models::EventRec| e@));
            assert(event_rows_of(rv.take(i + 1)) == event_rows_of(rv.take(i as int))
                + event_rows_of_txn(rv[i as int]));
            assert(event_rows_of_txn(rv[i as int]).take(0)
                =~= Seq::<EventRowView>::empty());
            assert(e_rows@.map_values(|x: EventRow| x@) =~= event_rows_of(rv.take(i as int))
                + event_rows_of_txn(rv[i as int]).take(0));
        }
        while j < m
            invariant
                rv == raw_views(txns@),
                i < n,
                n == txns@.len(),
                rv.len() == n,
                rv[i as int] == txns@[i as int]@,
                txn@ == rv[i as int],
                m == txn.events@.len(),
                m == rv[i as int].events.len(),
                j <= m,
                e_rows@.map_values(|x: EventRow| x@) == event_rows_of(rv.take(i as int))
                    + event_rows_of_txn(rv[i as int]).take(j as int),
            decreases m - j,
        {
            let ev = &txn.events[j];
            let erow = EventRow {
                account_address: ev.account.clone(),
                creation_number: ev.creation_number,
                sequence_number: ev.sequence_number,
                transaction_version: txn.version,
                event_type: ev.event_type.clone(),
                data: ev.data.clone(),
            };
            proof {
                assert(rv[i as int].events[j as int] == txn.events@[j as int]@);
                assert(erow@ == event_rows_of_txn(rv[i as int])[j as int]);
                assert(event_rows_of_txn(rv[i as int]).take(j + 1) =~= event_rows_of_txn(
                    rv[i as int],
                ).take(j as int).push(erow@));
                assert(e_rows@.push(erow).map_values(|x: EventRow| x@) =~= e_rows@.map_values(
                    |x: EventRow| x@,
                ).push(erow@));
                assert(event_rows_of(rv.take(i as int)) + event_rows_of_txn(rv[i as int]).take(
                    j as int,
                ).push(erow@) =~= (event_rows_of(rv.take(i as int)) + event_rows_of_txn(
                    rv[i as int],
                ).take(j as int)).push(erow@));
            }
            e_rows.push(erow);
            j = j + 1;
        }
        proof {
            assert(event_rows_of_txn(rv[i as int]).take(m as int) =~= event_rows_of_txn(
                rv[i as int],
            ));
        }
        let p = txn.changes.len();
        let mut k: usize = 0;
        proof {
            assert(rv[i as int].changes =~= txn.changes@.map_values(
                |c: crate::models::WriteSetChangeRec| c@,
            ));
            assert(wsc_rows_of(rv.take(i + 1)) == wsc_rows_of(rv.take(i as int))
                + wsc_rows_of_txn(rv[i as int]));
            assert(wsc_rows_of_txn(rv[i as int]).take(0)
                =~= Seq::<WriteSetChangeRowView>::empty());
            assert(w_rows@.map_values(|x: WriteSetChangeRow| x@) =~= wsc_rows_of(
                rv.take(i as int),
            ) + wsc_rows_of_txn(rv[i as int]).take(0));
        }
        while k < p
            invariant
                rv == raw_views(txns@),
                i < n,
                n == txns@.len(),
                rv.len() == n,
                rv[i as int] == txns@[i as int]@,
                txn@ == rv[i as int],
                p == txn.changes@.len(),
                p == rv[i as int].changes.len(),
                k <= p,
                w_rows@.map_values(|x: WriteSetChangeRow| x@) == wsc_rows_of(rv.take(i as int))
                    + wsc_rows_of_txn(rv[i as int]).take(k as int),
            decreases p - k,
        {
            let ch = &txn.changes[k];
            let wrow = WriteSetChangeRow {
                transaction_version: txn.version,
                index: k as u64,
                hash: ch.hash.clone(),
                change_type: ch.change_type.clone(),
                address: ch.address.clone(),
                state_key_hash: ch.state_key_hash.clone(),
                data: ch.data.clone(),
            };
            proof {
                assert(rv[i as int].changes[k as int] == txn.changes@[k as int]@);
                assert(wrow@ == wsc_rows_of_txn(rv[i as int])[k as int]);
                assert(wsc_rows_of_txn(rv[i as int]).take(k + 1) =~= wsc_rows_of_txn(
                    rv[i as int],
                ).take(k as int).push(wrow@));
                assert(w_rows@.push(wrow).map_values(|x: WriteSetChangeRow| x@)
                    =~= w_rows@.map_values(|x: WriteSetChangeRow| x@).push(wrow@));
                assert(wsc_rows_of(rv.take(i as int)) + wsc_rows_of_txn(rv[i as int]).take(
                    k as int,
                ).push(wrow@) =~= (wsc_rows_of(rv.take(i as int)) + wsc_rows_of_txn(
                    rv[i as int],
                ).take(k as int)).push(wrow@));
            }
            w_rows.push(wrow);
            k = k + 1;
        }
        proof {
            assert(wsc_rows_of_txn(rv[i as int]).take(p as int) =~= wsc_rows_of_txn(
                rv[i as int],
            ));
        }
        i = i + 1;
    }
    proof {
        assert(rv.take(n as int) =~= rv);
    }
    (t_rows, u_rows, b_rows, e_rows, w_rows)
}

// ---------------------------------------------------------------------------
// Committing a range
// ---------------------------------------------------------------------------

/// What a failed commit records as the error's cause.
pub open spec fn spec_commit_error_details() -> Seq<char> {
    "backend transaction rolled back"@
}

pub fn commit_error_details() -> (r: String)
    ensures
        r@ == spec_commit_error_details(),
{
    "backend transaction rolled back".to_owned()
}

/// The effect of one committed backend transaction: the five families
/// inserted with on-conflict-do-nothing, and the range's success statuses
/// upserted, all together.
pub open spec fn spec_commit_rows(
    db: DbView,
    name: Seq<char>,
    t: Seq<TransactionRowView>,
    u: Seq<UserTransactionRowView>,
    b: Seq<BlockMetadataTransactionRowView>,
    e: Seq<EventRowView>,
    w: Seq<WriteSetChangeRowView>,
    start: u64,
    end: u64,
    now: u64,
) -> DbView {
    DbView {
        transactions: insert_missing(db.transactions, t, txn_key()),
        user_transactions: insert_missing(db.user_transactions, u, user_txn_key()),
        block_metadata_transactions: insert_missing(db.block_metadata_transactions, b, bm_txn_key()),
        events: insert_missing(db.events, e, event_key()),
        write_set_changes: insert_missing(db.write_set_changes, w, wsc_key()),
        processor_statuses: upsert_rows(
            db.processor_statuses,
            status_rows_for_range(name, start, end, true, Option::None, now),
            status_key(),
        ),
        ledger_infos: db.ledger_infos,
    }
}

/// The committed state a batch of raw transactions leads to.
pub open spec fn spec_commit(
    db: DbView,
    name: Seq<char>,
    txns: Seq<RawTransactionView>,
    start: u64,
    end: u64,
    now: u64,
) -> DbView {
    spec_commit_rows(
        db,
        name,
        txn_rows_of(txns),
        user_rows_of(txns),
        bm_rows_of(txns),
        event_rows_of(txns),
        wsc_rows_of(txns),
        start,
        end,
        now,
    )
}

/// Marking a range *started*: one `(name, v, false, null)` row per version.
pub open spec fn spec_mark_started(
    db: DbView,
    name: Seq<char>,
    start: u64,
    end: u64,
    now: u64,
) -> DbView {
    DbView {
        processor_statuses: upsert_rows(
            db.processor_statuses,
            status_rows_for_range(name, start, end, false, Option::None, now),
            status_key(),
        ),
        ..db
    }
}

/// Marking a range succeeded.
pub open spec fn spec_mark_success(
    db: DbView,
    name: Seq<char>,
    start: u64,
    end: u64,
    now: u64,
) -> DbView {
    DbView {
        processor_statuses: upsert_rows(
            db.processor_statuses,
            status_rows_for_range(name, start, end, true, Option::None, now),
            status_key(),
        ),
        ..db
    }
}

/// Marking a range errored, with the formatted cause as details.
pub open spec fn spec_mark_error(
    db: DbView,
    name: Seq<char>,
    start: u64,
    end: u64,
    details: Seq<char>,
    now: u64,
) -> DbView {
    DbView {
        processor_statuses: upsert_rows(
            db.processor_statuses,
            status_rows_for_range(name, start, end, false, Option::Some(details), now),
            status_key(),
        ),
        ..db
    }
}

/// One run of the status-tracked helper: mark started, then either commit
/// and re-mark success, or record the error per version.
pub open spec fn spec_with_status(
    db: DbView,
    pending: u64,
    name: Seq<char>,
    txns: Seq<RawTransactionView>,
    start: u64,
    end: u64,
    now: u64,
) -> DbView {
    let started = spec_mark_started(db, name, start, end, now);
    if pending == 0 {
        spec_mark_success(spec_commit(started, name, txns, start, end, now), name, start, end, now)
    } else {
        spec_mark_error(started, name, start, end, spec_commit_error_details(), now)
    }
}

/// The status writes one run of the helper appends.
pub open spec fn spec_with_status_history(
    h: Seq<crate::models::ProcessorStatusRowView>,
    pending: u64,
    name: Seq<char>,
    start: u64,
    end: u64,
    now: u64,
) -> Seq<crate::models::ProcessorStatusRowView> {
    let h1 = h + status_rows_for_range(name, start, end, false, Option::None, now);
    if pending == 0 {
        h1 + status_rows_for_range(name, start, end, true, Option::None, now)
            + status_rows_for_range(name, start, end, true, Option::None, now)
    } else {
        h1 + status_rows_for_range(
            name,
            start,
            end,
            false,
            Option::Some(spec_commit_error_details()),
            now,
        )
    }
}

/// Write all rows of a processed range in one backend transaction, in
/// strict read-write mode: transactions, user transactions, block-metadata
/// transactions, events, write-set changes, then the success statuses of
/// `[start_version, end_version]`. Either everything is committed, or the
/// backend rejects the transaction and nothing is.
pub fn insert_to_db(
    store: &mut Store,
    name: &String,
    start_version: u64,
    end_version: u64,
    txns: Vec<TransactionRow>,
    user_txns: Vec<UserTransactionRow>,
    bm_txns: Vec<BlockMetadataTransactionRow>,
    events: Vec<EventRow>,
    write_set_changes: Vec<WriteSetChangeRow>,
    now: u64,
) -> (r: Result<(), StoreError>)
    requires
        old(store).wf(),
        start_version <= end_version,
        end_version - start_version < usize::MAX,
    ensures
        final(store).wf(),
        old(store).pending_failures() > 0 ==> r is Err && final(store)@ == old(store)@ && final(store).pending_failures() == old(store).pending_failures() - 1 && final(store).history() == old(store).history(),
        old(store).pending_failures() == 0 ==> r is Ok && final(store)@ == spec_commit_rows(
            old(store)@,
            name@,
            txns@.map_values(|x: TransactionRow| x@),
            user_txns@.map_values(|x: UserTransactionRow| x@),
            bm_txns@.map_values(|x: BlockMetadataTransactionRow| x@),
            events@.map_values(|x: EventRow| x@),
            write_set_changes@.map_values(|x: WriteSetChangeRow| x@),
            start_version,
            end_version,
            now,
        ) && final(store).pending_failures() == 0 && final(store).history() == old(store).history()
            + status_rows_for_range(name@, start_version, end_version, true, Option::None, now),
{
    if store.take_pending_failure() {
        return Result::Err(StoreError::Backend);
    }
    store.insert_transactions(&txns);
    store.insert_user_transactions(&user_txns);
    store.insert_block_metadata_transactions(&bm_txns);
    store.insert_events(&events);
    store.insert_write_set_changes(&write_set_changes);
    let none_details: Option<String> = Option::None;
    let status_rows = ProcessorStatusRow::from_versions(
        name,
        start_version,
        end_version,
        true,
        &none_details,
        now,
    );
    store.apply_processor_status(&status_rows);
    Result::Ok(())
}

// ---------------------------------------------------------------------------
// The processor
// ---------------------------------------------------------------------------

/// The concrete processor that decomposes raw transactions into the five
/// row families and persists them with status bookkeeping.
pub struct DefaultTransactionProcessor {
    name: String,
}

impl DefaultTransactionProcessor {
    /// The name this processor records in status rows.
    pub closed spec fn name_view(&self) -> Seq<char> {
        self.name@
    }

    pub fn new(name: String) -> (r: DefaultTransactionProcessor)
        ensures
            r.name_view() == name@,
    {
        DefaultTransactionProcessor { name }
    }

    /// Decompose and commit one range atomically. Succeeds exactly when
    /// the backend accepts the transaction — here, when no injected
    /// failure is pending — and otherwise changes nothing and reports a
    /// commit error carrying the range and this processor's name.
    pub fn process_transactions(
        &self,
        store: &mut Store,
        txns: &Vec<RawTransaction>,
        start_version: u64,
        end_version: u64,
        now: u64,
    ) -> (r: Result<ProcessingResult, TransactionProcessingError>)
        requires
            old(store).wf(),
            start_version <= end_version,
            end_version - start_version < usize::MAX,
        ensures
            final(store).wf(),
            (r is Ok) == (old(store).pending_failures() == 0),
            old(store).pending_failures() == 0 ==> final(store)@ == spec_commit(
                old(store)@,
                self.name_view(),
                raw_views(txns@),
                start_version,
                end_version,
                now,
            ) && final(store).pending_failures() == 0 && final(store).history() == old(store).history() + status_rows_for_range(
                self.name_view(),
                start_version,
                end_version,
                true,
                Option::None,
                now,
            ) && (r matches Result::Ok(pr) && pr.name@ == self.name_view() && pr.start_version
                == start_version && pr.end_version == end_version),
            old(store).pending_failures() > 0 ==> final(store)@ == old(store)@ && final(store).pending_failures() == old(store).pending_failures() - 1 && final(store).history()
                == old(store).history() && (r matches Result::Err(
                TransactionProcessingError::TransactionCommitError {
                    cause,
                    start_version: sv,
                    end_version: ev,
                    name: nm,
                },
            ) && cause@ == spec_commit_error_details() && sv == start_version && ev == end_version
                && nm@ == self.name_view()),
    {
        let (t_rows, u_rows, b_rows, e_rows, w_rows) = from_transactions(txns);
        let res = insert_to_db(
            store,
            &self.name,
            start_version,
            end_version,
            t_rows,
            u_rows,
            b_rows,
            e_rows,
            w_rows,
            now,
        );
        match res {
            Result::Ok(_) => Result::Ok(
                ProcessingResult::new(self.name.clone(), start_version, end_version),
            ),
            Result::Err(_) => Result::Err(
                TransactionProcessingError::TransactionCommitError {
                    cause: commit_error_details(),
                    start_version,
                    end_version,
                    name: self.name.clone(),
                },
            ),
        }
    }

    /// Record that every version of the range has been started: one
    /// `(name, v, success=false, details=null)` row per version.
    pub fn mark_versions_started(
        &self,
        store: &mut Store,
        start_version: u64,
        end_version: u64,
        now: u64,
    )
        requires
            old(store).wf(),
            start_version <= end_version,
            end_version - start_version < usize::MAX,
        ensures
            final(store).wf(),
            final(store)@ == spec_mark_started(
                old(store)@,
                self.name_view(),
                start_version,
                end_version,
                now,
            ),
            final(store).pending_failures() == old(store).pending_failures(),
            final(store).history() == old(store).history() + status_rows_for_range(
                self.name_view(),
                start_version,
                end_version,
                false,
                Option::None,
                now,
            ),
    {
        let none_details: Option<String> = Option::None;
        let rows = ProcessorStatusRow::from_versions(
            &self.name,
            start_version,
            end_version,
            false,
            &none_details,
            now,
        );
        store.apply_processor_status(&rows);
    }

    /// Record that every version of the range succeeded.
    pub fn update_status_success(
        &self,
        store: &mut Store,
        start_version: u64,
        end_version: u64,
        now: u64,
    )
        requires
            old(store).wf(),
            start_version <= end_version,
            end_version - start_version < usize::MAX,
        ensures
            final(store).wf(),
            final(store)@ == spec_mark_success(
                old(store)@,
                self.name_view(),
                start_version,
                end_version,
                now,
            ),
            final(store).pending_failures() == old(store).pending_failures(),
            final(store).history() == old(store).history() + status_rows_for_range(
                self.name_view(),
                start_version,
                end_version,
                true,
                Option::None,
                now,
            ),
    {
        let none_details: Option<String> = Option::None;
        let rows = ProcessorStatusRow::from_versions(
            &self.name,
            start_version,
            end_version,
            true,
            &none_details,
            now,
        );
        store.apply_processor_status(&rows);
    }

    /// Record that the range errored, one row per version, carrying the
    /// error's cause as details.
    pub fn update_status_err(
        &self,
        store: &mut Store,
        err: &TransactionProcessingError,
        now: u64,
    )
        requires
            old(store).wf(),
            err.spec_start_version() <= err.spec_end_version(),
            err.spec_end_version() - err.spec_start_version() < usize::MAX,
        ensures
            final(store).wf(),
            final(store)@ == spec_mark_error(
                old(store)@,
                self.name_view(),
                err.spec_start_version(),
                err.spec_end_version(),
                err.spec_cause(),
                now,
            ),
            final(store).pending_failures() == old(store).pending_failures(),
            final(store).history() == old(store).history() + status_rows_for_range(
                self.name_view(),
                err.spec_start_version(),
                err.spec_end_version(),
                false,
                Option::Some(err.spec_cause()),
                now,
            ),
    {
        let start_version = match err {
            TransactionProcessingError::TransactionParsingError { start_version, .. } => *start_version,
            TransactionProcessingError::TransactionCommitError { start_version, .. } => *start_version,
        };
        let end_version = match err {
            TransactionProcessingError::TransactionParsingError { end_version, .. } => *end_version,
            TransactionProcessingError::TransactionCommitError { end_version, .. } => *end_version,
        };
        let details: Option<String> = Option::Some(err.cause().clone());
        let rows = ProcessorStatusRow::from_versions(
            &self.name,
            start_version,
            end_version,
            false,
            &details,
            now,
        );
        store.apply_processor_status(&rows);
    }

    /// The status-tracked helper: mark the whole range started, process
    /// it, then record success or failure per version. The range is read
    /// off the first and last transaction of the (dense, non-empty) batch.
    pub fn process_transactions_with_status(
        &self,
        store: &mut Store,
        txns: &Vec<RawTransaction>,
        counters: &mut Counters,
        now: u64,
    ) -> (r: Result<ProcessingResult, TransactionProcessingError>)
        requires
            old(store).wf(),
            txns@.len() > 0,
            versions_dense(raw_views(txns@)),
        ensures
            final(store).wf(),
            (r is Ok) == (old(store).pending_failures() == 0),
            final(store)@ == spec_with_status(
                old(store)@,
                old(store).pending_failures(),
                self.name_view(),
                raw_views(txns@),
                raw_views(txns@)[0].version,
                raw_views(txns@).last().version,
                now,
            ),
            final(store).history() == spec_with_status_history(
                old(store).history(),
                old(store).pending_failures(),
                self.name_view(),
                raw_views(txns@)[0].version,
                raw_views(txns@).last().version,
                now,
            ),
            final(store).pending_failures() == if old(store).pending_failures() > 0 {
                (old(store).pending_failures() - 1) as u64
            } else {
                0
            },
            *final(counters) == spec_count_run(
                *old(counters),
                old(store).pending_failures() == 0,
            ),
    {
        counters.record_invocation();
        let ghost rv = raw_views(txns@);
        let start_version = txns[0].version;
        let n = txns.len();
        let end_version = txns[n - 1].version;
        proof {
            assert(rv[0] == txns@[0]@);
            assert(rv[n - 1] == txns@[n - 1]@);
            assert(rv.last() == rv[n - 1]);
            assert(rv[n - 1].version == rv[0].version + (n - 1));
            assert(start_version <= end_version);
            assert(end_version - start_version == n - 1);
        }
        self.mark_versions_started(store, start_version, end_version, now);
        let res = self.process_transactions(store, txns, start_version, end_version, now);
        match &res {
            Result::Ok(_) => {
                counters.record_success();
                self.update_status_success(store, start_version, end_version, now);
            },
            Result::Err(e) => {
                counters.record_error();
                self.update_status_err(store, e, now);
            },
        }
        res
    }
}

// ---------------------------------------------------------------------------
// Laws
// ---------------------------------------------------------------------------

/// How many raw transactions of a sequence are user transactions.
pub open spec fn count_user(ts: Seq<RawTransactionView>) -> int
    decreases ts.len(),
{
    if ts.len() == 0 {
        0
    } else {
        count_user(ts.drop_last()) + if ts.last().detail is User {
            1int
        } else {
            0int
        }
    }
}

/// How many raw transactions of a sequence are block-metadata transactions.
pub open spec fn count_block_metadata(ts: Seq<RawTransactionView>) -> int
    decreases ts.len(),
{
    if ts.len() == 0 {
        0
    } else {
        count_block_metadata(ts.drop_last()) + if ts.last().detail is BlockMetadata {
            1int
        } else {
            0int
        }
    }
}

/// The total number of events embedded in a sequence of raw transactions.
pub open spec fn total_events(ts: Seq<RawTransactionView>) -> int
    decreases ts.len(),
{
    if ts.len() == 0 {
        0
    } else {
        total_events(ts.drop_last()) + ts.last().events.len()
    }
}

/// The total number of write-set changes embedded in a sequence of raw
/// transactions.
pub open spec fn total_changes(ts: Seq<RawTransactionView>) -> int
    decreases ts.len(),
{
    if ts.len() == 0 {
        0
    } else {
        total_changes(ts.drop_last()) + ts.last().changes.len()
    }
}

/// Row-family fidelity: every raw transaction yields exactly one
/// transaction row with its version; each user or block-metadata
/// transaction yields exactly one row of its family; the event rows are as
/// many as the embedded events; the write-set-change rows are as many as
/// the embedded changes, and within one transaction their indices are
/// dense from 0.
pub proof fn lemma_row_family_fidelity(ts: Seq<RawTransactionView>)
    ensures
        txn_rows_of(ts).len() == ts.len(),
        forall|i: int| 0 <= i < ts.len() ==> (#[trigger] txn_rows_of(ts)[i]).version
            == ts[i].version,
        user_rows_of(ts).len() == count_user(ts),
        bm_rows_of(ts).len() == count_block_metadata(ts),
        event_rows_of(ts).len() == total_events(ts),
        wsc_rows_of(ts).len() == total_changes(ts),
        forall|i: int, q: int|
            0 <= i < ts.len() && 0 <= q < ts[i].changes.len() && q <= u64::MAX
                ==> (#[trigger] wsc_rows_of_txn(ts[i])[q]).index == q && wsc_rows_of_txn(
                ts[i],
            )[q].transaction_version == ts[i].version,
    decreases ts.len(),
{
    if ts.len() > 0 {
        lemma_row_family_fidelity(ts.drop_last());
        assert forall|i: int|
            0 <= i < ts.len() - 1 implies ts.drop_last()[i] == ts[i] by {}
    }
}

/// The status rows of a range hold exactly the range's keys, each mapped
/// to its row.
pub proof fn lemma_range_rows_props(
    name: Seq<char>,
    start: u64,
    end: u64,
    success: bool,
    details: Option<Seq<char>>,
    now: u64,
)
    requires
        start <= end,
    ensures
        ({
            let rows = status_rows_for_range(name, start, end, success, details, now);
            &&& forall|k: (Seq<char>, u64)| #![auto]
                has_key(rows, status_key(), k) <==> (k.0 == name && start <= k.1 <= end)
            &&& forall|k: (Seq<char>, u64)| #![auto]
                (k.0 == name && start <= k.1 <= end) ==> rows[find_last(rows, status_key(), k)]
                    == crate::models::status_row_view(name, k.1, success, details, now)
        }),
{
    let rows = status_rows_for_range(name, start, end, success, details, now);
    let kf = status_key();
    crate::models::lemma_status_rows_for_range(name, start, end, success, details, now);
    assert forall|k: (Seq<char>, u64)| #![auto]
        has_key(rows, kf, k) <==> (k.0 == name && start <= k.1 <= end) by {
        crate::table::lemma_find_by(rows, kf, k);
        if k.0 == name && start <= k.1 <= end {
            let idx = k.1 - start;
            assert(rows[idx] == crate::models::status_row_view(
                name,
                (start + idx) as u64,
                success,
                details,
                now,
            ));
            assert(kf(rows[idx]) == k);
        }
        if has_key(rows, kf, k) {
            let idx = crate::table::find_by(rows, kf, k);
            assert(rows[idx] == crate::models::status_row_view(
                name,
                (start + idx) as u64,
                success,
                details,
                now,
            ));
        }
    }
    assert forall|k: (Seq<char>, u64)| #![auto]
        (k.0 == name && start <= k.1 <= end) implies rows[find_last(rows, kf, k)]
        == crate::models::status_row_view(name, k.1, success, details, now) by {
        crate::table::lemma_find_last(rows, kf, k);
        let fl = crate::table::find_last(rows, kf, k);
        assert(rows[fl] == crate::models::status_row_view(
            name,
            (start + fl) as u64,
            success,
            details,
            now,
        ));
        assert(kf(rows[fl]) == k);
    }
}

/// Upserting the rows of one range puts the range's row under every
/// in-range key and leaves every other key's row alone.
pub proof fn lemma_upsert_range(
    st: Seq<crate::models::ProcessorStatusRowView>,
    name: Seq<char>,
    start: u64,
    end: u64,
    success: bool,
    details: Option<Seq<char>>,
    now: u64,
)
    requires
        start <= end,
    ensures
        ({
            let after = upsert_rows(
                st,
                status_rows_for_range(name, start, end, success, details, now),
                status_key(),
            );
            &&& forall|k: (Seq<char>, u64)| #![auto]
                has_key(after, status_key(), k) <==> (has_key(st, status_key(), k) || (k.0 == name
                    && start <= k.1 <= end))
            &&& forall|k: (Seq<char>, u64)| #![auto]
                (k.0 == name && start <= k.1 <= end) ==> has_key(after, status_key(), k) && row_at(
                    after,
                    status_key(),
                    k,
                ) == crate::models::status_row_view(name, k.1, success, details, now)
            &&& forall|k: (Seq<char>, u64)| #![auto]
                !(k.0 == name && start <= k.1 <= end) && has_key(st, status_key(), k) ==> row_at(
                    after,
                    status_key(),
                    k,
                ) == row_at(st, status_key(), k)
            &&& unique_keys(st, status_key()) ==> unique_keys(after, status_key())
        }),
{
    let rows = status_rows_for_range(name, start, end, success, details, now);
    let kf = status_key();
    let after = upsert_rows(st, rows, kf);
    lemma_range_rows_props(name, start, end, success, details, now);
    assert forall|k: (Seq<char>, u64)| #![auto]
        has_key(after, kf, k) <==> (has_key(st, kf, k) || (k.0 == name && start <= k.1
            <= end)) by {
        crate::table::lemma_upsert_has_key(st, rows, kf, k);
    }
    assert forall|k: (Seq<char>, u64)| #![auto]
        (k.0 == name && start <= k.1 <= end) implies has_key(after, kf, k) && row_at(after, kf, k)
        == crate::models::status_row_view(name, k.1, success, details, now) by {
        crate::table::lemma_upsert_has_key(st, rows, kf, k);
        crate::table::lemma_upsert_row_at(st, rows, kf, k);
    }
    assert forall|k: (Seq<char>, u64)| #![auto]
        !(k.0 == name && start <= k.1 <= end) && has_key(st, kf, k) implies row_at(after, kf, k)
        == row_at(st, kf, k) by {
        crate::table::lemma_upsert_row_at(st, rows, kf, k);
    }
    if unique_keys(st, kf) {
        crate::table::lemma_upsert_unique(st, rows, kf);
    }
}

/// The status table after one run of the status-tracked helper: every
/// in-range key holds the success row on the happy path, or the error row
/// when the commit was rejected; every other key keeps its row.
pub proof fn lemma_with_status_statuses(
    db: DbView,
    pending: u64,
    name: Seq<char>,
    txns: Seq<RawTransactionView>,
    start: u64,
    end: u64,
    now: u64,
)
    requires
        start <= end,
    ensures
        ({
            let after = spec_with_status(db, pending, name, txns, start, end, now)
                .processor_statuses;
            let written = if pending == 0 {
                crate::models::status_row_view(name, 0, true, Option::None, now)
            } else {
                crate::models::status_row_view(
                    name,
                    0,
                    false,
                    Option::Some(spec_commit_error_details()),
                    now,
                )
            };
            &&& forall|k: (Seq<char>, u64)| #![auto]
                has_key(after, status_key(), k) <==> (has_key(db.processor_statuses, status_key(), k)
                    || (k.0 == name && start <= k.1 <= end))
            &&& forall|k: (Seq<char>, u64)| #![auto]
                (k.0 == name && start <= k.1 <= end) ==> has_key(after, status_key(), k) && row_at(
                    after,
                    status_key(),
                    k,
                ) == (crate::models::ProcessorStatusRowView { version: k.1, ..written })
            &&& forall|k: (Seq<char>, u64)| #![auto]
                !(k.0 == name && start <= k.1 <= end) && has_key(db.processor_statuses, status_key(), k)
                    ==> row_at(after, status_key(), k) == row_at(db.processor_statuses, status_key(), k)
            &&& unique_keys(db.processor_statuses, status_key()) ==> unique_keys(after, status_key())
        }),
{
    let st0 = db.processor_statuses;
    let st1 = upsert_rows(
        st0,
        status_rows_for_range(name, start, end, false, Option::None, now),
        status_key(),
    );
    lemma_upsert_range(st0, name, start, end, false, Option::None, now);
    if pending == 0 {
        let st2 = upsert_rows(
            st1,
            status_rows_for_range(name, start, end, true, Option::None, now),
            status_key(),
        );
        lemma_upsert_range(st1, name, start, end, true, Option::None, now);
        lemma_upsert_range(st2, name, start, end, true, Option::None, now);
    } else {
        lemma_upsert_range(
            st1,
            name,
            start,
            end,
            false,
            Option::Some(spec_commit_error_details()),
            now,
        );
    }
}

/// Idempotence: running the status-tracked helper twice on one batch, with
/// no backend failures, leaves exactly the rows and statuses one run
/// leaves.
pub proof fn lemma_processing_idempotent(
    db: DbView,
    name: Seq<char>,
    txns: Seq<RawTransactionView>,
    start: u64,
    end: u64,
    now: u64,
)
    requires
        start <= end,
    ensures
        ({
            let once = spec_with_status(db, 0, name, txns, start, end, now);
            let twice = spec_with_status(once, 0, name, txns, start, end, now);
            &&& twice.transactions == once.transactions
            &&& twice.user_transactions == once.user_transactions
            &&& twice.block_metadata_transactions == once.block_metadata_transactions
            &&& twice.events == once.events
            &&& twice.write_set_changes == once.write_set_changes
            &&& twice.ledger_infos == once.ledger_infos
            &&& forall|k: (Seq<char>, u64)| #![auto]
                has_key(twice.processor_statuses, status_key(), k) == has_key(
                    once.processor_statuses,
                    status_key(),
                    k,
                )
            &&& forall|k: (Seq<char>, u64)| #![auto]
                has_key(once.processor_statuses, status_key(), k) ==> row_at(
                    twice.processor_statuses,
                    status_key(),
                    k,
                ) == row_at(once.processor_statuses, status_key(), k)
        }),
{
    let once = spec_with_status(db, 0, name, txns, start, end, now);
    let twice = spec_with_status(once, 0, name, txns, start, end, now);
    crate::table::lemma_insert_missing_idempotent(db.transactions, txn_rows_of(txns), txn_key());
    crate::table::lemma_insert_missing_idempotent(
        db.user_transactions,
        user_rows_of(txns),
        user_txn_key(),
    );
    crate::table::lemma_insert_missing_idempotent(
        db.block_metadata_transactions,
        bm_rows_of(txns),
        bm_txn_key(),
    );
    crate::table::lemma_insert_missing_idempotent(db.events, event_rows_of(txns), event_key());
    crate::table::lemma_insert_missing_idempotent(
        db.write_set_changes,
        wsc_rows_of(txns),
        wsc_key(),
    );
    lemma_with_status_statuses(db, 0, name, txns, start, end, now);
    lemma_with_status_statuses(once, 0, name, txns, start, end, now);
}

/// Crash recovery: a crash between the *started* upsert and the commit
/// leaves exactly the range's versions in the error set, and reprocessing
/// from the crashed state commits the same database as processing the
/// batch without the crash.
pub proof fn lemma_crash_recovery(
    db: DbView,
    name: Seq<char>,
    txns: Seq<RawTransactionView>,
    start: u64,
    end: u64,
    now: u64,
    later: u64,
)
    requires
        start <= end,
        forall|v: u64| !has_key(db.processor_statuses, status_key(), ((name, v))),
    ensures
        ({
            let crashed = spec_mark_started(db, name, start, end, now);
            let recovered = spec_with_status(crashed, 0, name, txns, start, end, later);
            let direct = spec_with_status(db, 0, name, txns, start, end, later);
            &&& forall|v: u64| #![auto]
                crate::store::is_error_version(crashed.processor_statuses, name, v) <==> (start <= v
                    <= end)
            &&& recovered.transactions == direct.transactions
            &&& recovered.user_transactions == direct.user_transactions
            &&& recovered.block_metadata_transactions == direct.block_metadata_transactions
            &&& recovered.events == direct.events
            &&& recovered.write_set_changes == direct.write_set_changes
            &&& recovered.ledger_infos == direct.ledger_infos
            &&& forall|k: (Seq<char>, u64)| #![auto]
                has_key(recovered.processor_statuses, status_key(), k) == has_key(
                    direct.processor_statuses,
                    status_key(),
                    k,
                )
            &&& forall|k: (Seq<char>, u64)| #![auto]
                has_key(direct.processor_statuses, status_key(), k) ==> row_at(
                    recovered.processor_statuses,
                    status_key(),
                    k,
                ) == row_at(direct.processor_statuses, status_key(), k)
        }),
{
    let crashed = spec_mark_started(db, name, start, end, now);
    lemma_upsert_range(db.processor_statuses, name, start, end, false, Option::None, now);
    assert forall|v: u64| #![auto]
        crate::store::is_error_version(crashed.processor_statuses, name, v) <==> (start <= v
            <= end) by {
        let k = (name, v);
        assert(k.0 == name && k.1 == v);
    }
    lemma_with_status_statuses(crashed, 0, name, txns, start, end, later);
    lemma_with_status_statuses(db, 0, name, txns, start, end, later);
}

/// Atomicity of a failed range: when the backend rejects the commit, the
/// run leaves every row family and the ledger table untouched, and no
/// version of the range is marked successful — each carries the error.
pub proof fn lemma_atomic_failure(
    db: DbView,
    pending: u64,
    name: Seq<char>,
    txns: Seq<RawTransactionView>,
    start: u64,
    end: u64,
    now: u64,
)
    requires
        start <= end,
        pending > 0,
    ensures
        ({
            let after = spec_with_status(db, pending, name, txns, start, end, now);
            &&& after.transactions == db.transactions
            &&& after.user_transactions == db.user_transactions
            &&& after.block_metadata_transactions == db.block_metadata_transactions
            &&& after.events == db.events
            &&& after.write_set_changes == db.write_set_changes
            &&& after.ledger_infos == db.ledger_infos
            &&& forall|v: u64| #![auto]
                start <= v <= end ==> has_key(after.processor_statuses, status_key(), ((name, v)))
                    && !row_at(after.processor_statuses, status_key(), ((name, v))).success
        }),
{
    lemma_with_status_statuses(db, pending, name, txns, start, end, now);
    let after = spec_with_status(db, pending, name, txns, start, end, now);
    assert forall|v: u64| #![auto]
        start <= v <= end implies has_key(after.processor_statuses, status_key(), ((name, v)))
        && !row_at(after.processor_statuses, status_key(), ((name, v))).success by {
        let k = (name, v);
        assert(k.0 == name && start <= k.1 <= end);
    }
}

/// A history entry marking `(name, v)` started.
pub open spec fn is_started_write(
    w: crate::models::ProcessorStatusRowView,
    name: Seq<char>,
    v: u64,
) -> bool {
    w.name == name && w.version == v && !w.success && w.details is None
}

/// A history entry marking `(name, v)` succeeded.
pub open spec fn is_success_write(
    w: crate::models::ProcessorStatusRowView,
    name: Seq<char>,
    v: u64,
) -> bool {
    w.name == name && w.version == v && w.success
}

/// Every successful status row has, somewhere behind it in the write
/// history, first a started write and then a success write for its key.
pub open spec fn started_before_success(
    h: Seq<crate::models::ProcessorStatusRowView>,
    st: Seq<crate::models::ProcessorStatusRowView>,
) -> bool {
    forall|idx: int|
        0 <= idx < st.len() && (#[trigger] st[idx]).success ==> exists|i: int, j: int|
            0 <= i < j < h.len() && is_started_write(h[i], st[idx].name, st[idx].version)
                && is_success_write(h[j], st[idx].name, st[idx].version)
}

/// Started-before-commit: one run of the status-tracked helper keeps the
/// property that a started upsert precedes every success.
pub proof fn lemma_started_before_success(
    db: DbView,
    h: Seq<crate::models::ProcessorStatusRowView>,
    pending: u64,
    name: Seq<char>,
    txns: Seq<RawTransactionView>,
    start: u64,
    end: u64,
    now: u64,
)
    requires
        crate::store::db_wf(db),
        start <= end,
        started_before_success(h, db.processor_statuses),
    ensures
        started_before_success(
            spec_with_status_history(h, pending, name, start, end, now),
            spec_with_status(db, pending, name, txns, start, end, now).processor_statuses,
        ),
{
    let st = db.processor_statuses;
    let st2 = spec_with_status(db, pending, name, txns, start, end, now).processor_statuses;
    let h2 = spec_with_status_history(h, pending, name, start, end, now);
    let kf = status_key();
    let started = status_rows_for_range(name, start, end, false, Option::None, now);
    let succ = status_rows_for_range(name, start, end, true, Option::None, now);
    lemma_with_status_statuses(db, pending, name, txns, start, end, now);
    crate::models::lemma_status_rows_for_range(name, start, end, false, Option::None, now);
    crate::models::lemma_status_rows_for_range(name, start, end, true, Option::None, now);
    assert forall|idx: int|
        0 <= idx < st2.len() && (#[trigger] st2[idx]).success implies exists|i: int, j: int|
        0 <= i < j < h2.len() && is_started_write(h2[i], st2[idx].name, st2[idx].version)
            && is_success_write(h2[j], st2[idx].name, st2[idx].version) by {
        let row = st2[idx];
        let k = (row.name, row.version);
        assert(kf(st2[idx]) == k);
        crate::table::lemma_find_by_unique(st2, kf, k, idx);
        assert(row_at(st2, kf, k) == row);
        if k.0 == name && start <= k.1 <= end {
            // the error path writes no success row, so this run committed
            if pending > 0 {
                assert(!row.success);
            }
            let off = k.1 - start;
            let i = h.len() as int + off;
            let j = h.len() + started.len() + off;
            assert(h2 == h + started + succ + succ);
            assert(h2[i] == started[off]);
            assert(h2[j] == succ[off]);
            assert(started[off] == crate::models::status_row_view(
                name,
                (start + off) as u64,
                false,
                Option::None,
                now,
            ));
            assert(succ[off] == crate::models::status_row_view(
                name,
                (start + off) as u64,
                true,
                Option::None,
                now,
            ));
            assert(0 <= i < j < h2.len() && is_started_write(h2[i], row.name, row.version)
                && is_success_write(h2[j], row.name, row.version));
        } else {
            // a key the run did not touch: its success row was already
            // there, and the old history's witnesses still stand
            assert(has_key(st2, status_key(), k));
            assert(has_key(st2, status_key(), k) <==> (has_key(st, status_key(), k) || (k.0
                == name && start <= k.1 <= end)));
            assert(has_key(st, kf, k));
            assert(row_at(st2, kf, k) == row_at(st, kf, k));
            crate::table::lemma_find_by(st, kf, k);
            let idx0 = crate::table::find_by(st, kf, k);
            assert(st[idx0] == row_at(st, kf, k));
            assert(0 <= idx0 < st.len() && st[idx0].success);
            let (i0, j0) = choose|i: int, j: int|
                0 <= i < j < h.len() && is_started_write(h[i], st[idx0].name, st[idx0].version)
                    && is_success_write(h[j], st[idx0].name, st[idx0].version);
            assert(h2[i0] == h[i0]);
            assert(h2[j0] == h[j0]);
            assert(0 <= i0 < j0 < h2.len() && is_started_write(h2[i0], row.name, row.version)
                && is_success_write(h2[j0], row.name, row.version));
        }
    }
}

impl TransactionProcessor for DefaultTransactionProcessor {
    open spec fn spec_name(&self) -> Seq<char> {
        self.name_view()
    }

    fn name(&self) -> (r: String) {
        self.name.clone()
    }

    fn process_transactions(
        &self,
        store: &mut Store,
        txns: &Vec<RawTransaction>,
        start_version: u64,
        end_version: u64,
        now: u64,
    ) -> (r: Result<ProcessingResult, TransactionProcessingError>) {
        DefaultTransactionProcessor::process_transactions(
            self,
            store,
            txns,
            start_version,
            end_version,
            now,
        )
    }
}

} // verus!
