//! Unit tests: chunking, decomposition, statuses, ledger info, errors,
//! and the numeric boundary.

use ledger_indexer::counters::Counters;
use ledger_indexer::database::{ConnectionRetryPolicy, get_chunks};
use ledger_indexer::default_processor::{DefaultTransactionProcessor, from_transactions};
use ledger_indexer::errors::TransactionProcessingError;
use ledger_indexer::metadata::IndexerMetaHandle;
use ledger_indexer::models::{
    EventRec, LedgerInfo, ProcessorStatusRow, RawTransaction, TxnDetail, WriteSetChangeRec,
};
use ledger_indexer::store::{Store, StoreError};
use ledger_indexer::transaction_processor::ProcessorMetadataHandle;
use ledger_indexer::tailer::{PgTailerMetaHandle, Tailer};
use ledger_indexer::util::{bigdecimal_to_u64, u64_to_bigdecimal};

fn user_txn(version: u64, n_events: u64, n_changes: u64) -> RawTransaction {
    let mut events = Vec::new();
    let mut i: u64 = 0;
    while i < n_events {
        events.push(EventRec {
            account: format!("0xacc{}", version),
            creation_number: i,
            sequence_number: version,
            event_type: "coin::Withdraw".to_string(),
            data: "{}".to_string(),
        });
        i += 1;
    }
    let mut changes = Vec::new();
    let mut j: u64 = 0;
    while j < n_changes {
        changes.push(WriteSetChangeRec {
            hash: format!("ch{}-{}", version, j),
            change_type: "write_resource".to_string(),
            address: format!("0xaddr{}", version),
            state_key_hash: format!("sk{}-{}", version, j),
            data: "{}".to_string(),
        });
        j += 1;
    }
    RawTransaction {
        version,
        hash: format!("0xhash{}", version),
        state_change_hash: format!("0xsc{}", version),
        event_root_hash: format!("0xev{}", version),
        gas_used: 7,
        success: true,
        vm_status: "Executed successfully".to_string(),
        accumulator_root_hash: format!("0xacc_root{}", version),
        detail: TxnDetail::User {
            parent_signature_type: "ed25519_signature".to_string(),
            sender: format!("0xsender{}", version),
            sequence_number: version,
            max_gas_amount: 1000,
            expiration_timestamp_secs: 9999,
            gas_unit_price: 1,
            timestamp: 1000 + version,
        },
        events,
        changes,
    }
}

fn genesis_txn(version: u64) -> RawTransaction {
    RawTransaction {
        version,
        hash: format!("0xhash{}", version),
        state_change_hash: format!("0xsc{}", version),
        event_root_hash: format!("0xev{}", version),
        gas_used: 0,
        success: true,
        vm_status: "Executed successfully".to_string(),
        accumulator_root_hash: format!("0xacc_root{}", version),
        detail: TxnDetail::Genesis,
        events: Vec::new(),
        changes: Vec::new(),
    }
}

fn batch(start: u64, count: u64) -> Vec<RawTransaction> {
    let mut txns = Vec::new();
    let mut v = start;
    while v < start + count {
        txns.push(user_txn(v, 1, 0));
        v += 1;
    }
    txns
}

#[test]
fn chunks_cover_range_exactly() {
    assert_eq!(get_chunks(0, 5), Vec::<(usize, usize)>::new());
    // 65535 / 8 = 8191 rows per statement
    assert_eq!(get_chunks(10, 8), vec![(0, 10)]);
    assert_eq!(get_chunks(20000, 8), vec![(0, 8191), (8191, 16382), (16382, 20000)]);
    // one row per statement when a row uses every parameter
    assert_eq!(get_chunks(3, 65535), vec![(0, 1), (1, 2), (2, 3)]);
    assert_eq!(get_chunks(8191, 8), vec![(0, 8191)]);
    assert_eq!(get_chunks(8192, 8), vec![(0, 8191), (8191, 8192)]);
}

#[test]
fn decomposition_fidelity() {
    let txns = vec![genesis_txn(0), user_txn(1, 2, 3)];
    let (t, u, b, e, w) = from_transactions(&txns);
    assert_eq!(t.len(), 2);
    assert_eq!(t[0].version, 0);
    assert_eq!(t[1].version, 1);
    assert_eq!(t[1].hash, "0xhash1".to_string());
    assert_eq!(u.len(), 1);
    assert_eq!(u[0].version, 1);
    assert_eq!(u[0].sender, "0xsender1".to_string());
    assert_eq!(b.len(), 0);
    assert_eq!(e.len(), 2);
    assert_eq!(e[0].transaction_version, 1);
    assert_eq!(e[0].creation_number, 0);
    assert_eq!(e[1].creation_number, 1);
    assert_eq!(w.len(), 3);
    assert_eq!(w[0].index, 0);
    assert_eq!(w[1].index, 1);
    assert_eq!(w[2].index, 2);
    assert_eq!(w[0].transaction_version, 1);
}

#[test]
fn reprocessing_is_idempotent() {
    let mut counters = Counters::new();
    let processor = DefaultTransactionProcessor::new("default".to_string());
    let txns = batch(0, 4);
    let mut twice = Store::new();
    assert!(processor.process_transactions_with_status(&mut twice, &txns, &mut counters, 5).is_ok());
    assert!(processor.process_transactions_with_status(&mut twice, &txns, &mut counters, 5).is_ok());
    let mut once = Store::new();
    assert!(processor.process_transactions_with_status(&mut once, &txns, &mut counters, 5).is_ok());
    assert_eq!(twice.transactions(), once.transactions());
    assert_eq!(twice.user_transactions(), once.user_transactions());
    assert_eq!(twice.events(), once.events());
    assert_eq!(twice.write_set_changes(), once.write_set_changes());
    assert_eq!(twice.processor_statuses(), once.processor_statuses());
}

#[test]
fn failed_commit_writes_nothing() {
    let processor = DefaultTransactionProcessor::new("default".to_string());
    let txns = batch(0, 3);
    let mut store = Store::new();
    store.inject_commit_failures(1);
    let res = processor.process_transactions(&mut store, &txns, 0, 2, 1);
    assert!(res.is_err());
    assert_eq!(store.transactions().len(), 0);
    assert_eq!(store.user_transactions().len(), 0);
    assert_eq!(store.events().len(), 0);
    assert_eq!(store.processor_statuses().len(), 0);
}

#[test]
fn commit_error_carries_range_and_name() {
    let mut counters = Counters::new();
    let processor = DefaultTransactionProcessor::new("default".to_string());
    let txns = batch(0, 5);
    let mut store = Store::new();
    store.inject_commit_failures(1);
    let res = processor.process_transactions_with_status(&mut store, &txns, &mut counters, 1);
    match res {
        Err(TransactionProcessingError::TransactionCommitError {
            start_version,
            end_version,
            name,
            ..
        }) => {
            assert_eq!(start_version, 0);
            assert_eq!(end_version, 4);
            assert_eq!(name, "default".to_string());
        }
        _ => panic!("expected a commit error"),
    }
    // every version of the range is recorded as errored, with details
    for row in store.processor_statuses() {
        assert!(!row.success);
        assert!(row.details.is_some());
    }
    assert_eq!(store.processor_statuses().len(), 5);
}

#[test]
fn started_rows_precede_success() {
    let mut counters = Counters::new();
    let processor = DefaultTransactionProcessor::new("default".to_string());
    let mut store = Store::new();
    processor.mark_versions_started(&mut store, 0, 1, 1);
    for row in store.processor_statuses() {
        assert!(!row.success);
        assert!(row.details.is_none());
    }
    let txns = batch(0, 2);
    assert!(processor.process_transactions_with_status(&mut store, &txns, &mut counters, 2).is_ok());
    for row in store.processor_statuses() {
        assert!(row.success);
    }
}

#[test]
fn gap_freedom_over_iterations() {
    let mut counters = Counters::new();
    let mut store = Store::new();
    let mut tailer = Tailer::new(2);
    tailer.register_processor(DefaultTransactionProcessor::new("default".to_string()));
    let name = "default".to_string();
    let mut iteration: u64 = 0;
    while iteration < 3 {
        let start = tailer.next_batch_start(&store);
        assert_eq!(start, iteration * 2);
        let txns = batch(start, 2);
        assert!(tailer.run_iteration(&mut store, &txns, &mut counters, iteration));
        iteration += 1;
    }
    assert_eq!(store.get_max_version(&name), Some(5));
    assert_eq!(store.get_error_versions(&name), Vec::<u64>::new());
    assert_eq!(store.transactions().len(), 6);
}

#[test]
fn error_versions_come_out_sorted() {
    let mut store = Store::new();
    let name = "default".to_string();
    let none: Option<String> = None;
    let late = ProcessorStatusRow::from_versions(&name, 7, 8, false, &none, 1);
    let early = ProcessorStatusRow::from_versions(&name, 2, 3, false, &none, 1);
    store.apply_processor_status(&late);
    store.apply_processor_status(&early);
    assert_eq!(store.get_error_versions(&name), vec![2, 3, 7, 8]);
    assert_eq!(store.get_max_version(&name), Some(8));
}

#[test]
fn statuses_partition_by_name() {
    let mut store = Store::new();
    let alpha = "alpha".to_string();
    let beta = "beta".to_string();
    let none: Option<String> = None;
    store.apply_processor_status(&ProcessorStatusRow::from_versions(&alpha, 0, 2, true, &none, 1));
    store.apply_processor_status(&ProcessorStatusRow::from_versions(&beta, 5, 6, false, &none, 1));
    assert_eq!(store.get_max_version(&alpha), Some(2));
    assert_eq!(store.get_max_version(&beta), Some(6));
    assert_eq!(store.get_error_versions(&alpha), Vec::<u64>::new());
    assert_eq!(store.get_error_versions(&beta), vec![5, 6]);
    assert_eq!(store.get_max_version(&"gamma".to_string()), None);
}

#[test]
fn counters_track_runs() {
    let mut counters = Counters::new();
    let processor = DefaultTransactionProcessor::new("default".to_string());
    let mut store = Store::new();
    let txns = batch(0, 2);
    store.inject_commit_failures(1);
    assert!(
        processor.process_transactions_with_status(&mut store, &txns, &mut counters, 1).is_err()
    );
    assert!(
        processor.process_transactions_with_status(&mut store, &txns, &mut counters, 2).is_ok()
    );
    assert_eq!(counters.processor_invocations, 2);
    assert_eq!(counters.processor_successes, 1);
    assert_eq!(counters.processor_errors, 1);
    assert_eq!(counters.got_connection, 0);
    assert_eq!(counters.unable_to_get_connection, 0);
}

#[test]
fn metadata_handle_trait_surface() {
    let mut store = Store::new();
    let name = "default".to_string();
    let none: Option<String> = None;
    let rows = ProcessorStatusRow::from_versions(&name, 0, 1, false, &none, 1);
    ProcessorMetadataHandle::apply_processor_status(&mut store, &rows);
    assert_eq!(ProcessorMetadataHandle::get_max_version(&store, &name), Some(1));
    assert_eq!(ProcessorMetadataHandle::get_error_versions(&store, &name), vec![0, 1]);
}

#[test]
fn batch_start_is_min_resume_across_processors() {
    let mut store = Store::new();
    let mut tailer = Tailer::new(4);
    tailer.register_processor(DefaultTransactionProcessor::new("alpha".to_string()));
    tailer.register_processor(DefaultTransactionProcessor::new("beta".to_string()));
    assert_eq!(tailer.next_batch_start(&store), 0);
    let none: Option<String> = None;
    store.apply_processor_status(&ProcessorStatusRow::from_versions(
        &"alpha".to_string(),
        0,
        7,
        true,
        &none,
        1,
    ));
    // beta has no rows yet, so the tailer starts over for it
    assert_eq!(tailer.next_batch_start(&store), 0);
    store.apply_processor_status(&ProcessorStatusRow::from_versions(
        &"beta".to_string(),
        0,
        2,
        true,
        &none,
        1,
    ));
    // alpha resumes at 8, beta at 3; the batch starts at the smaller
    assert_eq!(tailer.next_batch_start(&store), 3);
}

#[test]
fn status_rows_from_versions() {
    let name = "default".to_string();
    let details: Option<String> = Some("boom".to_string());
    let rows = ProcessorStatusRow::from_versions(&name, 3, 5, false, &details, 9);
    assert_eq!(rows.len(), 3);
    assert_eq!(rows[0].version, 3);
    assert_eq!(rows[1].version, 4);
    assert_eq!(rows[2].version, 5);
    for row in &rows {
        assert_eq!(row.name, "default".to_string());
        assert!(!row.success);
        assert_eq!(row.details, Some("boom".to_string()));
        assert_eq!(row.last_updated, 9);
    }
}

#[test]
fn ledger_info_is_written_once() {
    let mut store = Store::new();
    let handle = PgTailerMetaHandle::new();
    assert_eq!(handle.get_ledger_info(&store), None);
    assert_eq!(handle.set_ledger_info(&mut store, LedgerInfo { chain_id: 7 }), Ok(()));
    assert_eq!(handle.get_ledger_info(&store), Some(LedgerInfo { chain_id: 7 }));
    assert_eq!(
        handle.set_ledger_info(&mut store, LedgerInfo { chain_id: 7 }),
        Err(StoreError::DuplicateKey)
    );
    assert_eq!(handle.get_ledger_info(&store), Some(LedgerInfo { chain_id: 7 }));
}

#[test]
fn retry_policy_bounds_attempts() {
    let unbounded = ConnectionRetryPolicy::unbounded();
    assert!(unbounded.should_retry(0));
    assert!(unbounded.should_retry(u64::MAX));
    let bounded = ConnectionRetryPolicy { max_attempts: Some(3) };
    assert!(bounded.should_retry(0));
    assert!(bounded.should_retry(2));
    assert!(!bounded.should_retry(3));
}

#[test]
fn version_decimal_round_trips() {
    assert_eq!(bigdecimal_to_u64(&u64_to_bigdecimal(0)), 0);
    assert_eq!(bigdecimal_to_u64(&u64_to_bigdecimal(1)), 1);
    assert_eq!(bigdecimal_to_u64(&u64_to_bigdecimal(9007199254740993)), 9007199254740993);
    assert_eq!(bigdecimal_to_u64(&u64_to_bigdecimal(u64::MAX)), u64::MAX);
    // the widening really builds the decimal of that value
    assert_eq!(u64_to_bigdecimal(7), bigdecimal::BigDecimal::from(7u64));
    assert_eq!(bigdecimal_to_u64(&bigdecimal::BigDecimal::from(12345u64)), 12345);
}
