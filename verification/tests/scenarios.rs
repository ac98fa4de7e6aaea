//! End-to-end scenarios over the tailer pipeline.

use ledger_indexer::counters::Counters;
use ledger_indexer::default_processor::DefaultTransactionProcessor;
use ledger_indexer::models::{EventRec, RawTransaction, TxnDetail, WriteSetChangeRec};
use ledger_indexer::store::Store;
use ledger_indexer::tailer::Tailer;
use ledger_indexer::util::{bigdecimal_to_u64, u64_to_bigdecimal};

fn user_txn(version: u64, n_events: u64, n_changes: u64) -> RawTransaction {
    let mut events = Vec::new();
    let mut i: u64 = 0;
    while i < n_events {
        events.push(EventRec {
            account: format!("0xacc{}", version),
            creation_number: i,
            sequence_number: version,
            event_type: "coin::Deposit".to_string(),
            data: "{}".to_string(),
        });
        i += 1;
    }
    let mut changes = Vec::new();
    let mut j: u64 = 0;
    while j < n_changes {
        changes.push(WriteSetChangeRec {
            hash: format!("ch{}-{}", version, j),
            change_type: "write_resource".to_string(),
            address: format!("0xaddr{}", version),
            state_key_hash: format!("sk{}-{}", version, j),
            data: "{}".to_string(),
        });
        j += 1;
    }
    RawTransaction {
        version,
        hash: format!("0xhash{}", version),
        state_change_hash: format!("0xsc{}", version),
        event_root_hash: format!("0xev{}", version),
        gas_used: 42,
        success: true,
        vm_status: "Executed successfully".to_string(),
        accumulator_root_hash: format!("0xacc_root{}", version),
        detail: TxnDetail::User {
            parent_signature_type: "ed25519_signature".to_string(),
            sender: format!("0xsender{}", version),
            sequence_number: version,
            max_gas_amount: 1000,
            expiration_timestamp_secs: 9999,
            gas_unit_price: 1,
            timestamp: 1000 + version,
        },
        events,
        changes,
    }
}

fn genesis_txn(version: u64) -> RawTransaction {
    RawTransaction {
        version,
        hash: format!("0xhash{}", version),
        state_change_hash: format!("0xsc{}", version),
        event_root_hash: format!("0xev{}", version),
        gas_used: 0,
        success: true,
        vm_status: "Executed successfully".to_string(),
        accumulator_root_hash: format!("0xacc_root{}", version),
        detail: TxnDetail::Genesis,
        events: Vec::new(),
        changes: Vec::new(),
    }
}

fn block_metadata_txn(version: u64) -> RawTransaction {
    RawTransaction {
        version,
        hash: format!("0xhash{}", version),
        state_change_hash: format!("0xsc{}", version),
        event_root_hash: format!("0xev{}", version),
        gas_used: 0,
        success: true,
        vm_status: "Executed successfully".to_string(),
        accumulator_root_hash: format!("0xacc_root{}", version),
        detail: TxnDetail::BlockMetadata {
            id: format!("block{}", version),
            round: version,
            previous_block_votes: "[]".to_string(),
            proposer: "0xproposer".to_string(),
            timestamp: 1000 + version,
        },
        events: Vec::new(),
        changes: Vec::new(),
    }
}

fn default_tailer(batch_size: u64) -> Tailer {
    let mut tailer = Tailer::new(batch_size);
    tailer.register_processor(DefaultTransactionProcessor::new("default".to_string()));
    tailer
}

fn batch(start: u64, count: u64) -> Vec<RawTransaction> {
    let mut txns = Vec::new();
    let mut v = start;
    while v < start + count {
        txns.push(user_txn(v, 1, 0));
        v += 1;
    }
    txns
}

#[test]
fn s1_cold_start() {
    let mut counters = Counters::new();
    let mut store = Store::new();
    let tailer = default_tailer(10);
    let name = "default".to_string();
    let txns = batch(0, 10);
    assert_eq!(tailer.next_batch_start(&store), 0);
    let ok = tailer.run_iteration(&mut store, &txns, &mut counters, 1);
    assert!(ok);
    assert_eq!(store.get_max_version(&name), Some(9));
    assert_eq!(store.transactions().len(), 10);
    assert_eq!(store.user_transactions().len(), 10);
    assert_eq!(store.events().len(), 10);
    assert_eq!(store.block_metadata_transactions().len(), 0);
    assert_eq!(store.get_error_versions(&name), Vec::<u64>::new());
}

#[test]
fn s2_mixed_batch() {
    let mut counters = Counters::new();
    let mut store = Store::new();
    let tailer = default_tailer(3);
    let txns = vec![genesis_txn(0), block_metadata_txn(1), user_txn(2, 3, 2)];
    let ok = tailer.run_iteration(&mut store, &txns, &mut counters, 1);
    assert!(ok);
    assert_eq!(store.transactions().len(), 3);
    assert_eq!(store.user_transactions().len(), 1);
    assert_eq!(store.block_metadata_transactions().len(), 1);
    assert_eq!(store.events().len(), 3);
    assert_eq!(store.write_set_changes().len(), 2);
    let mut indices: Vec<u64> = store
        .write_set_changes()
        .iter()
        .filter(|w| w.transaction_version == 2)
        .map(|w| w.index)
        .collect();
    indices.sort();
    assert_eq!(indices, vec![0, 1]);
}

#[test]
fn s3_retry() {
    let mut counters = Counters::new();
    let mut store = Store::new();
    let tailer = default_tailer(5);
    let name = "default".to_string();
    let txns = batch(0, 5);
    store.inject_commit_failures(1);
    let ok = tailer.run_iteration(&mut store, &txns, &mut counters, 1);
    assert!(!ok);
    assert_eq!(store.get_error_versions(&name), vec![0, 1, 2, 3, 4]);
    assert_eq!(store.transactions().len(), 0);
    assert_eq!(store.events().len(), 0);
    let ok2 = tailer.retry_errors(&mut store, 0, &txns, &mut counters, 2);
    assert!(ok2);
    assert_eq!(store.transactions().len(), 5);
    assert_eq!(store.user_transactions().len(), 5);
    assert_eq!(store.get_error_versions(&name), Vec::<u64>::new());
    assert_eq!(store.get_max_version(&name), Some(4));
}

#[test]
fn s4_re_run() {
    let mut counters = Counters::new();
    let mut store = Store::new();
    let tailer = default_tailer(10);
    let name = "default".to_string();
    let txns = batch(0, 10);
    let ok1 = tailer.run_iteration(&mut store, &txns, &mut counters, 1);
    assert!(ok1);
    let ok2 = tailer.run_iteration(&mut store, &txns, &mut counters, 1);
    assert!(ok2);

    let mut once = Store::new();
    let ok = tailer.run_iteration(&mut once, &txns, &mut counters, 1);
    assert!(ok);

    assert_eq!(store.transactions(), once.transactions());
    assert_eq!(store.user_transactions(), once.user_transactions());
    assert_eq!(store.block_metadata_transactions(), once.block_metadata_transactions());
    assert_eq!(store.events(), once.events());
    assert_eq!(store.write_set_changes(), once.write_set_changes());
    assert_eq!(store.processor_statuses(), once.processor_statuses());
    assert_eq!(store.processor_statuses().len(), 10);
    assert_eq!(store.get_max_version(&name), Some(9));
}

#[test]
fn s5_crash_mid_batch() {
    let mut counters = Counters::new();
    let mut store = Store::new();
    let processor = DefaultTransactionProcessor::new("default".to_string());
    let name = "default".to_string();
    let txns = batch(0, 5);

    // the process dies between the *started* upsert and the commit; the
    // store stands for what the backend kept
    processor.mark_versions_started(&mut store, 0, 4, 1);
    assert_eq!(store.get_error_versions(&name), vec![0, 1, 2, 3, 4]);
    assert_eq!(store.transactions().len(), 0);

    // on restart the error versions are retried
    let res = processor.process_transactions_with_status(&mut store, &txns, &mut counters, 2);
    assert!(res.is_ok());
    assert_eq!(store.get_error_versions(&name), Vec::<u64>::new());
    assert_eq!(store.get_max_version(&name), Some(4));

    // the final state is the one an undisturbed run leaves
    let mut undisturbed = Store::new();
    let res2 = processor.process_transactions_with_status(&mut undisturbed, &txns, &mut counters, 2);
    assert!(res2.is_ok());
    assert_eq!(store.transactions(), undisturbed.transactions());
    assert_eq!(store.user_transactions(), undisturbed.user_transactions());
    assert_eq!(store.events(), undisturbed.events());
}

#[test]
fn s6_large_version() {
    let mut counters = Counters::new();
    let big: u64 = 18446744073709551610;
    let widened = u64_to_bigdecimal(big);
    assert_eq!(bigdecimal_to_u64(&widened), big);

    let mut store = Store::new();
    let processor = DefaultTransactionProcessor::new("default".to_string());
    let name = "default".to_string();
    let txns = vec![user_txn(big, 1, 1)];
    let res = processor.process_transactions_with_status(&mut store, &txns, &mut counters, 1);
    assert!(res.is_ok());
    assert_eq!(store.get_max_version(&name), Some(big));
    assert_eq!(store.transactions().len(), 1);
    assert_eq!(store.transactions()[0].version, big);
}
