//! The processor-side contracts: metadata bookkeeping and the pluggable
//! transformation from raw transactions to durable rows.

use vstd::prelude::*;

use crate::errors::{ProcessingResult, TransactionProcessingError};
use crate::models::{ProcessorStatusRow, ProcessorStatusRowView, RawTransaction, status_key};
use crate::store::{DbView, Store, db_wf, is_error_version, max_version_of};
use crate::table::upsert_rows;

verus! {

/// A capability over the processor-status table. The store implements it;
/// another backend would have to meet the same contracts.
pub trait ProcessorMetadataHandle: View<V = DbView> {
    /// Every status write applied through this handle, in order.
    spec fn status_history(&self) -> Seq<ProcessorStatusRowView>;

    /// Upsert the given rows by `(name, version)`, overwriting on conflict.
    fn apply_processor_status(&mut self, rows: &Vec<ProcessorStatusRow>)
        requires
            db_wf(old(self)@),
        ensures
            db_wf(final(self)@),
            final(self)@ == (DbView {
                processor_statuses: upsert_rows(
                    old(self)@.processor_statuses,
                    rows@.map_values(|r: ProcessorStatusRow| r@),
                    status_key(),
                ),
                ..old(self)@
            }),
            final(self).status_history() == old(self).status_history() + rows@.map_values(
                |r: ProcessorStatusRow| r@,
            ),
    ;

    /// Every version not successfully processed for this processor, in
    /// ascending order; these are the versions the tailer retries.
    fn get_error_versions(&self, processor_name: &String) -> (r: Vec<u64>)
        requires
            db_wf(self@),
        ensures
            forall|a: int, b: int| 0 <= a < b < r@.len() ==> r@[a] < r@[b],
            forall|v: u64| #![auto]
                r@.contains(v) == is_error_version(
                    self@.processor_statuses,
                    processor_name@,
                    v,
                ),
    ;

    /// The highest version with any status row for this processor; where
    /// to resume from on restart.
    fn get_max_version(&self, processor_name: &String) -> (r: Option<u64>)
        ensures
            r == max_version_of(self@.processor_statuses, processor_name@),
    ;
}

impl ProcessorMetadataHandle for Store {
    open spec fn status_history(&self) -> Seq<ProcessorStatusRowView> {
        self.history()
    }

    fn apply_processor_status(&mut self, rows: &Vec<ProcessorStatusRow>) {
        Store::apply_processor_status(self, rows);
    }

    fn get_error_versions(&self, processor_name: &String) -> (r: Vec<u64>) {
        Store::get_error_versions(self, processor_name)
    }

    fn get_max_version(&self, processor_name: &String) -> (r: Option<u64>) {
        Store::get_max_version(self, processor_name)
    }
}

/// A named transformation from a range of raw transactions to durable
/// rows. The contract every processor must meet is atomicity: a range that
/// fails leaves the database exactly as it was.
pub trait TransactionProcessor {
    spec fn spec_name(&self) -> Seq<char>;

    /// The constant name recorded in status rows.
    fn name(&self) -> (r: String)
        ensures
            r@ == self.spec_name(),
    ;

    /// Process one range. Success means every row derived from `txns` is
    /// durably committed, together with the success statuses of the range;
    /// failure means nothing at all was written.
    fn process_transactions(
        &self,
        store: &mut Store,
        txns: &Vec<RawTransaction>,
        start_version: u64,
        end_version: u64,
        now: u64,
    ) -> (r: Result<ProcessingResult, TransactionProcessingError>)
        requires
            old(store).wf(),
            txns@.len() > 0,
            start_version <= end_version,
            end_version - start_version < usize::MAX,
        ensures
            final(store).wf(),
            r is Err ==> final(store)@ == old(store)@ && final(store).history() == old(
                store,
            ).history(),
    ;
}

} // verus!
