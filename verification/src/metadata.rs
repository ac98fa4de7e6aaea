//! The tailer's ledger metadata: which chain the store mirrors.
//!
//! The tailer checks this single row across restarts so that it never
//! mixes the history of two different chains in one store.

use vstd::prelude::*;

use crate::models::LedgerInfo;
use crate::store::{DbView, Store, StoreError};

verus! {

/// Read and write the stored ledger identity. Implement this on the
/// caller's side to support a different backing store.
pub trait IndexerMetaHandle {
    /// The stored ledger info, if one has been written.
    fn get_ledger_info(&self, store: &Store) -> (r: Option<LedgerInfo>)
        ensures
            match r {
                Option::Some(li) => store@.ledger_infos.len() > 0 && li.chain_id
                    == store@.ledger_infos[0],
                Option::None => store@.ledger_infos.len() == 0,
            },
    ;

    /// Record the ledger identity once; a second row for the same chain is
    /// a primary-key conflict and is rejected with the store unchanged.
    fn set_ledger_info(&self, store: &mut Store, ledger_info: LedgerInfo) -> (r: Result<
        (),
        StoreError,
    >)
        requires
            old(store).wf(),
        ensures
            final(store).wf(),
            old(store)@.ledger_infos.contains(ledger_info.chain_id) ==> r is Err && final(store)@
                == old(store)@,
            !old(store)@.ledger_infos.contains(ledger_info.chain_id) ==> r is Ok && final(store)@
                == (DbView {
                ledger_infos: old(store)@.ledger_infos.push(ledger_info.chain_id),
                ..old(store)@
            }),
            final(store).pending_failures() == old(store).pending_failures(),
            final(store).history() == old(store).history(),
    ;
}

} // verus!
