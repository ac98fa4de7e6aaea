//! The data model: raw transactions as the upstream hands them over, and
//! the row families the processor derives from them.
//!
//! A raw transaction is one of three variants — user, block-metadata, or
//! genesis — and always carries the common ledger fields plus embedded
//! events and write-set changes. Each type has a mathematical view over
//! character sequences and integers; contracts speak of those views.

use vstd::prelude::*;

verus! {

// ---------------------------------------------------------------------------
// Embedded records of a raw transaction
// ---------------------------------------------------------------------------

pub struct EventRec {
    pub account: String,
    pub creation_number: u64,
    pub sequence_number: u64,
    pub event_type: String,
    pub data: String,
}

pub ghost struct EventRecView {
    pub account: Seq<char>,
    pub creation_number: u64,
    pub sequence_number: u64,
    pub event_type: Seq<char>,
    pub data: Seq<char>,
}

impl View for EventRec {
    type V = EventRecView;

    open spec fn view(&self) -> EventRecView {
        EventRecView {
            account: self.account@,
            creation_number: self.creation_number,
            sequence_number: self.sequence_number,
            event_type: self.event_type@,
            data: self.data@,
        }
    }
}

pub struct WriteSetChangeRec {
    pub hash: String,
    pub change_type: String,
    pub address: String,
    pub state_key_hash: String,
    pub data: String,
}

pub ghost struct WriteSetChangeRecView {
    pub hash: Seq<char>,
    pub change_type: Seq<char>,
    pub address: Seq<char>,
    pub state_key_hash: Seq<char>,
    pub data: Seq<char>,
}

impl View for WriteSetChangeRec {
    type V = WriteSetChangeRecView;

    open spec fn view(&self) -> WriteSetChangeRecView {
        WriteSetChangeRecView {
            hash: self.hash@,
            change_type: self.change_type@,
            address: self.address@,
            state_key_hash: self.state_key_hash@,
            data: self.data@,
        }
    }
}

// ---------------------------------------------------------------------------
// Raw transactions
// ---------------------------------------------------------------------------

/// Variant-specific fields of a raw transaction.
pub enum TxnDetail {
    User {
        parent_signature_type: String,
        sender: String,
        sequence_number: u64,
        max_gas_amount: u64,
        expiration_timestamp_secs: u64,
        gas_unit_price: u64,
        timestamp: u64,
    },
    BlockMetadata { id: String, round: u64, previous_block_votes: String, proposer: String, timestamp: u64 },
    Genesis,
}

pub ghost enum TxnDetailView {
    User {
        parent_signature_type: Seq<char>,
        sender: Seq<char>,
        sequence_number: u64,
        max_gas_amount: u64,
        expiration_timestamp_secs: u64,
        gas_unit_price: u64,
        timestamp: u64,
    },
    BlockMetadata {
        id: Seq<char>,
        round: u64,
        previous_block_votes: Seq<char>,
        proposer: Seq<char>,
        timestamp: u64,
    },
    Genesis,
}

impl View for TxnDetail {
    type V = TxnDetailView;

    open spec fn view(&self) -> TxnDetailView {
        match self {
            TxnDetail::User {
                parent_signature_type,
                sender,
                sequence_number,
                max_gas_amount,
                expiration_timestamp_secs,
                gas_unit_price,
                timestamp,
            } => TxnDetailView::User {
                parent_signature_type: parent_signature_type@,
                sender: sender@,
                sequence_number: *sequence_number,
                max_gas_amount: *max_gas_amount,
                expiration_timestamp_secs: *expiration_timestamp_secs,
                gas_unit_price: *gas_unit_price,
                timestamp: *timestamp,
            },
            TxnDetail::BlockMetadata { id, round, previous_block_votes, proposer, timestamp } => TxnDetailView::BlockMetadata {
                id: id@,
                round: *round,
                previous_block_votes: previous_block_votes@,
                proposer: proposer@,
                timestamp: *timestamp,
            },
            TxnDetail::Genesis => TxnDetailView::Genesis,
        }
    }
}

/// One transaction as retrieved from the upstream endpoint.
pub struct RawTransaction {
    pub version: u64,
    pub hash: String,
    pub state_change_hash: String,
    pub event_root_hash: String,
    pub gas_used: u64,
    pub success: bool,
    pub vm_status: String,
    pub accumulator_root_hash: String,
    pub detail: TxnDetail,
    pub events: Vec<EventRec>,
    pub changes: Vec<WriteSetChangeRec>,
}

pub ghost struct RawTransactionView {
    pub version: u64,
    pub hash: Seq<char>,
    pub state_change_hash: Seq<char>,
    pub event_root_hash: Seq<char>,
    pub gas_used: u64,
    pub success: bool,
    pub vm_status: Seq<char>,
    pub accumulator_root_hash: Seq<char>,
    pub detail: TxnDetailView,
    pub events: Seq<EventRecView>,
    pub changes: Seq<WriteSetChangeRecView>,
}

impl View for RawTransaction {
    type V = RawTransactionView;

    open spec fn view(&self) -> RawTransactionView {
        RawTransactionView {
            version: self.version,
            hash: self.hash@,
            state_change_hash: self.state_change_hash@,
            event_root_hash: self.event_root_hash@,
            gas_used: self.gas_used,
            success: self.success,
            vm_status: self.vm_status@,
            accumulator_root_hash: self.accumulator_root_hash@,
            detail: self.detail@,
            events: self.events@.map_values(|e: EventRec| e@),
            changes: self.changes@.map_values(|c: WriteSetChangeRec| c@),
        }
    }
}

/// The views of a sequence of raw transactions.
pub open spec fn raw_views(txns: Seq<RawTransaction>) -> Seq<RawTransactionView> {
    txns.map_values(|t: RawTransaction| t@)
}

// ---------------------------------------------------------------------------
// Row families
// ---------------------------------------------------------------------------

#[derive(PartialEq, Eq, Debug)]
pub struct TransactionRow {
    pub version: u64,
    pub hash: String,
    pub state_change_hash: String,
    pub event_root_hash: String,
    pub gas_used: u64,
    pub success: bool,
    pub vm_status: String,
    pub accumulator_root_hash: String,
}

pub ghost struct TransactionRowView {
    pub version: u64,
    pub hash: Seq<char>,
    pub state_change_hash: Seq<char>,
    pub event_root_hash: Seq<char>,
    pub gas_used: u64,
    pub success: bool,
    pub vm_status: Seq<char>,
    pub accumulator_root_hash: Seq<char>,
}

impl View for TransactionRow {
    type V = TransactionRowView;

    open spec fn view(&self) -> TransactionRowView {
        TransactionRowView {
            version: self.version,
            hash: self.hash@,
            state_change_hash: self.state_change_hash@,
            event_root_hash: self.event_root_hash@,
            gas_used: self.gas_used,
            success: self.success,
            vm_status: self.vm_status@,
            accumulator_root_hash: self.accumulator_root_hash@,
        }
    }
}

impl TransactionRow {
    /// A copy of the row with the same view.
    pub fn clone_row(&self) -> (r: TransactionRow)
        ensures
            r@ == self@,
    {
        TransactionRow {
            version: self.version,
            hash: self.hash.clone(),
            state_change_hash: self.state_change_hash.clone(),
            event_root_hash: self.event_root_hash.clone(),
            gas_used: self.gas_used,
            success: self.success,
            vm_status: self.vm_status.clone(),
            accumulator_root_hash: self.accumulator_root_hash.clone(),
        }
    }
}

#[derive(PartialEq, Eq, Debug)]
pub struct UserTransactionRow {
    pub version: u64,
    pub parent_signature_type: String,
    pub sender: String,
    pub sequence_number: u64,
    pub max_gas_amount: u64,
    pub expiration_timestamp_secs: u64,
    pub gas_unit_price: u64,
    pub timestamp: u64,
}

pub ghost struct UserTransactionRowView {
    pub version: u64,
    pub parent_signature_type: Seq<char>,
    pub sender: Seq<char>,
    pub sequence_number: u64,
    pub max_gas_amount: u64,
    pub expiration_timestamp_secs: u64,
    pub gas_unit_price: u64,
    pub timestamp: u64,
}

impl View for UserTransactionRow {
    type V = UserTransactionRowView;

    open spec fn view(&self) -> UserTransactionRowView {
        UserTransactionRowView {
            version: self.version,
            parent_signature_type: self.parent_signature_type@,
            sender: self.sender@,
            sequence_number: self.sequence_number,
            max_gas_amount: self.max_gas_amount,
            expiration_timestamp_secs: self.expiration_timestamp_secs,
            gas_unit_price: self.gas_unit_price,
            timestamp: self.timestamp,
        }
    }
}

impl UserTransactionRow {
    /// A copy of the row with the same view.
    pub fn clone_row(&self) -> (r: UserTransactionRow)
        ensures
            r@ == self@,
    {
        UserTransactionRow {
            version: self.version,
            parent_signature_type: self.parent_signature_type.clone(),
            sender: self.sender.clone(),
            sequence_number: self.sequence_number,
            max_gas_amount: self.max_gas_amount,
            expiration_timestamp_secs: self.expiration_timestamp_secs,
            gas_unit_price: self.gas_unit_price,
            timestamp: self.timestamp,
        }
    }
}

#[derive(PartialEq, Eq, Debug)]
pub struct BlockMetadataTransactionRow {
    pub version: u64,
    pub id: String,
    pub round: u64,
    pub previous_block_votes: String,
    pub proposer: String,
    pub timestamp: u64,
}

pub ghost struct BlockMetadataTransactionRowView {
    pub version: u64,
    pub id: Seq<char>,
    pub round: u64,
    pub previous_block_votes: Seq<char>,
    pub proposer: Seq<char>,
    pub timestamp: u64,
}

impl View for BlockMetadataTransactionRow {
    type V = BlockMetadataTransactionRowView;

    open spec fn view(&self) -> BlockMetadataTransactionRowView {
        BlockMetadataTransactionRowView {
            version: self.version,
            id: self.id@,
            round: self.round,
            previous_block_votes: self.previous_block_votes@,
            proposer: self.proposer@,
            timestamp: self.timestamp,
        }
    }
}

impl BlockMetadataTransactionRow {
    /// A copy of the row with the same view.
    pub fn clone_row(&self) -> (r: BlockMetadataTransactionRow)
        ensures
            r@ == self@,
    {
        BlockMetadataTransactionRow {
            version: self.version,
            id: self.id.clone(),
            round: self.round,
            previous_block_votes: self.previous_block_votes.clone(),
            proposer: self.proposer.clone(),
            timestamp: self.timestamp,
        }
    }
}

#[derive(PartialEq, Eq, Debug)]
pub struct EventRow {
    pub account_address: String,
    pub creation_number: u64,
    pub sequence_number: u64,
    pub transaction_version: u64,
    pub event_type: String,
    pub data: String,
}

pub ghost struct EventRowView {
    pub account_address: Seq<char>,
    pub creation_number: u64,
    pub sequence_number: u64,
    pub transaction_version: u64,
    pub event_type: Seq<char>,
    pub data: Seq<char>,
}

impl View for EventRow {
    type V = EventRowView;

    open spec fn view(&self) -> EventRowView {
        EventRowView {
            account_address: self.account_address@,
            creation_number: self.creation_number,
            sequence_number: self.sequence_number,
            transaction_version: self.transaction_version,
            event_type: self.event_type@,
            data: self.data@,
        }
    }
}

impl EventRow {
    /// A copy of the row with the same view.
    pub fn clone_row(&self) -> (r: EventRow)
        ensures
            r@ == self@,
    {
        EventRow {
            account_address: self.account_address.clone(),
            creation_number: self.creation_number,
            sequence_number: self.sequence_number,
            transaction_version: self.transaction_version,
            event_type: self.event_type.clone(),
            data: self.data.clone(),
        }
    }
}

#[derive(PartialEq, Eq, Debug)]
pub struct WriteSetChangeRow {
    pub transaction_version: u64,
    pub index: u64,
    pub hash: String,
    pub change_type: String,
    pub address: String,
    pub state_key_hash: String,
    pub data: String,
}

pub ghost struct WriteSetChangeRowView {
    pub transaction_version: u64,
    pub index: u64,
    pub hash: Seq<char>,
    pub change_type: Seq<char>,
    pub address: Seq<char>,
    pub state_key_hash: Seq<char>,
    pub data: Seq<char>,
}

impl View for WriteSetChangeRow {
    type V = WriteSetChangeRowView;

    open spec fn view(&self) -> WriteSetChangeRowView {
        WriteSetChangeRowView {
            transaction_version: self.transaction_version,
            index: self.index,
            hash: self.hash@,
            change_type: self.change_type@,
            address: self.address@,
            state_key_hash: self.state_key_hash@,
            data: self.data@,
        }
    }
}

impl WriteSetChangeRow {
    /// A copy of the row with the same view.
    pub fn clone_row(&self) -> (r: WriteSetChangeRow)
        ensures
            r@ == self@,
    {
        WriteSetChangeRow {
            transaction_version: self.transaction_version,
            index: self.index,
            hash: self.hash.clone(),
            change_type: self.change_type.clone(),
            address: self.address.clone(),
            state_key_hash: self.state_key_hash.clone(),
            data: self.data.clone(),
        }
    }
}

// ---------------------------------------------------------------------------
// Processor status and ledger info
// ---------------------------------------------------------------------------

/// One bookkeeping row: what has been done for `(name, version)`.
/// `success == false` with no details is the *started* state.
#[derive(PartialEq, Eq, Debug)]
pub struct ProcessorStatusRow {
    pub name: String,
    pub version: u64,
    pub success: bool,
    pub details: Option<String>,
    pub last_updated: u64,
}

pub ghost struct ProcessorStatusRowView {
    pub name: Seq<char>,
    pub version: u64,
    pub success: bool,
    pub details: Option<Seq<char>>,
    pub last_updated: u64,
}

impl View for ProcessorStatusRow {
    type V = ProcessorStatusRowView;

    open spec fn view(&self) -> ProcessorStatusRowView {
        ProcessorStatusRowView {
            name: self.name@,
            version: self.version,
            success: self.success,
            details: opt_str_view(self.details),
            last_updated: self.last_updated,
        }
    }
}

/// The single row identifying which chain this store mirrors.
#[derive(PartialEq, Eq, Debug, Clone, Copy)]
pub struct LedgerInfo {
    pub chain_id: i64,
}

// ---------------------------------------------------------------------------
// Primary keys
// ---------------------------------------------------------------------------

pub open spec fn txn_key() -> spec_fn(TransactionRowView) -> u64 {
    |r: TransactionRowView| r.version
}

pub open spec fn user_txn_key() -> spec_fn(UserTransactionRowView) -> u64 {
    |r: UserTransactionRowView| r.version
}

pub open spec fn bm_txn_key() -> spec_fn(BlockMetadataTransactionRowView) -> u64 {
    |r: BlockMetadataTransactionRowView| r.version
}

pub open spec fn event_key() -> spec_fn(EventRowView) -> (Seq<char>, u64, u64) {
    |r: EventRowView| (r.account_address, r.creation_number, r.sequence_number)
}

pub open spec fn wsc_key() -> spec_fn(WriteSetChangeRowView) -> (u64, u64) {
    |r: WriteSetChangeRowView| (r.transaction_version, r.index)
}

pub open spec fn status_key() -> spec_fn(ProcessorStatusRowView) -> (Seq<char>, u64) {
    |r: ProcessorStatusRowView| (r.name, r.version)
}

// ---------------------------------------------------------------------------
// Status rows over a version range
// ---------------------------------------------------------------------------

pub open spec fn status_row_view(
    name: Seq<char>,
    version: u64,
    success: bool,
    details: Option<Seq<char>>,
    updated_at: u64,
) -> ProcessorStatusRowView {
    ProcessorStatusRowView { name, version, success, details, last_updated: updated_at }
}

/// One status row for every version of `[start, end]`, in ascending order.
pub open spec fn status_rows_for_range(
    name: Seq<char>,
    start: u64,
    end: u64,
    success: bool,
    details: Option<Seq<char>>,
    updated_at: u64,
) -> Seq<ProcessorStatusRowView>
    decreases end - start,
{
    if start > end {
        Seq::empty()
    } else if start == end {
        seq![status_row_view(name, start, success, details, updated_at)]
    } else {
        status_rows_for_range(name, start, (end - 1) as u64, success, details, updated_at).push(
            status_row_view(name, end, success, details, updated_at),
        )
    }
}

/// The versions of a batch are consecutive from the first one.
pub open spec fn versions_dense(ts: Seq<RawTransactionView>) -> bool {
    forall|i: int| 0 <= i < ts.len() ==> (#[trigger] ts[i]).version == ts[0].version + i
}

/// The view of an optional string.
pub open spec fn opt_str_view(o: Option<String>) -> Option<Seq<char>> {
    match o {
        Option::Some(s) => Option::Some(s@),
        Option::None => Option::None,
    }
}

/// Clone an optional string, keeping its view.
pub fn clone_opt_string(o: &Option<String>) -> (r: Option<String>)
    ensures
        opt_str_view(r) == opt_str_view(*o),
{
    match o {
        Option::Some(s) => Option::Some(s.clone()),
        Option::None => Option::None,
    }
}

/// The rows of a range have one row per version, in ascending order.
pub proof fn lemma_status_rows_for_range(
    name: Seq<char>,
    start: u64,
    end: u64,
    success: bool,
    details: Option<Seq<char>>,
    updated_at: u64,
)
    requires
        start <= end,
    ensures
        status_rows_for_range(name, start, end, success, details, updated_at).len() == end - start
            + 1,
        forall|i: int|
            0 <= i <= end - start ==> status_rows_for_range(
                name,
                start,
                end,
                success,
                details,
                updated_at,
            )[i] == status_row_view(name, (start + i) as u64, success, details, updated_at),
    decreases end - start,
{
    if start < end {
        lemma_status_rows_for_range(name, start, (end - 1) as u64, success, details, updated_at);
    }
}

impl ProcessorStatusRow {
    /// A copy of the row with the same view.
    pub fn clone_row(&self) -> (r: ProcessorStatusRow)
        ensures
            r@ == self@,
    {
        ProcessorStatusRow {
            name: self.name.clone(),
            version: self.version,
            success: self.success,
            details: clone_opt_string(&self.details),
            last_updated: self.last_updated,
        }
    }

    /// Build the status rows `(name, v, success, details)` for every `v` in
    /// `[start, end]`, stamped with `updated_at`.
    pub fn from_versions(
        name: &String,
        start: u64,
        end: u64,
        success: bool,
        details: &Option<String>,
        updated_at: u64,
    ) -> (rows: Vec<ProcessorStatusRow>)
        requires
            start <= end,
            end - start < usize::MAX,
        ensures
            rows@.map_values(|r: ProcessorStatusRow| r@) == status_rows_for_range(
                name@,
                start,
                end,
                success,
                opt_str_view(*details),
                updated_at,
            ),
    {
        let ghost dv: Option<Seq<char>> = opt_str_view(*details);
        let mut rows: Vec<ProcessorStatusRow> = Vec::new();
        let n: u64 = end - start;
        let mut i: u64 = 0;
        while i <= n
            invariant
                dv == opt_str_view(*details),
                n == end - start,
                start <= end,
                n < usize::MAX,
                i <= n + 1,
                rows@.map_values(|r: ProcessorStatusRow| r@) == if i == 0 {
                    Seq::<ProcessorStatusRowView>::empty()
                } else {
                    status_rows_for_range(name@, start, (start + i - 1) as u64, success, dv, updated_at)
                },
            decreases n + 1 - i,
        {
            let v: u64 = start + i;
            let d: Option<String> = clone_opt_string(details);
            let row = ProcessorStatusRow {
                name: name.clone(),
                version: v,
                success,
                details: d,
                last_updated: updated_at,
            };
            proof {
                let prev = rows@.map_values(|r: ProcessorStatusRow| r@);
                assert(rows@.push(row).map_values(|r: ProcessorStatusRow| r@) =~= prev.push(row@));
                assert(row@ == status_row_view(name@, v, success, dv, updated_at));
            }
            rows.push(row);
            i = i + 1;
        }
        rows
    }
}

} // verus!
