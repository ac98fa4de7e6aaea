//! The tailer: discover the next unprocessed range and dispatch it to
//! every registered processor, with per-version bookkeeping driving
//! resume and retry.

use vstd::prelude::*;

use crate::counters::{Counters, spec_count_run};
use crate::default_processor::{DefaultTransactionProcessor, spec_with_status, spec_with_status_history};
use crate::metadata::IndexerMetaHandle;
use crate::models::{LedgerInfo, ProcessorStatusRowView, RawTransaction, raw_views, versions_dense};
use crate::store::{DbView, Store, StoreError, max_version_of};
use crate::transaction_processor::TransactionProcessor;

verus! {

/// The tailer's handle on the ledger-info table.
pub struct PgTailerMetaHandle {}

impl PgTailerMetaHandle {
    pub fn new() -> (r: PgTailerMetaHandle) {
        PgTailerMetaHandle {}
    }
}

impl IndexerMetaHandle for PgTailerMetaHandle {
    fn get_ledger_info(&self, store: &Store) -> (r: Option<LedgerInfo>) {
        store.load_ledger_info()
    }

    fn set_ledger_info(&self, store: &mut Store, ledger_info: LedgerInfo) -> (r: Result<
        (),
        StoreError,
    >) {
        store.insert_ledger_info(ledger_info)
    }
}

/// The resume point of one processor: one past its highest recorded
/// version, or 0 when it has none.
pub open spec fn spec_resume_point(st: Seq<ProcessorStatusRowView>, name: Seq<char>) -> u64 {
    match max_version_of(st, name) {
        Option::Some(m) => if m == u64::MAX {
            u64::MAX
        } else {
            (m + 1) as u64
        },
        Option::None => 0,
    }
}

/// The batch start the tailer picks: the smallest resume point across the
/// registered processors, or 0 with none registered.
pub open spec fn spec_next_batch_start(
    st: Seq<ProcessorStatusRowView>,
    names: Seq<Seq<char>>,
) -> u64
    decreases names.len(),
{
    if names.len() == 0 {
        0
    } else {
        let prev = spec_next_batch_start(st, names.drop_last());
        let rp = spec_resume_point(st, names.last());
        if names.len() == 1 {
            rp
        } else if rp < prev {
            rp
        } else {
            prev
        }
    }
}

/// One iteration's effect: each processor in turn runs the status-tracked
/// helper on the batch; a pending injected failure is consumed by the
/// processor that hits it. The result is the database, the failures still
/// pending, the status-write history, and the counters.
pub open spec fn spec_dispatch(
    db: DbView,
    pending: u64,
    h: Seq<ProcessorStatusRowView>,
    c: Counters,
    names: Seq<Seq<char>>,
    txns: Seq<crate::models::RawTransactionView>,
    start: u64,
    end: u64,
    now: u64,
) -> (DbView, u64, Seq<ProcessorStatusRowView>, Counters)
    decreases names.len(),
{
    if names.len() == 0 {
        (db, pending, h, c)
    } else {
        let prev = spec_dispatch(db, pending, h, c, names.drop_last(), txns, start, end, now);
        (
            spec_with_status(prev.0, prev.1, names.last(), txns, start, end, now),
            if prev.1 > 0 {
                (prev.1 - 1) as u64
            } else {
                0
            },
            spec_with_status_history(prev.2, prev.1, names.last(), start, end, now),
            spec_count_run(prev.3, prev.1 == 0),
        )
    }
}

/// The loop that tails the ledger: registered processors sharing one
/// store, and a configured batch size.
pub struct Tailer {
    processors: Vec<DefaultTransactionProcessor>,
    batch_size: u64,
}

impl Tailer {
    pub closed spec fn spec_batch_size(&self) -> u64 {
        self.batch_size
    }

    /// The names of the registered processors, in registration order.
    pub closed spec fn names(&self) -> Seq<Seq<char>> {
        self.processors@.map_values(|p: DefaultTransactionProcessor| p.name_view())
    }

    pub fn new(batch_size: u64) -> (r: Tailer)
        requires
            batch_size >= 1,
        ensures
            r.spec_batch_size() == batch_size,
            r.names().len() == 0,
    {
        let r = Tailer { processors: Vec::new(), batch_size };
        proof {
            assert(r.names() =~= Seq::<Seq<char>>::empty());
        }
        r
    }

    pub fn batch_size(&self) -> (r: u64)
        ensures
            r == self.spec_batch_size(),
    {
        self.batch_size
    }

    pub fn processor_count(&self) -> (r: usize)
        ensures
            r == self.names().len(),
    {
        self.processors.len()
    }

    pub fn processor_name(&self, index: usize) -> (r: String)
        requires
            index < self.names().len(),
        ensures
            r@ == self.names()[index as int],
    {
        proof {
            assert(self.names()[index as int] == self.processors@[index as int].name_view());
        }
        self.processors[index].name()
    }

    pub fn register_processor(&mut self, processor: DefaultTransactionProcessor)
        ensures
            final(self).names() == old(self).names().push(processor.name_view()),
            final(self).spec_batch_size() == old(self).spec_batch_size(),
    {
        let ghost pre = self.processors@;
        self.processors.push(processor);
        proof {
            assert(self.names() =~= pre.map_values(
                |p: DefaultTransactionProcessor| p.name_view(),
            ).push(processor.name_view()));
        }
    }

    /// Compute where the next batch starts: the smallest resume point of
    /// any registered processor.
    pub fn next_batch_start(&self, store: &Store) -> (r: u64)
        ensures
            r == spec_next_batch_start(store@.processor_statuses, self.names()),
    {
        let ghost st = store@.processor_statuses;
        let n = self.processors.len();
        let mut best: u64 = 0;
        let mut i: usize = 0;
        proof {
            assert(self.names().take(0) =~= Seq::<Seq<char>>::empty());
        }
        while i < n
            invariant
                st == store@.processor_statuses,
                n == self.processors@.len(),
                self.names().len() == n,
                i <= n,
                i == 0 ==> best == 0,
                best == spec_next_batch_start(st, self.names().take(i as int)),
            decreases n - i,
        {
            let name = self.processors[i].name();
            let rp: u64 = match store.get_max_version(&name) {
                Option::Some(m) => if m == u64::MAX {
                    u64::MAX
                } else {
                    m + 1
                },
                Option::None => 0,
            };
            proof {
                assert(self.names()[i as int] == self.processors@[i as int].name_view());
                assert(self.names().take(i + 1).drop_last() =~= self.names().take(i as int));
                assert(self.names().take(i + 1).last() == self.names()[i as int]);
                assert(rp == spec_resume_point(st, self.names()[i as int]));
            }
            if i == 0 {
                best = rp;
            } else if rp < best {
                best = rp;
            }
            i = i + 1;
        }
        proof {
            assert(self.names().take(n as int) =~= self.names());
        }
        best
    }

    /// Dispatch one fetched batch to every registered processor in turn.
    /// Returns whether every processor committed it.
    pub fn run_iteration(
        &self,
        store: &mut Store,
        txns: &Vec<RawTransaction>,
        counters: &mut Counters,
        now: u64,
    ) -> (r: bool)
        requires
            old(store).wf(),
            txns@.len() > 0,
            versions_dense(raw_views(txns@)),
        ensures
            final(store).wf(),
            ({
                let d = spec_dispatch(
                    old(store)@,
                    old(store).pending_failures(),
                    old(store).history(),
                    *old(counters),
                    self.names(),
                    raw_views(txns@),
                    raw_views(txns@)[0].version,
                    raw_views(txns@).last().version,
                    now,
                );
                final(store)@ == d.0 && final(store).pending_failures() == d.1 && final(store).history() == d.2
                    && *final(counters) == d.3
            }),
            r == (old(store).pending_failures() == 0 || self.names().len() == 0),
    {
        let ghost rv = raw_views(txns@);
        let ghost start = rv[0].version;
        let ghost end = rv.last().version;
        let n = self.processors.len();
        let mut ok = true;
        let mut i: usize = 0;
        proof {
            assert(self.names().take(0) =~= Seq::<Seq<char>>::empty());
        }
        while i < n
            invariant
                rv == raw_views(txns@),
                txns@.len() > 0,
                versions_dense(rv),
                start == rv[0].version,
                end == rv.last().version,
                n == self.processors@.len(),
                self.names().len() == n,
                i <= n,
                store.wf(),
                ({
                    let d = spec_dispatch(
                        old(store)@,
                        old(store).pending_failures(),
                        old(store).history(),
                        *old(counters),
                        self.names().take(i as int),
                        rv,
                        start,
                        end,
                        now,
                    );
                    store@ == d.0 && store.pending_failures() == d.1 && store.history() == d.2
                        && *counters == d.3
                }),
                old(store).pending_failures() == 0 ==> store.pending_failures() == 0,
                ok == (old(store).pending_failures() == 0 || i == 0),
            decreases n - i,
        {
            let processor = &self.processors[i];
            let res = processor.process_transactions_with_status(store, txns, counters, now);
            proof {
                assert(self.names()[i as int] == self.processors@[i as int].name_view());
                assert(processor.name_view() == self.names()[i as int]);
                assert(self.names().take(i + 1).drop_last() =~= self.names().take(i as int));
                assert(self.names().take(i + 1).last() == self.names()[i as int]);
            }
            let succeeded = match &res {
                Result::Ok(_) => true,
                Result::Err(_) => false,
            };
            ok = ok && succeeded;
            i = i + 1;
        }
        proof {
            assert(self.names().take(n as int) =~= self.names());
        }
        ok
    }

    /// Re-dispatch one contiguous run of previously failed versions to one
    /// registered processor; a retry that still fails stays failed.
    pub fn retry_errors(
        &self,
        store: &mut Store,
        processor_index: usize,
        txns: &Vec<RawTransaction>,
        counters: &mut Counters,
        now: u64,
    ) -> (r: bool)
        requires
            old(store).wf(),
            processor_index < self.names().len(),
            txns@.len() > 0,
            versions_dense(raw_views(txns@)),
        ensures
            final(store).wf(),
            final(store)@ == spec_with_status(
                old(store)@,
                old(store).pending_failures(),
                self.names()[processor_index as int],
                raw_views(txns@),
                raw_views(txns@)[0].version,
                raw_views(txns@).last().version,
                now,
            ),
            final(store).history() == spec_with_status_history(
                old(store).history(),
                old(store).pending_failures(),
                self.names()[processor_index as int],
                raw_views(txns@)[0].version,
                raw_views(txns@).last().version,
                now,
            ),
            *final(counters) == spec_count_run(
                *old(counters),
                old(store).pending_failures() == 0,
            ),
            r == (old(store).pending_failures() == 0),
    {
        let processor = &self.processors[processor_index];
        proof {
            assert(self.names()[processor_index as int]
                == self.processors@[processor_index as int].name_view());
        }
        let res = processor.process_transactions_with_status(store, txns, counters, now);
        match &res {
            Result::Ok(_) => true,
            Result::Err(_) => false,
        }
    }
}

// ---------------------------------------------------------------------------
// Laws
// ---------------------------------------------------------------------------

/// The highest version of a processor is carried by one of its rows and
/// bounds all of them.
pub proof fn lemma_max_version_of_char(s: Seq<ProcessorStatusRowView>, name: Seq<char>)
    ensures
        max_version_of(s, name) is None ==> forall|i: int|
            0 <= i < s.len() ==> (#[trigger] s[i]).name != name,
        max_version_of(s, name) matches Option::Some(m) ==> (exists|i: int|
            0 <= i < s.len() && (#[trigger] s[i]).name == name && s[i].version == m) && (forall|
            i: int,
        |
            0 <= i < s.len() && (#[trigger] s[i]).name == name ==> s[i].version <= m),
    decreases s.len(),
{
    if s.len() > 0 {
        lemma_max_version_of_char(s.drop_last(), name);
        assert forall|i: int| 0 <= i < s.len() - 1 implies s.drop_last()[i] == s[i] by {}
        assert(s.last() == s[s.len() - 1]);
    }
}

/// The bookkeeping left by `n` happy-path iterations of batch size `bsz`
/// starting from version 0. The statuses do not depend on what the
/// batches carry, so the payloads are irrelevant here.
pub open spec fn spec_happy_iterations(
    db: DbView,
    name: Seq<char>,
    bsz: u64,
    n: int,
    now: u64,
) -> DbView
    decreases n,
{
    if n <= 0 {
        db
    } else {
        let prev = spec_happy_iterations(db, name, bsz, n - 1, now);
        spec_with_status(
            prev,
            0,
            name,
            Seq::empty(),
            (((n - 1) * bsz)) as u64,
            ((n * bsz - 1)) as u64,
            now,
        )
    }
}

proof fn lemma_happy_iterations_shape(db: DbView, name: Seq<char>, bsz: u64, n: int, now: u64)
    requires
        bsz >= 1,
        0 <= n,
        n * bsz <= u64::MAX,
        db.processor_statuses.len() == 0,
    ensures
        ({
            let st = spec_happy_iterations(db, name, bsz, n, now).processor_statuses;
            &&& forall|k: (Seq<char>, u64)| #![auto]
                crate::table::has_key(st, crate::models::status_key(), k) <==> (k.0 == name && (
                k.1 as int) < n * bsz)
            &&& forall|k: (Seq<char>, u64)| #![auto]
                crate::table::has_key(st, crate::models::status_key(), k) ==> crate::table::row_at(
                    st,
                    crate::models::status_key(),
                    k,
                ).success && crate::table::row_at(st, crate::models::status_key(), k).name == k.0
                    && crate::table::row_at(st, crate::models::status_key(), k).version == k.1
        }),
    decreases n,
{
    let kf = crate::models::status_key();
    if n <= 0 {
        let st = spec_happy_iterations(db, name, bsz, n, now).processor_statuses;
        assert(n * bsz == 0) by (nonlinear_arith)
            requires
                n == 0,
        ;
        assert forall|k: (Seq<char>, u64)| #![auto]
            !crate::table::has_key(st, crate::models::status_key(), k) by {
            crate::table::lemma_find_by(st, crate::models::status_key(), k);
        }
    } else {
        assert(n * bsz - (n - 1) * bsz == bsz) by (nonlinear_arith);
        assert((n - 1) * bsz >= 0) by (nonlinear_arith)
            requires
                n >= 1,
                bsz >= 1,
        ;
        lemma_happy_iterations_shape(db, name, bsz, n - 1, now);
        let prev = spec_happy_iterations(db, name, bsz, n - 1, now);
        let s = (((n - 1) * bsz)) as u64;
        let e = ((n * bsz - 1)) as u64;
        assert(s as int == (n - 1) * bsz);
        assert(e as int == n * bsz - 1);
        assert(s <= e);
        crate::default_processor::lemma_with_status_statuses(
            prev,
            0,
            name,
            Seq::empty(),
            s,
            e,
            now,
        );
        let st = spec_happy_iterations(db, name, bsz, n, now).processor_statuses;
        let pst = prev.processor_statuses;
        assert(st == spec_with_status(prev, 0, name, Seq::empty(), s, e, now).processor_statuses);
        assert forall|k: (Seq<char>, u64)| #![auto]
            crate::table::has_key(st, crate::models::status_key(), k) <==> (k.0 == name && (
        k.1 as int) < n * bsz) by {
            assert(crate::table::has_key(st, crate::models::status_key(), k) <==> (
            crate::table::has_key(pst, crate::models::status_key(), k) || (k.0 == name && s <= k.1
                <= e)));
            assert(crate::table::has_key(pst, crate::models::status_key(), k) <==> (k.0 == name
                && (k.1 as int) < (n - 1) * bsz));
        }
        assert forall|k: (Seq<char>, u64)| #![auto]
            crate::table::has_key(st, crate::models::status_key(), k) implies crate::table::row_at(
            st,
            crate::models::status_key(),
            k,
        ).success && crate::table::row_at(st, crate::models::status_key(), k).name == k.0
            && crate::table::row_at(st, crate::models::status_key(), k).version == k.1 by {
            if k.0 == name && s <= k.1 <= e {
            } else {
                assert(crate::table::has_key(pst, crate::models::status_key(), k));
                assert(crate::table::row_at(st, crate::models::status_key(), k)
                    == crate::table::row_at(pst, crate::models::status_key(), k));
            }
        }
    }
}

/// Gap-freedom on the happy path: starting from an empty status table,
/// after `n` successful iterations of batch size `bsz` from version 0 the
/// highest recorded version is `n * bsz - 1` and the error set is empty.
pub proof fn lemma_gap_freedom(db: DbView, name: Seq<char>, bsz: u64, n: int, now: u64)
    requires
        bsz >= 1,
        0 <= n,
        n * bsz <= u64::MAX,
        db.processor_statuses.len() == 0,
    ensures
        ({
            let st = spec_happy_iterations(db, name, bsz, n, now).processor_statuses;
            &&& n == 0 ==> max_version_of(st, name) is None
            &&& n > 0 ==> max_version_of(st, name) == Option::Some(((n * bsz - 1)) as u64)
            &&& forall|v: u64| !crate::store::is_error_version(st, name, v)
        }),
{
    let kf = crate::models::status_key();
    let st = spec_happy_iterations(db, name, bsz, n, now).processor_statuses;
    lemma_happy_iterations_shape(db, name, bsz, n, now);
    lemma_max_version_of_char(st, name);
    if n > 0 {
        assert(n * bsz >= bsz) by (nonlinear_arith)
            requires
                n >= 1,
                bsz >= 1,
        ;
        let m0 = ((n * bsz - 1)) as u64;
        assert(crate::table::has_key(st, kf, (name, m0)));
        crate::table::lemma_find_by(st, kf, (name, m0));
        let i0 = crate::table::find_by(st, kf, (name, m0));
        assert(kf(st[i0]) == (name, m0));
        assert(st[i0].name == name && st[i0].version == m0);
        match max_version_of(st, name) {
            Option::Some(m) => {
                // some row carries the maximum, so (name, m) is a key of the
                // table and lies below n * bsz; and m0's row bounds it from
                // below
                let iw = choose|i: int|
                    0 <= i < st.len() && (#[trigger] st[i]).name == name && st[i].version == m;
                assert(kf(st[iw]) == (name, m));
                crate::table::lemma_find_by(st, kf, (name, m));
                assert(crate::table::has_key(st, kf, (name, m)));
                assert((m as int) < n * bsz);
                assert(st[i0].version <= m);
                assert(m == m0);
            },
            Option::None => {
                assert(st[i0].name != name);
                assert(false);
            },
        }
    }
    assert forall|v: u64| !crate::store::is_error_version(st, name, v) by {
        if crate::table::has_key(st, kf, (name, v)) {
            assert(crate::table::row_at(st, kf, (name, v)).success);
        }
    }
}

} // verus!
