//! The model that the stores share: records kept under numbers that are
//! handed out in increasing order and never again.

use vstd::prelude::*;

verus! {

/// What a store holds: its live records, each under the number of its
/// identifier, and the number that the next new record will get.
pub struct Ledger<V> {
    pub records: Map<u32, V>,
    pub next: nat,
}

/// One change to a store.
pub enum LedgerOp<V> {
    /// A new record is made, under the next number.
    Add(V),
    /// The record under a number, if any, is taken out.
    Remove(u32),
}

impl<V> Ledger<V> {
    /// A store in which no record was ever made.
    pub open spec fn empty() -> Ledger<V> {
        Ledger { records: Map::empty(), next: 0 }
    }

    /// The store holds finitely many records, each under a number that was
    /// handed out before: one below `next`.
    pub open spec fn wf(self) -> bool {
        &&& self.records.dom().finite()
        &&& forall|k: u32| #[trigger] self.records.contains_key(k) ==> k < self.next
    }

    /// Whether a number is left for a new record.
    pub open spec fn has_free_id(self) -> bool {
        self.next < u32::MAX
    }

    /// The number that the next new record will get.
    pub open spec fn next_number(self) -> u32 {
        self.next as u32
    }

    /// The store after `record` was added under the next number.
    pub open spec fn with(self, record: V) -> Ledger<V> {
        Ledger { records: self.records.insert(self.next_number(), record), next: self.next + 1 }
    }

    /// The store after the record under `k`, if any, was taken out. The
    /// number `k` is not handed out again.
    pub open spec fn without(self, k: u32) -> Ledger<V> {
        Ledger { records: self.records.remove(k), next: self.next }
    }

    /// The store after one change.
    pub open spec fn apply(self, op: LedgerOp<V>) -> Ledger<V> {
        match op {
            LedgerOp::Add(record) => self.with(record),
            LedgerOp::Remove(k) => self.without(k),
        }
    }

    /// The store after the changes `ops`, made in order.
    pub open spec fn run(self, ops: Seq<LedgerOp<V>>) -> Ledger<V>
        decreases ops.len(),
    {
        if ops.len() == 0 {
            self
        } else {
            self.run(ops.drop_last()).apply(ops.last())
        }
    }

    /// The numbers that the additions among `ops` get, in order.
    pub open spec fn issued(self, ops: Seq<LedgerOp<V>>) -> Seq<u32>
        decreases ops.len(),
    {
        if ops.len() == 0 {
            Seq::empty()
        } else {
            let before = self.issued(ops.drop_last());
            match ops.last() {
                LedgerOp::Add(_) => before.push(self.run(ops.drop_last()).next_number()),
                LedgerOp::Remove(_) => before,
            }
        }
    }
}

/// How many of the changes `ops` are additions.
pub open spec fn additions<V>(ops: Seq<LedgerOp<V>>) -> nat
    decreases ops.len(),
{
    if ops.len() == 0 {
        0
    } else {
        additions(ops.drop_last()) + (if ops.last() is Add {
            1nat
        } else {
            0nat
        })
    }
}

/// An addition to a well-formed store keeps it well-formed, puts the record
/// under a number that no live record had, and so makes the store one
/// record larger.
pub proof fn lemma_with<V>(s: Ledger<V>, record: V)
    requires
        s.wf(),
        s.has_free_id(),
    ensures
        s.with(record).wf(),
        !s.records.contains_key(s.next_number()),
        s.with(record).records.contains_key(s.next_number()),
        s.with(record).records[s.next_number()] == record,
        s.with(record).records.len() == s.records.len() + 1,
{
    if s.records.contains_key(s.next_number()) {
        assert(s.next_number() < s.next);
    }
}

/// Taking a record out of a well-formed store keeps the store well-formed.
/// Where the record was there the store is one record smaller, otherwise
/// unchanged; in either case nothing is found under that number afterwards.
pub proof fn lemma_without<V>(s: Ledger<V>, k: u32)
    requires
        s.wf(),
    ensures
        s.without(k).wf(),
        !s.without(k).records.contains_key(k),
        s.records.contains_key(k) ==> s.without(k).records.len() == s.records.len() - 1,
        !s.records.contains_key(k) ==> s.without(k) == s,
{
    if !s.records.contains_key(k) {
        assert(s.records.remove(k) =~= s.records);
    }
}

/// A record that is added to a well-formed store and taken out again leaves
/// the records as they were; only its number is used up.
pub proof fn lemma_with_without<V>(s: Ledger<V>, record: V)
    requires
        s.wf(),
        s.has_free_id(),
    ensures
        s.with(record).without(s.next_number()).records == s.records,
        s.with(record).without(s.next_number()).next == s.next + 1,
{
    lemma_with(s, record);
    assert(s.with(record).without(s.next_number()).records =~= s.records);
}

/// Additions move the next number on by one each; removals leave it.
pub proof fn lemma_run_next<V>(s: Ledger<V>, ops: Seq<LedgerOp<V>>)
    ensures
        s.run(ops).next == s.next + additions(ops),
    decreases ops.len(),
{
    if ops.len() > 0 {
        lemma_run_next(s, ops.drop_last());
    }
}

/// Whatever changes are made to a well-formed store, it stays well-formed,
/// as long as the numbers last.
pub proof fn lemma_run_wf<V>(s: Ledger<V>, ops: Seq<LedgerOp<V>>)
    requires
        s.wf(),
        s.next + additions(ops) <= u32::MAX,
    ensures
        s.run(ops).wf(),
    decreases ops.len(),
{
    if ops.len() > 0 {
        let before = s.run(ops.drop_last());
        lemma_run_wf(s, ops.drop_last());
        lemma_run_next(s, ops.drop_last());
        match ops.last() {
            LedgerOp::Add(record) => lemma_with(before, record),
            LedgerOp::Remove(k) => lemma_without(before, k),
        }
    }
}

/// Every addition gets a number: there are as many issued numbers as
/// additions, each at least the store's next number at the start and below
/// its next number at the end.
pub proof fn lemma_issued_range<V>(s: Ledger<V>, ops: Seq<LedgerOp<V>>)
    requires
        s.next + additions(ops) <= u32::MAX,
    ensures
        s.issued(ops).len() == additions(ops),
        forall|i: int|
            0 <= i < s.issued(ops).len() ==> s.next <= #[trigger] s.issued(ops)[i] < s.run(
                ops,
            ).next,
    decreases ops.len(),
{
    if ops.len() > 0 {
        lemma_issued_range(s, ops.drop_last());
        lemma_run_next(s, ops.drop_last());
        lemma_run_next(s, ops);
    }
}

/// The numbers handed out grow: of two additions the later one gets the
/// greater number, whatever is added or removed in between. So no two
/// records of a store ever get the same identifier.
pub proof fn lemma_issued_increasing<V>(s: Ledger<V>, ops: Seq<LedgerOp<V>>, i: int, j: int)
    requires
        s.next + additions(ops) <= u32::MAX,
        0 <= i < j < s.issued(ops).len(),
    ensures
        s.issued(ops)[i] < s.issued(ops)[j],
    decreases ops.len(),
{
    if ops.len() > 0 {
        let before = s.issued(ops.drop_last());
        lemma_issued_range(s, ops.drop_last());
        lemma_run_next(s, ops.drop_last());
        if j < before.len() {
            lemma_issued_increasing(s, ops.drop_last(), i, j);
        } else {
            assert(s.issued(ops)[i] == before[i]);
        }
    }
}

/// A store that starts empty and sees additions only holds as many records
/// as were added.
pub proof fn lemma_count_after_additions<V>(ops: Seq<LedgerOp<V>>)
    requires
        ops.len() <= u32::MAX,
        forall|i: int| 0 <= i < ops.len() ==> #[trigger] ops[i] is Add,
    ensures
        Ledger::<V>::empty().run(ops).wf(),
        Ledger::<V>::empty().run(ops).records.len() == ops.len(),
    decreases ops.len(),
{
    let start = Ledger::<V>::empty();
    if ops.len() > 0 {
        let front = ops.drop_last();
        lemma_count_after_additions(front);
        lemma_run_next(start, front);
        lemma_all_additions(front);
        assert(ops.last() == ops[ops.len() - 1]);
        lemma_with(start.run(front), ops.last()->Add_0);
    }
}

/// Where every change is an addition, there are as many additions as
/// changes.
pub proof fn lemma_all_additions<V>(ops: Seq<LedgerOp<V>>)
    requires
        forall|i: int| 0 <= i < ops.len() ==> #[trigger] ops[i] is Add,
    ensures
        additions(ops) == ops.len(),
    decreases ops.len(),
{
    if ops.len() > 0 {
        lemma_all_additions(ops.drop_last());
        assert(ops.last() == ops[ops.len() - 1]);
    }
}

} // verus!
