use vstd::prelude::*;

use crate::state::ClaimStatus;

verus! {

/// One ledger entry: a recipient identity and the cumulative amount
/// already released to it.
#[derive(Clone, Copy, Debug)]
pub struct ClaimRecord {
    pub claimant: [u8; 32],
    pub status: ClaimStatus,
}

/// The cumulative amount a list of records stores for a recipient; 0 when
/// no record exists.
pub open spec fn records_get(s: Seq<ClaimRecord>, key: Seq<u8>) -> u64
    decreases s.len(),
{
    if s.len() == 0 {
        0
    } else if s[0].claimant@ == key {
        s[0].status.claimed_amount
    } else {
        records_get(s.drop_first(), key)
    }
}

/// Whether a list of records holds an entry for a recipient.
pub open spec fn records_contain(s: Seq<ClaimRecord>, key: Seq<u8>) -> bool
    decreases s.len(),
{
    if s.len() == 0 {
        false
    } else {
        s[0].claimant@ == key || records_contain(s.drop_first(), key)
    }
}

/// The sum of the cumulative amounts of all records.
pub open spec fn records_total(s: Seq<ClaimRecord>) -> int
    decreases s.len(),
{
    if s.len() == 0 {
        0
    } else {
        s[0].status.claimed_amount + records_total(s.drop_first())
    }
}

/// No two records name the same recipient.
pub open spec fn records_unique(s: Seq<ClaimRecord>) -> bool {
    forall|i: int, j: int|
        0 <= i < j < s.len() ==> s[i].claimant@ != s[j].claimant@
}

proof fn lemma_records_push_total(s: Seq<ClaimRecord>, r: ClaimRecord)
    ensures
        records_total(s.push(r)) == records_total(s) + r.status.claimed_amount,
    decreases s.len(),
{
    if s.len() == 0 {
        assert(s.push(r).drop_first() =~= s);
    } else {
        assert(s.push(r).drop_first() =~= s.drop_first().push(r));
        lemma_records_push_total(s.drop_first(), r);
    }
}

proof fn lemma_records_push_key(s: Seq<ClaimRecord>, r: ClaimRecord, k: Seq<u8>)
    ensures
        records_contain(s.push(r), k) == (records_contain(s, k) || r.claimant@ == k),
        records_get(s.push(r), k) == if records_contain(s, k) {
            records_get(s, k)
        } else if r.claimant@ == k {
            r.status.claimed_amount
        } else {
            0u64
        },
    decreases s.len(),
{
    if s.len() == 0 {
        assert(s.push(r).drop_first() =~= s);
        assert(s.push(r)[0] == r);
        if r.claimant@ == k {
            assert(records_get(s.push(r), k) == r.status.claimed_amount);
        } else {
            assert(records_get(s.push(r), k) == records_get(s, k));
        }
    } else {
        assert(s.push(r).drop_first() =~= s.drop_first().push(r));
        assert(s.push(r)[0] == s[0]);
        lemma_records_push_key(s.drop_first(), r, k);
        if s[0].claimant@ == k {
            assert(records_get(s.push(r), k) == s[0].status.claimed_amount);
            assert(records_contain(s, k));
            assert(records_get(s, k) == s[0].status.claimed_amount);
        } else {
            assert(records_get(s.push(r), k) == records_get(s.drop_first().push(r), k));
            assert(records_get(s, k) == records_get(s.drop_first(), k));
            assert(records_contain(s, k) == records_contain(s.drop_first(), k));
        }
    }
}

/// A recipient without a record reads as 0.
proof fn lemma_records_get_absent(s: Seq<ClaimRecord>, key: Seq<u8>)
    requires
        !records_contain(s, key),
    ensures
        records_get(s, key) == 0,
    decreases s.len(),
{
    if s.len() > 0 {
        lemma_records_get_absent(s.drop_first(), key);
    }
}

/// A recipient named by no record is not contained and reads as 0.
proof fn lemma_records_not_contained(s: Seq<ClaimRecord>, key: Seq<u8>)
    requires
        forall|j: int| 0 <= j < s.len() ==> s[j].claimant@ != key,
    ensures
        !records_contain(s, key),
        records_get(s, key) == 0,
    decreases s.len(),
{
    if s.len() > 0 {
        assert(forall|j: int| 0 <= j < s.drop_first().len() ==> s.drop_first()[j]
            == s[j + 1]);
        lemma_records_not_contained(s.drop_first(), key);
    }
}

/// The record at a unique index determines containment and the stored
/// amount.
proof fn lemma_records_found(s: Seq<ClaimRecord>, key: Seq<u8>, i: int)
    requires
        0 <= i < s.len(),
        s[i].claimant@ == key,
        records_unique(s),
    ensures
        records_contain(s, key),
        records_get(s, key) == s[i].status.claimed_amount,
    decreases s.len(),
{
    assert(forall|j: int| 1 <= j < s.len() ==> s[j] == s.drop_first()[j - 1]);
    if i > 0 {
        lemma_records_found(s.drop_first(), key, i - 1);
    }
}

proof fn lemma_records_update_total(s: Seq<ClaimRecord>, i: int, r: ClaimRecord)
    requires
        0 <= i < s.len(),
    ensures
        records_total(s.update(i, r)) == records_total(s)
            - s[i].status.claimed_amount + r.status.claimed_amount,
    decreases s.len(),
{
    assert(forall|j: int| 1 <= j < s.len() ==> s[j] == s.drop_first()[j - 1]);
    if i == 0 {
        assert(s.update(0, r).drop_first() =~= s.drop_first());
        assert(s.update(0, r)[0] == r);
    } else {
        assert(s.update(i, r).drop_first() =~= s.drop_first().update(i - 1, r));
        assert(s.update(i, r)[0] == s[0]);
        lemma_records_update_total(s.drop_first(), i - 1, r);
    }
}

proof fn lemma_records_update_key(s: Seq<ClaimRecord>, i: int, r: ClaimRecord, k: Seq<u8>)
    requires
        0 <= i < s.len(),
        r.claimant@ == s[i].claimant@,
        records_unique(s),
    ensures
        records_contain(s.update(i, r), k) == records_contain(s, k),
        k != r.claimant@ ==> records_get(s.update(i, r), k) == records_get(s, k),
        k == r.claimant@ ==> records_get(s.update(i, r), k) == r.status.claimed_amount,
    decreases s.len(),
{
    assert(forall|j: int| 1 <= j < s.len() ==> s[j] == s.drop_first()[j - 1]);
    if i == 0 {
        assert(s.update(0, r).drop_first() =~= s.drop_first());
        assert(s.update(0, r)[0] == r);
        if k == r.claimant@ {
            lemma_records_not_contained(s.drop_first(), k);
        }
    } else {
        assert(s.update(i, r).drop_first() =~= s.drop_first().update(i - 1, r));
        assert(s.update(i, r)[0] == s[0]);
        lemma_records_update_key(s.drop_first(), i - 1, r, k);
    }
}

proof fn lemma_records_remove_total(s: Seq<ClaimRecord>, i: int)
    requires
        0 <= i < s.len(),
    ensures
        records_total(s.remove(i)) == records_total(s) - s[i].status.claimed_amount,
    decreases s.len(),
{
    assert(forall|j: int| 1 <= j < s.len() ==> s[j] == s.drop_first()[j - 1]);
    if i == 0 {
        assert(s.remove(0) =~= s.drop_first());
    } else {
        assert(s.remove(i).drop_first() =~= s.drop_first().remove(i - 1));
        assert(s.remove(i)[0] == s[0]);
        lemma_records_remove_total(s.drop_first(), i - 1);
    }
}

proof fn lemma_records_remove_key(s: Seq<ClaimRecord>, i: int, k: Seq<u8>)
    requires
        0 <= i < s.len(),
        k != s[i].claimant@,
    ensures
        records_contain(s.remove(i), k) == records_contain(s, k),
        records_get(s.remove(i), k) == records_get(s, k),
    decreases s.len(),
{
    assert(forall|j: int| 1 <= j < s.len() ==> s[j] == s.drop_first()[j - 1]);
    if i == 0 {
        assert(s.remove(0) =~= s.drop_first());
    } else {
        assert(s.remove(i).drop_first() =~= s.drop_first().remove(i - 1));
        assert(s.remove(i)[0] == s[0]);
        lemma_records_remove_key(s.drop_first(), i - 1, k);
    }
}

/// The claim ledger of one distribution: at most one record per recipient,
/// created on a recipient's first successful claim, overwritten by later
/// claims, and erased when the recipient reclaims its storage.
pub struct ClaimLedger {
    records: Vec<ClaimRecord>,
}

impl ClaimLedger {
    /// The stored records, in insertion order.
    pub closed spec fn records(&self) -> Seq<ClaimRecord> {
        self.records@
    }

    /// No two records name the same recipient.
    pub open spec fn well_formed(&self) -> bool {
        records_unique(self.records())
    }

    /// The cumulative amount stored for a recipient; 0 without a record.
    pub open spec fn spec_get(&self, key: Seq<u8>) -> u64 {
        records_get(self.records(), key)
    }

    /// Whether a record for the recipient exists.
    pub open spec fn spec_contains(&self, key: Seq<u8>) -> bool {
        records_contain(self.records(), key)
    }

    /// The sum of all recipients' cumulative amounts.
    pub open spec fn total(&self) -> int {
        records_total(self.records())
    }

    /// An empty ledger.
    pub fn new() -> (r: Self)
        ensures
            r.well_formed(),
            r.records() == Seq::<ClaimRecord>::empty(),
            r.total() == 0,
            forall|k: Seq<u8>| !r.spec_contains(k) && r.spec_get(k) == 0,
    {
        let ledger = ClaimLedger { records: Vec::new() };
        proof {
            assert(ledger.records@ =~= Seq::<ClaimRecord>::empty());
        }
        ledger
    }

    /// Finds the index of the record for a recipient.
    fn find(&self, claimant: &[u8; 32]) -> (r: Option<usize>)
        requires
            self.well_formed(),
        ensures
            match r {
                Some(i) => i < self.records().len() && self.records()[i as int].claimant@
                    == claimant@ && self.spec_contains(claimant@) && self.spec_get(claimant@)
                    == self.records()[i as int].status.claimed_amount,
                None => {
                    &&& forall|j: int| 0 <= j < self.records().len()
                        ==> self.records()[j].claimant@ != claimant@
                    &&& !self.spec_contains(claimant@)
                    &&& self.spec_get(claimant@) == 0
                },
            },
    {
        let n = self.records.len();
        let mut i: usize = 0;
        while i < n
            invariant
                0 <= i <= n,
                n == self.records().len(),
                self.well_formed(),
                forall|j: int| 0 <= j < i ==> self.records()[j].claimant@ != claimant@,
            decreases n - i,
        {
            if crate::merkle::eq_digest(&self.records[i].claimant, claimant) {
                proof {
                    lemma_records_found(self.records(), claimant@, i as int);
                }
                return Some(i);
            }
            i = i + 1;
        }
        proof {
            lemma_records_not_contained(self.records(), claimant@);
        }
        None
    }

    /// The cumulative amount already released to a recipient; 0 when the
    /// recipient has no record yet.
    pub fn get(&self, claimant: &[u8; 32]) -> (r: u64)
        requires
            self.well_formed(),
        ensures
            r == self.spec_get(claimant@),
    {
        match self.find(claimant) {
            Some(i) => self.records[i].status.claimed_amount,
            None => 0,
        }
    }

    /// Stores a recipient's cumulative amount, creating the record on
    /// first use and overwriting it afterwards.
    pub fn set(&mut self, claimant: &[u8; 32], cumulative: u64)
        requires
            old(self).well_formed(),
        ensures
            final(self).well_formed(),
            final(self).spec_get(claimant@) == cumulative,
            final(self).spec_contains(claimant@),
            forall|k: Seq<u8>| k != claimant@ ==> #[trigger] final(self).spec_get(k)
                == old(self).spec_get(k),
            forall|k: Seq<u8>| k != claimant@ ==> #[trigger] final(self).spec_contains(k)
                == old(self).spec_contains(k),
            final(self).total() == old(self).total() - old(self).spec_get(claimant@)
                + cumulative,
    {
        let record = ClaimRecord {
            claimant: *claimant,
            status: ClaimStatus { claimed_amount: cumulative },
        };
        let ghost s0 = self.records@;
        match self.find(claimant) {
            Some(i) => {
                self.records.set(i, record);
                proof {
                    lemma_records_update_total(s0, i as int, record);
                    lemma_records_update_key(s0, i as int, record, claimant@);
                    assert forall|k: Seq<u8>| k != claimant@ implies #[trigger] records_get(
                        self.records@,
                        k,
                    ) == records_get(s0, k) by {
                        lemma_records_update_key(s0, i as int, record, k);
                    }
                    assert forall|k: Seq<u8>| k != claimant@ implies #[trigger] records_contain(
                        self.records@,
                        k,
                    ) == records_contain(s0, k) by {
                        lemma_records_update_key(s0, i as int, record, k);
                    }
                    assert forall|a: int, b: int|
                        0 <= a < b < self.records@.len() implies self.records@[a].claimant@
                        != self.records@[b].claimant@ by {
                        assert(s0[a].claimant@ != s0[b].claimant@);
                    }
                }
            },
            None => {
                self.records.push(record);
                proof {
                    lemma_records_push_total(s0, record);
                    lemma_records_push_key(s0, record, claimant@);
                    assert forall|k: Seq<u8>| k != claimant@ implies #[trigger] records_get(
                        self.records@,
                        k,
                    ) == records_get(s0, k) by {
                        lemma_records_push_key(s0, record, k);
                        if !records_contain(s0, k) {
                            lemma_records_get_absent(s0, k);
                        }
                    }
                    assert forall|k: Seq<u8>| k != claimant@ implies #[trigger] records_contain(
                        self.records@,
                        k,
                    ) == records_contain(s0, k) by {
                        lemma_records_push_key(s0, record, k);
                    }
                    assert forall|a: int, b: int|
                        0 <= a < b < self.records@.len() implies self.records@[a].claimant@
                        != self.records@[b].claimant@ by {
                        if b < s0.len() {
                            assert(s0[a].claimant@ != s0[b].claimant@);
                        } else {
                            assert(self.records@[a] == s0[a]);
                            assert(self.records@[b] == record);
                        }
                    }
                }
            },
        }
    }

    /// Erases a recipient's record and returns the cumulative amount it
    /// held, or `None` when no record exists.
    pub fn close(&mut self, claimant: &[u8; 32]) -> (r: Option<u64>)
        requires
            old(self).well_formed(),
        ensures
            final(self).well_formed(),
            match r {
                Some(claimed) => {
                    &&& old(self).spec_contains(claimant@)
                    &&& claimed == old(self).spec_get(claimant@)
                    &&& !final(self).spec_contains(claimant@)
                    &&& final(self).total() == old(self).total() - claimed
                },
                None => {
                    &&& !old(self).spec_contains(claimant@)
                    &&& *final(self) == *old(self)
                },
            },
            forall|k: Seq<u8>| k != claimant@ ==> #[trigger] final(self).spec_get(k)
                == old(self).spec_get(k),
            forall|k: Seq<u8>| k != claimant@ ==> #[trigger] final(self).spec_contains(k)
                == old(self).spec_contains(k),
    {
        let ghost s0 = self.records@;
        match self.find(claimant) {
            Some(i) => {
                let record = self.records.remove(i);
                proof {
                    lemma_records_remove_total(s0, i as int);
                    assert forall|k: Seq<u8>| k != claimant@ implies #[trigger] records_get(
                        self.records@,
                        k,
                    ) == records_get(s0, k) by {
                        lemma_records_remove_key(s0, i as int, k);
                    }
                    assert forall|k: Seq<u8>| k != claimant@ implies #[trigger] records_contain(
                        self.records@,
                        k,
                    ) == records_contain(s0, k) by {
                        lemma_records_remove_key(s0, i as int, k);
                    }
                    assert forall|a: int, b: int|
                        0 <= a < b < self.records@.len() implies self.records@[a].claimant@
                        != self.records@[b].claimant@ by {
                        if a < i as int {
                            assert(self.records@[a] == s0[a]);
                        } else {
                            assert(self.records@[a] == s0[a + 1]);
                        }
                        if b < i as int {
                            assert(self.records@[b] == s0[b]);
                        } else {
                            assert(self.records@[b] == s0[b + 1]);
                        }
                    }
                    assert forall|j: int|
                        0 <= j < self.records@.len() implies self.records@[j].claimant@
                        != claimant@ by {
                        if j < i as int {
                            assert(self.records@[j] == s0[j]);
                        } else {
                            assert(self.records@[j] == s0[j + 1]);
                        }
                    }
                    lemma_records_not_contained(self.records@, claimant@);
                }
                Some(record.status.claimed_amount)
            },
            None => None,
        }
    }
}

} // verus!
