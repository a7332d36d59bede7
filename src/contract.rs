//! The contract: per-account privacy levels with their history, an escrow
//! registry, and the commitment operations.
use vstd::prelude::*;

use soroban_sdk::Env;

use crate::commitment;
use crate::commitment::commitment_accepts;
use crate::commitment::commitment_outcome;
use crate::commitment::outcome_view;
use crate::commitment::CommitmentError;
use crate::encoding::bytes_equal;
use crate::encoding::extend_bytes;

verus! {

/// The privacy levels one account has enabled, most recent first.
pub struct PrivacyRecord {
    account: Vec<u8>,
    history: Vec<u32>,
}

/// The parties of one escrow.
pub struct EscrowRecord {
    from: Vec<u8>,
    to: Vec<u8>,
}

/// The contract's state, as mathematical values.
pub ghost struct QuickexModel {
    /// For each account that has enabled privacy, every level it enabled,
    /// most recent first.
    pub histories: Map<Seq<u8>, Seq<u32>>,
    /// The (from, to) parties of each escrow; escrow `k + 1` is at index `k`.
    pub escrows: Seq<(Seq<u8>, Seq<u8>)>,
}

impl QuickexModel {
    /// The levels an account has enabled, most recent first; empty if none.
    pub open spec fn history(self, account: Seq<u8>) -> Seq<u32> {
        if self.histories.contains_key(account) {
            self.histories[account]
        } else {
            Seq::empty()
        }
    }

    /// The level an account enabled last, if any.
    pub open spec fn status(self, account: Seq<u8>) -> Option<u32> {
        if self.history(account).len() > 0 {
            Some(self.history(account)[0])
        } else {
            None
        }
    }

    /// How many escrows have been created: the last id issued.
    pub open spec fn escrow_count(self) -> nat {
        self.escrows.len()
    }
}

/// One privacy-level change: `level` goes in front of the account's history.
pub open spec fn privacy_enabled(
    pre: QuickexModel,
    account: Seq<u8>,
    level: u32,
    post: QuickexModel,
) -> bool {
    &&& post.histories == pre.histories.insert(account, seq![level] + pre.history(account))
    &&& post.escrows == pre.escrows
}

/// One escrow creation: the next id is issued and the parties are recorded.
pub open spec fn escrow_created(
    pre: QuickexModel,
    from: Seq<u8>,
    to: Seq<u8>,
    post: QuickexModel,
    id: u64,
) -> bool {
    &&& id == pre.escrow_count() + 1
    &&& post.escrows == pre.escrows.push((from, to))
    &&& post.histories == pre.histories
}

/// Successive escrow creations on a fresh contract issue the ids 1, 2, 3, ...
/// in order: the `k`-th creation (from zero) returns `k + 1`.
pub proof fn lemma_escrow_ids_consecutive(
    states: Seq<QuickexModel>,
    parties: Seq<(Seq<u8>, Seq<u8>)>,
    ids: Seq<u64>,
)
    requires
        states.len() == ids.len() + 1,
        parties.len() == ids.len(),
        states[0].escrows.len() == 0,
        forall|k: int|
            0 <= k < ids.len() ==> escrow_created(
                #[trigger] states[k],
                parties[k].0,
                parties[k].1,
                states[k + 1],
                ids[k],
            ),
    ensures
        forall|k: int| 0 <= k < ids.len() ==> ids[k] == k + 1,
{
    assert forall|k: int| 0 <= k < ids.len() implies ids[k] == k + 1 by {
        lemma_escrow_count_after(states, parties, ids, k);
        assert(escrow_created(states[k], parties[k].0, parties[k].1, states[k + 1], ids[k]));
    }
}

/// After `k` successive escrow creations on a fresh contract, `k` escrows exist.
proof fn lemma_escrow_count_after(
    states: Seq<QuickexModel>,
    parties: Seq<(Seq<u8>, Seq<u8>)>,
    ids: Seq<u64>,
    k: int,
)
    requires
        states.len() == ids.len() + 1,
        parties.len() == ids.len(),
        states[0].escrows.len() == 0,
        forall|j: int|
            0 <= j < ids.len() ==> escrow_created(
                #[trigger] states[j],
                parties[j].0,
                parties[j].1,
                states[j + 1],
                ids[j],
            ),
        0 <= k <= ids.len(),
    ensures
        states[k].escrow_count() == k,
    decreases k,
{
    if k > 0 {
        lemma_escrow_count_after(states, parties, ids, k - 1);
        assert(escrow_created(states[k - 1], parties[k - 1].0, parties[k - 1].1, states[k], ids[k - 1]));
    }
}

/// Puts `level` in front of a history, most recent first.
pub fn prepend_level(history: &mut Vec<u32>, level: u32)
    ensures
        final(history)@ == seq![level] + old(history)@,
{
    history.insert(0, level);
    assert(history@ =~= seq![level] + old(history)@);
}

/// The id that follows `last`, or `None` when no larger id is representable.
pub fn next_escrow_id(last: u64) -> (r: Option<u64>)
    ensures
        r == (if last < u64::MAX {
            Some((last + 1) as u64)
        } else {
            None::<u64>
        }),
{
    if last < u64::MAX {
        Some(last + 1)
    } else {
        None
    }
}

/// The contract's state: privacy records keyed by account identity bytes,
/// and the escrows in the order of their ids.
pub struct QuickexContract {
    records: Vec<PrivacyRecord>,
    escrows: Vec<EscrowRecord>,
    escrow_counter: u64,
}

/// The index of the record that holds `account`.
spec fn record_index(records: Seq<PrivacyRecord>, account: Seq<u8>) -> int {
    choose|i: int| 0 <= i < records.len() && records[i].account@ == account
}

/// Whether some record holds `account`.
spec fn has_record(records: Seq<PrivacyRecord>, account: Seq<u8>) -> bool {
    exists|i: int| 0 <= i < records.len() && records[i].account@ == account
}

impl View for QuickexContract {
    type V = QuickexModel;

    closed spec fn view(&self) -> QuickexModel {
        QuickexModel {
            histories: Map::new(
                |a: Seq<u8>| has_record(self.records@, a),
                |a: Seq<u8>| self.records@[record_index(self.records@, a)].history@,
            ),
            escrows: self.escrows@.map_values(|e: EscrowRecord| (e.from@, e.to@)),
        }
    }
}

impl QuickexContract {
    /// Accounts are held once each, every history is non-empty, and the
    /// counter is the number of escrows.
    pub closed spec fn wf(&self) -> bool {
        &&& forall|i: int, j: int|
            0 <= i < j < self.records@.len() ==> self.records@[i].account@
                != self.records@[j].account@
        &&& forall|i: int| 0 <= i < self.records@.len() ==> self.records@[i].history@.len() > 0
        &&& self.escrow_counter == self.escrows@.len()
    }

    /// An empty contract state.
    pub fn new() -> (r: Self)
        ensures
            r.wf(),
            r@.histories == Map::<Seq<u8>, Seq<u32>>::empty(),
            r@.escrows == Seq::<(Seq<u8>, Seq<u8>)>::empty(),
    {
        let r = QuickexContract { records: Vec::new(), escrows: Vec::new(), escrow_counter: 0 };
        assert(r@.histories =~= Map::<Seq<u8>, Seq<u32>>::empty());
        assert(r@.escrows =~= Seq::<(Seq<u8>, Seq<u8>)>::empty());
        r
    }

    /// Sets the account's privacy level: `level` goes in front of its
    /// history, and becomes its status. Always succeeds.
    pub fn enable_privacy(&mut self, account: &[u8], privacy_level: u32) -> (r: bool)
        requires
            old(self).wf(),
        ensures
            r,
            final(self).wf(),
            privacy_enabled(old(self)@, account@, privacy_level, final(self)@),
    {
        let ghost pre = self@;
        match self.find_record(account) {
            Some(i) => {
                let mut rec = PrivacyRecord { account: Vec::new(), history: Vec::new() };
                self.records.set_and_swap(i, &mut rec);
                prepend_level(&mut rec.history, privacy_level);
                self.records.set_and_swap(i, &mut rec);
                proof {
                    let old_recs = old(self).records@;
                    let recs = self.records@;
                    assert(recs[i as int].history@ =~= seq![privacy_level] + old_recs[i as int].history@);
                    assert(has_record(old_recs, account@));
                    assert(pre.history(account@) == old_recs[i as int].history@);
                    assert forall|a: Seq<u8>| has_record(recs, a) == has_record(old_recs, a) by {
                        if has_record(old_recs, a) {
                            let j = choose|j: int| 0 <= j < old_recs.len() && old_recs[j].account@ == a;
                            assert(recs[j].account@ == a);
                        }
                        if has_record(recs, a) {
                            let j = choose|j: int| 0 <= j < recs.len() && recs[j].account@ == a;
                            assert(old_recs[j].account@ == a);
                        }
                    }
                    assert forall|a: Seq<u8>| has_record(recs, a) implies
                        recs[record_index(recs, a)].history@ == (if a == account@ {
                            seq![privacy_level] + pre.history(account@)
                        } else {
                            pre.history(a)
                        }) by {
                        let j = record_index(recs, a);
                        let k = record_index(old_recs, a);
                        assert(has_record(old_recs, a));
                        assert(recs[j].account@ == a);
                        assert(old_recs[k].account@ == a);
                        assert(old_recs[j].account@ == a);
                        if j != k {
                            assert(old_recs[j].account@ != old_recs[k].account@);
                        }
                        if a == account@ {
                            if j != i {
                                assert(old_recs[j].account@ != old_recs[i as int].account@);
                            }
                        } else {
                            assert(j != i);
                        }
                    }
                    assert(self@.histories =~= pre.histories.insert(
                        account@,
                        seq![privacy_level] + pre.history(account@),
                    ));
                    assert(self@.escrows =~= pre.escrows);
                }
            },
            None => {
                let mut key: Vec<u8> = Vec::new();
                extend_bytes(&mut key, account);
                let mut history: Vec<u32> = Vec::new();
                history.push(privacy_level);
                self.records.push(PrivacyRecord { account: key, history });
                proof {
                    let old_recs = old(self).records@;
                    let recs = self.records@;
                    let n = old_recs.len() as int;
                    assert(key@ =~= account@);
                    assert(pre.history(account@) == Seq::<u32>::empty());
                    assert(recs[n].history@ =~= seq![privacy_level] + pre.history(account@));
                    assert forall|a: Seq<u8>| has_record(recs, a) == (has_record(old_recs, a) || a
                        == account@) by {
                        if has_record(old_recs, a) {
                            let j = choose|j: int| 0 <= j < old_recs.len() && old_recs[j].account@ == a;
                            assert(recs[j].account@ == a);
                        }
                        if a == account@ {
                            assert(recs[n].account@ == a);
                        }
                        if has_record(recs, a) && a != account@ {
                            let j = choose|j: int| 0 <= j < recs.len() && recs[j].account@ == a;
                            assert(j != n);
                            assert(old_recs[j].account@ == a);
                        }
                    }
                    assert forall|a: Seq<u8>| has_record(recs, a) implies
                        recs[record_index(recs, a)].history@ == (if a == account@ {
                            seq![privacy_level] + pre.history(account@)
                        } else {
                            pre.history(a)
                        }) by {
                        let j = record_index(recs, a);
                        assert(recs[j].account@ == a);
                        if a == account@ {
                            if j != n {
                                assert(old_recs[j].account@ == a);
                            }
                        } else {
                            assert(j != n);
                            let k = record_index(old_recs, a);
                            assert(has_record(old_recs, a));
                            assert(old_recs[k].account@ == a);
                            assert(old_recs[j].account@ == a);
                            if j != k {
                                assert(old_recs[j].account@ != old_recs[k].account@);
                            }
                        }
                    }
                    assert forall|x: int, y: int| 0 <= x < y < recs.len() implies recs[x].account@
                        != recs[y].account@ by {
                        if y == n {
                            assert(old_recs[x].account@ != account@);
                        }
                    }
                    assert(self@.histories =~= pre.histories.insert(
                        account@,
                        seq![privacy_level] + pre.history(account@),
                    ));
                    assert(self@.escrows =~= pre.escrows);
                }
            },
        }
        true
    }

    /// The level the account enabled last, or `None` if it never did.
    pub fn privacy_status(&self, account: &[u8]) -> (r: Option<u32>)
        requires
            self.wf(),
        ensures
            r == self@.status(account@),
    {
        match self.find_record(account) {
            Some(i) => {
                proof {
                    let recs = self.records@;
                    let j = record_index(recs, account@);
                    assert(has_record(recs, account@));
                    assert(recs[j].account@ == account@);
                    if j != i {
                        assert(recs[j].account@ != recs[i as int].account@);
                    }
                }
                Some(self.records[i].history[0])
            },
            None => None,
        }
    }

    /// Every level the account enabled, most recent first; empty if none.
    pub fn privacy_history(&self, account: &[u8]) -> (r: Vec<u32>)
        requires
            self.wf(),
        ensures
            r@ == self@.history(account@),
    {
        let mut out: Vec<u32> = Vec::new();
        match self.find_record(account) {
            Some(i) => {
                proof {
                    let recs = self.records@;
                    let j = record_index(recs, account@);
                    assert(has_record(recs, account@));
                    assert(recs[j].account@ == account@);
                    if j != i {
                        assert(recs[j].account@ != recs[i as int].account@);
                    }
                }
                let levels = &self.records[i].history;
                let mut k: usize = 0;
                while k < levels.len()
                    invariant
                        k <= levels@.len(),
                        out@ == levels@.take(k as int),
                    decreases levels@.len() - k,
                {
                    out.push(levels[k]);
                    k = k + 1;
                    assert(levels@.take(k as int) =~= levels@.take(k - 1) + seq![levels@[k - 1]]);
                }
                assert(levels@.take(levels@.len() as int) =~= levels@);
            },
            None => {
                assert(out@ =~= Seq::<u32>::empty());
            },
        }
        out
    }

    /// Opens an escrow between `from` and `to` and returns its id: one more
    /// than the last id issued, starting at 1. The amount is accepted and not
    /// recorded.
    pub fn create_escrow(&mut self, from: &[u8], to: &[u8], _amount: u64) -> (r: u64)
        requires
            old(self).wf(),
            old(self)@.escrow_count() < u64::MAX,
        ensures
            final(self).wf(),
            escrow_created(old(self)@, from@, to@, final(self)@, r),
    {
        let count = next_escrow_id(self.escrow_counter).unwrap();
        self.escrow_counter = count;
        let mut from_key: Vec<u8> = Vec::new();
        extend_bytes(&mut from_key, from);
        let mut to_key: Vec<u8> = Vec::new();
        extend_bytes(&mut to_key, to);
        self.escrows.push(EscrowRecord { from: from_key, to: to_key });
        proof {
            assert(self@.escrows =~= old(self)@.escrows.push((from@, to@)));
            assert(self@.histories =~= old(self)@.histories);
        }
        count
    }

    /// The number of escrows created so far, which is the last id issued.
    pub fn escrow_count(&self) -> (r: u64)
        requires
            self.wf(),
        ensures
            r == self@.escrow_count(),
    {
        self.escrow_counter
    }

    /// The (from, to) parties of the escrow with this id, if it exists.
    pub fn escrow_parties(&self, id: u64) -> (r: Option<(Vec<u8>, Vec<u8>)>)
        requires
            self.wf(),
        ensures
            match r {
                Some(p) => 1 <= id <= self@.escrow_count() && (p.0@, p.1@) == self@.escrows[id - 1],
                None => id == 0 || id > self@.escrow_count(),
            },
    {
        if id == 0 || id > self.escrow_counter {
            return None;
        }
        let n: usize = self.escrows.len();
        assert(id - 1 < n);
        let k: usize = (id - 1) as usize;
        let e = &self.escrows[k];
        let mut from: Vec<u8> = Vec::new();
        extend_bytes(&mut from, e.from.as_slice());
        let mut to: Vec<u8> = Vec::new();
        extend_bytes(&mut to, e.to.as_slice());
        assert(self@.escrows[id - 1] == (e.from@, e.to@));
        Some((from, to))
    }

    /// Reports that the contract is operational.
    pub fn health_check() -> (r: bool)
        ensures
            r,
    {
        true
    }

    /// Commits to an amount for `owner`; see
    /// [`commitment::create_amount_commitment`].
    pub fn create_amount_commitment(env: &Env, owner: &[u8], amount: i128, salt: &[u8]) -> (r:
        Result<Vec<u8>, CommitmentError>)
        ensures
            outcome_view(r) == commitment_outcome(owner@, amount, salt@),
            r is Ok ==> r->Ok_0@.len() == 32,
    {
        commitment::create_amount_commitment(env, owner, amount, salt)
    }

    /// Checks a commitment against claimed values; see
    /// [`commitment::verify_amount_commitment`].
    pub fn verify_amount_commitment(
        env: &Env,
        commitment: &[u8],
        owner: &[u8],
        amount: i128,
        salt: &[u8],
    ) -> (r: bool)
        ensures
            r == commitment_accepts(commitment@, owner@, amount, salt@),
    {
        commitment::verify_amount_commitment(env, commitment, owner, amount, salt)
    }

    /// The index of the record for `account`, if there is one.
    fn find_record(&self, account: &[u8]) -> (r: Option<usize>)
        requires
            self.wf(),
        ensures
            match r {
                Some(i) => i < self.records@.len() && self.records@[i as int].account@ == account@,
                None => !has_record(self.records@, account@),
            },
    {
        let mut i: usize = 0;
        while i < self.records.len()
            invariant
                i <= self.records@.len(),
                forall|j: int| 0 <= j < i ==> self.records@[j].account@ != account@,
            decreases self.records@.len() - i,
        {
            if bytes_equal(self.records[i].account.as_slice(), account) {
                return Some(i);
            }
            i = i + 1;
        }
        None
    }
}

} // verus!
