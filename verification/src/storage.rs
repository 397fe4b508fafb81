use vstd::prelude::*;
use std::collections::BTreeMap;
use vstd::hash_map::StringHashMap;
use vstd::std_specs::cmp::OrdSpec;
use vstd::std_specs::iter::IteratorSpec;
use crate::account::{AccountId, BankError, OpId, Operation, OperationModel};
use crate::state::models;

verus! {

/// One entry of the log as a mathematical value: its identifier and its operation.
pub type EntryModel = (OpId, OperationModel);

/// The operations of a log, in its order, without their identifiers.
pub open spec fn ops_of(log: Seq<EntryModel>) -> Seq<OperationModel> {
    log.map_values(|entry: EntryModel| entry.1)
}

/// The entries of a log that are filed under `account`, in the log's order.
pub open spec fn entries_of(log: Seq<EntryModel>, account: Seq<char>) -> Seq<EntryModel>
    decreases log.len(),
{
    if log.len() == 0 {
        Seq::empty()
    } else if log.last().1.account_id() == account {
        entries_of(log.drop_last(), account).push(log.last())
    } else {
        entries_of(log.drop_last(), account)
    }
}

/// Whether every operation of `ops` is one that the log records.
pub open spec fn all_events(ops: Seq<OperationModel>) -> bool {
    forall|i: int| 0 <= i < ops.len() ==> (#[trigger] ops[i]).is_event()
}

/// Identifiers are never zero and grow strictly along the log.
pub open spec fn ids_increase(log: Seq<EntryModel>) -> bool {
    forall|i: int, j: int|
        0 <= i <= j < log.len() ==> 0 < (#[trigger] log[i]).0 && (i < j ==> log[i].0 < (
        #[trigger] log[j]).0)
}

/// The entries that a batch adds to a log whose last identifier is `last_id`: the
/// operations in their order, numbered from `last_id + 1` without a gap.
pub open spec fn batch_entries(last_id: OpId, ops: Seq<OperationModel>) -> Seq<EntryModel> {
    Seq::new(ops.len(), |i: int| ((last_id + 1 + i) as OpId, ops[i]))
}

/// The values of a list of entries that borrows its operations.
pub open spec fn entry_models(entries: Seq<(OpId, &Operation)>) -> Seq<EntryModel> {
    entries.map_values(|entry: (OpId, &Operation)| (entry.0, entry.1@))
}

/// The append-only record of the operations that a bank has accepted.
pub trait OpsStorage {
    /// The entries of the log, oldest first.
    spec fn log(&self) -> Seq<EntryModel>;

    /// The identifier that was assigned last; the next entry gets its successor.
    spec fn last_id(&self) -> OpId;

    /// Whether the storage is in order: its entries are events and their identifiers
    /// never zero, strictly growing and at most `last_id`.
    spec fn wf(&self) -> bool;

    /// What [`OpsStorage::wf`] promises of the log.
    proof fn lemma_wf(&self)
        requires
            self.wf(),
        ensures
            all_events(ops_of(self.log())),
            ids_increase(self.log()),
            forall|i: int| 0 <= i < self.log().len() ==> (#[trigger] self.log()[i]).0 <= self.last_id(),
    ;

    /// Appends the whole batch or nothing. A batch that holds anything but events is
    /// refused with `BadRequest`; one for which the identifiers do not suffice with
    /// `InternalError`. Otherwise the entries are numbered from `last_id + 1` on and
    /// their identifiers returned in order.
    fn transact(&mut self, ops: Vec<Operation>) -> (r: Result<Vec<OpId>, BankError>)
        requires
            old(self).wf(),
        ensures
            final(self).wf(),
            match r {
                Ok(ids) => {
                    &&& all_events(models(ops@))
                    &&& old(self).last_id() + ops.len() <= u128::MAX
                    &&& final(self).last_id() == old(self).last_id() + ops.len()
                    &&& final(self).log() == old(self).log() + batch_entries(
                        old(self).last_id(),
                        models(ops@),
                    )
                    &&& ids@ == Seq::new(
                        ops.len() as nat,
                        |i: int| (old(self).last_id() + 1 + i) as OpId,
                    )
                },
                Err(e) => {
                    &&& final(self).log() == old(self).log()
                    &&& final(self).last_id() == old(self).last_id()
                    &&& if all_events(models(ops@)) {
                        e == BankError::InternalError && old(self).last_id() + ops.len()
                            > u128::MAX
                    } else {
                        e == BankError::BadRequest
                    }
                },
            },
    ;

    /// Appends one operation: [`OpsStorage::transact`] on a batch of one.
    fn persist(&mut self, op: Operation) -> (r: Result<OpId, BankError>)
        requires
            old(self).wf(),
        ensures
            final(self).wf(),
            match r {
                Ok(id) => {
                    &&& op@.is_event()
                    &&& old(self).last_id() < u128::MAX
                    &&& id == old(self).last_id() + 1
                    &&& final(self).last_id() == id
                    &&& final(self).log() == old(self).log().push((id, op@))
                },
                Err(e) => {
                    &&& final(self).log() == old(self).log()
                    &&& final(self).last_id() == old(self).last_id()
                    &&& if op@.is_event() {
                        e == BankError::InternalError && old(self).last_id() == u128::MAX
                    } else {
                        e == BankError::BadRequest
                    }
                },
            },
    ;

    /// The entries filed under `account_id`, oldest first, or `UnknownAccount` where
    /// the log holds none.
    fn get_ops<'a>(&'a self, account_id: &AccountId) -> (r: Result<
        Vec<(OpId, &'a Operation)>,
        BankError,
    >)
        requires
            self.wf(),
        ensures
            match r {
                Ok(entries) => entries_of(self.log(), account_id@).len() > 0 && entry_models(
                    entries@,
                ) == entries_of(self.log(), account_id@),
                Err(e) => entries_of(self.log(), account_id@).len() == 0 && e
                    == BankError::UnknownAccount,
            },
    ;

    /// The whole log, oldest first.
    fn get_history<'a>(&'a self) -> (r: Result<Vec<(OpId, &'a Operation)>, BankError>)
        requires
            self.wf(),
        ensures
            r.is_ok(),
            entry_models(r.unwrap()@) == self.log(),
    ;
}

/// What one more entry adds to the entries filed under an account.
pub proof fn lemma_entries_of_push(log: Seq<EntryModel>, entry: EntryModel, account: Seq<char>)
    ensures
        entries_of(log.push(entry), account) == if entry.1.account_id() == account {
            entries_of(log, account).push(entry)
        } else {
            entries_of(log, account)
        },
{
    assert(log.push(entry).drop_last() =~= log);
    assert(log.push(entry).last() == entry);
}

/// Every entry filed under an account stands somewhere in the log.
pub proof fn lemma_entries_of_member(log: Seq<EntryModel>, account: Seq<char>, k: int)
    requires
        0 <= k < entries_of(log, account).len(),
    ensures
        exists|j: int| 0 <= j < log.len() && #[trigger] log[j] == entries_of(log, account)[k],
    decreases log.len(),
{
    if log.last().1.account_id() == account && k == entries_of(log, account).len() - 1 {
        assert(log[log.len() - 1] == entries_of(log, account)[k]);
    } else {
        lemma_entries_of_member(log.drop_last(), account, k);
        let j = choose|j: int|
            0 <= j < log.drop_last().len() && #[trigger] log.drop_last()[j] == entries_of(
                log.drop_last(),
                account,
            )[k];
        assert(log[j] == entries_of(log, account)[k]);
    }
}

/// An operation log held in memory: an ordered map from the identifiers to the
/// entries, and a hash map from the name of each account to the list of the
/// identifiers of its entries.
pub struct InMemoryOpsStorage {
    cur_key: OpId,
    by_ops_storage: BTreeMap<OpId, (AccountId, Operation)>,
    by_acc_storage: StringHashMap<Vec<OpId>>,
}

/// Puts `value` under a new `key` into the ordered map.
fn log_insert(
    log: &mut BTreeMap<OpId, (AccountId, Operation)>,
    key: OpId,
    value: (AccountId, Operation),
)
    requires
        !old(log)@.contains_key(key),
    ensures
        final(log)@ == old(log)@.insert(key, value),
        final(log)@.dom().len() == old(log)@.dom().len() + 1,
{
    broadcast use vstd::laws_cmp::group_laws_cmp;
    broadcast use vstd::std_specs::btree::group_btree_axioms;

    log.insert(key, value);
}

/// Whether the keys grow strictly from each to the next.
pub open spec fn ascending(keys: Seq<OpId>) -> bool {
    forall|i: int, j: int| 0 <= i < j < keys.len() ==> keys[i] < keys[j]
}

/// The keys of a walk through the ordered map.
pub open spec fn walked_keys(walk: Seq<(OpId, &(AccountId, Operation))>) -> Seq<OpId> {
    walk.map_values(|step: (OpId, &(AccountId, Operation))| step.0)
}

/// Walks through the ordered map from the smallest key to the greatest.
fn log_walk(log: &BTreeMap<OpId, (AccountId, Operation)>) -> (r: Vec<
    (OpId, &(AccountId, Operation)),
>)
    ensures
        r@.len() == log@.dom().len(),
        forall|j: int|
            0 <= j < r@.len() ==> log@.contains_key((#[trigger] r@[j]).0) && log@[r@[j].0]
                == *r@[j].1,
        ascending(walked_keys(r@)),
{
    broadcast use vstd::laws_cmp::group_laws_cmp;
    broadcast use vstd::std_specs::btree::group_btree_axioms;

    let mut walk: Vec<(OpId, &(AccountId, Operation))> = Vec::new();
    let iter = log.iter();
    let ghost steps = iter.remaining();
    let ghost keys = steps.map_values(|step: (&OpId, &(AccountId, Operation))| *step.0);
    proof {
        assert(vstd::std_specs::btree::increasing_seq(keys));
        vstd::std_specs::btree::axiom_increasing_seq_meaning(keys);
    }
    for step in it: iter
        invariant
            it.seq() == steps,
            walk@.len() == it.index(),
            forall|j: int|
                0 <= j < walk@.len() ==> (#[trigger] walk@[j]).0 == *steps[j].0 && walk@[j].1
                    == steps[j].1,
    {
        walk.push((*step.0, step.1));
    }
    proof {
        assert forall|i: int, j: int| 0 <= i < j < walk@.len() implies walked_keys(walk@)[i]
            < walked_keys(walk@)[j] by {
            assert(keys[i] == walk@[i].0);
            assert(keys[j] == walk@[j].0);
            assert(keys[i].cmp_spec(&keys[j]) is Less);
        }
    }
    walk
}

/// Keys that grow strictly and fill a range are the numbers of the range in order.
proof fn lemma_ascending_fills(keys: Seq<OpId>, low: int, at: int)
    requires
        ascending(keys),
        forall|i: int| 0 <= i < keys.len() ==> low <= #[trigger] keys[i] < low + keys.len(),
        0 <= at < keys.len(),
    ensures
        keys[at] == low + at,
{
    lemma_ascending_from_below(keys, low, at);
    lemma_ascending_from_above(keys, low, at);
}

/// Keys that grow strictly lie at least as far above the first as their place.
proof fn lemma_ascending_from_below(keys: Seq<OpId>, low: int, at: int)
    requires
        ascending(keys),
        forall|i: int| 0 <= i < keys.len() ==> low <= #[trigger] keys[i],
        0 <= at < keys.len(),
    ensures
        keys[at] >= low + at,
    decreases at,
{
    if at > 0 {
        lemma_ascending_from_below(keys, low, at - 1);
    }
}

/// Keys that grow strictly lie at least as far below the last as their place.
proof fn lemma_ascending_from_above(keys: Seq<OpId>, low: int, at: int)
    requires
        ascending(keys),
        forall|i: int| 0 <= i < keys.len() ==> #[trigger] keys[i] < low + keys.len(),
        0 <= at < keys.len(),
    ensures
        keys[at] <= low + at,
    decreases keys.len() - at,
{
    if at < keys.len() - 1 {
        lemma_ascending_from_above(keys, low, at + 1);
    }
}

/// Looks `key` up in the ordered map.
fn log_get(log: &BTreeMap<OpId, (AccountId, Operation)>, key: OpId) -> (r: Option<
    &(AccountId, Operation),
>)
    ensures
        match r {
            Some(value) => log@.contains_key(key) && *value == log@[key],
            None => !log@.contains_key(key),
        },
{
    broadcast use vstd::laws_cmp::group_laws_cmp;
    broadcast use vstd::std_specs::btree::group_btree_axioms;

    log.get(&key)
}

impl InMemoryOpsStorage {
    /// The entries as mathematical values, in the order of their identifiers.
    pub closed spec fn entries(&self) -> Seq<EntryModel> {
        Seq::new(
            (self.cur_key - 1) as nat,
            |i: int| ((i + 2) as OpId, self.by_ops_storage@[(i + 2) as OpId].1@),
        )
    }

    /// The identifier that was assigned last.
    pub closed spec fn cur_key(&self) -> OpId {
        self.cur_key
    }

    /// The identifiers of the entries filed under `account`, oldest first.
    pub open spec fn ids_of(log: Seq<EntryModel>, account: Seq<char>) -> Seq<OpId> {
        entries_of(log, account).map_values(|entry: EntryModel| entry.0)
    }

    /// The index by account holds, for exactly the accounts that have entries in
    /// `log`, the list of their identifiers.
    pub closed spec fn indexed(&self, log: Seq<EntryModel>) -> bool {
        &&& forall|account: Seq<char>| #[trigger]
            self.by_acc_storage@.contains_key(account) <==> entries_of(log, account).len() > 0
        &&& forall|account: Seq<char>| #[trigger]
            self.by_acc_storage@.contains_key(account) ==> self.by_acc_storage@[account]@
                == Self::ids_of(log, account)
    }

    /// The invariant of the storage: the ordered map holds exactly the identifiers
    /// from 2 to `cur_key`, each with an event, and the index by account lists, for
    /// exactly the accounts that have entries, their identifiers.
    pub closed spec fn inv(&self) -> bool {
        &&& self.cur_key >= 1
        &&& self.by_ops_storage@.dom().len() == self.cur_key - 1
        &&& forall|key: OpId| #[trigger]
            self.by_ops_storage@.contains_key(key) <==> 2 <= key <= self.cur_key
        &&& forall|key: OpId| #[trigger]
            self.by_ops_storage@.contains_key(key) ==> self.by_ops_storage@[key].1@.is_event()
        &&& self.indexed(self.entries())
    }

    /// Appends one event under the next identifier and files it under its account.
    pub fn push_to_cols(&mut self, op: Operation) -> (new_key: OpId)
        requires
            old(self).inv(),
            op@.is_event(),
            old(self).cur_key() < u128::MAX,
        ensures
            final(self).inv(),
            new_key == old(self).cur_key() + 1,
            final(self).cur_key() == new_key,
            final(self).entries() == old(self).entries().push((new_key, op@)),
    {
        let ghost before = self.entries();
        let ghost entry = ((self.cur_key + 1) as OpId, op@);
        let ghost filed = self.by_acc_storage@;
        let new_key: OpId = self.cur_key + 1;
        self.cur_key = new_key;
        let account_id: AccountId = op.account_id().clone();
        let mut list: Vec<OpId> = match self.by_acc_storage.get(account_id.as_str()) {
            Some(list) => {
                let copy = list.clone();
                assert(copy@ =~= list@);
                copy
            },
            None => Vec::new(),
        };
        list.push(new_key);
        log_insert(&mut self.by_ops_storage, new_key, (account_id.clone(), op));
        self.by_acc_storage.insert(account_id, list);
        proof {
            assert(self.entries() =~= before.push(entry));
            assert forall|account: Seq<char>|
                (#[trigger] self.by_acc_storage@.contains_key(account) <==> entries_of(
                    self.entries(),
                    account,
                ).len() > 0) && (self.by_acc_storage@.contains_key(account)
                    ==> self.by_acc_storage@[account]@ == Self::ids_of(self.entries(), account)) by {
                lemma_entries_of_push(before, entry, account);
                if entry.1.account_id() == account {
                    assert(Self::ids_of(self.entries(), account) =~= Self::ids_of(
                        before,
                        account,
                    ).push(entry.0));
                    if !filed.contains_key(account) {
                        assert(Self::ids_of(before, account) =~= Seq::<OpId>::empty());
                    }
                }
            }
            assert(self.indexed(self.entries()));
        }
        new_key
    }
}

impl Default for InMemoryOpsStorage {
    fn default() -> (r: Self)
        ensures
            r.inv(),
            r.entries() == Seq::<EntryModel>::empty(),
            r.cur_key() == 1,
    {
        let r = InMemoryOpsStorage {
            cur_key: 1,
            by_ops_storage: BTreeMap::new(),
            by_acc_storage: StringHashMap::new(),
        };
        assert(r.entries() =~= Seq::<EntryModel>::empty());
        r
    }
}

impl OpsStorage for InMemoryOpsStorage {
    open spec fn log(&self) -> Seq<EntryModel> {
        self.entries()
    }

    open spec fn last_id(&self) -> OpId {
        self.cur_key()
    }

    open spec fn wf(&self) -> bool {
        self.inv()
    }

    proof fn lemma_wf(&self) {
        assert forall|i: int| 0 <= i < self.log().len() implies (#[trigger] self.log()[i]).0 == i
            + 2 && self.log()[i].1.is_event() by {
            assert(self.by_ops_storage@.contains_key((i + 2) as OpId));
        }
        assert(all_events(ops_of(self.log())));
    }

    fn transact(&mut self, ops: Vec<Operation>) -> (r: Result<Vec<OpId>, BankError>) {
        let ghost all = models(ops@);
        let mut i: usize = 0;
        while i < ops.len()
            invariant
                0 <= i <= ops.len(),
                all == models(ops@),
                self.inv(),
                self.entries() == old(self).entries(),
                self.cur_key() == old(self).cur_key(),
                forall|j: int| 0 <= j < i ==> (#[trigger] all[j]).is_event(),
            decreases ops.len() - i,
        {
            assert(all[i as int] == ops[i as int]@);
            if !ops[i].is_event() {
                return Err(BankError::BadRequest);
            }
            i += 1;
        }
        if ops.len() as u128 > u128::MAX - self.cur_key {
            return Err(BankError::InternalError);
        }
        let ghost batch = batch_entries(self.cur_key, all);
        let mut ids: Vec<OpId> = Vec::new();
        let mut k: usize = 0;
        while k < ops.len()
            invariant
                0 <= k <= ops.len(),
                all == models(ops@),
                all_events(all),
                self.inv(),
                old(self).cur_key() + ops.len() <= u128::MAX,
                batch == batch_entries(old(self).cur_key(), all),
                self.cur_key() == old(self).cur_key() + k,
                self.entries() == old(self).entries() + batch.take(k as int),
                ids@ == Seq::new(k as nat, |j: int| (old(self).cur_key() + 1 + j) as OpId),
            decreases ops.len() - k,
        {
            let ghost before = self.entries();
            assert(all[k as int] == ops[k as int]@);
            let id: OpId = self.push_to_cols(ops[k].clone());
            ids.push(id);
            proof {
                assert(batch.take(k + 1) =~= batch.take(k as int).push(batch[k as int]));
                assert(self.entries() =~= old(self).entries() + batch.take(k + 1));
                assert(ids@ =~= Seq::new(
                    (k + 1) as nat,
                    |j: int| (old(self).cur_key() + 1 + j) as OpId,
                ));
            }
            k += 1;
        }
        assert(batch.take(ops.len() as int) =~= batch);
        Ok(ids)
    }

    fn persist(&mut self, op: Operation) -> (r: Result<OpId, BankError>) {
        if !op.is_event() {
            return Err(BankError::BadRequest);
        }
        if self.cur_key == u128::MAX {
            return Err(BankError::InternalError);
        }
        Ok(self.push_to_cols(op))
    }

    fn get_ops<'a>(&'a self, account_id: &AccountId) -> (r: Result<
        Vec<(OpId, &'a Operation)>,
        BankError,
    >) {
        let list: &Vec<OpId> = match self.by_acc_storage.get(account_id.as_str()) {
            Some(list) => list,
            None => {
                return Err(BankError::UnknownAccount);
            },
        };
        let ghost filed = entries_of(self.entries(), account_id@);
        let mut entries: Vec<(OpId, &'a Operation)> = Vec::new();
        let mut k: usize = 0;
        while k < list.len()
            invariant
                0 <= k <= list.len(),
                self.inv(),
                filed == entries_of(self.entries(), account_id@),
                list@ == Self::ids_of(self.entries(), account_id@),
                entries.len() == k,
                entry_models(entries@) =~= filed.take(k as int),
            decreases list.len() - k,
        {
            let id: OpId = list[k];
            proof {
                lemma_entries_of_member(self.entries(), account_id@, k as int);
                let j = choose|j: int|
                    0 <= j < self.entries().len() && #[trigger] self.entries()[j] == filed[k as int];
                assert(id == j + 2);
                assert(self.by_ops_storage@.contains_key(id));
            }
            match log_get(&self.by_ops_storage, id) {
                Some(value) => {
                    entries.push((id, &value.1));
                },
                None => {
                    // Never reached: every identifier of the index is one of the log.
                    return Err(BankError::InternalError);
                },
            }
            proof {
                assert(filed.take(k + 1) =~= filed.take(k as int).push(filed[k as int]));
            }
            k += 1;
        }
        assert(filed.take(list.len() as int) =~= filed);
        Ok(entries)
    }

    fn get_history<'a>(&'a self) -> (r: Result<Vec<(OpId, &'a Operation)>, BankError>) {
        let walk: Vec<(OpId, &'a (AccountId, Operation))> = log_walk(&self.by_ops_storage);
        let ghost keys = walked_keys(walk@);
        let mut entries: Vec<(OpId, &'a Operation)> = Vec::new();
        let mut k: usize = 0;
        while k < walk.len()
            invariant
                0 <= k <= walk.len(),
                self.inv(),
                walk@.len() == self.cur_key - 1,
                keys == walked_keys(walk@),
                ascending(keys),
                forall|j: int|
                    0 <= j < walk@.len() ==> self.by_ops_storage@.contains_key(
                        (#[trigger] walk@[j]).0,
                    ) && self.by_ops_storage@[walk@[j].0] == *walk@[j].1,
                entries.len() == k,
                entry_models(entries@) =~= self.entries().take(k as int),
            decreases walk.len() - k,
        {
            proof {
                assert forall|i: int| 0 <= i < keys.len() implies 2 <= #[trigger] keys[i] < 2
                    + keys.len() by {
                    assert(self.by_ops_storage@.contains_key(walk@[i].0));
                }
                lemma_ascending_fills(keys, 2, k as int);
                assert(walk@[k as int].0 == k + 2);
            }
            entries.push((walk[k].0, &walk[k].1.1));
            k += 1;
        }
        assert(self.entries().take(self.cur_key - 1) =~= self.entries());
        Ok(entries)
    }
}

} // verus!
