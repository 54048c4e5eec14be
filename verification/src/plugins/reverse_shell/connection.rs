//! Observed TCP connections and the table that holds one record for each.

use super::find::{first_index, lemma_first_index, lemma_first_index_bounds};
use std::collections::HashMap;
use vstd::prelude::*;

verus! {

/// One observed TCP connection. Addresses are 32-bit values in host
/// order; times are seconds on the caller's monotonic clock.
#[derive(Debug)]
pub struct ConnectionInfo {
    pub local_addr: u32,
    pub remote_addr: u32,
    pub local_port: u16,
    pub remote_port: u16,
    pub pid: u32,
    pub process_name: String,
    pub first_seen: u64,
    pub last_seen: u64,
    pub connection_count: u32,
    pub is_suspicious: bool,
}

/// What identifies a connection: local address, local port, remote
/// address, remote port.
pub type ConnectionKey = (u32, u16, u32, u16);

/// The value of a `ConnectionInfo`.
pub struct ConnectionRecord {
    pub local_addr: u32,
    pub remote_addr: u32,
    pub local_port: u16,
    pub remote_port: u16,
    pub pid: u32,
    pub process_name: Seq<char>,
    pub first_seen: u64,
    pub last_seen: u64,
    pub connection_count: u32,
    pub is_suspicious: bool,
}

impl ConnectionRecord {
    /// The key under which the table holds this record.
    pub open spec fn key(self) -> ConnectionKey {
        (self.local_addr, self.local_port, self.remote_addr, self.remote_port)
    }
}

impl View for ConnectionInfo {
    type V = ConnectionRecord;

    open spec fn view(&self) -> ConnectionRecord {
        ConnectionRecord {
            local_addr: self.local_addr,
            remote_addr: self.remote_addr,
            local_port: self.local_port,
            remote_port: self.remote_port,
            pid: self.pid,
            process_name: self.process_name@,
            first_seen: self.first_seen,
            last_seen: self.last_seen,
            connection_count: self.connection_count,
            is_suspicious: self.is_suspicious,
        }
    }
}

impl ConnectionInfo {
    /// The key of this record as one number.
    pub fn packed_key(&self) -> (key: u128)
        ensures
            key == packed(self@.key()),
    {
        (self.local_addr as u128) * 0x1_0000_0000_0000_0000 + (self.local_port as u128)
            * 0x1_0000_0000_0000 + (self.remote_addr as u128) * 0x1_0000 + (
        self.remote_port as u128)
    }
}

impl Clone for ConnectionInfo {
    fn clone(&self) -> (copy: Self)
        ensures
            copy@ == self@,
    {
        ConnectionInfo {
            local_addr: self.local_addr,
            remote_addr: self.remote_addr,
            local_port: self.local_port,
            remote_port: self.remote_port,
            pid: self.pid,
            process_name: self.process_name.clone(),
            first_seen: self.first_seen,
            last_seen: self.last_seen,
            connection_count: self.connection_count,
            is_suspicious: self.is_suspicious,
        }
    }
}

/// The values of a list of connections.
pub open spec fn records(list: Seq<ConnectionInfo>) -> Seq<ConnectionRecord> {
    list.map_values(|c: ConnectionInfo| c@)
}

/// What the table does with a record whose key it already holds.
#[derive(Clone, Copy, Debug, PartialEq, Eq, Structural)]
pub enum MergePolicy {
    /// Keep the time of the first observation and count the new one.
    Accumulate,
    /// Put the new record in the place of the old one.
    Overwrite,
}

/// The record that stands in the table after `seen` was observed again
/// as `again`. Under `Accumulate` the first observation's time stays,
/// the count goes up by one and stops at the largest `u32`, a raised
/// flag stays raised, and everything else is taken from `again`.
pub open spec fn combined(
    policy: MergePolicy,
    seen: ConnectionRecord,
    again: ConnectionRecord,
) -> ConnectionRecord {
    match policy {
        MergePolicy::Overwrite => again,
        MergePolicy::Accumulate => ConnectionRecord {
            first_seen: seen.first_seen,
            connection_count: if seen.connection_count < u32::MAX {
                (seen.connection_count + 1) as u32
            } else {
                u32::MAX
            },
            is_suspicious: seen.is_suspicious || again.is_suspicious,
            ..again
        },
    }
}

/// Whether no two records of `s` have the same key.
pub open spec fn distinct_keys(s: Seq<ConnectionRecord>) -> bool {
    forall|i: int, j: int| 0 <= i < j < s.len() ==> s[i].key() != s[j].key()
}

/// Whether some record of `s` has the key `key`.
pub open spec fn has_key(s: Seq<ConnectionRecord>, key: ConnectionKey) -> bool {
    exists|i: int| 0 <= i < s.len() && #[trigger] s[i].key() == key
}

/// The position of the first record of `s` with the key `key`; the
/// length of `s` if there is none.
pub open spec fn key_index(s: Seq<ConnectionRecord>, key: ConnectionKey) -> int {
    first_index(s, |r: ConnectionRecord| r.key() == key)
}

/// The table `s` after `record` was put into it: merged with the record
/// of the same key where there is one, added at the end where not.
pub open spec fn upserted(
    s: Seq<ConnectionRecord>,
    record: ConnectionRecord,
    policy: MergePolicy,
) -> Seq<ConnectionRecord> {
    let i = key_index(s, record.key());
    if i < s.len() {
        s.update(i, combined(policy, s[i], record))
    } else {
        s.push(record)
    }
}

/// The table `s` after the records of `list` were put into it one after
/// another.
pub open spec fn upserted_all(
    s: Seq<ConnectionRecord>,
    list: Seq<ConnectionRecord>,
    policy: MergePolicy,
) -> Seq<ConnectionRecord>
    decreases list.len(),
{
    if list.len() == 0 {
        s
    } else {
        upserted(upserted_all(s, list.drop_last(), policy), list.last(), policy)
    }
}

/// `key_index` is the position of the first record with the key.
pub proof fn lemma_key_index(s: Seq<ConnectionRecord>, key: ConnectionKey, k: int)
    requires
        0 <= k <= s.len(),
        forall|j: int| 0 <= j < k ==> s[j].key() != key,
        k < s.len() ==> s[k].key() == key,
    ensures
        key_index(s, key) == k,
{
    lemma_first_index(s, |r: ConnectionRecord| r.key() == key, k);
}

/// `key_index` lies within the table exactly when the key is present,
/// and then points at a record with that key.
pub proof fn lemma_key_index_bounds(s: Seq<ConnectionRecord>, key: ConnectionKey)
    ensures
        0 <= key_index(s, key) <= s.len(),
        key_index(s, key) < s.len() <==> has_key(s, key),
        key_index(s, key) < s.len() ==> s[key_index(s, key)].key() == key,
{
    lemma_first_index_bounds(s, |r: ConnectionRecord| r.key() == key);
    if has_key(s, key) {
        let i = choose|i: int| 0 <= i < s.len() && #[trigger] s[i].key() == key;
        if key_index(s, key) >= s.len() {
            assert(s[i].key() != key);
        }
    }
}

/// Putting a record into a table keeps its keys distinct, keeps every
/// other record where it was, and adds one record or none.
pub proof fn lemma_upserted(s: Seq<ConnectionRecord>, record: ConnectionRecord, policy: MergePolicy)
    requires
        distinct_keys(s),
    ensures
        distinct_keys(upserted(s, record, policy)),
        has_key(upserted(s, record, policy), record.key()),
        has_key(s, record.key()) ==> upserted(s, record, policy).len() == s.len(),
        !has_key(s, record.key()) ==> upserted(s, record, policy) == s.push(record),
        forall|i: int|
            0 <= i < s.len() ==> #[trigger] upserted(s, record, policy)[i].key() == s[i].key(),
        forall|i: int|
            0 <= i < s.len() && s[i].key() != record.key() ==> #[trigger] upserted(
                s,
                record,
                policy,
            )[i] == s[i],
{
    lemma_key_index_bounds(s, record.key());
    let i = key_index(s, record.key());
    let t = upserted(s, record, policy);
    if i < s.len() {
        assert(t[i].key() == record.key());
    } else {
        assert(t[s.len() as int].key() == record.key());
        assert forall|a: int, b: int| 0 <= a < b < t.len() implies t[a].key() != t[b].key() by {
            if b == s.len() {
                assert(s[a].key() != record.key());
            }
        }
    }
}

/// Putting two lists into a table one after the other is putting in
/// the one list that holds both.
pub proof fn lemma_upserted_all_concat(
    s: Seq<ConnectionRecord>,
    first: Seq<ConnectionRecord>,
    second: Seq<ConnectionRecord>,
    policy: MergePolicy,
)
    ensures
        upserted_all(s, first + second, policy) == upserted_all(
            upserted_all(s, first, policy),
            second,
            policy,
        ),
    decreases second.len(),
{
    if second.len() == 0 {
        assert(first + second =~= first);
    } else {
        lemma_upserted_all_concat(s, first, second.drop_last(), policy);
        assert((first + second).drop_last() =~= first + second.drop_last());
        assert((first + second).last() == second.last());
    }
}

/// A table with distinct keys keeps them distinct whatever is put into
/// it.
pub proof fn lemma_upserted_all_distinct(
    s: Seq<ConnectionRecord>,
    list: Seq<ConnectionRecord>,
    policy: MergePolicy,
)
    requires
        distinct_keys(s),
    ensures
        distinct_keys(upserted_all(s, list, policy)),
    decreases list.len(),
{
    if list.len() > 0 {
        lemma_upserted_all_distinct(s, list.drop_last(), policy);
        lemma_upserted(upserted_all(s, list.drop_last(), policy), list.last(), policy);
    }
}

/// Nothing leaves a table: whatever is put into it, every record that
/// it held keeps its place and its key.
pub proof fn lemma_upserted_all_keeps(
    s: Seq<ConnectionRecord>,
    list: Seq<ConnectionRecord>,
    policy: MergePolicy,
)
    requires
        distinct_keys(s),
    ensures
        upserted_all(s, list, policy).len() >= s.len(),
        forall|i: int|
            0 <= i < s.len() ==> #[trigger] upserted_all(s, list, policy)[i].key() == s[i].key(),
    decreases list.len(),
{
    if list.len() > 0 {
        let before = upserted_all(s, list.drop_last(), policy);
        lemma_upserted_all_keeps(s, list.drop_last(), policy);
        lemma_upserted_all_distinct(s, list.drop_last(), policy);
        lemma_upserted(before, list.last(), policy);
        lemma_key_index_bounds(before, list.last().key());
        assert forall|i: int| 0 <= i < s.len() implies #[trigger] upserted_all(
            s,
            list,
            policy,
        )[i].key() == s[i].key() by {
            assert(upserted(before, list.last(), policy)[i].key() == before[i].key());
        }
    }
}

/// Records whose keys differ from one another and from every key of the
/// table are all added, in the order in which they come: none is lost
/// and none is merged into another. The order stands for any way in
/// which the records of several callers may follow one another, so an
/// empty table holds exactly as many records as were put into it.
pub proof fn lemma_upserted_all_new(
    s: Seq<ConnectionRecord>,
    list: Seq<ConnectionRecord>,
    policy: MergePolicy,
)
    requires
        distinct_keys(s),
        distinct_keys(list),
        forall|i: int| 0 <= i < list.len() ==> !has_key(s, #[trigger] list[i].key()),
    ensures
        upserted_all(s, list, policy) == s + list,
        upserted_all(s, list, policy).len() == s.len() + list.len(),
        distinct_keys(upserted_all(s, list, policy)),
    decreases list.len(),
{
    if list.len() == 0 {
        assert(s + list =~= s);
    } else {
        let head = list.drop_last();
        let last = list.last();
        assert forall|i: int| 0 <= i < head.len() implies !has_key(s, #[trigger] head[i].key()) by {
            assert(head[i] == list[i]);
        }
        assert forall|i: int, j: int| 0 <= i < j < head.len() implies head[i].key()
            != head[j].key() by {
            assert(head[i] == list[i] && head[j] == list[j]);
        }
        lemma_upserted_all_new(s, head, policy);
        let t = s + head;
        if has_key(t, last.key()) {
            let i = choose|i: int| 0 <= i < t.len() && #[trigger] t[i].key() == last.key();
            if i < s.len() {
                assert(s[i].key() == last.key());
            } else {
                assert(head[i - s.len()] == list[i - s.len()]);
            }
        }
        lemma_upserted(t, last, policy);
        assert(t.push(last) =~= s + list);
    }
}

/// The key of a connection as one number: the four parts side by side,
/// local address first.
pub open spec fn packed(key: ConnectionKey) -> u128 {
    (key.0 * 0x1_0000_0000_0000_0000 + key.1 * 0x1_0000_0000_0000 + key.2 * 0x1_0000
        + key.3) as u128
}

/// Different keys are different numbers.
pub proof fn lemma_packed_injective(a: ConnectionKey, b: ConnectionKey)
    requires
        packed(a) == packed(b),
    ensures
        a == b,
{
    let (a0, a1, a2, a3) = (a.0, a.1, a.2, a.3);
    let (b0, b1, b2, b3) = (b.0, b.1, b.2, b.3);
    let x = packed(a);
    let y = packed(b);
    assert(a0 == b0 && a1 == b1 && a2 == b2 && a3 == b3) by (bit_vector)
        requires
            x == a0 * 0x1_0000_0000_0000_0000 + a1 * 0x1_0000_0000_0000 + a2 * 0x1_0000 + a3,
            y == b0 * 0x1_0000_0000_0000_0000 + b1 * 0x1_0000_0000_0000 + b2 * 0x1_0000 + b3,
            x == y,
    ;
}

/// The records of a table, and where each key stands among them.
struct Store {
    entries: Vec<ConnectionInfo>,
    index: HashMap<u128, usize>,
}

impl Store {
    /// Whether the index holds the position of every record under its
    /// key, and nothing else.
    spec fn indexed(self) -> bool {
        let s = records(self.entries@);
        &&& forall|i: int|
            0 <= i < s.len() ==> self.index@.contains_key(packed(#[trigger] s[i].key()))
                && self.index@[packed(s[i].key())] == i
        &&& forall|k: u128| #[trigger]
            self.index@.contains_key(k) ==> self.index@[k] < s.len() && packed(
                s[self.index@[k] as int].key(),
            ) == k
    }

    /// An indexed store holds no key twice.
    proof fn lemma_distinct(self)
        requires
            self.indexed(),
        ensures
            distinct_keys(records(self.entries@)),
    {
    }

    /// A store without records.
    fn empty() -> (store: Self)
        ensures
            store.indexed(),
            records(store.entries@) == Seq::<ConnectionRecord>::empty(),
    {
        let store = Store { entries: Vec::new(), index: HashMap::new() };
        proof {
            assert(records(store.entries@) =~= Seq::<ConnectionRecord>::empty());
        }
        store
    }
}

/// The live connections that were observed, one record for each key, in
/// the order in which the keys were first seen.
pub struct ConnectionTable {
    store: Store,
    policy: MergePolicy,
}

impl View for ConnectionTable {
    type V = Seq<ConnectionRecord>;

    closed spec fn view(&self) -> Seq<ConnectionRecord> {
        records(self.store.entries@)
    }
}

impl ConnectionTable {
    /// The table's invariant: the index leads from every key to its one
    /// record.
    #[verifier::type_invariant]
    spec fn indexed(self) -> bool {
        self.store.indexed()
    }

    /// What the table does when a key is observed again.
    pub closed spec fn policy(&self) -> MergePolicy {
        self.policy
    }

    /// An empty table that accumulates repeated observations.
    pub fn new() -> (table: Self)
        ensures
            table@ == Seq::<ConnectionRecord>::empty(),
            table.policy() == MergePolicy::Accumulate,
    {
        Self::with_policy(MergePolicy::Accumulate)
    }

    /// An empty table with the given policy for repeated observations.
    pub fn with_policy(policy: MergePolicy) -> (table: Self)
        ensures
            table@ == Seq::<ConnectionRecord>::empty(),
            table.policy() == policy,
    {
        ConnectionTable { store: Store::empty(), policy }
    }

    /// The number of records.
    pub fn len(&self) -> (n: usize)
        ensures
            n == self@.len(),
    {
        self.store.entries.len()
    }

    /// Puts `record` into the table: merged with the record of the same
    /// key where there is one, added at the end where not. Every other
    /// record stays as it is, and no two records of the table have the
    /// same key.
    pub fn upsert(&mut self, record: ConnectionInfo)
        ensures
            final(self).policy() == old(self).policy(),
            final(self)@ == upserted(old(self)@, record@, old(self).policy()),
            distinct_keys(old(self)@),
            distinct_keys(final(self)@),
    {
        broadcast use vstd::std_specs::hash::group_hash_axioms;

        proof {
            use_type_invariant(&*self);
        }
        let mut store = Store::empty();
        core::mem::swap(&mut self.store, &mut store);
        let ghost before = records(store.entries@);
        let key = record.packed_key();
        let found = match store.index.get(&key) {
            Some(position) => Some(*position),
            None => None,
        };
        proof {
            store.lemma_distinct();
            match found {
                Some(i) => {
                    lemma_packed_injective(before[i as int].key(), record@.key());
                    lemma_key_index(before, record@.key(), i as int);
                },
                None => {
                    lemma_key_index(before, record@.key(), before.len() as int);
                },
            }
            lemma_upserted(before, record@, self.policy);
        }
        match found {
            Some(i) => {
                let merged = match self.policy {
                    MergePolicy::Overwrite => record,
                    MergePolicy::Accumulate => {
                        let seen = &store.entries[i];
                        ConnectionInfo {
                            first_seen: seen.first_seen,
                            connection_count: if seen.connection_count < u32::MAX {
                                seen.connection_count + 1
                            } else {
                                u32::MAX
                            },
                            is_suspicious: seen.is_suspicious || record.is_suspicious,
                            ..record
                        }
                    },
                };
                store.entries[i] = merged;
            },
            None => {
                store.index.insert(key, store.entries.len());
                store.entries.push(record);
            },
        }
        proof {
            let after = records(store.entries@);
            assert(after =~= upserted(before, record@, self.policy));
            assert forall|i: int| 0 <= i < after.len() implies store.index@.contains_key(
                packed(#[trigger] after[i].key()),
            ) && store.index@[packed(after[i].key())] == i by {
                if i < before.len() {
                    assert(after[i].key() == before[i].key());
                }
            }
            assert forall|k: u128| #[trigger] store.index@.contains_key(k) implies store.index@[k]
                < after.len() && packed(after[store.index@[k] as int].key()) == k by {
                if found is None && k == key {
                } else {
                    let j = store.index@[k] as int;
                    assert(after[j].key() == before[j].key());
                }
            }
        }
        core::mem::swap(&mut self.store, &mut store);
    }

    /// A copy of every record, in the order of the table. No two of them
    /// have the same key.
    pub fn snapshot(&self) -> (list: Vec<ConnectionInfo>)
        ensures
            records(list@) == self@,
            distinct_keys(self@),
    {
        proof {
            use_type_invariant(self);
            self.store.lemma_distinct();
        }
        let mut list: Vec<ConnectionInfo> = Vec::new();
        let mut i: usize = 0;
        while i < self.store.entries.len()
            invariant
                0 <= i <= self.store.entries@.len(),
                records(list@) == self@.take(i as int),
            decreases self.store.entries@.len() - i,
        {
            let ghost before = records(list@);
            list.push(self.store.entries[i].clone());
            proof {
                assert(records(list@) =~= before.push(self.store.entries@[i as int]@));
                assert(before.push(self.store.entries@[i as int]@) =~= self@.take(i + 1));
            }
            i += 1;
        }
        proof {
            assert(self@.take(i as int) =~= self@);
        }
        list
    }

    /// A copy of every record that is flagged as suspicious, in the order
    /// of the table.
    pub fn suspicious_snapshot(&self) -> (list: Vec<ConnectionInfo>)
        ensures
            records(list@) == self@.filter(|r: ConnectionRecord| r.is_suspicious),
    {
        let mut list: Vec<ConnectionInfo> = Vec::new();
        let ghost flagged = |r: ConnectionRecord| r.is_suspicious;
        let mut i: usize = 0;
        while i < self.store.entries.len()
            invariant
                0 <= i <= self.store.entries@.len(),
                flagged == (|r: ConnectionRecord| r.is_suspicious),
                records(list@) == self@.take(i as int).filter(flagged),
            decreases self.store.entries@.len() - i,
        {
            proof {
                let next = self@.take(i + 1);
                assert(next.drop_last() =~= self@.take(i as int));
                assert(next.last() == self.store.entries@[i as int]@);
                reveal(Seq::filter);
            }
            if self.store.entries[i].is_suspicious {
                let ghost before = records(list@);
                list.push(self.store.entries[i].clone());
                proof {
                    assert(records(list@) =~= before.push(self.store.entries@[i as int]@));
                }
            }
            i += 1;
        }
        proof {
            assert(self@.take(i as int) =~= self@);
        }
        list
    }
}

} // verus!
