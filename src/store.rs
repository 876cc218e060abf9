//! The trace store: for each address, the stack of the latest allocation
//! recorded at it.

use vstd::prelude::*;
use dashmap::DashMap;

verus! {

#[verifier::external_type_specification]
#[verifier::external_body]
#[verifier::reject_recursive_types(K)]
#[verifier::reject_recursive_types(V)]
#[verifier::reject_recursive_types(S)]
pub struct ExDashMap<K, V, S>(DashMap<K, V, S>);

/// What a `DashMap` from addresses to stacks holds.
pub uninterp spec fn trace_map_contents(m: DashMap<u64, Vec<u64>>) -> Map<u64, Seq<u64>>;

/// Relies on `DashMap::new`: the map starts empty.
#[verifier::external_body]
fn trace_map_new() -> (r: DashMap<u64, Vec<u64>>)
    ensures
        trace_map_contents(r) =~= Map::empty(),
{
    DashMap::new()
}

/// Relies on `DashMap::insert`: the entry for `key` becomes `value`,
/// replacing any earlier one, and the other entries stay.
#[verifier::external_body]
fn trace_map_insert(m: &mut DashMap<u64, Vec<u64>>, key: u64, value: Vec<u64>)
    ensures
        trace_map_contents(*final(m)) == trace_map_contents(*old(m)).insert(key, value@),
{
    m.insert(key, value);
}

/// Relies on `DashMap::get`: a copy of the entry for `key`, if there is one.
#[verifier::external_body]
fn trace_map_get(m: &DashMap<u64, Vec<u64>>, key: u64) -> (r: Option<Vec<u64>>)
    ensures
        r matches Some(v) ==> trace_map_contents(*m).contains_key(key) && trace_map_contents(
            *m,
        )[key] == v@,
        r is None ==> !trace_map_contents(*m).contains_key(key),
{
    m.get(&key).map(|entry| entry.value().clone())
}

/// Relies on `DashMap::len`: the number of entries.
#[verifier::external_body]
fn trace_map_len(m: &DashMap<u64, Vec<u64>>) -> (r: usize)
    ensures
        r == trace_map_contents(*m).len(),
{
    m.len()
}

/// Addresses and the stacks last recorded at them. A later record for an
/// address replaces the earlier one.
pub struct TraceStore {
    map: DashMap<u64, Vec<u64>>,
}

impl View for TraceStore {
    type V = Map<u64, Seq<u64>>;

    closed spec fn view(&self) -> Map<u64, Seq<u64>> {
        trace_map_contents(self.map)
    }
}

impl TraceStore {
    /// The store holds finitely many addresses.
    pub closed spec fn wf(&self) -> bool {
        self@.dom().finite()
    }

    /// An empty store.
    pub fn new() -> (r: TraceStore)
        ensures
            r@ == Map::<u64, Seq<u64>>::empty(),
            r.wf(),
    {
        TraceStore { map: trace_map_new() }
    }

    /// Records that the allocation at `address` came from `stack`.
    pub fn record(&mut self, address: u64, stack: Vec<u64>)
        requires
            old(self).wf(),
        ensures
            final(self).wf(),
            final(self)@ == old(self)@.insert(address, stack@),
            final(self)@.len() == old(self)@.len() + if old(self)@.contains_key(address) {
                0int
            } else {
                1int
            },
    {
        trace_map_insert(&mut self.map, address, stack);
        assert(self@.dom() =~= old(self)@.dom().insert(address));
    }

    /// The stack last recorded at `address`, or `None` where nothing was.
    pub fn query(&self, address: u64) -> (r: Option<Vec<u64>>)
        ensures
            r matches Some(v) ==> self@.contains_key(address) && self@[address] == v@,
            r is None <==> !self@.contains_key(address),
    {
        trace_map_get(&self.map, address)
    }

    /// The number of addresses recorded.
    pub fn len(&self) -> (r: usize)
        ensures
            r == self@.len(),
    {
        trace_map_len(&self.map)
    }
}

/// The store after `records` are applied to `m`, one after the other.
pub open spec fn after_records(m: Map<u64, Seq<u64>>, records: Seq<(u64, Seq<u64>)>) -> Map<
    u64,
    Seq<u64>,
>
    decreases records.len(),
{
    if records.len() == 0 {
        m
    } else {
        after_records(m, records.drop_last()).insert(records.last().0, records.last().1)
    }
}

/// After a run of records, an address holds the stack of the last record
/// made at it; an address that no record names keeps what it held before,
/// and from an empty store it is not found.
pub proof fn lemma_last_record_wins(
    m: Map<u64, Seq<u64>>,
    records: Seq<(u64, Seq<u64>)>,
    address: u64,
)
    ensures
        forall|i: int|
            0 <= i < records.len() && records[i].0 == address && (forall|j: int|
                i < j < records.len() ==> records[j].0 != address) ==> #[trigger] records[i].1
                == after_records(m, records)[address] && after_records(m, records).contains_key(
                address,
            ),
        (forall|i: int| 0 <= i < records.len() ==> #[trigger] records[i].0 != address) ==> (
        after_records(m, records).contains_key(address) == m.contains_key(address)
            && after_records(m, records).get(address) == m.get(address)),
    decreases records.len(),
{
    if records.len() > 0 {
        let prefix = records.drop_last();
        lemma_last_record_wins(m, prefix, address);
        assert forall|i: int|
            0 <= i < records.len() && records[i].0 == address && (forall|j: int|
                i < j < records.len() ==> records[j].0 != address) implies #[trigger] records[i].1
            == after_records(m, records)[address] && after_records(m, records).contains_key(
            address,
        ) by {
            if i < records.len() - 1 {
                assert(prefix[i] == records[i]);
                assert forall|j: int| i < j < prefix.len() implies prefix[j].0 != address by {
                    assert(prefix[j] == records[j]);
                }
                assert(records[records.len() - 1].0 != address);
            }
        }
        if forall|i: int| 0 <= i < records.len() ==> #[trigger] records[i].0 != address {
            assert forall|i: int| 0 <= i < prefix.len() implies #[trigger] prefix[i].0
                != address by {
                assert(prefix[i] == records[i]);
            }
            assert(records[records.len() - 1].0 != address);
        }
    }
}

} // verus!
