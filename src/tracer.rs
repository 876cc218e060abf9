//! What the allocation interceptor decides for each intercepted call: which
//! address to record, whether the calling process is seen for the first
//! time, and what goes into the trace store and the usage totals.

use vstd::prelude::*;
use dashmap::DashSet;
use crate::store::TraceStore;
use crate::usage::{UsageMap, saturating_sum, total_of};

verus! {

#[verifier::external_type_specification]
#[verifier::external_body]
#[verifier::reject_recursive_types(K)]
#[verifier::reject_recursive_types(S)]
pub struct ExDashSet<K, S>(DashSet<K, S>);

/// What a `DashSet` of process ids holds.
pub uninterp spec fn pid_set_contents(s: DashSet<u32>) -> Set<u32>;

/// Relies on `DashSet::new`: the set starts empty.
#[verifier::external_body]
fn pid_set_new() -> (r: DashSet<u32>)
    ensures
        pid_set_contents(r) =~= Set::empty(),
{
    DashSet::new()
}

/// Relies on `DashSet::insert`: `pid` is in the set afterwards, and the
/// result says whether it was missing before.
#[verifier::external_body]
fn pid_set_insert(s: &mut DashSet<u32>, pid: u32) -> (r: bool)
    ensures
        pid_set_contents(*final(s)) == pid_set_contents(*old(s)).insert(pid),
        r == !pid_set_contents(*old(s)).contains(pid),
{
    s.insert(pid)
}

/// The processes that have made a traced allocation.
pub struct ProcessSet {
    pids: DashSet<u32>,
}

impl View for ProcessSet {
    type V = Set<u32>;

    closed spec fn view(&self) -> Set<u32> {
        pid_set_contents(self.pids)
    }
}

impl ProcessSet {
    /// No process seen yet.
    pub fn new() -> (r: ProcessSet)
        ensures
            r@ == Set::<u32>::empty(),
    {
        ProcessSet { pids: pid_set_new() }
    }

    /// Notes that `pid` made a traced allocation; true the first time.
    pub fn register(&mut self, pid: u32) -> (first: bool)
        ensures
            final(self)@ == old(self)@.insert(pid),
            first == !old(self)@.contains(pid),
    {
        pid_set_insert(&mut self.pids, pid)
    }
}

/// What the real allocator gave back, as the interceptor sees it.
#[derive(Clone, Copy, Debug, PartialEq, Eq)]
pub enum RealResult {
    /// An entry point that returns the block's address, zero where it
    /// failed.
    Pointer(u64),
    /// An entry point that returns a status, zero on success, and writes
    /// the block's address through an out-parameter.
    Status { status: i32, address: u64 },
}

/// The address to record for `result`, if the call succeeded.
pub open spec fn spec_recorded_address(result: RealResult) -> Option<u64> {
    match result {
        RealResult::Pointer(p) => if p != 0 {
            Some(p)
        } else {
            None
        },
        RealResult::Status { status, address } => if status == 0 {
            Some(address)
        } else {
            None
        },
    }
}

/// The address to record for `result`: none where the real call failed.
pub fn recorded_address(result: RealResult) -> (r: Option<u64>)
    ensures
        r == spec_recorded_address(result),
{
    match result {
        RealResult::Pointer(p) => if p != 0 {
            Some(p)
        } else {
            None
        },
        RealResult::Status { status, address } => if status == 0 {
            Some(address)
        } else {
            None
        },
    }
}

/// The in-process tracer: the processes seen, the trace store, and, when
/// profiling, the usage totals.
pub struct Tracer {
    processes: ProcessSet,
    traces: TraceStore,
    usage: UsageMap,
    profile: bool,
}

impl Tracer {
    /// The processes seen so far.
    pub closed spec fn processes(&self) -> Set<u32> {
        self.processes@
    }

    /// Each recorded address with the stack of its latest allocation.
    pub closed spec fn traces(&self) -> Map<u64, Seq<u64>> {
        self.traces@
    }

    /// The bytes requested so far per call stack.
    pub closed spec fn usage(&self) -> Map<Seq<u64>, u64> {
        self.usage@
    }

    /// Whether usage totals are kept.
    pub closed spec fn profiling(&self) -> bool {
        self.profile
    }

    /// The trace store and the usage totals are finite.
    pub closed spec fn wf(&self) -> bool {
        self.usage.wf() && self.traces.wf()
    }

    /// A tracer that has seen nothing; `profile` turns the usage totals on.
    pub fn new(profile: bool) -> (r: Tracer)
        ensures
            r.wf(),
            r.processes() == Set::<u32>::empty(),
            r.traces() == Map::<u64, Seq<u64>>::empty(),
            r.usage() == Map::<Seq<u64>, u64>::empty(),
            r.profiling() == profile,
    {
        Tracer {
            processes: ProcessSet::new(),
            traces: TraceStore::new(),
            usage: UsageMap::new(),
            profile,
        }
    }

    /// Takes note of one intercepted call by process `pid` that asked for
    /// `size` bytes from `stack` and got `result` from the real allocator.
    /// Returns true where this is the first call seen from `pid`.
    pub fn on_allocation(&mut self, pid: u32, size: u64, result: RealResult, stack: Vec<u64>) -> (first: bool)
        requires
            old(self).wf(),
        ensures
            final(self).wf(),
            final(self).profiling() == old(self).profiling(),
            first == !old(self).processes().contains(pid),
            final(self).processes() == old(self).processes().insert(pid),
            old(self).profiling() ==> final(self).usage() == old(self).usage().insert(
                stack@,
                saturating_sum(total_of(old(self).usage(), stack@), size),
            ),
            !old(self).profiling() ==> final(self).usage() == old(self).usage(),
            final(self).traces() == match spec_recorded_address(result) {
                Some(a) => old(self).traces().insert(a, stack@),
                None => old(self).traces(),
            },
    {
        let first = self.processes.register(pid);
        if self.profile {
            self.usage.add(&stack, size);
        }
        match recorded_address(result) {
            Some(address) => self.traces.record(address, stack),
            None => {},
        }
        first
    }

    /// The stack last recorded at `address`.
    pub fn lookup(&self, address: u64) -> (r: Option<Vec<u64>>)
        ensures
            r matches Some(v) ==> self.traces().contains_key(address) && self.traces()[address]
                == v@,
            r is None <==> !self.traces().contains_key(address),
    {
        self.traces.query(address)
    }

    /// The number of addresses recorded.
    pub fn recorded(&self) -> (r: usize)
        ensures
            r == self.traces().len(),
    {
        self.traces.len()
    }

    /// The `n` heaviest call stacks, heaviest first, with their totals.
    pub fn heaviest(&self, n: usize) -> (r: Vec<(Vec<u64>, u64)>)
        requires
            self.wf(),
        ensures
            r@.len() == if n < self.usage().len() {
                n as int
            } else {
                self.usage().len() as int
            },
            forall|i: int|
                0 <= i < r@.len() ==> self.usage().contains_key((#[trigger] r@[i]).0@)
                    && self.usage()[r@[i].0@] == r@[i].1,
            forall|i: int, j: int|
                0 <= i < j < r@.len() ==> (#[trigger] r@[i]).0@ != (#[trigger] r@[j]).0@,
            forall|i: int, j: int| 0 <= i < j < r@.len() ==> (#[trigger] r@[i]).1 >= (
            #[trigger] r@[j]).1,
            forall|s: Seq<u64>, i: int|
                #![trigger self.usage()[s], r@[i]]
                self.usage().contains_key(s) && 0 <= i < r@.len() && (forall|j: int|
                    0 <= j < r@.len() ==> r@[j].0@ != s) ==> self.usage()[s] <= r@[i].1,
    {
        self.usage.heaviest(n)
    }
}

} // verus!
