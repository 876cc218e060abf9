//! The usage aggregator: bytes requested, summed per call stack, and the
//! heaviest call stacks.

use vstd::prelude::*;
use dashmap::DashMap;

verus! {

/// What a `DashMap` from call stacks to byte totals holds.
pub uninterp spec fn usage_map_contents(m: DashMap<Vec<u64>, u64>) -> Map<Seq<u64>, u64>;

/// Relies on `DashMap::new`: the map starts empty.
#[verifier::external_body]
fn usage_map_new() -> (r: DashMap<Vec<u64>, u64>)
    ensures
        usage_map_contents(r) =~= Map::empty(),
{
    DashMap::new()
}

/// Relies on `DashMap::get`: the entry for `key`, if there is one. Keys are
/// compared by `Vec`'s `==`, frame by frame.
#[verifier::external_body]
fn usage_map_get(m: &DashMap<Vec<u64>, u64>, key: &Vec<u64>) -> (r: Option<u64>)
    ensures
        r matches Some(v) ==> usage_map_contents(*m).contains_key(key@) && usage_map_contents(
            *m,
        )[key@] == v,
        r is None ==> !usage_map_contents(*m).contains_key(key@),
{
    m.get(key).map(|entry| *entry.value())
}

/// Relies on `DashMap::insert`: the entry for `key` becomes `value`,
/// replacing any earlier one, and the other entries stay.
#[verifier::external_body]
fn usage_map_insert(m: &mut DashMap<Vec<u64>, u64>, key: Vec<u64>, value: u64)
    ensures
        usage_map_contents(*final(m)) == usage_map_contents(*old(m)).insert(key@, value),
{
    m.insert(key, value);
}

/// Relies on `DashMap::iter`: every entry once, in an order that the hasher
/// decides.
#[verifier::external_body]
fn usage_map_entries(m: &DashMap<Vec<u64>, u64>) -> (r: Vec<(Vec<u64>, u64)>)
    ensures
        r@.len() == usage_map_contents(*m).len(),
        forall|i: int|
            0 <= i < r@.len() ==> usage_map_contents(*m).contains_key((#[trigger] r@[i]).0@)
                && usage_map_contents(*m)[r@[i].0@] == r@[i].1,
        forall|i: int, j: int|
            0 <= i < j < r@.len() ==> (#[trigger] r@[i]).0@ != (#[trigger] r@[j]).0@,
{
    m.iter().map(|entry| (entry.key().clone(), *entry.value())).collect()
}

/// `a + b`, or `u64::MAX` where the sum does not fit.
pub open spec fn saturating_sum(a: u64, b: u64) -> u64 {
    if a + b > u64::MAX {
        u64::MAX
    } else {
        (a + b) as u64
    }
}

/// The total for `stack` in `m`, zero where it has none.
pub open spec fn total_of(m: Map<Seq<u64>, u64>, stack: Seq<u64>) -> u64 {
    if m.contains_key(stack) {
        m[stack]
    } else {
        0
    }
}

/// The totals `m` after the allocations `allocs`, each a call stack and the
/// bytes it asked for, are added in order.
pub open spec fn after_allocations(m: Map<Seq<u64>, u64>, allocs: Seq<(Seq<u64>, u64)>) -> Map<
    Seq<u64>,
    u64,
>
    decreases allocs.len(),
{
    if allocs.len() == 0 {
        m
    } else {
        let before = after_allocations(m, allocs.drop_last());
        let a = allocs.last();
        before.insert(a.0, saturating_sum(total_of(before, a.0), a.1))
    }
}

/// The bytes of all `allocs` together.
pub open spec fn bytes_of(allocs: Seq<(Seq<u64>, u64)>) -> nat
    decreases allocs.len(),
{
    if allocs.len() == 0 {
        0
    } else {
        bytes_of(allocs.drop_last()) + allocs.last().1 as nat
    }
}

/// Allocations that all come from one call stack add up: its total is the
/// sum of their sizes, where that sum fits 64 bits.
pub proof fn lemma_usage_adds_up(stack: Seq<u64>, allocs: Seq<(Seq<u64>, u64)>)
    requires
        forall|i: int| 0 <= i < allocs.len() ==> (#[trigger] allocs[i]).0 == stack,
        bytes_of(allocs) <= u64::MAX,
    ensures
        total_of(after_allocations(Map::empty(), allocs), stack) == bytes_of(allocs),
    decreases allocs.len(),
{
    if allocs.len() > 0 {
        let prefix = allocs.drop_last();
        assert forall|i: int| 0 <= i < prefix.len() implies (#[trigger] prefix[i]).0 == stack by {
            assert(prefix[i] == allocs[i]);
        }
        assert(allocs[allocs.len() - 1].0 == stack);
        lemma_usage_adds_up(stack, prefix);
    }
}

/// How many of the flags `s` are unset.
spec fn untaken(s: Seq<bool>) -> nat
    decreases s.len(),
{
    if s.len() == 0 {
        0
    } else {
        untaken(s.drop_last()) + if s.last() {
            0nat
        } else {
            1nat
        }
    }
}

/// Proof helper: some flag is unset where the count of unset flags is not
/// zero.
proof fn lemma_some_untaken(s: Seq<bool>)
    requires
        untaken(s) > 0,
    ensures
        exists|k: int| 0 <= k < s.len() && !s[k],
    decreases s.len(),
{
    if s.last() {
        lemma_some_untaken(s.drop_last());
        let k = choose|k: int| 0 <= k < s.drop_last().len() && !s.drop_last()[k];
        assert(!s[k]);
    } else {
        assert(!s[s.len() - 1]);
    }
}

/// Proof helper: setting an unset flag takes one off the count.
proof fn lemma_untaken_after_take(s: Seq<bool>, i: int)
    requires
        0 <= i < s.len(),
        !s[i],
    ensures
        untaken(s.update(i, true)) + 1 == untaken(s),
    decreases s.len(),
{
    if i < s.len() - 1 {
        lemma_untaken_after_take(s.drop_last(), i);
        assert(s.update(i, true).drop_last() =~= s.drop_last().update(i, true));
    } else {
        assert(s.update(i, true).drop_last() =~= s.drop_last());
    }
}

/// Picks the `n` heaviest of `entries` (all of them where there are fewer),
/// heaviest first, by their index.
pub fn select_heaviest(entries: &Vec<(Vec<u64>, u64)>, n: usize) -> (r: Vec<usize>)
    ensures
        r@.len() == if n < entries@.len() {
            n as int
        } else {
            entries@.len() as int
        },
        forall|i: int| 0 <= i < r@.len() ==> #[trigger] r@[i] < entries@.len(),
        forall|i: int, j: int| 0 <= i < j < r@.len() ==> r@[i] != r@[j],
        forall|i: int, j: int|
            0 <= i < j < r@.len() ==> entries@[r@[i] as int].1 >= entries@[r@[j] as int].1,
        forall|k: int, i: int|
            0 <= k < entries@.len() && 0 <= i < r@.len() && !r@.contains(k as usize)
                ==> (#[trigger] entries@[k]).1 <= entries@[#[trigger] r@[i] as int].1,
{
    let len = entries.len();
    let count = if n < len {
        n
    } else {
        len
    };
    let mut taken: Vec<bool> = Vec::new();
    let mut t: usize = 0;
    while t < len
        invariant
            t <= len,
            taken@.len() == t,
            forall|k: int| 0 <= k < t ==> !taken@[k],
            untaken(taken@) == t,
        decreases len - t,
    {
        let ghost before = taken@;
        taken.push(false);
        assert(taken@.drop_last() =~= before);
        t = t + 1;
    }
    let mut r: Vec<usize> = Vec::new();
    while r.len() < count
        invariant
            len == entries@.len(),
            count <= len,
            r@.len() <= count,
            taken@.len() == len,
            untaken(taken@) == len - r@.len(),
            forall|i: int| 0 <= i < r@.len() ==> #[trigger] r@[i] < len,
            forall|k: int| 0 <= k < len ==> (taken@[k] <==> r@.contains(k as usize)),
            forall|i: int, j: int| 0 <= i < j < r@.len() ==> r@[i] != r@[j],
            forall|i: int, j: int|
                0 <= i < j < r@.len() ==> entries@[r@[i] as int].1 >= entries@[r@[j] as int].1,
            forall|k: int, i: int|
                0 <= k < len && 0 <= i < r@.len() && !taken@[k] ==> (#[trigger] entries@[k]).1
                    <= entries@[#[trigger] r@[i] as int].1,
        decreases count - r@.len(),
    {
        proof {
            lemma_some_untaken(taken@);
        }
        let mut best: usize = 0;
        let mut found = false;
        let mut j: usize = 0;
        while j < len
            invariant
                len == entries@.len(),
                taken@.len() == len,
                j <= len,
                found ==> best < j && !taken@[best as int],
                found ==> forall|k: int| 0 <= k < j && !taken@[k] ==> entries@[k].1
                    <= entries@[best as int].1,
                !found ==> forall|k: int| 0 <= k < j ==> taken@[k],
            decreases len - j,
        {
            if !taken[j] {
                if !found || entries[j].1 > entries[best].1 {
                    best = j;
                    found = true;
                }
            }
            j = j + 1;
        }
        let ghost old_r = r@;
        proof {
            lemma_untaken_after_take(taken@, best as int);
        }
        taken.set(best, true);
        r.push(best);
        assert forall|k: int| 0 <= k < len implies (taken@[k] <==> r@.contains(k as usize)) by {
            if k == best as int {
                assert(r@[r@.len() - 1] == best);
            } else {
                if old_r.contains(k as usize) {
                    let w = choose|w: int| 0 <= w < old_r.len() && old_r[w] == k as usize;
                    assert(r@[w] == k as usize);
                }
                if r@.contains(k as usize) {
                    let w = choose|w: int| 0 <= w < r@.len() && r@[w] == k as usize;
                    assert(old_r[w] == k as usize);
                }
            }
        }
        assert forall|i: int, j2: int| 0 <= i < j2 < r@.len() implies r@[i] != r@[j2] by {
            if j2 == r@.len() - 1 {
                assert(old_r.contains(r@[i]));
            }
        }
    }
    assert forall|k: int, i: int|
        0 <= k < entries@.len() && 0 <= i < r@.len() && !r@.contains(k as usize) implies (
        #[trigger] entries@[k]).1 <= entries@[#[trigger] r@[i] as int].1 by {
        assert(!taken@[k]);
    }
    r
}

/// Bytes requested so far, summed per call stack. Two stacks are the same
/// call site when they hold the same frames in the same order.
pub struct UsageMap {
    map: DashMap<Vec<u64>, u64>,
}

impl View for UsageMap {
    type V = Map<Seq<u64>, u64>;

    closed spec fn view(&self) -> Map<Seq<u64>, u64> {
        usage_map_contents(self.map)
    }
}

impl UsageMap {
    /// The map holds finitely many call stacks.
    pub closed spec fn wf(&self) -> bool {
        self@.dom().finite()
    }

    /// No usage yet.
    pub fn new() -> (r: UsageMap)
        ensures
            r@ == Map::<Seq<u64>, u64>::empty(),
            r.wf(),
    {
        UsageMap { map: usage_map_new() }
    }

    /// Adds `size` bytes to the total of `stack`; a total that would pass
    /// `u64::MAX` stays there.
    pub fn add(&mut self, stack: &Vec<u64>, size: u64)
        requires
            old(self).wf(),
        ensures
            final(self).wf(),
            final(self)@ == old(self)@.insert(
                stack@,
                saturating_sum(total_of(old(self)@, stack@), size),
            ),
    {
        let current = self.usage(stack);
        let total = current.saturating_add(size);
        let key = stack.clone();
        assert(key@ == stack@);
        usage_map_insert(&mut self.map, key, total);
    }

    /// The bytes requested so far from `stack`.
    pub fn usage(&self, stack: &Vec<u64>) -> (r: u64)
        ensures
            r == total_of(self@, stack@),
    {
        match usage_map_get(&self.map, stack) {
            Some(v) => v,
            None => 0,
        }
    }

    /// The `n` heaviest call stacks with their totals (all of them where
    /// there are fewer), heaviest first.
    pub fn heaviest(&self, n: usize) -> (r: Vec<(Vec<u64>, u64)>)
        requires
            self.wf(),
        ensures
            r@.len() == if n < self@.len() {
                n as int
            } else {
                self@.len() as int
            },
            forall|i: int|
                0 <= i < r@.len() ==> self@.contains_key((#[trigger] r@[i]).0@) && self@[r@[i].0@]
                    == r@[i].1,
            forall|i: int, j: int|
                0 <= i < j < r@.len() ==> (#[trigger] r@[i]).0@ != (#[trigger] r@[j]).0@,
            forall|i: int, j: int| 0 <= i < j < r@.len() ==> (#[trigger] r@[i]).1 >= (
            #[trigger] r@[j]).1,
            forall|s: Seq<u64>, i: int|
                #![trigger self@[s], r@[i]]
                self@.contains_key(s) && 0 <= i < r@.len() && (forall|j: int|
                    0 <= j < r@.len() ==> r@[j].0@ != s) ==> self@[s] <= r@[i].1,
    {
        let entries = usage_map_entries(&self.map);
        let picked = select_heaviest(&entries, n);
        let mut r: Vec<(Vec<u64>, u64)> = Vec::new();
        let mut i: usize = 0;
        while i < picked.len()
            invariant
                i <= picked@.len(),
                r@.len() == i,
                forall|m: int| 0 <= m < picked@.len() ==> #[trigger] picked@[m] < entries@.len(),
                forall|m: int|
                    0 <= m < i ==> (#[trigger] r@[m]).0@ == entries@[picked@[m] as int].0@
                        && r@[m].1 == entries@[picked@[m] as int].1,
            decreases picked@.len() - i,
        {
            let e = &entries[picked[i]];
            let stack = e.0.clone();
            r.push((stack, e.1));
            i = i + 1;
        }
        assert forall|s: Seq<u64>, i: int|
            #![trigger self@[s], r@[i]]
            self@.contains_key(s) && 0 <= i < r@.len() && (forall|j: int|
                0 <= j < r@.len() ==> r@[j].0@ != s) implies self@[s] <= r@[i].1 by {
            lemma_entry_listed(entries@, self@, s);
            let k = choose|k: int| 0 <= k < entries@.len() && entries@[k].0@ == s;
            if picked@.contains(k as usize) {
                let j = choose|j: int| 0 <= j < picked@.len() && picked@[j] == k as usize;
                assert(r@[j].0@ == s);
            }
            assert(entries@[k].1 <= entries@[picked@[i] as int].1);
        }
        assert forall|i: int, j: int| 0 <= i < j < r@.len() implies (#[trigger] r@[i]).0@ != (
        #[trigger] r@[j]).0@ by {
            assert(picked@[i] != picked@[j]);
        }
        r
    }
}

/// Proof helper: a list of distinct entries as long as the map holds every
/// key of the map.
proof fn lemma_entry_listed(entries: Seq<(Vec<u64>, u64)>, m: Map<Seq<u64>, u64>, s: Seq<u64>)
    requires
        m.contains_key(s),
        m.dom().finite(),
        entries.len() == m.len(),
        forall|i: int|
            0 <= i < entries.len() ==> m.contains_key((#[trigger] entries[i]).0@) && m[entries[i].0@]
                == entries[i].1,
        forall|i: int, j: int|
            0 <= i < j < entries.len() ==> (#[trigger] entries[i]).0@ != (#[trigger] entries[j]).0@,
    ensures
        exists|k: int| 0 <= k < entries.len() && entries[k].0@ == s,
{
    let keys = entries.map_values(|e: (Vec<u64>, u64)| e.0@);
    assert(keys.no_duplicates()) by {
        assert forall|i: int, j: int| 0 <= i < keys.len() && 0 <= j < keys.len() && i != j implies keys[i]
            != keys[j] by {
            if i < j {
                assert(entries[i].0@ != entries[j].0@);
            } else {
                assert(entries[j].0@ != entries[i].0@);
            }
        }
    }
    keys.unique_seq_to_set();
    if !(exists|k: int| 0 <= k < entries.len() && entries[k].0@ == s) {
        assert(keys.to_set().subset_of(m.dom().remove(s))) by {
            assert forall|x: Seq<u64>| keys.to_set().contains(x) implies m.dom().remove(s).contains(
                x,
            ) by {
                let k = choose|k: int| 0 <= k < keys.len() && keys[k] == x;
                assert(entries[k].0@ == x);
            }
        }
        vstd::set_lib::lemma_len_subset(keys.to_set(), m.dom().remove(s));
    }
}

} // verus!
