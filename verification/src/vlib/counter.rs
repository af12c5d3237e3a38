//! Per-thread, per-object counters
//!
//! Each counter keeps, for every VPP thread, a vector of counts indexed by object. A thread only
//! ever increments its own count; reading a counter sums the counts of all threads.

use vstd::prelude::*;

verus! {

/// The sum over threads `0..n` of the count of object `index`
pub open spec fn sum_over_threads(counts: Seq<Seq<u64>>, index: int, n: int) -> int
    decreases n,
{
    if n <= 0 {
        0
    } else {
        sum_over_threads(counts, index, n - 1) + counts[n - 1][index]
    }
}

/// Every thread has a count for object `index`
pub open spec fn allocated<A>(counts: Seq<Seq<A>>, index: int) -> bool {
    forall|t: int| 0 <= t < counts.len() ==> index < #[trigger] counts[t].len()
}

/// The counts once object `index` is allocated on `n_threads` threads and zeroed: there is a
/// vector for every thread, long enough to hold `index`, new counts are `zero`, and object
/// `index` is `zero` on every thread
pub open spec fn allocate_counts<A>(counts: Seq<Seq<A>>, n_threads: int, index: int, zero: A) -> Seq<
    Seq<A>,
> {
    let len = if counts.len() < n_threads {
        n_threads
    } else {
        counts.len() as int
    };
    Seq::new(
        len as nat,
        |t: int|
            {
                let old_counts = if t < counts.len() {
                    counts[t]
                } else {
                    Seq::<A>::empty()
                };
                let new_len = if old_counts.len() <= index {
                    index + 1
                } else {
                    old_counts.len() as int
                };
                Seq::new(
                    new_len as nat,
                    |i: int|
                        if i == index {
                            zero
                        } else if i < old_counts.len() {
                            old_counts[i]
                        } else {
                            zero
                        },
                )
            },
    )
}

/// The counts with object `index` set to `zero` on every thread
pub open spec fn zero_counts<A>(counts: Seq<Seq<A>>, index: int, zero: A) -> Seq<Seq<A>> {
    Seq::new(counts.len(), |t: int| counts[t].update(index, zero))
}

/// The sum over threads of a count that every thread holds is no less than any partial sum
pub proof fn lemma_sum_monotone(counts: Seq<Seq<u64>>, index: int, m: int, n: int)
    requires
        0 <= m <= n,
    ensures
        sum_over_threads(counts, index, m) <= sum_over_threads(counts, index, n),
    decreases n,
{
    if m < n {
        lemma_sum_monotone(counts, index, m, n - 1);
    }
}

/// Law: incrementing a thread's count of an object increases the object's total by the same
/// amount
pub proof fn lemma_increment_total(
    counts: Seq<Seq<u64>>,
    thread: int,
    index: int,
    count: u64,
    n: int,
)
    requires
        0 <= thread < counts.len(),
        0 <= index < counts[thread].len(),
        counts[thread][index] + count <= u64::MAX,
        thread < n <= counts.len(),
    ensures
        sum_over_threads(
            counts.update(thread, counts[thread].update(index, (counts[thread][index] + count) as u64)),
            index,
            n,
        ) == sum_over_threads(counts, index, n) + count,
    decreases n,
{
    let after = counts.update(
        thread,
        counts[thread].update(index, (counts[thread][index] + count) as u64),
    );
    if n - 1 > thread {
        lemma_increment_total(counts, thread, index, count, n - 1);
    } else {
        lemma_sum_unchanged(counts, after, index, n - 1);
    }
}

/// Sums over threads whose counts of the object are the same are the same
pub proof fn lemma_sum_unchanged(a: Seq<Seq<u64>>, b: Seq<Seq<u64>>, index: int, n: int)
    requires
        forall|t: int| 0 <= t < n ==> #[trigger] a[t][index] == b[t][index],
    ensures
        sum_over_threads(a, index, n) == sum_over_threads(b, index, n),
    decreases n,
{
    if n > 0 {
        lemma_sum_unchanged(a, b, index, n - 1);
    }
}

/// Law: an object whose count is zero on every thread has a total of zero (as after
/// allocating or zeroing it)
pub proof fn lemma_zero_total(counts: Seq<Seq<u64>>, index: int, n: int)
    requires
        n <= counts.len(),
        forall|t: int| 0 <= t < counts.len() ==> #[trigger] counts[t][index] == 0,
    ensures
        sum_over_threads(counts, index, n) == 0,
    decreases n,
{
    if n > 0 {
        lemma_zero_total(counts, index, n - 1);
    }
}

/// Law: allocating an object on every thread makes its count zero on every thread, and
/// zeroing it does too
pub proof fn lemma_allocate_and_zero_clear<A>(counts: Seq<Seq<A>>, n_threads: int, index: int, zero: A)
    requires
        0 <= index,
    ensures
        allocated(allocate_counts(counts, n_threads, index, zero), index),
        forall|t: int|
            0 <= t < allocate_counts(counts, n_threads, index, zero).len() ==> #[trigger] allocate_counts(
                counts,
                n_threads,
                index,
                zero,
            )[t][index] == zero,
        allocated(counts, index) ==> forall|t: int|
            0 <= t < counts.len() ==> #[trigger] zero_counts(counts, index, zero)[t][index] == zero,
{
}

/// Law: zeroing an allocated object `index` sets its count to `zero` on every thread, and leaves every other
/// object's count on every thread, the number of threads and the number of objects of each
/// thread as they were
pub proof fn lemma_zero_only_clears_index<A>(counts: Seq<Seq<A>>, index: int, zero: A)
    requires
        0 <= index,
        allocated(counts, index),
    ensures
        zero_counts(counts, index, zero).len() == counts.len(),
        forall|t: int|
            0 <= t < counts.len() ==> (#[trigger] zero_counts(counts, index, zero)[t]).len()
                == counts[t].len(),
        forall|t: int, j: int|
            0 <= t < counts.len() && 0 <= j < counts[t].len() && j != index ==> #[trigger] zero_counts(
                counts,
                index,
                zero,
            )[t][j] == counts[t][j],
        forall|t: int|
            0 <= t < counts.len() && 0 <= index < counts[t].len() ==> #[trigger] zero_counts(
                counts,
                index,
                zero,
            )[t][index] == zero,
{
}

/// Law: allocating object `index` leaves every other object's counts as they were, on every
/// thread that had them, and makes the total of `index` over all threads zero, whether or not
/// it was allocated and counted before
pub proof fn lemma_allocate_keeps_others(counts: Seq<Seq<u64>>, n_threads: int, index: int)
    requires
        0 <= index,
    ensures
        forall|t: int, i: int|
            0 <= t < counts.len() && 0 <= i < counts[t].len() && i != index ==> #[trigger] allocate_counts(
                counts,
                n_threads,
                index,
                0u64,
            )[t][i] == counts[t][i],
        allocate_counts(counts, n_threads, index, 0u64).len() >= counts.len(),
        allocate_counts(counts, n_threads, index, 0u64).len() >= n_threads,
        sum_over_threads(
            allocate_counts(counts, n_threads, index, 0u64),
            index,
            allocate_counts(counts, n_threads, index, 0u64).len() as int,
        ) == 0,
{
    let a = allocate_counts(counts, n_threads, index, 0u64);
    lemma_allocate_and_zero_clear(counts, n_threads, index, 0u64);
    lemma_zero_total(a, index, a.len() as int);
}

/// Combined count of packets and bytes
#[derive(Copy, Clone, Debug, PartialEq, Eq, Structural)]
pub struct CombinedCount {
    /// The number of packets
    pub packets: u64,
    /// The number of bytes
    pub bytes: u64,
}

/// The packet counts of the combined counts
pub open spec fn packets_of(counts: Seq<Seq<CombinedCount>>) -> Seq<Seq<u64>> {
    Seq::new(counts.len(), |t: int| Seq::new(counts[t].len(), |i: int| counts[t][i].packets))
}

/// The byte counts of the combined counts
pub open spec fn bytes_of(counts: Seq<Seq<CombinedCount>>) -> Seq<Seq<u64>> {
    Seq::new(counts.len(), |t: int| Seq::new(counts[t].len(), |i: int| counts[t][i].bytes))
}

/// Whether a string holds no NUL character, as a C string name must
pub open spec fn no_nul(s: Seq<char>) -> bool {
    forall|i: int| 0 <= i < s.len() ==> s[i] != '\0'
}

/// Per-thread, per-object simple counters
pub struct SimpleCounter {
    /// Name of the counter
    name: String,
    /// Name of the counter in the statistics segment
    stat_segment_name: String,
    /// The count of each object, by thread
    counters: Vec<Vec<u64>>,
}

/// An allocated index for a [`SimpleCounter`]
pub struct SimpleCounterIndex {
    index: u32,
}

impl SimpleCounter {
    /// The count of each object, by thread
    pub closed spec fn counts(&self) -> Seq<Seq<u64>> {
        Seq::new(self.counters@.len(), |t: int| self.counters@[t]@)
    }

    /// The counter's name
    pub closed spec fn name(&self) -> Seq<char> {
        self.name@
    }

    /// The counter's name in the statistics segment
    pub closed spec fn stat_segment_name(&self) -> Seq<char> {
        self.stat_segment_name@
    }

    /// Create a new `SimpleCounter`
    ///
    /// The names must hold no NUL character, since they become C strings.
    pub fn new(name: &str, stat_segment_name: &str) -> (counter: Self)
        requires
            no_nul(name@),
            no_nul(stat_segment_name@),
        ensures
            counter.counts() == Seq::<Seq<u64>>::empty(),
            counter.name() == name@,
            counter.stat_segment_name() == stat_segment_name@,
    {
        let counter = SimpleCounter {
            name: name.to_owned(),
            stat_segment_name: stat_segment_name.to_owned(),
            counters: Vec::new(),
        };
        assert(counter.counts() =~= Seq::<Seq<u64>>::empty());
        counter
    }

    /// Allocate the given index for use on `n_threads` threads, zeroing it in the process
    ///
    /// This is similar to the VPP C API `vlib_validate_simple_counter`.
    pub fn allocate_index(&mut self, n_threads: u32, index: u32) -> (counter_index:
        SimpleCounterIndex)
        requires
            index < u32::MAX,
        ensures
            counter_index.index() == index,
            final(self).counts() == allocate_counts(
                old(self).counts(),
                n_threads as int,
                index as int,
                0u64,
            ),
            final(self).name() == old(self).name(),
            final(self).stat_segment_name() == old(self).stat_segment_name(),
    {
        let ghost old_counts = old(self).counts();
        let ghost target = allocate_counts(old_counts, n_threads as int, index as int, 0u64);
        let idx = index as usize;
        while self.counters.len() < n_threads as usize
            invariant
                self.name == old(self).name,
                self.stat_segment_name == old(self).stat_segment_name,
                old(self).counters@.len() <= self.counters@.len() <= (if old(self).counters@.len()
                    < n_threads {
                    n_threads as int
                } else {
                    old(self).counters@.len() as int
                }),
                forall|t: int|
                    0 <= t < self.counters@.len() ==> #[trigger] self.counters@[t]@ == (if t
                        < old(self).counters@.len() {
                        old(self).counters@[t]@
                    } else {
                        Seq::<u64>::empty()
                    }),
            decreases n_threads - self.counters@.len(),
        {
            self.counters.push(Vec::new());
        }
        let n = self.counters.len();
        let mut t: usize = 0;
        while t < n
            invariant
                self.name == old(self).name,
                self.stat_segment_name == old(self).stat_segment_name,
                n == self.counters@.len(),
                n == target.len(),
                old_counts == old(self).counts(),
                target == allocate_counts(old_counts, n_threads as int, index as int, 0u64),
                t <= n,
                idx == index,
                forall|x: int| 0 <= x < t ==> #[trigger] self.counters@[x]@ == target[x],
                forall|x: int|
                    t <= x < n ==> #[trigger] self.counters@[x]@ == (if x < old(self).counters@.len() {
                        old(self).counters@[x]@
                    } else {
                        Seq::<u64>::empty()
                    }),
            decreases n - t,
        {
            let ghost before = self.counters@[t as int]@;
            let ghost outer = self.counters@;
            proof {
                let old_t = if (t as int) < old_counts.len() {
                    old_counts[t as int]
                } else {
                    Seq::<u64>::empty()
                };
                assert(before == old_t);
            }
            while self.counters[t].len() <= idx
                invariant
                    self.name == old(self).name,
                    self.stat_segment_name == old(self).stat_segment_name,
                    t < n,
                    n == self.counters@.len(),
                    outer.len() == n,
                    forall|x: int| 0 <= x < n && x != t ==> #[trigger] self.counters@[x] == outer[x],
                    before.len() <= self.counters@[t as int]@.len(),
                    self.counters@[t as int]@.len() <= (if before.len() <= idx {
                        idx + 1
                    } else {
                        before.len() as int
                    }),
                    forall|i: int|
                        0 <= i < before.len() ==> #[trigger] self.counters@[t as int]@[i] == before[i],
                    forall|i: int|
                        before.len() <= i < self.counters@[t as int]@.len() ==> #[trigger] self.counters@[t as int]@[i] == 0,
                decreases idx + 1 - self.counters@[t as int]@.len(),
            {
                self.counters[t].push(0);
            }
            self.counters[t].set(idx, 0);
            proof {
                assert(self.counters@[t as int]@ =~= target[t as int]);
            }
            t = t + 1;
        }
        proof {
            assert(self.counts() =~= target);
        }
        SimpleCounterIndex { index }
    }
}

impl SimpleCounterIndex {
    /// The object index
    pub closed spec fn index(&self) -> u32 {
        self.index
    }

    /// Decomposes a simple counter index into its object index
    pub fn into_parts(self) -> (index: u32)
        ensures
            index == self.index(),
    {
        self.index
    }

    /// Creates a `SimpleCounterIndex` from component parts
    ///
    /// `index` must be a valid (previously allocated) index for the counter.
    pub fn from_parts(counter: &SimpleCounter, index: u32) -> (counter_index: Self)
        requires
            allocated(counter.counts(), index as int),
        ensures
            counter_index.index() == index,
    {
        SimpleCounterIndex { index }
    }

    /// Increment thread `thread_index`'s count
    pub fn increment(&self, counter: &mut SimpleCounter, thread_index: u32, count: u64)
        requires
            thread_index < old(counter).counts().len(),
            self.index() < old(counter).counts()[thread_index as int].len(),
            old(counter).counts()[thread_index as int][self.index() as int] + count <= u64::MAX,
        ensures
            final(counter).counts() == old(counter).counts().update(
                thread_index as int,
                old(counter).counts()[thread_index as int].update(
                    self.index() as int,
                    (old(counter).counts()[thread_index as int][self.index() as int] + count) as u64,
                ),
            ),
            final(counter).name() == old(counter).name(),
            final(counter).stat_segment_name() == old(counter).stat_segment_name(),
    {
        let t = thread_index as usize;
        let i = self.index as usize;
        let new_count = counter.counters[t][i] + count;
        counter.counters[t].set(i, new_count);
        proof {
            assert(counter.counts() =~= old(counter).counts().update(
                thread_index as int,
                old(counter).counts()[thread_index as int].update(self.index() as int, new_count),
            ));
        }
    }

    /// Zero all threads' counts
    pub fn zero(&self, counter: &mut SimpleCounter)
        requires
            allocated(old(counter).counts(), self.index() as int),
        ensures
            final(counter).counts() == zero_counts(old(counter).counts(), self.index() as int, 0u64),
            final(counter).counts().len() == old(counter).counts().len(),
            forall|t: int|
                0 <= t < old(counter).counts().len() ==> (#[trigger] final(counter).counts()[t]).len()
                    == old(counter).counts()[t].len(),
            forall|t: int, j: int|
                0 <= t < old(counter).counts().len() && 0 <= j < old(counter).counts()[t].len() && j
                    != self.index() ==> #[trigger] final(counter).counts()[t][j] == old(counter).counts()[t][j],
            forall|t: int|
                0 <= t < old(counter).counts().len() ==> #[trigger] final(counter).counts()[t][self.index() as int]
                    == 0u64,
            final(counter).name() == old(counter).name(),
            final(counter).stat_segment_name() == old(counter).stat_segment_name(),
    {
        let i = self.index as usize;
        let n = counter.counters.len();
        let ghost target = zero_counts(old(counter).counts(), self.index() as int, 0u64);
        let mut t: usize = 0;
        while t < n
            invariant
                counter.name == old(counter).name,
                counter.stat_segment_name == old(counter).stat_segment_name,
                n == counter.counters@.len(),
                n == old(counter).counters@.len(),
                i == self.index(),
                allocated(old(counter).counts(), i as int),
                target == zero_counts(old(counter).counts(), self.index() as int, 0u64),
                t <= n,
                forall|x: int| 0 <= x < t ==> #[trigger] counter.counters@[x]@ == target[x],
                forall|x: int|
                    t <= x < n ==> #[trigger] counter.counters@[x]@ == old(counter).counters@[x]@,
            decreases n - t,
        {
            let ghost before = counter.counters@;
            assert(i < old(counter).counts()[t as int].len());
            assert(before[t as int]@ == old(counter).counts()[t as int]);
            counter.counters[t].set(i, 0);
            proof {
                assert(target.len() == n);
                assert(counter.counters@[t as int]@ =~= target[t as int]);
                assert forall|x: int| 0 <= x < n && x != t implies #[trigger] counter.counters@[x]@
                    == before[x]@ by {}
            }
            t = t + 1;
        }
        proof {
            assert(counter.counts() =~= target);
            lemma_zero_only_clears_index(old(counter).counts(), self.index() as int, 0u64);
        }
    }

    /// Get the total count, summing for all threads
    pub fn get(&self, counter: &SimpleCounter) -> (total: u64)
        requires
            allocated(counter.counts(), self.index() as int),
            sum_over_threads(counter.counts(), self.index() as int, counter.counts().len() as int)
                <= u64::MAX,
        ensures
            total == sum_over_threads(
                counter.counts(),
                self.index() as int,
                counter.counts().len() as int,
            ),
    {
        let i = self.index as usize;
        let n = counter.counters.len();
        let ghost counts = counter.counts();
        let mut sum: u64 = 0;
        let mut t: usize = 0;
        while t < n
            invariant
                n == counts.len(),
                counts == counter.counts(),
                i == self.index(),
                allocated(counts, i as int),
                sum_over_threads(counts, i as int, n as int) <= u64::MAX,
                t <= n,
                sum == sum_over_threads(counts, i as int, t as int),
            decreases n - t,
        {
            proof {
                lemma_sum_monotone(counts, i as int, t + 1, n as int);
                assert(i < counts[t as int].len());
            }
            sum = sum + counter.counters[t][i];
            t = t + 1;
        }
        sum
    }
}

/// Per-thread, per-object combined packets and bytes counters
pub struct CombinedCounter {
    /// Name of the counter
    name: String,
    /// Name of the counter in the statistics segment
    stat_segment_name: String,
    /// The count of each object, by thread
    counters: Vec<Vec<CombinedCount>>,
}

/// An allocated index for a [`CombinedCounter`]
pub struct CombinedCounterIndex {
    index: u32,
}

impl CombinedCounter {
    /// The count of each object, by thread
    pub closed spec fn counts(&self) -> Seq<Seq<CombinedCount>> {
        Seq::new(self.counters@.len(), |t: int| self.counters@[t]@)
    }

    /// The counter's name
    pub closed spec fn name(&self) -> Seq<char> {
        self.name@
    }

    /// The counter's name in the statistics segment
    pub closed spec fn stat_segment_name(&self) -> Seq<char> {
        self.stat_segment_name@
    }

    /// Create a new `CombinedCounter`
    ///
    /// The names must hold no NUL character, since they become C strings.
    pub fn new(name: &str, stat_segment_name: &str) -> (counter: Self)
        requires
            no_nul(name@),
            no_nul(stat_segment_name@),
        ensures
            counter.counts() == Seq::<Seq<CombinedCount>>::empty(),
            counter.name() == name@,
            counter.stat_segment_name() == stat_segment_name@,
    {
        let counter = CombinedCounter {
            name: name.to_owned(),
            stat_segment_name: stat_segment_name.to_owned(),
            counters: Vec::new(),
        };
        assert(counter.counts() =~= Seq::<Seq<CombinedCount>>::empty());
        counter
    }

    /// Allocate the given index for use on `n_threads` threads, zeroing it in the process
    ///
    /// This is similar to the VPP C API `vlib_validate_combined_counter`.
    pub fn allocate_index(&mut self, n_threads: u32, index: u32) -> (counter_index:
        CombinedCounterIndex)
        requires
            index < u32::MAX,
        ensures
            counter_index.index() == index,
            final(self).counts() == allocate_counts(
                old(self).counts(),
                n_threads as int,
                index as int,
                CombinedCount { packets: 0, bytes: 0 },
            ),
            final(self).name() == old(self).name(),
            final(self).stat_segment_name() == old(self).stat_segment_name(),
    {
        let ghost old_counts = old(self).counts();
        let ghost target = allocate_counts(old_counts, n_threads as int, index as int, CombinedCount { packets: 0, bytes: 0 });
        let idx = index as usize;
        while self.counters.len() < n_threads as usize
            invariant
                self.name == old(self).name,
                self.stat_segment_name == old(self).stat_segment_name,
                old(self).counters@.len() <= self.counters@.len() <= (if old(self).counters@.len()
                    < n_threads {
                    n_threads as int
                } else {
                    old(self).counters@.len() as int
                }),
                forall|t: int|
                    0 <= t < self.counters@.len() ==> #[trigger] self.counters@[t]@ == (if t
                        < old(self).counters@.len() {
                        old(self).counters@[t]@
                    } else {
                        Seq::<CombinedCount>::empty()
                    }),
            decreases n_threads - self.counters@.len(),
        {
            self.counters.push(Vec::new());
        }
        let n = self.counters.len();
        let mut t: usize = 0;
        while t < n
            invariant
                self.name == old(self).name,
                self.stat_segment_name == old(self).stat_segment_name,
                n == self.counters@.len(),
                n == target.len(),
                old_counts == old(self).counts(),
                target == allocate_counts(old_counts, n_threads as int, index as int, CombinedCount { packets: 0, bytes: 0 }),
                t <= n,
                idx == index,
                forall|x: int| 0 <= x < t ==> #[trigger] self.counters@[x]@ == target[x],
                forall|x: int|
                    t <= x < n ==> #[trigger] self.counters@[x]@ == (if x < old(self).counters@.len() {
                        old(self).counters@[x]@
                    } else {
                        Seq::<CombinedCount>::empty()
                    }),
            decreases n - t,
        {
            let ghost before = self.counters@[t as int]@;
            let ghost outer = self.counters@;
            proof {
                let old_t = if (t as int) < old_counts.len() {
                    old_counts[t as int]
                } else {
                    Seq::<CombinedCount>::empty()
                };
                assert(before == old_t);
            }
            while self.counters[t].len() <= idx
                invariant
                    self.name == old(self).name,
                    self.stat_segment_name == old(self).stat_segment_name,
                    t < n,
                    n == self.counters@.len(),
                    outer.len() == n,
                    forall|x: int| 0 <= x < n && x != t ==> #[trigger] self.counters@[x] == outer[x],
                    before.len() <= self.counters@[t as int]@.len(),
                    self.counters@[t as int]@.len() <= (if before.len() <= idx {
                        idx + 1
                    } else {
                        before.len() as int
                    }),
                    forall|i: int|
                        0 <= i < before.len() ==> #[trigger] self.counters@[t as int]@[i] == before[i],
                    forall|i: int|
                        before.len() <= i < self.counters@[t as int]@.len() ==> #[trigger] self.counters@[t as int]@[i] == (CombinedCount { packets: 0, bytes: 0 }),
                decreases idx + 1 - self.counters@[t as int]@.len(),
            {
                self.counters[t].push(CombinedCount { packets: 0, bytes: 0 });
            }
            self.counters[t].set(idx, CombinedCount { packets: 0, bytes: 0 });
            proof {
                assert(self.counters@[t as int]@ =~= target[t as int]);
            }
            t = t + 1;
        }
        proof {
            assert(self.counts() =~= target);
        }
        CombinedCounterIndex { index }
    }
}

impl CombinedCounterIndex {
    /// The object index
    pub closed spec fn index(&self) -> u32 {
        self.index
    }

    /// Decomposes a combined counter index into its object index
    pub fn into_parts(self) -> (index: u32)
        ensures
            index == self.index(),
    {
        self.index
    }

    /// Creates a `CombinedCounterIndex` from component parts
    ///
    /// `index` must be a valid (previously allocated) index for the counter.
    pub fn from_parts(counter: &CombinedCounter, index: u32) -> (counter_index: Self)
        requires
            allocated(counter.counts(), index as int),
        ensures
            counter_index.index() == index,
    {
        CombinedCounterIndex { index }
    }

    /// Increment thread `thread_index`'s counts of packets and bytes
    pub fn increment(
        &self,
        counter: &mut CombinedCounter,
        thread_index: u32,
        packets: u64,
        bytes: u64,
    )
        requires
            thread_index < old(counter).counts().len(),
            self.index() < old(counter).counts()[thread_index as int].len(),
            old(counter).counts()[thread_index as int][self.index() as int].packets + packets
                <= u64::MAX,
            old(counter).counts()[thread_index as int][self.index() as int].bytes + bytes
                <= u64::MAX,
        ensures
            final(counter).counts() == old(counter).counts().update(
                thread_index as int,
                old(counter).counts()[thread_index as int].update(
                    self.index() as int,
                    CombinedCount {
                        packets: (old(counter).counts()[thread_index as int][self.index() as int].packets
                            + packets) as u64,
                        bytes: (old(counter).counts()[thread_index as int][self.index() as int].bytes
                            + bytes) as u64,
                    },
                ),
            ),
            final(counter).name() == old(counter).name(),
            final(counter).stat_segment_name() == old(counter).stat_segment_name(),
    {
        let t = thread_index as usize;
        let i = self.index as usize;
        let current = counter.counters[t][i];
        let new_count = CombinedCount {
            packets: current.packets + packets,
            bytes: current.bytes + bytes,
        };
        counter.counters[t].set(i, new_count);
        proof {
            assert(counter.counts() =~= old(counter).counts().update(
                thread_index as int,
                old(counter).counts()[thread_index as int].update(self.index() as int, new_count),
            ));
        }
    }

    /// Zero all threads' counts
    pub fn zero(&self, counter: &mut CombinedCounter)
        requires
            allocated(old(counter).counts(), self.index() as int),
        ensures
            final(counter).counts() == zero_counts(old(counter).counts(), self.index() as int, CombinedCount { packets: 0, bytes: 0 }),
            final(counter).counts().len() == old(counter).counts().len(),
            forall|t: int|
                0 <= t < old(counter).counts().len() ==> (#[trigger] final(counter).counts()[t]).len()
                    == old(counter).counts()[t].len(),
            forall|t: int, j: int|
                0 <= t < old(counter).counts().len() && 0 <= j < old(counter).counts()[t].len() && j
                    != self.index() ==> #[trigger] final(counter).counts()[t][j] == old(counter).counts()[t][j],
            forall|t: int|
                0 <= t < old(counter).counts().len() ==> #[trigger] final(counter).counts()[t][self.index() as int]
                    == (CombinedCount { packets: 0, bytes: 0 }),
            final(counter).name() == old(counter).name(),
            final(counter).stat_segment_name() == old(counter).stat_segment_name(),
    {
        let i = self.index as usize;
        let n = counter.counters.len();
        let ghost target = zero_counts(old(counter).counts(), self.index() as int, CombinedCount { packets: 0, bytes: 0 });
        let mut t: usize = 0;
        while t < n
            invariant
                counter.name == old(counter).name,
                counter.stat_segment_name == old(counter).stat_segment_name,
                n == counter.counters@.len(),
                n == old(counter).counters@.len(),
                i == self.index(),
                allocated(old(counter).counts(), i as int),
                target == zero_counts(old(counter).counts(), self.index() as int, CombinedCount { packets: 0, bytes: 0 }),
                t <= n,
                forall|x: int| 0 <= x < t ==> #[trigger] counter.counters@[x]@ == target[x],
                forall|x: int|
                    t <= x < n ==> #[trigger] counter.counters@[x]@ == old(counter).counters@[x]@,
            decreases n - t,
        {
            let ghost before = counter.counters@;
            assert(i < old(counter).counts()[t as int].len());
            assert(before[t as int]@ == old(counter).counts()[t as int]);
            counter.counters[t].set(i, CombinedCount { packets: 0, bytes: 0 });
            proof {
                assert(target.len() == n);
                assert(counter.counters@[t as int]@ =~= target[t as int]);
                assert forall|x: int| 0 <= x < n && x != t implies #[trigger] counter.counters@[x]@
                    == before[x]@ by {}
            }
            t = t + 1;
        }
        proof {
            assert(counter.counts() =~= target);
            lemma_zero_only_clears_index(
                old(counter).counts(),
                self.index() as int,
                CombinedCount { packets: 0, bytes: 0 },
            );
        }
    }

    /// Get the total counts of packets and bytes, summing for all threads
    pub fn get(&self, counter: &CombinedCounter) -> (total: CombinedCount)
        requires
            allocated(counter.counts(), self.index() as int),
            sum_over_threads(
                packets_of(counter.counts()),
                self.index() as int,
                counter.counts().len() as int,
            ) <= u64::MAX,
            sum_over_threads(
                bytes_of(counter.counts()),
                self.index() as int,
                counter.counts().len() as int,
            ) <= u64::MAX,
        ensures
            total.packets == sum_over_threads(
                packets_of(counter.counts()),
                self.index() as int,
                counter.counts().len() as int,
            ),
            total.bytes == sum_over_threads(
                bytes_of(counter.counts()),
                self.index() as int,
                counter.counts().len() as int,
            ),
    {
        let i = self.index as usize;
        let n = counter.counters.len();
        let ghost counts = counter.counts();
        let ghost packets = packets_of(counts);
        let ghost bytes = bytes_of(counts);
        let mut sum = CombinedCount { packets: 0, bytes: 0 };
        let mut t: usize = 0;
        while t < n
            invariant
                n == counts.len(),
                counts == counter.counts(),
                packets == packets_of(counts),
                bytes == bytes_of(counts),
                i == self.index(),
                allocated(counts, i as int),
                sum_over_threads(packets, i as int, n as int) <= u64::MAX,
                sum_over_threads(bytes, i as int, n as int) <= u64::MAX,
                t <= n,
                sum.packets == sum_over_threads(packets, i as int, t as int),
                sum.bytes == sum_over_threads(bytes, i as int, t as int),
            decreases n - t,
        {
            proof {
                lemma_sum_monotone(packets, i as int, t + 1, n as int);
                lemma_sum_monotone(bytes, i as int, t + 1, n as int);
                assert(i < counts[t as int].len());
                assert(packets[t as int][i as int] == counts[t as int][i as int].packets);
                assert(bytes[t as int][i as int] == counts[t as int][i as int].bytes);
            }
            let c = counter.counters[t][i];
            sum = CombinedCount { packets: sum.packets + c.packets, bytes: sum.bytes + c.bytes };
            t = t + 1;
        }
        sum
    }
}

} // verus!
