//! Timer wheels
//!
//! A hierarchical timer wheel: `NUM_LEVELS` levels of `NUM_SLOTS` slots each, where each level
//! has a coarser resolution than the one below it. Every slot holds a doubly-linked list of
//! timers whose entries live in a pool of timer entries ([`slab::Slab`]); every slot has a head
//! entry allocated when the wheel is created, so that stopping a timer never needs to know which
//! level and slot it is in.
//!
//! Level `l` processes one slot at every multiple of `NUM_SLOTS^l` ticks. A timer goes to the
//! lowest level whose range holds the time until it is due, in the slot that the level
//! processes at the last multiple of `NUM_SLOTS^l` no later than that; a timer that is already
//! due goes to the slot processed at the next tick. When a slot of a level above 0 is
//! processed, timers that have not expired yet are re-added at the level and slot that their
//! remaining time calls for ("cascading"), so every timer fires exactly at the tick at which
//! it is due (see `tw_timer_on_time`). Timers too far in the future for every level are put in
//! the last slot of the highest level.
//!
//! # Model
//!
//! The contracts describe the wheel by a [`WheelModel`]: the current time, the position of
//! each level, for each slot (numbered `level * NUM_SLOTS + slot`) the sequence of timer keys in
//! list order, and the expiry time of each timer. The application context of each timer is
//! given by [`TimerWheel::contexts`].

use vstd::prelude::*;
use vstd::arithmetic::power::{pow, lemma_pow_positive};
use super::slab_pool::{
    TimerEntry, TimerEntryData, slab_entries, slab_new, slab_insert, slab_get, slab_set,
    slab_remove,
};

verus! {

/// Add timer error
#[non_exhaustive]
#[derive(Debug)]
pub enum StartTimerError<T> {
    /// The timer is already expired
    Expired(T),
}

/// Timer handle
///
/// Used for stopping a running timer.
#[derive(Debug)]
pub struct TimerHandle(usize);

impl TimerHandle {
    /// The key of the timer entry that the handle refers to
    pub closed spec fn key(&self) -> usize {
        self.0
    }
}

/// The abstract state of a timer wheel
pub struct WheelModel {
    /// The current time in ticks
    pub time: u64,
    /// The current slot of each level
    pub positions: Seq<usize>,
    /// The keys of the timers in each slot, in list order; slot `s` of level `l` is at index
    /// `l * NUM_SLOTS + s`
    pub slots: Seq<Seq<usize>>,
    /// The absolute expiry time of each running timer, by key
    pub expire: Map<usize, u64>,
}

/// The first element of a sequence, if any
pub open spec fn first_of(s: Seq<usize>) -> Option<usize> {
    if s.len() == 0 {
        None
    } else {
        Some(s[0])
    }
}

/// The element after position `j` of a sequence, if any
pub open spec fn next_of(s: Seq<usize>, j: int) -> Option<usize> {
    if j + 1 < s.len() {
        Some(s[j + 1])
    } else {
        None
    }
}

/// `a + b`, or `u64::MAX` when the sum does not fit in a `u64`
pub open spec fn add_saturating(a: u64, b: u64) -> u64 {
    if a + b > u64::MAX {
        u64::MAX
    } else {
        (a + b) as u64
    }
}

/// `t` is the earliest expiry time of the running timers `expire`
pub open spec fn is_earliest(expire: Map<usize, u64>, t: u64) -> bool {
    &&& exists|k: usize| expire.contains_key(k) && expire[k] == t
    &&& forall|k: usize| #[trigger] expire.contains_key(k) ==> t <= expire[k]
}

/// The earliest expiry time of the running timers `expire`, or `None` when no timer runs
pub open spec fn earliest_expiry(expire: Map<usize, u64>) -> Option<u64> {
    if exists|k: usize| expire.contains_key(k) {
        Some(choose|t: u64| is_earliest(expire, t))
    } else {
        None
    }
}

/// There is at most one earliest expiry time, and where there is one it is
/// [`earliest_expiry`]
pub proof fn lemma_earliest_unique(expire: Map<usize, u64>, t: u64)
    requires
        is_earliest(expire, t),
    ensures
        earliest_expiry(expire) == Some(t),
{
    let k = choose|k: usize| expire.contains_key(k) && expire[k] == t;
    let c = choose|c: u64| is_earliest(expire, c);
    assert(is_earliest(expire, c));
    let kc = choose|kc: usize| expire.contains_key(kc) && expire[kc] == c;
    assert(t <= expire[kc]);
    assert(c <= expire[k]);
}

/// Hierarchical timer wheel
///
/// - `T`: The context type associated with each timer
/// - `NUM_LEVELS`: The number of hierarchical levels (each adds a factor of NUM_SLOTS in range)
/// - `NUM_SLOTS`: The number of slots per level
///
/// Level `L` covers `[0, NUM_SLOTS^(L+1)]` ticks; timers further in the future than
/// `NUM_SLOTS^NUM_LEVELS` are placed in the last slot of the highest level and re-added as time
/// progresses.
pub struct TimerWheel<T, const NUM_LEVELS: usize, const NUM_SLOTS: usize> {
    /// Timer entry pool: the list heads and the timers
    timers: slab::Slab<TimerEntry>,
    /// The application context of each timer, by key
    contexts: Vec<Option<T>>,
    /// Key of the head entry of each slot's list, by `level * NUM_SLOTS + slot`
    heads: Vec<usize>,
    /// Current slot index of each level
    positions: Vec<usize>,
    /// Current time in ticks
    current_time: u64,
    /// The keys of the timers of each slot's list, in list order
    lists: Ghost<Seq<Seq<usize>>>,
    /// The slot whose list holds each linked timer
    owner: Ghost<Map<usize, int>>,
}

impl<T, const NUM_LEVELS: usize, const NUM_SLOTS: usize> Default for TimerWheel<
    T,
    NUM_LEVELS,
    NUM_SLOTS,
> {
    /// Create a new timer wheel (see [`TimerWheel::new`])
    fn default() -> (wheel: Self)
        ensures
            NUM_LEVELS * NUM_SLOTS <= usize::MAX ==> wheel.wf() && wheel.model()
                == Self::initial_model() && wheel.contexts() == Map::<usize, T>::empty(),
    {
        if NUM_LEVELS.checked_mul(NUM_SLOTS).is_some() {
            Self::new()
        } else {
            // No wheel with more slots than the address space can be allocated
            TimerWheel {
                timers: slab_new(),
                contexts: Vec::new(),
                heads: Vec::new(),
                positions: Vec::new(),
                current_time: 0,
                lists: Ghost(Seq::empty()),
                owner: Ghost(Map::empty()),
            }
        }
    }
}

impl<T, const NUM_LEVELS: usize, const NUM_SLOTS: usize> TimerWheel<T, NUM_LEVELS, NUM_SLOTS> {
    // ------------------------------------------------------------------------------------------
    // The abstract model
    // ------------------------------------------------------------------------------------------

    /// The total number of slots
    pub open spec fn total_slots() -> int {
        NUM_LEVELS * NUM_SLOTS
    }

    /// The parameters of a wheel that has levels and slots, and whose slots can be numbered
    pub open spec fn params_ok() -> bool {
        &&& 1 <= NUM_LEVELS
        &&& 1 <= NUM_SLOTS
        &&& NUM_LEVELS * NUM_SLOTS <= usize::MAX
        &&& 2 * NUM_SLOTS <= usize::MAX
    }

    /// The lowest level, from `level` upwards, whose range holds a timer `delta` ticks away, or
    /// `NUM_LEVELS` if there is none
    pub open spec fn level_for(delta: int, level: nat) -> nat
        decreases NUM_LEVELS - level,
    {
        if level >= NUM_LEVELS {
            NUM_LEVELS as nat
        } else if delta < pow(NUM_SLOTS as int, level + 1) {
            level
        } else {
            Self::level_for(delta, level + 1)
        }
    }

    /// The slot (as `level * NUM_SLOTS + slot`) in which a timer `delta` ticks after `time` is
    /// placed. A timer that is already due is treated as due at the next tick. At level `l`,
    /// the timer goes to the slot that is processed at the last multiple of `NUM_SLOTS^l` that
    /// is no later than its expiry time, so that it is never put into a slot whose turn has
    /// passed; timers beyond every level go to the slot that the highest level processes last.
    pub open spec fn slot_for(positions: Seq<usize>, time: u64, delta: int) -> int {
        let d = if delta < 1 {
            1
        } else {
            delta
        };
        let level = Self::level_for(d, 0);
        if level < NUM_LEVELS {
            level * NUM_SLOTS + ((time + d) / pow(NUM_SLOTS as int, level) - 1) % (
            NUM_SLOTS as int)
        } else {
            (NUM_LEVELS - 1) * NUM_SLOTS + (positions[NUM_LEVELS - 1] + NUM_SLOTS - 1) % (
            NUM_SLOTS as int)
        }
    }

    /// The model with timer `key` added to the front of the slot its expiry time calls for
    pub open spec fn place(m: WheelModel, key: usize) -> WheelModel {
        let i = Self::slot_for(m.positions, m.time, m.expire[key] - m.time);
        WheelModel {
            time: m.time,
            positions: m.positions,
            slots: m.slots.update(i, seq![key] + m.slots[i]),
            expire: m.expire,
        }
    }

    /// The model with a new timer `key` expiring at `expire_time`
    pub open spec fn add_timer(m: WheelModel, key: usize, expire_time: u64) -> WheelModel {
        Self::place(
            WheelModel {
                time: m.time,
                positions: m.positions,
                slots: m.slots,
                expire: m.expire.insert(key, expire_time),
            },
            key,
        )
    }

    /// The slot that holds timer `key`
    pub open spec fn slot_of(m: WheelModel, key: usize) -> int {
        choose|i: int| 0 <= i < m.slots.len() && m.slots[i].contains(key)
    }

    /// The model with timer `key` removed
    pub open spec fn remove_timer(m: WheelModel, key: usize) -> WheelModel {
        let i = Self::slot_of(m, key);
        WheelModel {
            time: m.time,
            positions: m.positions,
            slots: m.slots.update(i, m.slots[i].remove(m.slots[i].index_of(key))),
            expire: m.expire.remove(key),
        }
    }

    /// Go through the timers of `chain` in order: expired timers are removed and listed,
    /// the others are placed again
    pub open spec fn drain(m: WheelModel, chain: Seq<usize>) -> (WheelModel, Seq<usize>)
        decreases chain.len(),
    {
        if chain.len() == 0 {
            (m, Seq::empty())
        } else {
            let key = chain[0];
            if m.expire[key] <= m.time {
                let rest = Self::drain(
                    WheelModel {
                        time: m.time,
                        positions: m.positions,
                        slots: m.slots,
                        expire: m.expire.remove(key),
                    },
                    chain.drop_first(),
                );
                (rest.0, seq![key] + rest.1)
            } else {
                Self::drain(Self::place(m, key), chain.drop_first())
            }
        }
    }

    /// Process the current slot of `level`, advance the level's position and, if the level
    /// wrapped, process the next level; the timers expired, in order
    pub open spec fn process_model(m: WheelModel, level: nat) -> (WheelModel, Seq<usize>)
        decreases NUM_LEVELS - level,
    {
        if level >= NUM_LEVELS {
            (m, Seq::empty())
        } else {
            let i = level * NUM_SLOTS + m.positions[level as int];
            let drained = Self::drain(
                WheelModel {
                    time: m.time,
                    positions: m.positions,
                    slots: m.slots.update(i, Seq::empty()),
                    expire: m.expire,
                },
                m.slots[i],
            );
            let d = drained.0;
            let new_position = ((d.positions[level as int] + 1) % (NUM_SLOTS as int)) as usize;
            let advanced = WheelModel {
                time: d.time,
                positions: d.positions.update(level as int, new_position),
                slots: d.slots,
                expire: d.expire,
            };
            if new_position == 0 {
                let cascaded = Self::process_model(advanced, level + 1);
                (cascaded.0, drained.1 + cascaded.1)
            } else {
                (advanced, drained.1)
            }
        }
    }

    /// Advance time by one tick
    pub open spec fn tick_model(m: WheelModel) -> (WheelModel, Seq<usize>) {
        Self::process_model(
            WheelModel {
                time: (m.time + 1) as u64,
                positions: m.positions,
                slots: m.slots,
                expire: m.expire,
            },
            0,
        )
    }

    /// Advance time by `ticks` ticks; the timers expired, in order
    pub open spec fn expire_model(m: WheelModel, ticks: nat) -> (WheelModel, Seq<usize>)
        decreases ticks,
    {
        if ticks == 0 {
            (m, Seq::empty())
        } else {
            let before = Self::expire_model(m, (ticks - 1) as nat);
            let last = Self::tick_model(before.0);
            (last.0, before.1 + last.1)
        }
    }

    /// The state of a new wheel
    pub open spec fn initial_model() -> WheelModel {
        WheelModel {
            time: 0,
            positions: Seq::new(NUM_LEVELS as nat, |l: int| 0usize),
            slots: Seq::new((NUM_LEVELS * NUM_SLOTS) as nat, |i: int| Seq::<usize>::empty()),
            expire: Map::empty(),
        }
    }

    /// The keys of `chain` and of the slots are each in one place only, and are exactly the
    /// running timers
    pub open spec fn partitioned(m: WheelModel, chain: Seq<usize>) -> bool {
        let n = NUM_LEVELS * NUM_SLOTS;
        &&& m.slots.len() == n
        &&& forall|i: int, j: int, a: int, b: int|
            0 <= i < n && 0 <= j < n && 0 <= a < m.slots[i].len() && 0 <= b < m.slots[j].len()
                && #[trigger] m.slots[i][a] == #[trigger] m.slots[j][b] ==> i == j && a == b
        &&& chain.no_duplicates()
        &&& forall|i: int, a: int|
            0 <= i < n && 0 <= a < m.slots[i].len() ==> !chain.contains(#[trigger] m.slots[i][a])
        &&& forall|i: int, a: int|
            0 <= i < n && 0 <= a < m.slots[i].len() ==> m.expire.contains_key(
                #[trigger] m.slots[i][a],
            )
        &&& forall|a: int| 0 <= a < chain.len() ==> m.expire.contains_key(#[trigger] chain[a])
        &&& forall|k: usize| #[trigger]
            m.expire.contains_key(k) ==> chain.contains(k) || exists|i: int|
                0 <= i < n && #[trigger] m.slots[i].contains(k)
    }

    /// The positions are within their levels
    pub open spec fn positions_ok(m: WheelModel) -> bool {
        &&& m.positions.len() == NUM_LEVELS
        &&& forall|l: int| 0 <= l < NUM_LEVELS ==> #[trigger] m.positions[l] < NUM_SLOTS
    }

    /// A well-formed model: every running timer is in exactly one slot, and level 0 is at the
    /// slot of the current time
    pub open spec fn model_wf(m: WheelModel) -> bool {
        &&& Self::partitioned(m, Seq::empty())
        &&& Self::positions_ok(m)
        &&& NUM_LEVELS >= 1 && NUM_SLOTS >= 1 ==> m.positions[0] == m.time % NUM_SLOTS as u64
    }

    // ------------------------------------------------------------------------------------------
    // The concrete state
    // ------------------------------------------------------------------------------------------

    /// The timer entry pool
    pub closed spec fn entries(&self) -> Map<usize, TimerEntry> {
        slab_entries(self.timers)
    }

    /// Whether `key` holds a timer (rather than a list head or nothing)
    pub closed spec fn holds_timer(&self, key: usize) -> bool {
        self.entries().contains_key(key) && self.entries()[key].data is Timer
    }

    /// The abstract state of the wheel
    pub closed spec fn model(&self) -> WheelModel {
        WheelModel {
            time: self.current_time,
            positions: self.positions@,
            slots: self.lists@,
            expire: Map::new(
                |k: usize| self.holds_timer(k),
                |k: usize| self.entries()[k].data->expire_time,
            ),
        }
    }

    /// The application context of each running timer
    pub closed spec fn contexts(&self) -> Map<usize, T> {
        Map::new(|k: usize| self.holds_timer(k), |k: usize| self.contexts@[k as int]->0)
    }

    spec fn head_ok(&self, i: int) -> bool {
        let h = self.heads@[i];
        &&& self.entries().contains_key(h)
        &&& self.entries()[h].data is Head
        &&& self.entries()[h].next == first_of(self.lists@[i])
    }

    spec fn node_ok(&self, i: int, j: int) -> bool {
        let list = self.lists@[i];
        let k = list[j];
        &&& self.holds_timer(k)
        &&& self.entries()[k].next == next_of(list, j)
        &&& self.entries()[k].previous == Some(
            if j == 0 {
                self.heads@[i]
            } else {
                list[j - 1]
            },
        )
        &&& self.owner@.contains_key(k)
        &&& self.owner@[k] == i
    }

    /// The invariant of the wheel, where the timers of `extra` are held in the pool but linked
    /// into no slot
    spec fn inv(&self, extra: Seq<usize>) -> bool {
        let n = NUM_LEVELS * NUM_SLOTS;
        &&& self.heads@.len() == n
        &&& self.positions@.len() == NUM_LEVELS
        &&& self.lists@.len() == n
        &&& forall|l: int|
            0 <= l < NUM_LEVELS && NUM_SLOTS >= 1 ==> #[trigger] self.positions@[l] < NUM_SLOTS
        &&& forall|i: int| 0 <= i < n ==> #[trigger] self.head_ok(i)
        &&& forall|i: int, j: int|
            0 <= i < n && 0 <= j < n && i != j ==> #[trigger] self.heads@[i]
                != #[trigger] self.heads@[j]
        &&& forall|i: int, j: int|
            0 <= i < n && 0 <= j < self.lists@[i].len() ==> #[trigger] self.node_ok(i, j)
        &&& forall|i: int| 0 <= i < n ==> #[trigger] self.lists@[i].no_duplicates()
        &&& forall|k: usize| #[trigger]
            self.owner@.contains_key(k) ==> 0 <= self.owner@[k] < n
                && self.lists@[self.owner@[k]].contains(k)
        &&& extra.no_duplicates()
        &&& forall|j: int|
            0 <= j < extra.len() ==> self.holds_timer(#[trigger] extra[j])
                && !self.owner@.contains_key(extra[j])
        &&& forall|k: usize| #[trigger]
            self.holds_timer(k) ==> self.owner@.contains_key(k) || extra.contains(k)
        &&& forall|k: usize| #[trigger]
            self.holds_timer(k) ==> k < self.contexts@.len() && self.contexts@[k as int] is Some
    }

    /// Level 0 is at the slot of the current time
    spec fn time_synced(&self) -> bool {
        NUM_LEVELS >= 1 && NUM_SLOTS >= 1 ==> self.positions@[0] == self.current_time
            % NUM_SLOTS as u64
    }

    /// The wheel is well formed
    pub closed spec fn wf(&self) -> bool {
        &&& self.inv(Seq::empty())
        &&& self.time_synced()
        &&& Self::params_ok() ==> Self::synced(self.model()) && Self::on_time(self.model())
    }

    // ------------------------------------------------------------------------------------------
    // Operations
    // ------------------------------------------------------------------------------------------

    /// Create a new timer wheel
    pub fn new() -> (wheel: Self)
        requires
            NUM_LEVELS * NUM_SLOTS <= usize::MAX,
        ensures
            wheel.wf(),
            wheel.model() == Self::initial_model(),
            wheel.contexts() == Map::<usize, T>::empty(),
    {
        let n = NUM_LEVELS * NUM_SLOTS;
        let mut timers = slab_new();
        let mut heads: Vec<usize> = Vec::new();
        // Populate all slots with a head entry - this allows us to remove a timer later without
        // needing to keep track of which level and slot the timer is added to.
        let mut i: usize = 0;
        while i < n
            invariant
                i <= n,
                n == NUM_LEVELS * NUM_SLOTS,
                heads@.len() == i,
                forall|k: usize| #[trigger]
                    slab_entries(timers).contains_key(k) <==> heads@.contains(k),
                forall|a: int|
                    0 <= a < i ==> slab_entries(timers)[#[trigger] heads@[a]] == (TimerEntry {
                        next: None,
                        previous: None,
                        data: TimerEntryData::Head,
                    }),
                forall|a: int, b: int|
                    0 <= a < i && 0 <= b < i && a != b ==> #[trigger] heads@[a] != #[trigger] heads@[b],
            decreases n - i,
        {
            let key = slab_insert(
                &mut timers,
                TimerEntry { next: None, previous: None, data: TimerEntryData::Head },
            );
            proof {
                assert forall|a: int| 0 <= a < i implies heads@[a] != key by {
                    assert(heads@.contains(heads@[a]));
                }
            }
            let ghost before = heads@;
            heads.push(key);
            proof {
                assert forall|k: usize| #[trigger]
                    slab_entries(timers).contains_key(k) <==> heads@.contains(k) by {
                    if k == key {
                        assert(heads@[i as int] == key);
                    }
                    if heads@.contains(k) && k != key {
                        let a = choose|a: int| 0 <= a < heads@.len() && heads@[a] == k;
                        assert(a < i);
                        assert(before[a] == k);
                        assert(before.contains(k));
                    }
                    if slab_entries(timers).contains_key(k) && k != key {
                        let a = choose|a: int| 0 <= a < before.len() && before[a] == k;
                        assert(heads@[a] == k);
                    }
                }
            }
            i = i + 1;
        }
        let mut positions: Vec<usize> = Vec::new();
        let mut l: usize = 0;
        while l < NUM_LEVELS
            invariant
                l <= NUM_LEVELS,
                positions@ == Seq::new(l as nat, |x: int| 0usize),
            decreases NUM_LEVELS - l,
        {
            positions.push(0);
            l = l + 1;
        }
        let wheel = TimerWheel {
            timers,
            contexts: Vec::new(),
            heads,
            positions,
            current_time: 0,
            lists: Ghost(Seq::new(n as nat, |i: int| Seq::<usize>::empty())),
            owner: Ghost(Map::empty()),
        };
        proof {
            assert forall|i: int| 0 <= i < n implies #[trigger] wheel.head_ok(i) by {
                assert(wheel.heads@.contains(wheel.heads@[i]));
            }
            assert forall|k: usize| #[trigger] wheel.holds_timer(k) implies false by {
                let a = choose|a: int| 0 <= a < wheel.heads@.len() && wheel.heads@[a] == k;
            }
            assert(wheel.model().expire =~= Map::<usize, u64>::empty());
            assert(wheel.model().positions =~= Self::initial_model().positions);
            assert(wheel.contexts() =~= Map::<usize, T>::empty());
            assert(wheel.model() == Self::initial_model());
            if Self::params_ok() {
                Self::lemma_initial_on_time();
            }
        }
        wheel
    }

    /// A timer linked into a slot is held in the pool
    proof fn lemma_owned_holds_timer(&self, extra: Seq<usize>, k: usize)
        requires
            self.inv(extra),
            self.owner@.contains_key(k),
        ensures
            self.holds_timer(k),
    {
        let i = self.owner@[k];
        let j = choose|j: int| 0 <= j < self.lists@[i].len() && self.lists@[i][j] == k;
        assert(self.node_ok(i, j));
    }

    /// Store a new, unlinked timer and its context in the pool
    fn insert_timer(&mut self, expire_time: u64, context: T) -> (key: usize)
        requires
            old(self).inv(Seq::empty()),
        ensures
            final(self).inv(seq![key]),
            !old(self).entries().contains_key(key),
            final(self).entries() == old(self).entries().insert(
                key,
                TimerEntry {
                    next: None,
                    previous: None,
                    data: TimerEntryData::Timer { expire_time },
                },
            ),
            final(self).model() == (WheelModel {
                time: old(self).model().time,
                positions: old(self).model().positions,
                slots: old(self).model().slots,
                expire: old(self).model().expire.insert(key, expire_time),
            }),
            final(self).contexts() == old(self).contexts().insert(key, context),
            final(self).heads == old(self).heads,
    {
        let key = slab_insert(
            &mut self.timers,
            TimerEntry { next: None, previous: None, data: TimerEntryData::Timer { expire_time } },
        );
        let ghost c0 = self.contexts@;
        let ghost s0 = *self;
        while self.contexts.len() <= key
            invariant
                self.timers == s0.timers,
                self.heads == s0.heads,
                self.positions == s0.positions,
                self.current_time == s0.current_time,
                self.lists == s0.lists,
                self.owner == s0.owner,
                self.contexts@.len() >= c0.len(),
                forall|i: int| 0 <= i < c0.len() ==> #[trigger] self.contexts@[i] == c0[i],
            decreases key + 1 - self.contexts@.len(),
        {
            self.contexts.push(None);
        }
        self.contexts.set(key, Some(context));
        proof {
            assert(!old(self).owner@.contains_key(key)) by {
                if old(self).owner@.contains_key(key) {
                    old(self).lemma_owned_holds_timer(Seq::empty(), key);
                }
            }
            let extra = seq![key];
            assert(extra[0] == key);
            assert forall|i: int| 0 <= i < NUM_LEVELS * NUM_SLOTS implies #[trigger] self.head_ok(
                i,
            ) by {
                assert(old(self).head_ok(i));
            }
            assert forall|i: int, j: int|
                0 <= i < NUM_LEVELS * NUM_SLOTS && 0 <= j < self.lists@[i].len() implies
                #[trigger] self.node_ok(i, j) by {
                assert(old(self).node_ok(i, j));
            }
            assert forall|k: usize| #[trigger] self.holds_timer(k) implies self.owner@.contains_key(k)
                || extra.contains(k) by {
                if k != key {
                    assert(old(self).holds_timer(k));
                }
            }
            assert forall|k: usize| #[trigger] self.holds_timer(k) implies k < self.contexts@.len()
                && self.contexts@[k as int] is Some by {
                if k != key {
                    assert(old(self).holds_timer(k));
                }
            }
            assert(self.model().expire =~= old(self).model().expire.insert(key, expire_time));
            assert forall|k: usize| #[trigger] self.holds_timer(k) implies self.contexts()[k] == old(self).contexts().insert(key, context)[k] by {
                if k != key {
                    assert(old(self).holds_timer(k));
                }
            }
            assert(self.contexts() =~= old(self).contexts().insert(key, context));
        }
        key
    }

    /// Start a timer which expires after the given interval
    ///
    /// The timer is one-shot, not periodic.
    ///
    /// `interval` is the interval past the last time timers were expired after which this timer
    /// should expire. `context` is a context to associate with the timer
    ///
    /// This has a time complexity of O(1).
    pub fn start_timer(&mut self, interval: u64, context: T) -> (handle: TimerHandle)
        requires
            old(self).wf(),
            Self::params_ok(),
        ensures
            final(self).wf(),
            !old(self).model().expire.contains_key(handle.key()),
            final(self).model() == Self::add_timer(
                old(self).model(),
                handle.key(),
                add_saturating(old(self).model().time, interval),
            ),
            final(self).contexts() == old(self).contexts().insert(handle.key(), context),
    {
        let expire_time = self.current_time.saturating_add(interval);
        let key = self.insert_timer(expire_time, context);
        proof {
            assert(seq![key] == seq![key] + Seq::<usize>::empty());
        }
        let ghost mid = *self;
        self.link_timer(key, Ghost(Seq::empty()));
        proof {
            self.lemma_contexts_frame(&mid);
            old(self).lemma_model_wf();
            Self::lemma_add_on_time(old(self).model(), key, expire_time);
        }
        TimerHandle(key)
    }

    /// Start a timer which expires at an absolute time
    ///
    /// `expire_time` is the absolute time after which this timer should expire. `context` is a
    /// context to associate with the timer
    ///
    /// This has a time complexity of O(1).
    pub fn start_timer_absolute(&mut self, expire_time: u64, context: T) -> (r: Result<
        TimerHandle,
        StartTimerError<T>,
    >)
        requires
            old(self).wf(),
            Self::params_ok(),
        ensures
            final(self).wf(),
            expire_time <= old(self).model().time ==> r == Err::<TimerHandle, StartTimerError<T>>(
                StartTimerError::Expired(context),
            ) && final(self).model() == old(self).model() && final(self).contexts() == old(self).contexts(),
            expire_time > old(self).model().time ==> r is Ok && !old(self).model().expire.contains_key(r->Ok_0.key()) && final(self).model() == Self::add_timer(
                old(self).model(),
                r->Ok_0.key(),
                expire_time,
            ) && final(self).contexts() == old(self).contexts().insert(r->Ok_0.key(), context),
    {
        if expire_time <= self.current_time {
            return Err(StartTimerError::Expired(context));
        }
        let key = self.insert_timer(expire_time, context);
        proof {
            assert(seq![key] == seq![key] + Seq::<usize>::empty());
        }
        let ghost mid = *self;
        self.link_timer(key, Ghost(Seq::empty()));
        proof {
            self.lemma_contexts_frame(&mid);
            old(self).lemma_model_wf();
            Self::lemma_add_on_time(old(self).model(), key, expire_time);
        }
        Ok(TimerHandle(key))
    }

    /// Stop a running timer, giving back its context
    ///
    /// Gives `None` when the timer has already expired or been stopped.
    ///
    /// This has a time complexity of O(1).
    pub fn stop_timer(&mut self, handle: TimerHandle) -> (r: Option<T>)
        requires
            old(self).wf(),
        ensures
            final(self).wf(),
            old(self).model().expire.contains_key(handle.key()) ==> r == Some(
                old(self).contexts()[handle.key()],
            ) && final(self).model() == Self::remove_timer(old(self).model(), handle.key())
                && final(self).contexts() == old(self).contexts().remove(handle.key()),
            !old(self).model().expire.contains_key(handle.key()) ==> r is None && final(self).model() == old(self).model() && final(self).contexts() == old(self).contexts(),
    {
        let key = handle.0;
        let entry = match slab_get(&self.timers, key) {
            Some(e) => *e,
            None => {
                return None;
            },
        };
        // Refuse to remove a special head entry
        if let TimerEntryData::Head = entry.data {
            return None;
        }
        let ghost e0 = self.entries();
        let ghost l0 = self.lists@;
        let ghost o0 = self.owner@;
        let ghost i = o0[key];
        let ghost list = l0[i];
        let ghost j = list.index_of(key);
        proof {
            assert(self.holds_timer(key));
            assert(list.contains(key));
            assert(self.node_ok(i, j));
            assert(self.head_ok(i));
            if j + 1 < list.len() {
                assert(self.node_ok(i, j + 1));
            }
            if j >= 1 {
                assert(self.node_ok(i, j - 1));
            }
        }
        let timer_previous = entry.previous.unwrap();
        let timer_next = entry.next;
        // Unlink the timer from the doubly-linked list; the previous entry is either a timer or
        // the head of the list
        let previous_entry = *slab_get(&self.timers, timer_previous).unwrap();
        slab_set(
            &mut self.timers,
            timer_previous,
            TimerEntry { next: timer_next, previous: previous_entry.previous, data: previous_entry.data },
        );
        if let Some(n) = timer_next {
            let next_entry = *slab_get(&self.timers, n).unwrap();
            slab_set(
                &mut self.timers,
                n,
                TimerEntry { next: next_entry.next, previous: Some(timer_previous), data: next_entry.data },
            );
        }
        let _ = slab_remove(&mut self.timers, key);
        let context = self.contexts[key].take();
        proof {
            let n = NUM_LEVELS * NUM_SLOTS;
            let new_list = list.remove(j);
            let e1 = self.entries();
            self.lists@ = l0.update(i, new_list);
            self.owner@ = o0.remove(key);
            assert(0 <= i < n);
            assert(list.no_duplicates());
            let head_key = self.heads@[i];
            assert(timer_previous != key);
            if let Some(nk) = timer_next {
                assert(nk == list[j + 1]);
                assert(nk != key);
                assert(nk != timer_previous);
            }
            assert forall|k: usize| #![trigger e1.contains_key(k)] #![trigger e1[k]]
                e1.contains_key(k) == (e0.contains_key(k) && k != key) && (e1.contains_key(k)
                    ==> e1[k].data == e0[k].data) && (e1.contains_key(k) && k != timer_previous
                    && Some(k) != timer_next ==> e1[k] == e0[k]) by {}
            assert(e1[timer_previous].next == timer_next);
            assert(e1[timer_previous].previous == e0[timer_previous].previous);
            if let Some(nk) = timer_next {
                assert(e1[nk].previous == Some(timer_previous));
                assert(e1[nk].next == e0[nk].next);
            }
            assert forall|x: int| 0 <= x < new_list.len() implies #[trigger] new_list[x] == (if x
                < j {
                list[x]
            } else {
                list[x + 1]
            }) by {}
            assert forall|ii: int| 0 <= ii < n implies #[trigger] self.head_ok(ii) by {
                assert(old(self).head_ok(ii));
                if ii != i {
                    assert(self.heads@[ii] != head_key);
                    if let Some(nk) = timer_next {
                        assert(old(self).node_ok(i, j + 1));
                    }
                } else if j >= 1 {
                    assert(new_list[0] == list[0]);
                }
            }
            assert forall|ii: int, x: int|
                0 <= ii < n && 0 <= x < self.lists@[ii].len() implies #[trigger] self.node_ok(
                ii,
                x,
            ) by {
                if ii == i {
                    if x < j {
                        assert(old(self).node_ok(i, x));
                        assert(list[x] != key);
                        if x + 1 < j {
                            assert(new_list[x + 1] == list[x + 1]);
                            assert(list[x] != timer_previous) by {
                                assert(old(self).node_ok(i, j - 1));
                            }
                            if let Some(nk) = timer_next {
                                assert(list[x] != nk);
                            }
                        } else {
                            assert(list[x] == timer_previous);
                            if j + 1 < list.len() {
                                assert(new_list[x + 1] == list[j + 1]);
                            }
                        }
                        if x >= 1 {
                            assert(new_list[x - 1] == list[x - 1]);
                        }
                    } else {
                        assert(old(self).node_ok(i, x + 1));
                        assert(list[x + 1] != key);
                        if x + 2 < list.len() {
                            assert(new_list[x + 1] == list[x + 2]);
                        }
                        if x == j {
                            assert(timer_next == Some(list[x + 1]));
                            if x >= 1 {
                                assert(new_list[x - 1] == list[x - 1]);
                            }
                        } else {
                            assert(new_list[x - 1] == list[x]);
                            assert(list[x + 1] != timer_previous) by {
                                if j >= 1 {
                                    assert(old(self).node_ok(i, j - 1));
                                }
                            }
                            if let Some(nk) = timer_next {
                                assert(list[x + 1] != nk);
                            }
                        }
                    }
                } else {
                    assert(old(self).node_ok(ii, x));
                    let k = l0[ii][x];
                    assert(k != key);
                    assert(k != timer_previous) by {
                        if j >= 1 {
                            assert(old(self).node_ok(i, j - 1));
                        }
                    }
                    if let Some(nk) = timer_next {
                        assert(old(self).node_ok(i, j + 1));
                        assert(k != nk);
                    }
                    assert(old(self).head_ok(ii));
                }
            }
            assert forall|ii: int| 0 <= ii < n implies #[trigger] self.lists@[ii].no_duplicates() by {
                assert(old(self).lists@[ii].no_duplicates());
            }
            assert forall|k: usize| #[trigger] self.owner@.contains_key(k) implies 0
                <= self.owner@[k] < n && self.lists@[self.owner@[k]].contains(k) by {
                let ii = o0[k];
                if ii == i {
                    let x = choose|x: int| 0 <= x < list.len() && list[x] == k;
                    assert(x != j);
                    if x < j {
                        assert(new_list[x] == k);
                    } else {
                        assert(new_list[x - 1] == k);
                    }
                }
            }
            assert forall|k: usize| #[trigger] self.holds_timer(k) implies self.owner@.contains_key(k)
                || Seq::<usize>::empty().contains(k) by {
                assert(old(self).holds_timer(k));
            }
            assert forall|k: usize| #[trigger] self.holds_timer(k) implies k < self.contexts@.len()
                && self.contexts@[k as int] is Some by {
                assert(old(self).holds_timer(k));
            }
            assert(Self::slot_of(old(self).model(), key) == i) by {
                let ii = Self::slot_of(old(self).model(), key);
                assert(0 <= ii < l0.len() && l0[ii].contains(key));
                let x = choose|x: int| 0 <= x < l0[ii].len() && l0[ii][x] == key;
                assert(old(self).node_ok(ii, x));
            }
            assert(self.model().expire =~= old(self).model().expire.remove(key));
            assert(self.contexts() =~= old(self).contexts().remove(key));
            if Self::params_ok() {
                old(self).lemma_model_wf();
                Self::lemma_remove_on_time(old(self).model(), key);
            }
        }
        context
    }

    /// Remove the unlinked timer `key` from the pool, giving back its context
    fn remove_unlinked(&mut self, key: usize, Ghost(rest): Ghost<Seq<usize>>) -> (context: T)
        requires
            old(self).inv(seq![key] + rest),
        ensures
            final(self).inv(rest),
            context == old(self).contexts()[key],
            final(self).model() == (WheelModel {
                time: old(self).model().time,
                positions: old(self).model().positions,
                slots: old(self).model().slots,
                expire: old(self).model().expire.remove(key),
            }),
            final(self).heads == old(self).heads,
            final(self).positions == old(self).positions,
            final(self).current_time == old(self).current_time,
            forall|k: usize| #[trigger]
                rest.contains(k) ==> final(self).entries()[k] == old(self).entries()[k],
            forall|k: usize| #[trigger]
                final(self).holds_timer(k) ==> old(self).holds_timer(k) && final(self).contexts@[k as int]
                    == old(self).contexts@[k as int],
    {
        let ghost extra = seq![key] + rest;
        assert(extra[0] == key);
        let _ = slab_remove(&mut self.timers, key);
        let context = self.contexts[key].take();
        proof {
            let n = NUM_LEVELS * NUM_SLOTS;
            assert forall|i: int| 0 <= i < n implies #[trigger] self.head_ok(i) by {
                assert(old(self).head_ok(i));
            }
            assert forall|i: int, j: int|
                0 <= i < n && 0 <= j < self.lists@[i].len() implies #[trigger] self.node_ok(i, j) by {
                assert(old(self).node_ok(i, j));
            }
            assert forall|j: int| 0 <= j < rest.len() implies self.holds_timer(#[trigger] rest[j])
                && !self.owner@.contains_key(rest[j]) by {
                assert(extra[j + 1] == rest[j]);
            }
            assert(rest.no_duplicates()) by {
                assert forall|a: int, b: int|
                    0 <= a < rest.len() && 0 <= b < rest.len() && a != b implies rest[a]
                    != rest[b] by {
                    assert(extra[a + 1] == rest[a]);
                    assert(extra[b + 1] == rest[b]);
                }
            }
            assert forall|k: usize| #[trigger] self.holds_timer(k) implies self.owner@.contains_key(k)
                || rest.contains(k) by {
                assert(old(self).holds_timer(k));
                if !self.owner@.contains_key(k) {
                    let j = choose|j: int| 0 <= j < extra.len() && extra[j] == k;
                    assert(rest[j - 1] == k);
                }
            }
            assert forall|k: usize| #[trigger] self.holds_timer(k) implies k < self.contexts@.len()
                && self.contexts@[k as int] is Some by {
                assert(old(self).holds_timer(k));
            }
            assert forall|k: usize| #[trigger] rest.contains(k) implies self.entries()[k]
                == old(self).entries()[k] by {
                let j = choose|j: int| 0 <= j < rest.len() && rest[j] == k;
                assert(extra[j + 1] == k);
            }
            assert(self.model().expire =~= old(self).model().expire.remove(key));
        }
        context.unwrap()
    }

    /// The links of the unlinked timers of `chain`, which start at `first`, follow `chain`
    spec fn chain_ok(&self, chain: Seq<usize>, first: Option<usize>) -> bool {
        &&& first == first_of(chain)
        &&& forall|j: int|
            0 <= j < chain.len() ==> #[trigger] self.entries()[chain[j]].next == next_of(chain, j)
    }

    /// Process a level's current slot, expire timers, and cascade if needed
    fn process_level(&mut self, level: usize) -> (expired: Vec<T>)
        requires
            Self::params_ok(),
            old(self).inv(Seq::empty()),
            level <= NUM_LEVELS,
        ensures
            final(self).inv(Seq::empty()),
            final(self).model() == Self::process_model(old(self).model(), level as nat).0,
            expired@ == Self::process_model(old(self).model(), level as nat).1.map_values(
                |k: usize| old(self).contexts()[k],
            ),
            forall|k: usize| #[trigger]
                final(self).holds_timer(k) ==> old(self).holds_timer(k) && final(self).contexts@[k as int]
                    == old(self).contexts@[k as int],
            final(self).heads == old(self).heads,
            forall|x: int|
                0 <= x < Self::process_model(old(self).model(), level as nat).1.len() ==> old(self).holds_timer(
                    #[trigger] Self::process_model(old(self).model(), level as nat).1[x],
                ),
        decreases NUM_LEVELS - level,
    {
        let mut expired_contexts: Vec<T> = Vec::new();
        if level >= NUM_LEVELS {
            return expired_contexts;
        }
        // Extract timers from current slot

        let slot = self.positions[level];
        proof {
            assert(level * NUM_SLOTS + slot < NUM_LEVELS * NUM_SLOTS) by (nonlinear_arith)
                requires
                    level < NUM_LEVELS,
                    slot < NUM_SLOTS,
            ;
        }
        let idx = level * NUM_SLOTS + slot;
        let head_key = self.heads[idx];
        assert(self.head_ok(idx as int));
        let head = *slab_get(&self.timers, head_key).unwrap();
        let mut timer_index = head.next;
        let ghost e0 = self.entries();
        let ghost l0 = self.lists@;
        let ghost o0 = self.owner@;
        let ghost chain = l0[idx as int];
        slab_set(
            &mut self.timers,
            head_key,
            TimerEntry { next: None, previous: head.previous, data: head.data },
        );
        proof {
            let n = NUM_LEVELS * NUM_SLOTS;
            self.lists@ = l0.update(idx as int, Seq::empty());
            self.owner@ = o0.remove_keys(chain.to_set());
            let e1 = self.entries();
            assert forall|k: usize| #![trigger e1.contains_key(k)] #![trigger e1[k]]
                e1.contains_key(k) == e0.contains_key(k) && (e0.contains_key(k) ==> e1[k].data
                    == e0[k].data) && (e0.contains_key(k) && k != head_key ==> e1[k] == e0[k]) by {}
            assert forall|i: int| 0 <= i < n implies #[trigger] self.head_ok(i) by {
                assert(old(self).head_ok(i));
            }
            assert forall|i: int, j: int|
                0 <= i < n && 0 <= j < self.lists@[i].len() implies #[trigger] self.node_ok(i, j) by {
                assert(old(self).node_ok(i, j));
                assert(i != idx);
                assert(!chain.contains(l0[i][j])) by {
                    if chain.contains(l0[i][j]) {
                        let x = choose|x: int| 0 <= x < chain.len() && chain[x] == l0[i][j];
                        assert(old(self).node_ok(idx as int, x));
                    }
                }
                assert(old(self).head_ok(i));
            }
            assert forall|i: int| 0 <= i < n implies #[trigger] self.lists@[i].no_duplicates() by {
                assert(old(self).lists@[i].no_duplicates());
            }
            assert forall|k: usize| #[trigger] self.owner@.contains_key(k) implies 0
                <= self.owner@[k] < n && self.lists@[self.owner@[k]].contains(k) by {
                assert(o0.contains_key(k));
                if o0[k] == idx {
                    assert(chain.contains(k));
                }
            }
            assert forall|j: int| 0 <= j < chain.len() implies self.holds_timer(#[trigger] chain[j])
                && !self.owner@.contains_key(chain[j]) by {
                assert(old(self).node_ok(idx as int, j));
            }
            assert forall|k: usize| #[trigger] self.holds_timer(k) implies self.owner@.contains_key(k)
                || chain.contains(k) by {
                assert(old(self).holds_timer(k));
            }
            assert forall|k: usize| #[trigger] self.holds_timer(k) implies k < self.contexts@.len()
                && self.contexts@[k as int] is Some by {
                assert(old(self).holds_timer(k));
            }
            assert forall|j: int| 0 <= j < chain.len() implies #[trigger] self.entries()[chain[j]].next
                == next_of(chain, j) by {
                assert(old(self).node_ok(idx as int, j));
            }
            assert(self.model().expire =~= old(self).model().expire);
        }
        let ghost start = self.model();
        let ghost target = Self::drain(start, chain);
        let ghost mut pending = chain;
        let ghost mut acc: Seq<usize> = Seq::empty();
        // Process each timer
        while timer_index.is_some()
            invariant
                Self::params_ok(),
                self.inv(pending),
                self.chain_ok(pending, timer_index),
                Self::drain(self.model(), pending).0 == target.0,
                acc + Self::drain(self.model(), pending).1 == target.1,
                expired_contexts@ == acc.map_values(|k: usize| old(self).contexts()[k]),
                forall|x: int| 0 <= x < acc.len() ==> old(self).holds_timer(#[trigger] acc[x]),
                forall|k: usize| #[trigger]
                    self.holds_timer(k) ==> old(self).holds_timer(k) && self.contexts@[k as int]
                        == old(self).contexts@[k as int],
                self.heads == old(self).heads,
                self.positions == old(self).positions,
                self.current_time == old(self).current_time,
            decreases pending.len(),
        {
            let key = timer_index.unwrap();
            assert(pending[0] == key);
            let entry = *slab_get(&self.timers, key).unwrap();
            let next_timer_index = entry.next;
            let ghost rest = pending.drop_first();
            assert(pending == seq![key] + rest);
            let ghost before = self.model();
            let expire_time = match entry.data {
                TimerEntryData::Timer { expire_time } => expire_time,
                TimerEntryData::Head => {
                    proof {
                        assert(false);
                    }
                    0
                },
            };
            // Check that the timer has actually expired: a timer started at a level above 0 or
            // too far in the future may not have, and is then started again at the appropriate
            // level and slot.
            if expire_time <= self.current_time {
                let context = self.remove_unlinked(key, Ghost(rest));
                expired_contexts.push(context);
                proof {
                    assert(old(self).holds_timer(key));
                    assert(context == old(self).contexts()[key]);
                    acc = acc.push(key);
                    assert forall|x: int| 0 <= x < acc.len() implies old(self).holds_timer(
                        #[trigger] acc[x],
                    ) by {}
                    assert(Self::drain(before, pending).1 == seq![key] + Self::drain(
                        self.model(),
                        rest,
                    ).1);
                    assert(acc + Self::drain(self.model(), rest).1 == target.1);
                    assert(expired_contexts@ =~= acc.map_values(|k: usize| old(self).contexts()[k]));
                }
            } else {
                self.link_timer(key, Ghost(rest));
            }
            proof {
                assert forall|j: int| 0 <= j < rest.len() implies #[trigger] self.entries()[rest[j]].next
                    == next_of(rest, j) by {
                    assert(pending[j + 1] == rest[j]);
                    assert(rest.contains(rest[j]));
                    if j + 1 < rest.len() {
                        assert(pending[j + 2] == rest[j + 1]);
                    }
                }
                if rest.len() > 0 {
                    assert(pending[1] == rest[0]);
                }
                pending = rest;
            }
            timer_index = next_timer_index;
        }
        proof {
            assert(pending.len() == 0);
            assert(pending =~= Seq::<usize>::empty());
            assert(acc =~= target.1);
            assert(self.model() == target.0);
        }
        let ghost pre = *self;
        // Advance position
        let new_position = (self.positions[level] + 1) % NUM_SLOTS;
        self.positions.set(level, new_position);
        proof {
            assert forall|l: int|
                0 <= l < NUM_LEVELS && NUM_SLOTS >= 1 implies #[trigger] self.positions@[l]
                < NUM_SLOTS by {}
            assert forall|i: int| 0 <= i < NUM_LEVELS * NUM_SLOTS implies #[trigger] self.head_ok(
                i,
            ) by {
                assert(pre.head_ok(i));
            }
            assert forall|i: int, j: int|
                0 <= i < NUM_LEVELS * NUM_SLOTS && 0 <= j < self.lists@[i].len() implies
                #[trigger] self.node_ok(i, j) by {
                assert(pre.node_ok(i, j));
            }
            assert(self.model().expire == pre.model().expire);
            assert(pre.inv(Seq::empty()));
            assert forall|k: usize| #[trigger] self.holds_timer(k) implies self.owner@.contains_key(k)
                || Seq::<usize>::empty().contains(k) by {
                assert(pre.holds_timer(k));
            }
            assert forall|k: usize| #[trigger] self.holds_timer(k) implies k < self.contexts@.len()
                && self.contexts@[k as int] is Some by {
                assert(pre.holds_timer(k));
            }
            assert forall|k: usize| #[trigger] self.owner@.contains_key(k) implies 0
                <= self.owner@[k] < NUM_LEVELS * NUM_SLOTS && self.lists@[self.owner@[k]].contains(k) by {
                assert(pre.owner@.contains_key(k));
            }
            assert(self.inv(Seq::empty()));
            assert(self.model() == (WheelModel {
                time: target.0.time,
                positions: target.0.positions.update(level as int, new_position),
                slots: target.0.slots,
                expire: target.0.expire,
            }));
        }
        proof {
            assert forall|k: usize| #[trigger] self.holds_timer(k) implies old(self).holds_timer(k)
                && self.contexts@[k as int] == old(self).contexts@[k as int] by {
                assert(pre.holds_timer(k));
            }
        }
        // Cascade to next level if this level wrapped
        if new_position == 0 {
            let ghost mid = *self;
            let next_level = level + 1;
            let mut cascaded_expired_contexts = self.process_level(next_level);
            let ghost first = expired_contexts@;
            proof {
                let keys = Self::process_model(mid.model(), next_level as nat).1;
                assert forall|x: int| 0 <= x < keys.len() implies mid.contexts()[#[trigger] keys[x]]
                    == old(self).contexts()[keys[x]] && old(self).holds_timer(keys[x]) by {
                    assert(mid.holds_timer(keys[x]));
                }
            }
            expired_contexts.append(&mut cascaded_expired_contexts);
            proof {
                let keys = Self::process_model(mid.model(), next_level as nat).1;
                assert(expired_contexts@ =~= (target.1 + keys).map_values(
                    |k: usize| old(self).contexts()[k],
                ));
                assert forall|x: int| 0 <= x < (target.1 + keys).len() implies old(self).holds_timer(
                    #[trigger] (target.1 + keys)[x],
                ) by {
                    if x >= target.1.len() {
                        assert((target.1 + keys)[x] == keys[x - target.1.len()]);
                    } else {
                        assert((target.1 + keys)[x] == acc[x]);
                    }
                }
                assert(Self::process_model(old(self).model(), level as nat).1 == target.1 + keys);
            }
        } else {
            proof {
                assert(Self::process_model(old(self).model(), level as nat).1 == target.1);
                assert forall|x: int| 0 <= x < target.1.len() implies old(self).holds_timer(
                    #[trigger] target.1[x],
                ) by {
                    assert(target.1[x] == acc[x]);
                }
            }
        }
        expired_contexts
    }

    /// The model of a well-formed wheel has every level at the slot of the current time, and
    /// every timer on time
    pub proof fn lemma_wf_on_time(&self)
        requires
            Self::params_ok(),
            self.wf(),
        ensures
            Self::model_wf(self.model()),
            Self::synced(self.model()),
            Self::on_time(self.model()),
    {
        self.lemma_model_wf();
    }

    /// Contexts are held for exactly the running timers
    pub proof fn lemma_contexts_of_running_timers(&self)
        ensures
            self.contexts().dom() =~= self.model().expire.dom(),
    {
    }

    /// The model of a well-formed wheel is well formed
    pub proof fn lemma_model_wf(&self)
        requires
            Self::params_ok(),
            self.wf(),
        ensures
            Self::model_wf(self.model()),
    {
        let m = self.model();
        let n = NUM_LEVELS * NUM_SLOTS;
        assert forall|i: int, j: int, a: int, b: int|
            0 <= i < n && 0 <= j < n && 0 <= a < m.slots[i].len() && 0 <= b < m.slots[j].len()
                && #[trigger] m.slots[i][a] == #[trigger] m.slots[j][b] implies i == j && a == b by {
            assert(self.node_ok(i, a));
            assert(self.node_ok(j, b));
            assert(self.lists@[i].no_duplicates());
        }
        assert forall|i: int, a: int|
            0 <= i < n && 0 <= a < m.slots[i].len() implies m.expire.contains_key(
                #[trigger] m.slots[i][a],
            ) by {
            assert(self.node_ok(i, a));
        }
        assert forall|k: usize| #[trigger] m.expire.contains_key(k) implies Seq::<
            usize,
        >::empty().contains(k) || exists|i: int| 0 <= i < n && #[trigger] m.slots[i].contains(k) by {
            assert(self.holds_timer(k));
            let i = self.owner@[k];
            assert(m.slots[i].contains(k));
        }
    }

    /// The invariant only depends on the pool, the context storage, the slot heads, lists and
    /// positions
    proof fn lemma_inv_frame(a: &Self, b: &Self, extra: Seq<usize>)
        requires
            a.inv(extra),
            a.timers == b.timers,
            a.contexts == b.contexts,
            a.heads == b.heads,
            a.positions == b.positions,
            a.lists == b.lists,
            a.owner == b.owner,
        ensures
            b.inv(extra),
            forall|k: usize| #[trigger] b.holds_timer(k) == a.holds_timer(k),
            b.contexts() == a.contexts(),
    {
        let n = NUM_LEVELS * NUM_SLOTS;
        assert forall|k: usize| #[trigger] b.holds_timer(k) == a.holds_timer(k) by {}
        assert forall|i: int| 0 <= i < n implies #[trigger] b.head_ok(i) by {
            assert(a.head_ok(i));
        }
        assert forall|i: int, j: int|
            0 <= i < n && 0 <= j < b.lists@[i].len() implies #[trigger] b.node_ok(i, j) by {
            assert(a.node_ok(i, j));
        }
        assert forall|j: int| 0 <= j < extra.len() implies b.holds_timer(#[trigger] extra[j])
            && !b.owner@.contains_key(extra[j]) by {
            assert(a.holds_timer(extra[j]));
        }
        assert forall|k: usize| #[trigger] b.holds_timer(k) implies b.owner@.contains_key(k)
            || extra.contains(k) by {
            assert(a.holds_timer(k));
        }
        assert forall|k: usize| #[trigger] b.holds_timer(k) implies k < b.contexts@.len()
            && b.contexts@[k as int] is Some by {
            assert(a.holds_timer(k));
        }
        assert(b.contexts() =~= a.contexts());
    }

    /// Draining keeps the time and the positions
    pub(crate) proof fn lemma_drain_frame(m: WheelModel, chain: Seq<usize>)
        ensures
            Self::drain(m, chain).0.time == m.time,
            Self::drain(m, chain).0.positions == m.positions,
        decreases chain.len(),
    {
        if chain.len() > 0 {
            let key = chain[0];
            if m.expire[key] <= m.time {
                Self::lemma_drain_frame(
                    WheelModel {
                        time: m.time,
                        positions: m.positions,
                        slots: m.slots,
                        expire: m.expire.remove(key),
                    },
                    chain.drop_first(),
                );
            } else {
                Self::lemma_drain_frame(Self::place(m, key), chain.drop_first());
            }
        }
    }

    /// Processing a level keeps the time and the positions of the levels below it
    pub(crate) proof fn lemma_process_frame(m: WheelModel, level: nat)
        requires
            m.positions.len() == NUM_LEVELS,
        ensures
            Self::process_model(m, level).0.time == m.time,
            Self::process_model(m, level).0.positions.len() == m.positions.len(),
            forall|l: int|
                0 <= l < level ==> #[trigger] Self::process_model(m, level).0.positions[l]
                    == m.positions[l],
            level < NUM_LEVELS ==> Self::process_model(m, level).0.positions[level as int] == ((
            m.positions[level as int] + 1) % (NUM_SLOTS as int)) as usize,
        decreases NUM_LEVELS - level,
    {
        if level < NUM_LEVELS {
            let i = level * NUM_SLOTS + m.positions[level as int];
            let start = WheelModel {
                time: m.time,
                positions: m.positions,
                slots: m.slots.update(i, Seq::empty()),
                expire: m.expire,
            };
            Self::lemma_drain_frame(start, m.slots[i]);
            let d = Self::drain(start, m.slots[i]).0;
            let new_position = ((d.positions[level as int] + 1) % (NUM_SLOTS as int)) as usize;
            let advanced = WheelModel {
                time: d.time,
                positions: d.positions.update(level as int, new_position),
                slots: d.slots,
                expire: d.expire,
            };
            if new_position == 0 {
                Self::lemma_process_frame(advanced, level + 1);
            }
        }
    }

    /// Advance time by one tick, expiring timers
    fn tick(&mut self) -> (expired: Vec<T>)
        requires
            Self::params_ok(),
            old(self).wf(),
            old(self).current_time < u64::MAX,
        ensures
            final(self).wf(),
            final(self).current_time == old(self).current_time + 1,
            final(self).model() == Self::tick_model(old(self).model()).0,
            expired@ == Self::tick_model(old(self).model()).1.map_values(
                |k: usize| old(self).contexts()[k],
            ),
            forall|k: usize| #[trigger]
                final(self).holds_timer(k) ==> old(self).holds_timer(k) && final(self).contexts@[k as int]
                    == old(self).contexts@[k as int],
            forall|x: int|
                0 <= x < Self::tick_model(old(self).model()).1.len() ==> old(self).holds_timer(
                    #[trigger] Self::tick_model(old(self).model()).1[x],
                ),
    {
        self.current_time = self.current_time + 1;
        let ghost mid = *self;
        proof {
            Self::lemma_inv_frame(&*old(self), &mid, Seq::empty());
            assert(mid.model().expire =~= old(self).model().expire);
            assert(mid.model() == (WheelModel {
                time: (old(self).model().time + 1) as u64,
                positions: old(self).model().positions,
                slots: old(self).model().slots,
                expire: old(self).model().expire,
            }));
            assert(mid.contexts() == old(self).contexts());
            assert forall|k: usize| #[trigger] mid.holds_timer(k) == old(self).holds_timer(k) by {}
        }
        let expired = self.process_level(0);
        proof {
            Self::lemma_process_frame(mid.model(), 0);
            let p = old(self).positions@[0] as int;
            let t = old(self).current_time as int;
            let n = NUM_SLOTS as int;
            assert(p == t % n);
            vstd::arithmetic::div_mod::lemma_add_mod_noop(t, 1, n);
            if n > 1 {
                vstd::arithmetic::div_mod::lemma_small_mod(1, n as nat);
            }
            assert((p + 1) % n == (t + 1) % n);
            old(self).lemma_model_wf();
            Self::lemma_tick_on_time(old(self).model());
        }
        expired
    }

    /// Advance time by multiple ticks, expiring timers
    ///
    /// Gives the contexts of the timers that expired, in the order they expired.
    pub fn expire_timers(&mut self, ticks: u64) -> (expired: Vec<T>)
        requires
            Self::params_ok(),
            old(self).wf(),
            old(self).model().time + ticks <= u64::MAX,
        ensures
            final(self).wf(),
            final(self).model() == Self::expire_model(old(self).model(), ticks as nat).0,
            expired@ == Self::expire_model(old(self).model(), ticks as nat).1.map_values(
                |k: usize| old(self).contexts()[k],
            ),
            final(self).contexts() == old(self).contexts().restrict(
                final(self).model().expire.dom(),
            ),
    {
        let mut expired_contexts: Vec<T> = Vec::new();
        let mut i: u64 = 0;
        while i < ticks
            invariant
                Self::params_ok(),
                self.wf(),
                i <= ticks,
                self.current_time == old(self).current_time + i,
                old(self).model().time + ticks <= u64::MAX,
                self.model() == Self::expire_model(old(self).model(), i as nat).0,
                expired_contexts@ == Self::expire_model(old(self).model(), i as nat).1.map_values(
                    |k: usize| old(self).contexts()[k],
                ),
                forall|k: usize| #[trigger]
                    self.holds_timer(k) ==> old(self).holds_timer(k) && self.contexts@[k as int]
                        == old(self).contexts@[k as int],
            decreases ticks - i,
        {
            let ghost before = *self;
            let mut tick_expired_contexts = self.tick();
            proof {
                let keys = Self::tick_model(before.model()).1;
                assert forall|x: int| 0 <= x < keys.len() implies before.contexts()[#[trigger] keys[x]]
                    == old(self).contexts()[keys[x]] by {
                    assert(before.holds_timer(keys[x]));
                }
            }
            let ghost first = expired_contexts@;
            expired_contexts.append(&mut tick_expired_contexts);
            proof {
                let keys = Self::tick_model(before.model()).1;
                assert(tick_expired_contexts@.len() == 0);
                assert(expired_contexts@ =~= (Self::expire_model(old(self).model(), i as nat).1
                    + keys).map_values(|k: usize| old(self).contexts()[k]));
            }
            i = i + 1;
        }
        proof {
            assert forall|k: usize| #[trigger] self.holds_timer(k) implies old(self).holds_timer(
                k,
            ) by {}
            assert(self.contexts() =~= old(self).contexts().restrict(self.model().expire.dom()));
        }
        expired_contexts
    }

    /// Get the next expiration time in ticks, or `None` if no unexpired, started timers
    ///
    /// This is the earliest expiry time of all running timers, found by going through every
    /// slot of every level.
    ///
    /// This has time complexity O(n + m) where n is `NUM_LEVELS * NUM_SLOTS` and m the number
    /// of running timers.
    pub fn next_expiration(&self) -> (r: Option<u64>)
        requires
            Self::params_ok(),
            self.wf(),
        ensures
            r == earliest_expiry(self.model().expire),
            r is None <==> self.model().expire.dom() =~= Set::<usize>::empty(),
            r matches Some(t) ==> is_earliest(self.model().expire, t),
    {
        let ghost m = self.model();
        proof {
            self.lemma_model_wf();
        }
        let n = NUM_LEVELS * NUM_SLOTS;
        let mut min_expire_time: Option<u64> = None;
        let mut idx: usize = 0;
        while idx < n
            invariant
                Self::params_ok(),
                self.wf(),
                m == self.model(),
                Self::model_wf(m),
                n == NUM_LEVELS * NUM_SLOTS,
                idx <= n,
                min_expire_time is None ==> forall|i: int| 0 <= i < idx ==> #[trigger] m.slots[i].len() == 0,
                min_expire_time matches Some(v) ==> exists|i: int, a: int|
                    0 <= i < idx && 0 <= a < m.slots[i].len() && #[trigger] m.expire[m.slots[i][a]] == v,
                min_expire_time matches Some(v) ==> forall|i: int, a: int|
                    0 <= i < idx && 0 <= a < m.slots[i].len() ==> v <= #[trigger] m.expire[m.slots[i][a]],
            decreases n - idx,
        {
            let head_key = self.heads[idx];
            assert(self.head_ok(idx as int));
            let head = *slab_get(&self.timers, head_key).unwrap();
            let ghost list = m.slots[idx as int];
            let ghost before = min_expire_time;
            let mut timer_index = head.next;
            let ghost mut j: int = 0;
            while timer_index.is_some()
                invariant
                    self.wf(),
                    m == self.model(),
                    Self::model_wf(m),
                    n == NUM_LEVELS * NUM_SLOTS,
                    0 <= idx < n,
                    list == self.lists@[idx as int],
                    list == m.slots[idx as int],
                    0 <= j <= list.len(),
                    timer_index == (if j < list.len() {
                        Some(list[j])
                    } else {
                        None::<usize>
                    }),
                    before is None ==> forall|i: int| 0 <= i < idx ==> #[trigger] m.slots[i].len() == 0,
                    before matches Some(v) ==> exists|i: int, a: int|
                        0 <= i < idx && 0 <= a < m.slots[i].len() && #[trigger] m.expire[m.slots[i][a]] == v,
                    before matches Some(v) ==> forall|i: int, a: int|
                        0 <= i < idx && 0 <= a < m.slots[i].len() ==> v <= #[trigger] m.expire[m.slots[i][a]],
                    j == 0 ==> min_expire_time == before,
                    min_expire_time is None ==> j == 0,
                    min_expire_time matches Some(v) ==> (exists|i: int, a: int|
                        0 <= i < idx && 0 <= a < m.slots[i].len() && #[trigger] m.expire[m.slots[i][a]] == v)
                        || (exists|a: int| 0 <= a < j && #[trigger] m.expire[list[a]] == v),
                    min_expire_time matches Some(v) ==> forall|i: int, a: int|
                        0 <= i < idx && 0 <= a < m.slots[i].len() ==> v <= #[trigger] m.expire[m.slots[i][a]],
                    min_expire_time matches Some(v) ==> forall|a: int|
                        0 <= a < j ==> v <= #[trigger] m.expire[list[a]],
                decreases list.len() - j,
            {
                let k = timer_index.unwrap();
                assert(self.node_ok(idx as int, j));
                let timer = *slab_get(&self.timers, k).unwrap();
                timer_index = timer.next;
                match timer.data {
                    TimerEntryData::Timer { expire_time } => {
                        proof {
                            assert(m.expire[k] == expire_time);
                            assert(list[j] == k);
                        }
                        if let Some(prev_min_expire_time) = min_expire_time {
                            if expire_time < prev_min_expire_time {
                                min_expire_time = Some(expire_time);
                            }
                        } else {
                            min_expire_time = Some(expire_time);
                        }
                    },
                    // Only timers are linked after a head
                    TimerEntryData::Head => {
                        proof {
                            assert(false);
                        }
                    },
                }
                proof {
                    j = j + 1;
                }
            }
            proof {
                assert(j == list.len());
                if let Some(v) = min_expire_time {
                    if j > 0 {
                        assert(exists|i: int, a: int|
                            0 <= i < idx + 1 && 0 <= a < m.slots[i].len() && #[trigger] m.expire[m.slots[i][a]] == v) by {
                            if exists|a: int| 0 <= a < j && #[trigger] m.expire[list[a]] == v {
                                let a = choose|a: int| 0 <= a < j && #[trigger] m.expire[list[a]] == v;
                                assert(m.expire[m.slots[idx as int][a]] == v);
                            } else {
                                let (i, a) = choose|i: int, a: int|
                                    0 <= i < idx && 0 <= a < m.slots[i].len() && #[trigger] m.expire[m.slots[i][a]] == v;
                                assert(m.expire[m.slots[i][a]] == v);
                            }
                        }
                    } else {
                        let (i, a) = choose|i: int, a: int|
                            0 <= i < idx && 0 <= a < m.slots[i].len() && #[trigger] m.expire[m.slots[i][a]] == v;
                        assert(m.expire[m.slots[i][a]] == v);
                    }
                    assert forall|i: int, a: int|
                        0 <= i < idx + 1 && 0 <= a < m.slots[i].len() implies v <= #[trigger] m.expire[m.slots[i][a]] by {
                        if i == idx {
                            assert(m.expire[list[a]] == m.expire[m.slots[i][a]]);
                        }
                    }
                }
            }
            idx = idx + 1;
        }
        proof {
            let e = m.expire;
            // Every running timer is in a slot, and every timer in a slot runs
            assert(Self::partitioned(m, Seq::empty()));
            if let Some(v) = min_expire_time {
                let (i, a) = choose|i: int, a: int|
                    0 <= i < n && 0 <= a < m.slots[i].len() && #[trigger] m.expire[m.slots[i][a]] == v;
                assert(e.contains_key(m.slots[i][a]));
                assert forall|k: usize| e.contains_key(k) implies v <= e[k] by {
                    assert(!Seq::<usize>::empty().contains(k));
                    let i2 = choose|i2: int| 0 <= i2 < n && #[trigger] m.slots[i2].contains(k);
                    let a2 = choose|a2: int| 0 <= a2 < m.slots[i2].len() && m.slots[i2][a2] == k;
                    assert(v <= m.expire[m.slots[i2][a2]]);
                }
                assert(is_earliest(e, v));
                lemma_earliest_unique(e, v);
                assert(e.dom().contains(m.slots[i][a]));
            } else {
                assert forall|k: usize| !e.contains_key(k) by {
                    if e.contains_key(k) {
                        assert(!Seq::<usize>::empty().contains(k));
                        let i2 = choose|i2: int| 0 <= i2 < n && #[trigger] m.slots[i2].contains(k);
                        assert(m.slots[i2].len() == 0);
                    }
                }
                assert(e.dom() =~= Set::<usize>::empty());
            }
        }
        min_expire_time
    }

    /// The contexts are unchanged when the timers and context storage are
    proof fn lemma_contexts_frame(&self, other: &Self)
        requires
            self.contexts == other.contexts,
            self.model().expire == other.model().expire,
        ensures
            self.contexts() == other.contexts(),
    {
        assert forall|k: usize| #[trigger] self.holds_timer(k) == other.holds_timer(k) by {
            assert(self.model().expire.contains_key(k) == self.holds_timer(k));
            assert(other.model().expire.contains_key(k) == other.holds_timer(k));
        }
        assert(self.contexts() =~= other.contexts());
    }

    /// The slot (as `level * NUM_SLOTS + slot`) for a timer expiring at `expire_time`
    fn slot_for_expiry(&self, expire_time: u64) -> (idx: usize)
        requires
            Self::params_ok(),
            expire_time >= self.current_time,
            self.positions@.len() == NUM_LEVELS,
            forall|l: int| 0 <= l < NUM_LEVELS ==> #[trigger] self.positions@[l] < NUM_SLOTS,
        ensures
            idx == Self::slot_for(self.positions@, self.current_time, expire_time - self.current_time),
            idx < NUM_LEVELS * NUM_SLOTS,
    {
        let delta = expire_time - self.current_time;
        // A timer that is already due is due at the next tick
        let d: u64 = if delta == 0 {
            1
        } else {
            delta
        };
        let mut pow_l: u64 = 1;
        let mut l: usize = 0;
        proof {
            reveal(pow);
        }
        while l < NUM_LEVELS
            invariant
                Self::params_ok(),
                self.positions@.len() == NUM_LEVELS,
                forall|x: int| 0 <= x < NUM_LEVELS ==> #[trigger] self.positions@[x] < NUM_SLOTS,
                l <= NUM_LEVELS,
                delta == expire_time - self.current_time,
                d == (if delta < 1 { 1 } else { delta }),
                pow_l == pow(NUM_SLOTS as int, l as nat),
                pow_l <= d,
                Self::level_for(d as int, 0) == Self::level_for(d as int, l as nat),
            decreases NUM_LEVELS - l,
        {
            proof {
                reveal(pow);
                lemma_pow_positive(NUM_SLOTS as int, l as nat);
                assert(pow(NUM_SLOTS as int, (l + 1) as nat) == NUM_SLOTS * pow(
                    NUM_SLOTS as int,
                    l as nat,
                ));
                assert(pow_l * NUM_SLOTS == NUM_SLOTS * pow_l) by (nonlinear_arith);
            }
            // A level whose range does not fit in a `u64` holds every timer
            let pow_next = pow_l.checked_mul(NUM_SLOTS as u64);
            if pow_next.is_none() || d < pow_next.unwrap() {
                let slot: usize;
                if delta == 0 {
                    slot = (self.current_time % (NUM_SLOTS as u64)) as usize;
                    proof {
                        assert(pow_l == 1);
                        assert((self.current_time + d) / pow(NUM_SLOTS as int, l as nat) - 1
                            == self.current_time);
                    }
                } else {
                    let q = expire_time / pow_l;
                    proof {
                        assert(q >= 1) by (nonlinear_arith)
                            requires
                                q == expire_time / pow_l,
                                expire_time >= pow_l,
                                pow_l > 0,
                        ;
                    }
                    slot = ((q - 1) % (NUM_SLOTS as u64)) as usize;
                }
                proof {
                    assert(l * NUM_SLOTS + slot < NUM_LEVELS * NUM_SLOTS) by (nonlinear_arith)
                        requires
                            l < NUM_LEVELS,
                            slot < NUM_SLOTS,
                    ;
                    assert(pow_l * NUM_SLOTS == NUM_SLOTS * pow_l) by (nonlinear_arith);
                    assert(d < pow(NUM_SLOTS as int, (l + 1) as nat));
                    assert(Self::level_for(d as int, l as nat) == l);
                    assert(slot == ((self.current_time + d) / pow(NUM_SLOTS as int, l as nat) - 1)
                        % (NUM_SLOTS as int));
                }
                return l * NUM_SLOTS + slot;
            }
            pow_l = pow_next.unwrap();
            l = l + 1;
        }
        // In case it's too far in the future, put in the last level's last slot
        let slot = (self.positions[NUM_LEVELS - 1] + NUM_SLOTS - 1) % NUM_SLOTS;
        proof {
            assert((NUM_LEVELS - 1) * NUM_SLOTS + slot < NUM_LEVELS * NUM_SLOTS) by (nonlinear_arith)
                requires
                    NUM_LEVELS >= 1,
                    slot < NUM_SLOTS,
            ;
        }
        (NUM_LEVELS - 1) * NUM_SLOTS + slot
    }

    /// Link the unlinked timer `key` at the front of the slot that its expiry time calls for
    fn link_timer(&mut self, key: usize, Ghost(rest): Ghost<Seq<usize>>)
        requires
            Self::params_ok(),
            old(self).inv(seq![key] + rest),
            old(self).entries()[key].data->expire_time >= old(self).current_time,
        ensures
            final(self).inv(rest),
            final(self).model() == Self::place(old(self).model(), key),
            final(self).heads == old(self).heads,
            final(self).positions == old(self).positions,
            final(self).current_time == old(self).current_time,
            final(self).contexts == old(self).contexts,
            forall|k: usize| #[trigger] final(self).holds_timer(k) == old(self).holds_timer(k),
            forall|k: usize| #[trigger]
                rest.contains(k) ==> final(self).entries()[k] == old(self).entries()[k],
    {
        let ghost extra = seq![key] + rest;
        assert(extra[0] == key);
        let entry = *slab_get(&self.timers, key).unwrap();
        let expire_time = match entry.data {
            TimerEntryData::Timer { expire_time } => expire_time,
            TimerEntryData::Head => {
                proof {
                    assert(false);
                }
                0
            },
        };
        let idx = self.slot_for_expiry(expire_time);
        let head_key = self.heads[idx];
        assert(self.head_ok(idx as int));
        let head = *slab_get(&self.timers, head_key).unwrap();
        let old_next = head.next;
        let ghost e0 = self.entries();
        let ghost l0 = self.lists@;
        let ghost o0 = self.owner@;
        let ghost list = l0[idx as int];
        proof {
            assert(head_key != key);
            if list.len() > 0 {
                assert(self.node_ok(idx as int, 0));
            }
        }
        slab_set(
            &mut self.timers,
            head_key,
            TimerEntry { next: Some(key), previous: head.previous, data: head.data },
        );
        slab_set(
            &mut self.timers,
            key,
            TimerEntry { next: old_next, previous: Some(head_key), data: entry.data },
        );
        if let Some(n) = old_next {
            let next_entry = *slab_get(&self.timers, n).unwrap();
            slab_set(
                &mut self.timers,
                n,
                TimerEntry { next: next_entry.next, previous: Some(key), data: next_entry.data },
            );
        }
        proof {
            let n = NUM_LEVELS * NUM_SLOTS;
            let new_list = seq![key] + list;
            let e1 = self.entries();
            self.lists@ = l0.update(idx as int, new_list);
            self.owner@ = o0.insert(key, idx as int);
            assert(!list.contains(key)) by {
                if list.contains(key) {
                    let j = choose|j: int| 0 <= j < list.len() && list[j] == key;
                    assert(old(self).node_ok(idx as int, j));
                }
            }
            // Only the head, the new timer and the timer after it changed, and only their links
            assert forall|k: usize| #![trigger e1.contains_key(k)] #![trigger e1[k]]
                e1.contains_key(k) == e0.contains_key(k) && (e0.contains_key(k) ==> e1[k].data
                    == e0[k].data) && (e0.contains_key(k) && k != head_key && k != key && Some(k)
                    != old_next ==> e1[k] == e0[k]) by {}
            assert(e1[key].next == old_next && e1[key].previous == Some(head_key));
            assert(e1[head_key].next == Some(key));
            if let Some(nk) = old_next {
                assert(nk != key && nk != head_key);
                assert(e1[nk].previous == Some(key));
                assert(e1[nk].next == e0[nk].next);
            }
            assert forall|i: int| 0 <= i < n implies #[trigger] self.head_ok(i) by {
                assert(old(self).head_ok(i));
                if i != idx {
                    assert(self.heads@[i] != head_key);
                    if let Some(nk) = old_next {
                        assert(old(self).node_ok(idx as int, 0));
                    }
                }
            }
            assert forall|i: int, j: int|
                0 <= i < n && 0 <= j < self.lists@[i].len() implies #[trigger] self.node_ok(i, j) by {
                if i == idx {
                    if j == 0 {
                        assert(new_list[0] == key);
                        assert(self.lists@[i] == new_list);
                        assert(self.holds_timer(key));
                        assert(e1[key].next == next_of(new_list, 0));
                        assert(self.owner@[key] == i);
                        assert(self.heads@[i] == head_key);
                        assert(self.node_ok(i, j));
                    } else {
                        assert(old(self).node_ok(i, j - 1));
                        assert(new_list[j] == list[j - 1]);
                        if j + 1 < new_list.len() {
                            assert(new_list[j + 1] == list[j]);
                        }
                        assert(next_of(new_list, j) == next_of(list, j - 1));
                        assert(old(self).head_ok(i));
                        assert(old_next == Some(list[0]));
                        if j >= 2 {
                            assert(new_list[j - 1] == list[j - 2]);
                            assert(old(self).lists@[i].no_duplicates());
                            assert(list[j - 1] != list[0]);
                        }
                        assert(self.node_ok(i, j));
                    }
                } else {
                    assert(old(self).node_ok(i, j));
                    let k = l0[i][j];
                    assert(k != key);
                    if let Some(nk) = old_next {
                        assert(old(self).node_ok(idx as int, 0));
                        assert(k != nk);
                    }
                    assert(old(self).head_ok(i));
                    assert(self.node_ok(i, j));
                }
            }
            assert forall|i: int| 0 <= i < n implies #[trigger] self.lists@[i].no_duplicates() by {
                assert(old(self).lists@[i].no_duplicates());
                if i == idx {
                    assert forall|a: int, b: int|
                        0 <= a < new_list.len() && 0 <= b < new_list.len() && a != b implies
                        new_list[a] != new_list[b] by {
                        if a == 0 {
                            assert(list.contains(new_list[b]));
                        } else if b == 0 {
                            assert(list.contains(new_list[a]));
                        }
                    }
                }
            }
            assert forall|k: usize| #[trigger] self.owner@.contains_key(k) implies 0
                <= self.owner@[k] < n && self.lists@[self.owner@[k]].contains(k) by {
                if k == key {
                    assert(new_list[0] == key);
                } else {
                    assert(o0.contains_key(k));
                    let i = o0[k];
                    if i == idx {
                        let j = choose|j: int| 0 <= j < list.len() && list[j] == k;
                        assert(new_list[j + 1] == k);
                    }
                }
            }
            assert forall|j: int| 0 <= j < rest.len() implies self.holds_timer(#[trigger] rest[j])
                && !self.owner@.contains_key(rest[j]) by {
                assert(extra[j + 1] == rest[j]);
            }
            assert(rest.no_duplicates()) by {
                assert forall|a: int, b: int|
                    0 <= a < rest.len() && 0 <= b < rest.len() && a != b implies rest[a]
                    != rest[b] by {
                    assert(extra[a + 1] == rest[a]);
                    assert(extra[b + 1] == rest[b]);
                }
            }
            assert forall|k: usize| #[trigger] self.holds_timer(k) implies self.owner@.contains_key(k)
                || rest.contains(k) by {
                assert(old(self).holds_timer(k));
                if k != key && !o0.contains_key(k) {
                    let j = choose|j: int| 0 <= j < extra.len() && extra[j] == k;
                    assert(rest[j - 1] == k);
                }
            }
            assert forall|k: usize| #[trigger] rest.contains(k) implies self.entries()[k]
                == old(self).entries()[k] by {
                let j = choose|j: int| 0 <= j < rest.len() && rest[j] == k;
                assert(extra[j + 1] == k);
                if let Some(nk) = old_next {
                    assert(old(self).node_ok(idx as int, 0));
                }
            }
            assert forall|k: usize| #[trigger] self.holds_timer(k) implies k < self.contexts@.len()
                && self.contexts@[k as int] is Some by {
                assert(old(self).holds_timer(k));
            }
            assert(self.model().expire =~= old(self).model().expire);
        }
    }
}

} // verus!
