//! The timers of an async process node
//!
//! Each timer has an entry in a pool ([`slab::Slab`]) that records whether it is ready and, while
//! it runs, its handle in a [`crate::vppinfra::tw_timer::TimerWheel`]. The wheel's timers carry
//! the key of their entry as context. Expiring the wheel marks the entries of the timers it
//! expired as ready.

use vstd::prelude::*;
use vstd::arithmetic::power::pow;
use crate::vppinfra::tw_timer::{TimerWheel as Wheel, TimerHandle as WheelHandle, WheelModel, earliest_expiry};

verus! {

/// Key of a timer's entry in the pool
#[derive(Copy, Clone, Debug)]
pub struct TimerHandle(pub usize);

/// The state of a timer
#[derive(Debug)]
pub struct TimerState {
    /// Whether the timer has expired
    pub is_ready: bool,
    /// The timer in the wheel, while it runs
    pub wheel_handle: Option<WheelHandle>,
}

/// The entries of a pool of timer states, by key.
pub uninterp spec fn state_entries(s: slab::Slab<TimerState>) -> Map<usize, TimerState>;

/// `slab::Slab::new`: a new slab holds no values.
#[verifier::external_body]
fn state_slab_new() -> (pool: slab::Slab<TimerState>)
    ensures
        state_entries(pool) =~= Map::empty(),
{
    slab::Slab::new()
}

/// `slab::Slab::insert`: the value is stored under a key that held no value before, which is
/// returned; no other key changes.
#[verifier::external_body]
fn state_slab_insert(s: &mut slab::Slab<TimerState>, value: TimerState) -> (key: usize)
    ensures
        !state_entries(*old(s)).contains_key(key),
        state_entries(*final(s)) == state_entries(*old(s)).insert(key, value),
{
    s.insert(value)
}

/// `slab::Slab::get`: the value stored under `key`, if there is one.
#[verifier::external_body]
fn state_slab_get(s: &slab::Slab<TimerState>, key: usize) -> (r: Option<&TimerState>)
    ensures
        r == (if state_entries(*s).contains_key(key) {
            Some(&state_entries(*s)[key])
        } else {
            None
        }),
{
    s.get(key)
}

/// `slab::Slab::index_mut` (as `slab[key] = value`): replaces the value stored under `key`,
/// which must hold one (the slab panics otherwise).
#[verifier::external_body]
fn state_slab_set(s: &mut slab::Slab<TimerState>, key: usize, value: TimerState)
    requires
        state_entries(*old(s)).contains_key(key),
    ensures
        state_entries(*final(s)) == state_entries(*old(s)).insert(key, value),
{
    s[key] = value;
}

/// `slab::Slab::remove`: removes and returns the value stored under `key`, which must hold one
/// (the slab panics otherwise).
#[verifier::external_body]
fn state_slab_remove(s: &mut slab::Slab<TimerState>, key: usize) -> (value: TimerState)
    requires
        state_entries(*old(s)).contains_key(key),
    ensures
        value == state_entries(*old(s))[key],
        state_entries(*final(s)) == state_entries(*old(s)).remove(key),
{
    s.remove(key)
}

/// The entries once the timers of `keys` have expired: each one that still has an entry is
/// ready and no longer in the wheel
pub open spec fn mark_ready(entries: Map<usize, TimerState>, keys: Seq<TimerHandle>) -> Map<
    usize,
    TimerState,
>
    decreases keys.len(),
{
    if keys.len() == 0 {
        entries
    } else {
        let before = mark_ready(entries, keys.drop_last());
        let key = keys.last().0;
        if before.contains_key(key) {
            before.insert(key, TimerState { is_ready: true, wheel_handle: None })
        } else {
            before
        }
    }
}

/// A timer listed as expired is ready afterwards, if it still has an entry
pub proof fn lemma_mark_ready_sets(
    entries: Map<usize, TimerState>,
    keys: Seq<TimerHandle>,
    handle: TimerHandle,
)
    requires
        entries.contains_key(handle.0),
        keys.contains(handle),
    ensures
        mark_ready(entries, keys).contains_key(handle.0),
        mark_ready(entries, keys)[handle.0].is_ready,
        mark_ready(entries, keys)[handle.0].wheel_handle is None,
    decreases keys.len(),
{
    let before = mark_ready(entries, keys.drop_last());
    lemma_mark_ready_keeps(entries, keys.drop_last(), handle.0);
    if keys.last() != handle {
        let x = choose|x: int| 0 <= x < keys.len() && keys[x] == handle;
        assert(keys.drop_last()[x] == handle);
        lemma_mark_ready_sets(entries, keys.drop_last(), handle);
    }
}

/// Marking timers ready keeps every entry
pub proof fn lemma_mark_ready_keeps(entries: Map<usize, TimerState>, keys: Seq<TimerHandle>, key: usize)
    requires
        entries.contains_key(key),
    ensures
        mark_ready(entries, keys).contains_key(key),
    decreases keys.len(),
{
    if keys.len() > 0 {
        lemma_mark_ready_keeps(entries, keys.drop_last(), key);
    }
}

/// What marking timers ready does to one entry: an entry whose timer is listed becomes ready
/// and leaves the wheel; every other entry is kept as it was
pub proof fn lemma_mark_ready_entry(entries: Map<usize, TimerState>, keys: Seq<TimerHandle>, key: usize)
    ensures
        mark_ready(entries, keys).contains_key(key) == entries.contains_key(key),
        entries.contains_key(key) && keys.contains(TimerHandle(key)) ==> mark_ready(entries, keys)[key]
            == (TimerState { is_ready: true, wheel_handle: None }),
        entries.contains_key(key) && !keys.contains(TimerHandle(key)) ==> mark_ready(entries, keys)[key]
            == entries[key],
    decreases keys.len(),
{
    if keys.len() > 0 {
        let init = keys.drop_last();
        lemma_mark_ready_entry(entries, init, key);
        assert forall|h: TimerHandle| init.contains(h) implies keys.contains(h) by {
            let x = choose|x: int| 0 <= x < init.len() && init[x] == h;
            assert(keys[x] == h);
        }
        if keys.contains(TimerHandle(key)) && keys.last() != TimerHandle(key) {
            let x = choose|x: int| 0 <= x < keys.len() && keys[x] == TimerHandle(key);
            assert(x != keys.len() - 1);
            assert(init[x] == TimerHandle(key));
        }
        if !keys.contains(TimerHandle(key)) {
            assert(keys[keys.len() - 1] == keys.last());
        }
    }
}

/// Law: a timer started for a time ahead of the wheel is ready once the timers are expired up
/// to that time, and not before
pub proof fn lemma_started_timer_ready_on_time(
    entries: Map<usize, TimerState>,
    m: WheelModel,
    contexts: Map<usize, TimerHandle>,
    wheel_key: usize,
    handle: TimerHandle,
    expire_time: u64,
)
    requires
        Wheel::<TimerHandle, 3, 2048>::model_wf(m),
        Wheel::<TimerHandle, 3, 2048>::synced(m),
        Wheel::<TimerHandle, 3, 2048>::on_time(m),
        !m.expire.contains_key(wheel_key),
        m.time < expire_time,
        entries.contains_key(handle.0),
    ensures
        ({
            let m1 = Wheel::<TimerHandle, 3, 2048>::add_timer(m, wheel_key, expire_time);
            let c1 = contexts.insert(wheel_key, handle);
            let expired = Wheel::<TimerHandle, 3, 2048>::expire_model(
                m1,
                (expire_time - m.time) as nat,
            ).1;
            let ready = mark_ready(entries, expired.map_values(|k: usize| c1[k]));
            &&& ready.contains_key(handle.0)
            &&& ready[handle.0].is_ready
            &&& forall|t: nat|
                t < expire_time - m.time ==> !#[trigger] Wheel::<TimerHandle, 3, 2048>::expire_model(
                    m1,
                    t,
                ).1.contains(wheel_key)
        }),
{
    TimerWheel::lemma_params();
    Wheel::<TimerHandle, 3, 2048>::lemma_timer_fires_on_time(m, wheel_key, expire_time);
    assert(Wheel::<TimerHandle, 3, 2048>::fire_time(m.time, expire_time) == expire_time);
    let m1 = Wheel::<TimerHandle, 3, 2048>::add_timer(m, wheel_key, expire_time);
    let c1 = contexts.insert(wheel_key, handle);
    let expired = Wheel::<TimerHandle, 3, 2048>::expire_model(m1, (expire_time - m.time) as nat).1;
    let x = choose|x: int| 0 <= x < expired.len() && expired[x] == wheel_key;
    let handles = expired.map_values(|k: usize| c1[k]);
    assert(handles[x] == handle);
    lemma_mark_ready_sets(entries, handles, handle);
    assert forall|t: nat| t < expire_time - m.time implies !#[trigger] Wheel::<
        TimerHandle,
        3,
        2048,
    >::expire_model(m1, t).1.contains(wheel_key) by {
        assert(Wheel::<TimerHandle, 3, 2048>::expire_model(m1, t).0.expire.contains_key(wheel_key));
    }
}

/// The timers of an async process node
pub struct TimerWheel {
    /// Timer entry pool
    entries: slab::Slab<TimerState>,
    /// The time in ticks when timers were last expired
    previous_ticks: u64,
    /// The running timers, with the key of their entry as context
    wheel: Wheel<TimerHandle, 3, 2048>,
}

impl TimerWheel {
    /// The state of each timer, by key
    pub closed spec fn entries(&self) -> Map<usize, TimerState> {
        state_entries(self.entries)
    }

    /// The time in ticks when timers were last expired
    pub closed spec fn previous_ticks(&self) -> u64 {
        self.previous_ticks
    }

    /// The wheel of running timers
    pub closed spec fn wheel(&self) -> Wheel<TimerHandle, 3, 2048> {
        self.wheel
    }

    /// The entry under `key` is of a running timer of the wheel, whose context is `key`
    pub open spec fn entry_runs(&self, key: usize) -> bool {
        &&& self.entries().contains_key(key)
        &&& self.entries()[key].wheel_handle matches Some(h) && {
            &&& self.wheel().model().expire.contains_key(h.key())
            &&& self.wheel().contexts()[h.key()] == TimerHandle(key)
        }
        &&& !self.entries()[key].is_ready
    }

    /// The timer wheel is well formed: the wheel is, it has not fallen behind the time at which
    /// timers were last expired, an entry holds a wheel handle exactly while it is the entry of
    /// a running wheel timer, and every running wheel timer has such an entry
    pub open spec fn wf(&self) -> bool {
        &&& self.wheel().wf()
        &&& self.previous_ticks() <= self.wheel().model().time
        &&& forall|key: usize|
            #[trigger] self.entries().contains_key(key) && self.entries()[key].wheel_handle is Some
                ==> self.entry_runs(key)
        &&& forall|k: usize| #[trigger]
            self.wheel().model().expire.contains_key(k) ==> self.wheel_timer_has_entry(k)
    }

    /// The running wheel timer `k` has an entry, which holds its handle
    pub open spec fn wheel_timer_has_entry(&self, k: usize) -> bool {
        &&& self.entries().contains_key(self.wheel().contexts()[k].0)
        &&& self.entries()[self.wheel().contexts()[k].0].wheel_handle matches Some(h) && h.key() == k
    }

    /// Law: a live timer that is not yet ready becomes ready when the timers are expired up to
    /// a time that reaches its expiry time (or, for a timer already due, the next tick), and
    /// not before: after `expire_timers(now)`, its entry is ready exactly when the wheel's time
    /// plus the ticks from `previous_ticks` to `now` reaches that tick
    pub proof fn lemma_live_timer_ready_on_time(&self, key: usize, now: u64)
        requires
            self.wf(),
            self.entries().contains_key(key),
            self.entries()[key].wheel_handle is Some,
            now >= self.previous_ticks(),
            self.wheel().model().time + (now - self.previous_ticks()) <= u64::MAX,
        ensures
            ({
                let m = self.wheel().model();
                let ticks = (now - self.previous_ticks()) as nat;
                let h = self.entries()[key].wheel_handle->0;
                let expired = Wheel::<TimerHandle, 3, 2048>::expire_model(m, ticks).1;
                let after = mark_ready(
                    self.entries(),
                    expired.map_values(|k: usize| self.wheel().contexts()[k]),
                );
                &&& after.contains_key(key)
                &&& after[key].is_ready <==> m.time + ticks >= Wheel::<TimerHandle, 3, 2048>::fire_time(
                    m.time,
                    m.expire[h.key()],
                )
            }),
    {
        Self::lemma_params();
        let m = self.wheel().model();
        let ticks = (now - self.previous_ticks()) as nat;
        let h = self.entries()[key].wheel_handle->0;
        let c = self.wheel().contexts();
        let expired = Wheel::<TimerHandle, 3, 2048>::expire_model(m, ticks).1;
        let handles = expired.map_values(|k: usize| c[k]);
        self.wheel().lemma_wf_on_time();
        assert(self.entry_runs(key));
        Wheel::<TimerHandle, 3, 2048>::lemma_running_timer_fires_on_time(m, h.key(), ticks);
        Wheel::<TimerHandle, 3, 2048>::lemma_expire_accounts_for_every_timer(m, ticks);
        lemma_mark_ready_entry(self.entries(), handles, key);
        if expired.contains(h.key()) {
            let x = choose|x: int| 0 <= x < expired.len() && expired[x] == h.key();
            assert(handles[x] == TimerHandle(key));
        }
        if handles.contains(TimerHandle(key)) {
            let x = choose|x: int| 0 <= x < handles.len() && handles[x] == TimerHandle(key);
            let k2 = expired[x];
            assert(m.expire.contains_key(k2));
            assert(self.wheel_timer_has_entry(k2));
            assert(c[k2] == TimerHandle(key));
            assert(k2 == h.key());
            assert(expired.contains(h.key()));
        }
    }

    /// The wheel's parameters can hold every timer
    proof fn lemma_params()
        ensures
            Wheel::<TimerHandle, 3, 2048>::params_ok(),
    {
        reveal_with_fuel(pow, 4);
        assert(pow(2048, 0) == 1);
        assert(pow(2048, 1) == 2048);
        assert(pow(2048, 2) == 4194304);
        assert(pow(2048, 3) == 8589934592);
    }

    /// Create an empty set of timers
    pub fn new() -> (w: Self)
        ensures
            w.wf(),
            w.entries() == Map::<usize, TimerState>::empty(),
            w.previous_ticks() == 0,
            w.wheel().model() == Wheel::<TimerHandle, 3, 2048>::initial_model(),
            w.wheel().contexts() == Map::<usize, TimerHandle>::empty(),
    {
        TimerWheel { entries: state_slab_new(), previous_ticks: 0, wheel: Wheel::new() }
    }

    /// Start a timer that expires at the absolute time `expire_time` in ticks
    ///
    /// A timer whose time has already come is ready at once.
    pub fn start_timer(&mut self, expire_time: u64) -> (handle: TimerHandle)
        requires
            old(self).wf(),
        ensures
            final(self).wf(),
            !old(self).entries().contains_key(handle.0),
            final(self).previous_ticks() == old(self).previous_ticks(),
            expire_time <= old(self).wheel().model().time ==> final(self).entries() == old(self).entries().insert(handle.0, TimerState { is_ready: true, wheel_handle: None })
                && final(self).wheel().model() == old(self).wheel().model() && final(self).wheel().contexts() == old(self).wheel().contexts(),
            expire_time > old(self).wheel().model().time ==> ({
                &&& final(self).entries().contains_key(handle.0)
                &&& final(self).entries()[handle.0].wheel_handle matches Some(wheel_handle)
                &&& final(self).entries() == old(self).entries().insert(
                    handle.0,
                    TimerState { is_ready: false, wheel_handle: Some(wheel_handle) },
                )
                &&& !old(self).wheel().model().expire.contains_key(wheel_handle.key())
                &&& final(self).wheel().model() == Wheel::<TimerHandle, 3, 2048>::add_timer(
                    old(self).wheel().model(),
                    wheel_handle.key(),
                    expire_time,
                )
                &&& final(self).wheel().contexts() == old(self).wheel().contexts().insert(
                    wheel_handle.key(),
                    handle,
                )
            }),
    {
        proof {
            Self::lemma_params();
        }
        let key = state_slab_insert(
            &mut self.entries,
            TimerState { is_ready: false, wheel_handle: None },
        );
        let handle = TimerHandle(key);
        match self.wheel.start_timer_absolute(expire_time, handle) {
            Ok(wheel_handle) => {
                state_slab_set(
                    &mut self.entries,
                    key,
                    TimerState { is_ready: false, wheel_handle: Some(wheel_handle) },
                );
            },
            Err(_) => {
                state_slab_set(
                    &mut self.entries,
                    key,
                    TimerState { is_ready: true, wheel_handle: None },
                );
            },
        }
        handle
    }

    /// Stop a timer and forget its entry
    ///
    /// The handle must be the handle of a timer that has not been stopped (the pool panics
    /// otherwise).
    pub fn stop_timer(&mut self, handle: TimerHandle)
        requires
            old(self).wf(),
            old(self).entries().contains_key(handle.0),
        ensures
            final(self).wf(),
            final(self).entries() == old(self).entries().remove(handle.0),
            final(self).previous_ticks() == old(self).previous_ticks(),
            old(self).entries()[handle.0].wheel_handle matches Some(wheel_handle) ==> (if old(self).wheel().model().expire.contains_key(wheel_handle.key()) {
                final(self).wheel().model() == Wheel::<TimerHandle, 3, 2048>::remove_timer(
                    old(self).wheel().model(),
                    wheel_handle.key(),
                ) && final(self).wheel().contexts() == old(self).wheel().contexts().remove(
                    wheel_handle.key(),
                )
            } else {
                final(self).wheel().model() == old(self).wheel().model() && final(self).wheel().contexts() == old(self).wheel().contexts()
            }),
            old(self).entries()[handle.0].wheel_handle is None ==> final(self).wheel()
                == old(self).wheel(),
    {
        let entry = state_slab_remove(&mut self.entries, handle.0);
        if let Some(wheel_handle) = entry.wheel_handle {
            let _ = self.wheel.stop_timer(wheel_handle);
        }
    }

    /// The state of a timer
    pub fn state(&self, handle: TimerHandle) -> (state: Option<&TimerState>)
        ensures
            state == (if self.entries().contains_key(handle.0) {
                Some(&self.entries()[handle.0])
            } else {
                None
            }),
    {
        state_slab_get(&self.entries, handle.0)
    }

    /// Expire the timers due by the time `now` in ticks, marking them ready
    pub fn expire_timers(&mut self, now: u64)
        requires
            old(self).wf(),
            old(self).wheel().model().time + (if now > old(self).previous_ticks() {
                now - old(self).previous_ticks()
            } else {
                0
            }) <= u64::MAX,
        ensures
            final(self).wf(),
            final(self).previous_ticks() == now,
            ({
                let ticks = if now > old(self).previous_ticks() {
                    now - old(self).previous_ticks()
                } else {
                    0
                };
                let expired = Wheel::<TimerHandle, 3, 2048>::expire_model(
                    old(self).wheel().model(),
                    ticks as nat,
                );
                &&& final(self).wheel().model() == expired.0
                &&& final(self).entries() == mark_ready(
                    old(self).entries(),
                    expired.1.map_values(|k: usize| old(self).wheel().contexts()[k]),
                )
            }),
    {
        proof {
            Self::lemma_params();
        }
        let ticks = now.saturating_sub(self.previous_ticks);
        proof {
            self.wheel.lemma_model_wf();
            Wheel::<TimerHandle, 3, 2048>::lemma_expire_accounts_for_every_timer(
                self.wheel.model(),
                ticks as nat,
            );
        }
        let timer_handles = self.wheel.expire_timers(ticks);
        self.previous_ticks = now;
        let ghost start = self.entries();
        let ghost wheel_after = self.wheel;
        let mut i: usize = 0;
        while i < timer_handles.len()
            invariant
                self.wheel == wheel_after,
                self.previous_ticks == now,
                0 <= i <= timer_handles@.len(),
                self.entries() == mark_ready(start, timer_handles@.take(i as int)),
            decreases timer_handles@.len() - i,
        {
            let handle = timer_handles[i];
            proof {
                assert(timer_handles@.take(i + 1).drop_last() =~= timer_handles@.take(i as int));
                assert(timer_handles@.take(i + 1).last() == handle);
            }
            // Note: no waker.wake_by_ref() here since this is designed to be called from the
            // same event loop as the future is polled from
            if let Some(_) = state_slab_get(&self.entries, handle.0) {
                state_slab_set(
                    &mut self.entries,
                    handle.0,
                    TimerState { is_ready: true, wheel_handle: None },
                );
            }
            i = i + 1;
        }
        proof {
            assert(timer_handles@.take(timer_handles@.len() as int) =~= timer_handles@);
            let m0 = old(self).wheel().model();
            let ex = Wheel::<TimerHandle, 3, 2048>::expire_model(m0, ticks as nat);
            let c0 = old(self).wheel().contexts();
            let e0 = old(self).entries();
            let handles = timer_handles@;
            assert(handles == ex.1.map_values(|k: usize| c0[k]));
            assert(self.wheel().model() == ex.0);
            assert(self.wheel().contexts() == c0.restrict(ex.0.expire.dom()));
            // An expired wheel timer's entry is the one its context names
            assert forall|key: usize| #[trigger] handles.contains(TimerHandle(key)) implies exists|k: usize|
                ex.1.contains(k) && c0[k] == TimerHandle(key) by {
                let x = choose|x: int| 0 <= x < handles.len() && handles[x] == TimerHandle(key);
                assert(ex.1[x] == ex.1[x] && ex.1.contains(ex.1[x]));
            }
            assert forall|key: usize|
                #[trigger] self.entries().contains_key(key) && self.entries()[key].wheel_handle is Some
                    implies self.entry_runs(key) by {
                lemma_mark_ready_entry(e0, handles, key);
                assert(e0.contains_key(key));
                assert(!handles.contains(TimerHandle(key)));
                assert(self.entries()[key] == e0[key]);
                assert(old(self).entry_runs(key));
                let h = e0[key].wheel_handle->0;
                if !ex.0.expire.contains_key(h.key()) {
                    assert(ex.1.contains(h.key()));
                    let x = choose|x: int| 0 <= x < ex.1.len() && ex.1[x] == h.key();
                    assert(handles[x] == c0[h.key()]);
                }
                assert(ex.0.expire.dom().contains(h.key()));
                old(self).wheel().lemma_contexts_of_running_timers();
                assert(c0.dom().contains(h.key()));
                assert(self.wheel().contexts()[h.key()] == c0[h.key()]);
                assert(c0[h.key()] == TimerHandle(key));
            }
            assert forall|k: usize| #[trigger] self.wheel().model().expire.contains_key(k)
                implies self.wheel_timer_has_entry(k) by {
                assert(m0.expire.contains_key(k));
                assert(old(self).wheel_timer_has_entry(k));
                let c = c0[k];
                assert(c == TimerHandle(c.0));
                lemma_mark_ready_entry(e0, handles, c.0);
                if handles.contains(TimerHandle(c.0)) {
                    let k2 = choose|k2: usize| ex.1.contains(k2) && c0[k2] == TimerHandle(c.0);
                    let x = choose|x: int| 0 <= x < ex.1.len() && ex.1[x] == k2;
                    assert(m0.expire.contains_key(ex.1[x]));
                    assert(old(self).wheel_timer_has_entry(k2));
                    assert(k2 == k);
                    assert(!ex.0.expire.contains_key(ex.1[x]));
                }
                old(self).wheel().lemma_contexts_of_running_timers();
                assert(c0.dom().contains(k));
                assert(self.wheel().contexts()[k] == c);
            }
        }
    }

    /// Get the duration until the next expiration in ticks
    ///
    /// Returns the duration until the next expiration given in ticks since the last time
    /// [`Self::expire_timers()`] was called. If there are no timers pending, [`None`] is
    /// returned. No running timer expires before that time.
    pub fn next_expiration(&self) -> (r: Option<u64>)
        requires
            self.wf(),
        ensures
            earliest_expiry(self.wheel().model().expire) matches Some(t) ==> t >= self.previous_ticks(),
            r == (match earliest_expiry(self.wheel().model().expire) {
                Some(t) => Some((t - self.previous_ticks()) as u64),
                None => None,
            }),
    {
        proof {
            Self::lemma_params();
        }
        let next = self.wheel.next_expiration();
        proof {
            self.wheel.lemma_wf_on_time();
            if let Some(t) = next {
                let k = choose|k: usize| self.wheel.model().expire.contains_key(k)
                    && self.wheel.model().expire[k] == t;
                Wheel::<TimerHandle, 3, 2048>::lemma_running_not_past(self.wheel.model(), k);
            }
        }
        match next {
            Some(ticks) => Some(ticks - self.previous_ticks),
            None => None,
        }
    }
}

} // verus!
