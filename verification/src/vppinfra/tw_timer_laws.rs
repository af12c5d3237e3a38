//! Laws of the timer wheel, stated and proved over its model

use vstd::prelude::*;
use vstd::arithmetic::power::{pow, lemma_pow_positive};
use super::tw_timer::{TimerWheel, WheelModel};

verus! {

impl<T, const NUM_LEVELS: usize, const NUM_SLOTS: usize> TimerWheel<T, NUM_LEVELS, NUM_SLOTS> {
    /// `after` is what is left of `before` once the timers of `expired` have been taken out:
    /// every timer of `before` is either still running, with the same expiry time, or listed
    /// once in `expired`, and no listed timer expires after the time of `after`
    pub open spec fn accounts(before: WheelModel, after: WheelModel, expired: Seq<usize>) -> bool {
        &&& expired.no_duplicates()
        &&& forall|a: int|
            0 <= a < expired.len() ==> before.expire.contains_key(#[trigger] expired[a])
                && !after.expire.contains_key(expired[a]) && before.expire[expired[a]]
                <= after.time
        &&& forall|k: usize| #[trigger]
            after.expire.contains_key(k) ==> before.expire.contains_key(k) && after.expire[k]
                == before.expire[k]
        &&& forall|k: usize| #[trigger]
            before.expire.contains_key(k) ==> after.expire.contains_key(k) || expired.contains(k)
    }

    pub(crate) proof fn lemma_level_for_bound(delta: int, level: nat)
        ensures
            Self::level_for(delta, level) <= NUM_LEVELS,
            level <= NUM_LEVELS ==> level <= Self::level_for(delta, level),
        decreases NUM_LEVELS - level,
    {
        if level < NUM_LEVELS && delta >= pow(NUM_SLOTS as int, level + 1) {
            Self::lemma_level_for_bound(delta, level + 1);
        }
    }

    /// Timers are always placed in one of the slots
    pub proof fn lemma_slot_for_in_range(positions: Seq<usize>, time: u64, delta: int)
        requires
            Self::params_ok(),
            positions.len() == NUM_LEVELS,
            forall|l: int| 0 <= l < NUM_LEVELS ==> #[trigger] positions[l] < NUM_SLOTS,
        ensures
            0 <= Self::slot_for(positions, time, delta) < NUM_LEVELS * NUM_SLOTS,
    {
        let d = if delta < 1 {
            1
        } else {
            delta
        };
        let level = Self::level_for(d, 0);
        Self::lemma_level_for_bound(d, 0);
        let s = NUM_SLOTS as int;
        if level < NUM_LEVELS {
            let r = ((time + d) / pow(NUM_SLOTS as int, level) - 1) % s;
            assert(0 <= r < s);
            assert(0 <= level * s + r < NUM_LEVELS * s) by (nonlinear_arith)
                requires
                    0 <= level < NUM_LEVELS,
                    0 <= r < s,
            ;
        } else {
            let r = (positions[NUM_LEVELS - 1] + s - 1) % s;
            assert(0 <= r < s);
            assert(0 <= (NUM_LEVELS - 1) * s + r < NUM_LEVELS * s) by (nonlinear_arith)
                requires
                    1 <= NUM_LEVELS,
                    0 <= r < s,
            ;
        }
    }

    /// Placing an unplaced timer keeps the model partitioned
    pub(crate) proof fn lemma_place_partitioned(m: WheelModel, key: usize, rest: Seq<usize>)
        requires
            Self::params_ok(),
            Self::positions_ok(m),
            Self::partitioned(m, seq![key] + rest),
        ensures
            Self::partitioned(Self::place(m, key), rest),
            Self::positions_ok(Self::place(m, key)),
    {
        let n = NUM_LEVELS * NUM_SLOTS;
        let chain = seq![key] + rest;
        assert(chain[0] == key);
        let i = Self::slot_for(m.positions, m.time, m.expire[key] - m.time);
        Self::lemma_slot_for_in_range(m.positions, m.time, m.expire[key] - m.time);
        let p = Self::place(m, key);
        let new_slot = seq![key] + m.slots[i];
        assert(p.slots[i] == new_slot);
        assert forall|x: int, a: int|
            0 <= x < n && 0 <= a < p.slots[x].len() implies #[trigger] p.slots[x][a] == (if x
            == i {
            if a == 0 {
                key
            } else {
                m.slots[i][a - 1]
            }
        } else {
            m.slots[x][a]
        }) by {}
        assert forall|x: int, y: int, a: int, b: int|
            0 <= x < n && 0 <= y < n && 0 <= a < p.slots[x].len() && 0 <= b < p.slots[y].len()
                && #[trigger] p.slots[x][a] == #[trigger] p.slots[y][b] implies x == y && a
                == b by {
            if x == i && a == 0 {
                if !(y == i && b == 0) {
                    let bb = if y == i { b - 1 } else { b };
                    assert(m.slots[y][bb] == key);
                    assert(chain.contains(m.slots[y][bb]));
                }
            } else if y == i && b == 0 {
                let aa = if x == i { a - 1 } else { a };
                assert(m.slots[x][aa] == key);
                assert(chain.contains(m.slots[x][aa]));
            } else {
                let aa = if x == i { a - 1 } else { a };
                let bb = if y == i { b - 1 } else { b };
                assert(m.slots[x][aa] == m.slots[y][bb]);
            }
        }
        assert(rest.no_duplicates()) by {
            assert forall|a: int, b: int|
                0 <= a < rest.len() && 0 <= b < rest.len() && a != b implies rest[a]
                != rest[b] by {
                assert(chain[a + 1] == rest[a]);
                assert(chain[b + 1] == rest[b]);
            }
        }
        assert forall|x: int, a: int|
            0 <= x < n && 0 <= a < p.slots[x].len() implies !rest.contains(
                #[trigger] p.slots[x][a],
            ) && p.expire.contains_key(p.slots[x][a]) by {
            if x == i && a == 0 {
                if rest.contains(key) {
                    let b = choose|b: int| 0 <= b < rest.len() && rest[b] == key;
                    assert(chain[b + 1] == key);
                }
            } else {
                let aa = if x == i { a - 1 } else { a };
                if rest.contains(m.slots[x][aa]) {
                    let b = choose|b: int| 0 <= b < rest.len() && rest[b] == m.slots[x][aa];
                    assert(chain[b + 1] == rest[b]);
                }
            }
        }
        assert forall|a: int| 0 <= a < rest.len() implies p.expire.contains_key(
            #[trigger] rest[a],
        ) by {
            assert(chain[a + 1] == rest[a]);
        }
        assert forall|k: usize| #[trigger] p.expire.contains_key(k) implies rest.contains(k)
            || exists|x: int| 0 <= x < n && #[trigger] p.slots[x].contains(k) by {
            if k == key {
                assert(p.slots[i][0] == key);
                assert(p.slots[i].contains(k));
            } else if chain.contains(k) {
                let b = choose|b: int| 0 <= b < chain.len() && chain[b] == k;
                assert(rest[b - 1] == k);
            } else {
                let x = choose|x: int| 0 <= x < n && #[trigger] m.slots[x].contains(k);
                let a = choose|a: int| 0 <= a < m.slots[x].len() && m.slots[x][a] == k;
                if x == i {
                    assert(p.slots[x][a + 1] == k);
                } else {
                    assert(p.slots[x][a] == k);
                }
                assert(p.slots[x].contains(k));
            }
        }
    }

    /// Taking an expired, unplaced timer out keeps the model partitioned
    proof fn lemma_forget_partitioned(m: WheelModel, key: usize, rest: Seq<usize>)
        requires
            Self::partitioned(m, seq![key] + rest),
        ensures
            Self::partitioned(
                WheelModel {
                    time: m.time,
                    positions: m.positions,
                    slots: m.slots,
                    expire: m.expire.remove(key),
                },
                rest,
            ),
    {
        let n = NUM_LEVELS * NUM_SLOTS;
        let chain = seq![key] + rest;
        assert(chain[0] == key);
        let f = WheelModel {
            time: m.time,
            positions: m.positions,
            slots: m.slots,
            expire: m.expire.remove(key),
        };
        assert(rest.no_duplicates()) by {
            assert forall|a: int, b: int|
                0 <= a < rest.len() && 0 <= b < rest.len() && a != b implies rest[a]
                != rest[b] by {
                assert(chain[a + 1] == rest[a]);
                assert(chain[b + 1] == rest[b]);
            }
        }
        assert forall|x: int, a: int|
            0 <= x < n && 0 <= a < f.slots[x].len() implies !rest.contains(
                #[trigger] f.slots[x][a],
            ) && f.expire.contains_key(f.slots[x][a]) by {
            if rest.contains(m.slots[x][a]) {
                let b = choose|b: int| 0 <= b < rest.len() && rest[b] == m.slots[x][a];
                assert(chain[b + 1] == rest[b]);
            }
            if m.slots[x][a] == key {
                assert(chain.contains(key));
            }
        }
        assert forall|a: int| 0 <= a < rest.len() implies f.expire.contains_key(
            #[trigger] rest[a],
        ) by {
            assert(chain[a + 1] == rest[a]);
        }
        assert forall|k: usize| #[trigger] f.expire.contains_key(k) implies rest.contains(k)
            || exists|x: int| 0 <= x < n && #[trigger] f.slots[x].contains(k) by {
            assert(m.expire.contains_key(k));
            assert(k != key);
            if chain.contains(k) {
                let b = choose|b: int| 0 <= b < chain.len() && chain[b] == k;
                assert(rest[b - 1] == k);
            } else {
                let x = choose|x: int| 0 <= x < n && #[trigger] m.slots[x].contains(k);
                assert(f.slots[x].contains(k));
            }
        }
    }

    /// Draining a chain of unplaced timers accounts for all of them
    pub(crate) proof fn lemma_drain_accounts(m: WheelModel, chain: Seq<usize>)
        requires
            Self::params_ok(),
            Self::positions_ok(m),
            Self::partitioned(m, chain),
        ensures
            Self::partitioned(Self::drain(m, chain).0, Seq::empty()),
            Self::positions_ok(Self::drain(m, chain).0),
            Self::drain(m, chain).0.time == m.time,
            Self::drain(m, chain).0.positions == m.positions,
            Self::accounts(m, Self::drain(m, chain).0, Self::drain(m, chain).1),
            forall|a: int|
                0 <= a < Self::drain(m, chain).1.len() ==> chain.contains(
                    #[trigger] Self::drain(m, chain).1[a],
                ),
        decreases chain.len(),
    {
        if chain.len() == 0 {
            assert(chain =~= Seq::<usize>::empty());
        } else {
            let key = chain[0];
            let rest = chain.drop_first();
            assert(chain == seq![key] + rest);
            assert(m.expire.contains_key(key));
            if m.expire[key] <= m.time {
                let f = WheelModel {
                    time: m.time,
                    positions: m.positions,
                    slots: m.slots,
                    expire: m.expire.remove(key),
                };
                Self::lemma_forget_partitioned(m, key, rest);
                Self::lemma_drain_accounts(f, rest);
                let r = Self::drain(f, rest);
                let e = seq![key] + r.1;
                assert(Self::drain(m, chain).1 == e);
                assert forall|a: int| 0 <= a < e.len() implies #[trigger] e[a] == (if a == 0 {
                    key
                } else {
                    r.1[a - 1]
                }) by {}
                assert(e.no_duplicates()) by {
                    assert forall|a: int, b: int|
                        0 <= a < e.len() && 0 <= b < e.len() && a != b implies e[a] != e[b] by {
                        if a == 0 {
                            assert(f.expire.contains_key(r.1[b - 1]));
                        } else if b == 0 {
                            assert(f.expire.contains_key(r.1[a - 1]));
                        }
                    }
                }
                assert forall|a: int| 0 <= a < e.len() implies chain.contains(#[trigger] e[a]) by {
                    if a > 0 {
                        let b = choose|b: int| 0 <= b < rest.len() && rest[b] == r.1[a - 1];
                        assert(chain[b + 1] == rest[b]);
                    }
                }
                assert forall|k: usize| #[trigger] m.expire.contains_key(k) implies r.0.expire.contains_key(
                    k,
                ) || e.contains(k) by {
                    if k == key {
                        assert(e[0] == key);
                    } else {
                        assert(f.expire.contains_key(k));
                        if r.1.contains(k) {
                            let a = choose|a: int| 0 <= a < r.1.len() && r.1[a] == k;
                            assert(e[a + 1] == k);
                        }
                    }
                }
            } else {
                Self::lemma_place_partitioned(m, key, rest);
                let p = Self::place(m, key);
                Self::lemma_drain_accounts(p, rest);
                let r = Self::drain(p, rest);
                assert forall|a: int| 0 <= a < r.1.len() implies chain.contains(#[trigger] r.1[a]) by {
                    let b = choose|b: int| 0 <= b < rest.len() && rest[b] == r.1[a];
                    assert(chain[b + 1] == rest[b]);
                }
            }
        }
    }

    /// Accounting composes
    pub(crate) proof fn lemma_accounts_trans(
        a: WheelModel,
        b: WheelModel,
        c: WheelModel,
        e1: Seq<usize>,
        e2: Seq<usize>,
    )
        requires
            Self::accounts(a, b, e1),
            Self::accounts(b, c, e2),
            b.time <= c.time,
        ensures
            Self::accounts(a, c, e1 + e2),
    {
        let e = e1 + e2;
        assert forall|x: int| 0 <= x < e.len() implies #[trigger] e[x] == (if x < e1.len() {
            e1[x]
        } else {
            e2[x - e1.len()]
        }) by {}
        assert(e.no_duplicates()) by {
            assert forall|x: int, y: int|
                0 <= x < e.len() && 0 <= y < e.len() && x != y implies e[x] != e[y] by {
                if x < e1.len() && y >= e1.len() {
                    assert(b.expire.contains_key(e2[y - e1.len()]));
                } else if y < e1.len() && x >= e1.len() {
                    assert(b.expire.contains_key(e2[x - e1.len()]));
                }
            }
        }
        assert forall|x: int| 0 <= x < e.len() implies a.expire.contains_key(#[trigger] e[x])
            && !c.expire.contains_key(e[x]) && a.expire[e[x]] <= c.time by {
            if x >= e1.len() {
                assert(b.expire.contains_key(e2[x - e1.len()]));
            } else if c.expire.contains_key(e1[x]) {
                assert(b.expire.contains_key(e1[x]));
            }
        }
        assert forall|k: usize| #[trigger] a.expire.contains_key(k) implies c.expire.contains_key(k)
            || e.contains(k) by {
            if e1.contains(k) {
                let x = choose|x: int| 0 <= x < e1.len() && e1[x] == k;
                assert(e[x] == k);
            } else if !c.expire.contains_key(k) {
                assert(b.expire.contains_key(k));
                let x = choose|x: int| 0 <= x < e2.len() && e2[x] == k;
                assert(e[x + e1.len()] == k);
            }
        }
    }

    /// Taking the timers of slot `i` out as a chain keeps the model partitioned
    pub(crate) proof fn lemma_detach_partitioned(m: WheelModel, i: int)
        requires
            Self::partitioned(m, Seq::empty()),
            0 <= i < NUM_LEVELS * NUM_SLOTS,
        ensures
            Self::partitioned(
                WheelModel {
                    time: m.time,
                    positions: m.positions,
                    slots: m.slots.update(i, Seq::empty()),
                    expire: m.expire,
                },
                m.slots[i],
            ),
    {
        let n = NUM_LEVELS * NUM_SLOTS;
        let chain = m.slots[i];
        let start = WheelModel {
            time: m.time,
            positions: m.positions,
            slots: m.slots.update(i, Seq::empty()),
            expire: m.expire,
        };
                assert(chain.no_duplicates()) by {
                    assert forall|a: int, b: int|
                        0 <= a < chain.len() && 0 <= b < chain.len() && a != b implies chain[a]
                        != chain[b] by {
                        assert(m.slots[i][a] == chain[a]);
                    }
                }
                assert forall|x: int, a: int|
                    0 <= x < n && 0 <= a < start.slots[x].len() implies !chain.contains(
                        #[trigger] start.slots[x][a],
                    ) by {
                    assert(x != i);
                    if chain.contains(start.slots[x][a]) {
                        let b = choose|b: int| 0 <= b < chain.len() && chain[b] == start.slots[x][a];
                        assert(m.slots[i][b] == m.slots[x][a]);
                    }
                }
                assert forall|a: int| 0 <= a < chain.len() implies start.expire.contains_key(
                    #[trigger] chain[a],
                ) by {
                    assert(m.slots[i][a] == chain[a]);
                }
                assert forall|k: usize| #[trigger] start.expire.contains_key(k) implies chain.contains(
                    k,
                ) || exists|x: int| 0 <= x < n && #[trigger] start.slots[x].contains(k) by {
                    assert(Seq::<usize>::empty().contains(k) == false);
                    let x = choose|x: int| 0 <= x < n && #[trigger] m.slots[x].contains(k);
                    if x != i {
                        assert(start.slots[x].contains(k));
                    }
                }
                assert forall|x: int, y: int, a: int, b: int|
                    0 <= x < n && 0 <= y < n && 0 <= a < start.slots[x].len() && 0 <= b
                        < start.slots[y].len() && #[trigger] start.slots[x][a]
                        == #[trigger] start.slots[y][b] implies x == y && a == b by {
                    assert(m.slots[x][a] == m.slots[y][b]);
                }
                }

    /// Processing a level accounts for every timer
    pub(crate) proof fn lemma_process_accounts(m: WheelModel, level: nat)
        requires
            Self::params_ok(),
            Self::positions_ok(m),
            Self::partitioned(m, Seq::empty()),
        ensures
            Self::partitioned(Self::process_model(m, level).0, Seq::empty()),
            Self::positions_ok(Self::process_model(m, level).0),
            Self::process_model(m, level).0.time == m.time,
            Self::accounts(m, Self::process_model(m, level).0, Self::process_model(m, level).1),
        decreases NUM_LEVELS - level,
    {
        let n = NUM_LEVELS * NUM_SLOTS;
        if level >= NUM_LEVELS {
            assert(Self::accounts(m, m, Seq::empty()));
        } else {
            let i = level * NUM_SLOTS + m.positions[level as int];
            assert(0 <= i < n) by (nonlinear_arith)
                requires
                    i == level * NUM_SLOTS + m.positions[level as int],
                    0 <= m.positions[level as int] < NUM_SLOTS,
                    level < NUM_LEVELS,
                    n == NUM_LEVELS * NUM_SLOTS,
            ;
            let chain = m.slots[i];
            let start = WheelModel {
                time: m.time,
                positions: m.positions,
                slots: m.slots.update(i, Seq::empty()),
                expire: m.expire,
            };
            Self::lemma_detach_partitioned(m, i);
            Self::lemma_drain_accounts(start, chain);
            let drained = Self::drain(start, chain);
            let d = drained.0;
            let new_position = ((d.positions[level as int] + 1) % (NUM_SLOTS as int)) as usize;
            let advanced = WheelModel {
                time: d.time,
                positions: d.positions.update(level as int, new_position),
                slots: d.slots,
                expire: d.expire,
            };
            assert(Self::positions_ok(advanced));
            assert(Self::accounts(m, advanced, drained.1));
            assert(Self::partitioned(d, Seq::empty()));
            assert(advanced.slots == d.slots && advanced.expire == d.expire);
            assert(Self::partitioned(advanced, Seq::empty()));
            if new_position == 0 {
                Self::lemma_process_accounts(advanced, level + 1);
                let r = Self::process_model(advanced, level + 1);
                Self::lemma_accounts_trans(m, advanced, r.0, drained.1, r.1);
            }
        }
    }

    /// Level 0 moves on with the time
    proof fn lemma_mod_step(p: int, t: int, n: int)
        requires
            n >= 1,
            t >= 0,
            p == t % n,
        ensures
            (p + 1) % n == (t + 1) % n,
    {
        vstd::arithmetic::div_mod::lemma_add_mod_noop(t, 1, n);
        if n > 1 {
            vstd::arithmetic::div_mod::lemma_small_mod(1, n as nat);
        }
    }

    /// Law: a tick advances the time by one and accounts for every timer: each timer is either
    /// still running, with the same expiry time, or expired by the tick, once, and no timer is
    /// expired before its expiry time. The model stays well formed.
    pub proof fn lemma_tick_accounts_for_every_timer(m: WheelModel)
        requires
            Self::params_ok(),
            Self::model_wf(m),
            m.time < u64::MAX,
        ensures
            Self::model_wf(Self::tick_model(m).0),
            Self::tick_model(m).0.time == m.time + 1,
            Self::accounts(m, Self::tick_model(m).0, Self::tick_model(m).1),
    {
        let mt = WheelModel {
            time: (m.time + 1) as u64,
            positions: m.positions,
            slots: m.slots,
            expire: m.expire,
        };
        assert(Self::partitioned(mt, Seq::empty()));
        Self::lemma_process_accounts(mt, 0);
        Self::lemma_process_frame(mt, 0);
        let f = Self::process_model(mt, 0).0;
        Self::lemma_mod_step(m.positions[0] as int, m.time as int, NUM_SLOTS as int);
        assert(f.positions[0] == f.time % NUM_SLOTS as u64);
    }

    /// Law: advancing time by `ticks` ticks advances the time by that much and accounts for
    /// every timer: each timer is either still running, with the same expiry time, or expired,
    /// once, and no expired timer expires after the new time. The model stays well formed.
    pub proof fn lemma_expire_accounts_for_every_timer(m: WheelModel, ticks: nat)
        requires
            Self::params_ok(),
            Self::model_wf(m),
            m.time + ticks <= u64::MAX,
        ensures
            Self::model_wf(Self::expire_model(m, ticks).0),
            Self::expire_model(m, ticks).0.time == m.time + ticks,
            Self::accounts(m, Self::expire_model(m, ticks).0, Self::expire_model(m, ticks).1),
        decreases ticks,
    {
        if ticks == 0 {
            assert(Self::accounts(m, m, Seq::empty()));
        } else {
            Self::lemma_expire_accounts_for_every_timer(m, (ticks - 1) as nat);
            let b = Self::expire_model(m, (ticks - 1) as nat);
            Self::lemma_tick_accounts_for_every_timer(b.0);
            let t = Self::tick_model(b.0);
            Self::lemma_accounts_trans(m, b.0, t.0, b.1, t.1);
        }
    }

    /// Draining a chain that does not hold `key` leaves `key` in its slot with its expiry time
    pub(crate) proof fn lemma_drain_keeps(m: WheelModel, chain: Seq<usize>, key: usize, j: int)
        requires
            Self::params_ok(),
            Self::positions_ok(m),
            m.slots.len() == NUM_LEVELS * NUM_SLOTS,
            0 <= j < NUM_LEVELS * NUM_SLOTS,
            m.slots[j].contains(key),
            m.expire.contains_key(key),
            !chain.contains(key),
        ensures
            Self::drain(m, chain).0.slots[j].contains(key),
            Self::drain(m, chain).0.slots.len() == m.slots.len(),
            Self::drain(m, chain).0.expire.contains_key(key),
            Self::drain(m, chain).0.expire[key] == m.expire[key],
        decreases chain.len(),
    {
        if chain.len() > 0 {
            let k = chain[0];
            let rest = chain.drop_first();
            assert(!rest.contains(key)) by {
                if rest.contains(key) {
                    let b = choose|b: int| 0 <= b < rest.len() && rest[b] == key;
                    assert(chain[b + 1] == key);
                }
            }
            assert(k != key);
            if m.expire[k] <= m.time {
                Self::lemma_drain_keeps(
                    WheelModel {
                        time: m.time,
                        positions: m.positions,
                        slots: m.slots,
                        expire: m.expire.remove(k),
                    },
                    rest,
                    key,
                    j,
                );
            } else {
                let i = Self::slot_for(m.positions, m.time, m.expire[k] - m.time);
                Self::lemma_slot_for_in_range(m.positions, m.time, m.expire[k] - m.time);
                let p = Self::place(m, k);
                assert(p.slots[j].contains(key)) by {
                    let a = choose|a: int| 0 <= a < m.slots[j].len() && m.slots[j][a] == key;
                    if i == j {
                        assert(p.slots[j][a + 1] == key);
                    } else {
                        assert(p.slots[j][a] == key);
                    }
                }
                Self::lemma_drain_keeps(p, rest, key, j);
            }
        }
    }

    /// Draining a chain emits every timer of the chain that is due
    pub(crate) proof fn lemma_drain_emits_due(m: WheelModel, chain: Seq<usize>, key: usize)
        requires
            chain.contains(key),
            chain.no_duplicates(),
            m.expire.contains_key(key),
            m.expire[key] <= m.time,
        ensures
            Self::drain(m, chain).1.contains(key),
        decreases chain.len(),
    {
        let k = chain[0];
        let rest = chain.drop_first();
        if k == key {
            assert(Self::drain(m, chain).1[0] == key);
        } else {
            assert(rest.contains(key)) by {
                let b = choose|b: int| 0 <= b < chain.len() && chain[b] == key;
                assert(rest[b - 1] == key);
            }
            assert(rest.no_duplicates()) by {
                assert forall|a: int, b: int|
                    0 <= a < rest.len() && 0 <= b < rest.len() && a != b implies rest[a]
                    != rest[b] by {
                    assert(chain[a + 1] == rest[a]);
                    assert(chain[b + 1] == rest[b]);
                }
            }
            if m.expire[k] <= m.time {
                let f = WheelModel {
                    time: m.time,
                    positions: m.positions,
                    slots: m.slots,
                    expire: m.expire.remove(k),
                };
                Self::lemma_drain_emits_due(f, rest, key);
                let e = Self::drain(f, rest).1;
                let x = choose|x: int| 0 <= x < e.len() && e[x] == key;
                assert(Self::drain(m, chain).1[x + 1] == key);
            } else {
                Self::lemma_drain_emits_due(Self::place(m, k), rest, key);
            }
        }
    }

    /// The tick at which a timer expiring at `expire_time`, started at `time`, is due: its expiry
    /// time, or the next tick when it is already due
    pub open spec fn fire_time(time: u64, expire_time: u64) -> int {
        if expire_time > time {
            expire_time as int
        } else {
            time + 1
        }
    }

    /// Law: stopping a timer right after starting it gives back the wheel as it was
    pub proof fn lemma_start_then_stop(m: WheelModel, key: usize, expire_time: u64)
        requires
            Self::params_ok(),
            Self::model_wf(m),
            !m.expire.contains_key(key),
            expire_time >= m.time,
        ensures
            Self::remove_timer(Self::add_timer(m, key, expire_time), key) == m,
    {
        let n = NUM_LEVELS * NUM_SLOTS;
        let m1 = Self::add_timer(m, key, expire_time);
        let i = Self::slot_for(m.positions, m.time, expire_time - m.time);
        Self::lemma_slot_for_in_range(m.positions, m.time, expire_time - m.time);
        assert(m.expire.insert(key, expire_time)[key] - m.time == expire_time - m.time);
        assert(m1.slots[i] == seq![key] + m.slots[i]);
        assert forall|x: int, a: int| 0 <= x < n && 0 <= a < m.slots[x].len() implies #[trigger]
            m.slots[x][a] != key by {
            assert(m.expire.contains_key(m.slots[x][a]));
        }
        assert(m1.slots[i].contains(key)) by {
            assert(m1.slots[i][0] == key);
        }
        let si = Self::slot_of(m1, key);
        assert(si == i) by {
            let a = choose|a: int| 0 <= a < m1.slots[si].len() && m1.slots[si][a] == key;
            if si != i {
                assert(m1.slots[si][a] == m.slots[si][a]);
            }
        }
        let j = m1.slots[i].index_of(key);
        assert(j == 0) by {
            if j != 0 {
                assert(m1.slots[i][j] == m.slots[i][j - 1]);
            }
        }
        let r = Self::remove_timer(m1, key);
        assert(m1.slots[i].remove(0) =~= m.slots[i]);
        assert(r.slots =~= m.slots);
        assert(r.expire =~= m.expire);
    }

    /// Law: expiring `a` ticks and then `b` more is expiring `a + b` ticks: the same model, and
    /// the timers of the first call followed by those of the second; expiring no ticks changes
    /// nothing and expires nothing
    pub proof fn lemma_expire_split(m: WheelModel, a: nat, b: nat)
        ensures
            Self::expire_model(m, a + b).0 == Self::expire_model(Self::expire_model(m, a).0, b).0,
            Self::expire_model(m, a + b).1 == Self::expire_model(m, a).1 + Self::expire_model(
                Self::expire_model(m, a).0,
                b,
            ).1,
            Self::expire_model(m, 0) == (m, Seq::<usize>::empty()),
        decreases b,
    {
        let first = Self::expire_model(m, a);
        if b == 0 {
            assert(first.1 + Seq::<usize>::empty() =~= first.1);
            assert((a + b) as nat == a);
        } else {
            Self::lemma_expire_split(m, a, (b - 1) as nat);
            assert((a + b - 1) as nat == a + (b - 1) as nat);
            let before = Self::expire_model(first.0, (b - 1) as nat);
            let last = Self::tick_model(before.0);
            assert(Self::expire_model(m, a + b).1 == Self::expire_model(m, (a + b - 1) as nat).1
                + last.1);
            assert((first.1 + before.1) + last.1 =~= first.1 + (before.1 + last.1));
        }
    }
}

} // verus!
