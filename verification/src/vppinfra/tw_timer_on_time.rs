//! Every timer of the wheel fires at the tick at which it is due: never before, and never after

use vstd::prelude::*;
use vstd::arithmetic::power::{pow, lemma_pow_positive};
use vstd::arithmetic::div_mod::{lemma_fundamental_div_mod, lemma_small_mod};
use super::tw_timer::{TimerWheel, WheelModel};

verus! {

impl<T, const NUM_LEVELS: usize, const NUM_SLOTS: usize> TimerWheel<T, NUM_LEVELS, NUM_SLOTS> {
    /// The next turn after `time` of the slot numbered `idx` (`level * NUM_SLOTS + slot`)
    pub open spec fn turn_of(time: int, idx: int) -> int {
        Self::next_turn(time, (idx / (NUM_SLOTS as int)) as nat, idx % (NUM_SLOTS as int))
    }

    /// Every running timer sits in a slot whose next turn comes no later than the tick at
    /// which the timer is due, and no running timer expired before the current time
    pub open spec fn on_time(m: WheelModel) -> bool {
        forall|idx: int, a: int|
            0 <= idx < NUM_LEVELS * NUM_SLOTS && 0 <= a < m.slots[idx].len() ==> m.expire[
            #[trigger] m.slots[idx][a]] >= m.time && Self::turn_of(m.time as int, idx)
                <= Self::fire_time(m.time, m.expire[m.slots[idx][a]])
    }

    /// A slot whose turn is not the next tick keeps its turn when the tick comes
    proof fn lemma_turn_kept(t: int, level: nat, slot: int)
        requires
            NUM_SLOTS >= 1,
            t >= 1,
            Self::next_turn(t - 1, level, slot) > t,
        ensures
            Self::next_turn(t, level, slot) == Self::next_turn(t - 1, level, slot),
    {
        let s = NUM_SLOTS as int;
        let p = pow(s, level);
        lemma_pow_positive(s, level);
        Self::lemma_div_prev(t, p);
        if t % p == 0 {
            let q0 = (t - 1) / p;
            let r0 = (slot - q0) % s;
            assert(t / p == q0 + 1);
            lemma_fundamental_div_mod(t, p);
            assert(t == p * (q0 + 1));
            assert((q0 + r0 + 1) * p > (q0 + 1) * p);
            assert(r0 >= 1) by (nonlinear_arith)
                requires
                    (q0 + r0 + 1) * p > (q0 + 1) * p,
                    p >= 1,
            ;
            assert(s >= 2);
            vstd::arithmetic::div_mod::lemma_sub_mod_noop(slot - q0, 1, s);
            lemma_small_mod(1, s as nat);
            lemma_small_mod((r0 - 1) as nat, s as nat);
            assert((slot - (q0 + 1)) % s == r0 - 1);
        }
    }

    /// A slot whose turn is the next tick is the current slot of its level
    proof fn lemma_turn_due(t: int, level: nat, slot: int)
        requires
            NUM_SLOTS >= 1,
            t >= 1,
            0 <= slot < NUM_SLOTS,
            Self::next_turn(t - 1, level, slot) == t,
        ensures
            t % pow(NUM_SLOTS as int, level) == 0,
            slot == ((t - 1) / pow(NUM_SLOTS as int, level)) % (NUM_SLOTS as int),
    {
        let s = NUM_SLOTS as int;
        let p = pow(s, level);
        lemma_pow_positive(s, level);
        Self::lemma_turn_bounds(t - 1, level, slot);
        let q0 = (t - 1) / p;
        let r0 = (slot - q0) % s;
        lemma_fundamental_div_mod(t - 1, p);
        assert(r0 == 0) by (nonlinear_arith)
            requires
                (q0 + r0 + 1) * p == t,
                t - 1 == p * q0 + (t - 1) % p,
                0 <= (t - 1) % p < p,
                0 <= r0,
        ;
        vstd::arithmetic::div_mod::lemma_sub_mod_noop(slot, q0, s);
        lemma_small_mod(slot as nat, s as nat);
        // (slot - q0 % s) % s == 0 with both in [0, s) makes them equal
        let d = slot - q0 % s;
        assert(-s < d < s);
        if d != 0 {
            if d > 0 {
                lemma_small_mod(d as nat, s as nat);
            } else {
                vstd::arithmetic::div_mod::lemma_mod_add_multiples_vanish(d, s);
                lemma_small_mod((d + s) as nat, s as nat);
            }
        }
    }

    /// Draining a chain at time `T` leaves in the slots only timers that were there before, and
    /// timers of the chain that are not due yet, each in a slot whose turn comes no later than
    /// its expiry time
    proof fn lemma_drain_on_time(m: WheelModel, chain: Seq<usize>)
        requires
            Self::params_ok(),
            Self::positions_ok(m),
            m.slots.len() == NUM_LEVELS * NUM_SLOTS,
            chain.no_duplicates(),
            forall|a: int| 0 <= a < chain.len() ==> m.expire.contains_key(#[trigger] chain[a]),
        ensures
            Self::drain(m, chain).0.slots.len() == m.slots.len(),
            forall|idx: int, a: int|
                0 <= idx < NUM_LEVELS * NUM_SLOTS && 0 <= a < Self::drain(m, chain).0.slots[idx].len()
                    ==> #[trigger] m.slots[idx].contains(Self::drain(m, chain).0.slots[idx][a]) || (
                chain.contains(Self::drain(m, chain).0.slots[idx][a]) && m.expire[Self::drain(
                    m,
                    chain,
                ).0.slots[idx][a]] > m.time && Self::turn_of(m.time as int, idx) <= m.expire[Self::drain(
                    m,
                    chain,
                ).0.slots[idx][a]]),
        decreases chain.len(),
    {
        let n = NUM_LEVELS * NUM_SLOTS;
        if chain.len() > 0 {
            let key = chain[0];
            let rest = chain.drop_first();
            assert(!rest.contains(key)) by {
                if rest.contains(key) {
                    let b = choose|b: int| 0 <= b < rest.len() && rest[b] == key;
                    assert(chain[b + 1] == key);
                }
            }
            assert(rest.no_duplicates()) by {
                assert forall|a: int, b: int|
                    0 <= a < rest.len() && 0 <= b < rest.len() && a != b implies rest[a]
                    != rest[b] by {
                    assert(chain[a + 1] == rest[a]);
                    assert(chain[b + 1] == rest[b]);
                }
            }
            assert forall|a: int| 0 <= a < rest.len() implies #[trigger] rest[a] != key
                && m.expire.contains_key(rest[a]) by {
                assert(chain[a + 1] == rest[a]);
            }
            assert forall|k: usize| rest.contains(k) implies chain.contains(k) by {
                let b = choose|b: int| 0 <= b < rest.len() && rest[b] == k;
                assert(chain[b + 1] == k);
            }
            assert(chain.contains(key)) by {
                assert(chain[0] == key);
            }
            if m.expire[key] <= m.time {
                let m1 = WheelModel {
                    time: m.time,
                    positions: m.positions,
                    slots: m.slots,
                    expire: m.expire.remove(key),
                };
                Self::lemma_drain_on_time(m1, rest);
            } else {
                let m1 = Self::place(m, key);
                let i = Self::slot_for(m.positions, m.time, m.expire[key] - m.time);
                Self::lemma_slot_for_in_range(m.positions, m.time, m.expire[key] - m.time);
                Self::lemma_place_on_time(m, key);
                assert(Self::turn_of(m.time as int, i) <= m.expire[key]);
                assert(m1.slots[i] == seq![key] + m.slots[i]);
                Self::lemma_drain_on_time(m1, rest);
                let r = Self::drain(m1, rest).0;
                assert(r == Self::drain(m, chain).0);
                assert forall|idx: int, a: int|
                    0 <= idx < n && 0 <= a < r.slots[idx].len() implies #[trigger] m.slots[idx].contains(r.slots[idx][a])
                    || (chain.contains(r.slots[idx][a]) && m.expire[r.slots[idx][a]] > m.time
                    && Self::turn_of(m.time as int, idx) <= m.expire[r.slots[idx][a]]) by {
                    let k = r.slots[idx][a];
                    if m1.slots[idx].contains(k) {
                        let b = choose|b: int| 0 <= b < m1.slots[idx].len() && m1.slots[idx][b] == k;
                        if idx == i {
                            if b == 0 {
                                assert(k == key);
                            } else {
                                assert(m.slots[idx][b - 1] == k);
                            }
                        } else {
                            assert(m.slots[idx][b] == k);
                        }
                    }
                }
            }
        }
    }

    /// During the tick to `T`: timer `k` in slot `idx` either is in a slot whose turn after
    /// `T - 1` comes no later than it is due, and that slot is one of a level from `level` up
    /// where its turn is `T`, or it was placed again at `T` and is not due yet
    pub open spec fn in_tick(m: WheelModel, level: nat, idx: int, k: usize) -> bool {
        let t = m.time as int;
        let e = m.expire[k];
        ||| e >= t - 1 && Self::turn_of(t - 1, idx) <= Self::fire_time((t - 1) as u64, e) && (
        Self::turn_of(t - 1, idx) == t ==> idx / (NUM_SLOTS as int) >= level)
        ||| e > t && Self::turn_of(t, idx) <= e
    }

    /// At the end of the tick to `T`, where no slot whose turn is `T` holds a timer that was
    /// there before the tick, every timer is on time
    proof fn lemma_tick_finish(m: WheelModel, level: nat)
        requires
            NUM_SLOTS >= 1,
            m.time >= 1,
            forall|idx: int, a: int|
                0 <= idx < NUM_LEVELS * NUM_SLOTS && 0 <= a < m.slots[idx].len() ==> Self::in_tick(
                    m,
                    level,
                    idx,
                    #[trigger] m.slots[idx][a],
                ),
            forall|idx: int|
                0 <= idx < NUM_LEVELS * NUM_SLOTS && idx / (NUM_SLOTS as int) >= level ==> #[trigger] Self::turn_of(
                    m.time - 1,
                    idx,
                ) != m.time,
        ensures
            Self::on_time(m),
    {
        let t = m.time as int;
        assert forall|idx: int, a: int|
            0 <= idx < NUM_LEVELS * NUM_SLOTS && 0 <= a < m.slots[idx].len() implies m.expire[
            #[trigger] m.slots[idx][a]] >= m.time && Self::turn_of(m.time as int, idx)
            <= Self::fire_time(m.time, m.expire[m.slots[idx][a]]) by {
            let k = m.slots[idx][a];
            assert(Self::in_tick(m, level, idx, k));
            let j = (idx / (NUM_SLOTS as int)) as nat;
            let sl = idx % (NUM_SLOTS as int);
            if !(m.expire[k] > t && Self::turn_of(t, idx) <= m.expire[k]) {
                Self::lemma_turn_bounds(t - 1, j, sl);
                assert(Self::turn_of(t - 1, idx) != t);
                Self::lemma_turn_kept(t, j, sl);
            }
        }
    }

    /// The levels below `level` are at the slots of the current time `T`, the others at those
    /// of `T - 1`
    pub open spec fn synced_below(m: WheelModel, level: nat) -> bool {
        &&& forall|l: int|
            0 <= l < level ==> #[trigger] m.positions[l] == (m.time as int / pow(
                NUM_SLOTS as int,
                l as nat,
            )) % (NUM_SLOTS as int)
        &&& forall|l: int|
            level <= l < NUM_LEVELS ==> #[trigger] m.positions[l] == ((m.time - 1) / pow(
                NUM_SLOTS as int,
                l as nat,
            )) % (NUM_SLOTS as int)
    }

    /// The slot numbered `level * NUM_SLOTS + slot` is at `level` and `slot`
    proof fn lemma_slot_index(level: int, slot: int)
        requires
            NUM_SLOTS >= 1,
            0 <= slot < NUM_SLOTS,
            level >= 0,
        ensures
            (level * NUM_SLOTS + slot) / (NUM_SLOTS as int) == level,
            (level * NUM_SLOTS + slot) % (NUM_SLOTS as int) == slot,
    {
        vstd::arithmetic::div_mod::lemma_fundamental_div_mod_converse(
            level * NUM_SLOTS + slot,
            NUM_SLOTS as int,
            level,
            slot,
        );
    }

    /// Processing level `level` in the tick to `T`: the new position of the level is the slot
    /// of `T`, and the level wraps exactly when `T` is a multiple of `NUM_SLOTS^(level + 1)`
    proof fn lemma_level_advance(t: int, level: nat, pos: int)
        requires
            Self::params_ok(),
            t >= 1,
            t % pow(NUM_SLOTS as int, level) == 0,
            pos == ((t - 1) / pow(NUM_SLOTS as int, level)) % (NUM_SLOTS as int),
        ensures
            (pos + 1) % (NUM_SLOTS as int) == (t / pow(NUM_SLOTS as int, level)) % (NUM_SLOTS as int),
            ((pos + 1) % (NUM_SLOTS as int) == 0) == (t % pow(NUM_SLOTS as int, level + 1) == 0),
    {
        let s = NUM_SLOTS as int;
        let p = pow(s, level);
        lemma_pow_positive(s, level);
        Self::lemma_div_prev(t, p);
        vstd::arithmetic::div_mod::lemma_add_mod_noop((t - 1) / p, 1, s);
        if s > 1 {
            lemma_small_mod(1, s as nat);
        }
        assert(pow(s, level + 1) == p * s) by {
            reveal(pow);
            assert(s * p == p * s) by (nonlinear_arith);
        }
        vstd::arithmetic::div_mod::lemma_mod_breakdown(t, p, s);
        assert(t % (p * s) == p * ((t / p) % s));
        assert((t % (p * s) == 0) == ((t / p) % s == 0)) by (nonlinear_arith)
            requires
                t % (p * s) == p * ((t / p) % s),
                p >= 1,
        ;
    }

    /// Processing from `level` upwards in the tick to `T` leaves every timer on time
    proof fn lemma_process_on_time(m: WheelModel, level: nat)
        requires
            Self::params_ok(),
            Self::positions_ok(m),
            Self::partitioned(m, Seq::empty()),
            m.time >= 1,
            level <= NUM_LEVELS,
            m.time as int % pow(NUM_SLOTS as int, level) == 0,
            Self::synced_below(m, level),
            forall|idx: int, a: int|
                0 <= idx < NUM_LEVELS * NUM_SLOTS && 0 <= a < m.slots[idx].len() ==> Self::in_tick(
                    m,
                    level,
                    idx,
                    #[trigger] m.slots[idx][a],
                ),
        ensures
            Self::on_time(Self::process_model(m, level).0),
        decreases NUM_LEVELS - level,
    {
        let s = NUM_SLOTS as int;
        let n = NUM_LEVELS * NUM_SLOTS;
        let t = m.time as int;
        if level >= NUM_LEVELS {
            assert forall|idx: int|
                0 <= idx < n && idx / s >= level implies #[trigger] Self::turn_of(m.time - 1, idx) != m.time by {
                vstd::arithmetic::div_mod::lemma_fundamental_div_mod(idx, s);
                assert(idx / s < NUM_LEVELS) by (nonlinear_arith)
                    requires
                        idx == s * (idx / s) + idx % s,
                        0 <= idx % s,
                        idx < n,
                        n == NUM_LEVELS * s,
                        s >= 1,
                ;
            }
            Self::lemma_tick_finish(m, level);
        } else {
            let pos = m.positions[level as int] as int;
            let i = level * NUM_SLOTS + pos;
            Self::lemma_slot_index(level as int, pos);
            assert(0 <= i < n) by (nonlinear_arith)
                requires
                    i == level * NUM_SLOTS + pos,
                    0 <= pos < NUM_SLOTS,
                    level < NUM_LEVELS,
                    n == NUM_LEVELS * NUM_SLOTS,
            ;
            let chain = m.slots[i];
            let start = WheelModel {
                time: m.time,
                positions: m.positions,
                slots: m.slots.update(i, Seq::empty()),
                expire: m.expire,
            };
            Self::lemma_detach_partitioned(m, i);
            Self::lemma_drain_accounts(start, chain);
            assert forall|a: int| 0 <= a < chain.len() implies start.expire.contains_key(#[trigger] chain[a]) by {}
            Self::lemma_drain_on_time(start, chain);
            let drained = Self::drain(start, chain);
            let d = drained.0;
            let new_position = ((d.positions[level as int] + 1) % s) as usize;
            let advanced = WheelModel {
                time: d.time,
                positions: d.positions.update(level as int, new_position),
                slots: d.slots,
                expire: d.expire,
            };
            Self::lemma_level_advance(t, level, pos);
            // Every timer is still in tick, now with `level` processed
            assert forall|idx: int, a: int|
                0 <= idx < n && 0 <= a < advanced.slots[idx].len() implies Self::in_tick(
                advanced,
                level + 1,
                idx,
                #[trigger] advanced.slots[idx][a],
            ) by {
                let k = advanced.slots[idx][a];
                assert(d.expire.contains_key(d.slots[idx][a]));
                assert(d.expire[k] == start.expire[k]);
                if start.slots[idx].contains(k) {
                    let b = choose|b: int| 0 <= b < start.slots[idx].len() && start.slots[idx][b] == k;
                    assert(idx != i);
                    assert(m.slots[idx][b] == k);
                    assert(Self::in_tick(m, level, idx, k));
                    if Self::turn_of(t - 1, idx) == t && idx / s == level {
                        Self::lemma_turn_due(t, level, idx % s);
                        vstd::arithmetic::div_mod::lemma_fundamental_div_mod(idx, s);
                        assert(idx == level * s + idx % s) by (nonlinear_arith)
                            requires
                                idx == s * (idx / s) + idx % s,
                                idx / s == level,
                        ;
                        assert(idx % s == pos);
                        assert(false);
                    }
                }
            }
            let r = Self::process_model(m, level);
            if new_position == 0 {
                assert(r.0 == Self::process_model(advanced, level + 1).0);
                Self::lemma_process_on_time(advanced, level + 1);
            } else {
                assert(r.0 == advanced);
                assert forall|idx: int|
                    0 <= idx < n && idx / s >= level + 1 implies #[trigger] Self::turn_of(
                    advanced.time - 1,
                    idx,
                ) != advanced.time by {
                    if Self::turn_of(t - 1, idx) == t {
                        vstd::arithmetic::div_mod::lemma_fundamental_div_mod(idx, s);
                        assert(0 <= idx % s < s);
                        Self::lemma_turn_due(t, (idx / s) as nat, idx % s);
                        Self::lemma_multiple_of_lower(t, level + 1, (idx / s) as nat);
                    }
                }
                Self::lemma_tick_finish(advanced, level + 1);
            }
        }
    }

    /// Processing from `level` upwards in the tick to `T` expires a due timer in the current
    /// slot of a level `j >= level` whose turn it is
    proof fn lemma_process_expires(m: WheelModel, level: nat, key: usize, j: nat)
        requires
            Self::params_ok(),
            Self::positions_ok(m),
            Self::partitioned(m, Seq::empty()),
            m.time >= 1,
            level <= j < NUM_LEVELS,
            m.time as int % pow(NUM_SLOTS as int, j) == 0,
            Self::synced_below(m, level),
            m.slots[j * NUM_SLOTS + m.positions[j as int]].contains(key),
            m.expire.contains_key(key),
            m.expire[key] <= m.time,
        ensures
            Self::process_model(m, level).1.contains(key),
        decreases j - level,
    {
        let s = NUM_SLOTS as int;
        let n = NUM_LEVELS * NUM_SLOTS;
        let t = m.time as int;
        let pos = m.positions[level as int] as int;
        let i = level * NUM_SLOTS + pos;
        assert(0 <= i < n) by (nonlinear_arith)
            requires
                i == level * NUM_SLOTS + pos,
                0 <= pos < NUM_SLOTS,
                level < NUM_LEVELS,
                n == NUM_LEVELS * NUM_SLOTS,
        ;
        let chain = m.slots[i];
        let start = WheelModel {
            time: m.time,
            positions: m.positions,
            slots: m.slots.update(i, Seq::empty()),
            expire: m.expire,
        };
        Self::lemma_detach_partitioned(m, i);
        Self::lemma_drain_accounts(start, chain);
        let drained = Self::drain(start, chain);
        let d = drained.0;
        let new_position = ((d.positions[level as int] + 1) % s) as usize;
        let advanced = WheelModel {
            time: d.time,
            positions: d.positions.update(level as int, new_position),
            slots: d.slots,
            expire: d.expire,
        };
        let r = Self::process_model(m, level);
        Self::lemma_multiple_of_lower(t, level, j);
        Self::lemma_level_advance(t, level, pos);
        if j == level {
            assert(chain.no_duplicates()) by {
                assert forall|x: int, y: int|
                    0 <= x < chain.len() && 0 <= y < chain.len() && x != y implies chain[x]
                    != chain[y] by {
                    assert(m.slots[i][x] == chain[x]);
                }
            }
            Self::lemma_drain_emits_due(start, chain, key);
            let x = choose|x: int| 0 <= x < drained.1.len() && drained.1[x] == key;
            if new_position == 0 {
                let c = Self::process_model(advanced, level + 1);
                assert((drained.1 + c.1)[x] == key);
            }
        } else {
            let jj = j * NUM_SLOTS + m.positions[j as int];
            assert(i < jj < n) by (nonlinear_arith)
                requires
                    i == level * NUM_SLOTS + pos,
                    jj == j * NUM_SLOTS + m.positions[j as int],
                    0 <= pos < NUM_SLOTS,
                    0 <= m.positions[j as int] < NUM_SLOTS,
                    level < j < NUM_LEVELS,
                    n == NUM_LEVELS * NUM_SLOTS,
            ;
            assert(!chain.contains(key)) by {
                if chain.contains(key) {
                    let b = choose|b: int| 0 <= b < chain.len() && chain[b] == key;
                    let a = choose|a: int| 0 <= a < m.slots[jj].len() && m.slots[jj][a] == key;
                    assert(m.slots[i][b] == m.slots[jj][a]);
                }
            }
            assert(start.slots[jj] == m.slots[jj]);
            Self::lemma_drain_keeps(start, chain, key, jj);
            Self::lemma_multiple_of_lower(t, level + 1, j);
            assert(new_position == 0);
            assert(advanced.positions[j as int] == m.positions[j as int]);
            Self::lemma_process_expires(advanced, level + 1, key, j);
            let c = Self::process_model(advanced, level + 1);
            let x = choose|x: int| 0 <= x < c.1.len() && c.1[x] == key;
            assert((drained.1 + c.1)[drained.1.len() + x] == key);
        }
    }

    /// Law: a tick keeps every timer on time, and expires every timer that is due by the new
    /// time
    pub proof fn lemma_tick_on_time(m: WheelModel)
        requires
            Self::params_ok(),
            Self::model_wf(m),
            Self::synced(m),
            Self::on_time(m),
            m.time < u64::MAX,
        ensures
            Self::on_time(Self::tick_model(m).0),
            Self::synced(Self::tick_model(m).0),
            forall|k: usize|
                #[trigger] m.expire.contains_key(k) && m.expire[k] <= m.time + 1
                    ==> Self::tick_model(m).1.contains(k),
    {
        let s = NUM_SLOTS as int;
        let n = NUM_LEVELS * NUM_SLOTS;
        let mt = WheelModel {
            time: (m.time + 1) as u64,
            positions: m.positions,
            slots: m.slots,
            expire: m.expire,
        };
        let t = mt.time as int;
        assert(pow(s, 0) == 1) by {
            reveal(pow);
        }
        assert(t % 1 == 0);
        assert(Self::partitioned(mt, Seq::empty()));
        assert(Self::synced_below(mt, 0));
        assert forall|idx: int, a: int|
            0 <= idx < n && 0 <= a < mt.slots[idx].len() implies Self::in_tick(
            mt,
            0,
            idx,
            #[trigger] mt.slots[idx][a],
        ) by {
            assert(m.slots[idx][a] == mt.slots[idx][a]);
        }
        Self::lemma_process_on_time(mt, 0);
        Self::lemma_tick_synced(m);
        assert forall|k: usize|
            #[trigger] m.expire.contains_key(k) && m.expire[k] <= m.time + 1 implies Self::tick_model(
            m,
        ).1.contains(k) by {
            assert(!Seq::<usize>::empty().contains(k));
            let idx = choose|idx: int| 0 <= idx < n && #[trigger] m.slots[idx].contains(k);
            let a = choose|a: int| 0 <= a < m.slots[idx].len() && m.slots[idx][a] == k;
            assert(Self::turn_of(m.time as int, idx) <= Self::fire_time(m.time, m.expire[k]));
            let j = idx / s;
            let sl = idx % s;
            vstd::arithmetic::div_mod::lemma_fundamental_div_mod(idx, s);
            assert(0 <= j < NUM_LEVELS) by (nonlinear_arith)
                requires
                    idx == s * j + sl,
                    0 <= sl < s,
                    0 <= idx < n,
                    n == NUM_LEVELS * s,
            ;
            Self::lemma_turn_bounds(m.time as int, j as nat, sl);
            assert(Self::turn_of(t - 1, idx) == t);
            Self::lemma_turn_due(t, j as nat, sl);
            assert(sl == m.positions[j]);
            assert(idx == j * NUM_SLOTS + m.positions[j]) by (nonlinear_arith)
                requires
                    idx == s * j + sl,
                    sl == m.positions[j],
                    s == NUM_SLOTS,
            ;
            Self::lemma_process_expires(mt, 0, k, j as nat);
        }
    }

    /// A new wheel's model is on time and at the slots of time 0
    pub proof fn lemma_initial_on_time()
        requires
            Self::params_ok(),
        ensures
            Self::on_time(Self::initial_model()),
            Self::synced(Self::initial_model()),
    {
        Self::lemma_initial_synced();
    }

    /// Starting a timer that is not yet expired keeps the model on time and at its slots
    pub proof fn lemma_add_on_time(m: WheelModel, key: usize, expire_time: u64)
        requires
            Self::params_ok(),
            Self::model_wf(m),
            Self::synced(m),
            Self::on_time(m),
            !m.expire.contains_key(key),
            m.time <= expire_time,
        ensures
            Self::model_wf(Self::add_timer(m, key, expire_time)),
            Self::synced(Self::add_timer(m, key, expire_time)),
            Self::on_time(Self::add_timer(m, key, expire_time)),
    {
        let n = NUM_LEVELS * NUM_SLOTS;
        let mi = WheelModel {
            time: m.time,
            positions: m.positions,
            slots: m.slots,
            expire: m.expire.insert(key, expire_time),
        };
        assert(Self::partitioned(mi, seq![key])) by {
            assert(seq![key][0] == key);
            assert forall|i: int, a: int|
                0 <= i < n && 0 <= a < mi.slots[i].len() implies !seq![
                key,
            ].contains(#[trigger] mi.slots[i][a]) by {
                assert(m.expire.contains_key(m.slots[i][a]));
            }
            assert forall|k: usize| #[trigger] mi.expire.contains_key(k) implies seq![key].contains(k)
                || exists|i: int| 0 <= i < n && #[trigger] mi.slots[i].contains(k) by {
                if k == key {
                    assert(seq![key][0] == key);
                } else {
                    assert(m.expire.contains_key(k));
                }
            }
        }
        assert(seq![key] == seq![key] + Seq::<usize>::empty());
        Self::lemma_place_partitioned(mi, key, Seq::empty());
        let m1 = Self::add_timer(m, key, expire_time);
        let i = Self::slot_for(m.positions, m.time, expire_time - m.time);
        Self::lemma_slot_for_in_range(m.positions, m.time, expire_time - m.time);
        Self::lemma_place_on_time(mi, key);
        assert(m1.slots[i] == seq![key] + m.slots[i]);
        assert forall|idx: int, a: int|
            0 <= idx < n && 0 <= a < m1.slots[idx].len() implies m1.expire[
            #[trigger] m1.slots[idx][a]] >= m1.time && Self::turn_of(m1.time as int, idx)
            <= Self::fire_time(m1.time, m1.expire[m1.slots[idx][a]]) by {
            if idx == i {
                if a > 0 {
                    assert(m1.slots[idx][a] == m.slots[idx][a - 1]);
                    assert(m.expire.contains_key(m.slots[idx][a - 1]));
                }
            } else {
                assert(m1.slots[idx][a] == m.slots[idx][a]);
                assert(m.expire.contains_key(m.slots[idx][a]));
            }
        }
    }

    /// Stopping a timer keeps the model on time and at its slots
    pub proof fn lemma_remove_on_time(m: WheelModel, key: usize)
        requires
            Self::params_ok(),
            Self::model_wf(m),
            Self::synced(m),
            Self::on_time(m),
            m.expire.contains_key(key),
        ensures
            Self::synced(Self::remove_timer(m, key)),
            Self::on_time(Self::remove_timer(m, key)),
    {
        let n = NUM_LEVELS * NUM_SLOTS;
        let r = Self::remove_timer(m, key);
        assert(!Seq::<usize>::empty().contains(key));
        let i = Self::slot_of(m, key);
        assert(0 <= i < n && m.slots[i].contains(key));
        let x = m.slots[i].index_of(key);
        assert forall|idx: int, a: int|
            0 <= idx < n && 0 <= a < r.slots[idx].len() implies r.expire[
            #[trigger] r.slots[idx][a]] >= r.time && Self::turn_of(r.time as int, idx)
            <= Self::fire_time(r.time, r.expire[r.slots[idx][a]]) by {
            let b = if idx == i && a >= x {
                a + 1
            } else {
                a
            };
            assert(r.slots[idx][a] == m.slots[idx][b]);
            assert(m.expire.contains_key(m.slots[idx][b]));
            if m.slots[idx][b] == key {
                assert(idx == i && b == x);
            }
        }
    }

    /// Law: every timer fires at the tick at which it is due. On a model that is on time, a
    /// timer started to expire at `expire_time`, no earlier than the current time, is still
    /// running and not expired after any number of ticks that does not reach
    /// `max(expire_time, time + 1)`, and the ticks that reach it expire it.
    pub proof fn lemma_timer_fires_on_time(m: WheelModel, key: usize, expire_time: u64)
        requires
            Self::params_ok(),
            Self::model_wf(m),
            Self::synced(m),
            Self::on_time(m),
            !m.expire.contains_key(key),
            m.time <= expire_time,
            Self::fire_time(m.time, expire_time) <= u64::MAX,
        ensures
            forall|ticks: nat|
                ticks < Self::fire_time(m.time, expire_time) - m.time ==> #[trigger] Self::expire_model(
                    Self::add_timer(m, key, expire_time),
                    ticks,
                ).0.expire.contains_key(key) && !Self::expire_model(
                    Self::add_timer(m, key, expire_time),
                    ticks,
                ).1.contains(key),
            Self::expire_model(
                Self::add_timer(m, key, expire_time),
                (Self::fire_time(m.time, expire_time) - m.time) as nat,
            ).1.contains(key),
    {
        let m1 = Self::add_timer(m, key, expire_time);
        let fire = Self::fire_time(m.time, expire_time);
        Self::lemma_add_on_time(m, key, expire_time);
        assert(m1.expire.contains_key(key) && m1.expire[key] == expire_time);
        assert(m1.time == m.time);
        assert forall|ticks: nat| ticks < fire - m.time implies #[trigger] Self::expire_model(
            m1,
            ticks,
        ).0.expire.contains_key(key) && !Self::expire_model(m1, ticks).1.contains(key) by {
            Self::lemma_pending_until_due(m1, key, fire, ticks);
        }
        let d = (fire - m.time) as nat;
        Self::lemma_pending_until_due(m1, key, fire, (d - 1) as nat);
        let b = Self::expire_model(m1, (d - 1) as nat);
        Self::lemma_tick_on_time(b.0);
        let tk = Self::tick_model(b.0);
        assert(b.0.expire[key] == expire_time);
        assert(b.0.time == fire - 1);
        assert(tk.1.contains(key));
        let x = choose|x: int| 0 <= x < tk.1.len() && tk.1[x] == key;
        assert((b.1 + tk.1)[x + b.1.len()] == key);
    }

    /// Before its firing tick a timer is still running, with the same expiry time, and the
    /// model stays on time
    proof fn lemma_pending_until_due(m1: WheelModel, key: usize, fire: int, ticks: nat)
        requires
            Self::params_ok(),
            Self::model_wf(m1),
            Self::synced(m1),
            Self::on_time(m1),
            m1.expire.contains_key(key),
            fire == Self::fire_time(m1.time, m1.expire[key]),
            fire <= u64::MAX,
            ticks < fire - m1.time,
        ensures
            Self::model_wf(Self::expire_model(m1, ticks).0),
            Self::synced(Self::expire_model(m1, ticks).0),
            Self::on_time(Self::expire_model(m1, ticks).0),
            Self::expire_model(m1, ticks).0.time == m1.time + ticks,
            Self::expire_model(m1, ticks).0.expire.contains_key(key),
            Self::expire_model(m1, ticks).0.expire[key] == m1.expire[key],
            !Self::expire_model(m1, ticks).1.contains(key),
        decreases ticks,
    {
        Self::lemma_expire_accounts_for_every_timer(m1, ticks);
        if ticks > 0 {
            Self::lemma_pending_until_due(m1, key, fire, (ticks - 1) as nat);
            let b = Self::expire_model(m1, (ticks - 1) as nat);
            Self::lemma_tick_on_time(b.0);
            Self::lemma_tick_accounts_for_every_timer(b.0);
            let tk = Self::tick_model(b.0);
            // The tick reaches `b.0.time + 1 < fire`, and no timer expires after the tick's time
            assert(!tk.1.contains(key)) by {
                if tk.1.contains(key) {
                    let x = choose|x: int| 0 <= x < tk.1.len() && tk.1[x] == key;
                    assert(b.0.expire[tk.1[x]] <= tk.0.time);
                }
            }
            assert(!(b.1 + tk.1).contains(key)) by {
                if (b.1 + tk.1).contains(key) {
                    let x = choose|x: int| 0 <= x < (b.1 + tk.1).len() && (b.1 + tk.1)[x] == key;
                    if x >= b.1.len() {
                        assert(tk.1[x - b.1.len()] == key);
                    } else {
                        assert(b.1[x] == key);
                    }
                }
            }
        } else {
            assert(Self::expire_model(m1, 0).1 =~= Seq::<usize>::empty());
        }
    }

    /// Law: on every well-formed wheel, a timer started to expire at `expire_time`, no earlier
    /// than the wheel's time, is not expired by any ticks that do not reach
    /// `max(expire_time, time + 1)`, and is expired by the ticks that reach it
    pub proof fn lemma_started_timer_fires_on_time(&self, key: usize, expire_time: u64)
        requires
            Self::params_ok(),
            self.wf(),
            !self.model().expire.contains_key(key),
            self.model().time <= expire_time,
            Self::fire_time(self.model().time, expire_time) <= u64::MAX,
        ensures
            forall|ticks: nat|
                ticks < Self::fire_time(self.model().time, expire_time) - self.model().time
                    ==> #[trigger] Self::expire_model(
                    Self::add_timer(self.model(), key, expire_time),
                    ticks,
                ).0.expire.contains_key(key) && !Self::expire_model(
                    Self::add_timer(self.model(), key, expire_time),
                    ticks,
                ).1.contains(key),
            Self::expire_model(
                Self::add_timer(self.model(), key, expire_time),
                (Self::fire_time(self.model().time, expire_time) - self.model().time) as nat,
            ).1.contains(key),
    {
        self.lemma_wf_on_time();
        Self::lemma_timer_fires_on_time(self.model(), key, expire_time);
    }

    /// On a model that is on time, no running timer expires before the current time
    pub proof fn lemma_running_not_past(m: WheelModel, key: usize)
        requires
            Self::model_wf(m),
            Self::on_time(m),
            m.expire.contains_key(key),
        ensures
            m.expire[key] >= m.time,
    {
        assert(!Seq::<usize>::empty().contains(key));
        let idx = choose|idx: int| 0 <= idx < NUM_LEVELS * NUM_SLOTS && #[trigger] m.slots[idx].contains(key);
        let a = choose|a: int| 0 <= a < m.slots[idx].len() && m.slots[idx][a] == key;
        assert(m.expire[m.slots[idx][a]] >= m.time);
    }

    /// Law: on a model that is on time, a running timer is among the timers expired by `ticks`
    /// ticks exactly when they reach `max(expire_time, time + 1)`
    pub proof fn lemma_running_timer_fires_on_time(m: WheelModel, key: usize, ticks: nat)
        requires
            Self::params_ok(),
            Self::model_wf(m),
            Self::synced(m),
            Self::on_time(m),
            m.expire.contains_key(key),
            m.time + ticks <= u64::MAX,
        ensures
            Self::expire_model(m, ticks).1.contains(key) <==> m.time + ticks >= Self::fire_time(
                m.time,
                m.expire[key],
            ),
    {
        let fire = Self::fire_time(m.time, m.expire[key]);
        Self::lemma_running_not_past(m, key);
        if ticks == 0 {
            assert(Self::expire_model(m, 0).1 =~= Seq::<usize>::empty());
        } else if m.time + ticks < fire {
            Self::lemma_pending_until_due(m, key, fire, ticks);
        } else {
            let d = (fire - m.time) as nat;
            Self::lemma_pending_until_due(m, key, fire, (d - 1) as nat);
            let b = Self::expire_model(m, (d - 1) as nat);
            Self::lemma_tick_on_time(b.0);
            let tk = Self::tick_model(b.0);
            assert(tk.1.contains(key));
            let x = choose|x: int| 0 <= x < tk.1.len() && tk.1[x] == key;
            assert((b.1 + tk.1)[x + b.1.len()] == key);
            assert(Self::expire_model(m, d).1.contains(key));
            Self::lemma_expire_split(m, d, (ticks - d) as nat);
            assert((d + (ticks - d) as nat) as nat == ticks);
            let first = Self::expire_model(m, d).1;
            let y = choose|y: int| 0 <= y < first.len() && first[y] == key;
            let rest = Self::expire_model(Self::expire_model(m, d).0, (ticks - d) as nat).1;
            assert((first + rest)[y] == key);
        }
    }

    /// Law: expiring `a` ticks and then `b` more gives what expiring `a + b` ticks gives: the
    /// same model, the same contexts left, and the same expired contexts, those of the first
    /// call followed by those of the second (`contexts` being the contexts of the running
    /// timers of `m`)
    pub proof fn lemma_expire_twice(m: WheelModel, contexts: Map<usize, T>, a: nat, b: nat)
        requires
            Self::params_ok(),
            Self::model_wf(m),
            m.time + a + b <= u64::MAX,
            contexts.dom() == m.expire.dom(),
        ensures
            ({
                let first = Self::expire_model(m, a);
                let left = contexts.restrict(first.0.expire.dom());
                let second = Self::expire_model(first.0, b);
                let both = Self::expire_model(m, a + b);
                &&& second.0 == both.0
                &&& left.restrict(second.0.expire.dom()) == contexts.restrict(both.0.expire.dom())
                &&& first.1.map_values(|k: usize| contexts[k]) + second.1.map_values(
                    |k: usize| left[k],
                ) == both.1.map_values(|k: usize| contexts[k])
            }),
    {
        let first = Self::expire_model(m, a);
        let left = contexts.restrict(first.0.expire.dom());
        let second = Self::expire_model(first.0, b);
        let both = Self::expire_model(m, a + b);
        Self::lemma_expire_split(m, a, b);
        Self::lemma_expire_accounts_for_every_timer(m, a);
        Self::lemma_expire_accounts_for_every_timer(first.0, b);
        assert(left.restrict(second.0.expire.dom()) =~= contexts.restrict(both.0.expire.dom()));
        let lhs = first.1.map_values(|k: usize| contexts[k]) + second.1.map_values(
            |k: usize| left[k],
        );
        let rhs = both.1.map_values(|k: usize| contexts[k]);
        assert forall|x: int| 0 <= x < second.1.len() implies left[#[trigger] second.1[x]]
            == contexts[second.1[x]] by {
            assert(first.0.expire.contains_key(second.1[x]));
        }
        assert forall|x: int| 0 <= x < rhs.len() implies lhs[x] == rhs[x] by {
            if x >= first.1.len() {
                assert(both.1[x] == second.1[x - first.1.len()]);
            } else {
                assert(both.1[x] == first.1[x]);
            }
        }
        assert(lhs =~= rhs);
    }
}

} // verus!
