//! When the slots of the timer wheel take their turn, and where timers are placed among them

use vstd::prelude::*;
use vstd::arithmetic::power::{pow, lemma_pow_positive};
use vstd::arithmetic::div_mod::{
    lemma_fundamental_div_mod, lemma_small_mod, lemma_sub_mod_noop, lemma_sub_mod_noop_right,
    lemma_mod_multiples_vanish,
};
use super::tw_timer::{TimerWheel, WheelModel};

verus! {

impl<T, const NUM_LEVELS: usize, const NUM_SLOTS: usize> TimerWheel<T, NUM_LEVELS, NUM_SLOTS> {
    /// The next tick after `time` at which slot `slot` of `level` is processed. Level `level`
    /// processes a slot at every multiple of `NUM_SLOTS^level`: at `j * NUM_SLOTS^level` it
    /// processes slot `(j - 1) % NUM_SLOTS`.
    pub open spec fn next_turn(time: int, level: nat, slot: int) -> int {
        let p = pow(NUM_SLOTS as int, level);
        let q = time / p;
        (q + (slot - q) % (NUM_SLOTS as int) + 1) * p
    }

    /// Every level is at the slot that the current time calls for
    pub open spec fn synced(m: WheelModel) -> bool {
        forall|l: int|
            0 <= l < NUM_LEVELS ==> #[trigger] m.positions[l] == (m.time as int / pow(
                NUM_SLOTS as int,
                l as nat,
            )) % (NUM_SLOTS as int)
    }

    /// What `level_for` tells of the distance
    pub(crate) proof fn lemma_level_for_range(d: int, j: nat)
        requires
            j <= NUM_LEVELS,
        ensures
            Self::level_for(d, j) < NUM_LEVELS ==> d < pow(
                NUM_SLOTS as int,
                Self::level_for(d, j) + 1,
            ),
            j < Self::level_for(d, j) ==> d >= pow(NUM_SLOTS as int, Self::level_for(d, j)),
            j <= Self::level_for(d, j) <= NUM_LEVELS,
        decreases NUM_LEVELS - j,
    {
        if j < NUM_LEVELS && d >= pow(NUM_SLOTS as int, j + 1) {
            Self::lemma_level_for_range(d, j + 1);
        }
    }

    /// Adding `d` ticks, with `p <= d < p * s`, moves the quotient by `p` on by 1 to `s`
    pub(crate) proof fn lemma_quotient_step(t: int, d: int, p: int, s: int)
        requires
            t >= 0,
            p >= 1,
            s >= 1,
            p <= d < p * s,
        ensures
            t / p + 1 <= (t + d) / p <= t / p + s,
            t < ((t + d) / p) * p <= t + d,
    {
        lemma_fundamental_div_mod(t, p);
        lemma_fundamental_div_mod(t + d, p);
        let q = t / p;
        let r = t % p;
        let qq = (t + d) / p;
        let rr = (t + d) % p;
        assert(t == p * q + r);
        assert(t + d == p * qq + rr);
        assert(0 <= r < p && 0 <= rr < p);
        assert(q + 1 <= qq <= q + s) by (nonlinear_arith)
            requires
                t == p * q + r,
                t + d == p * qq + rr,
                0 <= r < p,
                0 <= rr < p,
                p <= d < p * s,
                p >= 1,
        ;
        assert(t < qq * p <= t + d) by (nonlinear_arith)
            requires
                t == p * q + r,
                t + d == p * qq + rr,
                0 <= r < p,
                0 <= rr < p,
                q + 1 <= qq,
        ;
    }

    /// A slot's next turn comes after `time`, and within one round of its level
    pub proof fn lemma_turn_bounds(time: int, level: nat, slot: int)
        requires
            NUM_SLOTS >= 1,
            time >= 0,
        ensures
            time < Self::next_turn(time, level, slot) <= time + pow(NUM_SLOTS as int, level + 1),
            Self::next_turn(time, level, slot) % pow(NUM_SLOTS as int, level) == 0,
    {
        let s = NUM_SLOTS as int;
        let p = pow(s, level);
        lemma_pow_positive(s, level);
        assert(pow(s, level + 1) == s * p) by {
            reveal(pow);
        }
        let q = time / p;
        let r = (slot - q) % s;
        assert(0 <= r < s);
        lemma_fundamental_div_mod(time, p);
        assert(time < (q + r + 1) * p <= time + s * p) by (nonlinear_arith)
            requires
                time == p * q + time % p,
                0 <= time % p < p,
                0 <= r < s,
        ;
        vstd::arithmetic::div_mod::lemma_mod_multiples_basic(q + r + 1, p);
    }

    /// Law: a timer is placed in a slot whose next turn comes after the current time and no
    /// later than the tick at which the timer is due, so it is never put into a slot whose turn
    /// has passed
    pub proof fn lemma_place_on_time(m: WheelModel, key: usize)
        requires
            Self::params_ok(),
            Self::positions_ok(m),
            m.expire.contains_key(key),
            m.expire[key] >= m.time,
        ensures
            ({
                let i = Self::slot_for(m.positions, m.time, m.expire[key] - m.time);
                let turn = Self::next_turn(
                    m.time as int,
                    (i / (NUM_SLOTS as int)) as nat,
                    i % (NUM_SLOTS as int),
                );
                m.time < turn <= Self::fire_time(m.time, m.expire[key])
            }),
    {
        let s = NUM_SLOTS as int;
        let t = m.time as int;
        let e = m.expire[key];
        let delta = e - m.time;
        let d = if delta < 1 {
            1
        } else {
            delta
        };
        assert(Self::fire_time(m.time, e) == t + d);
        let level = Self::level_for(d, 0);
        Self::lemma_level_for_range(d, 0);
        let i = Self::slot_for(m.positions, m.time, delta);
        if level < NUM_LEVELS {
            let p = pow(s, level);
            lemma_pow_positive(s, level);
            assert(pow(s, level + 1) == s * p) by {
                reveal(pow);
            }
            assert(p <= d) by {
                if level == 0 {
                    reveal(pow);
                }
            }
            assert(d < p * s) by (nonlinear_arith)
                requires
                    d < s * p,
            ;
            Self::lemma_quotient_step(t, d, p, s);
            let qq = (t + d) / p;
            let q = t / p;
            let slot = (qq - 1) % s;
            assert(i == level * s + slot);
            assert(0 <= slot < s);
            assert(i / s == level && i % s == slot) by {
                vstd::arithmetic::div_mod::lemma_fundamental_div_mod_converse(
                    i,
                    s,
                    level as int,
                    slot,
                );
                assert(i == level * s + slot);
                assert(level * s == s * level) by (nonlinear_arith);
            }
            // The slot's next turn is at `qq * p`
            lemma_sub_mod_noop_right(slot, q, s);
            lemma_sub_mod_noop(qq - 1, q, s);
            lemma_small_mod((q % s) as nat, s as nat);
            assert((slot - q) % s == (qq - 1 - q) % s);
            lemma_small_mod((qq - 1 - q) as nat, s as nat);
            assert(Self::next_turn(t, level, slot) == qq * p);
        } else {
            // Beyond every level: the last level's slot before its current one
            let top = (NUM_LEVELS - 1) as nat;
            let p = pow(s, top);
            lemma_pow_positive(s, top);
            assert(pow(s, NUM_LEVELS as nat) == s * p) by {
                reveal(pow);
                assert(NUM_LEVELS as nat == top + 1);
            }
            let q = t / p;
            let slot = (m.positions[top as int] + s - 1) % s;
            assert(i == top * s + slot);
            assert(0 <= slot < s);
            assert(i / s == top && i % s == slot) by {
                vstd::arithmetic::div_mod::lemma_fundamental_div_mod_converse(
                    i,
                    s,
                    top as int,
                    slot,
                );
                assert(top * s == s * top) by (nonlinear_arith);
            }
            Self::lemma_turn_bounds(t, top, slot);
            assert(d >= pow(s, NUM_LEVELS as nat));
        }
    }

    /// The quotient of the tick before `t`
    pub(crate) proof fn lemma_div_prev(t: int, p: int)
        requires
            t >= 1,
            p >= 1,
        ensures
            t % p == 0 ==> (t - 1) / p == t / p - 1,
            t % p != 0 ==> (t - 1) / p == t / p,
    {
        lemma_fundamental_div_mod(t, p);
        let q = t / p;
        let r = t % p;
        if r == 0 {
            assert(t - 1 == (q - 1) * p + (p - 1)) by (nonlinear_arith)
                requires
                    t == p * q + r,
                    r == 0,
            ;
            vstd::arithmetic::div_mod::lemma_fundamental_div_mod_converse(t - 1, p, q - 1, p - 1);
        } else {
            assert(t - 1 == q * p + (r - 1)) by (nonlinear_arith)
                requires
                    t == p * q + r,
            ;
            vstd::arithmetic::div_mod::lemma_fundamental_div_mod_converse(t - 1, p, q, r - 1);
        }
    }

    /// A multiple of `NUM_SLOTS^l` is a multiple of `NUM_SLOTS^j` for `j <= l`
    pub(crate) proof fn lemma_multiple_of_lower(t: int, j: nat, l: nat)
        requires
            NUM_SLOTS >= 1,
            j <= l,
            t % pow(NUM_SLOTS as int, l) == 0,
        ensures
            t % pow(NUM_SLOTS as int, j) == 0,
    {
        let s = NUM_SLOTS as int;
        lemma_pow_positive(s, l);
        lemma_pow_positive(s, j);
        vstd::arithmetic::power::lemma_pow_adds(s, j, (l - j) as nat);
        assert((j + (l - j)) as nat == l);
        lemma_fundamental_div_mod(t, pow(s, l));
        let k = t / pow(s, l);
        assert(t == (pow(s, (l - j) as nat) * k) * pow(s, j)) by (nonlinear_arith)
            requires
                t == pow(s, l) * k + t % pow(s, l),
                t % pow(s, l) == 0,
                pow(s, l) == pow(s, j) * pow(s, (l - j) as nat),
        ;
        vstd::arithmetic::div_mod::lemma_mod_multiples_basic(pow(s, (l - j) as nat) * k, pow(s, j));
    }

    /// Processing level `level` at time `t`, a multiple of `NUM_SLOTS^level`, when the levels
    /// below are at the slots of `t` and the others at those of `t - 1`, brings every level to
    /// the slot of `t`
    proof fn lemma_process_synced(m: WheelModel, level: nat)
        requires
            Self::params_ok(),
            Self::positions_ok(m),
            m.time >= 1,
            level <= NUM_LEVELS,
            m.time as int % pow(NUM_SLOTS as int, level) == 0,
            forall|l: int|
                0 <= l < level ==> #[trigger] m.positions[l] == (m.time as int / pow(
                    NUM_SLOTS as int,
                    l as nat,
                )) % (NUM_SLOTS as int),
            forall|l: int|
                level <= l < NUM_LEVELS ==> #[trigger] m.positions[l] == ((m.time - 1) / pow(
                    NUM_SLOTS as int,
                    l as nat,
                )) % (NUM_SLOTS as int),
        ensures
            Self::synced(Self::process_model(m, level).0),
            Self::process_model(m, level).0.time == m.time,
        decreases NUM_LEVELS - level,
    {
        let s = NUM_SLOTS as int;
        let t = m.time as int;
        if level < NUM_LEVELS {
            let i = level * NUM_SLOTS + m.positions[level as int];
            let start = WheelModel {
                time: m.time,
                positions: m.positions,
                slots: m.slots.update(i, Seq::empty()),
                expire: m.expire,
            };
            Self::lemma_drain_frame(start, m.slots[i]);
            let d = Self::drain(start, m.slots[i]).0;
            let new_position = ((d.positions[level as int] + 1) % s) as usize;
            let advanced = WheelModel {
                time: d.time,
                positions: d.positions.update(level as int, new_position),
                slots: d.slots,
                expire: d.expire,
            };
            let p = pow(s, level);
            lemma_pow_positive(s, level);
            Self::lemma_div_prev(t, p);
            vstd::arithmetic::div_mod::lemma_add_mod_noop((t - 1) / p, 1, s);
            if s == 1 {
                assert(((t - 1) / p) % s == 0 && 1int % s == 0);
            }
            assert(new_position == (t / p) % s) by {
                if s > 1 {
                    lemma_small_mod(1, s as nat);
                } else {
                    assert((t / p) % 1 == 0);
                    assert(new_position == 0);
                }
            }
            assert(pow(s, level + 1) == p * s) by {
                reveal(pow);
                assert(s * p == p * s) by (nonlinear_arith);
            }
            vstd::arithmetic::div_mod::lemma_mod_breakdown(t, p, s);
            assert(t % (p * s) == p * ((t / p) % s)) by {
                assert(t % p == 0);
            }
            if new_position == 0 {
                assert((t / p) % s == 0);
                assert(t % (p * s) == 0) by (nonlinear_arith)
                    requires
                        t % (p * s) == p * ((t / p) % s),
                        (t / p) % s == 0,
                ;
                assert(t % pow(s, level + 1) == 0);
                Self::lemma_process_synced(advanced, level + 1);
            } else {
                assert(t % pow(s, level + 1) != 0) by (nonlinear_arith)
                    requires
                        t % (p * s) == p * ((t / p) % s),
                        (t / p) % s != 0,
                        p >= 1,
                        pow(s, level + 1) == p * s,
                ;
                assert forall|l: int| 0 <= l < NUM_LEVELS implies #[trigger] advanced.positions[l]
                    == (t / pow(s, l as nat)) % s by {
                    if l > level {
                        lemma_pow_positive(s, l as nat);
                        if t % pow(s, l as nat) == 0 {
                            Self::lemma_multiple_of_lower(t, level + 1, l as nat);
                        }
                        Self::lemma_div_prev(t, pow(s, l as nat));
                    }
                }
                assert(Self::process_model(m, level).0 == advanced);
            }
        }
    }

    /// Law: every level stays at the slot that the time calls for as the wheel ticks
    pub proof fn lemma_tick_synced(m: WheelModel)
        requires
            Self::params_ok(),
            Self::positions_ok(m),
            Self::synced(m),
            m.time < u64::MAX,
        ensures
            Self::synced(Self::tick_model(m).0),
    {
        let mt = WheelModel {
            time: (m.time + 1) as u64,
            positions: m.positions,
            slots: m.slots,
            expire: m.expire,
        };
        assert(pow(NUM_SLOTS as int, 0) == 1) by {
            reveal(pow);
        }
        assert(mt.time as int % 1 == 0);
        Self::lemma_process_synced(mt, 0);
    }

    /// A new wheel is at the slots of time 0
    pub proof fn lemma_initial_synced()
        requires
            Self::params_ok(),
        ensures
            Self::synced(Self::initial_model()),
    {
        assert forall|l: int| 0 <= l < NUM_LEVELS implies #[trigger] Self::initial_model().positions[l]
            == (0int / pow(NUM_SLOTS as int, l as nat)) % (NUM_SLOTS as int) by {
            lemma_pow_positive(NUM_SLOTS as int, l as nat);
            vstd::arithmetic::div_mod::lemma_div_of0(pow(NUM_SLOTS as int, l as nat));
            lemma_small_mod(0, NUM_SLOTS as nat);
        }
    }
}

} // verus!
