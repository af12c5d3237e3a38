//! The timer entry pool, kept in a [`slab::Slab`].
//!
//! Everything in this file is trusted: the declarations below state what the `slab` crate's
//! source shows of the methods that the timer wheel calls.

use vstd::prelude::*;

verus! {

/// Index of the previous/next entry in a timer list
///
/// Heads of lists never have a previous entry, and the last entry of a list has no next entry.
#[derive(Copy, Clone, Debug)]
pub struct TimerEntry {
    /// Key of the next entry in the list
    pub next: Option<usize>,
    /// Key of the previous entry in the list
    pub previous: Option<usize>,
    /// Whether the entry is a list head or a timer, and the expiry time of a timer
    pub data: TimerEntryData,
}

/// Timer entry data
#[derive(Copy, Clone, Debug)]
pub enum TimerEntryData {
    /// Value for the head of a list
    Head,
    /// An actual timer entry
    Timer {
        /// The absolute expiration time in ticks
        expire_time: u64,
    },
}

#[verifier::external_type_specification]
#[verifier::external_body]
#[verifier::reject_recursive_types(T)]
pub struct ExSlab<T>(slab::Slab<T>);

/// The values stored in a slab of timer entries, by key.
pub uninterp spec fn slab_entries(s: slab::Slab<TimerEntry>) -> Map<usize, TimerEntry>;

/// `slab::Slab::new`: a new slab holds no values.
#[verifier::external_body]
pub(crate) fn slab_new() -> (pool: slab::Slab<TimerEntry>)
    ensures
        slab_entries(pool) =~= Map::empty(),
{
    slab::Slab::new()
}

/// `slab::Slab::insert`: the value is stored under a key that held no value before, which is
/// returned; no other key changes.
#[verifier::external_body]
pub(crate) fn slab_insert(s: &mut slab::Slab<TimerEntry>, value: TimerEntry) -> (key: usize)
    ensures
        !slab_entries(*old(s)).contains_key(key),
        slab_entries(*final(s)) == slab_entries(*old(s)).insert(key, value),
{
    s.insert(value)
}

/// `slab::Slab::get`: the value stored under `key`, if there is one.
#[verifier::external_body]
pub(crate) fn slab_get(s: &slab::Slab<TimerEntry>, key: usize) -> (r: Option<&TimerEntry>)
    ensures
        r == (if slab_entries(*s).contains_key(key) {
            Some(&slab_entries(*s)[key])
        } else {
            None
        }),
{
    s.get(key)
}

/// `slab::Slab::index_mut` (as `slab[key] = value`): replaces the value stored under `key`,
/// which must hold one (the slab panics otherwise).
#[verifier::external_body]
pub(crate) fn slab_set(s: &mut slab::Slab<TimerEntry>, key: usize, value: TimerEntry)
    requires
        slab_entries(*old(s)).contains_key(key),
    ensures
        slab_entries(*final(s)) == slab_entries(*old(s)).insert(key, value),
{
    s[key] = value;
}

/// `slab::Slab::remove`: removes and returns the value stored under `key`, which must hold one
/// (the slab panics otherwise).
#[verifier::external_body]
pub(crate) fn slab_remove(s: &mut slab::Slab<TimerEntry>, key: usize) -> (value: TimerEntry)
    requires
        slab_entries(*old(s)).contains_key(key),
    ensures
        value == slab_entries(*old(s))[key],
        slab_entries(*final(s)) == slab_entries(*old(s)).remove(key),
{
    s.remove(key)
}

} // verus!
