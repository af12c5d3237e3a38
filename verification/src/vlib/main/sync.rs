//! Core synchronization primitives for vlib main.
//!
//! A read/write lock using VPP's barrier to provide exclusion between threads. VPP implements a
//! barrier in the main thread which blocks all worker threads from running; the
//! `BarrierRwLock` allows a writer in the VPP main thread whilst the barrier is held and readers
//! in either VPP workers or the VPP main thread. Taking read or write "locks" never blocks.
//!
//! Only the main thread keeps count of its readers and whether it holds the write lock: worker
//! threads cannot run while the barrier is held, so their reads never conflict with a write.
//! Taking a guard and giving it back are separate calls on the lock; a guard records what giving
//! it back has to undo.

use vstd::prelude::*;

verus! {

/// A read/write lock using VPP's barrier to provide exclusion between threads
pub struct BarrierRwLock<T> {
    /// The number of read guards held on the main thread
    readers: u32,
    /// Whether the write guard is held
    writer: bool,
    /// The lock-protected data
    data: T,
}

/// Shared read guard returned by [`BarrierRwLock::read`]
pub struct BarrierRwLockReadGuard {
    /// Whether the guard was taken on the VPP main thread
    main_thread: bool,
}

/// Exclusive write guard returned by [`BarrierRwLock::write`]
pub struct BarrierRwLockWriteGuard {
    /// Nothing but the right to write
    _held: (),
}

/// What the lock keeps of the guards taken on the main thread
pub struct LockState {
    /// The number of read guards held on the main thread
    pub readers: nat,
    /// Whether the write guard is held
    pub writer: bool,
}

impl LockState {
    /// A read guard can be taken on thread `thread_index` without panicking: the main thread
    /// (index 0) must not hold the write guard
    pub open spec fn can_read(self, thread_index: u32) -> bool {
        thread_index == 0 ==> !self.writer && self.readers < u32::MAX
    }

    /// The write guard can be taken without panicking: the main thread holds no guard
    pub open spec fn can_write(self) -> bool {
        self.readers == 0 && !self.writer
    }

    /// The state once a read guard is taken on thread `thread_index`
    pub open spec fn after_read(self, thread_index: u32) -> LockState {
        if thread_index == 0 {
            LockState { readers: self.readers + 1, writer: self.writer }
        } else {
            self
        }
    }

    /// The state once a read guard taken on the main thread (or not) is given back
    pub open spec fn after_read_unlock(self, main_thread: bool) -> LockState {
        if main_thread {
            LockState { readers: (self.readers - 1) as nat, writer: self.writer }
        } else {
            self
        }
    }

    /// The state once the write guard is taken
    pub open spec fn after_write(self) -> LockState {
        LockState { readers: self.readers, writer: true }
    }

    /// The state once the write guard is given back
    pub open spec fn after_write_unlock(self) -> LockState {
        LockState { readers: self.readers, writer: false }
    }

    /// Law: taking a read guard and giving it back leaves the lock as it was
    pub proof fn lemma_read_then_unlock(self, thread_index: u32)
        requires
            self.can_read(thread_index),
        ensures
            self.after_read(thread_index).after_read_unlock(thread_index == 0) == self,
    {
    }

    /// Law: taking the write guard and giving it back leaves the lock as it was
    pub proof fn lemma_write_then_unlock(self)
        requires
            self.can_write(),
        ensures
            self.after_write().after_write_unlock() == self,
    {
    }

    /// Law: reading on the main thread is refused exactly while the write guard is held (or
    /// the count of readers is full), writing exactly while any guard is held on the main thread,
    /// and reading on a worker thread never
    pub proof fn lemma_when_refused(self, thread_index: u32)
        ensures
            self.can_read(0) <==> !self.writer && self.readers < u32::MAX,
            self.can_write() <==> self.readers == 0 && !self.writer,
            thread_index != 0 ==> self.can_read(thread_index),
            !self.after_write().can_read(0),
            !self.after_write().can_write(),
            !self.after_read(0).can_write(),
            self.can_read(0) ==> self.after_read(0).can_read(0) || self.readers + 1 == u32::MAX,
    {
    }

    /// Law: while a read guard is held on the main thread, the write guard cannot be taken;
    /// while the write guard is held, no read guard can be taken on the main thread; worker
    /// threads can always read
    pub proof fn lemma_exclusion(self, thread_index: u32)
        requires
            self.can_read(thread_index),
        ensures
            thread_index == 0 ==> !self.after_read(thread_index).can_write(),
            self.can_write() ==> !self.after_write().can_read(0),
            thread_index != 0 ==> self.after_read(thread_index) == self && self.after_write().can_read(
                thread_index,
            ),
    {
    }
}

impl BarrierRwLockReadGuard {
    /// Whether the guard was taken on the VPP main thread
    pub closed spec fn is_main_thread(&self) -> bool {
        self.main_thread
    }
}

impl<T> BarrierRwLock<T> {
    /// The guards held on the main thread
    pub closed spec fn state(&self) -> LockState {
        LockState { readers: self.readers as nat, writer: self.writer }
    }

    /// The protected data
    pub closed spec fn value(&self) -> T {
        self.data
    }

    /// Create a new barrier-backed read/write lock.
    pub fn new(t: T) -> (lock: Self)
        ensures
            lock.state() == (LockState { readers: 0, writer: false }),
            lock.value() == t,
    {
        BarrierRwLock { data: t, readers: 0, writer: false }
    }

    /// The number of read guards held on the main thread
    pub fn readers(&self) -> (readers: u32)
        ensures
            readers == self.state().readers,
    {
        self.readers
    }

    /// Whether the write guard is held
    pub fn writer_held(&self) -> (held: bool)
        ensures
            held == self.state().writer,
    {
        self.writer
    }

    /// Locks this `BarrierRwLock` with shared read access on thread `thread_index`.
    ///
    /// Only a guard on the VPP main thread (index 0) is counted. Reading on the main thread
    /// whilst it holds the write guard is a bug, and that input is left out.
    pub fn read(&mut self, thread_index: u32) -> (guard: BarrierRwLockReadGuard)
        requires
            old(self).state().can_read(thread_index),
        ensures
            guard.is_main_thread() == (thread_index == 0),
            final(self).value() == old(self).value(),
            final(self).state() == old(self).state().after_read(thread_index),
    {
        let main_thread = thread_index == 0;
        if main_thread {
            self.readers = self.readers + 1;
        }
        BarrierRwLockReadGuard { main_thread }
    }

    /// Gives back a read guard taken from this lock
    pub fn read_unlock(&mut self, guard: BarrierRwLockReadGuard)
        requires
            guard.is_main_thread() ==> old(self).state().readers > 0,
        ensures
            final(self).value() == old(self).value(),
            final(self).state() == old(self).state().after_read_unlock(guard.is_main_thread()),
    {
        if guard.main_thread {
            self.readers = self.readers - 1;
        }
    }

    /// Locks this `BarrierRwLock` with write access, on the VPP main thread whilst the barrier
    /// is held.
    ///
    /// Writing whilst a read or another write guard is held on the main thread is a bug, and
    /// those inputs are left out.
    pub fn write(&mut self) -> (guard: BarrierRwLockWriteGuard)
        requires
            old(self).state().can_write(),
        ensures
            final(self).value() == old(self).value(),
            final(self).state() == old(self).state().after_write(),
    {
        self.writer = true;
        BarrierRwLockWriteGuard { _held: () }
    }

    /// Gives back the write guard
    pub fn write_unlock(&mut self, guard: BarrierRwLockWriteGuard)
        ensures
            final(self).value() == old(self).value(),
            final(self).state() == old(self).state().after_write_unlock(),
    {
        self.writer = false;
    }

    /// The data, as seen through a read or write guard
    pub fn data(&self) -> (r: &T)
        ensures
            *r == self.value(),
    {
        &self.data
    }

    /// Get a mutable reference to the contained data without locking.
    ///
    /// This call borrows the `BarrierRwLock` mutably (at compile-time) which guarantees that we
    /// possess the only reference.
    pub fn get_mut(&mut self) -> (r: &mut T)
        ensures
            *r == old(self).value(),
            final(self).value() == *final(r),
            final(self).state() == old(self).state(),
    {
        &mut self.data
    }

    /// Returns a reference to the underlying data, the place that reads and writes through the
    /// guards go to
    pub fn data_ptr(&self) -> (r: &T)
        ensures
            *r == self.value(),
    {
        &self.data
    }

    /// Consume the lock and return the underlying data.
    pub fn into_inner(self) -> (t: T)
        ensures
            t == self.value(),
    {
        self.data
    }
}

impl<T: Default> Default for BarrierRwLock<T> {
    /// Creates a new `BarrierRwLock<T>`, with the `Default` value for T.
    fn default() -> (lock: Self)
        ensures
            lock.state() == (LockState { readers: 0, writer: false }),
            call_ensures(T::default, (), lock.value()),
    {
        BarrierRwLock::new(T::default())
    }
}

} // verus!
