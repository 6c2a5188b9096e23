//! The guard that gives access to one task.

use core::ops::{Deref, DerefMut};

use vstd::prelude::*;

use crate::chunk::{TaskChunk, CHUNK_SIZE};
use crate::slot::{TaskSlotGuard, TaskSlotValue};
use crate::task_id::TaskId;

verus! {

/// Access to the task `key`: its slot, the modification count of its chunk, and the count of
/// occupied slots of its namespace.
pub struct TaskMapGuard<'a, T: TaskSlotValue> {
    pub key: TaskId,
    pub modified_count: &'a mut u64,
    pub inner: TaskSlotGuard<'a, T>,
    pub len: &'a mut usize,
}

/// A guard that was handed out with the count at `total` leaves the map in order: its slot is still
/// occupied and still counted, or it was vacated and counted out.
pub open spec fn settled<T: TaskSlotValue>(value: T, len: usize, total: usize) -> bool {
    ||| value.occupied() && len == total
    ||| crate::slot::vacant(value) && len == total - 1
}

impl<'a, T: TaskSlotValue> TaskMapGuard<'a, T> {
    /// The value of the task now.
    pub open spec fn value(&self) -> T {
        self.inner.value()
    }

    /// The modification count of the chunk now.
    pub open spec fn count(&self) -> u64 {
        *self.modified_count
    }

    /// The number of occupied slots of the namespace now.
    pub open spec fn total(&self) -> usize {
        *self.len
    }

    /// The guarded slot is occupied, and the namespace counts it.
    pub open spec fn holds_task(&self) -> bool {
        &&& self.value().occupied()
        &&& self.total() > 0
    }

    pub fn new(
        key: TaskId,
        chunk: &'a mut TaskChunk<T>,
        offset: usize,
        len: &'a mut usize,
    ) -> (guard: Self)
        requires
            old(chunk).wf(),
            offset < CHUNK_SIZE,
        ensures
            guard.key == key,
            guard.value() == old(chunk)@.values[offset as int],
            guard.count() == old(chunk)@.modified_count,
            guard.total() == *old(len),
            final(chunk)@ == old(chunk)@.with_value(
                offset as int,
                final(guard.inner.slot).value,
            ).with_modified_count(*final(guard.modified_count)),
            *final(len) == *final(guard.len),
    {
        let (inner, modified_count) = chunk.lock_with_count(offset);
        TaskMapGuard { key, modified_count, inner, len }
    }

    pub fn key(&self) -> (key: &TaskId)
        ensures
            *key == self.key,
    {
        &self.key
    }

    /// Removes the task and returns what it held, just as the value detaches it. Its hint stays: a later scan finds the slot
    /// vacant and clears it, so that a task that reuses the slot soon finds it set.
    pub fn take_and_vacate(self) -> (detached: T)
        requires
            self.holds_task(),
        ensures
            detached.contents() == self.value().contents(),
            crate::slot::vacant(final(self.inner.slot).value),
            exists|slot: &mut T| #[trigger]
                call_ensures(T::take_and_vacate, (slot,), detached) && *slot == self.value()
                    && *final(slot) == final(self.inner.slot).value,
            *final(self.modified_count) == self.count(),
            *final(self.len) == self.total() - 1,
    {
        let mut this = self;
        let detached = this.inner.take_and_vacate();
        *this.len = *this.len - 1;
        detached
    }

    /// Removes the task and drops what it held where it is. Its hint stays, as above.
    pub fn vacate(self)
        requires
            self.holds_task(),
        ensures
            crate::slot::vacant(final(self.inner.slot).value),
            exists|slot: &mut T| #[trigger]
                call_ensures(T::vacate_in_place, (slot,), ()) && *slot == self.value()
                    && *final(slot) == final(self.inner.slot).value,
            *final(self.modified_count) == self.count(),
            *final(self.len) == self.total() - 1,
    {
        let mut this = self;
        this.inner.vacate_in_place();
        *this.len = *this.len - 1;
    }
}

impl<'a, T: TaskSlotValue> Deref for TaskMapGuard<'a, T> {
    type Target = T;

    fn deref(&self) -> (value: &T)
        ensures
            *value == self.value(),
    {
        &self.inner.slot.value
    }
}

impl<'a, T: TaskSlotValue> DerefMut for TaskMapGuard<'a, T> {
    fn deref_mut(&mut self) -> (value: &mut T)
        ensures
            *value == old(self).value(),
            final(self).key == old(self).key,
            final(self).value() == *final(value),
            final(self).count() == old(self).count(),
            final(self).total() == old(self).total(),
            *final(final(self).inner.slot) == *final(old(self).inner.slot),
            *final(final(self).modified_count) == *final(old(self).modified_count),
            *final(final(self).len) == *final(old(self).len),
    {
        &mut self.inner.slot.value
    }
}

} // verus!
