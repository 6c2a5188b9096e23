//! Slots, and what a value must offer to live in one.

use core::ops::{Deref, DerefMut};

use vstd::prelude::*;

verus! {

/// Value stored in an always-initialized task slot.
///
/// A value knows by itself whether it is present (`occupied`). What it holds beyond that is its
/// `contents`; a vacant slot holds `blank` contents, so that nothing of a removed task shows up in
/// the task that reuses its slot.
pub trait TaskSlotValue: Sized {
    /// What a value holds, apart from whether it is present.
    type Contents;

    spec fn occupied(&self) -> bool;

    spec fn contents(&self) -> Self::Contents;

    /// The contents of a vacant slot.
    spec fn blank() -> Self::Contents;

    /// The value of a slot that was never used.
    fn empty() -> (value: Self)
        ensures
            !value.occupied(),
            value.contents() == Self::blank(),
    ;

    fn is_occupied(&self) -> (present: bool)
        ensures
            present == self.occupied(),
    ;

    /// Makes a vacant value present. Its contents stay blank until the caller fills them in.
    fn occupy(&mut self)
        requires
            !old(self).occupied(),
        ensures
            final(self).occupied(),
            final(self).contents() == old(self).contents(),
    ;

    /// Moves the contents out and leaves a vacant value behind.
    fn take_and_vacate(&mut self) -> (detached: Self)
        requires
            old(self).occupied(),
        ensures
            !final(self).occupied(),
            final(self).contents() == Self::blank(),
            detached.contents() == old(self).contents(),
    ;

    /// Drops the contents and leaves a vacant value behind.
    fn vacate_in_place(&mut self)
        requires
            old(self).occupied(),
        ensures
            !final(self).occupied(),
            final(self).contents() == Self::blank(),
    ;
}

/// Not present, and without contents.
pub open spec fn vacant<T: TaskSlotValue>(value: T) -> bool {
    &&& !value.occupied()
    &&& value.contents() == T::blank()
}

/// Storage for one value.
pub struct TaskSlot<T: TaskSlotValue> {
    pub value: T,
}

impl<T: TaskSlotValue> TaskSlot<T> {
    pub fn empty() -> (slot: Self)
        ensures
            vacant(slot.value),
            call_ensures(T::empty, (), slot.value),
    {
        TaskSlot { value: T::empty() }
    }

    /// Takes the slot for as long as the guard lives. The exclusive borrow is the lock: nobody
    /// else reads or writes the slot meanwhile.
    pub fn lock(&mut self) -> (guard: TaskSlotGuard<'_, T>)
        ensures
            guard.value() == old(self).value,
            *final(guard.slot) == *final(self),
    {
        TaskSlotGuard { slot: self }
    }
}

/// Access to one slot, to the exclusion of everybody else.
pub struct TaskSlotGuard<'a, T: TaskSlotValue> {
    pub slot: &'a mut TaskSlot<T>,
}

impl<'a, T: TaskSlotValue> TaskSlotGuard<'a, T> {
    /// The value in the slot now.
    pub open spec fn value(&self) -> T {
        self.slot.value
    }
}

impl<'a, T: TaskSlotValue> Deref for TaskSlotGuard<'a, T> {
    type Target = T;

    fn deref(&self) -> (value: &T)
        ensures
            *value == self.value(),
    {
        &self.slot.value
    }
}

impl<'a, T: TaskSlotValue> DerefMut for TaskSlotGuard<'a, T> {
    fn deref_mut(&mut self) -> (value: &mut T)
        ensures
            *value == old(self).value(),
            final(self).value() == *final(value),
            *final(final(self).slot) == *final(old(self).slot),
    {
        &mut self.slot.value
    }
}

} // verus!
