//! Task identifiers.

use core::ops::Deref;

use vstd::prelude::*;

verus! {

/// The bit that tells the id of a transient task from that of a persistent one.
pub const TRANSIENT_TASK_BIT: u32 = 0x8000_0000;

/// The id of a task: a number other than zero.
#[derive(Clone, Copy, Debug)]
pub struct TaskId {
    id: u32,
}

/// Zero is no task id.
#[derive(Clone, Copy, Debug)]
pub struct ZeroTaskId;

/// Whether the number is the id of a transient task.
pub open spec fn transient_id(id: u32) -> bool {
    id >= TRANSIENT_TASK_BIT
}

/// The position of the task with this id in its namespace.
pub open spec fn index_of_id(id: u32) -> int {
    if transient_id(id) {
        id - TRANSIENT_TASK_BIT
    } else {
        id as int
    }
}

impl View for TaskId {
    type V = u32;

    closed spec fn view(&self) -> u32 {
        self.id
    }
}

impl TaskId {
    #[verifier::type_invariant]
    spec fn nonzero(self) -> bool {
        self.id != 0
    }

    /// Whether the id belongs to the transient namespace.
    pub open spec fn transient(self) -> bool {
        transient_id(self@)
    }

    /// The position of the task in its namespace.
    pub open spec fn index(self) -> int {
        index_of_id(self@)
    }

    pub fn try_from(id: u32) -> (result: Result<Self, ZeroTaskId>)
        ensures
            match result {
                Ok(task) => id != 0 && task@ == id,
                Err(_) => id == 0,
            },
    {
        if id == 0 {
            Err(ZeroTaskId)
        } else {
            Ok(TaskId { id })
        }
    }

    pub fn is_transient(&self) -> (transient: bool)
        ensures
            transient == self.transient(),
    {
        let id = self.id;
        assert(id & 0x8000_0000 != 0 <==> id >= 0x8000_0000) by (bit_vector);
        self.id & TRANSIENT_TASK_BIT != 0
    }
}

impl Deref for TaskId {
    type Target = u32;

    /// The id as a number.
    fn deref(&self) -> (id: &u32)
        ensures
            *id == self@,
            *id != 0,
    {
        proof {
            use_type_invariant(self);
        }
        &self.id
    }
}

} // verus!
