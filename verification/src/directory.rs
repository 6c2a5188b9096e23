//! The append-only directory of a namespace.
//!
//! The directory is a `boxcar::Vec` with one entry per chunk of the namespace, in index order. An
//! entry is `None` until its chunk is created; from then on it names the chunk by its position
//! among the created ones. Entries are never removed.

use vstd::prelude::*;

use crate::chunk::CHUNK_SIZE;

verus! {

/// The number of chunks that the ids of one namespace take.
pub const MAX_CHUNKS: usize = 0x20_0000;

/// `boxcar::Vec`, of which Verus sees nothing but what is said below of its entries.
#[verifier::external_type_specification]
#[verifier::external_body]
#[verifier::reject_recursive_types(T)]
pub struct ExBoxcarVec<T>(boxcar::Vec<T>);

/// The entries that were pushed to a directory, in the order of their indices.
pub uninterp spec fn directory_entries(directory: boxcar::Vec<Option<usize>>) -> Seq<Option<usize>>;

/// Calls `boxcar::Vec::with_capacity`: the new vector is empty, whatever room it reserves.
///
/// The capacity decides how much memory is allocated up front, which no contract speaks of. It is
/// bounded because the allocation of an absurd one panics.
#[verifier::external_body]
pub(crate) fn directory_with_capacity(capacity: usize) -> (directory: boxcar::Vec<Option<usize>>)
    requires
        capacity <= MAX_CHUNKS,
    ensures
        directory_entries(directory) == Seq::<Option<usize>>::empty(),
{
    boxcar::Vec::with_capacity(capacity)
}

/// Calls `boxcar::Vec::get`: the entry at an index, or `None` past the end. Nobody else holds the
/// directory, so no push is under way and every entry below the end is visible.
#[verifier::external_body]
pub(crate) fn directory_get(directory: &boxcar::Vec<Option<usize>>, index: usize) -> (entry: Option<
    Option<usize>,
>)
    ensures
        entry == (if index < directory_entries(*directory).len() {
            Some(directory_entries(*directory)[index as int])
        } else {
            None
        }),
{
    directory.get(index).copied()
}

/// Calls `boxcar::Vec::count`: the number of entries.
#[verifier::external_body]
pub(crate) fn directory_count(directory: &boxcar::Vec<Option<usize>>) -> (count: usize)
    ensures
        count == directory_entries(*directory).len(),
{
    directory.count()
}

/// Calls `boxcar::Vec::push`: the entry is appended, and its index is returned. The vector panics
/// when it is full, or when a bucket is too large to describe; both limits lie beyond the number of
/// chunks that all indices of type `usize` take.
#[verifier::external_body]
pub(crate) fn directory_push(
    directory: &mut boxcar::Vec<Option<usize>>,
    entry: Option<usize>,
) -> (index: usize)
    requires
        directory_entries(*old(directory)).len() <= usize::MAX / CHUNK_SIZE,
    ensures
        index == directory_entries(*old(directory)).len(),
        directory_entries(*final(directory)) == directory_entries(*old(directory)).push(entry),
{
    directory.push(entry)
}

/// Calls `boxcar::Vec::get_mut`, and writes to the entry that it finds.
#[verifier::external_body]
pub(crate) fn directory_set(
    directory: &mut boxcar::Vec<Option<usize>>,
    index: usize,
    entry: Option<usize>,
)
    requires
        index < directory_entries(*old(directory)).len(),
    ensures
        directory_entries(*final(directory)) == directory_entries(*old(directory)).update(
            index as int,
            entry,
        ),
{
    *directory.get_mut(index).unwrap() = entry;
}

/// Calls `boxcar::Vec::iter`: every index with its entry, in ascending order.
#[verifier::external_body]
pub(crate) fn directory_iter(directory: &boxcar::Vec<Option<usize>>) -> (entries: Vec<
    (usize, Option<usize>),
>)
    ensures
        entries@.len() == directory_entries(*directory).len(),
        forall|i: int|
            0 <= i < entries@.len() ==> #[trigger] entries@[i] == (
                i as usize,
                directory_entries(*directory)[i],
            ),
{
    directory.iter().map(|(index, entry)| (index, *entry)).collect()
}

/// What to do next towards a directory entry that is needed.
#[derive(Clone, Copy, Debug, PartialEq, Eq, Structural)]
pub enum GrowthStep {
    /// The entry is there.
    Ready,
    /// The directory is too short: append an entry to it.
    Extend,
    /// The entry's index was handed out to a push that is still under way: look again later.
    Wait,
}

/// Go on with an entry that is visible; else append while fewer entries are counted than are needed.
pub open spec fn next_growth_step(visible: bool, count: int, index: int) -> GrowthStep {
    if visible {
        GrowthStep::Ready
    } else if count <= index {
        GrowthStep::Extend
    } else {
        GrowthStep::Wait
    }
}

/// Decides the next step towards the entry at `index` of a directory that counts `count` entries,
/// where `visible` says whether the entry can be read.
///
/// A directory that counts enough entries is not extended.
pub fn growth_step(visible: bool, count: usize, index: usize) -> (step: GrowthStep)
    ensures
        step == next_growth_step(visible, count as int, index as int),
{
    if visible {
        GrowthStep::Ready
    } else if count <= index {
        GrowthStep::Extend
    } else {
        GrowthStep::Wait
    }
}

} // verus!
