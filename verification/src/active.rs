//! The set of active tasks: a slab that holds the waker of every task that has
//! not finished.

use crate::task::TaskWaker;
use slab::Slab;
use vstd::prelude::*;

verus! {

/// Declares [`slab::Slab`].
#[verifier::external_type_specification]
#[verifier::external_body]
#[verifier::reject_recursive_types(T)]
pub struct ExSlab<T>(slab::Slab<T>);

/// What a slab holds: for each occupied key, the waker that is stored under it.
pub uninterp spec fn stored(slab: Slab<TaskWaker>) -> Map<usize, TaskWaker>;

/// The key under which a slab stores the next waker.
pub uninterp spec fn vacant_key(slab: Slab<TaskWaker>) -> usize;

/// Whether each element is smaller than those behind it.
pub open spec fn strictly_increasing(keys: Seq<usize>) -> bool {
    forall|i: int, j: int| 0 <= i < j < keys.len() ==> keys[i] < keys[j]
}

/// The keys that wakers carry.
pub open spec fn waker_keys(wakers: Seq<TaskWaker>) -> Seq<usize> {
    wakers.map_values(|waker: TaskWaker| waker.key())
}

/// Whether the wakers are those that `active` holds, in the order of the keys.
pub open spec fn in_key_order(active: Map<usize, TaskWaker>, wakers: Seq<TaskWaker>) -> bool {
    exists|keys: Seq<usize>|
        {
            &&& #[trigger] strictly_increasing(keys)
            &&& keys.to_set() == active.dom()
            &&& wakers == keys.map_values(|key: usize| active[key])
        }
}

/// Calls [`Slab::new`]. The contract claims that the slab is empty, and that
/// its first key is 0.
#[verifier::external_body]
pub(crate) fn empty() -> (made: Slab<TaskWaker>)
    ensures
        stored(made).dom() == Set::<usize>::empty(),
        vacant_key(made) == 0,
{
    Slab::new()
}

/// Calls [`Slab::vacant_key`]. The contract claims that it returns the key of
/// the next waker, and that nothing is stored under that key.
#[verifier::external_body]
pub(crate) fn next_key(slab: &Slab<TaskWaker>) -> (key: usize)
    ensures
        key == vacant_key(*slab),
        !stored(*slab).contains_key(key),
{
    slab.vacant_key()
}

/// Calls [`Slab::insert`]. The contract claims that the waker is stored under
/// the vacant key, that this key was vacant, and that nothing else changes but
/// the vacant key.
#[verifier::external_body]
pub(crate) fn insert(slab: &mut Slab<TaskWaker>, waker: TaskWaker) -> (key: usize)
    ensures
        key == vacant_key(*old(slab)),
        !stored(*old(slab)).contains_key(key),
        stored(*final(slab)) == stored(*old(slab)).insert(key, waker),
{
    slab.insert(waker)
}

/// Calls [`Slab::try_remove`]. The contract claims that it takes out what is
/// stored under the key, if anything is, and that the key is then the vacant
/// one; otherwise nothing changes.
#[verifier::external_body]
pub(crate) fn try_remove(slab: &mut Slab<TaskWaker>, key: usize) -> (waker: Option<TaskWaker>)
    ensures
        waker is Some <==> stored(*old(slab)).contains_key(key),
        waker matches Some(taken) ==> taken == stored(*old(slab))[key],
        stored(*final(slab)) == stored(*old(slab)).remove(key),
        vacant_key(*final(slab)) == if waker is Some { key } else { vacant_key(*old(slab)) },
{
    slab.try_remove(key)
}

/// Calls [`Slab::is_empty`]. The contract claims that it tells whether nothing
/// is stored.
#[verifier::external_body]
pub(crate) fn is_empty(slab: &Slab<TaskWaker>) -> (empty: bool)
    ensures
        empty <==> stored(*slab).dom() == Set::<usize>::empty(),
{
    slab.is_empty()
}

/// Calls [`Slab::len`]. The contract claims that it counts what is stored.
#[verifier::external_body]
pub(crate) fn len(slab: &Slab<TaskWaker>) -> (len: usize)
    ensures
        len == stored(*slab).dom().len(),
{
    slab.len()
}

/// Calls [`Slab::drain`] and collects what it yields. The contract claims that
/// everything comes out, in the order of the keys, and that the slab is then
/// empty and starts again from the key 0.
#[verifier::external_body]
pub(crate) fn drain(slab: &mut Slab<TaskWaker>) -> (wakers: Vec<TaskWaker>)
    ensures
        in_key_order(stored(*old(slab)), wakers@),
        stored(*final(slab)).dom() == Set::<usize>::empty(),
        vacant_key(*final(slab)) == 0,
{
    slab.drain().collect()
}

} // verus!
