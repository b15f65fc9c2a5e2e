//! The reader-writer lock that the pool's threads share the pending bundles through.
//!
//! What the lock holds between two accesses is up to every thread that shares it, so little is
//! said of it: only that the limit on the bundles is the one the lock was made with. What is said
//! is what one access finds and what it leaves, and the lock that a guard belongs to.
//!
//! Whoever can take exclusive access is kept apart from whoever can use it. Only [`add_under`] and
//! [`remove_under`] change what a guard gives access to, and they see a guard but never a lock; the
//! rest of the crate sees the lock, but can change nothing behind it other than through these two.
//! Functions that hand out or follow a read guard are declared with `opens_invariants none`.
//! [`write_lock`] is not, so none of them can take exclusive access.
use parking_lot::lock_api;
use parking_lot::{RawRwLock, RwLock, RwLockReadGuard, RwLockWriteGuard};
use vstd::prelude::*;

use crate::bundle::{SendBundleRequest, B256};
use crate::pending::{
    after_add, outcome, removal_verdict, verdict, well_kept, without_hash, LatestBlock,
    PendingBundles,
};

verus! {

/// `parking_lot::RwLock`, which is `lock_api::RwLock` over parking_lot's own raw lock. Opaque.
#[verifier::external_type_specification]
#[verifier::external_body]
#[verifier::reject_recursive_types(R)]
#[verifier::reject_recursive_types(T)]
pub struct ExRwLock<R, T: ?Sized>(lock_api::RwLock<R, T>);

/// `parking_lot::RawRwLock`, the raw lock under `parking_lot::RwLock`. Opaque.
#[verifier::external_type_specification]
#[verifier::external_body]
pub struct ExRawRwLock(RawRwLock);

/// Shared access to the pending bundles, for as long as it lives: a
/// `parking_lot::RwLockReadGuard`.
///
/// While it lives no thread can change the pending bundles. A thread that holds one must drop it
/// before it adds or removes a bundle, or it waits for itself.
#[verifier::external_body]
pub struct PendingReadGuard<'a> {
    guard: RwLockReadGuard<'a, PendingBundles>,
}

/// Exclusive access to the pending bundles, for as long as it lives: a
/// `parking_lot::RwLockWriteGuard`.
#[verifier::external_body]
pub struct PendingWriteGuard<'a> {
    guard: RwLockWriteGuard<'a, PendingBundles>,
}

/// The bundles that a lock was made with.
pub uninterp spec fn lock_initial(lock: RwLock<PendingBundles>) -> Seq<SendBundleRequest>;

/// The limit on the bundles that a lock was made with.
pub uninterp spec fn lock_limit(lock: RwLock<PendingBundles>) -> u32;

/// The bundles that a read guard gives access to.
pub uninterp spec fn read_contents(guard: PendingReadGuard<'_>) -> Seq<SendBundleRequest>;

/// The lock that a read guard was taken from.
pub uninterp spec fn read_lock_of(guard: PendingReadGuard<'_>) -> RwLock<PendingBundles>;

/// The bundles that a write guard gives access to.
pub uninterp spec fn write_contents(guard: PendingWriteGuard<'_>) -> Seq<SendBundleRequest>;

/// The lock that a write guard was taken from.
pub uninterp spec fn write_lock_of(guard: PendingWriteGuard<'_>) -> RwLock<PendingBundles>;

/// The bundles that the access behind a write guard found when it was taken.
pub uninterp spec fn write_found(guard: PendingWriteGuard<'_>) -> Seq<SendBundleRequest>;

/// The bundles that the exclusive access which a read guard was made of found when it was taken.
/// Nothing is said of it for a guard that was taken from the lock directly.
pub uninterp spec fn read_found(guard: PendingReadGuard<'_>) -> Seq<SendBundleRequest>;

/// Calls `parking_lot::RwLock::new`.
///
/// Claims that the lock was made with the bundles handed in, and with their limit.
#[verifier::external_body]
pub(crate) fn new_lock(pending: PendingBundles) -> (lock: RwLock<PendingBundles>)
    ensures
        lock_initial(lock) == pending@,
        lock_limit(lock) == pending.limit(),
{
    RwLock::new(pending)
}

/// Calls `parking_lot::RwLock::read`, which waits until no thread has exclusive access.
///
/// Claims that the guard belongs to `lock`. What it gives access to depends on the other threads.
#[verifier::external_body]
pub(crate) fn read_lock<'a>(lock: &'a RwLock<PendingBundles>) -> (guard: PendingReadGuard<'a>)
    ensures
        read_lock_of(guard) == *lock,
    opens_invariants none
{
    PendingReadGuard { guard: lock.read() }
}

/// Calls `parking_lot::RwLock::write`, which waits until no other thread has access.
///
/// Claims that the guard belongs to `lock`, and that what it gives access to is what the access
/// found, for nothing was written through it yet. Which bundles these are depends on the other
/// threads.
#[verifier::external_body]
pub(crate) fn write_lock<'a>(lock: &'a RwLock<PendingBundles>) -> (guard: PendingWriteGuard<'a>)
    ensures
        write_lock_of(guard) == *lock,
        write_found(guard) == write_contents(guard),
{
    PendingWriteGuard { guard: lock.write() }
}

/// Calls `RwLockReadGuard::deref`.
///
/// Claims that the reference leads to the guard's contents, and that their limit is the one the
/// lock was made with. The latter holds because [`new_lock`] and [`exchange`] are the only ways to
/// put bundles behind a lock.
#[verifier::external_body]
fn guarded<'b, 'a>(guard: &'b PendingReadGuard<'a>) -> (pending: &'b PendingBundles)
    ensures
        pending@ == read_contents(*guard),
        pending.limit() == lock_limit(read_lock_of(*guard)),
    opens_invariants none
{
    &*guard.guard
}

/// Calls `RwLockWriteGuard::deref_mut`, and puts `other` in the place that it leads to.
///
/// Claims that what was there comes back, that it has the limit the lock was made with, that the
/// guard gives access to `other` afterwards, and that the guard stays with its lock and its access.
/// Asks for the lock's own limit on `other`, so that the limit behind a lock never changes.
#[verifier::external_body]
fn exchange<'a>(guard: &mut PendingWriteGuard<'a>, other: PendingBundles) -> (found:
    PendingBundles)
    requires
        other.limit() == lock_limit(write_lock_of(*old(guard))),
    ensures
        found@ == write_contents(*old(guard)),
        found.limit() == lock_limit(write_lock_of(*old(guard))),
        write_contents(*final(guard)) == other@,
        write_lock_of(*final(guard)) == write_lock_of(*old(guard)),
        write_found(*final(guard)) == write_found(*old(guard)),
{
    std::mem::replace(&mut *guard.guard, other)
}

/// Calls `RwLockWriteGuard::downgrade`, which turns exclusive into shared access and lets no other
/// thread write in between.
///
/// Claims that the shared access is to what the exclusive access held, behind the same lock, and
/// that it was made of that exclusive access.
#[verifier::external_body]
fn give_up<'a>(guard: PendingWriteGuard<'a>) -> (shared: PendingReadGuard<'a>)
    ensures
        read_contents(shared) == write_contents(guard),
        read_lock_of(shared) == write_lock_of(guard),
        read_found(shared) == write_found(guard),
{
    PendingReadGuard { guard: RwLockWriteGuard::downgrade(guard.guard) }
}

/// Offers `bundle` through one exclusive access, which it gives up. All that it can change is what
/// the guard gives access to.
pub(crate) fn add_under<'a>(
    guard: PendingWriteGuard<'a>,
    bundle: SendBundleRequest,
    latest: LatestBlock,
    max_bundles: u32,
) -> (done: (PendingReadGuard<'a>, Result<(), String>))
    requires
        max_bundles == lock_limit(write_lock_of(guard)),
    ensures
        well_kept(write_contents(guard), max_bundles),
        outcome(done.1) == verdict(bundle, write_contents(guard).len(), max_bundles, latest),
        read_contents(done.0) == after_add(write_contents(guard), bundle, max_bundles, latest),
        read_found(done.0) == write_found(guard),
        read_lock_of(done.0) == write_lock_of(guard),
{
    let mut guard = guard;
    let mut pending = exchange(&mut guard, PendingBundles::new(max_bundles));
    proof {
        use_type_invariant(&pending);
    }
    let result = pending.add_bundle(bundle, latest);
    exchange(&mut guard, pending);
    (give_up(guard), result)
}

/// Drops every bundle whose hash is `hash` through one exclusive access, which it gives up. All
/// that it can change is what the guard gives access to.
pub(crate) fn remove_under<'a>(
    guard: PendingWriteGuard<'a>,
    hash: &B256,
    max_bundles: u32,
) -> (done: (PendingReadGuard<'a>, Result<(), String>))
    requires
        max_bundles == lock_limit(write_lock_of(guard)),
    ensures
        well_kept(write_contents(guard), max_bundles),
        outcome(done.1) == removal_verdict(write_contents(guard), hash@),
        read_contents(done.0) == without_hash(write_contents(guard), hash@),
        read_found(done.0) == write_found(guard),
        read_lock_of(done.0) == write_lock_of(guard),
{
    let mut guard = guard;
    let mut pending = exchange(&mut guard, PendingBundles::new(max_bundles));
    proof {
        use_type_invariant(&pending);
    }
    let result = pending.remove_bundle(hash);
    exchange(&mut guard, pending);
    (give_up(guard), result)
}

impl<'a> PendingReadGuard<'a> {
    /// The pending bundles, oldest first. There are never more than the lock's limit.
    pub fn bundles(&self) -> (bundles: &Vec<SendBundleRequest>)
        ensures
            bundles@ == read_contents(*self),
            well_kept(bundles@, lock_limit(read_lock_of(*self))),
        opens_invariants none
    {
        guarded(self).get_bundles()
    }

    /// The pending bundles, for a caller inside the crate.
    pub(crate) fn pending(&self) -> (pending: &PendingBundles)
        ensures
            pending@ == read_contents(*self),
            pending.limit() == lock_limit(read_lock_of(*self)),
        opens_invariants none
    {
        guarded(self)
    }
}

} // verus!
