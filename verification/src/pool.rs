//! The bundle pool that threads share.
use parking_lot::RwLock;
use vstd::prelude::*;

use crate::bundle::{SendBundleRequest, B256};
use crate::lock::{
    add_under, lock_initial, lock_limit, new_lock, read_contents, read_found, read_lock,
    read_lock_of, remove_under, write_lock, PendingReadGuard,
};
use crate::pending::{
    after_add, outcome, removal_verdict, room_verdict, verdict, well_kept, without_hash,
    LatestBlock, PendingBundles, SBundlePoolConfig,
};

verus! {

/// A bounded pool of pending bundles.
#[derive(Debug)]
pub struct SBundlePool {
    pending: RwLock<PendingBundles>,
    config: SBundlePoolConfig,
}

impl SBundlePool {
    /// The lock that guards the pending bundles.
    pub closed spec fn lock(self) -> RwLock<PendingBundles> {
        self.pending
    }

    /// The configuration the pool was made with.
    pub closed spec fn config(self) -> SBundlePoolConfig {
        self.config
    }

    /// The invariant of every value of the type: the lock keeps to the configured limit.
    #[verifier::type_invariant]
    pub open spec fn inv(self) -> bool {
        lock_limit(self.lock()) == self.config().max_bundles
    }

    /// Whether one exclusive access to the pending bundles found `before` when it was taken, and
    /// left `after` when it was given up. What the lock holds at other times is up to every thread
    /// that shares it, and that a call makes no other access is not said.
    pub open spec fn turned(
        self,
        before: Seq<SendBundleRequest>,
        after: Seq<SendBundleRequest>,
    ) -> bool {
        exists|end: PendingReadGuard<'_>|
            {
                &&& #[trigger] read_lock_of(end) == self.lock()
                &&& read_found(end) == before
                &&& read_contents(end) == after
            }
    }

    /// Whether a shared access to the pending bundles found `pending`.
    pub open spec fn showed(self, pending: Seq<SendBundleRequest>) -> bool {
        exists|guard: PendingReadGuard<'_>|
            {
                &&& #[trigger] read_lock_of(guard) == self.lock()
                &&& read_contents(guard) == pending
            }
    }

    /// Whether `result` answers an offer of `bundle` by an access that found `before` and left
    /// `after`: `result` is the verdict, and `after` has `bundle` at the end or is `before`.
    pub open spec fn added(
        self,
        before: Seq<SendBundleRequest>,
        after: Seq<SendBundleRequest>,
        bundle: SendBundleRequest,
        latest: LatestBlock,
        result: Result<(), String>,
    ) -> bool {
        &&& self.turned(before, after)
        &&& well_kept(before, self.config().max_bundles)
        &&& outcome(result) == verdict(bundle, before.len(), self.config().max_bundles, latest)
        &&& after == after_add(before, bundle, self.config().max_bundles, latest)
    }

    /// Whether `result` answers a request to drop `hash` by an access that found `before` and left
    /// `after`: `result` is the verdict, and `after` has the bundles with another hash.
    pub open spec fn removed(
        self,
        before: Seq<SendBundleRequest>,
        after: Seq<SendBundleRequest>,
        hash: B256,
        result: Result<(), String>,
    ) -> bool {
        &&& self.turned(before, after)
        &&& well_kept(before, self.config().max_bundles)
        &&& outcome(result) == removal_verdict(before, hash@)
        &&& after == without_hash(before, hash@)
    }

    /// Whether `result` may answer an offer of `bundle`.
    pub open spec fn may_add(
        self,
        bundle: SendBundleRequest,
        latest: LatestBlock,
        result: Result<(), String>,
    ) -> bool {
        exists|before: Seq<SendBundleRequest>, after: Seq<SendBundleRequest>|
            #[trigger] self.added(before, after, bundle, latest, result)
    }

    /// Whether `result` may answer a request to drop `hash`.
    pub open spec fn may_remove(self, hash: B256, result: Result<(), String>) -> bool {
        exists|before: Seq<SendBundleRequest>, after: Seq<SendBundleRequest>|
            #[trigger] self.removed(before, after, hash, result)
    }

    /// Whether the pool may hand out `guard`: shared access to its own bundles, which are never
    /// more than the configured limit.
    pub open spec fn may_show(self, guard: PendingReadGuard<'_>) -> bool {
        &&& read_lock_of(guard) == self.lock()
        &&& well_kept(read_contents(guard), self.config().max_bundles)
    }

    /// Whether `result` is the verdict on the room for `bundle`, by the bundles that a shared
    /// access found.
    pub open spec fn may_have_room(
        self,
        bundle: SendBundleRequest,
        result: Result<(), String>,
    ) -> bool {
        exists|pending: Seq<SendBundleRequest>|
            {
                &&& #[trigger] self.showed(pending)
                &&& well_kept(pending, self.config().max_bundles)
                &&& outcome(result) == room_verdict(
                    bundle.bundle_body@.len(),
                    pending.len(),
                    self.config().max_bundles as nat,
                )
            }
    }

    /// An empty pool.
    pub fn new(config: SBundlePoolConfig) -> (pool: Self)
        ensures
            pool.config() == config,
            lock_initial(pool.lock()) == Seq::<SendBundleRequest>::empty(),
            lock_limit(pool.lock()) == config.max_bundles,
    {
        Self { pending: new_lock(PendingBundles::new(config.max_bundles)), config }
    }

    /// Decides whether the pool has a place for `bundle`, by the bundles that a shared access
    /// finds: the part of the validation that needs no look at the chain.
    pub fn check_room(&self, bundle: &SendBundleRequest) -> (result: Result<(), String>)
        ensures
            self.may_have_room(*bundle, result),
    {
        proof {
            use_type_invariant(self);
        }
        let guard = read_lock(&self.pending);
        assert(self.showed(read_contents(guard)));
        let pending = guard.pending();
        proof {
            use_type_invariant(pending);
        }
        pending.check_room(bundle)
    }

    /// Decides whether `bundle` may enter the pool, by the bundles that a shared access finds.
    pub fn validate_bundle(&self, bundle: &SendBundleRequest, latest: LatestBlock) -> (result:
        Result<(), String>)
        ensures
            exists|pending: Seq<SendBundleRequest>|
                {
                    &&& #[trigger] self.showed(pending)
                    &&& well_kept(pending, self.config().max_bundles)
                    &&& outcome(result) == verdict(
                        *bundle,
                        pending.len(),
                        self.config().max_bundles,
                        latest,
                    )
                },
    {
        proof {
            use_type_invariant(self);
        }
        let guard = read_lock(&self.pending);
        assert(self.showed(read_contents(guard)));
        let pending = guard.pending();
        proof {
            use_type_invariant(pending);
        }
        pending.validate_bundle(bundle, latest)
    }

    /// Offers `bundle` to the pool.
    pub fn add_bundle(&self, bundle: SendBundleRequest, latest: LatestBlock) -> (result: Result<
        (),
        String,
    >)
        ensures
            self.may_add(bundle, latest, result),
    {
        proof {
            use_type_invariant(self);
        }
        let guard = write_lock(&self.pending);
        let (end, result) = add_under(guard, bundle, latest, self.config.max_bundles);
        assert(self.turned(read_found(end), read_contents(end)));
        assert(self.added(read_found(end), read_contents(end), bundle, latest, result));
        result
    }

    /// Shared access to the pending bundles. Changes nothing: it is declared in a way that rules out
    /// exclusive access.
    pub fn get_bundles(&self) -> (guard: PendingReadGuard<'_>)
        ensures
            self.may_show(guard),
        opens_invariants none
    {
        proof {
            use_type_invariant(self);
        }
        let guard = read_lock(&self.pending);
        let pending = guard.pending();
        proof {
            use_type_invariant(pending);
        }
        guard
    }

    /// Drops every bundle whose hash is `hash`, and fails if there is none.
    pub fn remove_bundle(&self, hash: &B256) -> (result: Result<(), String>)
        ensures
            self.may_remove(*hash, result),
    {
        proof {
            use_type_invariant(self);
        }
        let guard = write_lock(&self.pending);
        let (end, result) = remove_under(guard, hash, self.config.max_bundles);
        assert(self.turned(read_found(end), read_contents(end)));
        assert(self.removed(read_found(end), read_contents(end), *hash, result));
        result
    }
}

impl Default for SBundlePool {
    fn default() -> (pool: Self)
        ensures
            pool.config() == (SBundlePoolConfig { max_bundles: 42 }),
            lock_initial(pool.lock()) == Seq::<SendBundleRequest>::empty(),
            lock_limit(pool.lock()) == 42,
    {
        Self::new(SBundlePoolConfig::default())
    }
}

} // verus!
