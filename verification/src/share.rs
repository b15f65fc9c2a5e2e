//! A transaction pool with a bundle pool beside it.
use std::sync::Arc;
use vstd::prelude::*;

use crate::bundle::{SendBundleRequest, B256};
use crate::lock::{lock_initial, lock_limit, PendingReadGuard};
use crate::pending::{LatestBlock, SBundlePoolConfig};
use crate::pool::SBundlePool;

verus! {

/// A pool that takes bundles.
pub trait TransactionPoolBundleExt {
    /// The bundles that the pool takes.
    type Bundle;

    /// Whether the pool may give `answer` when `bundle` is offered to it.
    spec fn may_add(
        &self,
        bundle: Self::Bundle,
        latest: LatestBlock,
        answer: Result<(), String>,
    ) -> bool;

    /// Whether the pool may hand out `guard`.
    spec fn may_show(&self, guard: PendingReadGuard<'_>) -> bool;

    /// Whether the pool may give `answer` when it is asked to drop the bundles with hash `hash`.
    spec fn may_remove(&self, hash: B256, answer: Result<(), String>) -> bool;

    /// Whether the pool may give `answer` when it is asked for a place for `bundle`.
    spec fn may_have_room(&self, bundle: Self::Bundle, answer: Result<(), String>) -> bool;

    /// Decides whether the pool has a place for `bundle`, without a look at the chain.
    fn check_room(&self, bundle: &Self::Bundle) -> (answer: Result<(), String>)
        ensures
            self.may_have_room(*bundle, answer),
    ;

    /// Offers `bundle` to the pool.
    fn add_bundle(&self, bundle: Self::Bundle, latest: LatestBlock) -> (answer: Result<
        (),
        String,
    >)
        ensures
            self.may_add(bundle, latest, answer),
    ;

    /// Shared access to the pending bundles.
    fn get_bundles(&self) -> (guard: PendingReadGuard<'_>)
        ensures
            self.may_show(guard),
        opens_invariants none
    ;

    /// Drops every bundle whose hash is `hash`, and fails if there is none.
    fn remove_bundle(&self, hash: &B256) -> (answer: Result<(), String>)
        ensures
            self.may_remove(*hash, answer),
    ;
}

/// A pool, as far as whoever hands bundles in gets to see it: a bundle can be offered, and the pool
/// can be asked whether it has a place. Nothing that waits in the pool can be seen or dropped, and
/// an offer uses the bundle up, so that no bundle is offered twice.
pub trait BundleIntake {
    /// The bundles that can be offered.
    type Offered;

    /// Whether the pool may give `answer` when `bundle` is offered to it.
    spec fn may_answer(
        &self,
        bundle: Self::Offered,
        latest: LatestBlock,
        answer: Result<(), String>,
    ) -> bool;

    /// Whether the pool may give `answer` when it is asked for a place for `bundle`.
    spec fn may_answer_room(&self, bundle: Self::Offered, answer: Result<(), String>) -> bool;

    /// Offers `bundle` to the pool.
    fn offer(&self, bundle: Self::Offered, latest: LatestBlock) -> (answer: Result<(), String>)
        ensures
            self.may_answer(bundle, latest, answer),
    ;

    /// Asks whether the pool has a place for `bundle`, without a look at the chain.
    fn ask_room(&self, bundle: &Self::Offered) -> (answer: Result<(), String>)
        ensures
            self.may_answer_room(*bundle, answer),
    ;
}

impl<Pool: TransactionPoolBundleExt> BundleIntake for Pool {
    type Offered = Pool::Bundle;

    open spec fn may_answer(
        &self,
        bundle: Pool::Bundle,
        latest: LatestBlock,
        answer: Result<(), String>,
    ) -> bool {
        self.may_add(bundle, latest, answer)
    }

    open spec fn may_answer_room(&self, bundle: Pool::Bundle, answer: Result<(), String>) -> bool {
        self.may_have_room(bundle, answer)
    }

    fn offer(&self, bundle: Pool::Bundle, latest: LatestBlock) -> (answer: Result<(), String>) {
        self.add_bundle(bundle, latest)
    }

    fn ask_room(&self, bundle: &Pool::Bundle) -> (answer: Result<(), String>) {
        self.check_room(bundle)
    }
}

/// A transaction pool with a pool of MEV Share bundles beside it. Clones share both.
#[derive(Debug)]
pub struct MevSharePool<TxPool> {
    tx_pool: Arc<TxPool>,
    sbundle_pool: Arc<SBundlePool>,
}

impl<TxPool> MevSharePool<TxPool> {
    /// The transaction pool.
    pub closed spec fn spec_tx_pool(self) -> TxPool {
        *self.tx_pool
    }

    /// The bundle pool.
    pub closed spec fn spec_sbundle_pool(self) -> SBundlePool {
        *self.sbundle_pool
    }

    /// Puts an empty bundle pool beside `tx_pool`.
    pub fn new(tx_pool: TxPool, bundle_pool_config: SBundlePoolConfig) -> (pool: Self)
        ensures
            pool.spec_tx_pool() == tx_pool,
            pool.spec_sbundle_pool().config() == bundle_pool_config,
            lock_initial(pool.spec_sbundle_pool().lock()) == Seq::<SendBundleRequest>::empty(),
            lock_limit(pool.spec_sbundle_pool().lock()) == bundle_pool_config.max_bundles,
    {
        Self {
            tx_pool: Arc::new(tx_pool),
            sbundle_pool: Arc::new(SBundlePool::new(bundle_pool_config)),
        }
    }

    /// The transaction pool.
    pub fn tx_pool(&self) -> (tx_pool: &TxPool)
        ensures
            *tx_pool == self.spec_tx_pool(),
    {
        &*self.tx_pool
    }
}

impl<TxPool> Clone for MevSharePool<TxPool> {
    fn clone(&self) -> (pool: Self)
        ensures
            pool == *self,
            pool.spec_tx_pool() == self.spec_tx_pool(),
            pool.spec_sbundle_pool().lock() == self.spec_sbundle_pool().lock(),
            pool.spec_sbundle_pool().config() == self.spec_sbundle_pool().config(),
    {
        Self { tx_pool: Arc::clone(&self.tx_pool), sbundle_pool: Arc::clone(&self.sbundle_pool) }
    }
}

impl<TxPool> TransactionPoolBundleExt for MevSharePool<TxPool> {
    type Bundle = SendBundleRequest;

    open spec fn may_add(
        &self,
        bundle: SendBundleRequest,
        latest: LatestBlock,
        answer: Result<(), String>,
    ) -> bool {
        self.spec_sbundle_pool().may_add(bundle, latest, answer)
    }

    open spec fn may_show(&self, guard: PendingReadGuard<'_>) -> bool {
        self.spec_sbundle_pool().may_show(guard)
    }

    open spec fn may_remove(&self, hash: B256, answer: Result<(), String>) -> bool {
        self.spec_sbundle_pool().may_remove(hash, answer)
    }

    open spec fn may_have_room(
        &self,
        bundle: SendBundleRequest,
        answer: Result<(), String>,
    ) -> bool {
        self.spec_sbundle_pool().may_have_room(bundle, answer)
    }

    fn check_room(&self, bundle: &SendBundleRequest) -> (answer: Result<(), String>) {
        self.sbundle_pool.check_room(bundle)
    }

    fn add_bundle(&self, bundle: SendBundleRequest, latest: LatestBlock) -> (answer: Result<
        (),
        String,
    >) {
        self.sbundle_pool.add_bundle(bundle, latest)
    }

    fn get_bundles(&self) -> (guard: PendingReadGuard<'_>) {
        self.sbundle_pool.get_bundles()
    }

    fn remove_bundle(&self, hash: &B256) -> (answer: Result<(), String>) {
        self.sbundle_pool.remove_bundle(hash)
    }
}

} // verus!
