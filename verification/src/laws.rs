//! What holds of the pool across its operations.
use jsonrpsee_types::ErrorObjectOwned;
use vstd::prelude::*;
use vstd::std_specs::convert::FromSpec;

use crate::bundle::{body_encoding, keccak256_digest, PoolBundle, SendBundleRequest, B256};
use crate::lock::{read_contents, read_found, read_lock_of, PendingReadGuard};
use crate::mev::{early_reply, error_object, replies, MevApi, MevError, SendBundleResponse};
use crate::pending::{
    after_add, holds_hash, lemma_without_hash, outcome, removal_verdict, room_verdict, verdict,
    well_kept, window_verdict, without_hash, LatestBlock,
};
use crate::pool::SBundlePool;
use crate::share::{BundleIntake, MevSharePool, TransactionPoolBundleExt};

verus! {

/// A bundle is admitted exactly if its body has an item, the pool has a place left, and the chain
/// reports a latest block that the bundle's inclusion covers.
pub proof fn admitted_iff(
    bundle: SendBundleRequest,
    pending_len: nat,
    max_bundles: u32,
    latest: LatestBlock,
)
    ensures
        verdict(bundle, pending_len, max_bundles, latest) is Ok <==> {
            &&& bundle.bundle_body@.len() > 0
            &&& pending_len < max_bundles
            &&& latest matches Ok(Some(current)) && bundle.inclusion.covers(current)
        },
{
}

/// A bundle with an empty body is refused with the same message whatever the pool holds and
/// whatever the chain reports.
pub proof fn empty_body_refused(
    bundle: SendBundleRequest,
    pending_len: nat,
    max_bundles: u32,
    latest: LatestBlock,
)
    requires
        bundle.bundle_body@.len() == 0,
    ensures
        verdict(bundle, pending_len, max_bundles, latest) == Err::<(), Seq<char>>(
            "Bundle body must not be empty"@,
        ),
{
}

/// A full pool refuses every bundle with something in its body, whatever the chain reports.
pub proof fn full_pool_refuses(
    bundle: SendBundleRequest,
    pending_len: nat,
    max_bundles: u32,
    latest: LatestBlock,
)
    requires
        bundle.bundle_body@.len() > 0,
        pending_len >= max_bundles,
    ensures
        verdict(bundle, pending_len, max_bundles, latest) == Err::<(), Seq<char>>(
            "Bundle pool is full"@,
        ),
{
}

/// A bundle whose last block lies before its first is never admitted.
pub proof fn empty_window_refused(
    bundle: SendBundleRequest,
    pending_len: nat,
    max_bundles: u32,
    latest: LatestBlock,
)
    requires
        bundle.inclusion.max_block matches Some(max_block) && max_block < bundle.inclusion.block,
    ensures
        verdict(bundle, pending_len, max_bundles, latest) is Err,
{
}

/// As the chain grows, a bundle that came too late stays too late.
pub proof fn expired_stays_expired(bundle: SendBundleRequest, current: u64, later: u64)
    requires
        bundle.inclusion.block <= current <= later,
        !bundle.inclusion.covers(current),
    ensures
        window_verdict(bundle.inclusion, Ok(Some(current))) == Err::<(), Seq<char>>(
            "current block > inclusion.max_block"@,
        ),
        window_verdict(bundle.inclusion, Ok(Some(later))) == Err::<(), Seq<char>>(
            "current block > inclusion.max_block"@,
        ),
{
}

/// An admitted bundle comes last; those that were there stay as they were, in their order.
pub proof fn admitted_comes_last(
    pending: Seq<SendBundleRequest>,
    bundle: SendBundleRequest,
    max_bundles: u32,
    latest: LatestBlock,
)
    requires
        verdict(bundle, pending.len(), max_bundles, latest) is Ok,
    ensures
        after_add(pending, bundle, max_bundles, latest).len() == pending.len() + 1,
        after_add(pending, bundle, max_bundles, latest).last() == bundle,
        after_add(pending, bundle, max_bundles, latest).drop_last() == pending,
{
    assert(pending.push(bundle).drop_last() =~= pending);
}

/// A refused bundle leaves the pool as it was.
pub proof fn refused_changes_nothing(
    pending: Seq<SendBundleRequest>,
    bundle: SendBundleRequest,
    max_bundles: u32,
    latest: LatestBlock,
)
    requires
        verdict(bundle, pending.len(), max_bundles, latest) is Err,
    ensures
        after_add(pending, bundle, max_bundles, latest) == pending,
{
}

/// After the bundles with a hash were dropped none is left, and asking again fails and changes
/// nothing.
pub proof fn second_removal_fails(pending: Seq<SendBundleRequest>, hash: Seq<u8>)
    ensures
        !holds_hash(without_hash(pending, hash), hash),
        removal_verdict(without_hash(pending, hash), hash) == Err::<(), Seq<char>>(
            "Bundle not found"@,
        ),
        without_hash(without_hash(pending, hash), hash) == without_hash(pending, hash),
{
    lemma_without_hash(pending, hash);
    lemma_without_hash(without_hash(pending, hash), hash);
}

/// A removal that fails changes nothing; one that succeeds leaves fewer bundles.
pub proof fn removal_shrinks_or_fails(pending: Seq<SendBundleRequest>, hash: Seq<u8>)
    ensures
        removal_verdict(pending, hash) is Err ==> without_hash(pending, hash) == pending,
        removal_verdict(pending, hash) is Ok ==> without_hash(pending, hash).len() < pending.len(),
{
    lemma_without_hash(pending, hash);
}

/// Dropping a hash drops the bundles that have it and no others, and keeps the rest in order: a
/// single bundle stays exactly if its hash is another one, and dropping the hash from two runs of
/// bundles, one after the other, is dropping it from each.
pub proof fn removal_keeps_order(
    earlier: Seq<SendBundleRequest>,
    later: Seq<SendBundleRequest>,
    hash: Seq<u8>,
)
    ensures
        without_hash(earlier + later, hash) == without_hash(earlier, hash) + without_hash(
            later,
            hash,
        ),
        forall|bundle: SendBundleRequest|
            #[trigger] without_hash(seq![bundle], hash) == (if bundle.pool_hash() == hash {
                Seq::empty()
            } else {
                seq![bundle]
            }),
{
    Seq::filter_distributes_over_add(
        earlier,
        later,
        |bundle: SendBundleRequest| bundle.pool_hash() != hash,
    );
    assert forall|bundle: SendBundleRequest|
        #[trigger] without_hash(seq![bundle], hash) == (if bundle.pool_hash() == hash {
            Seq::empty()
        } else {
            seq![bundle]
        }) by {
        let single = seq![bundle];
        lemma_without_hash(single, hash);
        if bundle.pool_hash() == hash {
            assert(single[0].pool_hash() == hash);
            assert(without_hash(single, hash) =~= Seq::empty());
        }
    }
}

/// Dropping one hash does not change whether another one is held.
proof fn lemma_other_hash_stays(pending: Seq<SendBundleRequest>, dropped: Seq<u8>, other: Seq<u8>)
    requires
        dropped != other,
    ensures
        holds_hash(without_hash(pending, dropped), other) == holds_hash(pending, other),
{
    let keep = |bundle: SendBundleRequest| bundle.pool_hash() != dropped;
    let left = without_hash(pending, dropped);
    lemma_without_hash(pending, dropped);
    if holds_hash(pending, other) {
        let i = choose|i: int|
            0 <= i < pending.len() && (#[trigger] pending[i]).pool_hash() == other;
        assert(keep(pending[i]));
        pending.lemma_filter_contains(keep, i);
        assert(left.contains(pending[i]));
        let j = choose|j: int| 0 <= j < left.len() && left[j] == pending[i];
        assert(left[j].pool_hash() == other);
    }
    if holds_hash(left, other) {
        let i = choose|i: int| 0 <= i < left.len() && (#[trigger] left[i]).pool_hash() == other;
        let j = choose|j: int| 0 <= j < pending.len() && pending[j] == left[i];
        assert(pending[j].pool_hash() == other);
    }
}

/// Dropping two hashes leaves the same bundles in either order, and if the hashes differ each of
/// them gets the same answer in both orders.
pub proof fn removals_commute(pending: Seq<SendBundleRequest>, first: Seq<u8>, second: Seq<u8>)
    ensures
        without_hash(without_hash(pending, first), second) == without_hash(
            without_hash(pending, second),
            first,
        ),
        first != second ==> {
            &&& removal_verdict(without_hash(pending, second), first) == removal_verdict(
                pending,
                first,
            )
            &&& removal_verdict(without_hash(pending, first), second) == removal_verdict(
                pending,
                second,
            )
        },
    decreases pending.len(),
{
    if first != second {
        lemma_other_hash_stays(pending, first, second);
        lemma_other_hash_stays(pending, second, first);
    }
    reveal(Seq::filter);
    if pending.len() > 0 {
        let front = pending.drop_last();
        let last = pending.last();
        removals_commute(front, first, second);
        assert(without_hash(front, first).push(last).drop_last() =~= without_hash(front, first));
        assert(without_hash(front, second).push(last).drop_last() =~= without_hash(front, second));
    }
}

/// An admitted bundle can be removed by its hash. If no other pending bundle had that hash, the
/// removal undoes the admission.
pub proof fn removal_undoes_admission(
    pending: Seq<SendBundleRequest>,
    bundle: SendBundleRequest,
    max_bundles: u32,
    latest: LatestBlock,
)
    requires
        verdict(bundle, pending.len(), max_bundles, latest) is Ok,
    ensures
        removal_verdict(
            after_add(pending, bundle, max_bundles, latest),
            bundle.pool_hash(),
        ) is Ok,
        without_hash(after_add(pending, bundle, max_bundles, latest), bundle.pool_hash())
            == without_hash(pending, bundle.pool_hash()),
        !holds_hash(pending, bundle.pool_hash()) ==> without_hash(
            after_add(pending, bundle, max_bundles, latest),
            bundle.pool_hash(),
        ) == pending,
{
    let after = pending.push(bundle);
    assert(after[pending.len() as int].pool_hash() == bundle.pool_hash());
    reveal(Seq::filter);
    assert(after.drop_last() =~= pending);
    lemma_without_hash(pending, bundle.pool_hash());
}

/// A removal that succeeds makes a place: a pool within its bound then has room for a bundle.
pub proof fn removal_frees_a_place(
    pending: Seq<SendBundleRequest>,
    hash: Seq<u8>,
    bundle: SendBundleRequest,
    max_bundles: u32,
    current: u64,
)
    requires
        pending.len() <= max_bundles,
        removal_verdict(pending, hash) is Ok,
        bundle.bundle_body@.len() > 0,
        bundle.inclusion.covers(current),
    ensures
        verdict(bundle, without_hash(pending, hash).len(), max_bundles, Ok(Some(current))) is Ok,
{
    lemma_without_hash(pending, hash);
}

/// Bundles with the same body have the same hash, whatever else they ask for, so that dropping one
/// drops the other.
pub proof fn same_body_same_hash(left: SendBundleRequest, right: SendBundleRequest)
    requires
        left.bundle_body@ == right.bundle_body@,
    ensures
        left.pool_hash() == right.pool_hash(),
{
}

/// Something that happens to the pool.
pub enum PoolEvent {
    /// A bundle is offered.
    Add { bundle: SendBundleRequest, latest: LatestBlock },
    /// A hash is dropped.
    Remove { hash: B256 },
}

/// What a pool with the limit `max_bundles` that began empty holds after `events`.
pub open spec fn run(events: Seq<PoolEvent>, max_bundles: u32) -> Seq<SendBundleRequest>
    decreases events.len(),
{
    if events.len() == 0 {
        Seq::empty()
    } else {
        let pending = run(events.drop_last(), max_bundles);
        match events.last() {
            PoolEvent::Add { bundle, latest } => after_add(pending, bundle, max_bundles, latest),
            PoolEvent::Remove { hash } => without_hash(pending, hash@),
        }
    }
}

/// Whatever happens to a pool that began empty, it never holds more bundles than it may, none with
/// an empty body, and none whose last block lies before its first.
pub proof fn every_state_is_bounded(events: Seq<PoolEvent>, max_bundles: u32)
    ensures
        well_kept(run(events, max_bundles), max_bundles),
    decreases events.len(),
{
    if events.len() > 0 {
        let pending = run(events.drop_last(), max_bundles);
        every_state_is_bounded(events.drop_last(), max_bundles);
        match events.last() {
            PoolEvent::Add { bundle, latest } => {},
            PoolEvent::Remove { hash } => {
                lemma_without_hash(pending, hash@);
            },
        }
    }
}

/// Whether event `i` drops the hash `hash`.
pub open spec fn drops(events: Seq<PoolEvent>, i: int, hash: Seq<u8>) -> bool {
    events[i] matches PoolEvent::Remove { hash: dropped } && dropped@ == hash
}

/// Whether event `i` offered a bundle that was admitted and that no later event drops.
pub open spec fn survives(events: Seq<PoolEvent>, i: int, max_bundles: u32) -> bool {
    events[i] matches PoolEvent::Add { bundle, latest } && {
        &&& verdict(bundle, run(events.take(i), max_bundles).len(), max_bundles, latest) is Ok
        &&& forall|j: int|
            i < j < events.len() ==> !#[trigger] drops(events, j, bundle.pool_hash())
    }
}

/// The bundles among the first `n` events that survive all the events, in the order of the events.
pub open spec fn survivors(events: Seq<PoolEvent>, n: nat, max_bundles: u32) -> Seq<
    SendBundleRequest,
>
    decreases n,
{
    if n == 0 {
        Seq::empty()
    } else {
        let earlier = survivors(events, (n - 1) as nat, max_bundles);
        if survives(events, n - 1, max_bundles) {
            earlier.push(events[n - 1]->bundle)
        } else {
            earlier
        }
    }
}

/// One more offer drops nothing.
proof fn lemma_survivors_after_add(events: Seq<PoolEvent>, n: nat, max_bundles: u32)
    requires
        n < events.len(),
        events.last() is Add,
    ensures
        survivors(events, n, max_bundles) == survivors(events.drop_last(), n, max_bundles),
    decreases n,
{
    if n > 0 {
        let front = events.drop_last();
        let i = n - 1;
        lemma_survivors_after_add(events, (n - 1) as nat, max_bundles);
        assert(front.take(i) =~= events.take(i));
        if let PoolEvent::Add { bundle, latest } = events[i] {
            let hash = bundle.pool_hash();
            assert forall|j: int| i < j < front.len() implies drops(front, j, hash) == drops(
                events,
                j,
                hash,
            ) by {}
            if survives(front, i, max_bundles) {
                assert forall|j: int| i < j < events.len() implies !#[trigger] drops(
                    events,
                    j,
                    hash,
                ) by {
                    if j < front.len() {
                        assert(!drops(front, j, hash));
                    }
                }
            }
            if survives(events, i, max_bundles) {
                assert forall|j: int| i < j < front.len() implies !#[trigger] drops(
                    front,
                    j,
                    hash,
                ) by {
                    assert(!drops(events, j, hash));
                }
            }
        }
    }
}

/// One more removal drops the survivors with its hash.
proof fn lemma_survivors_after_remove(
    events: Seq<PoolEvent>,
    n: nat,
    max_bundles: u32,
    dropped: B256,
)
    requires
        n < events.len(),
        events.last() == (PoolEvent::Remove { hash: dropped }),
    ensures
        survivors(events, n, max_bundles) == without_hash(
            survivors(events.drop_last(), n, max_bundles),
            dropped@,
        ),
    decreases n,
{
    reveal(Seq::filter);
    if n > 0 {
        let front = events.drop_last();
        let i = n - 1;
        let earlier = survivors(front, (n - 1) as nat, max_bundles);
        lemma_survivors_after_remove(events, (n - 1) as nat, max_bundles, dropped);
        assert(front.take(i) =~= events.take(i));
        if let PoolEvent::Add { bundle, latest } = events[i] {
            let hash = bundle.pool_hash();
            if survives(front, i, max_bundles) {
                assert(earlier.push(bundle).drop_last() =~= earlier);
                if hash == dropped@ {
                    assert(drops(events, events.len() - 1, hash));
                } else {
                    assert forall|j: int| i < j < events.len() implies !#[trigger] drops(
                        events,
                        j,
                        hash,
                    ) by {
                        if j < front.len() {
                            assert(!drops(front, j, hash));
                        }
                    }
                }
            }
            if survives(events, i, max_bundles) {
                assert(!drops(events, events.len() - 1, hash));
                assert forall|j: int| i < j < front.len() implies !#[trigger] drops(
                    front,
                    j,
                    hash,
                ) by {
                    assert(!drops(events, j, hash));
                }
            }
        }
    }
}

/// A pool that began empty holds exactly the bundles that were admitted and that no later event
/// dropped, in the order they came in.
pub proof fn run_holds_the_survivors(events: Seq<PoolEvent>, max_bundles: u32)
    ensures
        run(events, max_bundles) == survivors(events, events.len(), max_bundles),
    decreases events.len(),
{
    if events.len() > 0 {
        let front = events.drop_last();
        let n = front.len();
        run_holds_the_survivors(front, max_bundles);
        match events.last() {
            PoolEvent::Add { bundle, latest } => {
                lemma_survivors_after_add(events, n, max_bundles);
                assert(events.take(n as int) =~= front);
            },
            PoolEvent::Remove { hash } => {
                lemma_survivors_after_remove(events, n, max_bundles, hash);
            },
        }
    }
}

/// Whether `pool` went through `events` with no other access in between, from empty: access `i`
/// found `states[i]`, left `states[i + 1]`, and was answered with `answers[i]`.
pub open spec fn undisturbed(
    pool: SBundlePool,
    events: Seq<PoolEvent>,
    states: Seq<Seq<SendBundleRequest>>,
    answers: Seq<Result<(), String>>,
) -> bool {
    &&& states.len() == events.len() + 1
    &&& answers.len() == events.len()
    &&& states[0] == Seq::<SendBundleRequest>::empty()
    &&& forall|i: int|
        0 <= i < events.len() ==> match #[trigger] events[i] {
            PoolEvent::Add { bundle, latest } => pool.added(
                states[i],
                states[i + 1],
                bundle,
                latest,
                answers[i],
            ),
            PoolEvent::Remove { hash } => pool.removed(states[i], states[i + 1], hash, answers[i]),
        }
}

/// What a pool holds that goes through events undisturbed is what those events make of an empty
/// pool with its limit.
pub proof fn undisturbed_pool_runs(
    pool: SBundlePool,
    events: Seq<PoolEvent>,
    states: Seq<Seq<SendBundleRequest>>,
    answers: Seq<Result<(), String>>,
    i: int,
)
    requires
        undisturbed(pool, events, states, answers),
        0 <= i <= events.len(),
    ensures
        states[i] == run(events.take(i), pool.config().max_bundles),
    decreases i,
{
    if i > 0 {
        undisturbed_pool_runs(pool, events, states, answers, i - 1);
        assert(events.take(i).drop_last() =~= events.take(i - 1));
        assert(events.take(i).last() == events[i - 1]);
    }
}

/// The pool beside a transaction pool answers as a bundle pool with the same limit does: it answers
/// what its bundle pool answers, and two pools that go through the same events undisturbed give the
/// same answers and hold the same bundles throughout. The transaction pool has no say.
pub proof fn share_pool_answers_as_bundle_pool<TxPool>(
    share: MevSharePool<TxPool>,
    pool: SBundlePool,
    events: Seq<PoolEvent>,
    share_states: Seq<Seq<SendBundleRequest>>,
    share_answers: Seq<Result<(), String>>,
    pool_states: Seq<Seq<SendBundleRequest>>,
    pool_answers: Seq<Result<(), String>>,
)
    requires
        share.spec_sbundle_pool().config() == pool.config(),
        undisturbed(share.spec_sbundle_pool(), events, share_states, share_answers),
        undisturbed(pool, events, pool_states, pool_answers),
    ensures
        forall|bundle: SendBundleRequest, latest: LatestBlock, answer: Result<(), String>|
            #[trigger] share.may_add(bundle, latest, answer) <==> share.spec_sbundle_pool().may_add(
                bundle,
                latest,
                answer,
            ),
        forall|guard: PendingReadGuard<'_>| #[trigger]
            share.may_show(guard) <==> share.spec_sbundle_pool().may_show(guard),
        forall|hash: B256, answer: Result<(), String>| #[trigger]
            share.may_remove(hash, answer) <==> share.spec_sbundle_pool().may_remove(hash, answer),
        forall|i: int|
            0 <= i < events.len() ==> outcome(#[trigger] share_answers[i]) == outcome(
                pool_answers[i],
            ),
        share_states == pool_states,
{
    let beside = share.spec_sbundle_pool();
    assert forall|i: int| 0 <= i < share_states.len() implies share_states[i]
        == pool_states[i] by {
        undisturbed_pool_runs(beside, events, share_states, share_answers, i);
        undisturbed_pool_runs(pool, events, pool_states, pool_answers, i);
    }
    assert(share_states =~= pool_states);
    assert forall|i: int| 0 <= i < events.len() implies outcome(#[trigger] share_answers[i])
        == outcome(pool_answers[i]) by {
        assert(share_states[i] == pool_states[i]);
        assert(events[i] is Add || events[i] is Remove);
    }
}

/// A clone of the pool is a second handle on the same lock, the same limit and the same transaction
/// pool: whatever one of the two may answer or show, the other may.
pub proof fn clone_shares_the_pools<TxPool>(
    share: MevSharePool<TxPool>,
    other: MevSharePool<TxPool>,
)
    requires
        cloned(share, other),
    ensures
        other.spec_sbundle_pool().lock() == share.spec_sbundle_pool().lock(),
        other.spec_sbundle_pool().config() == share.spec_sbundle_pool().config(),
        other.spec_tx_pool() == share.spec_tx_pool(),
        forall|bundle: SendBundleRequest, latest: LatestBlock, answer: Result<(), String>|
            #[trigger] other.may_add(bundle, latest, answer) <==> share.may_add(
                bundle,
                latest,
                answer,
            ),
        forall|guard: PendingReadGuard<'_>| #[trigger]
            other.may_show(guard) <==> share.may_show(guard),
        forall|hash: B256, answer: Result<(), String>| #[trigger]
            other.may_remove(hash, answer) <==> share.may_remove(hash, answer),
{
}

/// A clone of the API works with the same pool.
pub proof fn clone_shares_the_pool<Pool>(api: MevApi<Pool>, other: MevApi<Pool>)
    requires
        cloned(api, other),
    ensures
        other.pool() == api.pool(),
{
}

/// Whether the access `first` found one place left in a pool of `max_bundles`, and the access
/// `second` came next: it found what `first` left. An access is what it found and what it left.
pub open spec fn meet_at_last_place(
    first: (Seq<SendBundleRequest>, Seq<SendBundleRequest>),
    second: (Seq<SendBundleRequest>, Seq<SendBundleRequest>),
    max_bundles: u32,
) -> bool {
    &&& first.0.len() + 1 == max_bundles
    &&& second.0 == first.1
}

/// The last place in a pool goes to one bundle only. Two threads offer a valid bundle each, one
/// place is left, and no third access comes between. Whichever call gets the lock first, one of
/// the two is taken, the other is told that the pool is full, and the pool holds as many bundles
/// as it may.
pub proof fn last_place_goes_once(
    pool: SBundlePool,
    left: (SendBundleRequest, LatestBlock, Result<(), String>),
    left_access: (Seq<SendBundleRequest>, Seq<SendBundleRequest>),
    right: (SendBundleRequest, LatestBlock, Result<(), String>),
    right_access: (Seq<SendBundleRequest>, Seq<SendBundleRequest>),
)
    requires
        pool.added(left_access.0, left_access.1, left.0, left.1, left.2),
        pool.added(right_access.0, right_access.1, right.0, right.1, right.2),
        meet_at_last_place(left_access, right_access, pool.config().max_bundles)
            || meet_at_last_place(right_access, left_access, pool.config().max_bundles),
        left.0.bundle_body@.len() > 0,
        right.0.bundle_body@.len() > 0,
        left.1 matches Ok(Some(current)) && left.0.inclusion.covers(current),
        right.1 matches Ok(Some(current)) && right.0.inclusion.covers(current),
    ensures
        left.2 is Ok <==> right.2 is Err,
        left.2 is Err ==> outcome(left.2) == Err::<(), Seq<char>>("Bundle pool is full"@),
        right.2 is Err ==> outcome(right.2) == Err::<(), Seq<char>>("Bundle pool is full"@),
        left_access.1.len() == pool.config().max_bundles,
        right_access.1.len() == pool.config().max_bundles,
{
}

/// The shared pool takes a bundle only if its body has an item, the pool may hold a bundle at all,
/// and the chain reports a latest block that the bundle's inclusion covers.
pub proof fn shared_pool_takes_only_valid(
    pool: SBundlePool,
    bundle: SendBundleRequest,
    latest: LatestBlock,
    answer: Result<(), String>,
)
    requires
        pool.may_add(bundle, latest, answer),
        answer is Ok,
    ensures
        bundle.bundle_body@.len() > 0,
        pool.config().max_bundles > 0,
        latest matches Ok(Some(current)) && bundle.inclusion.covers(current),
{
}

/// The shared pool answers a bundle with an empty body with the same message at any time.
pub proof fn shared_pool_refuses_empty_body(
    pool: SBundlePool,
    bundle: SendBundleRequest,
    latest: LatestBlock,
    answer: Result<(), String>,
)
    requires
        pool.may_add(bundle, latest, answer),
        bundle.bundle_body@.len() == 0,
    ensures
        outcome(answer) == Err::<(), Seq<char>>("Bundle body must not be empty"@),
{
}

/// A sender can use the hash from a positive reply to remove the bundle: in the state that taking
/// the bundle left, the removal of that hash succeeds.
pub proof fn replied_hash_removes(
    before: Seq<SendBundleRequest>,
    bundle: SendBundleRequest,
    max_bundles: u32,
    latest: LatestBlock,
    answer: Result<(), String>,
    reply: Result<SendBundleResponse, MevError>,
)
    requires
        outcome(answer) == verdict(bundle, before.len(), max_bundles, latest),
        replies(reply, bundle.body_hash(), answer),
        reply is Ok,
    ensures
        removal_verdict(
            after_add(before, bundle, max_bundles, latest),
            reply->Ok_0.bundle_hash@,
        ) is Ok,
{
    removal_undoes_admission(before, bundle, max_bundles, latest);
}

/// A refusal reaches the sender in the pool's own words, behind a fixed prefix.
pub proof fn refusal_reaches_sender(
    bundle_hash: Seq<u8>,
    answer: Result<(), String>,
    reply: Result<SendBundleResponse, MevError>,
)
    requires
        replies(reply, bundle_hash, answer),
        answer is Err,
    ensures
        reply is Err,
        reply->Err_0.spec_message() == "Failed to insert bundle into pool: "@ + answer->Err_0@,
        reply->Err_0.spec_code() == -32602,
{
}

/// A bundle that was sent is pending, at the end, exactly if a hash was returned; otherwise the
/// access left the bundles as it found them.
pub proof fn pending_iff_hash_returned<TxPool>(
    share: MevSharePool<TxPool>,
    bundle: SendBundleRequest,
    latest: LatestBlock,
    reply: Result<SendBundleResponse, MevError>,
)
    requires
        exists|answer: Result<(), String>|
            {
                &&& #[trigger] share.may_add(bundle, latest, answer)
                &&& replies(reply, bundle.body_hash(), answer)
            },
    ensures
        exists|before: Seq<SendBundleRequest>, after: Seq<SendBundleRequest>|
            {
                &&& #[trigger] share.spec_sbundle_pool().turned(before, after)
                &&& reply is Ok ==> after == before.push(bundle)
                &&& reply is Err ==> after == before
            },
{
    let pool = share.spec_sbundle_pool();
    let answer = choose|answer: Result<(), String>|
        {
            &&& #[trigger] share.may_add(bundle, latest, answer)
            &&& replies(reply, bundle.body_hash(), answer)
        };
    let (before, after) = choose|before: Seq<SendBundleRequest>, after: Seq<SendBundleRequest>|
        #[trigger] pool.added(before, after, bundle, latest, answer);
    assert(pool.turned(before, after));
}

/// A bundle with something in its body that is turned away before the chain is read found a full
/// pool.
pub proof fn early_refusal_means_full<TxPool>(
    share: MevSharePool<TxPool>,
    bundle: SendBundleRequest,
    answer: Result<(), String>,
)
    requires
        bundle.bundle_body@.len() > 0,
        share.may_have_room(bundle, answer),
    ensures
        early_reply(answer) is Err ==> outcome(answer) == Err::<(), Seq<char>>(
            "Bundle pool is full"@,
        ),
        share.spec_sbundle_pool().config().max_bundles == 0 ==> early_reply(answer) is Err,
{
}

/// A bundle with something in its body, offered to a pool with room while `current` is the latest
/// block, is admitted exactly if `current` is at or after its first block and, where it names a
/// last block, at or before that one. Otherwise it is told on which side `current` lies.
pub proof fn window_is_inclusive(
    bundle: SendBundleRequest,
    pending_len: nat,
    max_bundles: u32,
    current: u64,
)
    requires
        bundle.bundle_body@.len() > 0,
        pending_len < max_bundles,
    ensures
        verdict(bundle, pending_len, max_bundles, Ok(Some(current))) is Ok <==> {
            &&& bundle.inclusion.block <= current
            &&& bundle.inclusion.max_block is None || current
                <= bundle.inclusion.max_block->Some_0
        },
        bundle.inclusion.covers(current) <==> {
            &&& bundle.inclusion.block <= current
            &&& bundle.inclusion.max_block is None || current
                <= bundle.inclusion.max_block->Some_0
        },
        current < bundle.inclusion.block ==> verdict(
            bundle,
            pending_len,
            max_bundles,
            Ok(Some(current)),
        ) == Err::<(), Seq<char>>("current block < inclusion.block"@),
        bundle.inclusion.block <= current && bundle.inclusion.max_block is Some
            && bundle.inclusion.max_block->Some_0 < current ==> verdict(
            bundle,
            pending_len,
            max_bundles,
            Ok(Some(current)),
        ) == Err::<(), Seq<char>>("current block > inclusion.max_block"@),
{
}

/// A bundle stays admissible from its first block to its last: if it is admitted at two blocks it
/// is admitted at every block between them, and one that names no last block is admitted at every
/// block from the first on.
pub proof fn window_has_no_gaps(
    bundle: SendBundleRequest,
    pending_len: nat,
    max_bundles: u32,
    first: u64,
    between: u64,
    last: u64,
)
    requires
        first <= between <= last,
        verdict(bundle, pending_len, max_bundles, Ok(Some(first))) is Ok,
        bundle.inclusion.max_block is None || verdict(
            bundle,
            pending_len,
            max_bundles,
            Ok(Some(last)),
        ) is Ok,
    ensures
        verdict(bundle, pending_len, max_bundles, Ok(Some(between))) is Ok,
{
}

/// A bundle that only the chain can decide on is refused while the chain reports no latest block.
pub proof fn chain_failure_refuses(
    bundle: SendBundleRequest,
    pending_len: nat,
    max_bundles: u32,
    reason: String,
)
    requires
        bundle.bundle_body@.len() > 0,
        pending_len < max_bundles,
    ensures
        verdict(bundle, pending_len, max_bundles, Ok(None)) == Err::<(), Seq<char>>(
            "Failed to fetch latest block during validation"@,
        ),
        verdict(bundle, pending_len, max_bundles, Err(reason)) == Err::<(), Seq<char>>(
            "Failed to fetch latest block during validation: "@ + reason@,
        ),
{
}

/// The hash of a bundle is the digest of the whole encoding of its body.
pub proof fn hash_is_digest_of_whole_body(bundle: SendBundleRequest)
    ensures
        bundle.pool_hash() == keccak256_digest(body_encoding(bundle.bundle_body@)),
        bundle.body_hash() == keccak256_digest(body_encoding(bundle.bundle_body@)),
{
}

/// A removal goes by the digest of each bundle's whole encoded body: it succeeds exactly if some
/// bundle has the digest asked for, and what stays is every bundle with another digest, in order.
pub proof fn removal_goes_by_the_digest(pending: Seq<SendBundleRequest>, hash: Seq<u8>)
    ensures
        without_hash(pending, hash) == pending.filter(
            |bundle: SendBundleRequest|
                keccak256_digest(body_encoding(bundle.bundle_body@)) != hash,
        ),
        (exists|i: int|
            0 <= i < pending.len() && keccak256_digest(
                body_encoding((#[trigger] pending[i]).bundle_body@),
            ) == hash) ==> removal_verdict(pending, hash) == Ok::<(), Seq<char>>(()),
        (forall|i: int|
            0 <= i < pending.len() ==> keccak256_digest(
                body_encoding((#[trigger] pending[i]).bundle_body@),
            ) != hash) ==> removal_verdict(pending, hash) == Err::<(), Seq<char>>(
            "Bundle not found"@,
        ),
    decreases pending.len(),
{
    reveal(Seq::filter);
    if pending.len() > 0 {
        removal_goes_by_the_digest(pending.drop_last(), hash);
    }
    if exists|i: int|
        0 <= i < pending.len() && keccak256_digest(
            body_encoding((#[trigger] pending[i]).bundle_body@),
        ) == hash {
        let i = choose|i: int|
            0 <= i < pending.len() && keccak256_digest(
                body_encoding((#[trigger] pending[i]).bundle_body@),
            ) == hash;
        assert(pending[i].pool_hash() == hash);
    }
}

/// Two bundles with different digests are told apart: a removal that asks for the one keeps the
/// other.
pub proof fn removal_tells_bodies_apart(
    pending: Seq<SendBundleRequest>,
    dropped: SendBundleRequest,
    i: int,
)
    requires
        0 <= i < pending.len(),
        keccak256_digest(body_encoding(pending[i].bundle_body@)) != keccak256_digest(
            body_encoding(dropped.bundle_body@),
        ),
    ensures
        without_hash(pending, dropped.pool_hash()).contains(pending[i]),
        !without_hash(pending, dropped.pool_hash()).contains(dropped),
{
    let hash = dropped.pool_hash();
    let keep = |bundle: SendBundleRequest| bundle.pool_hash() != hash;
    assert(keep(pending[i]));
    pending.lemma_filter_contains(keep, i);
    lemma_without_hash(pending, hash);
    let left = without_hash(pending, hash);
    assert(left.contains(pending[i]));
    if left.contains(dropped) {
        let j = choose|j: int| 0 <= j < left.len() && left[j] == dropped;
        assert(left[j].pool_hash() != hash);
    }
}

/// An offer to the shared pool, in full. One exclusive access to the pool's own lock found at most
/// as many bundles as the pool may hold. The bundle is taken exactly if its body has an item, that
/// access found room, and the latest block lies in the bundle's window; then the access left the
/// bundle behind all that it found. Otherwise it left what it found, and the answer says why.
pub proof fn shared_pool_offer_in_full(
    pool: SBundlePool,
    bundle: SendBundleRequest,
    latest: LatestBlock,
    answer: Result<(), String>,
)
    requires
        pool.may_add(bundle, latest, answer),
    ensures
        exists|end: PendingReadGuard<'_>|
            {
                &&& #[trigger] read_lock_of(end) == pool.lock()
                &&& read_found(end).len() <= pool.config().max_bundles
                &&& answer is Ok <==> {
                    &&& bundle.bundle_body@.len() > 0
                    &&& read_found(end).len() < pool.config().max_bundles
                    &&& latest is Ok && latest->Ok_0 is Some
                    &&& bundle.inclusion.block <= latest->Ok_0->Some_0
                    &&& bundle.inclusion.max_block is None || latest->Ok_0->Some_0
                        <= bundle.inclusion.max_block->Some_0
                }
                &&& answer is Ok ==> read_contents(end) == read_found(end).push(bundle)
                &&& answer is Err ==> read_contents(end) == read_found(end)
                &&& answer is Err ==> answer->Err_0@ == (if bundle.bundle_body@.len() == 0 {
                    "Bundle body must not be empty"@
                } else if read_found(end).len() >= pool.config().max_bundles {
                    "Bundle pool is full"@
                } else {
                    match latest {
                        Err(reason) => "Failed to fetch latest block during validation: "@
                            + reason@,
                        Ok(None) => "Failed to fetch latest block during validation"@,
                        Ok(Some(current)) => if current < bundle.inclusion.block {
                            "current block < inclusion.block"@
                        } else {
                            "current block > inclusion.max_block"@
                        },
                    }
                })
            },
{
    let (before, after) = choose|before: Seq<SendBundleRequest>, after: Seq<SendBundleRequest>|
        #[trigger] pool.added(before, after, bundle, latest, answer);
    let end = choose|end: PendingReadGuard<'_>|
        {
            &&& #[trigger] read_lock_of(end) == pool.lock()
            &&& read_found(end) == before
            &&& read_contents(end) == after
        };
    assert(read_lock_of(end) == pool.lock());
}

/// A removal from the shared pool, in full. One exclusive access to the pool's own lock left
/// exactly those of the bundles it found whose body has another digest, in order. The answer is
/// `Ok` exactly if that is fewer than it found.
pub proof fn shared_pool_removal_in_full(pool: SBundlePool, hash: B256, answer: Result<(), String>)
    requires
        pool.may_remove(hash, answer),
    ensures
        exists|end: PendingReadGuard<'_>|
            {
                &&& #[trigger] read_lock_of(end) == pool.lock()
                &&& read_found(end).len() <= pool.config().max_bundles
                &&& read_contents(end) == read_found(end).filter(
                    |bundle: SendBundleRequest|
                        keccak256_digest(body_encoding(bundle.bundle_body@)) != hash@,
                )
                &&& answer is Ok <==> read_contents(end).len() < read_found(end).len()
                &&& answer is Err ==> answer->Err_0@ == "Bundle not found"@
                &&& answer is Err ==> read_contents(end) == read_found(end)
            },
{
    let (before, after) = choose|before: Seq<SendBundleRequest>, after: Seq<SendBundleRequest>|
        #[trigger] pool.removed(before, after, hash, answer);
    let end = choose|end: PendingReadGuard<'_>|
        {
            &&& #[trigger] read_lock_of(end) == pool.lock()
            &&& read_found(end) == before
            &&& read_contents(end) == after
        };
    removal_goes_by_the_digest(before, hash@);
    lemma_without_hash(before, hash@);
    assert(read_lock_of(end) == pool.lock());
}

/// A look at the shared pool, in full: the guard belongs to the pool's own lock, and shows at most
/// as many bundles as the pool may hold, none with an empty body and none whose last block lies
/// before its first.
pub proof fn shared_pool_look_in_full(pool: SBundlePool, guard: PendingReadGuard<'_>)
    requires
        pool.may_show(guard),
    ensures
        read_lock_of(guard) == pool.lock(),
        read_contents(guard).len() <= pool.config().max_bundles,
        forall|i: int|
            0 <= i < read_contents(guard).len() ==> {
                let inclusion = (#[trigger] read_contents(guard)[i]).inclusion;
                &&& read_contents(guard)[i].bundle_body@.len() > 0
                &&& inclusion.max_block is None || inclusion.block <= inclusion.max_block->Some_0
            },
{
}

/// A question for room, in full: by the bundles that a shared access to the pool's own lock found,
/// the answer is `Ok` exactly if the body has an item and there are fewer than the pool may hold.
pub proof fn shared_pool_room_in_full(
    pool: SBundlePool,
    bundle: SendBundleRequest,
    answer: Result<(), String>,
)
    requires
        pool.may_have_room(bundle, answer),
    ensures
        exists|guard: PendingReadGuard<'_>|
            {
                &&& #[trigger] read_lock_of(guard) == pool.lock()
                &&& read_contents(guard).len() <= pool.config().max_bundles
                &&& answer is Ok <==> bundle.bundle_body@.len() > 0 && read_contents(guard).len()
                    < pool.config().max_bundles
                &&& answer is Err ==> answer->Err_0@ == (if bundle.bundle_body@.len() == 0 {
                    "Bundle body must not be empty"@
                } else {
                    "Bundle pool is full"@
                })
            },
{
    let pending = choose|pending: Seq<SendBundleRequest>|
        {
            &&& #[trigger] pool.showed(pending)
            &&& well_kept(pending, pool.config().max_bundles)
            &&& outcome(answer) == room_verdict(
                bundle.bundle_body@.len(),
                pending.len(),
                pool.config().max_bundles as nat,
            )
        };
    let guard = choose|guard: PendingReadGuard<'_>|
        {
            &&& #[trigger] read_lock_of(guard) == pool.lock()
            &&& read_contents(guard) == pending
        };
    assert(read_lock_of(guard) == pool.lock());
}

/// The pool beside a transaction pool is its bundle pool, and so is what a sender gets to see of
/// it: all three may give the same answers and show the same bundles.
pub proof fn share_pool_is_its_bundle_pool<TxPool>(share: MevSharePool<TxPool>)
    ensures
        forall|bundle: SendBundleRequest, latest: LatestBlock, answer: Result<(), String>|
            #[trigger] share.may_add(bundle, latest, answer) <==> share.spec_sbundle_pool().may_add(
                bundle,
                latest,
                answer,
            ),
        forall|bundle: SendBundleRequest, latest: LatestBlock, answer: Result<(), String>|
            #[trigger] share.may_answer(bundle, latest, answer)
                <==> share.spec_sbundle_pool().may_add(bundle, latest, answer),
        forall|bundle: SendBundleRequest, answer: Result<(), String>| #[trigger]
            share.may_answer_room(bundle, answer) <==> share.spec_sbundle_pool().may_have_room(
                bundle,
                answer,
            ),
        forall|hash: B256, answer: Result<(), String>| #[trigger]
            share.may_remove(hash, answer) <==> share.spec_sbundle_pool().may_remove(hash, answer),
        forall|guard: PendingReadGuard<'_>| #[trigger]
            share.may_show(guard) <==> share.spec_sbundle_pool().may_show(guard),
{
}

/// A bundle that is sent, in full. The one access that the offer made to the pool's own lock left
/// the bundle behind all that it found if the reply is `Ok`, and left what it found if the reply is
/// `Err`. A positive reply carries the digest of the whole encoded body.
pub proof fn sent_bundle_in_full<TxPool>(
    share: MevSharePool<TxPool>,
    bundle: SendBundleRequest,
    latest: LatestBlock,
    reply: Result<SendBundleResponse, MevError>,
)
    requires
        exists|answer: Result<(), String>|
            {
                &&& #[trigger] share.may_answer(bundle, latest, answer)
                &&& replies(reply, bundle.body_hash(), answer)
            },
    ensures
        exists|end: PendingReadGuard<'_>|
            {
                &&& #[trigger] read_lock_of(end) == share.spec_sbundle_pool().lock()
                &&& reply is Ok ==> read_contents(end) == read_found(end).push(bundle)
                &&& reply is Err ==> read_contents(end) == read_found(end)
                &&& reply is Ok <==> {
                    &&& bundle.bundle_body@.len() > 0
                    &&& read_found(end).len() < share.spec_sbundle_pool().config().max_bundles
                    &&& latest is Ok && latest->Ok_0 is Some
                    &&& bundle.inclusion.block <= latest->Ok_0->Some_0
                    &&& bundle.inclusion.max_block is None || latest->Ok_0->Some_0
                        <= bundle.inclusion.max_block->Some_0
                }
            },
        reply is Ok ==> reply->Ok_0.bundle_hash@ == keccak256_digest(
            body_encoding(bundle.bundle_body@),
        ),
        reply is Err ==> reply->Err_0 is InsertionError,
{
    let answer = choose|answer: Result<(), String>|
        {
            &&& #[trigger] share.may_answer(bundle, latest, answer)
            &&& replies(reply, bundle.body_hash(), answer)
        };
    shared_pool_offer_in_full(share.spec_sbundle_pool(), bundle, latest, answer);
}

/// The reply to a sender, in full: a hash for a bundle that was taken, and otherwise the pool's own
/// words.
pub proof fn reply_in_full(
    bundle_hash: Seq<u8>,
    answer: Result<(), String>,
    reply: Result<SendBundleResponse, MevError>,
)
    requires
        replies(reply, bundle_hash, answer),
    ensures
        reply is Ok <==> answer is Ok,
        reply is Ok ==> reply->Ok_0.bundle_hash@ == bundle_hash,
        reply is Err ==> reply->Err_0 == MevError::InsertionError(answer->Err_0),
        early_reply(answer) is Ok <==> answer is Ok,
        answer is Err ==> early_reply(answer)->Err_0 == MevError::InsertionError(answer->Err_0),
{
}

/// An error goes out as a JSON-RPC error object with the code of invalid parameters and its own
/// text.
pub proof fn error_object_in_full(reason: String)
    ensures
        <ErrorObjectOwned as FromSpec<MevError>>::from_spec(MevError::EmptyBundleBody)
            == error_object(-32602i32, "Bundle body must not be empty"@),
        <ErrorObjectOwned as FromSpec<MevError>>::from_spec(MevError::InsertionError(reason))
            == error_object(-32602i32, "Failed to insert bundle into pool: "@ + reason@),
        MevError::EmptyBundleBody.spec_message() == "Bundle body must not be empty"@,
        MevError::InsertionError(reason).spec_message() == "Failed to insert bundle into pool: "@
            + reason@,
        MevError::EmptyBundleBody.spec_code() == -32602,
        MevError::InsertionError(reason).spec_code() == -32602,
{
}

/// Whether the bundle with digest `hash` that call `k` brought in still waits before call `n`: `k`
/// was an offer that was taken, and no call between the two asked to drop the digest.
pub open spec fn waits_since(
    events: Seq<PoolEvent>,
    answers: Seq<Result<(), String>>,
    k: int,
    n: int,
    hash: Seq<u8>,
) -> bool {
    &&& 0 <= k < n
    &&& events[k] matches PoolEvent::Add { bundle, latest } && keccak256_digest(
        body_encoding(bundle.bundle_body@),
    ) == hash
    &&& answers[k] is Ok
    &&& forall|j: int| k < j < n ==> !#[trigger] drops(events, j, hash)
}

/// In an undisturbed pool a digest is held exactly if some earlier call brought it in and none has
/// dropped it since.
proof fn lemma_held_iff_waiting(
    pool: SBundlePool,
    events: Seq<PoolEvent>,
    states: Seq<Seq<SendBundleRequest>>,
    answers: Seq<Result<(), String>>,
    n: int,
    hash: Seq<u8>,
)
    requires
        undisturbed(pool, events, states, answers),
        0 <= n <= events.len(),
    ensures
        holds_hash(states[n], hash) <==> exists|k: int| #[trigger]
            waits_since(events, answers, k, n, hash),
    decreases n,
{
    if n > 0 {
        let before = states[n - 1];
        let after = states[n];
        lemma_held_iff_waiting(pool, events, states, answers, n - 1, hash);
        assert(states[n - 1 + 1] == after);
        match events[n - 1] {
            PoolEvent::Add { bundle, latest } => {
                assert(pool.added(before, after, bundle, latest, answers[n - 1]));
                assert(!drops(events, n - 1, hash));
                assert forall|k: int| k < n - 1 implies waits_since(events, answers, k, n - 1, hash)
                    == #[trigger] waits_since(events, answers, k, n, hash) by {
                    if waits_since(events, answers, k, n, hash) {
                        assert forall|j: int| k < j < n - 1 implies !#[trigger] drops(
                            events,
                            j,
                            hash,
                        ) by {}
                    }
                    if waits_since(events, answers, k, n - 1, hash) {
                        assert forall|j: int| k < j < n implies !#[trigger] drops(
                            events,
                            j,
                            hash,
                        ) by {}
                    }
                }
                if holds_hash(before, hash) {
                    let i = choose|i: int|
                        0 <= i < before.len() && (#[trigger] before[i]).pool_hash() == hash;
                    assert(after[i].pool_hash() == hash);
                    let k = choose|k: int| #[trigger]
                        waits_since(events, answers, k, n - 1, hash);
                    assert(waits_since(events, answers, k, n, hash));
                } else if answers[n - 1] is Ok && bundle.pool_hash() == hash {
                    assert(after[before.len() as int].pool_hash() == hash);
                    assert(waits_since(events, answers, n - 1, n, hash));
                } else {
                    assert forall|k: int| !#[trigger] waits_since(events, answers, k, n, hash) by {
                        if k < n - 1 {
                            assert(!waits_since(events, answers, k, n - 1, hash));
                        }
                    }
                    if holds_hash(after, hash) {
                        let i = choose|i: int|
                            0 <= i < after.len() && (#[trigger] after[i]).pool_hash() == hash;
                        if i < before.len() {
                            assert(before[i].pool_hash() == hash);
                        }
                    }
                }
            },
            PoolEvent::Remove { hash: dropped } => {
                assert(pool.removed(before, after, dropped, answers[n - 1]));
                if dropped@ == hash {
                    lemma_without_hash(before, hash);
                    assert(drops(events, n - 1, hash));
                } else {
                    lemma_other_hash_stays(before, dropped@, hash);
                    assert(!drops(events, n - 1, hash));
                    assert forall|k: int|
                        #![trigger waits_since(events, answers, k, n, hash)]
                        #![trigger waits_since(events, answers, k, n - 1, hash)]
                        waits_since(events, answers, k, n - 1, hash) == waits_since(
                            events,
                            answers,
                            k,
                            n,
                            hash,
                        ) by {
                        if waits_since(events, answers, k, n, hash) {
                            assert forall|j: int| k < j < n - 1 implies !#[trigger] drops(
                                events,
                                j,
                                hash,
                            ) by {}
                        }
                        if waits_since(events, answers, k, n - 1, hash) {
                            assert forall|j: int| k < j < n implies !#[trigger] drops(
                                events,
                                j,
                                hash,
                            ) by {}
                        }
                    }
                }
            },
        }
    }
}

/// In an undisturbed pool a removal is answered by the calls that came before it: `Ok` exactly if
/// one of them offered a bundle with the digest asked for, was answered with `Ok`, and no call
/// since asked to drop the digest.
pub proof fn undisturbed_removal_answers(
    pool: SBundlePool,
    events: Seq<PoolEvent>,
    states: Seq<Seq<SendBundleRequest>>,
    answers: Seq<Result<(), String>>,
    n: int,
)
    requires
        undisturbed(pool, events, states, answers),
        0 <= n < events.len(),
        events[n] is Remove,
    ensures
        answers[n] is Ok <==> exists|k: int| #[trigger]
            waits_since(events, answers, k, n, events[n]->hash@),
        answers[n] is Err ==> answers[n]->Err_0@ == "Bundle not found"@,
        forall|i: int|
            0 <= i < states[n + 1].len() ==> keccak256_digest(
                body_encoding((#[trigger] states[n + 1][i]).bundle_body@),
            ) != events[n]->hash@,
{
    let hash = events[n]->hash;
    lemma_held_iff_waiting(pool, events, states, answers, n, hash@);
    assert(pool.removed(states[n], states[n + 1], hash, answers[n]));
    lemma_without_hash(states[n], hash@);
    assert forall|i: int| 0 <= i < states[n + 1].len() implies keccak256_digest(
        body_encoding((#[trigger] states[n + 1][i]).bundle_body@),
    ) != hash@ by {
        assert(without_hash(states[n], hash@)[i].pool_hash() != hash@);
    }
}

/// In an undisturbed pool an offer adds its bundle behind what was there if it is answered with
/// `Ok`, and changes nothing otherwise; and the bundle then waits until its digest is dropped.
pub proof fn undisturbed_offer_answers(
    pool: SBundlePool,
    events: Seq<PoolEvent>,
    states: Seq<Seq<SendBundleRequest>>,
    answers: Seq<Result<(), String>>,
    n: int,
    bundle: SendBundleRequest,
    latest: LatestBlock,
    reply: Result<SendBundleResponse, MevError>,
)
    requires
        undisturbed(pool, events, states, answers),
        0 <= n < events.len(),
        events[n] == (PoolEvent::Add { bundle, latest }),
        replies(reply, bundle.body_hash(), answers[n]),
    ensures
        reply is Ok ==> states[n + 1] == states[n].push(bundle),
        reply is Err ==> states[n + 1] == states[n],
        reply is Ok <==> {
            &&& bundle.bundle_body@.len() > 0
            &&& states[n].len() < pool.config().max_bundles
            &&& latest is Ok && latest->Ok_0 is Some
            &&& bundle.inclusion.block <= latest->Ok_0->Some_0
            &&& bundle.inclusion.max_block is None || latest->Ok_0->Some_0
                <= bundle.inclusion.max_block->Some_0
        },
        reply is Ok ==> waits_since(
            events,
            answers,
            n,
            n + 1,
            reply->Ok_0.bundle_hash@,
        ),
{
    assert(pool.added(states[n], states[n + 1], bundle, latest, answers[n]));
}

/// What a guard shows of an undisturbed pool, taken after the last of some calls, is what those
/// calls make of an empty pool: the bundles that were admitted and not dropped since, in the order
/// they came in. A digest is among them exactly if some call brought it in and none dropped it
/// since.
pub proof fn undisturbed_look_shows_the_run(
    pool: SBundlePool,
    events: Seq<PoolEvent>,
    states: Seq<Seq<SendBundleRequest>>,
    answers: Seq<Result<(), String>>,
    guard: PendingReadGuard<'_>,
    hash: Seq<u8>,
)
    requires
        undisturbed(pool, events, states, answers),
        pool.may_show(guard),
        read_contents(guard) == states.last(),
    ensures
        read_contents(guard) == run(events, pool.config().max_bundles),
        read_contents(guard) == survivors(events, events.len(), pool.config().max_bundles),
        (exists|i: int|
            0 <= i < read_contents(guard).len() && keccak256_digest(
                body_encoding((#[trigger] read_contents(guard)[i]).bundle_body@),
            ) == hash) <==> exists|k: int| #[trigger]
            waits_since(events, answers, k, events.len() as int, hash),
{
    let n = events.len();
    undisturbed_pool_runs(pool, events, states, answers, n as int);
    assert(events.take(n as int) =~= events);
    run_holds_the_survivors(events, pool.config().max_bundles);
    lemma_held_iff_waiting(pool, events, states, answers, n as int, hash);
    let shown = read_contents(guard);
    if holds_hash(shown, hash) {
        let i = choose|i: int| 0 <= i < shown.len() && (#[trigger] shown[i]).pool_hash() == hash;
        assert(keccak256_digest(body_encoding(shown[i].bundle_body@)) == hash);
    }
    if exists|i: int|
        0 <= i < shown.len() && keccak256_digest(
            body_encoding((#[trigger] shown[i]).bundle_body@),
        ) == hash {
        let i = choose|i: int|
            0 <= i < shown.len() && keccak256_digest(
                body_encoding((#[trigger] shown[i]).bundle_body@),
            ) == hash;
        assert(shown[i].pool_hash() == hash);
    }
}

} // verus!
