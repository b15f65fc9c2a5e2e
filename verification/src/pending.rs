//! The pending bundles, their admission and their removal.
use vstd::prelude::*;
use vstd::string::*;

use crate::bundle::{
    body_encoding, keccak256_digest, same_hash, Inclusion, PoolBundle, SendBundleRequest, B256,
};

verus! {

/// Configuration of the bundle pool.
#[derive(Debug)]
pub struct SBundlePoolConfig {
    /// Maximum number of bundles allowed in the pool.
    pub max_bundles: u32,
}

impl Default for SBundlePoolConfig {
    fn default() -> (config: Self)
        ensures
            config == (SBundlePoolConfig { max_bundles: 42 }),
    {
        Self { max_bundles: 42 }
    }
}

/// What the chain reports as its latest block: its number, that there is none, or why it could
/// not be read.
pub type LatestBlock = Result<Option<u64>, String>;

/// The text of an outcome, for outcomes are compared by what their message says.
pub open spec fn outcome(result: Result<(), String>) -> Result<(), Seq<char>> {
    match result {
        Ok(()) => Ok(()),
        Err(reason) => Err(reason@),
    }
}

/// The verdict on whether the pool has a place for a bundle with `body_len` items, while it holds
/// `pending_len` bundles.
pub open spec fn room_verdict(body_len: nat, pending_len: nat, max_bundles: nat) -> Result<
    (),
    Seq<char>,
> {
    if body_len == 0 {
        Err("Bundle body must not be empty"@)
    } else if pending_len >= max_bundles {
        Err("Bundle pool is full"@)
    } else {
        Ok(())
    }
}

/// The verdict on a range of blocks, given what the chain reports as its latest block.
pub open spec fn window_verdict(inclusion: Inclusion, latest: LatestBlock) -> Result<
    (),
    Seq<char>,
> {
    match latest {
        Err(reason) => Err("Failed to fetch latest block during validation: "@ + reason@),
        Ok(None) => Err("Failed to fetch latest block during validation"@),
        Ok(Some(current)) => if current < inclusion.block {
            Err("current block < inclusion.block"@)
        } else if !inclusion.covers(current) {
            Err("current block > inclusion.max_block"@)
        } else {
            Ok(())
        },
    }
}

/// The verdict on `bundle`, for a pool that holds `pending_len` bundles of at most `max_bundles`:
/// the pool must have a place for it before the chain is looked at.
pub open spec fn verdict(
    bundle: SendBundleRequest,
    pending_len: nat,
    max_bundles: u32,
    latest: LatestBlock,
) -> Result<(), Seq<char>> {
    match room_verdict(bundle.bundle_body@.len(), pending_len, max_bundles as nat) {
        Err(reason) => Err(reason),
        Ok(()) => window_verdict(bundle.inclusion, latest),
    }
}

/// What the pool holds after `bundle` was offered to it.
pub open spec fn after_add(
    pending: Seq<SendBundleRequest>,
    bundle: SendBundleRequest,
    max_bundles: u32,
    latest: LatestBlock,
) -> Seq<SendBundleRequest> {
    if verdict(bundle, pending.len(), max_bundles, latest) is Ok {
        pending.push(bundle)
    } else {
        pending
    }
}

/// Whether some pending bundle has the hash `hash`.
pub open spec fn holds_hash(pending: Seq<SendBundleRequest>, hash: Seq<u8>) -> bool {
    exists|i: int| 0 <= i < pending.len() && (#[trigger] pending[i]).pool_hash() == hash
}

/// The pending bundles whose hash is not `hash`, in the order they came in.
pub open spec fn without_hash(pending: Seq<SendBundleRequest>, hash: Seq<u8>) -> Seq<
    SendBundleRequest,
> {
    pending.filter(|bundle: SendBundleRequest| bundle.pool_hash() != hash)
}

/// The outcome of asking for the removal of `hash`.
pub open spec fn removal_verdict(pending: Seq<SendBundleRequest>, hash: Seq<u8>) -> Result<
    (),
    Seq<char>,
> {
    if holds_hash(pending, hash) {
        Ok(())
    } else {
        Err("Bundle not found"@)
    }
}

/// Filtering one more item of a sequence.
proof fn lemma_filter_step<A>(items: Seq<A>, n: int, keep: spec_fn(A) -> bool)
    requires
        0 <= n < items.len(),
    ensures
        items.take(n + 1).filter(keep) == (if keep(items[n]) {
            items.take(n).filter(keep).push(items[n])
        } else {
            items.take(n).filter(keep)
        }),
{
    reveal(Seq::filter);
    assert(items.take(n + 1).drop_last() =~= items.take(n));
}

/// Which bundles stay when a hash is dropped: all of them if none has it, and otherwise fewer,
/// each of which was there before and has another hash.
pub proof fn lemma_without_hash(pending: Seq<SendBundleRequest>, hash: Seq<u8>)
    ensures
        holds_hash(pending, hash) <==> without_hash(pending, hash).len() < pending.len(),
        !holds_hash(pending, hash) ==> without_hash(pending, hash) == pending,
        forall|i: int|
            0 <= i < without_hash(pending, hash).len() ==> {
                &&& pending.contains(#[trigger] without_hash(pending, hash)[i])
                &&& without_hash(pending, hash)[i].pool_hash() != hash
            },
        !holds_hash(without_hash(pending, hash), hash),
    decreases pending.len(),
{
    reveal(Seq::filter);
    if pending.len() > 0 {
        let front = pending.drop_last();
        let kept = without_hash(front, hash);
        lemma_without_hash(front, hash);
        assert(pending =~= front.push(pending.last()));
        if holds_hash(front, hash) {
            let i = choose|i: int|
                0 <= i < front.len() && (#[trigger] front[i]).pool_hash() == hash;
            assert(pending[i].pool_hash() == hash);
        }
        if pending.last().pool_hash() == hash {
            assert(pending[pending.len() - 1].pool_hash() == hash);
        }
        if holds_hash(pending, hash) {
            let i = choose|i: int|
                0 <= i < pending.len() && (#[trigger] pending[i]).pool_hash() == hash;
            if i < front.len() {
                assert(front[i].pool_hash() == hash);
            }
        }
        assert forall|i: int| 0 <= i < without_hash(pending, hash).len() implies {
            &&& pending.contains(#[trigger] without_hash(pending, hash)[i])
            &&& without_hash(pending, hash)[i].pool_hash() != hash
        } by {
            if i < kept.len() {
                assert(without_hash(pending, hash)[i] == kept[i]);
                let j = choose|j: int| 0 <= j < front.len() && front[j] == kept[i];
                assert(pending[j] == kept[i]);
            } else {
                assert(without_hash(pending, hash)[i] == pending[pending.len() - 1]);
            }
        }
    }
}

/// Checks that a pool of `pending_len` bundles, of at most `max_bundles`, has a place for a bundle
/// with `body_len` items.
pub fn check_room(body_len: usize, pending_len: usize, max_bundles: u32) -> (result: Result<
    (),
    String,
>)
    ensures
        outcome(result) == room_verdict(
            body_len as nat,
            pending_len as nat,
            max_bundles as nat,
        ),
        match result {
            Ok(()) => body_len > 0 && pending_len < max_bundles,
            Err(reason) => {
                ||| body_len == 0 && reason@ == "Bundle body must not be empty"@
                ||| body_len > 0 && pending_len >= max_bundles && reason@ == "Bundle pool is full"@
            },
        },
{
    if body_len == 0 {
        return Err("Bundle body must not be empty".to_owned());
    }
    if pending_len >= max_bundles as usize {
        return Err("Bundle pool is full".to_owned());
    }
    Ok(())
}

/// Checks a range of blocks against the latest block.
///
/// `inclusion.block` is taken as the first block the bundle may be included in, not as the one
/// block it has to be included in.
pub fn check_window(inclusion: &Inclusion, latest: LatestBlock) -> (result: Result<(), String>)
    ensures
        outcome(result) == window_verdict(*inclusion, latest),
        match latest {
            Err(reason) => outcome(result) == Err::<(), Seq<char>>(
                "Failed to fetch latest block during validation: "@ + reason@,
            ),
            Ok(None) => outcome(result) == Err::<(), Seq<char>>(
                "Failed to fetch latest block during validation"@,
            ),
            Ok(Some(current)) => match result {
                Ok(()) => {
                    &&& inclusion.block <= current
                    &&& inclusion.max_block is None || current <= inclusion.max_block->Some_0
                },
                Err(reason) => {
                    ||| {
                        &&& current < inclusion.block
                        &&& reason@ == "current block < inclusion.block"@
                    }
                    ||| {
                        &&& inclusion.block <= current
                        &&& inclusion.max_block is Some
                        &&& inclusion.max_block->Some_0 < current
                        &&& reason@ == "current block > inclusion.max_block"@
                    }
                },
            },
        },
{
    let current = match latest {
        Err(reason) => {
            let mut message = "Failed to fetch latest block during validation: ".to_owned();
            message.append(reason.as_str());
            return Err(message);
        },
        Ok(None) => {
            return Err("Failed to fetch latest block during validation".to_owned());
        },
        Ok(Some(current)) => current,
    };
    if current < inclusion.block {
        return Err("current block < inclusion.block".to_owned());
    }
    if let Some(max_block) = inclusion.max_block {
        if current > max_block {
            return Err("current block > inclusion.max_block".to_owned());
        }
    }
    Ok(())
}

/// Whether every bundle has something in its body.
pub open spec fn bodies_filled(pending: Seq<SendBundleRequest>) -> bool {
    forall|i: int| 0 <= i < pending.len() ==> (#[trigger] pending[i]).bundle_body@.len() > 0
}

/// Whether no bundle has a last block that lies before its first.
pub open spec fn windows_open(pending: Seq<SendBundleRequest>) -> bool {
    forall|i: int|
        0 <= i < pending.len() ==> ((#[trigger] pending[i]).inclusion.max_block matches Some(
            max_block,
        ) ==> pending[i].inclusion.block <= max_block)
}

/// What holds of the bundles of a pool with the limit `max_bundles` at any time.
pub open spec fn well_kept(pending: Seq<SendBundleRequest>, max_bundles: u32) -> bool {
    &&& pending.len() <= max_bundles
    &&& bodies_filled(pending)
    &&& windows_open(pending)
}

/// The bundles that wait in the pool, oldest first, and how many of them there may be.
///
/// There are never more than that, none has an empty body, and none has a last block that lies
/// before its first.
#[derive(Debug)]
pub struct PendingBundles {
    bundles: Vec<SendBundleRequest>,
    max_bundles: u32,
}

impl View for PendingBundles {
    type V = Seq<SendBundleRequest>;

    closed spec fn view(&self) -> Seq<SendBundleRequest> {
        self.bundles@
    }
}

impl PendingBundles {
    /// The invariant of every value of the type.
    #[verifier::type_invariant]
    pub open spec fn inv(self) -> bool {
        well_kept(self@, self.limit())
    }

    /// How many bundles there may be.
    pub closed spec fn limit(self) -> u32 {
        self.max_bundles
    }

    /// No bundles, with room for `max_bundles`.
    pub fn new(max_bundles: u32) -> (pending: Self)
        ensures
            pending@ == Seq::<SendBundleRequest>::empty(),
            pending.limit() == max_bundles,
    {
        Self { bundles: Vec::new(), max_bundles }
    }

    /// Decides whether there is a place for `bundle`, without a look at the chain.
    pub fn check_room(&self, bundle: &SendBundleRequest) -> (result: Result<(), String>)
        ensures
            outcome(result) == room_verdict(
                bundle.bundle_body@.len(),
                self@.len(),
                self.limit() as nat,
            ),
    {
        check_room(bundle.bundle_body.len(), self.bundles.len(), self.max_bundles)
    }

    /// Decides whether `bundle` may enter.
    pub fn validate_bundle(&self, bundle: &SendBundleRequest, latest: LatestBlock) -> (result:
        Result<(), String>)
        ensures
            outcome(result) == verdict(*bundle, self@.len(), self.limit(), latest),
    {
        match self.check_room(bundle) {
            Err(reason) => Err(reason),
            Ok(()) => check_window(&bundle.inclusion, latest),
        }
    }

    /// Appends `bundle` if it may enter, and changes nothing if it may not.
    pub fn add_bundle(&mut self, bundle: SendBundleRequest, latest: LatestBlock) -> (result:
        Result<(), String>)
        ensures
            outcome(result) == verdict(bundle, old(self)@.len(), old(self).limit(), latest),
            final(self)@ == after_add(old(self)@, bundle, old(self).limit(), latest),
            final(self).limit() == old(self).limit(),
            result is Ok ==> final(self)@ == old(self)@.push(bundle),
            result is Err ==> final(self)@ == old(self)@,
    {
        proof {
            use_type_invariant(&*self);
        }
        let result = self.validate_bundle(&bundle, latest);
        match result {
            Err(reason) => Err(reason),
            Ok(()) => {
                let mut bundles: Vec<SendBundleRequest> = Vec::new();
                std::mem::swap(&mut bundles, &mut self.bundles);
                bundles.push(bundle);
                self.bundles = bundles;
                Ok(())
            },
        }
    }

    /// Drops every bundle whose hash is `hash`, and fails if there is none.
    pub fn remove_bundle(&mut self, hash: &B256) -> (result: Result<(), String>)
        ensures
            outcome(result) == removal_verdict(old(self)@, hash@),
            final(self)@ == without_hash(old(self)@, hash@),
            final(self).limit() == old(self).limit(),
            final(self)@ == old(self)@.filter(
                |bundle: SendBundleRequest|
                    keccak256_digest(body_encoding(bundle.bundle_body@)) != hash@,
            ),
            result is Ok <==> final(self)@.len() < old(self)@.len(),
            result matches Err(reason) ==> reason@ == "Bundle not found"@,
    {
        proof {
            use_type_invariant(&*self);
        }
        let mut bundles: Vec<SendBundleRequest> = Vec::new();
        std::mem::swap(&mut bundles, &mut self.bundles);
        let ghost before = bundles@;
        let ghost kept_if = |bundle: SendBundleRequest| bundle.pool_hash() != hash@;
        let len_before = bundles.len();
        let mut kept: Vec<SendBundleRequest> = Vec::new();
        for bundle in iter: bundles.into_iter()
            invariant
                iter.seq() == before,
                kept_if == (|bundle: SendBundleRequest| bundle.pool_hash() != hash@),
                kept@ == before.take(iter.index()).filter(kept_if),
        {
            proof {
                lemma_filter_step(before, iter.index(), kept_if);
            }
            let bundle_hash = bundle.hash();
            if !same_hash(&bundle_hash, hash) {
                kept.push(bundle);
            }
        }
        let len_after = kept.len();
        proof {
            assert(before.take(before.len() as int) =~= before);
            lemma_without_hash(before, hash@);
            assert(kept_if =~= (|bundle: SendBundleRequest|
                keccak256_digest(body_encoding(bundle.bundle_body@)) != hash@));
        }
        self.bundles = kept;
        if len_before > len_after {
            Ok(())
        } else {
            Err("Bundle not found".to_owned())
        }
    }

    /// The pending bundles, oldest first.
    pub fn get_bundles(&self) -> (bundles: &Vec<SendBundleRequest>)
        ensures
            bundles@ == self@,
            well_kept(bundles@, self.limit()),
        opens_invariants none
    {
        proof {
            use_type_invariant(self);
        }
        &self.bundles
    }
}

} // verus!
