//! MEV Share bundles and the hash that identifies them.
use alloy_rpc_types_mev::{BundleItem, Privacy, ProtocolVersion, Validity};
use vstd::prelude::*;

verus! {

/// `alloy_rpc_types_mev::BundleItem`: a transaction hash, a signed transaction or a nested bundle.
///
/// Opaque: the pool carries bundle items through and encodes them, but never looks inside.
#[verifier::external_type_specification]
#[verifier::external_body]
pub struct ExBundleItem(BundleItem);

/// `alloy_rpc_types_mev::ProtocolVersion`: the version of the MEV Share API that a request speaks.
/// Opaque, carried through.
#[verifier::external_type_specification]
#[verifier::external_body]
pub struct ExProtocolVersion(ProtocolVersion);

/// `alloy_rpc_types_mev::Validity`: the refund requirements of a bundle. Opaque, carried through.
#[verifier::external_type_specification]
#[verifier::external_body]
pub struct ExValidity(Validity);

/// `alloy_rpc_types_mev::Privacy`: the sharing preferences of a bundle. Opaque, carried through.
#[verifier::external_type_specification]
#[verifier::external_body]
pub struct ExPrivacy(Privacy);

/// `bincode::ErrorKind`: the reasons why bincode refuses a value. Opaque.
#[verifier::external_type_specification]
#[verifier::external_body]
pub struct ExErrorKind(bincode::ErrorKind);

/// A 256-bit hash.
pub type B256 = [u8; 32];

/// The range of blocks that a bundle may be included in.
#[derive(Clone, Copy, Debug, PartialEq, Eq, Structural)]
pub struct Inclusion {
    /// The first block the bundle is valid for.
    pub block: u64,
    /// The last block the bundle is valid for.
    pub max_block: Option<u64>,
}

impl Inclusion {
    /// Whether a bundle with this inclusion may enter the pool while `current` is the latest block.
    pub open spec fn covers(self, current: u64) -> bool {
        &&& self.block <= current
        &&& self.max_block matches Some(max_block) ==> current <= max_block
    }
}

/// A bundle of transactions, as sent to `mev_sendBundle`.
#[derive(Debug, PartialEq, Eq)]
pub struct SendBundleRequest {
    /// The version of the MEV Share API to use.
    pub protocol_version: ProtocolVersion,
    /// Data used by block builders to check if the bundle should be considered for inclusion.
    pub inclusion: Inclusion,
    /// The transactions to include in the bundle.
    pub bundle_body: Vec<BundleItem>,
    /// Requirements for the bundle to be included in the block.
    pub validity: Option<Validity>,
    /// Preferences on what data should be shared about the bundle and its transactions.
    pub privacy: Option<Privacy>,
}

/// The bytes that `bincode::serialize` makes of a bundle body.
pub uninterp spec fn body_encoding(body: Seq<BundleItem>) -> Seq<u8>;

/// The Keccak-256 digest of `data`.
pub uninterp spec fn keccak256_digest(data: Seq<u8>) -> Seq<u8>;

/// Calls `bincode::serialize` on a bundle body.
///
/// Claims that the call succeeds, and that the bytes depend on nothing but the body. The call is
/// made with no size limit and writes to memory, and every sequence inside a `BundleItem` announces
/// its length, so none of the errors of bincode's serializer can arise. A nesting of bundles deep
/// enough to exhaust the stack is left aside.
#[verifier::external_body]
fn encode_body(body: &Vec<BundleItem>) -> (encoded: Result<Vec<u8>, bincode::Error>)
    ensures
        encoded is Ok,
        encoded->Ok_0@ == body_encoding(body@),
{
    bincode::serialize(body)
}

/// Calls `alloy_primitives::keccak256`.
///
/// Claims that the digest depends on nothing but the bytes handed in.
#[verifier::external_body]
fn keccak256(data: &Vec<u8>) -> (digest: B256)
    ensures
        digest@ == keccak256_digest(data@),
{
    alloy_primitives::keccak256(data).0
}

impl SendBundleRequest {
    /// The hash that identifies the bundle: the digest of its encoded body.
    pub open spec fn body_hash(self) -> Seq<u8> {
        keccak256_digest(body_encoding(self.bundle_body@))
    }
}

/// What a bundle pool needs of the bundles it holds.
pub trait PoolBundle {
    /// The hash that identifies the bundle in the pool.
    spec fn pool_hash(&self) -> Seq<u8>;

    /// Returns the hash that identifies the bundle in the pool.
    fn hash(&self) -> (hash: B256)
        ensures
            hash@ == self.pool_hash(),
    ;
}

impl PoolBundle for SendBundleRequest {
    open spec fn pool_hash(&self) -> Seq<u8> {
        self.body_hash()
    }

    fn hash(&self) -> (hash: B256)
        ensures
            hash@ == keccak256_digest(body_encoding(self.bundle_body@)),
    {
        let encoded = encode_body(&self.bundle_body);
        let bytes = encoded.unwrap();
        keccak256(&bytes)
    }
}

/// Compares two hashes byte by byte.
pub fn same_hash(left: &B256, right: &B256) -> (same: bool)
    ensures
        same == (left@ == right@),
{
    let mut i: usize = 0;
    while i < 32
        invariant
            i <= 32,
            left@.take(i as int) == right@.take(i as int),
        decreases 32 - i,
    {
        if left[i] != right[i] {
            return false;
        }
        i = i + 1;
        assert(left@.take(i as int) =~= left@.take(i - 1).push(left@[i - 1]));
        assert(right@.take(i as int) =~= right@.take(i - 1).push(right@[i - 1]));
    }
    assert(left@.take(32) =~= left@);
    assert(right@.take(32) =~= right@);
    true
}

} // verus!
