use alloy_primitives::B256 as Word;
use alloy_rpc_types_mev::{BundleItem, ProtocolVersion};
use jsonrpsee_types::ErrorObjectOwned;
use mev_share::bundle::{Inclusion, PoolBundle, SendBundleRequest};
use mev_share::mev::{early_reply_to, reply_to, MevApi, MevError, SendBundleResponse};
use mev_share::pending::SBundlePoolConfig;
use mev_share::pool::SBundlePool;
use mev_share::share::{MevSharePool, TransactionPoolBundleExt};

fn request(tags: &[u8]) -> SendBundleRequest {
    SendBundleRequest {
        protocol_version: ProtocolVersion::Beta1,
        inclusion: Inclusion { block: 10, max_block: Some(20) },
        bundle_body: tags
            .iter()
            .map(|tag| BundleItem::Hash { hash: Word::repeat_byte(*tag) })
            .collect(),
        validity: None,
        privacy: None,
    }
}

fn share_pool(max_bundles: u32) -> MevSharePool<u64> {
    MevSharePool::new(77, SBundlePoolConfig { max_bundles })
}

#[test]
fn new_pool_is_empty() {
    let pool = SBundlePool::new(SBundlePoolConfig { max_bundles: 3 });
    assert!(pool.get_bundles().bundles().is_empty());
}

#[test]
fn default_pool_holds_42_bundles() {
    let pool = SBundlePool::default();
    for tag in 0..42 {
        assert_eq!(pool.add_bundle(request(&[tag]), Ok(Some(15))), Ok(()));
    }
    assert_eq!(
        pool.add_bundle(request(&[42]), Ok(Some(15))),
        Err("Bundle pool is full".to_string())
    );
    assert_eq!(pool.get_bundles().bundles().len(), 42);
    assert_eq!(pool.get_bundles().bundles()[41], request(&[41]));
}

#[test]
fn pool_adds_validates_and_removes() {
    let pool = SBundlePool::new(SBundlePoolConfig { max_bundles: 2 });
    assert_eq!(pool.validate_bundle(&request(&[1]), Ok(Some(15))), Ok(()));
    assert_eq!(pool.add_bundle(request(&[1]), Ok(Some(15))), Ok(()));
    assert_eq!(pool.add_bundle(request(&[2]), Ok(Some(15))), Ok(()));
    assert_eq!(
        pool.validate_bundle(&request(&[3]), Ok(Some(15))),
        Err("Bundle pool is full".to_string())
    );
    assert_eq!(pool.remove_bundle(&request(&[1]).hash()), Ok(()));
    assert_eq!(
        pool.remove_bundle(&request(&[1]).hash()),
        Err("Bundle not found".to_string())
    );
    assert_eq!(*pool.get_bundles().bundles(), vec![request(&[2])]);
}

#[test]
fn readers_do_not_exclude_each_other() {
    let pool = SBundlePool::default();
    assert_eq!(pool.add_bundle(request(&[1]), Ok(Some(15))), Ok(()));
    let first = pool.get_bundles();
    let second = pool.get_bundles();
    assert_eq!(first.bundles(), second.bundles());
}

#[test]
fn clones_share_both_pools() {
    let pool = share_pool(5);
    let other = pool.clone();
    assert_eq!(pool.add_bundle(request(&[1]), Ok(Some(15))), Ok(()));
    assert_eq!(*other.get_bundles().bundles(), vec![request(&[1])]);
    assert_eq!(other.remove_bundle(&request(&[1]).hash()), Ok(()));
    assert!(pool.get_bundles().bundles().is_empty());
    assert_eq!(*pool.tx_pool(), 77);
    assert_eq!(*other.tx_pool(), 77);
}

#[test]
fn sent_bundle_can_be_removed_by_the_replied_hash() {
    let pool = share_pool(5);
    let api = MevApi::new(pool.clone());
    let reply = api.send_bundle(request(&[0x11]), Ok(Some(10))).unwrap();
    let expected: Word =
        "967960060d65ec74fd2b0467951e29b66247d449e52ece5cf4f718f662172e54".parse().unwrap();
    assert_eq!(reply, SendBundleResponse { bundle_hash: expected.0 });
    assert_eq!(*pool.get_bundles().bundles(), vec![request(&[0x11])]);
    assert_eq!(pool.remove_bundle(&reply.bundle_hash), Ok(()));
    assert!(pool.get_bundles().bundles().is_empty());
}

#[test]
fn clones_of_the_api_share_the_pool() {
    let api = MevApi::new(share_pool(1));
    let other = api.clone();
    assert!(api.send_bundle(request(&[1]), Ok(Some(15))).is_ok());
    let err = other.send_bundle(request(&[2]), Ok(Some(15))).unwrap_err();
    assert_eq!(err.message(), "Failed to insert bundle into pool: Bundle pool is full");
}

#[test]
fn refusals_reach_the_sender() {
    let pool = share_pool(5);
    let api = MevApi::new(pool.clone());
    let cases = vec![
        (request(&[1]), Ok(Some(9)), "current block < inclusion.block"),
        (request(&[1]), Ok(Some(21)), "current block > inclusion.max_block"),
        (request(&[1]), Ok(None), "Failed to fetch latest block during validation"),
        (
            request(&[1]),
            Err("io".to_string()),
            "Failed to fetch latest block during validation: io",
        ),
    ];
    for (bundle, latest, reason) in cases {
        match api.send_bundle(bundle, latest) {
            Err(MevError::InsertionError(text)) => assert_eq!(text, reason),
            other => panic!("unexpected reply: {:?}", other),
        }
    }
    assert!(pool.get_bundles().bundles().is_empty());
}

#[test]
fn empty_body_is_turned_away_before_the_pool() {
    let pool = share_pool(0);
    let api = MevApi::new(pool.clone());
    assert!(matches!(api.send_bundle(request(&[]), Ok(Some(15))), Err(MevError::EmptyBundleBody)));
    assert!(matches!(api.send_bundle(request(&[]), Ok(None)), Err(MevError::EmptyBundleBody)));
    assert!(matches!(api.check_bundle(&request(&[])), Err(MevError::EmptyBundleBody)));
    assert!(pool.get_bundles().bundles().is_empty());
}

#[test]
fn chain_is_read_only_if_there_is_a_place() {
    let api = MevApi::new(share_pool(1));
    assert!(api.check_bundle(&request(&[1])).is_ok());
    assert!(api.send_bundle(request(&[1]), Ok(Some(15))).is_ok());
    match api.check_bundle(&request(&[2])) {
        Err(MevError::InsertionError(reason)) => assert_eq!(reason, "Bundle pool is full"),
        other => panic!("unexpected reply: {:?}", other),
    }
    assert!(early_reply_to(Ok(())).is_ok());
    let err = early_reply_to(Err("no".to_string())).unwrap_err();
    assert!(matches!(err, MevError::InsertionError(reason) if reason == "no"));
}

#[test]
fn share_pool_answers_as_a_bundle_pool() {
    let share = share_pool(2);
    let pool = SBundlePool::new(SBundlePoolConfig { max_bundles: 2 });
    for (tags, block) in [(vec![1], 15), (vec![], 15), (vec![2], 9), (vec![2], 10), (vec![3], 15)] {
        assert_eq!(
            share.add_bundle(request(&tags), Ok(Some(block))),
            pool.add_bundle(request(&tags), Ok(Some(block)))
        );
    }
    for tag in [1, 3] {
        let hash = request(&[tag]).hash();
        assert_eq!(share.remove_bundle(&hash), pool.remove_bundle(&hash));
    }
    assert_eq!(share.get_bundles().bundles(), pool.get_bundles().bundles());
    assert_eq!(*pool.get_bundles().bundles(), vec![request(&[2])]);
}

#[test]
fn last_place_goes_once() {
    let pool = share_pool(2);
    let other = pool.clone();
    assert_eq!(pool.add_bundle(request(&[1]), Ok(Some(15))), Ok(()));
    assert_eq!(other.add_bundle(request(&[2]), Ok(Some(15))), Ok(()));
    assert_eq!(
        pool.add_bundle(request(&[3]), Ok(Some(15))),
        Err("Bundle pool is full".to_string())
    );
    assert_eq!(other.get_bundles().bundles().len(), 2);
}

#[test]
fn reply_carries_the_hash_or_the_reason() {
    assert_eq!(reply_to([7; 32], Ok(())).unwrap().bundle_hash, [7; 32]);
    let err = reply_to([7; 32], Err("no".to_string())).unwrap_err();
    assert!(matches!(err, MevError::InsertionError(reason) if reason == "no"));
}

#[test]
fn empty_body_error_object() {
    assert_eq!(MevError::EmptyBundleBody.code(), -32602);
    assert_eq!(MevError::EmptyBundleBody.message(), "Bundle body must not be empty");
    let object = ErrorObjectOwned::from(MevError::EmptyBundleBody);
    assert_eq!(object.code(), -32602);
    assert_eq!(object.message(), "Bundle body must not be empty");
    assert!(object.data().is_none());
}

#[test]
fn insertion_error_object() {
    let object = ErrorObjectOwned::from(MevError::InsertionError("Bundle not found".to_string()));
    assert_eq!(object.code(), -32602);
    assert_eq!(object.message(), "Failed to insert bundle into pool: Bundle not found");
    assert!(object.data().is_none());
}

#[test]
fn room_is_checked_without_the_chain() {
    let pool = share_pool(1);
    assert_eq!(pool.check_room(&request(&[1])), Ok(()));
    assert_eq!(
        pool.check_room(&request(&[])),
        Err("Bundle body must not be empty".to_string())
    );
    assert_eq!(pool.add_bundle(request(&[1]), Ok(Some(15))), Ok(()));
    assert_eq!(pool.check_room(&request(&[2])), Err("Bundle pool is full".to_string()));
    assert_eq!(*pool.get_bundles().bundles(), vec![request(&[1])]);
}
