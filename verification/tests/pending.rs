use alloy_primitives::{Bytes, B256 as Word};
use alloy_rpc_types_mev::{BundleItem, MevSendBundle, ProtocolVersion};
use mev_share::bundle::{same_hash, Inclusion, PoolBundle, SendBundleRequest, B256};
use mev_share::pending::{
    check_room, check_window, LatestBlock, PendingBundles, SBundlePoolConfig,
};

fn item(tag: u8) -> BundleItem {
    BundleItem::Hash { hash: Word::repeat_byte(tag) }
}

fn request(body: Vec<BundleItem>, block: u64, max_block: Option<u64>) -> SendBundleRequest {
    SendBundleRequest {
        protocol_version: ProtocolVersion::V0_1,
        inclusion: Inclusion { block, max_block },
        bundle_body: body,
        validity: None,
        privacy: None,
    }
}

fn bundle(tag: u8) -> SendBundleRequest {
    request(vec![item(tag)], 10, Some(20))
}

fn at(number: u64) -> LatestBlock {
    Ok(Some(number))
}

fn refused(message: &str) -> Result<(), String> {
    Err(message.to_string())
}

fn hex(digits: &str) -> B256 {
    let word: Word = digits.parse().unwrap();
    word.0
}

#[test]
fn default_limit_is_42() {
    assert_eq!(SBundlePoolConfig::default().max_bundles, 42);
}

#[test]
fn hash_of_one_hash_item() {
    assert_eq!(
        bundle(0x11).hash(),
        hex("967960060d65ec74fd2b0467951e29b66247d449e52ece5cf4f718f662172e54")
    );
}

#[test]
fn hash_of_hash_and_transaction() {
    let tx = BundleItem::Tx { tx: Bytes::from(vec![0x02, 0xf8, 0x6b]), can_revert: true };
    assert_eq!(
        request(vec![item(0x11), tx], 1, None).hash(),
        hex("b5e8bf100217ac3f4af91c6fc0120b38d9e10b7b297d0809752c8a6587d7372f")
    );
}

#[test]
fn hash_of_empty_body() {
    assert_eq!(
        request(vec![], 1, None).hash(),
        hex("011b4d03dd8c01f1049143cf9c4c817e4b167f1d1b83e5c6f0f10d89ba1e7bce")
    );
}

#[test]
fn hash_of_nested_bundle() {
    let inner = MevSendBundle::new(3, Some(4), ProtocolVersion::Beta1, vec![item(7)]);
    let outer = request(vec![BundleItem::Bundle { bundle: inner.clone() }], 1, None);
    let again = request(vec![BundleItem::Bundle { bundle: inner }], 2, Some(5));
    assert_eq!(outer.hash(), again.hash());
    assert_ne!(outer.hash(), bundle(7).hash());
}

#[test]
fn hash_ignores_everything_but_the_body() {
    let left = request(vec![item(1), item(2)], 10, Some(20));
    let right = request(vec![item(1), item(2)], 99, None);
    let swapped = request(vec![item(2), item(1)], 10, Some(20));
    assert_eq!(left.hash(), right.hash());
    assert_ne!(left.hash(), swapped.hash());
}

#[test]
fn hashes_are_compared_in_every_byte() {
    let zero: B256 = [0; 32];
    assert!(same_hash(&zero, &[0; 32]));
    for i in 0..32 {
        let mut other = zero;
        other[i] = 1;
        assert!(!same_hash(&zero, &other));
        assert!(!same_hash(&other, &zero));
    }
}

#[test]
fn empty_body_comes_before_everything_else() {
    let message = "Bundle body must not be empty";
    assert_eq!(check_room(0, 0, 5), refused(message));
    assert_eq!(check_room(0, 5, 5), refused(message));
    let empty = request(vec![], 10, Some(20));
    assert_eq!(PendingBundles::new(0).validate_bundle(&empty, Ok(None)), refused(message));
    assert_eq!(PendingBundles::new(1).validate_bundle(&empty, at(15)), refused(message));
    assert_eq!(PendingBundles::new(0).check_room(&empty), refused(message));
}

#[test]
fn full_pool_comes_before_the_chain() {
    let message = "Bundle pool is full";
    assert_eq!(check_room(1, 4, 5), Ok(()));
    assert_eq!(check_room(1, 5, 5), refused(message));
    assert_eq!(check_room(1, 6, 5), refused(message));
    assert_eq!(check_room(1, 0, 0), refused(message));
    let pending = PendingBundles::new(0);
    assert_eq!(pending.check_room(&bundle(1)), refused(message));
    assert_eq!(pending.validate_bundle(&bundle(1), Err("gone".to_string())), refused(message));
}

#[test]
fn room_is_counted_in_full_width() {
    assert_eq!(check_room(1, 4_294_967_296, 1), refused("Bundle pool is full"));
    assert_eq!(check_room(1, 4_294_967_294, u32::MAX), Ok(()));
    assert_eq!(check_room(1, 4_294_967_295, u32::MAX), refused("Bundle pool is full"));
}

#[test]
fn chain_failure_is_reported() {
    let inclusion = Inclusion { block: 10, max_block: Some(20) };
    assert_eq!(
        check_window(&inclusion, Err("database closed".to_string())),
        refused("Failed to fetch latest block during validation: database closed")
    );
    assert_eq!(
        check_window(&inclusion, Ok(None)),
        refused("Failed to fetch latest block during validation")
    );
}

#[test]
fn window_bounds_are_inclusive() {
    let inclusion = Inclusion { block: 10, max_block: Some(20) };
    assert_eq!(check_window(&inclusion, at(9)), refused("current block < inclusion.block"));
    assert_eq!(check_window(&inclusion, at(10)), Ok(()));
    assert_eq!(check_window(&inclusion, at(20)), Ok(()));
    assert_eq!(check_window(&inclusion, at(21)), refused("current block > inclusion.max_block"));
    assert_eq!(check_window(&inclusion, at(22)), refused("current block > inclusion.max_block"));
}

#[test]
fn window_without_end_never_closes() {
    let inclusion = Inclusion { block: 10, max_block: None };
    assert_eq!(check_window(&inclusion, at(9)), refused("current block < inclusion.block"));
    assert_eq!(check_window(&inclusion, at(u64::MAX)), Ok(()));
}

#[test]
fn empty_window_is_never_met() {
    let inclusion = Inclusion { block: 20, max_block: Some(10) };
    assert_eq!(check_window(&inclusion, at(9)), refused("current block < inclusion.block"));
    assert_eq!(check_window(&inclusion, at(15)), refused("current block < inclusion.block"));
    assert_eq!(check_window(&inclusion, at(20)), refused("current block > inclusion.max_block"));
}

#[test]
fn admitted_bundles_keep_their_order() {
    let mut pending = PendingBundles::new(3);
    assert!(pending.get_bundles().is_empty());
    assert_eq!(pending.add_bundle(bundle(1), at(15)), Ok(()));
    assert_eq!(pending.add_bundle(bundle(2), at(15)), Ok(()));
    assert_eq!(pending.add_bundle(bundle(1), at(15)), Ok(()));
    assert_eq!(*pending.get_bundles(), vec![bundle(1), bundle(2), bundle(1)]);
}

#[test]
fn refused_bundle_changes_nothing() {
    let mut pending = PendingBundles::new(2);
    assert_eq!(pending.add_bundle(bundle(1), at(15)), Ok(()));
    assert_eq!(
        pending.add_bundle(bundle(2), at(9)),
        refused("current block < inclusion.block")
    );
    assert_eq!(*pending.get_bundles(), vec![bundle(1)]);
    assert_eq!(pending.add_bundle(bundle(2), at(15)), Ok(()));
    assert_eq!(pending.add_bundle(bundle(3), at(15)), refused("Bundle pool is full"));
    assert_eq!(*pending.get_bundles(), vec![bundle(1), bundle(2)]);
}

#[test]
fn validation_changes_nothing() {
    let mut pending = PendingBundles::new(2);
    assert_eq!(pending.add_bundle(bundle(1), at(15)), Ok(()));
    assert_eq!(pending.validate_bundle(&bundle(2), at(15)), Ok(()));
    assert_eq!(*pending.get_bundles(), vec![bundle(1)]);
}

#[test]
fn removal_drops_every_bundle_with_the_hash() {
    let mut pending = PendingBundles::new(9);
    for tag in [1, 2, 1, 3, 1] {
        assert_eq!(pending.add_bundle(bundle(tag), at(15)), Ok(()));
    }
    assert_eq!(pending.remove_bundle(&bundle(1).hash()), Ok(()));
    assert_eq!(*pending.get_bundles(), vec![bundle(2), bundle(3)]);
}

#[test]
fn second_removal_is_refused() {
    let mut pending = PendingBundles::new(9);
    assert_eq!(pending.remove_bundle(&[0; 32]), refused("Bundle not found"));
    assert_eq!(pending.add_bundle(bundle(1), at(15)), Ok(()));
    assert_eq!(pending.add_bundle(bundle(2), at(15)), Ok(()));
    assert_eq!(pending.remove_bundle(&bundle(1).hash()), Ok(()));
    assert_eq!(pending.remove_bundle(&bundle(1).hash()), refused("Bundle not found"));
    assert_eq!(*pending.get_bundles(), vec![bundle(2)]);
}

#[test]
fn removal_undoes_an_admission() {
    let mut pending = PendingBundles::new(9);
    assert_eq!(pending.add_bundle(bundle(1), at(15)), Ok(()));
    assert_eq!(pending.add_bundle(bundle(2), at(15)), Ok(()));
    assert_eq!(pending.remove_bundle(&bundle(2).hash()), Ok(()));
    assert_eq!(*pending.get_bundles(), vec![bundle(1)]);
}

#[test]
fn removals_in_either_order_leave_the_same() {
    let mut left = PendingBundles::new(9);
    let mut right = PendingBundles::new(9);
    for tag in [1, 2, 3, 2, 1] {
        assert_eq!(left.add_bundle(bundle(tag), at(15)), Ok(()));
        assert_eq!(right.add_bundle(bundle(tag), at(15)), Ok(()));
    }
    assert_eq!(left.remove_bundle(&bundle(1).hash()), Ok(()));
    assert_eq!(left.remove_bundle(&bundle(2).hash()), Ok(()));
    assert_eq!(right.remove_bundle(&bundle(2).hash()), Ok(()));
    assert_eq!(right.remove_bundle(&bundle(1).hash()), Ok(()));
    assert_eq!(left.get_bundles(), right.get_bundles());
    assert_eq!(*left.get_bundles(), vec![bundle(3)]);
}

#[test]
fn removal_frees_a_place() {
    let mut pending = PendingBundles::new(1);
    assert_eq!(pending.add_bundle(bundle(1), at(15)), Ok(()));
    assert_eq!(pending.add_bundle(bundle(2), at(15)), refused("Bundle pool is full"));
    assert_eq!(pending.remove_bundle(&bundle(1).hash()), Ok(()));
    assert_eq!(pending.add_bundle(bundle(2), at(15)), Ok(()));
    assert_eq!(*pending.get_bundles(), vec![bundle(2)]);
}

#[test]
fn removals_of_two_hashes_get_the_same_answers() {
    let mut left = PendingBundles::new(9);
    let mut right = PendingBundles::new(9);
    for tag in [1, 3, 1] {
        assert_eq!(left.add_bundle(bundle(tag), at(15)), Ok(()));
        assert_eq!(right.add_bundle(bundle(tag), at(15)), Ok(()));
    }
    assert_eq!(left.remove_bundle(&bundle(1).hash()), Ok(()));
    assert_eq!(left.remove_bundle(&bundle(2).hash()), refused("Bundle not found"));
    assert_eq!(right.remove_bundle(&bundle(2).hash()), refused("Bundle not found"));
    assert_eq!(right.remove_bundle(&bundle(1).hash()), Ok(()));
    assert_eq!(left.get_bundles(), right.get_bundles());
}

#[test]
fn what_stays_was_admitted_and_not_dropped_later() {
    let mut pending = PendingBundles::new(3);
    assert_eq!(pending.add_bundle(bundle(1), at(15)), Ok(()));
    assert_eq!(pending.add_bundle(bundle(2), at(15)), Ok(()));
    assert_eq!(pending.remove_bundle(&bundle(1).hash()), Ok(()));
    assert_eq!(pending.add_bundle(bundle(3), at(21)).is_err(), true);
    assert_eq!(pending.add_bundle(bundle(1), at(15)), Ok(()));
    assert_eq!(*pending.get_bundles(), vec![bundle(2), bundle(1)]);
}
