use substate_track::model::{Component, ValidatedPackage};
use substate_track::track::{
    Address, InMemorySubstateStore, PhysicalSubstateId, StoredValue, StoredValueId,
    SubstateOperation, SubstateValue, Track, TrackError,
};
use substate_track::types::{ComponentAddress, KeyValueStoreId, PackageAddress};
use substate_track::value_codec::encode_substate_value;

fn tx_hash(n: u128) -> substate_track::types::Hash {
    substate_track::types::Hash { hi: n, lo: n + 1 }
}

fn component_c1() -> ComponentAddress {
    ComponentAddress { hi: 77, lo: 78 }
}

fn sample_component(state: Vec<u8>) -> Component {
    Component::new(PackageAddress { hi: 5, lo: 6 }, String::from("bp"), state)
}

#[test]
fn create_uuid_value_then_read_back_and_commit() {
    let store = InMemorySubstateStore::new();
    let mut track = Track::new(store, tx_hash(1));
    let package = ValidatedPackage::new(vec![0x00]);
    let address = track.create_uuid_value(SubstateValue::Package(package));
    match track.borrow_global_value(address) {
        Ok(SubstateValue::Package(p)) => assert_eq!(p.code, vec![0x00]),
        _ => panic!("expected the created package"),
    }
    let receipt = track.to_receipt();
    assert!(receipt.borrowed.is_empty());
    assert_eq!(receipt.new_addresses.len(), 1);
    assert_eq!(receipt.substates.substate_operations.len(), 1);
    match &receipt.substates.substate_operations[0] {
        SubstateOperation::Up(key, value) => {
            assert_eq!(*key, address.encode());
            assert_eq!(
                *value,
                encode_substate_value(&SubstateValue::Package(ValidatedPackage::new(vec![0x00])))
            );
        }
        other => panic!("expected a single Up, got {:?}", other),
    }
}

#[test]
fn fault_mutate_release_commits_down_then_up() {
    let mut store = InMemorySubstateStore::new();
    let c1 = Address::GlobalComponent(component_c1());
    let h = tx_hash(40);
    let prior = SubstateValue::Component(sample_component(vec![1, 2]));
    store.put_substate(
        c1.encode(),
        encode_substate_value(&prior),
        PhysicalSubstateId { hash: h, index: 7 },
    );
    let mut track = Track::new(store, tx_hash(2));
    assert!(track.take_lock(c1).is_ok());
    let updated = SubstateValue::Component(sample_component(vec![9]));
    assert!(track.write_value(c1, updated).is_ok());
    track.release_lock(c1);
    let receipt = track.to_receipt();
    assert!(receipt.borrowed.is_empty());
    let ops = &receipt.substates.substate_operations;
    assert_eq!(ops.len(), 2);
    match &ops[0] {
        SubstateOperation::Down(id) => {
            assert_eq!(id.hash, h);
            assert_eq!(id.index, 7);
        }
        other => panic!("expected Down first, got {:?}", other),
    }
    match &ops[1] {
        SubstateOperation::Up(key, value) => {
            assert_eq!(*key, c1.encode());
            assert_eq!(
                *value,
                encode_substate_value(&SubstateValue::Component(sample_component(vec![9])))
            );
        }
        other => panic!("expected Up second, got {:?}", other),
    }
}

#[test]
fn take_lock_twice_is_reentrancy() {
    let mut store = InMemorySubstateStore::new();
    let c1 = Address::GlobalComponent(component_c1());
    store.put_substate(
        c1.encode(),
        encode_substate_value(&SubstateValue::Component(sample_component(vec![]))),
        PhysicalSubstateId { hash: tx_hash(3), index: 0 },
    );
    let mut track = Track::new(store, tx_hash(4));
    assert!(track.take_lock(c1).is_ok());
    assert_eq!(track.take_lock(c1), Err(TrackError::Reentrancy));
}

#[test]
fn lock_and_moving_borrow_share_one_state_machine() {
    let mut store = InMemorySubstateStore::new();
    let c1 = Address::GlobalComponent(component_c1());
    store.put_substate(
        c1.encode(),
        encode_substate_value(&SubstateValue::Component(sample_component(vec![]))),
        PhysicalSubstateId { hash: tx_hash(5), index: 0 },
    );
    let mut track = Track::new(store, tx_hash(6));
    assert!(track.take_lock(c1).is_ok());
    match track.borrow_global_mut_value(c1) {
        Err(TrackError::Reentrancy) => {}
        other => panic!("expected reentrancy, got {:?}", other),
    }
}

#[test]
fn released_value_is_observed_by_later_reads() {
    let mut store = InMemorySubstateStore::new();
    let c1 = Address::GlobalComponent(component_c1());
    store.put_substate(
        c1.encode(),
        encode_substate_value(&SubstateValue::Component(sample_component(vec![1]))),
        PhysicalSubstateId { hash: tx_hash(7), index: 3 },
    );
    let mut track = Track::new(store, tx_hash(8));
    assert!(track.take_lock(c1).is_ok());
    assert!(track
        .write_component_value(c1, vec![42, 43])
        .is_ok());
    track.release_lock(c1);
    match track.borrow_global_value(c1) {
        Ok(SubstateValue::Component(c)) => assert_eq!(c.state, vec![42, 43]),
        other => panic!("expected the written component, got {:?}", other),
    }
}

#[test]
fn borrow_global_value_missing_is_not_found() {
    let store = InMemorySubstateStore::new();
    let mut track = Track::new(store, tx_hash(9));
    match track.borrow_global_value(Address::GlobalComponent(component_c1())) {
        Err(TrackError::NotFound) => {}
        other => panic!("expected not-found, got {:?}", other),
    }
}

#[test]
fn moving_borrow_and_return_round_trips() {
    let store = InMemorySubstateStore::new();
    let mut track = Track::new(store, tx_hash(10));
    let addr = track.create_uuid_value(SubstateValue::Package(ValidatedPackage::new(vec![7])));
    let value = track.borrow_global_mut_value(addr).expect("borrow should succeed");
    match &value {
        SubstateValue::Package(p) => assert_eq!(p.code, vec![7]),
        other => panic!("expected the package, got {:?}", other),
    }
    track.return_borrowed_global_mut_value(addr, value);
    let receipt = track.to_receipt();
    assert!(receipt.borrowed.is_empty());
    assert_eq!(receipt.substates.substate_operations.len(), 1);
}

#[test]
fn unreleased_lock_is_reported_by_the_receipt() {
    let store = InMemorySubstateStore::new();
    let mut track = Track::new(store, tx_hash(11));
    let addr = track.create_uuid_value(SubstateValue::Package(ValidatedPackage::new(vec![])));
    assert!(track.take_lock(addr).is_ok());
    let receipt = track.to_receipt();
    assert!(!receipt.borrowed.is_empty());
}

#[test]
fn keyed_first_touch_orders_virtual_down_before_up() {
    let store = InMemorySubstateStore::new();
    let mut track = Track::new(store, tx_hash(12));
    let ca = component_c1();
    let kv = KeyValueStoreId { hash: tx_hash(12), index: 0 };
    track.create_key_space(ca, kv);
    let parent = Address::KeyValueStore(ca, kv);
    track.set_key_value(parent, vec![1], SubstateValue::KeyValueStoreEntry(Some(vec![5])));
    let receipt = track.to_receipt();
    let ops = &receipt.substates.substate_operations;
    assert_eq!(ops.len(), 3);
    assert!(matches!(ops[0], SubstateOperation::VirtualDown(_)));
    assert!(matches!(ops[1], SubstateOperation::Up(..)));
    assert!(matches!(ops[2], SubstateOperation::VirtualUp(_)));
}

#[test]
fn read_key_value_reports_positive_absence() {
    let store = InMemorySubstateStore::new();
    let mut track = Track::new(store, tx_hash(13));
    let ca = component_c1();
    let kv = KeyValueStoreId { hash: tx_hash(13), index: 0 };
    track.create_key_space(ca, kv);
    let parent = Address::KeyValueStore(ca, kv);
    match track.read_key_value(parent, vec![9]) {
        SubstateValue::KeyValueStoreEntry(None) => {}
        other => panic!("expected the tombstone, got {:?}", other),
    }
    track.set_key_value(parent, vec![9], SubstateValue::KeyValueStoreEntry(Some(vec![1])));
    match track.read_key_value(parent, vec![9]) {
        SubstateValue::KeyValueStoreEntry(Some(v)) => assert_eq!(v, vec![1]),
        other => panic!("expected the staged entry, got {:?}", other),
    }
}

#[test]
fn identical_transactions_commit_identical_receipts() {
    let run = || {
        let store = InMemorySubstateStore::new();
        let mut track = Track::new(store, tx_hash(21));
        let addr =
            track.create_uuid_value(SubstateValue::Package(ValidatedPackage::new(vec![1, 2, 3])));
        assert!(track.take_lock(addr).is_ok());
        track.release_lock(addr);
        let ca = component_c1();
        let kv = KeyValueStoreId { hash: tx_hash(21), index: 0 };
        track.create_key_space(ca, kv);
        track.set_key_value(
            Address::KeyValueStore(ca, kv),
            vec![1],
            SubstateValue::KeyValueStoreEntry(Some(vec![2])),
        );
        track.add_log(substate_track::types::Level::Info, String::from("one"));
        track.to_receipt()
    };
    let a = run();
    let b = run();
    assert_eq!(
        format!("{:?}", a.substates.substate_operations),
        format!("{:?}", b.substates.substate_operations)
    );
    assert_eq!(format!("{:?}", a.new_addresses), format!("{:?}", b.new_addresses));
    assert_eq!(format!("{:?}", a.logs), format!("{:?}", b.logs));
}

#[test]
fn id_allocation_is_deterministic_and_counts_by_one() {
    let mut a = substate_track::id_allocator::IdAllocator::new();
    let mut b = substate_track::id_allocator::IdAllocator::new();
    let h = tx_hash(30);
    assert_eq!(a.new_package_address(h), b.new_package_address(h));
    assert_eq!(a.new_component_address(h), b.new_component_address(h));
    assert_eq!(a.new_resource_address(h), b.new_resource_address(h));
    assert_eq!(a.new_vault_id(h), b.new_vault_id(h));
    assert_eq!(a.new_kv_store_id(h), b.new_kv_store_id(h));
    assert_eq!(a.new_uuid(h), b.new_uuid(h));
    assert_eq!(a.vault_counter, 1);
    let v0 = a.new_vault_id(h);
    assert_eq!(a.vault_counter, 2);
    assert_eq!(v0.index, 1);
    // distinct kinds never collide for one transaction hash
    let mut c = substate_track::id_allocator::IdAllocator::new();
    let p = c.new_package_address(h);
    let mut d = substate_track::id_allocator::IdAllocator::new();
    let r = d.new_resource_address(h);
    assert_ne!((p.hi, p.lo), (r.hi, r.lo));
}

#[test]
fn track_allocators_and_epoch_are_exposed() {
    let store = InMemorySubstateStore::new();
    let mut track = Track::new(store, tx_hash(31));
    assert_eq!(track.current_epoch(), 0);
    assert_eq!(track.transaction_hash(), tx_hash(31));
    assert_eq!(track.new_bucket_id(), 0);
    assert_eq!(track.new_bucket_id(), 1);
    assert_eq!(track.new_proof_id(), 0);
    let c = track.new_component_address();
    let c2 = track.new_component_address();
    assert_ne!(c, c2);
    let u1 = track.new_uuid();
    let u2 = track.new_uuid();
    assert_ne!(u1, u2);
}

#[test]
fn insert_objects_stages_vaults_stores_and_children() {
    let store = InMemorySubstateStore::new();
    let mut track = Track::new(store, tx_hash(32));
    let ca = component_c1();
    let vid = substate_track::types::VaultId { hash: tx_hash(32), index: 0 };
    let kvid = KeyValueStoreId { hash: tx_hash(32), index: 1 };
    let child_ca = ComponentAddress { hi: 91, lo: 92 };
    let vault = substate_track::model::Vault::new(
        substate_track::model::ResourceContainer::new_empty(
            substate_track::types::ResourceAddress { hi: 1, lo: 2 },
            substate_track::types::ResourceType::NonFungible,
        ),
    );
    let values = vec![
        (StoredValueId::VaultId(vid), StoredValue::Vault(vault)),
        (
            StoredValueId::Component(child_ca),
            StoredValue::Component {
                component: sample_component(vec![3]),
                child_values: vec![(
                    StoredValueId::KeyValueStoreId(kvid),
                    StoredValue::KeyValueStore {
                        store: vec![(vec![1], vec![2])],
                        child_values: vec![],
                    },
                )],
            },
        ),
    ];
    track.insert_objects_into_component(values, ca);
    let receipt = track.to_receipt();
    assert_eq!(receipt.new_addresses.len(), 2);
    let ops = &receipt.substates.substate_operations;
    // one VirtualDown for the kv entry, two Ups for vault and component,
    // one Up for the entry, one VirtualUp for the new space
    assert_eq!(ops.len(), 5);
    assert!(matches!(ops[0], SubstateOperation::VirtualDown(_)));
    assert!(matches!(ops[4], SubstateOperation::VirtualUp(_)));
}
