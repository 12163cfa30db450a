use substate_track::model::ResourceContainer;
use substate_track::resource_manager::{
    MethodAccessRule, MethodAccessRuleMethod, MintParams, ResourceManager, ResourceManagerError,
};
use substate_track::track::{InMemorySubstateStore, SubstateValue, Track};
use substate_track::types::{
    AccessRule, Decimal, MethodAuthorization, Mutability, NonFungibleId, ResourceAddress,
    ResourceMethodAuthKey, ResourceType,
};

fn tx_hash(n: u128) -> substate_track::types::Hash {
    substate_track::types::Hash { hi: n, lo: n }
}

fn new_manager(rt: ResourceType) -> ResourceManager {
    ResourceManager::new(rt, Vec::new(), Vec::new()).expect("creation should succeed")
}

fn unit_value_bytes() -> Vec<u8> {
    vec![0]
}

#[test]
fn defaults_install_deny_all_locked_but_movement_is_open() {
    let rm = new_manager(ResourceType::Fungible { divisibility: 2 });
    assert_eq!(rm.get_vault_auth("take"), MethodAuthorization::AllowAll);
    assert_eq!(rm.get_vault_auth("put"), MethodAuthorization::AllowAll);
    assert_eq!(rm.get_vault_auth("amount"), MethodAuthorization::AllowAll);
    assert_eq!(rm.get_vault_auth("no_such_method"), MethodAuthorization::Unsupported);
    assert_eq!(rm.get_consuming_bucket_auth("burn"), MethodAuthorization::DenyAll);
    assert_eq!(rm.get_consuming_bucket_auth("total_supply"), MethodAuthorization::AllowAll);
    assert_eq!(rm.total_supply(), Decimal(0));
    assert_eq!(rm.resource_type(), ResourceType::Fungible { divisibility: 2 });
}

#[test]
fn auth_overrides_replace_the_defaults() {
    let rm = ResourceManager::new(
        ResourceType::Fungible { divisibility: 0 },
        vec![(String::from("name"), String::from("gold"))],
        vec![(
            ResourceMethodAuthKey::Mint,
            (AccessRule::AllowAll, Mutability::MUTABLE(AccessRule::AllowAll)),
        )],
    )
    .expect("creation should succeed");
    assert_eq!(rm.get_consuming_bucket_auth("mint"), MethodAuthorization::AllowAll);
    assert_eq!(rm.metadata().len(), 1);
    // update_auth asks for the targeted rule's own guard
    assert_eq!(rm.get_auth("update_auth", &vec![0u8, 0u8]), MethodAuthorization::AllowAll);
    assert_eq!(rm.get_auth("lock_auth", &vec![1u8]), MethodAuthorization::DenyAll);
    assert_eq!(rm.get_auth("total_supply", &Vec::new()), MethodAuthorization::AllowAll);
}

#[test]
fn invalid_divisibility_is_rejected() {
    match ResourceManager::new(ResourceType::Fungible { divisibility: 19 }, Vec::new(), Vec::new())
    {
        Err(ResourceManagerError::InvalidDivisibility) => {}
        other => panic!("expected the divisibility error, got {:?}", other),
    }
}

#[test]
fn mint_fungible_grows_supply_and_fills_a_container() {
    let mut rm = new_manager(ResourceType::Fungible { divisibility: 18 });
    let amount = Decimal(5);
    let addr = ResourceAddress { hi: 1, lo: 2 };
    match rm.mint_fungible(amount, addr) {
        Ok(ResourceContainer::Fungible { resource_address, divisibility, liquid_amount }) => {
            assert_eq!(resource_address, addr);
            assert_eq!(divisibility, 18);
            assert_eq!(liquid_amount, Decimal(5));
        }
        other => panic!("expected a fungible container, got {:?}", other),
    }
    assert_eq!(rm.total_supply(), Decimal(5));
    rm.burn(Decimal(5));
    assert_eq!(rm.total_supply(), Decimal(0));
}

#[test]
fn mint_over_the_per_call_cap_is_rejected() {
    let mut rm = new_manager(ResourceType::Fungible { divisibility: 0 });
    let amount = Decimal::from_units(100_000_000_001);
    match rm.mint_fungible(amount, ResourceAddress { hi: 1, lo: 2 }) {
        Err(ResourceManagerError::MaxMintAmountExceeded) => {}
        other => panic!("expected the cap error, got {:?}", other),
    }
    assert_eq!(rm.total_supply(), Decimal(0));
}

#[test]
fn misaligned_or_negative_amounts_are_rejected() {
    let mut rm = new_manager(ResourceType::Fungible { divisibility: 0 });
    match rm.mint_fungible(Decimal(1), ResourceAddress { hi: 1, lo: 2 }) {
        Err(ResourceManagerError::InvalidAmount(a, d)) => {
            assert_eq!(a, Decimal(1));
            assert_eq!(d, 0);
        }
        other => panic!("expected the alignment error, got {:?}", other),
    }
    match rm.mint_fungible(Decimal(-1_000_000_000_000_000_000), ResourceAddress { hi: 1, lo: 2 })
    {
        Err(ResourceManagerError::InvalidAmount(..)) => {}
        other => panic!("expected the negativity error, got {:?}", other),
    }
    assert_eq!(rm.total_supply(), Decimal(0));
}

#[test]
fn mint_fungible_on_a_non_fungible_resource_is_rejected() {
    let mut rm = new_manager(ResourceType::NonFungible);
    match rm.mint_fungible(Decimal(0), ResourceAddress { hi: 1, lo: 2 }) {
        Err(ResourceManagerError::ResourceTypeDoesNotMatch) => {}
        other => panic!("expected the type error, got {:?}", other),
    }
}

fn fresh_nf_resource(track: &mut Track<InMemorySubstateStore>) -> (ResourceManager, ResourceAddress)
{
    let rm = new_manager(ResourceType::NonFungible);
    let addr = track.create_uuid_value(SubstateValue::Resource(rm));
    let ra = match addr {
        substate_track::track::Address::Resource(ra) => ra,
        other => panic!("expected a resource address, got {:?}", other),
    };
    (new_manager(ResourceType::NonFungible), ra)
}

#[test]
fn duplicate_non_fungible_mint_changes_nothing() {
    let store = InMemorySubstateStore::new();
    let mut track = Track::new(store, tx_hash(50));
    let (mut rm, ra) = fresh_nf_resource(&mut track);
    let first = vec![(NonFungibleId(vec![b'a']), (unit_value_bytes(), unit_value_bytes()))];
    assert!(rm.mint_non_fungibles(first, ra, &mut track).is_ok());
    let supply_after_first = rm.total_supply();
    assert_eq!(supply_after_first, Decimal(1_000_000_000_000_000_000));
    let again = vec![
        (NonFungibleId(vec![b'a']), (unit_value_bytes(), unit_value_bytes())),
        (NonFungibleId(vec![b'b']), (unit_value_bytes(), unit_value_bytes())),
    ];
    match rm.mint_non_fungibles(again, ra, &mut track) {
        Err(ResourceManagerError::NonFungibleAlreadyExists(a)) => {
            assert_eq!(a.resource_address, ra);
            assert_eq!(a.non_fungible_id, NonFungibleId(vec![b'a']));
        }
        other => panic!("expected the duplicate error, got {:?}", other),
    }
    assert_eq!(rm.total_supply(), supply_after_first);
}

#[test]
fn non_fungible_data_must_not_reference_containers() {
    let store = InMemorySubstateStore::new();
    let mut track = Track::new(store, tx_hash(51));
    let (mut rm, ra) = fresh_nf_resource(&mut track);
    // a bucket reference inside the immutable half
    let leaking = vec![(NonFungibleId(vec![1]), (vec![16, 1, 0, 0, 0], unit_value_bytes()))];
    match rm.mint_non_fungibles(leaking, ra, &mut track) {
        Err(ResourceManagerError::InvalidNonFungibleData) => {}
        other => panic!("expected the leak error, got {:?}", other),
    }
    // malformed bytes are rejected the same way
    let malformed = vec![(NonFungibleId(vec![2]), (vec![255], unit_value_bytes()))];
    match rm.mint_non_fungibles(malformed, ra, &mut track) {
        Err(ResourceManagerError::InvalidNonFungibleData) => {}
        other => panic!("expected the malformed-data error, got {:?}", other),
    }
    assert_eq!(rm.total_supply(), Decimal(0));
}

#[test]
fn successful_non_fungible_mint_writes_every_entry() {
    let store = InMemorySubstateStore::new();
    let mut track = Track::new(store, tx_hash(52));
    let (mut rm, ra) = fresh_nf_resource(&mut track);
    let entries = vec![
        (NonFungibleId(vec![1]), (unit_value_bytes(), vec![2, 1])),
        (NonFungibleId(vec![2]), (unit_value_bytes(), unit_value_bytes())),
    ];
    match rm.mint_non_fungibles(entries, ra, &mut track) {
        Ok(ResourceContainer::NonFungible { resource_address, liquid_ids }) => {
            assert_eq!(resource_address, ra);
            assert_eq!(liquid_ids, vec![NonFungibleId(vec![1]), NonFungibleId(vec![2])]);
        }
        other => panic!("expected a non-fungible container, got {:?}", other),
    }
    assert_eq!(rm.total_supply(), Decimal(2_000_000_000_000_000_000));
    let nfa = substate_track::types::NonFungibleAddress::new(ra, NonFungibleId(vec![1]));
    match track.get_non_fungible(&nfa) {
        Some(nf) => {
            assert_eq!(nf.immutable_data, unit_value_bytes());
            assert_eq!(nf.mutable_data, vec![2, 1]);
        }
        None => panic!("expected the minted non-fungible"),
    }
}

#[test]
fn locking_an_access_rule_freezes_it() {
    let mut rule =
        MethodAccessRule::new((AccessRule::DenyAll, Mutability::MUTABLE(AccessRule::AllowAll)));
    assert_eq!(rule.get_method_auth(), MethodAuthorization::DenyAll);
    assert_eq!(
        rule.get_update_auth(MethodAccessRuleMethod::Update(AccessRule::AllowAll)),
        MethodAuthorization::AllowAll
    );
    assert!(rule.main(MethodAccessRuleMethod::Lock()).is_ok());
    assert_eq!(
        rule.get_update_auth(MethodAccessRuleMethod::Update(AccessRule::AllowAll)),
        MethodAuthorization::DenyAll
    );
    assert_eq!(
        rule.get_update_auth(MethodAccessRuleMethod::Lock()),
        MethodAuthorization::DenyAll
    );
    // the guard now denies; the rule itself is unchanged
    assert_eq!(rule.get_method_auth(), MethodAuthorization::DenyAll);
}

#[test]
fn updating_an_unlocked_rule_replaces_the_call_rule() {
    let mut rule =
        MethodAccessRule::new((AccessRule::DenyAll, Mutability::MUTABLE(AccessRule::AllowAll)));
    assert!(rule.main(MethodAccessRuleMethod::Update(AccessRule::AllowAll)).is_ok());
    assert_eq!(rule.get_method_auth(), MethodAuthorization::AllowAll);
    assert_eq!(
        rule.get_update_auth(MethodAccessRuleMethod::Lock()),
        MethodAuthorization::AllowAll
    );
}

#[test]
fn update_metadata_replaces_wholesale() {
    let mut rm = new_manager(ResourceType::NonFungible);
    assert!(rm
        .update_metadata(vec![(String::from("k"), String::from("v"))])
        .is_ok());
    assert_eq!(rm.metadata()[0].0, "k");
    assert_eq!(rm.metadata()[0].1, "v");
}

#[test]
fn mint_dispatches_by_request_kind() {
    let store = InMemorySubstateStore::new();
    let mut track = Track::new(store, tx_hash(53));
    let mut rm = new_manager(ResourceType::Fungible { divisibility: 18 });
    let addr = ResourceAddress { hi: 9, lo: 9 };
    match rm.mint(MintParams::Fungible { amount: Decimal(7) }, addr, &mut track) {
        Ok(ResourceContainer::Fungible { liquid_amount, .. }) => {
            assert_eq!(liquid_amount, Decimal(7))
        }
        other => panic!("expected a fungible container, got {:?}", other),
    }
    match rm.mint(MintParams::NonFungible { entries: Vec::new() }, addr, &mut track) {
        Err(ResourceManagerError::ResourceTypeDoesNotMatch) => {}
        other => panic!("expected the type error, got {:?}", other),
    }
}

fn stage_manager(
    track: &mut Track<InMemorySubstateStore>,
    rt: ResourceType,
) -> ResourceAddress {
    let rm = new_manager(rt);
    match track.create_uuid_value(SubstateValue::Resource(rm)) {
        substate_track::track::Address::Resource(ra) => ra,
        other => panic!("expected a resource address, got {:?}", other),
    }
}

#[test]
fn dispatch_answers_queries_and_rejects_unknown_methods() {
    let store = InMemorySubstateStore::new();
    let mut track = Track::new(store, tx_hash(70));
    let ra = stage_manager(&mut track, ResourceType::Fungible { divisibility: 4 });
    match ResourceManager::main(ra, "resource_type", &Vec::new(), &mut track) {
        Ok(substate_track::resource_manager::MethodOutput::ResourceTypeValue(rt)) => {
            assert_eq!(rt, ResourceType::Fungible { divisibility: 4 })
        }
        other => panic!("expected the resource type, got {:?}", other),
    }
    match ResourceManager::main(ra, "total_supply", &Vec::new(), &mut track) {
        Ok(substate_track::resource_manager::MethodOutput::SupplyValue(s)) => {
            assert_eq!(s, Decimal(0))
        }
        other => panic!("expected the supply, got {:?}", other),
    }
    match ResourceManager::main(ra, "no_such_method", &Vec::new(), &mut track) {
        Err(ResourceManagerError::InvalidMethod) => {}
        other => panic!("expected the method error, got {:?}", other),
    }
}

#[test]
fn dispatch_runs_auth_transitions_and_metadata_updates() {
    let store = InMemorySubstateStore::new();
    let mut track = Track::new(store, tx_hash(71));
    let ra = stage_manager(&mut track, ResourceType::Fungible { divisibility: 0 });
    // update the mint rule, then lock it
    assert!(ResourceManager::main(ra, "update_auth", &vec![0u8, 0u8], &mut track).is_ok());
    assert!(ResourceManager::main(ra, "lock_auth", &vec![0u8], &mut track).is_ok());
    // replace the metadata with one pair: count 1, "a" -> "b"
    let mut arg = 1u32.to_le_bytes().to_vec();
    arg.extend_from_slice(&1u32.to_le_bytes());
    arg.push(b'a');
    arg.extend_from_slice(&1u32.to_le_bytes());
    arg.push(b'b');
    assert!(ResourceManager::main(ra, "update_metadata", &arg, &mut track).is_ok());
    match ResourceManager::main(ra, "metadata", &Vec::new(), &mut track) {
        Ok(substate_track::resource_manager::MethodOutput::MetadataValue(md)) => {
            assert_eq!(md, vec![(String::from("a"), String::from("b"))])
        }
        other => panic!("expected the metadata, got {:?}", other),
    }
    // the staged manager saw both changes
    match track.borrow_global_value(substate_track::track::Address::Resource(ra)) {
        Ok(SubstateValue::Resource(rm)) => {
            assert_eq!(
                rm.get_auth("update_auth", &vec![0u8, 0u8]),
                MethodAuthorization::DenyAll
            );
            assert_eq!(rm.get_consuming_bucket_auth("mint"), MethodAuthorization::AllowAll);
        }
        other => panic!("expected the manager, got {:?}", other),
    }
}

#[test]
fn dispatch_mints_and_serves_non_fungible_data() {
    let store = InMemorySubstateStore::new();
    let mut track = Track::new(store, tx_hash(72));
    let ra = stage_manager(&mut track, ResourceType::NonFungible);
    // mint one entry with id "n"
    let mut arg = vec![1u8];
    arg.extend_from_slice(&1u32.to_le_bytes());
    arg.extend_from_slice(&1u32.to_le_bytes());
    arg.push(b'n');
    arg.extend_from_slice(&1u32.to_le_bytes());
    arg.push(0u8);
    arg.extend_from_slice(&1u32.to_le_bytes());
    arg.push(0u8);
    match ResourceManager::main(ra, "mint", &arg, &mut track) {
        Ok(substate_track::resource_manager::MethodOutput::BucketValue(_, b)) => {
            match b.container {
                ResourceContainer::NonFungible { liquid_ids, .. } => {
                    assert_eq!(liquid_ids.len(), 1)
                }
                other => panic!("expected non-fungible units, got {:?}", other),
            }
        }
        other => panic!("expected a bucket, got {:?}", other),
    }
    let mut id_arg = 1u32.to_le_bytes().to_vec();
    id_arg.push(b'n');
    match ResourceManager::main(ra, "non_fungible_exists", &id_arg, &mut track) {
        Ok(substate_track::resource_manager::MethodOutput::BoolValue(true)) => {}
        other => panic!("expected presence, got {:?}", other),
    }
    // replace the mutable half
    let mut upd = id_arg.clone();
    upd.extend_from_slice(&1u32.to_le_bytes());
    upd.push(0u8);
    assert!(ResourceManager::main(ra, "update_non_fungible_data", &upd, &mut track).is_ok());
    match ResourceManager::main(ra, "non_fungible_data", &id_arg, &mut track) {
        Ok(substate_track::resource_manager::MethodOutput::DataValue(imm, mu)) => {
            assert_eq!(imm, vec![0u8]);
            assert_eq!(mu, vec![0u8]);
        }
        other => panic!("expected the data halves, got {:?}", other),
    }
    // an unknown id is reported as missing
    let mut ghost_id = 1u32.to_le_bytes().to_vec();
    ghost_id.push(b'q');
    match ResourceManager::main(ra, "non_fungible_data", &ghost_id, &mut track) {
        Err(ResourceManagerError::NonFungibleNotFound(_)) => {}
        other => panic!("expected the missing-id error, got {:?}", other),
    }
}

#[test]
fn dispatch_hands_out_empty_vaults_and_buckets() {
    let store = InMemorySubstateStore::new();
    let mut track = Track::new(store, tx_hash(73));
    let ra = stage_manager(&mut track, ResourceType::Fungible { divisibility: 1 });
    match ResourceManager::main(ra, "create_vault", &Vec::new(), &mut track) {
        Ok(substate_track::resource_manager::MethodOutput::VaultValue(vid, v)) => {
            assert_eq!(vid.index, 0);
            match v.container {
                ResourceContainer::Fungible { liquid_amount, .. } => {
                    assert_eq!(liquid_amount, Decimal(0))
                }
                other => panic!("expected an empty container, got {:?}", other),
            }
        }
        other => panic!("expected a vault, got {:?}", other),
    }
    match ResourceManager::main(ra, "create_bucket", &Vec::new(), &mut track) {
        Ok(substate_track::resource_manager::MethodOutput::BucketValue(bid, _)) => {
            assert_eq!(bid, 0)
        }
        other => panic!("expected a bucket, got {:?}", other),
    }
}
