use substate_track::ecdsa::{EcdsaPrivateKey, EcdsaPublicKey, EcdsaSignature};
use substate_track::model::{Component, ResourceContainer, ValidatedPackage, Vault};
use substate_track::resource_manager::{ResourceManager, ResourceManagerError};
use substate_track::track::{Address, InMemorySubstateStore, SubstateValue, Track};
use substate_track::types::{
    Decimal, NonFungible, PackageAddress, ResourceAddress, ResourceType,
};
use substate_track::value_codec::{dec_substate_value, encode_substate_value, to_twos_complement};

fn tx_hash(n: u128) -> substate_track::types::Hash {
    substate_track::types::Hash { hi: n, lo: n }
}

fn push_u32(out: &mut Vec<u8>, v: u32) {
    out.extend_from_slice(&v.to_le_bytes());
}

fn push_prefixed(out: &mut Vec<u8>, b: &[u8]) {
    push_u32(out, b.len() as u32);
    out.extend_from_slice(b);
}

#[test]
fn substate_payloads_survive_a_codec_round_trip() {
    let samples: Vec<SubstateValue> = vec![
        SubstateValue::Package(ValidatedPackage::new(vec![1, 2, 3])),
        SubstateValue::Component(Component::new(
            PackageAddress { hi: 1, lo: 2 },
            String::from("blueprint"),
            vec![9, 8],
        )),
        SubstateValue::Vault(Vault::new(ResourceContainer::new_fungible(
            ResourceAddress { hi: 3, lo: 4 },
            5,
            Decimal(-7),
        ))),
        SubstateValue::NonFungible(Some(NonFungible::new(vec![1], vec![2]))),
        SubstateValue::NonFungible(None),
        SubstateValue::KeyValueStoreEntry(Some(vec![1, 1])),
        SubstateValue::KeyValueStoreEntry(None),
        SubstateValue::Resource(
            ResourceManager::new(
                ResourceType::Fungible { divisibility: 3 },
                vec![(String::from("name"), String::from("tok"))],
                Vec::new(),
            )
            .expect("creation should succeed"),
        ),
    ];
    for v in samples {
        let bytes = encode_substate_value(&v);
        let back = dec_substate_value(&bytes).expect("decoding its own encoding must succeed");
        assert_eq!(format!("{:?}", back), format!("{:?}", v));
    }
}

#[test]
fn truncated_payloads_are_rejected() {
    let v = SubstateValue::Package(ValidatedPackage::new(vec![1, 2, 3]));
    let mut bytes = encode_substate_value(&v);
    bytes.pop();
    assert!(dec_substate_value(&bytes).is_none());
    assert!(dec_substate_value(&vec![99]).is_none());
    assert!(dec_substate_value(&Vec::new()).is_none());
}

#[test]
fn twos_complement_is_an_involution() {
    for raw in [0i128, 1, -1, i128::MAX, i128::MIN, 1_000_000_000_000_000_000] {
        let u = to_twos_complement(raw);
        assert_eq!(substate_track::value_codec::from_twos_complement(u), raw);
    }
}

#[test]
fn address_encodings_are_distinct_across_kinds() {
    let r = ResourceAddress { hi: 1, lo: 2 };
    let nf = Address::NonFungibleSet(r);
    let plain = Address::Resource(r);
    assert_ne!(plain.encode(), nf.encode());
    let mut expected = plain.encode();
    expected.push(0u8);
    assert_eq!(nf.encode(), expected);
}

#[test]
fn hex_round_trips_and_rejects_bad_digits() {
    let key = EcdsaPrivateKey(vec![0xab; 32]);
    let hex = key.to_hex();
    assert_eq!(hex, "ab".repeat(32));
    let back = EcdsaPrivateKey::from_hex(&hex).expect("well-formed hex must parse");
    assert_eq!(back, key);
    match EcdsaPrivateKey::from_hex("zz") {
        Err(substate_track::ecdsa::ParseEcdsaPrivateKeyError::InvalidHex(s)) => {
            assert_eq!(s, "zz")
        }
        other => panic!("expected the hex error, got {:?}", other),
    }
    match EcdsaPrivateKey::from_hex("abcd") {
        Err(substate_track::ecdsa::ParseEcdsaPrivateKeyError::InvalidLength(2)) => {}
        other => panic!("expected the length error, got {:?}", other),
    }
}

#[test]
fn placeholder_signatures_embed_and_recover_the_public_key() {
    let key = EcdsaPrivateKey(vec![7; 32]);
    let public = key.public_key();
    assert_eq!(public.0.len(), 33);
    let h = tx_hash(60);
    let signature = key.sign(&h);
    assert_eq!(signature.0.len(), 65);
    let recovered = signature.validate(&h).expect("validation cannot fail");
    assert_eq!(recovered, public);
    assert_eq!(EcdsaPublicKey::try_from_slice(&public.to_vec()).unwrap(), public);
    assert_eq!(EcdsaSignature::try_from_slice(&signature.to_vec()).unwrap(), signature);
    match EcdsaSignature::try_from_slice(&[1, 2, 3]) {
        Err(substate_track::ecdsa::ParseEcdsaSignatureError::InvalidLength(3)) => {}
        other => panic!("expected the length error, got {:?}", other),
    }
}

fn minimal_create_arg(mint: Option<(bool, Vec<u8>)>) -> Vec<u8> {
    // fungible resource with divisibility zero, no metadata, no overrides
    let mut arg = vec![0u8, 0u8];
    push_u32(&mut arg, 0); // metadata count
    push_u32(&mut arg, 0); // auth override count
    match mint {
        None => arg.push(0u8),
        Some((fungible, payload)) => {
            arg.push(1u8);
            arg.push(if fungible { 0u8 } else { 1u8 });
            arg.extend_from_slice(&payload);
        }
    }
    arg
}

#[test]
fn static_main_rejects_unknown_methods_and_bad_arguments() {
    let store = InMemorySubstateStore::new();
    let mut track = Track::new(store, tx_hash(61));
    match ResourceManager::static_main("burn", &Vec::new(), &mut track) {
        Err(ResourceManagerError::InvalidMethod) => {}
        other => panic!("expected the method error, got {:?}", other),
    }
    match ResourceManager::static_main("create", &vec![9, 9, 9], &mut track) {
        Err(ResourceManagerError::InvalidRequestData(_)) => {}
        other => panic!("expected the decode error, got {:?}", other),
    }
}

#[test]
fn static_main_creates_and_mints_into_a_bucket() {
    let store = InMemorySubstateStore::new();
    let mut track = Track::new(store, tx_hash(62));
    // no initial supply: an address and no bucket
    let arg = minimal_create_arg(None);
    let (addr, bucket) = ResourceManager::static_main("create", &arg, &mut track).expect("create must succeed");
    assert!(bucket.is_none());
    // initial supply of three whole units
    let raw: i128 = 3_000_000_000_000_000_000;
    let payload = to_twos_complement(raw).to_le_bytes().to_vec();
    let arg2 = minimal_create_arg(Some((true, payload)));
    let (addr2, bucket2) = ResourceManager::static_main("create", &arg2, &mut track).expect("create must succeed");
    assert_ne!(addr, addr2);
    let (bucket_id, bucket2) = bucket2.expect("a bucket must come back");
    assert_eq!(bucket_id, 0);
    match bucket2.container {
        ResourceContainer::Fungible { resource_address, liquid_amount, .. } => {
            assert_eq!(resource_address, addr2);
            assert_eq!(liquid_amount, Decimal(raw));
        }
        other => panic!("expected a fungible container, got {:?}", other),
    }
    // the staged manager carries the minted supply
    match track.borrow_global_value(Address::Resource(addr2)) {
        Ok(SubstateValue::Resource(rm)) => assert_eq!(rm.total_supply(), Decimal(raw)),
        other => panic!("expected the staged manager, got {:?}", other),
    }
}

#[test]
fn static_main_creates_non_fungibles_with_initial_entries() {
    let store = InMemorySubstateStore::new();
    let mut track = Track::new(store, tx_hash(63));
    let mut arg = vec![1u8]; // non-fungible resource type
    push_u32(&mut arg, 0); // metadata count
    push_u32(&mut arg, 0); // auth override count
    arg.push(1u8); // mint params present
    arg.push(1u8); // non-fungible entries
    push_u32(&mut arg, 1);
    push_prefixed(&mut arg, &[b'x']); // id
    push_prefixed(&mut arg, &[0]); // immutable half: the unit value
    push_prefixed(&mut arg, &[0]); // mutable half: the unit value
    let (addr, bucket) = ResourceManager::static_main("create", &arg, &mut track).expect("create must succeed");
    let (_, bucket) = bucket.expect("a bucket must come back");
    match bucket.container {
        ResourceContainer::NonFungible { resource_address, liquid_ids } => {
            assert_eq!(resource_address, addr);
            assert_eq!(liquid_ids.len(), 1);
            assert_eq!(liquid_ids[0].0, vec![b'x']);
        }
        other => panic!("expected a non-fungible container, got {:?}", other),
    }
    let nfa = substate_track::types::NonFungibleAddress::new(
        addr,
        substate_track::types::NonFungibleId(vec![b'x']),
    );
    assert!(track.get_non_fungible(&nfa).is_some());
}
