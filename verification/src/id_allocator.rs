//! Deterministic per-transaction identifier allocation.
//!
//! Every non-transient id is a pure function of the transaction hash, a
//! per-kind space tag and that kind's own counter; the counter moves by
//! exactly one per allocation.  The same transaction therefore derives the
//! same id sequence on every run, and the tags keep ids of different kinds
//! apart.

use vstd::prelude::*;

use crate::types::{ComponentAddress, KeyValueStoreId, PackageAddress, ResourceAddress, VaultId};

verus! {

pub const SPACE_TAG_PACKAGE: u8 = 1;
pub const SPACE_TAG_COMPONENT: u8 = 2;
pub const SPACE_TAG_RESOURCE: u8 = 3;
pub const SPACE_TAG_UUID: u8 = 6;

/// The high half of a derived address: the transaction hash's high half,
/// with the space tag folded in.
pub open spec fn spec_derived_hi(tx: crate::types::Hash, tag: u8) -> u128 {
    tx.hi ^ (tag as u128)
}

/// The low half of a derived address: the transaction hash's low half, with
/// the per-kind counter folded in.
pub open spec fn spec_derived_lo(tx: crate::types::Hash, counter: u32) -> u128 {
    tx.lo ^ (counter as u128)
}

/// The uuid derived for `counter`.
pub open spec fn spec_derived_uuid(tx: crate::types::Hash, counter: u32) -> u128 {
    (tx.lo ^ (SPACE_TAG_UUID as u128)) ^ (((counter as int) * 0x1_0000_0000_0000_0000) as u128)
}

/// Per-kind allocation counters.  Transient bucket and proof ids count too,
/// but their values never reach the store.
pub struct IdAllocator {
    pub package_counter: u32,
    pub component_counter: u32,
    pub resource_counter: u32,
    pub vault_counter: u32,
    pub kv_store_counter: u32,
    pub uuid_counter: u32,
    pub bucket_counter: u32,
    pub proof_counter: u32,
}

impl IdAllocator {
    pub fn new() -> (r: IdAllocator)
        ensures
            r.package_counter == 0,
            r.component_counter == 0,
            r.resource_counter == 0,
            r.vault_counter == 0,
            r.kv_store_counter == 0,
            r.uuid_counter == 0,
            r.bucket_counter == 0,
            r.proof_counter == 0,
    {
        IdAllocator {
            package_counter: 0,
            component_counter: 0,
            resource_counter: 0,
            vault_counter: 0,
            kv_store_counter: 0,
            uuid_counter: 0,
            bucket_counter: 0,
            proof_counter: 0,
        }
    }

    pub fn new_package_address(&mut self, tx: crate::types::Hash) -> (r: PackageAddress)
        requires
            old(self).package_counter < u32::MAX,
        ensures
            r == (PackageAddress {
                hi: spec_derived_hi(tx, SPACE_TAG_PACKAGE),
                lo: spec_derived_lo(tx, old(self).package_counter),
            }),
            *final(self) == (IdAllocator {
                package_counter: (old(self).package_counter + 1) as u32,
                ..*old(self)
            }),
    {
        let r = PackageAddress { hi: tx.hi ^ (SPACE_TAG_PACKAGE as u128), lo: tx.lo ^ (
        self.package_counter as u128) };
        self.package_counter = self.package_counter + 1;
        r
    }

    pub fn new_component_address(&mut self, tx: crate::types::Hash) -> (r: ComponentAddress)
        requires
            old(self).component_counter < u32::MAX,
        ensures
            r == (ComponentAddress {
                hi: spec_derived_hi(tx, SPACE_TAG_COMPONENT),
                lo: spec_derived_lo(tx, old(self).component_counter),
            }),
            *final(self) == (IdAllocator {
                component_counter: (old(self).component_counter + 1) as u32,
                ..*old(self)
            }),
    {
        let r = ComponentAddress { hi: tx.hi ^ (SPACE_TAG_COMPONENT as u128), lo: tx.lo ^ (
        self.component_counter as u128) };
        self.component_counter = self.component_counter + 1;
        r
    }

    pub fn new_resource_address(&mut self, tx: crate::types::Hash) -> (r: ResourceAddress)
        requires
            old(self).resource_counter < u32::MAX,
        ensures
            r == (ResourceAddress {
                hi: spec_derived_hi(tx, SPACE_TAG_RESOURCE),
                lo: spec_derived_lo(tx, old(self).resource_counter),
            }),
            *final(self) == (IdAllocator {
                resource_counter: (old(self).resource_counter + 1) as u32,
                ..*old(self)
            }),
    {
        let r = ResourceAddress { hi: tx.hi ^ (SPACE_TAG_RESOURCE as u128), lo: tx.lo ^ (
        self.resource_counter as u128) };
        self.resource_counter = self.resource_counter + 1;
        r
    }

    pub fn new_vault_id(&mut self, tx: crate::types::Hash) -> (r: VaultId)
        requires
            old(self).vault_counter < u32::MAX,
        ensures
            r == (VaultId { hash: tx, index: old(self).vault_counter }),
            *final(self) == (IdAllocator {
                vault_counter: (old(self).vault_counter + 1) as u32,
                ..*old(self)
            }),
    {
        let r = VaultId { hash: tx, index: self.vault_counter };
        self.vault_counter = self.vault_counter + 1;
        r
    }

    pub fn new_kv_store_id(&mut self, tx: crate::types::Hash) -> (r: KeyValueStoreId)
        requires
            old(self).kv_store_counter < u32::MAX,
        ensures
            r == (KeyValueStoreId { hash: tx, index: old(self).kv_store_counter }),
            *final(self) == (IdAllocator {
                kv_store_counter: (old(self).kv_store_counter + 1) as u32,
                ..*old(self)
            }),
    {
        let r = KeyValueStoreId { hash: tx, index: self.kv_store_counter };
        self.kv_store_counter = self.kv_store_counter + 1;
        r
    }

    pub fn new_uuid(&mut self, tx: crate::types::Hash) -> (r: u128)
        requires
            old(self).uuid_counter < u32::MAX,
        ensures
            r == spec_derived_uuid(tx, old(self).uuid_counter),
            *final(self) == (IdAllocator {
                uuid_counter: (old(self).uuid_counter + 1) as u32,
                ..*old(self)
            }),
    {
        let hi_part: u128 = (self.uuid_counter as u128) * 0x1_0000_0000_0000_0000u128;
        let r = (tx.lo ^ (SPACE_TAG_UUID as u128)) ^ hi_part;
        self.uuid_counter = self.uuid_counter + 1;
        r
    }

    pub fn new_bucket_id(&mut self) -> (r: u32)
        requires
            old(self).bucket_counter < u32::MAX,
        ensures
            r == old(self).bucket_counter,
            *final(self) == (IdAllocator {
                bucket_counter: (old(self).bucket_counter + 1) as u32,
                ..*old(self)
            }),
    {
        let r = self.bucket_counter;
        self.bucket_counter = self.bucket_counter + 1;
        r
    }

    pub fn new_proof_id(&mut self) -> (r: u32)
        requires
            old(self).proof_counter < u32::MAX,
        ensures
            r == old(self).proof_counter,
            *final(self) == (IdAllocator {
                proof_counter: (old(self).proof_counter + 1) as u32,
                ..*old(self)
            }),
    {
        let r = self.proof_counter;
        self.proof_counter = self.proof_counter + 1;
        r
    }
}

/// Ids of different kinds never collide: the space tag alone separates the
/// address families derived from one transaction hash.
pub proof fn lemma_id_spaces_disjoint(tx: crate::types::Hash, c1: u32, c2: u32)
    ensures
        spec_derived_hi(tx, SPACE_TAG_PACKAGE) != spec_derived_hi(tx, SPACE_TAG_COMPONENT),
        spec_derived_hi(tx, SPACE_TAG_PACKAGE) != spec_derived_hi(tx, SPACE_TAG_RESOURCE),
        spec_derived_hi(tx, SPACE_TAG_COMPONENT) != spec_derived_hi(tx, SPACE_TAG_RESOURCE),
        c1 != c2 ==> spec_derived_lo(tx, c1) != spec_derived_lo(tx, c2),
{
    let h = tx.hi;
    assert(h ^ (SPACE_TAG_PACKAGE as u128) != h ^ (SPACE_TAG_COMPONENT as u128) && h ^ (
    SPACE_TAG_PACKAGE as u128) != h ^ (SPACE_TAG_RESOURCE as u128) && h ^ (SPACE_TAG_COMPONENT
        as u128) != h ^ (SPACE_TAG_RESOURCE as u128)) by (bit_vector);
    let l = tx.lo;
    let a = c1 as u128;
    let b = c2 as u128;
    if c1 != c2 {
        assert(l ^ a != l ^ b) by (bit_vector)
            requires
                a != b,
        ;
    }
}

} // verus!
