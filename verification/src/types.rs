use vstd::prelude::*;

verus! {

/// A 32-byte transaction hash, held as two 128-bit halves so that equality
/// and byte encoding stay purely arithmetic.
#[derive(Clone, Copy, PartialEq, Eq, Structural, Debug)]
pub struct Hash {
    pub hi: u128,
    pub lo: u128,
}

/// Address of a published package.
#[derive(Clone, Copy, PartialEq, Eq, Structural, Debug)]
pub struct PackageAddress {
    pub hi: u128,
    pub lo: u128,
}

/// Address of a component instance.
#[derive(Clone, Copy, PartialEq, Eq, Structural, Debug)]
pub struct ComponentAddress {
    pub hi: u128,
    pub lo: u128,
}

/// Address of a resource kind.
#[derive(Clone, Copy, PartialEq, Eq, Structural, Debug)]
pub struct ResourceAddress {
    pub hi: u128,
    pub lo: u128,
}

/// Identifier of a vault: the allocating transaction's hash plus a per-kind counter.
#[derive(Clone, Copy, PartialEq, Eq, Structural, Debug)]
pub struct VaultId {
    pub hash: Hash,
    pub index: u32,
}

/// Identifier of a key-value store: allocating transaction's hash plus a per-kind counter.
#[derive(Clone, Copy, PartialEq, Eq, Structural, Debug)]
pub struct KeyValueStoreId {
    pub hash: Hash,
    pub index: u32,
}

/// Transient bucket identifier; never persisted.
pub type BucketId = u32;

/// Transient proof identifier; never persisted.
pub type ProofId = u32;

/// Severity of a transaction log line.
#[derive(Clone, Copy, PartialEq, Eq, Structural, Debug)]
pub enum Level {
    Error,
    Warn,
    Info,
    Debug,
    Trace,
}

/// A fixed-point decimal with 18 fractional digits, stored as its raw
/// scaled integer.
#[derive(Clone, Copy, PartialEq, Eq, Structural, Debug)]
pub struct Decimal(pub i128);

/// Number of fractional digits a `Decimal` carries.
pub const DECIMAL_SCALE: u32 = 18;

impl Decimal {
    /// The decimal representing `n` whole units.
    pub fn from_units(n: i64) -> (r: Decimal)
        ensures
            r.0 == n as int * 1_000_000_000_000_000_000,
    {
        Decimal((n as i128) * 1_000_000_000_000_000_000i128)
    }

    pub open spec fn spec_is_negative(&self) -> bool {
        self.0 < 0
    }

    #[verifier::when_used_as_spec(spec_is_negative)]
    pub fn is_negative(&self) -> (r: bool)
        ensures
            r == self.spec_is_negative(),
    {
        self.0 < 0
    }
}

/// Identifier of a single non-fungible within a resource, as opaque bytes.
#[derive(Debug, Clone, PartialEq, Eq)]
pub struct NonFungibleId(pub Vec<u8>);

impl NonFungibleId {
    pub fn duplicate(&self) -> (r: NonFungibleId)
        ensures
            r.0@ == self.0@,
    {
        NonFungibleId(crate::clone_bytes(&self.0))
    }
}

/// A non-fungible unit: the resource it belongs to plus its id.
#[derive(Debug, Clone, PartialEq, Eq)]
pub struct NonFungibleAddress {
    pub resource_address: ResourceAddress,
    pub non_fungible_id: NonFungibleId,
}

impl NonFungibleAddress {
    pub fn new(resource_address: ResourceAddress, non_fungible_id: NonFungibleId) -> (r: Self)
        ensures
            r.resource_address == resource_address,
            r.non_fungible_id == non_fungible_id,
    {
        NonFungibleAddress { resource_address, non_fungible_id }
    }

    pub fn duplicate(&self) -> (r: NonFungibleAddress)
        ensures
            r.resource_address == self.resource_address,
            r.non_fungible_id.0@ == self.non_fungible_id.0@,
    {
        NonFungibleAddress {
            resource_address: self.resource_address,
            non_fungible_id: self.non_fungible_id.duplicate(),
        }
    }
}

/// The immutable and mutable halves of a non-fungible's data.
#[derive(Debug)]
pub struct NonFungible {
    pub immutable_data: Vec<u8>,
    pub mutable_data: Vec<u8>,
}

impl NonFungible {
    pub fn new(immutable_data: Vec<u8>, mutable_data: Vec<u8>) -> (r: Self)
        ensures
            r.immutable_data == immutable_data,
            r.mutable_data == mutable_data,
    {
        NonFungible { immutable_data, mutable_data }
    }

    pub fn set_mutable_data(&mut self, data: Vec<u8>)
        ensures
            final(self).immutable_data == old(self).immutable_data,
            final(self).mutable_data == data,
    {
        self.mutable_data = data;
    }

    pub fn duplicate(&self) -> (r: NonFungible)
        ensures
            r.immutable_data@ == self.immutable_data@,
            r.mutable_data@ == self.mutable_data@,
    {
        NonFungible {
            immutable_data: crate::clone_bytes(&self.immutable_data),
            mutable_data: crate::clone_bytes(&self.mutable_data),
        }
    }
}

/// Whether a resource is fungible (with a divisibility in 0..=18) or a set
/// of non-fungibles.
#[derive(Clone, Copy, PartialEq, Eq, Structural, Debug)]
pub enum ResourceType {
    Fungible { divisibility: u8 },
    NonFungible,
}

impl ResourceType {
    pub open spec fn spec_divisibility(&self) -> u8 {
        match *self {
            ResourceType::Fungible { divisibility } => divisibility,
            ResourceType::NonFungible => 0,
        }
    }

    #[verifier::when_used_as_spec(spec_divisibility)]
    pub fn divisibility(&self) -> (r: u8)
        ensures
            r == self.spec_divisibility(),
    {
        match self {
            ResourceType::Fungible { divisibility } => *divisibility,
            ResourceType::NonFungible => 0,
        }
    }

    /// Well-formedness: a fungible divisibility never exceeds the decimal scale.
    pub open spec fn wf(&self) -> bool {
        self.spec_divisibility() <= DECIMAL_SCALE as u8
    }
}

/// A soft authorization rule, as declared by a resource creator.
#[derive(Clone, Copy, PartialEq, Eq, Structural, Debug)]
pub enum AccessRule {
    AllowAll,
    DenyAll,
    Require(ResourceAddress),
}

/// Whether a declared access rule may later be updated, and under which rule.
#[derive(Clone, Copy, PartialEq, Eq, Structural, Debug)]
#[allow(non_camel_case_types)]
pub enum Mutability {
    LOCKED,
    MUTABLE(AccessRule),
}

/// A hard authorization rule, as enforced at call time.
#[derive(Clone, Copy, PartialEq, Eq, Structural, Debug)]
pub enum MethodAuthorization {
    AllowAll,
    DenyAll,
    Unsupported,
    Protected(ResourceAddress),
}

/// Converts a soft authorization rule into the hard rule enforced at call time.
pub open spec fn spec_convert(rule: AccessRule) -> MethodAuthorization {
    match rule {
        AccessRule::AllowAll => MethodAuthorization::AllowAll,
        AccessRule::DenyAll => MethodAuthorization::DenyAll,
        AccessRule::Require(addr) => MethodAuthorization::Protected(addr),
    }
}

pub fn convert(rule: &AccessRule) -> (r: MethodAuthorization)
    ensures
        r == spec_convert(*rule),
{
    match rule {
        AccessRule::AllowAll => MethodAuthorization::AllowAll,
        AccessRule::DenyAll => MethodAuthorization::DenyAll,
        AccessRule::Require(addr) => MethodAuthorization::Protected(*addr),
    }
}

/// The six per-resource operations that authorization rules govern.
#[derive(Clone, Copy, PartialEq, Eq, Structural, Debug)]
pub enum ResourceMethodAuthKey {
    Mint,
    Burn,
    Withdraw,
    Deposit,
    UpdateMetadata,
    UpdateNonFungibleData,
}

} // verus!
