//! The resource manager: the authoritative state-and-policy object for one
//! resource kind.  Every mint, burn and authorization change passes through
//! it.

use vstd::prelude::*;

use crate::types::{
    AccessRule, Decimal, MethodAuthorization, Mutability, NonFungibleAddress, ResourceAddress,
    ResourceMethodAuthKey, ResourceType, spec_convert, convert,
};
use crate::model::{ContainerView, ResourceContainer};
use crate::str_eq;

verus! {

/// The reason a byte argument failed canonical decoding.
#[derive(Clone, Copy, PartialEq, Eq, Structural, Debug)]
pub enum DecodeError {
    Malformed,
}

/// An error from a resource-manager operation.
#[derive(Debug, Clone, PartialEq)]
pub enum ResourceManagerError {
    InvalidDivisibility,
    InvalidAmount(Decimal, u8),
    InvalidResourceFlags(u64),
    InvalidMintPermission,
    ResourceTypeDoesNotMatch,
    MaxMintAmountExceeded,
    InvalidNonFungibleData,
    NonFungibleAlreadyExists(NonFungibleAddress),
    NonFungibleNotFound(NonFungibleAddress),
    InvalidRequestData(DecodeError),
    MethodNotFound(String),
    CouldNotCreateBucket,
    CouldNotCreateVault,
    InvalidMethod,
}

/// Whether a method is open to everyone or guarded by one of the six auth
/// keys.
#[derive(Clone, Copy, PartialEq, Eq, Structural, Debug)]
pub enum ResourceMethodRule {
    Public,
    Protected(ResourceMethodAuthKey),
}

/// The two transitions a method-access rule supports.
#[derive(Clone, Copy, PartialEq, Eq, Structural, Debug)]
pub enum MethodAccessRuleMethod {
    Lock(),
    Update(AccessRule),
}

/// The per-method authorization pair: the rule enforced on calls and the
/// rule guarding changes to it.
#[derive(Clone, Copy, PartialEq, Eq, Structural, Debug)]
pub struct MethodAccessRule {
    pub auth: MethodAuthorization,
    pub update_auth: MethodAuthorization,
}

/// What `MethodAccessRule::new` builds from a declared entry.
pub open spec fn spec_new_access_rule(entry: (AccessRule, Mutability)) -> MethodAccessRule {
    MethodAccessRule {
        auth: spec_convert(entry.0),
        update_auth: match entry.1 {
            Mutability::LOCKED => MethodAuthorization::DenyAll,
            Mutability::MUTABLE(method_auth) => spec_convert(method_auth),
        },
    }
}

/// The rule after `lock()`: the guard becomes `DenyAll`, the call rule stays.
pub open spec fn spec_locked(rule: MethodAccessRule) -> MethodAccessRule {
    MethodAccessRule { auth: rule.auth, update_auth: MethodAuthorization::DenyAll }
}

/// The rule after `update(new_auth)`: the call rule is replaced, the guard
/// stays.
pub open spec fn spec_updated(rule: MethodAccessRule, new_auth: AccessRule) -> MethodAccessRule {
    MethodAccessRule { auth: spec_convert(new_auth), update_auth: rule.update_auth }
}

impl MethodAccessRule {
    pub fn new(entry: (AccessRule, Mutability)) -> (r: Self)
        ensures
            r == spec_new_access_rule(entry),
    {
        MethodAccessRule {
            auth: convert(&entry.0),
            update_auth: match entry.1 {
                Mutability::LOCKED => MethodAuthorization::DenyAll,
                Mutability::MUTABLE(method_auth) => convert(&method_auth),
            },
        }
    }

    pub fn get_method_auth(&self) -> (r: MethodAuthorization)
        ensures
            r == self.auth,
    {
        self.auth
    }

    /// The guard consulted before either transition: always `update_auth`.
    pub fn get_update_auth(&self, method: MethodAccessRuleMethod) -> (r: MethodAuthorization)
        ensures
            r == self.update_auth,
    {
        match method {
            MethodAccessRuleMethod::Lock() => self.update_auth,
            MethodAccessRuleMethod::Update(_) => self.update_auth,
        }
    }

    /// Performs a transition.  The caller must already have satisfied
    /// `update_auth`; the transition itself always succeeds.
    pub fn main(&mut self, method: MethodAccessRuleMethod) -> (r: Result<
        (),
        ResourceManagerError,
    >)
        ensures
            r is Ok,
            *final(self) == match method {
                MethodAccessRuleMethod::Lock() => spec_locked(*old(self)),
                MethodAccessRuleMethod::Update(method_auth) => spec_updated(
                    *old(self),
                    method_auth,
                ),
            },
    {
        match method {
            MethodAccessRuleMethod::Lock() => self.lock(),
            MethodAccessRuleMethod::Update(method_auth) => self.update(method_auth),
        }
        Ok(())
    }

    fn update(&mut self, method_auth: AccessRule)
        ensures
            *final(self) == spec_updated(*old(self), method_auth),
    {
        self.auth = convert(&method_auth);
    }

    fn lock(&mut self)
        ensures
            *final(self) == spec_locked(*old(self)),
    {
        self.update_auth = MethodAuthorization::DenyAll;
    }
}

/// Once `lock()` has run, the guard consulted for any further `lock()` or
/// `update()` is `DenyAll`, and no later transition brings it back: a locked
/// rule is frozen.
pub proof fn lemma_lock_is_irreversible(rule: MethodAccessRule, next: MethodAccessRuleMethod)
    ensures
        spec_locked(rule).update_auth == MethodAuthorization::DenyAll,
        match next {
            MethodAccessRuleMethod::Lock() => spec_locked(spec_locked(rule)) == spec_locked(rule),
            MethodAccessRuleMethod::Update(a) => spec_updated(spec_locked(rule), a).update_auth
                == MethodAuthorization::DenyAll,
        },
{
}

/// The six method-access rules of a resource, one per auth key.
#[derive(Clone, Copy, PartialEq, Eq, Structural, Debug)]
pub struct Authorization {
    pub mint: MethodAccessRule,
    pub burn: MethodAccessRule,
    pub withdraw: MethodAccessRule,
    pub deposit: MethodAccessRule,
    pub update_metadata: MethodAccessRule,
    pub update_non_fungible_data: MethodAccessRule,
}

impl Authorization {
    pub open spec fn spec_get(&self, key: ResourceMethodAuthKey) -> MethodAccessRule {
        match key {
            ResourceMethodAuthKey::Mint => self.mint,
            ResourceMethodAuthKey::Burn => self.burn,
            ResourceMethodAuthKey::Withdraw => self.withdraw,
            ResourceMethodAuthKey::Deposit => self.deposit,
            ResourceMethodAuthKey::UpdateMetadata => self.update_metadata,
            ResourceMethodAuthKey::UpdateNonFungibleData => self.update_non_fungible_data,
        }
    }

    pub fn get(&self, key: ResourceMethodAuthKey) -> (r: MethodAccessRule)
        ensures
            r == self.spec_get(key),
    {
        match key {
            ResourceMethodAuthKey::Mint => self.mint,
            ResourceMethodAuthKey::Burn => self.burn,
            ResourceMethodAuthKey::Withdraw => self.withdraw,
            ResourceMethodAuthKey::Deposit => self.deposit,
            ResourceMethodAuthKey::UpdateMetadata => self.update_metadata,
            ResourceMethodAuthKey::UpdateNonFungibleData => self.update_non_fungible_data,
        }
    }

    pub open spec fn spec_set(&self, key: ResourceMethodAuthKey, rule: MethodAccessRule)
        -> Authorization {
        match key {
            ResourceMethodAuthKey::Mint => Authorization { mint: rule, ..*self },
            ResourceMethodAuthKey::Burn => Authorization { burn: rule, ..*self },
            ResourceMethodAuthKey::Withdraw => Authorization { withdraw: rule, ..*self },
            ResourceMethodAuthKey::Deposit => Authorization { deposit: rule, ..*self },
            ResourceMethodAuthKey::UpdateMetadata => Authorization {
                update_metadata: rule,
                ..*self
            },
            ResourceMethodAuthKey::UpdateNonFungibleData => Authorization {
                update_non_fungible_data: rule,
                ..*self
            },
        }
    }

    pub fn set(&mut self, key: ResourceMethodAuthKey, rule: MethodAccessRule)
        ensures
            *final(self) == old(self).spec_set(key, rule),
    {
        match key {
            ResourceMethodAuthKey::Mint => {
                self.mint = rule;
            },
            ResourceMethodAuthKey::Burn => {
                self.burn = rule;
            },
            ResourceMethodAuthKey::Withdraw => {
                self.withdraw = rule;
            },
            ResourceMethodAuthKey::Deposit => {
                self.deposit = rule;
            },
            ResourceMethodAuthKey::UpdateMetadata => {
                self.update_metadata = rule;
            },
            ResourceMethodAuthKey::UpdateNonFungibleData => {
                self.update_non_fungible_data = rule;
            },
        }
    }
}

/// The declared entry for `key` when creating a resource: `DenyAll, LOCKED`
/// for the guarded mutations, `AllowAll, LOCKED` for movement.
pub open spec fn spec_default_entry(key: ResourceMethodAuthKey) -> (AccessRule, Mutability) {
    match key {
        ResourceMethodAuthKey::Withdraw => (AccessRule::AllowAll, Mutability::LOCKED),
        ResourceMethodAuthKey::Deposit => (AccessRule::AllowAll, Mutability::LOCKED),
        _ => (AccessRule::DenyAll, Mutability::LOCKED),
    }
}

/// The entry that applies for `key`: the first override naming it, else the
/// default.
pub open spec fn spec_entry_for(
    overrides: Seq<(ResourceMethodAuthKey, (AccessRule, Mutability))>,
    key: ResourceMethodAuthKey,
) -> (AccessRule, Mutability)
    decreases overrides.len(),
{
    if overrides.len() == 0 {
        spec_default_entry(key)
    } else if overrides[0].0 == key {
        overrides[0].1
    } else {
        spec_entry_for(overrides.drop_first(), key)
    }
}

/// The resource manager `new` builds from its arguments.
pub open spec fn spec_rm_of(
    resource_type: ResourceType,
    metadata: Vec<(String, String)>,
    auth: Seq<(ResourceMethodAuthKey, (AccessRule, Mutability))>,
) -> ResourceManager {
    ResourceManager {
        resource_type,
        metadata,
        authorization: Authorization {
            mint: spec_initial_rule(auth, ResourceMethodAuthKey::Mint),
            burn: spec_initial_rule(auth, ResourceMethodAuthKey::Burn),
            withdraw: spec_initial_rule(auth, ResourceMethodAuthKey::Withdraw),
            deposit: spec_initial_rule(auth, ResourceMethodAuthKey::Deposit),
            update_metadata: spec_initial_rule(auth, ResourceMethodAuthKey::UpdateMetadata),
            update_non_fungible_data: spec_initial_rule(
                auth,
                ResourceMethodAuthKey::UpdateNonFungibleData,
            ),
        },
        total_supply: Decimal(0),
    }
}

/// The access rule installed for `key` at creation.
pub open spec fn spec_initial_rule(
    overrides: Seq<(ResourceMethodAuthKey, (AccessRule, Mutability))>,
    key: ResourceMethodAuthKey,
) -> MethodAccessRule {
    spec_new_access_rule(spec_entry_for(overrides, key))
}

fn entry_for(
    overrides: &Vec<(ResourceMethodAuthKey, (AccessRule, Mutability))>,
    key: ResourceMethodAuthKey,
) -> (r: (AccessRule, Mutability))
    ensures
        r == spec_entry_for(overrides@, key),
{
    let mut i: usize = 0;
    proof {
        assert(overrides@.skip(0) =~= overrides@);
    }
    while i < overrides.len()
        invariant
            i <= overrides@.len(),
            spec_entry_for(overrides@, key) == spec_entry_for(overrides@.skip(i as int), key),
        decreases overrides@.len() - i,
    {
        let (k, entry) = overrides[i];
        proof {
            assert(overrides@.skip(i as int)[0] == overrides@[i as int]);
            assert(overrides@.skip(i as int).drop_first() =~= overrides@.skip(i + 1));
        }
        if k == key {
            return entry;
        }
        i += 1;
    }
    proof {
        assert(overrides@.skip(overrides@.len() as int).len() == 0);
    }
    match key {
        ResourceMethodAuthKey::Withdraw => (AccessRule::AllowAll, Mutability::LOCKED),
        ResourceMethodAuthKey::Deposit => (AccessRule::AllowAll, Mutability::LOCKED),
        _ => (AccessRule::DenyAll, Mutability::LOCKED),
    }
}

/// The view of a resource manager: its type, metadata pairs, authorization
/// table and total supply.
pub struct RmView {
    pub resource_type: ResourceType,
    pub metadata: Seq<(Seq<char>, Seq<char>)>,
    pub authorization: Authorization,
    pub total_supply: Decimal,
}

/// The definition of a resource: its type, metadata, authorization rules and
/// supply.  The two method tables are static and live in
/// [`vault_method_rule`] and [`resource_method_rule`].
#[derive(Debug)]
pub struct ResourceManager {
    pub resource_type: ResourceType,
    pub metadata: Vec<(String, String)>,
    pub authorization: Authorization,
    pub total_supply: Decimal,
}

impl View for ResourceManager {
    type V = RmView;

    open spec fn view(&self) -> RmView {
        RmView {
            resource_type: self.resource_type,
            metadata: self.metadata@.map(|i: int, kv: (String, String)| (kv.0@, kv.1@)),
            authorization: self.authorization,
            total_supply: self.total_supply,
        }
    }
}

/// Ten to the power `n`.
pub open spec fn pow10(n: nat) -> int
    decreases n,
{
    if n == 0 {
        1
    } else {
        10 * pow10((n - 1) as nat)
    }
}

/// Computes `10^n` for `n <= 18`.
pub fn ten_pow(n: u32) -> (r: i128)
    requires
        n <= 18,
    ensures
        r == pow10(n as nat),
        r >= 1,
{
    let mut r: i128 = 1;
    let mut i: u32 = 0;
    while i < n
        invariant
            i <= n,
            n <= 18,
            r == pow10(i as nat),
            1 <= r <= 0xDE0B6B3A7640000i128,
        decreases n - i,
    {
        proof {
            lemma_pow10_bounds();
            lemma_pow10_monotone((i + 1) as nat, 18);
        }
        r = r * 10;
        i += 1;
    }
    r
}

pub proof fn lemma_pow10_bounds()
    ensures
        pow10(18) == 1_000_000_000_000_000_000,
{
    assert(pow10(0) == 1);
    assert(pow10(1) == 10);
    assert(pow10(2) == 100);
    assert(pow10(3) == 1000);
    assert(pow10(4) == 10000);
    assert(pow10(5) == 100000);
    assert(pow10(6) == 1000000);
    assert(pow10(7) == 10000000);
    assert(pow10(8) == 100000000);
    assert(pow10(9) == 1000000000);
    assert(pow10(10) == 10000000000);
    assert(pow10(11) == 100000000000);
    assert(pow10(12) == 1000000000000);
    assert(pow10(13) == 10000000000000);
    assert(pow10(14) == 100000000000000);
    assert(pow10(15) == 1000000000000000);
    assert(pow10(16) == 10000000000000000);
    assert(pow10(17) == 100000000000000000);
    assert(pow10(18) == 1000000000000000000);
}

pub proof fn lemma_pow10_monotone(a: nat, b: nat)
    requires
        a <= b,
    ensures
        1 <= pow10(a) <= pow10(b),
    decreases b,
{
    if a == b {
        if a > 0 {
            lemma_pow10_monotone((a - 1) as nat, (a - 1) as nat);
            assert(pow10(a) == 10 * pow10((a - 1) as nat));
        }
    } else {
        lemma_pow10_monotone(a, (b - 1) as nat);
        assert(pow10(b) == 10 * pow10((b - 1) as nat));
        assert(10 * pow10((b - 1) as nat) >= pow10((b - 1) as nat)) by (nonlinear_arith)
            requires
                pow10((b - 1) as nat) >= 1,
        ;
    }
}

/// The per-call mint cap, in raw decimal units: 100 billion whole units.
pub open spec fn spec_max_mint_raw() -> int {
    100_000_000_000 * pow10(18)
}

/// Why a fungible mint of `amount` fails, if it does.
pub open spec fn spec_mint_fungible_error(rt: ResourceType, amount: Decimal) -> Option<
    ResourceManagerError,
> {
    match rt {
        ResourceType::Fungible { divisibility } => {
            if amount.0 < 0 || (amount.0 as int) % pow10((18 - divisibility) as nat) != 0 {
                Some(ResourceManagerError::InvalidAmount(amount, divisibility))
            } else if amount.0 > spec_max_mint_raw() {
                Some(ResourceManagerError::MaxMintAmountExceeded)
            } else {
                None
            }
        },
        ResourceType::NonFungible => Some(ResourceManagerError::ResourceTypeDoesNotMatch),
    }
}

impl ResourceManager {
    /// Well-formedness: a valid divisibility, a non-negative supply aligned
    /// to the divisibility, and metadata that fits its length prefixes.
    pub open spec fn wf(&self) -> bool {
        &&& self.resource_type.wf()
        &&& self.total_supply.0 >= 0
        &&& (self.resource_type is Fungible ==> (self.total_supply.0 as int) % pow10(
            (18 - self.resource_type.spec_divisibility()) as nat,
        ) == 0)
    }

    /// Builds a resource manager: static method tables, defaults for the six
    /// auth keys overridden by `auth`, and zero supply.  Rejects a fungible
    /// divisibility above 18.
    pub fn new(
        resource_type: ResourceType,
        metadata: Vec<(String, String)>,
        auth: Vec<(ResourceMethodAuthKey, (AccessRule, Mutability))>,
    ) -> (r: Result<ResourceManager, ResourceManagerError>)
        ensures
            match r {
                Ok(rm) => {
                    &&& resource_type.wf()
                    &&& rm@.resource_type == resource_type
                    &&& rm@.metadata == metadata@.map(
                        |i: int, kv: (String, String)| (kv.0@, kv.1@),
                    )
                    &&& rm@.total_supply.0 == 0
                    &&& rm@.authorization.mint == spec_initial_rule(
                        auth@,
                        ResourceMethodAuthKey::Mint,
                    )
                    &&& rm@.authorization.burn == spec_initial_rule(
                        auth@,
                        ResourceMethodAuthKey::Burn,
                    )
                    &&& rm@.authorization.withdraw == spec_initial_rule(
                        auth@,
                        ResourceMethodAuthKey::Withdraw,
                    )
                    &&& rm@.authorization.deposit == spec_initial_rule(
                        auth@,
                        ResourceMethodAuthKey::Deposit,
                    )
                    &&& rm@.authorization.update_metadata == spec_initial_rule(
                        auth@,
                        ResourceMethodAuthKey::UpdateMetadata,
                    )
                    &&& rm@.authorization.update_non_fungible_data == spec_initial_rule(
                        auth@,
                        ResourceMethodAuthKey::UpdateNonFungibleData,
                    )
                    &&& rm.wf()
                    &&& rm == spec_rm_of(resource_type, metadata, auth@)
                },
                Err(e) => {
                    &&& !resource_type.wf()
                    &&& e == ResourceManagerError::InvalidDivisibility
                },
            },
    {
        match resource_type {
            ResourceType::Fungible { divisibility } => {
                if divisibility > 18 {
                    return Err(ResourceManagerError::InvalidDivisibility);
                }
            },
            ResourceType::NonFungible => {},
        }
        let ghost ghost_auth = auth@;
        let authorization = Authorization {
            mint: MethodAccessRule::new(entry_for(&auth, ResourceMethodAuthKey::Mint)),
            burn: MethodAccessRule::new(entry_for(&auth, ResourceMethodAuthKey::Burn)),
            withdraw: MethodAccessRule::new(entry_for(&auth, ResourceMethodAuthKey::Withdraw)),
            deposit: MethodAccessRule::new(entry_for(&auth, ResourceMethodAuthKey::Deposit)),
            update_metadata: MethodAccessRule::new(
                entry_for(&auth, ResourceMethodAuthKey::UpdateMetadata),
            ),
            update_non_fungible_data: MethodAccessRule::new(
                entry_for(&auth, ResourceMethodAuthKey::UpdateNonFungibleData),
            ),
        };
        proof {
            lemma_pow10_monotone(0, (18 - resource_type.spec_divisibility()) as nat);
        }
        let ghost md0 = metadata@;
        let rm = ResourceManager { resource_type, metadata, authorization, total_supply: Decimal(0) };
        proof {
            assert(resource_type.wf());
            assert(rm@.resource_type == resource_type);
            assert(rm@.metadata =~= md0.map(|i: int, kv: (String, String)| (kv.0@, kv.1@)));
            assert(rm@.total_supply.0 == 0);
            assert(rm@.authorization.mint == spec_initial_rule(ghost_auth, ResourceMethodAuthKey::Mint));
            assert(rm@.authorization.burn == spec_initial_rule(ghost_auth, ResourceMethodAuthKey::Burn));
            assert(rm@.authorization.withdraw == spec_initial_rule(ghost_auth, ResourceMethodAuthKey::Withdraw));
            assert(rm@.authorization.deposit == spec_initial_rule(ghost_auth, ResourceMethodAuthKey::Deposit));
            assert(rm@.authorization.update_metadata == spec_initial_rule(ghost_auth, ResourceMethodAuthKey::UpdateMetadata));
            assert(rm@.authorization.update_non_fungible_data == spec_initial_rule(ghost_auth, ResourceMethodAuthKey::UpdateNonFungibleData));
            assert(rm.wf());
        }
        Ok(rm)
    }

    pub fn resource_type(&self) -> (r: ResourceType)
        ensures
            r == self@.resource_type,
    {
        self.resource_type
    }

    pub fn metadata(&self) -> (r: &Vec<(String, String)>)
        ensures
            r@.map(|i: int, kv: (String, String)| (kv.0@, kv.1@)) == self@.metadata,
    {
        &self.metadata
    }

    pub fn total_supply(&self) -> (r: Decimal)
        ensures
            r == self@.total_supply,
    {
        self.total_supply
    }

    /// Checks that `amount` is non-negative and aligned to the resource's
    /// divisibility.
    fn check_amount(&self, amount: Decimal) -> (r: Result<(), ResourceManagerError>)
        requires
            self@.resource_type.wf(),
        ensures
            match r {
                Ok(()) => amount.0 >= 0 && (amount.0 as int) % pow10(
                    (18 - self@.resource_type.spec_divisibility()) as nat,
                ) == 0,
                Err(e) => {
                    &&& (amount.0 < 0 || (amount.0 as int) % pow10(
                        (18 - self@.resource_type.spec_divisibility()) as nat,
                    ) != 0)
                    &&& e == ResourceManagerError::InvalidAmount(
                        amount,
                        self@.resource_type.spec_divisibility(),
                    )
                },
            },
    {
        let divisibility = self.resource_type.divisibility();
        let p = ten_pow(18 - (divisibility as u32));
        if amount.is_negative() {
            return Err(ResourceManagerError::InvalidAmount(amount, divisibility));
        }
        let rem: u128 = (amount.0 as u128) % (p as u128);
        proof {
            assert(amount.0 as u128 == amount.0 as int);
            assert(p as u128 == p as int);
            assert(rem as int == (amount.0 as int) % (p as int));
        }
        if rem != 0 {
            Err(ResourceManagerError::InvalidAmount(amount, divisibility))
        } else {
            Ok(())
        }
    }

    /// Mints `amount` units of a fungible resource, growing the supply and
    /// returning a container holding the new units.  Fails exactly when the
    /// resource is not fungible, the amount is negative or misaligned, or
    /// the per-call cap is exceeded; on failure nothing changes.
    pub fn mint_fungible(&mut self, amount: Decimal, self_address: ResourceAddress) -> (r: Result<
        ResourceContainer,
        ResourceManagerError,
    >)
        requires
            old(self)@.resource_type.wf(),
            spec_mint_fungible_error(old(self)@.resource_type, amount) is None ==> old(
                self,
            )@.total_supply.0 + amount.0 <= i128::MAX,
        ensures
            match spec_mint_fungible_error(old(self)@.resource_type, amount) {
                Some(e) => r == Err::<ResourceContainer, _>(e) && *final(self) == *old(self),
                None => {
                    &&& r matches Ok(c) && c@ == (ContainerView::Fungible {
                        resource_address: self_address,
                        divisibility: old(self)@.resource_type.spec_divisibility(),
                        liquid_amount: amount,
                    })
                    &&& *final(self) == (ResourceManager {
                        total_supply: Decimal((old(self)@.total_supply.0 + amount.0) as i128),
                        ..*old(self)
                    })
                },
            },
    {
        match self.resource_type {
            ResourceType::Fungible { divisibility } => {
                match self.check_amount(amount) {
                    Ok(()) => {},
                    Err(e) => {
                        return Err(e);
                    },
                }
                if amount.0 > 100_000_000_000_000_000_000_000_000_000i128 {
                    proof {
                        lemma_pow10_bounds();
                    }
                    return Err(ResourceManagerError::MaxMintAmountExceeded);
                }
                proof {
                    lemma_pow10_bounds();
                }
                self.total_supply = Decimal(self.total_supply.0 + amount.0);
                Ok(ResourceContainer::new_fungible(self_address, divisibility, amount))
            },
            ResourceType::NonFungible => Err(ResourceManagerError::ResourceTypeDoesNotMatch),
        }
    }

    /// Shrinks the supply by `amount`.  The caller has already withdrawn and
    /// destroyed the units, so the amount is within the current supply.
    pub fn burn(&mut self, amount: Decimal)
        requires
            0 <= amount.0 <= old(self)@.total_supply.0,
        ensures
            final(self)@.total_supply.0 == old(self)@.total_supply.0 - amount.0,
            final(self)@.resource_type == old(self)@.resource_type,
            final(self)@.metadata == old(self)@.metadata,
            final(self)@.authorization == old(self)@.authorization,
    {
        self.total_supply = Decimal(self.total_supply.0 - amount.0);
    }

    /// Replaces the metadata wholesale.
    pub fn update_metadata(&mut self, new_metadata: Vec<(String, String)>) -> (r: Result<
        (),
        ResourceManagerError,
    >)
        ensures
            r is Ok,
            *final(self) == (ResourceManager { metadata: new_metadata, ..*old(self) }),
    {
        self.metadata = new_metadata;
        Ok(())
    }
}

/// The static method table of vaults holding this resource.
pub open spec fn spec_vault_method_rule(name: Seq<char>) -> Option<ResourceMethodRule> {
    if name == "take"@ || name == "take_non_fungibles"@ {
        Some(ResourceMethodRule::Protected(ResourceMethodAuthKey::Withdraw))
    } else if name == "put"@ {
        Some(ResourceMethodRule::Protected(ResourceMethodAuthKey::Deposit))
    } else if name == "amount"@ || name == "resource_address"@ || name == "non_fungible_ids"@
        || name == "create_proof"@ || name == "create_proof_by_amount"@ || name
        == "create_proof_by_ids"@ {
        Some(ResourceMethodRule::Public)
    } else {
        None
    }
}

/// The static method table of the resource manager itself.
pub open spec fn spec_resource_method_rule(name: Seq<char>) -> Option<ResourceMethodRule> {
    if name == "mint"@ {
        Some(ResourceMethodRule::Protected(ResourceMethodAuthKey::Mint))
    } else if name == "burn"@ {
        Some(ResourceMethodRule::Protected(ResourceMethodAuthKey::Burn))
    } else if name == "update_metadata"@ {
        Some(ResourceMethodRule::Protected(ResourceMethodAuthKey::UpdateMetadata))
    } else if name == "update_non_fungible_data"@ {
        Some(ResourceMethodRule::Protected(ResourceMethodAuthKey::UpdateNonFungibleData))
    } else if name == "create_bucket"@ || name == "metadata"@ || name == "resource_type"@ || name
        == "total_supply"@ || name == "create_vault"@ || name == "non_fungible_exists"@ || name
        == "non_fungible_data"@ {
        Some(ResourceMethodRule::Public)
    } else {
        None
    }
}

fn vault_method_rule(name: &str) -> (r: Option<ResourceMethodRule>)
    ensures
        r == spec_vault_method_rule(name@),
{
    if str_eq(name, "take") || str_eq(name, "take_non_fungibles") {
        Some(ResourceMethodRule::Protected(ResourceMethodAuthKey::Withdraw))
    } else if str_eq(name, "put") {
        Some(ResourceMethodRule::Protected(ResourceMethodAuthKey::Deposit))
    } else if str_eq(name, "amount") || str_eq(name, "resource_address") || str_eq(
        name,
        "non_fungible_ids",
    ) || str_eq(name, "create_proof") || str_eq(name, "create_proof_by_amount") || str_eq(
        name,
        "create_proof_by_ids",
    ) {
        Some(ResourceMethodRule::Public)
    } else {
        None
    }
}

fn resource_method_rule(name: &str) -> (r: Option<ResourceMethodRule>)
    ensures
        r == spec_resource_method_rule(name@),
{
    if str_eq(name, "mint") {
        Some(ResourceMethodRule::Protected(ResourceMethodAuthKey::Mint))
    } else if str_eq(name, "burn") {
        Some(ResourceMethodRule::Protected(ResourceMethodAuthKey::Burn))
    } else if str_eq(name, "update_metadata") {
        Some(ResourceMethodRule::Protected(ResourceMethodAuthKey::UpdateMetadata))
    } else if str_eq(name, "update_non_fungible_data") {
        Some(ResourceMethodRule::Protected(ResourceMethodAuthKey::UpdateNonFungibleData))
    } else if str_eq(name, "create_bucket") || str_eq(name, "metadata") || str_eq(
        name,
        "resource_type",
    ) || str_eq(name, "total_supply") || str_eq(name, "create_vault") || str_eq(
        name,
        "non_fungible_exists",
    ) || str_eq(name, "non_fungible_data") {
        Some(ResourceMethodRule::Public)
    } else {
        None
    }
}

/// The authorization a method rule resolves to against a given table.
pub open spec fn spec_resolve_rule(
    auth: Authorization,
    rule: Option<ResourceMethodRule>,
) -> MethodAuthorization {
    match rule {
        None => MethodAuthorization::Unsupported,
        Some(ResourceMethodRule::Public) => MethodAuthorization::AllowAll,
        Some(ResourceMethodRule::Protected(key)) => auth.spec_get(key).auth,
    }
}

impl ResourceManager {
    /// Resolves the authorization for a vault method.
    pub fn get_vault_auth(&self, method_name: &str) -> (r: MethodAuthorization)
        ensures
            r == spec_resolve_rule(self@.authorization, spec_vault_method_rule(method_name@)),
    {
        match vault_method_rule(method_name) {
            None => MethodAuthorization::Unsupported,
            Some(ResourceMethodRule::Public) => MethodAuthorization::AllowAll,
            Some(ResourceMethodRule::Protected(key)) => self.authorization.get(
                key,
            ).get_method_auth(),
        }
    }

    /// Resolves the authorization for consuming a bucket of this resource.
    pub fn get_consuming_bucket_auth(&self, method_name: &str) -> (r: MethodAuthorization)
        ensures
            r == spec_resolve_rule(self@.authorization, spec_resource_method_rule(method_name@)),
    {
        match resource_method_rule(method_name) {
            None => MethodAuthorization::Unsupported,
            Some(ResourceMethodRule::Public) => MethodAuthorization::AllowAll,
            Some(ResourceMethodRule::Protected(key)) => self.authorization.get(
                key,
            ).get_method_auth(),
        }
    }
}

} // verus!

verus! {

/// What a mint request carries: an amount for fungibles, the new entries
/// (id, immutable data, mutable data) for non-fungibles.
#[derive(Debug)]
pub enum MintParams {
    Fungible { amount: Decimal },
    NonFungible { entries: Vec<(crate::types::NonFungibleId, (Vec<u8>, Vec<u8>))> },
}

/// Whether one prospective entry cannot be minted against this track state:
/// its id already exists, or either data half is malformed or leaks a
/// container reference.
pub open spec fn nf_entry_bad(
    t: crate::track::TrackState,
    e: (crate::types::NonFungibleId, (Vec<u8>, Vec<u8>)),
    self_address: ResourceAddress,
) -> bool {
    ||| crate::track::ts_get_nf(t, self_address, e.0.0@) is Some
    ||| !crate::values::valid_nf_data(e.1.0@)
    ||| !crate::values::valid_nf_data(e.1.1@)
}

/// The least entry index that cannot be minted, or `-1`.
pub open spec fn first_bad_nf_entry(
    t: crate::track::TrackState,
    entries: Seq<(crate::types::NonFungibleId, (Vec<u8>, Vec<u8>))>,
    self_address: ResourceAddress,
) -> int
    decreases entries.len(),
{
    if entries.len() == 0 {
        -1
    } else if nf_entry_bad(t, entries[0], self_address) {
        0
    } else {
        let r = first_bad_nf_entry(t, entries.drop_first(), self_address);
        if r < 0 {
            -1
        } else {
            r + 1
        }
    }
}

pub proof fn lemma_first_bad_nf_entry(
    t: crate::track::TrackState,
    entries: Seq<(crate::types::NonFungibleId, (Vec<u8>, Vec<u8>))>,
    self_address: ResourceAddress,
)
    ensures
        first_bad_nf_entry(t, entries, self_address) == -1 ==> forall|j: int|
            0 <= j < entries.len() ==> !nf_entry_bad(t, #[trigger] entries[j], self_address),
        first_bad_nf_entry(t, entries, self_address) >= 0 ==> ({
            let b = first_bad_nf_entry(t, entries, self_address);
            &&& b < entries.len()
            &&& nf_entry_bad(t, entries[b], self_address)
            &&& forall|j: int| 0 <= j < b ==> !nf_entry_bad(t, #[trigger] entries[j], self_address)
        }),
    decreases entries.len(),
{
    if entries.len() > 0 && !nf_entry_bad(t, entries[0], self_address) {
        lemma_first_bad_nf_entry(t, entries.drop_first(), self_address);
        let r = first_bad_nf_entry(t, entries.drop_first(), self_address);
        if r >= 0 {
            assert(entries[first_bad_nf_entry(t, entries, self_address)] == entries.drop_first()[
                r
            ]);
            assert forall|j: int|
                0 <= j < first_bad_nf_entry(t, entries, self_address) implies !nf_entry_bad(
                t,
                #[trigger] entries[j],
                self_address,
            ) by {
                if j > 0 {
                    assert(entries[j] == entries.drop_first()[j - 1]);
                }
            }
        } else {
            assert forall|j: int| 0 <= j < entries.len() implies !nf_entry_bad(
                t,
                #[trigger] entries[j],
                self_address,
            ) by {
                if j > 0 {
                    assert(entries[j] == entries.drop_first()[j - 1]);
                }
            }
        }
    }
}

/// The track state after writing every new non-fungible, front first.
pub open spec fn ts_mint_nf_writes(
    t: crate::track::TrackState,
    entries: Seq<(crate::types::NonFungibleId, (Vec<u8>, Vec<u8>))>,
    self_address: ResourceAddress,
) -> crate::track::TrackState
    decreases entries.len(),
{
    if entries.len() == 0 {
        t
    } else {
        ts_mint_nf_writes(
            crate::track::ts_set_key_value(
                t,
                crate::track::Address::NonFungibleSet(self_address),
                entries[0].0.0@,
                crate::track::SubstateValue::NonFungible(
                    Some(
                        crate::types::NonFungible {
                            immutable_data: entries[0].1.0,
                            mutable_data: entries[0].1.1,
                        },
                    ),
                ),
            ),
            entries.drop_first(),
            self_address,
        )
    }
}

/// The preconditions minting needs from the track: reads resolve, the
/// non-fungible space is known, and no involved key is borrowed.
pub open spec fn mint_nf_track_ok(
    t: crate::track::TrackState,
    entries: Seq<(crate::types::NonFungibleId, (Vec<u8>, Vec<u8>))>,
    self_address: ResourceAddress,
) -> bool {
    let parent = crate::track::Address::NonFungibleSet(self_address);
    &&& crate::track::ts_wf(t)
    &&& crate::track::store_ok(t.store)
    &&& (crate::seq_index_of(t.spaces, crate::track::spec_enc_address(parent)) >= 0
        || t.store_spaces.contains_key(crate::track::spec_enc_address(parent)))
    &&& forall|j: int|
        0 <= j < entries.len() ==> crate::track::nf_read_ok(
            t,
            self_address,
            (#[trigger] entries[j]).0.0@,
        )
    &&& forall|j: int|
        0 <= j < entries.len() ==> crate::track::key_unborrowed(
            t,
            crate::track::spec_enc_address(parent) + (#[trigger] entries[j]).0.0@,
        )
}

} // verus!

verus! {

impl ResourceManager {
    /// Mints new non-fungibles.  Every entry is validated against the track
    /// before anything is written: a duplicate id or leaking data rejects
    /// the whole request and changes nothing.
    #[verifier::rlimit(100)]
    pub fn mint_non_fungibles<S: crate::track::ReadableSubstateStore>(
        &mut self,
        entries: Vec<(crate::types::NonFungibleId, (Vec<u8>, Vec<u8>))>,
        self_address: ResourceAddress,
        track: &mut crate::track::Track<S>,
    ) -> (r: Result<ResourceContainer, ResourceManagerError>)
        requires
            old(self)@.resource_type is NonFungible && entries@.len() <= 100_000_000_000
                ==> mint_nf_track_ok(old(track).model(), entries@, self_address),
            forall|a: int, b: int|
                0 <= a < b < entries@.len() ==> (#[trigger] entries@[a]).0.0@ != (
                #[trigger] entries@[b]).0.0@,
            (old(self)@.resource_type is NonFungible && entries@.len() <= 100_000_000_000
                && first_bad_nf_entry(old(track).model(), entries@, self_address) == -1) ==> old(
                self,
            )@.total_supply.0 + entries@.len() * 1_000_000_000_000_000_000 <= i128::MAX,
        ensures
            ({
                let t0 = old(track).model();
                if !(old(self)@.resource_type is NonFungible) {
                    &&& r == Err::<ResourceContainer, _>(
                        ResourceManagerError::ResourceTypeDoesNotMatch,
                    )
                    &&& *final(self) == *old(self)
                    &&& final(track).model() == t0
                } else if entries@.len() > 100_000_000_000 {
                    &&& r == Err::<ResourceContainer, _>(
                        ResourceManagerError::MaxMintAmountExceeded,
                    )
                    &&& *final(self) == *old(self)
                    &&& final(track).model() == t0
                } else {
                    let b = first_bad_nf_entry(t0, entries@, self_address);
                    if b >= 0 {
                        &&& *final(self) == *old(self)
                        &&& final(track).model() == t0
                        &&& if crate::track::ts_get_nf(
                            t0,
                            self_address,
                            entries@[b].0.0@,
                        ) is Some {
                            r matches Err(e) && e matches
                                ResourceManagerError::NonFungibleAlreadyExists(a)
                                && a.resource_address == self_address && a.non_fungible_id.0@
                                == entries@[b].0.0@
                        } else {
                            r == Err::<ResourceContainer, _>(
                                ResourceManagerError::InvalidNonFungibleData,
                            )
                        }
                    } else {
                        &&& r matches Ok(c) && c@ == (ContainerView::NonFungible {
                            resource_address: self_address,
                            liquid_ids: entries@.map(
                                |i: int, e: (crate::types::NonFungibleId, (Vec<u8>, Vec<u8>))|
                                    e.0.0@,
                            ),
                        })
                        &&& *final(self) == (ResourceManager {
                            total_supply: Decimal(
                                (old(self)@.total_supply.0 + entries@.len()
                                    * 1_000_000_000_000_000_000) as i128,
                            ),
                            ..*old(self)
                        })
                        &&& final(track).model() == ts_mint_nf_writes(t0, entries@, self_address)
                        &&& final(track).wf()
                    }
                }
            }),
    {
        let ghost t0 = track.model();
        match self.resource_type {
            ResourceType::NonFungible => {},
            _ => {
                return Err(ResourceManagerError::ResourceTypeDoesNotMatch);
            },
        }
        if entries.len() as u64 > 100_000_000_000u64 {
            return Err(ResourceManagerError::MaxMintAmountExceeded);
        }
        let ghost all = entries@;
        let mut j: usize = 0;
        while j < entries.len()
            invariant
                j <= all.len(),
                entries@ == all,
                all.len() <= 100_000_000_000,
                t0 == old(track).model(),
                *self == *old(self),
                old(self)@.resource_type is NonFungible,
                mint_nf_track_ok(t0, all, self_address),
                track.model() == t0,
                track.wf(),
                forall|k: int| 0 <= k < j ==> !nf_entry_bad(t0, #[trigger] all[k], self_address),
            decreases all.len() - j,
        {
            let e = &entries[j];
            let nfa = crate::types::NonFungibleAddress::new(
                self_address,
                crate::types::NonFungibleId(crate::clone_bytes(&e.0.0)),
            );
            let existing = track.get_non_fungible(&nfa);
            match existing {
                Some(_) => {
                    proof {
                        lemma_first_bad_nf_entry(t0, all, self_address);
                        assert(nf_entry_bad(t0, all[j as int], self_address));
                        assert(first_bad_nf_entry(t0, all, self_address) == j as int);
                    }
                    return Err(ResourceManagerError::NonFungibleAlreadyExists(nfa));
                },
                None => {},
            }
            if !crate::values::check_nf_data(&e.1.0) || !crate::values::check_nf_data(&e.1.1) {
                proof {
                    lemma_first_bad_nf_entry(t0, all, self_address);
                    assert(nf_entry_bad(t0, all[j as int], self_address));
                    assert(first_bad_nf_entry(t0, all, self_address) == j as int);
                }
                return Err(ResourceManagerError::InvalidNonFungibleData);
            }
            proof {
                assert(crate::track::ts_get_nf(t0, self_address, all[j as int].0.0@) is None);
                assert(!nf_entry_bad(t0, all[j as int], self_address));
            }
            j += 1;
        }
        proof {
            lemma_first_bad_nf_entry(t0, all, self_address);
            assert(first_bad_nf_entry(t0, all, self_address) == -1);
            lemma_pow10_bounds();
        }
        let amount_raw: i128 = (entries.len() as i128) * 1_000_000_000_000_000_000i128;
        self.total_supply = Decimal(self.total_supply.0 + amount_raw);
        let mut rest = entries;
        let mut ids: Vec<crate::types::NonFungibleId> = Vec::new();
        let ghost n = all.len() as int;
        proof {
            assert(ids@.map(|i: int, id: crate::types::NonFungibleId| id.0@) =~= all.map(
                |i: int, e: (crate::types::NonFungibleId, (Vec<u8>, Vec<u8>))| e.0.0@,
            ).take(0));
        }
        let ghost parent_key = crate::track::spec_enc_address(
            crate::track::Address::NonFungibleSet(self_address),
        );
        while rest.len() > 0
            invariant
                rest@ == all.skip(n - rest@.len()),
                rest@.len() <= all.len(),
                n == all.len(),
                parent_key == crate::track::spec_enc_address(
                    crate::track::Address::NonFungibleSet(self_address),
                ),
                crate::seq_index_of(t0.spaces, parent_key) >= 0 || t0.store_spaces.contains_key(
                    parent_key,
                ),
                forall|j: int|
                    0 <= j < all.len() ==> crate::track::key_unborrowed(
                        t0,
                        parent_key + (#[trigger] all[j]).0.0@,
                    ),
                track.wf(),
                ts_mint_nf_writes(t0, all, self_address) == ts_mint_nf_writes(
                    track.model(),
                    rest@,
                    self_address,
                ),
                track.model().spaces == t0.spaces,
                track.model().store == t0.store,
                track.model().store_spaces == t0.store_spaces,
                track.model().borrow_table == t0.borrow_table,
                track.model().mut_borrows == t0.mut_borrows,
                ids@.map(|i: int, id: crate::types::NonFungibleId| id.0@) == all.map(
                    |i: int, e: (crate::types::NonFungibleId, (Vec<u8>, Vec<u8>))| e.0.0@,
                ).take(n - rest@.len()),
            decreases rest@.len(),
        {
            let ghost rest0 = rest@;
            let ghost k = n - rest@.len();
            let ghost cur = track.model();
            let (id, (imm, mutd)) = rest.remove(0);
            proof {
                assert(rest0[0] == all[k]);
                assert(rest@ =~= all.skip(k + 1));
                assert(rest0.drop_first() =~= rest@);
            }
            let nfa = crate::types::NonFungibleAddress::new(self_address, id.duplicate());
            let value = crate::types::NonFungible::new(imm, mutd);
            proof {
                let parent = crate::track::Address::NonFungibleSet(self_address);
                assert(crate::track::set_key_allowed(cur, parent, nfa.non_fungible_id.0@));
                assert(crate::track::key_unborrowed(
                    t0,
                    crate::track::spec_enc_address(parent) + all[k].0.0@,
                ));
            }
            track.set_non_fungible(nfa, Some(value));
            ids.push(id);
            proof {
                let parent = crate::track::Address::NonFungibleSet(self_address);
                assert(track.model() == crate::track::ts_set_key_value(
                    cur,
                    parent,
                    all[k].0.0@,
                    crate::track::SubstateValue::NonFungible(
                        Some(
                            crate::types::NonFungible {
                                immutable_data: all[k].1.0,
                                mutable_data: all[k].1.1,
                            },
                        ),
                    ),
                ));
                assert(ts_mint_nf_writes(cur, rest0, self_address) == ts_mint_nf_writes(
                    track.model(),
                    rest@,
                    self_address,
                ));
                let f = |i: int, id: crate::types::NonFungibleId| id.0@;
                let g = |i: int, e: (crate::types::NonFungibleId, (Vec<u8>, Vec<u8>))| e.0.0@;
                assert(ids@.map(f) =~= all.map(g).take(k).push(all[k].0.0@));
                assert(all.map(g).take(k + 1) =~= all.map(g).take(k).push(all.map(g)[k]));
            }
        }
        proof {
            assert(all.skip(n - 0) =~= Seq::<
                (crate::types::NonFungibleId, (Vec<u8>, Vec<u8>)),
            >::empty());
            assert(ts_mint_nf_writes(track.model(), rest@, self_address) == track.model());
            let f = |i: int, id: crate::types::NonFungibleId| id.0@;
            let g = |i: int, e: (crate::types::NonFungibleId, (Vec<u8>, Vec<u8>))| e.0.0@;
            assert(all.map(g).take(n) =~= all.map(g));
            assert(entries@.map(
                |i: int, e: (crate::types::NonFungibleId, (Vec<u8>, Vec<u8>))| e.0.0@,
            ) =~= all.map(g));
        }
        let container = ResourceContainer::new_non_fungible(self_address, ids);
        proof {
            assert(container@->NonFungible_liquid_ids =~= all.map(
                |i: int, e: (crate::types::NonFungibleId, (Vec<u8>, Vec<u8>))| e.0.0@,
            ));
        }
        Ok(container)
    }

    /// Mints per the request's kind.
    pub fn mint<S: crate::track::ReadableSubstateStore>(
        &mut self,
        mint_params: MintParams,
        self_address: ResourceAddress,
        track: &mut crate::track::Track<S>,
    ) -> (r: Result<ResourceContainer, ResourceManagerError>)
        requires
            old(self)@.resource_type.wf(),
            mint_params matches MintParams::Fungible { amount } ==> (spec_mint_fungible_error(
                old(self)@.resource_type,
                amount,
            ) is None ==> old(self)@.total_supply.0 + amount.0 <= i128::MAX),
            mint_params matches MintParams::NonFungible { entries } ==> ({
                &&& (old(self)@.resource_type is NonFungible && entries@.len() <= 100_000_000_000
                    ==> mint_nf_track_ok(old(track).model(), entries@, self_address))
                &&& forall|a: int, b: int|
                    0 <= a < b < entries@.len() ==> (#[trigger] entries@[a]).0.0@ != (
                    #[trigger] entries@[b]).0.0@
                &&& ((old(self)@.resource_type is NonFungible && entries@.len()
                    <= 100_000_000_000 && first_bad_nf_entry(
                    old(track).model(),
                    entries@,
                    self_address,
                ) == -1) ==> old(self)@.total_supply.0 + entries@.len()
                    * 1_000_000_000_000_000_000 <= i128::MAX)
            }),
        ensures
            match mint_params {
                MintParams::Fungible { amount } => ({
                    final(track).model() == old(track).model() && match spec_mint_fungible_error(
                        old(self)@.resource_type,
                        amount,
                    ) {
                        Some(e) => r == Err::<ResourceContainer, _>(e) && *final(self) == *old(
                            self,
                        ),
                        None => {
                            &&& r matches Ok(c) && c@ == (ContainerView::Fungible {
                                resource_address: self_address,
                                divisibility: old(self)@.resource_type.spec_divisibility(),
                                liquid_amount: amount,
                            })
                            &&& *final(self) == (ResourceManager {
                                total_supply: Decimal(
                                    (old(self)@.total_supply.0 + amount.0) as i128,
                                ),
                                ..*old(self)
                            })
                        },
                    }
                }),
                MintParams::NonFungible { entries } => mint_nf_result_ok(
                    *old(self),
                    *final(self),
                    old(track).model(),
                    final(track).model(),
                    entries@,
                    self_address,
                    r,
                ),
            },
    {
        match mint_params {
            MintParams::Fungible { amount } => self.mint_fungible(amount, self_address),
            MintParams::NonFungible { entries } => self.mint_non_fungibles(
                entries,
                self_address,
                track,
            ),
        }
    }
}

/// The non-fungible mint contract, shared by `mint` and its callers.
pub open spec fn mint_nf_result_ok(
    pre_rm: ResourceManager,
    post_rm: ResourceManager,
    t0: crate::track::TrackState,
    t1: crate::track::TrackState,
    entries: Seq<(crate::types::NonFungibleId, (Vec<u8>, Vec<u8>))>,
    self_address: ResourceAddress,
    r: Result<ResourceContainer, ResourceManagerError>,
) -> bool {
    if !(pre_rm@.resource_type is NonFungible) {
        &&& r == Err::<ResourceContainer, _>(ResourceManagerError::ResourceTypeDoesNotMatch)
        &&& post_rm == pre_rm
        &&& t1 == t0
    } else if entries.len() > 100_000_000_000 {
        &&& r == Err::<ResourceContainer, _>(ResourceManagerError::MaxMintAmountExceeded)
        &&& post_rm == pre_rm
        &&& t1 == t0
    } else {
        let b = first_bad_nf_entry(t0, entries, self_address);
        if b >= 0 {
            &&& post_rm == pre_rm
            &&& t1 == t0
            &&& if crate::track::ts_get_nf(t0, self_address, entries[b].0.0@) is Some {
                r matches Err(e) && e matches ResourceManagerError::NonFungibleAlreadyExists(a)
                    && a.resource_address == self_address && a.non_fungible_id.0@
                    == entries[b].0.0@
            } else {
                r == Err::<ResourceContainer, _>(ResourceManagerError::InvalidNonFungibleData)
            }
        } else {
            &&& r matches Ok(c) && c@ == (ContainerView::NonFungible {
                resource_address: self_address,
                liquid_ids: entries.map(
                    |i: int, e: (crate::types::NonFungibleId, (Vec<u8>, Vec<u8>))| e.0.0@,
                ),
            })
            &&& post_rm == (ResourceManager {
                total_supply: Decimal(
                    (pre_rm@.total_supply.0 + entries.len() * 1_000_000_000_000_000_000) as i128,
                ),
                ..pre_rm
            })
            &&& t1 == ts_mint_nf_writes(t0, entries, self_address)
            &&& crate::track::ts_wf(t1)
        }
    }
}

} // verus!

verus! {

/// Parses an auth key byte.
pub open spec fn p_auth_key(s: Seq<u8>, pos: int) -> Option<(ResourceMethodAuthKey, int)> {
    if 0 <= pos < s.len() {
        if s[pos] == 0 {
            Some((ResourceMethodAuthKey::Mint, pos + 1))
        } else if s[pos] == 1 {
            Some((ResourceMethodAuthKey::Burn, pos + 1))
        } else if s[pos] == 2 {
            Some((ResourceMethodAuthKey::Withdraw, pos + 1))
        } else if s[pos] == 3 {
            Some((ResourceMethodAuthKey::Deposit, pos + 1))
        } else if s[pos] == 4 {
            Some((ResourceMethodAuthKey::UpdateMetadata, pos + 1))
        } else if s[pos] == 5 {
            Some((ResourceMethodAuthKey::UpdateNonFungibleData, pos + 1))
        } else {
            None
        }
    } else {
        None
    }
}

/// The decoded argument of `update_auth`: the target key and the new rule.
pub open spec fn spec_dec_update_auth_input(s: Seq<u8>) -> Option<(
    ResourceMethodAuthKey,
    AccessRule,
)> {
    match p_auth_key(s, 0) {
        Some((key, p1)) => match crate::value_codec::p_access_rule(s, p1) {
            Some((rule, p2)) => {
                if p2 == s.len() {
                    Some((key, rule))
                } else {
                    None
                }
            },
            None => None,
        },
        None => None,
    }
}

/// The decoded argument of `lock_auth`: the target key.
pub open spec fn spec_dec_lock_auth_input(s: Seq<u8>) -> Option<ResourceMethodAuthKey> {
    match p_auth_key(s, 0) {
        Some((key, p1)) => {
            if p1 == s.len() {
                Some(key)
            } else {
                None
            }
        },
        None => None,
    }
}

fn dec_auth_key(bytes: &Vec<u8>, pos: usize) -> (r: Option<(ResourceMethodAuthKey, usize)>)
    ensures
        match r {
            Some((k, p)) => p_auth_key(bytes@, pos as int) == Some((k, p as int)) && pos < p
                <= bytes@.len(),
            None => p_auth_key(bytes@, pos as int) is None,
        },
{
    let len = bytes.len();
    if pos >= len {
        return None;
    }
    let tag = bytes[pos];
    if tag == 0 {
        Some((ResourceMethodAuthKey::Mint, pos + 1))
    } else if tag == 1 {
        Some((ResourceMethodAuthKey::Burn, pos + 1))
    } else if tag == 2 {
        Some((ResourceMethodAuthKey::Withdraw, pos + 1))
    } else if tag == 3 {
        Some((ResourceMethodAuthKey::Deposit, pos + 1))
    } else if tag == 4 {
        Some((ResourceMethodAuthKey::UpdateMetadata, pos + 1))
    } else if tag == 5 {
        Some((ResourceMethodAuthKey::UpdateNonFungibleData, pos + 1))
    } else {
        None
    }
}

/// Decodes an `update_auth` argument.
pub fn dec_update_auth_input(bytes: &Vec<u8>) -> (r: Option<(ResourceMethodAuthKey, AccessRule)>)
    ensures
        r == spec_dec_update_auth_input(bytes@),
{
    match dec_auth_key(bytes, 0) {
        Some((key, p1)) => {
            match crate::value_codec::dec_access_rule(bytes, p1) {
                Some((rule, p2)) => {
                    if p2 == bytes.len() {
                        Some((key, rule))
                    } else {
                        None
                    }
                },
                None => None,
            }
        },
        None => None,
    }
}

/// Decodes a `lock_auth` argument.
pub fn dec_lock_auth_input(bytes: &Vec<u8>) -> (r: Option<ResourceMethodAuthKey>)
    ensures
        r == spec_dec_lock_auth_input(bytes@),
{
    match dec_auth_key(bytes, 0) {
        Some((key, p1)) => {
            if p1 == bytes.len() {
                Some(key)
            } else {
                None
            }
        },
        None => None,
    }
}

impl ResourceManager {
    /// Resolves the authorization an invocation must satisfy.  The two
    /// auth-management methods are guarded by the targeted rule's own
    /// update guard; everything else resolves through the method table.
    pub fn get_auth(&self, method_name: &str, arg: &Vec<u8>) -> (r: MethodAuthorization)
        requires
            method_name@ == "update_auth"@ ==> spec_dec_update_auth_input(arg@) is Some,
            method_name@ == "lock_auth"@ ==> spec_dec_lock_auth_input(arg@) is Some,
        ensures
            r == if method_name@ == "update_auth"@ {
                self@.authorization.spec_get((spec_dec_update_auth_input(arg@)->0).0).update_auth
            } else if method_name@ == "lock_auth"@ {
                self@.authorization.spec_get(spec_dec_lock_auth_input(arg@)->0).update_auth
            } else {
                spec_resolve_rule(self@.authorization, spec_resource_method_rule(method_name@))
            },
    {
        if str_eq(method_name, "update_auth") {
            match dec_update_auth_input(arg) {
                Some((key, access_rule)) => {
                    let entry = self.authorization.get(key);
                    entry.get_update_auth(MethodAccessRuleMethod::Update(access_rule))
                },
                None => vstd::pervasive::unreached(),
            }
        } else if str_eq(method_name, "lock_auth") {
            match dec_lock_auth_input(arg) {
                Some(key) => {
                    let entry = self.authorization.get(key);
                    entry.get_update_auth(MethodAccessRuleMethod::Lock())
                },
                None => vstd::pervasive::unreached(),
            }
        } else {
            self.get_consuming_bucket_auth(method_name)
        }
    }
}

} // verus!

verus! {

/// The decoded argument of `create`.
#[derive(Debug)]
pub struct ResourceManagerCreateInput {
    pub resource_type: ResourceType,
    pub metadata: Vec<(String, String)>,
    pub access_rules: Vec<(ResourceMethodAuthKey, (AccessRule, Mutability))>,
    pub mint_params: Option<MintParams>,
}

/// The view of a mint request.
pub enum MintParamsView {
    Fungible { amount: Decimal },
    NonFungible { entries: Seq<(Seq<u8>, (Seq<u8>, Seq<u8>))> },
}

impl View for MintParams {
    type V = MintParamsView;

    open spec fn view(&self) -> MintParamsView {
        match self {
            MintParams::Fungible { amount } => MintParamsView::Fungible { amount: *amount },
            MintParams::NonFungible { entries } => MintParamsView::NonFungible {
                entries: entries@.map(
                    |i: int, e: (crate::types::NonFungibleId, (Vec<u8>, Vec<u8>))| (
                        e.0.0@,
                        (e.1.0@, e.1.1@),
                    ),
                ),
            },
        }
    }
}

/// The view of a `create` argument.
pub struct CreateInputView {
    pub resource_type: ResourceType,
    pub metadata: Seq<(Seq<char>, Seq<char>)>,
    pub access_rules: Seq<(ResourceMethodAuthKey, (AccessRule, Mutability))>,
    pub mint_params: Option<MintParamsView>,
}

impl View for ResourceManagerCreateInput {
    type V = CreateInputView;

    open spec fn view(&self) -> CreateInputView {
        CreateInputView {
            resource_type: self.resource_type,
            metadata: crate::value_codec::md_view(self.metadata@),
            access_rules: self.access_rules@,
            mint_params: match self.mint_params {
                Some(mp) => Some(mp@),
                None => None,
            },
        }
    }
}

/// Parses a declared mutability.
pub open spec fn p_mutability(s: Seq<u8>, pos: int) -> Option<(Mutability, int)> {
    if 0 <= pos < s.len() {
        if s[pos] == 0 {
            Some((Mutability::LOCKED, pos + 1))
        } else if s[pos] == 1 {
            match crate::value_codec::p_access_rule(s, pos + 1) {
                Some((rule, p2)) => Some((Mutability::MUTABLE(rule), p2)),
                None => None,
            }
        } else {
            None
        }
    } else {
        None
    }
}

/// Parses `n` auth-override entries.
pub open spec fn p_auth_entries(s: Seq<u8>, pos: int, n: nat) -> Option<(
    Seq<(ResourceMethodAuthKey, (AccessRule, Mutability))>,
    int,
)>
    decreases n,
{
    if n == 0 {
        Some((Seq::empty(), pos))
    } else {
        match p_auth_key(s, pos) {
            Some((key, p1)) => match crate::value_codec::p_access_rule(s, p1) {
                Some((rule, p2)) => match p_mutability(s, p2) {
                    Some((m, p3)) => match p_auth_entries(s, p3, (n - 1) as nat) {
                        Some((rest, p4)) => Some((seq![(key, (rule, m))] + rest, p4)),
                        None => None,
                    },
                    None => None,
                },
                None => None,
            },
            None => None,
        }
    }
}

/// Parses `n` prospective non-fungible entries.
pub open spec fn p_nf_mint_items(s: Seq<u8>, pos: int, n: nat) -> Option<(
    Seq<(Seq<u8>, (Seq<u8>, Seq<u8>))>,
    int,
)>
    decreases n,
{
    if n == 0 {
        Some((Seq::empty(), pos))
    } else {
        match crate::value_codec::p_bytes(s, pos) {
            Some((id, p1)) => match crate::value_codec::p_bytes(s, p1) {
                Some((imm, p2)) => match crate::value_codec::p_bytes(s, p2) {
                    Some((mu, p3)) => match p_nf_mint_items(s, p3, (n - 1) as nat) {
                        Some((rest, p4)) => Some((seq![(id, (imm, mu))] + rest, p4)),
                        None => None,
                    },
                    None => None,
                },
                None => None,
            },
            None => None,
        }
    }
}

/// Parses an optional mint request.
pub open spec fn p_mint_params(s: Seq<u8>, pos: int) -> Option<(Option<MintParamsView>, int)> {
    if 0 <= pos < s.len() {
        if s[pos] == 0 {
            Some((None, pos + 1))
        } else if s[pos] == 1 {
            if pos + 1 < s.len() {
                if s[pos + 1] == 0 {
                    match crate::value_codec::p_decimal(s, pos + 2) {
                        Some((amount, p2)) => Some(
                            (Some(MintParamsView::Fungible { amount }), p2),
                        ),
                        None => None,
                    }
                } else if s[pos + 1] == 1 {
                    match crate::value_codec::p_le(s, pos + 2, 4) {
                        Some((n, p2)) => match p_nf_mint_items(s, p2, n as nat) {
                            Some((entries, p3)) => Some(
                                (Some(MintParamsView::NonFungible { entries }), p3),
                            ),
                            None => None,
                        },
                        None => None,
                    }
                } else {
                    None
                }
            } else {
                None
            }
        } else {
            None
        }
    } else {
        None
    }
}

/// The `create` argument a byte string canonically denotes.
pub open spec fn spec_dec_create_input(s: Seq<u8>) -> Option<CreateInputView> {
    match crate::value_codec::p_resource_type(s, 0) {
        Some((resource_type, p1)) => match crate::value_codec::p_metadata(s, p1) {
            Some((metadata, p2)) => match crate::value_codec::p_le(s, p2, 4) {
                Some((n, p3)) => match p_auth_entries(s, p3, n as nat) {
                    Some((access_rules, p4)) => match p_mint_params(s, p4) {
                        Some((mint_params, p5)) => {
                            if p5 == s.len() {
                                Some(
                                    CreateInputView {
                                        resource_type,
                                        metadata,
                                        access_rules,
                                        mint_params,
                                    },
                                )
                            } else {
                                None
                            }
                        },
                        None => None,
                    },
                    None => None,
                },
                None => None,
            },
            None => None,
        },
        None => None,
    }
}

fn dec_mutability(bytes: &Vec<u8>, pos: usize) -> (r: Option<(Mutability, usize)>)
    ensures
        match r {
            Some((m, p)) => p_mutability(bytes@, pos as int) == Some((m, p as int)) && pos < p
                <= bytes@.len(),
            None => p_mutability(bytes@, pos as int) is None,
        },
{
    let len = bytes.len();
    if pos >= len {
        return None;
    }
    let tag = bytes[pos];
    if tag == 0 {
        Some((Mutability::LOCKED, pos + 1))
    } else if tag == 1 {
        match crate::value_codec::dec_access_rule(bytes, pos + 1) {
            Some((rule, p2)) => Some((Mutability::MUTABLE(rule), p2)),
            None => None,
        }
    } else {
        None
    }
}

fn dec_auth_entries(bytes: &Vec<u8>, pos: usize, n: u32) -> (r: Option<(
    Vec<(ResourceMethodAuthKey, (AccessRule, Mutability))>,
    usize,
)>)
    requires
        pos <= bytes@.len(),
    ensures
        match r {
            Some((v, p)) => p_auth_entries(bytes@, pos as int, n as nat) == Some(
                (v@, p as int),
            ) && pos <= p <= bytes@.len(),
            None => p_auth_entries(bytes@, pos as int, n as nat) is None,
        },
    decreases n,
{
    if n == 0 {
        let out: Vec<(ResourceMethodAuthKey, (AccessRule, Mutability))> = Vec::new();
        proof {
            assert(out@ =~= Seq::<(ResourceMethodAuthKey, (AccessRule, Mutability))>::empty());
        }
        return Some((out, pos));
    }
    if let Some((key, p1)) = dec_auth_key(bytes, pos) {
        if let Some((rule, p2)) = crate::value_codec::dec_access_rule(bytes, p1) {
            if let Some((m, p3)) = dec_mutability(bytes, p2) {
                if let Some((mut rest, p4)) = dec_auth_entries(bytes, p3, n - 1) {
                    let ghost rest0 = rest@;
                    let mut out: Vec<(ResourceMethodAuthKey, (AccessRule, Mutability))> =
                        Vec::new();
                    out.push((key, (rule, m)));
                    out.append(&mut rest);
                    proof {
                        assert(out@ =~= seq![(key, (rule, m))] + rest0);
                    }
                    return Some((out, p4));
                }
            }
        }
    }
    None
}

fn dec_nf_mint_items(bytes: &Vec<u8>, pos: usize, n: u32) -> (r: Option<(
    Vec<(crate::types::NonFungibleId, (Vec<u8>, Vec<u8>))>,
    usize,
)>)
    requires
        pos <= bytes@.len(),
    ensures
        match r {
            Some((v, p)) => p_nf_mint_items(bytes@, pos as int, n as nat) == Some(
                (
                    v@.map(
                        |i: int, e: (crate::types::NonFungibleId, (Vec<u8>, Vec<u8>))| (
                            e.0.0@,
                            (e.1.0@, e.1.1@),
                        ),
                    ),
                    p as int,
                ),
            ) && pos <= p <= bytes@.len(),
            None => p_nf_mint_items(bytes@, pos as int, n as nat) is None,
        },
    decreases n,
{
    let ghost f = |i: int, e: (crate::types::NonFungibleId, (Vec<u8>, Vec<u8>))| (
        e.0.0@,
        (e.1.0@, e.1.1@),
    );
    if n == 0 {
        let out: Vec<(crate::types::NonFungibleId, (Vec<u8>, Vec<u8>))> = Vec::new();
        proof {
            assert(out@.map(f) =~= Seq::<(Seq<u8>, (Seq<u8>, Seq<u8>))>::empty());
        }
        return Some((out, pos));
    }
    if let Some((id, p1)) = crate::value_codec::dec_bytes(bytes, pos) {
        if let Some((imm, p2)) = crate::value_codec::dec_bytes(bytes, p1) {
            if let Some((mu, p3)) = crate::value_codec::dec_bytes(bytes, p2) {
                if let Some((mut rest, p4)) = dec_nf_mint_items(bytes, p3, n - 1) {
                    let ghost rest0 = rest@;
                    let ghost idv = id@;
                    let ghost immv = imm@;
                    let ghost muv = mu@;
                    let mut out: Vec<(crate::types::NonFungibleId, (Vec<u8>, Vec<u8>))> =
                        Vec::new();
                    out.push((crate::types::NonFungibleId(id), (imm, mu)));
                    out.append(&mut rest);
                    proof {
                        assert(out@.map(f) =~= seq![(idv, (immv, muv))] + rest0.map(f));
                    }
                    return Some((out, p4));
                }
            }
        }
    }
    None
}

fn dec_mint_params(bytes: &Vec<u8>, pos: usize) -> (r: Option<(Option<MintParams>, usize)>)
    ensures
        match r {
            Some((mp, p)) => ({
                let w = match mp {
                    Some(m) => Some(m@),
                    None => None,
                };
                p_mint_params(bytes@, pos as int) == Some((w, p as int)) && pos < p
                    <= bytes@.len()
            }),
            None => p_mint_params(bytes@, pos as int) is None,
        },
{
    let len = bytes.len();
    if pos >= len {
        return None;
    }
    let tag = bytes[pos];
    if tag == 0 {
        return Some((None, pos + 1));
    }
    if tag != 1 {
        return None;
    }
    if pos + 1 >= len {
        return None;
    }
    let kind = bytes[pos + 1];
    if kind == 0 {
        match crate::value_codec::dec_decimal(bytes, pos + 2) {
            Some((amount, p2)) => Some((Some(MintParams::Fungible { amount }), p2)),
            None => None,
        }
    } else if kind == 1 {
        match crate::value_codec::dec_le(bytes, pos + 2, 4) {
            Some((n, p2)) => {
                proof {
                    crate::codec::lemma_pow256_bounds();
                    crate::value_codec::lemma_le_val_bound(
                        bytes@.subrange(pos + 2, pos + 2 + 4),
                    );
                }
                match dec_nf_mint_items(bytes, p2, n as u32) {
                    Some((entries, p3)) => Some(
                        (Some(MintParams::NonFungible { entries }), p3),
                    ),
                    None => None,
                }
            },
            None => None,
        }
    } else {
        None
    }
}

/// Decodes a `create` argument.
pub fn dec_create_input(bytes: &Vec<u8>) -> (r: Option<ResourceManagerCreateInput>)
    ensures
        match r {
            Some(input) => spec_dec_create_input(bytes@) == Some(input@),
            None => spec_dec_create_input(bytes@) is None,
        },
{
    if let Some((resource_type, p1)) = crate::value_codec::dec_resource_type(bytes, 0) {
        if let Some((metadata, p2)) = crate::value_codec::dec_metadata(bytes, p1) {
            if let Some((n, p3)) = crate::value_codec::dec_le(bytes, p2, 4) {
                proof {
                    crate::codec::lemma_pow256_bounds();
                    crate::value_codec::lemma_le_val_bound(bytes@.subrange(p2 as int, p2 + 4));
                }
                if let Some((access_rules, p4)) = dec_auth_entries(bytes, p3, n as u32) {
                    if let Some((mint_params, p5)) = dec_mint_params(bytes, p4) {
                        if p5 == bytes.len() {
                            let input = ResourceManagerCreateInput {
                                resource_type,
                                metadata,
                                access_rules,
                                mint_params,
                            };
                            return Some(input);
                        }
                    }
                }
            }
        }
    }
    None
}

} // verus!

verus! {

/// The state and value of an overlay-hit moving borrow.
pub open spec fn ts_borrow_up_hit(t: crate::track::TrackState, addr: crate::track::Address) -> (
    crate::track::TrackState,
    crate::track::SubstateValue,
) {
    let i = crate::assoc_index(t.up, crate::track::spec_enc_address(addr));
    (
        crate::track::TrackState {
            up: crate::track::seq_swap_remove(t.up, i),
            mut_borrows: t.mut_borrows.push(addr),
            ..t
        },
        t.up[i].1,
    )
}

/// The state after a moving borrow is returned.
pub open spec fn ts_return(
    t: crate::track::TrackState,
    addr: crate::track::Address,
    value: crate::track::SubstateValue,
) -> crate::track::TrackState {
    crate::track::TrackState {
        mut_borrows: t.mut_borrows.remove(crate::seq_index_of(t.mut_borrows, addr)),
        up: crate::track::entries_insert(
            t.up,
            crate::track::spec_enc_address(addr),
            value,
        ),
        ..t
    }
}

/// What `create` leaves behind and returns, as a function of the decoded
/// input and the starting state.
pub open spec fn create_post(
    input: ResourceManagerCreateInput,
    t0: crate::track::TrackState,
    t1: crate::track::TrackState,
    r: Result<(ResourceAddress, Option<(u32, crate::model::Bucket)>), ResourceManagerError>,
) -> bool {
    if !input.resource_type.wf() {
        &&& r is Err && r->Err_0 == ResourceManagerError::InvalidDivisibility
        &&& t1 == t0
    } else {
        let rm = spec_rm_of(input.resource_type, input.metadata, input.access_rules@);
        let v0 = crate::track::SubstateValue::Resource(rm);
        let addr = crate::track::spec_created_address(t0, v0);
        let ra = addr->Resource_0;
        let tc = crate::track::ts_create_uuid(t0, v0);
        match input.mint_params {
            None => r == Ok::<_, ResourceManagerError>((ra, Option::<(u32, crate::model::Bucket)>::None)) && t1 == tc,
            Some(mp) => {
                let tb = ts_borrow_up_hit(tc, addr).0;
                match mp {
                    MintParams::Fungible { amount } => {
                        match spec_mint_fungible_error(input.resource_type, amount) {
                            Some(e) => r is Err && r->Err_0 == e && t1 == tb,
                            None => {
                                let rm2 = ResourceManager {
                                    total_supply: Decimal((0 + amount.0) as i128),
                                    ..rm
                                };
                                let tr = ts_return(
                                    tb,
                                    addr,
                                    crate::track::SubstateValue::Resource(rm2),
                                );
                                &&& t1 == (crate::track::TrackState {
                                    allocator: crate::id_allocator::IdAllocator {
                                        bucket_counter: (tr.allocator.bucket_counter + 1) as u32,
                                        ..tr.allocator
                                    },
                                    ..tr
                                })
                                &&& r matches Ok((a2, ob)) && a2 == ra && (ob matches Some((
                                    bid,
                                    bucket,
                                )) && bid == tr.allocator.bucket_counter && bucket@ == (
                                crate::model::ContainerView::Fungible {
                                    resource_address: ra,
                                    divisibility: input.resource_type.spec_divisibility(),
                                    liquid_amount: amount,
                                }))
                            },
                        }
                    },
                    MintParams::NonFungible { entries } => {
                        if !(input.resource_type is NonFungible) {
                            &&& r is Err && r->Err_0
                                == ResourceManagerError::ResourceTypeDoesNotMatch
                            &&& t1 == tb
                        } else if entries@.len() > 100_000_000_000 {
                            &&& r is Err && r->Err_0 == ResourceManagerError::MaxMintAmountExceeded
                            &&& t1 == tb
                        } else {
                            let b = first_bad_nf_entry(tb, entries@, ra);
                            if b >= 0 {
                                &&& t1 == tb
                                &&& if crate::track::ts_get_nf(tb, ra, entries@[b].0.0@) is Some {
                                    r matches Err(e) && e matches
                                        ResourceManagerError::NonFungibleAlreadyExists(a)
                                        && a.resource_address == ra && a.non_fungible_id.0@
                                        == entries@[b].0.0@
                                } else {
                                    r is Err && r->Err_0
                                        == ResourceManagerError::InvalidNonFungibleData
                                }
                            } else {
                                let tm = ts_mint_nf_writes(tb, entries@, ra);
                                let rm2 = ResourceManager {
                                    total_supply: Decimal(
                                        (0 + entries@.len() * 1_000_000_000_000_000_000) as i128,
                                    ),
                                    ..rm
                                };
                                let tr = ts_return(
                                    tm,
                                    addr,
                                    crate::track::SubstateValue::Resource(rm2),
                                );
                                &&& t1 == (crate::track::TrackState {
                                    allocator: crate::id_allocator::IdAllocator {
                                        bucket_counter: (tr.allocator.bucket_counter + 1) as u32,
                                        ..tr.allocator
                                    },
                                    ..tr
                                })
                                &&& r matches Ok((a2, ob)) && a2 == ra && (ob matches Some((
                                    bid,
                                    bucket,
                                )) && bid == tr.allocator.bucket_counter && bucket@ == (
                                crate::model::ContainerView::NonFungible {
                                    resource_address: ra,
                                    liquid_ids: entries@.map(
                                        |i: int, e: (
                                            crate::types::NonFungibleId,
                                            (Vec<u8>, Vec<u8>),
                                        )| e.0.0@,
                                    ),
                                }))
                            }
                        }
                    },
                }
            },
        }
    }
}

/// What `create` needs of the starting state: allocation headroom, a fresh
/// address no path has borrowed, and, for a non-fungible mint, readable and
/// unborrowed entry keys.
pub open spec fn create_allowed(
    input: ResourceManagerCreateInput,
    t0: crate::track::TrackState,
) -> bool {
    let rm = spec_rm_of(input.resource_type, input.metadata, input.access_rules@);
    let v0 = crate::track::SubstateValue::Resource(rm);
    let addr = crate::track::spec_created_address(t0, v0);
    let ra = addr->Resource_0;
    let tc = crate::track::ts_create_uuid(t0, v0);
    let tb = ts_borrow_up_hit(tc, addr).0;
    &&& crate::track::ts_wf(t0)
    &&& crate::track::store_ok(t0.store)
    &&& t0.allocator.resource_counter < u32::MAX
    &&& t0.allocator.bucket_counter < u32::MAX
    &&& !crate::track::is_borrowed(t0, addr)
    &&& (input.mint_params matches Some(MintParams::NonFungible { entries }) ==> ({
        &&& forall|j: int|
            0 <= j < entries@.len() ==> crate::track::nf_read_ok(
                tb,
                ra,
                (#[trigger] entries@[j]).0.0@,
            )
        &&& forall|j: int|
            0 <= j < entries@.len() ==> crate::track::key_unborrowed(
                t0,
                crate::track::spec_enc_address(crate::track::Address::NonFungibleSet(ra)) + (
                #[trigger] entries@[j]).0.0@,
            )
        &&& forall|a: int, b: int|
            0 <= a < b < entries@.len() ==> (#[trigger] entries@[a]).0.0@ != (
            #[trigger] entries@[b]).0.0@
    }))
}

} // verus!

verus! {

impl ResourceManager {
    /// Creates a resource: builds the manager, stages it at a fresh address,
    /// optionally mints an initial supply into a bucket, and publishes the
    /// address.
    pub fn create_resource<S: crate::track::ReadableSubstateStore>(
        input: ResourceManagerCreateInput,
        track: &mut crate::track::Track<S>,
    ) -> (r: Result<
        (ResourceAddress, Option<(u32, crate::model::Bucket)>),
        ResourceManagerError,
    >)
        requires
            create_allowed(input, old(track).model()),
        ensures
            create_post(input, old(track).model(), final(track).model(), r),
            final(track).wf(),
    {
        let ghost t0 = track.model();
        let ghost iv = input;
        let ResourceManagerCreateInput { resource_type, metadata, access_rules, mint_params } =
            input;
        let rm = match ResourceManager::new(resource_type, metadata, access_rules) {
            Ok(rm) => rm,
            Err(e) => {
                return Err(e);
            },
        };
        proof {
            assert(rm == spec_rm_of(iv.resource_type, iv.metadata, iv.access_rules@));
        }
        let ghost v0 = crate::track::SubstateValue::Resource(rm);
        let address = track.create_uuid_value(crate::track::SubstateValue::Resource(rm));
        let ghost tc = track.model();
        let ra = match address {
            crate::track::Address::Resource(ra) => ra,
            _ => vstd::pervasive::unreached(),
        };
        let mp = match mint_params {
            None => {
                return Ok((ra, None));
            },
            Some(mp) => mp,
        };
        proof {
            let key = crate::track::spec_enc_address(address);
            crate::lemma_assoc_index(t0.up, key);
            let i0 = crate::assoc_index(t0.up, key);
            if i0 >= 0 {
                crate::lemma_assoc_index_update_value(t0.up, i0, v0, key);
            } else {
                crate::lemma_assoc_index_push(t0.up, key, v0, key);
            }
            crate::lemma_assoc_index(tc.up, key);
            assert(crate::assoc_index(tc.up, key) >= 0);
            assert(tc.up[crate::assoc_index(tc.up, key)].1 == v0);
        }
        let borrowed = match track.borrow_global_mut_value(address) {
            Ok(v) => v,
            Err(_) => vstd::pervasive::unreached(),
        };
        let ghost tb = track.model();
        let mut rm2 = match borrowed {
            crate::track::SubstateValue::Resource(rm2) => rm2,
            _ => vstd::pervasive::unreached(),
        };
        proof {
            assert(rm2 == rm);
            assert((tb, crate::track::SubstateValue::Resource(rm2)) == ts_borrow_up_hit(
                tc,
                address,
            ));
            match &mp {
                MintParams::NonFungible { entries } => {
                    if iv.resource_type is NonFungible && entries@.len() <= 100_000_000_000 {
                        lemma_create_nf_context(t0, tb, tc, iv, address, ra, entries@);
                    }
                },
                _ => {},
            }
        }
        let container = match rm2.mint(mp, ra, track) {
            Ok(c) => c,
            Err(e) => {
                return Err(e);
            },
        };
        let ghost tm = track.model();
        proof {
            if mp is NonFungible {
                lemma_mint_writes_preserve(
                    tb,
                    mp->NonFungible_entries@,
                    ra,
                );
            }
            crate::lemma_seq_index_of(tm.mut_borrows, address);
            crate::lemma_seq_index_of_push(tc.mut_borrows, address, address);
        }
        track.return_borrowed_global_mut_value(address, crate::track::SubstateValue::Resource(rm2));
        let bucket_id = track.new_bucket_id();
        let bucket = crate::model::Bucket::new(container);
        Ok((ra, Some((bucket_id, bucket))))
    }
}

impl ResourceManager {
    /// Dispatches a function call on the resource-manager blueprint itself.
    /// `create` is the only function; its argument arrives as canonical bytes.
    pub fn static_main<S: crate::track::ReadableSubstateStore>(
        method_name: &str,
        arg: &Vec<u8>,
        track: &mut crate::track::Track<S>,
    ) -> (r: Result<(ResourceAddress, Option<(u32, crate::model::Bucket)>), ResourceManagerError>)
        requires
            method_name@ == "create"@ && spec_dec_create_input(arg@) is Some ==> forall|
                input: ResourceManagerCreateInput,
            |
                input@ == spec_dec_create_input(arg@)->0 ==> #[trigger] create_allowed(
                    input,
                    old(track).model(),
                ),
        ensures
            method_name@ != "create"@ ==> ({
                &&& r is Err && r->Err_0 == ResourceManagerError::InvalidMethod
                &&& final(track).model() == old(track).model()
            }),
            method_name@ == "create"@ && spec_dec_create_input(arg@) is None ==> ({
                &&& r is Err && r->Err_0 == ResourceManagerError::InvalidRequestData(
                    DecodeError::Malformed,
                )
                &&& final(track).model() == old(track).model()
            }),
            method_name@ == "create"@ && spec_dec_create_input(arg@) is Some ==> exists|
                input: ResourceManagerCreateInput,
            |
                input@ == spec_dec_create_input(arg@)->0 && #[trigger] create_post(
                    input,
                    old(track).model(),
                    final(track).model(),
                    r,
                ),
    {
        if !crate::str_eq(method_name, "create") {
            return Err(ResourceManagerError::InvalidMethod);
        }
        match dec_create_input(arg) {
            Some(input) => {
                let ghost witness = input;
                let r = ResourceManager::create_resource(input, track);
                proof {
                    assert(witness@ == spec_dec_create_input(arg@)->0 && create_post(
                        witness,
                        old(track).model(),
                        final(track).model(),
                        r,
                    ));
                }
                r
            },
            None => Err(ResourceManagerError::InvalidRequestData(DecodeError::Malformed)),
        }
    }
}

/// In the state after creating a non-fungible resource and borrowing its
/// manager back, every prospective entry key is writable.
proof fn lemma_create_nf_context(
    t0: crate::track::TrackState,
    tb: crate::track::TrackState,
    tc: crate::track::TrackState,
    iv: ResourceManagerCreateInput,
    address: crate::track::Address,
    ra: ResourceAddress,
    entries: Seq<(crate::types::NonFungibleId, (Vec<u8>, Vec<u8>))>,
)
    requires
        create_allowed(iv, t0),
        iv.resource_type.wf(),
        iv.resource_type is NonFungible,
        iv.mint_params matches Some(mp2) && (mp2 matches MintParams::NonFungible {
            entries: e2,
        } && e2@ == entries),
        entries.len() <= 100_000_000_000,
        address == crate::track::spec_created_address(
            t0,
            crate::track::SubstateValue::Resource(
                spec_rm_of(iv.resource_type, iv.metadata, iv.access_rules@),
            ),
        ),
        ra == address->Resource_0,
        tc == crate::track::ts_create_uuid(
            t0,
            crate::track::SubstateValue::Resource(
                spec_rm_of(iv.resource_type, iv.metadata, iv.access_rules@),
            ),
        ),
        tb == ts_borrow_up_hit(tc, address).0,
        crate::track::ts_wf(tb),
        crate::track::store_ok(tb.store),
    ensures
        mint_nf_track_ok(tb, entries, ra),
        first_bad_nf_entry(tb, entries, ra) == -1 ==> entries.len() * 1_000_000_000_000_000_000
            <= 100_000_000_000 * 1_000_000_000_000_000_000,
{
    let parent = crate::track::Address::NonFungibleSet(ra);
    let pk = crate::track::spec_enc_address(parent);
    crate::lemma_seq_index_of(t0.spaces, pk);
    crate::lemma_seq_index_of_push(t0.spaces, pk, pk);
    assert(crate::seq_index_of(tb.spaces, pk) >= 0);
    assert forall|j: int| 0 <= j < entries.len() implies crate::track::key_unborrowed(
        tb,
        pk + (#[trigger] entries[j]).0.0@,
    ) by {
        let full = pk + entries[j].0.0@;
        assert(crate::track::key_unborrowed(t0, full));
        crate::track::lemma_enc_parts(address);
        crate::track::lemma_enc_parts(parent);
        assert(full.len() >= 34);
        assert(crate::track::spec_enc_address(address).len() == 33);
        assert forall|k: int|
            0 <= k < tb.mut_borrows.len() implies crate::track::spec_enc_address(
            #[trigger] tb.mut_borrows[k],
        ) != full by {
            if k < t0.mut_borrows.len() {
                assert(tb.mut_borrows[k] == t0.mut_borrows[k]);
            } else {
                assert(tb.mut_borrows[k] == address);
            }
        }
        assert forall|k: int|
            0 <= k < tb.borrow_table.len() implies crate::track::spec_enc_address(
            (#[trigger] tb.borrow_table[k]).0,
        ) != full by {
            assert(tb.borrow_table[k] == t0.borrow_table[k]);
        }
    }
    assert(mint_nf_track_ok(tb, entries, ra));
    if first_bad_nf_entry(tb, entries, ra) == -1 {
        assert(entries.len() * 1_000_000_000_000_000_000 <= 100_000_000_000
            * 1_000_000_000_000_000_000) by (nonlinear_arith)
            requires
                entries.len() <= 100_000_000_000,
        ;
    }
}

/// Non-fungible writes leave the books, spaces and allocator alone.
pub proof fn lemma_mint_writes_preserve(
    t: crate::track::TrackState,
    entries: Seq<(crate::types::NonFungibleId, (Vec<u8>, Vec<u8>))>,
    self_address: ResourceAddress,
)
    ensures
        ({
            let tm = ts_mint_nf_writes(t, entries, self_address);
            &&& tm.mut_borrows == t.mut_borrows
            &&& tm.borrow_table == t.borrow_table
            &&& tm.spaces == t.spaces
            &&& tm.allocator == t.allocator
            &&& tm.store == t.store
            &&& tm.store_spaces == t.store_spaces
            &&& tm.new_addresses == t.new_addresses
            &&& tm.logs == t.logs
            &&& tm.transaction_hash == t.transaction_hash
            &&& tm.epoch == t.epoch
            &&& tm.reads == t.reads
        }),
    decreases entries.len(),
{
    if entries.len() > 0 {
        lemma_mint_writes_preserve(
            crate::track::ts_set_key_value(
                t,
                crate::track::Address::NonFungibleSet(self_address),
                entries[0].0.0@,
                crate::track::SubstateValue::NonFungible(
                    Some(
                        crate::types::NonFungible {
                            immutable_data: entries[0].1.0,
                            mutable_data: entries[0].1.1,
                        },
                    ),
                ),
            ),
            entries.drop_first(),
            self_address,
        );
    }
}

} // verus!

verus! {

/// What a resource-manager method invocation returns.
#[derive(Debug)]
pub enum MethodOutput {
    Unit,
    MetadataValue(Vec<(String, String)>),
    ResourceTypeValue(ResourceType),
    SupplyValue(Decimal),
    BucketValue(u32, crate::model::Bucket),
    VaultValue(crate::types::VaultId, crate::model::Vault),
    BoolValue(bool),
    DataValue(Vec<u8>, Vec<u8>),
}

/// The decoded argument of `mint`: the request itself.
pub open spec fn spec_dec_mint_input(s: Seq<u8>) -> Option<MintParamsView> {
    if s.len() == 0 {
        None
    } else if s[0] == 0 {
        match crate::value_codec::p_decimal(s, 1) {
            Some((amount, p)) => {
                if p == s.len() {
                    Some(MintParamsView::Fungible { amount })
                } else {
                    None
                }
            },
            None => None,
        }
    } else if s[0] == 1 {
        match crate::value_codec::p_le(s, 1, 4) {
            Some((n, p1)) => match p_nf_mint_items(s, p1, n as nat) {
                Some((entries, p2)) => {
                    if p2 == s.len() {
                        Some(MintParamsView::NonFungible { entries })
                    } else {
                        None
                    }
                },
                None => None,
            },
            None => None,
        }
    } else {
        None
    }
}

/// Decodes a `mint` argument.
pub fn dec_mint_input(bytes: &Vec<u8>) -> (r: Option<MintParams>)
    ensures
        match r {
            Some(mp) => spec_dec_mint_input(bytes@) == Some(mp@),
            None => spec_dec_mint_input(bytes@) is None,
        },
{
    let len = bytes.len();
    if len == 0 {
        return None;
    }
    let kind = bytes[0];
    if kind == 0 {
        match crate::value_codec::dec_decimal(bytes, 1) {
            Some((amount, p)) => {
                if p == len {
                    Some(MintParams::Fungible { amount })
                } else {
                    None
                }
            },
            None => None,
        }
    } else if kind == 1 {
        match crate::value_codec::dec_le(bytes, 1, 4) {
            Some((n, p1)) => {
                proof {
                    crate::codec::lemma_pow256_bounds();
                    crate::value_codec::lemma_le_val_bound(bytes@.subrange(1, 5));
                }
                match dec_nf_mint_items(bytes, p1, n as u32) {
                    Some((entries, p2)) => {
                        if p2 == len {
                            Some(MintParams::NonFungible { entries })
                        } else {
                            None
                        }
                    },
                    None => None,
                }
            },
            None => None,
        }
    } else {
        None
    }
}

/// The decoded argument of `update_metadata`.
pub open spec fn spec_dec_metadata_input(s: Seq<u8>) -> Option<Seq<(Seq<char>, Seq<char>)>> {
    match crate::value_codec::p_metadata(s, 0) {
        Some((md, p)) => {
            if p == s.len() {
                Some(md)
            } else {
                None
            }
        },
        None => None,
    }
}

/// Decodes an `update_metadata` argument.
pub fn dec_metadata_input(bytes: &Vec<u8>) -> (r: Option<Vec<(String, String)>>)
    ensures
        match r {
            Some(md) => spec_dec_metadata_input(bytes@) == Some(
                crate::value_codec::md_view(md@),
            ),
            None => spec_dec_metadata_input(bytes@) is None,
        },
{
    match crate::value_codec::dec_metadata(bytes, 0) {
        Some((md, p)) => {
            if p == bytes.len() {
                Some(md)
            } else {
                None
            }
        },
        None => None,
    }
}

/// The decoded argument of the non-fungible data methods: one id blob.
pub open spec fn spec_dec_id_input(s: Seq<u8>) -> Option<Seq<u8>> {
    match crate::value_codec::p_bytes(s, 0) {
        Some((id, p)) => {
            if p == s.len() {
                Some(id)
            } else {
                None
            }
        },
        None => None,
    }
}

/// Decodes an id argument.
pub fn dec_id_input(bytes: &Vec<u8>) -> (r: Option<crate::types::NonFungibleId>)
    ensures
        match r {
            Some(id) => spec_dec_id_input(bytes@) == Some(id.0@),
            None => spec_dec_id_input(bytes@) is None,
        },
{
    match crate::value_codec::dec_bytes(bytes, 0) {
        Some((id, p)) => {
            if p == bytes.len() {
                Some(crate::types::NonFungibleId(id))
            } else {
                None
            }
        },
        None => None,
    }
}

/// The decoded argument of `update_non_fungible_data`: an id and the new
/// mutable half.
pub open spec fn spec_dec_update_nf_input(s: Seq<u8>) -> Option<(Seq<u8>, Seq<u8>)> {
    match crate::value_codec::p_bytes(s, 0) {
        Some((id, p1)) => match crate::value_codec::p_bytes(s, p1) {
            Some((data, p2)) => {
                if p2 == s.len() {
                    Some((id, data))
                } else {
                    None
                }
            },
            None => None,
        },
        None => None,
    }
}

/// Decodes an `update_non_fungible_data` argument.
pub fn dec_update_nf_input(bytes: &Vec<u8>) -> (r: Option<(crate::types::NonFungibleId, Vec<u8>)>)
    ensures
        match r {
            Some((id, data)) => spec_dec_update_nf_input(bytes@) == Some((id.0@, data@)),
            None => spec_dec_update_nf_input(bytes@) is None,
        },
{
    match crate::value_codec::dec_bytes(bytes, 0) {
        Some((id, p1)) => {
            match crate::value_codec::dec_bytes(bytes, p1) {
                Some((data, p2)) => {
                    if p2 == bytes.len() {
                        Some((crate::types::NonFungibleId(id), data))
                    } else {
                        None
                    }
                },
                None => None,
            }
        },
        None => None,
    }
}

} // verus!

verus! {

/// Copies a metadata list.
pub fn clone_metadata(md: &Vec<(String, String)>) -> (r: Vec<(String, String)>)
    ensures
        crate::value_codec::md_view(r@) == crate::value_codec::md_view(md@),
{
    let ghost f = crate::value_codec::md_view(md@);
    let mut out: Vec<(String, String)> = Vec::new();
    let mut i: usize = 0;
    proof {
        assert(crate::value_codec::md_view(out@) =~= crate::value_codec::md_view(md@).take(0));
    }
    while i < md.len()
        invariant
            i <= md@.len(),
            crate::value_codec::md_view(out@) == crate::value_codec::md_view(md@).take(i as int),
        decreases md@.len() - i,
    {
        let k = crate::str_to_string(md[i].0.as_str());
        let v = crate::str_to_string(md[i].1.as_str());
        out.push((k, v));
        proof {
            let g = crate::value_codec::md_view(md@);
            assert(crate::value_codec::md_view(out@) =~= g.take(i as int).push(g[i as int]));
            assert(g.take(i + 1) =~= g.take(i as int).push(g[i as int]));
        }
        i += 1;
    }
    proof {
        assert(crate::value_codec::md_view(md@).take(md@.len() as int) =~= crate::value_codec::md_view(md@));
    }
    out
}

/// A key no borrow path used is still unborrowed after the manager itself
/// is taken out, because the manager's store key is shorter than any
/// non-fungible key.
proof fn lemma_nf_key_unborrowed_with_manager(
    t0: crate::track::TrackState,
    tb: crate::track::TrackState,
    ra: ResourceAddress,
    id: Seq<u8>,
)
    requires
        crate::track::key_unborrowed(
            t0,
            crate::track::spec_enc_address(crate::track::Address::NonFungibleSet(ra)) + id,
        ),
        tb.mut_borrows == t0.mut_borrows.push(crate::track::Address::Resource(ra)),
        tb.borrow_table == t0.borrow_table,
    ensures
        crate::track::key_unborrowed(
            tb,
            crate::track::spec_enc_address(crate::track::Address::NonFungibleSet(ra)) + id,
        ),
{
    let parent = crate::track::Address::NonFungibleSet(ra);
    let full = crate::track::spec_enc_address(parent) + id;
    crate::track::lemma_enc_parts(crate::track::Address::Resource(ra));
    crate::track::lemma_enc_parts(parent);
    assert(full.len() >= 34);
    assert forall|k: int| 0 <= k < tb.mut_borrows.len() implies crate::track::spec_enc_address(
        #[trigger] tb.mut_borrows[k],
    ) != full by {
        if k < t0.mut_borrows.len() {
            assert(tb.mut_borrows[k] == t0.mut_borrows[k]);
        } else {
            assert(tb.mut_borrows[k] == crate::track::Address::Resource(ra));
        }
    }
}

} // verus!

verus! {

/// The staged manager a dispatch borrows: the resource's own substate.
pub open spec fn staged_manager(t0: crate::track::TrackState, ra: ResourceAddress)
    -> ResourceManager {
    let addr = crate::track::Address::Resource(ra);
    let i = crate::assoc_index(t0.up, crate::track::spec_enc_address(addr));
    t0.up[i].1->Resource_0
}

/// What `mint` leaves behind when dispatched on a borrowed manager: the
/// supply grows, the writes land, the manager goes back, and a bucket id is
/// drawn for the new units.
pub open spec fn mint_dispatch_post(
    rm: ResourceManager,
    tb: crate::track::TrackState,
    t1: crate::track::TrackState,
    mp: MintParams,
    ra: ResourceAddress,
    r: Result<MethodOutput, ResourceManagerError>,
) -> bool {
    let addr = crate::track::Address::Resource(ra);
    match mp {
        MintParams::Fungible { amount } => {
            match spec_mint_fungible_error(rm@.resource_type, amount) {
                Some(e) => r is Err && r->Err_0 == e && t1 == tb,
                None => {
                    let rm2 = ResourceManager {
                        total_supply: Decimal((rm@.total_supply.0 + amount.0) as i128),
                        ..rm
                    };
                    let tr = ts_return(tb, addr, crate::track::SubstateValue::Resource(rm2));
                    &&& t1 == (crate::track::TrackState {
                        allocator: crate::id_allocator::IdAllocator {
                            bucket_counter: (tr.allocator.bucket_counter + 1) as u32,
                            ..tr.allocator
                        },
                        ..tr
                    })
                    &&& r matches Ok(o) && (o matches MethodOutput::BucketValue(b, bucket) && b
                        == tr.allocator.bucket_counter && bucket@ == (
                    crate::model::ContainerView::Fungible {
                        resource_address: ra,
                        divisibility: rm@.resource_type.spec_divisibility(),
                        liquid_amount: amount,
                    }))
                },
            }
        },
        MintParams::NonFungible { entries } => {
            if !(rm@.resource_type is NonFungible) {
                r is Err && r->Err_0 == ResourceManagerError::ResourceTypeDoesNotMatch && t1 == tb
            } else if entries@.len() > 100_000_000_000 {
                r is Err && r->Err_0 == ResourceManagerError::MaxMintAmountExceeded && t1 == tb
            } else {
                let b = first_bad_nf_entry(tb, entries@, ra);
                if b >= 0 {
                    &&& t1 == tb
                    &&& if crate::track::ts_get_nf(tb, ra, entries@[b].0.0@) is Some {
                        r matches Err(e) && (e matches
                            ResourceManagerError::NonFungibleAlreadyExists(a) && a.resource_address
                            == ra && a.non_fungible_id.0@ == entries@[b].0.0@)
                    } else {
                        r is Err && r->Err_0 == ResourceManagerError::InvalidNonFungibleData
                    }
                } else {
                    let tm = ts_mint_nf_writes(tb, entries@, ra);
                    let rm2 = ResourceManager {
                        total_supply: Decimal(
                            (rm@.total_supply.0 + entries@.len()
                                * 1_000_000_000_000_000_000) as i128,
                        ),
                        ..rm
                    };
                    let tr = ts_return(tm, addr, crate::track::SubstateValue::Resource(rm2));
                    &&& t1 == (crate::track::TrackState {
                        allocator: crate::id_allocator::IdAllocator {
                            bucket_counter: (tr.allocator.bucket_counter + 1) as u32,
                            ..tr.allocator
                        },
                        ..tr
                    })
                    &&& r matches Ok(o) && (o matches MethodOutput::BucketValue(bid, bucket)
                        && bid == tr.allocator.bucket_counter && bucket@ == (
                    crate::model::ContainerView::NonFungible {
                        resource_address: ra,
                        liquid_ids: entries@.map(
                            |i: int, e: (crate::types::NonFungibleId, (Vec<u8>, Vec<u8>))| e.0.0@,
                        ),
                    }))
                }
            }
        },
    }
}

/// What a dispatch needs of the starting state: the manager staged, room in
/// the allocator, and, for the non-fungible methods, readable and
/// unborrowed entry keys.
pub open spec fn main_allowed(
    t0: crate::track::TrackState,
    ra: ResourceAddress,
    name: Seq<char>,
    arg: Seq<u8>,
) -> bool {
    let addr = crate::track::Address::Resource(ra);
    let i = crate::assoc_index(t0.up, crate::track::spec_enc_address(addr));
    let tb = ts_borrow_up_hit(t0, addr).0;
    let rm = staged_manager(t0, ra);
    let parent = crate::track::Address::NonFungibleSet(ra);
    &&& crate::track::ts_wf(t0)
    &&& crate::track::store_ok(t0.store)
    &&& i >= 0
    &&& t0.up[i].1 is Resource
    &&& rm@.resource_type.wf()
    &&& (name == "create_vault"@ ==> t0.allocator.vault_counter < u32::MAX)
    &&& (name == "create_bucket"@ || name == "mint"@ ==> t0.allocator.bucket_counter < u32::MAX)
    &&& (name == "mint"@ ==> (match spec_dec_mint_input(arg) {
        Some(MintParamsView::Fungible { amount }) => spec_mint_fungible_error(
            rm@.resource_type,
            amount,
        ) is None ==> rm@.total_supply.0 + amount.0 <= i128::MAX,
        Some(MintParamsView::NonFungible { entries }) => {
            &&& forall|a: int, b: int|
                0 <= a < b < entries.len() ==> (#[trigger] entries[a]).0 != (
                #[trigger] entries[b]).0
            &&& (rm@.resource_type is NonFungible && entries.len() <= 100_000_000_000 ==> ({
                &&& (crate::seq_index_of(t0.spaces, crate::track::spec_enc_address(parent)) >= 0
                    || t0.store_spaces.contains_key(crate::track::spec_enc_address(parent)))
                &&& forall|j: int|
                    0 <= j < entries.len() ==> crate::track::nf_read_ok(
                        tb,
                        ra,
                        (#[trigger] entries[j]).0,
                    )
                &&& forall|j: int|
                    0 <= j < entries.len() ==> crate::track::key_unborrowed(
                        t0,
                        crate::track::spec_enc_address(parent) + (#[trigger] entries[j]).0,
                    )
                &&& rm@.total_supply.0 + entries.len() * 1_000_000_000_000_000_000 <= i128::MAX
            }))
        },
        None => true,
    }))
    &&& (name == "non_fungible_exists"@ || name == "non_fungible_data"@ ==> (
    match spec_dec_id_input(arg) {
        Some(id) => crate::track::nf_read_ok(tb, ra, id),
        None => true,
    }))
    &&& (name == "update_non_fungible_data"@ ==> (match spec_dec_update_nf_input(arg) {
        Some((id, _)) => {
            &&& crate::track::nf_read_ok(tb, ra, id)
            &&& crate::track::key_unborrowed(t0, crate::track::spec_enc_address(parent) + id)
            &&& crate::track::set_key_allowed(tb, parent, id)
        },
        None => true,
    }))
}

} // verus!

verus! {

impl ResourceManager {
    /// Dispatches a method on a staged resource manager: borrows it, runs
    /// the named method, and puts it back.  An unknown name or a malformed
    /// argument rejects the call; every failure leaves the manager borrowed
    /// for the transaction to be discarded.
    #[verifier::rlimit(100)]
    pub fn main<S: crate::track::ReadableSubstateStore>(
        resource_address: ResourceAddress,
        method_name: &str,
        arg: &Vec<u8>,
        track: &mut crate::track::Track<S>,
    ) -> (r: Result<MethodOutput, ResourceManagerError>)
        requires
            main_allowed(old(track).model(), resource_address, method_name@, arg@),
        ensures
            ({
                let t0 = old(track).model();
                let t1 = final(track).model();
                let ra = resource_address;
                let addr = crate::track::Address::Resource(ra);
                let tb = ts_borrow_up_hit(t0, addr).0;
                let rm = staged_manager(t0, ra);
                let back = ts_return(tb, addr, crate::track::SubstateValue::Resource(rm));
                let name = method_name@;
                let bad_arg = r is Err && r->Err_0 == ResourceManagerError::InvalidRequestData(
                    DecodeError::Malformed,
                ) && t1 == tb;
                if name == "update_auth"@ {
                    match spec_dec_update_auth_input(arg@) {
                        Some((key, rule)) => r matches Ok(o) && (o is Unit) && t1 == ts_return(
                            tb,
                            addr,
                            crate::track::SubstateValue::Resource(
                                ResourceManager {
                                    authorization: rm.authorization.spec_set(
                                        key,
                                        spec_updated(rm.authorization.spec_get(key), rule),
                                    ),
                                    ..rm
                                },
                            ),
                        ),
                        None => bad_arg,
                    }
                } else if name == "lock_auth"@ {
                    match spec_dec_lock_auth_input(arg@) {
                        Some(key) => r matches Ok(o) && (o is Unit) && t1 == ts_return(
                            tb,
                            addr,
                            crate::track::SubstateValue::Resource(
                                ResourceManager {
                                    authorization: rm.authorization.spec_set(
                                        key,
                                        spec_locked(rm.authorization.spec_get(key)),
                                    ),
                                    ..rm
                                },
                            ),
                        ),
                        None => bad_arg,
                    }
                } else if name == "create_vault"@ {
                    let vid = crate::types::VaultId {
                        hash: back.transaction_hash,
                        index: back.allocator.vault_counter,
                    };
                    &&& t1 == (crate::track::TrackState {
                        allocator: crate::id_allocator::IdAllocator {
                            vault_counter: (back.allocator.vault_counter + 1) as u32,
                            ..back.allocator
                        },
                        ..back
                    })
                    &&& r matches Ok(o) && (o matches MethodOutput::VaultValue(v, vault) && v
                        == vid && vault@ == crate::model::new_empty_view(ra, rm@.resource_type))
                } else if name == "create_bucket"@ {
                    &&& t1 == (crate::track::TrackState {
                        allocator: crate::id_allocator::IdAllocator {
                            bucket_counter: (back.allocator.bucket_counter + 1) as u32,
                            ..back.allocator
                        },
                        ..back
                    })
                    &&& r matches Ok(o) && (o matches MethodOutput::BucketValue(b, bucket) && b
                        == back.allocator.bucket_counter && bucket@
                        == crate::model::new_empty_view(ra, rm@.resource_type))
                } else if name == "metadata"@ {
                    &&& t1 == back
                    &&& r matches Ok(o) && (o matches MethodOutput::MetadataValue(md)
                        && crate::value_codec::md_view(md@) == rm@.metadata)
                } else if name == "resource_type"@ {
                    t1 == back && (r matches Ok(o) && o == MethodOutput::ResourceTypeValue(
                        rm@.resource_type,
                    ))
                } else if name == "total_supply"@ {
                    t1 == back && (r matches Ok(o) && o == MethodOutput::SupplyValue(
                        rm@.total_supply,
                    ))
                } else if name == "update_metadata"@ {
                    match spec_dec_metadata_input(arg@) {
                        Some(mdv) => exists|md: Vec<(String, String)>|
                            {
                                &&& #[trigger] crate::value_codec::md_view(md@) == mdv
                                &&& t1 == ts_return(
                                    tb,
                                    addr,
                                    crate::track::SubstateValue::Resource(
                                        ResourceManager { metadata: md, ..rm },
                                    ),
                                )
                                &&& r matches Ok(o) && (o is Unit)
                            },
                        None => bad_arg,
                    }
                } else if name == "mint"@ {
                    match spec_dec_mint_input(arg@) {
                        Some(_) => exists|mp: MintParams|
                            {
                                &&& Some(#[trigger] mp@) == spec_dec_mint_input(arg@)
                                &&& mint_dispatch_post(rm, tb, t1, mp, ra, r)
                            },
                        None => bad_arg,
                    }
                } else if name == "non_fungible_exists"@ {
                    match spec_dec_id_input(arg@) {
                        Some(id) => t1 == back && (r matches Ok(o) && o
                            == MethodOutput::BoolValue(
                            crate::track::ts_get_nf(tb, ra, id) is Some,
                        )),
                        None => bad_arg,
                    }
                } else if name == "non_fungible_data"@ {
                    match spec_dec_id_input(arg@) {
                        Some(id) => {
                            match crate::track::ts_get_nf(tb, ra, id) {
                                Some(nf) => t1 == back && (r matches Ok(o) && (o matches
                                    MethodOutput::DataValue(imm, mu) && imm@ == nf.immutable_data
                                    && mu@ == nf.mutable_data)),
                                None => r matches Err(e) && (e matches
                                    ResourceManagerError::NonFungibleNotFound(a)
                                    && a.resource_address == ra && a.non_fungible_id.0@ == id) && t1
                                    == tb,
                            }
                        },
                        None => bad_arg,
                    }
                } else if name == "update_non_fungible_data"@ {
                    match spec_dec_update_nf_input(arg@) {
                        Some((id, data)) => {
                            if !crate::values::valid_nf_data(data) {
                                r is Err && r->Err_0
                                    == ResourceManagerError::InvalidNonFungibleData && t1 == tb
                            } else {
                                match crate::track::ts_get_nf(tb, ra, id) {
                                    Some(nf) => exists|newnf: crate::types::NonFungible|
                                        {
                                            &&& newnf.immutable_data@ == nf.immutable_data
                                            &&& newnf.mutable_data@ == data
                                            &&& t1 == ts_return(
                                                #[trigger] crate::track::ts_set_key_value(
                                                    tb,
                                                    crate::track::Address::NonFungibleSet(ra),
                                                    id,
                                                    crate::track::SubstateValue::NonFungible(
                                                        Some(newnf),
                                                    ),
                                                ),
                                                addr,
                                                crate::track::SubstateValue::Resource(rm),
                                            )
                                            &&& r matches Ok(o) && (o is Unit)
                                        },
                                    None => r matches Err(e) && (e matches
                                        ResourceManagerError::NonFungibleNotFound(a)
                                        && a.resource_address == ra && a.non_fungible_id.0@ == id)
                                        && t1 == tb,
                                }
                            }
                        },
                        None => bad_arg,
                    }
                } else {
                    r is Err && r->Err_0 == ResourceManagerError::InvalidMethod && t1 == tb
                }
            }),
    {
        let ghost t0 = track.model();
        let ra = resource_address;
        let addr = crate::track::Address::Resource(ra);
        proof {
            crate::lemma_assoc_index(t0.up, crate::track::spec_enc_address(addr));
        }
        let borrowed = match track.borrow_global_mut_value(addr) {
            Ok(v) => v,
            Err(_) => vstd::pervasive::unreached(),
        };
        let ghost tb = track.model();
        let mut rm = match borrowed {
            crate::track::SubstateValue::Resource(rm) => rm,
            _ => vstd::pervasive::unreached(),
        };
        let ghost rm0 = rm;
        proof {
            assert((tb, crate::track::SubstateValue::Resource(rm)) == ts_borrow_up_hit(t0, addr));
            assert(rm == staged_manager(t0, ra));
            crate::lemma_seq_index_of(tb.mut_borrows, addr);
            crate::lemma_seq_index_of_push(t0.mut_borrows, addr, addr);
        }
        if crate::str_eq(method_name, "update_auth") {
            let (key, rule) = match dec_update_auth_input(arg) {
                Some(p) => p,
                None => {
                    return Err(ResourceManagerError::InvalidRequestData(DecodeError::Malformed));
                },
            };
            let mut entry = rm.authorization.get(key);
            let _ = entry.main(MethodAccessRuleMethod::Update(rule));
            rm.authorization.set(key, entry);
            track.return_borrowed_global_mut_value(addr, crate::track::SubstateValue::Resource(rm));
            Ok(MethodOutput::Unit)
        } else if crate::str_eq(method_name, "lock_auth") {
            let key = match dec_lock_auth_input(arg) {
                Some(k) => k,
                None => {
                    return Err(ResourceManagerError::InvalidRequestData(DecodeError::Malformed));
                },
            };
            let mut entry = rm.authorization.get(key);
            let _ = entry.main(MethodAccessRuleMethod::Lock());
            rm.authorization.set(key, entry);
            track.return_borrowed_global_mut_value(addr, crate::track::SubstateValue::Resource(rm));
            Ok(MethodOutput::Unit)
        } else if crate::str_eq(method_name, "create_vault") {
            let container = crate::model::ResourceContainer::new_empty(ra, rm.resource_type());
            track.return_borrowed_global_mut_value(addr, crate::track::SubstateValue::Resource(rm));
            let vault_id = track.new_vault_id();
            Ok(MethodOutput::VaultValue(vault_id, crate::model::Vault::new(container)))
        } else if crate::str_eq(method_name, "create_bucket") {
            let container = crate::model::ResourceContainer::new_empty(ra, rm.resource_type());
            track.return_borrowed_global_mut_value(addr, crate::track::SubstateValue::Resource(rm));
            let bucket_id = track.new_bucket_id();
            Ok(MethodOutput::BucketValue(bucket_id, crate::model::Bucket::new(container)))
        } else if crate::str_eq(method_name, "metadata") {
            let md = clone_metadata(rm.metadata());
            track.return_borrowed_global_mut_value(addr, crate::track::SubstateValue::Resource(rm));
            Ok(MethodOutput::MetadataValue(md))
        } else if crate::str_eq(method_name, "resource_type") {
            let rt = rm.resource_type();
            track.return_borrowed_global_mut_value(addr, crate::track::SubstateValue::Resource(rm));
            Ok(MethodOutput::ResourceTypeValue(rt))
        } else if crate::str_eq(method_name, "total_supply") {
            let supply = rm.total_supply();
            track.return_borrowed_global_mut_value(addr, crate::track::SubstateValue::Resource(rm));
            Ok(MethodOutput::SupplyValue(supply))
        } else if crate::str_eq(method_name, "update_metadata") {
            let md = match dec_metadata_input(arg) {
                Some(md) => md,
                None => {
                    return Err(ResourceManagerError::InvalidRequestData(DecodeError::Malformed));
                },
            };
            let ghost witness = md;
            let _ = rm.update_metadata(md);
            track.return_borrowed_global_mut_value(addr, crate::track::SubstateValue::Resource(rm));
            proof {
                assert(rm == (ResourceManager { metadata: witness, ..rm0 }));
                assert(crate::value_codec::md_view(witness@) == spec_dec_metadata_input(
                    arg@,
                )->0);
            }
            Ok(MethodOutput::Unit)
        } else if crate::str_eq(method_name, "mint") {
            let mp = match dec_mint_input(arg) {
                Some(mp) => mp,
                None => {
                    return Err(ResourceManagerError::InvalidRequestData(DecodeError::Malformed));
                },
            };
            let ghost witness = mp;
            proof {
                match &witness {
                    MintParams::NonFungible { entries } => {
                        let parent = crate::track::Address::NonFungibleSet(ra);
                        let pk = crate::track::spec_enc_address(parent);
                        let ev = witness@->NonFungible_entries;
                        assert(ev.len() == entries@.len());
                        assert forall|a: int, b: int|
                            0 <= a < b < entries@.len() implies (#[trigger] entries@[a]).0.0@ != (
                        #[trigger] entries@[b]).0.0@ by {
                            assert(ev[a] == (
                                entries@[a].0.0@,
                                (entries@[a].1.0@, entries@[a].1.1@),
                            ));
                            assert(ev[b] == (
                                entries@[b].0.0@,
                                (entries@[b].1.0@, entries@[b].1.1@),
                            ));
                        }
                        if rm@.resource_type is NonFungible && entries@.len()
                            <= 100_000_000_000 {
                            assert forall|j: int|
                                0 <= j < entries@.len() implies crate::track::nf_read_ok(
                                tb,
                                ra,
                                (#[trigger] entries@[j]).0.0@,
                            ) && crate::track::key_unborrowed(tb, pk + entries@[j].0.0@) by {
                                assert(ev[j] == (
                                    entries@[j].0.0@,
                                    (entries@[j].1.0@, entries@[j].1.1@),
                                ));
                                assert(crate::track::nf_read_ok(tb, ra, ev[j].0));
                                assert(crate::track::key_unborrowed(t0, pk + ev[j].0));
                                lemma_nf_key_unborrowed_with_manager(
                                    t0,
                                    tb,
                                    ra,
                                    entries@[j].0.0@,
                                );
                            }
                            assert(mint_nf_track_ok(tb, entries@, ra));
                        }
                    },
                    _ => {},
                }
            }
            let container = match rm.mint(mp, ra, track) {
                Ok(c) => c,
                Err(e) => {
                    proof {
                        assert(mint_dispatch_post(rm0, tb, track.model(), witness, ra, Err(e)));
                    }
                    return Err(e);
                },
            };
            let ghost tm = track.model();
            proof {
                match &witness {
                    MintParams::NonFungible { entries } => {
                        lemma_mint_writes_preserve(tb, entries@, ra);
                    },
                    _ => {},
                }
                crate::lemma_seq_index_of(tm.mut_borrows, addr);
            }
            track.return_borrowed_global_mut_value(addr, crate::track::SubstateValue::Resource(rm));
            let bucket_id = track.new_bucket_id();
            let bucket = crate::model::Bucket::new(container);
            let out = MethodOutput::BucketValue(bucket_id, bucket);
            proof {
                assert(mint_dispatch_post(rm0, tb, track.model(), witness, ra, Ok(out)));
            }
            Ok(out)
        } else if crate::str_eq(method_name, "non_fungible_exists") {
            let id = match dec_id_input(arg) {
                Some(id) => id,
                None => {
                    return Err(ResourceManagerError::InvalidRequestData(DecodeError::Malformed));
                },
            };
            let nfa = crate::types::NonFungibleAddress::new(ra, id);
            let present = track.get_non_fungible(&nfa).is_some();
            track.return_borrowed_global_mut_value(addr, crate::track::SubstateValue::Resource(rm));
            Ok(MethodOutput::BoolValue(present))
        } else if crate::str_eq(method_name, "non_fungible_data") {
            let id = match dec_id_input(arg) {
                Some(id) => id,
                None => {
                    return Err(ResourceManagerError::InvalidRequestData(DecodeError::Malformed));
                },
            };
            let nfa = crate::types::NonFungibleAddress::new(ra, id);
            let nf = match track.get_non_fungible(&nfa) {
                Some(nf) => nf,
                None => {
                    return Err(ResourceManagerError::NonFungibleNotFound(nfa));
                },
            };
            track.return_borrowed_global_mut_value(addr, crate::track::SubstateValue::Resource(rm));
            let crate::types::NonFungible { immutable_data, mutable_data } = nf;
            Ok(MethodOutput::DataValue(immutable_data, mutable_data))
        } else if crate::str_eq(method_name, "update_non_fungible_data") {
            let (id, data) = match dec_update_nf_input(arg) {
                Some(p) => p,
                None => {
                    return Err(ResourceManagerError::InvalidRequestData(DecodeError::Malformed));
                },
            };
            if !crate::values::check_nf_data(&data) {
                return Err(ResourceManagerError::InvalidNonFungibleData);
            }
            let nfa = crate::types::NonFungibleAddress::new(ra, id);
            let mut nf = match track.get_non_fungible(&nfa) {
                Some(nf) => nf,
                None => {
                    return Err(ResourceManagerError::NonFungibleNotFound(nfa));
                },
            };
            nf.set_mutable_data(data);
            proof {
                lemma_nf_key_unborrowed_with_manager(t0, tb, ra, nfa.non_fungible_id.0@);
            }
            track.set_non_fungible(nfa, Some(nf));
            track.return_borrowed_global_mut_value(addr, crate::track::SubstateValue::Resource(rm));
            Ok(MethodOutput::Unit)
        } else {
            Err(ResourceManagerError::InvalidMethod)
        }
    }
}

} // verus!
