//! The transactional state track: addresses, substate values, and the
//! overlay that mediates every read, write, borrow and creation of
//! on-ledger state during one transaction.

use vstd::prelude::*;

use crate::codec::{
    spec_enc_component_address, spec_enc_kv_store_id, spec_enc_package_address,
    spec_enc_resource_address, spec_enc_vault_id, push_component_address, push_kv_store_id,
    push_package_address, push_resource_address, push_vault_id,
};
use crate::model::{Component, ComponentView, PackageView, ValidatedPackage, Vault, ContainerView};
use crate::resource_manager::{ResourceManager, RmView};
use crate::types::{
    ComponentAddress, KeyValueStoreId, NonFungible, NonFungibleAddress, NonFungibleId,
    PackageAddress, ResourceAddress, VaultId,
};

verus! {

/// The address of a substate: a tagged union of the seven addressable kinds.
#[derive(Clone, Copy, PartialEq, Eq, Structural, Debug)]
pub enum Address {
    Resource(ResourceAddress),
    GlobalComponent(ComponentAddress),
    Package(PackageAddress),
    NonFungibleSet(ResourceAddress),
    KeyValueStore(ComponentAddress, KeyValueStoreId),
    Vault(ComponentAddress, VaultId),
    LocalComponent(ComponentAddress, ComponentAddress),
}

/// The canonical store key of an address: the concatenation of its parts'
/// encodings, parent first.  A non-fungible set is its resource's encoding
/// followed by a zero discriminator byte.
pub open spec fn spec_enc_address(a: Address) -> Seq<u8> {
    match a {
        Address::Resource(r) => spec_enc_resource_address(r),
        Address::GlobalComponent(c) => spec_enc_component_address(c),
        Address::Package(p) => spec_enc_package_address(p),
        Address::NonFungibleSet(r) => spec_enc_resource_address(r) + seq![0u8],
        Address::KeyValueStore(c, k) => spec_enc_component_address(c) + spec_enc_kv_store_id(k),
        Address::Vault(c, v) => spec_enc_component_address(c) + spec_enc_vault_id(v),
        Address::LocalComponent(c, child) => spec_enc_component_address(c)
            + spec_enc_component_address(child),
    }
}

impl Address {
    /// Builds the canonical store key.
    pub fn encode(&self) -> (r: Vec<u8>)
        ensures
            r@ == spec_enc_address(*self),
    {
        let mut out: Vec<u8> = Vec::new();
        match self {
            Address::Resource(r) => {
                push_resource_address(&mut out, r);
            },
            Address::GlobalComponent(c) => {
                push_component_address(&mut out, c);
            },
            Address::Package(p) => {
                push_package_address(&mut out, p);
            },
            Address::NonFungibleSet(r) => {
                push_resource_address(&mut out, r);
                out.push(0u8);
                assert(out@ =~= spec_enc_resource_address(*r) + seq![0u8]);
            },
            Address::KeyValueStore(c, k) => {
                push_component_address(&mut out, c);
                push_kv_store_id(&mut out, k);
            },
            Address::Vault(c, v) => {
                push_component_address(&mut out, c);
                push_vault_id(&mut out, v);
            },
            Address::LocalComponent(c, child) => {
                push_component_address(&mut out, c);
                push_component_address(&mut out, child);
            },
        }
        proof {
            assert(out@ =~= spec_enc_address(*self));
        }
        out
    }
}

/// A substate's payload: a tagged union of the six storable kinds.  The
/// `None` cases of the keyed kinds are tombstones, recording that an entry
/// is positively absent.
#[derive(Debug)]
pub enum SubstateValue {
    Resource(ResourceManager),
    Component(Component),
    Package(ValidatedPackage),
    Vault(Vault),
    NonFungible(Option<NonFungible>),
    KeyValueStoreEntry(Option<Vec<u8>>),
}

/// The view of a non-fungible's data halves.
pub struct NonFungibleView {
    pub immutable_data: Seq<u8>,
    pub mutable_data: Seq<u8>,
}

/// The view of a substate value.
pub enum SubstateView {
    Resource(RmView),
    Component(ComponentView),
    Package(PackageView),
    Vault(ContainerView),
    NonFungible(Option<NonFungibleView>),
    KeyValueStoreEntry(Option<Seq<u8>>),
}

impl View for SubstateValue {
    type V = SubstateView;

    open spec fn view(&self) -> SubstateView {
        match self {
            SubstateValue::Resource(rm) => SubstateView::Resource(rm@),
            SubstateValue::Component(c) => SubstateView::Component(c@),
            SubstateValue::Package(p) => SubstateView::Package(p@),
            SubstateValue::Vault(v) => SubstateView::Vault(v@),
            SubstateValue::NonFungible(nf) => SubstateView::NonFungible(
                match nf {
                    Some(n) => Some(
                        NonFungibleView {
                            immutable_data: n.immutable_data@,
                            mutable_data: n.mutable_data@,
                        },
                    ),
                    None => None,
                },
            ),
            SubstateValue::KeyValueStoreEntry(e) => SubstateView::KeyValueStoreEntry(
                match e {
                    Some(b) => Some(b@),
                    None => None,
                },
            ),
        }
    }
}

impl SubstateValue {
    pub fn vault(&self) -> (r: &Vault)
        requires
            self is Vault,
        ensures
            r == self->Vault_0,
    {
        match self {
            SubstateValue::Vault(vault) => vault,
            _ => vstd::pervasive::unreached(),
        }
    }

    pub fn vault_mut(&mut self) -> (r: &mut Vault)
        requires
            *old(self) is Vault,
        ensures
            *r == old(self)->Vault_0,
            *final(self) == SubstateValue::Vault(*final(r)),
    {
        match self {
            SubstateValue::Vault(vault) => vault,
            _ => vstd::pervasive::unreached(),
        }
    }

    pub fn resource_manager(&self) -> (r: &ResourceManager)
        requires
            self is Resource,
        ensures
            r == self->Resource_0,
    {
        match self {
            SubstateValue::Resource(resource_manager) => resource_manager,
            _ => vstd::pervasive::unreached(),
        }
    }

    pub fn resource_manager_mut(&mut self) -> (r: &mut ResourceManager)
        requires
            *old(self) is Resource,
        ensures
            *r == old(self)->Resource_0,
            *final(self) == SubstateValue::Resource(*final(r)),
    {
        match self {
            SubstateValue::Resource(resource_manager) => resource_manager,
            _ => vstd::pervasive::unreached(),
        }
    }

    pub fn component(&self) -> (r: &Component)
        requires
            self is Component,
        ensures
            r == self->Component_0,
    {
        match self {
            SubstateValue::Component(component) => component,
            _ => vstd::pervasive::unreached(),
        }
    }

    pub fn component_mut(&mut self) -> (r: &mut Component)
        requires
            *old(self) is Component,
        ensures
            *r == old(self)->Component_0,
            *final(self) == SubstateValue::Component(*final(r)),
    {
        match self {
            SubstateValue::Component(component) => component,
            _ => vstd::pervasive::unreached(),
        }
    }

    pub fn package(&self) -> (r: &ValidatedPackage)
        requires
            self is Package,
        ensures
            r == self->Package_0,
    {
        match self {
            SubstateValue::Package(package) => package,
            _ => vstd::pervasive::unreached(),
        }
    }

    pub fn kv_entry(&self) -> (r: &Option<Vec<u8>>)
        requires
            self is KeyValueStoreEntry,
        ensures
            r == self->KeyValueStoreEntry_0,
    {
        match self {
            SubstateValue::KeyValueStoreEntry(kv_entry) => kv_entry,
            _ => vstd::pervasive::unreached(),
        }
    }
}

} // verus!

verus! {

/// Identifies a concrete prior write in the store: the writing transaction's
/// hash and the operation's index within it.
#[derive(Clone, Copy, PartialEq, Eq, Structural, Debug)]
pub struct PhysicalSubstateId {
    pub hash: crate::types::Hash,
    pub index: u32,
}

/// A substate as the store hands it out: its encoded value and the physical
/// id of the write that produced it.
#[derive(Debug)]
pub struct Substate {
    pub value: Vec<u8>,
    pub phys_id: PhysicalSubstateId,
}

/// The parent of a keyed entry that has not been materialized: either a
/// physical space row, or a space created in this very transaction (by its
/// position in the new-space list).
#[derive(Clone, Copy, PartialEq, Eq, Structural, Debug)]
pub enum SubstateParentId {
    Exists(PhysicalSubstateId),
    New(usize),
}

/// A key within a keyed space prior to its materialization.
#[derive(Debug)]
pub struct VirtualSubstateId(pub SubstateParentId, pub Vec<u8>);

/// A staged update carrying the previous physical id, if any.
#[derive(Debug, Clone, PartialEq, Eq)]
pub struct SubstateUpdate<T> {
    pub prev_id: Option<PhysicalSubstateId>,
    pub value: T,
}

/// An error from a track operation.
#[derive(Clone, Copy, PartialEq, Eq, Structural, Debug)]
pub enum TrackError {
    Reentrancy,
    NotFound,
}

/// One store instruction of the commit receipt.
#[derive(Debug)]
pub enum SubstateOperation {
    Down(PhysicalSubstateId),
    VirtualDown(VirtualSubstateId),
    Up(Vec<u8>, Vec<u8>),
    VirtualUp(Vec<u8>),
}

/// The view of a store instruction.
pub enum SubstateOpView {
    Down(PhysicalSubstateId),
    VirtualDown((SubstateParentId, Seq<u8>)),
    Up((Seq<u8>, Seq<u8>)),
    VirtualUp(Seq<u8>),
}

impl View for SubstateOperation {
    type V = SubstateOpView;

    open spec fn view(&self) -> SubstateOpView {
        match self {
            SubstateOperation::Down(id) => SubstateOpView::Down(*id),
            SubstateOperation::VirtualDown(v) => SubstateOpView::VirtualDown((v.0, v.1@)),
            SubstateOperation::Up(k, v) => SubstateOpView::Up((k@, v@)),
            SubstateOperation::VirtualUp(k) => SubstateOpView::VirtualUp(k@),
        }
    }
}

/// The ordered list of store instructions a committed track produces.
#[derive(Debug)]
pub struct SubstateOperationsReceipt {
    pub substate_operations: Vec<SubstateOperation>,
}

/// The addresses still borrowed at commit; empty for a well-behaved
/// transaction.
#[derive(Debug)]
pub struct BorrowedSNodes {
    pub borrowed_substates: Vec<Address>,
}

impl BorrowedSNodes {
    pub fn is_empty(&self) -> (r: bool)
        ensures
            r == (self.borrowed_substates@.len() == 0),
    {
        self.borrowed_substates.len() == 0
    }
}

/// Everything a consumed track reports: new addresses, logs, still-borrowed
/// addresses, and the ordered substate operations.
#[derive(Debug)]
pub struct TrackReceipt {
    pub borrowed: BorrowedSNodes,
    pub new_addresses: Vec<Address>,
    pub logs: Vec<(crate::types::Level, String)>,
    pub substates: SubstateOperationsReceipt,
}

/// The read-only store interface the environment provides: substates by
/// encoded key, virtual-space rows by encoded space key, and the epoch.
pub trait ReadableSubstateStore {
    /// The substate rows: encoded key to (encoded value, physical id).
    spec fn store_view(&self) -> Map<Seq<u8>, (Seq<u8>, PhysicalSubstateId)>;

    /// The space rows: encoded space key to physical id.
    spec fn space_view(&self) -> Map<Seq<u8>, PhysicalSubstateId>;

    /// The current epoch.
    spec fn epoch_view(&self) -> u64;

    fn get_substate(&self, key: &Vec<u8>) -> (r: Option<Substate>)
        ensures
            ({
                let m = self.store_view();
                match r {
                    Some(s) => m.contains_key(key@) && s.value@ == m[key@].0 && s.phys_id
                        == m[key@].1,
                    None => !m.contains_key(key@),
                }
            }),
    ;

    fn get_space(&self, key: &Vec<u8>) -> (r: Option<PhysicalSubstateId>)
        ensures
            match r {
                Some(id) => self.space_view().contains_key(key@) && id == self.space_view()[key@],
                None => !self.space_view().contains_key(key@),
            },
    ;

    fn get_epoch(&self) -> (r: u64)
        ensures
            r == self.epoch_view(),
    ;
}

/// An in-memory substate store: association lists of rows, newest first
/// shadowing older entries not kept — keys are unique by construction of
/// `put_substate`.
pub struct InMemorySubstateStore {
    pub substates: Vec<(Vec<u8>, Substate)>,
    pub spaces: Vec<(Vec<u8>, PhysicalSubstateId)>,
    pub epoch: u64,
}

/// The map an association list of rows denotes; an earlier entry wins.
pub open spec fn assoc_map(s: Seq<(Seq<u8>, (Seq<u8>, PhysicalSubstateId))>) -> Map<
    Seq<u8>,
    (Seq<u8>, PhysicalSubstateId),
>
    decreases s.len(),
{
    if s.len() == 0 {
        Map::empty()
    } else {
        assoc_map(s.drop_first()).insert(s[0].0, s[0].1)
    }
}

pub open spec fn assoc_space_map(s: Seq<(Seq<u8>, PhysicalSubstateId)>) -> Map<
    Seq<u8>,
    PhysicalSubstateId,
>
    decreases s.len(),
{
    if s.len() == 0 {
        Map::empty()
    } else {
        assoc_space_map(s.drop_first()).insert(s[0].0, s[0].1)
    }
}

impl ReadableSubstateStore for InMemorySubstateStore {
    open spec fn store_view(&self) -> Map<Seq<u8>, (Seq<u8>, PhysicalSubstateId)> {
        assoc_map(substate_rows(self.substates@))
    }

    open spec fn space_view(&self) -> Map<Seq<u8>, PhysicalSubstateId> {
        assoc_space_map(space_rows(self.spaces@))
    }

    open spec fn epoch_view(&self) -> u64 {
        self.epoch
    }

    fn get_substate(&self, key: &Vec<u8>) -> (r: Option<Substate>) {
        let ghost rows = substate_rows(self.substates@);
        let mut i: usize = 0;
        while i < self.substates.len()
            invariant
                i <= self.substates@.len(),
                rows == substate_rows(self.substates@),
                rows.len() == self.substates@.len(),
                forall|j: int| 0 <= j < i ==> (#[trigger] rows[j]).0 != key@,
            decreases self.substates@.len() - i,
        {
            let row = &self.substates[i];
            proof {
                assert(rows[i as int] == (row.0@, (row.1.value@, row.1.phys_id)));
            }
            if crate::bytes_eq(&row.0, key) {
                let s = Substate {
                    value: crate::clone_bytes(&row.1.value),
                    phys_id: row.1.phys_id,
                };
                proof {
                    crate::lemma_assoc_index(rows, key@);
                    lemma_assoc_map_lookup(rows, key@);
                    assert(crate::assoc_index(rows, key@) == i as int);
                }
                return Some(s);
            }
            i += 1;
        }
        proof {
            crate::lemma_assoc_index(rows, key@);
            lemma_assoc_map_lookup(rows, key@);
            assert(crate::assoc_index(rows, key@) == -1);
        }
        None
    }

    fn get_space(&self, key: &Vec<u8>) -> (r: Option<PhysicalSubstateId>) {
        let ghost rows = space_rows(self.spaces@);
        let mut i: usize = 0;
        while i < self.spaces.len()
            invariant
                i <= self.spaces@.len(),
                rows == space_rows(self.spaces@),
                rows.len() == self.spaces@.len(),
                forall|j: int| 0 <= j < i ==> (#[trigger] rows[j]).0 != key@,
            decreases self.spaces@.len() - i,
        {
            let row = &self.spaces[i];
            proof {
                assert(rows[i as int] == (row.0@, row.1));
            }
            if crate::bytes_eq(&row.0, key) {
                proof {
                    crate::lemma_assoc_index(rows, key@);
                    lemma_assoc_space_map_lookup(rows, key@);
                    assert(crate::assoc_index(rows, key@) == i as int);
                }
                return Some(row.1);
            }
            i += 1;
        }
        proof {
            crate::lemma_assoc_index(rows, key@);
            lemma_assoc_space_map_lookup(rows, key@);
            assert(crate::assoc_index(rows, key@) == -1);
        }
        None
    }

    fn get_epoch(&self) -> (r: u64) {
        self.epoch
    }
}

/// The spec rows of the substate list.
pub open spec fn substate_rows(s: Seq<(Vec<u8>, Substate)>) -> Seq<
    (Seq<u8>, (Seq<u8>, PhysicalSubstateId)),
> {
    s.map(|i: int, row: (Vec<u8>, Substate)| (row.0@, (row.1.value@, row.1.phys_id)))
}

/// The spec rows of the space list.
pub open spec fn space_rows(s: Seq<(Vec<u8>, PhysicalSubstateId)>) -> Seq<
    (Seq<u8>, PhysicalSubstateId),
> {
    s.map(|i: int, row: (Vec<u8>, PhysicalSubstateId)| (row.0@, row.1))
}

/// An association-list map looks up the first entry with the key.
proof fn lemma_assoc_map_lookup(rows: Seq<(Seq<u8>, (Seq<u8>, PhysicalSubstateId))>, key: Seq<u8>)
    ensures
        ({
            let ai = crate::assoc_index(rows, key);
            if ai >= 0 {
                assoc_map(rows).contains_key(key) && assoc_map(rows)[key] == rows[ai].1
            } else {
                !assoc_map(rows).contains_key(key)
            }
        }),
    decreases rows.len(),
{
    crate::lemma_assoc_index(rows, key);
    if rows.len() > 0 {
        lemma_assoc_map_lookup(rows.drop_first(), key);
        crate::lemma_assoc_index(rows.drop_first(), key);
        if rows[0].0 != key {
            let r = crate::assoc_index(rows.drop_first(), key);
            if r >= 0 {
                assert(rows[crate::assoc_index(rows, key)] == rows.drop_first()[r]);
            }
        }
    }
}

proof fn lemma_assoc_space_map_lookup(rows: Seq<(Seq<u8>, PhysicalSubstateId)>, key: Seq<u8>)
    ensures
        ({
            let ai = crate::assoc_index(rows, key);
            if ai >= 0 {
                assoc_space_map(rows).contains_key(key) && assoc_space_map(rows)[key] == rows[ai].1
            } else {
                !assoc_space_map(rows).contains_key(key)
            }
        }),
    decreases rows.len(),
{
    crate::lemma_assoc_index(rows, key);
    if rows.len() > 0 {
        lemma_assoc_space_map_lookup(rows.drop_first(), key);
        crate::lemma_assoc_index(rows.drop_first(), key);
        if rows[0].0 != key {
            let r = crate::assoc_index(rows.drop_first(), key);
            if r >= 0 {
                assert(rows[crate::assoc_index(rows, key)] == rows.drop_first()[r]);
            }
        }
    }
}

impl InMemorySubstateStore {
    /// An empty store at epoch zero.
    pub fn new() -> (r: Self)
        ensures
            r.store_view() == Map::<Seq<u8>, (Seq<u8>, PhysicalSubstateId)>::empty(),
            r.space_view() == Map::<Seq<u8>, PhysicalSubstateId>::empty(),
            r.epoch_view() == 0u64,
    {
        let r = InMemorySubstateStore { substates: Vec::new(), spaces: Vec::new(), epoch: 0 };
        proof {
            assert(substate_rows(r.substates@) =~= Seq::<
                (Seq<u8>, (Seq<u8>, PhysicalSubstateId)),
            >::empty());
            assert(space_rows(r.spaces@) =~= Seq::<(Seq<u8>, PhysicalSubstateId)>::empty());
        }
        r
    }

    /// Seeds a substate row; the newest row for a key wins.
    pub fn put_substate(&mut self, key: Vec<u8>, value: Vec<u8>, phys_id: PhysicalSubstateId)
        ensures
            final(self).store_view() == old(self).store_view().insert(key@, (value@, phys_id)),
            final(self).space_view() == old(self).space_view(),
            final(self).epoch_view() == old(self).epoch_view(),
    {
        let ghost old_rows = substate_rows(self.substates@);
        self.substates.insert(0, (key, Substate { value, phys_id }));
        proof {
            let new_rows = substate_rows(self.substates@);
            assert(new_rows.drop_first() =~= old_rows);
            assert(new_rows[0] == (key@, (value@, phys_id)));
            assert(new_rows == seq![new_rows[0]] + new_rows.drop_first() || new_rows.len() > 0);
        }
    }

    /// Seeds a space row; the newest row for a key wins.
    pub fn put_space(&mut self, key: Vec<u8>, phys_id: PhysicalSubstateId)
        ensures
            final(self).space_view() == old(self).space_view().insert(key@, phys_id),
            final(self).store_view() == old(self).store_view(),
            final(self).epoch_view() == old(self).epoch_view(),
    {
        let ghost old_rows = space_rows(self.spaces@);
        self.spaces.insert(0, (key, phys_id));
        proof {
            let new_rows = space_rows(self.spaces@);
            assert(new_rows.drop_first() =~= old_rows);
            assert(new_rows[0] == (key@, phys_id));
        }
    }
}

} // verus!

verus! {

/// The views of a virtual-down list.
pub open spec fn vdown_views(s: Seq<VirtualSubstateId>) -> Seq<(SubstateParentId, Seq<u8>)> {
    s.map(|i: int, v: VirtualSubstateId| (v.0, v.1@))
}

/// The spec pairs of a drained entry list.
pub open spec fn up_pairs(s: Seq<(Vec<u8>, SubstateValue)>) -> Seq<(Seq<u8>, SubstateValue)> {
    s.map(|i: int, e: (Vec<u8>, SubstateValue)| (e.0@, e.1))
}

/// The views of a drained space list.
pub open spec fn space_views(s: Seq<Vec<u8>>) -> Seq<Seq<u8>> {
    s.map(|i: int, e: Vec<u8>| e@)
}

/// The addresses of a borrow table.
pub open spec fn bt_addrs(s: Seq<(Address, SubstateValue)>) -> Seq<Address> {
    s.map(|i: int, e: (Address, SubstateValue)| e.0)
}

/// Down instructions for a list of physical ids.
pub open spec fn down_ops(s: Seq<PhysicalSubstateId>) -> Seq<SubstateOpView> {
    s.map(|i: int, d: PhysicalSubstateId| SubstateOpView::Down(d))
}

/// Virtual-down instructions for a list of virtual ids.
pub open spec fn vdown_ops(s: Seq<(SubstateParentId, Seq<u8>)>) -> Seq<SubstateOpView> {
    s.map(|i: int, v: (SubstateParentId, Seq<u8>)| SubstateOpView::VirtualDown(v))
}

/// Up instructions for staged writes, with each value's canonical bytes.
pub open spec fn up_ops(s: Seq<(Seq<u8>, SubstateValue)>) -> Seq<SubstateOpView> {
    s.map(
        |i: int, e: (Seq<u8>, SubstateValue)| SubstateOpView::Up(
            (e.0, crate::value_codec::spec_enc_substate(e.1@)),
        ),
    )
}

/// Virtual-up instructions for new spaces.
pub open spec fn space_ops(s: Seq<Seq<u8>>) -> Seq<SubstateOpView> {
    s.map(|i: int, k: Seq<u8>| SubstateOpView::VirtualUp(k))
}

/// The abstract state of a track: the store it reads, its identifier
/// allocator, and the overlay's books, with collections as sequences in
/// insertion order.
pub struct TrackState {
    pub store: Map<Seq<u8>, (Seq<u8>, PhysicalSubstateId)>,
    pub store_spaces: Map<Seq<u8>, PhysicalSubstateId>,
    pub epoch: u64,
    pub transaction_hash: crate::types::Hash,
    pub allocator: crate::id_allocator::IdAllocator,
    pub logs: Seq<(crate::types::Level, String)>,
    pub new_addresses: Seq<Address>,
    pub mut_borrows: Seq<Address>,
    pub borrow_table: Seq<(Address, SubstateValue)>,
    pub reads: Seq<(Seq<u8>, SubstateValue)>,
    pub downed: Seq<PhysicalSubstateId>,
    pub vdowns: Seq<(SubstateParentId, Seq<u8>)>,
    pub up: Seq<(Seq<u8>, SubstateValue)>,
    pub spaces: Seq<Seq<u8>>,
}

/// Removes entry `i` by swapping in the last entry, as the staged-write map
/// does.
pub open spec fn seq_swap_remove<T>(s: Seq<T>, i: int) -> Seq<T> {
    s.update(i, s.last()).drop_last()
}

/// Inserts into an entry list: an existing key keeps its place, a new key
/// goes last.
pub open spec fn entries_insert(
    s: Seq<(Seq<u8>, SubstateValue)>,
    key: Seq<u8>,
    value: SubstateValue,
) -> Seq<(Seq<u8>, SubstateValue)> {
    let i = crate::assoc_index(s, key);
    if i >= 0 {
        s.update(i, (s[i].0, value))
    } else {
        s.push((key, value))
    }
}

/// Well-formedness of the three overlay books: each is duplicate-free and
/// no address is borrowed while its key is staged.
pub open spec fn books_wf(
    up: Seq<(Seq<u8>, SubstateValue)>,
    bt: Seq<(Address, SubstateValue)>,
    mb: Seq<Address>,
) -> bool {
    &&& forall|i: int, j: int| 0 <= i < j < up.len() ==> (#[trigger] up[i]).0 != (#[trigger] up[j]).0
    &&& forall|i: int, j: int|
        0 <= i < j < bt.len() ==> (#[trigger] bt[i]).0 != (#[trigger] bt[j]).0
    &&& forall|i: int, j: int| 0 <= i < j < mb.len() ==> #[trigger] mb[i] != #[trigger] mb[j]
    &&& forall|i: int|
        0 <= i < bt.len() ==> crate::assoc_index(up, spec_enc_address((#[trigger] bt[i]).0)) < 0
    &&& forall|i: int|
        0 <= i < mb.len() ==> crate::assoc_index(up, spec_enc_address(#[trigger] mb[i])) < 0
    &&& forall|i: int, j: int|
        0 <= i < bt.len() && 0 <= j < mb.len() ==> (#[trigger] bt[i]).0 != #[trigger] mb[j]
}

/// Well-formedness of a track state.
pub open spec fn ts_wf(t: TrackState) -> bool {
    books_wf(t.up, t.borrow_table, t.mut_borrows)
}

/// Whether either borrow path holds `addr`.
pub open spec fn is_borrowed(t: TrackState, addr: Address) -> bool {
    crate::assoc_index(t.borrow_table, addr) >= 0 || crate::seq_index_of(t.mut_borrows, addr) >= 0
}


/// Whether bytes decode to a substate of each kind.
pub open spec fn dec_is_package(b: Seq<u8>) -> bool {
    crate::value_codec::spec_dec_substate(b) matches Some(v) && (v is Package)
}

pub open spec fn dec_is_component(b: Seq<u8>) -> bool {
    crate::value_codec::spec_dec_substate(b) matches Some(v) && (v is Component)
}

pub open spec fn dec_is_resource(b: Seq<u8>) -> bool {
    crate::value_codec::spec_dec_substate(b) matches Some(v) && (v is Resource)
}

pub open spec fn dec_is_vault(b: Seq<u8>) -> bool {
    crate::value_codec::spec_dec_substate(b) matches Some(v) && (v is Vault)
}

pub open spec fn dec_is_non_fungible(b: Seq<u8>) -> bool {
    crate::value_codec::spec_dec_substate(b) matches Some(v) && (v is NonFungible)
}

pub open spec fn dec_is_kv_entry(b: Seq<u8>) -> bool {
    crate::value_codec::spec_dec_substate(b) matches Some(v) && (v is KeyValueStoreEntry)
}

/// Whether a store's rows decode to the kinds their keys imply.
pub open spec fn store_ok(store: Map<Seq<u8>, (Seq<u8>, PhysicalSubstateId)>) -> bool {
    &&& forall|p: PackageAddress|
        store.contains_key(#[trigger] spec_enc_package_address(p))
            ==> dec_is_package(store[spec_enc_package_address(p)].0)
    &&& forall|c: ComponentAddress|
        store.contains_key(#[trigger] spec_enc_component_address(c))
            ==> dec_is_component(store[spec_enc_component_address(c)].0)
    &&& forall|c: ComponentAddress, child: ComponentAddress|
        store.contains_key(
            #[trigger] (spec_enc_component_address(c) + spec_enc_component_address(child)),
        ) ==> dec_is_component(
            store[spec_enc_component_address(c) + spec_enc_component_address(child)].0,
        )
    &&& forall|r: ResourceAddress|
        store.contains_key(#[trigger] spec_enc_resource_address(r))
            ==> dec_is_resource(store[spec_enc_resource_address(r)].0)
    &&& forall|c: ComponentAddress, vid: VaultId|
        store.contains_key(#[trigger] (spec_enc_component_address(c) + spec_enc_vault_id(vid)))
            ==> dec_is_vault(store[spec_enc_component_address(c) + spec_enc_vault_id(vid)].0)
    &&& forall|r: ResourceAddress, key: Seq<u8>|
        store.contains_key(
            #[trigger] (spec_enc_address(Address::NonFungibleSet(r)) + key),
        ) ==> dec_is_non_fungible(store[spec_enc_address(Address::NonFungibleSet(r)) + key].0)
    &&& forall|c: ComponentAddress, k: KeyValueStoreId, key: Seq<u8>|
        store.contains_key(
            #[trigger] (spec_enc_address(Address::KeyValueStore(c, k)) + key),
        ) ==> dec_is_kv_entry(store[spec_enc_address(Address::KeyValueStore(c, k)) + key].0)
}

/// Facilitates transactional state updates: the overlay between a
/// transaction's processes and the substate store.
pub struct Track<S: ReadableSubstateStore> {
    pub substate_store: S,
    pub transaction_hash: crate::types::Hash,
    pub id_allocator: crate::id_allocator::IdAllocator,
    pub logs: Vec<(crate::types::Level, String)>,
    pub new_addresses: Vec<Address>,
    pub borrowed_substates: Vec<Address>,
    pub borrowed_substates_2: Vec<(Address, SubstateValue)>,
    pub read_substates: indexmap::IndexMap<Vec<u8>, SubstateValue>,
    pub downed_substates: Vec<PhysicalSubstateId>,
    pub down_virtual_substates: Vec<VirtualSubstateId>,
    pub up_substates: indexmap::IndexMap<Vec<u8>, SubstateValue>,
    pub up_virtual_substate_space: indexmap::IndexSet<Vec<u8>>,
}

impl<S: ReadableSubstateStore> Track<S> {
    /// The abstract state.
    pub open spec fn model(&self) -> TrackState {
        TrackState {
            store: self.substate_store.store_view(),
            store_spaces: self.substate_store.space_view(),
            epoch: self.substate_store.epoch_view(),
            transaction_hash: self.transaction_hash,
            allocator: self.id_allocator,
            logs: self.logs@,
            new_addresses: self.new_addresses@,
            mut_borrows: self.borrowed_substates@,
            borrow_table: self.borrowed_substates_2@,
            reads: crate::imap::im_entries(self.read_substates),
            downed: self.downed_substates@,
            vdowns: vdown_views(self.down_virtual_substates@),
            up: crate::imap::im_entries(self.up_substates),
            spaces: crate::imap::iset_entries(self.up_virtual_substate_space),
        }
    }

    pub open spec fn wf(&self) -> bool {
        ts_wf(self.model())
    }

    /// A fresh track over a store.
    pub fn new(substate_store: S, transaction_hash: crate::types::Hash) -> (r: Track<S>)
        ensures
            r.model() == (TrackState {
                store: substate_store.store_view(),
                store_spaces: substate_store.space_view(),
                epoch: substate_store.epoch_view(),
                transaction_hash,
                allocator: crate::id_allocator::IdAllocator {
                    package_counter: 0,
                    component_counter: 0,
                    resource_counter: 0,
                    vault_counter: 0,
                    kv_store_counter: 0,
                    uuid_counter: 0,
                    bucket_counter: 0,
                    proof_counter: 0,
                },
                logs: Seq::empty(),
                new_addresses: Seq::empty(),
                mut_borrows: Seq::empty(),
                borrow_table: Seq::empty(),
                reads: Seq::empty(),
                downed: Seq::empty(),
                vdowns: Seq::empty(),
                up: Seq::empty(),
                spaces: Seq::empty(),
            }),
            r.wf(),
    {
        let t = Track {
            substate_store,
            transaction_hash,
            id_allocator: crate::id_allocator::IdAllocator::new(),
            logs: Vec::new(),
            new_addresses: Vec::new(),
            borrowed_substates: Vec::new(),
            borrowed_substates_2: Vec::new(),
            read_substates: crate::imap::im_new(),
            downed_substates: Vec::new(),
            down_virtual_substates: Vec::new(),
            up_substates: crate::imap::im_new(),
            up_virtual_substate_space: crate::imap::iset_new(),
        };
        proof {
            assert(vdown_views(t.down_virtual_substates@) =~= Seq::<
                (SubstateParentId, Seq<u8>),
            >::empty());
        }
        t
    }

    /// Returns the transaction hash.
    pub fn transaction_hash(&self) -> (r: crate::types::Hash)
        ensures
            r == self.model().transaction_hash,
    {
        self.transaction_hash
    }

    /// Returns the current epoch.
    pub fn current_epoch(&self) -> (r: u64)
        ensures
            r == self.model().epoch,
    {
        self.substate_store.get_epoch()
    }

    /// Adds a log message.
    pub fn add_log(&mut self, level: crate::types::Level, message: String)
        ensures
            final(self).model() == (TrackState {
                logs: old(self).model().logs.push((level, message)),
                ..old(self).model()
            }),
            old(self).wf() ==> final(self).wf(),
    {
        let ghost pre = self.model();
        self.logs.push((level, message));
        proof {
            let lv = level;
            assert(self.model() == (TrackState { logs: pre.logs.push((lv, message)), ..pre }));
            assert(ts_wf(pre) ==> ts_wf(self.model()));
        }
    }

    /// Creates a new component address.
    pub fn new_component_address(&mut self) -> (r: ComponentAddress)
        requires
            old(self).model().allocator.component_counter < u32::MAX,
        ensures
            r == (ComponentAddress {
                hi: crate::id_allocator::spec_derived_hi(
                    old(self).model().transaction_hash,
                    crate::id_allocator::SPACE_TAG_COMPONENT,
                ),
                lo: crate::id_allocator::spec_derived_lo(
                    old(self).model().transaction_hash,
                    old(self).model().allocator.component_counter,
                ),
            }),
            final(self).model() == (TrackState {
                allocator: crate::id_allocator::IdAllocator {
                    component_counter: (old(self).model().allocator.component_counter + 1) as u32,
                    ..old(self).model().allocator
                },
                ..old(self).model()
            }),
            old(self).wf() ==> final(self).wf(),
    {
        let hash = self.transaction_hash;
        self.id_allocator.new_component_address(hash)
    }

    /// Creates a new resource address.
    pub fn new_resource_address(&mut self) -> (r: ResourceAddress)
        requires
            old(self).model().allocator.resource_counter < u32::MAX,
        ensures
            r == (ResourceAddress {
                hi: crate::id_allocator::spec_derived_hi(
                    old(self).model().transaction_hash,
                    crate::id_allocator::SPACE_TAG_RESOURCE,
                ),
                lo: crate::id_allocator::spec_derived_lo(
                    old(self).model().transaction_hash,
                    old(self).model().allocator.resource_counter,
                ),
            }),
            final(self).model() == (TrackState {
                allocator: crate::id_allocator::IdAllocator {
                    resource_counter: (old(self).model().allocator.resource_counter + 1) as u32,
                    ..old(self).model().allocator
                },
                ..old(self).model()
            }),
            old(self).wf() ==> final(self).wf(),
    {
        let hash = self.transaction_hash;
        self.id_allocator.new_resource_address(hash)
    }

    /// Creates a new package address.
    fn new_package_address(&mut self) -> (r: PackageAddress)
        requires
            old(self).model().allocator.package_counter < u32::MAX,
        ensures
            r == (PackageAddress {
                hi: crate::id_allocator::spec_derived_hi(
                    old(self).model().transaction_hash,
                    crate::id_allocator::SPACE_TAG_PACKAGE,
                ),
                lo: crate::id_allocator::spec_derived_lo(
                    old(self).model().transaction_hash,
                    old(self).model().allocator.package_counter,
                ),
            }),
            final(self).model() == (TrackState {
                allocator: crate::id_allocator::IdAllocator {
                    package_counter: (old(self).model().allocator.package_counter + 1) as u32,
                    ..old(self).model().allocator
                },
                ..old(self).model()
            }),
            old(self).wf() ==> final(self).wf(),
    {
        let hash = self.transaction_hash;
        self.id_allocator.new_package_address(hash)
    }

    /// Creates a new UUID.
    pub fn new_uuid(&mut self) -> (r: u128)
        requires
            old(self).model().allocator.uuid_counter < u32::MAX,
        ensures
            r == crate::id_allocator::spec_derived_uuid(
                old(self).model().transaction_hash,
                old(self).model().allocator.uuid_counter,
            ),
            final(self).model() == (TrackState {
                allocator: crate::id_allocator::IdAllocator {
                    uuid_counter: (old(self).model().allocator.uuid_counter + 1) as u32,
                    ..old(self).model().allocator
                },
                ..old(self).model()
            }),
            old(self).wf() ==> final(self).wf(),
    {
        let hash = self.transaction_hash;
        self.id_allocator.new_uuid(hash)
    }

    /// Creates a new bucket id.
    pub fn new_bucket_id(&mut self) -> (r: crate::types::BucketId)
        requires
            old(self).model().allocator.bucket_counter < u32::MAX,
        ensures
            r == old(self).model().allocator.bucket_counter,
            final(self).model() == (TrackState {
                allocator: crate::id_allocator::IdAllocator {
                    bucket_counter: (old(self).model().allocator.bucket_counter + 1) as u32,
                    ..old(self).model().allocator
                },
                ..old(self).model()
            }),
            old(self).wf() ==> final(self).wf(),
    {
        self.id_allocator.new_bucket_id()
    }

    /// Creates a new vault id.
    pub fn new_vault_id(&mut self) -> (r: VaultId)
        requires
            old(self).model().allocator.vault_counter < u32::MAX,
        ensures
            r == (VaultId {
                hash: old(self).model().transaction_hash,
                index: old(self).model().allocator.vault_counter,
            }),
            final(self).model() == (TrackState {
                allocator: crate::id_allocator::IdAllocator {
                    vault_counter: (old(self).model().allocator.vault_counter + 1) as u32,
                    ..old(self).model().allocator
                },
                ..old(self).model()
            }),
            old(self).wf() ==> final(self).wf(),
    {
        let hash = self.transaction_hash;
        self.id_allocator.new_vault_id(hash)
    }

    /// Creates a new proof id.
    pub fn new_proof_id(&mut self) -> (r: crate::types::ProofId)
        requires
            old(self).model().allocator.proof_counter < u32::MAX,
        ensures
            r == old(self).model().allocator.proof_counter,
            final(self).model() == (TrackState {
                allocator: crate::id_allocator::IdAllocator {
                    proof_counter: (old(self).model().allocator.proof_counter + 1) as u32,
                    ..old(self).model().allocator
                },
                ..old(self).model()
            }),
            old(self).wf() ==> final(self).wf(),
    {
        self.id_allocator.new_proof_id()
    }

    /// Creates a new key-value store id.
    pub fn new_kv_store_id(&mut self) -> (r: KeyValueStoreId)
        requires
            old(self).model().allocator.kv_store_counter < u32::MAX,
        ensures
            r == (KeyValueStoreId {
                hash: old(self).model().transaction_hash,
                index: old(self).model().allocator.kv_store_counter,
            }),
            final(self).model() == (TrackState {
                allocator: crate::id_allocator::IdAllocator {
                    kv_store_counter: (old(self).model().allocator.kv_store_counter + 1) as u32,
                    ..old(self).model().allocator
                },
                ..old(self).model()
            }),
            old(self).wf() ==> final(self).wf(),
    {
        let hash = self.transaction_hash;
        self.id_allocator.new_kv_store_id(hash)
    }
}

} // verus!

verus! {

/// The kinds a lock fault can materialize from the store.
pub open spec fn borrowable_on_fault(addr: Address) -> bool {
    addr is GlobalComponent || addr is LocalComponent || addr is Resource || addr is Vault
}

/// The kinds a moving borrow can materialize from the store.
pub open spec fn mut_borrowable_on_fault(addr: Address) -> bool {
    addr is GlobalComponent || addr is Resource || addr is Vault || addr is Package
}

/// A lock request is in the track's domain: served from the overlay, a
/// reentrant error, absent, or of a kind the store path supports.
pub open spec fn take_lock_allowed(pre: TrackState, addr: Address) -> bool {
    ||| crate::assoc_index(pre.up, spec_enc_address(addr)) >= 0
    ||| is_borrowed(pre, addr)
    ||| !pre.store.contains_key(spec_enc_address(addr))
    ||| borrowable_on_fault(addr)
}

/// How `take_lock` moves the state: an overlay hit moves the value into the
/// borrow table; a second borrow is a reentrancy error; a store hit records
/// one `Down` and borrows the decoded value; a miss changes nothing.
pub open spec fn take_lock_post(
    pre: TrackState,
    post: TrackState,
    addr: Address,
    r: Result<(), TrackError>,
) -> bool {
    let key = spec_enc_address(addr);
    let i = crate::assoc_index(pre.up, key);
    if i >= 0 {
        &&& r is Ok
        &&& post == (TrackState {
            up: seq_swap_remove(pre.up, i),
            borrow_table: pre.borrow_table.push((addr, pre.up[i].1)),
            ..pre
        })
    } else if is_borrowed(pre, addr) {
        &&& r == Err::<(), TrackError>(TrackError::Reentrancy)
        &&& post == pre
    } else if pre.store.contains_key(key) {
        &&& r is Ok
        &&& post.borrow_table.len() == pre.borrow_table.len() + 1
        &&& post.borrow_table.take(pre.borrow_table.len() as int) == pre.borrow_table
        &&& post.borrow_table.last().0 == addr
        &&& Some(post.borrow_table.last().1@) == crate::value_codec::spec_dec_substate(
            pre.store[key].0,
        )
        &&& post == (TrackState {
            borrow_table: post.borrow_table,
            downed: pre.downed.push(pre.store[key].1),
            ..pre
        })
    } else {
        &&& r == Err::<(), TrackError>(TrackError::NotFound)
        &&& post == pre
    }
}

impl<S: ReadableSubstateStore> Track<S> {
    /// Finds the borrow-table position of an address.
    fn find_borrow_index(&self, addr: Address) -> (r: Option<usize>)
        ensures
            ({
                let i = crate::assoc_index(self.model().borrow_table, addr);
                match r {
                    Some(j) => i == j,
                    None => i == -1,
                }
            }),
    {
        let ghost tbl = self.model().borrow_table;
        proof {
            crate::lemma_assoc_index(tbl, addr);
        }
        let mut i: usize = 0;
        while i < self.borrowed_substates_2.len()
            invariant
                i <= tbl.len(),
                tbl == self.model().borrow_table,
                tbl.len() == self.borrowed_substates_2@.len(),
                forall|j: int| 0 <= j < i ==> (#[trigger] tbl[j]).0 != addr,
            decreases tbl.len() - i,
        {
            if self.borrowed_substates_2[i].0 == addr {
                proof {
                    crate::lemma_assoc_index(tbl, addr);
                }
                return Some(i);
            }
            i += 1;
        }
        proof {
            crate::lemma_assoc_index(tbl, addr);
        }
        None
    }

    /// Finds the position of an address in the moving-borrow list.
    fn find_mut_borrow_index(&self, addr: Address) -> (r: Option<usize>)
        ensures
            ({
                let i = crate::seq_index_of(self.model().mut_borrows, addr);
                match r {
                    Some(j) => i == j,
                    None => i == -1,
                }
            }),
    {
        let ghost tbl = self.model().mut_borrows;
        let mut i: usize = 0;
        while i < self.borrowed_substates.len()
            invariant
                i <= tbl.len(),
                tbl == self.model().mut_borrows,
                tbl.len() == self.borrowed_substates@.len(),
                forall|j: int| 0 <= j < i ==> #[trigger] tbl[j] != addr,
            decreases tbl.len() - i,
        {
            if self.borrowed_substates[i] == addr {
                proof {
                    crate::lemma_seq_index_of(tbl, addr);
                }
                return Some(i);
            }
            i += 1;
        }
        proof {
            crate::lemma_seq_index_of(tbl, addr);
        }
        None
    }

    /// Locks a substate for exclusive use, faulting it in from the store on
    /// first touch.
    pub fn take_lock(&mut self, addr: Address) -> (r: Result<(), TrackError>)
        requires
            old(self).wf(),
            store_ok(old(self).model().store),
            take_lock_allowed(old(self).model(), addr),
        ensures
            final(self).wf(),
            take_lock_post(old(self).model(), final(self).model(), addr, r),
    {
        let ghost pre = self.model();
        let key = addr.encode();
        proof {
            crate::lemma_assoc_index(pre.up, key@);
        }
        let removed = crate::imap::im_remove(&mut self.up_substates, &key);
        match removed {
            Some(value) => {
                let ghost i = crate::assoc_index(pre.up, key@);
                self.borrowed_substates_2.push((addr, value));
                proof {
                    let post = self.model();
                    assert(post == (TrackState {
                        up: seq_swap_remove(pre.up, i),
                        borrow_table: pre.borrow_table.push((addr, pre.up[i].1)),
                        ..pre
                    }));
                    lemma_wf_after_lock_hit(pre, addr, i);
                }
                return Ok(());
            },
            None => {},
        }
        let in_lock_table = self.find_borrow_index(addr);
        let in_mut_set = self.find_mut_borrow_index(addr);
        if in_lock_table.is_some() || in_mut_set.is_some() {
            proof {
                assert(self.model() == pre);
            }
            return Err(TrackError::Reentrancy);
        }
        match self.substate_store.get_substate(&key) {
            Some(substate) => {
                self.downed_substates.push(substate.phys_id);
                let decoded = match crate::value_codec::dec_substate_value(&substate.value) {
                    Some(v) => v,
                    None => {
                        proof {
                            lemma_store_ok_decodes(pre.store, addr);
                        }
                        vstd::pervasive::unreached()
                    },
                };
                match addr {
                    Address::GlobalComponent(_) | Address::LocalComponent(..)
                    | Address::Resource(_) | Address::Vault(..) => {},
                    _ => {
                        return vstd::pervasive::unreached();
                    },
                }
                self.borrowed_substates_2.push((addr, decoded));
                proof {
                    let post = self.model();
                    assert(post.borrow_table =~= pre.borrow_table.push((addr, post.borrow_table.last().1)));
                    assert(post.borrow_table.take(pre.borrow_table.len() as int)
                        =~= pre.borrow_table);
                    assert(post == (TrackState {
                        borrow_table: post.borrow_table,
                        downed: pre.downed.push(pre.store[key@].1),
                        ..pre
                    }));
                    lemma_wf_after_fault(pre, addr, post.borrow_table.last().1, pre.store[key@].1);
                    assert(post.borrow_table == pre.borrow_table.push((addr, post.borrow_table.last().1)));
                }
                Ok(())
            },
            None => {
                proof {
                    assert(self.model() == pre);
                }
                Err(TrackError::NotFound)
            },
        }
    }
}

/// A store that satisfies `store_ok` decodes every row a lock fault can
/// reach.
proof fn lemma_store_ok_decodes(store: Map<Seq<u8>, (Seq<u8>, PhysicalSubstateId)>, addr: Address)
    requires
        store_ok(store),
        store.contains_key(spec_enc_address(addr)),
        borrowable_on_fault(addr) || mut_borrowable_on_fault(addr),
    ensures
        crate::value_codec::spec_dec_substate(store[spec_enc_address(addr)].0) is Some,
{
    match addr {
        Address::GlobalComponent(c) => {
            assert(store.contains_key(spec_enc_component_address(c)));
        },
        Address::LocalComponent(c, child) => {
            assert(store.contains_key(
                spec_enc_component_address(c) + spec_enc_component_address(child),
            ));
        },
        Address::Resource(r) => {
            assert(store.contains_key(spec_enc_resource_address(r)));
        },
        Address::Vault(c, v) => {
            assert(store.contains_key(spec_enc_component_address(c) + spec_enc_vault_id(v)));
        },
        Address::Package(p) => {
            assert(store.contains_key(spec_enc_package_address(p)));
        },
        _ => {},
    }
}

/// After a lock served from the overlay, the books stay well-formed.
proof fn lemma_wf_after_lock_hit(pre: TrackState, addr: Address, i: int)
    requires
        ts_wf(pre),
        i == crate::assoc_index(pre.up, spec_enc_address(addr)),
        0 <= i < pre.up.len(),
    ensures
        ts_wf(
            TrackState {
                up: seq_swap_remove(pre.up, i),
                borrow_table: pre.borrow_table.push((addr, pre.up[i].1)),
                ..pre
            },
        ),
{
    let key = spec_enc_address(addr);
    crate::lemma_assoc_index(pre.up, key);
    let new_up = seq_swap_remove(pre.up, i);
    let new_bt = pre.borrow_table.push((addr, pre.up[i].1));
    assert(new_up.len() == pre.up.len() - 1);
    assert(forall|j: int|
        0 <= j < new_up.len() ==> #[trigger] new_up[j] == (if j == i {
            pre.up.last()
        } else {
            pre.up[j]
        }));
    assert forall|a: int, b: int| 0 <= a < b < new_up.len() implies (#[trigger] new_up[a]).0 != (
    #[trigger] new_up[b]).0 by {
        assert(new_up[a] == (if a == i {
            pre.up.last()
        } else {
            pre.up[a]
        }));
        assert(new_up[b] == (if b == i {
            pre.up.last()
        } else {
            pre.up[b]
        }));
    }
    // the borrowed address's key occurs nowhere in the shrunk overlay
    assert forall|a: Address| #![auto] crate::assoc_index(pre.up, spec_enc_address(a)) < 0
        || a == addr implies crate::assoc_index(new_up, spec_enc_address(a)) < 0 by {
        crate::lemma_assoc_index(pre.up, spec_enc_address(a));
        crate::lemma_assoc_index(new_up, spec_enc_address(a));
        if crate::assoc_index(new_up, spec_enc_address(a)) >= 0 {
            let j = crate::assoc_index(new_up, spec_enc_address(a));
            assert(new_up[j] == (if j == i {
                pre.up.last()
            } else {
                pre.up[j]
            }));
            if a == addr {
                if j == i {
                    assert(pre.up[pre.up.len() - 1].0 == key);
                    assert(i == pre.up.len() - 1 || pre.up[i].0 != pre.up[pre.up.len() - 1].0);
                } else {
                    assert(pre.up[j].0 == key && pre.up[i].0 == key);
                }
            } else {
                assert(crate::assoc_index(pre.up, spec_enc_address(a)) >= 0);
            }
        }
    }
    assert forall|k: int| 0 <= k < new_bt.len() implies crate::assoc_index(
        new_up,
        spec_enc_address((#[trigger] new_bt[k]).0),
    ) < 0 by {
        if k < pre.borrow_table.len() {
            assert(new_bt[k] == pre.borrow_table[k]);
        } else {
            assert(new_bt[k].0 == addr);
        }
    }
    assert forall|k: int| 0 <= k < pre.mut_borrows.len() implies crate::assoc_index(
        new_up,
        spec_enc_address(#[trigger] pre.mut_borrows[k]),
    ) < 0 by {
    }
    crate::lemma_assoc_index(pre.borrow_table, addr);
    assert forall|a: int, b: int| 0 <= a < b < new_bt.len() implies (#[trigger] new_bt[a]).0 != (
    #[trigger] new_bt[b]).0 by {
        if b == pre.borrow_table.len() {
            if new_bt[a].0 == addr {
                assert(crate::assoc_index(pre.up, spec_enc_address(pre.borrow_table[a].0)) < 0);
            }
        }
    }
    crate::lemma_assoc_index(pre.up, key);
    assert forall|a: int, b: int|
        0 <= a < new_bt.len() && 0 <= b < pre.mut_borrows.len() implies (#[trigger] new_bt[a]).0
        != #[trigger] pre.mut_borrows[b] by {
        if a < pre.borrow_table.len() {
            assert(new_bt[a] == pre.borrow_table[a]);
        } else {
            if pre.mut_borrows[b] == addr {
                assert(crate::assoc_index(pre.up, spec_enc_address(pre.mut_borrows[b])) < 0);
            }
        }
    }
}

/// After a lock faulted in from the store, the books stay well-formed.
proof fn lemma_wf_after_fault(pre: TrackState, addr: Address, v: SubstateValue, d: PhysicalSubstateId)
    requires
        ts_wf(pre),
        crate::assoc_index(pre.up, spec_enc_address(addr)) < 0,
        crate::assoc_index(pre.borrow_table, addr) < 0,
        crate::seq_index_of(pre.mut_borrows, addr) < 0,
    ensures
        ts_wf(
            TrackState {
                borrow_table: pre.borrow_table.push((addr, v)),
                downed: pre.downed.push(d),
                ..pre
            },
        ),
{
    crate::lemma_assoc_index(pre.borrow_table, addr);
    let new_bt = pre.borrow_table.push((addr, v));
    assert forall|a: int, b: int| 0 <= a < b < new_bt.len() implies (#[trigger] new_bt[a]).0 != (
    #[trigger] new_bt[b]).0 by {
        if b == pre.borrow_table.len() {
            assert(new_bt[a] == pre.borrow_table[a]);
        }
    }
    assert forall|k: int| 0 <= k < new_bt.len() implies crate::assoc_index(
        pre.up,
        spec_enc_address((#[trigger] new_bt[k]).0),
    ) < 0 by {
        if k < pre.borrow_table.len() {
            assert(new_bt[k] == pre.borrow_table[k]);
        }
    }
    crate::lemma_seq_index_of(pre.mut_borrows, addr);
    assert forall|a: int, b: int|
        0 <= a < new_bt.len() && 0 <= b < pre.mut_borrows.len() implies (#[trigger] new_bt[a]).0
        != #[trigger] pre.mut_borrows[b] by {
        if a < pre.borrow_table.len() {
            assert(new_bt[a] == pre.borrow_table[a]);
        }
    }
}

} // verus!

verus! {

/// Lengths and leading tags of the component encodings.
pub proof fn lemma_enc_parts(a: Address)
    ensures
        spec_enc_address(a).len() == match a {
            Address::Resource(_) => 33int,
            Address::GlobalComponent(_) => 33int,
            Address::Package(_) => 33int,
            Address::NonFungibleSet(_) => 34int,
            Address::KeyValueStore(..) => 70int,
            Address::Vault(..) => 70int,
            Address::LocalComponent(..) => 66int,
        },
        spec_enc_address(a)[0] == match a {
            Address::Resource(_) => crate::codec::TAG_RESOURCE_ADDRESS,
            Address::GlobalComponent(_) => crate::codec::TAG_COMPONENT_ADDRESS,
            Address::Package(_) => crate::codec::TAG_PACKAGE_ADDRESS,
            Address::NonFungibleSet(_) => crate::codec::TAG_RESOURCE_ADDRESS,
            Address::KeyValueStore(..) => crate::codec::TAG_COMPONENT_ADDRESS,
            Address::Vault(..) => crate::codec::TAG_COMPONENT_ADDRESS,
            Address::LocalComponent(..) => crate::codec::TAG_COMPONENT_ADDRESS,
        },
        a is Vault ==> spec_enc_address(a)[33] == crate::codec::TAG_VAULT_ID,
        a is KeyValueStore ==> spec_enc_address(a)[33] == crate::codec::TAG_KV_STORE_ID,
        a is LocalComponent ==> spec_enc_address(a)[33] == crate::codec::TAG_COMPONENT_ADDRESS,
{
    match a {
        Address::Resource(r) => {
            crate::codec::lemma_le_bytes_len(r.hi, 16);
            crate::codec::lemma_le_bytes_len(r.lo, 16);
        },
        Address::GlobalComponent(c) => {
            crate::codec::lemma_le_bytes_len(c.hi, 16);
            crate::codec::lemma_le_bytes_len(c.lo, 16);
        },
        Address::Package(p) => {
            crate::codec::lemma_le_bytes_len(p.hi, 16);
            crate::codec::lemma_le_bytes_len(p.lo, 16);
        },
        Address::NonFungibleSet(r) => {
            crate::codec::lemma_le_bytes_len(r.hi, 16);
            crate::codec::lemma_le_bytes_len(r.lo, 16);
        },
        Address::KeyValueStore(c, k) => {
            crate::codec::lemma_le_bytes_len(c.hi, 16);
            crate::codec::lemma_le_bytes_len(c.lo, 16);
            crate::codec::lemma_le_bytes_len(k.hash.hi, 16);
            crate::codec::lemma_le_bytes_len(k.hash.lo, 16);
            crate::codec::lemma_le_bytes_len(k.index as u128, 4);
        },
        Address::Vault(c, v) => {
            crate::codec::lemma_le_bytes_len(c.hi, 16);
            crate::codec::lemma_le_bytes_len(c.lo, 16);
            crate::codec::lemma_le_bytes_len(v.hash.hi, 16);
            crate::codec::lemma_le_bytes_len(v.hash.lo, 16);
            crate::codec::lemma_le_bytes_len(v.index as u128, 4);
        },
        Address::LocalComponent(c, child) => {
            crate::codec::lemma_le_bytes_len(c.hi, 16);
            crate::codec::lemma_le_bytes_len(c.lo, 16);
            crate::codec::lemma_le_bytes_len(child.hi, 16);
            crate::codec::lemma_le_bytes_len(child.lo, 16);
        },
    }
}

/// A tagged 33-byte encoding determines its two halves.
proof fn lemma_enc_halves_injective(tag: u8, h1: u128, l1: u128, h2: u128, l2: u128)
    requires
        seq![tag] + crate::codec::le_bytes(h1, 16) + crate::codec::le_bytes(l1, 16) == seq![tag]
            + crate::codec::le_bytes(h2, 16) + crate::codec::le_bytes(l2, 16),
    ensures
        h1 == h2,
        l1 == l2,
{
    crate::codec::lemma_pow256_bounds();
    crate::codec::lemma_le_bytes_len(h1, 16);
    crate::codec::lemma_le_bytes_len(l1, 16);
    crate::codec::lemma_le_bytes_len(h2, 16);
    crate::codec::lemma_le_bytes_len(l2, 16);
    let s1 = seq![tag] + crate::codec::le_bytes(h1, 16) + crate::codec::le_bytes(l1, 16);
    let s2 = seq![tag] + crate::codec::le_bytes(h2, 16) + crate::codec::le_bytes(l2, 16);
    assert(crate::codec::le_bytes(h1, 16) =~= s1.subrange(1, 17));
    assert(crate::codec::le_bytes(h2, 16) =~= s2.subrange(1, 17));
    assert(crate::codec::le_bytes(l1, 16) =~= s1.subrange(17, 33));
    assert(crate::codec::le_bytes(l2, 16) =~= s2.subrange(17, 33));
    crate::codec::lemma_le_bytes_injective(h1, h2, 16);
    crate::codec::lemma_le_bytes_injective(l1, l2, 16);
}

/// Two distinct addresses never share a canonical store key.
pub proof fn lemma_enc_address_injective(a1: Address, a2: Address)
    requires
        spec_enc_address(a1) == spec_enc_address(a2),
    ensures
        a1 == a2,
{
    lemma_enc_parts(a1);
    lemma_enc_parts(a2);
    crate::codec::lemma_pow256_bounds();
    let e = spec_enc_address(a1);
    match (a1, a2) {
        (Address::Resource(r1), Address::Resource(r2)) => {
            lemma_enc_halves_injective(
                crate::codec::TAG_RESOURCE_ADDRESS,
                r1.hi,
                r1.lo,
                r2.hi,
                r2.lo,
            );
        },
        (Address::GlobalComponent(c1), Address::GlobalComponent(c2)) => {
            lemma_enc_halves_injective(
                crate::codec::TAG_COMPONENT_ADDRESS,
                c1.hi,
                c1.lo,
                c2.hi,
                c2.lo,
            );
        },
        (Address::Package(p1), Address::Package(p2)) => {
            lemma_enc_halves_injective(
                crate::codec::TAG_PACKAGE_ADDRESS,
                p1.hi,
                p1.lo,
                p2.hi,
                p2.lo,
            );
        },
        (Address::NonFungibleSet(r1), Address::NonFungibleSet(r2)) => {
            crate::codec::lemma_le_bytes_len(r1.hi, 16);
            crate::codec::lemma_le_bytes_len(r1.lo, 16);
            crate::codec::lemma_le_bytes_len(r2.hi, 16);
            crate::codec::lemma_le_bytes_len(r2.lo, 16);
            let x1 = spec_enc_resource_address(r1);
            let x2 = spec_enc_resource_address(r2);
            assert(x1 =~= (x1 + seq![0u8]).subrange(0, 33));
            assert(x2 =~= (x2 + seq![0u8]).subrange(0, 33));
            lemma_enc_halves_injective(
                crate::codec::TAG_RESOURCE_ADDRESS,
                r1.hi,
                r1.lo,
                r2.hi,
                r2.lo,
            );
        },
        (Address::KeyValueStore(c1, k1), Address::KeyValueStore(c2, k2)) => {
            crate::codec::lemma_le_bytes_len(c1.hi, 16);
            crate::codec::lemma_le_bytes_len(c1.lo, 16);
            crate::codec::lemma_le_bytes_len(c2.hi, 16);
            crate::codec::lemma_le_bytes_len(c2.lo, 16);
            crate::codec::lemma_le_bytes_len(k1.hash.hi, 16);
            crate::codec::lemma_le_bytes_len(k1.hash.lo, 16);
            crate::codec::lemma_le_bytes_len(k2.hash.hi, 16);
            crate::codec::lemma_le_bytes_len(k2.hash.lo, 16);
            crate::codec::lemma_le_bytes_len(k1.index as u128, 4);
            crate::codec::lemma_le_bytes_len(k2.index as u128, 4);
            let p1 = spec_enc_component_address(c1);
            let p2 = spec_enc_component_address(c2);
            let q1 = spec_enc_kv_store_id(k1);
            let q2 = spec_enc_kv_store_id(k2);
            assert(p1 =~= (p1 + q1).subrange(0, 33));
            assert(p2 =~= (p2 + q2).subrange(0, 33));
            assert(q1 =~= (p1 + q1).subrange(33, 70));
            assert(q2 =~= (p2 + q2).subrange(33, 70));
            lemma_enc_halves_injective(
                crate::codec::TAG_COMPONENT_ADDRESS,
                c1.hi,
                c1.lo,
                c2.hi,
                c2.lo,
            );
            lemma_id_enc_injective(
                crate::codec::TAG_KV_STORE_ID,
                k1.hash,
                k1.index,
                k2.hash,
                k2.index,
            );
        },
        (Address::Vault(c1, v1), Address::Vault(c2, v2)) => {
            crate::codec::lemma_le_bytes_len(c1.hi, 16);
            crate::codec::lemma_le_bytes_len(c1.lo, 16);
            crate::codec::lemma_le_bytes_len(c2.hi, 16);
            crate::codec::lemma_le_bytes_len(c2.lo, 16);
            crate::codec::lemma_le_bytes_len(v1.hash.hi, 16);
            crate::codec::lemma_le_bytes_len(v1.hash.lo, 16);
            crate::codec::lemma_le_bytes_len(v2.hash.hi, 16);
            crate::codec::lemma_le_bytes_len(v2.hash.lo, 16);
            crate::codec::lemma_le_bytes_len(v1.index as u128, 4);
            crate::codec::lemma_le_bytes_len(v2.index as u128, 4);
            let p1 = spec_enc_component_address(c1);
            let p2 = spec_enc_component_address(c2);
            let q1 = spec_enc_vault_id(v1);
            let q2 = spec_enc_vault_id(v2);
            assert(p1 =~= (p1 + q1).subrange(0, 33));
            assert(p2 =~= (p2 + q2).subrange(0, 33));
            assert(q1 =~= (p1 + q1).subrange(33, 70));
            assert(q2 =~= (p2 + q2).subrange(33, 70));
            lemma_enc_halves_injective(
                crate::codec::TAG_COMPONENT_ADDRESS,
                c1.hi,
                c1.lo,
                c2.hi,
                c2.lo,
            );
            lemma_id_enc_injective(
                crate::codec::TAG_VAULT_ID,
                v1.hash,
                v1.index,
                v2.hash,
                v2.index,
            );
        },
        (Address::LocalComponent(c1, d1), Address::LocalComponent(c2, d2)) => {
            crate::codec::lemma_le_bytes_len(c1.hi, 16);
            crate::codec::lemma_le_bytes_len(c1.lo, 16);
            crate::codec::lemma_le_bytes_len(c2.hi, 16);
            crate::codec::lemma_le_bytes_len(c2.lo, 16);
            crate::codec::lemma_le_bytes_len(d1.hi, 16);
            crate::codec::lemma_le_bytes_len(d1.lo, 16);
            crate::codec::lemma_le_bytes_len(d2.hi, 16);
            crate::codec::lemma_le_bytes_len(d2.lo, 16);
            let p1 = spec_enc_component_address(c1);
            let p2 = spec_enc_component_address(c2);
            let q1 = spec_enc_component_address(d1);
            let q2 = spec_enc_component_address(d2);
            assert(p1 =~= (p1 + q1).subrange(0, 33));
            assert(p2 =~= (p2 + q2).subrange(0, 33));
            assert(q1 =~= (p1 + q1).subrange(33, 66));
            assert(q2 =~= (p2 + q2).subrange(33, 66));
            lemma_enc_halves_injective(
                crate::codec::TAG_COMPONENT_ADDRESS,
                c1.hi,
                c1.lo,
                c2.hi,
                c2.lo,
            );
            lemma_enc_halves_injective(
                crate::codec::TAG_COMPONENT_ADDRESS,
                d1.hi,
                d1.lo,
                d2.hi,
                d2.lo,
            );
        },
        _ => {
            assert(spec_enc_address(a1).len() == spec_enc_address(a2).len());
            assert(spec_enc_address(a1)[0] == spec_enc_address(a2)[0]);
            assert(false);
        },
    }
}

/// A tagged id encoding (hash plus index) determines the id.
proof fn lemma_id_enc_injective(
    tag: u8,
    h1: crate::types::Hash,
    i1: u32,
    h2: crate::types::Hash,
    i2: u32,
)
    requires
        seq![tag] + crate::codec::spec_enc_hash(h1) + crate::codec::le_bytes(i1 as u128, 4)
            == seq![tag] + crate::codec::spec_enc_hash(h2) + crate::codec::le_bytes(i2 as u128, 4),
    ensures
        h1 == h2,
        i1 == i2,
{
    crate::codec::lemma_pow256_bounds();
    crate::codec::lemma_le_bytes_len(h1.hi, 16);
    crate::codec::lemma_le_bytes_len(h1.lo, 16);
    crate::codec::lemma_le_bytes_len(h2.hi, 16);
    crate::codec::lemma_le_bytes_len(h2.lo, 16);
    crate::codec::lemma_le_bytes_len(i1 as u128, 4);
    crate::codec::lemma_le_bytes_len(i2 as u128, 4);
    let s1 = seq![tag] + crate::codec::spec_enc_hash(h1) + crate::codec::le_bytes(i1 as u128, 4);
    let s2 = seq![tag] + crate::codec::spec_enc_hash(h2) + crate::codec::le_bytes(i2 as u128, 4);
    assert(crate::codec::le_bytes(h1.hi, 16) =~= s1.subrange(1, 17));
    assert(crate::codec::le_bytes(h2.hi, 16) =~= s2.subrange(1, 17));
    assert(crate::codec::le_bytes(h1.lo, 16) =~= s1.subrange(17, 33));
    assert(crate::codec::le_bytes(h2.lo, 16) =~= s2.subrange(17, 33));
    assert(crate::codec::le_bytes(i1 as u128, 4) =~= s1.subrange(33, 37));
    assert(crate::codec::le_bytes(i2 as u128, 4) =~= s2.subrange(33, 37));
    crate::codec::lemma_le_bytes_injective(h1.hi, h2.hi, 16);
    crate::codec::lemma_le_bytes_injective(h1.lo, h2.lo, 16);
    crate::codec::lemma_le_bytes_injective(i1 as u128, i2 as u128, 4);
}

} // verus!

verus! {

/// The state after `write_value` replaced a borrowed value.
pub open spec fn ts_write_value(pre: TrackState, addr: Address, value: SubstateValue)
    -> TrackState {
    let i = crate::assoc_index(pre.borrow_table, addr);
    TrackState { borrow_table: pre.borrow_table.update(i, (addr, value)), ..pre }
}

/// The state after `release_lock` moved a borrowed value back to the
/// overlay.
pub open spec fn ts_release(pre: TrackState, addr: Address) -> TrackState {
    let i = crate::assoc_index(pre.borrow_table, addr);
    TrackState {
        borrow_table: pre.borrow_table.remove(i),
        up: entries_insert(pre.up, spec_enc_address(addr), pre.borrow_table[i].1),
        ..pre
    }
}

impl<S: ReadableSubstateStore> Track<S> {
    /// Returns a shared view of a value locked earlier.
    pub fn read_value(&self, addr: Address) -> (r: &SubstateValue)
        requires
            crate::assoc_index(self.model().borrow_table, addr) >= 0,
        ensures
            *r == self.model().borrow_table[crate::assoc_index(self.model().borrow_table, addr)].1,
    {
        match self.find_borrow_index(addr) {
            Some(i) => {
                proof {
                    crate::lemma_assoc_index(self.model().borrow_table, addr);
                }
                &self.borrowed_substates_2[i].1
            },
            None => vstd::pervasive::unreached(),
        }
    }

    /// Replaces a value locked earlier; fails if the address is not locked.
    pub fn write_value(&mut self, addr: Address, value: SubstateValue) -> (r: Result<
        (),
        TrackError,
    >)
        requires
            old(self).wf(),
        ensures
            final(self).wf(),
            ({
                let i = crate::assoc_index(old(self).model().borrow_table, addr);
                if i >= 0 {
                    r is Ok && final(self).model() == ts_write_value(
                        old(self).model(),
                        addr,
                        value,
                    )
                } else {
                    r == Err::<(), TrackError>(TrackError::NotFound) && final(self).model() == old(
                        self,
                    ).model()
                }
            }),
    {
        let ghost pre = self.model();
        match self.find_borrow_index(addr) {
            Some(i) => {
                proof {
                    crate::lemma_assoc_index(pre.borrow_table, addr);
                }
                self.borrowed_substates_2.set(i, (addr, value));
                proof {
                    let post = self.model();
                    let bt = pre.borrow_table;
                    let nbt = post.borrow_table;
                    assert(nbt == bt.update(i as int, (addr, value)));
                    assert forall|a: int, b: int| 0 <= a < b < nbt.len() implies (
                    #[trigger] nbt[a]).0 != (#[trigger] nbt[b]).0 by {
                        assert(nbt[a].0 == bt[a].0 && nbt[b].0 == bt[b].0);
                    }
                    assert forall|k: int| 0 <= k < nbt.len() implies crate::assoc_index(
                        post.up,
                        spec_enc_address((#[trigger] nbt[k]).0),
                    ) < 0 by {
                        assert(nbt[k].0 == bt[k].0);
                    }
                    assert forall|a: int, b: int|
                        0 <= a < nbt.len() && 0 <= b < post.mut_borrows.len() implies (
                    #[trigger] nbt[a]).0 != #[trigger] post.mut_borrows[b] by {
                        assert(nbt[a].0 == bt[a].0);
                        assert(post.mut_borrows == pre.mut_borrows);
                        assert(bt[a].0 != pre.mut_borrows[b]);
                    }
                    assert(post.up == pre.up && post.mut_borrows == pre.mut_borrows);
                    assert(ts_wf(post));
                }
                Ok(())
            },
            None => Err(TrackError::NotFound),
        }
    }

    /// Replaces the state bytes of a locked component.
    pub fn write_component_value(&mut self, address: Address, value: Vec<u8>) -> (r: Result<
        (),
        TrackError,
    >)
        requires
            old(self).wf(),
            address is GlobalComponent || address is LocalComponent,
            crate::assoc_index(old(self).model().borrow_table, address) >= 0 ==> old(
                self,
            ).model().borrow_table[crate::assoc_index(
                old(self).model().borrow_table,
                address,
            )].1 is Component,
        ensures
            final(self).wf(),
            ({
                let i = crate::assoc_index(old(self).model().borrow_table, address);
                if i >= 0 {
                    let old_c = old(self).model().borrow_table[i].1->Component_0;
                    r is Ok && final(self).model() == ts_write_value(
                        old(self).model(),
                        address,
                        SubstateValue::Component(
                            Component {
                                package_address: old_c.package_address,
                                blueprint_name: old_c.blueprint_name,
                                state: value,
                            },
                        ),
                    )
                } else {
                    r == Err::<(), TrackError>(TrackError::NotFound) && final(self).model() == old(
                        self,
                    ).model()
                }
            }),
    {
        let ghost pre = self.model();
        match self.find_borrow_index(address) {
            Some(i) => {
                proof {
                    crate::lemma_assoc_index(pre.borrow_table, address);
                }
                let entry = &mut self.borrowed_substates_2[i];
                entry.1.component_mut().set_state(value);
                proof {
                    let post = self.model();
                    let bt = pre.borrow_table;
                    let nbt = post.borrow_table;
                    assert(nbt == bt.update(i as int, nbt[i as int]));
                    assert(nbt[i as int].0 == address);
                    assert(nbt =~= bt.update(i as int, (address, nbt[i as int].1)));
                    assert forall|a: int, b: int| 0 <= a < b < nbt.len() implies (
                    #[trigger] nbt[a]).0 != (#[trigger] nbt[b]).0 by {
                        assert(nbt[a].0 == bt[a].0 && nbt[b].0 == bt[b].0);
                    }
                    assert forall|k: int| 0 <= k < nbt.len() implies crate::assoc_index(
                        post.up,
                        spec_enc_address((#[trigger] nbt[k]).0),
                    ) < 0 by {
                        assert(nbt[k].0 == bt[k].0);
                    }
                    assert forall|a: int, b: int|
                        0 <= a < nbt.len() && 0 <= b < post.mut_borrows.len() implies (
                    #[trigger] nbt[a]).0 != #[trigger] post.mut_borrows[b] by {
                        assert(nbt[a].0 == bt[a].0);
                        assert(post.mut_borrows == pre.mut_borrows);
                        assert(bt[a].0 != pre.mut_borrows[b]);
                    }
                    assert(post.up == pre.up && post.mut_borrows == pre.mut_borrows);
                    assert(ts_wf(post));
                }
                Ok(())
            },
            None => Err(TrackError::NotFound),
        }
    }

    /// Moves a locked value back into the overlay.
    pub fn release_lock(&mut self, addr: Address)
        requires
            old(self).wf(),
            crate::assoc_index(old(self).model().borrow_table, addr) >= 0,
        ensures
            final(self).wf(),
            final(self).model() == ts_release(old(self).model(), addr),
    {
        let ghost pre = self.model();
        match self.find_borrow_index(addr) {
            Some(i) => {
                proof {
                    crate::lemma_assoc_index(pre.borrow_table, addr);
                }
                let (a, value) = self.borrowed_substates_2.remove(i);
                let key = a.encode();
                let ghost removed_bt = self.model().borrow_table;
                proof {
                    crate::lemma_assoc_index(self.model().up, key@);
                }
                let _ = crate::imap::im_insert(&mut self.up_substates, key, value);
                proof {
                    let post = self.model();
                    assert(post == ts_release(pre, addr));
                    lemma_wf_after_release(pre, addr, i as int);
                }
            },
            None => {
                proof {
                    assert(false);
                }
            },
        }
    }
}

/// After a release, the books stay well-formed.
proof fn lemma_wf_after_release(pre: TrackState, addr: Address, i: int)
    requires
        ts_wf(pre),
        i == crate::assoc_index(pre.borrow_table, addr),
        0 <= i < pre.borrow_table.len(),
        pre.borrow_table[i].0 == addr,
    ensures
        ts_wf(ts_release(pre, addr)),
{
    let key = spec_enc_address(addr);
    let post = ts_release(pre, addr);
    let bt = pre.borrow_table;
    let nbt = bt.remove(i);
    crate::lemma_assoc_index(pre.up, key);
    assert(crate::assoc_index(pre.up, key) < 0);
    let nup = entries_insert(pre.up, key, bt[i].1);
    assert(nup == pre.up.push((key, bt[i].1)));
    assert forall|a: int, b: int| 0 <= a < b < nup.len() implies (#[trigger] nup[a]).0 != (
    #[trigger] nup[b]).0 by {
        if b == pre.up.len() {
            assert(nup[a] == pre.up[a]);
            assert(pre.up[a].0 != key);
        } else {
            assert(nup[a] == pre.up[a] && nup[b] == pre.up[b]);
        }
    }
    assert forall|a: int, b: int| 0 <= a < b < nbt.len() implies (#[trigger] nbt[a]).0 != (
    #[trigger] nbt[b]).0 by {
        let oa = if a < i {
            a
        } else {
            a + 1
        };
        let ob = if b < i {
            b
        } else {
            b + 1
        };
        assert(nbt[a] == bt[oa] && nbt[b] == bt[ob]);
    }
    assert forall|k: int| 0 <= k < nbt.len() implies crate::assoc_index(
        nup,
        spec_enc_address((#[trigger] nbt[k]).0),
    ) < 0 by {
        let ok = if k < i {
            k
        } else {
            k + 1
        };
        assert(nbt[k] == bt[ok]);
        assert(bt[ok].0 != addr);
        if spec_enc_address(bt[ok].0) == key {
            lemma_enc_address_injective(bt[ok].0, addr);
        }
        crate::lemma_assoc_index_push(pre.up, key, bt[i].1, spec_enc_address(bt[ok].0));
    }
    assert forall|k: int| 0 <= k < post.mut_borrows.len() implies crate::assoc_index(
        nup,
        spec_enc_address(#[trigger] post.mut_borrows[k]),
    ) < 0 by {
        assert(pre.mut_borrows[k] != addr);
        if spec_enc_address(pre.mut_borrows[k]) == key {
            lemma_enc_address_injective(pre.mut_borrows[k], addr);
        }
        crate::lemma_assoc_index_push(pre.up, key, bt[i].1, spec_enc_address(pre.mut_borrows[k]));
    }
    assert forall|a: int, b: int|
        0 <= a < nbt.len() && 0 <= b < post.mut_borrows.len() implies (#[trigger] nbt[a]).0
        != #[trigger] post.mut_borrows[b] by {
        let oa = if a < i {
            a
        } else {
            a + 1
        };
        assert(nbt[a] == bt[oa]);
    }
}

} // verus!

verus! {

/// How `borrow_global_mut_value` moves the state: an overlay hit hands the
/// value out and notes the address; a repeated borrow on either path is a
/// reentrancy error; a store hit records one `Down`; a miss changes nothing.
pub open spec fn borrow_mut_post(
    pre: TrackState,
    post: TrackState,
    addr: Address,
    r: Result<SubstateValue, TrackError>,
) -> bool {
    let key = spec_enc_address(addr);
    let i = crate::assoc_index(pre.up, key);
    if i >= 0 {
        &&& r == Ok::<SubstateValue, TrackError>(pre.up[i].1)
        &&& post == (TrackState {
            up: seq_swap_remove(pre.up, i),
            mut_borrows: pre.mut_borrows.push(addr),
            ..pre
        })
    } else if is_borrowed(pre, addr) {
        &&& r == Err::<SubstateValue, TrackError>(TrackError::Reentrancy)
        &&& post == pre
    } else if pre.store.contains_key(key) {
        &&& r matches Ok(v) && Some(v@) == crate::value_codec::spec_dec_substate(pre.store[key].0)
        &&& post == (TrackState {
            mut_borrows: pre.mut_borrows.push(addr),
            downed: pre.downed.push(pre.store[key].1),
            ..pre
        })
    } else {
        &&& r == Err::<SubstateValue, TrackError>(TrackError::NotFound)
        &&& post == pre
    }
}

/// A moving borrow is in the track's domain.
pub open spec fn borrow_mut_allowed(pre: TrackState, addr: Address) -> bool {
    ||| crate::assoc_index(pre.up, spec_enc_address(addr)) >= 0
    ||| is_borrowed(pre, addr)
    ||| !pre.store.contains_key(spec_enc_address(addr))
    ||| mut_borrowable_on_fault(addr)
}

impl<S: ReadableSubstateStore> Track<S> {
    /// Moves a substate out to the caller, faulting it in from the store on
    /// first touch.
    pub fn borrow_global_mut_value(&mut self, addr: Address) -> (r: Result<
        SubstateValue,
        TrackError,
    >)
        requires
            old(self).wf(),
            store_ok(old(self).model().store),
            borrow_mut_allowed(old(self).model(), addr),
        ensures
            final(self).wf(),
            borrow_mut_post(old(self).model(), final(self).model(), addr, r),
    {
        let ghost pre = self.model();
        let key = addr.encode();
        proof {
            crate::lemma_assoc_index(pre.up, key@);
        }
        let removed = crate::imap::im_remove(&mut self.up_substates, &key);
        match removed {
            Some(value) => {
                let ghost i = crate::assoc_index(pre.up, key@);
                self.borrowed_substates.push(addr);
                proof {
                    let post = self.model();
                    assert(post == (TrackState {
                        up: seq_swap_remove(pre.up, i),
                        mut_borrows: pre.mut_borrows.push(addr),
                        ..pre
                    }));
                    lemma_wf_after_mut_hit(pre, addr, i);
                }
                return Ok(value);
            },
            None => {},
        }
        let in_lock_table = self.find_borrow_index(addr);
        let in_mut_set = self.find_mut_borrow_index(addr);
        if in_lock_table.is_some() || in_mut_set.is_some() {
            proof {
                assert(self.model() == pre);
            }
            return Err(TrackError::Reentrancy);
        }
        match self.substate_store.get_substate(&key) {
            Some(substate) => {
                self.downed_substates.push(substate.phys_id);
                let decoded = match crate::value_codec::dec_substate_value(&substate.value) {
                    Some(v) => v,
                    None => {
                        proof {
                            lemma_store_ok_decodes(pre.store, addr);
                        }
                        vstd::pervasive::unreached()
                    },
                };
                match addr {
                    Address::GlobalComponent(_) | Address::Resource(_) | Address::Vault(..)
                    | Address::Package(_) => {},
                    _ => {
                        return vstd::pervasive::unreached();
                    },
                }
                self.borrowed_substates.push(addr);
                proof {
                    let post = self.model();
                    assert(post == (TrackState {
                        mut_borrows: pre.mut_borrows.push(addr),
                        downed: pre.downed.push(pre.store[key@].1),
                        ..pre
                    }));
                    lemma_wf_after_mut_fault(pre, addr, pre.store[key@].1);
                }
                Ok(decoded)
            },
            None => {
                proof {
                    assert(self.model() == pre);
                }
                Err(TrackError::NotFound)
            },
        }
    }

    /// Reinstates a substate taken out by `borrow_global_mut_value`.
    pub fn return_borrowed_global_mut_value(&mut self, addr: Address, value: SubstateValue)
        requires
            old(self).wf(),
            crate::seq_index_of(old(self).model().mut_borrows, addr) >= 0,
        ensures
            final(self).wf(),
            final(self).model() == (TrackState {
                mut_borrows: old(self).model().mut_borrows.remove(
                    crate::seq_index_of(old(self).model().mut_borrows, addr),
                ),
                up: entries_insert(old(self).model().up, spec_enc_address(addr), value),
                ..old(self).model()
            }),
    {
        let ghost pre = self.model();
        match self.find_mut_borrow_index(addr) {
            Some(i) => {
                proof {
                    crate::lemma_seq_index_of(pre.mut_borrows, addr);
                }
                self.borrowed_substates.remove(i);
                let key = addr.encode();
                proof {
                    crate::lemma_assoc_index(self.model().up, key@);
                }
                let _ = crate::imap::im_insert(&mut self.up_substates, key, value);
                proof {
                    let post = self.model();
                    assert(crate::assoc_index(pre.up, spec_enc_address(addr)) < 0);
                    assert(post.up == entries_insert(pre.up, spec_enc_address(addr), value));
                    lemma_wf_after_return(pre, addr, i as int, value);
                }
            },
            None => {
                proof {
                    assert(false);
                }
            },
        }
    }
}

/// After an overlay-hit moving borrow, the books stay well-formed.
proof fn lemma_wf_after_mut_hit(pre: TrackState, addr: Address, i: int)
    requires
        ts_wf(pre),
        i == crate::assoc_index(pre.up, spec_enc_address(addr)),
        0 <= i < pre.up.len(),
    ensures
        ts_wf(
            TrackState {
                up: seq_swap_remove(pre.up, i),
                mut_borrows: pre.mut_borrows.push(addr),
                ..pre
            },
        ),
{
    let key = spec_enc_address(addr);
    crate::lemma_assoc_index(pre.up, key);
    let new_up = seq_swap_remove(pre.up, i);
    let new_mb = pre.mut_borrows.push(addr);
    assert(new_up.len() == pre.up.len() - 1);
    assert(forall|j: int|
        0 <= j < new_up.len() ==> #[trigger] new_up[j] == (if j == i {
            pre.up.last()
        } else {
            pre.up[j]
        }));
    assert forall|a: int, b: int| 0 <= a < b < new_up.len() implies (#[trigger] new_up[a]).0 != (
    #[trigger] new_up[b]).0 by {
        assert(new_up[a] == (if a == i {
            pre.up.last()
        } else {
            pre.up[a]
        }));
        assert(new_up[b] == (if b == i {
            pre.up.last()
        } else {
            pre.up[b]
        }));
    }
    assert forall|a: Address| #![auto] crate::assoc_index(pre.up, spec_enc_address(a)) < 0
        || a == addr implies crate::assoc_index(new_up, spec_enc_address(a)) < 0 by {
        crate::lemma_assoc_index(pre.up, spec_enc_address(a));
        crate::lemma_assoc_index(new_up, spec_enc_address(a));
        if crate::assoc_index(new_up, spec_enc_address(a)) >= 0 {
            let j = crate::assoc_index(new_up, spec_enc_address(a));
            assert(new_up[j] == (if j == i {
                pre.up.last()
            } else {
                pre.up[j]
            }));
            if a == addr {
                if j == i {
                    assert(pre.up[pre.up.len() - 1].0 == key);
                    assert(i == pre.up.len() - 1 || pre.up[i].0 != pre.up[pre.up.len() - 1].0);
                } else {
                    assert(pre.up[j].0 == key && pre.up[i].0 == key);
                }
            } else {
                assert(crate::assoc_index(pre.up, spec_enc_address(a)) >= 0);
            }
        }
    }
    assert forall|k: int| 0 <= k < new_mb.len() implies crate::assoc_index(
        new_up,
        spec_enc_address(#[trigger] new_mb[k]),
    ) < 0 by {
        if k < pre.mut_borrows.len() {
            assert(new_mb[k] == pre.mut_borrows[k]);
        } else {
            assert(new_mb[k] == addr);
        }
    }
    assert forall|k: int| 0 <= k < pre.borrow_table.len() implies crate::assoc_index(
        new_up,
        spec_enc_address((#[trigger] pre.borrow_table[k]).0),
    ) < 0 by {
    }
    assert forall|a: int, b: int| 0 <= a < b < new_mb.len() implies #[trigger] new_mb[a]
        != #[trigger] new_mb[b] by {
        if b == pre.mut_borrows.len() {
            if new_mb[a] == addr {
                assert(crate::assoc_index(pre.up, spec_enc_address(pre.mut_borrows[a])) < 0);
            }
        }
    }
    assert forall|a: int, b: int|
        0 <= a < pre.borrow_table.len() && 0 <= b < new_mb.len() implies (
    #[trigger] pre.borrow_table[a]).0 != #[trigger] new_mb[b] by {
        if b == pre.mut_borrows.len() {
            if pre.borrow_table[a].0 == addr {
                assert(crate::assoc_index(pre.up, spec_enc_address(pre.borrow_table[a].0)) < 0);
            }
        } else {
            assert(new_mb[b] == pre.mut_borrows[b]);
        }
    }
}

/// After a moving borrow faulted in from the store, the books stay
/// well-formed.
proof fn lemma_wf_after_mut_fault(pre: TrackState, addr: Address, d: PhysicalSubstateId)
    requires
        ts_wf(pre),
        crate::assoc_index(pre.up, spec_enc_address(addr)) < 0,
        crate::assoc_index(pre.borrow_table, addr) < 0,
        crate::seq_index_of(pre.mut_borrows, addr) < 0,
    ensures
        ts_wf(
            TrackState {
                mut_borrows: pre.mut_borrows.push(addr),
                downed: pre.downed.push(d),
                ..pre
            },
        ),
{
    crate::lemma_seq_index_of(pre.mut_borrows, addr);
    crate::lemma_assoc_index(pre.borrow_table, addr);
    let new_mb = pre.mut_borrows.push(addr);
    assert forall|a: int, b: int| 0 <= a < b < new_mb.len() implies #[trigger] new_mb[a]
        != #[trigger] new_mb[b] by {
        if b == pre.mut_borrows.len() {
            assert(new_mb[a] == pre.mut_borrows[a]);
        }
    }
    assert forall|k: int| 0 <= k < new_mb.len() implies crate::assoc_index(
        pre.up,
        spec_enc_address(#[trigger] new_mb[k]),
    ) < 0 by {
        if k < pre.mut_borrows.len() {
            assert(new_mb[k] == pre.mut_borrows[k]);
        }
    }
    assert forall|a: int, b: int|
        0 <= a < pre.borrow_table.len() && 0 <= b < new_mb.len() implies (
    #[trigger] pre.borrow_table[a]).0 != #[trigger] new_mb[b] by {
        if b < pre.mut_borrows.len() {
            assert(new_mb[b] == pre.mut_borrows[b]);
        }
    }
}

/// After a moving borrow is returned, the books stay well-formed.
proof fn lemma_wf_after_return(pre: TrackState, addr: Address, i: int, value: SubstateValue)
    requires
        ts_wf(pre),
        i == crate::seq_index_of(pre.mut_borrows, addr),
        0 <= i < pre.mut_borrows.len(),
        pre.mut_borrows[i] == addr,
    ensures
        ts_wf(
            TrackState {
                mut_borrows: pre.mut_borrows.remove(i),
                up: entries_insert(pre.up, spec_enc_address(addr), value),
                ..pre
            },
        ),
{
    let key = spec_enc_address(addr);
    crate::lemma_assoc_index(pre.up, key);
    assert(crate::assoc_index(pre.up, key) < 0);
    let nup = entries_insert(pre.up, key, value);
    assert(nup == pre.up.push((key, value)));
    let nmb = pre.mut_borrows.remove(i);
    assert forall|a: int, b: int| 0 <= a < b < nup.len() implies (#[trigger] nup[a]).0 != (
    #[trigger] nup[b]).0 by {
        if b == pre.up.len() {
            assert(nup[a] == pre.up[a]);
            assert(pre.up[a].0 != key);
        } else {
            assert(nup[a] == pre.up[a] && nup[b] == pre.up[b]);
        }
    }
    assert forall|a: int, b: int| 0 <= a < b < nmb.len() implies #[trigger] nmb[a]
        != #[trigger] nmb[b] by {
        let oa = if a < i {
            a
        } else {
            a + 1
        };
        let ob = if b < i {
            b
        } else {
            b + 1
        };
        assert(nmb[a] == pre.mut_borrows[oa] && nmb[b] == pre.mut_borrows[ob]);
    }
    assert forall|k: int| 0 <= k < nmb.len() implies crate::assoc_index(
        nup,
        spec_enc_address(#[trigger] nmb[k]),
    ) < 0 by {
        let ok = if k < i {
            k
        } else {
            k + 1
        };
        assert(nmb[k] == pre.mut_borrows[ok]);
        assert(pre.mut_borrows[ok] != addr);
        if spec_enc_address(pre.mut_borrows[ok]) == key {
            lemma_enc_address_injective(pre.mut_borrows[ok], addr);
        }
        crate::lemma_assoc_index_push(pre.up, key, value, spec_enc_address(pre.mut_borrows[ok]));
    }
    assert forall|k: int| 0 <= k < pre.borrow_table.len() implies crate::assoc_index(
        nup,
        spec_enc_address((#[trigger] pre.borrow_table[k]).0),
    ) < 0 by {
        assert(pre.borrow_table[k].0 != addr);
        if spec_enc_address(pre.borrow_table[k].0) == key {
            lemma_enc_address_injective(pre.borrow_table[k].0, addr);
        }
        crate::lemma_assoc_index_push(
            pre.up,
            key,
            value,
            spec_enc_address(pre.borrow_table[k].0),
        );
    }
    assert forall|a: int, b: int|
        0 <= a < pre.borrow_table.len() && 0 <= b < nmb.len() implies (
    #[trigger] pre.borrow_table[a]).0 != #[trigger] nmb[b] by {
        let ob = if b < i {
            b
        } else {
            b + 1
        };
        assert(nmb[b] == pre.mut_borrows[ob]);
    }
}

} // verus!

verus! {

/// Inserting a staged write whose key no borrowed address uses keeps the
/// books well-formed.
proof fn lemma_wf_after_up_insert(t: TrackState, key: Seq<u8>, v: SubstateValue)
    requires
        ts_wf(t),
        forall|i: int|
            0 <= i < t.borrow_table.len() ==> spec_enc_address((#[trigger] t.borrow_table[i]).0)
                != key,
        forall|j: int|
            0 <= j < t.mut_borrows.len() ==> spec_enc_address(#[trigger] t.mut_borrows[j]) != key,
    ensures
        books_wf(entries_insert(t.up, key, v), t.borrow_table, t.mut_borrows),
{
    crate::lemma_assoc_index(t.up, key);
    let i = crate::assoc_index(t.up, key);
    let nup = entries_insert(t.up, key, v);
    if i >= 0 {
        assert(nup == t.up.update(i, (t.up[i].0, v)));
        assert forall|a: int, b: int| 0 <= a < b < nup.len() implies (#[trigger] nup[a]).0 != (
        #[trigger] nup[b]).0 by {
            assert(nup[a].0 == t.up[a].0 && nup[b].0 == t.up[b].0);
        }
        assert forall|k: int| 0 <= k < t.borrow_table.len() implies crate::assoc_index(
            nup,
            spec_enc_address((#[trigger] t.borrow_table[k]).0),
        ) < 0 by {
            crate::lemma_assoc_index_update_value(t.up, i, v, spec_enc_address(t.borrow_table[k].0));
        }
        assert forall|k: int| 0 <= k < t.mut_borrows.len() implies crate::assoc_index(
            nup,
            spec_enc_address(#[trigger] t.mut_borrows[k]),
        ) < 0 by {
            crate::lemma_assoc_index_update_value(t.up, i, v, spec_enc_address(t.mut_borrows[k]));
        }
    } else {
        assert(nup == t.up.push((key, v)));
        assert forall|a: int, b: int| 0 <= a < b < nup.len() implies (#[trigger] nup[a]).0 != (
        #[trigger] nup[b]).0 by {
            if b == t.up.len() {
                assert(nup[a] == t.up[a]);
                assert(t.up[a].0 != key);
            } else {
                assert(nup[a] == t.up[a] && nup[b] == t.up[b]);
            }
        }
        assert forall|k: int| 0 <= k < t.borrow_table.len() implies crate::assoc_index(
            nup,
            spec_enc_address((#[trigger] t.borrow_table[k]).0),
        ) < 0 by {
            crate::lemma_assoc_index_push(t.up, key, v, spec_enc_address(t.borrow_table[k].0));
        }
        assert forall|k: int| 0 <= k < t.mut_borrows.len() implies crate::assoc_index(
            nup,
            spec_enc_address(#[trigger] t.mut_borrows[k]),
        ) < 0 by {
            crate::lemma_assoc_index_push(t.up, key, v, spec_enc_address(t.mut_borrows[k]));
        }
    }
}

/// The kinds `borrow_global_value` can fault in from the store.
pub open spec fn readable_on_fault(addr: Address) -> bool {
    borrowable_on_fault(addr) || addr is Package
}

/// A shared read is in the track's domain.
pub open spec fn read_allowed(pre: TrackState, addr: Address) -> bool {
    ||| crate::assoc_index(pre.up, spec_enc_address(addr)) >= 0
    ||| !pre.store.contains_key(spec_enc_address(addr))
    ||| readable_on_fault(addr)
}

impl<S: ReadableSubstateStore> Track<S> {
    /// Returns an immutable reference to a value, if one exists: from the
    /// overlay if staged, else faulted from the store into the read cache.
    /// No write is recorded.
    pub fn borrow_global_value(&mut self, addr: Address) -> (r: Result<&SubstateValue, TrackError>)
        requires
            old(self).wf(),
            store_ok(old(self).model().store),
            read_allowed(old(self).model(), addr),
        ensures
            final(self).wf(),
            ({
                let pre = old(self).model();
                let post = final(self).model();
                let key = spec_enc_address(addr);
                let i = crate::assoc_index(pre.up, key);
                if i >= 0 {
                    r matches Ok(v) && *v == pre.up[i].1 && post == pre
                } else if pre.store.contains_key(key) {
                    r matches Ok(v) && Some((*v)@) == crate::value_codec::spec_dec_substate(
                        pre.store[key].0,
                    ) && post == (TrackState {
                        reads: entries_insert(pre.reads, key, *v),
                        ..pre
                    })
                } else {
                    r == Err::<&SubstateValue, TrackError>(TrackError::NotFound) && post == pre
                }
            }),
    {
        let ghost pre = self.model();
        let key = addr.encode();
        proof {
            crate::lemma_assoc_index(pre.up, key@);
        }
        let found = crate::imap::im_get(&self.up_substates, &key);
        match found {
            Some(v) => {
                return Ok(v);
            },
            None => {},
        }
        match self.substate_store.get_substate(&key) {
            Some(substate) => {
                let decoded = match crate::value_codec::dec_substate_value(&substate.value) {
                    Some(v) => v,
                    None => {
                        proof {
                            lemma_store_ok_decodes(pre.store, addr);
                        }
                        vstd::pervasive::unreached()
                    },
                };
                match addr {
                    Address::GlobalComponent(_) | Address::LocalComponent(..)
                    | Address::Resource(_) | Address::Vault(..) | Address::Package(_) => {},
                    _ => {
                        return vstd::pervasive::unreached();
                    },
                }
                let key2 = crate::clone_bytes(&key);
                proof {
                    crate::lemma_assoc_index(pre.reads, key@);
                }
                let _ = crate::imap::im_insert(&mut self.read_substates, key2, decoded);
                proof {
                    let i = crate::assoc_index(pre.reads, key@);
                    if i >= 0 {
                        crate::lemma_assoc_index_update_value(
                            pre.reads,
                            i,
                            self.model().reads[i].1,
                            key@,
                        );
                    } else {
                        crate::lemma_assoc_index_push(
                            pre.reads,
                            key@,
                            self.model().reads.last().1,
                            key@,
                        );
                    }
                    crate::lemma_assoc_index(self.model().reads, key@);
                }
                match crate::imap::im_get(&self.read_substates, &key) {
                    Some(v) => Ok(v),
                    None => vstd::pervasive::unreached(),
                }
            },
            None => Err(TrackError::NotFound),
        }
    }
}

} // verus!

verus! {

/// Inserts into the new-space list: a present key is kept, a new one goes
/// last.
pub open spec fn spaces_insert(spaces: Seq<Seq<u8>>, key: Seq<u8>) -> Seq<Seq<u8>> {
    if crate::seq_index_of(spaces, key) >= 0 {
        spaces
    } else {
        spaces.push(key)
    }
}

/// The address `create_uuid_value` will derive for a value.
pub open spec fn spec_created_address(pre: TrackState, value: SubstateValue) -> Address {
    match value {
        SubstateValue::Package(_) => Address::Package(
            PackageAddress {
                hi: crate::id_allocator::spec_derived_hi(
                    pre.transaction_hash,
                    crate::id_allocator::SPACE_TAG_PACKAGE,
                ),
                lo: crate::id_allocator::spec_derived_lo(
                    pre.transaction_hash,
                    pre.allocator.package_counter,
                ),
            },
        ),
        _ => Address::Resource(
            ResourceAddress {
                hi: crate::id_allocator::spec_derived_hi(
                    pre.transaction_hash,
                    crate::id_allocator::SPACE_TAG_RESOURCE,
                ),
                lo: crate::id_allocator::spec_derived_lo(
                    pre.transaction_hash,
                    pre.allocator.resource_counter,
                ),
            },
        ),
    }
}

/// The state after `create_uuid_value`.
pub open spec fn ts_create_uuid(pre: TrackState, value: SubstateValue) -> TrackState {
    let addr = spec_created_address(pre, value);
    let alloc2 = match value {
        SubstateValue::Package(_) => crate::id_allocator::IdAllocator {
            package_counter: (pre.allocator.package_counter + 1) as u32,
            ..pre.allocator
        },
        _ => crate::id_allocator::IdAllocator {
            resource_counter: (pre.allocator.resource_counter + 1) as u32,
            ..pre.allocator
        },
    };
    let spaces2 = match value {
        SubstateValue::Resource(rm) => if rm@.resource_type is NonFungible {
            spaces_insert(
                pre.spaces,
                spec_enc_address(Address::NonFungibleSet(addr->Resource_0)),
            )
        } else {
            pre.spaces
        },
        _ => pre.spaces,
    };
    TrackState {
        allocator: alloc2,
        spaces: spaces2,
        new_addresses: pre.new_addresses.push(addr),
        up: entries_insert(pre.up, spec_enc_address(addr), value),
        ..pre
    }
}

impl<S: ReadableSubstateStore> Track<S> {
    /// Creates a freshly addressed substate: derives the address for the
    /// value's kind, declares a non-fungible resource's key space, and stages
    /// the value.
    pub fn create_uuid_value(&mut self, value: SubstateValue) -> (r: Address)
        requires
            old(self).wf(),
            value is Package || value is Resource,
            value is Package ==> old(self).model().allocator.package_counter < u32::MAX,
            value is Resource ==> old(self).model().allocator.resource_counter < u32::MAX,
            !is_borrowed(old(self).model(), spec_created_address(old(self).model(), value)),
        ensures
            final(self).wf(),
            r == spec_created_address(old(self).model(), value),
            final(self).model() == ts_create_uuid(old(self).model(), value),
    {
        let ghost pre = self.model();
        let is_nf_resource = match &value {
            SubstateValue::Resource(rm) => match rm.resource_type {
                crate::types::ResourceType::NonFungible => true,
                _ => false,
            },
            _ => false,
        };
        let address = match &value {
            SubstateValue::Package(_) => {
                let package_address = self.new_package_address();
                Address::Package(package_address)
            },
            _ => {
                let resource_address = self.new_resource_address();
                if is_nf_resource {
                    let space_address = Address::NonFungibleSet(resource_address).encode();
                    let _ = crate::imap::iset_insert(
                        &mut self.up_virtual_substate_space,
                        space_address,
                    );
                }
                Address::Resource(resource_address)
            },
        };
        self.new_addresses.push(address);
        let key = address.encode();
        proof {
            crate::lemma_assoc_index(self.model().up, key@);
        }
        let _ = crate::imap::im_insert(&mut self.up_substates, key, value);
        proof {
            let post = self.model();
            assert(post == ts_create_uuid(pre, value));
            let mid = TrackState {
                allocator: post.allocator,
                spaces: post.spaces,
                new_addresses: post.new_addresses,
                ..pre
            };
            crate::lemma_seq_index_of(pre.mut_borrows, address);
            crate::lemma_assoc_index(pre.borrow_table, address);
            assert forall|k: int|
                0 <= k < pre.borrow_table.len() implies spec_enc_address(
                (#[trigger] pre.borrow_table[k]).0,
            ) != key@ by {
                assert(pre.borrow_table[k].0 != address);
                if spec_enc_address(pre.borrow_table[k].0) == key@ {
                    lemma_enc_address_injective(pre.borrow_table[k].0, address);
                }
            }
            assert forall|k: int|
                0 <= k < pre.mut_borrows.len() implies spec_enc_address(
                #[trigger] pre.mut_borrows[k],
            ) != key@ by {
                assert(pre.mut_borrows[k] != address);
                if spec_enc_address(pre.mut_borrows[k]) == key@ {
                    lemma_enc_address_injective(pre.mut_borrows[k], address);
                }
            }
            lemma_wf_after_up_insert(mid, key@, value);
            assert(post.up == entries_insert(pre.up, key@, value));
        }
        address
    }

    /// Stages a value at a caller-supplied address (child vaults and local
    /// components).
    pub fn create_uuid_value_2(&mut self, addr: Address, value: SubstateValue)
        requires
            old(self).wf(),
            !is_borrowed(old(self).model(), addr),
        ensures
            final(self).wf(),
            final(self).model() == (TrackState {
                new_addresses: old(self).model().new_addresses.push(addr),
                up: entries_insert(old(self).model().up, spec_enc_address(addr), value),
                ..old(self).model()
            }),
    {
        let ghost pre = self.model();
        self.new_addresses.push(addr);
        let key = addr.encode();
        proof {
            crate::lemma_assoc_index(self.model().up, key@);
        }
        let _ = crate::imap::im_insert(&mut self.up_substates, key, value);
        proof {
            let post = self.model();
            let mid = TrackState { new_addresses: post.new_addresses, ..pre };
            crate::lemma_seq_index_of(pre.mut_borrows, addr);
            crate::lemma_assoc_index(pre.borrow_table, addr);
            assert forall|k: int|
                0 <= k < pre.borrow_table.len() implies spec_enc_address(
                (#[trigger] pre.borrow_table[k]).0,
            ) != key@ by {
                assert(pre.borrow_table[k].0 != addr);
                if spec_enc_address(pre.borrow_table[k].0) == key@ {
                    lemma_enc_address_injective(pre.borrow_table[k].0, addr);
                }
            }
            assert forall|k: int|
                0 <= k < pre.mut_borrows.len() implies spec_enc_address(
                #[trigger] pre.mut_borrows[k],
            ) != key@ by {
                assert(pre.mut_borrows[k] != addr);
                if spec_enc_address(pre.mut_borrows[k]) == key@ {
                    lemma_enc_address_injective(pre.mut_borrows[k], addr);
                }
            }
            lemma_wf_after_up_insert(mid, key@, value);
            assert(post.up == entries_insert(pre.up, key@, value));
        }
    }

    /// Declares a newly created keyed space.
    pub fn create_key_space(
        &mut self,
        component_address: ComponentAddress,
        kv_store_id: KeyValueStoreId,
    )
        requires
            old(self).wf(),
        ensures
            final(self).wf(),
            final(self).model() == (TrackState {
                spaces: spaces_insert(
                    old(self).model().spaces,
                    spec_enc_address(Address::KeyValueStore(component_address, kv_store_id)),
                ),
                ..old(self).model()
            }),
    {
        let space_address = Address::KeyValueStore(component_address, kv_store_id).encode();
        let _ = crate::imap::iset_insert(&mut self.up_virtual_substate_space, space_address);
    }
}

} // verus!

verus! {

/// No borrowed address uses this staged-write key.
pub open spec fn key_unborrowed(pre: TrackState, key: Seq<u8>) -> bool {
    &&& forall|i: int|
        0 <= i < pre.borrow_table.len() ==> spec_enc_address((#[trigger] pre.borrow_table[i]).0)
            != key
    &&& forall|j: int|
        0 <= j < pre.mut_borrows.len() ==> spec_enc_address(#[trigger] pre.mut_borrows[j]) != key
}

/// A keyed write is in the track's domain: the entry is staged or backed by
/// a store row, or its parent space is known.
pub open spec fn set_key_allowed(pre: TrackState, parent: Address, key: Seq<u8>) -> bool {
    let full = spec_enc_address(parent) + key;
    ||| crate::assoc_index(pre.up, full) >= 0
    ||| pre.store.contains_key(full)
    ||| crate::seq_index_of(pre.spaces, spec_enc_address(parent)) >= 0
    ||| pre.store_spaces.contains_key(spec_enc_address(parent))
}

/// The state after `set_key_value`: the first touch of a key records a
/// `Down` against the store row, or a `VirtualDown` within its space; later
/// writes restage only.
pub open spec fn ts_set_key_value(
    pre: TrackState,
    parent: Address,
    key: Seq<u8>,
    value: SubstateValue,
) -> TrackState {
    let pkey = spec_enc_address(parent);
    let full = pkey + key;
    let i = crate::assoc_index(pre.up, full);
    if i >= 0 {
        TrackState { up: seq_swap_remove(pre.up, i).push((full, value)), ..pre }
    } else if pre.store.contains_key(full) {
        TrackState {
            downed: pre.downed.push(pre.store[full].1),
            up: pre.up.push((full, value)),
            ..pre
        }
    } else {
        let pid = if crate::seq_index_of(pre.spaces, pkey) >= 0 {
            SubstateParentId::New(crate::seq_index_of(pre.spaces, pkey) as usize)
        } else {
            SubstateParentId::Exists(pre.store_spaces[pkey])
        };
        TrackState {
            vdowns: pre.vdowns.push((pid, key)),
            up: pre.up.push((full, value)),
            ..pre
        }
    }
}

impl<S: ReadableSubstateStore> Track<S> {
    /// Computes the parent id of a keyed entry's space.
    fn get_substate_parent_id(&self, space_address: &Vec<u8>) -> (r: SubstateParentId)
        requires
            crate::seq_index_of(self.model().spaces, space_address@) >= 0
                || self.model().store_spaces.contains_key(space_address@),
        ensures
            r == if crate::seq_index_of(self.model().spaces, space_address@) >= 0 {
                SubstateParentId::New(
                    crate::seq_index_of(self.model().spaces, space_address@) as usize,
                )
            } else {
                SubstateParentId::Exists(self.model().store_spaces[space_address@])
            },
    {
        match crate::imap::iset_get_index_of(&self.up_virtual_substate_space, space_address) {
            Some(index) => SubstateParentId::New(index),
            None => {
                match self.substate_store.get_space(space_address) {
                    Some(substate_id) => SubstateParentId::Exists(substate_id),
                    None => vstd::pervasive::unreached(),
                }
            },
        }
    }

    /// Stages a keyed value, recording the `Down` or `VirtualDown` that its
    /// first touch owes.
    pub fn set_key_value(&mut self, parent_address: Address, key: Vec<u8>, value: SubstateValue)
        requires
            old(self).wf(),
            set_key_allowed(old(self).model(), parent_address, key@),
            key_unborrowed(old(self).model(), spec_enc_address(parent_address) + key@),
        ensures
            final(self).wf(),
            final(self).model() == ts_set_key_value(
                old(self).model(),
                parent_address,
                key@,
                value,
            ),
    {
        let ghost pre = self.model();
        let mut address = parent_address.encode();
        crate::codec::push_bytes(&mut address, &key);
        let ghost full = spec_enc_address(parent_address) + key@;
        proof {
            crate::lemma_assoc_index(pre.up, full);
        }
        let removed = crate::imap::im_remove(&mut self.up_substates, &address);
        match removed {
            Some(_) => {
                let ghost i = crate::assoc_index(pre.up, full);
                proof {
                    crate::lemma_assoc_index(self.model().up, full);
                }
                let _ = crate::imap::im_insert(&mut self.up_substates, address, value);
                proof {
                    let post = self.model();
                    lemma_wf_swap_remove_push(pre, i, full, value);
                    assert(post.up == seq_swap_remove(pre.up, i).push((full, value)));
                    assert(post == ts_set_key_value(pre, parent_address, key@, value));
                }
                return ;
            },
            None => {},
        }
        match self.substate_store.get_substate(&address) {
            Some(substate) => {
                self.downed_substates.push(substate.phys_id);
            },
            None => {
                let parent_key = parent_address.encode();
                let parent_id = self.get_substate_parent_id(&parent_key);
                let virtual_substate_id = VirtualSubstateId(parent_id, key);
                self.down_virtual_substates.push(virtual_substate_id);
            },
        }
        proof {
            crate::lemma_assoc_index(self.model().up, full);
        }
        let _ = crate::imap::im_insert(&mut self.up_substates, address, value);
        proof {
            let post = self.model();
            let mid = TrackState { downed: post.downed, vdowns: post.vdowns, ..pre };
            lemma_wf_after_up_insert(mid, full, value);
            assert(post.up == entries_insert(pre.up, full, value));
            assert(post.up == pre.up.push((full, value)));
            assert(post.vdowns =~= ts_set_key_value(pre, parent_address, key@, value).vdowns);
            assert(post == ts_set_key_value(pre, parent_address, key@, value));
        }
    }

    /// Reads a keyed value: a staged write, a store row, or the positive
    /// absence tombstone.
    pub fn read_key_value(&self, parent_address: Address, key: Vec<u8>) -> (r: SubstateValue)
        requires
            self.wf(),
            store_ok(self.model().store),
            parent_address is NonFungibleSet || parent_address is KeyValueStore,
            ({
                let full = spec_enc_address(parent_address) + key@;
                let i = crate::assoc_index(self.model().up, full);
                i >= 0 ==> (self.model().up[i].1 is NonFungible || self.model().up[
                    i
                ].1 is KeyValueStoreEntry)
            }),
        ensures
            ({
                let pre = self.model();
                let full = spec_enc_address(parent_address) + key@;
                let i = crate::assoc_index(pre.up, full);
                if i >= 0 {
                    r@ == pre.up[i].1@
                } else if pre.store.contains_key(full) {
                    Some(r@) == crate::value_codec::spec_dec_substate(pre.store[full].0)
                } else if parent_address is NonFungibleSet {
                    r@ == SubstateView::NonFungible(Option::<NonFungibleView>::None)
                } else {
                    r@ == SubstateView::KeyValueStoreEntry(Option::<Seq<u8>>::None)
                }
            }),
    {
        let ghost pre = self.model();
        let mut address = parent_address.encode();
        crate::codec::push_bytes(&mut address, &key);
        let ghost full = spec_enc_address(parent_address) + key@;
        proof {
            crate::lemma_assoc_index(pre.up, full);
        }
        match crate::imap::im_get(&self.up_substates, &address) {
            Some(cur) => {
                match cur {
                    SubstateValue::KeyValueStoreEntry(e) => {
                        return SubstateValue::KeyValueStoreEntry(crate::clone_opt_bytes(e));
                    },
                    SubstateValue::NonFungible(n) => {
                        let copied = match n {
                            Some(nf) => Some(nf.duplicate()),
                            None => None,
                        };
                        return SubstateValue::NonFungible(copied);
                    },
                    _ => {
                        return vstd::pervasive::unreached();
                    },
                }
            },
            None => {},
        }
        match self.substate_store.get_substate(&address) {
            Some(substate) => {
                proof {
                    match parent_address {
                        Address::NonFungibleSet(res) => {
                            assert(pre.store.contains_key(
                                spec_enc_address(Address::NonFungibleSet(res)) + key@,
                            ));
                        },
                        Address::KeyValueStore(c, k) => {
                            assert(pre.store.contains_key(
                                spec_enc_address(Address::KeyValueStore(c, k)) + key@,
                            ));
                        },
                        _ => {},
                    }
                }
                match crate::value_codec::dec_substate_value(&substate.value) {
                    Some(v) => v,
                    None => vstd::pervasive::unreached(),
                }
            },
            None => {
                match parent_address {
                    Address::NonFungibleSet(_) => SubstateValue::NonFungible(None),
                    _ => SubstateValue::KeyValueStoreEntry(None),
                }
            },
        }
    }
}

/// A swap-removed then re-pushed staged write keeps the books well-formed.
proof fn lemma_wf_swap_remove_push(pre: TrackState, i: int, full: Seq<u8>, value: SubstateValue)
    requires
        ts_wf(pre),
        i == crate::assoc_index(pre.up, full),
        0 <= i < pre.up.len(),
        key_unborrowed(pre, full),
    ensures
        books_wf(
            seq_swap_remove(pre.up, i).push((full, value)),
            pre.borrow_table,
            pre.mut_borrows,
        ),
{
    crate::lemma_assoc_index(pre.up, full);
    let shrunk = seq_swap_remove(pre.up, i);
    let nup = shrunk.push((full, value));
    assert(shrunk.len() == pre.up.len() - 1);
    assert(forall|j: int|
        0 <= j < shrunk.len() ==> #[trigger] shrunk[j] == (if j == i {
            pre.up.last()
        } else {
            pre.up[j]
        }));
    assert forall|a: int, b: int| 0 <= a < b < shrunk.len() implies (#[trigger] shrunk[a]).0 != (
    #[trigger] shrunk[b]).0 by {
        assert(shrunk[a] == (if a == i {
            pre.up.last()
        } else {
            pre.up[a]
        }));
        assert(shrunk[b] == (if b == i {
            pre.up.last()
        } else {
            pre.up[b]
        }));
    }
    assert forall|j: int| 0 <= j < shrunk.len() implies (#[trigger] shrunk[j]).0 != full by {
        assert(shrunk[j] == (if j == i {
            pre.up.last()
        } else {
            pre.up[j]
        }));
        if j == i {
            assert(i == pre.up.len() - 1 || pre.up[i].0 != pre.up[pre.up.len() - 1].0);
        }
    }
    assert forall|a: int, b: int| 0 <= a < b < nup.len() implies (#[trigger] nup[a]).0 != (
    #[trigger] nup[b]).0 by {
        if b == shrunk.len() {
            assert(nup[a] == shrunk[a]);
        } else {
            assert(nup[a] == shrunk[a] && nup[b] == shrunk[b]);
        }
    }
    assert forall|k: int| 0 <= k < pre.borrow_table.len() implies crate::assoc_index(
        nup,
        spec_enc_address((#[trigger] pre.borrow_table[k]).0),
    ) < 0 by {
        let ka = spec_enc_address(pre.borrow_table[k].0);
        crate::lemma_assoc_index(nup, ka);
        crate::lemma_assoc_index(pre.up, ka);
        if crate::assoc_index(nup, ka) >= 0 {
            let j = crate::assoc_index(nup, ka);
            if j < shrunk.len() {
                assert(nup[j] == shrunk[j]);
                assert(shrunk[j] == (if j == i {
                    pre.up.last()
                } else {
                    pre.up[j]
                }));
            } else {
                assert(nup[j] == (full, value));
            }
        }
    }
    assert forall|k: int| 0 <= k < pre.mut_borrows.len() implies crate::assoc_index(
        nup,
        spec_enc_address(#[trigger] pre.mut_borrows[k]),
    ) < 0 by {
        let ka = spec_enc_address(pre.mut_borrows[k]);
        crate::lemma_assoc_index(nup, ka);
        crate::lemma_assoc_index(pre.up, ka);
        if crate::assoc_index(nup, ka) >= 0 {
            let j = crate::assoc_index(nup, ka);
            if j < shrunk.len() {
                assert(nup[j] == shrunk[j]);
                assert(shrunk[j] == (if j == i {
                    pre.up.last()
                } else {
                    pre.up[j]
                }));
            } else {
                assert(nup[j] == (full, value));
            }
        }
    }
}

} // verus!

verus! {

/// The views of a list of store instructions.
pub open spec fn ops_view(s: Seq<SubstateOperation>) -> Seq<SubstateOpView> {
    s.map(|i: int, op: SubstateOperation| op@)
}

/// The ordered store instructions a track state commits to: downs, then
/// virtual downs, then ups, then virtual ups, each group in insertion
/// order.
pub open spec fn spec_receipt_ops(t: TrackState) -> Seq<SubstateOpView> {
    down_ops(t.downed) + vdown_ops(t.vdowns) + up_ops(t.up) + space_ops(t.spaces)
}

impl<S: ReadableSubstateStore> Track<S> {
    /// Commits: consumes the track and emits the receipt.  Still-borrowed
    /// addresses, from either path, are reported rather than committed.
    pub fn to_receipt(self) -> (r: TrackReceipt)
        requires
            forall|i: int|
                0 <= i < self.model().up.len() ==> crate::value_codec::substate_enc_ok(
                    (#[trigger] self.model().up[i]).1@,
                ),
        ensures
            r.new_addresses@ == self.model().new_addresses,
            r.logs@ == self.model().logs,
            r.borrowed.borrowed_substates@ == self.model().mut_borrows + bt_addrs(
                self.model().borrow_table,
            ),
            ops_view(r.substates.substate_operations@) == spec_receipt_ops(self.model()),
    {
        let ghost t = self.model();
        let mut track = self;
        let mut store_instructions: Vec<SubstateOperation> = Vec::new();
        proof {
            assert(ops_view(store_instructions@) =~= Seq::<SubstateOpView>::empty());
        }
        let ghost downs_v = down_ops(t.downed);
        let ghost vdowns_v = vdown_ops(t.vdowns);
        let ghost ups_v = up_ops(t.up);
        let ghost spaces_v = space_ops(t.spaces);
        let mut i: usize = 0;
        while i < track.downed_substates.len()
            invariant
                i <= t.downed.len(),
                track.downed_substates@ == t.downed,
                downs_v == down_ops(t.downed),
                downs_v.len() == t.downed.len(),
                ops_view(store_instructions@) == downs_v.take(i as int),
            decreases t.downed.len() - i,
        {
            let ghost ops0 = store_instructions@;
            store_instructions.push(SubstateOperation::Down(track.downed_substates[i]));
            proof {
                assert(ops_view(store_instructions@) =~= ops_view(ops0).push(
                    SubstateOpView::Down(t.downed[i as int]),
                ));
                assert(downs_v.take(i + 1) =~= downs_v.take(i as int).push(downs_v[i as int]));
            }
            i += 1;
        }
        proof {
            assert(downs_v.take(t.downed.len() as int) =~= downs_v);
        }
        let mut vd = track.down_virtual_substates;
        proof {
            assert(vdown_views(vd@) == t.vdowns);
        }
        let ghost vdn = t.vdowns.len() as int;
        while vd.len() > 0
            invariant
                vdown_views(vd@) == t.vdowns.skip(vdn - vd@.len()),
                vd@.len() <= t.vdowns.len(),
                vdn == t.vdowns.len(),
                vdowns_v == vdown_ops(t.vdowns),
                vdowns_v.len() == t.vdowns.len(),
                ops_view(store_instructions@) == downs_v + vdowns_v.take(vdn - vd@.len()),
            decreases vd@.len(),
        {
            let ghost ops0 = store_instructions@;
            let ghost vd0 = vd@;
            let ghost k = vdn - vd@.len();
            let item = vd.remove(0);
            proof {
                assert(item == vd0[0]);
                assert(vdown_views(vd0)[0] == (vd0[0].0, vd0[0].1@));
                assert(t.vdowns.skip(k)[0] == t.vdowns[k]);
                assert forall|j: int| 0 <= j < vd@.len() implies vdown_views(vd@)[j] == t.vdowns.skip(
                    k + 1,
                )[j] by {
                    assert(vd@[j] == vd0[j + 1]);
                    assert(vdown_views(vd0)[j + 1] == t.vdowns.skip(k)[j + 1]);
                }
                assert(vdown_views(vd@) =~= t.vdowns.skip(k + 1));
            }
            store_instructions.push(SubstateOperation::VirtualDown(item));
            proof {
                assert(ops_view(store_instructions@) =~= ops_view(ops0).push(
                    SubstateOpView::VirtualDown(t.vdowns[k]),
                ));
                assert(vdowns_v.take(k + 1) =~= vdowns_v.take(k).push(vdowns_v[k]));
            }
        }
        proof {
            assert(vdowns_v.take(vdn) =~= vdowns_v);
        }
        let mut ups = crate::imap::im_drain(&mut track.up_substates);
        proof {
            assert(up_pairs(ups@) =~= t.up);
        }
        let ghost upn = t.up.len() as int;
        while ups.len() > 0
            invariant
                up_pairs(ups@) == t.up.skip(upn - ups@.len()),
                ups@.len() <= t.up.len(),
                upn == t.up.len(),
                ups_v == up_ops(t.up),
                ups_v.len() == t.up.len(),
                forall|i: int|
                    0 <= i < t.up.len() ==> crate::value_codec::substate_enc_ok(
                        (#[trigger] t.up[i]).1@,
                    ),
                ops_view(store_instructions@) == downs_v + vdowns_v + ups_v.take(upn - ups@.len()),
            decreases ups@.len(),
        {
            let ghost ops0 = store_instructions@;
            let ghost ups0 = ups@;
            let ghost k = upn - ups@.len();
            let (address, value) = ups.remove(0);
            proof {
                assert(ups0[0] == (address, value));
                assert(up_pairs(ups0)[0] == (ups0[0].0@, ups0[0].1));
                assert(t.up.skip(k)[0] == t.up[k]);
                assert forall|j: int| 0 <= j < ups@.len() implies up_pairs(ups@)[j] == t.up.skip(
                    k + 1,
                )[j] by {
                    assert(ups@[j] == ups0[j + 1]);
                    assert(up_pairs(ups0)[j + 1] == t.up.skip(k)[j + 1]);
                }
                assert(up_pairs(ups@) =~= t.up.skip(k + 1));
            }
            let encoded = crate::value_codec::encode_substate_value(&value);
            store_instructions.push(SubstateOperation::Up(address, encoded));
            proof {
                assert(ops_view(store_instructions@) =~= ops_view(ops0).push(
                    SubstateOpView::Up(
                        (t.up[k].0, crate::value_codec::spec_enc_substate(t.up[k].1@)),
                    ),
                ));
                assert(ups_v.take(k + 1) =~= ups_v.take(k).push(ups_v[k]));
            }
        }
        proof {
            assert(ups_v.take(upn) =~= ups_v);
        }
        let mut sps = crate::imap::iset_drain(&mut track.up_virtual_substate_space);
        proof {
            assert(space_views(sps@) =~= t.spaces);
        }
        let ghost spn = t.spaces.len() as int;
        while sps.len() > 0
            invariant
                space_views(sps@) == t.spaces.skip(spn - sps@.len()),
                sps@.len() <= t.spaces.len(),
                spn == t.spaces.len(),
                spaces_v == space_ops(t.spaces),
                spaces_v.len() == t.spaces.len(),
                ops_view(store_instructions@) == downs_v + vdowns_v + ups_v + spaces_v.take(
                    spn - sps@.len(),
                ),
            decreases sps@.len(),
        {
            let ghost ops0 = store_instructions@;
            let ghost sps0 = sps@;
            let ghost k = spn - sps@.len();
            let space_address = sps.remove(0);
            proof {
                assert(sps0[0] == space_address);
                assert(space_views(sps0)[0] == sps0[0]@);
                assert(t.spaces.skip(k)[0] == t.spaces[k]);
                assert forall|j: int| 0 <= j < sps@.len() implies space_views(sps@)[j]
                    == t.spaces.skip(k + 1)[j] by {
                    assert(sps@[j] == sps0[j + 1]);
                    assert(space_views(sps0)[j + 1] == t.spaces.skip(k)[j + 1]);
                }
                assert(space_views(sps@) =~= t.spaces.skip(k + 1));
            }
            store_instructions.push(SubstateOperation::VirtualUp(space_address));
            proof {
                assert(ops_view(store_instructions@) =~= ops_view(ops0).push(
                    SubstateOpView::VirtualUp(t.spaces[k]),
                ));
                assert(spaces_v.take(k + 1) =~= spaces_v.take(k).push(spaces_v[k]));
            }
        }
        proof {
            assert(spaces_v.take(spn) =~= spaces_v);
        }
        let mut still_borrowed = track.borrowed_substates;
        let mut bt = track.borrowed_substates_2;
        let ghost btn = t.borrow_table.len() as int;
        proof {
            assert(still_borrowed@ =~= t.mut_borrows + bt_addrs(t.borrow_table).take(0));
        }
        while bt.len() > 0
            invariant
                bt_addrs(bt@) == bt_addrs(t.borrow_table).skip(btn - bt@.len()),
                bt@.len() <= t.borrow_table.len(),
                btn == t.borrow_table.len(),
                still_borrowed@ == t.mut_borrows + bt_addrs(t.borrow_table).take(btn - bt@.len()),
            decreases bt@.len(),
        {
            let ghost bt0 = bt@;
            let ghost k = btn - bt@.len();
            let (a, _v) = bt.remove(0);
            proof {
                assert(bt0[0] == (a, _v));
                assert(bt_addrs(bt0)[0] == bt0[0].0);
                assert(bt_addrs(t.borrow_table).skip(k)[0] == bt_addrs(t.borrow_table)[k]);
                assert forall|j: int| 0 <= j < bt@.len() implies bt_addrs(bt@)[j] == bt_addrs(
                    t.borrow_table,
                ).skip(k + 1)[j] by {
                    assert(bt@[j] == bt0[j + 1]);
                    assert(bt_addrs(bt0)[j + 1] == bt_addrs(t.borrow_table).skip(k)[j + 1]);
                }
                assert(bt_addrs(bt@) =~= bt_addrs(t.borrow_table).skip(k + 1));
            }
            still_borrowed.push(a);
            proof {
                assert(bt_addrs(t.borrow_table).take(k + 1) =~= bt_addrs(t.borrow_table).take(
                    k,
                ).push(bt_addrs(t.borrow_table)[k]));
            }
        }
        proof {
            assert(bt_addrs(t.borrow_table).take(btn) =~= bt_addrs(t.borrow_table));
        }
        let substates = SubstateOperationsReceipt { substate_operations: store_instructions };
        let borrowed = BorrowedSNodes { borrowed_substates: still_borrowed };
        TrackReceipt {
            new_addresses: track.new_addresses,
            borrowed,
            substates,
            logs: track.logs,
        }
    }
}

} // verus!

verus! {

/// The non-fungible stored for an id, as the track resolves it: the staged
/// write if any, else the store row, else absent.
pub open spec fn ts_get_nf(t: TrackState, r: ResourceAddress, id: Seq<u8>) -> Option<
    NonFungibleView,
> {
    let full = spec_enc_address(Address::NonFungibleSet(r)) + id;
    let i = crate::assoc_index(t.up, full);
    if i >= 0 {
        t.up[i].1@->NonFungible_0
    } else if t.store.contains_key(full) {
        (crate::value_codec::spec_dec_substate(t.store[full].0)->0)->NonFungible_0
    } else {
        None
    }
}

/// A staged write at a non-fungible key, if any, really is a non-fungible.
pub open spec fn nf_read_ok(t: TrackState, r: ResourceAddress, id: Seq<u8>) -> bool {
    let full = spec_enc_address(Address::NonFungibleSet(r)) + id;
    let i = crate::assoc_index(t.up, full);
    i >= 0 ==> t.up[i].1 is NonFungible
}

impl<S: ReadableSubstateStore> Track<S> {
    /// Resolves a non-fungible by address.
    pub fn get_non_fungible(&self, non_fungible_address: &NonFungibleAddress) -> (r: Option<
        NonFungible,
    >)
        requires
            self.wf(),
            store_ok(self.model().store),
            nf_read_ok(
                self.model(),
                non_fungible_address.resource_address,
                non_fungible_address.non_fungible_id.0@,
            ),
        ensures
            ({
                let w = ts_get_nf(
                    self.model(),
                    non_fungible_address.resource_address,
                    non_fungible_address.non_fungible_id.0@,
                );
                match r {
                    Some(nf) => w matches Some(v) && nf.immutable_data@ == v.immutable_data
                        && nf.mutable_data@ == v.mutable_data,
                    None => w is None,
                }
            }),
    {
        let parent = Address::NonFungibleSet(non_fungible_address.resource_address);
        let key = crate::clone_bytes(&non_fungible_address.non_fungible_id.0);
        let value = self.read_key_value(parent, key);
        match value {
            SubstateValue::NonFungible(nf) => nf,
            _ => vstd::pervasive::unreached(),
        }
    }

    /// Writes (or tombstones) a non-fungible.
    pub fn set_non_fungible(
        &mut self,
        non_fungible_address: NonFungibleAddress,
        value: Option<NonFungible>,
    )
        requires
            old(self).wf(),
            set_key_allowed(
                old(self).model(),
                Address::NonFungibleSet(non_fungible_address.resource_address),
                non_fungible_address.non_fungible_id.0@,
            ),
            key_unborrowed(
                old(self).model(),
                spec_enc_address(Address::NonFungibleSet(non_fungible_address.resource_address))
                    + non_fungible_address.non_fungible_id.0@,
            ),
        ensures
            final(self).wf(),
            final(self).model() == ts_set_key_value(
                old(self).model(),
                Address::NonFungibleSet(non_fungible_address.resource_address),
                non_fungible_address.non_fungible_id.0@,
                SubstateValue::NonFungible(value),
            ),
    {
        let parent = Address::NonFungibleSet(non_fungible_address.resource_address);
        let NonFungibleAddress { resource_address: _, non_fungible_id } = non_fungible_address;
        let NonFungibleId(key) = non_fungible_id;
        self.set_key_value(parent, key, SubstateValue::NonFungible(value));
    }
}

} // verus!

verus! {

/// The id a value stored inside a component is keyed by.
#[derive(Clone, Copy, PartialEq, Eq, Structural, Debug)]
pub enum StoredValueId {
    VaultId(VaultId),
    KeyValueStoreId(KeyValueStoreId),
    Component(ComponentAddress),
}

/// A value owned by a component: a vault, a child component with its own
/// children, or a key-value store with its entries and children.
#[derive(Debug)]
pub enum StoredValue {
    Vault(Vault),
    Component { component: Component, child_values: Vec<(StoredValueId, StoredValue)> },
    KeyValueStore { store: Vec<(Vec<u8>, Vec<u8>)>, child_values: Vec<(StoredValueId, StoredValue)> },
}

/// Ids and values pair up by kind, recursively.
pub open spec fn stored_ok(vals: Seq<(StoredValueId, StoredValue)>) -> bool
    decreases vals, vals.len(),
{
    if vals.len() == 0 {
        true
    } else {
        let ok0 = match vals[0] {
            (StoredValueId::VaultId(_), StoredValue::Vault(_)) => true,
            (StoredValueId::Component(_), StoredValue::Component { child_values, .. }) =>
                stored_ok(child_values@),
            (
                StoredValueId::KeyValueStoreId(_),
                StoredValue::KeyValueStore { child_values, .. },
            ) => stored_ok(child_values@),
            _ => false,
        };
        ok0 && stored_ok(vals.drop_first())
    }
}

/// The state after staging a value at a caller-supplied address.
pub open spec fn ts_create_2(t: TrackState, addr: Address, value: SubstateValue) -> TrackState {
    TrackState {
        new_addresses: t.new_addresses.push(addr),
        up: entries_insert(t.up, spec_enc_address(addr), value),
        ..t
    }
}

/// The state after writing a run of key-value entries into one space.
pub open spec fn ts_set_entries(
    t: TrackState,
    parent: Address,
    store: Seq<(Vec<u8>, Vec<u8>)>,
) -> TrackState
    decreases store, store.len(),
{
    if store.len() == 0 {
        t
    } else {
        ts_set_entries(
            ts_set_key_value(
                t,
                parent,
                store[0].0@,
                SubstateValue::KeyValueStoreEntry(Some(store[0].1)),
            ),
            parent,
            store.drop_first(),
        )
    }
}

/// The state after inserting one stored value (and its children).
pub open spec fn ts_insert_one(
    t: TrackState,
    id: StoredValueId,
    value: StoredValue,
    ca: ComponentAddress,
) -> TrackState
    decreases value,
{
    match value {
        StoredValue::Vault(vault) => ts_create_2(
            t,
            Address::Vault(ca, id->VaultId_0),
            SubstateValue::Vault(vault),
        ),
        StoredValue::Component { component, child_values } => ts_insert_objects(
            ts_create_2(
                t,
                Address::LocalComponent(ca, id->Component_0),
                SubstateValue::Component(component),
            ),
            child_values@,
            ca,
        ),
        StoredValue::KeyValueStore { store, child_values } => ts_insert_objects(
            ts_set_entries(
                TrackState {
                    spaces: spaces_insert(
                        t.spaces,
                        spec_enc_address(Address::KeyValueStore(ca, id->KeyValueStoreId_0)),
                    ),
                    ..t
                },
                Address::KeyValueStore(ca, id->KeyValueStoreId_0),
                store@,
            ),
            child_values@,
            ca,
        ),
    }
}

/// The state after inserting a list of stored values, front first.
pub open spec fn ts_insert_objects(
    t: TrackState,
    vals: Seq<(StoredValueId, StoredValue)>,
    ca: ComponentAddress,
) -> TrackState
    decreases vals, vals.len() + 1,
{
    if vals.len() == 0 {
        t
    } else {
        ts_insert_objects(ts_insert_one(t, vals[0].0, vals[0].1, ca), vals.drop_first(), ca)
    }
}

} // verus!

verus! {

/// The recursion weight of one stored value.
pub open spec fn sv_size(v: StoredValue) -> nat
    decreases v,
{
    match v {
        StoredValue::Vault(_) => 1,
        StoredValue::Component { child_values, .. } => 1 + svl_size(child_values@),
        StoredValue::KeyValueStore { child_values, .. } => 1 + svl_size(child_values@),
    }
}

/// The recursion weight of a stored-value list.
pub open spec fn svl_size(s: Seq<(StoredValueId, StoredValue)>) -> nat
    decreases s, s.len(),
{
    if s.len() == 0 {
        0
    } else {
        sv_size(s[0].1) + svl_size(s.drop_first())
    }
}

impl<S: ReadableSubstateStore> Track<S> {
    /// Inserts a component's owned values: vaults and local components as
    /// fresh substates, key-value stores as new spaces with their entries,
    /// children recursively.
    pub fn insert_objects_into_component(
        &mut self,
        values: Vec<(StoredValueId, StoredValue)>,
        component_address: ComponentAddress,
    )
        requires
            old(self).wf(),
            stored_ok(values@),
            old(self).model().borrow_table.len() == 0,
            old(self).model().mut_borrows.len() == 0,
        ensures
            final(self).wf(),
            final(self).model() == ts_insert_objects(
                old(self).model(),
                values@,
                component_address,
            ),
            final(self).model().borrow_table.len() == 0,
            final(self).model().mut_borrows.len() == 0,
        decreases svl_size(values@),
    {
        let ghost t0 = self.model();
        let ghost all = values@;
        let mut values = values;
        if values.len() == 0 {
            return ;
        }
        let (id, value) = values.remove(0);
        proof {
            assert(all[0] == (id, value));
            assert(values@ =~= all.drop_first());
            assert(svl_size(all) == sv_size(value) + svl_size(all.drop_first()));
        }
        match value {
            StoredValue::Vault(vault) => {
                let vid = match id {
                    StoredValueId::VaultId(vid) => vid,
                    _ => vstd::pervasive::unreached(),
                };
                let addr = Address::Vault(component_address, vid);
                proof {
                    crate::lemma_assoc_index(t0.borrow_table, addr);
                    crate::lemma_seq_index_of(t0.mut_borrows, addr);
                }
                self.create_uuid_value_2(addr, SubstateValue::Vault(vault));
                proof {
                    assert(self.model() == ts_insert_one(
                        t0,
                        all[0].0,
                        all[0].1,
                        component_address,
                    ));
                }
            },
            StoredValue::Component { component, child_values } => {
                let caddr = match id {
                    StoredValueId::Component(caddr) => caddr,
                    _ => vstd::pervasive::unreached(),
                };
                let addr = Address::LocalComponent(component_address, caddr);
                proof {
                    crate::lemma_assoc_index(t0.borrow_table, addr);
                    crate::lemma_seq_index_of(t0.mut_borrows, addr);
                }
                self.create_uuid_value_2(addr, SubstateValue::Component(component));
                proof {
                    assert(svl_size(child_values@) < sv_size(all[0].1));
                }
                self.insert_objects_into_component(child_values, component_address);
                proof {
                    assert(self.model() == ts_insert_one(
                        t0,
                        all[0].0,
                        all[0].1,
                        component_address,
                    ));
                }
            },
            StoredValue::KeyValueStore { store, child_values } => {
                let kvid = match id {
                    StoredValueId::KeyValueStoreId(kvid) => kvid,
                    _ => vstd::pervasive::unreached(),
                };
                let parent = Address::KeyValueStore(component_address, kvid);
                self.create_key_space(component_address, kvid);
                proof {
                    let pk = spec_enc_address(parent);
                    crate::lemma_seq_index_of(t0.spaces, pk);
                    crate::lemma_seq_index_of_push(t0.spaces, pk, pk);
                    assert(crate::seq_index_of(self.model().spaces, pk) >= 0);
                }
                let ghost t_sp = self.model();
                let ghost store_all = store@;
                let mut store = store;
                while store.len() > 0
                    invariant
                        self.wf(),
                        store@ == store_all.skip(store_all.len() - store@.len()),
                        store@.len() <= store_all.len(),
                        crate::seq_index_of(
                            self.model().spaces,
                            spec_enc_address(parent),
                        ) >= 0,
                        self.model().borrow_table.len() == 0,
                        self.model().mut_borrows.len() == 0,
                        ts_set_entries(t_sp, parent, store_all) == ts_set_entries(
                            self.model(),
                            parent,
                            store@,
                        ),
                    decreases store@.len(),
                {
                    let ghost cur = self.model();
                    let ghost rem0 = store@;
                    let (k, v) = store.remove(0);
                    proof {
                        assert(rem0[0] == (k, v));
                        assert(store@ =~= rem0.drop_first());
                    }
                    self.set_key_value(parent, k, SubstateValue::KeyValueStoreEntry(Some(v)));
                    proof {
                        assert(ts_set_entries(cur, parent, rem0) == ts_set_entries(
                            self.model(),
                            parent,
                            store@,
                        ));
                    }
                }
                proof {
                    assert(store@.len() == 0);
                    assert(ts_set_entries(self.model(), parent, store@) == self.model());
                    assert(self.model() == ts_set_entries(t_sp, parent, store_all));
                    assert(svl_size(child_values@) < sv_size(all[0].1));
                }
                self.insert_objects_into_component(child_values, component_address);
                proof {
                    assert(self.model() == ts_insert_one(
                        t0,
                        all[0].0,
                        all[0].1,
                        component_address,
                    ));
                }
            },
        }
        proof {
            assert(svl_size(values@) < svl_size(all));
            assert(self.model() == ts_insert_one(t0, all[0].0, all[0].1, component_address));
            assert(ts_insert_objects(t0, all, component_address) == ts_insert_objects(
                self.model(),
                all.drop_first(),
                component_address,
            ));
        }
        self.insert_objects_into_component(values, component_address);
    }
}

} // verus!
