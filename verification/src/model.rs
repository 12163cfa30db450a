//! The substate payload types: packages, components, resource containers,
//! vaults and buckets, each with its mathematical view.

use vstd::prelude::*;

use crate::types::{
    ComponentAddress, Decimal, NonFungibleId, PackageAddress, ResourceAddress, ResourceType,
};

verus! {

/// A published package: its code, held as opaque bytes.
#[derive(Debug)]
pub struct ValidatedPackage {
    pub code: Vec<u8>,
}

pub struct PackageView {
    pub code: Seq<u8>,
}

impl View for ValidatedPackage {
    type V = PackageView;

    open spec fn view(&self) -> PackageView {
        PackageView { code: self.code@ }
    }
}

impl ValidatedPackage {
    pub fn new(code: Vec<u8>) -> (r: Self)
        ensures
            r@.code == code@,
    {
        ValidatedPackage { code }
    }
}

/// A component instance: the package it belongs to, its blueprint's name and
/// its serialized state.
#[derive(Debug)]
pub struct Component {
    pub package_address: PackageAddress,
    pub blueprint_name: String,
    pub state: Vec<u8>,
}

pub struct ComponentView {
    pub package_address: PackageAddress,
    pub blueprint_name: Seq<char>,
    pub state: Seq<u8>,
}

impl View for Component {
    type V = ComponentView;

    open spec fn view(&self) -> ComponentView {
        ComponentView {
            package_address: self.package_address,
            blueprint_name: self.blueprint_name@,
            state: self.state@,
        }
    }
}

impl Component {
    pub fn new(package_address: PackageAddress, blueprint_name: String, state: Vec<u8>) -> (r:
        Self)
        ensures
            r@.package_address == package_address,
            r@.blueprint_name == blueprint_name@,
            r@.state == state@,
    {
        Component { package_address, blueprint_name, state }
    }

    pub fn set_state(&mut self, state: Vec<u8>)
        ensures
            *final(self) == (Component {
                package_address: old(self).package_address,
                blueprint_name: old(self).blueprint_name,
                state,
            }),
    {
        self.state = state;
    }
}

/// The units a container of one resource holds: an amount for fungibles,
/// a list of ids for non-fungibles.
#[derive(Debug)]
pub enum ResourceContainer {
    Fungible { resource_address: ResourceAddress, divisibility: u8, liquid_amount: Decimal },
    NonFungible { resource_address: ResourceAddress, liquid_ids: Vec<NonFungibleId> },
}

pub enum ContainerView {
    Fungible { resource_address: ResourceAddress, divisibility: u8, liquid_amount: Decimal },
    NonFungible { resource_address: ResourceAddress, liquid_ids: Seq<Seq<u8>> },
}

impl View for ResourceContainer {
    type V = ContainerView;

    open spec fn view(&self) -> ContainerView {
        match self {
            ResourceContainer::Fungible { resource_address, divisibility, liquid_amount } => {
                ContainerView::Fungible {
                    resource_address: *resource_address,
                    divisibility: *divisibility,
                    liquid_amount: *liquid_amount,
                }
            },
            ResourceContainer::NonFungible { resource_address, liquid_ids } => {
                ContainerView::NonFungible {
                    resource_address: *resource_address,
                    liquid_ids: liquid_ids@.map(|i: int, id: NonFungibleId| id.0@),
                }
            },
        }
    }
}

/// The view of an empty container for a resource type.
pub open spec fn new_empty_view(
    resource_address: ResourceAddress,
    resource_type: ResourceType,
) -> ContainerView {
    match resource_type {
        ResourceType::Fungible { divisibility } => ContainerView::Fungible {
            resource_address,
            divisibility,
            liquid_amount: Decimal(0),
        },
        ResourceType::NonFungible => ContainerView::NonFungible {
            resource_address,
            liquid_ids: Seq::empty(),
        },
    }
}

impl ResourceContainer {
    pub fn new_fungible(resource_address: ResourceAddress, divisibility: u8, amount: Decimal) -> (
        r: Self)
        ensures
            r@ == (ContainerView::Fungible { resource_address, divisibility, liquid_amount: amount }),
    {
        ResourceContainer::Fungible { resource_address, divisibility, liquid_amount: amount }
    }

    pub fn new_non_fungible(resource_address: ResourceAddress, ids: Vec<NonFungibleId>) -> (r:
        Self)
        ensures
            r@ == (ContainerView::NonFungible {
                resource_address,
                liquid_ids: ids@.map(|i: int, id: NonFungibleId| id.0@),
            }),
    {
        ResourceContainer::NonFungible { resource_address, liquid_ids: ids }
    }

    pub fn new_empty(resource_address: ResourceAddress, resource_type: ResourceType) -> (r: Self)
        ensures
            r@ == new_empty_view(resource_address, resource_type),
    {
        match resource_type {
            ResourceType::Fungible { divisibility } => {
                let r = ResourceContainer::Fungible {
                    resource_address,
                    divisibility,
                    liquid_amount: Decimal(0),
                };
                r
            },
            ResourceType::NonFungible => {
                let ids: Vec<NonFungibleId> = Vec::new();
                proof {
                    assert(ids@.map(|i: int, id: NonFungibleId| id.0@) =~= Seq::<Seq<u8>>::empty());
                }
                ResourceContainer::NonFungible { resource_address, liquid_ids: ids }
            },
        }
    }
}

/// A vault: a component-owned container.
#[derive(Debug)]
pub struct Vault {
    pub container: ResourceContainer,
}

impl View for Vault {
    type V = ContainerView;

    open spec fn view(&self) -> ContainerView {
        self.container@
    }
}

impl Vault {
    pub fn new(container: ResourceContainer) -> (r: Self)
        ensures
            r@ == container@,
    {
        Vault { container }
    }
}

/// A bucket: a transient container moved between calls.
#[derive(Debug)]
pub struct Bucket {
    pub container: ResourceContainer,
}

impl View for Bucket {
    type V = ContainerView;

    open spec fn view(&self) -> ContainerView {
        self.container@
    }
}

impl Bucket {
    pub fn new(container: ResourceContainer) -> (r: Self)
        ensures
            r@ == container@,
    {
        Bucket { container }
    }
}

} // verus!
