//! Trusted interface to the insertion-ordered maps of the `indexmap` crate.
//!
//! The overlay keeps its staged writes and its new key spaces in an
//! `IndexMap` / `IndexSet` so that commit order is insertion order.  The
//! contents of each collection are named as a sequence of entries,
//! oldest first; every wrapper states what the called method does to that
//! sequence, as the crate's source shows it.

use vstd::prelude::*;

use crate::track::SubstateValue;

verus! {

#[verifier::external_type_specification]
#[verifier::external_body]
#[verifier::reject_recursive_types(K)]
#[verifier::reject_recursive_types(V)]
#[verifier::reject_recursive_types(S)]
pub struct ExIndexMap<K, V, S>(indexmap::IndexMap<K, V, S>);

#[verifier::external_type_specification]
#[verifier::external_body]
#[verifier::reject_recursive_types(T)]
#[verifier::reject_recursive_types(S)]
pub struct ExIndexSet<T, S>(indexmap::IndexSet<T, S>);

/// The entries of a staged-write map, in order, as (key bytes, value) pairs.
pub uninterp spec fn im_entries(m: indexmap::IndexMap<Vec<u8>, SubstateValue>) -> Seq<
    (Seq<u8>, SubstateValue),
>;

/// The elements of a key-space set, in insertion order.
pub uninterp spec fn iset_entries(s: indexmap::IndexSet<Vec<u8>>) -> Seq<Seq<u8>>;

/// Relies on `IndexMap::new`: builds an empty map.
#[verifier::external_body]
pub fn im_new() -> (r: indexmap::IndexMap<Vec<u8>, SubstateValue>)
    ensures
        im_entries(r) == Seq::<(Seq<u8>, SubstateValue)>::empty(),
{
    indexmap::IndexMap::new()
}

/// Relies on `IndexMap::insert`: an existing key keeps its place and has its
/// value replaced, the old value coming back; a new key goes last.
#[verifier::external_body]
pub fn im_insert(
    m: &mut indexmap::IndexMap<Vec<u8>, SubstateValue>,
    key: Vec<u8>,
    value: SubstateValue,
) -> (r: Option<SubstateValue>)
    ensures
        ({
            let s = im_entries(*old(m));
            let i = crate::assoc_index(s, key@);
            if i >= 0 {
                im_entries(*final(m)) == s.update(i, (s[i].0, value)) && r == Some(s[i].1)
            } else {
                im_entries(*final(m)) == s.push((key@, value)) && r is None
            }
        }),
{
    m.insert(key, value)
}

/// Relies on `IndexMap::remove` (an alias of `swap_remove`): the entry is
/// swapped with the last one and popped, its value returned; an absent key
/// changes nothing.
#[verifier::external_body]
pub fn im_remove(m: &mut indexmap::IndexMap<Vec<u8>, SubstateValue>, key: &Vec<u8>) -> (r: Option<
    SubstateValue,
>)
    ensures
        ({
            let s = im_entries(*old(m));
            let i = crate::assoc_index(s, key@);
            if i >= 0 {
                im_entries(*final(m)) == s.update(i, s.last()).drop_last() && r == Some(s[i].1)
            } else {
                im_entries(*final(m)) == s && r is None
            }
        }),
{
    m.remove(key)
}

/// Relies on `IndexMap::get`: a reference to the value stored for `key`.
#[verifier::external_body]
pub fn im_get<'a>(m: &'a indexmap::IndexMap<Vec<u8>, SubstateValue>, key: &Vec<u8>) -> (r: Option<
    &'a SubstateValue,
>)
    ensures
        ({
            let s = im_entries(*m);
            let i = crate::assoc_index(s, key@);
            match r {
                Some(v) => i >= 0 && *v == s[i].1,
                None => i < 0,
            }
        }),
{
    m.get(key)
}

/// Relies on `IndexMap::drain`: hands every entry out in order and leaves
/// the map empty.
#[verifier::external_body]
pub fn im_drain(m: &mut indexmap::IndexMap<Vec<u8>, SubstateValue>) -> (r: Vec<
    (Vec<u8>, SubstateValue),
>)
    ensures
        ({
            let s = im_entries(*old(m));
            &&& r@.len() == s.len()
            &&& forall|j: int| 0 <= j < s.len() ==> r@[j].0@ == s[j].0 && r@[j].1 == s[j].1
            &&& im_entries(*final(m)) == Seq::<(Seq<u8>, SubstateValue)>::empty()
        }),
{
    m.drain(..).collect()
}

/// Relies on `IndexSet::new`: builds an empty set.
#[verifier::external_body]
pub fn iset_new() -> (r: indexmap::IndexSet<Vec<u8>>)
    ensures
        iset_entries(r) == Seq::<Seq<u8>>::empty(),
{
    indexmap::IndexSet::new()
}

/// Relies on `IndexSet::insert`: a new element goes last and `true` comes
/// back; a present one leaves the set unchanged.
#[verifier::external_body]
pub fn iset_insert(s: &mut indexmap::IndexSet<Vec<u8>>, value: Vec<u8>) -> (r: bool)
    ensures
        ({
            let e = iset_entries(*old(s));
            if crate::seq_index_of(e, value@) >= 0 {
                iset_entries(*final(s)) == e && r == false
            } else {
                iset_entries(*final(s)) == e.push(value@) && r == true
            }
        }),
{
    s.insert(value)
}

/// Relies on `IndexSet::get_index_of`: the position of an element.
#[verifier::external_body]
pub fn iset_get_index_of(s: &indexmap::IndexSet<Vec<u8>>, value: &Vec<u8>) -> (r: Option<usize>)
    ensures
        ({
            let e = iset_entries(*s);
            let i = crate::seq_index_of(e, value@);
            match r {
                Some(j) => i >= 0 && j == i,
                None => i < 0,
            }
        }),
{
    s.get_index_of(value)
}

/// Relies on `IndexSet::drain`: hands every element out in order and leaves
/// the set empty.
#[verifier::external_body]
pub fn iset_drain(s: &mut indexmap::IndexSet<Vec<u8>>) -> (r: Vec<Vec<u8>>)
    ensures
        ({
            let e = iset_entries(*old(s));
            &&& r@.len() == e.len()
            &&& forall|j: int| 0 <= j < e.len() ==> r@[j]@ == e[j]
            &&& iset_entries(*final(s)) == Seq::<Seq<u8>>::empty()
        }),
{
    s.drain(..).collect()
}

} // verus!
