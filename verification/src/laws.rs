//! The track's cross-operation guarantees, stated and proved over the
//! abstract state transitions.

use vstd::prelude::*;

use crate::track::{
    Address, SubstateOpView, SubstateValue, TrackState, seq_swap_remove,
    spec_enc_address, take_lock_post, ts_release, ts_set_key_value, ts_write_value, ts_wf,
    spec_receipt_ops, down_ops, vdown_ops, up_ops, space_ops, SubstateParentId,
};

verus! {

/// After a swap-removal of the only entry with a key, the key is gone.
proof fn lemma_key_gone_after_swap_remove(
    up: Seq<(Seq<u8>, SubstateValue)>,
    i: int,
    key: Seq<u8>,
)
    requires
        forall|a: int, b: int| 0 <= a < b < up.len() ==> (#[trigger] up[a]).0 != (#[trigger] up[b]).0,
        0 <= i < up.len(),
        up[i].0 == key,
    ensures
        crate::assoc_index(seq_swap_remove(up, i), key) < 0,
{
    let shrunk = seq_swap_remove(up, i);
    crate::lemma_assoc_index(shrunk, key);
    if crate::assoc_index(shrunk, key) >= 0 {
        let j = crate::assoc_index(shrunk, key);
        assert(shrunk[j] == (if j == i {
            up[up.len() - 1]
        } else {
            up[j]
        }));
        if j == i {
            assert(i == up.len() - 1 || up[i].0 != up[up.len() - 1].0);
        }
    }
}

/// Locking an address twice without a release fails: the second `take_lock`
/// returns the reentrancy error and changes nothing.
pub proof fn lemma_take_lock_reentrancy(
    t0: TrackState,
    t1: TrackState,
    t2: TrackState,
    addr: Address,
    r1: Result<(), crate::track::TrackError>,
    r2: Result<(), crate::track::TrackError>,
)
    requires
        ts_wf(t0),
        take_lock_post(t0, t1, addr, r1),
        r1 is Ok,
        take_lock_post(t1, t2, addr, r2),
    ensures
        r2 == Err::<(), crate::track::TrackError>(crate::track::TrackError::Reentrancy),
        t2 == t1,
{
    let key = spec_enc_address(addr);
    crate::lemma_assoc_index(t0.up, key);
    let i = crate::assoc_index(t0.up, key);
    if i >= 0 {
        lemma_key_gone_after_swap_remove(t0.up, i, key);
        crate::lemma_assoc_index_push(t0.borrow_table, addr, t0.up[i].1, addr);
        crate::lemma_assoc_index(t0.borrow_table, addr);
    } else {
        assert(t1.up == t0.up);
        assert(t1.borrow_table.last().0 == addr);
        crate::lemma_assoc_index(t1.borrow_table, addr);
        if crate::assoc_index(t1.borrow_table, addr) < 0 {
            assert(t1.borrow_table[t1.borrow_table.len() - 1].0 != addr);
        }
    }
    assert(crate::assoc_index(t1.up, key) < 0);
    assert(crate::assoc_index(t1.borrow_table, addr) >= 0);
}

/// A released value is conserved: after `write_value` and `release_lock`,
/// the overlay stages exactly the written value, which is what a later
/// `borrow_global_value` observes.
pub proof fn lemma_write_release_conserves(
    t0: TrackState,
    addr: Address,
    value: SubstateValue,
)
    requires
        ts_wf(t0),
        crate::assoc_index(t0.borrow_table, addr) >= 0,
    ensures
        ({
            let t1 = ts_write_value(t0, addr, value);
            let t2 = ts_release(t1, addr);
            let i = crate::assoc_index(t2.up, spec_enc_address(addr));
            i >= 0 && t2.up[i].1 == value
        }),
{
    let key = spec_enc_address(addr);
    let j = crate::assoc_index(t0.borrow_table, addr);
    crate::lemma_assoc_index(t0.borrow_table, addr);
    let t1 = ts_write_value(t0, addr, value);
    crate::lemma_assoc_index_update_value(t0.borrow_table, j, value, addr);
    assert(crate::assoc_index(t1.borrow_table, addr) == j);
    assert(t1.borrow_table[j] == (addr, value));
    let t2 = ts_release(t1, addr);
    crate::lemma_assoc_index(t0.up, key);
    assert(crate::assoc_index(t1.up, key) < 0);
    assert(t2.up == t1.up.push((key, value)));
    crate::lemma_assoc_index_push(t1.up, key, value, key);
    assert(crate::assoc_index(t2.up, key) == t1.up.len());
}

/// One `take_lock` records at most one `Down`, and exactly one when it
/// faults the substate in from the store: a hit in the overlay or an error
/// leaves the down log alone.
pub proof fn lemma_take_lock_down_pairing(
    t0: TrackState,
    t1: TrackState,
    addr: Address,
    r: Result<(), crate::track::TrackError>,
)
    requires
        take_lock_post(t0, t1, addr, r),
    ensures
        ({
            let key = spec_enc_address(addr);
            if crate::assoc_index(t0.up, key) < 0 && crate::assoc_index(t0.borrow_table, addr) < 0
                && crate::seq_index_of(t0.mut_borrows, addr) < 0 && t0.store.contains_key(key) {
                t1.downed == t0.downed.push(t0.store[key].1)
            } else {
                t1.downed == t0.downed
            }
        }),
{
}

/// One `set_key_value` records exactly one `Down` when it overwrites a
/// store row it has not touched before, exactly one `VirtualDown` when the
/// key is new within its space, and nothing when the entry is already
/// staged.
pub proof fn lemma_set_key_down_pairing(
    t0: TrackState,
    parent: Address,
    key: Seq<u8>,
    value: SubstateValue,
)
    ensures
        ({
            let full = spec_enc_address(parent) + key;
            let t1 = ts_set_key_value(t0, parent, key, value);
            if crate::assoc_index(t0.up, full) >= 0 {
                t1.downed == t0.downed && t1.vdowns == t0.vdowns
            } else if t0.store.contains_key(full) {
                t1.downed == t0.downed.push(t0.store[full].1) && t1.vdowns == t0.vdowns
            } else {
                t1.downed == t0.downed && t1.vdowns.len() == t0.vdowns.len() + 1 && t1.vdowns.last()
                    == (
                if crate::seq_index_of(t0.spaces, spec_enc_address(parent)) >= 0 {
                    SubstateParentId::New(
                        crate::seq_index_of(t0.spaces, spec_enc_address(parent)) as usize,
                    )
                } else {
                    SubstateParentId::Exists(t0.store_spaces[spec_enc_address(parent)])
                }, key)
            }
        }),
{
}

/// A key first touched by `set_key_value` commits its `VirtualDown` before
/// its `Up`: every virtual down sits strictly before every up in the
/// receipt's instruction order.
pub proof fn lemma_receipt_virtual_down_before_up(t: TrackState, i: int, j: int)
    requires
        0 <= i < t.vdowns.len(),
        0 <= j < t.up.len(),
    ensures
        ({
            let ops = spec_receipt_ops(t);
            let pv = t.downed.len() + i;
            let pu = t.downed.len() + t.vdowns.len() + j;
            &&& pv < pu < ops.len()
            &&& ops[pv] == SubstateOpView::VirtualDown(t.vdowns[i])
            &&& ops[pu] == SubstateOpView::Up(
                (t.up[j].0, crate::value_codec::spec_enc_substate(t.up[j].1@)),
            )
        }),
{
    let ops = spec_receipt_ops(t);
    assert(down_ops(t.downed).len() == t.downed.len());
    assert(vdown_ops(t.vdowns).len() == t.vdowns.len());
    assert(up_ops(t.up).len() == t.up.len());
    assert(space_ops(t.spaces).len() == t.spaces.len());
    assert(ops[t.downed.len() + i] == vdown_ops(t.vdowns)[i]);
    assert(ops[t.downed.len() + t.vdowns.len() + j] == up_ops(t.up)[j]);
}

/// Commit is deterministic: the receipt's instruction list is a function of
/// the track's abstract state, so equal stores and equal operation
/// histories commit byte-identical instructions.
pub proof fn lemma_receipt_deterministic(a: TrackState, b: TrackState)
    requires
        a.downed == b.downed,
        a.vdowns == b.vdowns,
        a.up.len() == b.up.len(),
        forall|i: int|
            0 <= i < a.up.len() ==> (#[trigger] a.up[i]).0 == b.up[i].0 && a.up[i].1@ == b.up[i].1@,
        a.spaces == b.spaces,
    ensures
        spec_receipt_ops(a) == spec_receipt_ops(b),
{
    assert(up_ops(a.up) =~= up_ops(b.up));
    assert(spec_receipt_ops(a) =~= spec_receipt_ops(b));
}

} // verus!

verus! {

/// No other transition touches the down log: releasing a lock, replacing a
/// borrowed value, creating a substate and declaring a space all leave it
/// alone, so every committed `Down` is paired with exactly one store fault
/// and nothing else.
pub proof fn lemma_only_faults_record_downs(
    t: TrackState,
    addr: Address,
    value: SubstateValue,
)
    ensures
        ts_release(t, addr).downed == t.downed,
        ts_release(t, addr).vdowns == t.vdowns,
        ts_write_value(t, addr, value).downed == t.downed,
        ts_write_value(t, addr, value).vdowns == t.vdowns,
        crate::track::ts_create_uuid(t, value).downed == t.downed,
        crate::track::ts_create_uuid(t, value).vdowns == t.vdowns,
        crate::track::ts_create_2(t, addr, value).downed == t.downed,
        crate::track::ts_create_2(t, addr, value).vdowns == t.vdowns,
{
}

} // verus!
