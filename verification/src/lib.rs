//! The transactional state track of a smart-contract execution engine: the
//! in-memory overlay between a transaction's processes and a persistent
//! substate store.  The track mediates every read, write, borrow and
//! creation of on-ledger state, enforces a single-writer borrowing
//! discipline that rules out reentrancy, allocates deterministic
//! identifiers from the transaction hash, and commits by linearizing its
//! books into an ordered receipt of down and up operations.
//!
//! The resource manager rides on top as the authoritative state-and-policy
//! object for one resource kind: supply arithmetic, per-method
//! authorization with a lock-or-update lifecycle, and minting that refuses
//! to smuggle container references into non-fungible data.

pub mod codec;
pub mod ecdsa;
pub mod id_allocator;
pub mod imap;
pub mod laws;
pub mod model;
pub mod resource_manager;
pub mod track;
pub mod value_codec;
pub mod values;
pub mod types;

use vstd::prelude::*;
#[allow(unused_imports)]
use vstd::string::StringSliceAdditionalSpecFns;

verus! {

/// Copies a byte vector.
pub fn clone_bytes(v: &Vec<u8>) -> (r: Vec<u8>)
    ensures
        r@ == v@,
{
    let mut out: Vec<u8> = Vec::new();
    let mut i: usize = 0;
    while i < v.len()
        invariant
            i <= v.len(),
            out@ == v@.take(i as int),
        decreases v.len() - i,
    {
        out.push(v[i]);
        assert(v@.take(i + 1 as int) =~= v@.take(i as int).push(v@[i as int]));
        i += 1;
    }
    assert(v@.take(v.len() as int) =~= v@);
    out
}

/// The first position of an association list holding `key`, or `-1`.
pub open spec fn assoc_index<K, V>(s: Seq<(K, V)>, key: K) -> int
    decreases s.len(),
{
    if s.len() == 0 {
        -1
    } else if s[0].0 == key {
        0
    } else {
        let r = assoc_index(s.drop_first(), key);
        if r < 0 {
            -1
        } else {
            r + 1
        }
    }
}

/// Where `assoc_index` points: at the first entry with `key`, or nowhere
/// exactly when no entry has it.
pub proof fn lemma_assoc_index<K, V>(s: Seq<(K, V)>, key: K)
    ensures
        assoc_index(s, key) == -1 || (0 <= assoc_index(s, key) < s.len() && s[assoc_index(s, key)].0
            == key),
        assoc_index(s, key) == -1 ==> forall|j: int| 0 <= j < s.len() ==> (#[trigger] s[j]).0
            != key,
        assoc_index(s, key) >= 0 ==> forall|j: int|
            0 <= j < assoc_index(s, key) ==> (#[trigger] s[j]).0 != key,
    decreases s.len(),
{
    if s.len() > 0 && s[0].0 != key {
        lemma_assoc_index(s.drop_first(), key);
        let r = assoc_index(s.drop_first(), key);
        if r >= 0 {
            assert(s[assoc_index(s, key)] == s.drop_first()[r]);
            assert forall|j: int| 0 <= j < assoc_index(s, key) implies (#[trigger] s[j]).0
                != key by {
                if j > 0 {
                    assert(s[j] == s.drop_first()[j - 1]);
                }
            }
        } else {
            assert forall|j: int| 0 <= j < s.len() implies (#[trigger] s[j]).0 != key by {
                if j > 0 {
                    assert(s[j] == s.drop_first()[j - 1]);
                }
            }
        }
    }
}

/// The first position of `x` in a sequence, or `-1`.
pub open spec fn seq_index_of<T>(s: Seq<T>, x: T) -> int
    decreases s.len(),
{
    if s.len() == 0 {
        -1
    } else if s[0] == x {
        0
    } else {
        let r = seq_index_of(s.drop_first(), x);
        if r < 0 {
            -1
        } else {
            r + 1
        }
    }
}

pub proof fn lemma_seq_index_of<T>(s: Seq<T>, x: T)
    ensures
        seq_index_of(s, x) == -1 || (0 <= seq_index_of(s, x) < s.len() && s[seq_index_of(s, x)]
            == x),
        seq_index_of(s, x) == -1 ==> forall|j: int| 0 <= j < s.len() ==> #[trigger] s[j] != x,
        seq_index_of(s, x) >= 0 ==> forall|j: int|
            0 <= j < seq_index_of(s, x) ==> #[trigger] s[j] != x,
    decreases s.len(),
{
    if s.len() > 0 && s[0] != x {
        lemma_seq_index_of(s.drop_first(), x);
        let r = seq_index_of(s.drop_first(), x);
        if r >= 0 {
            assert(s[seq_index_of(s, x)] == s.drop_first()[r]);
            assert forall|j: int| 0 <= j < seq_index_of(s, x) implies #[trigger] s[j] != x by {
                if j > 0 {
                    assert(s[j] == s.drop_first()[j - 1]);
                }
            }
        } else {
            assert forall|j: int| 0 <= j < s.len() implies #[trigger] s[j] != x by {
                if j > 0 {
                    assert(s[j] == s.drop_first()[j - 1]);
                }
            }
        }
    }
}

/// Compares two byte slices for equality of their contents.
pub fn slice_bytes_eq(a: &[u8], b: &[u8]) -> (r: bool)
    ensures
        r == (a@ == b@),
{
    if a.len() != b.len() {
        assert(a@ != b@);
        return false;
    }
    let mut i: usize = 0;
    while i < a.len()
        invariant
            i <= a@.len(),
            a@.len() == b@.len(),
            forall|j: int| 0 <= j < i ==> a@[j] == b@[j],
        decreases a@.len() - i,
    {
        if a[i] != b[i] {
            assert(a@ != b@);
            return false;
        }
        i += 1;
    }
    assert(a@ =~= b@);
    true
}

/// Compares two string slices for equality of their character content.
pub fn str_eq(a: &str, b: &str) -> (r: bool)
    ensures
        r == (a@ == b@),
{
    let r = slice_bytes_eq(a.as_bytes(), b.as_bytes());
    proof {
        broadcast use vstd::utf8::encode_utf8_decode_utf8;

        if a.spec_bytes() == b.spec_bytes() {
            assert(vstd::utf8::decode_utf8(vstd::utf8::encode_utf8(a@)) == vstd::utf8::decode_utf8(
                vstd::utf8::encode_utf8(b@),
            ));
            assert(a@ == b@);
        }
    }
    r
}

/// Copies a byte slice into a fresh vector.
pub fn slice_to_vec(s: &[u8]) -> (r: Vec<u8>)
    ensures
        r@ == s@,
{
    let mut out: Vec<u8> = Vec::new();
    let mut i: usize = 0;
    while i < s.len()
        invariant
            i <= s@.len(),
            out@ == s@.take(i as int),
        decreases s@.len() - i,
    {
        out.push(s[i]);
        assert(s@.take(i + 1 as int) =~= s@.take(i as int).push(s@[i as int]));
        i += 1;
    }
    assert(s@.take(s@.len() as int) =~= s@);
    out
}

/// Copies a string slice into an owned string.
pub fn str_to_string(s: &str) -> (r: String)
    ensures
        r@ == s@,
{
    s.to_owned()
}

/// Copies an optional byte vector.
pub fn clone_opt_bytes(v: &Option<Vec<u8>>) -> (r: Option<Vec<u8>>)
    ensures
        match v {
            Some(b) => r matches Some(rb) && rb@ == b@,
            None => r is None,
        },
{
    match v {
        Some(b) => Some(clone_bytes(b)),
        None => None,
    }
}

/// Compares two byte vectors for equality of their contents.
pub fn bytes_eq(a: &Vec<u8>, b: &Vec<u8>) -> (r: bool)
    ensures
        r == (a@ == b@),
{
    if a.len() != b.len() {
        assert(a@ != b@);
        return false;
    }
    let mut i: usize = 0;
    while i < a.len()
        invariant
            i <= a.len(),
            a.len() == b.len(),
            forall|j: int| 0 <= j < i ==> a@[j] == b@[j],
        decreases a.len() - i,
    {
        if a[i] != b[i] {
            assert(a@ != b@);
            return false;
        }
        i += 1;
    }
    assert(a@ =~= b@);
    true
}

} // verus!

verus! {

/// How `assoc_index` reacts to appending one entry.
pub proof fn lemma_assoc_index_push<K, V>(s: Seq<(K, V)>, k: K, v: V, key: K)
    ensures
        assoc_index(s, key) >= 0 ==> assoc_index(s.push((k, v)), key) == assoc_index(s, key),
        assoc_index(s, key) < 0 && key == k ==> assoc_index(s.push((k, v)), key) == s.len(),
        assoc_index(s, key) < 0 && key != k ==> assoc_index(s.push((k, v)), key) < 0,
{
    lemma_assoc_index(s, key);
    let p = s.push((k, v));
    lemma_assoc_index(p, key);
    let ai = assoc_index(s, key);
    let ap = assoc_index(p, key);
    if ai >= 0 {
        assert(p[ai] == s[ai]);
        if ap < 0 {
            assert(p[ai].0 != key);
        } else if ap < ai {
            assert(p[ap] == s[ap]);
        } else if ap > ai {
            assert(p[ai].0 != key);
        }
    } else if key == k {
        assert(p[s.len() as int] == (k, v));
        if ap < 0 {
            assert(p[s.len() as int].0 != key);
        } else if ap < s.len() {
            assert(p[ap] == s[ap]);
        }
    } else {
        if ap >= 0 {
            if ap < s.len() {
                assert(p[ap] == s[ap]);
            } else {
                assert(p[ap] == (k, v));
            }
        }
    }
}

/// How `assoc_index` reacts to updating the value at one position.
pub proof fn lemma_assoc_index_update_value<K, V>(s: Seq<(K, V)>, i: int, v: V, key: K)
    requires
        0 <= i < s.len(),
    ensures
        assoc_index(s.update(i, (s[i].0, v)), key) == assoc_index(s, key),
    decreases s.len(),
{
    if s.len() > 0 {
        if i == 0 {
            assert(s.update(0, (s[0].0, v))[0].0 == s[0].0);
            assert(s.update(0, (s[0].0, v)).drop_first() =~= s.drop_first());
        } else {
            lemma_assoc_index_update_value(s.drop_first(), i - 1, v, key);
            assert(s.update(i, (s[i].0, v))[0] == s[0]);
            assert(s.update(i, (s[i].0, v)).drop_first() =~= s.drop_first().update(
                i - 1,
                (s.drop_first()[i - 1].0, v),
            ));
        }
    }
}

/// How `assoc_index` reacts to removing one entry, for keys not at that
/// entry.
pub proof fn lemma_assoc_index_remove<K, V>(s: Seq<(K, V)>, i: int, key: K)
    requires
        0 <= i < s.len(),
        s[i].0 != key,
    ensures
        (assoc_index(s, key) < 0) == (assoc_index(s.remove(i), key) < 0),
    decreases s.len(),
{
    if s.len() > 0 {
        if i == 0 {
            assert(s.remove(0) =~= s.drop_first());
        } else {
            lemma_assoc_index_remove(s.drop_first(), i - 1, key);
            assert(s.remove(i)[0] == s[0]);
            assert(s.remove(i).drop_first() =~= s.drop_first().remove(i - 1));
        }
    }
}

} // verus!

verus! {

/// How `seq_index_of` reacts to appending one element.
pub proof fn lemma_seq_index_of_push<T>(s: Seq<T>, x: T, key: T)
    ensures
        seq_index_of(s, key) >= 0 ==> seq_index_of(s.push(x), key) == seq_index_of(s, key),
        seq_index_of(s, key) < 0 && key == x ==> seq_index_of(s.push(x), key) == s.len(),
        seq_index_of(s, key) < 0 && key != x ==> seq_index_of(s.push(x), key) < 0,
{
    lemma_seq_index_of(s, key);
    let p = s.push(x);
    lemma_seq_index_of(p, key);
    let ai = seq_index_of(s, key);
    let ap = seq_index_of(p, key);
    if ai >= 0 {
        assert(p[ai] == s[ai]);
        if ap < 0 {
            assert(p[ai] != key);
        } else if ap < ai {
            assert(p[ap] == s[ap]);
        } else if ap > ai {
            assert(p[ai] != key);
        }
    } else if key == x {
        assert(p[s.len() as int] == x);
        if ap < 0 {
            assert(p[s.len() as int] != key);
        } else if ap < s.len() {
            assert(p[ap] == s[ap]);
        }
    } else {
        if ap >= 0 {
            if ap < s.len() {
                assert(p[ap] == s[ap]);
            } else {
                assert(p[ap] == x);
            }
        }
    }
}

} // verus!
