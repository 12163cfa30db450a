//! The engine's value language, as far as minting needs it: a canonical
//! byte form whose well-formedness can be checked, and a scan for embedded
//! bucket, proof, vault and key-value-store references, which must never be
//! smuggled into non-fungible data.

use vstd::prelude::*;

use crate::value_codec::{le_val, p_le};

verus! {

pub const VAL_TAG_UNIT: u8 = 0;
pub const VAL_TAG_BOOL: u8 = 1;
pub const VAL_TAG_U8: u8 = 2;
pub const VAL_TAG_U32: u8 = 3;
pub const VAL_TAG_U64: u8 = 4;
pub const VAL_TAG_U128: u8 = 5;
pub const VAL_TAG_BYTES: u8 = 6;
pub const VAL_TAG_TUPLE: u8 = 7;
pub const VAL_TAG_BUCKET: u8 = 16;
pub const VAL_TAG_PROOF: u8 = 17;
pub const VAL_TAG_VAULT: u8 = 18;
pub const VAL_TAG_KV_STORE: u8 = 19;

/// Parses one value at `pos`: the position after it, and whether it holds a
/// bucket, proof, vault or key-value-store reference anywhere inside.
pub open spec fn p_val(s: Seq<u8>, pos: int) -> Option<(int, bool)>
    decreases s.len() - pos, 0int,
{
    if 0 <= pos < s.len() {
        let tag = s[pos];
        if tag == VAL_TAG_UNIT {
            Some((pos + 1, false))
        } else if tag == VAL_TAG_BOOL || tag == VAL_TAG_U8 {
            if pos + 2 <= s.len() {
                Some((pos + 2, false))
            } else {
                None
            }
        } else if tag == VAL_TAG_U32 {
            if pos + 5 <= s.len() {
                Some((pos + 5, false))
            } else {
                None
            }
        } else if tag == VAL_TAG_U64 {
            if pos + 9 <= s.len() {
                Some((pos + 9, false))
            } else {
                None
            }
        } else if tag == VAL_TAG_U128 {
            if pos + 17 <= s.len() {
                Some((pos + 17, false))
            } else {
                None
            }
        } else if tag == VAL_TAG_BYTES {
            match crate::value_codec::p_bytes(s, pos + 1) {
                Some((_, p2)) => Some((p2, false)),
                None => None,
            }
        } else if tag == VAL_TAG_TUPLE {
            match p_le(s, pos + 1, 4) {
                Some((n, p2)) => p_els(s, p2, n as nat),
                None => None,
            }
        } else if tag == VAL_TAG_BUCKET || tag == VAL_TAG_PROOF {
            if pos + 5 <= s.len() {
                Some((pos + 5, true))
            } else {
                None
            }
        } else if tag == VAL_TAG_VAULT || tag == VAL_TAG_KV_STORE {
            if pos + 38 <= s.len() {
                Some((pos + 38, true))
            } else {
                None
            }
        } else {
            None
        }
    } else {
        None
    }
}

/// Parses `n` values from `pos` on.
pub open spec fn p_els(s: Seq<u8>, pos: int, n: nat) -> Option<(int, bool)>
    decreases s.len() - pos, 1int + n,
{
    if n == 0 {
        Some((pos, false))
    } else if 0 <= pos < s.len() {
        match p_val(s, pos) {
            Some((p2, ids)) => {
                if pos < p2 <= s.len() {
                    match p_els(s, p2, (n - 1) as nat) {
                        Some((p3, ids2)) => Some((p3, ids || ids2)),
                        None => None,
                    }
                } else {
                    None
                }
            },
            None => None,
        }
    } else {
        None
    }
}

/// Whether bytes are one canonical value that references no bucket, proof,
/// vault or key-value store.
pub open spec fn valid_nf_data(s: Seq<u8>) -> bool {
    match p_val(s, 0) {
        Some((p, ids)) => p == s.len() && !ids,
        None => false,
    }
}

/// Every parse lands inside the bytes, past its start.
pub proof fn lemma_p_val_range(s: Seq<u8>, pos: int)
    ensures
        p_val(s, pos) matches Some(r) ==> pos < r.0 <= s.len(),
    decreases s.len() - pos, 0int,
{
    if 0 <= pos < s.len() {
        let tag = s[pos];
        if tag == VAL_TAG_TUPLE {
            match p_le(s, pos + 1, 4) {
                Some((n, p2)) => {
                    lemma_p_els_range(s, p2, n as nat);
                },
                None => {},
            }
        }
    }
}

pub proof fn lemma_p_els_range(s: Seq<u8>, pos: int, n: nat)
    ensures
        p_els(s, pos, n) matches Some(r) ==> pos <= r.0 && (n > 0 ==> r.0 <= s.len()),
        n == 0 ==> p_els(s, pos, n) == Some((pos, false)),
    decreases s.len() - pos, 1int + n,
{
    if n == 0 {
    } else if 0 <= pos < s.len() {
        match p_val(s, pos) {
            Some((p2, ids)) => {
                lemma_p_val_range(s, pos);
                if pos < p2 <= s.len() {
                    lemma_p_els_range(s, p2, (n - 1) as nat);
                }
            },
            None => {},
        }
    }
}

/// Scans one value at `pos`.
pub fn scan_value(bytes: &Vec<u8>, pos: usize) -> (r: Option<(usize, bool)>)
    ensures
        match r {
            Some((p, ids)) => p_val(bytes@, pos as int) == Some((p as int, ids)) && pos < p
                <= bytes@.len(),
            None => p_val(bytes@, pos as int) is None,
        },
    decreases bytes@.len() - pos, 0int,
{
    let len = bytes.len();
    if pos >= len {
        return None;
    }
    let tag = bytes[pos];
    if tag == VAL_TAG_UNIT {
        Some((pos + 1, false))
    } else if tag == VAL_TAG_BOOL || tag == VAL_TAG_U8 {
        if 2 <= len - pos {
            Some((pos + 2, false))
        } else {
            None
        }
    } else if tag == VAL_TAG_U32 {
        if 5 <= len - pos {
            Some((pos + 5, false))
        } else {
            None
        }
    } else if tag == VAL_TAG_U64 {
        if 9 <= len - pos {
            Some((pos + 9, false))
        } else {
            None
        }
    } else if tag == VAL_TAG_U128 {
        if 17 <= len - pos {
            Some((pos + 17, false))
        } else {
            None
        }
    } else if tag == VAL_TAG_BYTES {
        match crate::value_codec::dec_bytes(bytes, pos + 1) {
            Some((_, p2)) => {
                proof {
                    crate::value_codec::lemma_p_bytes_range(bytes@, pos + 1);
                }
                Some((p2, false))
            },
            None => None,
        }
    } else if tag == VAL_TAG_TUPLE {
        match crate::value_codec::dec_le(bytes, pos + 1, 4) {
            Some((n, p2)) => {
                proof {
                    crate::codec::lemma_pow256_bounds();
                    crate::value_codec::lemma_le_val_bound(
                        bytes@.subrange(pos + 1, pos + 1 + 4),
                    );
                }
                scan_elements(bytes, p2, n as u32, pos)
            },
            None => None,
        }
    } else if tag == VAL_TAG_BUCKET || tag == VAL_TAG_PROOF {
        if 5 <= len - pos {
            Some((pos + 5, true))
        } else {
            None
        }
    } else if tag == VAL_TAG_VAULT || tag == VAL_TAG_KV_STORE {
        if 38 <= len - pos {
            Some((pos + 38, true))
        } else {
            None
        }
    } else {
        None
    }
}

/// Scans `n` values from `pos` on.  `start` is the tuple's own position,
/// carried only for termination.
fn scan_elements(bytes: &Vec<u8>, pos: usize, n: u32, start: usize) -> (r: Option<(usize, bool)>)
    requires
        start < pos <= bytes@.len(),
    ensures
        match r {
            Some((p, ids)) => p_els(bytes@, pos as int, n as nat) == Some((p as int, ids)) && pos
                <= p <= bytes@.len() && start < p,
            None => p_els(bytes@, pos as int, n as nat) is None,
        },
    decreases bytes@.len() - pos, 1int + n,
{
    if n == 0 {
        return Some((pos, false));
    }
    let len = bytes.len();
    if pos >= len {
        return None;
    }
    match scan_value(bytes, pos) {
        Some((p2, ids)) => {
            match scan_elements(bytes, p2, n - 1, pos) {
                Some((p3, ids2)) => Some((p3, ids || ids2)),
                None => None,
            }
        },
        None => None,
    }
}

/// Checks that bytes are one canonical value free of container references.
pub fn check_nf_data(bytes: &Vec<u8>) -> (r: bool)
    ensures
        r == valid_nf_data(bytes@),
{
    match scan_value(bytes, 0) {
        Some((p, ids)) => p == bytes.len() && !ids,
        None => {
            if bytes.len() == 0 {
                proof {
                    assert(p_val(bytes@, 0) is None);
                }
            }
            false
        },
    }
}

} // verus!
