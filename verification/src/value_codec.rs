//! Canonical encoding and decoding of substate payloads.
//!
//! The spec-level parsers walk a byte sequence with a cursor; each
//! executable decoder matches its parser exactly, so a decoded value is
//! pinned down by the bytes alone.

use vstd::prelude::*;

use crate::codec::{le_bytes, lemma_le_bytes_len, pow256, read_le, push_le, lemma_pow256_bounds};

verus! {

/// The value a little-endian byte sequence denotes.
pub open spec fn le_val(b: Seq<u8>) -> int
    decreases b.len(),
{
    if b.len() == 0 {
        0
    } else {
        b[0] + 256 * le_val(b.drop_first())
    }
}

pub proof fn lemma_le_val_le_bytes(v: u128, n: nat)
    requires
        v < pow256(n),
    ensures
        le_val(le_bytes(v, n)) == v,
    decreases n,
{
    if n == 0 {
    } else {
        assert(v / 256 < pow256((n - 1) as nat)) by (nonlinear_arith)
            requires
                v < 256 * pow256((n - 1) as nat),
                pow256((n - 1) as nat) >= 0,
        ;
        lemma_le_val_le_bytes(v / 256, (n - 1) as nat);
        assert(le_bytes(v, n).drop_first() =~= le_bytes(v / 256, (n - 1) as nat));
        assert(v == (v % 256) + 256 * (v / 256));
    }
}

pub proof fn lemma_le_val_bound(b: Seq<u8>)
    ensures
        0 <= le_val(b) < pow256(b.len()),
    decreases b.len(),
{
    if b.len() == 0 {
    } else {
        lemma_le_val_bound(b.drop_first());
        assert(pow256(b.len()) == 256 * pow256((b.len() - 1) as nat));
        assert(b[0] + 256 * le_val(b.drop_first()) < 256 * pow256((b.len() - 1) as nat))
            by (nonlinear_arith)
            requires
                b[0] < 256,
                le_val(b.drop_first()) < pow256((b.len() - 1) as nat),
        ;
    }
}

/// Reading back `n` little-endian bytes yields exactly `le_val` of them.
pub proof fn lemma_read_le_val(r: u128, b: Seq<u8>, n: nat)
    requires
        le_bytes(r, n) == b,
        r < pow256(n),
    ensures
        le_val(b) == r,
{
    lemma_le_val_le_bytes(r, n);
}

/// The unsigned two's-complement image of a signed 128-bit value.
pub open spec fn i128_as_u128(v: i128) -> u128 {
    if v >= 0 {
        v as u128
    } else {
        (v + 0x1_0000_0000_0000_0000_0000_0000_0000_0000) as u128
    }
}

/// The signed value a two's-complement image denotes.
pub open spec fn u128_as_i128(u: u128) -> i128 {
    if u < 0x8000_0000_0000_0000_0000_0000_0000_0000u128 {
        u as i128
    } else {
        (u - 0x1_0000_0000_0000_0000_0000_0000_0000_0000) as i128
    }
}

/// Converts to the two's-complement image.
pub fn to_twos_complement(v: i128) -> (r: u128)
    ensures
        r == i128_as_u128(v),
{
    if v >= 0 {
        v as u128
    } else {
        let mag: i128 = -(v + 1);
        u128::MAX - (mag as u128)
    }
}

/// Converts back from the two's-complement image.
pub fn from_twos_complement(u: u128) -> (r: i128)
    ensures
        r == u128_as_i128(u),
{
    if u < 0x8000_0000_0000_0000_0000_0000_0000_0000u128 {
        u as i128
    } else if u == 0x8000_0000_0000_0000_0000_0000_0000_0000u128 {
        i128::MIN
    } else {
        let mag: u128 = (u128::MAX - u) + 1;
        -(mag as i128)
    }
}

/// Copies `bytes[pos..pos+n]` into a fresh vector.
pub fn copy_range(bytes: &Vec<u8>, pos: usize, n: usize) -> (r: Vec<u8>)
    requires
        pos + n <= bytes@.len(),
    ensures
        r@ == bytes@.subrange(pos as int, pos + n),
{
    let len = bytes.len();
    proof {
        assert(bytes@.len() == len);
    }
    let mut out: Vec<u8> = Vec::new();
    let mut i: usize = 0;
    while i < n
        invariant
            i <= n,
            pos + n <= bytes@.len(),
            pos + n <= usize::MAX,
            out@ == bytes@.subrange(pos as int, pos + i),
        decreases n - i,
    {
        out.push(bytes[pos + i]);
        assert(bytes@.subrange(pos as int, pos + i + 1) =~= bytes@.subrange(pos as int, pos
            + i).push(bytes@[pos + i]));
        i += 1;
    }
    out
}

} // verus!

verus! {

// Substate payload tags.
pub const TAG_SUBSTATE_RESOURCE: u8 = 16;
pub const TAG_SUBSTATE_COMPONENT: u8 = 17;
pub const TAG_SUBSTATE_PACKAGE: u8 = 18;
pub const TAG_SUBSTATE_VAULT: u8 = 19;
pub const TAG_SUBSTATE_NON_FUNGIBLE: u8 = 20;
pub const TAG_SUBSTATE_KV_ENTRY: u8 = 21;

/// Parses an `n`-byte little-endian integer.
pub open spec fn p_le(s: Seq<u8>, pos: int, n: nat) -> Option<(u128, int)> {
    if n <= 16 && 0 <= pos && pos + n <= s.len() {
        Some(((le_val(s.subrange(pos, pos + n)) as u128), pos + n))
    } else {
        None
    }
}

/// Parses a 32-bit length prefix followed by that many bytes.
pub open spec fn p_bytes(s: Seq<u8>, pos: int) -> Option<(Seq<u8>, int)> {
    match p_le(s, pos, 4) {
        Some((l, p2)) => {
            if p2 + l <= s.len() {
                Some((s.subrange(p2, p2 + l), p2 + l))
            } else {
                None
            }
        },
        None => None,
    }
}

/// Parses a length-prefixed UTF-8 string.
pub open spec fn p_string(s: Seq<u8>, pos: int) -> Option<(Seq<char>, int)> {
    match p_bytes(s, pos) {
        Some((b, p2)) => {
            if vstd::utf8::valid_utf8(b) {
                Some((vstd::utf8::decode_utf8(b), p2))
            } else {
                None
            }
        },
        None => None,
    }
}

/// Parses a tagged 33-byte resource address.
pub open spec fn p_resource_address(s: Seq<u8>, pos: int) -> Option<(
    crate::types::ResourceAddress,
    int,
)> {
    if 0 <= pos && pos + 33 <= s.len() && s[pos] == crate::codec::TAG_RESOURCE_ADDRESS {
        Some(
            (
                crate::types::ResourceAddress {
                    hi: le_val(s.subrange(pos + 1, pos + 17)) as u128,
                    lo: le_val(s.subrange(pos + 17, pos + 33)) as u128,
                },
                pos + 33,
            ),
        )
    } else {
        None
    }
}

/// Parses a tagged 33-byte package address.
pub open spec fn p_package_address(s: Seq<u8>, pos: int) -> Option<(
    crate::types::PackageAddress,
    int,
)> {
    if 0 <= pos && pos + 33 <= s.len() && s[pos] == crate::codec::TAG_PACKAGE_ADDRESS {
        Some(
            (
                crate::types::PackageAddress {
                    hi: le_val(s.subrange(pos + 1, pos + 17)) as u128,
                    lo: le_val(s.subrange(pos + 17, pos + 33)) as u128,
                },
                pos + 33,
            ),
        )
    } else {
        None
    }
}

/// Parses a resource type: a divisibility-tagged fungible or a non-fungible.
pub open spec fn p_resource_type(s: Seq<u8>, pos: int) -> Option<(
    crate::types::ResourceType,
    int,
)> {
    if 0 <= pos < s.len() {
        if s[pos] == 0 {
            if pos + 2 <= s.len() && s[pos + 1] <= 18 {
                Some((crate::types::ResourceType::Fungible { divisibility: s[pos + 1] }, pos + 2))
            } else {
                None
            }
        } else if s[pos] == 1 {
            Some((crate::types::ResourceType::NonFungible, pos + 1))
        } else {
            None
        }
    } else {
        None
    }
}

/// Parses a soft access rule.
pub open spec fn p_access_rule(s: Seq<u8>, pos: int) -> Option<(crate::types::AccessRule, int)> {
    if 0 <= pos < s.len() {
        if s[pos] == 0 {
            Some((crate::types::AccessRule::AllowAll, pos + 1))
        } else if s[pos] == 1 {
            Some((crate::types::AccessRule::DenyAll, pos + 1))
        } else if s[pos] == 2 {
            match p_resource_address(s, pos + 1) {
                Some((r, p2)) => Some((crate::types::AccessRule::Require(r), p2)),
                None => None,
            }
        } else {
            None
        }
    } else {
        None
    }
}

/// Parses a hard method authorization.
pub open spec fn p_method_auth(s: Seq<u8>, pos: int) -> Option<(
    crate::types::MethodAuthorization,
    int,
)> {
    if 0 <= pos < s.len() {
        if s[pos] == 0 {
            Some((crate::types::MethodAuthorization::AllowAll, pos + 1))
        } else if s[pos] == 1 {
            Some((crate::types::MethodAuthorization::DenyAll, pos + 1))
        } else if s[pos] == 2 {
            Some((crate::types::MethodAuthorization::Unsupported, pos + 1))
        } else if s[pos] == 3 {
            match p_resource_address(s, pos + 1) {
                Some((r, p2)) => Some((crate::types::MethodAuthorization::Protected(r), p2)),
                None => None,
            }
        } else {
            None
        }
    } else {
        None
    }
}

/// Parses a method-access rule: call rule then update guard.
pub open spec fn p_access_pair(s: Seq<u8>, pos: int) -> Option<(
    crate::resource_manager::MethodAccessRule,
    int,
)> {
    match p_method_auth(s, pos) {
        Some((auth, p2)) => match p_method_auth(s, p2) {
            Some((update_auth, p3)) => Some(
                (crate::resource_manager::MethodAccessRule { auth, update_auth }, p3),
            ),
            None => None,
        },
        None => None,
    }
}

/// Parses the six method-access rules, in fixed key order.
pub open spec fn p_authorization(s: Seq<u8>, pos: int) -> Option<(
    crate::resource_manager::Authorization,
    int,
)> {
    match p_access_pair(s, pos) {
        Some((mint, p1)) => match p_access_pair(s, p1) {
            Some((burn, p2)) => match p_access_pair(s, p2) {
                Some((withdraw, p3)) => match p_access_pair(s, p3) {
                    Some((deposit, p4)) => match p_access_pair(s, p4) {
                        Some((update_metadata, p5)) => match p_access_pair(s, p5) {
                            Some((update_non_fungible_data, p6)) => Some(
                                (
                                    crate::resource_manager::Authorization {
                                        mint,
                                        burn,
                                        withdraw,
                                        deposit,
                                        update_metadata,
                                        update_non_fungible_data,
                                    },
                                    p6,
                                ),
                            ),
                            None => None,
                        },
                        None => None,
                    },
                    None => None,
                },
                None => None,
            },
            None => None,
        },
        None => None,
    }
}

/// Parses `n` metadata pairs.
pub open spec fn p_md_items(s: Seq<u8>, pos: int, n: nat) -> Option<(
    Seq<(Seq<char>, Seq<char>)>,
    int,
)>
    decreases n,
{
    if n == 0 {
        Some((Seq::empty(), pos))
    } else {
        match p_string(s, pos) {
            Some((k, p2)) => match p_string(s, p2) {
                Some((v, p3)) => match p_md_items(s, p3, (n - 1) as nat) {
                    Some((rest, p4)) => Some((seq![(k, v)] + rest, p4)),
                    None => None,
                },
                None => None,
            },
            None => None,
        }
    }
}

/// Parses a metadata map: a count then that many string pairs.
pub open spec fn p_metadata(s: Seq<u8>, pos: int) -> Option<(Seq<(Seq<char>, Seq<char>)>, int)> {
    match p_le(s, pos, 4) {
        Some((n, p2)) => p_md_items(s, p2, n as nat),
        None => None,
    }
}

/// Parses a decimal: its 16-byte two's-complement raw value.
pub open spec fn p_decimal(s: Seq<u8>, pos: int) -> Option<(crate::types::Decimal, int)> {
    match p_le(s, pos, 16) {
        Some((u, p2)) => Some((crate::types::Decimal(u128_as_i128(u)), p2)),
        None => None,
    }
}

/// Parses a resource manager.
pub open spec fn p_rm(s: Seq<u8>, pos: int) -> Option<(crate::resource_manager::RmView, int)> {
    match p_resource_type(s, pos) {
        Some((resource_type, p1)) => match p_metadata(s, p1) {
            Some((metadata, p2)) => match p_authorization(s, p2) {
                Some((authorization, p3)) => match p_decimal(s, p3) {
                    Some((total_supply, p4)) => Some(
                        (
                            crate::resource_manager::RmView {
                                resource_type,
                                metadata,
                                authorization,
                                total_supply,
                            },
                            p4,
                        ),
                    ),
                    None => None,
                },
                None => None,
            },
            None => None,
        },
        None => None,
    }
}

/// Parses a component.
pub open spec fn p_component(s: Seq<u8>, pos: int) -> Option<(crate::model::ComponentView, int)> {
    match p_package_address(s, pos) {
        Some((package_address, p1)) => match p_string(s, p1) {
            Some((blueprint_name, p2)) => match p_bytes(s, p2) {
                Some((state, p3)) => Some(
                    (crate::model::ComponentView { package_address, blueprint_name, state }, p3),
                ),
                None => None,
            },
            None => None,
        },
        None => None,
    }
}

/// Parses `n` non-fungible ids.
pub open spec fn p_id_items(s: Seq<u8>, pos: int, n: nat) -> Option<(Seq<Seq<u8>>, int)>
    decreases n,
{
    if n == 0 {
        Some((Seq::empty(), pos))
    } else {
        match p_bytes(s, pos) {
            Some((id, p2)) => match p_id_items(s, p2, (n - 1) as nat) {
                Some((rest, p3)) => Some((seq![id] + rest, p3)),
                None => None,
            },
            None => None,
        }
    }
}

/// Parses a resource container.
pub open spec fn p_container(s: Seq<u8>, pos: int) -> Option<(crate::model::ContainerView, int)> {
    if 0 <= pos < s.len() {
        if s[pos] == 0 {
            match p_resource_address(s, pos + 1) {
                Some((resource_address, p1)) => {
                    if p1 < s.len() && s[p1] <= 18 {
                        match p_decimal(s, p1 + 1) {
                            Some((liquid_amount, p2)) => Some(
                                (
                                    crate::model::ContainerView::Fungible {
                                        resource_address,
                                        divisibility: s[p1],
                                        liquid_amount,
                                    },
                                    p2,
                                ),
                            ),
                            None => None,
                        }
                    } else {
                        None
                    }
                },
                None => None,
            }
        } else if s[pos] == 1 {
            match p_resource_address(s, pos + 1) {
                Some((resource_address, p1)) => match p_le(s, p1, 4) {
                    Some((n, p2)) => match p_id_items(s, p2, n as nat) {
                        Some((liquid_ids, p3)) => Some(
                            (
                                crate::model::ContainerView::NonFungible {
                                    resource_address,
                                    liquid_ids,
                                },
                                p3,
                            ),
                        ),
                        None => None,
                    },
                    None => None,
                },
                None => None,
            }
        } else {
            None
        }
    } else {
        None
    }
}

/// Parses a non-fungible's two data halves.
pub open spec fn p_nf(s: Seq<u8>, pos: int) -> Option<(crate::track::NonFungibleView, int)> {
    match p_bytes(s, pos) {
        Some((immutable_data, p1)) => match p_bytes(s, p1) {
            Some((mutable_data, p2)) => Some(
                (crate::track::NonFungibleView { immutable_data, mutable_data }, p2),
            ),
            None => None,
        },
        None => None,
    }
}

/// Parses an optional non-fungible.
pub open spec fn p_opt_nf(s: Seq<u8>, pos: int) -> Option<(
    Option<crate::track::NonFungibleView>,
    int,
)> {
    if 0 <= pos < s.len() {
        if s[pos] == 0 {
            Some((None, pos + 1))
        } else if s[pos] == 1 {
            match p_nf(s, pos + 1) {
                Some((nf, p2)) => Some((Some(nf), p2)),
                None => None,
            }
        } else {
            None
        }
    } else {
        None
    }
}

/// Parses an optional byte blob.
pub open spec fn p_opt_bytes(s: Seq<u8>, pos: int) -> Option<(Option<Seq<u8>>, int)> {
    if 0 <= pos < s.len() {
        if s[pos] == 0 {
            Some((None, pos + 1))
        } else if s[pos] == 1 {
            match p_bytes(s, pos + 1) {
                Some((b, p2)) => Some((Some(b), p2)),
                None => None,
            }
        } else {
            None
        }
    } else {
        None
    }
}

/// Parses a tagged substate payload.
pub open spec fn p_substate(s: Seq<u8>, pos: int) -> Option<(crate::track::SubstateView, int)> {
    if 0 <= pos < s.len() {
        if s[pos] == TAG_SUBSTATE_RESOURCE {
            match p_rm(s, pos + 1) {
                Some((v, p2)) => Some((crate::track::SubstateView::Resource(v), p2)),
                None => None,
            }
        } else if s[pos] == TAG_SUBSTATE_COMPONENT {
            match p_component(s, pos + 1) {
                Some((v, p2)) => Some((crate::track::SubstateView::Component(v), p2)),
                None => None,
            }
        } else if s[pos] == TAG_SUBSTATE_PACKAGE {
            match p_bytes(s, pos + 1) {
                Some((code, p2)) => Some(
                    (crate::track::SubstateView::Package(crate::model::PackageView { code }), p2),
                ),
                None => None,
            }
        } else if s[pos] == TAG_SUBSTATE_VAULT {
            match p_container(s, pos + 1) {
                Some((v, p2)) => Some((crate::track::SubstateView::Vault(v), p2)),
                None => None,
            }
        } else if s[pos] == TAG_SUBSTATE_NON_FUNGIBLE {
            match p_opt_nf(s, pos + 1) {
                Some((v, p2)) => Some((crate::track::SubstateView::NonFungible(v), p2)),
                None => None,
            }
        } else if s[pos] == TAG_SUBSTATE_KV_ENTRY {
            match p_opt_bytes(s, pos + 1) {
                Some((v, p2)) => Some((crate::track::SubstateView::KeyValueStoreEntry(v), p2)),
                None => None,
            }
        } else {
            None
        }
    } else {
        None
    }
}

/// The payload a byte string canonically denotes: the parse must consume
/// every byte.
#[verifier::opaque]
pub open spec fn spec_dec_substate(s: Seq<u8>) -> Option<crate::track::SubstateView> {
    match p_substate(s, 0) {
        Some((v, p)) => {
            if p == s.len() {
                Some(v)
            } else {
                None
            }
        },
        None => None,
    }
}

} // verus!

verus! {

/// Relies on `String::from_utf8`: succeeds exactly on valid UTF-8, and the
/// string then holds those very bytes.
#[verifier::external_body]
fn ex_string_from_utf8(v: Vec<u8>) -> (r: Option<String>)
    ensures
        match r {
            Some(s) => vstd::utf8::encode_utf8(s@) == v@,
            None => !vstd::utf8::valid_utf8(v@),
        },
{
    String::from_utf8(v).ok()
}

/// Decodes UTF-8 bytes into a string.
pub fn string_from_utf8(v: Vec<u8>) -> (r: Option<String>)
    ensures
        match r {
            Some(s) => vstd::utf8::valid_utf8(v@) && s@ == vstd::utf8::decode_utf8(v@),
            None => !vstd::utf8::valid_utf8(v@),
        },
{
    let ghost bytes = v@;
    let r = ex_string_from_utf8(v);
    proof {
        broadcast use vstd::utf8::encode_utf8_decode_utf8;
        broadcast use vstd::utf8::encode_utf8_valid_utf8;

        if r is Some {
            let s = r->0;
            assert(vstd::utf8::encode_utf8(s@) == bytes);
            assert(vstd::utf8::decode_utf8(vstd::utf8::encode_utf8(s@)) == s@);
        }
    }
    r
}

/// Decodes an `n`-byte little-endian integer at `pos`.
pub fn dec_le(bytes: &Vec<u8>, pos: usize, n: usize) -> (r: Option<(u128, usize)>)
    ensures
        match r {
            Some((v, p)) => p_le(bytes@, pos as int, n as nat) == Some((v, p as int)) && pos <= p
                <= bytes@.len(),
            None => p_le(bytes@, pos as int, n as nat) is None,
        },
{
    let len = bytes.len();
    if n > 16 || pos > len || n > len - pos {
        return None;
    }
    let v = read_le(bytes, pos, n);
    proof {
        lemma_read_le_val(v, bytes@.subrange(pos as int, pos + n), n as nat);
    }
    Some((v, pos + n))
}

/// Decodes a length-prefixed byte blob at `pos`.
pub fn dec_bytes(bytes: &Vec<u8>, pos: usize) -> (r: Option<(Vec<u8>, usize)>)
    ensures
        match r {
            Some((b, p)) => p_bytes(bytes@, pos as int) == Some((b@, p as int)) && pos <= p
                <= bytes@.len(),
            None => p_bytes(bytes@, pos as int) is None,
        },
{
    let len = bytes.len();
    match dec_le(bytes, pos, 4) {
        Some((l, p2)) => {
            proof {
                lemma_pow256_bounds();
                lemma_le_val_bound(bytes@.subrange(pos as int, pos + 4));
            }
            let lu = l as usize;
            if lu > len - p2 {
                return None;
            }
            let b = copy_range(bytes, p2, lu);
            proof {
                let pb = p_bytes(bytes@, pos as int);
                assert(pb is Some);
                assert((pb->0).0 =~= b@);
                assert(pb =~= Some((b@, (p2 + lu) as int)));
            }
            Some((b, p2 + lu))
        },
        None => None,
    }
}

/// Decodes a length-prefixed UTF-8 string at `pos`.
pub fn dec_string(bytes: &Vec<u8>, pos: usize) -> (r: Option<(String, usize)>)
    ensures
        match r {
            Some((s, p)) => p_string(bytes@, pos as int) == Some((s@, p as int)) && pos <= p
                <= bytes@.len(),
            None => p_string(bytes@, pos as int) is None,
        },
{
    match dec_bytes(bytes, pos) {
        Some((b, p2)) => {
            match string_from_utf8(b) {
                Some(s) => Some((s, p2)),
                None => None,
            }
        },
        None => None,
    }
}

/// Decodes a tagged resource address at `pos`.
pub fn dec_resource_address(bytes: &Vec<u8>, pos: usize) -> (r: Option<(
    crate::types::ResourceAddress,
    usize,
)>)
    ensures
        match r {
            Some((a, p)) => p_resource_address(bytes@, pos as int) == Some((a, p as int)) && pos
                <= p <= bytes@.len(),
            None => p_resource_address(bytes@, pos as int) is None,
        },
{
    let len = bytes.len();
    if pos >= len || 33 > len - pos {
        return None;
    }
    if bytes[pos] != crate::codec::TAG_RESOURCE_ADDRESS {
        return None;
    }
    let hi = read_le(bytes, pos + 1, 16);
    let lo = read_le(bytes, pos + 17, 16);
    proof {
        lemma_read_le_val(hi, bytes@.subrange(pos + 1, pos + 17), 16);
        lemma_read_le_val(lo, bytes@.subrange(pos + 17, pos + 33), 16);
    }
    Some((crate::types::ResourceAddress { hi, lo }, pos + 33))
}

/// Decodes a tagged package address at `pos`.
pub fn dec_package_address(bytes: &Vec<u8>, pos: usize) -> (r: Option<(
    crate::types::PackageAddress,
    usize,
)>)
    ensures
        match r {
            Some((a, p)) => p_package_address(bytes@, pos as int) == Some((a, p as int)) && pos
                <= p <= bytes@.len(),
            None => p_package_address(bytes@, pos as int) is None,
        },
{
    let len = bytes.len();
    if pos >= len || 33 > len - pos {
        return None;
    }
    if bytes[pos] != crate::codec::TAG_PACKAGE_ADDRESS {
        return None;
    }
    let hi = read_le(bytes, pos + 1, 16);
    let lo = read_le(bytes, pos + 17, 16);
    proof {
        lemma_read_le_val(hi, bytes@.subrange(pos + 1, pos + 17), 16);
        lemma_read_le_val(lo, bytes@.subrange(pos + 17, pos + 33), 16);
    }
    Some((crate::types::PackageAddress { hi, lo }, pos + 33))
}

/// Decodes a resource type at `pos`.
pub fn dec_resource_type(bytes: &Vec<u8>, pos: usize) -> (r: Option<(
    crate::types::ResourceType,
    usize,
)>)
    ensures
        match r {
            Some((t, p)) => p_resource_type(bytes@, pos as int) == Some((t, p as int)) && pos <= p
                <= bytes@.len(),
            None => p_resource_type(bytes@, pos as int) is None,
        },
{
    let len = bytes.len();
    if pos >= len {
        return None;
    }
    let tag = bytes[pos];
    if tag == 0 {
        if 2 > len - pos {
            return None;
        }
        let d = bytes[pos + 1];
        if d > 18 {
            return None;
        }
        Some((crate::types::ResourceType::Fungible { divisibility: d }, pos + 2))
    } else if tag == 1 {
        Some((crate::types::ResourceType::NonFungible, pos + 1))
    } else {
        None
    }
}

/// Decodes a soft access rule at `pos`.
pub fn dec_access_rule(bytes: &Vec<u8>, pos: usize) -> (r: Option<(
    crate::types::AccessRule,
    usize,
)>)
    ensures
        match r {
            Some((a, p)) => p_access_rule(bytes@, pos as int) == Some((a, p as int)) && pos <= p
                <= bytes@.len(),
            None => p_access_rule(bytes@, pos as int) is None,
        },
{
    let len = bytes.len();
    if pos >= len {
        return None;
    }
    let tag = bytes[pos];
    if tag == 0 {
        Some((crate::types::AccessRule::AllowAll, pos + 1))
    } else if tag == 1 {
        Some((crate::types::AccessRule::DenyAll, pos + 1))
    } else if tag == 2 {
        match dec_resource_address(bytes, pos + 1) {
            Some((a, p2)) => Some((crate::types::AccessRule::Require(a), p2)),
            None => None,
        }
    } else {
        None
    }
}

/// Decodes a hard method authorization at `pos`.
pub fn dec_method_auth(bytes: &Vec<u8>, pos: usize) -> (r: Option<(
    crate::types::MethodAuthorization,
    usize,
)>)
    ensures
        match r {
            Some((a, p)) => p_method_auth(bytes@, pos as int) == Some((a, p as int)) && pos <= p
                <= bytes@.len(),
            None => p_method_auth(bytes@, pos as int) is None,
        },
{
    let len = bytes.len();
    if pos >= len {
        return None;
    }
    let tag = bytes[pos];
    if tag == 0 {
        Some((crate::types::MethodAuthorization::AllowAll, pos + 1))
    } else if tag == 1 {
        Some((crate::types::MethodAuthorization::DenyAll, pos + 1))
    } else if tag == 2 {
        Some((crate::types::MethodAuthorization::Unsupported, pos + 1))
    } else if tag == 3 {
        match dec_resource_address(bytes, pos + 1) {
            Some((a, p2)) => Some((crate::types::MethodAuthorization::Protected(a), p2)),
            None => None,
        }
    } else {
        None
    }
}

/// Decodes a method-access rule at `pos`.
pub fn dec_access_pair(bytes: &Vec<u8>, pos: usize) -> (r: Option<(
    crate::resource_manager::MethodAccessRule,
    usize,
)>)
    ensures
        match r {
            Some((a, p)) => p_access_pair(bytes@, pos as int) == Some((a, p as int)) && pos <= p
                <= bytes@.len(),
            None => p_access_pair(bytes@, pos as int) is None,
        },
{
    match dec_method_auth(bytes, pos) {
        Some((auth, p2)) => {
            match dec_method_auth(bytes, p2) {
                Some((update_auth, p3)) => Some(
                    (crate::resource_manager::MethodAccessRule { auth, update_auth }, p3),
                ),
                None => None,
            }
        },
        None => None,
    }
}

/// Decodes the six method-access rules at `pos`.
pub fn dec_authorization(bytes: &Vec<u8>, pos: usize) -> (r: Option<(
    crate::resource_manager::Authorization,
    usize,
)>)
    ensures
        match r {
            Some((a, p)) => p_authorization(bytes@, pos as int) == Some((a, p as int)) && pos <= p
                <= bytes@.len(),
            None => p_authorization(bytes@, pos as int) is None,
        },
{
    let r1 = dec_access_pair(bytes, pos);
    if let Some((mint, p1)) = r1 {
        if let Some((burn, p2)) = dec_access_pair(bytes, p1) {
            if let Some((withdraw, p3)) = dec_access_pair(bytes, p2) {
                if let Some((deposit, p4)) = dec_access_pair(bytes, p3) {
                    if let Some((update_metadata, p5)) = dec_access_pair(bytes, p4) {
                        if let Some((update_non_fungible_data, p6)) = dec_access_pair(bytes, p5) {
                            return Some(
                                (
                                    crate::resource_manager::Authorization {
                                        mint,
                                        burn,
                                        withdraw,
                                        deposit,
                                        update_metadata,
                                        update_non_fungible_data,
                                    },
                                    p6,
                                ),
                            );
                        }
                    }
                }
            }
        }
    }
    None
}

/// Decodes a decimal at `pos`.
pub fn dec_decimal(bytes: &Vec<u8>, pos: usize) -> (r: Option<(crate::types::Decimal, usize)>)
    ensures
        match r {
            Some((d, p)) => p_decimal(bytes@, pos as int) == Some((d, p as int)) && pos <= p
                <= bytes@.len(),
            None => p_decimal(bytes@, pos as int) is None,
        },
{
    match dec_le(bytes, pos, 16) {
        Some((u, p2)) => Some((crate::types::Decimal(from_twos_complement(u)), p2)),
        None => None,
    }
}

} // verus!

verus! {

/// The view of a metadata vector: each pair as character sequences.
pub open spec fn md_view(md: Seq<(String, String)>) -> Seq<(Seq<char>, Seq<char>)> {
    md.map(|i: int, kv: (String, String)| (kv.0@, kv.1@))
}

/// Decodes `n` metadata pairs at `pos`.
pub fn dec_md_items(bytes: &Vec<u8>, pos: usize, n: u32) -> (r: Option<(
    Vec<(String, String)>,
    usize,
)>)
    requires
        pos <= bytes@.len(),
    ensures
        match r {
            Some((md, p)) => p_md_items(bytes@, pos as int, n as nat) == Some(
                (md_view(md@), p as int),
            ) && pos <= p <= bytes@.len(),
            None => p_md_items(bytes@, pos as int, n as nat) is None,
        },
    decreases n,
{
    if n == 0 {
        let out: Vec<(String, String)> = Vec::new();
        proof {
            assert(md_view(out@) =~= Seq::<(Seq<char>, Seq<char>)>::empty());
        }
        return Some((out, pos));
    }
    match dec_string(bytes, pos) {
        Some((k, p2)) => {
            match dec_string(bytes, p2) {
                Some((v, p3)) => {
                    match dec_md_items(bytes, p3, n - 1) {
                        Some((mut rest, p4)) => {
                            let ghost rest0 = rest@;
                            let mut out: Vec<(String, String)> = Vec::new();
                            let ghost kk = k@;
                            let ghost vv = v@;
                            out.push((k, v));
                            out.append(&mut rest);
                            proof {
                                assert(md_view(out@) =~= seq![(kk, vv)] + md_view(rest0));
                            }
                            Some((out, p4))
                        },
                        None => None,
                    }
                },
                None => None,
            }
        },
        None => None,
    }
}

/// Decodes a metadata map at `pos`.
pub fn dec_metadata(bytes: &Vec<u8>, pos: usize) -> (r: Option<(Vec<(String, String)>, usize)>)
    ensures
        match r {
            Some((md, p)) => p_metadata(bytes@, pos as int) == Some((md_view(md@), p as int))
                && pos <= p <= bytes@.len(),
            None => p_metadata(bytes@, pos as int) is None,
        },
{
    match dec_le(bytes, pos, 4) {
        Some((nv, p2)) => {
            proof {
                lemma_pow256_bounds();
                lemma_le_val_bound(bytes@.subrange(pos as int, pos + 4));
            }
            let n = nv as u32;
            dec_md_items(bytes, p2, n)
        },
        None => None,
    }
}

/// Decodes a resource manager at `pos`.
pub fn dec_rm(bytes: &Vec<u8>, pos: usize) -> (r: Option<(
    crate::resource_manager::ResourceManager,
    usize,
)>)
    ensures
        match r {
            Some((rm, p)) => p_rm(bytes@, pos as int) == Some((rm@, p as int)) && pos <= p
                <= bytes@.len(),
            None => p_rm(bytes@, pos as int) is None,
        },
{
    if let Some((resource_type, p1)) = dec_resource_type(bytes, pos) {
        if let Some((metadata, p2)) = dec_metadata(bytes, p1) {
            if let Some((authorization, p3)) = dec_authorization(bytes, p2) {
                if let Some((total_supply, p4)) = dec_decimal(bytes, p3) {
                    let ghost mdv = md_view(metadata@);
                    let rm = crate::resource_manager::ResourceManager {
                        resource_type,
                        metadata,
                        authorization,
                        total_supply,
                    };
                    proof {
                        assert(rm@.metadata =~= mdv);
                    }
                    return Some((rm, p4));
                }
            }
        }
    }
    None
}

/// Decodes a component at `pos`.
pub fn dec_component(bytes: &Vec<u8>, pos: usize) -> (r: Option<(crate::model::Component, usize)>)
    ensures
        match r {
            Some((c, p)) => p_component(bytes@, pos as int) == Some((c@, p as int)) && pos <= p
                <= bytes@.len(),
            None => p_component(bytes@, pos as int) is None,
        },
{
    if let Some((package_address, p1)) = dec_package_address(bytes, pos) {
        if let Some((blueprint_name, p2)) = dec_string(bytes, p1) {
            if let Some((state, p3)) = dec_bytes(bytes, p2) {
                let c = crate::model::Component { package_address, blueprint_name, state };
                return Some((c, p3));
            }
        }
    }
    None
}

/// The view of an id vector: each id's bytes.
pub open spec fn ids_view(ids: Seq<crate::types::NonFungibleId>) -> Seq<Seq<u8>> {
    ids.map(|i: int, id: crate::types::NonFungibleId| id.0@)
}

/// Decodes `n` non-fungible ids at `pos`.
pub fn dec_id_items(bytes: &Vec<u8>, pos: usize, n: u32) -> (r: Option<(
    Vec<crate::types::NonFungibleId>,
    usize,
)>)
    requires
        pos <= bytes@.len(),
    ensures
        match r {
            Some((ids, p)) => p_id_items(bytes@, pos as int, n as nat) == Some(
                (ids_view(ids@), p as int),
            ) && pos <= p <= bytes@.len(),
            None => p_id_items(bytes@, pos as int, n as nat) is None,
        },
    decreases n,
{
    if n == 0 {
        let out: Vec<crate::types::NonFungibleId> = Vec::new();
        proof {
            assert(ids_view(out@) =~= Seq::<Seq<u8>>::empty());
        }
        return Some((out, pos));
    }
    match dec_bytes(bytes, pos) {
        Some((id, p2)) => {
            match dec_id_items(bytes, p2, n - 1) {
                Some((mut rest, p3)) => {
                    let ghost rest0 = rest@;
                    let ghost idv = id@;
                    let mut out: Vec<crate::types::NonFungibleId> = Vec::new();
                    out.push(crate::types::NonFungibleId(id));
                    out.append(&mut rest);
                    proof {
                        assert(ids_view(out@) =~= seq![idv] + ids_view(rest0));
                    }
                    Some((out, p3))
                },
                None => None,
            }
        },
        None => None,
    }
}

/// Decodes a resource container at `pos`.
pub fn dec_container(bytes: &Vec<u8>, pos: usize) -> (r: Option<(
    crate::model::ResourceContainer,
    usize,
)>)
    ensures
        match r {
            Some((c, p)) => p_container(bytes@, pos as int) == Some((c@, p as int)) && pos <= p
                <= bytes@.len(),
            None => p_container(bytes@, pos as int) is None,
        },
{
    let len = bytes.len();
    if pos >= len {
        return None;
    }
    let tag = bytes[pos];
    if tag == 0 {
        if let Some((resource_address, p1)) = dec_resource_address(bytes, pos + 1) {
            if p1 < len {
                let d = bytes[p1];
                if d <= 18 {
                    if let Some((liquid_amount, p2)) = dec_decimal(bytes, p1 + 1) {
                        let c = crate::model::ResourceContainer::Fungible {
                            resource_address,
                            divisibility: d,
                            liquid_amount,
                        };
                        return Some((c, p2));
                    }
                }
            }
        }
        None
    } else if tag == 1 {
        if let Some((resource_address, p1)) = dec_resource_address(bytes, pos + 1) {
            if let Some((nv, p2)) = dec_le(bytes, p1, 4) {
                proof {
                    lemma_pow256_bounds();
                    lemma_le_val_bound(bytes@.subrange(p1 as int, p1 + 4));
                }
                let n = nv as u32;
                if let Some((liquid_ids, p3)) = dec_id_items(bytes, p2, n) {
                    let ghost idsv = ids_view(liquid_ids@);
                    let c = crate::model::ResourceContainer::NonFungible {
                        resource_address,
                        liquid_ids,
                    };
                    proof {
                        assert(c@->NonFungible_liquid_ids =~= idsv);
                    }
                    return Some((c, p3));
                }
            }
        }
        None
    } else {
        None
    }
}

/// Decodes an optional non-fungible at `pos`.
pub fn dec_opt_nf(bytes: &Vec<u8>, pos: usize) -> (r: Option<(
    Option<crate::types::NonFungible>,
    usize,
)>)
    ensures
        match r {
            Some((nf, p)) => ({
                let w = match nf {
                    Some(n) => Some(
                        crate::track::NonFungibleView {
                            immutable_data: n.immutable_data@,
                            mutable_data: n.mutable_data@,
                        },
                    ),
                    None => None,
                };
                p_opt_nf(bytes@, pos as int) == Some((w, p as int)) && pos <= p <= bytes@.len()
            }),
            None => p_opt_nf(bytes@, pos as int) is None,
        },
{
    let len = bytes.len();
    if pos >= len {
        return None;
    }
    let tag = bytes[pos];
    if tag == 0 {
        Some((None, pos + 1))
    } else if tag == 1 {
        if let Some((immutable_data, p1)) = dec_bytes(bytes, pos + 1) {
            if let Some((mutable_data, p2)) = dec_bytes(bytes, p1) {
                return Some(
                    (Some(crate::types::NonFungible { immutable_data, mutable_data }), p2),
                );
            }
        }
        None
    } else {
        None
    }
}

/// Decodes an optional byte blob at `pos`.
pub fn dec_opt_bytes(bytes: &Vec<u8>, pos: usize) -> (r: Option<(Option<Vec<u8>>, usize)>)
    ensures
        match r {
            Some((b, p)) => ({
                let w = match b {
                    Some(x) => Some(x@),
                    None => None,
                };
                p_opt_bytes(bytes@, pos as int) == Some((w, p as int)) && pos <= p <= bytes@.len()
            }),
            None => p_opt_bytes(bytes@, pos as int) is None,
        },
{
    let len = bytes.len();
    if pos >= len {
        return None;
    }
    let tag = bytes[pos];
    if tag == 0 {
        Some((None, pos + 1))
    } else if tag == 1 {
        if let Some((b, p1)) = dec_bytes(bytes, pos + 1) {
            return Some((Some(b), p1));
        }
        None
    } else {
        None
    }
}

/// A byte-blob parse lands inside the bytes, past its start.
pub proof fn lemma_p_bytes_range(s: Seq<u8>, pos: int)
    ensures
        p_bytes(s, pos) matches Some(r) ==> pos < r.1 <= s.len(),
{
}

/// Decodes a whole substate payload; every byte must be consumed.
pub fn dec_substate_value(bytes: &Vec<u8>) -> (r: Option<crate::track::SubstateValue>)
    ensures
        match r {
            Some(v) => spec_dec_substate(bytes@) == Some(v@),
            None => spec_dec_substate(bytes@) is None,
        },
{
    proof {
        reveal(crate::value_codec::spec_dec_substate);
    }
    let len = bytes.len();
    if len == 0 {
        return None;
    }
    let tag = bytes[0];
    let parsed: Option<(crate::track::SubstateValue, usize)> = if tag == TAG_SUBSTATE_RESOURCE {
        match dec_rm(bytes, 1) {
            Some((v, p)) => Some((crate::track::SubstateValue::Resource(v), p)),
            None => None,
        }
    } else if tag == TAG_SUBSTATE_COMPONENT {
        match dec_component(bytes, 1) {
            Some((v, p)) => Some((crate::track::SubstateValue::Component(v), p)),
            None => None,
        }
    } else if tag == TAG_SUBSTATE_PACKAGE {
        match dec_bytes(bytes, 1) {
            Some((code, p)) => Some(
                (
                    crate::track::SubstateValue::Package(
                        crate::model::ValidatedPackage { code },
                    ),
                    p,
                ),
            ),
            None => None,
        }
    } else if tag == TAG_SUBSTATE_VAULT {
        match dec_container(bytes, 1) {
            Some((v, p)) => Some(
                (crate::track::SubstateValue::Vault(crate::model::Vault { container: v }), p),
            ),
            None => None,
        }
    } else if tag == TAG_SUBSTATE_NON_FUNGIBLE {
        match dec_opt_nf(bytes, 1) {
            Some((v, p)) => Some((crate::track::SubstateValue::NonFungible(v), p)),
            None => None,
        }
    } else if tag == TAG_SUBSTATE_KV_ENTRY {
        match dec_opt_bytes(bytes, 1) {
            Some((v, p)) => Some((crate::track::SubstateValue::KeyValueStoreEntry(v), p)),
            None => None,
        }
    } else {
        None
    };
    match parsed {
        Some((v, p)) => {
            if p == len {
                Some(v)
            } else {
                None
            }
        },
        None => None,
    }
}

} // verus!

verus! {

/// The canonical image of a resource type.
pub open spec fn spec_enc_resource_type(rt: crate::types::ResourceType) -> Seq<u8> {
    match rt {
        crate::types::ResourceType::Fungible { divisibility } => seq![0u8, divisibility],
        crate::types::ResourceType::NonFungible => seq![1u8],
    }
}

/// The canonical image of a hard method authorization.
pub open spec fn spec_enc_method_auth(a: crate::types::MethodAuthorization) -> Seq<u8> {
    match a {
        crate::types::MethodAuthorization::AllowAll => seq![0u8],
        crate::types::MethodAuthorization::DenyAll => seq![1u8],
        crate::types::MethodAuthorization::Unsupported => seq![2u8],
        crate::types::MethodAuthorization::Protected(r) => seq![3u8]
            + crate::codec::spec_enc_resource_address(r),
    }
}

/// The canonical image of a method-access rule.
pub open spec fn spec_enc_access_pair(m: crate::resource_manager::MethodAccessRule) -> Seq<u8> {
    spec_enc_method_auth(m.auth) + spec_enc_method_auth(m.update_auth)
}

/// The canonical image of the six method-access rules.
pub open spec fn spec_enc_authorization(a: crate::resource_manager::Authorization) -> Seq<u8> {
    spec_enc_access_pair(a.mint) + spec_enc_access_pair(a.burn) + spec_enc_access_pair(a.withdraw)
        + spec_enc_access_pair(a.deposit) + spec_enc_access_pair(a.update_metadata)
        + spec_enc_access_pair(a.update_non_fungible_data)
}

/// The canonical image of a metadata pair list.
pub open spec fn spec_enc_md_items(md: Seq<(Seq<char>, Seq<char>)>) -> Seq<u8>
    decreases md.len(),
{
    if md.len() == 0 {
        Seq::empty()
    } else {
        crate::codec::spec_enc_string(md[0].0) + crate::codec::spec_enc_string(md[0].1)
            + spec_enc_md_items(md.drop_first())
    }
}

/// The canonical image of a metadata map.
pub open spec fn spec_enc_metadata(md: Seq<(Seq<char>, Seq<char>)>) -> Seq<u8> {
    le_bytes(md.len() as u128, 4) + spec_enc_md_items(md)
}

/// The canonical image of a decimal.
pub open spec fn spec_enc_decimal(d: crate::types::Decimal) -> Seq<u8> {
    le_bytes(i128_as_u128(d.0), 16)
}

/// The canonical image of a resource manager.
pub open spec fn spec_enc_rm(v: crate::resource_manager::RmView) -> Seq<u8> {
    spec_enc_resource_type(v.resource_type) + spec_enc_metadata(v.metadata)
        + spec_enc_authorization(v.authorization) + spec_enc_decimal(v.total_supply)
}

/// The canonical image of a component.
pub open spec fn spec_enc_component(v: crate::model::ComponentView) -> Seq<u8> {
    crate::codec::spec_enc_package_address(v.package_address) + crate::codec::spec_enc_string(
        v.blueprint_name,
    ) + crate::codec::spec_enc_bytes(v.state)
}

/// The canonical image of an id list.
pub open spec fn spec_enc_id_items(ids: Seq<Seq<u8>>) -> Seq<u8>
    decreases ids.len(),
{
    if ids.len() == 0 {
        Seq::empty()
    } else {
        crate::codec::spec_enc_bytes(ids[0]) + spec_enc_id_items(ids.drop_first())
    }
}

/// The canonical image of a resource container.
pub open spec fn spec_enc_container(v: crate::model::ContainerView) -> Seq<u8> {
    match v {
        crate::model::ContainerView::Fungible { resource_address, divisibility, liquid_amount } => {
            seq![0u8] + crate::codec::spec_enc_resource_address(resource_address) + seq![
                divisibility,
            ] + spec_enc_decimal(liquid_amount)
        },
        crate::model::ContainerView::NonFungible { resource_address, liquid_ids } => {
            seq![1u8] + crate::codec::spec_enc_resource_address(resource_address) + le_bytes(
                liquid_ids.len() as u128,
                4,
            ) + spec_enc_id_items(liquid_ids)
        },
    }
}

/// The canonical image of an optional non-fungible.
pub open spec fn spec_enc_opt_nf(v: Option<crate::track::NonFungibleView>) -> Seq<u8> {
    match v {
        None => seq![0u8],
        Some(nf) => seq![1u8] + crate::codec::spec_enc_bytes(nf.immutable_data)
            + crate::codec::spec_enc_bytes(nf.mutable_data),
    }
}

/// The canonical image of an optional byte blob.
pub open spec fn spec_enc_opt_bytes(v: Option<Seq<u8>>) -> Seq<u8> {
    match v {
        None => seq![0u8],
        Some(b) => seq![1u8] + crate::codec::spec_enc_bytes(b),
    }
}

/// The canonical image of a substate payload.
pub open spec fn spec_enc_substate(v: crate::track::SubstateView) -> Seq<u8> {
    match v {
        crate::track::SubstateView::Resource(rm) => seq![TAG_SUBSTATE_RESOURCE] + spec_enc_rm(rm),
        crate::track::SubstateView::Component(c) => seq![TAG_SUBSTATE_COMPONENT]
            + spec_enc_component(c),
        crate::track::SubstateView::Package(p) => seq![TAG_SUBSTATE_PACKAGE]
            + crate::codec::spec_enc_bytes(p.code),
        crate::track::SubstateView::Vault(c) => seq![TAG_SUBSTATE_VAULT] + spec_enc_container(c),
        crate::track::SubstateView::NonFungible(nf) => seq![TAG_SUBSTATE_NON_FUNGIBLE]
            + spec_enc_opt_nf(nf),
        crate::track::SubstateView::KeyValueStoreEntry(e) => seq![TAG_SUBSTATE_KV_ENTRY]
            + spec_enc_opt_bytes(e),
    }
}

/// Whether every variable-length field of a payload fits its 32-bit length
/// prefix.
pub open spec fn substate_enc_ok(v: crate::track::SubstateView) -> bool {
    match v {
        crate::track::SubstateView::Resource(rm) => {
            &&& rm.metadata.len() < 0x1_0000_0000
            &&& forall|i: int|
                0 <= i < rm.metadata.len() ==> crate::codec::str_len_ok(
                    (#[trigger] rm.metadata[i]).0,
                ) && crate::codec::str_len_ok(rm.metadata[i].1)
        },
        crate::track::SubstateView::Component(c) => crate::codec::str_len_ok(c.blueprint_name)
            && c.state.len() < 0x1_0000_0000,
        crate::track::SubstateView::Package(p) => p.code.len() < 0x1_0000_0000,
        crate::track::SubstateView::Vault(c) => match c {
            crate::model::ContainerView::Fungible { .. } => true,
            crate::model::ContainerView::NonFungible { liquid_ids, .. } => {
                &&& liquid_ids.len() < 0x1_0000_0000
                &&& forall|i: int|
                    0 <= i < liquid_ids.len() ==> (#[trigger] liquid_ids[i]).len() < 0x1_0000_0000
            },
        },
        crate::track::SubstateView::NonFungible(nf) => match nf {
            None => true,
            Some(n) => n.immutable_data.len() < 0x1_0000_0000 && n.mutable_data.len()
                < 0x1_0000_0000,
        },
        crate::track::SubstateView::KeyValueStoreEntry(e) => match e {
            None => true,
            Some(b) => b.len() < 0x1_0000_0000,
        },
    }
}

fn push_resource_type(out: &mut Vec<u8>, rt: &crate::types::ResourceType)
    ensures
        final(out)@ == old(out)@ + spec_enc_resource_type(*rt),
{
    match rt {
        crate::types::ResourceType::Fungible { divisibility } => {
            out.push(0u8);
            out.push(*divisibility);
            assert(final(out)@ =~= old(out)@ + spec_enc_resource_type(*rt));
        },
        crate::types::ResourceType::NonFungible => {
            out.push(1u8);
            assert(final(out)@ =~= old(out)@ + spec_enc_resource_type(*rt));
        },
    }
}

fn push_method_auth(out: &mut Vec<u8>, a: &crate::types::MethodAuthorization)
    ensures
        final(out)@ == old(out)@ + spec_enc_method_auth(*a),
{
    match a {
        crate::types::MethodAuthorization::AllowAll => {
            out.push(0u8);
            assert(final(out)@ =~= old(out)@ + spec_enc_method_auth(*a));
        },
        crate::types::MethodAuthorization::DenyAll => {
            out.push(1u8);
            assert(final(out)@ =~= old(out)@ + spec_enc_method_auth(*a));
        },
        crate::types::MethodAuthorization::Unsupported => {
            out.push(2u8);
            assert(final(out)@ =~= old(out)@ + spec_enc_method_auth(*a));
        },
        crate::types::MethodAuthorization::Protected(r) => {
            out.push(3u8);
            crate::codec::push_resource_address(out, r);
            assert(final(out)@ =~= old(out)@ + spec_enc_method_auth(*a));
        },
    }
}

fn push_access_pair(out: &mut Vec<u8>, m: &crate::resource_manager::MethodAccessRule)
    ensures
        final(out)@ == old(out)@ + spec_enc_access_pair(*m),
{
    push_method_auth(out, &m.auth);
    push_method_auth(out, &m.update_auth);
    assert(final(out)@ =~= old(out)@ + spec_enc_access_pair(*m));
}

fn push_authorization(out: &mut Vec<u8>, a: &crate::resource_manager::Authorization)
    ensures
        final(out)@ == old(out)@ + spec_enc_authorization(*a),
{
    push_access_pair(out, &a.mint);
    push_access_pair(out, &a.burn);
    push_access_pair(out, &a.withdraw);
    push_access_pair(out, &a.deposit);
    push_access_pair(out, &a.update_metadata);
    push_access_pair(out, &a.update_non_fungible_data);
    assert(final(out)@ =~= old(out)@ + spec_enc_authorization(*a));
}

fn push_metadata(out: &mut Vec<u8>, md: &Vec<(String, String)>)
    requires
        md@.len() < 0x1_0000_0000,
        forall|i: int|
            0 <= i < md@.len() ==> crate::codec::str_len_ok((#[trigger] md_view(md@)[i]).0)
                && crate::codec::str_len_ok(md_view(md@)[i].1),
    ensures
        final(out)@ == old(out)@ + spec_enc_metadata(md_view(md@)),
{
    let ghost mdv = md_view(md@);
    push_le(out, md.len() as u128, 4);
    let ghost base = out@;
    let mut i: usize = 0;
    proof {
        assert(mdv.skip(0) =~= mdv);
    }
    while i < md.len()
        invariant
            i <= md@.len(),
            mdv == md_view(md@),
            mdv.len() == md@.len(),
            forall|j: int|
                0 <= j < md@.len() ==> crate::codec::str_len_ok((#[trigger] mdv[j]).0)
                    && crate::codec::str_len_ok(mdv[j].1),
            out@ + spec_enc_md_items(mdv.skip(i as int)) == base + spec_enc_md_items(mdv),
            forall|j: int| 0 <= j < md@.len() ==> mdv[j] == (md@[j].0@, md@[j].1@),
        decreases md@.len() - i,
    {
        let ghost out0 = out@;
        crate::codec::push_string(out, &md[i].0);
        crate::codec::push_string(out, &md[i].1);
        proof {
            assert(mdv.skip(i as int)[0] == mdv[i as int]);
            assert(mdv.skip(i as int).drop_first() =~= mdv.skip(i + 1));
            assert(spec_enc_md_items(mdv.skip(i as int)) == crate::codec::spec_enc_string(
                mdv[i as int].0,
            ) + crate::codec::spec_enc_string(mdv[i as int].1) + spec_enc_md_items(
                mdv.skip(i + 1),
            ));
            assert(out@ + spec_enc_md_items(mdv.skip(i + 1)) =~= out0 + spec_enc_md_items(
                mdv.skip(i as int),
            ));
        }
        i += 1;
    }
    proof {
        assert(mdv.skip(md@.len() as int).len() == 0);
        assert(out@ =~= out@ + spec_enc_md_items(mdv.skip(md@.len() as int)));
        assert(final(out)@ =~= old(out)@ + spec_enc_metadata(mdv));
    }
}

fn push_decimal(out: &mut Vec<u8>, d: &crate::types::Decimal)
    ensures
        final(out)@ == old(out)@ + spec_enc_decimal(*d),
{
    let u = to_twos_complement(d.0);
    push_le(out, u, 16);
}

fn push_rm(out: &mut Vec<u8>, rm: &crate::resource_manager::ResourceManager)
    requires
        substate_enc_ok(crate::track::SubstateView::Resource(rm@)),
    ensures
        final(out)@ == old(out)@ + spec_enc_rm(rm@),
{
    push_resource_type(out, &rm.resource_type);
    push_metadata(out, &rm.metadata);
    push_authorization(out, &rm.authorization);
    push_decimal(out, &rm.total_supply);
    assert(final(out)@ =~= old(out)@ + spec_enc_rm(rm@));
}

fn push_id_items(out: &mut Vec<u8>, ids: &Vec<crate::types::NonFungibleId>)
    requires
        forall|i: int| 0 <= i < ids@.len() ==> (#[trigger] ids@[i].0@).len() < 0x1_0000_0000,
    ensures
        final(out)@ == old(out)@ + spec_enc_id_items(ids_view(ids@)),
{
    let ghost idsv = ids_view(ids@);
    let ghost base = out@;
    let mut i: usize = 0;
    proof {
        assert(idsv.skip(0) =~= idsv);
    }
    while i < ids.len()
        invariant
            i <= ids@.len(),
            idsv == ids_view(ids@),
            idsv.len() == ids@.len(),
            forall|j: int| 0 <= j < ids@.len() ==> (#[trigger] ids@[j].0@).len() < 0x1_0000_0000,
            out@ + spec_enc_id_items(idsv.skip(i as int)) == base + spec_enc_id_items(idsv),
            forall|j: int| 0 <= j < ids@.len() ==> idsv[j] == ids@[j].0@,
        decreases ids@.len() - i,
    {
        let ghost out0 = out@;
        crate::codec::push_bytes_prefixed(out, &ids[i].0);
        proof {
            assert(idsv.skip(i as int)[0] == idsv[i as int]);
            assert(idsv.skip(i as int).drop_first() =~= idsv.skip(i + 1));
            assert(spec_enc_id_items(idsv.skip(i as int)) == crate::codec::spec_enc_bytes(
                idsv[i as int],
            ) + spec_enc_id_items(idsv.skip(i + 1)));
            assert(out@ + spec_enc_id_items(idsv.skip(i + 1)) =~= out0 + spec_enc_id_items(
                idsv.skip(i as int),
            ));
        }
        i += 1;
    }
    proof {
        assert(idsv.skip(ids@.len() as int).len() == 0);
        assert(out@ =~= out@ + spec_enc_id_items(idsv.skip(ids@.len() as int)));
    }
}

fn push_container(out: &mut Vec<u8>, c: &crate::model::ResourceContainer)
    requires
        substate_enc_ok(crate::track::SubstateView::Vault(c@)),
    ensures
        final(out)@ == old(out)@ + spec_enc_container(c@),
{
    match c {
        crate::model::ResourceContainer::Fungible {
            resource_address,
            divisibility,
            liquid_amount,
        } => {
            out.push(0u8);
            crate::codec::push_resource_address(out, resource_address);
            out.push(*divisibility);
            push_decimal(out, liquid_amount);
            assert(final(out)@ =~= old(out)@ + spec_enc_container(c@));
        },
        crate::model::ResourceContainer::NonFungible { resource_address, liquid_ids } => {
            out.push(1u8);
            crate::codec::push_resource_address(out, resource_address);
            push_le(out, liquid_ids.len() as u128, 4);
            proof {
                let lv = c@->NonFungible_liquid_ids;
                assert forall|i: int| 0 <= i < liquid_ids@.len() implies (#[trigger] liquid_ids@[i].0@).len()
                    < 0x1_0000_0000 by {
                    assert(lv[i] == liquid_ids@[i].0@);
                }
            }
            push_id_items(out, liquid_ids);
            assert(final(out)@ =~= old(out)@ + spec_enc_container(c@));
        },
    }
}

/// Builds the canonical byte image of a substate payload.
pub fn encode_substate_value(v: &crate::track::SubstateValue) -> (r: Vec<u8>)
    requires
        substate_enc_ok(v@),
    ensures
        r@ == spec_enc_substate(v@),
{
    let mut out: Vec<u8> = Vec::new();
    match v {
        crate::track::SubstateValue::Resource(rm) => {
            out.push(TAG_SUBSTATE_RESOURCE);
            push_rm(&mut out, rm);
        },
        crate::track::SubstateValue::Component(c) => {
            out.push(TAG_SUBSTATE_COMPONENT);
            crate::codec::push_package_address(&mut out, &c.package_address);
            crate::codec::push_string(&mut out, &c.blueprint_name);
            crate::codec::push_bytes_prefixed(&mut out, &c.state);
        },
        crate::track::SubstateValue::Package(p) => {
            out.push(TAG_SUBSTATE_PACKAGE);
            crate::codec::push_bytes_prefixed(&mut out, &p.code);
        },
        crate::track::SubstateValue::Vault(vt) => {
            out.push(TAG_SUBSTATE_VAULT);
            push_container(&mut out, &vt.container);
        },
        crate::track::SubstateValue::NonFungible(nf) => {
            out.push(TAG_SUBSTATE_NON_FUNGIBLE);
            match nf {
                None => {
                    out.push(0u8);
                },
                Some(n) => {
                    out.push(1u8);
                    crate::codec::push_bytes_prefixed(&mut out, &n.immutable_data);
                    crate::codec::push_bytes_prefixed(&mut out, &n.mutable_data);
                },
            }
        },
        crate::track::SubstateValue::KeyValueStoreEntry(e) => {
            out.push(TAG_SUBSTATE_KV_ENTRY);
            match e {
                None => {
                    out.push(0u8);
                },
                Some(b) => {
                    out.push(1u8);
                    crate::codec::push_bytes_prefixed(&mut out, b);
                },
            }
        },
    }
    proof {
        assert(out@ =~= spec_enc_substate(v@));
    }
    out
}

} // verus!
