//! Canonical byte encoding of the on-ledger data model.
//!
//! Every encoding is deterministic and byte-exact: store keys, receipt
//! payloads and identifier derivation all depend on that.  Integers are
//! little-endian and fixed width; variable data is length-prefixed with a
//! 32-bit length; tagged unions start with a one-byte tag.

use vstd::prelude::*;

verus! {

/// The little-endian image of `v` in exactly `n` bytes (high bytes beyond
/// `n` are discarded).
pub open spec fn le_bytes(v: u128, n: nat) -> Seq<u8>
    decreases n,
{
    if n == 0 {
        Seq::empty()
    } else {
        seq![(v % 256) as u8] + le_bytes(v / 256, (n - 1) as nat)
    }
}

/// 256 to the power `n`: the number of values `n` bytes can hold.
pub open spec fn pow256(n: nat) -> int
    decreases n,
{
    if n == 0 {
        1
    } else {
        256 * pow256((n - 1) as nat)
    }
}

pub proof fn lemma_le_bytes_len(v: u128, n: nat)
    ensures
        le_bytes(v, n).len() == n,
    decreases n,
{
    if n > 0 {
        lemma_le_bytes_len(v / 256, (n - 1) as nat);
    }
}

/// Two values below `pow256(n)` with the same `n`-byte image are equal.
pub proof fn lemma_le_bytes_injective(a: u128, b: u128, n: nat)
    requires
        a < pow256(n),
        b < pow256(n),
        le_bytes(a, n) == le_bytes(b, n),
    ensures
        a == b,
    decreases n,
{
    if n == 0 {
        assert(pow256(0) == 1);
    } else {
        assert(le_bytes(a, n)[0] == (a % 256) as u8);
        assert(le_bytes(b, n)[0] == (b % 256) as u8);
        assert(a % 256 == b % 256);
        assert(le_bytes(a / 256, (n - 1) as nat) =~= le_bytes(a, n).skip(1));
        assert(le_bytes(b / 256, (n - 1) as nat) =~= le_bytes(b, n).skip(1));
        assert(a / 256 < pow256((n - 1) as nat) && b / 256 < pow256((n - 1) as nat))
            by (nonlinear_arith)
            requires
                a < 256 * pow256((n - 1) as nat),
                b < 256 * pow256((n - 1) as nat),
                pow256((n - 1) as nat) >= 0,
        ;
        lemma_le_bytes_injective(a / 256, b / 256, (n - 1) as nat);
        assert(a == 256 * (a / 256) + a % 256);
        assert(b == 256 * (b / 256) + b % 256);
    }
}

pub proof fn lemma_pow256_bounds()
    ensures
        pow256(4) == 0x1_0000_0000,
        pow256(16) == 0x1_0000_0000_0000_0000_0000_0000_0000_0000,
{
    assert(pow256(0) == 1);
    assert(pow256(1) == 0x100);
    assert(pow256(2) == 0x1_0000);
    assert(pow256(3) == 0x100_0000);
    assert(pow256(4) == 0x1_0000_0000);
    assert(pow256(5) == 0x100_0000_0000);
    assert(pow256(6) == 0x1_0000_0000_0000);
    assert(pow256(7) == 0x100_0000_0000_0000);
    assert(pow256(8) == 0x1_0000_0000_0000_0000);
    assert(pow256(9) == 0x100_0000_0000_0000_0000);
    assert(pow256(10) == 0x1_0000_0000_0000_0000_0000);
    assert(pow256(11) == 0x100_0000_0000_0000_0000_0000);
    assert(pow256(12) == 0x1_0000_0000_0000_0000_0000_0000);
    assert(pow256(13) == 0x100_0000_0000_0000_0000_0000_0000);
    assert(pow256(14) == 0x1_0000_0000_0000_0000_0000_0000_0000);
    assert(pow256(15) == 0x100_0000_0000_0000_0000_0000_0000_0000);
    assert(pow256(16) == 0x1_0000_0000_0000_0000_0000_0000_0000_0000);
}

/// Appends the `n`-byte little-endian image of `v`.
pub fn push_le(out: &mut Vec<u8>, v: u128, n: usize)
    ensures
        final(out)@ == old(out)@ + le_bytes(v, n as nat),
{
    let ghost base = out@;
    let mut cur: u128 = v;
    let mut i: usize = 0;
    proof {
        lemma_le_bytes_len(v, n as nat);
    }
    while i < n
        invariant
            i <= n,
            out@.len() == base.len() + i,
            le_bytes(v, n as nat) == out@.skip(base.len() as int) + le_bytes(
                cur,
                (n - i) as nat,
            ),
            out@.take(base.len() as int) == base,
        decreases n - i,
    {
        let ghost out0 = out@;
        let ghost cur0 = cur;
        out.push((cur % 256) as u8);
        cur = cur / 256;
        proof {
            assert(le_bytes(cur0, (n - i) as nat) == seq![(cur0 % 256) as u8] + le_bytes(
                cur0 / 256,
                (n - i - 1) as nat,
            ));
            assert(out@.skip(base.len() as int) =~= out0.skip(base.len() as int) + seq![
                (cur0 % 256) as u8,
            ]);
            assert(out@.skip(base.len() as int) + le_bytes(cur, (n - (i + 1)) as nat) =~= out0.skip(
                base.len() as int,
            ) + le_bytes(cur0, (n - i) as nat));
            assert(out@.take(base.len() as int) =~= base);
        }
        i += 1;
    }
    proof {
        assert(le_bytes(cur, 0) =~= Seq::<u8>::empty());
        assert(le_bytes(v, n as nat) =~= out@.skip(base.len() as int));
        assert(out@ =~= out@.take(base.len() as int) + out@.skip(base.len() as int));
    }
}

/// Reads the value whose `n`-byte little-endian image sits at `pos`.
pub fn read_le(bytes: &Vec<u8>, pos: usize, n: usize) -> (r: u128)
    requires
        n <= 16,
        pos + n <= bytes@.len(),
    ensures
        le_bytes(r, n as nat) == bytes@.subrange(pos as int, pos + n),
        r < pow256(n as nat),
{
    let len = bytes.len();
    proof {
        assert(bytes@.len() == len);
    }
    let mut r: u128 = 0;
    let mut i: usize = n;
    proof {
        lemma_pow256_bounds();
    }
    while i > 0
        invariant
            i <= n,
            n <= 16,
            pos + n <= usize::MAX,
            pos + n <= bytes@.len(),
            r < pow256((n - i) as nat),
            pow256((n - i) as nat) <= pow256(16),
            pow256(16) == 0x1_0000_0000_0000_0000_0000_0000_0000_0000,
            le_bytes(r, (n - i) as nat) == bytes@.subrange(pos + i, pos + n),
        decreases i,
    {
        let b = bytes[pos + i - 1];
        let ghost r0 = r;
        proof {
            assert(pow256((n - i + 1) as nat) == 256 * pow256((n - i) as nat));
            assert(256 * r0 + (b as u128) < pow256((n - i + 1) as nat)) by (nonlinear_arith)
                requires
                    r0 < pow256((n - i) as nat),
                    b < 256,
                    pow256((n - i + 1) as nat) == 256 * pow256((n - i) as nat),
            ;
            assert(pow256((n - i + 1) as nat) <= pow256(16)) by {
                lemma_pow256_monotone((n - i + 1) as nat, 16);
            }
        }
        r = r * 256 + (b as u128);
        proof {
            assert(r % 256 == b && r / 256 == r0) by (nonlinear_arith)
                requires
                    r == 256 * r0 + (b as u128),
                    b < 256,
            ;
            assert(le_bytes(r, (n - i + 1) as nat) == seq![b] + le_bytes(r0, (n - i) as nat));
            assert(le_bytes(r, (n - i + 1) as nat) =~= bytes@.subrange(pos + i - 1, pos + n));
        }
        i -= 1;
    }
    proof {
        assert(le_bytes(r, n as nat) =~= bytes@.subrange(pos as int, pos + n));
    }
    r
}

pub proof fn lemma_pow256_monotone(a: nat, b: nat)
    requires
        a <= b,
    ensures
        pow256(a) <= pow256(b),
        pow256(a) >= 1,
    decreases b,
{
    if a == b {
        lemma_pow256_positive(a);
    } else {
        lemma_pow256_monotone(a, (b - 1) as nat);
        assert(pow256(b) == 256 * pow256((b - 1) as nat));
        assert(256 * pow256((b - 1) as nat) >= pow256((b - 1) as nat)) by (nonlinear_arith)
            requires
                pow256((b - 1) as nat) >= 1,
        ;
    }
}

pub proof fn lemma_pow256_positive(n: nat)
    ensures
        pow256(n) >= 1,
    decreases n,
{
    if n > 0 {
        lemma_pow256_positive((n - 1) as nat);
        assert(pow256(n) == 256 * pow256((n - 1) as nat));
    }
}

} // verus!

verus! {

// One-byte tags that keep the encodings of the different identifier kinds
// disjoint.
pub const TAG_PACKAGE_ADDRESS: u8 = 1;
pub const TAG_COMPONENT_ADDRESS: u8 = 2;
pub const TAG_RESOURCE_ADDRESS: u8 = 3;
pub const TAG_VAULT_ID: u8 = 4;
pub const TAG_KV_STORE_ID: u8 = 5;

pub open spec fn spec_enc_hash(h: crate::types::Hash) -> Seq<u8> {
    le_bytes(h.hi, 16) + le_bytes(h.lo, 16)
}

pub open spec fn spec_enc_package_address(a: crate::types::PackageAddress) -> Seq<u8> {
    seq![TAG_PACKAGE_ADDRESS] + le_bytes(a.hi, 16) + le_bytes(a.lo, 16)
}

pub open spec fn spec_enc_component_address(a: crate::types::ComponentAddress) -> Seq<u8> {
    seq![TAG_COMPONENT_ADDRESS] + le_bytes(a.hi, 16) + le_bytes(a.lo, 16)
}

pub open spec fn spec_enc_resource_address(a: crate::types::ResourceAddress) -> Seq<u8> {
    seq![TAG_RESOURCE_ADDRESS] + le_bytes(a.hi, 16) + le_bytes(a.lo, 16)
}

pub open spec fn spec_enc_vault_id(v: crate::types::VaultId) -> Seq<u8> {
    seq![TAG_VAULT_ID] + spec_enc_hash(v.hash) + le_bytes(v.index as u128, 4)
}

pub open spec fn spec_enc_kv_store_id(v: crate::types::KeyValueStoreId) -> Seq<u8> {
    seq![TAG_KV_STORE_ID] + spec_enc_hash(v.hash) + le_bytes(v.index as u128, 4)
}

pub fn push_hash(out: &mut Vec<u8>, h: &crate::types::Hash)
    ensures
        final(out)@ == old(out)@ + spec_enc_hash(*h),
{
    push_le(out, h.hi, 16);
    push_le(out, h.lo, 16);
    assert(final(out)@ =~= old(out)@ + spec_enc_hash(*h));
}

pub fn push_package_address(out: &mut Vec<u8>, a: &crate::types::PackageAddress)
    ensures
        final(out)@ == old(out)@ + spec_enc_package_address(*a),
{
    out.push(TAG_PACKAGE_ADDRESS);
    push_le(out, a.hi, 16);
    push_le(out, a.lo, 16);
    assert(final(out)@ =~= old(out)@ + spec_enc_package_address(*a));
}

pub fn push_component_address(out: &mut Vec<u8>, a: &crate::types::ComponentAddress)
    ensures
        final(out)@ == old(out)@ + spec_enc_component_address(*a),
{
    out.push(TAG_COMPONENT_ADDRESS);
    push_le(out, a.hi, 16);
    push_le(out, a.lo, 16);
    assert(final(out)@ =~= old(out)@ + spec_enc_component_address(*a));
}

pub fn push_resource_address(out: &mut Vec<u8>, a: &crate::types::ResourceAddress)
    ensures
        final(out)@ == old(out)@ + spec_enc_resource_address(*a),
{
    out.push(TAG_RESOURCE_ADDRESS);
    push_le(out, a.hi, 16);
    push_le(out, a.lo, 16);
    assert(final(out)@ =~= old(out)@ + spec_enc_resource_address(*a));
}

pub fn push_vault_id(out: &mut Vec<u8>, v: &crate::types::VaultId)
    ensures
        final(out)@ == old(out)@ + spec_enc_vault_id(*v),
{
    out.push(TAG_VAULT_ID);
    push_hash(out, &v.hash);
    push_le(out, v.index as u128, 4);
    assert(final(out)@ =~= old(out)@ + spec_enc_vault_id(*v));
}

pub fn push_kv_store_id(out: &mut Vec<u8>, v: &crate::types::KeyValueStoreId)
    ensures
        final(out)@ == old(out)@ + spec_enc_kv_store_id(*v),
{
    out.push(TAG_KV_STORE_ID);
    push_hash(out, &v.hash);
    push_le(out, v.index as u128, 4);
    assert(final(out)@ =~= old(out)@ + spec_enc_kv_store_id(*v));
}

/// Appends raw bytes.
pub fn push_bytes(out: &mut Vec<u8>, b: &Vec<u8>)
    ensures
        final(out)@ == old(out)@ + b@,
{
    let ghost base = out@;
    let mut i: usize = 0;
    while i < b.len()
        invariant
            i <= b.len(),
            out@ == base + b@.take(i as int),
        decreases b.len() - i,
    {
        out.push(b[i]);
        assert(b@.take(i + 1 as int) =~= b@.take(i as int).push(b@[i as int]));
        i += 1;
    }
    assert(b@.take(b@.len() as int) =~= b@);
}

/// A 32-bit length prefix followed by the bytes themselves.
pub open spec fn spec_enc_bytes(b: Seq<u8>) -> Seq<u8> {
    le_bytes(b.len() as u128, 4) + b
}

pub fn push_bytes_prefixed(out: &mut Vec<u8>, b: &Vec<u8>)
    requires
        b@.len() < 0x1_0000_0000,
    ensures
        final(out)@ == old(out)@ + spec_enc_bytes(b@),
{
    push_le(out, b.len() as u128, 4);
    push_bytes(out, b);
    assert(final(out)@ =~= old(out)@ + spec_enc_bytes(b@));
}

/// A 32-bit length prefix followed by the UTF-8 bytes of a string.
pub open spec fn spec_enc_string(s: Seq<char>) -> Seq<u8> {
    spec_enc_bytes(vstd::utf8::encode_utf8(s))
}

/// Whether the UTF-8 form of a string fits its 32-bit length prefix.
pub open spec fn str_len_ok(s: Seq<char>) -> bool {
    vstd::utf8::encode_utf8(s).len() < 0x1_0000_0000
}

pub fn push_string(out: &mut Vec<u8>, s: &String)
    requires
        str_len_ok(s@),
    ensures
        final(out)@ == old(out)@ + spec_enc_string(s@),
{
    let b = s.as_str().as_bytes_vec();
    push_bytes_prefixed(out, &b);
}

} // verus!
