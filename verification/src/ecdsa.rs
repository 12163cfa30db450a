//! ECDSA key and signature containers.  Keys and signatures are opaque
//! byte strings of fixed width; no cryptography happens here beyond the
//! placeholder derivations the engine ships with.

use vstd::prelude::*;

verus! {

pub const ECDSA_PRIVATE_KEY_LENGTH: usize = 32;
pub const ECDSA_PUBLIC_KEY_LENGTH: usize = 33;
pub const ECDSA_SIGNATURE_LENGTH: usize = 65;

/// An ECDSA private key: 32 opaque bytes.
#[derive(Debug, Clone, PartialEq, Eq)]
pub struct EcdsaPrivateKey(pub Vec<u8>);

/// An ECDSA public key: 33 opaque bytes.
#[derive(Debug, Clone, PartialEq, Eq)]
pub struct EcdsaPublicKey(pub Vec<u8>);

/// An ECDSA signature: 65 opaque bytes.
#[derive(Debug, Clone, PartialEq, Eq)]
pub struct EcdsaSignature(pub Vec<u8>);

/// An error from validating a signature.  The placeholder validation
/// cannot fail, so no value of this type is ever produced.
#[derive(Debug, Clone, PartialEq, Eq)]
pub struct SignatureValidationError;

#[derive(Debug, Clone, PartialEq, Eq)]
pub enum ParseEcdsaPublicKeyError {
    InvalidHex(String),
    InvalidLength(usize),
}

#[derive(Debug, Clone, PartialEq, Eq)]
pub enum ParseEcdsaSignatureError {
    InvalidHex(String),
    InvalidLength(usize),
}

#[derive(Debug, Clone, PartialEq, Eq)]
pub enum ParseEcdsaPrivateKeyError {
    InvalidHex(String),
    InvalidLength(usize),
}

/// The lowercase hex digit of a nibble.
pub open spec fn hex_digit(n: u8) -> char {
    if n < 10 {
        ((48 + n) as u8) as char
    } else {
        ((87 + n) as u8) as char
    }
}

/// The lowercase hex image of bytes: two digits per byte, high nibble
/// first.
pub open spec fn spec_hex_of(b: Seq<u8>) -> Seq<char>
    decreases b.len(),
{
    if b.len() == 0 {
        Seq::empty()
    } else {
        seq![hex_digit(b[0] / 16), hex_digit(b[0] % 16)] + spec_hex_of(b.drop_first())
    }
}

/// Whether a character is a hex digit, either case.
pub open spec fn is_hex_digit(c: char) -> bool {
    ('0' <= c && c <= '9') || ('a' <= c && c <= 'f') || ('A' <= c && c <= 'F')
}

/// The value of a hex digit.
pub open spec fn hex_val(c: char) -> u8 {
    if '0' <= c && c <= '9' {
        ((c as u8) - 48) as u8
    } else if 'a' <= c && c <= 'f' {
        ((c as u8) - 87) as u8
    } else {
        ((c as u8) - 55) as u8
    }
}

/// Whether a string is well-formed hex: even length, digits throughout.
pub open spec fn is_hex_string(s: Seq<char>) -> bool {
    s.len() % 2 == 0 && (forall|i: int| 0 <= i < s.len() ==> is_hex_digit(#[trigger] s[i]))
}

/// Relies on `hex::encode`: the lowercase hex image of the bytes, two
/// digits per byte, high nibble first.
#[verifier::external_body]
pub fn hex_encode(b: &Vec<u8>) -> (r: String)
    ensures
        r@ == spec_hex_of(b@),
{
    hex::encode(b)
}

/// Relies on `hex::decode`: succeeds exactly on well-formed hex of either
/// case, pairing digits into bytes, high nibble first.
#[verifier::external_body]
pub fn hex_decode(s: &str) -> (r: Option<Vec<u8>>)
    ensures
        match r {
            Some(b) => is_hex_string(s@) && s@.len() == 2 * b@.len() && (forall|j: int|
                0 <= j < b@.len() ==> #[trigger] b@[j] == 16 * hex_val(s@[2 * j]) + hex_val(
                    s@[2 * j + 1],
                )),
            None => !is_hex_string(s@),
        },
{
    hex::decode(s).ok()
}

impl EcdsaPrivateKey {
    /// Well-formedness: exactly 32 bytes.
    pub open spec fn wf(&self) -> bool {
        self.0@.len() == ECDSA_PRIVATE_KEY_LENGTH
    }

    /// The placeholder public key: the private bytes padded with one zero.
    pub fn public_key(&self) -> (r: EcdsaPublicKey)
        requires
            self.wf(),
        ensures
            r.wf(),
            r.0@ == self.0@ + seq![0u8],
    {
        let mut bytes = crate::clone_bytes(&self.0);
        bytes.push(0u8);
        EcdsaPublicKey(bytes)
    }

    /// The placeholder signature: the public key followed by the hash
    /// bytes.
    pub fn sign(&self, hash: &crate::types::Hash) -> (r: EcdsaSignature)
        requires
            self.wf(),
        ensures
            r.wf(),
            r.0@ == self.0@ + seq![0u8] + crate::codec::spec_enc_hash(*hash),
    {
        let pk = self.public_key();
        let mut bytes = pk.0;
        crate::codec::push_hash(&mut bytes, hash);
        proof {
            crate::codec::lemma_le_bytes_len(hash.hi, 16);
            crate::codec::lemma_le_bytes_len(hash.lo, 16);
        }
        EcdsaSignature(bytes)
    }

    pub fn to_vec(&self) -> (r: Vec<u8>)
        ensures
            r@ == self.0@,
    {
        crate::clone_bytes(&self.0)
    }

    /// Reads a key from 32 raw bytes.
    pub fn try_from_slice(slice: &[u8]) -> (r: Result<EcdsaPrivateKey, ParseEcdsaPrivateKeyError>)
        ensures
            match r {
                Ok(k) => slice@.len() == ECDSA_PRIVATE_KEY_LENGTH && k.0@ == slice@ && k.wf(),
                Err(e) => slice@.len() != ECDSA_PRIVATE_KEY_LENGTH && e
                    == ParseEcdsaPrivateKeyError::InvalidLength(slice@.len() as usize),
            },
    {
        if slice.len() == ECDSA_PRIVATE_KEY_LENGTH {
            Ok(EcdsaPrivateKey(crate::slice_to_vec(slice)))
        } else {
            Err(ParseEcdsaPrivateKeyError::InvalidLength(slice.len()))
        }
    }

    /// Reads a key from its hex form.
    pub fn from_hex(s: &str) -> (r: Result<EcdsaPrivateKey, ParseEcdsaPrivateKeyError>)
        ensures
            r matches Ok(k) ==> k.wf(),
            !is_hex_string(s@) ==> (r matches Err(e) && (e matches
                ParseEcdsaPrivateKeyError::InvalidHex(h) && h@ == s@)),
    {
        match hex_decode(s) {
            Some(bytes) => {
                if bytes.len() == ECDSA_PRIVATE_KEY_LENGTH {
                    Ok(EcdsaPrivateKey(bytes))
                } else {
                    Err(ParseEcdsaPrivateKeyError::InvalidLength(bytes.len()))
                }
            },
            None => Err(ParseEcdsaPrivateKeyError::InvalidHex(crate::str_to_string(s))),
        }
    }

    /// The lowercase hex form.
    pub fn to_hex(&self) -> (r: String)
        ensures
            r@ == spec_hex_of(self.0@),
    {
        hex_encode(&self.0)
    }
}

impl EcdsaPublicKey {
    /// Well-formedness: exactly 33 bytes.
    pub open spec fn wf(&self) -> bool {
        self.0@.len() == ECDSA_PUBLIC_KEY_LENGTH
    }

    pub fn to_vec(&self) -> (r: Vec<u8>)
        ensures
            r@ == self.0@,
    {
        crate::clone_bytes(&self.0)
    }

    /// Reads a key from 33 raw bytes.
    pub fn try_from_slice(slice: &[u8]) -> (r: Result<EcdsaPublicKey, ParseEcdsaPublicKeyError>)
        ensures
            match r {
                Ok(k) => slice@.len() == ECDSA_PUBLIC_KEY_LENGTH && k.0@ == slice@ && k.wf(),
                Err(e) => slice@.len() != ECDSA_PUBLIC_KEY_LENGTH && e
                    == ParseEcdsaPublicKeyError::InvalidLength(slice@.len() as usize),
            },
    {
        if slice.len() == ECDSA_PUBLIC_KEY_LENGTH {
            Ok(EcdsaPublicKey(crate::slice_to_vec(slice)))
        } else {
            Err(ParseEcdsaPublicKeyError::InvalidLength(slice.len()))
        }
    }

    /// Reads a key from its hex form.
    pub fn from_hex(s: &str) -> (r: Result<EcdsaPublicKey, ParseEcdsaPublicKeyError>)
        ensures
            r matches Ok(k) ==> k.wf(),
            !is_hex_string(s@) ==> (r matches Err(e) && (e matches
                ParseEcdsaPublicKeyError::InvalidHex(h) && h@ == s@)),
    {
        match hex_decode(s) {
            Some(bytes) => {
                if bytes.len() == ECDSA_PUBLIC_KEY_LENGTH {
                    Ok(EcdsaPublicKey(bytes))
                } else {
                    Err(ParseEcdsaPublicKeyError::InvalidLength(bytes.len()))
                }
            },
            None => Err(ParseEcdsaPublicKeyError::InvalidHex(crate::str_to_string(s))),
        }
    }

    /// The lowercase hex form.
    pub fn to_hex(&self) -> (r: String)
        ensures
            r@ == spec_hex_of(self.0@),
    {
        hex_encode(&self.0)
    }
}

impl EcdsaSignature {
    /// Well-formedness: exactly 65 bytes.
    pub open spec fn wf(&self) -> bool {
        self.0@.len() == ECDSA_SIGNATURE_LENGTH
    }

    /// The placeholder validation: recovers the public key the signature
    /// embeds in its first 33 bytes.
    pub fn validate(&self, _hash: &crate::types::Hash) -> (r: Result<
        EcdsaPublicKey,
        SignatureValidationError,
    >)
        requires
            self.wf(),
        ensures
            r matches Ok(pk) && pk.0@ == self.0@.subrange(0, ECDSA_PUBLIC_KEY_LENGTH as int)
                && pk.wf(),
    {
        let bytes = crate::value_codec::copy_range(&self.0, 0, ECDSA_PUBLIC_KEY_LENGTH);
        Ok(EcdsaPublicKey(bytes))
    }

    pub fn to_vec(&self) -> (r: Vec<u8>)
        ensures
            r@ == self.0@,
    {
        crate::clone_bytes(&self.0)
    }

    /// Reads a signature from 65 raw bytes.
    pub fn try_from_slice(slice: &[u8]) -> (r: Result<EcdsaSignature, ParseEcdsaSignatureError>)
        ensures
            match r {
                Ok(k) => slice@.len() == ECDSA_SIGNATURE_LENGTH && k.0@ == slice@ && k.wf(),
                Err(e) => slice@.len() != ECDSA_SIGNATURE_LENGTH && e
                    == ParseEcdsaSignatureError::InvalidLength(slice@.len() as usize),
            },
    {
        if slice.len() == ECDSA_SIGNATURE_LENGTH {
            Ok(EcdsaSignature(crate::slice_to_vec(slice)))
        } else {
            Err(ParseEcdsaSignatureError::InvalidLength(slice.len()))
        }
    }

    /// Reads a signature from its hex form.
    pub fn from_hex(s: &str) -> (r: Result<EcdsaSignature, ParseEcdsaSignatureError>)
        ensures
            r matches Ok(k) ==> k.wf(),
            !is_hex_string(s@) ==> (r matches Err(e) && (e matches
                ParseEcdsaSignatureError::InvalidHex(h) && h@ == s@)),
    {
        match hex_decode(s) {
            Some(bytes) => {
                if bytes.len() == ECDSA_SIGNATURE_LENGTH {
                    Ok(EcdsaSignature(bytes))
                } else {
                    Err(ParseEcdsaSignatureError::InvalidLength(bytes.len()))
                }
            },
            None => Err(ParseEcdsaSignatureError::InvalidHex(crate::str_to_string(s))),
        }
    }

    /// The lowercase hex form.
    pub fn to_hex(&self) -> (r: String)
        ensures
            r@ == spec_hex_of(self.0@),
    {
        hex_encode(&self.0)
    }
}

} // verus!
