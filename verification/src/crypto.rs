//! SHA-256 (from the `sha2` crate), HMAC-SHA256 built on it, and a
//! constant-time comparison (from the `subtle` crate).
use sha2::{Digest, Sha256};
use subtle::ConstantTimeEq;
use vstd::prelude::*;
use vstd::slice::slice_to_vec;

use crate::text::{hex_seq, hex_string};

verus! {

/// The SHA-256 digest of a byte sequence.
pub uninterp spec fn sha256_spec(data: Seq<u8>) -> Seq<u8>;

/// `sha2::Sha256::digest`: the 32-byte SHA-256 digest of `data`.
#[verifier::external_body]
pub(crate) fn sha256(data: &[u8]) -> (r: Vec<u8>)
    ensures
        r@ == sha256_spec(data@),
        r@.len() == 32,
{
    Sha256::digest(data).to_vec()
}

/// `subtle::ConstantTimeEq::ct_eq` on byte slices, read as a `bool`: true
/// exactly when both slices have the same length and the same bytes.
#[verifier::external_body]
pub(crate) fn ct_eq_bytes(a: &[u8], b: &[u8]) -> (r: bool)
    ensures
        r == (a@ == b@),
{
    bool::from(a.ct_eq(b))
}

/// HMAC block size for SHA-256.
pub open spec fn block() -> nat {
    64
}

/// The key padded (or first hashed, when longer than a block) to 64 bytes.
pub open spec fn key_block(key: Seq<u8>) -> Seq<u8> {
    let k = if key.len() > 64 {
        sha256_spec(key)
    } else {
        key
    };
    Seq::new(64, |i: int| if i < k.len() { k[i] } else { 0u8 })
}

pub open spec fn xor_pad(kb: Seq<u8>, pad: u8) -> Seq<u8> {
    Seq::new(kb.len(), |i: int| kb[i] ^ pad)
}

/// HMAC-SHA256 (RFC 2104).
pub open spec fn hmac_spec(key: Seq<u8>, msg: Seq<u8>) -> Seq<u8> {
    let kb = key_block(key);
    sha256_spec(xor_pad(kb, 0x5cu8) + sha256_spec(xor_pad(kb, 0x36u8) + msg))
}

/// `a` followed by `b`, as a new vector.
pub fn concat_bytes(a: &[u8], b: &[u8]) -> (r: Vec<u8>)
    ensures
        r@ == a@ + b@,
{
    let mut r = slice_to_vec(a);
    let mut i: usize = 0;
    while i < b.len()
        invariant
            i <= b@.len(),
            r@ == a@ + b@.subrange(0, i as int),
        decreases b.len() - i,
    {
        r.push(b[i]);
        i = i + 1;
        assert(r@ =~= a@ + b@.subrange(0, i as int));
    }
    assert(b@.subrange(0, b@.len() as int) =~= b@);
    r
}

fn padded_key(key: &[u8]) -> (r: Vec<u8>)
    ensures
        r@ == key_block(key@),
{
    let k: Vec<u8> = if key.len() > 64 {
        sha256(key)
    } else {
        slice_to_vec(key)
    };
    let mut r: Vec<u8> = Vec::new();
    let mut i: usize = 0;
    while i < 64
        invariant
            i <= 64,
            k@ == (if key@.len() > 64 {
                sha256_spec(key@)
            } else {
                key@
            }),
            r@.len() == i,
            forall|j: int| 0 <= j < i ==> #[trigger] r@[j] == key_block(key@)[j],
        decreases 64 - i,
    {
        let b = if i < k.len() {
            k[i]
        } else {
            0u8
        };
        r.push(b);
        i = i + 1;
    }
    assert(r@ =~= key_block(key@));
    r
}

fn xor_vec(kb: &Vec<u8>, pad: u8) -> (r: Vec<u8>)
    ensures
        r@ == xor_pad(kb@, pad),
{
    let mut r: Vec<u8> = Vec::new();
    let mut i: usize = 0;
    while i < kb.len()
        invariant
            i <= kb@.len(),
            r@.len() == i,
            forall|j: int| 0 <= j < i ==> #[trigger] r@[j] == kb@[j] ^ pad,
        decreases kb.len() - i,
    {
        r.push(kb[i] ^ pad);
        i = i + 1;
    }
    assert(r@ =~= xor_pad(kb@, pad));
    r
}

/// HMAC-SHA256 of `msg` under `key`.
pub fn hmac_sha256(key: &[u8], msg: &[u8]) -> (r: Vec<u8>)
    ensures
        r@ == hmac_spec(key@, msg@),
        r@.len() == 32,
{
    let kb = padded_key(key);
    let ipad = xor_vec(&kb, 0x36u8);
    let opad = xor_vec(&kb, 0x5cu8);
    let inner_input = concat_bytes(ipad.as_slice(), msg);
    let inner = sha256(inner_input.as_slice());
    let outer_input = concat_bytes(opad.as_slice(), inner.as_slice());
    sha256(outer_input.as_slice())
}

/// Lower-case hex of HMAC-SHA256.
pub fn hmac_sha256_hex(key: &[u8], msg: &[u8]) -> (r: String)
    ensures
        r@ == hex_seq(hmac_spec(key@, msg@)),
        r@.len() == 64,
        forall|i: int| 0 <= i < 64 ==> crate::text::is_lower_hex(#[trigger] r@[i]),
{
    let mac = hmac_sha256(key, msg);
    proof {
        crate::text::lemma_hex_seq_lower(mac@);
    }
    hex_string(mac.as_slice())
}

/// Lower-case hex of SHA-256.
pub fn sha256_hex(data: &[u8]) -> (r: String)
    ensures
        r@ == hex_seq(sha256_spec(data@)),
        r@.len() == 64,
{
    let d = sha256(data);
    hex_string(d.as_slice())
}

} // verus!
