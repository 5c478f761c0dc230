//! Content-addressed model supply chain.
//!
//! An optimization never replaces the source digest. It names a derived
//! artifact whose digest is the hash of the source digest and the kind.
use vstd::prelude::*;

use crate::crypto::{concat_bytes, ct_eq_bytes, hmac_sha256_hex, hmac_spec, sha256_hex, sha256_spec};
use crate::text::{dec, hex_seq, hex_string, lower_seq, push_dec, str_eq, to_lower, trim, trim_str};
use vstd::string::*;
use vstd::utf8::*;

verus! {

/// `sha256(source_digest ++ "\n" ++ kind)` in lower-case hex.
pub fn derived_digest(source_digest: &str, kind: &str) -> (r: String)
    ensures
        r@ == hex_seq(sha256_spec(source_digest.spec_bytes() + seq![10u8] + kind.spec_bytes())),
{
    let mut nl: Vec<u8> = Vec::new();
    nl.push(10u8);
    let a = concat_bytes(source_digest.as_bytes(), nl.as_slice());
    let b = concat_bytes(a.as_slice(), kind.as_bytes());
    assert(nl@ =~= seq![10u8]);
    sha256_hex(b.as_slice())
}

/// The supported optimizations, by their lower-case names.
pub open spec fn known_kind(k: Seq<char>) -> bool {
    k == "awq"@ || k == "gptq"@ || k == "fp16"@ || k == "bf16"@ || k == "gguf"@ || k
        == "tensorrt"@
}

pub fn optimization_kind(kind: &str) -> (r: Result<&'static str, String>)
    ensures
        known_kind(lower_seq(trim(kind@))) <==> r is Ok,
        r matches Ok(k) ==> k@ == lower_seq(trim(kind@)),
        r matches Err(e) ==> e@ == "unsupported optimization '"@ + lower_seq(trim(kind@)) + "'"@,
{
    let k = to_lower(trim_str(kind));
    let s = k.as_str();
    if str_eq(s, "awq") {
        Ok("awq")
    } else if str_eq(s, "gptq") {
        Ok("gptq")
    } else if str_eq(s, "fp16") {
        Ok("fp16")
    } else if str_eq(s, "bf16") {
        Ok("bf16")
    } else if str_eq(s, "gguf") {
        Ok("gguf")
    } else if str_eq(s, "tensorrt") {
        Ok("tensorrt")
    } else {
        let mut msg = "unsupported optimization '".to_owned();
        msg.append(s);
        msg.append("'");
        Err(msg)
    }
}

pub fn file_count_allowed(count: usize, limit: usize) -> (r: Result<(), String>)
    ensures
        r is Ok <==> count <= limit,
        r matches Err(e) ==> e@ == "model has "@ + dec(count as nat) + " files; limit is "@ + dec(
            limit as nat,
        ),
{
    if count > limit {
        let mut msg = "model has ".to_owned();
        push_dec(&mut msg, count as u64);
        msg.append(" files; limit is ");
        push_dec(&mut msg, limit as u64);
        return Err(msg);
    }
    Ok(())
}

/// HMAC-SHA256 of the digest under `key`, hex-encoded, compared in constant
/// time with the trimmed signature.
pub fn signature_matches(digest: &str, signature_hex: &str, key: &str) -> (r: bool)
    ensures
        r == (hex_seq(hmac_spec(key.spec_bytes(), digest.spec_bytes())) == trim(signature_hex@)),
{
    let expect = hmac_sha256_hex(key.as_bytes(), digest.as_bytes());
    let given = trim_str(signature_hex);
    let r = ct_eq_bytes(expect.as_str().as_bytes(), given.as_bytes());
    proof {
        broadcast use encode_utf8_decode_utf8;
        let a = expect@;
        let b = given@;
        assert(decode_utf8(encode_utf8(a)) == a);
        assert(decode_utf8(encode_utf8(b)) == b);
    }
    r
}

/// Lower-case hex of `bytes`.
pub fn hex(bytes: &[u8]) -> (r: String)
    ensures
        r@ == hex_seq(bytes@),
{
    hex_string(bytes)
}

/// The file-count limit from the `FLUXVM_AI_MODEL_MAX_FILES` setting: a
/// `usize` as `str::parse` reads it, else 10 000.
pub fn max_files(setting: Option<&str>) -> (r: usize)
    ensures
        r == (match setting {
            Some(v) => match crate::text::parse_u64_spec(v@) {
                Some(n) if n <= usize::MAX => n as usize,
                _ => 10_000,
            },
            None => 10_000,
        }),
{
    match setting {
        Some(v) => {
            let c = crate::text::chars_of(v);
            proof {
                assert(c@.subrange(0, c@.len() as int) =~= c@);
            }
            match crate::text::parse_u64_range(&c, 0, c.len()) {
                Some(n) => if n <= usize::MAX as u64 {
                    n as usize
                } else {
                    10_000
                },
                None => 10_000,
            }
        },
        None => 10_000,
    }
}

/// Checks a model's signature against its digest under the signing key
/// (the `FLUXVM_AI_MODEL_SIGNING_KEY` setting).
pub fn require_signature(digest: Option<&str>, signature: &str, key: Option<&str>) -> (r: Result<(), String>)
    ensures
        match digest {
            None => r matches Err(e) && e@ == "model digest is missing"@,
            Some(d) => match key {
                None => r matches Err(e) && e@ == "model signature is set but FLUXVM_AI_MODEL_SIGNING_KEY is unset"@,
                Some(k) => if k@.len() == 0 {
                    r matches Err(e) && e@ == "FLUXVM_AI_MODEL_SIGNING_KEY is empty"@
                } else if hex_seq(hmac_spec(k.spec_bytes(), d.spec_bytes())) == trim(signature@) {
                    r is Ok
                } else {
                    r matches Err(e) && e@ == "model signature does not match the digest"@
                },
            },
        },
{
    let d = match digest {
        Some(d) => d,
        None => {
            return Err(crate::text::owned("model digest is missing"));
        },
    };
    let k = match key {
        Some(k) => k,
        None => {
            return Err(
                crate::text::owned("model signature is set but FLUXVM_AI_MODEL_SIGNING_KEY is unset"),
            );
        },
    };
    if k.unicode_len() == 0 {
        return Err(crate::text::owned("FLUXVM_AI_MODEL_SIGNING_KEY is empty"));
    }
    if signature_matches(d, signature, k) {
        Ok(())
    } else {
        Err(crate::text::owned("model signature does not match the digest"))
    }
}

} // verus!
