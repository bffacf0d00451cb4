//! The calls into the `jwt`, `hmac` and `sha2` crates: decoding a header
//! segment and checking a signature under a candidate key.
//!
//! Nothing in this file is proved. What each call returns depends on its
//! arguments alone and is given a name here; the contracts of the crate are
//! written over those names.

use hmac::{Hmac, Mac};
use jwt::{FromBase64, VerifyingAlgorithm};
use sha2::{Sha256, Sha384, Sha512};
use vstd::prelude::*;

use crate::algorithm::JoseAlgorithm;

verus! {

/// The error type of the `jwt` crate.
#[verifier::external_type_specification]
#[verifier::external_body]
pub struct ExJwtError(jwt::Error);

/// The algorithm that `jwt::Header::from_base64` reads out of a header
/// segment, or `None` where it refuses the segment.
pub uninterp spec fn header_algorithm(header: Seq<char>) -> Option<JoseAlgorithm>;

/// What `jwt::VerifyingAlgorithm::verify` answers for an HMAC-SHA-256 key made
/// of `secret`, or `None` where it answers with an error.
pub uninterp spec fn hs256_verdict(
    secret: Seq<u8>,
    header: Seq<char>,
    claims: Seq<char>,
    signature: Seq<char>,
) -> Option<bool>;

/// What `jwt::VerifyingAlgorithm::verify` answers for an HMAC-SHA-384 key made
/// of `secret`, or `None` where it answers with an error.
pub uninterp spec fn hs384_verdict(
    secret: Seq<u8>,
    header: Seq<char>,
    claims: Seq<char>,
    signature: Seq<char>,
) -> Option<bool>;

/// What `jwt::VerifyingAlgorithm::verify` answers for an HMAC-SHA-512 key made
/// of `secret`, or `None` where it answers with an error.
pub uninterp spec fn hs512_verdict(
    secret: Seq<u8>,
    header: Seq<char>,
    claims: Seq<char>,
    signature: Seq<char>,
) -> Option<bool>;

/// Calls `jwt::Header::from_base64` on a header segment and hands out the
/// algorithm field of the header it decoded. The result is a function of the
/// segment alone; the contract gives it its name and claims nothing else.
#[verifier::external_body]
pub(crate) fn decode_header_algorithm(header: &str) -> (r: Result<JoseAlgorithm, jwt::Error>)
    ensures
        r matches Ok(algorithm) ==> header_algorithm(header@) == Some(algorithm),
        r is Err ==> header_algorithm(header@) is None,
{
    Ok(match jwt::Header::from_base64(header)?.algorithm {
        jwt::AlgorithmType::Hs256 => JoseAlgorithm::Hs256,
        jwt::AlgorithmType::Hs384 => JoseAlgorithm::Hs384,
        jwt::AlgorithmType::Hs512 => JoseAlgorithm::Hs512,
        jwt::AlgorithmType::Rs256 => JoseAlgorithm::Rs256,
        jwt::AlgorithmType::Rs384 => JoseAlgorithm::Rs384,
        jwt::AlgorithmType::Rs512 => JoseAlgorithm::Rs512,
        jwt::AlgorithmType::Es256 => JoseAlgorithm::Es256,
        jwt::AlgorithmType::Es384 => JoseAlgorithm::Es384,
        jwt::AlgorithmType::Es512 => JoseAlgorithm::Es512,
        jwt::AlgorithmType::Ps256 => JoseAlgorithm::Ps256,
        jwt::AlgorithmType::Ps384 => JoseAlgorithm::Ps384,
        jwt::AlgorithmType::Ps512 => JoseAlgorithm::Ps512,
        jwt::AlgorithmType::None => JoseAlgorithm::Unsecured,
    })
}

/// Calls `jwt::VerifyingAlgorithm::verify` on the three segments, with the
/// HMAC-SHA-256 key that `hmac::Mac::new_from_slice` makes of `secret`. That
/// decodes the signature, computes the MAC of header, dot and claims under
/// the key, and compares the two. The result is a function of the four
/// arguments; the contract gives it its name and claims nothing else.
#[verifier::external_body]
pub(crate) fn hs256_verify(secret: &[u8], header: &str, claims: &str, signature: &str) -> (r:
    Result<bool, jwt::Error>)
    ensures
        r matches Ok(b) ==> hs256_verdict(secret@, header@, claims@, signature@) == Some(b),
        r is Err ==> hs256_verdict(secret@, header@, claims@, signature@) is None,
{
    let key: Hmac<Sha256> = Hmac::new_from_slice(secret)?;
    VerifyingAlgorithm::verify(&key, header, claims, signature)
}

/// Calls `jwt::VerifyingAlgorithm::verify` on the three segments, with the
/// HMAC-SHA-384 key that `hmac::Mac::new_from_slice` makes of `secret`. That
/// decodes the signature, computes the MAC of header, dot and claims under
/// the key, and compares the two. The result is a function of the four
/// arguments; the contract gives it its name and claims nothing else.
#[verifier::external_body]
pub(crate) fn hs384_verify(secret: &[u8], header: &str, claims: &str, signature: &str) -> (r:
    Result<bool, jwt::Error>)
    ensures
        r matches Ok(b) ==> hs384_verdict(secret@, header@, claims@, signature@) == Some(b),
        r is Err ==> hs384_verdict(secret@, header@, claims@, signature@) is None,
{
    let key: Hmac<Sha384> = Hmac::new_from_slice(secret)?;
    VerifyingAlgorithm::verify(&key, header, claims, signature)
}

/// Calls `jwt::VerifyingAlgorithm::verify` on the three segments, with the
/// HMAC-SHA-512 key that `hmac::Mac::new_from_slice` makes of `secret`. That
/// decodes the signature, computes the MAC of header, dot and claims under
/// the key, and compares the two. The result is a function of the four
/// arguments; the contract gives it its name and claims nothing else.
#[verifier::external_body]
pub(crate) fn hs512_verify(secret: &[u8], header: &str, claims: &str, signature: &str) -> (r:
    Result<bool, jwt::Error>)
    ensures
        r matches Ok(b) ==> hs512_verdict(secret@, header@, claims@, signature@) == Some(b),
        r is Err ==> hs512_verdict(secret@, header@, claims@, signature@) is None,
{
    let key: Hmac<Sha512> = Hmac::new_from_slice(secret)?;
    VerifyingAlgorithm::verify(&key, header, claims, signature)
}

} // verus!
