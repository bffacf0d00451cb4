//! Testing one candidate secret against a token's signature.

use vstd::prelude::*;

use crate::algorithm::MacConstructor;
use crate::jose::{
    hs256_verdict, hs256_verify, hs384_verdict, hs384_verify, hs512_verdict, hs512_verify,
};
use crate::token::{Token, TokenView};

verus! {

/// True when `secret` is a key under which the token's signature is the MAC
/// of its header and claims. Under the no-signature construction no secret
/// is accepted.
pub open spec fn accepts(constructor: MacConstructor, secret: Seq<u8>, token: TokenView) -> bool {
    match constructor {
        MacConstructor::HmacSha256 => hs256_verdict(
            secret,
            token.header,
            token.claims,
            token.signature,
        ) == Some(true),
        MacConstructor::HmacSha384 => hs384_verdict(
            secret,
            token.header,
            token.claims,
            token.signature,
        ) == Some(true),
        MacConstructor::HmacSha512 => hs512_verdict(
            secret,
            token.header,
            token.claims,
            token.signature,
        ) == Some(true),
        MacConstructor::NoSignature => false,
    }
}

/// Tests one candidate secret against the token.
///
/// The MAC of the token's signing input is computed under `secret` and
/// compared with the token's signature. A signature that cannot be decoded,
/// like one that differs, makes the candidate fail: a mismatch is an answer,
/// not an error.
pub fn verify(constructor: MacConstructor, secret: &[u8], token: &Token) -> (accepted: bool)
    ensures
        accepted == accepts(constructor, secret@, token@),
{
    let header = token.header_segment();
    let claims = token.claims_segment();
    let signature = token.signature_segment();
    let checked = match constructor {
        MacConstructor::HmacSha256 => hs256_verify(secret, header, claims, signature),
        MacConstructor::HmacSha384 => hs384_verify(secret, header, claims, signature),
        MacConstructor::HmacSha512 => hs512_verify(secret, header, claims, signature),
        MacConstructor::NoSignature => { return false; },
    };
    match checked {
        Ok(matches) => matches,
        Err(_) => false,
    }
}

} // verus!
