//! Recovery of weak HMAC signing secrets of signed tokens.
//!
//! A token is taken apart into its three segments ([`token`]), its header
//! names the signing algorithm, and the algorithm selects a keyed-MAC
//! construction ([`algorithm`]). Each line of a wordlist gives a candidate
//! secret ([`candidate`]), which is tested against the token's signature
//! ([`verify`]). A pool of workers goes through the wordlist side by side
//! until a candidate is accepted or the lines run out ([`coordinator`],
//! [`pool`]); the rules by which the workers share the wordlist and stop one
//! another are a state machine of their own ([`search`]).
//!
//! Decoding a header and computing a MAC are left to the `jwt`, `hmac` and
//! `sha2` crates, and the threads to `rayon` and to the locks of the
//! standard library. The calls stand in [`jose`], [`candidate`] and [`pool`],
//! each behind a function whose contract is taken on trust; everything else
//! is proved from those contracts.

pub mod algorithm;
pub mod candidate;
pub mod coordinator;
pub mod jose;
pub mod outcome;
pub mod pool;
pub mod search;
pub mod token;
pub mod verify;
