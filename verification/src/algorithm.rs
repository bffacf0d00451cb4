//! Signing algorithms named by a token header, and the keyed-MAC
//! constructions this crate can test candidates with.

use vstd::prelude::*;
use vstd::string::*;

verus! {

/// The algorithm identifiers a header may carry, as registered for signed
/// tokens.
#[derive(Clone, Copy, Debug, PartialEq, Eq, Structural)]
pub enum JoseAlgorithm {
    Hs256,
    Hs384,
    Hs512,
    Rs256,
    Rs384,
    Rs512,
    Es256,
    Es384,
    Es512,
    Ps256,
    Ps384,
    Ps512,
    Unsecured,
}

/// What a header's algorithm means for a search.
#[derive(Clone, Debug, PartialEq, Eq)]
pub enum AlgorithmKind {
    Hs256,
    Hs384,
    Hs512,
    /// The header says that the token carries no signature.
    NoSignature,
    /// A registered algorithm that is not a keyed MAC, by its registered name.
    Unsupported(String),
}

/// The keyed-MAC construction to test candidates with.
#[derive(Clone, Copy, Debug, PartialEq, Eq, Structural)]
pub enum MacConstructor {
    HmacSha256,
    HmacSha384,
    HmacSha512,
    /// No secret is meaningful: there is nothing to search for.
    NoSignature,
}

/// Why no construction was selected.
#[derive(Clone, Debug, PartialEq, Eq)]
pub enum SelectError {
    /// The algorithm is not a keyed MAC; the name is the one the header gave.
    UnsupportedAlgorithm(String),
}

impl JoseAlgorithm {
    /// The identifier as it is written in a header.
    pub open spec fn name(self) -> Seq<char> {
        match self {
            JoseAlgorithm::Hs256 => "HS256"@,
            JoseAlgorithm::Hs384 => "HS384"@,
            JoseAlgorithm::Hs512 => "HS512"@,
            JoseAlgorithm::Rs256 => "RS256"@,
            JoseAlgorithm::Rs384 => "RS384"@,
            JoseAlgorithm::Rs512 => "RS512"@,
            JoseAlgorithm::Es256 => "ES256"@,
            JoseAlgorithm::Es384 => "ES384"@,
            JoseAlgorithm::Es512 => "ES512"@,
            JoseAlgorithm::Ps256 => "PS256"@,
            JoseAlgorithm::Ps384 => "PS384"@,
            JoseAlgorithm::Ps512 => "PS512"@,
            JoseAlgorithm::Unsecured => "none"@,
        }
    }

    /// The construction that tests candidates for this algorithm, where
    /// there is one: an HMAC for an HMAC identifier, and the construction
    /// that accepts nothing for a token without signature.
    pub open spec fn constructor(self) -> Option<MacConstructor> {
        match self {
            JoseAlgorithm::Hs256 => Some(MacConstructor::HmacSha256),
            JoseAlgorithm::Hs384 => Some(MacConstructor::HmacSha384),
            JoseAlgorithm::Hs512 => Some(MacConstructor::HmacSha512),
            JoseAlgorithm::Unsecured => Some(MacConstructor::NoSignature),
            _ => None,
        }
    }

    /// True of the three HMAC identifiers.
    pub open spec fn is_keyed_mac(self) -> bool {
        self == JoseAlgorithm::Hs256 || self == JoseAlgorithm::Hs384 || self
            == JoseAlgorithm::Hs512
    }
}

impl JoseAlgorithm {
    /// The identifier as a string of its own.
    pub fn identifier(self) -> (s: String)
        ensures
            s@ == self.name(),
    {
        let text: &str = match self {
            JoseAlgorithm::Hs256 => "HS256",
            JoseAlgorithm::Hs384 => "HS384",
            JoseAlgorithm::Hs512 => "HS512",
            JoseAlgorithm::Rs256 => "RS256",
            JoseAlgorithm::Rs384 => "RS384",
            JoseAlgorithm::Rs512 => "RS512",
            JoseAlgorithm::Es256 => "ES256",
            JoseAlgorithm::Es384 => "ES384",
            JoseAlgorithm::Es512 => "ES512",
            JoseAlgorithm::Ps256 => "PS256",
            JoseAlgorithm::Ps384 => "PS384",
            JoseAlgorithm::Ps512 => "PS512",
            JoseAlgorithm::Unsecured => "none",
        };
        text.to_owned()
    }
}

impl AlgorithmKind {
    /// True when this kind is the one that stands for `algorithm`: the HMAC
    /// identifiers and the no-signature identifier stand for themselves,
    /// every other identifier is unsupported and keeps its name.
    pub open spec fn describes(self, algorithm: JoseAlgorithm) -> bool {
        match self {
            AlgorithmKind::Hs256 => algorithm == JoseAlgorithm::Hs256,
            AlgorithmKind::Hs384 => algorithm == JoseAlgorithm::Hs384,
            AlgorithmKind::Hs512 => algorithm == JoseAlgorithm::Hs512,
            AlgorithmKind::NoSignature => algorithm == JoseAlgorithm::Unsecured,
            AlgorithmKind::Unsupported(name) => !algorithm.is_keyed_mac() && algorithm
                != JoseAlgorithm::Unsecured && name@ == algorithm.name(),
        }
    }

    /// The construction that `select` answers with, where it answers with one.
    pub open spec fn constructor(self) -> Option<MacConstructor> {
        match self {
            AlgorithmKind::Hs256 => Some(MacConstructor::HmacSha256),
            AlgorithmKind::Hs384 => Some(MacConstructor::HmacSha384),
            AlgorithmKind::Hs512 => Some(MacConstructor::HmacSha512),
            AlgorithmKind::NoSignature => Some(MacConstructor::NoSignature),
            AlgorithmKind::Unsupported(_) => None,
        }
    }
}

impl MacConstructor {
    /// True of the constructions that compute a MAC.
    pub open spec fn is_keyed(self) -> bool {
        self != MacConstructor::NoSignature
    }
}

/// Tells which kind a header's algorithm is.
pub fn classify(algorithm: JoseAlgorithm) -> (kind: AlgorithmKind)
    ensures
        kind.describes(algorithm),
{
    match algorithm {
        JoseAlgorithm::Hs256 => AlgorithmKind::Hs256,
        JoseAlgorithm::Hs384 => AlgorithmKind::Hs384,
        JoseAlgorithm::Hs512 => AlgorithmKind::Hs512,
        JoseAlgorithm::Unsecured => AlgorithmKind::NoSignature,
        other => AlgorithmKind::Unsupported(other.identifier()),
    }
}

/// Maps an algorithm kind to the construction that tests candidates for it.
///
/// The three HMAC kinds give their construction, the no-signature kind gives
/// the construction under which there is nothing to search for, and an
/// unsupported kind is refused with its name.
pub fn select(kind: AlgorithmKind) -> (r: Result<MacConstructor, SelectError>)
    ensures
        match kind.constructor() {
            Some(c) => r == Ok::<MacConstructor, SelectError>(c),
            None => r matches Err(SelectError::UnsupportedAlgorithm(name)) && kind
                matches AlgorithmKind::Unsupported(given) && name@ == given@,
        },
{
    match kind {
        AlgorithmKind::Hs256 => Ok(MacConstructor::HmacSha256),
        AlgorithmKind::Hs384 => Ok(MacConstructor::HmacSha384),
        AlgorithmKind::Hs512 => Ok(MacConstructor::HmacSha512),
        AlgorithmKind::NoSignature => Ok(MacConstructor::NoSignature),
        AlgorithmKind::Unsupported(name) => Err(SelectError::UnsupportedAlgorithm(name)),
    }
}

} // verus!
