//! What a search reports.

use vstd::prelude::*;

use crate::token::TokenDefect;

verus! {

/// Why no search was run.
#[derive(Clone, Debug, PartialEq, Eq)]
pub enum ErrorKind {
    /// The text is not three non-empty segments.
    MalformedToken(TokenDefect),
    /// The header segment does not decode to a header with a known algorithm.
    MalformedHeader,
    /// The header names an algorithm that is not a keyed MAC.
    UnsupportedAlgorithm(String),
}

/// How a search ended. Every search ends in exactly one of these.
#[derive(Clone, Debug, PartialEq, Eq)]
pub enum VerificationOutcome {
    /// A candidate was accepted: the token was signed with this secret.
    Found(Vec<u8>),
    /// The wordlist ran out and no candidate was accepted.
    NotFound,
    /// The token carries no signature, so there is nothing to search for.
    NothingToCrack,
    /// The token could not be searched at all.
    Error(ErrorKind),
}

/// An outcome with the counts of the search that led to it.
#[derive(Clone, Debug, PartialEq, Eq)]
pub struct SearchReport {
    pub outcome: VerificationOutcome,
    /// Lines taken from the wordlist.
    pub pulled: u64,
    /// Lines that gave no candidate.
    pub skipped: u64,
    /// Candidates that were tested.
    pub tested: u64,
    /// Candidates that were tested after the accepted one was found.
    pub overscan: u64,
}

/// The exit status that stands for an outcome.
pub open spec fn exit_status_of(outcome: VerificationOutcome) -> u8 {
    match outcome {
        VerificationOutcome::Found(_) => 0,
        VerificationOutcome::NothingToCrack => 0,
        VerificationOutcome::NotFound => 1,
        VerificationOutcome::Error(_) => 2,
    }
}

/// The exit status a program ends with after a search: 0 where a secret was
/// found or there was nothing to search for, 1 where the wordlist ran out,
/// 2 where the token could not be searched.
pub fn exit_status(outcome: &VerificationOutcome) -> (status: u8)
    ensures
        status == exit_status_of(*outcome),
{
    match outcome {
        VerificationOutcome::Found(_) => 0,
        VerificationOutcome::NothingToCrack => 0,
        VerificationOutcome::NotFound => 1,
        VerificationOutcome::Error(_) => 2,
    }
}

/// The sum of two counts, or the largest count where the sum is beyond it.
pub open spec fn capped_sum(a: u64, b: u64) -> u64 {
    if a + b <= u64::MAX {
        (a + b) as u64
    } else {
        u64::MAX
    }
}

fn sum(a: u64, b: u64) -> (total: u64)
    ensures
        total == capped_sum(a, b),
{
    if a <= u64::MAX - b {
        a + b
    } else {
        u64::MAX
    }
}

impl SearchReport {
    /// True when the search need not go on with more of the wordlist: it
    /// ended in anything but the wordlist running out.
    pub open spec fn settled(self) -> bool {
        self.outcome != VerificationOutcome::NotFound
    }

    /// The report on a wordlist that is searched in two parts, `self` on
    /// the first and `next` on the second. A settled report stands as it
    /// is; one that found nothing gives way to the outcome of the second
    /// part, with the lines of both counted.
    pub open spec fn joined(self, next: SearchReport) -> SearchReport {
        if self.settled() {
            self
        } else {
            SearchReport {
                outcome: next.outcome,
                pulled: capped_sum(self.pulled, next.pulled),
                skipped: capped_sum(self.skipped, next.skipped),
                tested: capped_sum(self.tested, next.tested),
                overscan: next.overscan,
            }
        }
    }

    /// Whether the search is over, or is to go on with the next part of the
    /// wordlist.
    pub fn is_settled(&self) -> (settled: bool)
        ensures
            settled == self.settled(),
    {
        match self.outcome {
            VerificationOutcome::NotFound => false,
            _ => true,
        }
    }

    /// Joins the report on the wordlist so far with the report on its next
    /// part.
    pub fn followed_by(self, next: SearchReport) -> (report: SearchReport)
        ensures
            report == self.joined(next),
    {
        if self.is_settled() {
            self
        } else {
            SearchReport {
                outcome: next.outcome,
                pulled: sum(self.pulled, next.pulled),
                skipped: sum(self.skipped, next.skipped),
                tested: sum(self.tested, next.tested),
                overscan: next.overscan,
            }
        }
    }
}

} // verus!
