//! Running a search to its end over a wordlist held in memory.

use vstd::prelude::*;

use crate::algorithm::{select, MacConstructor, SelectError};
use crate::candidate::candidate_of;
use crate::jose::header_algorithm;
use crate::outcome::{ErrorKind, SearchReport, VerificationOutcome};
use crate::pool::run;
use crate::search::{lemma_none_skipped, skipped_of};
use crate::token::{defect, parse, token_of, ParseError, Token, TokenView};
use crate::verify::accepts;

verus! {

/// The lines of a wordlist as sequences of bytes.
pub open spec fn texts(lines: Seq<Vec<u8>>) -> Seq<Seq<u8>> {
    Seq::new(lines.len(), |i: int| lines[i]@)
}

/// True when the line gives a candidate and the token accepts it.
pub open spec fn line_accepted(constructor: MacConstructor, line: Seq<u8>, token: TokenView) -> bool {
    candidate_of(line) matches Some(secret) && accepts(constructor, secret, token)
}

/// True when `outcome` is a right answer to the search for a secret of
/// `token` among `lines`: a secret that was found is the candidate of one of
/// the lines and is accepted; none is found only where no line is accepted;
/// and there is nothing to crack exactly where the token is not signed.
pub open spec fn answers(
    constructor: MacConstructor,
    token: TokenView,
    lines: Seq<Seq<u8>>,
    outcome: VerificationOutcome,
) -> bool {
    match outcome {
        VerificationOutcome::Found(secret) => constructor.is_keyed() && exists|i: int|
            0 <= i < lines.len() && candidate_of(#[trigger] lines[i]) == Some(secret@) && accepts(
                constructor,
                secret@,
                token,
            ),
        VerificationOutcome::NotFound => constructor.is_keyed() && forall|i: int|
            0 <= i < lines.len() ==> !line_accepted(constructor, #[trigger] lines[i], token),
        VerificationOutcome::NothingToCrack => !constructor.is_keyed(),
        VerificationOutcome::Error(_) => false,
    }
}

/// True when the counts of a report fit its outcome and a pool of `workers`
/// workers on `lines`: the lines that were taken are the first of the
/// wordlist, those of them that give no candidate were skipped, and each of
/// the others was tested once.
pub open spec fn accounted(lines: Seq<Seq<u8>>, workers: nat, report: SearchReport) -> bool {
    &&& report.pulled <= lines.len()
    &&& report.skipped == skipped_of(lines.take(report.pulled as int))
    &&& report.pulled == report.skipped + report.tested
    &&& match report.outcome {
        VerificationOutcome::Found(_) => report.overscan + 1 <= report.tested && report.overscan
            + 1 <= workers,
        VerificationOutcome::NotFound => report.pulled == lines.len() && report.overscan == 0,
        _ => report.pulled == 0 && report.overscan == 0,
    }
}

/// Searches `lines` for a secret that the token accepts, with a pool of
/// `workers` workers side by side, and reports how the search ended.
///
/// Where the token is not signed the answer is given at once and no line is
/// taken. Otherwise each worker, as long as the cancellation flag is unset,
/// takes the next line and tests its candidate. The first accepting verdict
/// sets the flag; the workers that hold a candidate at that moment finish
/// it, and no further line is taken. A line that gives no candidate is
/// skipped. In which order the workers get their lines is not determined,
/// and so neither is which secret is found where the token accepts several.
/// A pool has at least one worker.
pub fn search(constructor: MacConstructor, token: &Token, lines: &Vec<Vec<u8>>, workers: usize) -> (report:
    SearchReport)
    ensures
        answers(constructor, token@, texts(lines@), report.outcome),
        accounted(
            texts(lines@),
            if workers == 0 {
                1nat
            } else {
                workers as nat
            },
            report,
        ),
{
    run(constructor, token, lines, if workers == 0 { 1 } else { workers })
}

/// A report of a search that was never begun.
pub open spec fn untouched(report: SearchReport) -> bool {
    report.pulled == 0 && report.skipped == 0 && report.tested == 0 && report.overscan == 0
}

/// True when `report` is a right report on the text `text` and the
/// wordlist `lines`: a text that is no token, a header that does not decode
/// and an algorithm that is no keyed MAC are each reported as the error they
/// are, with no line taken; any other text is searched.
pub open spec fn reports(text: Seq<char>, lines: Seq<Seq<u8>>, workers: nat, report: SearchReport) -> bool {
    match defect(text) {
        Some(d) => report.outcome == VerificationOutcome::Error(ErrorKind::MalformedToken(d))
            && untouched(report),
        None => match header_algorithm(token_of(text).header) {
            None => report.outcome == VerificationOutcome::Error(ErrorKind::MalformedHeader)
                && untouched(report),
            Some(algorithm) => match algorithm.constructor() {
                Some(constructor) => answers(constructor, token_of(text), lines, report.outcome)
                    && accounted(lines, workers, report),
                None => report.outcome matches VerificationOutcome::Error(
                    ErrorKind::UnsupportedAlgorithm(name),
                ) && name@ == algorithm.name() && untouched(report),
            },
        },
    }
}

fn refused(kind: ErrorKind) -> (report: SearchReport)
    ensures
        report.outcome == VerificationOutcome::Error(kind),
        untouched(report),
{
    SearchReport {
        outcome: VerificationOutcome::Error(kind),
        pulled: 0,
        skipped: 0,
        tested: 0,
        overscan: 0,
    }
}

/// Takes a token as text and finds out how it is signed: the token is
/// parsed and the construction for its algorithm selected. A text that is
/// no token, a header that does not decode and an algorithm that is no
/// keyed MAC are each refused as the error they are.
pub fn prepare(text: &str) -> (r: Result<(Token, MacConstructor), ErrorKind>)
    ensures
        match defect(text@) {
            Some(d) => r matches Err(e) && e == ErrorKind::MalformedToken(d),
            None => match header_algorithm(token_of(text@).header) {
                None => r matches Err(e) && e == ErrorKind::MalformedHeader,
                Some(algorithm) => match algorithm.constructor() {
                    Some(constructor) => r matches Ok(ready) && ready.0@ == token_of(text@)
                        && ready.0@.well_formed() && ready.1 == constructor,
                    None => r matches Err(ErrorKind::UnsupportedAlgorithm(name)) && name@
                        == algorithm.name(),
                },
            },
        },
{
    match parse(text) {
        Err(ParseError::MalformedToken(d)) => Err(ErrorKind::MalformedToken(d)),
        Err(ParseError::MalformedHeader) => Err(ErrorKind::MalformedHeader),
        Ok((token, kind)) => match select(kind) {
            Err(SelectError::UnsupportedAlgorithm(name)) => Err(
                ErrorKind::UnsupportedAlgorithm(name),
            ),
            Ok(constructor) => Ok((token, constructor)),
        },
    }
}

/// Takes a token as text, finds out how it is signed, and searches `lines`
/// for its secret with a pool of `workers` workers.
///
/// The token is parsed and its algorithm selected once, before any line is
/// taken: what is wrong with the token itself no candidate can mend.
pub fn crack(text: &str, lines: &Vec<Vec<u8>>, workers: usize) -> (report: SearchReport)
    ensures
        reports(
            text@,
            texts(lines@),
            if workers == 0 {
                1nat
            } else {
                workers as nat
            },
            report,
        ),
{
    match prepare(text) {
        Err(kind) => refused(kind),
        Ok((token, constructor)) => search(constructor, &token, lines, workers),
    }
}

/// A secret that stands in the wordlist is found, wherever it stands and
/// however many workers search: if the token accepts the candidate of one
/// line, and no other candidate among the lines, then every right answer is
/// that candidate.
pub proof fn lemma_known_secret_is_found(
    constructor: MacConstructor,
    token: TokenView,
    lines: Seq<Seq<u8>>,
    place: int,
    outcome: VerificationOutcome,
)
    requires
        answers(constructor, token, lines, outcome),
        0 <= place < lines.len(),
        line_accepted(constructor, lines[place], token),
        forall|i: int|
            0 <= i < lines.len() && line_accepted(constructor, #[trigger] lines[i], token)
                ==> candidate_of(lines[i]) == candidate_of(lines[place]),
    ensures
        outcome matches VerificationOutcome::Found(secret) && Some(secret@) == candidate_of(
            lines[place],
        ),
{
}

/// A wordlist without the secret is consumed exactly once: if every line
/// gives a candidate and the token accepts none of them, then every right
/// report says that no secret was found, that all lines were taken, and
/// that each was tested once and none skipped.
pub proof fn lemma_absent_secret_consumes_all(
    constructor: MacConstructor,
    token: TokenView,
    lines: Seq<Seq<u8>>,
    workers: nat,
    report: SearchReport,
)
    requires
        answers(constructor, token, lines, report.outcome),
        accounted(lines, workers, report),
        constructor.is_keyed(),
        forall|i: int| 0 <= i < lines.len() ==> candidate_of(#[trigger] lines[i]) is Some,
        forall|i: int| 0 <= i < lines.len() ==> !line_accepted(constructor, #[trigger] lines[i], token),
    ensures
        report.outcome == VerificationOutcome::NotFound,
        report.pulled == lines.len(),
        report.tested == lines.len(),
        report.skipped == 0,
        report.overscan == 0,
{
    assert(lines.take(lines.len() as int) =~= lines);
    lemma_none_skipped(lines);
}

/// A secret that does not stand in the wordlist is not found: if the token
/// accepts the candidate of no line, every right answer is that none was
/// found, unless the token is not signed at all.
pub proof fn lemma_absent_secret_is_not_found(
    constructor: MacConstructor,
    token: TokenView,
    lines: Seq<Seq<u8>>,
    outcome: VerificationOutcome,
)
    requires
        answers(constructor, token, lines, outcome),
        constructor.is_keyed(),
        forall|i: int| 0 <= i < lines.len() ==> !line_accepted(constructor, #[trigger] lines[i], token),
    ensures
        outcome == VerificationOutcome::NotFound,
{
}

/// A wordlist may be searched in parts: where the search of each part is
/// answered rightly, the joined report answers the search of the whole.
pub proof fn lemma_parts_answer_the_whole(
    constructor: MacConstructor,
    token: TokenView,
    first: Seq<Seq<u8>>,
    second: Seq<Seq<u8>>,
    so_far: SearchReport,
    next: SearchReport,
)
    requires
        answers(constructor, token, first, so_far.outcome),
        answers(constructor, token, second, next.outcome),
    ensures
        answers(constructor, token, first + second, so_far.joined(next).outcome),
{
    let whole = first + second;
    match so_far.outcome {
        VerificationOutcome::Found(secret) => {
            let i = choose|i: int|
                0 <= i < first.len() && candidate_of(#[trigger] first[i]) == Some(secret@);
            assert(whole[i] == first[i]);
        },
        VerificationOutcome::NotFound => {
            match next.outcome {
                VerificationOutcome::Found(secret) => {
                    let i = choose|i: int|
                        0 <= i < second.len() && candidate_of(#[trigger] second[i]) == Some(
                            secret@,
                        );
                    assert(whole[first.len() + i] == second[i]);
                },
                VerificationOutcome::NotFound => {
                    assert forall|i: int| 0 <= i < whole.len() implies !line_accepted(
                        constructor,
                        #[trigger] whole[i],
                        token,
                    ) by {
                        if i < first.len() {
                            assert(whole[i] == first[i]);
                        } else {
                            assert(whole[i] == second[i - first.len()]);
                        }
                    }
                },
                _ => {},
            }
        },
        _ => {},
    }
}

} // verus!
