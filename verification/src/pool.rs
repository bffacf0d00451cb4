//! A pool of workers that search one wordlist together.
//!
//! The workers share one board under a lock. On it stand the state of the
//! search and the wordlist, and all that the workers do to it keeps it on
//! course: what was taken from the wordlist is a prefix of it, and every
//! verdict on the board is the true one. That holds whatever the workers'
//! threads do in which order, and so the answer that is read off the board
//! at the end is right.

use rayon::iter::{IntoParallelIterator, ParallelIterator};
use std::sync::{Mutex, MutexGuard};
use vstd::prelude::*;

use crate::algorithm::MacConstructor;
use crate::candidate::candidate_of;
use crate::coordinator::{accounted, answers, line_accepted, texts};
use crate::outcome::{SearchReport, VerificationOutcome};
use crate::search::{
    held, holds, lemma_in_flight_bounds, skipped_of, SearchState, SearchView,
};
use crate::token::{Token, TokenView};
use crate::verify::{accepts, verify};

verus! {

/// `std::sync::Mutex`.
#[verifier::external_type_specification]
#[verifier::external_body]
#[verifier::reject_recursive_types(T)]
pub struct ExMutex<T: ?Sized>(Mutex<T>);

/// `std::sync::MutexGuard`.
#[verifier::external_type_specification]
#[verifier::external_body]
#[verifier::reject_recursive_types(T)]
pub struct ExMutexGuard<'a, T: ?Sized + 'a>(MutexGuard<'a, T>);

/// Calls `Mutex::new`. Nothing is claimed of the lock.
#[verifier::external_body]
fn share<T>(value: T) -> Mutex<T> {
    Mutex::new(value)
}

/// Calls `Mutex::lock` and waits for the lock. A lock that another thread
/// left poisoned is taken all the same. Nothing is claimed of what the lock
/// holds: other threads may have changed it.
#[verifier::external_body]
fn lock<'m, T>(shared: &'m Mutex<T>) -> MutexGuard<'m, T> {
    match shared.lock() {
        Ok(guard) => guard,
        Err(poisoned) => poisoned.into_inner(),
    }
}

/// Dereferences a `MutexGuard` to what the lock holds.
#[verifier::external_body]
fn locked<'g, 'm, T>(guard: &'g mut MutexGuard<'m, T>) -> &'g mut T {
    &mut *guard
}

/// Calls `Mutex::into_inner`. Nothing is claimed of the value that comes
/// out: the threads that held the lock may have changed it.
#[verifier::external_body]
fn unshare<T>(shared: Mutex<T>) -> T {
    match shared.into_inner() {
        Ok(value) => value,
        Err(poisoned) => poisoned.into_inner(),
    }
}

/// Every verdict that was reported is the true one.
spec fn truthful(state: SearchView, token: TokenView) -> bool {
    forall|i: int| #[trigger]
        state.verdicts.dom().contains(i) ==> state.verdicts[i] == line_accepted(
            state.constructor,
            state.lines[i],
            token,
        )
}

/// The state is that of a search of `lines` for a secret of `token`: what
/// it took from the wordlist is a prefix of `lines`, it has seen the end
/// only where it took them all, and its verdicts are true.
spec fn on_course(state: SearchState, token: TokenView, lines: Seq<Vec<u8>>) -> bool {
    &&& state.wf()
    &&& state@.lines.len() <= lines.len()
    &&& state@.lines == texts(lines).take(state@.lines.len() as int)
    &&& state@.exhausted ==> state@.lines.len() == lines.len()
    &&& truthful(state@, token)
}

/// Taking the next line of the wordlist, or finding it at its end, keeps
/// the search on course.
proof fn lemma_pull_on_course(
    before: SearchState,
    after: SearchState,
    token: TokenView,
    lines: Seq<Vec<u8>>,
    w: int,
)
    requires
        on_course(before, token, lines),
        before@.wants(w),
        after.wf(),
        after@ == before@.after_pull(
            w,
            if before@.lines.len() < lines.len() {
                Some(lines[before@.lines.len() as int]@)
            } else {
                None
            },
        ),
    ensures
        on_course(after, token, lines),
{
    before.lemma_wf_inv();
    assert(after@.lines =~= texts(lines).take(after@.lines.len() as int));
    assert forall|i: int| #[trigger] after@.verdicts.dom().contains(i) implies after@.lines[i]
        == before@.lines[i] by {
        assert(before@.verdicts.dom().contains(i));
    }
}

/// Reporting the true verdict on the candidate a worker holds keeps the
/// search on course.
proof fn lemma_report_on_course(
    before: SearchState,
    after: SearchState,
    token: TokenView,
    lines: Seq<Vec<u8>>,
    w: int,
    accepted: bool,
)
    requires
        on_course(before, token, lines),
        before@.is_holding(w),
        accepted == line_accepted(
            before@.constructor,
            before@.lines[before@.holding[w]->0],
            token,
        ),
        after.wf(),
        after@ == before@.after_report(w, accepted),
    ensures
        on_course(after, token, lines),
{
}

/// A verdict with what it was reached on.
struct Verdict<'a> {
    constructor: MacConstructor,
    token: &'a Token,
    candidate: Vec<u8>,
    accepted: bool,
}

impl<'a> Verdict<'a> {
    /// A verdict is the true one.
    #[verifier::type_invariant]
    spec fn sound(self) -> bool {
        self.accepted == accepts(self.constructor, self.candidate@, self.token@)
    }

    /// Tests the candidate against the token.
    fn reach(constructor: MacConstructor, token: &'a Token, candidate: Vec<u8>) -> (verdict:
        Verdict<'a>)
        ensures
            verdict.constructor == constructor,
            verdict.token == token,
            verdict.candidate == candidate,
            verdict.accepted == accepts(constructor, candidate@, token@),
    {
        let accepted = verify(constructor, candidate.as_slice(), token);
        Verdict { constructor, token, candidate, accepted }
    }
}

/// What a worker is told when it asks for work.
enum Claim {
    /// The search is over for this worker.
    Done,
    /// The worker is to ask again.
    Again,
    /// The worker is to test this candidate.
    Test(Vec<u8>),
}

/// What the workers share: the state of the search and the wordlist.
struct Board<'a> {
    state: SearchState,
    token: &'a Token,
    lines: &'a Vec<Vec<u8>>,
}

fn same_bytes(a: &Vec<u8>, b: &Vec<u8>) -> (same: bool)
    ensures
        same == (a@ == b@),
{
    if a.len() != b.len() {
        return false;
    }
    let mut i: usize = 0;
    while i < a.len()
        invariant
            a.len() == b.len(),
            i <= a.len(),
            a@.take(i as int) == b@.take(i as int),
        decreases a.len() - i,
    {
        if a[i] != b[i] {
            return false;
        }
        i = i + 1;
        assert(a@.take(i as int) =~= a@.take(i - 1).push(a@[i - 1]));
        assert(b@.take(i as int) =~= b@.take(i - 1).push(b@[i - 1]));
    }
    assert(a@ =~= a@.take(i as int) && b@ =~= b@.take(i as int));
    true
}

impl<'a> Board<'a> {
    #[verifier::type_invariant]
    spec fn kept(self) -> bool {
        on_course(self.state, self.token@, self.lines@)
    }

    fn new(
        constructor: MacConstructor,
        token: &'a Token,
        lines: &'a Vec<Vec<u8>>,
        workers: usize,
    ) -> (board: Board<'a>)
        ensures
            board.state@.constructor == constructor,
            board.state@.workers() == workers,
            board.token == token,
            board.lines == lines,
    {
        let state = SearchState::new(constructor, workers);
        proof {
            SearchView::lemma_initial_inv(constructor, workers as nat);
            assert(state@.lines =~= texts(lines@).take(0));
        }
        Board { state, token, lines }
    }

    /// Takes the board out from behind a reference and leaves a board of a
    /// search that nobody runs in its place.
    fn take(&mut self) -> (board: Board<'a>)
        ensures
            board == *old(self),
    {
        let mut board = Board::new(MacConstructor::NoSignature, self.token, self.lines, 0);
        std::mem::swap(self, &mut board);
        board
    }

    /// Puts a board behind a reference.
    fn put(&mut self, board: Board<'a>)
        ensures
            *final(self) == board,
    {
        let mut board = board;
        std::mem::swap(self, &mut board);
    }

    /// What the wordlist gives next: the line after those that were taken,
    /// or nothing at its end.
    spec fn next_line(self) -> Option<Seq<u8>> {
        if self.state@.lines.len() < self.lines@.len() {
            Some(self.lines@[self.state@.lines.len() as int]@)
        } else {
            None
        }
    }

    /// Hands worker `w` its next candidate: the cancellation flag is looked
    /// at and the cursor moved in one step. A worker that is not to go on is
    /// told so, and nothing changes. Any other worker takes the next line:
    /// where that gives a candidate, the worker is handed the candidate,
    /// and where the line is skipped or the wordlist at its end, it is to
    /// ask again.
    fn claim(&mut self, w: usize) -> (claim: Claim)
        ensures
            final(self).token == old(self).token,
            final(self).lines == old(self).lines,
            !old(self).state@.wants(w as int) ==> claim is Done && final(self).state@ == old(
                self,
            ).state@,
            old(self).state@.wants(w as int) ==> final(self).state@ == old(self).state@.after_pull(
                w as int,
                old(self).next_line(),
            ) && match final(self).state@.holding[w as int] {
                Some(i) => claim matches Claim::Test(candidate) && candidate_of(
                    final(self).state@.lines[i],
                ) == Some(candidate@),
                None => claim is Again,
            },
    {
        let board = self.take();
        proof {
            use_type_invariant(&board);
        }
        let Board { state, token, lines } = board;
        let mut state = state;
        let claim = if !state.wants(w) {
            Claim::Done
        } else {
            let ghost before = state;
            let cursor: usize = state.pulled() as usize;
            if cursor < lines.len() {
                state.pull(w, Some(lines[cursor].as_slice()));
            } else {
                state.pull(w, None);
            }
            proof {
                lemma_pull_on_course(before, state, token@, lines@, w as int);
            }
            match state.candidate(w) {
                Some(candidate) => {
                    let held = candidate.clone();
                    assert(held@ =~= candidate@);
                    Claim::Test(held)
                },
                None => Claim::Again,
            }
        };
        self.put(Board { state, token, lines });
        claim
    }

    /// Records the verdict of worker `w` where it was reached on the candidate
    /// that the worker holds here, on this token; any other verdict is dropped.
    fn settle(&mut self, w: usize, verdict: Verdict<'a>)
        ensures
            final(self).token == old(self).token,
            final(self).lines == old(self).lines,
            final(self).state@ == old(self).after_verdict(w as int, verdict),
    {
        let board = self.take();
        proof {
            use_type_invariant(&verdict);
            use_type_invariant(&board);
        }
        let Board { mut state, token, lines } = board;
        let holds_it = w < state.workers() && verdict.constructor == state.constructor()
            && verdict.token.same(token) && match state.candidate(w) {
            Some(candidate) => same_bytes(candidate, &verdict.candidate),
            None => false,
        };
        if holds_it {
            let ghost before = state;
            state.report(w, verdict.accepted);
            proof {
                lemma_report_on_course(before, state, token@, lines@, w as int, verdict.accepted);
            }
        }
        self.put(Board { state, token, lines });
    }

    /// True when this is the board of the search for a secret of `token`
    /// among `lines` under `constructor` with `workers` workers: it has these
    /// and the same token and wordlist, segment by segment, line by line.
    fn serves(
        &self,
        constructor: MacConstructor,
        token: &Token,
        lines: &Vec<Vec<u8>>,
        workers: usize,
    ) -> (serves: bool)
        ensures
            serves == (self.state@.constructor == constructor && self.state@.workers() == workers
                && self.token@ == token@ && texts(self.lines@) == texts(lines@)),
    {
        proof {
            use_type_invariant(self);
        }
        self.state.constructor() == constructor && self.state.workers() == workers
            && self.token.same(token) && same_texts(self.lines, lines)
    }

    /// The state of the search after a verdict of worker `w` came in: a
    /// verdict that the board takes is reported, any other changes nothing.
    spec fn after_verdict(self, w: int, verdict: Verdict<'a>) -> SearchView {
        if self.takes(w, verdict) {
            self.state@.after_report(w, verdict.accepted)
        } else {
            self.state@
        }
    }

    /// True when the board takes the verdict of worker `w`: the verdict was
    /// reached under the construction of this search, on its token, and on
    /// the candidate that the worker holds.
    spec fn takes(self, w: int, verdict: Verdict<'a>) -> bool {
        &&& 0 <= w < self.state@.workers()
        &&& verdict.constructor == self.state@.constructor
        &&& verdict.token@ == self.token@
        &&& self.state@.holding[w] matches Some(i) && candidate_of(self.state@.lines[i]) == Some(
            verdict.candidate@,
        )
    }
}

/// Compares two wordlists line by line.
fn same_texts(a: &Vec<Vec<u8>>, b: &Vec<Vec<u8>>) -> (same: bool)
    ensures
        same == (texts(a@) == texts(b@)),
{
    if a.len() != b.len() {
        assert(texts(a@).len() != texts(b@).len());
        return false;
    }
    let mut i: usize = 0;
    while i < a.len()
        invariant
            a.len() == b.len(),
            i <= a.len(),
            forall|j: int| 0 <= j < i ==> a@[j]@ == b@[j]@,
        decreases a.len() - i,
    {
        if !same_bytes(&a[i], &b[i]) {
            assert(texts(a@)[i as int] != texts(b@)[i as int]);
            return false;
        }
        i = i + 1;
    }
    assert(texts(a@) =~= texts(b@));
    true
}

/// Whether a search is on course depends on the wordlist by its lines as
/// sequences of bytes alone.
proof fn lemma_on_course_by_texts(
    state: SearchState,
    token: TokenView,
    lines: Seq<Vec<u8>>,
    others: Seq<Vec<u8>>,
)
    requires
        on_course(state, token, lines),
        texts(lines) == texts(others),
    ensures
        on_course(state, token, others),
{
    assert(texts(lines).len() == lines.len() && texts(others).len() == others.len());
}

/// Brings a search to its end on one thread and reports: each worker that
/// holds a candidate tests it, and then each free worker takes a line, turn
/// by turn, until the search is over. On a search that has ended already
/// this only reads the outcome.
fn complete(state: SearchState, token: &Token, lines: &Vec<Vec<u8>>) -> (report: SearchReport)
    requires
        on_course(state, token@, lines@),
        state@.workers() >= 1,
    ensures
        answers(state@.constructor, token@, texts(lines@), report.outcome),
        accounted(texts(lines@), state@.workers(), report),
{
    let mut current = state;
    let constructor = current.constructor();
    let pool = current.workers();
    loop
        invariant
            pool >= 1,
            on_course(current, token@, lines@),
            current@.constructor == constructor,
            constructor == state@.constructor,
            current@.workers() == pool,
            pool == state@.workers(),
        decreases lines.len() - current@.lines.len() + if current@.exhausted { 0int } else { 1int },
    {
        let ghost taken = current@.lines.len();
        let ghost ended = current@.exhausted;
        for w in 0..pool
            invariant
                on_course(current, token@, lines@),
                current@.constructor == constructor,
                current@.workers() == pool,
                current@.lines.len() == taken,
                current@.exhausted == ended,
                forall|u: int| 0 <= u < w ==> current@.holding[u] is None,
        {
            let verdict = match current.candidate(w) {
                Some(candidate) => Some(verify(constructor, candidate.as_slice(), token)),
                None => None,
            };
            match verdict {
                Some(accepted) => {
                    let ghost before = current;
                    current.report(w, accepted);
                    proof {
                        lemma_report_on_course(before, current, token@, lines@, w as int, accepted);
                    }
                },
                None => {},
            }
        }
        proof {
            lemma_in_flight_bounds(current@.holding);
        }
        match current.outcome() {
            Some(outcome) => {
                proof {
                    lemma_settled(current, token@, lines@, outcome);
                }
                return SearchReport {
                    outcome,
                    pulled: current.pulled(),
                    skipped: current.skipped(),
                    tested: current.tested(),
                    overscan: current.overscan(),
                };
            },
            None => {},
        }
        for w in 0..pool
            invariant
                on_course(current, token@, lines@),
                current@.constructor == constructor,
                current@.workers() == pool,
                !ended,
                w == 0 ==> current@.wants(0) && current@.lines.len() == taken,
                w >= 1 ==> current@.lines.len() > taken || current@.exhausted,
        {
            if current.wants(w) {
                let ghost before = current;
                let cursor: usize = current.pulled() as usize;
                if cursor < lines.len() {
                    current.pull(w, Some(lines[cursor].as_slice()));
                } else {
                    current.pull(w, None);
                }
                proof {
                    lemma_pull_on_course(before, current, token@, lines@, w as int);
                }
            }
        }
    }
}

/// A search that has ended, with no candidate in flight, has the right
/// answer and the right counts.
proof fn lemma_settled(
    state: SearchState,
    token: TokenView,
    lines: Seq<Vec<u8>>,
    outcome: VerificationOutcome,
)
    requires
        state@.workers() >= 1,
        on_course(state, token, lines),
        state@.in_flight() == 0,
        match outcome {
            VerificationOutcome::Found(secret) => state@.winner matches Some(i) && candidate_of(
                state@.lines[i],
            ) == Some(secret@),
            VerificationOutcome::NotFound => state@.constructor.is_keyed() && state@.winner is None
                && state@.exhausted,
            VerificationOutcome::NothingToCrack => !state@.constructor.is_keyed(),
            VerificationOutcome::Error(_) => false,
        },
    ensures
        answers(state@.constructor, token, texts(lines), outcome),
        state@.lines.len() == state@.skipped + state@.tested,
        state@.lines.len() <= lines.len(),
        state@.skipped == skipped_of(texts(lines).take(state@.lines.len() as int)),
        match outcome {
            VerificationOutcome::Found(_) => state@.overscan + 1 <= state@.tested
                && state@.overscan + 1 <= state@.workers(),
            VerificationOutcome::NotFound => state@.lines.len() == lines.len() && state@.overscan
                == 0,
            _ => state@.lines.len() == 0 && state@.overscan == 0,
        },
{
    state.lemma_wf_inv();
    let v = state@;
    lemma_in_flight_bounds(v.holding);
    match outcome {
        VerificationOutcome::Found(secret) => {
            let i = v.winner->0;
            assert(v.verdicts.dom().contains(i));
            assert(texts(lines)[i] == v.lines[i]);
        },
        VerificationOutcome::NotFound => {
            assert(v.lines =~= texts(lines));
            assert forall|i: int| 0 <= i < lines.len() implies !line_accepted(
                v.constructor,
                #[trigger] texts(lines)[i],
                token,
            ) by {
                if candidate_of(v.lines[i]) is Some {
                    if held(v.holding, i) {
                        let w = choose|w: int| holds(v.holding, w, i);
                        assert(v.holding[w] is None);
                    }
                    assert(v.verdicts.dom().contains(i));
                }
            }
        },
        _ => {},
    }
}

/// One worker: it asks the board for a candidate, tests it with the lock
/// released, and reports, until the board tells it that the search is over.
/// It asks no more often than the wordlist has lines, and once more.
fn work<'a>(
    w: usize,
    constructor: MacConstructor,
    token: &'a Token,
    budget: usize,
    shared: &Mutex<Board<'a>>,
) {
    let mut left: usize = budget;
    loop
        decreases left,
    {
        let claim = {
            let mut guard = lock(shared);
            locked(&mut guard).claim(w)
        };
        match claim {
            Claim::Done => {
                return ;
            },
            Claim::Again => {},
            Claim::Test(candidate) => {
                let verdict = Verdict::reach(constructor, token, candidate);
                let mut guard = lock(shared);
                locked(&mut guard).settle(w, verdict);
            },
        }
        if left == 0 {
            return ;
        }
        left = left - 1;
    }
}

/// Runs `workers` workers on the threads of rayon's pool, with
/// `IntoParallelIterator::into_par_iter` on the range of their numbers and
/// `ParallelIterator::for_each`, and returns when all of them have returned.
#[verifier::external_body]
fn run_workers<'a>(
    workers: usize,
    constructor: MacConstructor,
    token: &'a Token,
    budget: usize,
    shared: &Mutex<Board<'a>>,
) {
    (0..workers).into_par_iter().for_each(|w| work(w, constructor, token, budget, shared));
}

/// Searches `lines` with `workers` workers side by side.
///
/// The board goes behind a lock, the workers run on it, and when all of them
/// have returned the board is taken out again and the outcome read off it.
/// Of what comes out of the lock only its invariant is known, so two things
/// are made sure before the outcome is read: that it is the board of this
/// search, by the token and the wordlist that it holds, and that the search
/// on it has ended. A search that the workers left unfinished is brought to
/// its end here.
pub(crate) fn run(
    constructor: MacConstructor,
    token: &Token,
    lines: &Vec<Vec<u8>>,
    workers: usize,
) -> (report: SearchReport)
    requires
        workers >= 1,
    ensures
        answers(constructor, token@, texts(lines@), report.outcome),
        accounted(texts(lines@), workers as nat, report),
{
    let shared = share(Board::new(constructor, token, lines, workers));
    run_workers(workers, constructor, token, lines.len(), &shared);
    let board = unshare(shared);
    let board = if board.serves(constructor, token, lines, workers) {
        board
    } else {
        Board::new(constructor, token, lines, workers)
    };
    proof {
        use_type_invariant(&board);
        lemma_on_course_by_texts(board.state, token@, board.lines@, lines@);
    }
    complete(board.state, token, lines)
}

} // verus!
