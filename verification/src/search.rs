//! The coordination of a search: a cancellation flag, a cursor over the
//! wordlist, and the workers that test its lines.
//!
//! The rules are written down twice. `SearchView` is the search as a
//! mathematical state with its transitions, its invariant and the laws that
//! follow from it. `SearchState` is the state a driver keeps, under one lock
//! when it runs its workers as threads: it decides, and the driver acts.

use vstd::prelude::*;

use crate::algorithm::MacConstructor;
use crate::candidate::{candidate_from_line, candidate_of};
use crate::outcome::VerificationOutcome;

verus! {

/// Where a search stands.
#[derive(Clone, Copy, Debug, PartialEq, Eq, Structural)]
pub enum Phase {
    /// Nothing was taken from the wordlist yet.
    Idle,
    /// Lines are being handed out and tested.
    Scanning,
    /// A candidate was accepted.
    Found,
    /// The wordlist ran out and every candidate was refused.
    NotFound,
    /// The token carries no signature: no secret is meaningful.
    NothingToCrack,
}

/// How many workers hold a line.
pub open spec fn in_flight_of(holding: Seq<Option<int>>) -> nat
    decreases holding.len(),
{
    if holding.len() == 0 {
        0
    } else {
        in_flight_of(holding.drop_last()) + if holding.last() is Some {
            1nat
        } else {
            0nat
        }
    }
}

/// How many of the lines give no candidate.
pub open spec fn skipped_of(lines: Seq<Seq<u8>>) -> nat
    decreases lines.len(),
{
    if lines.len() == 0 {
        0
    } else {
        skipped_of(lines.drop_last()) + if candidate_of(lines.last()) is None {
            1nat
        } else {
            0nat
        }
    }
}

/// Worker `w` is testing line `i`.
pub open spec fn holds(holding: Seq<Option<int>>, w: int, i: int) -> bool {
    0 <= w < holding.len() && holding[w] == Some(i)
}

/// Some worker is testing line `i`.
pub open spec fn held(holding: Seq<Option<int>>, i: int) -> bool {
    exists|w: int| holds(holding, w, i)
}

/// A search as a mathematical state.
pub struct SearchView {
    pub constructor: MacConstructor,
    /// The lines taken from the wordlist so far, in the order they were taken.
    pub lines: Seq<Seq<u8>>,
    /// For each worker, the place in `lines` of the line it is testing.
    pub holding: Seq<Option<int>>,
    /// The verdicts that workers reported, by the place of the line.
    pub verdicts: Map<int, bool>,
    /// The cancellation flag: unset, or set by the verdict on this line.
    pub winner: Option<int>,
    /// A worker found the wordlist at its end.
    pub exhausted: bool,
    /// How many lines gave no candidate.
    pub skipped: nat,
    /// How many verdicts were reported.
    pub tested: nat,
    /// How many verdicts were reported after the flag was set.
    pub overscan: nat,
}

impl SearchView {
    pub open spec fn workers(self) -> nat {
        self.holding.len()
    }

    pub open spec fn in_flight(self) -> nat {
        in_flight_of(self.holding)
    }

    /// Line `i` gave a candidate that was refused.
    pub open spec fn refused(self, i: int) -> bool {
        self.verdicts.dom().contains(i) && !self.verdicts[i]
    }

    /// The state before anything happened.
    pub open spec fn initial(constructor: MacConstructor, workers: nat) -> SearchView {
        SearchView {
            constructor,
            lines: Seq::empty(),
            holding: Seq::new(workers, |w: int| None::<int>),
            verdicts: Map::empty(),
            winner: None,
            exhausted: false,
            skipped: 0,
            tested: 0,
            overscan: 0,
        }
    }

    /// Worker `w` is to take the next line: it is free, the flag is unset,
    /// the wordlist has not run out, and there is something to search for.
    pub open spec fn wants(self, w: int) -> bool {
        &&& 0 <= w < self.holding.len()
        &&& self.holding[w] is None
        &&& self.constructor.is_keyed()
        &&& self.winner is None
        &&& !self.exhausted
    }

    /// Worker `w` owes a verdict.
    pub open spec fn is_holding(self, w: int) -> bool {
        0 <= w < self.holding.len() && self.holding[w] is Some
    }

    /// The state after worker `w` asked the wordlist for its next line. At
    /// the end of the wordlist the search is exhausted. A line that gives a
    /// candidate is now held by the worker; one that gives none is skipped.
    pub open spec fn after_pull(self, w: int, next: Option<Seq<u8>>) -> SearchView {
        match next {
            None => SearchView { exhausted: true, ..self },
            Some(line) => if candidate_of(line) is Some {
                SearchView {
                    lines: self.lines.push(line),
                    holding: self.holding.update(w, Some(self.lines.len() as int)),
                    ..self
                }
            } else {
                SearchView { lines: self.lines.push(line), skipped: self.skipped + 1, ..self }
            },
        }
    }

    /// The state after worker `w` reported its verdict. The first accepting
    /// verdict sets the flag; a verdict that arrives after that counts as
    /// over-scan and changes nothing else.
    pub open spec fn after_report(self, w: int, accepted: bool) -> SearchView {
        let i = self.holding[w]->0;
        SearchView {
            holding: self.holding.update(w, None),
            verdicts: self.verdicts.insert(i, accepted),
            winner: if self.winner is None && accepted {
                Some(i)
            } else {
                self.winner
            },
            tested: self.tested + 1,
            overscan: if self.winner is Some {
                self.overscan + 1
            } else {
                self.overscan
            },
            ..self
        }
    }

    pub open spec fn phase(self) -> Phase {
        if !self.constructor.is_keyed() {
            Phase::NothingToCrack
        } else if self.winner is Some {
            Phase::Found
        } else if self.exhausted && self.in_flight() == 0 {
            Phase::NotFound
        } else if self.lines.len() == 0 && !self.exhausted {
            Phase::Idle
        } else {
            Phase::Scanning
        }
    }

    /// What holds of every state of a search.
    pub open spec fn inv(self) -> bool {
        &&& forall|w: int, i: int| #[trigger]
            holds(self.holding, w, i) ==> 0 <= i < self.lines.len() && !self.verdicts.dom().contains(i)
                && candidate_of(self.lines[i]) is Some
        &&& forall|v: int, w: int, i: int| #[trigger]
            holds(self.holding, v, i) && #[trigger] holds(self.holding, w, i) ==> v == w
        &&& forall|i: int| #[trigger]
            self.verdicts.dom().contains(i) ==> 0 <= i < self.lines.len() && candidate_of(
                self.lines[i],
            ) is Some
        &&& forall|i: int|
            0 <= i < self.lines.len() ==> candidate_of(#[trigger] self.lines[i]) is None
                || self.verdicts.dom().contains(i) || held(self.holding, i)
        &&& self.winner matches Some(i) ==> self.verdicts.dom().contains(i) && self.verdicts[i]
        &&& self.winner is None ==> self.overscan == 0 && forall|i: int| #[trigger]
            self.verdicts.dom().contains(i) ==> !self.verdicts[i]
        &&& self.winner is Some ==> self.overscan + self.in_flight() + 1 <= self.workers()
        &&& self.winner is Some ==> self.overscan + 1 <= self.tested
        &&& self.skipped == skipped_of(self.lines)
        &&& self.lines.len() == self.skipped + self.tested + self.in_flight()
        &&& !self.constructor.is_keyed() ==> self.lines.len() == 0 && !self.exhausted
    }
}

/// One more line is one more skipped line where it gives no candidate, and
/// no more where it gives one.
pub proof fn lemma_skipped_push(lines: Seq<Seq<u8>>, line: Seq<u8>)
    ensures
        skipped_of(lines.push(line)) == skipped_of(lines) + if candidate_of(line) is None {
            1nat
        } else {
            0nat
        },
{
    assert(lines.push(line).drop_last() =~= lines);
}

/// Where every line gives a candidate, none is skipped.
pub proof fn lemma_none_skipped(lines: Seq<Seq<u8>>)
    requires
        forall|i: int| 0 <= i < lines.len() ==> candidate_of(#[trigger] lines[i]) is Some,
    ensures
        skipped_of(lines) == 0,
    decreases lines.len(),
{
    if lines.len() > 0 {
        lemma_none_skipped(lines.drop_last());
    }
}

/// Giving a worker a line, or taking it back, changes the number of lines
/// in flight by one.
pub proof fn lemma_in_flight_update(holding: Seq<Option<int>>, w: int, slot: Option<int>)
    requires
        0 <= w < holding.len(),
    ensures
        in_flight_of(holding.update(w, slot)) + (if holding[w] is Some {
            1nat
        } else {
            0nat
        }) == in_flight_of(holding) + (if slot is Some {
            1nat
        } else {
            0nat
        }),
    decreases holding.len(),
{
    let updated = holding.update(w, slot);
    if w == holding.len() - 1 {
        assert(updated.drop_last() =~= holding.drop_last());
    } else {
        assert(updated.drop_last() =~= holding.drop_last().update(w, slot));
        lemma_in_flight_update(holding.drop_last(), w, slot);
    }
}

/// No more lines are in flight than there are workers, and none is in
/// flight exactly when every worker is free.
pub proof fn lemma_in_flight_bounds(holding: Seq<Option<int>>)
    ensures
        in_flight_of(holding) <= holding.len(),
        in_flight_of(holding) == 0 <==> forall|w: int|
            0 <= w < holding.len() ==> #[trigger] holding[w] is None,
    decreases holding.len(),
{
    if holding.len() > 0 {
        let init = holding.drop_last();
        lemma_in_flight_bounds(init);
        assert(forall|w: int| 0 <= w < init.len() ==> init[w] == holding[w]);
        if in_flight_of(holding) == 0 {
            assert forall|w: int| 0 <= w < holding.len() implies #[trigger] holding[w] is None by {
                if w < init.len() {
                    assert(init[w] is None);
                }
            }
        }
    }
}

impl SearchView {
    /// The initial state satisfies the invariant.
    pub proof fn lemma_initial_inv(constructor: MacConstructor, workers: nat)
        ensures
            Self::initial(constructor, workers).inv(),
            Self::initial(constructor, workers).in_flight() == 0,
    {
        let v = Self::initial(constructor, workers);
        lemma_in_flight_bounds(v.holding);
    }

    /// Taking a line keeps the invariant.
    pub proof fn lemma_pull_inv(self, w: int, next: Option<Seq<u8>>)
        requires
            self.inv(),
            self.wants(w),
        ensures
            self.after_pull(w, next).inv(),
    {
        let after = self.after_pull(w, next);
        match next {
            None => {},
            Some(line) => {
                let n = self.lines.len() as int;
                lemma_skipped_push(self.lines, line);
                if candidate_of(line) is Some {
                    lemma_in_flight_update(self.holding, w, Some(n));
                    assert forall|v: int, i: int| #[trigger] holds(after.holding, v, i) implies 0 <= i
                        < after.lines.len() && !after.verdicts.dom().contains(i) && candidate_of(
                        after.lines[i],
                    ) is Some by {
                        if v != w {
                            assert(holds(self.holding, v, i));
                        }
                    }
                    assert forall|u: int, v: int, i: int| #[trigger]
                        holds(after.holding, u, i) && #[trigger] holds(after.holding, v, i) implies u == v by {
                        if u != w {
                            assert(holds(self.holding, u, i));
                        }
                        if v != w {
                            assert(holds(self.holding, v, i));
                        }
                    }
                    assert forall|i: int| 0 <= i < after.lines.len() implies candidate_of(
                        #[trigger] after.lines[i],
                    ) is None || after.verdicts.dom().contains(i) || held(after.holding, i) by {
                        if i == n {
                            assert(holds(after.holding, w, n));
                        } else if held(self.holding, i) {
                            let v = choose|v: int| holds(self.holding, v, i);
                            assert(holds(after.holding, v, i));
                        } else {
                            assert(self.lines[i] == after.lines[i]);
                        }
                    }
                } else {
                    assert forall|v: int, i: int| #[trigger] holds(after.holding, v, i) implies 0 <= i
                        < after.lines.len() && !after.verdicts.dom().contains(i) && candidate_of(
                        after.lines[i],
                    ) is Some by {
                        assert(holds(self.holding, v, i));
                    }
                    assert forall|i: int| 0 <= i < after.lines.len() implies candidate_of(
                        #[trigger] after.lines[i],
                    ) is None || after.verdicts.dom().contains(i) || held(after.holding, i) by {
                        if i < n {
                            assert(self.lines[i] == after.lines[i]);
                            if held(self.holding, i) {
                                let v = choose|v: int| holds(self.holding, v, i);
                                assert(holds(after.holding, v, i));
                            }
                        }
                    }
                }
            },
        }
    }

    /// Reporting a verdict keeps the invariant.
    pub proof fn lemma_report_inv(self, w: int, accepted: bool)
        requires
            self.inv(),
            self.is_holding(w),
        ensures
            self.after_report(w, accepted).inv(),
    {
        let after = self.after_report(w, accepted);
        let k = self.holding[w]->0;
        assert(holds(self.holding, w, k));
        lemma_in_flight_update(self.holding, w, None);
        lemma_in_flight_bounds(self.holding);
        assert forall|v: int, i: int| #[trigger] holds(after.holding, v, i) implies 0 <= i
            < after.lines.len() && !after.verdicts.dom().contains(i) && candidate_of(
            after.lines[i],
        ) is Some by {
            assert(holds(self.holding, v, i));
        }
        assert forall|u: int, v: int, i: int| #[trigger]
            holds(after.holding, u, i) && #[trigger] holds(after.holding, v, i) implies u == v by {
            assert(holds(self.holding, u, i) && holds(self.holding, v, i));
        }
        assert forall|i: int| 0 <= i < after.lines.len() implies candidate_of(
            #[trigger] after.lines[i],
        ) is None || after.verdicts.dom().contains(i) || held(after.holding, i) by {
            if i != k && held(self.holding, i) {
                let v = choose|v: int| holds(self.holding, v, i);
                assert(holds(after.holding, v, i));
            }
        }
    }
}

/// What can happen in a search.
pub enum Event {
    /// A worker asked the wordlist for its next line.
    Pull { worker: int, next: Option<Seq<u8>> },
    /// A worker reported its verdict on the candidate it held.
    Report { worker: int, accepted: bool },
}

impl SearchView {
    /// The event can happen in this state.
    pub open spec fn allows(self, event: Event) -> bool {
        match event {
            Event::Pull { worker, next } => self.wants(worker),
            Event::Report { worker, accepted } => self.is_holding(worker),
        }
    }

    /// The state after the event.
    pub open spec fn after(self, event: Event) -> SearchView {
        match event {
            Event::Pull { worker, next } => self.after_pull(worker, next),
            Event::Report { worker, accepted } => self.after_report(worker, accepted),
        }
    }

    /// The state after a sequence of events.
    pub open spec fn after_all(self, events: Seq<Event>) -> SearchView
        decreases events.len(),
    {
        if events.len() == 0 {
            self
        } else {
            self.after_all(events.drop_last()).after(events.last())
        }
    }

    /// Each event of the sequence can happen when its turn comes.
    pub open spec fn allows_all(self, events: Seq<Event>) -> bool
        decreases events.len(),
    {
        events.len() == 0 || (self.allows_all(events.drop_last()) && self.after_all(
            events.drop_last(),
        ).allows(events.last()))
    }

    /// The state is one that a search of `workers` workers under
    /// `constructor` can be in.
    pub open spec fn reachable(self, constructor: MacConstructor, workers: nat) -> bool {
        exists|events: Seq<Event>|
            Self::initial(constructor, workers).allows_all(events) && Self::initial(
                constructor,
                workers,
            ).after_all(events) == self
    }

    /// An event keeps the invariant, the workers and the construction.
    pub proof fn lemma_event_inv(self, event: Event)
        requires
            self.inv(),
            self.allows(event),
        ensures
            self.after(event).inv(),
            self.after(event).workers() == self.workers(),
            self.after(event).constructor == self.constructor,
    {
        match event {
            Event::Pull { worker, next } => self.lemma_pull_inv(worker, next),
            Event::Report { worker, accepted } => self.lemma_report_inv(worker, accepted),
        }
    }

    /// Every state that a search can be in satisfies the invariant.
    pub proof fn lemma_reachable_inv(self, constructor: MacConstructor, workers: nat)
        requires
            self.reachable(constructor, workers),
        ensures
            self.inv(),
            self.workers() == workers,
            self.constructor == constructor,
    {
        let events = choose|events: Seq<Event>|
            Self::initial(constructor, workers).allows_all(events) && Self::initial(
                constructor,
                workers,
            ).after_all(events) == self;
        Self::lemma_run_inv(constructor, workers, events);
    }

    proof fn lemma_run_inv(constructor: MacConstructor, workers: nat, events: Seq<Event>)
        requires
            Self::initial(constructor, workers).allows_all(events),
        ensures
            Self::initial(constructor, workers).after_all(events).inv(),
            Self::initial(constructor, workers).after_all(events).workers() == workers,
            Self::initial(constructor, workers).after_all(events).constructor == constructor,
        decreases events.len(),
    {
        if events.len() == 0 {
            Self::lemma_initial_inv(constructor, workers);
        } else {
            Self::lemma_run_inv(constructor, workers, events.drop_last());
            Self::initial(constructor, workers).after_all(events.drop_last()).lemma_event_inv(
                events.last(),
            );
        }
    }

    /// The cancellation flag is set at most once: once a candidate has won,
    /// no event changes the winner.
    pub proof fn lemma_flag_set_once(self, event: Event)
        requires
            self.allows(event),
            self.winner is Some,
        ensures
            self.after(event).winner == self.winner,
    {
    }

    /// Once the flag is set no further line is taken from the wordlist.
    pub proof fn lemma_no_pull_after_win(self, worker: int)
        requires
            self.winner is Some,
        ensures
            !self.wants(worker),
    {
    }

    /// Bounded over-scan: after the winning verdict, at most one candidate
    /// for each other worker is still tested.
    pub proof fn lemma_overscan_bounded(self, constructor: MacConstructor, workers: nat)
        requires
            self.reachable(constructor, workers),
            self.winner is Some,
        ensures
            workers >= 1,
            self.overscan <= workers - 1,
    {
        self.lemma_reachable_inv(constructor, workers);
    }

    /// No line goes to two workers, and none is lost: every line taken from
    /// the wordlist either gave no candidate, or is held by exactly one
    /// worker, or has its one verdict; and the counts add up.
    pub proof fn lemma_each_line_once(self, constructor: MacConstructor, workers: nat)
        requires
            self.reachable(constructor, workers),
        ensures
            self.skipped == skipped_of(self.lines),
            self.lines.len() == self.skipped + self.tested + self.in_flight(),
            forall|i: int|
                0 <= i < self.lines.len() ==> candidate_of(#[trigger] self.lines[i]) is None
                    || self.verdicts.dom().contains(i) || held(self.holding, i),
            forall|i: int| #[trigger]
                held(self.holding, i) ==> 0 <= i < self.lines.len()
                    && !self.verdicts.dom().contains(i) && candidate_of(self.lines[i]) is Some,
            forall|i: int| #[trigger]
                self.verdicts.dom().contains(i) ==> 0 <= i < self.lines.len() && candidate_of(
                    self.lines[i],
                ) is Some,
            forall|v: int, w: int, i: int| #[trigger]
                holds(self.holding, v, i) && #[trigger] holds(self.holding, w, i) ==> v == w,
    {
        self.lemma_reachable_inv(constructor, workers);
        assert forall|i: int| #[trigger] held(self.holding, i) implies 0 <= i < self.lines.len()
            && !self.verdicts.dom().contains(i) && candidate_of(self.lines[i]) is Some by {
            let w = choose|w: int| holds(self.holding, w, i);
            assert(holds(self.holding, w, i));
        }
    }

    /// A search that ends without a secret has consumed what it took exactly
    /// once: every line was skipped or tested, and every candidate refused.
    pub proof fn lemma_not_found_is_complete(self, constructor: MacConstructor, workers: nat)
        requires
            self.reachable(constructor, workers),
            self.phase() == Phase::NotFound,
        ensures
            self.exhausted,
            self.skipped == skipped_of(self.lines),
            self.lines.len() == self.skipped + self.tested,
            self.overscan == 0,
            forall|i: int|
                0 <= i < self.lines.len() ==> candidate_of(#[trigger] self.lines[i]) is None
                    || self.refused(i),
    {
        self.lemma_reachable_inv(constructor, workers);
        lemma_in_flight_bounds(self.holding);
        assert forall|i: int| 0 <= i < self.lines.len() implies candidate_of(
            #[trigger] self.lines[i],
        ) is None || self.refused(i) by {
            if held(self.holding, i) {
                let w = choose|w: int| holds(self.holding, w, i);
                assert(self.holding[w] is None);
            }
        }
    }

    /// Where the token is not signed the search is over before it begins:
    /// no worker is ever told to take a line, and none is taken.
    pub proof fn lemma_unsigned_takes_nothing(self, workers: nat)
        requires
            self.reachable(MacConstructor::NoSignature, workers),
        ensures
            self.phase() == Phase::NothingToCrack,
            self.lines.len() == 0,
            self.tested == 0,
            forall|w: int| !self.wants(w),
    {
        self.lemma_reachable_inv(MacConstructor::NoSignature, workers);
    }
}

/// What the wordlist gave, as a sequence of bytes.
pub open spec fn line_of(next: Option<&[u8]>) -> Option<Seq<u8>> {
    match next {
        Some(line) => Some(line@),
        None => None,
    }
}

/// The state of one search, as its driver keeps it.
///
/// The driver runs the workers and reads the wordlist; this state tells each
/// worker whether to go on, keeps what each of them is testing, and knows
/// how the search ended. Where the workers are threads, every call is made
/// under one lock, and taking the next line from the wordlist happens under
/// that lock too, between `wants` and `pull`.
pub struct SearchState {
    constructor: MacConstructor,
    slots: Vec<Option<Vec<u8>>>,
    secret: Option<Vec<u8>>,
    exhausted: bool,
    in_flight: usize,
    pulled: u64,
    skipped: u64,
    tested: u64,
    overscan: u64,
    model: Ghost<SearchView>,
}

impl View for SearchState {
    type V = SearchView;

    closed spec fn view(&self) -> SearchView {
        self.model@
    }
}

impl SearchState {
    /// The state agrees with its view, and the view is a state of a search.
    pub closed spec fn wf(&self) -> bool {
        let v = self.model@;
        &&& v.inv()
        &&& self.constructor == v.constructor
        &&& self.slots.len() == v.holding.len()
        &&& forall|w: int|
            0 <= w < self.slots.len() ==> match #[trigger] self.slots[w] {
                Some(c) => v.holding[w] matches Some(i) && candidate_of(v.lines[i]) == Some(c@),
                None => v.holding[w] is None,
            }
        &&& match self.secret {
            Some(s) => v.winner matches Some(i) && candidate_of(v.lines[i]) == Some(s@),
            None => v.winner is None,
        }
        &&& self.exhausted == v.exhausted
        &&& self.in_flight == v.in_flight()
        &&& self.pulled == v.lines.len()
        &&& self.skipped == v.skipped
        &&& self.tested == v.tested
        &&& self.overscan == v.overscan
    }

    /// The view of a well-formed state satisfies the invariant of a search.
    pub proof fn lemma_wf_inv(&self)
        requires
            self.wf(),
        ensures
            self@.inv(),
    {
    }

    /// A search that has not begun, for `workers` workers.
    pub fn new(constructor: MacConstructor, workers: usize) -> (state: SearchState)
        ensures
            state.wf(),
            state@ == SearchView::initial(constructor, workers as nat),
    {
        let mut slots: Vec<Option<Vec<u8>>> = Vec::new();
        let mut w: usize = 0;
        while w < workers
            invariant
                w <= workers,
                slots.len() == w,
                forall|u: int| 0 <= u < w ==> slots[u] is None,
            decreases workers - w,
        {
            slots.push(None);
            w = w + 1;
        }
        proof {
            SearchView::lemma_initial_inv(constructor, workers as nat);
        }
        SearchState {
            constructor,
            slots,
            secret: None,
            exhausted: false,
            in_flight: 0,
            pulled: 0,
            skipped: 0,
            tested: 0,
            overscan: 0,
            model: Ghost(SearchView::initial(constructor, workers as nat)),
        }
    }

    /// The construction the search tests candidates with.
    pub fn constructor(&self) -> (constructor: MacConstructor)
        requires
            self.wf(),
        ensures
            constructor == self@.constructor,
    {
        self.constructor
    }

    /// The number of workers.
    pub fn workers(&self) -> (n: usize)
        requires
            self.wf(),
        ensures
            n == self@.workers(),
    {
        self.slots.len()
    }

    /// Whether worker `w` is to take the next line from the wordlist. A
    /// worker that is told no, and holds no line, is done.
    pub fn wants(&self, w: usize) -> (go: bool)
        requires
            self.wf(),
        ensures
            go == self@.wants(w as int),
    {
        w < self.slots.len() && self.slots[w].is_none() && !matches!(
            self.constructor,
            MacConstructor::NoSignature
        ) && self.secret.is_none() && !self.exhausted
    }

    /// Records what the wordlist gave worker `w`: its next line, or nothing
    /// at its end. A line that gives a candidate is kept for the worker to
    /// test; any other line is skipped.
    pub fn pull(&mut self, w: usize, next: Option<&[u8]>)
        requires
            old(self).wf(),
            old(self)@.wants(w as int),
            next is Some ==> old(self)@.lines.len() < u64::MAX,
        ensures
            final(self).wf(),
            final(self)@ == old(self)@.after_pull(w as int, line_of(next)),
    {
        proof {
            self.model@.lemma_pull_inv(w as int, line_of(next));
            lemma_in_flight_bounds(self.model@.holding);
        }
        match next {
            None => {
                self.exhausted = true;
            },
            Some(line) => {
                let ghost place = self.model@.lines.len() as int;
                self.pulled = self.pulled + 1;
                match candidate_from_line(line) {
                    Some(candidate) => {
                        proof {
                            lemma_in_flight_update(self.model@.holding, w as int, Some(place));
                            lemma_in_flight_bounds(self.model@.holding.update(w as int, Some(place)));
                        }
                        self.slots.set(w, Some(candidate));
                        self.in_flight = self.in_flight + 1;
                    },
                    None => {
                        self.skipped = self.skipped + 1;
                    },
                }
            },
        }
        proof {
            let before = self.model@;
            self.model@ = before.after_pull(w as int, line_of(next));
            assert forall|u: int| 0 <= u < self.slots.len() && u != w implies match #[trigger] self.slots[u] {
                Some(c) => self.model@.holding[u] matches Some(i) && candidate_of(
                    self.model@.lines[i],
                ) == Some(c@),
                None => self.model@.holding[u] is None,
            } by {
                if before.holding[u] is Some {
                    assert(holds(before.holding, u, before.holding[u]->0));
                }
            }
        }
    }

    /// The candidate that worker `w` is to test, if it holds one.
    pub fn candidate(&self, w: usize) -> (held: Option<&Vec<u8>>)
        requires
            self.wf(),
            w < self@.workers(),
        ensures
            match self@.holding[w as int] {
                Some(i) => held matches Some(c) && 0 <= i < self@.lines.len() && candidate_of(
                    self@.lines[i],
                ) == Some(c@),
                None => held is None,
            },
    {
        proof {
            if self.model@.holding[w as int] is Some {
                assert(holds(self.model@.holding, w as int, self.model@.holding[w as int]->0));
            }
        }
        self.slots[w].as_ref()
    }

    /// Records the verdict of worker `w` on the candidate it holds. The
    /// first accepting verdict sets the cancellation flag and keeps the
    /// candidate as the secret; the flag is never set twice.
    pub fn report(&mut self, w: usize, accepted: bool)
        requires
            old(self).wf(),
            old(self)@.is_holding(w as int),
        ensures
            final(self).wf(),
            final(self)@ == old(self)@.after_report(w as int, accepted),
    {
        proof {
            let v = self.model@;
            v.lemma_report_inv(w as int, accepted);
            lemma_in_flight_update(v.holding, w as int, None);
            lemma_in_flight_bounds(v.holding);
            assert(holds(v.holding, w as int, v.holding[w as int]->0));
        }
        if self.secret.is_some() {
            self.overscan = self.overscan + 1;
        } else if accepted {
            let secret = match &self.slots[w] {
                Some(candidate) => candidate.clone(),
                None => Vec::new(),
            };
            assert(secret@ =~= self.slots[w as int]->0@);
            self.secret = Some(secret);
        }
        self.slots.set(w, None);
        self.in_flight = self.in_flight - 1;
        self.tested = self.tested + 1;
        proof {
            self.model@ = self.model@.after_report(w as int, accepted);
        }
    }

    /// Where the search stands.
    pub fn phase(&self) -> (phase: Phase)
        requires
            self.wf(),
        ensures
            phase == self@.phase(),
    {
        if matches!(self.constructor, MacConstructor::NoSignature) {
            Phase::NothingToCrack
        } else if self.secret.is_some() {
            Phase::Found
        } else if self.exhausted && self.in_flight == 0 {
            Phase::NotFound
        } else if self.pulled == 0 && !self.exhausted {
            Phase::Idle
        } else {
            Phase::Scanning
        }
    }

    /// How the search ended, once it has: the secret as soon as the flag is
    /// set, whatever other workers still test; no secret once the wordlist
    /// has run out and every worker has reported.
    pub fn outcome(&self) -> (outcome: Option<VerificationOutcome>)
        requires
            self.wf(),
        ensures
            match self@.phase() {
                Phase::Idle | Phase::Scanning => outcome is None,
                Phase::NotFound => outcome == Some(VerificationOutcome::NotFound),
                Phase::NothingToCrack => outcome == Some(VerificationOutcome::NothingToCrack),
                Phase::Found => outcome matches Some(VerificationOutcome::Found(secret))
                    && candidate_of(self@.lines[self@.winner->0]) == Some(secret@),
            },
    {
        match self.phase() {
            Phase::Idle | Phase::Scanning => None,
            Phase::NotFound => Some(VerificationOutcome::NotFound),
            Phase::NothingToCrack => Some(VerificationOutcome::NothingToCrack),
            Phase::Found => {
                let secret = match &self.secret {
                    Some(secret) => secret.clone(),
                    None => Vec::new(),
                };
                assert(secret@ =~= self.secret->0@);
                Some(VerificationOutcome::Found(secret))
            },
        }
    }

    /// Lines taken from the wordlist so far.
    pub fn pulled(&self) -> (n: u64)
        requires
            self.wf(),
        ensures
            n == self@.lines.len(),
    {
        self.pulled
    }

    /// Lines that gave no candidate.
    pub fn skipped(&self) -> (n: u64)
        requires
            self.wf(),
        ensures
            n == self@.skipped,
    {
        self.skipped
    }

    /// Verdicts reported so far.
    pub fn tested(&self) -> (n: u64)
        requires
            self.wf(),
        ensures
            n == self@.tested,
    {
        self.tested
    }

    /// Verdicts reported after the flag was set.
    pub fn overscan(&self) -> (n: u64)
        requires
            self.wf(),
        ensures
            n == self@.overscan,
    {
        self.overscan
    }
}

} // verus!
