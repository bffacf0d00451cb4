use jwt_crack::algorithm::MacConstructor;
use jwt_crack::outcome::VerificationOutcome;
use jwt_crack::search::{Phase, SearchState};

fn line(text: &str) -> Option<&[u8]> {
    Some(text.as_bytes())
}

#[test]
fn a_new_search_is_idle() {
    let state = SearchState::new(MacConstructor::HmacSha256, 3);
    assert_eq!(state.workers(), 3);
    assert_eq!(state.phase(), Phase::Idle);
    assert_eq!(state.outcome(), None);
    assert!(state.wants(0) && state.wants(1) && state.wants(2));
    assert!(!state.wants(3));
    assert_eq!((state.pulled(), state.skipped(), state.tested(), state.overscan()), (0, 0, 0, 0));
}

#[test]
fn an_unsigned_token_ends_the_search_before_it_begins() {
    let state = SearchState::new(MacConstructor::NoSignature, 4);
    assert_eq!(state.phase(), Phase::NothingToCrack);
    assert_eq!(state.outcome(), Some(VerificationOutcome::NothingToCrack));
    assert!(!state.wants(0) && !state.wants(1) && !state.wants(2) && !state.wants(3));
    assert_eq!(state.pulled(), 0);
}

#[test]
fn a_worker_holds_the_candidate_of_the_line_it_took() {
    let mut state = SearchState::new(MacConstructor::HmacSha256, 2);
    state.pull(0, line("first\n"));
    state.pull(1, line("second\r\n"));
    assert_eq!(state.phase(), Phase::Scanning);
    assert_eq!(state.candidate(0), Some(&b"first".to_vec()));
    assert_eq!(state.candidate(1), Some(&b"second".to_vec()));
    assert!(!state.wants(0) && !state.wants(1));
    assert_eq!(state.pulled(), 2);
    assert_eq!(state.tested(), 0);
}

#[test]
fn a_refused_candidate_frees_its_worker() {
    let mut state = SearchState::new(MacConstructor::HmacSha256, 1);
    state.pull(0, line("first"));
    state.report(0, false);
    assert_eq!(state.candidate(0), None);
    assert!(state.wants(0));
    assert_eq!(state.phase(), Phase::Scanning);
    assert_eq!(state.outcome(), None);
    assert_eq!((state.pulled(), state.skipped(), state.tested(), state.overscan()), (1, 0, 1, 0));
}

#[test]
fn a_line_without_candidate_is_skipped() {
    let mut state = SearchState::new(MacConstructor::HmacSha256, 1);
    state.pull(0, Some(&[0xff, 0xfe, b'\n']));
    assert_eq!(state.candidate(0), None);
    assert!(state.wants(0));
    assert_eq!((state.pulled(), state.skipped(), state.tested(), state.overscan()), (1, 1, 0, 0));
    state.pull(0, line("next"));
    assert_eq!(state.candidate(0), Some(&b"next".to_vec()));
    assert_eq!((state.pulled(), state.skipped()), (2, 1));
}

#[test]
fn the_first_accepting_verdict_wins() {
    let mut state = SearchState::new(MacConstructor::HmacSha256, 3);
    state.pull(0, line("one"));
    state.pull(1, line("two"));
    state.pull(2, line("three"));
    state.report(1, true);
    assert_eq!(state.phase(), Phase::Found);
    assert_eq!(state.outcome(), Some(VerificationOutcome::Found(b"two".to_vec())));
    assert_eq!(state.overscan(), 0);
    state.report(2, true);
    assert_eq!(state.outcome(), Some(VerificationOutcome::Found(b"two".to_vec())));
    state.report(0, false);
    assert_eq!(state.outcome(), Some(VerificationOutcome::Found(b"two".to_vec())));
    assert_eq!(state.phase(), Phase::Found);
    assert_eq!((state.pulled(), state.skipped(), state.tested(), state.overscan()), (3, 0, 3, 2));
}

#[test]
fn no_line_is_taken_once_the_flag_is_set() {
    let mut state = SearchState::new(MacConstructor::HmacSha512, 3);
    state.pull(0, line("one"));
    state.pull(1, line("two"));
    state.report(0, true);
    assert!(!state.wants(0));
    assert!(!state.wants(2));
    assert!(!state.wants(1));
    state.report(1, false);
    assert!(!state.wants(1));
    assert_eq!(state.overscan(), 1);
    assert_eq!(state.pulled(), 2);
}

#[test]
fn the_search_is_over_when_the_wordlist_ends_and_all_have_reported() {
    let mut state = SearchState::new(MacConstructor::HmacSha384, 2);
    state.pull(0, line("one"));
    state.pull(1, None);
    assert_eq!(state.phase(), Phase::Scanning);
    assert_eq!(state.outcome(), None);
    assert!(!state.wants(1));
    state.report(0, false);
    assert!(!state.wants(0));
    assert_eq!(state.phase(), Phase::NotFound);
    assert_eq!(state.outcome(), Some(VerificationOutcome::NotFound));
    assert_eq!((state.pulled(), state.skipped(), state.tested(), state.overscan()), (1, 0, 1, 0));
}

#[test]
fn a_candidate_in_flight_can_still_win_after_the_wordlist_ended() {
    let mut state = SearchState::new(MacConstructor::HmacSha256, 2);
    state.pull(0, line("last"));
    state.pull(1, None);
    state.report(0, true);
    assert_eq!(state.outcome(), Some(VerificationOutcome::Found(b"last".to_vec())));
}

#[test]
fn an_empty_wordlist_gives_no_secret() {
    let mut state = SearchState::new(MacConstructor::HmacSha256, 1);
    state.pull(0, None);
    assert_eq!(state.phase(), Phase::NotFound);
    assert_eq!(state.outcome(), Some(VerificationOutcome::NotFound));
    assert_eq!(state.pulled(), 0);
}

#[test]
fn a_pool_without_workers_never_begins() {
    let state = SearchState::new(MacConstructor::HmacSha256, 0);
    assert_eq!(state.workers(), 0);
    assert!(!state.wants(0));
    assert_eq!(state.phase(), Phase::Idle);
}
