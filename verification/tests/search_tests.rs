use seedsearch::offset::Offset;
use seedsearch::search::SearchState;
use seedsearch::template::PartialSeed;

#[test]
fn dispatches_in_ascending_order_up_to_the_bound() {
    let mut s = SearchState::new(Offset::zero(1), 2);
    let a = s.dispatch().unwrap();
    let b = s.dispatch().unwrap();
    assert_eq!(a.digits, vec![0]);
    assert_eq!(b.digits, vec![1]);
    // the concurrency bound is reached
    assert!(s.dispatch().is_none());
    s.complete();
    let c = s.dispatch().unwrap();
    assert_eq!(c.digits, vec![2]);
}

#[test]
fn exhausts_a_single_candidate_space() {
    let mut s = SearchState::new(Offset::zero(0), 8);
    let only = s.dispatch().unwrap();
    assert_eq!(only.digits.len(), 0);
    assert!(s.dispatch().is_none());
    assert!(!s.is_done());
    s.complete();
    assert!(s.is_done());
}

#[test]
fn no_dispatch_after_a_match() {
    let mut s = SearchState::new(Offset::zero(1), 8);
    let _ = s.dispatch().unwrap();
    let recorded = s.on_balance(21_000_000);
    assert!(recorded);
    assert!(s.is_done());
    assert!(s.dispatch().is_none());
}

#[test]
fn zero_balance_is_no_match() {
    let mut s = SearchState::new(Offset::zero(1), 8);
    let _ = s.dispatch().unwrap();
    assert!(!s.on_balance(0));
    assert!(!s.is_done());
}

#[test]
fn exactly_one_of_two_simultaneous_matches_is_recorded() {
    // two in-flight tasks both confirm a balance; only the first is told so
    let mut s = SearchState::new(Offset::zero(1), 8);
    let _ = s.dispatch().unwrap();
    let _ = s.dispatch().unwrap();
    let first = s.on_balance(5);
    let second = s.on_balance(7);
    assert!(first);
    assert!(!second);
}

#[test]
fn record_match_is_first_writer_wins() {
    let mut s = SearchState::new(Offset::zero(1), 8);
    assert!(s.record_match());
    assert!(!s.record_match());
    assert!(!s.record_match());
}

#[test]
fn resuming_covers_exactly_the_remaining_offsets() {
    let from_zero = collect_offsets(0, 2048);
    let resumed = collect_offsets(5, 2048);
    assert_eq!(resumed.as_slice(), &from_zero[5..]);
}

fn collect_offsets(start: u128, space: usize) -> Vec<u16> {
    let mut s = SearchState::new(Offset::from_u128(start, 1).unwrap(), 1);
    let mut seen = Vec::with_capacity(space);
    while let Some(o) = s.dispatch() {
        seen.push(o.digits[0]);
        s.complete();
    }
    seen
}

#[test]
fn full_scan_visits_every_candidate_once() {
    let t = PartialSeed::new("abandon *");
    let mut s = SearchState::new(Offset::zero(1), 16);
    let mut count = 0u32;
    while let Some(o) = s.dispatch() {
        let _ = t.guess_seed(&o);
        count += 1;
        s.complete();
    }
    assert_eq!(count, 2048);
    assert!(s.is_done());
}
