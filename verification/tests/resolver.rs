use bitcoin_bench::resolver::{CommitEntry, History, get_commit_id_from_date, get_commit_date};
use bitcoin_bench::error::BenchError;

fn entry(id: &str, ts: i64) -> CommitEntry {
    CommitEntry { commit_id: id.to_string(), timestamp: ts }
}

fn history() -> History {
    // newest first, as the history-listing tool produces it
    History::new(vec![entry("c3", 3000), entry("c2", 2000), entry("c1", 1000)])
}

#[test]
fn resolve_by_date_picks_most_recent_prior() {
    let h = history();
    assert_eq!(get_commit_id_from_date(&h, 2500).unwrap(), "c2");
    assert_eq!(get_commit_id_from_date(&h, 3000).unwrap(), "c3");
    assert_eq!(get_commit_id_from_date(&h, 1000).unwrap(), "c1");
    assert_eq!(get_commit_id_from_date(&h, 99999).unwrap(), "c3");
}

#[test]
fn resolve_before_first_commit_is_not_found() {
    let h = history();
    match get_commit_id_from_date(&h, 999) {
        Err(BenchError::NotFound(_)) => {},
        other => panic!("expected NotFound, got {:?}", other),
    }
}

#[test]
fn resolve_on_empty_history_is_not_found() {
    let h = History::new(vec![]);
    assert!(matches!(get_commit_id_from_date(&h, 5000), Err(BenchError::NotFound(_))));
}

#[test]
fn resolve_by_id() {
    let h = history();
    assert_eq!(get_commit_date(&h, "c2").unwrap(), 2000);
    assert_eq!(get_commit_date(&h, "c1").unwrap(), 1000);
    assert!(matches!(get_commit_date(&h, "nope"), Err(BenchError::NotFound(_))));
}

#[test]
fn resolution_is_monotone_in_the_date() {
    let h = history();
    let id1 = get_commit_id_from_date(&h, 1500).unwrap();
    let id2 = get_commit_id_from_date(&h, 2500).unwrap();
    let t1 = get_commit_date(&h, &id1).unwrap();
    let t2 = get_commit_date(&h, &id2).unwrap();
    assert!(t1 <= t2);
    assert_eq!((t1, t2), (1000, 2000));
}

#[test]
fn equal_timestamps_tie_break_by_listing_order() {
    let h = History::new(vec![entry("newer", 2000), entry("older", 2000)]);
    assert_eq!(get_commit_id_from_date(&h, 2000).unwrap(), "newer");
}

#[test]
fn sortedness_check() {
    assert!(history().is_sorted());
    assert!(History::new(vec![]).is_sorted());
    let bad = History::new(vec![entry("a", 1000), entry("b", 2000)]);
    assert!(!bad.is_sorted());
}
