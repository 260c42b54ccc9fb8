use bitcoin_bench::database::{Database, Run};
use bitcoin_bench::report::TimeResult;
use bitcoin_bench::error::BenchError;

fn run(date: i64, commit: &str) -> Run {
    Run {
        id: None,
        run_date: date,
        commit_id: commit.to_string(),
        commit_date: date - 50,
        was_master: true,
    }
}

fn result_named(name: &str) -> TimeResult {
    let mut t = TimeResult::new();
    t.command = name.to_string();
    t
}

#[test]
fn run_ids_increase_from_one() {
    let mut db = Database::new();
    assert_eq!(db.record_run(run(100, "a")).unwrap(), 1);
    assert_eq!(db.record_run(run(200, "b")).unwrap(), 2);
    assert_eq!(db.record_run(run(300, "c")).unwrap(), 3);
    assert_eq!(db.runs.len(), 3);
    assert_eq!(db.runs[0].id, Some(1));
    assert_eq!(db.runs[2].id, Some(3));
    assert_eq!(db.runs[1].commit_id, "b");
}

#[test]
fn job_ids_increase_and_reference_runs() {
    let mut db = Database::new();
    let rid = db.record_run(run(100, "a")).unwrap();
    assert_eq!(db.record_job(rid, result_named("x")).unwrap(), 1);
    assert_eq!(db.record_job(rid, result_named("y")).unwrap(), 2);
    assert_eq!(db.jobs.len(), 2);
    assert_eq!(db.jobs[1].run_id, rid);
}

#[test]
fn job_for_unknown_run_is_an_integrity_error() {
    let mut db = Database::new();
    match db.record_job(1, result_named("x")) {
        Err(BenchError::Integrity(_)) => {},
        other => panic!("expected Integrity, got {:?}", other),
    }
    db.record_run(run(100, "a")).unwrap();
    assert!(db.record_job(1, result_named("x")).is_ok());
    assert!(matches!(db.record_job(2, result_named("x")), Err(BenchError::Integrity(_))));
    assert!(matches!(db.record_job(0, result_named("x")), Err(BenchError::Integrity(_))));
    assert!(matches!(db.record_job(-3, result_named("x")), Err(BenchError::Integrity(_))));
    // the failed inserts changed nothing
    assert_eq!(db.jobs.len(), 1);
}

#[test]
fn query_by_name_joins_and_orders_by_run() {
    let mut db = Database::new();
    let r1 = db.record_run(run(100, "a")).unwrap();
    let r2 = db.record_run(run(200, "b")).unwrap();
    db.record_job(r2, result_named("ibd")).unwrap();
    db.record_job(r1, result_named("ibd")).unwrap();
    db.record_job(r1, result_named("other")).unwrap();
    let rows = db.get_jobs_by_name("ibd");
    assert_eq!(rows.len(), 2);
    // ascending run id, regardless of insertion order
    assert_eq!(rows[0].0.run_id, r1);
    assert_eq!(rows[1].0.run_id, r2);
    assert_eq!(rows[0].1.commit_id, "a");
    assert_eq!(rows[1].1.commit_id, "b");
    assert!(db.get_jobs_by_name("missing").is_empty());
}

#[test]
fn distinct_job_names() {
    let mut db = Database::new();
    let r1 = db.record_run(run(100, "a")).unwrap();
    db.record_job(r1, result_named("ibd")).unwrap();
    db.record_job(r1, result_named("reindex")).unwrap();
    db.record_job(r1, result_named("ibd")).unwrap();
    let names = db.get_job_names();
    assert_eq!(names, vec!["ibd".to_string(), "reindex".to_string()]);
}
