use bitcoin_bench::bench::{Bencher, BenchType, BenchOptions, Single, Multi, SweepAction,
    SweepEvent};
use bitcoin_bench::config::{Config, Settings, Jobs, Job};
use bitcoin_bench::database::Database;
use bitcoin_bench::resolver::CommitEntry;
use bitcoin_bench::error::BenchError;

fn entry(id: &str, ts: i64) -> CommitEntry {
    CommitEntry { commit_id: id.to_string(), timestamp: ts }
}

fn config(jobs: Vec<Job>, cleanup: bool) -> Config {
    Config {
        settings: Settings {
            binaries: vec![],
            bitcoin_data_dir: Some("/tmp/bench-data".to_string()),
        },
        jobs: Jobs { jobs, cleanup },
    }
}

fn echo_job() -> Job {
    Job {
        name: "echo".to_string(),
        env: Some(vec!["RUST_LOG=debug".to_string(), "malformed".to_string()]),
        command: "echo hi".to_string(),
        bench: true,
        outfile: Some("/tmp/echo-results.txt".to_string()),
    }
}

const ECHO_REPORT: &str = "\tCommand being timed: \"echo hi\"\n\
\tUser time (seconds): 0.00\n\
\tExit status: 0\n";

fn single_bencher(jobs: Vec<Job>, commit: &str) -> Bencher {
    Bencher::new(
        config(jobs, false),
        Database::new(),
        "/src/tree".to_string(),
        BenchType::Single,
        BenchOptions::Single(Single { commit: commit.to_string() }),
    )
    .unwrap()
}

#[test]
fn new_rejects_empty_commit() {
    let r = Bencher::new(
        config(vec![], false),
        Database::new(),
        "/s".to_string(),
        BenchType::Single,
        BenchOptions::Single(Single { commit: "".to_string() }),
    );
    assert!(matches!(r, Err(BenchError::Usage(_))));
}

#[test]
fn new_rejects_empty_dates() {
    let r = Bencher::new(
        config(vec![], false),
        Database::new(),
        "/s".to_string(),
        BenchType::Multi,
        BenchOptions::Multi(Multi { start: "".to_string(), end: "2024-01-03".to_string() }),
    );
    assert!(matches!(r, Err(BenchError::Usage(_))));
}

#[test]
fn empty_command_is_a_usage_error_before_spawning() {
    let b = single_bencher(vec![], "c1");
    assert!(matches!(b.process_args("   "), Err(BenchError::Usage(_))));
    assert!(matches!(b.process_args(""), Err(BenchError::Usage(_))));
    let mut blank = echo_job();
    blank.command = " \t ".to_string();
    assert!(matches!(b.plan_job(&blank, 1), Err(BenchError::Usage(_))));
}

#[test]
fn env_overrides_skip_malformed_entries() {
    let b = single_bencher(vec![], "c1");
    let pairs = b.process_env_vars(&Some(vec![
        "A=1".to_string(),
        "bad".to_string(),
        "B=x=y".to_string(),
    ]));
    assert_eq!(pairs.len(), 2);
    assert_eq!(pairs[0], ("A".to_string(), "1".to_string()));
    assert_eq!(pairs[1], ("B".to_string(), "x=y".to_string()));
}

#[test]
fn instrumented_plan_wraps_the_command() {
    let b = single_bencher(vec![echo_job()], "c1");
    let plan = b.plan_job(&echo_job(), 7).unwrap();
    assert_eq!(plan.program, "/usr/bin/time");
    assert_eq!(plan.args[0], "-v");
    assert_eq!(plan.args[1], "--output=/tmp/echo-results.txt");
    assert_eq!(&plan.args[2..], &["echo".to_string(), "hi".to_string()]);
    assert_eq!(plan.stdout_path, "/tmp/7-echo-output.log");
    assert_eq!(plan.stderr_path, "/tmp/7-echo-error.log");
    assert_eq!(plan.env.len(), 1);
    assert_eq!(plan.env[0], ("RUST_LOG".to_string(), "debug".to_string()));
}

#[test]
fn raw_plan_runs_the_first_word() {
    let b = single_bencher(vec![], "c1");
    let mut raw = echo_job();
    raw.bench = false;
    let plan = b.plan_job(&raw, 3).unwrap();
    assert_eq!(plan.program, "echo");
    assert_eq!(plan.args, vec!["hi".to_string()]);
}

#[test]
fn single_sweep_records_one_run_and_one_result() {
    let mut b = single_bencher(vec![echo_job()], "c2");
    let first = b.start_at(5000);
    match first {
        SweepAction::CheckSource { path } => assert_eq!(path, "/src/tree/src/init.cpp"),
        other => panic!("unexpected action {:?}", other),
    }
    let a = b.step(SweepEvent::SourceChecked { exists: true }).unwrap();
    assert!(matches!(a, SweepAction::Fetch));
    let a = b.step(SweepEvent::Fetched { ok: true }).unwrap();
    assert!(matches!(a, SweepAction::ListHistory));
    let a = b
        .step(SweepEvent::HistoryListed {
            entries: vec![entry("c2", 2000), entry("c1", 1000)],
        })
        .unwrap();
    match a {
        SweepAction::Checkout { commit_id } => assert_eq!(commit_id, "c2"),
        other => panic!("unexpected action {:?}", other),
    }
    let a = b.step(SweepEvent::CheckedOut { ok: true }).unwrap();
    assert!(matches!(a, SweepAction::RunJob { .. }));
    let a = b
        .step(SweepEvent::JobFinished { exit_ok: true, report: Some(ECHO_REPORT.to_string()) })
        .unwrap();
    assert!(matches!(a, SweepAction::Finished));

    assert_eq!(b.db.runs.len(), 1);
    assert_eq!(b.db.jobs.len(), 1);
    assert_eq!(b.db.runs[0].run_date, 5000);
    assert_eq!(b.db.runs[0].commit_id, "c2");
    assert_eq!(b.db.runs[0].commit_date, 2000);
    assert!(b.db.runs[0].was_master);
    assert_eq!(b.db.jobs[0].run_id, 1);
    assert_eq!(b.db.jobs[0].result.exit_status, 0);
    assert!(b.db.jobs[0].result.command.contains("echo hi"));
}

fn multi_bencher(jobs: Vec<Job>, cleanup: bool, start: &str, end: &str) -> Bencher {
    Bencher::new(
        config(jobs, cleanup),
        Database::new(),
        "/src/tree".to_string(),
        BenchType::Multi,
        BenchOptions::Multi(Multi { start: start.to_string(), end: end.to_string() }),
    )
    .unwrap()
}

#[test]
fn multi_sweep_three_days() {
    // one commit lands exactly at each day's midnight
    let mut b = multi_bencher(vec![], false, "1970-01-02", "1970-01-04");
    b.start_at(999_999);
    b.step(SweepEvent::SourceChecked { exists: true }).unwrap();
    b.step(SweepEvent::Fetched { ok: true }).unwrap();
    let mut action = b
        .step(SweepEvent::HistoryListed {
            entries: vec![entry("day3", 259200), entry("day2", 172800), entry("day1", 86400)],
        })
        .unwrap();
    let mut checkouts = vec![];
    loop {
        match action {
            SweepAction::Checkout { ref commit_id } => {
                checkouts.push(commit_id.clone());
                action = b.step(SweepEvent::CheckedOut { ok: true }).unwrap();
            },
            SweepAction::Finished => break,
            other => panic!("unexpected action {:?}", other),
        }
    }
    assert_eq!(checkouts, vec!["day1", "day2", "day3"]);
    assert_eq!(b.db.runs.len(), 3);
    let commit_dates: Vec<i64> = b.db.runs.iter().map(|r| r.commit_date).collect();
    assert_eq!(commit_dates, vec![86400, 172800, 259200]);
    for (i, r) in b.db.runs.iter().enumerate() {
        assert_eq!(r.id, Some(i as i64 + 1));
        // every row shares the sweep's wall-clock stamp, and what was
        // benchmarked predates it
        assert_eq!(r.run_date, 999_999);
        assert!(r.commit_date <= r.run_date);
    }
    // the resolved days step by exactly one day of seconds
    assert_eq!(commit_dates[1] - commit_dates[0], 86400);
    assert_eq!(commit_dates[2] - commit_dates[1], 86400);
    assert_eq!(b.db.jobs.len(), 0);
}

#[test]
fn multi_sweep_cleans_up_between_iterations() {
    let mut b = multi_bencher(vec![], true, "1970-01-02", "1970-01-03");
    b.start_at(999_999);
    b.step(SweepEvent::SourceChecked { exists: true }).unwrap();
    b.step(SweepEvent::Fetched { ok: true }).unwrap();
    let mut action = b
        .step(SweepEvent::HistoryListed { entries: vec![entry("c", 1000)] })
        .unwrap();
    let mut erases = 0;
    loop {
        match action {
            SweepAction::Checkout { .. } => {
                action = b.step(SweepEvent::CheckedOut { ok: true }).unwrap();
            },
            SweepAction::EraseDataDir { ref path } => {
                assert_eq!(path, "/tmp/bench-data");
                erases += 1;
                action = b.step(SweepEvent::Erased { ok: true }).unwrap();
            },
            SweepAction::Finished => break,
            other => panic!("unexpected action {:?}", other),
        }
    }
    assert_eq!(erases, 2);
    assert_eq!(b.db.runs.len(), 2);
}

#[test]
fn missing_source_file_is_fatal() {
    let mut b = single_bencher(vec![], "c1");
    b.start_at(100);
    let r = b.step(SweepEvent::SourceChecked { exists: false });
    assert!(matches!(r, Err(BenchError::Usage(_))));
}

#[test]
fn failed_fetch_is_fatal() {
    let mut b = single_bencher(vec![], "c1");
    b.start_at(100);
    b.step(SweepEvent::SourceChecked { exists: true }).unwrap();
    assert!(matches!(b.step(SweepEvent::Fetched { ok: false }), Err(BenchError::Io(_))));
}

#[test]
fn unknown_commit_aborts_the_sweep() {
    let mut b = single_bencher(vec![], "missing");
    b.start_at(100);
    b.step(SweepEvent::SourceChecked { exists: true }).unwrap();
    b.step(SweepEvent::Fetched { ok: true }).unwrap();
    let r = b.step(SweepEvent::HistoryListed { entries: vec![entry("c1", 1000)] });
    assert!(matches!(r, Err(BenchError::NotFound(_))));
    assert_eq!(b.db.runs.len(), 0);
}

#[test]
fn resolve_before_first_commit_aborts_a_daily_sweep() {
    let mut b = multi_bencher(vec![], false, "1970-01-02", "1970-01-02");
    b.start_at(100);
    b.step(SweepEvent::SourceChecked { exists: true }).unwrap();
    b.step(SweepEvent::Fetched { ok: true }).unwrap();
    // the only commit is later than the requested day
    let r = b.step(SweepEvent::HistoryListed { entries: vec![entry("c1", 999_999)] });
    assert!(matches!(r, Err(BenchError::NotFound(_))));
}

#[test]
fn failed_job_aborts_with_the_stderr_path() {
    let mut b = single_bencher(vec![echo_job()], "c1");
    b.start_at(100);
    b.step(SweepEvent::SourceChecked { exists: true }).unwrap();
    b.step(SweepEvent::Fetched { ok: true }).unwrap();
    b.step(SweepEvent::HistoryListed { entries: vec![entry("c1", 50)] }).unwrap();
    b.step(SweepEvent::CheckedOut { ok: true }).unwrap();
    match b.step(SweepEvent::JobFinished { exit_ok: false, report: None }) {
        Err(BenchError::Execution(msg)) => assert!(msg.contains("/tmp/1-echo-error.log")),
        other => panic!("expected Execution, got {:?}", other),
    }
    // the run row stays; no job row was written
    assert_eq!(b.db.runs.len(), 1);
    assert_eq!(b.db.jobs.len(), 0);
}

#[test]
fn unreadable_report_aborts() {
    let mut b = single_bencher(vec![echo_job()], "c1");
    b.start_at(100);
    b.step(SweepEvent::SourceChecked { exists: true }).unwrap();
    b.step(SweepEvent::Fetched { ok: true }).unwrap();
    b.step(SweepEvent::HistoryListed { entries: vec![entry("c1", 50)] }).unwrap();
    b.step(SweepEvent::CheckedOut { ok: true }).unwrap();
    let r = b.step(SweepEvent::JobFinished {
        exit_ok: true,
        report: Some("\tExit status: seven\n".to_string()),
    });
    assert!(matches!(r, Err(BenchError::Decode(_))));
    assert_eq!(b.db.jobs.len(), 0);
}

#[test]
fn bad_sweep_dates_are_usage_errors() {
    let mut b = multi_bencher(vec![], false, "not-a-date", "2024-01-02");
    b.start_at(100);
    b.step(SweepEvent::SourceChecked { exists: true }).unwrap();
    b.step(SweepEvent::Fetched { ok: true }).unwrap();
    let r = b.step(SweepEvent::HistoryListed { entries: vec![entry("c1", 50)] });
    assert!(matches!(r, Err(BenchError::Usage(_))));
}

#[test]
fn out_of_turn_events_are_refused() {
    let mut b = single_bencher(vec![], "c1");
    b.start_at(100);
    let r = b.step(SweepEvent::Fetched { ok: true });
    assert!(matches!(r, Err(BenchError::Usage(_))));
}
