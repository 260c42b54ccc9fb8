use bitcoin_bench::database::{Database, Run};
use bitcoin_bench::report::TimeResult;
use bitcoin_bench::numbers::parse_decimal;
use bitcoin_bench::graph::{max_user_time, max_rss, min_run_date, max_run_date,
    user_time_points, rss_points};
use bitcoin_bench::util::{check_binaries_exist, judge_binaries};
use bitcoin_bench::config::{Config, Settings, Jobs};
use bitcoin_bench::error::BenchError;

fn store_with_rows() -> Database {
    let mut db = Database::new();
    for (date, master, user, rss) in [
        (300i64, true, "1.25", 500i64),
        (100, false, "4.5", 2000),
        (200, true, "2.75", 1500),
    ] {
        let rid = db
            .record_run(Run {
                id: None,
                run_date: date,
                commit_id: "c".to_string(),
                commit_date: date - 1,
                was_master: master,
            })
            .unwrap();
        let mut t = TimeResult::new();
        t.command = "ibd".to_string();
        t.user_time = parse_decimal(user).unwrap();
        t.max_resident_set_size_kb = rss;
        db.record_job(rid, t).unwrap();
    }
    db
}

#[test]
fn axis_limits() {
    let db = store_with_rows();
    let rows = db.get_jobs_by_name("ibd");
    assert_eq!(rows.len(), 3);
    let mu = max_user_time(&rows);
    assert_eq!((mu.whole, mu.frac_num, mu.frac_den), (4, 5, 10));
    assert_eq!(max_rss(&rows), 2000);
    assert_eq!(min_run_date(&rows), 100);
    assert_eq!(max_run_date(&rows), 300);
}

#[test]
fn empty_rows_give_zero_limits() {
    let rows = Vec::new();
    let mu = max_user_time(&rows);
    assert_eq!(mu.whole, 0);
    assert_eq!(mu.frac_num, 0);
    assert_eq!(max_rss(&rows), 0);
    assert_eq!(min_run_date(&rows), 0);
    assert_eq!(max_run_date(&rows), 0);
}

#[test]
fn series_split_on_the_primary_line() {
    let db = store_with_rows();
    let rows = db.get_jobs_by_name("ibd");
    let master_user = user_time_points(&rows, true);
    let other_user = user_time_points(&rows, false);
    assert_eq!(master_user.len(), 2);
    assert_eq!(other_user.len(), 1);
    // rows come back in run order: dates 300, 100, 200 were recorded as
    // runs 1, 2, 3
    assert_eq!(master_user[0].0, 300);
    assert_eq!(master_user[1].0, 200);
    assert_eq!(other_user[0].0, 100);
    let master_rss = rss_points(&rows, true);
    assert_eq!(master_rss, vec![(300, 500), (200, 1500)]);
    let other_rss = rss_points(&rows, false);
    assert_eq!(other_rss, vec![(100, 2000)]);
}

#[test]
fn missing_binary_is_unavailable() {
    let c = Config {
        settings: Settings {
            binaries: vec!["surely-not-a-real-binary-name-0x7f".to_string()],
            bitcoin_data_dir: None,
        },
        jobs: Jobs { jobs: vec![], cleanup: false },
    };
    assert!(matches!(check_binaries_exist(&c), Err(BenchError::Unavailable(_))));
}

#[test]
fn present_binary_passes_the_check() {
    let c = Config {
        settings: Settings { binaries: vec!["sh".to_string()], bitcoin_data_dir: None },
        jobs: Jobs { jobs: vec![], cleanup: false },
    };
    assert!(check_binaries_exist(&c).is_ok());
}

#[test]
fn binaries_judgement_is_all_found() {
    assert!(judge_binaries(&vec![]).is_ok());
    assert!(judge_binaries(&vec![true, true, true]).is_ok());
    assert!(matches!(
        judge_binaries(&vec![true, false, true]),
        Err(BenchError::Unavailable(_))
    ));
}
