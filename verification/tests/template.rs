use bitcoin_bench::config::{Config, Settings, Jobs, Job, default_bench};
use bitcoin_bench::error::BenchError;

fn job(name: &str, command: &str) -> Job {
    Job {
        name: name.to_string(),
        env: None,
        command: command.to_string(),
        bench: true,
        outfile: None,
    }
}

fn config_with(jobs: Vec<Job>, dir: Option<&str>) -> Config {
    Config {
        settings: Settings {
            binaries: vec![],
            bitcoin_data_dir: dir.map(|s| s.to_string()),
        },
        jobs: Jobs { jobs, cleanup: false },
    }
}

#[test]
fn bench_flag_defaults_on() {
    assert!(default_bench());
}

#[test]
fn tokens_are_substituted() {
    let mut c = config_with(
        vec![job("ibd", "bitcoind -par={cores} -datadir={bitcoin_data_dir}")],
        Some("/data"),
    );
    c.substitute_vars("8").unwrap();
    assert_eq!(c.jobs.jobs[0].command, "bitcoind -par=8 -datadir=/data");
}

#[test]
fn substitution_replaces_every_occurrence() {
    let mut c = config_with(vec![job("x", "{cores}+{cores}")], Some("/d"));
    c.substitute_vars("4").unwrap();
    assert_eq!(c.jobs.jobs[0].command, "4+4");
}

#[test]
fn substitution_without_data_dir_is_a_usage_error() {
    let mut c = config_with(vec![job("x", "run {cores}")], None);
    assert!(matches!(c.substitute_vars("4"), Err(BenchError::Usage(_))));
    // nothing was changed
    assert_eq!(c.jobs.jobs[0].command, "run {cores}");
}

#[test]
fn missing_outfile_gets_the_default_path() {
    let mut c = config_with(vec![job("echo", "echo hi")], Some("/d"));
    c.substitute_defaults("/bench");
    assert_eq!(c.jobs.jobs[0].outfile.as_deref(), Some("/bench/echo-results.txt"));
}

#[test]
fn declared_outfile_is_kept() {
    let mut c = config_with(vec![job("echo", "echo hi")], Some("/d"));
    c.jobs.jobs[0].outfile = Some("/custom.txt".to_string());
    c.substitute_defaults("/bench");
    assert_eq!(c.jobs.jobs[0].outfile.as_deref(), Some("/custom.txt"));
}
