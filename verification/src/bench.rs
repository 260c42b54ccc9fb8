use vstd::prelude::*;
use vstd::string::*;
use vstd::pervasive::unreached;
use crate::error::BenchError;
use crate::config::{Config, Job};
use crate::database::{Database, Run, JobView};
use crate::report::{TimeResult, spec_decode};
use crate::resolver::{CommitEntry, History, first_le, find_commit, get_commit_date,
    get_commit_id_from_date};
use crate::text::{is_ws, ws_char, first_at, find_char};
use crate::numbers::{dec_digits, i64_to_string};
use crate::util::{now_unix, date_stamp};

verus! {

/// Whether the sweep visits one point in time or a daily range.
#[derive(Debug)]
pub enum BenchType {
    Single,
    Multi,
}

/// One iteration at an explicitly named revision.
#[derive(Debug)]
pub struct Single {
    pub commit: String,
}

/// One iteration per day from `start` to `end` inclusive, both written
/// `YYYY-MM-DD`.
#[derive(Debug)]
pub struct Multi {
    pub start: String,
    pub end: String,
}

#[derive(Debug)]
pub enum BenchOptions {
    Single(Single),
    Multi(Multi),
}

/// The platform family, deciding which resource-accounting binary wraps
/// instrumented jobs.
#[derive(Debug, Clone, Copy)]
pub enum OsFamily {
    Linux,
    MacOs,
}

/// The instrumentation binary for each platform family.
pub open spec fn time_path(os: OsFamily) -> Seq<char> {
    match os {
        OsFamily::Linux => "/usr/bin/time"@,
        OsFamily::MacOs => "/usr/local/bin/gtime"@,
    }
}

fn time_binary(os: OsFamily) -> (r: &'static str)
    ensures
        r@ == time_path(os),
{
    match os {
        OsFamily::Linux => "/usr/bin/time",
        OsFamily::MacOs => "/usr/local/bin/gtime",
    }
}

/// The options a sweep can start from: a Single sweep names its
/// revision, a Multi sweep both its dates.
pub open spec fn options_valid(o: BenchOptions) -> bool {
    match o {
        BenchOptions::Single(s) => s.commit@.len() > 0,
        BenchOptions::Multi(m) => m.start@.len() > 0 && m.end@.len() > 0,
    }
}

/// The resolution a sweep target performs: a named revision looks up its
/// commit time; a date picks the most recent prior revision, then looks
/// its time up.
pub open spec fn spec_setup(o: BenchOptions, es: Seq<CommitEntry>, date: int) -> Option<
    (int, Seq<char>),
> {
    match o {
        BenchOptions::Single(s) => match find_commit(es, s.commit@) {
            Some(i) => Some((es[i].timestamp as int, s.commit@)),
            None => None,
        },
        BenchOptions::Multi(_) => match first_le(es, date) {
            Some(i) => {
                let id = es[i].commit_id@;
                match find_commit(es, id) {
                    Some(k) => Some((es[k].timestamp as int, id)),
                    None => None,
                }
            },
            None => None,
        },
    }
}

/// What a daily sweep benchmarks never postdates its target day: on a
/// history without repeated identifiers, the commit time a date resolves
/// to is at most the date itself.
pub proof fn lemma_setup_multi_within_date(o: BenchOptions, es: Seq<CommitEntry>, date: int)
    requires
        o is Multi,
        crate::resolver::unique_ids(es),
        spec_setup(o, es, date) is Some,
    ensures
        spec_setup(o, es, date)->Some_0.0 <= date,
{
    crate::resolver::lemma_first_le(es, date);
    let i = first_le(es, date)->Some_0;
    let id = es[i].commit_id@;
    crate::resolver::lemma_find_commit(es, id);
    let k = find_commit(es, id)->Some_0;
    if k != i {
        if k < i {
            assert(es[k].commit_id@ != es[i].commit_id@);
        } else {
            assert(es[i].commit_id@ != es[k].commit_id@);
        }
    }
}

/// The length of the leading whitespace-free word.
pub open spec fn word_len(s: Seq<char>) -> int
    decreases s.len(),
{
    if s.len() > 0 && !is_ws(s[0]) {
        1 + word_len(s.skip(1))
    } else {
        0
    }
}

pub proof fn lemma_word_len_bounds(s: Seq<char>)
    ensures
        0 <= word_len(s) <= s.len(),
    decreases s.len(),
{
    if s.len() > 0 && !is_ws(s[0]) {
        lemma_word_len_bounds(s.skip(1));
    }
}

#[via_fn]
proof fn tokens_dec(s: Seq<char>) {
    if s.len() > 0 && !is_ws(s[0]) {
        lemma_word_len_bounds(s.skip(1));
    }
}

/// A command split on whitespace into its words, as a raw job command is
/// turned into a program name and arguments.
pub open spec fn tokens(s: Seq<char>) -> Seq<Seq<char>>
    decreases s.len(),
    via tokens_dec
{
    if s.len() == 0 {
        Seq::empty()
    } else if is_ws(s[0]) {
        tokens(s.skip(1))
    } else {
        seq![s.take(word_len(s))] + tokens(s.skip(word_len(s)))
    }
}

proof fn lemma_word_len_at(s: Seq<char>, w: int)
    requires
        0 <= w <= s.len(),
        forall|k: int| 0 <= k < w ==> !is_ws(s[k]),
        w == s.len() || is_ws(s[w]),
    ensures
        word_len(s) == w,
    decreases w,
{
    if w > 0 {
        let t = s.skip(1);
        assert forall|k: int| 0 <= k < w - 1 implies !is_ws(t[k]) by {
            assert(t[k] == s[k + 1]);
        }
        if w - 1 < t.len() {
            assert(t[w - 1] == s[w]);
        }
        lemma_word_len_at(t, w - 1);
    }
}

/// The `KEY=VALUE` pairs among a job's environment strings: split at the
/// first `=`, strings without one skipped.
pub open spec fn env_pairs(es: Seq<Seq<char>>) -> Seq<(Seq<char>, Seq<char>)>
    decreases es.len(),
{
    if es.len() == 0 {
        Seq::empty()
    } else {
        let p = env_pairs(es.drop_last());
        match first_at(es.last(), '=') {
            None => p,
            Some(i) => p.push((es.last().take(i), es.last().skip(i + 1))),
        }
    }
}

/// Everything the process runner needs to execute one job: the program
/// and arguments, where its output streams go, and its environment
/// overrides.
#[derive(Debug)]
pub struct JobPlan {
    pub program: String,
    pub args: Vec<String>,
    pub stdout_path: String,
    pub stderr_path: String,
    pub env: Vec<(String, String)>,
}

/// The per-(run, job) log path: unique so runs never overwrite each
/// other's captured output.
pub open spec fn log_path(run_id: int, name: Seq<char>, suffix: Seq<char>) -> Seq<char> {
    "/tmp/"@ + dec_digits(run_id) + "-"@ + name + suffix
}

fn make_log_path(run_id: i64, name: &str, suffix: &str) -> (r: String)
    requires
        run_id >= 0,
    ensures
        r@ == log_path(run_id as int, name@, suffix@),
{
    let mut s = String::from_str("/tmp/");
    let digits = i64_to_string(run_id);
    s.append(digits.as_str());
    s.append("-");
    s.append(name);
    s.append(suffix);
    s
}

impl Bencher {
    fn validate_options(options: &BenchOptions) -> (r: Result<(), BenchError>)
        ensures
            r is Ok <==> options_valid(*options),
            r is Err ==> r->Err_0 is Usage,
    {
        match options {
            BenchOptions::Single(single) => {
                if single.commit.as_str().unicode_len() == 0 {
                    Err(
                        BenchError::Usage(
                            String::from_str("a revision must be named for a single sweep"),
                        ),
                    )
                } else {
                    Ok(())
                }
            },
            BenchOptions::Multi(multi) => {
                if multi.start.as_str().unicode_len() == 0 || multi.end.as_str().unicode_len()
                    == 0 {
                    Err(
                        BenchError::Usage(
                            String::from_str("start and end dates must be given for a daily sweep"),
                        ),
                    )
                } else {
                    Ok(())
                }
            },
        }
    }
}

/// Where a sweep stands: what outside work it awaits next.
#[derive(Debug)]
pub enum Phase {
    Idle,
    AwaitSource,
    AwaitFetch,
    AwaitHistory,
    AwaitCheckout,
    Jobs,
    AwaitErase,
    Done,
}

/// The sweep controller: owns the configuration and the result store,
/// decides every step of a sweep, and leaves all outside work (git,
/// process spawning, file handling) to its caller as explicit actions.
pub struct Bencher {
    pub config: Config,
    pub db: Database,
    pub src_dir: String,
    pub bench_type: BenchType,
    pub options: BenchOptions,
    pub os: OsFamily,
    pub phase: Phase,
    pub run_date: i64,
    pub history: Option<History>,
    pub dates: Vec<i64>,
    pub date_idx: usize,
    pub run_id: i64,
    pub job_idx: usize,
}

impl Bencher {
    /// Build a sweep controller over a loaded configuration and an open
    /// store; refused as a usage error when the options name no
    /// revision or no dates.
    pub fn new(
        config: Config,
        db: Database,
        src_dir: String,
        bench_type: BenchType,
        options: BenchOptions,
    ) -> (r: Result<Bencher, BenchError>)
        ensures
            r is Ok <==> options_valid(options),
            r is Err ==> r->Err_0 is Usage,
            r is Ok ==> {
                &&& r->Ok_0.config == config
                &&& r->Ok_0.db == db
                &&& r->Ok_0.src_dir == src_dir
                &&& r->Ok_0.bench_type == bench_type
                &&& r->Ok_0.options == options
                &&& r->Ok_0.phase is Idle
                &&& r->Ok_0.os is Linux
            },
    {
        match Self::validate_options(&options) {
            Err(e) => Err(e),
            Ok(()) => Ok(
                Bencher {
                    config,
                    db,
                    src_dir,
                    bench_type,
                    options,
                    os: OsFamily::Linux,
                    phase: Phase::Idle,
                    run_date: 0,
                    history: None,
                    dates: Vec::new(),
                    date_idx: 0,
                    run_id: 0,
                    job_idx: 0,
                },
            ),
        }
    }

    /// Resolve what this sweep benchmarks at `date_to_use`: the commit
    /// time of the named revision (single), or the most recent
    /// primary-line revision at or before the date and its commit time
    /// (daily).
    pub fn setup(&self, date_to_use: i64, history: &History) -> (r: Result<
        (i64, String),
        BenchError,
    >)
        ensures
            match r {
                Ok(p) => spec_setup(self.options, history.entries@, date_to_use as int) == Some(
                    (p.0 as int, p.1@),
                ),
                Err(e) => spec_setup(self.options, history.entries@, date_to_use as int) is None
                    && e is NotFound,
            },
    {
        match &self.options {
            BenchOptions::Single(single) => {
                match get_commit_date(history, single.commit.as_str()) {
                    Ok(commit_date) => Ok((commit_date, single.commit.clone())),
                    Err(e) => Err(e),
                }
            },
            BenchOptions::Multi(_) => {
                match get_commit_id_from_date(history, date_to_use) {
                    Err(e) => Err(e),
                    Ok(commit_id) => match get_commit_date(history, commit_id.as_str()) {
                        Ok(commit_date) => Ok((commit_date, commit_id)),
                        Err(e) => Err(e),
                    },
                }
            },
        }
    }

    /// The `KEY=VALUE` environment overrides of a job; strings without
    /// an `=` are skipped, not fatal.
    pub fn process_env_vars(&self, env: &Option<Vec<String>>) -> (r: Vec<(String, String)>)
        ensures
            ({
                let es = match *env {
                    None => Seq::<Seq<char>>::empty(),
                    Some(v) => v@.map_values(|s: String| s@),
                };
                &&& r@.len() == env_pairs(es).len()
                &&& forall|i: int|
                    0 <= i < r@.len() ==> (#[trigger] r@[i]).0@ == env_pairs(es)[i].0 && r@[
                        i].1@ == env_pairs(es)[i].1
            }),
    {
        let mut out: Vec<(String, String)> = Vec::new();
        let vars = match env {
            None => {
                proof {
                    assert(env_pairs(Seq::<Seq<char>>::empty()) =~= Seq::<
                        (Seq<char>, Seq<char>),
                    >::empty());
                }
                return out;
            },
            Some(v) => v,
        };
        let ghost es = vars@.map_values(|s: String| s@);
        let n = vars.len();
        let mut i: usize = 0;
        proof {
            assert(es.take(0) =~= Seq::<Seq<char>>::empty());
        }
        while i < n
            invariant
                n == vars@.len(),
                es == vars@.map_values(|s: String| s@),
                0 <= i <= n,
                out@.len() == env_pairs(es.take(i as int)).len(),
                forall|k: int|
                    0 <= k < out@.len() ==> (#[trigger] out@[k]).0@ == env_pairs(
                        es.take(i as int),
                    )[k].0 && out@[k].1@ == env_pairs(es.take(i as int))[k].1,
            decreases n - i,
        {
            let var = &vars[i];
            let vn = var.as_str().unicode_len();
            proof {
                assert(es.take(i + 1).drop_last() =~= es.take(i as int));
                assert(es.take(i + 1).last() == es[i as int]);
                assert(es[i as int] == var@);
            }
            match find_char(var.as_str(), '=') {
                None => {},
                Some(p) => {
                    let key = var.as_str().substring_char(0, p);
                    let value = var.as_str().substring_char(p + 1, vn);
                    proof {
                        assert(key@ =~= var@.take(p as int));
                        assert(value@ =~= var@.skip(p + 1));
                    }
                    out.push((String::from_str(key), String::from_str(value)));
                },
            }
            i = i + 1;
        }
        proof {
            assert(es.take(n as int) =~= es);
        }
        out
    }

    /// Split a job's command on whitespace; a command that is empty
    /// after trimming is a usage error, reported before any process is
    /// spawned.
    pub fn process_args(&self, args: &str) -> (r: Result<Vec<String>, BenchError>)
        ensures
            r is Ok <==> tokens(args@).len() > 0,
            r is Err ==> r->Err_0 is Usage,
            r is Ok ==> {
                &&& r->Ok_0@.len() == tokens(args@).len()
                &&& forall|k: int|
                    0 <= k < tokens(args@).len() ==> (#[trigger] r->Ok_0@[k])@ == tokens(
                        args@,
                    )[k]
            },
    {
        let n = args.unicode_len();
        let mut out: Vec<String> = Vec::new();
        let mut i: usize = 0;
        proof {
            assert(args@.skip(0) =~= args@);
            assert(out@.map_values(|s: String| s@) + tokens(args@) =~= tokens(args@));
        }
        while i < n
            invariant
                n == args@.len(),
                0 <= i <= n,
                tokens(args@) == out@.map_values(|s: String| s@) + tokens(args@.skip(i as int)),
            decreases n - i,
        {
            let ghost t = args@.skip(i as int);
            if ws_char(args.get_char(i)) {
                proof {
                    assert(t.skip(1) =~= args@.skip(i + 1));
                }
                i = i + 1;
            } else {
                let mut j = i + 1;
                while j < n && !ws_char(args.get_char(j))
                    invariant
                        n == args@.len(),
                        0 <= i < j <= n,
                        forall|k: int| i <= k < j ==> !is_ws(args@[k]),
                    decreases n - j,
                {
                    j = j + 1;
                }
                proof {
                    assert forall|k: int| 0 <= k < j - i implies !is_ws(t[k]) by {
                        assert(t[k] == args@[i + k]);
                    }
                    if j < n {
                        assert(t[j - i] == args@[j as int]);
                    }
                    lemma_word_len_at(t, j - i);
                    assert(t.take(j - i) =~= args@.subrange(i as int, j as int));
                    assert(t.skip(j - i) =~= args@.skip(j as int));
                }
                let word = args.substring_char(i, j);
                let ghost out_before = out@;
                out.push(String::from_str(word));
                proof {
                    assert(out@.map_values(|s: String| s@) =~= out_before.map_values(
                        |s: String| s@,
                    ).push(word@));
                    assert(out_before.map_values(|s: String| s@).push(word@) + tokens(
                        args@.skip(j as int),
                    ) =~= out_before.map_values(|s: String| s@) + (seq![word@] + tokens(
                        args@.skip(j as int),
                    )));
                }
                i = j;
            }
        }
        proof {
            assert(args@.skip(n as int) =~= Seq::<char>::empty());
            assert(out@.map_values(|s: String| s@) + Seq::<Seq<char>>::empty() =~= out@.map_values(
                |s: String| s@,
            ));
        }
        if out.len() == 0 {
            Err(BenchError::Usage(String::from_str("a job command is empty")))
        } else {
            Ok(out)
        }
    }

    /// Build a job's program and argument list.  An instrumented job is
    /// wrapped by the platform's resource-accounting binary with verbose
    /// reporting into the job's declared report file; a raw job runs its
    /// first word as the program.
    pub fn create_command(&self, job: &Job, bench_args: &Vec<String>) -> (r: Result<
        (String, Vec<String>),
        BenchError,
    >)
        requires
            job.bench ==> job.outfile is Some,
        ensures
            r is Err ==> r->Err_0 is Usage,
            job.bench ==> r is Ok && {
                let (prog, cargs) = r->Ok_0;
                &&& prog@ == time_path(self.os)
                &&& cargs@.len() == 2 + bench_args@.len()
                &&& cargs@[0]@ == "-v"@
                &&& cargs@[1]@ == "--output="@ + job.outfile->0@
                &&& forall|k: int|
                    0 <= k < bench_args@.len() ==> (#[trigger] cargs@[k + 2])@ == bench_args@[
                        k]@
            },
            !job.bench ==> {
                &&& r is Ok <==> bench_args@.len() > 0
                &&& r is Ok ==> {
                    let (prog, cargs) = r->Ok_0;
                    &&& prog@ == bench_args@[0]@
                    &&& cargs@.len() == bench_args@.len() - 1
                    &&& forall|k: int|
                        0 <= k < cargs@.len() ==> (#[trigger] cargs@[k])@ == bench_args@[k + 1]@
                }
            },
    {
        let n = bench_args.len();
        if job.bench {
            let prog = String::from_str(time_binary(self.os));
            let mut cargs: Vec<String> = Vec::new();
            cargs.push(String::from_str("-v"));
            let mut redirect = String::from_str("--output=");
            let outfile = match &job.outfile {
                Some(o) => o,
                None => unreached(),
            };
            redirect.append(outfile.as_str());
            cargs.push(redirect);
            let mut k: usize = 0;
            while k < n
                invariant
                    n == bench_args@.len(),
                    0 <= k <= n,
                    cargs@.len() == 2 + k,
                    cargs@[0]@ == "-v"@,
                    cargs@[1]@ == "--output="@ + job.outfile->0@,
                    forall|i: int|
                        0 <= i < k ==> (#[trigger] cargs@[i + 2])@ == bench_args@[i]@,
                decreases n - k,
            {
                cargs.push(bench_args[k].clone());
                k = k + 1;
            }
            Ok((prog, cargs))
        } else {
            if n == 0 {
                return Err(
                    BenchError::Usage(String::from_str("a job command names no program")),
                );
            }
            let prog = bench_args[0].clone();
            let mut cargs: Vec<String> = Vec::new();
            let mut k: usize = 1;
            while k < n
                invariant
                    n == bench_args@.len(),
                    1 <= k <= n,
                    cargs@.len() == k - 1,
                    forall|i: int| 0 <= i < k - 1 ==> (#[trigger] cargs@[i])@ == bench_args@[i + 1]@,
                decreases n - k,
            {
                cargs.push(bench_args[k].clone());
                k = k + 1;
            }
            Ok((prog, cargs))
        }
    }

    /// Everything needed to run one job under `run_id`: the (possibly
    /// instrumented) command, log paths unique to this run and job, and
    /// the parsed environment overrides.  A whitespace-only command is a
    /// usage error, found before anything is spawned.
    pub fn plan_job(&self, job: &Job, run_id: i64) -> (r: Result<JobPlan, BenchError>)
        requires
            run_id >= 0,
            job.bench ==> job.outfile is Some,
        ensures
            r is Ok <==> tokens(job.command@).len() > 0,
            r is Err ==> r->Err_0 is Usage,
            r is Ok ==> {
                let plan = r->Ok_0;
                let ts = tokens(job.command@);
                &&& plan.stdout_path@ == log_path(run_id as int, job.name@, "-output.log"@)
                &&& plan.stderr_path@ == log_path(run_id as int, job.name@, "-error.log"@)
                &&& ({
                    let es = match job.env {
                        None => Seq::<Seq<char>>::empty(),
                        Some(v) => v@.map_values(|s: String| s@),
                    };
                    &&& plan.env@.len() == env_pairs(es).len()
                    &&& forall|i: int|
                        0 <= i < plan.env@.len() ==> (#[trigger] plan.env@[i]).0@ == env_pairs(
                            es,
                        )[i].0 && plan.env@[i].1@ == env_pairs(es)[i].1
                })
                &&& job.bench ==> {
                    &&& plan.program@ == time_path(self.os)
                    &&& plan.args@.len() == 2 + ts.len()
                    &&& plan.args@[0]@ == "-v"@
                    &&& plan.args@[1]@ == "--output="@ + job.outfile->0@
                    &&& forall|k: int| 0 <= k < ts.len() ==> (#[trigger] plan.args@[k + 2])@ == ts[k]
                }
                &&& !job.bench ==> {
                    &&& plan.program@ == ts[0]
                    &&& plan.args@.len() == ts.len() - 1
                    &&& forall|k: int| 0 <= k < plan.args@.len() ==> (#[trigger] plan.args@[k])@ == ts[k + 1]
                }
            },
    {
        let stdout_path = make_log_path(run_id, job.name.as_str(), "-output.log");
        let stderr_path = make_log_path(run_id, job.name.as_str(), "-error.log");
        let bench_args = match self.process_args(job.command.as_str()) {
            Ok(v) => v,
            Err(e) => {
                return Err(e);
            },
        };
        let (program, args) = match self.create_command(job, &bench_args) {
            Ok(p) => p,
            Err(e) => {
                return Err(e);
            },
        };
        let env = self.process_env_vars(&job.env);
        Ok(JobPlan { program, args, stdout_path, stderr_path, env })
    }

    /// Judge one finished job.  A nonzero exit aborts the run's job
    /// list, pointing at the captured stderr log.  A successful
    /// instrumented job has its report decoded and stored under
    /// `run_id`; anything unreadable in the report, or an unknown run,
    /// is fatal too.
    pub fn handle_job_result(
        &mut self,
        success: bool,
        job_idx: usize,
        run_id: i64,
        report: Option<&str>,
        stderr_path: &str,
    ) -> (r: Result<Option<i64>, BenchError>)
        requires
            old(self).db.wf(),
            old(self).db.jobs@.len() < 0x7fff_ffff_ffff_fffe,
            job_idx < old(self).config.jobs.jobs@.len(),
        ensures
            final(self).db.wf(),
            final(self).config == old(self).config,
            final(self).db.runs@ == old(self).db.runs@,
            final(self).phase == old(self).phase,
            final(self).options == old(self).options,
            final(self).history == old(self).history,
            final(self).dates == old(self).dates,
            final(self).date_idx == old(self).date_idx,
            final(self).run_id == old(self).run_id,
            final(self).job_idx == old(self).job_idx,
            final(self).run_date == old(self).run_date,
            final(self).src_dir == old(self).src_dir,
            final(self).os == old(self).os,
            final(self).bench_type == old(self).bench_type,
            !success ==> {
                &&& r is Err
                &&& final(self).db.jobs@ == old(self).db.jobs@
                &&& r->Err_0 matches BenchError::Execution(m) && m@ == "job failed, see '"@
                    + stderr_path@ + "' for details"@
            },
            success ==> ({
                let job = old(self).config.jobs.jobs@[job_idx as int];
                if job.bench && job.outfile is Some {
                    if report is None {
                        r is Err && r->Err_0 is Io && final(self).db.jobs@ == old(self).db.jobs@
                    } else {
                    match spec_decode(report->0@) {
                        None => r is Err && r->Err_0 is Decode && final(self).db.jobs@ == old(
                            self,
                        ).db.jobs@,
                        Some(tv) => {
                            if 1 <= run_id <= old(self).db.runs@.len() {
                                &&& r is Ok
                                &&& r->Ok_0 == Some((old(self).db.jobs@.len() + 1) as i64)
                                &&& final(self).db.jobs@.len() == old(self).db.jobs@.len() + 1
                                &&& (forall|i: int|
                                    0 <= i < old(self).db.jobs@.len()
                                        ==> #[trigger] final(self).db.jobs@[i]@ == old(
                                        self,
                                    ).db.jobs@[i]@)
                                &&& final(self).db.jobs@.last()@ == (JobView {
                                    job_id: old(self).db.jobs@.len() + 1int,
                                    run_id: run_id as int,
                                    result: tv,
                                })
                            } else {
                                r is Err && r->Err_0 is Integrity && final(self).db.jobs@ == old(
                                    self,
                                ).db.jobs@
                            }
                        },
                    }
                    }
                } else {
                    r == Ok::<Option<i64>, BenchError>(None) && final(self).db.jobs@ == old(
                        self,
                    ).db.jobs@
                }
            }),
    {
        if !success {
            let mut msg = String::from_str("job failed, see '");
            msg.append(stderr_path);
            msg.append("' for details");
            return Err(BenchError::Execution(msg));
        }
        let bench = self.config.jobs.jobs[job_idx].bench;
        let has_outfile = match &self.config.jobs.jobs[job_idx].outfile {
            Some(_) => true,
            None => false,
        };
        if bench && has_outfile {
            let text = match report {
                Some(t) => t,
                None => {
                    return Err(
                        BenchError::Io(
                            String::from_str("no instrumentation report was captured"),
                        ),
                    );
                },
            };
            match TimeResult::decode(text) {
                Err(e) => Err(e),
                Ok(tr) => match self.db.record_job(run_id, tr) {
                    Ok(id) => Ok(Some(id)),
                    Err(e) => Err(e),
                },
            }
        } else {
            Ok(None)
        }
    }

    /// The between-iteration cleanup decision: the data directory to
    /// erase, when the cleanup flag is set and a directory is known.
    /// The source checkout is never the answer.
    pub fn cleanup_if_needed(&self) -> (r: Option<String>)
        ensures
            r is Some <==> (self.config.jobs.cleanup
                && self.config.settings.bitcoin_data_dir is Some),
            r is Some ==> r->0@ == self.config.settings.bitcoin_data_dir->0@,
    {
        if self.config.jobs.cleanup {
            match &self.config.settings.bitcoin_data_dir {
                Some(d) => Some(d.clone()),
                None => None,
            }
        } else {
            None
        }
    }
}

/// The target dates of a daily sweep: every day from `start` to `end`
/// inclusive, stepped by exactly 86 400 seconds with no calendar
/// arithmetic.
pub fn plan_dates(start: i64, end: i64) -> (r: Vec<i64>)
    requires
        end <= i64::MAX - 86400,
    ensures
        start > end ==> r@.len() == 0,
        start <= end ==> r@.len() >= 1 && r@[0] == start && r@.last() <= end && r@.last() + 86400
            > end,
        forall|k: int| 1 <= k < r@.len() ==> #[trigger] r@[k] == r@[k - 1] + 86400,
{
    let mut out: Vec<i64> = Vec::new();
    let mut cur = start;
    while cur <= end
        invariant
            end <= i64::MAX - 86400,
            start <= cur,
            out@.len() == 0 ==> cur == start,
            out@.len() > 0 ==> start <= end,
            out@.len() > 0 ==> dates_chain(out@, start as int, end as int, cur as int),
            forall|k: int| 1 <= k < out@.len() ==> #[trigger] out@[k] == out@[k - 1] + 86400,
        decreases end + 86400 - cur,
    {
        out.push(cur);
        cur = cur + 86400;
    }
    out
}

/// How a growing date plan relates to its bounds and cursor.
pub open spec fn dates_chain(v: Seq<i64>, start: int, end: int, cur: int) -> bool {
    v.len() >= 1 && v[0] == start && v.last() <= end && cur == v.last() + 86400
}

/// What the sweep loop asks its caller to do next.  Every action is
/// answered by one event; `Finished` ends the sweep.
#[derive(Debug)]
pub enum SweepAction {
    /// Check that the named file exists, to validate the source tree.
    CheckSource { path: String },
    /// Refresh all remote-tracking references of the source repository.
    Fetch,
    /// List the primary line's history, newest first.
    ListHistory,
    /// Switch the source tree to this revision, detached.
    Checkout { commit_id: String },
    /// Spawn the planned job and wait for it.
    RunJob { plan: JobPlan },
    /// Recursively erase the benchmark data directory.
    EraseDataDir { path: String },
    /// The sweep is over.
    Finished,
}

/// What the caller reports back after performing an action.
#[derive(Debug)]
pub enum SweepEvent {
    SourceChecked { exists: bool },
    Fetched { ok: bool },
    HistoryListed { entries: Vec<CommitEntry> },
    CheckedOut { ok: bool },
    JobFinished { exit_ok: bool, report: Option<String> },
    Erased { ok: bool },
}

/// Whether the sweep, standing in phase `p`, awaits this event; any
/// other event is a caller mistake.
pub open spec fn awaited(p: Phase, ev: SweepEvent) -> bool {
    match ev {
        SweepEvent::SourceChecked { .. } => p is AwaitSource,
        SweepEvent::Fetched { .. } => p is AwaitFetch,
        SweepEvent::HistoryListed { .. } => p is AwaitHistory,
        SweepEvent::CheckedOut { .. } => p is AwaitCheckout,
        SweepEvent::JobFinished { .. } => p is Jobs,
        SweepEvent::Erased { .. } => p is AwaitErase,
    }
}

/// Whether the next iteration can open: either no target dates remain,
/// or the next one resolves against the listed history.
pub open spec fn can_advance(b: Bencher) -> bool {
    b.date_idx == b.dates@.len() || spec_setup(
        b.options,
        b.history->0.entries@,
        b.dates@[b.date_idx as int] as int,
    ) is Some
}

/// Whether the between-iteration cleanup will be asked for.
pub open spec fn wants_cleanup(b: Bencher) -> bool {
    b.config.jobs.cleanup && b.config.settings.bitcoin_data_dir is Some
}

/// Whether the sweep can go on once the job cursor stands at `j`:
/// another job can be planned, a cleanup is owed, or the next
/// iteration (or the end) can open.
pub open spec fn can_continue(b: Bencher, j: int) -> bool {
    if j < b.config.jobs.jobs@.len() {
        tokens(b.config.jobs.jobs@[j].command@).len() > 0
    } else if wants_cleanup(b) {
        true
    } else {
        can_advance(b)
    }
}

/// Whether a finished job's captured report lets its result be stored:
/// an instrumented job must hand back a readable report.
pub open spec fn job_report_ok(job: Job, report: Option<String>) -> bool {
    (job.bench && job.outfile is Some) ==> (report is Some && spec_decode(report->0@) is Some)
}

/// What the listed history must allow for the sweep to open its first
/// iteration: a single sweep's target must resolve at the sweep's start
/// time; a daily sweep needs both dates parsed and, unless the range is
/// empty, the first day resolved.
pub open spec fn history_ok(b: Bencher, es: Seq<CommitEntry>) -> bool {
    match b.bench_type {
        BenchType::Single => spec_setup(b.options, es, b.run_date as int) is Some,
        BenchType::Multi => match b.options {
            BenchOptions::Multi(m) => {
                &&& date_stamp(m.start@) is Some
                &&& date_stamp(m.end@) is Some
                &&& (date_stamp(m.start@)->Some_0 > date_stamp(m.end@)->Some_0 || spec_setup(
                    b.options,
                    es,
                    date_stamp(m.start@)->Some_0,
                ) is Some)
            },
            BenchOptions::Single(_) => false,
        },
    }
}

impl Bencher {
    /// The controller's invariant: a sound store, a usable run id, a
    /// date cursor within its plan, and a report file for every
    /// instrumented job.
    pub open spec fn wf(self) -> bool {
        &&& self.db.wf()
        &&& self.run_id >= 0
        &&& self.date_idx <= self.dates@.len()
        &&& (self.phase is AwaitCheckout || self.phase is Jobs || self.phase is AwaitErase)
            ==> self.history is Some
        &&& (self.phase is AwaitCheckout || self.phase is Jobs) ==> 1 <= self.run_id
            <= self.db.runs@.len()
        &&& forall|j: int|
            0 <= j < self.config.jobs.jobs@.len() ==> ((#[trigger] self.config.jobs.jobs@[j]).bench
                ==> self.config.jobs.jobs@[j].outfile is Some)
    }

    /// Begin the sweep, stamping it with the current wall-clock time.
    pub fn run(&mut self) -> (r: SweepAction)
        requires
            old(self).phase is Idle,
            old(self).wf(),
        ensures
            final(self).wf(),
            final(self).phase is AwaitSource,
            r matches SweepAction::CheckSource { path } && path@ == old(self).src_dir@
                + "/src/init.cpp"@,
            final(self).db == old(self).db,
            final(self).config == old(self).config,
            final(self).options == old(self).options,
    {
        let run_date = now_unix();
        self.start_at(run_date)
    }

    /// Begin the sweep at an explicit wall-clock time, recorded as the
    /// shared `run_date` of every run row this sweep writes.
    pub fn start_at(&mut self, run_date: i64) -> (r: SweepAction)
        requires
            old(self).phase is Idle,
            old(self).wf(),
        ensures
            final(self).wf(),
            final(self).phase is AwaitSource,
            final(self).run_date == run_date,
            r matches SweepAction::CheckSource { path } && path@ == old(self).src_dir@
                + "/src/init.cpp"@,
            final(self).db == old(self).db,
            final(self).config == old(self).config,
            final(self).options == old(self).options,
            final(self).src_dir == old(self).src_dir,
            final(self).os == old(self).os,
    {
        self.run_date = run_date;
        self.phase = Phase::AwaitSource;
        let mut path = self.src_dir.clone();
        path.append("/src/init.cpp");
        SweepAction::CheckSource { path }
    }

    /// Move to the next sweep iteration: resolve the next target date,
    /// record its run, and ask for its checkout — or report the sweep
    /// finished when no dates remain.
    fn advance(&mut self) -> (r: Result<SweepAction, BenchError>)
        requires
            old(self).wf(),
            old(self).history is Some,
            old(self).db.runs@.len() < 0x7fff_ffff_ffff_fffe,
        ensures
            final(self).wf(),
            final(self).config == old(self).config,
            final(self).options == old(self).options,
            final(self).src_dir == old(self).src_dir,
            final(self).os == old(self).os,
            final(self).run_date == old(self).run_date,
            final(self).bench_type == old(self).bench_type,
            final(self).history == old(self).history,
            final(self).dates == old(self).dates,
            final(self).db.jobs@ == old(self).db.jobs@,
            final(self).db.runs@.len() >= old(self).db.runs@.len(),
            forall|i: int|
                0 <= i < old(self).db.runs@.len() ==> #[trigger] final(self).db.runs@[i]@ == old(
                    self,
                ).db.runs@[i]@,
            r is Err ==> final(self).phase is Done && r->Err_0 is NotFound && final(self).db.runs@ == old(self).db.runs@,
            r is Ok <==> can_advance(*old(self)),
            (r is Ok && old(self).date_idx == old(self).dates@.len()) ==> r->Ok_0 is Finished,
            (r is Ok && old(self).date_idx < old(self).dates@.len()) ==> r->Ok_0 is Checkout,
            match r {
                Err(_) => true,
                Ok(a) => match a {
                    SweepAction::Finished => final(self).phase is Done && final(self).db.runs@
                        == old(self).db.runs@ && final(self).date_idx == old(self).date_idx
                        && old(self).date_idx == old(self).dates@.len(),
                    SweepAction::Checkout { commit_id } => {
                        &&& final(self).phase is AwaitCheckout
                        &&& final(self).date_idx == old(self).date_idx + 1
                        &&& final(self).job_idx == 0
                        &&& final(self).db.runs@.len() == old(self).db.runs@.len() + 1
                        &&& final(self).run_id == old(self).db.runs@.len() + 1
                        &&& ({
                            let es = old(self).history->0.entries@;
                            let d = old(self).dates@[old(self).date_idx as int];
                            let last = final(self).db.runs@.last()@;
                            &&& spec_setup(old(self).options, es, d as int) == Some(
                                (last.commit_date, last.commit_id),
                            )
                            &&& last.run_date == old(self).run_date
                            &&& last.was_master == true
                            &&& commit_id@ == last.commit_id
                        })
                    },
                    _ => false,
                },
            },
    {
        if self.date_idx >= self.dates.len() {
            self.phase = Phase::Done;
            return Ok(SweepAction::Finished);
        }
        let d = self.dates[self.date_idx];
        let resolved = match &self.history {
            Some(hist) => self.setup(d, hist),
            None => unreached(),
        };
        match resolved {
            Err(e) => {
                self.phase = Phase::Done;
                Err(e)
            },
            Ok((commit_date, commit_id)) => {
                let run = Run {
                    id: None,
                    run_date: self.run_date,
                    commit_id: commit_id.clone(),
                    commit_date,
                    was_master: true,
                };
                match self.db.record_run(run) {
                    Ok(rid) => {
                        self.run_id = rid;
                        self.job_idx = 0;
                        self.date_idx = self.date_idx + 1;
                        self.phase = Phase::AwaitCheckout;
                        Ok(SweepAction::Checkout { commit_id })
                    },
                    Err(_) => unreached(),
                }
            },
        }
    }

    /// Ask for the next job of the current run, or close the iteration:
    /// cleanup if configured, then the next date or the end.
    fn next_job_action(&mut self) -> (r: Result<SweepAction, BenchError>)
        requires
            old(self).wf(),
            old(self).phase is AwaitCheckout || old(self).phase is Jobs,
            old(self).history is Some,
            old(self).db.runs@.len() < 0x7fff_ffff_ffff_fffe,
        ensures
            final(self).wf(),
            final(self).config == old(self).config,
            final(self).options == old(self).options,
            final(self).src_dir == old(self).src_dir,
            final(self).os == old(self).os,
            final(self).run_date == old(self).run_date,
            final(self).bench_type == old(self).bench_type,
            final(self).history == old(self).history,
            final(self).dates == old(self).dates,
            final(self).db.jobs@ == old(self).db.jobs@,
            final(self).db.runs@.len() >= old(self).db.runs@.len(),
            forall|i: int|
                0 <= i < old(self).db.runs@.len() ==> #[trigger] final(self).db.runs@[i]@ == old(
                    self,
                ).db.runs@[i]@,
            r is Err ==> final(self).phase is Done,
            r is Ok <==> can_continue(*old(self), old(self).job_idx as int),
            (r is Ok && old(self).job_idx < old(self).config.jobs.jobs@.len()) ==> r->Ok_0
                is RunJob,
            (r is Ok && old(self).job_idx >= old(self).config.jobs.jobs@.len() && wants_cleanup(
                *old(self),
            )) ==> r->Ok_0 is EraseDataDir,
            (r is Ok && old(self).job_idx >= old(self).config.jobs.jobs@.len() && !wants_cleanup(
                *old(self),
            ) && old(self).date_idx == old(self).dates@.len()) ==> r->Ok_0 is Finished,
            (r is Ok && old(self).job_idx >= old(self).config.jobs.jobs@.len() && !wants_cleanup(
                *old(self),
            ) && old(self).date_idx < old(self).dates@.len()) ==> r->Ok_0 is Checkout,
            match r {
                Err(e) => e is Usage || e is NotFound,
                Ok(a) => match a {
                    SweepAction::RunJob { plan } => final(self).phase is Jobs && final(self).db.runs@ == old(self).db.runs@ && final(self).job_idx == old(self).job_idx
                        && old(self).job_idx < old(self).config.jobs.jobs@.len(),
                    SweepAction::EraseDataDir { path } => final(self).phase is AwaitErase
                        && final(self).db.runs@ == old(self).db.runs@ && old(self).config.jobs.cleanup
                        && path@ == old(self).config.settings.bitcoin_data_dir->0@,
                    SweepAction::Finished => final(self).phase is Done && final(self).db.runs@
                        == old(self).db.runs@,
                    SweepAction::Checkout { commit_id } => {
                        &&& final(self).phase is AwaitCheckout
                        &&& final(self).date_idx == old(self).date_idx + 1
                        &&& 1 <= final(self).date_idx <= final(self).dates@.len()
                        &&& final(self).db.runs@.len() == old(self).db.runs@.len() + 1
                        &&& ({
                            let es = old(self).history->0.entries@;
                            let d = old(self).dates@[old(self).date_idx as int];
                            let last = final(self).db.runs@.last()@;
                            &&& spec_setup(old(self).options, es, d as int) == Some(
                                (last.commit_date, last.commit_id),
                            )
                            &&& last.run_date == old(self).run_date
                            &&& last.was_master == true
                            &&& commit_id@ == last.commit_id
                        })
                    },
                    _ => false,
                },
            },
    {
        if self.job_idx < self.config.jobs.jobs.len() {
            let plan = match self.plan_job(&self.config.jobs.jobs[self.job_idx], self.run_id) {
                Ok(p) => p,
                Err(e) => {
                    self.phase = Phase::Done;
                    return Err(e);
                },
            };
            self.phase = Phase::Jobs;
            return Ok(SweepAction::RunJob { plan });
        }
        match self.cleanup_if_needed() {
            Some(path) => {
                self.phase = Phase::AwaitErase;
                Ok(SweepAction::EraseDataDir { path })
            },
            None => self.advance(),
        }
    }

    /// Feed one completed action's outcome back into the sweep and get
    /// the next action.  Any failure — a wrong source tree, a failed
    /// fetch or checkout, a failed job, an unreadable report — aborts
    /// the whole sweep (fail-fast); nothing already recorded is ever
    /// changed.
    pub fn step(&mut self, ev: SweepEvent) -> (r: Result<SweepAction, BenchError>)
        requires
            old(self).wf(),
            old(self).db.runs@.len() < 0x7fff_ffff_ffff_fffe,
            old(self).db.jobs@.len() < 0x7fff_ffff_ffff_fffe,
        ensures
            final(self).wf(),
            final(self).config == old(self).config,
            final(self).options == old(self).options,
            final(self).src_dir == old(self).src_dir,
            final(self).os == old(self).os,
            final(self).bench_type == old(self).bench_type,
            final(self).db.runs@.len() >= old(self).db.runs@.len(),
            forall|i: int|
                0 <= i < old(self).db.runs@.len() ==> #[trigger] final(self).db.runs@[i]@ == old(
                    self,
                ).db.runs@[i]@,
            final(self).db.jobs@.len() >= old(self).db.jobs@.len(),
            forall|i: int|
                0 <= i < old(self).db.jobs@.len() ==> #[trigger] final(self).db.jobs@[i]@ == old(
                    self,
                ).db.jobs@[i]@,
            final(self).run_date == old(self).run_date,
            r is Err ==> final(self).phase is Done,
            !awaited(old(self).phase, ev) ==> r is Err && r->Err_0 is Usage && final(self).db
                == old(self).db,
            match ev {
                SweepEvent::SourceChecked { exists: found } => old(self).phase is AwaitSource
                    ==> {
                    &&& found ==> r is Ok && r->Ok_0 is Fetch && final(self).phase is AwaitFetch
                    &&& !found ==> r is Err && r->Err_0 is Usage
                },
                SweepEvent::Fetched { ok } => old(self).phase is AwaitFetch ==> {
                    &&& ok ==> r is Ok && r->Ok_0 is ListHistory && final(self).phase
                        is AwaitHistory
                    &&& !ok ==> r is Err && r->Err_0 is Io
                },
                SweepEvent::HistoryListed { entries } => old(self).phase is AwaitHistory ==> {
                    &&& (r is Ok <==> history_ok(*old(self), entries@))
                    &&& final(self).history is Some
                    &&& final(self).history->0.entries@ == entries@
                },
                SweepEvent::CheckedOut { ok } => old(self).phase is AwaitCheckout ==> {
                    &&& !ok ==> r is Err && r->Err_0 is Io
                    &&& ok ==> (r is Ok <==> can_continue(*old(self), old(self).job_idx as int))
                    &&& (ok && old(self).job_idx < old(self).config.jobs.jobs@.len() && r
                        is Ok) ==> r->Ok_0 is RunJob
                },
                SweepEvent::JobFinished { exit_ok, report } => old(self).phase is Jobs ==> {
                    &&& (old(self).job_idx < old(self).config.jobs.jobs@.len()) ==> {
                        &&& !exit_ok ==> r is Err && r->Err_0 is Execution
                        &&& exit_ok ==> (r is Ok <==> (job_report_ok(
                            old(self).config.jobs.jobs@[old(self).job_idx as int],
                            report,
                        ) && can_continue(*old(self), old(self).job_idx + 1)))
                    }
                    &&& (old(self).job_idx >= old(self).config.jobs.jobs@.len()) ==> r is Err
                        && r->Err_0 is Usage
                },
                SweepEvent::Erased { ok } => old(self).phase is AwaitErase ==> {
                    &&& !ok ==> r is Err && r->Err_0 is Io
                    &&& ok ==> (r is Ok <==> can_advance(*old(self)))
                },
            },
            (r is Ok && !(r->Ok_0 is Checkout)) ==> final(self).db.runs@.len() == old(
                self,
            ).db.runs@.len(),
            (r is Ok && r->Ok_0 is Checkout) ==> ({
                let es = final(self).history->0.entries@;
                let d = final(self).dates@[final(self).date_idx - 1];
                let last = final(self).db.runs@.last()@;
                &&& final(self).history is Some
                &&& 1 <= final(self).date_idx <= final(self).dates@.len()
                &&& final(self).db.runs@.len() == old(self).db.runs@.len() + 1
                &&& spec_setup(old(self).options, es, d as int) == Some(
                    (last.commit_date, last.commit_id),
                )
                &&& last.run_date == final(self).run_date
                &&& last.was_master == true
            }),
            (r is Ok && r->Ok_0 is Finished) ==> final(self).phase is Done,
    {
        match ev {
            SweepEvent::SourceChecked { exists } => match self.phase {
                Phase::AwaitSource => {
                    if exists {
                        self.phase = Phase::AwaitFetch;
                        Ok(SweepAction::Fetch)
                    } else {
                        self.phase = Phase::Done;
                        Err(
                            BenchError::Usage(
                                String::from_str(
                                    "the source directory does not hold the expected tree",
                                ),
                            ),
                        )
                    }
                },
                _ => self.protocol_error(),
            },
            SweepEvent::Fetched { ok } => match self.phase {
                Phase::AwaitFetch => {
                    if ok {
                        self.phase = Phase::AwaitHistory;
                        Ok(SweepAction::ListHistory)
                    } else {
                        self.phase = Phase::Done;
                        Err(BenchError::Io(String::from_str("the repository could not be synced")))
                    }
                },
                _ => self.protocol_error(),
            },
            SweepEvent::HistoryListed { entries } => match self.phase {
                Phase::AwaitHistory => {
                    self.history = Some(History::new(entries));
                    let single = match self.bench_type {
                        BenchType::Single => true,
                        BenchType::Multi => false,
                    };
                    if single {
                        let mut ds: Vec<i64> = Vec::new();
                        ds.push(self.run_date);
                        self.dates = ds;
                        self.date_idx = 0;
                    } else {
                        let bounds = match &self.options {
                            BenchOptions::Multi(multi) => {
                                let s = crate::util::parse_date(multi.start.as_str());
                                let e = crate::util::parse_date(multi.end.as_str());
                                (s, e)
                            },
                            BenchOptions::Single(_) => {
                                self.phase = Phase::Done;
                                return Err(
                                    BenchError::Usage(
                                        String::from_str("a daily sweep needs a date range"),
                                    ),
                                );
                            },
                        };
                        let start_ts = match bounds.0 {
                            Ok(v) => v,
                            Err(e) => {
                                self.phase = Phase::Done;
                                return Err(e);
                            },
                        };
                        let end_ts = match bounds.1 {
                            Ok(v) => v,
                            Err(e) => {
                                self.phase = Phase::Done;
                                return Err(e);
                            },
                        };
                        self.dates = plan_dates(start_ts, end_ts);
                        self.date_idx = 0;
                    }
                    self.advance()
                },
                _ => self.protocol_error(),
            },
            SweepEvent::CheckedOut { ok } => match self.phase {
                Phase::AwaitCheckout => {
                    if ok {
                        self.next_job_action()
                    } else {
                        self.phase = Phase::Done;
                        Err(
                            BenchError::Io(
                                String::from_str("the requested revision could not be checked out"),
                            ),
                        )
                    }
                },
                _ => self.protocol_error(),
            },
            SweepEvent::JobFinished { exit_ok, report } => match self.phase {
                Phase::Jobs => {
                    if self.job_idx >= self.config.jobs.jobs.len() {
                        return self.protocol_error();
                    }
                    let stderr_path = make_log_path(
                        self.run_id,
                        self.config.jobs.jobs[self.job_idx].name.as_str(),
                        "-error.log",
                    );
                    let report_ref = match &report {
                        Some(t) => Some(t.as_str()),
                        None => None,
                    };
                    match self.handle_job_result(
                        exit_ok,
                        self.job_idx,
                        self.run_id,
                        report_ref,
                        stderr_path.as_str(),
                    ) {
                        Err(e) => {
                            self.phase = Phase::Done;
                            Err(e)
                        },
                        Ok(_) => {
                            self.job_idx = self.job_idx + 1;
                            self.next_job_action()
                        },
                    }
                },
                _ => self.protocol_error(),
            },
            SweepEvent::Erased { ok } => match self.phase {
                Phase::AwaitErase => {
                    if ok {
                        self.advance()
                    } else {
                        self.phase = Phase::Done;
                        Err(
                            BenchError::Io(
                                String::from_str("the benchmark data directory was not erased"),
                            ),
                        )
                    }
                },
                _ => self.protocol_error(),
            },
        }
    }

    fn protocol_error(&mut self) -> (r: Result<SweepAction, BenchError>)
        requires
            old(self).wf(),
        ensures
            final(self).wf(),
            r is Err && r->Err_0 is Usage,
            final(self).phase is Done,
            final(self).db == old(self).db,
            final(self).config == old(self).config,
            final(self).options == old(self).options,
            final(self).src_dir == old(self).src_dir,
            final(self).os == old(self).os,
            final(self).bench_type == old(self).bench_type,
            final(self).run_date == old(self).run_date,
            final(self).history == old(self).history,
            final(self).dates == old(self).dates,
            final(self).date_idx == old(self).date_idx,
            final(self).run_id == old(self).run_id,
            final(self).job_idx == old(self).job_idx,
    {
        self.phase = Phase::Done;
        Err(BenchError::Usage(String::from_str("an event arrived that the sweep was not awaiting")))
    }
}

} // verus!
