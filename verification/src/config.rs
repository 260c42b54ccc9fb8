use vstd::prelude::*;
use vstd::string::*;
use crate::error::BenchError;
use crate::text::replace_all;
use crate::text::replace_all_str;

verus! {

/// Startup settings: the binaries every sweep needs on the path, and the
/// working data directory jobs run against.
#[derive(Debug)]
pub struct Settings {
    pub binaries: Vec<String>,
    pub bitcoin_data_dir: Option<String>,
}

/// The configured job list and the between-iteration cleanup policy.
#[derive(Debug)]
pub struct Jobs {
    pub jobs: Vec<Job>,
    pub cleanup: bool,
}

/// One configured job: a named command, optional environment overrides,
/// whether to wrap it in the resource-accounting tool, and where that
/// tool's report goes.
#[derive(Debug)]
pub struct Job {
    pub name: String,
    pub env: Option<Vec<String>>,
    pub command: String,
    pub bench: bool,
    pub outfile: Option<String>,
}

/// The whole loaded configuration.
#[derive(Debug)]
pub struct Config {
    pub settings: Settings,
    pub jobs: Jobs,
}

/// A job's `bench` flag when the configuration leaves it unset.
pub fn default_bench() -> (r: bool)
    ensures
        r,
{
    true
}

/// The environment strings of a job as sequences, absent treated as none.
pub open spec fn env_view(e: Option<Vec<String>>) -> Option<Seq<Seq<char>>> {
    match e {
        None => None,
        Some(v) => Some(v@.map_values(|s: String| s@)),
    }
}

/// The report path a job gets when it declares none.
pub open spec fn default_outfile(dir: Seq<char>, name: Seq<char>) -> Seq<char> {
    dir + "/"@ + name + "-results.txt"@
}

fn clone_string_vec(v: &Vec<String>) -> (r: Vec<String>)
    ensures
        r@.map_values(|s: String| s@) == v@.map_values(|s: String| s@),
{
    let mut out: Vec<String> = Vec::new();
    let n = v.len();
    let mut i: usize = 0;
    while i < n
        invariant
            n == v@.len(),
            0 <= i <= n,
            out@.len() == i,
            forall|k: int| 0 <= k < i ==> (#[trigger] out@[k])@ == v@[k]@,
        decreases n - i,
    {
        out.push(v[i].clone());
        i = i + 1;
    }
    proof {
        assert(out@.map_values(|s: String| s@) =~= v@.map_values(|s: String| s@));
    }
    out
}

fn clone_env(e: &Option<Vec<String>>) -> (r: Option<Vec<String>>)
    ensures
        env_view(r) == env_view(*e),
{
    match e {
        None => None,
        Some(v) => Some(clone_string_vec(v)),
    }
}

fn make_default_outfile(dir: &str, name: &str) -> (r: String)
    ensures
        r@ == default_outfile(dir@, name@),
{
    let mut s = String::from_str(dir);
    s.append("/");
    s.append(name);
    s.append("-results.txt");
    s
}

impl Config {
    /// Give every job that declares no report path the default one under
    /// the benchmark data directory; everything else is untouched.
    pub fn substitute_defaults(&mut self, bench_data_dir: &str)
        ensures
            final(self).settings == old(self).settings,
            final(self).jobs.cleanup == old(self).jobs.cleanup,
            final(self).jobs.jobs@.len() == old(self).jobs.jobs@.len(),
            forall|j: int|
                0 <= j < old(self).jobs.jobs@.len() ==> {
                    let before = old(self).jobs.jobs@[j];
                    let after = #[trigger] final(self).jobs.jobs@[j];
                    &&& after.name@ == before.name@
                    &&& after.command@ == before.command@
                    &&& after.bench == before.bench
                    &&& env_view(after.env) == env_view(before.env)
                    &&& match before.outfile {
                        Some(o) => after.outfile is Some && after.outfile->0@ == o@,
                        None => after.outfile is Some && after.outfile->0@ == default_outfile(
                            bench_data_dir@,
                            before.name@,
                        ),
                    }
                },
    {
        let n = self.jobs.jobs.len();
        let mut updated: Vec<Job> = Vec::new();
        let mut j: usize = 0;
        while j < n
            invariant
                n == self.jobs.jobs@.len(),
                0 <= j <= n,
                updated@.len() == j,
                forall|k: int|
                    0 <= k < j ==> {
                        let before = self.jobs.jobs@[k];
                        let after = #[trigger] updated@[k];
                        &&& after.name@ == before.name@
                        &&& after.command@ == before.command@
                        &&& after.bench == before.bench
                        &&& env_view(after.env) == env_view(before.env)
                        &&& match before.outfile {
                            Some(o) => after.outfile is Some && after.outfile->0@ == o@,
                            None => after.outfile is Some && after.outfile->0@
                                == default_outfile(bench_data_dir@, before.name@),
                        }
                    },
            decreases n - j,
        {
            let job = &self.jobs.jobs[j];
            let outfile = match &job.outfile {
                Some(o) => Some(o.clone()),
                None => Some(make_default_outfile(bench_data_dir, job.name.as_str())),
            };
            let fresh = Job {
                name: job.name.clone(),
                env: clone_env(&job.env),
                command: job.command.clone(),
                bench: job.bench,
                outfile,
            };
            updated.push(fresh);
            j = j + 1;
        }
        self.jobs.jobs = updated;
    }

    /// Expand the substitution tokens in every job command: `{cores}`
    /// becomes the logical CPU count and `{bitcoin_data_dir}` the
    /// absolute working data path.  Fails with a usage error, changing
    /// nothing, when no data directory is configured.
    pub fn substitute_vars(&mut self, nproc: &str) -> (r: Result<(), BenchError>)
        ensures
            r is Ok <==> old(self).settings.bitcoin_data_dir is Some,
            r is Err ==> *final(self) == *old(self) && r->Err_0 is Usage,
            r is Ok ==> {
                &&& final(self).settings == old(self).settings
                &&& final(self).jobs.cleanup == old(self).jobs.cleanup
                &&& final(self).jobs.jobs@.len() == old(self).jobs.jobs@.len()
                &&& forall|j: int|
                    0 <= j < old(self).jobs.jobs@.len() ==> {
                        let before = old(self).jobs.jobs@[j];
                        let after = #[trigger] final(self).jobs.jobs@[j];
                        &&& after.name@ == before.name@
                        &&& after.bench == before.bench
                        &&& env_view(after.env) == env_view(before.env)
                        &&& after.outfile is Some == before.outfile is Some
                        &&& (before.outfile is Some ==> after.outfile->0@ == before.outfile->0@)
                        &&& after.command@ == replace_all(
                            replace_all(before.command@, "{cores}"@, nproc@),
                            "{bitcoin_data_dir}"@,
                            old(self).settings.bitcoin_data_dir->0@,
                        )
                    }
            },
    {
        let dir = match &self.settings.bitcoin_data_dir {
            Some(d) => d.clone(),
            None => {
                return Err(
                    BenchError::Usage(
                        String::from_str("no benchmark data directory is configured"),
                    ),
                );
            },
        };
        proof {
            reveal_strlit("{cores}");
            reveal_strlit("{bitcoin_data_dir}");
        }
        let n = self.jobs.jobs.len();
        let mut updated: Vec<Job> = Vec::new();
        let mut j: usize = 0;
        while j < n
            invariant
                n == self.jobs.jobs@.len(),
                0 <= j <= n,
                updated@.len() == j,
                dir@ == self.settings.bitcoin_data_dir->0@,
                forall|k: int|
                    0 <= k < j ==> {
                        let before = self.jobs.jobs@[k];
                        let after = #[trigger] updated@[k];
                        &&& after.name@ == before.name@
                        &&& after.bench == before.bench
                        &&& env_view(after.env) == env_view(before.env)
                        &&& after.outfile is Some == before.outfile is Some
                        &&& (before.outfile is Some ==> after.outfile->0@
                            == before.outfile->0@)
                        &&& after.command@ == replace_all(
                            replace_all(before.command@, "{cores}"@, nproc@),
                            "{bitcoin_data_dir}"@,
                            self.settings.bitcoin_data_dir->0@,
                        )
                    },
            decreases n - j,
        {
            proof {
                reveal_strlit("{cores}");
                reveal_strlit("{bitcoin_data_dir}");
            }
            let job = &self.jobs.jobs[j];
            let pass1 = replace_all_str(job.command.as_str(), "{cores}", nproc);
            let pass2 = replace_all_str(pass1.as_str(), "{bitcoin_data_dir}", dir.as_str());
            let fresh = Job {
                name: job.name.clone(),
                env: clone_env(&job.env),
                command: pass2,
                bench: job.bench,
                outfile: match &job.outfile {
                    Some(o) => Some(o.clone()),
                    None => None,
                },
            };
            updated.push(fresh);
            j = j + 1;
        }
        self.jobs.jobs = updated;
        Ok(())
    }
}

} // verus!
