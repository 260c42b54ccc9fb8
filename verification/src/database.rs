use vstd::prelude::*;
use vstd::string::*;
use crate::error::BenchError;
use crate::report::{TimeResult, TimeView};
use crate::text::str_eq;

verus! {

/// One sweep iteration's metadata: when the sweep ran and what revision
/// it benchmarked.  The store assigns `id` on insertion.
#[derive(Debug)]
pub struct Run {
    pub id: Option<i64>,
    pub run_date: i64,
    pub commit_id: String,
    pub commit_date: i64,
    pub was_master: bool,
}

/// One job's stored metrics, owned by the run `run_id`.
#[derive(Debug)]
pub struct Job {
    pub job_id: i64,
    pub run_id: i64,
    pub result: TimeResult,
}

pub ghost struct RunView {
    pub id: Option<int>,
    pub run_date: int,
    pub commit_id: Seq<char>,
    pub commit_date: int,
    pub was_master: bool,
}

pub ghost struct JobView {
    pub job_id: int,
    pub run_id: int,
    pub result: TimeView,
}

impl View for Run {
    type V = RunView;

    open spec fn view(&self) -> RunView {
        RunView {
            id: match self.id {
                Some(v) => Some(v as int),
                None => None,
            },
            run_date: self.run_date as int,
            commit_id: self.commit_id@,
            commit_date: self.commit_date as int,
            was_master: self.was_master,
        }
    }
}

impl View for Job {
    type V = JobView;

    open spec fn view(&self) -> JobView {
        JobView { job_id: self.job_id as int, run_id: self.run_id as int, result: self.result@ }
    }
}

impl Clone for Run {
    fn clone(&self) -> (r: Run)
        ensures
            r@ == self@,
    {
        Run {
            id: self.id,
            run_date: self.run_date,
            commit_id: self.commit_id.clone(),
            commit_date: self.commit_date,
            was_master: self.was_master,
        }
    }
}

impl Clone for TimeResult {
    fn clone(&self) -> (r: TimeResult)
        ensures
            r@ == self@,
            r.wf() == self.wf(),
    {
        TimeResult {
            command: self.command.clone(),
            user_time: self.user_time,
            system_time: self.system_time,
            percent_of_cpu: self.percent_of_cpu,
            elapsed_time: self.elapsed_time,
            max_resident_set_size_kb: self.max_resident_set_size_kb,
            major_page_faults: self.major_page_faults,
            minor_page_faults: self.minor_page_faults,
            voluntary_context_switches: self.voluntary_context_switches,
            involuntary_context_switches: self.involuntary_context_switches,
            file_system_outputs: self.file_system_outputs,
            exit_status: self.exit_status,
        }
    }
}

impl Clone for Job {
    fn clone(&self) -> (r: Job)
        ensures
            r@ == self@,
            r.result.wf() == self.result.wf(),
    {
        Job { job_id: self.job_id, run_id: self.run_id, result: self.result.clone() }
    }
}

/// The append-only result store: runs and per-job metrics, ids assigned
/// in insertion order starting at one, every job row owned by a run that
/// exists.
#[derive(Debug)]
pub struct Database {
    pub runs: Vec<Run>,
    pub jobs: Vec<Job>,
}

impl Database {
    /// The store's invariant: ids are consecutive from one, and every
    /// job references a recorded run.
    pub open spec fn wf(self) -> bool {
        &&& forall|i: int|
            0 <= i < self.runs@.len() ==> #[trigger] self.runs@[i]@.id == Some(i + 1)
        &&& forall|j: int|
            0 <= j < self.jobs@.len() ==> #[trigger] self.jobs@[j]@.job_id == j + 1
        &&& forall|j: int|
            0 <= j < self.jobs@.len() ==> 1 <= #[trigger] self.jobs@[j]@.run_id
                <= self.runs@.len()
        &&& forall|j: int| 0 <= j < self.jobs@.len() ==> (#[trigger] self.jobs@[j]).result.wf()
    }

    /// An empty store.
    pub fn new() -> (r: Database)
        ensures
            r.wf(),
            r.runs@.len() == 0,
            r.jobs@.len() == 0,
    {
        Database { runs: Vec::new(), jobs: Vec::new() }
    }

    /// Insert a new run and return its assigned identifier: one more
    /// than the number of runs recorded before it, so identifiers are
    /// unique and increase monotonically.  The `id` the caller passed in
    /// is ignored in favour of the assigned one.
    pub fn record_run(&mut self, run: Run) -> (r: Result<i64, BenchError>)
        requires
            old(self).wf(),
            old(self).runs@.len() < 0x7fff_ffff_ffff_ffff,
        ensures
            final(self).wf(),
            r is Ok,
            r->Ok_0 == old(self).runs@.len() + 1,
            final(self).jobs@ == old(self).jobs@,
            final(self).runs@.len() == old(self).runs@.len() + 1,
            forall|i: int|
                0 <= i < old(self).runs@.len() ==> #[trigger] final(self).runs@[i]@ == old(
                    self,
                ).runs@[i]@,
            final(self).runs@.last()@ == (RunView {
                id: Some(old(self).runs@.len() + 1int),
                ..run@
            }),
    {
        let id = (self.runs.len() as i64) + 1;
        let stored = Run {
            id: Some(id),
            run_date: run.run_date,
            commit_id: run.commit_id,
            commit_date: run.commit_date,
            was_master: run.was_master,
        };
        self.runs.push(stored);
        Ok(id)
    }

    /// Insert a job result owned by `run_id` and return its assigned
    /// identifier.  Fails with an `Integrity` error, changing nothing,
    /// exactly when `run_id` was not produced by a prior `record_run`.
    pub fn record_job(&mut self, run_id: i64, result: TimeResult) -> (r: Result<
        i64,
        BenchError,
    >)
        requires
            old(self).wf(),
            old(self).jobs@.len() < 0x7fff_ffff_ffff_ffff,
            result.wf(),
        ensures
            final(self).wf(),
            r is Ok <==> 1 <= run_id <= old(self).runs@.len(),
            r is Ok ==> {
                &&& r->Ok_0 == old(self).jobs@.len() + 1
                &&& final(self).runs@ == old(self).runs@
                &&& final(self).jobs@.len() == old(self).jobs@.len() + 1
                &&& (forall|j: int|
                    0 <= j < old(self).jobs@.len() ==> #[trigger] final(self).jobs@[j]@ == old(
                        self,
                    ).jobs@[j]@)
                &&& final(self).jobs@.last()@ == (JobView {
                    job_id: old(self).jobs@.len() + 1int,
                    run_id: run_id as int,
                    result: result@,
                })
            },
            r is Err ==> *final(self) == *old(self) && r->Err_0 is Integrity,
    {
        if run_id < 1 || (run_id as u64) > (self.runs.len() as u64) {
            return Err(
                BenchError::Integrity(
                    String::from_str("job result references a run that was never recorded"),
                ),
            );
        }
        let job_id = (self.jobs.len() as i64) + 1;
        let stored = Job { job_id, run_id, result };
        self.jobs.push(stored);
        Ok(job_id)
    }
}

/// Whether a stored job row belongs to the query: same owning run and
/// same recorded command name.
pub open spec fn row_matches(j: JobView, name: Seq<char>, rid: int) -> bool {
    j.run_id == rid && j.result.command == name
}

/// The job rows matching `name` under run `rid`, in job-id order.
pub open spec fn select_rows(jobs: Seq<JobView>, name: Seq<char>, rid: int) -> Seq<JobView>
    decreases jobs.len(),
{
    if jobs.len() == 0 {
        Seq::empty()
    } else {
        let p = select_rows(jobs.drop_last(), name, rid);
        if row_matches(jobs.last(), name, rid) {
            p.push(jobs.last())
        } else {
            p
        }
    }
}

/// Each selected job row paired with its owning run.
pub open spec fn pair_with(run: RunView, js: Seq<JobView>) -> Seq<(JobView, RunView)>
    decreases js.len(),
{
    if js.len() == 0 {
        Seq::empty()
    } else {
        pair_with(run, js.drop_last()).push((js.last(), run))
    }
}

/// All of `name`'s job rows joined with their runs, ordered by ascending
/// run identifier, ties in insertion order.
pub open spec fn select_all(
    runs: Seq<RunView>,
    jobs: Seq<JobView>,
    name: Seq<char>,
) -> Seq<(JobView, RunView)>
    decreases runs.len(),
{
    if runs.len() == 0 {
        Seq::empty()
    } else {
        select_all(runs.drop_last(), jobs, name) + pair_with(
            runs.last(),
            select_rows(jobs, name, runs.last().id->Some_0),
        )
    }
}

impl Database {
    /// All stored results for one job name, each with its owning run's
    /// metadata, in chronological (ascending run id) order.
    pub fn get_jobs_by_name(&self, job_name: &str) -> (r: Vec<(Job, Run)>)
        requires
            self.wf(),
        ensures
            r@.len() == select_all(self.runs@.map_values(|x: Run| x@), self.jobs@.map_values(|x: Job| x@), job_name@).len(),
            forall|i: int|
                0 <= i < r@.len() ==> (#[trigger] r@[i]).0@ == select_all(
                    self.runs@.map_values(|x: Run| x@),
                    self.jobs@.map_values(|x: Job| x@),
                    job_name@,
                )[i].0 && r@[i].1@ == select_all(
                    self.runs@.map_values(|x: Run| x@),
                    self.jobs@.map_values(|x: Job| x@),
                    job_name@,
                )[i].1,
    {
        let ghost rviews = self.runs@.map_values(|x: Run| x@);
        let ghost jviews = self.jobs@.map_values(|x: Job| x@);
        let mut out: Vec<(Job, Run)> = Vec::new();
        let nr = self.runs.len();
        let nj = self.jobs.len();
        let mut a: usize = 0;
        proof {
            assert(rviews.take(0) =~= Seq::<RunView>::empty());
        }
        while a < nr
            invariant
                self.wf(),
                nr == self.runs@.len(),
                nj == self.jobs@.len(),
                rviews == self.runs@.map_values(|x: Run| x@),
                jviews == self.jobs@.map_values(|x: Job| x@),
                0 <= a <= nr,
                out@.len() == select_all(rviews.take(a as int), jviews, job_name@).len(),
                forall|i: int|
                    0 <= i < out@.len() ==> (#[trigger] out@[i]).0@ == select_all(
                        rviews.take(a as int),
                        jviews,
                        job_name@,
                    )[i].0 && out@[i].1@ == select_all(
                        rviews.take(a as int),
                        jviews,
                        job_name@,
                    )[i].1,
            decreases nr - a,
        {
            let rid = (a as i64) + 1;
            proof {
                assert(rviews[a as int] == self.runs@[a as int]@);
            }
            let ghost run_v = rviews[a as int];
            let ghost before = select_all(rviews.take(a as int), jviews, job_name@);
            let mut b: usize = 0;
            proof {
                assert(jviews.take(0) =~= Seq::<JobView>::empty());
            }
            while b < nj
                invariant
                    self.wf(),
                    nr == self.runs@.len(),
                    nj == self.jobs@.len(),
                    rviews == self.runs@.map_values(|x: Run| x@),
                    jviews == self.jobs@.map_values(|x: Job| x@),
                    0 <= a < nr,
                    0 <= b <= nj,
                    rid == a + 1,
                    run_v == rviews[a as int],
                    before == select_all(rviews.take(a as int), jviews, job_name@),
                    out@.len() == before.len() + pair_with(
                        run_v,
                        select_rows(jviews.take(b as int), job_name@, rid as int),
                    ).len(),
                    forall|i: int|
                        0 <= i < out@.len() ==> (#[trigger] out@[i]).0@ == (before + pair_with(
                            run_v,
                            select_rows(jviews.take(b as int), job_name@, rid as int),
                        ))[i].0 && out@[i].1@ == (before + pair_with(
                            run_v,
                            select_rows(jviews.take(b as int), job_name@, rid as int),
                        ))[i].1,
                decreases nj - b,
            {
                proof {
                    assert(jviews[b as int] == self.jobs@[b as int]@);
                    assert(jviews.take(b + 1).drop_last() =~= jviews.take(b as int));
                    assert(jviews.take(b + 1).last() == jviews[b as int]);
                }
                let jrow = &self.jobs[b];
                let hit = jrow.run_id == rid && str_eq(jrow.result.command.as_str(), job_name);
                proof {
                    let jb = jviews[b as int];
                    let q = select_rows(jviews.take(b as int), job_name@, rid as int);
                    let q2 = select_rows(jviews.take(b + 1), job_name@, rid as int);
                    assert(hit == row_matches(jb, job_name@, rid as int));
                    if hit {
                        assert(q2 == q.push(jb));
                        assert(q.push(jb).drop_last() =~= q);
                        assert(q.push(jb).last() == jb);
                        assert(pair_with(run_v, q.push(jb)) == pair_with(run_v, q).push(
                            (jb, run_v),
                        ));
                        assert(before + pair_with(run_v, q).push((jb, run_v)) =~= (before
                            + pair_with(run_v, q)).push((jb, run_v)));
                    } else {
                        assert(q2 == q);
                    }
                }
                if hit {
                    let pair = (jrow.clone(), self.runs[a].clone());
                    out.push(pair);
                }
                b = b + 1;
            }
            proof {
                assert(jviews.take(nj as int) =~= jviews);
                assert(rviews.take(a + 1).drop_last() =~= rviews.take(a as int));
                assert(rviews.take(a + 1).last() == rviews[a as int]);
                assert(run_v.id == Some(a + 1));
            }
            a = a + 1;
        }
        proof {
            assert(rviews.take(nr as int) =~= rviews);
        }
        out
    }

    /// Every distinct job name in the store, in order of first
    /// appearance.
    pub fn get_job_names(&self) -> (r: Vec<String>)
        ensures
            names_distinct(r@),
            names_cover(r@, self.jobs@, self.jobs@.len() as int),
            names_from(r@, self.jobs@),
    {
        let mut out: Vec<String> = Vec::new();
        let nj = self.jobs.len();
        let mut b: usize = 0;
        while b < nj
            invariant
                nj == self.jobs@.len(),
                0 <= b <= nj,
                names_distinct(out@),
                names_cover(out@, self.jobs@, b as int),
                names_from(out@, self.jobs@),
            decreases nj - b,
        {
            let name = &self.jobs[b].result.command;
            let mut seen = false;
            let mut i: usize = 0;
            let no = out.len();
            while i < no
                invariant
                    no == out@.len(),
                    0 <= i <= no,
                    seen ==> exists|k: int| 0 <= k < no && #[trigger] out@[k]@ == name@,
                    !seen ==> forall|k: int| 0 <= k < i ==> #[trigger] out@[k]@ != name@,
                decreases no - i,
            {
                if str_eq(out[i].as_str(), name.as_str()) {
                    seen = true;
                    i = no;
                } else {
                    i = i + 1;
                }
            }
            let ghost out0 = out@;
            if !seen {
                out.push(name.clone());
            }
            proof {
                assert forall|j: int|
                    0 <= j < b + 1 implies exists|i: int|
                        0 <= i < out@.len() && #[trigger] out@[i]@ == (
                        #[trigger] self.jobs@[j])@.result.command by {
                    if j < b {
                        assert(names_cover(out0, self.jobs@, b as int));
                        let i0 = choose|i: int|
                            0 <= i < out0.len() && #[trigger] out0[i]@
                                == self.jobs@[j]@.result.command;
                        assert(out@[i0]@ == self.jobs@[j]@.result.command);
                    } else {
                        if seen {
                            let k0 = choose|k: int| 0 <= k < out0.len() && #[trigger] out0[k]@
                                == name@;
                            assert(out@[k0]@ == self.jobs@[j]@.result.command);
                        } else {
                            assert(out@[out@.len() - 1]@ == self.jobs@[j]@.result.command);
                        }
                    }
                }
                assert(names_cover(out@, self.jobs@, b + 1));
                assert forall|i: int|
                    0 <= i < out@.len() implies exists|j: int|
                        0 <= j < self.jobs@.len() && (#[trigger] self.jobs@[j])@.result.command
                            == (#[trigger] out@[i])@ by {
                    if i < out0.len() {
                        assert(names_from(out0, self.jobs@));
                        let j0 = choose|j: int|
                            0 <= j < self.jobs@.len()
                                && (#[trigger] self.jobs@[j])@.result.command == out0[i]@;
                        assert(self.jobs@[j0]@.result.command == out@[i]@);
                    } else {
                        assert(self.jobs@[b as int]@.result.command == out@[i]@);
                    }
                }
                assert(names_from(out@, self.jobs@));
                if !seen {
                    assert forall|x: int, y: int|
                        0 <= x < y < out@.len() implies #[trigger] out@[x]@ != #[trigger] out@[
                        y]@ by {
                        if y < out0.len() {
                            assert(out0[x]@ != out0[y]@);
                        } else {
                            assert(out@[y]@ == name@);
                            assert(out@[x]@ == out0[x]@);
                        }
                    }
                }
                assert(names_distinct(out@));
            }
            b = b + 1;
        }
        out
    }
}

/// No name listed twice.
pub open spec fn names_distinct(names: Seq<String>) -> bool {
    forall|i: int, j: int| 0 <= i < j < names.len() ==> #[trigger] names[i]@ != #[trigger] names[j]@
}

/// Every job among the first `b` has its name listed.
pub open spec fn names_cover(names: Seq<String>, jobs: Seq<Job>, b: int) -> bool {
    forall|j: int|
        0 <= j < b ==> exists|i: int|
            0 <= i < names.len() && #[trigger] names[i]@ == (#[trigger] jobs[j])@.result.command
}

/// Every listed name is some job's name.
pub open spec fn names_from(names: Seq<String>, jobs: Seq<Job>) -> bool {
    forall|i: int|
        0 <= i < names.len() ==> exists|j: int|
            0 <= j < jobs.len() && (#[trigger] jobs[j])@.result.command == (#[trigger] names[i])@
}

} // verus!
