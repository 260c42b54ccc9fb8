use vstd::prelude::*;
use vstd::string::*;
use crate::error::BenchError;
use crate::text::str_eq;

verus! {

/// One revision on the primary line: its identifier and commit time.
#[derive(Debug)]
pub struct CommitEntry {
    pub commit_id: String,
    pub timestamp: i64,
}

/// The primary line's history as the version-control tool lists it:
/// newest first.  Resolution picks the first entry the query admits, so
/// the listing order is the tie-break between equal timestamps.
#[derive(Debug)]
pub struct History {
    pub entries: Vec<CommitEntry>,
}

/// Newest first: commit times never increase along the listing.
pub open spec fn sorted_desc(es: Seq<CommitEntry>) -> bool {
    forall|i: int, j: int|
        0 <= i <= j < es.len() ==> #[trigger] es[i].timestamp >= #[trigger] es[j].timestamp
}

/// The first listed entry at or before `date`, if any.
pub open spec fn first_le(es: Seq<CommitEntry>, date: int) -> Option<int>
    decreases es.len(),
{
    if es.len() == 0 {
        None
    } else if es[0].timestamp <= date {
        Some(0)
    } else {
        match first_le(es.skip(1), date) {
            None => None,
            Some(j) => Some(j + 1),
        }
    }
}

pub proof fn lemma_first_le(es: Seq<CommitEntry>, date: int)
    ensures
        match first_le(es, date) {
            Some(i) => 0 <= i < es.len() && es[i].timestamp <= date && forall|k: int|
                0 <= k < i ==> #[trigger] es[k].timestamp > date,
            None => forall|k: int| 0 <= k < es.len() ==> #[trigger] es[k].timestamp > date,
        },
    decreases es.len(),
{
    if es.len() > 0 && es[0].timestamp > date {
        let t = es.skip(1);
        lemma_first_le(t, date);
        match first_le(t, date) {
            Some(j) => {
                assert(es[j + 1] == t[j]);
                assert forall|k: int| 0 <= k < j + 1 implies #[trigger] es[k].timestamp > date by {
                    if k > 0 {
                        assert(es[k] == t[k - 1]);
                    }
                }
            },
            None => {
                assert forall|k: int| 0 <= k < es.len() implies #[trigger] es[k].timestamp
                    > date by {
                    if k > 0 {
                        assert(es[k] == t[k - 1]);
                    }
                }
            },
        }
    }
}

pub proof fn lemma_first_le_found(es: Seq<CommitEntry>, date: int, i: int)
    requires
        0 <= i < es.len(),
        es[i].timestamp <= date,
        forall|k: int| 0 <= k < i ==> #[trigger] es[k].timestamp > date,
    ensures
        first_le(es, date) == Some(i),
    decreases es.len(),
{
    if i > 0 {
        let t = es.skip(1);
        assert(t[i - 1] == es[i]);
        assert forall|k: int| 0 <= k < i - 1 implies #[trigger] t[k].timestamp > date by {
            assert(t[k] == es[k + 1]);
        }
        lemma_first_le_found(t, date, i - 1);
    }
}

/// The first listed entry carrying `id`, if any.
pub open spec fn find_commit(es: Seq<CommitEntry>, id: Seq<char>) -> Option<int>
    decreases es.len(),
{
    if es.len() == 0 {
        None
    } else if es[0].commit_id@ == id {
        Some(0)
    } else {
        match find_commit(es.skip(1), id) {
            None => None,
            Some(j) => Some(j + 1),
        }
    }
}

pub proof fn lemma_find_commit(es: Seq<CommitEntry>, id: Seq<char>)
    ensures
        match find_commit(es, id) {
            Some(i) => 0 <= i < es.len() && es[i].commit_id@ == id && forall|k: int|
                0 <= k < i ==> #[trigger] es[k].commit_id@ != id,
            None => forall|k: int| 0 <= k < es.len() ==> #[trigger] es[k].commit_id@ != id,
        },
    decreases es.len(),
{
    if es.len() > 0 && es[0].commit_id@ != id {
        let t = es.skip(1);
        lemma_find_commit(t, id);
        match find_commit(t, id) {
            Some(j) => {
                assert(es[j + 1] == t[j]);
                assert forall|k: int| 0 <= k < j + 1 implies #[trigger] es[k].commit_id@
                    != id by {
                    if k > 0 {
                        assert(es[k] == t[k - 1]);
                    }
                }
            },
            None => {
                assert forall|k: int| 0 <= k < es.len() implies #[trigger] es[k].commit_id@
                    != id by {
                    if k > 0 {
                        assert(es[k] == t[k - 1]);
                    }
                }
            },
        }
    }
}

pub proof fn lemma_find_commit_found(es: Seq<CommitEntry>, id: Seq<char>, i: int)
    requires
        0 <= i < es.len(),
        es[i].commit_id@ == id,
        forall|k: int| 0 <= k < i ==> #[trigger] es[k].commit_id@ != id,
    ensures
        find_commit(es, id) == Some(i),
    decreases es.len(),
{
    if i > 0 {
        let t = es.skip(1);
        assert(t[i - 1] == es[i]);
        assert forall|k: int| 0 <= k < i - 1 implies #[trigger] t[k].commit_id@ != id by {
            assert(t[k] == es[k + 1]);
        }
        lemma_find_commit_found(t, id, i - 1);
    }
}

impl History {
    pub fn new(entries: Vec<CommitEntry>) -> (r: History)
        ensures
            r.entries@ == entries@,
    {
        History { entries }
    }

    /// Whether the listing is newest-first, as resolution monotonicity
    /// relies on.
    pub fn is_sorted(&self) -> (r: bool)
        ensures
            r == sorted_desc(self.entries@),
    {
        let n = self.entries.len();
        let mut i: usize = 1;
        while i < n
            invariant
                n == self.entries@.len(),
                1 <= i || n == 0,
                i <= n || n == 0,
                forall|k: int|
                    0 <= k < i - 1 ==> #[trigger] self.entries@[k].timestamp
                        >= self.entries@[k + 1].timestamp,
            decreases n - i,
        {
            if self.entries[i - 1].timestamp < self.entries[i].timestamp {
                proof {
                    assert(!sorted_desc(self.entries@));
                }
                return false;
            }
            i = i + 1;
        }
        proof {
            lemma_adjacent_sorted(self.entries@);
        }
        true
    }
}

proof fn lemma_sorted_pair(es: Seq<CommitEntry>, i: int, j: int)
    requires
        forall|k: int| 0 <= k < es.len() - 1 ==> #[trigger] es[k].timestamp >= es[k + 1].timestamp,
        0 <= i <= j < es.len(),
    ensures
        es[i].timestamp >= es[j].timestamp,
    decreases j - i,
{
    if i < j {
        lemma_sorted_pair(es, i + 1, j);
    }
}

proof fn lemma_adjacent_sorted(es: Seq<CommitEntry>)
    requires
        forall|k: int| 0 <= k < es.len() - 1 ==> #[trigger] es[k].timestamp >= es[k + 1].timestamp,
    ensures
        sorted_desc(es),
{
    assert forall|i: int, j: int| 0 <= i <= j < es.len() implies #[trigger] es[i].timestamp
        >= #[trigger] es[j].timestamp by {
        lemma_sorted_pair(es, i, j);
    }
}

/// Resolve a date to the most recent primary-line revision at or before
/// it; `NotFound` when the date precedes the whole history.
pub fn get_commit_id_from_date(history: &History, date: i64) -> (r: Result<String, BenchError>)
    ensures
        match r {
            Ok(id) => first_le(history.entries@, date as int) is Some && id@ == history.entries@[
                first_le(history.entries@, date as int)->Some_0
            ].commit_id@,
            Err(e) => first_le(history.entries@, date as int) is None && e is NotFound,
        },
{
    let n = history.entries.len();
    let mut i: usize = 0;
    while i < n
        invariant
            n == history.entries@.len(),
            0 <= i <= n,
            forall|k: int| 0 <= k < i ==> #[trigger] history.entries@[k].timestamp > date,
        decreases n - i,
    {
        if history.entries[i].timestamp <= date {
            proof {
                lemma_first_le_found(history.entries@, date as int, i as int);
            }
            return Ok(history.entries[i].commit_id.clone());
        }
        i = i + 1;
    }
    proof {
        lemma_first_le(history.entries@, date as int);
        if first_le(history.entries@, date as int) is Some {
            let j = first_le(history.entries@, date as int)->Some_0;
            assert(history.entries@[j].timestamp > date);
        }
    }
    Err(
        BenchError::NotFound(
            String::from_str("no revision at or before the requested date"),
        ),
    )
}

/// Resolve a revision identifier to its commit time; `NotFound` when the
/// identifier is not in the history.
pub fn get_commit_date(history: &History, commit_id: &str) -> (r: Result<i64, BenchError>)
    ensures
        match r {
            Ok(ts) => find_commit(history.entries@, commit_id@) is Some && ts
                == history.entries@[find_commit(history.entries@, commit_id@)->Some_0].timestamp,
            Err(e) => find_commit(history.entries@, commit_id@) is None && e is NotFound,
        },
{
    let n = history.entries.len();
    let mut i: usize = 0;
    while i < n
        invariant
            n == history.entries@.len(),
            0 <= i <= n,
            forall|k: int| 0 <= k < i ==> #[trigger] history.entries@[k].commit_id@ != commit_id@,
        decreases n - i,
    {
        if str_eq(history.entries[i].commit_id.as_str(), commit_id) {
            proof {
                lemma_find_commit_found(history.entries@, commit_id@, i as int);
            }
            return Ok(history.entries[i].timestamp);
        }
        i = i + 1;
    }
    proof {
        lemma_find_commit(history.entries@, commit_id@);
        if find_commit(history.entries@, commit_id@) is Some {
            let j = find_commit(history.entries@, commit_id@)->Some_0;
            assert(history.entries@[j].commit_id@ != commit_id@);
        }
    }
    Err(BenchError::NotFound(String::from_str("unknown revision identifier")))
}

/// Monotonicity of resolution: on a newest-first history, a later date
/// never resolves to an older commit.  If `d1 <= d2` and `d1` resolves,
/// `d2` resolves too, to a commit whose time is at least `d1`'s.
pub proof fn lemma_resolve_monotone(es: Seq<CommitEntry>, d1: int, d2: int)
    requires
        sorted_desc(es),
        d1 <= d2,
        first_le(es, d1) is Some,
    ensures
        first_le(es, d2) is Some,
        first_le(es, d2)->Some_0 <= first_le(es, d1)->Some_0,
        es[first_le(es, d2)->Some_0].timestamp >= es[first_le(es, d1)->Some_0].timestamp,
{
    lemma_first_le(es, d1);
    let i1 = first_le(es, d1)->Some_0;
    lemma_first_le(es, d2);
    match first_le(es, d2) {
        None => {
            assert(es[i1].timestamp > d2);
        },
        Some(i2) => {
            if i2 > i1 {
                assert(es[i1].timestamp > d2);
            }
        },
    }
}

/// Every revision listed once: no identifier repeats.
pub open spec fn unique_ids(es: Seq<CommitEntry>) -> bool {
    forall|i: int, j: int|
        0 <= i < j < es.len() ==> (#[trigger] es[i]).commit_id@ != (#[trigger] es[j]).commit_id@
}

/// A date before the whole history resolves to nothing: if every listed
/// commit is strictly later than `date`, resolution yields no entry.
pub proof fn lemma_resolve_before_first(es: Seq<CommitEntry>, date: int)
    requires
        forall|k: int| 0 <= k < es.len() ==> #[trigger] es[k].timestamp > date,
    ensures
        first_le(es, date) is None,
{
    lemma_first_le(es, date);
    if first_le(es, date) is Some {
        let i = first_le(es, date)->Some_0;
        assert(es[i].timestamp > date);
    }
}

} // verus!
