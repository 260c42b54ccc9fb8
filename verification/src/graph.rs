use vstd::prelude::*;
use crate::database::{Job, Run};
use crate::numbers::{Decimal, spec_dec_le, dec_le};

verus! {

/// The per-row metrics the chart reads: whether a y-axis limit bounds
/// them all and is attained.
pub open spec fn row_user(rows: Seq<(Job, Run)>, i: int) -> Decimal {
    rows[i].0.result.user_time
}

pub open spec fn row_rss(rows: Seq<(Job, Run)>, i: int) -> int {
    rows[i].0.result.max_resident_set_size_kb as int
}

pub open spec fn row_date(rows: Seq<(Job, Run)>, i: int) -> int {
    rows[i].1.run_date as int
}

/// The largest user-CPU time among the rows, the chart's left y-axis
/// limit; zero when there are no rows.
pub fn max_user_time(rows: &Vec<(Job, Run)>) -> (r: Decimal)
    requires
        forall|i: int| 0 <= i < rows@.len() ==> (#[trigger] rows@[i]).0.result.user_time.wf(),
    ensures
        r.wf(),
        forall|i: int| 0 <= i < rows@.len() ==> spec_dec_le(row_user(rows@, i), r),
        r.num() == 0 || exists|i: int| 0 <= i < rows@.len() && row_user(rows@, i) == r,
{
    let mut best = Decimal::zero();
    let n = rows.len();
    let mut i: usize = 0;
    while i < n
        invariant
            n == rows@.len(),
            0 <= i <= n,
            best.wf(),
            forall|k: int|
                0 <= k < rows@.len() ==> (#[trigger] rows@[k]).0.result.user_time.wf(),
            forall|k: int| 0 <= k < i ==> spec_dec_le(row_user(rows@, k), best),
            best.num() == 0 || exists|k: int| 0 <= k < i && row_user(rows@, k) == best,
        decreases n - i,
    {
        let cand = &rows[i].0.result.user_time;
        if dec_le(&best, cand) {
            proof {
                lemma_dec_le_trans_all(rows@, i as int, best, *cand);
            }
            best = *cand;
            proof {
                assert(row_user(rows@, i as int) == best);
            }
        } else {
            proof {
                lemma_dec_le_total(best, *cand);
            }
        }
        i = i + 1;
    }
    best
}

/// Comparison by cross-multiplication is total on well-formed decimals.
proof fn lemma_dec_le_total(a: Decimal, b: Decimal)
    requires
        a.wf(),
        b.wf(),
        !spec_dec_le(a, b),
    ensures
        spec_dec_le(b, a),
{
}

/// Everything below the old bound stays below the new, larger one.
proof fn lemma_dec_le_trans_all(rows: Seq<(Job, Run)>, i: int, best: Decimal, cand: Decimal)
    requires
        0 <= i < rows.len(),
        best.wf(),
        cand.wf(),
        cand == row_user(rows, i),
        spec_dec_le(best, cand),
        forall|k: int| 0 <= k < i ==> spec_dec_le(row_user(rows, k), best),
        forall|k: int| 0 <= k < rows.len() ==> (#[trigger] rows[k]).0.result.user_time.wf(),
    ensures
        forall|k: int| 0 <= k <= i ==> spec_dec_le(row_user(rows, k), cand),
{
    assert forall|k: int| 0 <= k <= i implies spec_dec_le(row_user(rows, k), cand) by {
        if k < i {
            lemma_dec_le_trans(row_user(rows, k), best, cand);
        } else {
            lemma_dec_le_refl(cand);
        }
    }
}

proof fn lemma_dec_le_refl(a: Decimal)
    ensures
        spec_dec_le(a, a),
{
}

proof fn lemma_dec_le_trans(a: Decimal, b: Decimal, c: Decimal)
    requires
        a.wf(),
        b.wf(),
        c.wf(),
        spec_dec_le(a, b),
        spec_dec_le(b, c),
    ensures
        spec_dec_le(a, c),
{
    let an = a.num();
    let bn = b.num();
    let cn = c.num();
    assert(an * c.frac_den <= cn * a.frac_den) by (nonlinear_arith)
        requires
            an * b.frac_den <= bn * a.frac_den,
            bn * c.frac_den <= cn * b.frac_den,
            a.frac_den >= 1,
            b.frac_den >= 1,
            c.frac_den >= 1,
    ;
}

/// The largest resident-set size among the rows, the right y-axis
/// limit; zero when there are no rows or all are negative.
pub fn max_rss(rows: &Vec<(Job, Run)>) -> (r: i64)
    ensures
        r >= 0,
        forall|i: int| 0 <= i < rows@.len() ==> row_rss(rows@, i) <= r,
        r == 0 || exists|i: int| 0 <= i < rows@.len() && row_rss(rows@, i) == r,
{
    let mut best: i64 = 0;
    let n = rows.len();
    let mut i: usize = 0;
    while i < n
        invariant
            n == rows@.len(),
            0 <= i <= n,
            best >= 0,
            forall|k: int| 0 <= k < i ==> row_rss(rows@, k) <= best,
            best == 0 || exists|k: int| 0 <= k < i && row_rss(rows@, k) == best,
        decreases n - i,
    {
        let v = rows[i].0.result.max_resident_set_size_kb;
        if v > best {
            best = v;
            proof {
                assert(row_rss(rows@, i as int) == best);
            }
        }
        i = i + 1;
    }
    best
}

/// The earliest run date among the rows, the x-axis start; zero when
/// there are no rows.
pub fn min_run_date(rows: &Vec<(Job, Run)>) -> (r: i64)
    ensures
        rows@.len() == 0 ==> r == 0,
        rows@.len() > 0 ==> (forall|i: int| 0 <= i < rows@.len() ==> r <= row_date(rows@, i))
            && exists|i: int| 0 <= i < rows@.len() && row_date(rows@, i) == r,
{
    let n = rows.len();
    if n == 0 {
        return 0;
    }
    let mut best: i64 = rows[0].1.run_date;
    proof {
        assert(row_date(rows@, 0) == best);
    }
    let mut i: usize = 1;
    while i < n
        invariant
            n == rows@.len(),
            1 <= i <= n,
            forall|k: int| 0 <= k < i ==> best <= row_date(rows@, k),
            exists|k: int| 0 <= k < i && row_date(rows@, k) == best,
        decreases n - i,
    {
        let v = rows[i].1.run_date;
        if v < best {
            best = v;
            proof {
                assert(row_date(rows@, i as int) == best);
            }
        }
        i = i + 1;
    }
    best
}

/// The latest run date among the rows, the x-axis end; zero when there
/// are no rows.
pub fn max_run_date(rows: &Vec<(Job, Run)>) -> (r: i64)
    ensures
        rows@.len() == 0 ==> r == 0,
        rows@.len() > 0 ==> (forall|i: int| 0 <= i < rows@.len() ==> row_date(rows@, i) <= r)
            && exists|i: int| 0 <= i < rows@.len() && row_date(rows@, i) == r,
{
    let n = rows.len();
    if n == 0 {
        return 0;
    }
    let mut best: i64 = rows[0].1.run_date;
    proof {
        assert(row_date(rows@, 0) == best);
    }
    let mut i: usize = 1;
    while i < n
        invariant
            n == rows@.len(),
            1 <= i <= n,
            forall|k: int| 0 <= k < i ==> row_date(rows@, k) <= best,
            exists|k: int| 0 <= k < i && row_date(rows@, k) == best,
        decreases n - i,
    {
        let v = rows[i].1.run_date;
        if v > best {
            best = v;
            proof {
                assert(row_date(rows@, i as int) == best);
            }
        }
        i = i + 1;
    }
    best
}

/// The (run date, user time) points of the rows on one side of the
/// primary-line split, in row order.
pub open spec fn spec_user_points(rows: Seq<(Job, Run)>, master: bool) -> Seq<(i64, Decimal)>
    decreases rows.len(),
{
    if rows.len() == 0 {
        Seq::empty()
    } else {
        let p = spec_user_points(rows.drop_last(), master);
        if rows.last().1.was_master == master {
            p.push((rows.last().1.run_date, rows.last().0.result.user_time))
        } else {
            p
        }
    }
}

/// The (run date, resident-set size) points on one side of the
/// primary-line split, in row order.
pub open spec fn spec_rss_points(rows: Seq<(Job, Run)>, master: bool) -> Seq<(i64, i64)>
    decreases rows.len(),
{
    if rows.len() == 0 {
        Seq::empty()
    } else {
        let p = spec_rss_points(rows.drop_last(), master);
        if rows.last().1.was_master == master {
            p.push((rows.last().1.run_date, rows.last().0.result.max_resident_set_size_kb))
        } else {
            p
        }
    }
}

/// Collect one user-time series: primary-line rows when `master`, the
/// others when not.
pub fn user_time_points(rows: &Vec<(Job, Run)>, master: bool) -> (r: Vec<(i64, Decimal)>)
    ensures
        r@ == spec_user_points(rows@, master),
{
    let mut out: Vec<(i64, Decimal)> = Vec::new();
    let n = rows.len();
    let mut i: usize = 0;
    proof {
        assert(rows@.take(0) =~= Seq::<(Job, Run)>::empty());
    }
    while i < n
        invariant
            n == rows@.len(),
            0 <= i <= n,
            out@ == spec_user_points(rows@.take(i as int), master),
        decreases n - i,
    {
        proof {
            assert(rows@.take(i + 1).drop_last() =~= rows@.take(i as int));
            assert(rows@.take(i + 1).last() == rows@[i as int]);
        }
        if rows[i].1.was_master == master {
            out.push((rows[i].1.run_date, rows[i].0.result.user_time));
        }
        i = i + 1;
    }
    proof {
        assert(rows@.take(n as int) =~= rows@);
    }
    out
}

/// Collect one resident-set-size series, split the same way.
pub fn rss_points(rows: &Vec<(Job, Run)>, master: bool) -> (r: Vec<(i64, i64)>)
    ensures
        r@ == spec_rss_points(rows@, master),
{
    let mut out: Vec<(i64, i64)> = Vec::new();
    let n = rows.len();
    let mut i: usize = 0;
    proof {
        assert(rows@.take(0) =~= Seq::<(Job, Run)>::empty());
    }
    while i < n
        invariant
            n == rows@.len(),
            0 <= i <= n,
            out@ == spec_rss_points(rows@.take(i as int), master),
        decreases n - i,
    {
        proof {
            assert(rows@.take(i + 1).drop_last() =~= rows@.take(i as int));
            assert(rows@.take(i + 1).last() == rows@[i as int]);
        }
        if rows[i].1.was_master == master {
            out.push((rows[i].1.run_date, rows[i].0.result.max_resident_set_size_kb));
        }
        i = i + 1;
    }
    proof {
        assert(rows@.take(n as int) =~= rows@);
    }
    out
}

} // verus!
