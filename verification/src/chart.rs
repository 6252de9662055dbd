//! The scale of the page views chart: the largest value it has to show, and
//! whether it has anything to show at all.
use vstd::prelude::*;

verus! {

/// The largest of zero and the views and unique visitors of `points`, each
/// point given as (views, unique visitors).
pub open spec fn peak(points: Seq<(i64, i64)>) -> int
    decreases points.len(),
{
    if points.len() == 0 {
        0
    } else {
        let p = peak(points.drop_last());
        let (v, u) = points.last();
        let m = if v > p {
            v as int
        } else {
            p
        };
        if u > m {
            u as int
        } else {
            m
        }
    }
}

/// The peak is at least zero and at least every value of every point.
pub proof fn lemma_peak_bounds(points: Seq<(i64, i64)>)
    ensures
        0 <= peak(points) <= i64::MAX,
        forall|i: int| 0 <= i < points.len() ==> points[i].0 <= peak(points) && points[i].1 <= peak(points),
        peak(points) == 0 || exists|i: int|
            0 <= i < points.len() && (peak(points) == points[i].0 || peak(points) == points[i].1),
    decreases points.len(),
{
    if points.len() > 0 {
        let q = points.drop_last();
        lemma_peak_bounds(q);
        assert forall|i: int| 0 <= i < points.len() implies points[i].0 <= peak(points) && points[i].1 <= peak(
            points,
        ) by {
            if i < q.len() {
                assert(points[i] == q[i]);
            }
        }
        if peak(points) != 0 && peak(points) == peak(q) {
            let i = choose|i: int| 0 <= i < q.len() && (peak(q) == q[i].0 || peak(q) == q[i].1);
            assert(points[i] == q[i]);
        }
        if peak(points) != peak(q) {
            assert(points[points.len() - 1] == points.last());
        }
    }
}

/// The largest value among the views and unique visitors of `points`, or 0
/// where there is none above 0.
pub fn peak_value(points: &Vec<(i64, i64)>) -> (r: i64)
    ensures
        r == peak(points@),
{
    let mut max_value: i64 = 0;
    let mut i: usize = 0;
    while i < points.len()
        invariant
            i <= points@.len(),
            max_value == peak(points@.take(i as int)),
        decreases points@.len() - i,
    {
        proof {
            assert(points@.take(i + 1).drop_last() =~= points@.take(i as int));
            assert(points@.take(i + 1).last() == points@[i as int]);
        }
        let (v, u) = points[i];
        if v > max_value {
            max_value = v;
        }
        if u > max_value {
            max_value = u;
        }
        i = i + 1;
    }
    proof {
        assert(points@.take(i as int) =~= points@);
    }
    max_value
}

/// The value the chart is scaled to: `None` where there are no points or
/// none above 0, and the chart shows its empty state; else the peak.
pub fn chart_scale(points: &Vec<(i64, i64)>) -> (r: Option<i64>)
    ensures
        match r {
            None => points@.len() == 0 || peak(points@) == 0,
            Some(m) => points@.len() > 0 && m == peak(points@) && m > 0,
        },
{
    if points.len() == 0 {
        return None;
    }
    let m = peak_value(points);
    proof {
        lemma_peak_bounds(points@);
    }
    if m == 0 {
        None
    } else {
        Some(m)
    }
}

} // verus!
