use vstd::prelude::*;

verus! {

/// The sum of a sequence of scores.
pub open spec fn score_sum(s: Seq<i64>) -> int
    decreases s.len(),
{
    if s.len() == 0 {
        0
    } else {
        score_sum(s.drop_last()) + s.last() as int
    }
}

/// Record `i` scores at least the mean of all scores.
///
/// The mean `sum / n` is compared exactly, as `score * n >= sum`, so no
/// division happens and an empty sequence needs no special case.
pub open spec fn above_mean(s: Seq<i64>, i: int) -> bool {
    s[i] as int * s.len() >= score_sum(s)
}

/// Record `a` comes before record `b`: a higher score first, and on equal
/// scores the earlier record first.
pub open spec fn ranks_before(s: Seq<i64>, a: int, b: int) -> bool {
    s[a] > s[b] || (s[a] == s[b] && a < b)
}

/// `order` lists exactly the records scoring at least the mean, best first,
/// ties kept in record order.
pub open spec fn is_ranking(s: Seq<i64>, order: Seq<usize>) -> bool {
    &&& forall|k: int|
        0 <= k < order.len() ==> (order[k] as int) < s.len() && above_mean(s, order[k] as int)
    &&& forall|i: int| 0 <= i < s.len() && above_mean(s, i) ==> order.contains(i as usize)
    &&& forall|j: int, k: int|
        0 <= j < k < order.len() ==> ranks_before(s, order[j] as int, order[k] as int)
}

proof fn lemma_sum_bounds(s: Seq<i64>)
    ensures
        -9223372036854775808 * s.len() <= score_sum(s) <= 9223372036854775807 * s.len(),
    decreases s.len(),
{
    if s.len() > 0 {
        lemma_sum_bounds(s.drop_last());
    }
}

/// Some record scores no less than every other, and that one is above the mean.
proof fn lemma_max_above_mean(s: Seq<i64>) -> (m: int)
    requires
        s.len() > 0,
    ensures
        0 <= m < s.len(),
        forall|i: int| 0 <= i < s.len() ==> s[i] <= s[m],
        above_mean(s, m),
    decreases s.len(),
{
    if s.len() == 1 {
        assert(s.drop_last().len() == 0);
        assert(score_sum(s.drop_last()) == 0);
        assert(score_sum(s) == s[0] as int);
        0
    } else {
        let t = s.drop_last();
        let m0 = lemma_max_above_mean(t);
        let m = if s[m0] >= s.last() {
            m0
        } else {
            s.len() - 1
        };
        assert forall|i: int| 0 <= i < s.len() implies s[i] <= s[m] by {
            if i < s.len() - 1 {
                assert(t[i] == s[i]);
            }
        }
        assert(s.last() <= s[m]);
        assert(t[m0] == s[m0]);
        assert(score_sum(t) <= t[m0] as int * t.len());
        assert(score_sum(s) == score_sum(t) + s.last() as int);
        assert(s[m] as int * t.len() >= t[m0] as int * t.len()) by (nonlinear_arith)
            requires
                s[m] >= t[m0],
                t.len() >= 0,
        ;
        assert(s[m] as int * s.len() == s[m] as int * t.len() + s[m] as int) by (nonlinear_arith)
            requires
                s.len() == t.len() + 1,
        ;
        m
    }
}

/// Whenever there is at least one score, the ranking is not empty, and its
/// first record scores no less than any record.
pub proof fn lemma_ranking_nonempty(s: Seq<i64>, order: Seq<usize>)
    requires
        0 < s.len() <= usize::MAX,
        is_ranking(s, order),
    ensures
        order.len() > 0,
        forall|i: int| 0 <= i < s.len() ==> s[order[0] as int] >= #[trigger] s[i],
{
    let m = lemma_max_above_mean(s);
    assert(order.contains(m as usize));
    let k = choose|k: int| 0 <= k < order.len() && order[k] == m as usize;
    if k > 0 {
        assert(ranks_before(s, order[0] as int, order[k] as int));
    }
    assert(s[order[0] as int] >= s[m]);
}

/// The records whose score reaches the mean of all scores, best first; equal
/// scores keep record order. No scores give an empty ranking.
pub fn rank_by_score(scores: &Vec<i64>) -> (order: Vec<usize>)
    ensures
        is_ranking(scores@, order@),
{
    let ghost s = scores@;
    let n = scores.len();
    let mut sum: i128 = 0;
    let mut i: usize = 0;
    while i < n
        invariant
            n == s.len(),
            s == scores@,
            0 <= i <= n,
            sum == score_sum(s.subrange(0, i as int)),
            -9223372036854775808 * i <= sum <= 9223372036854775807 * i,
        decreases n - i,
    {
        assert(s.subrange(0, i + 1).drop_last() == s.subrange(0, i as int));
        sum = sum + scores[i] as i128;
        i = i + 1;
    }
    assert(s.subrange(0, n as int) == s);
    let mut order: Vec<usize> = Vec::new();
    let mut i: usize = 0;
    while i < n
        invariant
            n == s.len(),
            s == scores@,
            0 <= i <= n,
            sum == score_sum(s),
            forall|k: int|
                0 <= k < order.len() ==> (order[k] as int) < i && above_mean(s, order[k] as int),
            forall|i2: int| 0 <= i2 < i && above_mean(s, i2) ==> order@.contains(i2 as usize),
            forall|j: int, k: int|
                0 <= j < k < order.len() ==> ranks_before(s, order[j] as int, order[k] as int),
        decreases n - i,
    {
        let si = scores[i];
        proof {
            lemma_sum_bounds(s);
            assert(-9223372036854775808 * n <= si as int * n <= 9223372036854775807 * n)
                by (nonlinear_arith)
                requires
                    -9223372036854775808 <= si <= 9223372036854775807,
                    n >= 0,
            ;
        }
        if (si as i128) * (n as i128) >= sum {
            let mut p: usize = 0;
            while p < order.len() && scores[order[p]] >= si
                invariant
                    n == s.len(),
                    s == scores@,
                    si == s[i as int],
                    i < n,
                    0 <= p <= order.len(),
                    forall|k: int| 0 <= k < order.len() ==> (order[k] as int) < i,
                    forall|q: int| 0 <= q < p ==> s[order[q] as int] >= si,
                decreases order.len() - p,
            {
                p = p + 1;
            }
            let ghost old_order = order@;
            assert forall|q: int| p <= q < old_order.len() implies s[old_order[q] as int] < si by {
                if q > p {
                    assert(ranks_before(s, old_order[p as int] as int, old_order[q] as int));
                }
            }
            order.insert(p, i);
            assert forall|i2: int| 0 <= i2 < i + 1 && above_mean(s, i2) implies order@.contains(
                i2 as usize,
            ) by {
                if i2 == i {
                    assert(order@[p as int] == i);
                } else {
                    let k = choose|k: int| 0 <= k < old_order.len() && old_order[k] == i2 as usize;
                    if k < p {
                        assert(order@[k] == i2 as usize);
                    } else {
                        assert(order@[k + 1] == i2 as usize);
                    }
                }
            }
        } else {
            assert(!above_mean(s, i as int));
        }
        i = i + 1;
    }
    order
}

} // verus!
