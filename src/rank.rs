use vstd::prelude::*;
use crate::stats::{ExtensionStats, lemma_view_insert, table_view, table_wf};

verus! {

/// `x` placed before the first row whose total is not above its own.
pub open spec fn insert_ranked(t: Seq<ExtensionStats>, x: ExtensionStats) -> Seq<ExtensionStats>
    decreases t.len(),
{
    if t.len() == 0 {
        seq![x]
    } else if t[0].total_size <= x.total_size {
        seq![x] + t
    } else {
        seq![t[0]] + insert_ranked(t.drop_first(), x)
    }
}

/// The rows ordered by total size, largest first; rows of equal size keep
/// their relative order.
pub open spec fn ranked(s: Seq<ExtensionStats>) -> Seq<ExtensionStats>
    decreases s.len(),
{
    if s.len() == 0 {
        seq![]
    } else {
        insert_ranked(ranked(s.drop_first()), s[0])
    }
}

/// Totals never grow from one row to the next.
pub open spec fn sorted_desc(t: Seq<ExtensionStats>) -> bool {
    forall|i: int, j: int| 0 <= i < j < t.len() ==> (#[trigger] t[i]).total_size >= (
    #[trigger] t[j]).total_size
}

proof fn lemma_insert_ranked_at(t: Seq<ExtensionStats>, x: ExtensionStats, p: int)
    requires
        0 <= p <= t.len(),
        forall|j: int| 0 <= j < p ==> (#[trigger] t[j]).total_size > x.total_size,
        p == t.len() || t[p].total_size <= x.total_size,
    ensures
        insert_ranked(t, x) == t.insert(p, x),
    decreases t.len(),
{
    if t.len() == 0 {
        assert(t.insert(p, x) =~= seq![x]);
    } else if p == 0 {
        assert(t.insert(p, x) =~= seq![x] + t);
    } else {
        let d = t.drop_first();
        assert forall|j: int| 0 <= j < p - 1 implies (#[trigger] d[j]).total_size > x.total_size by {
            assert(d[j] == t[j + 1]);
        }
        lemma_insert_ranked_at(d, x, p - 1);
        assert(t.insert(p, x) =~= seq![t[0]] + d.insert(p - 1, x));
    }
}

/// Orders the rows by total size, largest first; rows of equal size keep
/// their relative order.
pub fn rank_by_size(stats: Vec<ExtensionStats>) -> (r: Vec<ExtensionStats>)
    ensures
        r@ == ranked(stats@),
        sorted_desc(r@),
        table_wf(stats@) ==> table_wf(r@) && table_view(r@) == table_view(stats@),
{
    let ghost orig = stats@;
    let mut rest = stats;
    let mut r: Vec<ExtensionStats> = Vec::new();
    proof {
        assert(orig.skip(orig.len() as int) =~= Seq::<ExtensionStats>::empty());
        assert(table_view(r@) =~= Map::empty());
    }
    while rest.len() > 0
        invariant
            rest@ == orig.take(rest@.len() as int),
            rest@.len() <= orig.len(),
            r@ == ranked(orig.skip(rest@.len() as int)),
            sorted_desc(r@),
            table_wf(orig) ==> table_wf(r@) && table_view(r@) == table_view(
                orig.skip(rest@.len() as int),
            ),
        decreases rest@.len(),
    {
        let ghost n = rest@.len() as int;
        let x = rest.pop().unwrap();
        let mut p: usize = 0;
        while p < r.len() && r[p].total_size > x.total_size
            invariant
                p <= r@.len(),
                forall|j: int| 0 <= j < p ==> (#[trigger] r@[j]).total_size > x.total_size,
            decreases r@.len() - p,
        {
            p = p + 1;
        }
        let ghost before = r@;
        proof {
            lemma_insert_ranked_at(before, x, p as int);
            assert(orig.skip(n - 1).drop_first() =~= orig.skip(n));
            assert(orig.skip(n - 1)[0] == x);
        }
        r.insert(p, x);
        proof {
            assert forall|i: int, j: int| 0 <= i < j < r@.len() implies (#[trigger] r@[i]).total_size
                >= (#[trigger] r@[j]).total_size by {
                if j > p as int && p < before.len() {
                    assert(r@[p as int + 1] == before[p as int]);
                }
                if i < p && j > p {
                    assert(r@[i] == before[i]);
                }
            }
            if table_wf(orig) {
                let s1 = orig.skip(n);
                let s0 = orig.skip(n - 1);
                assert forall|j: int| 0 <= j < s1.len() implies (#[trigger] s1[j]).extension@
                    != x.extension@ by {
                    assert(s1[j] == orig[n + j]);
                    assert(x == orig[n - 1]);
                }
                assert(!table_view(s1).contains_key(x.extension@)) by {
                    if table_view(s1).contains_key(x.extension@) {
                        let j = choose|j: int|
                            0 <= j < s1.len() && (#[trigger] s1[j]).extension@ == x.extension@;
                    }
                }
                lemma_view_insert(before, p as int, x);
                assert forall|j: int| 0 <= j < s0.len() implies #[trigger] s0[j] == if j == 0 {
                    x
                } else {
                    s1[j - 1]
                } by {}
                assert(s0 =~= s1.insert(0, x));
                assert forall|a: int, b: int|
                    0 <= a < s1.len() && 0 <= b < s1.len() && a != b implies (
                    #[trigger] s1[a]).extension@ != (#[trigger] s1[b]).extension@ by {
                    assert(s1[a] == orig[n + a] && s1[b] == orig[n + b]);
                }
                lemma_view_insert(s1, 0, x);
            }
        }
    }
    proof {
        assert(orig.skip(0) =~= orig);
    }
    r
}

} // verus!
