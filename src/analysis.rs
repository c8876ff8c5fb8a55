use vstd::prelude::*;
use crate::aggregate::{aggregate_parallel, lemma_conservation};
use crate::rank::{rank_by_size, sorted_desc};
use crate::stats::{ExtensionStats, FileObservation, table_files, table_total, table_view, table_wf};
use crate::tally::{kept_count, kept_total, lemma_kept_total_prefix, lemma_tally_bounds, tally};

verus! {

/// The ranked totals of a scan, and the grand totals over all extensions.
pub struct Analysis {
    pub stats: Vec<ExtensionStats>,
    pub total_size: u64,
    pub total_files: usize,
}

proof fn lemma_row_within_total(t: Seq<ExtensionStats>, i: int)
    requires
        0 <= i < t.len(),
    ensures
        t[i].total_size <= table_total(t),
    decreases t.len(),
{
    lemma_sums_nonneg(t.drop_last());
    if i < t.len() - 1 {
        lemma_row_within_total(t.drop_last(), i);
    }
}

proof fn lemma_sums_nonneg(t: Seq<ExtensionStats>)
    ensures
        table_total(t) >= 0,
        table_files(t) >= 0,
    decreases t.len(),
{
    if t.len() > 0 {
        lemma_sums_nonneg(t.drop_last());
    }
}

proof fn lemma_sums_prefix(t: Seq<ExtensionStats>, i: int)
    requires
        0 <= i <= t.len(),
    ensures
        table_total(t.take(i)) <= table_total(t),
        table_files(t.take(i)) <= table_files(t),
    decreases t.len() - i,
{
    if i < t.len() {
        lemma_sums_prefix(t, i + 1);
        assert(t.take(i + 1).drop_last() =~= t.take(i));
    } else {
        assert(t.take(i) =~= t);
    }
}

/// Bytes summed over the files that pass the size filter, or `None` where
/// that sum does not fit in a `u64`.
pub fn filtered_total(obs: &Vec<FileObservation>, min_size: u64) -> (r: Option<u64>)
    ensures
        match r {
            Some(t) => t == kept_total(obs@, min_size),
            None => kept_total(obs@, min_size) > u64::MAX,
        },
{
    let mut acc: u64 = 0;
    let mut i: usize = 0;
    proof {
        assert(obs@.take(0) =~= Seq::<FileObservation>::empty());
    }
    while i < obs.len()
        invariant
            i <= obs@.len(),
            acc == kept_total(obs@.take(i as int), min_size),
        decreases obs@.len() - i,
    {
        proof {
            assert(obs@.take(i as int + 1).drop_last() =~= obs@.take(i as int));
            lemma_kept_total_prefix(obs@, i as int + 1, min_size);
        }
        if obs[i].size_bytes >= min_size {
            match acc.checked_add(obs[i].size_bytes) {
                Some(s) => {
                    acc = s;
                },
                None => {
                    return None;
                },
            }
        }
        i = i + 1;
    }
    proof {
        assert(obs@.take(obs@.len() as int) =~= obs@);
    }
    Some(acc)
}

/// Bytes and files summed over the rows of a table.
pub fn grand_totals(stats: &Vec<ExtensionStats>) -> (r: (u64, usize))
    requires
        table_total(stats@) <= u64::MAX,
        table_files(stats@) <= usize::MAX,
    ensures
        r.0 == table_total(stats@),
        r.1 == table_files(stats@),
{
    let mut size: u64 = 0;
    let mut files: usize = 0;
    let mut i: usize = 0;
    proof {
        assert(stats@.take(0) =~= Seq::<ExtensionStats>::empty());
    }
    while i < stats.len()
        invariant
            i <= stats@.len(),
            table_total(stats@) <= u64::MAX,
            table_files(stats@) <= usize::MAX,
            size == table_total(stats@.take(i as int)),
            files == table_files(stats@.take(i as int)),
        decreases stats@.len() - i,
    {
        proof {
            assert(stats@.take(i as int + 1).drop_last() =~= stats@.take(i as int));
            lemma_sums_prefix(stats@, i as int + 1);
        }
        size = size + stats[i].total_size;
        files = files + stats[i].file_count;
        i = i + 1;
    }
    proof {
        assert(stats@.take(stats@.len() as int) =~= stats@);
    }
    (size, files)
}

/// Filters, groups and ranks the observations: the totals of each extension,
/// largest first, with the grand totals. `None` where the filtered sum of the
/// sizes does not fit in a `u64`. Extensions of equal size keep their places
/// in the aggregated table (see `rank_by_size`).
pub fn analyze(obs: &Vec<FileObservation>, min_size: u64) -> (r: Option<Analysis>)
    ensures
        r.is_some() <==> kept_total(obs@, min_size) <= u64::MAX,
        r matches Some(a) ==> {
            &&& table_wf(a.stats@)
            &&& table_view(a.stats@) == tally(obs@, min_size)
            &&& sorted_desc(a.stats@)
            &&& a.total_size == kept_total(obs@, min_size)
            &&& a.total_files == kept_count(obs@, min_size)
            &&& forall|i: int|
                0 <= i < a.stats@.len() ==> (#[trigger] a.stats@[i]).total_size <= a.total_size
        },
{
    if filtered_total(obs, min_size).is_none() {
        return None;
    }
    let n = obs.len();
    let table = aggregate_parallel(obs, min_size);
    let stats = rank_by_size(table);
    proof {
        lemma_conservation(stats@, obs@, min_size);
        lemma_tally_bounds(obs@, min_size);
        assert(kept_count(obs@, min_size) <= n);
    }
    let (total_size, total_files) = grand_totals(&stats);
    proof {
        assert forall|i: int| 0 <= i < stats@.len() implies (#[trigger] stats@[i]).total_size
            <= total_size by {
            lemma_row_within_total(stats@, i);
        }
    }
    Some(Analysis { stats, total_size, total_files })
}

} // verus!
