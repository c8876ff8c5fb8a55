use vstd::prelude::*;
use rayon::prelude::{IntoParallelRefIterator, ParallelIterator};
use crate::classify::{extension_key, get_extension};
use crate::stats::{
    ExtensionStats, FileObservation, Tally, lemma_sums_remove, lemma_sums_update, lemma_view_at,
    lemma_view_push, lemma_view_remove, lemma_view_update, table_files, table_total, table_view,
    table_wf,
};
use crate::tally::{
    kept, kept_count, kept_total, lemma_kept_total_prefix, lemma_partition_invariance,
    lemma_tally_bounds, merge_tallies, observe, tally, tally_parts,
};

verus! {

/// One more file of `size` bytes under `k` stays within the integer types.
pub open spec fn fits_one_more(m: Tally, k: Seq<char>, size: int) -> bool {
    m.contains_key(k) ==> m[k].0 + size <= u64::MAX && m[k].1 + 1 <= usize::MAX
}

/// Merging two sets of totals stays within the integer types.
pub open spec fn fits_merged(a: Tally, b: Tally) -> bool {
    forall|k: Seq<char>|
        #[trigger] a.contains_key(k) && b.contains_key(k) ==> a[k].0 + b[k].0 <= u64::MAX && a[k].1
            + b[k].1 <= usize::MAX
}

/// `m` is what merging the totals of some cut of `obs` into consecutive runs gives.
pub open spec fn merges_runs_of(m: Tally, obs: Seq<FileObservation>, min_size: u64) -> bool {
    exists|parts: Seq<Seq<FileObservation>>|
        parts.flatten() == obs && #[trigger] tally_parts(parts, min_size) == m
}

/// The row of `t` whose extension is `key`, if there is one.
pub fn find_key(t: &Vec<ExtensionStats>, key: &String) -> (r: Option<usize>)
    requires
        table_wf(t@),
    ensures
        match r {
            Some(i) => i < t@.len() && t@[i as int].extension@ == key@,
            None => !table_view(t@).contains_key(key@),
        },
{
    let mut i: usize = 0;
    while i < t.len()
        invariant
            i <= t@.len(),
            forall|j: int| 0 <= j < i ==> (#[trigger] t@[j]).extension@ != key@,
        decreases t@.len() - i,
    {
        if t[i].extension == *key {
            return Some(i);
        }
        i = i + 1;
    }
    None
}

/// Adds one observation to a table of totals, if it passes the size filter.
pub fn fold_observation(acc: Vec<ExtensionStats>, o: &FileObservation, min_size: u64) -> (r: Vec<
    ExtensionStats,
>)
    requires
        table_wf(acc@),
        kept(*o, min_size) ==> fits_one_more(
            table_view(acc@),
            extension_key(o.name@),
            o.size_bytes as int,
        ),
    ensures
        table_wf(r@),
        table_view(r@) == observe(table_view(acc@), *o, min_size),
{
    let mut acc = acc;
    if o.size_bytes < min_size {
        return acc;
    }
    let key = get_extension(o.name.as_str());
    let ghost before = acc@;
    match find_key(&acc, &key) {
        Some(i) => {
            proof {
                lemma_view_at(before, i as int);
            }
            let e = ExtensionStats {
                extension: key,
                total_size: acc[i].total_size + o.size_bytes,
                file_count: acc[i].file_count + 1,
            };
            acc.set(i, e);
            proof {
                lemma_view_update(before, i as int, e);
            }
        },
        None => {
            let e = ExtensionStats { extension: key, total_size: o.size_bytes, file_count: 1 };
            acc.push(e);
            proof {
                lemma_view_push(before, e);
            }
        },
    }
    acc
}

/// Merges the totals of `b` into those of `a`: rows of `a` keep their place,
/// extensions new to `a` follow in the order of `b`.
pub fn merge_tables(a: Vec<ExtensionStats>, b: Vec<ExtensionStats>) -> (r: Vec<ExtensionStats>)
    requires
        table_wf(a@),
        table_wf(b@),
        fits_merged(table_view(a@), table_view(b@)),
    ensures
        table_wf(r@),
        table_view(r@) == merge_tallies(table_view(a@), table_view(b@)),
{
    let mut acc = a;
    let mut i: usize = 0;
    proof {
        assert(table_view(b@.take(0)) =~= Map::empty());
        assert(merge_tallies(table_view(a@), Map::empty()) =~= table_view(a@));
    }
    while i < b.len()
        invariant
            i <= b@.len(),
            table_wf(a@),
            table_wf(b@),
            fits_merged(table_view(a@), table_view(b@)),
            table_wf(acc@),
            table_wf(b@.take(i as int)),
            table_view(acc@) == merge_tallies(table_view(a@), table_view(b@.take(i as int))),
        decreases b@.len() - i,
    {
        let ghost before = acc@;
        let ghost bi = b@.take(i as int);
        let ghost bn = b@.take(i as int + 1);
        let ghost va = table_view(a@);
        let ghost k = b@[i as int].extension@;
        proof {
            assert(bn =~= bi.push(b@[i as int]));
            assert forall|j: int| 0 <= j < bi.len() implies (#[trigger] bi[j]).extension@ != k by {
                assert(bi[j] == b@[j]);
            }
            assert(!table_view(bi).contains_key(k));
            lemma_view_push(bi, b@[i as int]);
            lemma_view_at(b@, i as int);
        }
        match find_key(&acc, &b[i].extension) {
            Some(j) => {
                proof {
                    lemma_view_at(before, j as int);
                }
                let e = ExtensionStats {
                    extension: b[i].extension.clone(),
                    total_size: acc[j].total_size + b[i].total_size,
                    file_count: acc[j].file_count + b[i].file_count,
                };
                acc.set(j, e);
                proof {
                    lemma_view_update(before, j as int, e);
                    assert(table_view(acc@) =~= merge_tallies(va, table_view(bn)));
                }
            },
            None => {
                let e = ExtensionStats {
                    extension: b[i].extension.clone(),
                    total_size: b[i].total_size,
                    file_count: b[i].file_count,
                };
                acc.push(e);
                proof {
                    lemma_view_push(before, e);
                    assert(table_view(acc@) =~= merge_tallies(va, table_view(bn)));
                }
            },
        }
        i = i + 1;
    }
    proof {
        assert(b@.take(b@.len() as int) =~= b@);
    }
    acc
}

/// The per-extension totals of the observations that pass the size filter,
/// folded one observation after the other.
pub fn aggregate(obs: &Vec<FileObservation>, min_size: u64) -> (r: Vec<ExtensionStats>)
    requires
        kept_total(obs@, min_size) <= u64::MAX,
    ensures
        table_wf(r@),
        table_view(r@) == tally(obs@, min_size),
{
    let mut acc: Vec<ExtensionStats> = Vec::new();
    let mut i: usize = 0;
    proof {
        assert(obs@.take(0) =~= Seq::<FileObservation>::empty());
        assert(table_view(acc@) =~= Map::empty());
    }
    while i < obs.len()
        invariant
            i <= obs@.len(),
            kept_total(obs@, min_size) <= u64::MAX,
            table_wf(acc@),
            table_view(acc@) == tally(obs@.take(i as int), min_size),
        decreases obs@.len() - i,
    {
        let ghost prefix = obs@.take(i as int);
        proof {
            assert(obs@.take(i as int + 1).drop_last() =~= prefix);
            lemma_kept_total_prefix(obs@, i as int + 1, min_size);
            lemma_tally_bounds(prefix, min_size);
        }
        acc = fold_observation(acc, &obs[i], min_size);
        i = i + 1;
    }
    proof {
        assert(obs@.take(obs@.len() as int) =~= obs@);
    }
    acc
}

/// Relies on rayon's `fold` and `reduce` over the indexed parallel iterator of
/// a `Vec`: the items are cut into consecutive runs, each run is folded from an
/// empty table with `fold_observation`, and the tables of the runs are merged
/// with `merge_tables` in the order of the runs (grouped in some way, which does
/// not matter: see `lemma_merge_associative`). Every intermediate sum is at most
/// the filtered sum of the whole input.
#[verifier::external_body]
fn fold_reduce_parallel(obs: &Vec<FileObservation>, min_size: u64) -> (r: Vec<ExtensionStats>)
    requires
        kept_total(obs@, min_size) <= u64::MAX,
    ensures
        table_wf(r@),
        merges_runs_of(table_view(r@), obs@, min_size),
{
    obs.par_iter().fold(Vec::new, |acc, o| fold_observation(acc, o, min_size)).reduce(
        Vec::new,
        merge_tables,
    )
}

/// The per-extension totals of the observations that pass the size filter,
/// computed by a pool of workers, each folding a run of the observations.
pub fn aggregate_parallel(obs: &Vec<FileObservation>, min_size: u64) -> (r: Vec<ExtensionStats>)
    requires
        kept_total(obs@, min_size) <= u64::MAX,
    ensures
        table_wf(r@),
        table_view(r@) == tally(obs@, min_size),
{
    let r = fold_reduce_parallel(obs, min_size);
    proof {
        let parts = choose|parts: Seq<Seq<FileObservation>>|
            parts.flatten() == obs@ && #[trigger] tally_parts(parts, min_size) == table_view(r@);
        lemma_partition_invariance(parts, min_size);
    }
    r
}

/// Conservation: a table that holds the totals of some observations sums,
/// over its rows, to the bytes and the number of the files that pass the filter.
pub proof fn lemma_conservation(t: Seq<ExtensionStats>, obs: Seq<FileObservation>, min_size: u64)
    requires
        table_wf(t),
        table_view(t) == tally(obs, min_size),
    ensures
        table_total(t) == kept_total(obs, min_size),
        table_files(t) == kept_count(obs, min_size),
    decreases obs.len(),
{
    if obs.len() == 0 {
        if t.len() > 0 {
            lemma_view_at(t, 0);
        }
    } else {
        let p = obs.drop_last();
        let o = obs.last();
        if !kept(o, min_size) {
            lemma_conservation(t, p, min_size);
        } else {
            let k = extension_key(o.name@);
            assert(table_view(t).contains_key(k));
            let i = choose|i: int| 0 <= i < t.len() && (#[trigger] t[i]).extension@ == k;
            lemma_view_at(t, i);
            lemma_tally_bounds(p, min_size);
            if tally(p, min_size).contains_key(k) {
                let e = ExtensionStats {
                    extension: t[i].extension,
                    total_size: (t[i].total_size - o.size_bytes) as u64,
                    file_count: (t[i].file_count - 1) as usize,
                };
                lemma_view_update(t, i, e);
                assert(table_view(t.update(i, e)) =~= tally(p, min_size));
                lemma_sums_update(t, i, e);
                lemma_conservation(t.update(i, e), p, min_size);
            } else {
                lemma_view_remove(t, i);
                assert(table_view(t.remove(i)) =~= tally(p, min_size));
                lemma_sums_remove(t, i);
                lemma_conservation(t.remove(i), p, min_size);
            }
        }
    }
}

} // verus!
