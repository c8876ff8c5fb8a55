use vstd::prelude::*;
use crate::classify::extension_key;
use crate::stats::{FileObservation, Tally};

verus! {

/// A file passes the size filter when it is at least `min_size` bytes long.
pub open spec fn kept(o: FileObservation, min_size: u64) -> bool {
    o.size_bytes >= min_size
}

/// Bytes summed over the files that pass the filter.
pub open spec fn kept_total(obs: Seq<FileObservation>, min_size: u64) -> int
    decreases obs.len(),
{
    if obs.len() == 0 {
        0
    } else {
        kept_total(obs.drop_last(), min_size) + if kept(obs.last(), min_size) {
            obs.last().size_bytes as int
        } else {
            0
        }
    }
}

/// How many files pass the filter.
pub open spec fn kept_count(obs: Seq<FileObservation>, min_size: u64) -> int
    decreases obs.len(),
{
    if obs.len() == 0 {
        0
    } else {
        kept_count(obs.drop_last(), min_size) + if kept(obs.last(), min_size) {
            1int
        } else {
            0
        }
    }
}

/// One more file of `size` bytes under key `k`.
pub open spec fn tally_add(m: Tally, k: Seq<char>, size: int) -> Tally {
    if m.contains_key(k) {
        m.insert(k, (m[k].0 + size, m[k].1 + 1))
    } else {
        m.insert(k, (size, 1))
    }
}

/// The totals after one more observation: unchanged where the file is filtered out.
pub open spec fn observe(m: Tally, o: FileObservation, min_size: u64) -> Tally {
    if kept(o, min_size) {
        tally_add(m, extension_key(o.name@), o.size_bytes as int)
    } else {
        m
    }
}

/// The per-extension totals of a sequence of observations.
pub open spec fn tally(obs: Seq<FileObservation>, min_size: u64) -> Tally
    decreases obs.len(),
{
    if obs.len() == 0 {
        Map::empty()
    } else {
        observe(tally(obs.drop_last(), min_size), obs.last(), min_size)
    }
}

pub open spec fn entry_or_zero(m: Tally, k: Seq<char>) -> (int, int) {
    if m.contains_key(k) {
        m[k]
    } else {
        (0, 0)
    }
}

/// Two sets of totals combined: the union of the keys, adding where both hold one.
pub open spec fn merge_tallies(a: Tally, b: Tally) -> Tally {
    Map::new(
        |k: Seq<char>| a.contains_key(k) || b.contains_key(k),
        |k: Seq<char>|
            (entry_or_zero(a, k).0 + entry_or_zero(b, k).0, entry_or_zero(a, k).1 + entry_or_zero(
                b,
                k,
            ).1),
    )
}

/// The totals of each part, merged in the order of the parts.
pub open spec fn tally_parts(parts: Seq<Seq<FileObservation>>, min_size: u64) -> Tally
    decreases parts.len(),
{
    if parts.len() == 0 {
        Map::empty()
    } else {
        merge_tallies(tally_parts(parts.drop_last(), min_size), tally(parts.last(), min_size))
    }
}

/// Merging totals does not depend on the order of the two operands.
pub proof fn lemma_merge_commutative(a: Tally, b: Tally)
    ensures
        merge_tallies(a, b) == merge_tallies(b, a),
{
    assert(merge_tallies(a, b) =~= merge_tallies(b, a));
}

/// Merging totals does not depend on how the merges are grouped.
pub proof fn lemma_merge_associative(a: Tally, b: Tally, c: Tally)
    ensures
        merge_tallies(merge_tallies(a, b), c) == merge_tallies(a, merge_tallies(b, c)),
{
    assert(merge_tallies(merge_tallies(a, b), c) =~= merge_tallies(a, merge_tallies(b, c)));
}

/// The empty totals are neutral for merging.
pub proof fn lemma_merge_empty(a: Tally)
    ensures
        merge_tallies(a, Map::empty()) == a,
        merge_tallies(Map::empty(), a) == a,
{
    assert(merge_tallies(a, Map::empty()) =~= a);
    assert(merge_tallies(Map::empty(), a) =~= a);
}

/// The totals of two runs of observations, one after the other, are the
/// merge of the totals of each run.
pub proof fn lemma_tally_append(a: Seq<FileObservation>, b: Seq<FileObservation>, min_size: u64)
    ensures
        tally(a + b, min_size) == merge_tallies(tally(a, min_size), tally(b, min_size)),
    decreases b.len(),
{
    if b.len() == 0 {
        assert(a + b =~= a);
        lemma_merge_empty(tally(a, min_size));
    } else {
        let o = b.last();
        assert((a + b).drop_last() =~= a + b.drop_last());
        lemma_tally_append(a, b.drop_last(), min_size);
        let ta = tally(a, min_size);
        let tb = tally(b.drop_last(), min_size);
        assert(observe(merge_tallies(ta, tb), o, min_size) =~= merge_tallies(
            ta,
            observe(tb, o, min_size),
        ));
    }
}

/// However the observations are cut into consecutive parts, each part
/// totalled on its own and the results merged, the totals are those of the
/// whole sequence.
pub proof fn lemma_partition_invariance(parts: Seq<Seq<FileObservation>>, min_size: u64)
    ensures
        tally_parts(parts, min_size) == tally(parts.flatten(), min_size),
    decreases parts.len(),
{
    if parts.len() == 0 {
        assert(tally(parts.flatten(), min_size) =~= Map::empty());
    } else {
        lemma_partition_invariance(parts.drop_last(), min_size);
        parts.drop_last().lemma_flatten_push(parts.last());
        assert(parts.drop_last().push(parts.last()) =~= parts);
        lemma_tally_append(parts.drop_last().flatten(), parts.last(), min_size);
    }
}

/// Each total is between zero and the filtered sum, each count between one
/// and the filtered count.
pub proof fn lemma_tally_bounds(obs: Seq<FileObservation>, min_size: u64)
    ensures
        0 <= kept_count(obs, min_size) <= obs.len(),
        0 <= kept_total(obs, min_size),
        forall|k: Seq<char>| #[trigger]
            tally(obs, min_size).contains_key(k) ==> 0 <= tally(obs, min_size)[k].0 <= kept_total(
                obs,
                min_size,
            ) && 1 <= tally(obs, min_size)[k].1 <= kept_count(obs, min_size),
    decreases obs.len(),
{
    if obs.len() > 0 {
        let p = obs.drop_last();
        lemma_tally_bounds(p, min_size);
        assert forall|k: Seq<char>| #[trigger] tally(obs, min_size).contains_key(k) implies 0
            <= tally(obs, min_size)[k].0 <= kept_total(obs, min_size) && 1 <= tally(
            obs,
            min_size,
        )[k].1 <= kept_count(obs, min_size) by {
            if tally(p, min_size).contains_key(k) {
            }
        }
    }
}

/// The filtered sum of a prefix is at most that of the whole.
pub proof fn lemma_kept_total_prefix(obs: Seq<FileObservation>, i: int, min_size: u64)
    requires
        0 <= i <= obs.len(),
    ensures
        kept_total(obs.take(i), min_size) <= kept_total(obs, min_size),
    decreases obs.len() - i,
{
    if i < obs.len() {
        lemma_kept_total_prefix(obs, i + 1, min_size);
        assert(obs.take(i + 1).drop_last() =~= obs.take(i));
    } else {
        assert(obs.take(i) =~= obs);
    }
}

} // verus!
