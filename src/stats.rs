use vstd::prelude::*;

verus! {

/// One file seen by the scan: its name and its length in bytes.
#[derive(Clone, Debug)]
pub struct FileObservation {
    pub name: String,
    pub size_bytes: u64,
}

/// The totals of one extension: bytes summed over its files, and how many files.
#[derive(Debug)]
pub struct ExtensionStats {
    pub extension: String,
    pub total_size: u64,
    pub file_count: usize,
}

/// Per-extension totals as a mathematical map: key to (bytes, files).
pub type Tally = Map<Seq<char>, (int, int)>;

pub open spec fn entry_of(s: ExtensionStats) -> (int, int) {
    (s.total_size as int, s.file_count as int)
}

pub open spec fn has_key(t: Seq<ExtensionStats>, k: Seq<char>) -> bool {
    exists|i: int| 0 <= i < t.len() && (#[trigger] t[i]).extension@ == k
}

/// No extension appears twice in a table.
pub open spec fn table_wf(t: Seq<ExtensionStats>) -> bool {
    forall|i: int, j: int|
        0 <= i < t.len() && 0 <= j < t.len() && i != j ==> (#[trigger] t[i]).extension@ != (
        #[trigger] t[j]).extension@
}

/// What a table says, whatever the order of its rows.
pub open spec fn table_view(t: Seq<ExtensionStats>) -> Tally {
    Map::new(
        |k: Seq<char>| has_key(t, k),
        |k: Seq<char>| entry_of(t[choose|i: int| 0 <= i < t.len() && (#[trigger] t[i]).extension@ == k]),
    )
}

/// Bytes summed over the rows of a table.
pub open spec fn table_total(t: Seq<ExtensionStats>) -> int
    decreases t.len(),
{
    if t.len() == 0 {
        0
    } else {
        table_total(t.drop_last()) + t.last().total_size
    }
}

/// Files summed over the rows of a table.
pub open spec fn table_files(t: Seq<ExtensionStats>) -> int
    decreases t.len(),
{
    if t.len() == 0 {
        0
    } else {
        table_files(t.drop_last()) + t.last().file_count
    }
}

pub proof fn lemma_view_at(t: Seq<ExtensionStats>, i: int)
    requires
        table_wf(t),
        0 <= i < t.len(),
    ensures
        table_view(t).contains_key(t[i].extension@),
        table_view(t)[t[i].extension@] == entry_of(t[i]),
{
    let k = t[i].extension@;
    assert(has_key(t, k));
    let j = choose|j: int| 0 <= j < t.len() && (#[trigger] t[j]).extension@ == k;
    assert(j == i);
}

/// A map is the view of a well-formed table when it holds each row and
/// nothing that is not a row.
pub proof fn lemma_view_is(t: Seq<ExtensionStats>, m: Tally)
    requires
        table_wf(t),
        forall|i: int|
            0 <= i < t.len() ==> m.contains_key((#[trigger] t[i]).extension@) && m[t[i].extension@]
                == entry_of(t[i]),
        forall|k: Seq<char>| #[trigger] m.contains_key(k) ==> has_key(t, k),
    ensures
        table_view(t) == m,
{
    assert forall|k: Seq<char>| #[trigger] table_view(t).contains_key(k) implies m.contains_key(k)
        && table_view(t)[k] == m[k] by {
        let i = choose|i: int| 0 <= i < t.len() && (#[trigger] t[i]).extension@ == k;
        lemma_view_at(t, i);
    }
    assert(table_view(t) =~= m);
}

pub proof fn lemma_sums_update(t: Seq<ExtensionStats>, i: int, e: ExtensionStats)
    requires
        0 <= i < t.len(),
    ensures
        table_total(t.update(i, e)) == table_total(t) - t[i].total_size + e.total_size,
        table_files(t.update(i, e)) == table_files(t) - t[i].file_count + e.file_count,
    decreases t.len(),
{
    if i == t.len() - 1 {
        assert(t.update(i, e).drop_last() =~= t.drop_last());
    } else {
        assert(t.update(i, e).drop_last() =~= t.drop_last().update(i, e));
        lemma_sums_update(t.drop_last(), i, e);
    }
}

pub proof fn lemma_sums_remove(t: Seq<ExtensionStats>, i: int)
    requires
        0 <= i < t.len(),
    ensures
        table_total(t.remove(i)) == table_total(t) - t[i].total_size,
        table_files(t.remove(i)) == table_files(t) - t[i].file_count,
    decreases t.len(),
{
    if i == t.len() - 1 {
        assert(t.remove(i) =~= t.drop_last());
    } else {
        assert(t.remove(i).drop_last() =~= t.drop_last().remove(i));
        lemma_sums_remove(t.drop_last(), i);
    }
}

pub proof fn lemma_view_update(t: Seq<ExtensionStats>, i: int, e: ExtensionStats)
    requires
        table_wf(t),
        0 <= i < t.len(),
        e.extension@ == t[i].extension@,
    ensures
        table_wf(t.update(i, e)),
        table_view(t.update(i, e)) == table_view(t).insert(e.extension@, entry_of(e)),
{
    let u = t.update(i, e);
    let m = table_view(t).insert(e.extension@, entry_of(e));
    assert forall|j: int| 0 <= j < u.len() implies m.contains_key((#[trigger] u[j]).extension@)
        && m[u[j].extension@] == entry_of(u[j]) by {
        lemma_view_at(t, j);
    }
    assert forall|k: Seq<char>| #[trigger] m.contains_key(k) implies has_key(u, k) by {
        if k != e.extension@ {
            let j = choose|j: int| 0 <= j < t.len() && (#[trigger] t[j]).extension@ == k;
            assert(u[j] == t[j]);
        } else {
            assert(u[i] == e);
        }
    }
    lemma_view_is(u, m);
}

pub proof fn lemma_view_push(t: Seq<ExtensionStats>, e: ExtensionStats)
    requires
        table_wf(t),
        !table_view(t).contains_key(e.extension@),
    ensures
        table_wf(t.push(e)),
        table_view(t.push(e)) == table_view(t).insert(e.extension@, entry_of(e)),
{
    let u = t.push(e);
    let m = table_view(t).insert(e.extension@, entry_of(e));
    assert forall|j: int| 0 <= j < t.len() implies (#[trigger] t[j]).extension@ != e.extension@ by {
        lemma_view_at(t, j);
    }
    assert(table_wf(u));
    assert forall|j: int| 0 <= j < u.len() implies m.contains_key((#[trigger] u[j]).extension@)
        && m[u[j].extension@] == entry_of(u[j]) by {
        if j < t.len() {
            lemma_view_at(t, j);
        }
    }
    assert forall|k: Seq<char>| #[trigger] m.contains_key(k) implies has_key(u, k) by {
        if k != e.extension@ {
            let j = choose|j: int| 0 <= j < t.len() && (#[trigger] t[j]).extension@ == k;
            assert(u[j] == t[j]);
        } else {
            assert(u[t.len() as int] == e);
        }
    }
    lemma_view_is(u, m);
}

pub proof fn lemma_view_remove(t: Seq<ExtensionStats>, i: int)
    requires
        table_wf(t),
        0 <= i < t.len(),
    ensures
        table_wf(t.remove(i)),
        table_view(t.remove(i)) == table_view(t).remove(t[i].extension@),
{
    let u = t.remove(i);
    let m = table_view(t).remove(t[i].extension@);
    assert forall|a: int, b: int|
        0 <= a < u.len() && 0 <= b < u.len() && a != b implies (#[trigger] u[a]).extension@ != (
        #[trigger] u[b]).extension@ by {
        let a2 = if a < i { a } else { a + 1 };
        let b2 = if b < i { b } else { b + 1 };
        assert(u[a] == t[a2] && u[b] == t[b2]);
    }
    assert forall|j: int| 0 <= j < u.len() implies m.contains_key((#[trigger] u[j]).extension@)
        && m[u[j].extension@] == entry_of(u[j]) by {
        let j2 = if j < i { j } else { j + 1 };
        assert(u[j] == t[j2]);
        lemma_view_at(t, j2);
    }
    assert forall|k: Seq<char>| #[trigger] m.contains_key(k) implies has_key(u, k) by {
        let j = choose|j: int| 0 <= j < t.len() && (#[trigger] t[j]).extension@ == k;
        if j < i {
            assert(u[j] == t[j]);
        } else {
            assert(u[j - 1] == t[j]);
        }
    }
    lemma_view_is(u, m);
}

pub proof fn lemma_view_insert(t: Seq<ExtensionStats>, p: int, e: ExtensionStats)
    requires
        table_wf(t),
        0 <= p <= t.len(),
        !table_view(t).contains_key(e.extension@),
    ensures
        table_wf(t.insert(p, e)),
        table_view(t.insert(p, e)) == table_view(t).insert(e.extension@, entry_of(e)),
{
    let u = t.insert(p, e);
    let m = table_view(t).insert(e.extension@, entry_of(e));
    assert forall|j: int| 0 <= j < t.len() implies (#[trigger] t[j]).extension@ != e.extension@ by {
        lemma_view_at(t, j);
    }
    assert forall|a: int, b: int|
        0 <= a < u.len() && 0 <= b < u.len() && a != b implies (#[trigger] u[a]).extension@ != (
        #[trigger] u[b]).extension@ by {
        if a != p && b != p {
            let a2 = if a < p { a } else { a - 1 };
            let b2 = if b < p { b } else { b - 1 };
            assert(u[a] == t[a2] && u[b] == t[b2]);
        } else if a == p {
            let b2 = if b < p { b } else { b - 1 };
            assert(u[b] == t[b2]);
        } else {
            let a2 = if a < p { a } else { a - 1 };
            assert(u[a] == t[a2]);
        }
    }
    assert forall|j: int| 0 <= j < u.len() implies m.contains_key((#[trigger] u[j]).extension@)
        && m[u[j].extension@] == entry_of(u[j]) by {
        if j != p {
            let j2 = if j < p { j } else { j - 1 };
            assert(u[j] == t[j2]);
            lemma_view_at(t, j2);
        }
    }
    assert forall|k: Seq<char>| #[trigger] m.contains_key(k) implies has_key(u, k) by {
        if k != e.extension@ {
            let j = choose|j: int| 0 <= j < t.len() && (#[trigger] t[j]).extension@ == k;
            if j < p {
                assert(u[j] == t[j]);
            } else {
                assert(u[j + 1] == t[j]);
            }
        } else {
            assert(u[p] == e);
        }
    }
    lemma_view_is(u, m);
}

} // verus!
