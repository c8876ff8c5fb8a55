use extusage::aggregate::{aggregate, aggregate_parallel, fold_observation, merge_tables};
use extusage::analysis::{analyze, filtered_total, grand_totals};
use extusage::rank::rank_by_size;
use extusage::stats::{ExtensionStats, FileObservation};

fn obs(name: &str, size: u64) -> FileObservation {
    FileObservation { name: name.to_string(), size_bytes: size }
}

fn stat(ext: &str, total: u64, count: usize) -> ExtensionStats {
    ExtensionStats { extension: ext.to_string(), total_size: total, file_count: count }
}

fn sorted_entries(t: &[ExtensionStats]) -> Vec<(String, u64, usize)> {
    let mut v: Vec<(String, u64, usize)> =
        t.iter().map(|s| (s.extension.clone(), s.total_size, s.file_count)).collect();
    v.sort();
    v
}

fn many_observations() -> Vec<FileObservation> {
    let names = ["a.txt", "b.RS", "c", ".hidden", "d.rs", "e.TXT", "f.md", "g.tar.gz"];
    (0..2000u64).map(|i| obs(names[(i % 8) as usize], i * 7 % 1013)).collect()
}

#[test]
fn filter_boundary_is_inclusive() {
    let v = vec![obs("small.txt", 999), obs("big.log", 1000)];
    let a = analyze(&v, 1000).unwrap();
    assert_eq!(sorted_entries(&a.stats), vec![(".log".to_string(), 1000, 1)]);
    assert_eq!(a.total_size, 1000);
    assert_eq!(a.total_files, 1);
}

#[test]
fn ranking_descending_by_size() {
    let r = rank_by_size(vec![stat(".txt", 300, 1), stat(".log", 700, 1), stat(".md", 0, 1)]);
    let order: Vec<&str> = r.iter().map(|s| s.extension.as_str()).collect();
    assert_eq!(order, vec![".log", ".txt", ".md"]);
}

#[test]
fn ranking_keeps_order_of_ties() {
    let r = rank_by_size(vec![
        stat(".a", 5, 1),
        stat(".b", 9, 1),
        stat(".c", 5, 1),
        stat(".d", 9, 1),
        stat(".e", 1, 1),
    ]);
    let order: Vec<&str> = r.iter().map(|s| s.extension.as_str()).collect();
    assert_eq!(order, vec![".b", ".d", ".a", ".c", ".e"]);
}

#[test]
fn ranking_empty() {
    assert!(rank_by_size(Vec::new()).is_empty());
}

#[test]
fn fold_adds_and_filters() {
    let t = fold_observation(Vec::new(), &obs("x.TXT", 10), 0);
    let t = fold_observation(t, &obs("y.txt", 5), 0);
    let t = fold_observation(t, &obs("z.md", 3), 4);
    assert_eq!(sorted_entries(&t), vec![(".txt".to_string(), 15, 2)]);
}

#[test]
fn merge_adds_matching_keys() {
    let a = vec![stat(".txt", 10, 1), stat(".rs", 4, 2)];
    let b = vec![stat(".md", 7, 1), stat(".txt", 5, 3)];
    let m = merge_tables(a, b);
    let exts: Vec<&str> = m.iter().map(|s| s.extension.as_str()).collect();
    assert_eq!(exts, vec![".txt", ".rs", ".md"]);
    assert_eq!(
        sorted_entries(&m),
        vec![
            (".md".to_string(), 7, 1),
            (".rs".to_string(), 4, 2),
            (".txt".to_string(), 15, 4)
        ]
    );
}

#[test]
fn partition_invariance_sequential_and_parallel() {
    let v = many_observations();
    for min in [0u64, 1, 500, 2000] {
        let seq = aggregate(&v, min);
        let par = aggregate_parallel(&v, min);
        assert_eq!(sorted_entries(&seq), sorted_entries(&par));
    }
}

#[test]
fn partition_invariance_merged_halves() {
    let v = many_observations();
    let (left, right) = v.split_at(777);
    let merged = merge_tables(aggregate(&left.to_vec(), 0), aggregate(&right.to_vec(), 0));
    let swapped = merge_tables(aggregate(&right.to_vec(), 0), aggregate(&left.to_vec(), 0));
    let whole = aggregate(&v, 0);
    assert_eq!(sorted_entries(&merged), sorted_entries(&whole));
    assert_eq!(sorted_entries(&swapped), sorted_entries(&whole));
}

#[test]
fn conservation_of_bytes_and_files() {
    let v = many_observations();
    for min in [0u64, 100, 1000] {
        let a = analyze(&v, min).unwrap();
        let kept: Vec<&FileObservation> = v.iter().filter(|o| o.size_bytes >= min).collect();
        let bytes: u64 = kept.iter().map(|o| o.size_bytes).sum();
        assert_eq!(a.total_size, bytes);
        assert_eq!(a.total_files, kept.len());
        assert_eq!(a.stats.iter().map(|s| s.total_size).sum::<u64>(), bytes);
        assert_eq!(a.stats.iter().map(|s| s.file_count).sum::<usize>(), kept.len());
        for w in a.stats.windows(2) {
            assert!(w[0].total_size >= w[1].total_size);
        }
    }
}

#[test]
fn analyze_nothing_kept() {
    let v = vec![obs("a.txt", 3)];
    let a = analyze(&v, 4).unwrap();
    assert!(a.stats.is_empty());
    assert_eq!(a.total_size, 0);
    assert_eq!(a.total_files, 0);
}

#[test]
fn analyze_overflow_is_none() {
    let v = vec![obs("a.bin", u64::MAX), obs("b.bin", 1)];
    assert!(analyze(&v, 0).is_none());
    assert_eq!(filtered_total(&v, 0), None);
    assert_eq!(filtered_total(&v, 2), Some(u64::MAX));
    assert!(analyze(&v, 2).is_some());
}

#[test]
fn grand_totals_sum_rows() {
    let t = vec![stat(".a", 3, 1), stat(".b", 4, 2)];
    assert_eq!(grand_totals(&t), (7, 3));
}
