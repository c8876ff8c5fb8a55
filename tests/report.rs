use extusage::analysis::analyze;
use extusage::render::{
    create_bar, decimal_text, display_results, header_cells, percent_of, row_cells,
    row_from_size_text, summary_from_size_text, summary_lines,
};
use extusage::stats::{ExtensionStats, FileObservation};

fn stat(ext: &str, total: u64, count: usize) -> ExtensionStats {
    ExtensionStats { extension: ext.to_string(), total_size: total, file_count: count }
}

fn bar(filled: usize) -> String {
    format!("{}{}", "█".repeat(filled), "░".repeat(30 - filled))
}

#[test]
fn bar_half() {
    assert_eq!(create_bar(50, 100), bar(15));
}

#[test]
fn bar_full() {
    assert_eq!(create_bar(100, 100), bar(30));
}

#[test]
fn bar_empty() {
    assert_eq!(create_bar(0, 100), bar(0));
}

#[test]
fn bar_rounds_down() {
    assert_eq!(create_bar(7, 10), bar(21));
    assert_eq!(create_bar(1, 3), bar(10));
    assert_eq!(create_bar(99, 100), bar(29));
}

#[test]
fn bar_zero_grand_total() {
    assert_eq!(create_bar(0, 0), bar(0));
}

#[test]
fn percent_two_decimals() {
    assert_eq!(percent_of(50, 100), "50.00%");
    assert_eq!(percent_of(100, 100), "100.00%");
    assert_eq!(percent_of(0, 100), "0.00%");
    assert_eq!(percent_of(1, 3), "33.33%");
    assert_eq!(percent_of(2, 3), "66.67%");
    assert_eq!(percent_of(1, 8), "12.50%");
    assert_eq!(percent_of(0, 0), "0.00%");
    assert_eq!(percent_of(u64::MAX, u64::MAX), "100.00%");
}

#[test]
fn decimal_numbers() {
    assert_eq!(decimal_text(0), "0");
    assert_eq!(decimal_text(7), "7");
    assert_eq!(decimal_text(1234567), "1234567");
    assert_eq!(decimal_text(u64::MAX), u64::MAX.to_string());
}

#[test]
fn header_with_and_without_count() {
    assert_eq!(header_cells(false), vec!["Extension", "Size", "% Total", "Visual"]);
    assert_eq!(header_cells(true), vec!["Extension", "Size", "Files", "% Total", "Visual"]);
}

#[test]
fn row_from_given_size_text() {
    let r = row_from_size_text(&stat(".rs", 25, 3), "25 B".to_string(), 100, true);
    assert_eq!(r, vec![".rs".to_string(), "25 B".to_string(), "3".to_string(), "25.00%".to_string(), bar(7)]);
}

#[test]
fn row_writes_size_with_binary_prefix() {
    let r = row_cells(&stat(".bin", 1536, 1), 1536, false);
    assert_eq!(r, vec![".bin".to_string(), "1.50 KiB".to_string(), "100.00%".to_string(), bar(30)]);
}

#[test]
fn summary_without_note() {
    let s = summary_from_size_text("1 B".to_string(), 4, 2, 2);
    assert_eq!(
        s,
        vec!["📈 Summary:", "   Total size:       1 B", "   Total files:      4", "   Extensions found: 2"]
    );
}

#[test]
fn summary_writes_total_size() {
    let s = summary_lines(2500, 2, 1, 1);
    assert_eq!(s[1], "   Total size:       2.44 KiB");
}

#[test]
fn top_n_truncation() {
    let stats = vec![
        stat(".a", 50, 1),
        stat(".b", 40, 1),
        stat(".c", 30, 1),
        stat(".d", 20, 1),
        stat(".e", 10, 1),
    ];
    let r = display_results(&stats, 150, 5, false, 3);
    assert_eq!(r.rows.len(), 3);
    assert_eq!(r.rows[2][0], ".c");
    assert_eq!(r.summary.len(), 5);
    assert_eq!(r.summary[3], "   Extensions found: 5");
    assert_eq!(r.summary[4], "   (Showing top 3 out of 5)");
}

#[test]
fn top_larger_than_extensions() {
    let stats = vec![stat(".a", 2, 1), stat(".b", 1, 1)];
    let r = display_results(&stats, 3, 2, false, 50);
    assert_eq!(r.rows.len(), 2);
    assert_eq!(r.summary.len(), 4);
}

#[test]
fn end_to_end_two_text_files() {
    let v = vec![
        FileObservation { name: "big.txt".to_string(), size_bytes: 2000 },
        FileObservation { name: "small.txt".to_string(), size_bytes: 500 },
    ];
    let a = analyze(&v, 0).unwrap();
    assert_eq!(a.stats.len(), 1);
    assert_eq!(a.stats[0].extension, ".txt");
    assert_eq!(a.stats[0].total_size, 2500);
    assert_eq!(a.stats[0].file_count, 2);
    let r = display_results(&a.stats, a.total_size, a.total_files, true, 50);
    assert_eq!(r.rows, vec![vec![
        ".txt".to_string(),
        "2.44 KiB".to_string(),
        "2".to_string(),
        "100.00%".to_string(),
        bar(30)
    ]]);
    assert_eq!(r.summary[1], "   Total size:       2.44 KiB");
    assert_eq!(r.summary[2], "   Total files:      2");
    assert_eq!(r.summary.len(), 4);
}

#[test]
fn zero_byte_files_render_zero_percent() {
    let v = vec![FileObservation { name: "empty.log".to_string(), size_bytes: 0 }];
    let a = analyze(&v, 0).unwrap();
    let r = display_results(&a.stats, a.total_size, a.total_files, false, 50);
    assert_eq!(r.rows[0], vec![".log".to_string(), "0 B".to_string(), "0.00%".to_string(), bar(0)]);
}
