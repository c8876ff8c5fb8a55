use vstd::prelude::*;
use crate::stats::ExtensionStats;

verus! {

/// Width of the bar, in glyphs.
pub const BAR_WIDTH: usize = 30;

/// What `humansize::format_size` with binary prefixes writes for a number of bytes.
pub uninterp spec fn binary_size_of(bytes: int) -> Seq<char>;

/// Relies on `humansize::format_size` with the `BINARY` options: a size with
/// binary prefixes, such as `2.44 KiB`, that depends on the number alone.
#[verifier::external_body]
fn human_size(bytes: u64) -> (r: String)
    ensures
        r@ == binary_size_of(bytes as int),
{
    humansize::format_size(bytes, humansize::BINARY)
}

pub open spec fn digit_chars() -> Seq<char> {
    "0123456789"@
}

/// The decimal notation of `n`, without leading zeros.
pub open spec fn decimal(n: nat) -> Seq<char>
    decreases n,
{
    if n < 10 {
        seq![digit_chars()[n as int]]
    } else {
        decimal(n / 10) + seq![digit_chars()[(n % 10) as int]]
    }
}

/// Hundredths of a percent of `total` in `grand`, rounded to the nearest
/// (halves up); zero when `grand` is zero.
pub open spec fn hundredths(total: int, grand: int) -> int {
    if grand == 0 {
        0
    } else {
        (total * 20000 + grand) / (2 * grand)
    }
}

/// The share of `total` in `grand` with two decimals, then `%`: `50.00%`.
pub open spec fn percent_text(total: int, grand: int) -> Seq<char> {
    let h = hundredths(total, grand) as nat;
    decimal(h / 100) + seq!['.', digit_chars()[((h % 100) / 10) as int], digit_chars()[(h
        % 10) as int], '%']
}

/// Filled glyphs of the bar: the share of `total` in `grand`, times the width,
/// rounded down; zero when `grand` is zero.
pub open spec fn filled_len(total: int, grand: int) -> int {
    if grand == 0 {
        0
    } else {
        total * BAR_WIDTH / grand
    }
}

/// The bar: filled glyphs, then empty ones up to the width.
pub open spec fn bar_text(total: int, grand: int) -> Seq<char> {
    Seq::new(filled_len(total, grand) as nat, |_i: int| '█') + Seq::new(
        (BAR_WIDTH - filled_len(total, grand)) as nat,
        |_i: int| '░',
    )
}

/// The character sequences held by some strings.
pub open spec fn texts(v: Seq<String>) -> Seq<Seq<char>> {
    v.map_values(|s: String| s@)
}

/// The cells of one row of the table, the size already written out.
pub open spec fn row_text(s: ExtensionStats, size_text: Seq<char>, grand: int, show_count: bool) -> Seq<
    Seq<char>,
> {
    if show_count {
        seq![
            s.extension@,
            size_text,
            decimal(s.file_count as nat),
            percent_text(s.total_size as int, grand),
            bar_text(s.total_size as int, grand),
        ]
    } else {
        seq![
            s.extension@,
            size_text,
            percent_text(s.total_size as int, grand),
            bar_text(s.total_size as int, grand),
        ]
    }
}

/// The titles of the columns.
pub open spec fn header_text(show_count: bool) -> Seq<Seq<char>> {
    if show_count {
        seq!["Extension"@, "Size"@, "Files"@, "% Total"@, "Visual"@]
    } else {
        seq!["Extension"@, "Size"@, "% Total"@, "Visual"@]
    }
}

/// The lines of the summary, the total size already written out.
pub open spec fn summary_text(size_text: Seq<char>, total_files: nat, found: nat, shown: nat) -> Seq<
    Seq<char>,
> {
    let base = seq![
        "📈 Summary:"@,
        "   Total size:       "@ + size_text,
        "   Total files:      "@ + decimal(total_files),
        "   Extensions found: "@ + decimal(found),
    ];
    if found > shown {
        base.push("   (Showing top "@ + decimal(shown) + " out of "@ + decimal(found) + ")"@)
    } else {
        base
    }
}

fn digit(d: u64) -> (r: &'static str)
    requires
        d < 10,
    ensures
        r@ == seq![digit_chars()[d as int]],
{
    proof {
        reveal_strlit("0123456789");
    }
    let r = "0123456789".substring_char(d as usize, d as usize + 1);
    assert(r@ =~= seq![digit_chars()[d as int]]);
    r
}

/// `n` in decimal notation.
pub fn decimal_text(n: u64) -> (r: String)
    ensures
        r@ == decimal(n as nat),
    decreases n,
{
    if n < 10 {
        String::from_str(digit(n))
    } else {
        let mut r = decimal_text(n / 10);
        r.append(digit(n % 10));
        r
    }
}

/// The share of `total` in `grand` as a percentage with two decimals.
/// A zero `grand` gives `0.00%`.
pub fn percent_of(total: u64, grand: u64) -> (r: String)
    requires
        total <= grand,
    ensures
        r@ == percent_text(total as int, grand as int),
{
    let h: u128 = if grand == 0 {
        0
    } else {
        (total as u128 * 20000 + grand as u128) / (2 * grand as u128)
    };
    proof {
        if grand > 0 {
            let t = total as int;
            let g = grand as int;
            assert(t * 20000 + g < 2 * g * 10001) by (nonlinear_arith)
                requires
                    0 <= t <= g,
                    g > 0,
            ;
            assert((t * 20000 + g) / (2 * g) < 10001) by (nonlinear_arith)
                requires
                    t * 20000 + g < 2 * g * 10001,
                    g > 0,
                    t >= 0,
            ;
        }
    }
    let h = h as u64;
    let mut r = decimal_text(h / 100);
    proof {
        reveal_strlit(".");
        reveal_strlit("%");
    }
    r.append(".");
    r.append(digit((h % 100) / 10));
    r.append(digit(h % 10));
    r.append("%");
    r
}

/// The bar of the share of `total` in `grand`: the filled part rounds down,
/// so that a full share fills exactly the width.
pub fn create_bar(total: u64, grand: u64) -> (r: String)
    requires
        total <= grand,
    ensures
        r@ == bar_text(total as int, grand as int),
{
    let filled: usize = if grand == 0 {
        0
    } else {
        proof {
            let t = total as int;
            let g = grand as int;
            assert(t * 30 / g <= 30) by (nonlinear_arith)
                requires
                    0 <= t <= g,
                    g > 0,
            ;
        }
        ((total as u128 * 30) / grand as u128) as usize
    };
    let ghost f = filled_len(total as int, grand as int);
    assert(filled == f);
    let mut r = String::new();
    let mut i: usize = 0;
    while i < filled
        invariant
            i <= filled <= BAR_WIDTH,
            r@ == Seq::new(i as nat, |_i: int| '█'),
        decreases filled - i,
    {
        proof {
            reveal_strlit("█");
        }
        r.append("█");
        i = i + 1;
        assert(r@ =~= Seq::new(i as nat, |_i: int| '█'));
    }
    let mut j: usize = 0;
    while j < BAR_WIDTH - filled
        invariant
            filled <= BAR_WIDTH,
            j <= BAR_WIDTH - filled,
            r@ == Seq::new(filled as nat, |_i: int| '█') + Seq::new(j as nat, |_i: int| '░'),
        decreases BAR_WIDTH - filled - j,
    {
        proof {
            reveal_strlit("░");
        }
        r.append("░");
        j = j + 1;
        assert(r@ =~= Seq::new(filled as nat, |_i: int| '█') + Seq::new(j as nat, |_i: int| '░'));
    }
    r
}

/// The bar is always exactly the width long; it is full only for a share of
/// the whole grand total, and empty only for a share under one width-th.
pub proof fn lemma_bar_width(total: int, grand: int)
    requires
        0 <= total <= grand,
    ensures
        0 <= filled_len(total, grand) <= BAR_WIDTH,
        bar_text(total, grand).len() == BAR_WIDTH,
        filled_len(total, grand) == BAR_WIDTH <==> grand > 0 && total == grand,
        filled_len(total, grand) == 0 <==> total * BAR_WIDTH < grand || grand == 0,
{
    if grand > 0 {
        assert(0 <= total * 30 / grand <= 30) by (nonlinear_arith)
            requires
                0 <= total <= grand,
                grand > 0,
        ;
        assert(total * 30 / grand == 30 <==> total == grand) by (nonlinear_arith)
            requires
                0 <= total <= grand,
                grand > 0,
        ;
        assert(total * 30 / grand == 0 <==> total * 30 < grand) by (nonlinear_arith)
            requires
                0 <= total <= grand,
                grand > 0,
        ;
    }
}

/// The cells of one row, given the size as text: extension, size, the file
/// count where asked for, percentage of `grand`, bar.
pub fn row_from_size_text(stat: &ExtensionStats, size_text: String, grand: u64, show_count: bool) -> (r:
    Vec<String>)
    requires
        stat.total_size <= grand,
    ensures
        texts(r@) == row_text(*stat, size_text@, grand as int, show_count),
{
    let mut r: Vec<String> = Vec::new();
    r.push(stat.extension.clone());
    r.push(size_text);
    if show_count {
        r.push(decimal_text(stat.file_count as u64));
    }
    r.push(percent_of(stat.total_size, grand));
    r.push(create_bar(stat.total_size, grand));
    assert(texts(r@) =~= row_text(*stat, size_text@, grand as int, show_count));
    r
}

/// The cells of one row of the table.
pub fn row_cells(stat: &ExtensionStats, grand: u64, show_count: bool) -> (r: Vec<String>)
    requires
        stat.total_size <= grand,
    ensures
        texts(r@) == row_text(*stat, binary_size_of(stat.total_size as int), grand as int, show_count),
{
    let size_text = human_size(stat.total_size);
    row_from_size_text(stat, size_text, grand, show_count)
}

/// The rows of the table: one for each of the first `top` entries at most.
pub fn table_rows(stats: &Vec<ExtensionStats>, grand: u64, show_count: bool, top: usize) -> (r: Vec<
    Vec<String>,
>)
    requires
        forall|i: int| 0 <= i < stats@.len() ==> (#[trigger] stats@[i]).total_size <= grand,
    ensures
        r@.len() == if top < stats@.len() {
            top as int
        } else {
            stats@.len() as int
        },
        forall|i: int|
            0 <= i < r@.len() ==> texts((#[trigger] r@[i])@) == row_text(
                stats@[i],
                binary_size_of(stats@[i].total_size as int),
                grand as int,
                show_count,
            ),
{
    let shown = if top < stats.len() {
        top
    } else {
        stats.len()
    };
    let mut r: Vec<Vec<String>> = Vec::new();
    let mut i: usize = 0;
    while i < shown
        invariant
            shown <= stats@.len(),
            i <= shown,
            r@.len() == i,
            forall|j: int| 0 <= j < stats@.len() ==> (#[trigger] stats@[j]).total_size <= grand,
            forall|j: int|
                0 <= j < i ==> texts((#[trigger] r@[j])@) == row_text(
                    stats@[j],
                    binary_size_of(stats@[j].total_size as int),
                    grand as int,
                    show_count,
                ),
        decreases shown - i,
    {
        r.push(row_cells(&stats[i], grand, show_count));
        i = i + 1;
    }
    r
}

/// The titles of the columns; `Files` only where the count is shown.
pub fn header_cells(show_count: bool) -> (r: Vec<String>)
    ensures
        texts(r@) == header_text(show_count),
{
    let mut r: Vec<String> = Vec::new();
    r.push(String::from_str("Extension"));
    r.push(String::from_str("Size"));
    if show_count {
        r.push(String::from_str("Files"));
    }
    r.push(String::from_str("% Total"));
    r.push(String::from_str("Visual"));
    assert(texts(r@) =~= header_text(show_count));
    r
}

/// The lines of the summary, given the total size as text; the last one,
/// only where fewer rows are shown than extensions were found, says how many.
pub fn summary_from_size_text(size_text: String, total_files: usize, found: usize, shown: usize) -> (r:
    Vec<String>)
    ensures
        texts(r@) == summary_text(size_text@, total_files as nat, found as nat, shown as nat),
{
    let mut r: Vec<String> = Vec::new();
    r.push(String::from_str("📈 Summary:"));
    let mut size_line = String::from_str("   Total size:       ");
    size_line.append(size_text.as_str());
    r.push(size_line);
    let mut files_line = String::from_str("   Total files:      ");
    files_line.append(decimal_text(total_files as u64).as_str());
    r.push(files_line);
    let mut found_line = String::from_str("   Extensions found: ");
    found_line.append(decimal_text(found as u64).as_str());
    r.push(found_line);
    if found > shown {
        let mut note = String::from_str("   (Showing top ");
        note.append(decimal_text(shown as u64).as_str());
        note.append(" out of ");
        note.append(decimal_text(found as u64).as_str());
        note.append(")");
        r.push(note);
    }
    assert(texts(r@) =~= summary_text(size_text@, total_files as nat, found as nat, shown as nat));
    r
}

/// The lines of the summary.
pub fn summary_lines(total_size: u64, total_files: usize, found: usize, shown: usize) -> (r: Vec<
    String,
>)
    ensures
        texts(r@) == summary_text(
            binary_size_of(total_size as int),
            total_files as nat,
            found as nat,
            shown as nat,
        ),
{
    let size_text = human_size(total_size);
    summary_from_size_text(size_text, total_files, found, shown)
}

/// The text of a report: the titles, the rows and the summary.
pub struct Report {
    pub header: Vec<String>,
    pub rows: Vec<Vec<String>>,
    pub summary: Vec<String>,
}

/// The report of ranked totals: at most `top` rows, each with its share of
/// `total_size`, and a summary of the totals.
pub fn display_results(
    stats: &Vec<ExtensionStats>,
    total_size: u64,
    total_files: usize,
    show_count: bool,
    top: usize,
) -> (r: Report)
    requires
        forall|i: int| 0 <= i < stats@.len() ==> (#[trigger] stats@[i]).total_size <= total_size,
    ensures
        texts(r.header@) == header_text(show_count),
        r.rows@.len() == if top < stats@.len() {
            top as int
        } else {
            stats@.len() as int
        },
        forall|i: int|
            0 <= i < r.rows@.len() ==> texts((#[trigger] r.rows@[i])@) == row_text(
                stats@[i],
                binary_size_of(stats@[i].total_size as int),
                total_size as int,
                show_count,
            ),
        texts(r.summary@) == summary_text(
            binary_size_of(total_size as int),
            total_files as nat,
            stats@.len() as nat,
            r.rows@.len() as nat,
        ),
{
    let header = header_cells(show_count);
    let rows = table_rows(stats, total_size, show_count, top);
    let summary = summary_lines(total_size, total_files, stats.len(), rows.len());
    Report { header, rows, summary }
}

} // verus!
