//! The default reporter: plain-text table columns, and the column-width
//! logic that aligns them while ignoring ANSI styling codes.

use vstd::prelude::*;
use vstd::string::StrSliceExecFns;
use vstd::string::StringExecFns;
use crate::report::avg_median_str;
use crate::report::is_memory_str;
use crate::report::is_value_with_diff;
use crate::report::memory_str;
use crate::report::min_max_seq;
use crate::report::min_max_str;
use crate::report::PrintOnce;
use crate::stats::BenchStats;
use crate::stats::StatsField;
use crate::strings::char_repeat;
use crate::strings::push_repeat;

verus! {

/// Whether `c` is an ASCII letter, which terminates an ANSI code.
pub open spec fn is_ascii_alpha(c: char) -> bool {
    (97 <= c as u32 && c as u32 <= 122) || (65 <= c as u32 && c as u32 <= 90)
}

/// The position just past the tail of an ANSI code whose parameter bytes
/// start at `i`: everything up to and including the first ASCII letter is
/// part of the code.
pub open spec fn code_end(s: Seq<char>, i: int) -> int
    recommends
        0 <= i <= s.len(),
    decreases s.len() - i,
{
    if i < 0 || i >= s.len() {
        s.len() as int
    } else if is_ascii_alpha(s[i]) {
        i + 1
    } else {
        code_end(s, i + 1)
    }
}

proof fn lemma_code_end_bounds(s: Seq<char>, i: int)
    requires
        0 <= i <= s.len(),
    ensures
        i <= code_end(s, i) <= s.len(),
    decreases s.len() - i,
{
    if i < s.len() && !is_ascii_alpha(s[i]) {
        lemma_code_end_bounds(s, i + 1);
    }
}

/// The number of visible characters of `s` from position `i` on: ANSI
/// escape codes (an escape character, the byte after it, then everything up
/// to and including the first ASCII letter) do not count.
pub open spec fn count_from(s: Seq<char>, i: int) -> nat
    recommends
        0 <= i <= s.len(),
    decreases s.len() - i,
    via count_from_decreases
{
    if i < 0 || i >= s.len() {
        0
    } else if s[i] == '\u{1b}' {
        count_from(
            s,
            code_end(
                s,
                if i + 2 <= s.len() {
                    i + 2
                } else {
                    s.len() as int
                },
            ),
        )
    } else {
        1 + count_from(s, i + 1)
    }
}

#[via_fn]
proof fn count_from_decreases(s: Seq<char>, i: int) {
    if 0 <= i < s.len() && s[i] == '\u{1b}' {
        let j = if i + 2 <= s.len() {
            i + 2
        } else {
            s.len() as int
        };
        lemma_code_end_bounds(s, j);
    }
}

/// The number of visible characters of `s`, with ANSI codes skipped.
pub open spec fn count_chars_spec(s: Seq<char>) -> nat {
    count_from(s, 0)
}

/// Counts the visible characters of a string, skipping ANSI styling codes,
/// so that a styled and an unstyled rendering of the same text measure the
/// same width.
pub fn count_characters(input: &str) -> (r: usize)
    ensures
        r == count_chars_spec(input@),
{
    let len = input.unicode_len();
    let mut count: usize = 0;
    let mut i: usize = 0;
    while i < len
        invariant
            0 <= i <= len,
            len == input@.len(),
            count <= i,
            count + count_from(input@, i as int) == count_chars_spec(input@),
        decreases len - i,
    {
        let c = input.get_char(i);
        if c == '\u{1b}' {
            let mut j: usize = if len - i >= 2 {
                i + 2
            } else {
                len
            };
            proof {
                lemma_code_end_bounds(input@, j as int);
            }
            let ghost start = j as int;
            while j < len
                invariant_except_break
                    0 <= start <= j <= len,
                    len == input@.len(),
                    code_end(input@, start) == code_end(input@, j as int),
                ensures
                    0 <= start <= j <= len,
                    len == input@.len(),
                    j as int == code_end(input@, start),
                decreases len - j,
            {
                let ch = input.get_char(j);
                let u = ch as u32;
                if (97 <= u && u <= 122) || (65 <= u && u <= 90) {
                    proof {
                        assert(is_ascii_alpha(input@[j as int]));
                        assert(code_end(input@, j as int) == j + 1);
                    }
                    j = j + 1;
                    break ;
                }
                proof {
                    assert(!is_ascii_alpha(input@[j as int]));
                }
                j = j + 1;
            }
            i = j;
        } else {
            count = count + 1;
            i = i + 1;
        }
    }
    count
}

/// The width of column `j` over the first `n` rows: four more than the
/// widest cell, measured in visible characters.
pub open spec fn col_width_upto(table: Seq<Seq<String>>, j: int, n: int) -> int
    decreases n,
{
    if n <= 0 {
        0
    } else {
        let prev = col_width_upto(table, j, n - 1);
        let this: int = if 0 <= j < table[n - 1].len() {
            count_chars_spec(table[n - 1][j]@) as int + 4
        } else {
            0
        };
        if this > prev {
            this
        } else {
            prev
        }
    }
}

/// The width of column `j` over the whole table.
pub open spec fn col_width(table: Seq<Seq<String>>, j: int) -> int {
    col_width_upto(table, j, table.len() as int)
}

/// One rendered row: each cell padded with spaces to its column's width.
pub open spec fn rendered_cells(table: Seq<Seq<String>>, row: Seq<String>, j: int) -> Seq<char>
    decreases j,
{
    if j <= 0 {
        Seq::<char>::empty()
    } else {
        rendered_cells(table, row, j - 1) + row[j - 1]@ + char_repeat(
            ' ',
            col_width(table, j - 1) - count_chars_spec(row[j - 1]@),
        )
    }
}

/// One row of the table, fully rendered.
pub open spec fn rendered_row(table: Seq<Seq<String>>, i: int) -> Seq<char> {
    rendered_cells(table, table[i], table[i].len() as int)
}

proof fn lemma_col_width_upto_le(table: Seq<Seq<String>>, j: int, n1: int, n2: int)
    requires
        0 <= n1 <= n2,
    ensures
        col_width_upto(table, j, n1) <= col_width_upto(table, j, n2),
    decreases n2,
{
    if n1 < n2 {
        lemma_col_width_upto_le(table, j, n1, n2 - 1);
    }
}

/// The alignment padding never goes negative: a cell is at least four
/// narrower than its column.
proof fn lemma_cell_fits(table: Seq<Seq<String>>, i: int, j: int)
    requires
        0 <= i < table.len(),
        0 <= j < table[i].len(),
    ensures
        count_chars_spec(table[i][j]@) + 4 <= col_width(table, j),
{
    lemma_col_width_upto_le(table, j, i + 1, table.len() as int);
}

/// Renders the rows of a table of cells, each cell padded with spaces so
/// that the columns align; widths ignore ANSI styling codes.
pub fn render_table(table_data: &Vec<Vec<String>>) -> (r: Vec<String>)
    requires
        forall|i: int, j: int|
            0 <= i < table_data@.len() && 0 <= j < table_data@[i]@.len()
                ==> #[trigger] table_data@[i]@[j]@.len() + 4 <= usize::MAX,
    ensures
        r@.len() == table_data@.len(),
        forall|i: int| 0 <= i < r@.len() ==> #[trigger] r@[i]@ == rendered_row(
            table_data@.map_values(|row: Vec<String>| row@),
            i,
        ),
{
    let ghost tview = table_data@.map_values(|row: Vec<String>| row@);
    // Find the maximum number of columns in any row.
    let mut num_cols: usize = 0;
    let mut i: usize = 0;
    while i < table_data.len()
        invariant
            i <= table_data@.len(),
            forall|k: int| 0 <= k < i ==> #[trigger] table_data@[k]@.len() <= num_cols,
            num_cols == 0 || exists|k: int| 0 <= k < i && #[trigger] table_data@[k]@.len()
                == num_cols,
        decreases table_data@.len() - i,
    {
        let row_len = table_data[i].len();
        if row_len > num_cols {
            num_cols = row_len;
        }
        i = i + 1;
    }

    // The width of each column: four more than its widest cell.
    let mut column_width: Vec<usize> = Vec::new();
    let mut j: usize = 0;
    while j < num_cols
        invariant
            j <= num_cols,
            column_width@.len() == j,
            tview == table_data@.map_values(|row: Vec<String>| row@),
            forall|c: int| 0 <= c < j ==> #[trigger] column_width@[c] == col_width(tview, c),
            forall|k: int| 0 <= k < table_data@.len() ==> #[trigger] table_data@[k]@.len()
                <= num_cols,
            forall|a: int, b: int|
                0 <= a < table_data@.len() && 0 <= b < table_data@[a]@.len()
                    ==> #[trigger] table_data@[a]@[b]@.len() + 4 <= usize::MAX,
        decreases num_cols - j,
    {
        let mut w: usize = 0;
        let mut k: usize = 0;
        while k < table_data.len()
            invariant
                k <= table_data@.len(),
                tview == table_data@.map_values(|row: Vec<String>| row@),
                w == col_width_upto(tview, j as int, k as int),
                forall|a: int, b: int|
                    0 <= a < table_data@.len() && 0 <= b < table_data@[a]@.len()
                        ==> #[trigger] table_data@[a]@[b]@.len() + 4 <= usize::MAX,
            decreases table_data@.len() - k,
        {
            let row = &table_data[k];
            if j < row.len() {
                let cell_chars = count_characters(row[j].as_str());
                proof {
                    assert(count_chars_spec(tview[k as int][j as int]@) <= tview[k as int][
                    j as int]@.len()) by {
                        lemma_count_le_len(tview[k as int][j as int]@, 0);
                    }
                    assert(table_data@[k as int]@[j as int]@.len() + 4 <= usize::MAX);
                }
                if cell_chars + 4 > w {
                    w = cell_chars + 4;
                }
            }
            k = k + 1;
        }
        column_width.push(w);
        j = j + 1;
    }

    // Render each row with padded cells.
    let mut out: Vec<String> = Vec::new();
    let mut i2: usize = 0;
    while i2 < table_data.len()
        invariant
            i2 <= table_data@.len(),
            out@.len() == i2,
            tview == table_data@.map_values(|row: Vec<String>| row@),
            column_width@.len() == num_cols,
            forall|c: int| 0 <= c < num_cols ==> #[trigger] column_width@[c] == col_width(tview, c),
            forall|k: int| 0 <= k < table_data@.len() ==> #[trigger] table_data@[k]@.len()
                <= num_cols,
            forall|k: int| 0 <= k < i2 ==> #[trigger] out@[k]@ == rendered_row(tview, k),
        decreases table_data@.len() - i2,
    {
        let row = &table_data[i2];
        let mut line = String::new();
        let mut c: usize = 0;
        while c < row.len()
            invariant
                c <= row@.len(),
                tview == table_data@.map_values(|row2: Vec<String>| row2@),
                0 <= i2 < table_data@.len(),
                row@ == table_data@[i2 as int]@,
                column_width@.len() == num_cols,
                table_data@[i2 as int]@.len() <= num_cols,
                forall|cc: int|
                    0 <= cc < num_cols ==> #[trigger] column_width@[cc] == col_width(tview, cc),
                line@ == rendered_cells(tview, tview[i2 as int], c as int),
            decreases row@.len() - c,
        {
            let cell = &row[c];
            let cell_chars = count_characters(cell.as_str());
            proof {
                lemma_cell_fits(tview, i2 as int, c as int);
            }
            let padding = column_width[c] - cell_chars;
            line.append(cell.as_str());
            push_repeat(&mut line, ' ', padding);
            proof {
                assert(line@ =~= rendered_cells(tview, tview[i2 as int], c + 1));
            }
            c = c + 1;
        }
        out.push(line);
        proof {
            assert(out@[i2 as int]@ == rendered_row(tview, i2 as int));
        }
        i2 = i2 + 1;
    }
    out
}

proof fn lemma_count_le_len(s: Seq<char>, i: int)
    requires
        0 <= i <= s.len(),
    ensures
        count_from(s, i) <= s.len() - i,
    decreases s.len() - i,
{
    if i < s.len() {
        if s[i] == '\u{1b}' {
            let j = if i + 2 <= s.len() {
                i + 2
            } else {
                s.len() as int
            };
            lemma_code_end_bounds(s, j);
            lemma_count_le_len(s, code_end(s, j));
        } else {
            lemma_count_le_len(s, i + 1);
        }
    }
}

/// The default reporter: prints each benchmark's statistics as one row of a
/// plain-text table.
pub struct PlainReporter {
    /// The once-only state for the runner-name header.
    pub print_runner_name_once: Option<PrintOnce>,
    /// Whether the iteration counts of a group are reported too.
    pub print_num_iter: bool,
}

impl PlainReporter {
    /// A reporter that does not report iteration counts.
    pub fn new() -> (r: PlainReporter)
        ensures
            r.print_runner_name_once.is_none(),
            !r.print_num_iter,
    {
        PlainReporter { print_runner_name_once: None, print_num_iter: false }
    }

    /// Chooses whether the iteration counts of a group are reported.
    pub fn print_num_iter(self, print: bool) -> (r: PlainReporter)
        ensures
            r.print_num_iter == print,
            r.print_runner_name_once == self.print_runner_name_once,
    {
        PlainReporter { print_num_iter: print, ..self }
    }

    /// Builds the table cells for one benchmark's result: memory, average,
    /// median, min/max, and the benchmark's output value if it has one.
    pub fn to_columns(
        &self,
        stats: BenchStats,
        other: Option<BenchStats>,
        input_size_in_bytes: Option<usize>,
        output_value: &Option<String>,
        report_memory: bool,
        output_value_column_title: &'static str,
    ) -> (r: Vec<String>)
        ensures
            r@.len() == if output_value.is_some() {
                5int
            } else {
                4int
            },
            is_memory_str(r@[0]@, stats, other, report_memory),
            exists|a: Seq<char>|
                #![auto]
                is_value_with_diff(
                    a,
                    stats.average_ns,
                    stats,
                    other,
                    input_size_in_bytes,
                    StatsField::AverageNs,
                ) && r@[1]@ == "Avg: "@ + a,
            exists|m: Seq<char>|
                #![auto]
                is_value_with_diff(
                    m,
                    stats.median_ns,
                    stats,
                    other,
                    input_size_in_bytes,
                    StatsField::MedianNs,
                ) && r@[2]@ == "Median: "@ + m,
            r@[3]@ == min_max_seq(stats, input_size_in_bytes),
            output_value matches Some(v) ==> r@[4]@ == output_value_column_title@ + ": "@ + v@,
    {
        let (avg, median) = avg_median_str(&stats, input_size_in_bytes, other);
        let mut avg_str = String::new();
        avg_str.append("Avg: ");
        avg_str.append(avg.as_str());
        let mut median_str = String::new();
        median_str.append("Median: ");
        median_str.append(median.as_str());

        let min_max = min_max_str(&stats, input_size_in_bytes);
        let memory_string = memory_str(&stats, other, report_memory);
        let mut columns: Vec<String> = Vec::new();
        columns.push(memory_string);
        columns.push(avg_str);
        columns.push(median_str);
        columns.push(min_max);
        match output_value {
            Some(v) => {
                let mut out_cell = String::new();
                out_cell.append(output_value_column_title);
                out_cell.append(": ");
                out_cell.append(v.as_str());
                columns.push(out_cell);
            },
            None => {},
        }
        columns
    }
}

} // verus!
