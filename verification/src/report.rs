//! Reporting: formatting helpers, the report-level column builders, and the
//! once-only header printing state.

pub mod format;
pub mod plain_reporter;
pub mod table_reporter;

pub use plain_reporter::PlainReporter;
pub use table_reporter::TableReporter;

use vstd::prelude::*;
use vstd::string::StringExecFns;
use crate::color::bold_bright_cyan_code;
use crate::color::paint_bright_cyan_bold;
use crate::color::styled_or_plain;
use crate::report::format::bytes_to_string;
use crate::report::format::bytes_to_string_spec;
use crate::report::format::format_duration_or_throughput;
use crate::report::format::format_duration_or_throughput_spec;
use crate::stats::compute_diff;
use crate::stats::field_of;
use crate::stats::is_diff_result;
use crate::stats::BenchStats;
use crate::stats::StatsField;
use crate::strings::str_eq;

verus! {

/// The name every reporter registers under, so that registering a second
/// reporter replaces the first instead of duplicating output.
pub const REPORTER_PLUGIN_NAME: &'static str = "reporter";

/// Whether `r` is a formatted metric value followed by its diff against the
/// previous run: the value rendered as duration or throughput, one space,
/// and a (possibly color-wrapped, possibly empty) percentage.
pub open spec fn is_value_with_diff(
    r: Seq<char>,
    value: u64,
    st: BenchStats,
    other: Option<BenchStats>,
    input_size: Option<usize>,
    field: StatsField,
) -> bool {
    exists|d: Seq<char>|
        #![auto]
        (match other {
            Option::Some(o) => is_diff_result(
                d,
                field_of(st, field),
                field_of(o, field),
                input_size.is_some(),
            ),
            Option::None => d == Seq::<char>::empty(),
        }) && r == format_duration_or_throughput_spec(value as int, input_size) + " "@ + d
}

/// Builds the average and median cells: each is the formatted value followed
/// by its percentage diff against the previous run.
pub fn avg_median_str(
    stats: &BenchStats,
    input_size_in_bytes: Option<usize>,
    other: Option<BenchStats>,
) -> (r: (String, String))
    ensures
        is_value_with_diff(
            r.0@,
            stats.average_ns,
            *stats,
            other,
            input_size_in_bytes,
            StatsField::AverageNs,
        ),
        is_value_with_diff(
            r.1@,
            stats.median_ns,
            *stats,
            other,
            input_size_in_bytes,
            StatsField::MedianNs,
        ),
{
    let avg_ns_diff = compute_diff(stats, input_size_in_bytes, other, StatsField::AverageNs);
    let median_ns_diff = compute_diff(stats, input_size_in_bytes, other, StatsField::MedianNs);
    let mut avg_str = format_duration_or_throughput(stats.average_ns, input_size_in_bytes);
    avg_str.append(" ");
    avg_str.append(avg_ns_diff.as_str());
    let mut median_str = format_duration_or_throughput(stats.median_ns, input_size_in_bytes);
    median_str.append(" ");
    median_str.append(median_ns_diff.as_str());
    (avg_str, median_str)
}

/// The min/max cell: `[min .. max]` as durations, or `[max .. min]` as
/// throughputs (the faster bound renders as the higher rate, so the order is
/// flipped).
pub open spec fn min_max_seq(st: BenchStats, input_size: Option<usize>) -> Seq<char> {
    match input_size {
        Option::None => "["@ + format_duration_or_throughput_spec(st.min_ns as int, input_size)
            + " .. "@ + format_duration_or_throughput_spec(st.max_ns as int, input_size) + "]"@,
        Option::Some(_) => "["@ + format_duration_or_throughput_spec(st.max_ns as int, input_size)
            + " .. "@ + format_duration_or_throughput_spec(st.min_ns as int, input_size) + "]"@,
    }
}

/// Builds the `[min .. max]` cell.
pub fn min_max_str(stats: &BenchStats, input_size_in_bytes: Option<usize>) -> (r: String)
    ensures
        r@ == min_max_seq(*stats, input_size_in_bytes),
{
    let mut s = String::new();
    s.append("[");
    match input_size_in_bytes {
        None => {
            let lo = format_duration_or_throughput(stats.min_ns, None);
            s.append(lo.as_str());
            s.append(" .. ");
            let hi = format_duration_or_throughput(stats.max_ns, None);
            s.append(hi.as_str());
        },
        Some(sz) => {
            let hi = format_duration_or_throughput(stats.max_ns, Some(sz));
            s.append(hi.as_str());
            s.append(" .. ");
            let lo = format_duration_or_throughput(stats.min_ns, Some(sz));
            s.append(lo.as_str());
        },
    }
    s.append("]");
    proof {
        assert(s@ =~= min_max_seq(*stats, input_size_in_bytes));
    }
    s
}

/// Whether `r` is the memory cell: empty when memory tracking is off,
/// otherwise the peak memory in highlighted human units followed by its diff
/// against the previous run.
pub open spec fn is_memory_str(
    r: Seq<char>,
    st: BenchStats,
    other: Option<BenchStats>,
    report_memory: bool,
) -> bool {
    if !report_memory {
        r == Seq::<char>::empty()
    } else {
        exists|m: Seq<char>, d: Seq<char>|
            #![auto]
            styled_or_plain(m, bold_bright_cyan_code(), bytes_to_string_spec(st.avg_memory as int))
                && (match other {
                Option::Some(o) => is_diff_result(
                    d,
                    field_of(st, StatsField::AvgMemory),
                    field_of(o, StatsField::AvgMemory),
                    false,
                ),
                Option::None => d == Seq::<char>::empty(),
            }) && r == "Memory: "@ + m + " "@ + d
    }
}

/// Builds the memory cell.
pub fn memory_str(stats: &BenchStats, other: Option<BenchStats>, report_memory: bool) -> (r:
    String)
    ensures
        is_memory_str(r@, *stats, other, report_memory),
{
    let mem_diff = compute_diff(stats, None, other, StatsField::AvgMemory);
    if !report_memory {
        return String::new();
    }
    let bytes = bytes_to_string(stats.avg_memory as u64);
    let colored = paint_bright_cyan_bold(bytes.as_str());
    let mut s = String::new();
    s.append("Memory: ");
    s.append(colored.as_str());
    s.append(" ");
    s.append(mem_diff.as_str());
    proof {
        assert(field_of(*stats, StatsField::AvgMemory) == stats.avg_memory as u64);
        assert(s@ == "Memory: "@ + colored@ + " "@ + mem_diff@);
    }
    s
}

/// Remembers which runner name has already been printed as a header, so that
/// the header appears once, and again only when the name changes.
pub struct PrintOnce {
    /// The name last handed to the printer.
    pub name: String,
    /// Whether that name has been printed already.
    pub printed: bool,
}

impl PrintOnce {
    /// A fresh, not-yet-printed name.
    pub fn new(name: String) -> (r: PrintOnce)
        ensures
            r.name == name,
            !r.printed,
    {
        PrintOnce { name, printed: false }
    }

    /// Records that `name` is to be printed now; returns whether the caller
    /// should print it. A changed name is always printed; an unchanged name
    /// only if it has not been printed yet.
    pub fn check_print(&mut self, name: &str) -> (do_print: bool)
        ensures
            final(self).name@ == name@,
            final(self).printed,
            do_print == (old(self).name@ != name@ || !old(self).printed),
    {
        if !str_eq(self.name.as_str(), name) {
            self.name = name.to_owned();
            self.printed = true;
            true
        } else {
            let was_printed = self.printed;
            self.printed = true;
            !was_printed
        }
    }

    /// The name last handed in.
    pub fn get_name(&self) -> (r: &str)
        ensures
            r@ == self.name@,
    {
        self.name.as_str()
    }
}

/// Records that `name` is to be printed, creating the state on first use;
/// returns whether the caller should print it now.
pub fn check_and_print(print_once: &mut Option<PrintOnce>, name: &str) -> (do_print: bool)
    ensures
        (*final(print_once)) matches Some(p) && p.name@ == name@ && p.printed,
        do_print == (match *old(print_once) {
            Option::Some(p) => p.name@ != name@ || !p.printed,
            Option::None => true,
        }),
{
    match print_once {
        Some(p) => p.check_print(name),
        None => {
            let mut fresh = PrintOnce::new(name.to_owned());
            fresh.printed = true;
            *print_once = Some(fresh);
            true
        },
    }
}

} // verus!
