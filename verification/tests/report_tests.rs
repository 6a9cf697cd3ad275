use binggan::report::check_and_print;
use binggan::report::format::bytes_to_string;
use binggan::report::format::format_duration;
use binggan::report::format::format_duration_or_throughput;
use binggan::report::format::format_with_underscores;
use binggan::report::min_max_str;
use binggan::report::plain_reporter::count_characters;
use binggan::report::plain_reporter::render_table;
use binggan::report::plain_reporter::PlainReporter;
use binggan::report::table_reporter::TableReporter;
use binggan::report::PrintOnce;
use binggan::stats::BenchStats;

#[test]
fn report_width_test() {
    assert_eq!(
        count_characters("Memory: \u{1b}[1;96m786.5 KB\u{1b}[0m"),
        count_characters("Memory: 786.5 KB")
    );
}

#[test]
fn plain_reporter_width_test() {
    assert_eq!(
        count_characters("Memory: \u{1b}[1;96m786.5 KB\u{1b}[0m"),
        count_characters("Memory: 786.5 KB")
    );
}

#[test]
fn format_throughput_test() {
    assert_eq!(
        format_duration_or_throughput(1e9 as u64, Some(1000000)),
        "1.0000 MB/s"
    );
}

#[test]
fn format_duration_cases() {
    assert_eq!(format_duration(0), "0ns");
    assert_eq!(format_duration(9_999), "9999ns");
    assert_eq!(format_duration(100_000), "0.1000ms");
    assert_eq!(format_duration(3_479_100), "3.4791ms");
    assert_eq!(format_duration(1_000_000_000), "1000.0000ms");
    assert_eq!(format_duration(1_500_000_000), "1.5s");
    assert_eq!(format_duration(2_000_000_000), "2s");
}

#[test]
fn format_with_underscores_test() {
    assert_eq!(format_with_underscores(0), "0");
    assert_eq!(format_with_underscores(999), "999");
    assert_eq!(format_with_underscores(1000), "1_000");
    assert_eq!(format_with_underscores(1000000), "1_000_000");
}

#[test]
fn bytes_to_string_test() {
    assert_eq!(bytes_to_string(999), "999 B");
    assert_eq!(bytes_to_string(1000), "1.0 KB");
    assert_eq!(bytes_to_string(786500), "786.5 KB");
    assert_eq!(bytes_to_string(1_500_000_000), "1.5 GB");
}

#[test]
fn min_max_cell_flips_for_throughput() {
    let stats = BenchStats {
        min_ns: 100,
        max_ns: 200,
        average_ns: 150,
        median_ns: 150,
        avg_memory: 0,
    };
    assert_eq!(min_max_str(&stats, None), "[100ns .. 200ns]");
    // With an input size the faster bound renders as the higher rate, so
    // max and min swap places.
    let cell = min_max_str(&stats, Some(1000));
    assert_eq!(cell, "[5.0000 GB/s .. 10.000 GB/s]");
}

#[test]
fn to_columns_shape() {
    let stats = BenchStats {
        min_ns: 100,
        max_ns: 200,
        average_ns: 150,
        median_ns: 150,
        avg_memory: 0,
    };
    let reporter = PlainReporter::new();
    let columns = reporter.to_columns(stats, None, None, &None, false, "Output");
    assert_eq!(columns.len(), 4);
    assert_eq!(columns[0], "");
    assert_eq!(columns[1], "Avg: 150ns ");
    assert_eq!(columns[2], "Median: 150ns ");
    assert_eq!(columns[3], "[100ns .. 200ns]");
    let with_output = reporter.to_columns(
        stats,
        None,
        None,
        &Some("42".to_string()),
        false,
        "Output",
    );
    assert_eq!(with_output.len(), 5);
    assert_eq!(with_output[4], "Output: 42");
}

#[test]
fn render_table_aligns_columns() {
    let data = vec![
        vec!["a".to_string(), "bb".to_string()],
        vec!["ccc".to_string(), "d".to_string()],
    ];
    let lines = render_table(&data);
    assert_eq!(lines.len(), 2);
    // Column widths are four more than the widest cell.
    assert_eq!(lines[0], "a      bb    ");
    assert_eq!(lines[1], "ccc    d     ");
}

#[test]
fn render_table_ignores_ansi_codes_for_widths() {
    let data = vec![
        vec![
            "TurboBuckets".to_string(),
            "Memory: \u{1b}[1;96m786.5 KB\u{1b}[0m".to_string(),
        ],
        vec!["".to_string(), "Memory: 786.5 KB".to_string()],
    ];
    let lines = render_table(&data);
    assert_eq!(count_characters(&lines[0]), count_characters(&lines[1]));
}

#[test]
fn print_once_prints_changed_names() {
    let mut po = PrintOnce::new("alpha".to_string());
    assert!(po.check_print("alpha"));
    assert!(!po.check_print("alpha"));
    assert!(po.check_print("beta"));
    assert!(!po.check_print("beta"));
    assert_eq!(po.get_name(), "beta");

    let mut state: Option<PrintOnce> = None;
    assert!(check_and_print(&mut state, "alpha"));
    assert!(!check_and_print(&mut state, "alpha"));
    assert!(check_and_print(&mut state, "beta"));
}

#[test]
fn reporters_start_empty() {
    let plain = PlainReporter::new();
    assert!(!plain.print_num_iter);
    let plain = plain.print_num_iter(true);
    assert!(plain.print_num_iter);
    let table = TableReporter::new();
    assert!(table.print_runner_name_once.is_none());
}
