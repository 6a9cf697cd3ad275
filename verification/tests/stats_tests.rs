use binggan::bench::RunResult;
use binggan::stats::compute_diff;
use binggan::stats::compute_stats;
use binggan::stats::BenchStats;
use binggan::stats::StatsField;
use yansi::Paint;

fn create_res(duration_ns: u64) -> RunResult<Option<u64>> {
    RunResult {
        output: None,
        duration_ns,
    }
}

#[test]
fn test_compute_stats_median_odd() {
    let results = vec![create_res(10), create_res(20), create_res(30)];
    let stats = compute_stats(&results, None);
    assert_eq!(
        stats.median_ns, 20,
        "Median should be the middle element for odd count"
    );
}

#[test]
fn test_compute_stats_median_even() {
    let results = vec![
        create_res(10),
        create_res(20),
        create_res(30),
        create_res(40),
    ];
    let stats = compute_stats(&results, None);
    assert_eq!(
        stats.median_ns, 25,
        "Median should be the average of the two middle elements for even count"
    );
}

#[test]
fn test_compute_diff_average_ns_with_input_size() {
    let stats = BenchStats {
        min_ns: 0,
        max_ns: 0,
        average_ns: 150,
        median_ns: 0,
        avg_memory: 24,
    };

    let other_stats = BenchStats {
        min_ns: 0,
        max_ns: 0,
        average_ns: 100, // different average_ns to see the difference in the output
        median_ns: 0,
        avg_memory: 0,
    };

    // Example usage: Using average_ns field for comparison.
    let diff = compute_diff(&stats, Some(1000), Some(other_stats), StatsField::AverageNs);

    // Check the output
    assert_eq!(diff, "(-33.33%)".red().to_string());
}

#[test]
fn diff_without_input_size_is_signed_the_other_way() {
    let stats = BenchStats {
        min_ns: 0,
        max_ns: 0,
        average_ns: 150,
        median_ns: 0,
        avg_memory: 0,
    };
    let other_stats = BenchStats {
        min_ns: 0,
        max_ns: 0,
        average_ns: 100,
        median_ns: 0,
        avg_memory: 0,
    };
    // Latency framing: 50% slower, a regression, so red and positive.
    let diff = compute_diff(&stats, None, Some(other_stats), StatsField::AverageNs);
    assert_eq!(diff, "(+50.00%)".red().to_string());
}

#[test]
fn diff_of_an_improvement_is_green() {
    let stats = BenchStats {
        min_ns: 0,
        max_ns: 0,
        average_ns: 100,
        median_ns: 0,
        avg_memory: 0,
    };
    let other_stats = BenchStats {
        min_ns: 0,
        max_ns: 0,
        average_ns: 150,
        median_ns: 0,
        avg_memory: 0,
    };
    // Latency framing: a third faster, an improvement, so green.
    let diff = compute_diff(&stats, None, Some(other_stats), StatsField::AverageNs);
    assert_eq!(diff, "(-33.33%)".green().to_string());
    // Throughput framing of the same pair: positive sign, still green.
    let diff = compute_diff(&stats, Some(1000), Some(other_stats), StatsField::AverageNs);
    assert_eq!(diff, "(+50.00%)".green().to_string());
}

#[test]
fn diff_inside_noise_window_is_uncolored() {
    let stats = BenchStats {
        min_ns: 0,
        max_ns: 0,
        average_ns: 101,
        median_ns: 0,
        avg_memory: 0,
    };
    let other_stats = BenchStats {
        min_ns: 0,
        max_ns: 0,
        average_ns: 100,
        median_ns: 0,
        avg_memory: 0,
    };
    let diff = compute_diff(&stats, None, Some(other_stats), StatsField::AverageNs);
    assert_eq!(diff, "(+1.00%)".resetting().to_string());
    // A resetting-only style writes no prefix: the text comes first, with at
    // most a bare reset suffix after it.
    assert!(diff.starts_with("(+1.00%)"));
}

#[test]
fn diff_of_unchanged_or_zero_values_is_empty() {
    let stats = BenchStats {
        min_ns: 5,
        max_ns: 5,
        average_ns: 100,
        median_ns: 0,
        avg_memory: 0,
    };
    // An unchanged value renders empty: a second run on an unmodified
    // baseline reports no percentage at all.
    assert_eq!(
        compute_diff(&stats, None, Some(stats), StatsField::AverageNs),
        ""
    );
    // A zero on either side renders empty too.
    assert_eq!(
        compute_diff(&stats, None, Some(stats), StatsField::MedianNs),
        ""
    );
    // No previous run renders empty.
    assert_eq!(compute_diff(&stats, None, None, StatsField::AverageNs), "");
}

#[test]
fn stats_bounds_hold() {
    let results = vec![create_res(42), create_res(7), create_res(99), create_res(7)];
    let stats = compute_stats(&results, None);
    assert_eq!(stats.min_ns, 7);
    assert_eq!(stats.max_ns, 99);
    assert_eq!(stats.average_ns, (42 + 7 + 99 + 7) / 4);
    assert!(stats.min_ns <= stats.median_ns && stats.median_ns <= stats.max_ns);
    assert!(stats.min_ns <= stats.average_ns && stats.average_ns <= stats.max_ns);
}

#[test]
fn stats_average_memory() {
    let results = vec![create_res(10)];
    let memory = vec![100usize, 200, 301];
    let stats = compute_stats(&results, Some(&memory));
    assert_eq!(stats.avg_memory, 200);
    let without = compute_stats(&results, None);
    assert_eq!(without.avg_memory, 0);
}
