use binggan::persist::deserialize_stats;
use binggan::persist::serialize_stats;
use binggan::stats::BenchStats;

#[test]
fn persisted_stats_round_trip() {
    let stats = BenchStats {
        min_ns: 2_024_700,
        max_ns: 5_091_900,
        average_ns: 3_479_100,
        median_ns: 3_533_400,
        avg_memory: 786_500,
    };
    let line = serialize_stats(&stats);
    // Reloading the persisted value reproduces a numerically identical
    // baseline for the next run's diff.
    let reloaded = deserialize_stats(&line).unwrap();
    assert_eq!(reloaded, stats);
}

#[test]
fn extreme_values_round_trip() {
    let stats = BenchStats {
        min_ns: 0,
        max_ns: u64::MAX,
        average_ns: u64::MAX,
        median_ns: 1,
        avg_memory: usize::MAX,
    };
    let line = serialize_stats(&stats);
    assert_eq!(deserialize_stats(&line), Some(stats));
}

#[test]
fn persisted_line_is_stable() {
    let stats = BenchStats {
        min_ns: 1,
        max_ns: 2,
        average_ns: 3,
        median_ns: 4,
        avg_memory: 0,
    };
    assert_eq!(
        serialize_stats(&stats),
        "{\"min_ns\":1,\"max_ns\":2,\"average_ns\":3,\"median_ns\":4,\"avg_memory\":0}"
    );
}

#[test]
fn deserialize_rejects_malformed_lines() {
    assert_eq!(deserialize_stats(""), None);
    assert_eq!(deserialize_stats("{\"min_ns\":1"), None);
    assert_eq!(
        deserialize_stats(
            "{\"min_ns\":01,\"max_ns\":2,\"average_ns\":3,\"median_ns\":4,\"avg_memory\":0}"
        ),
        None
    );
    assert_eq!(
        deserialize_stats(
            "{\"min_ns\":99999999999999999999999,\"max_ns\":2,\"average_ns\":3,\"median_ns\":4,\"avg_memory\":0}"
        ),
        None
    );
    assert_eq!(
        deserialize_stats(
            "{\"min_ns\":1,\"max_ns\":2,\"average_ns\":3,\"median_ns\":4,\"avg_memory\":0} "
        ),
        None
    );
}
