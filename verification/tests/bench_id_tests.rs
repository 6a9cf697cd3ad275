use binggan::bench_id::filter_matches;
use binggan::bench_id::get_bench_id;
use binggan::bench_id::BenchId;
use binggan::config::Config;
use binggan::plugins::cache_trasher::CacheTrasher;
use binggan::plugins::events::PluginRegistry;
use binggan::plugins::perf_counter::default_perf_counters;
use binggan::plugins::perf_counter::PerfCounter;
use binggan::plugins::PerBenchData;

#[test]
fn full_name_replaces_slashes() {
    assert_eq!(get_bench_id("runner", "group", "bench"), "runner_group_bench");
    assert_eq!(get_bench_id("a/b", "c", "d/e"), "a-b_c_d-e");
}

#[test]
fn bench_id_renders_missing_parts_empty() {
    let id = BenchId::from_bench_name("sort".to_string())
        .runner_name(Some("suite"))
        .group_name(Some("input one".to_string()));
    assert_eq!(id.get_full_name(), "suite_input one_sort");
    let bare = BenchId::from_bench_name("sort".to_string());
    assert_eq!(bare.get_full_name(), "__sort");
}

#[test]
fn filter_restricts_by_substring() {
    assert!(filter_matches("suite_input_sort", &None, false));
    assert!(filter_matches("suite_input_sort", &Some("input".to_string()), false));
    assert!(!filter_matches("suite_input_sort", &Some("hash".to_string()), false));
    assert!(filter_matches("anything", &Some("".to_string()), false));
}

#[test]
fn exact_filter_requires_the_whole_name() {
    assert!(filter_matches(
        "suite_input_sort",
        &Some("suite_input_sort".to_string()),
        true
    ));
    assert!(!filter_matches(
        "suite_input_sort",
        &Some("input".to_string()),
        true
    ));
    assert!(filter_matches("suite_input_sort", &None, true));
}

#[test]
fn config_defaults() {
    let mut config = Config::new();
    assert!(config.interleave);
    assert!(!config.exact);
    assert!(!config.verbose);
    assert_eq!(config.get_num_iter_for_group(), 32);
    config.set_num_iter_for_group(8);
    assert_eq!(config.get_num_iter_for_group(), 8);
    config.set_num_iter_for_bench(100);
    assert_eq!(config.num_iter_bench, Some(100));
    config.set_interleave(false);
    assert!(!config.interleave);
}

#[test]
fn registry_orders_by_priority_and_dedupes_by_name() {
    let mut registry = PluginRegistry::new();
    // The default priority sorts after low-priority instrumentation.
    let at = registry.add("reporter".to_string(), u32::MAX / 2);
    assert_eq!(at, 0);
    let at = registry.add("_binggan_alloc".to_string(), 1);
    assert_eq!(at, 0);
    let at = registry.add("_binggan_perf".to_string(), 0);
    assert_eq!(at, 0);
    // Equal priorities keep insertion order.
    let at = registry.add("cache_trasher".to_string(), 1);
    assert_eq!(at, 2);
    assert_eq!(registry.find("reporter"), Some(3));
    // Adding under a taken name is refused; replacing removes it first.
    assert_eq!(registry.add_if_absent("reporter".to_string(), 7), None);
    assert_eq!(registry.remove_all_by_name("reporter"), vec![3]);
    assert_eq!(registry.find("reporter"), None);
    assert_eq!(registry.len(), 3);
}

#[test]
fn removal_takes_every_listener_with_the_name() {
    // Replacement always substitutes: no earlier listener under the name
    // survives, even when several were registered.
    let mut registry = PluginRegistry::new();
    registry.add("reporter".to_string(), 5);
    registry.add("other".to_string(), 1);
    registry.add("reporter".to_string(), 9);
    assert_eq!(registry.len(), 3);
    let removed = registry.remove_all_by_name("reporter");
    assert_eq!(removed.len(), 2);
    assert_eq!(registry.len(), 1);
    assert_eq!(registry.find("reporter"), None);
    assert_eq!(registry.find("other"), Some(0));
}

#[test]
fn dispatch_reverses_for_stop_events() {
    let mut registry = PluginRegistry::new();
    registry.add("a".to_string(), 0);
    registry.add("b".to_string(), 1);
    registry.add("c".to_string(), 2);
    assert_eq!(registry.dispatch_order(false), vec![0, 1, 2]);
    // Whoever started instrumentation last stops it first.
    assert_eq!(registry.dispatch_order(true), vec![2, 1, 0]);
}

#[test]
fn per_bench_data_keeps_one_entry_per_id() {
    let mut data: PerBenchData<Vec<usize>> = PerBenchData::new();
    let id = BenchId::from_bench_name("vec".to_string());
    let other = BenchId::from_bench_name("hashmap".to_string());
    data.insert_if_absent(&id, Vec::new());
    data.insert_if_absent(&id, vec![999]);
    assert_eq!(data.get(&id), Some(&Vec::new()));
    assert_eq!(data.get(&other), None);
    let idx = data.get_index(&id).unwrap();
    let mut samples = data.value_at(idx).clone();
    samples.push(4096);
    data.set_value_at(idx, samples);
    assert_eq!(data.get(&id), Some(&vec![4096]));
}

#[test]
fn cache_trasher_walks_inside_the_buffer() {
    let mut trasher = CacheTrasher::new(1024 * 1024 * 32);
    assert_eq!(trasher.num_lines, 1024 * 1024 * 32 / 64);
    for _ in 0..100 {
        let idx = trasher.lcg_rand();
        assert!(idx < trasher.num_lines);
    }
    let mut again = CacheTrasher::new(1024 * 1024 * 32);
    assert_eq!(again.lcg_rand(), 1013904223 % (1024 * 1024 * 32 / 64));
}

#[test]
fn perf_counter_labels_round_trip() {
    assert_eq!(PerfCounter::CpuCycles.label(), "Cycles");
    assert_eq!(PerfCounter::MissedBranches.label(), "BrM");
    assert_eq!(PerfCounter::from_label("L1dA"), Some(PerfCounter::L1DCacheAccess));
    assert_eq!(PerfCounter::from_label("nope"), None);
    let defaults = default_perf_counters();
    assert_eq!(defaults.len(), 5);
    assert_eq!(defaults[0], PerfCounter::Branches);
}
