use binggan::bench::adjust_measured_ns;
use binggan::bench::calibrate_num_iter;
use binggan::bench_runner::minmax;
use binggan::bench_runner::round_up;
use binggan::bench_runner::select_common_num_iter;
use binggan::bench_runner::shuffle;
use binggan::bench_runner::SimpleRng;

#[test]
fn function_name_test() {
    let mut bench_indices = vec![0, 1];
    let mut all = Vec::new();
    for iteration in 0..4 {
        // We interleave the benches to address benchmarking randomness
        //
        // This has the drawback, that one bench will affect another one.
        shuffle(&mut bench_indices, iteration as u64);
        all.push(bench_indices.clone());
    }
    assert_eq!(all, vec![vec![1, 0], vec![0, 1], vec![1, 0], vec![0, 1]]);
}

#[test]
fn test_round_up() {
    assert_eq!(round_up(125), 200);
    assert_eq!(round_up(12), 20);
    assert_eq!(round_up(1256), 2000);
    assert_eq!(round_up(78945), 80000);
    assert_eq!(round_up(1000), 1000);
    assert_eq!(round_up(1001), 2000);
    assert_eq!(round_up(999), 1000);
    assert_eq!(round_up(9), 10); // Check for single digit numbers
}

#[test]
fn round_up_keeps_round_counts() {
    // Single digits scaled by a power of ten are already stable magnitudes.
    assert_eq!(round_up(200), 200);
    assert_eq!(round_up(5_000_000), 5_000_000);
    assert_eq!(round_up(round_up(78945)), round_up(78945));
}

#[test]
fn shuffle_keeps_the_indices() {
    let mut indices = vec![0, 1, 2, 3, 4];
    for iteration in 0..8 {
        shuffle(&mut indices, iteration as u64);
        let mut sorted = indices.clone();
        sorted.sort();
        assert_eq!(sorted, vec![0, 1, 2, 3, 4]);
    }
}

#[test]
fn shuffle_is_deterministic() {
    let mut a = vec![0, 1, 2, 3];
    let mut b = vec![0, 1, 2, 3];
    shuffle(&mut a, 7);
    shuffle(&mut b, 7);
    assert_eq!(a, b);
}

#[test]
fn simple_rng_matches_lcg() {
    let mut rng = SimpleRng::new(1);
    let first = rng.rand();
    assert_eq!(first, 1u64.wrapping_mul(6364136223846793005).wrapping_add(1));
}

#[test]
fn minmax_of_list() {
    assert_eq!(minmax(&vec![3, 1, 4, 1, 5]), Some((1, 5)));
    assert_eq!(minmax(&vec![7]), Some((7, 7)));
    assert_eq!(minmax(&Vec::new()), None);
}

#[test]
fn common_num_iter_caps_at_ten_times_the_fastest() {
    // The slowest count is capped at ten times the fastest, then rounded up.
    assert_eq!(select_common_num_iter(&vec![10, 1000]), Some(100));
    // Within the cap the maximum wins, rounded to a stable magnitude.
    assert_eq!(select_common_num_iter(&vec![30, 35]), Some(40));
    assert_eq!(select_common_num_iter(&Vec::new()), None);
}

#[test]
fn group_calibration_assigns_one_shared_count() {
    // Two benchmarks of a chunk sample different counts; calibration ends
    // with one identical count for both.
    let vec_count = calibrate_num_iter(1_000, 64_000, 32);
    let map_count = calibrate_num_iter(2_000, 256_000, 32);
    let shared = select_common_num_iter(&vec![vec_count, map_count]).unwrap();
    let counts = vec![shared, shared];
    assert_eq!(counts[0], counts[1]);
}

#[test]
fn calibrate_slow_benchmark_runs_once() {
    // A single call that already exceeds the target window calibrates to one.
    assert_eq!(calibrate_num_iter(600_000_000, 0, 32), 1);
}

#[test]
fn calibrate_fills_target_window() {
    // 64 calls took 64000 ns, so one call is 1000 ns; with 32 group passes a
    // 500 ms window allows 500_000_000 / 32000 = 15625 iterations.
    assert_eq!(calibrate_num_iter(1_000, 64_000, 32), 15625);
}

#[test]
fn adjust_subtracts_unscheduled_time() {
    assert_eq!(adjust_measured_ns(1_000, 1_200, 900), 700);
    assert_eq!(adjust_measured_ns(100, 1_200, 900), 0);
    assert_eq!(adjust_measured_ns(1_000, 900, 900), 1_000);
}
