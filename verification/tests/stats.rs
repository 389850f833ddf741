use burnbench::{BenchmarkComputations, BenchmarkDurations, DurationSample, TimingMethod};

#[test]
fn test_min_max_median_durations_even_number_of_samples() {
    let durations = BenchmarkDurations {
        timing_method: TimingMethod::System,
        durations: vec![
            DurationSample::new(10, 0),
            DurationSample::new(20, 0),
            DurationSample::new(30, 0),
            DurationSample::new(40, 0),
            DurationSample::new(50, 0),
        ],
    };
    let (min, max, median) = durations.min_max_median_durations();
    assert_eq!(min, DurationSample::from_secs(10));
    assert_eq!(max, DurationSample::from_secs(50));
    assert_eq!(median, DurationSample::from_secs(30));
}

#[test]
fn test_min_max_median_durations_odd_number_of_samples() {
    let durations = BenchmarkDurations {
        timing_method: TimingMethod::System,
        durations: vec![
            DurationSample::new(18, 5),
            DurationSample::new(20, 0),
            DurationSample::new(30, 0),
            DurationSample::new(40, 0),
        ],
    };
    let (min, max, median) = durations.min_max_median_durations();
    assert_eq!(min, DurationSample::from_nanos(18000000005_u64));
    assert_eq!(max, DurationSample::from_secs(40));
    assert_eq!(median, DurationSample::from_secs(30));
}

#[test]
fn test_mean_duration() {
    let durations = BenchmarkDurations {
        timing_method: TimingMethod::System,
        durations: vec![
            DurationSample::new(10, 0),
            DurationSample::new(20, 0),
            DurationSample::new(30, 0),
            DurationSample::new(40, 0),
        ],
    };
    let mean = durations.mean_duration();
    assert_eq!(mean, DurationSample::from_secs(25));
}

#[test]
fn test_variance_duration() {
    let durations = BenchmarkDurations {
        timing_method: TimingMethod::System,
        durations: vec![
            DurationSample::new(10, 0),
            DurationSample::new(20, 0),
            DurationSample::new(30, 0),
            DurationSample::new(40, 0),
            DurationSample::new(50, 0),
        ],
    };
    let mean = durations.mean_duration();
    let variance = durations.variance_duration(mean);
    assert_eq!(variance, DurationSample::from_secs(200));
}

#[test]
fn test_computations_within_bounds() {
    let durations = BenchmarkDurations {
        timing_method: TimingMethod::System,
        durations: vec![
            DurationSample::from_nanos(8858583),
            DurationSample::from_nanos(8719822),
            DurationSample::from_nanos(8705335),
            DurationSample::from_nanos(8835636),
            DurationSample::from_nanos(8592507),
        ],
    };
    let computed = BenchmarkComputations::new(&durations);
    assert!(computed.min.as_nanos() <= computed.median.as_nanos());
    assert!(computed.median.as_nanos() <= computed.max.as_nanos());
    assert!(computed.min.as_nanos() <= computed.mean.as_nanos());
    assert!(computed.mean.as_nanos() <= computed.max.as_nanos());
    assert_eq!(computed.min, DurationSample::from_nanos(8592507));
    assert_eq!(computed.max, DurationSample::from_nanos(8858583));
    assert_eq!(computed.median, DurationSample::from_nanos(8719822));
}

#[test]
fn test_single_sample_statistics() {
    let durations = BenchmarkDurations {
        timing_method: TimingMethod::Device,
        durations: vec![DurationSample::new(7, 250)],
    };
    let computed = BenchmarkComputations::new(&durations);
    assert_eq!(computed.min, DurationSample::new(7, 250));
    assert_eq!(computed.max, DurationSample::new(7, 250));
    assert_eq!(computed.median, DurationSample::new(7, 250));
    assert_eq!(computed.mean, DurationSample::new(7, 250));
    assert_eq!(computed.variance, DurationSample::from_secs(0));
}

#[test]
fn test_sample_normalization() {
    let carried = DurationSample::new(1, 2_500_000_000);
    assert_eq!(carried.secs(), 3);
    assert_eq!(carried.subsec_nanos(), 500_000_000);
    assert_eq!(carried.as_nanos(), 3_500_000_000);
    assert_eq!(DurationSample::from_micros(1_500).as_nanos(), 1_500_000);
    assert_eq!(DurationSample::from_micros(1_500).as_micros(), 1_500);
}
