use burnbench::persist::{
    accept_value, bearer_value, check_wire_ready, index_line, is_success_status,
    prepare_record_file, prepare_records, record_file_name, upload_body, user_agent_value,
};
use burnbench::{
    BenchmarkComputations, BenchmarkDurations, BenchmarkRecord, BenchmarkResult,
    BenchmarkSystemInfo, DurationSample, TimingMethod,
};

fn small_record(name: &str, timestamp: u128) -> BenchmarkRecord {
    BenchmarkRecord {
        backend: "candle".to_string(),
        device: "Cuda(0)".to_string(),
        feature: "wgpu-fusion".to_string(),
        burn_version: "main".to_string(),
        system_info: BenchmarkSystemInfo {
            cpus: vec!["cpu0".to_string()],
            gpus: vec![],
        },
        results: BenchmarkResult {
            raw: BenchmarkDurations {
                timing_method: TimingMethod::System,
                durations: vec![DurationSample::from_micros(120), DurationSample::from_micros(80)],
            },
            computed: BenchmarkComputations {
                mean: DurationSample::from_micros(100),
                median: DurationSample::from_micros(120),
                variance: DurationSample::from_micros(0),
                min: DurationSample::from_micros(80),
                max: DurationSample::from_micros(120),
            },
            git_hash: "abc123".to_string(),
            name: name.to_string(),
            options: None,
            shapes: vec![vec![2, 3]],
            timestamp,
        },
    }
}

#[test]
fn file_name_is_deterministic() {
    let name = record_file_name(&"unary".to_string(), 1710208069697);
    assert_eq!(name, "bench_unary_1710208069697.json");
    let zero = record_file_name(&"x".to_string(), 0);
    assert_eq!(zero, "bench_x_0.json");
}

#[test]
fn prepared_file_holds_flat_schema() {
    let record = small_record("unary", 1710208069697);
    assert!(check_wire_ready(&record));
    let (name, text) = prepare_record_file(&record);
    assert_eq!(name, "bench_unary_1710208069697.json");
    // Pretty-printed, flat JSON with the schema's key order.
    assert!(text.starts_with("{\n  \"backend\": \"candle\""));
    let value: serde_json::Value = serde_json::from_str(&text).unwrap();
    let obj = value.as_object().unwrap();
    let keys: Vec<&str> = obj.keys().map(|k| k.as_str()).collect();
    assert_eq!(
        keys,
        vec![
            "backend",
            "device",
            "feature",
            "gitHash",
            "burnVersion",
            "max",
            "mean",
            "median",
            "min",
            "name",
            "numSamples",
            "options",
            "rawDurations",
            "systemInfo",
            "shapes",
            "timestamp",
            "variance",
        ]
    );
    assert_eq!(obj["max"], serde_json::Value::from(120u64));
    assert_eq!(obj["mean"], serde_json::Value::from(100u64));
    assert_eq!(obj["numSamples"], serde_json::Value::from(2u64));
    assert_eq!(obj["options"], serde_json::Value::Null);
    assert_eq!(obj["timestamp"], serde_json::Value::from(1710208069697u64));
    let raw = obj["rawDurations"].as_array().unwrap();
    assert_eq!(raw.len(), 2);
    assert_eq!(raw[0]["secs"], serde_json::Value::from(0u64));
    assert_eq!(raw[0]["nanos"], serde_json::Value::from(120000u64));
    let shapes = obj["shapes"].as_array().unwrap();
    assert_eq!(shapes[0].as_array().unwrap().len(), 2);
    let si = obj["systemInfo"].as_object().unwrap();
    assert_eq!(si["cpus"].as_array().unwrap().len(), 1);
    assert_eq!(si["gpus"].as_array().unwrap().len(), 0);
}

#[test]
fn upload_body_is_compact_same_document() {
    let record = small_record("unary", 42);
    assert!(check_wire_ready(&record));
    let body = upload_body(&record);
    assert!(!body.contains('\n'));
    let (_, pretty) = prepare_record_file(&record);
    let a: serde_json::Value = serde_json::from_str(&body).unwrap();
    let b: serde_json::Value = serde_json::from_str(&pretty).unwrap();
    assert_eq!(a, b);
}

#[test]
fn prepare_records_yields_one_file_per_record() {
    let records = vec![
        small_record("unary", 1),
        small_record("binary", 2),
        small_record("matmul", 3),
    ];
    for r in records.iter() {
        assert!(check_wire_ready(r));
    }
    let files = prepare_records(&records);
    assert_eq!(files.len(), 3);
    assert_eq!(files[0].0, "bench_unary_1.json");
    assert_eq!(files[1].0, "bench_binary_2.json");
    assert_eq!(files[2].0, "bench_matmul_3.json");
}

#[test]
fn wire_ready_rejects_oversized_timestamp() {
    let at_limit = small_record("unary", u64::MAX as u128);
    assert!(check_wire_ready(&at_limit));
    let record = small_record("unary", u64::MAX as u128 + 1);
    assert!(!check_wire_ready(&record));
}

#[test]
fn index_line_is_path_plus_newline() {
    assert_eq!(index_line("/tmp/bench_unary_1.json"), "/tmp/bench_unary_1.json\n");
}

#[test]
fn upload_header_values() {
    assert_eq!(bearer_value("abc123"), "Bearer abc123");
    assert_eq!(user_agent_value(), "burnbench");
    assert_eq!(accept_value(), "application/json");
}

#[test]
fn success_statuses() {
    assert!(is_success_status(200));
    assert!(is_success_status(204));
    assert!(is_success_status(299));
    assert!(!is_success_status(199));
    assert!(!is_success_status(300));
    assert!(!is_success_status(404));
    assert!(!is_success_status(500));
}
