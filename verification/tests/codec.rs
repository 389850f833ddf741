use burnbench::{
    decode_record, encode_record, BenchmarkComputations, BenchmarkDurations, BenchmarkRecord,
    BenchmarkResult, BenchmarkSystemInfo, DurationSample, JsonValue, TimingMethod,
};

fn to_json_value(v: serde_json::Value) -> JsonValue {
    match v {
        serde_json::Value::Null => JsonValue::Null,
        serde_json::Value::Bool(_) => JsonValue::Other,
        serde_json::Value::Number(n) => match n.as_u128() {
            Some(u) => JsonValue::Nat(u),
            None => JsonValue::Other,
        },
        serde_json::Value::String(s) => JsonValue::Str(s),
        serde_json::Value::Array(items) => {
            JsonValue::Arr(items.into_iter().map(to_json_value).collect())
        }
        serde_json::Value::Object(m) => {
            JsonValue::Obj(m.into_iter().map(|(k, v)| (k, to_json_value(v))).collect())
        }
    }
}

fn flat_from_str(text: &str) -> Vec<(String, JsonValue)> {
    let value: serde_json::Value = serde_json::from_str(text).unwrap();
    match to_json_value(value) {
        JsonValue::Obj(pairs) => pairs,
        _ => panic!("expected a JSON object"),
    }
}

fn sample_record() -> BenchmarkRecord {
    let raw = BenchmarkDurations {
        timing_method: TimingMethod::System,
        durations: vec![
            DurationSample::from_micros(8858),
            DurationSample::from_micros(8629),
            DurationSample::from_micros(8592),
        ],
    };
    BenchmarkRecord {
        backend: "candle".to_string(),
        device: "Cuda(0)".to_string(),
        feature: "wgpu-fusion".to_string(),
        burn_version: "main".to_string(),
        system_info: BenchmarkSystemInfo {
            cpus: vec!["cpu0".to_string()],
            gpus: vec!["gpu0".to_string(), "gpu1".to_string()],
        },
        results: BenchmarkResult {
            raw,
            computed: BenchmarkComputations {
                mean: DurationSample::from_micros(8693),
                median: DurationSample::from_micros(8629),
                variance: DurationSample::from_micros(0),
                min: DurationSample::from_micros(8592),
                max: DurationSample::from_micros(8858),
            },
            git_hash: "02d37011ab4dc773286e5983c09cde61f95ba4b5".to_string(),
            name: "unary".to_string(),
            options: None,
            shapes: vec![vec![32, 512, 1024]],
            timestamp: 1710208069697,
        },
    }
}

#[test]
fn get_benchmark_result() {
    let sample_result = r#"{
            "backend": "candle",
            "device": "Cuda(0)",
            "gitHash": "02d37011ab4dc773286e5983c09cde61f95ba4b5",
            "feature": "wgpu-fusion",
            "name": "unary",
            "max": 8858,
            "mean": 8629,
            "median": 8592,
            "min": 8506,
            "numSamples": 10,
            "options": null,
            "rawDurations": [
                {
                    "secs": 0,
                    "nanos": 8858583
                },
                {
                    "secs": 0,
                    "nanos": 8719822
                },
                {
                    "secs": 0,
                    "nanos": 8705335
                },
                {
                    "secs": 0,
                    "nanos": 8835636
                },
                {
                    "secs": 0,
                    "nanos": 8592507
                },
                {
                    "secs": 0,
                    "nanos": 8506423
                },
                {
                    "secs": 0,
                    "nanos": 8534337
                },
                {
                    "secs": 0,
                    "nanos": 8506627
                },
                {
                    "secs": 0,
                    "nanos": 8521615
                },
                {
                    "secs": 0,
                    "nanos": 8511474
                }
            ],
            "shapes": [
                [
                    32,
                    512,
                    1024
                ]
            ],
            "timestamp": 1710208069697,
            "variance": 0
        }"#;
    let flat = flat_from_str(sample_result);
    let record = decode_record(&flat).unwrap();
    assert!(record.backend == "candle");
    assert!(record.device == "Cuda(0)");
    assert!(record.feature == "wgpu-fusion");
    assert!(record.results.git_hash == "02d37011ab4dc773286e5983c09cde61f95ba4b5");
    assert!(record.results.name == "unary");
    assert!(record.results.computed.max.as_micros() == 8858);
    assert!(record.results.computed.mean.as_micros() == 8629);
    assert!(record.results.computed.median.as_micros() == 8592);
    assert!(record.results.computed.min.as_micros() == 8506);
    assert!(record.results.options.is_none());
    assert!(record.results.shapes == vec![vec![32, 512, 1024]]);
    assert!(record.results.timestamp == 1710208069697);
    assert!(record.results.computed.variance.as_micros() == 0);

    assert!(record.results.raw.durations[0] == DurationSample::from_nanos(8858583));
    assert!(record.results.raw.durations[1] == DurationSample::from_nanos(8719822));
    assert!(record.results.raw.durations[2] == DurationSample::from_nanos(8705335));
    assert!(record.results.raw.durations[3] == DurationSample::from_nanos(8835636));
    assert!(record.results.raw.durations[4] == DurationSample::from_nanos(8592507));
    assert!(record.results.raw.durations[5] == DurationSample::from_nanos(8506423));
    assert!(record.results.raw.durations[6] == DurationSample::from_nanos(8534337));
    assert!(record.results.raw.durations[7] == DurationSample::from_nanos(8506627));
    assert!(record.results.raw.durations[8] == DurationSample::from_nanos(8521615));
    assert!(record.results.raw.durations[9] == DurationSample::from_nanos(8511474));
}

#[test]
fn round_trip_record() {
    let record = sample_record();
    let flat = encode_record(&record);
    let decoded = decode_record(&flat).unwrap();
    assert_eq!(decoded, record);
}

#[test]
fn encode_regenerates_num_samples() {
    let record = sample_record();
    let mut flat = encode_record(&record);
    // Overwrite numSamples with a count that disagrees with rawDurations:
    // the decoder discards it, and the next encode regenerates it.
    for pair in flat.iter_mut() {
        if pair.0 == "numSamples" {
            pair.1 = JsonValue::Nat(99);
        }
    }
    let decoded = decode_record(&flat).unwrap();
    assert_eq!(decoded.results.raw.durations.len(), 3);
    let encoded_again = encode_record(&decoded);
    let mut found = false;
    for pair in encoded_again.iter() {
        if pair.0 == "numSamples" {
            found = true;
            assert!(matches!(pair.1, JsonValue::Nat(3)));
        }
    }
    assert!(found);
}

#[test]
fn encode_key_order_matches_schema() {
    let record = sample_record();
    let flat = encode_record(&record);
    let keys: Vec<&str> = flat.iter().map(|p| p.0.as_str()).collect();
    assert_eq!(
        keys,
        vec![
            "backend",
            "device",
            "feature",
            "gitHash",
            "burnVersion",
            "max",
            "mean",
            "median",
            "min",
            "name",
            "numSamples",
            "options",
            "rawDurations",
            "systemInfo",
            "shapes",
            "timestamp",
            "variance",
        ]
    );
}

#[test]
fn decode_rejects_unknown_key() {
    let flat = flat_from_str(r#"{"backend": "candle", "operation": "matmul"}"#);
    assert!(decode_record(&flat).is_err());
}

#[test]
fn decode_rejects_wrong_shape() {
    let flat = flat_from_str(r#"{"backend": 3}"#);
    assert!(decode_record(&flat).is_err());
    let flat = flat_from_str(r#"{"numSamples": "ten"}"#);
    assert!(decode_record(&flat).is_err());
    let flat = flat_from_str(r#"{"timestamp": -5}"#);
    assert!(decode_record(&flat).is_err());
    let flat = flat_from_str(r#"{"rawDurations": [{"secs": 0, "nanos": 1, "extra": 2}]}"#);
    assert!(decode_record(&flat).is_err());
    let flat = flat_from_str(r#"{"shapes": [["a"]]}"#);
    assert!(decode_record(&flat).is_err());
}

#[test]
fn decode_accepts_options_string() {
    let flat = flat_from_str(r#"{"options": "fused"}"#);
    let record = decode_record(&flat).unwrap();
    assert_eq!(record.results.options, Some("fused".to_string()));
}

#[test]
fn decode_later_key_overwrites_earlier() {
    let flat = vec![
        ("backend".to_string(), JsonValue::Str("candle".to_string())),
        ("backend".to_string(), JsonValue::Str("wgpu".to_string())),
    ];
    let record = decode_record(&flat).unwrap();
    assert_eq!(record.backend, "wgpu");
}

#[test]
fn decode_sysinfo_tolerates_unknown_keys_but_requires_both_lists() {
    let flat = flat_from_str(
        r#"{"systemInfo": {"cpus": ["c"], "vendor": "x", "gpus": ["g"]}}"#,
    );
    let record = decode_record(&flat).unwrap();
    assert_eq!(record.system_info.cpus, vec!["c".to_string()]);
    assert_eq!(record.system_info.gpus, vec!["g".to_string()]);

    let flat = flat_from_str(r#"{"systemInfo": {"cpus": ["c"]}}"#);
    assert!(decode_record(&flat).is_err());
    let flat = flat_from_str(r#"{"systemInfo": {"cpus": ["c"], "gpus": [3]}}"#);
    assert!(decode_record(&flat).is_err());
}

#[test]
fn decode_duration_pair_in_either_order() {
    let flat = flat_from_str(r#"{"rawDurations": [{"nanos": 5, "secs": 1}]}"#);
    let record = decode_record(&flat).unwrap();
    assert_eq!(record.results.raw.durations[0], DurationSample::new(1, 5));

    let flat = flat_from_str(r#"{"rawDurations": [{"secs": 1}]}"#);
    assert!(decode_record(&flat).is_err());
    // A JSON parser may collapse duplicate keys, so build the duplicate
    // directly: the decoder rejects a repeated field.
    let dup = JsonValue::Obj(vec![
        ("secs".to_string(), JsonValue::Nat(1)),
        ("nanos".to_string(), JsonValue::Nat(2)),
        ("secs".to_string(), JsonValue::Nat(3)),
    ]);
    let flat = vec![("rawDurations".to_string(), JsonValue::Arr(vec![dup]))];
    assert!(decode_record(&flat).is_err());
}
