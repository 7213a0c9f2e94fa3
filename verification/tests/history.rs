use offload::history::jsonl::{
    in_save_order, load_records, record_lines, save_order, CompactSample, TestRecord, TestValues,
};
use offload::history::merge::{
    count_shared_samples, merge_history_files, merge_records, overlaps,
};
use offload::history::reservoir::{
    KeyRow, Sample, SampleKeys, WeightedReservoir, ZERO_DURATION,
};
use offload::history::rounding::percentile_index;
use offload::history::store::{compute_percentiles, percentile, JsonlHistoryStore};
use offload::history::{ExpectedDuration, HistoryError, TestAttemptResult, TestHistoryStore};
use rand::rngs::StdRng;
use rand::{RngExt, SeedableRng};

fn key(timestamp_ms: u64, rank: usize) -> u64 {
    let weight = (-0.1 * rank as f64).exp();
    let mut rng = StdRng::seed_from_u64(timestamp_ms);
    let r: f64 = rng.random();
    r.powf(1.0 / weight).to_bits()
}

fn keys(timestamps: &[u64], ranks: usize) -> SampleKeys {
    SampleKeys {
        rows: timestamps
            .iter()
            .map(|t| KeyRow {
                timestamp_ms: *t,
                keys: (0..ranks).map(|rank| key(*t, rank)).collect(),
            })
            .collect(),
    }
}

fn no_keys() -> SampleKeys {
    SampleKeys { rows: Vec::new() }
}

fn ordered(secs: f64) -> u64 {
    let bits = secs.to_bits();
    if secs.is_sign_negative() {
        !bits
    } else {
        bits | ZERO_DURATION
    }
}

fn sample(run_id: &str, timestamp_ms: u64, secs: f64) -> Sample {
    Sample { run_id: run_id.to_string(), timestamp_ms, duration: ordered(secs) }
}

#[test]
fn test_insert_under_capacity() {
    let mut reservoir = WeightedReservoir::with_capacity(5);
    reservoir.insert(sample("a", 1000, 1.0), &no_keys());
    reservoir.insert(sample("b", 2000, 2.0), &no_keys());
    assert_eq!(reservoir.samples().len(), 2);
}

#[test]
fn test_insert_at_capacity() {
    let table = keys(&[0, 1000, 2000, 3000, 4000], 4);
    let mut reservoir = WeightedReservoir::with_capacity(3);
    for i in 0..5 {
        reservoir.insert(sample(&format!("run{}", i), i as u64 * 1000, 1.0), &table);
    }
    assert_eq!(reservoir.samples().len(), 3);
}

#[test]
fn test_deterministic_keys() {
    let table = keys(&[12345], 1);
    let again = keys(&[12345], 1);
    assert_eq!(table.key(12345, 0), again.key(12345, 0));
    assert_eq!(table.key(12345, 0), key(12345, 0));
    assert_eq!(table.key(1, 0), 0);
}

#[test]
fn test_merge_deduplication() {
    let table = no_keys();
    let mut r1 = WeightedReservoir::with_capacity(5);
    r1.insert(sample("a", 1000, 1.0), &table);
    r1.insert(sample("b", 2000, 2.0), &table);

    let mut r2 = WeightedReservoir::with_capacity(5);
    r2.insert(sample("a", 1000, 1.0), &table);
    r2.insert(sample("c", 3000, 3.0), &table);

    r1.merge(&r2, &table);
    assert_eq!(r1.samples().len(), 3);
}

#[test]
fn test_newest_timestamp() {
    let table = no_keys();
    let mut reservoir = WeightedReservoir::with_capacity(5);
    reservoir.insert(sample("a", 1000, 1.0), &table);
    reservoir.insert(sample("b", 3000, 2.0), &table);
    reservoir.insert(sample("c", 2000, 3.0), &table);
    assert_eq!(reservoir.newest_timestamp(), Some(3000));
}

#[test]
fn test_empty_reservoir() {
    let reservoir = WeightedReservoir::new();
    assert!(reservoir.samples().is_empty());
    assert_eq!(reservoir.newest_timestamp(), None);
}

#[test]
fn test_merge_with_downsampling() {
    let table = keys(&[0, 1000, 2000, 3000, 4000, 5000], 6);
    let mut r1 = WeightedReservoir::with_capacity(3);
    for i in 0..3 {
        r1.insert(sample(&format!("r1_{}", i), i as u64 * 1000, 1.0), &table);
    }
    let mut r2 = WeightedReservoir::with_capacity(3);
    for i in 3..6 {
        r2.insert(sample(&format!("r2_{}", i), i as u64 * 1000, 1.0), &table);
    }
    r1.merge(&r2, &table);
    assert_eq!(r1.samples().len(), 3);
}

#[test]
fn test_temporal_bias() {
    let timestamps: Vec<u64> = (0..100u64).map(|i| i * 1000).collect();
    let table = keys(&timestamps, 6);
    let mut reservoir = WeightedReservoir::with_capacity(5);
    for i in 0..100u64 {
        reservoir.insert(sample(&format!("run{}", i), i * 1000, 1.0), &table);
    }

    let avg_timestamp: f64 = reservoir.samples().iter().map(|s| s.timestamp_ms as f64).sum::<f64>()
        / reservoir.samples().len() as f64;
    assert!(
        avg_timestamp > 50_000.0,
        "Expected bias toward recent samples (avg > 50000), but avg was {}",
        avg_timestamp
    );

    let max_timestamp = reservoir.samples().iter().map(|s| s.timestamp_ms).max().unwrap_or(0);
    assert!(
        max_timestamp >= 90_000,
        "Expected at least one sample from recent period, but max was {}",
        max_timestamp
    );
}

#[test]
fn the_sample_with_the_lowest_key_leaves() {
    let table = SampleKeys {
        rows: vec![
            KeyRow { timestamp_ms: 1, keys: vec![9, 9, 9] },
            KeyRow { timestamp_ms: 2, keys: vec![9, 3, 3] },
            KeyRow { timestamp_ms: 3, keys: vec![5, 5, 5] },
            KeyRow { timestamp_ms: 4, keys: vec![1, 1, 1] },
        ],
    };
    let mut reservoir = WeightedReservoir::with_capacity(2);
    reservoir.insert(sample("a", 1, 1.0), &table);
    reservoir.insert(sample("b", 2, 1.0), &table);
    reservoir.insert(sample("c", 3, 1.0), &table);
    let mut left: Vec<u64> = reservoir.samples().iter().map(|s| s.timestamp_ms).collect();
    left.sort();
    assert_eq!(left, vec![1, 3]);
    reservoir.insert(sample("d", 4, 1.0), &table);
    let mut left: Vec<u64> = reservoir.samples().iter().map(|s| s.timestamp_ms).collect();
    left.sort();
    assert_eq!(left, vec![1, 3]);
}

#[test]
fn a_merge_keeps_the_samples_with_the_highest_keys() {
    let table = SampleKeys {
        rows: vec![
            KeyRow { timestamp_ms: 1, keys: vec![7, 7, 7] },
            KeyRow { timestamp_ms: 2, keys: vec![2, 2, 2] },
            KeyRow { timestamp_ms: 3, keys: vec![5, 5, 5] },
        ],
    };
    let mut r1 = WeightedReservoir::with_capacity(2);
    r1.insert(sample("a", 1, 1.0), &table);
    r1.insert(sample("b", 2, 1.0), &table);
    let mut r2 = WeightedReservoir::with_capacity(2);
    r2.insert(sample("c", 3, 1.0), &table);
    r1.merge(&r2, &table);
    let left: Vec<u64> = r1.samples().iter().map(|s| s.timestamp_ms).collect();
    assert_eq!(left, vec![1, 3]);
}

fn make_sample(run_id: &str, timestamp_ms: u64, duration_secs: f64) -> CompactSample {
    CompactSample(run_id.to_string(), timestamp_ms, ordered(duration_secs))
}

fn make_record(
    config: &str,
    test_id: &str,
    attempts: u64,
    failures: u64,
    last_run: &str,
    ok: Vec<CompactSample>,
    fail: Vec<CompactSample>,
) -> TestRecord {
    TestRecord {
        key: (config.to_string(), test_id.to_string()),
        values: TestValues {
            total_attempts: attempts,
            total_failures: failures,
            last_run: last_run.to_string(),
            ok,
            fail,
        },
    }
}

fn merge(base: &Vec<TestRecord>, ours: &Vec<TestRecord>, theirs: &Vec<TestRecord>) -> Vec<TestRecord> {
    let shared: Vec<(u64, u64)> = overlaps(ours, theirs)
        .iter()
        .map(|o| {
            let ratio = if o.total > 0 { o.shared as f64 * 2.0 / o.total as f64 } else { 0.0 };
            ((ratio * o.attempts as f64) as u64, (ratio * o.failures as f64) as u64)
        })
        .collect();
    merge_records(base, ours, theirs, 20, &no_keys(), &shared)
}

fn find<'a>(records: &'a Vec<TestRecord>, id: &str) -> &'a TestRecord {
    records
        .iter()
        .find(|r| r.key == ("cfg".to_string(), id.to_string()))
        .expect("merged record should exist")
}

#[test]
fn test_merge_disjoint_tests() {
    let ours = vec![make_record("cfg", "test_a", 10, 1, "run1", vec![], vec![])];
    let theirs = vec![make_record("cfg", "test_b", 5, 0, "run2", vec![], vec![])];
    let merged = merge(&vec![], &ours, &theirs);
    assert_eq!(merged.len(), 2);
    assert!(merged.iter().any(|r| r.key == ("cfg".to_string(), "test_a".to_string())));
    assert!(merged.iter().any(|r| r.key == ("cfg".to_string(), "test_b".to_string())));
}

#[test]
fn test_merge_same_test_with_base() {
    let base = vec![make_record("cfg", "test", 10, 2, "run0", vec![], vec![])];
    let ours = vec![make_record("cfg", "test", 15, 3, "run1", vec![], vec![])];
    let theirs = vec![make_record("cfg", "test", 12, 4, "run2", vec![], vec![])];
    let merged = merge(&base, &ours, &theirs);
    let record = find(&merged, "test");
    assert_eq!(record.values.total_attempts, 17);
    assert_eq!(record.values.total_failures, 5);
}

#[test]
fn test_merge_same_test_no_base() {
    let ours = vec![make_record(
        "cfg",
        "test",
        10,
        2,
        "run1",
        vec![make_sample("run1", 1000, 1.0)],
        vec![],
    )];
    let theirs = vec![make_record(
        "cfg",
        "test",
        10,
        2,
        "run2",
        vec![make_sample("run2", 2000, 1.5)],
        vec![],
    )];
    let merged = merge(&vec![], &ours, &theirs);
    let record = find(&merged, "test");
    assert_eq!(record.values.total_attempts, 20);
    assert_eq!(record.values.total_failures, 4);
}

#[test]
fn test_merge_reservoir_deduplication() {
    let ours = vec![make_record(
        "cfg",
        "test",
        5,
        0,
        "run1",
        vec![make_sample("run1", 1000, 1.0), make_sample("run1", 2000, 1.1)],
        vec![],
    )];
    let theirs = vec![make_record(
        "cfg",
        "test",
        5,
        0,
        "run1",
        vec![make_sample("run1", 1000, 1.0), make_sample("run2", 3000, 1.2)],
        vec![],
    )];
    assert_eq!(count_shared_samples(&ours[0].values.ok, &theirs[0].values.ok), 1);
    let merged = merge(&vec![], &ours, &theirs);
    let record = find(&merged, "test");
    assert_eq!(record.values.ok.len(), 3);
    assert_eq!(record.values.total_attempts, 8);
}

#[test]
fn test_merge_picks_most_recent_last_run() {
    let ours = vec![make_record(
        "cfg",
        "test",
        5,
        0,
        "old_run",
        vec![make_sample("old_run", 1000, 1.0)],
        vec![],
    )];
    let theirs = vec![make_record(
        "cfg",
        "test",
        5,
        0,
        "new_run",
        vec![make_sample("new_run", 2000, 1.0)],
        vec![],
    )];
    let merged = merge(&vec![], &ours, &theirs);
    assert_eq!(find(&merged, "test").values.last_run, "new_run");
}

#[test]
fn test_merge_only_in_ours() {
    let ours = vec![make_record("cfg", "test", 10, 1, "run1", vec![], vec![])];
    let merged = merge(&vec![], &ours, &vec![]);
    assert_eq!(merged.len(), 1);
    assert_eq!(find(&merged, "test").values.total_attempts, 10);
}

#[test]
fn test_merge_only_in_theirs() {
    let theirs = vec![make_record("cfg", "test", 10, 1, "run1", vec![], vec![])];
    let merged = merge(&vec![], &vec![], &theirs);
    assert_eq!(merged.len(), 1);
    assert_eq!(find(&merged, "test").values.total_attempts, 10);
}

#[test]
fn records_are_saved_by_key_and_loaded_once() {
    let parsed = vec![
        make_record("cfg", "b", 1, 0, "r", vec![], vec![]),
        make_record("cfg", "a", 2, 0, "r", vec![], vec![]),
        make_record("cfg", "b", 3, 0, "r", vec![], vec![]),
    ];
    let records = load_records(&parsed);
    assert_eq!(records.len(), 2);
    assert_eq!(find(&records, "b").values.total_attempts, 3);
    let order = save_order(&records);
    let ids: Vec<&str> = order.iter().map(|i| records[*i].key.1.as_str()).collect();
    assert_eq!(ids, vec!["a", "b"]);
    assert_eq!(record_lines("x\n\n  \ny\n"), vec!["x", "y"]);
}

fn attempt(
    config: &str,
    test_id: &str,
    run_id: &str,
    passed: bool,
    secs: f64,
    timestamp_ms: u64,
) -> TestAttemptResult {
    TestAttemptResult {
        config: config.to_string(),
        test_id: test_id.to_string(),
        run_id: run_id.to_string(),
        passed,
        duration: ordered(secs),
        timestamp_ms,
    }
}

fn failure_rate(attempts: u64, failures: u64) -> f64 {
    failures as f64 / attempts as f64
}

#[test]
fn test_load_empty_file() {
    let store = JsonlHistoryStore::load("history.jsonl", &vec![], 20).unwrap();
    assert!(store.records.is_empty());
}

fn saved(records: &Vec<TestRecord>) -> Vec<Result<TestRecord, String>> {
    in_save_order(records).into_iter().map(Ok).collect()
}

#[test]
fn test_record_and_save() {
    let mut store = JsonlHistoryStore::new("history.jsonl", 20);
    store
        .record_results(&[attempt("test.toml", "test::foo", "abc", true, 1.5, 1000)], &no_keys())
        .unwrap();
    let store2 = JsonlHistoryStore::load("history.jsonl", &saved(&store.records), 20).unwrap();
    let stats = store2.get_stats("test.toml", "test::foo").expect("expected stats to exist");
    assert_eq!(stats.total_attempts, 1);
    assert_eq!(stats.total_failures, 0);
    assert_eq!(stats.last_attempt_ms, 1000);
    assert_eq!(stats.last_run_id, "abc");
}

#[test]
fn test_expected_duration_fallback() {
    let store = JsonlHistoryStore::new("history.jsonl", 20);
    let expected = store.expected_duration("config.toml", "unknown::test");
    assert!(matches!(expected, ExpectedDuration::Default));
}

#[test]
fn test_record_failure() {
    let mut store = JsonlHistoryStore::new("history.jsonl", 20);
    store
        .record_results(
            &[
                attempt("test.toml", "test::bar", "run1", true, 1.0, 1000),
                attempt("test.toml", "test::bar", "run2", false, 2.0, 2000),
            ],
            &no_keys(),
        )
        .unwrap();
    let stats = store.get_stats("test.toml", "test::bar").expect("expected stats to exist");
    assert_eq!(stats.total_attempts, 2);
    assert_eq!(stats.total_failures, 1);
    let rate = failure_rate(stats.total_attempts, stats.total_failures);
    assert!((rate - 0.5).abs() < f64::EPSILON);
}

#[test]
fn test_get_all_stats() {
    let mut store = JsonlHistoryStore::new("history.jsonl", 20);
    store
        .record_results(
            &[
                attempt("config1.toml", "test::a", "run1", true, 1.0, 1000),
                attempt("config1.toml", "test::b", "run1", true, 2.0, 1001),
                attempt("config2.toml", "test::c", "run1", true, 3.0, 1002),
            ],
            &no_keys(),
        )
        .unwrap();
    assert_eq!(store.get_all_stats("config1.toml").len(), 2);
    assert_eq!(store.get_all_stats("config2.toml").len(), 1);
    let slow = store.slowest_tests("config1.toml", 1);
    assert_eq!(slow.len(), 1);
    assert_eq!(slow[0].test_id, "test::b");
}

#[test]
fn test_flakiest_tests() {
    let mut store = JsonlHistoryStore::new("history.jsonl", 20);
    for i in 0..4 {
        store
            .record_results(
                &[
                    attempt(
                        "test.toml",
                        "test::flaky",
                        &format!("run{}", i),
                        i % 2 == 0,
                        1.0,
                        i as u64 * 1000,
                    ),
                    attempt(
                        "test.toml",
                        "test::stable",
                        &format!("run{}", i),
                        true,
                        1.0,
                        i as u64 * 1000 + 1,
                    ),
                ],
                &no_keys(),
            )
            .unwrap();
    }
    let flaky = store.flakiest_tests("test.toml", 10);
    assert_eq!(flaky.len(), 2);
    assert_eq!(flaky[0].test_id, "test::flaky");
    let rate = failure_rate(flaky[0].total_attempts, flaky[0].total_failures);
    assert!((rate - 0.5).abs() < f64::EPSILON);
}

#[test]
fn test_last_run_failures() {
    let mut store = JsonlHistoryStore::new("history.jsonl", 20);
    store
        .record_results(
            &[
                attempt("test.toml", "test::a", "run1", true, 1.0, 1000),
                attempt("test.toml", "test::b", "run1", false, 1.0, 1001),
            ],
            &no_keys(),
        )
        .unwrap();
    store
        .record_results(
            &[
                attempt("test.toml", "test::a", "run2", false, 1.0, 2000),
                attempt("test.toml", "test::b", "run2", true, 1.0, 2001),
            ],
            &no_keys(),
        )
        .unwrap();
    let failures = store.last_run_failures("test.toml");
    assert_eq!(failures.len(), 1);
    assert_eq!(failures[0], "test::a");
}

#[test]
fn percentiles_interpolate_by_rank() {
    let sorted: Vec<u64> = (1..=20).collect();
    let p50 = percentile(&sorted, 50);
    let p95 = percentile(&sorted, 95);
    assert!(p50 <= p95);
    assert!(sorted.contains(&p50) && sorted.contains(&p95));
    let samples: Vec<CompactSample> =
        (1..=20u64).map(|i| CompactSample("r".to_string(), i, 21 - i)).collect();
    let stats = compute_percentiles(&samples).unwrap();
    assert_eq!(stats.p50, p50);
    assert_eq!(stats.p95, p95);
    assert!(stats.p50 <= stats.p75 && stats.p75 <= stats.p90 && stats.p90 <= stats.p95);
    assert!(compute_percentiles(&vec![]).is_none());
}

#[test]
fn history_errors_speak() {
    assert_eq!(HistoryError::Io("x".to_string()).message(), "IO error: x");
    assert_eq!(HistoryError::Parse("x".to_string()).message(), "Parse error: x");
    assert_eq!(HistoryError::Disabled.message(), "History storage is disabled");
}

#[test]
fn expected_durations_come_for_every_test_of_a_configuration() {
    let mut store = JsonlHistoryStore::new("history.jsonl", 20);
    let many: Vec<TestAttemptResult> =
        (0..10u64).map(|i| attempt("c", "a", "r", true, 2.0, i)).collect();
    store.record_results(&many, &no_keys()).unwrap();
    let all = store.get_scheduling_durations("c");
    assert_eq!(all.len(), 1);
    assert_eq!(all[0].0, "a");
    match &all[0].1 {
        ExpectedDuration::Known { duration } => assert_eq!(*duration, ordered(2.0)),
        other => panic!("unexpected: {:?}", other),
    }
}

#[test]
fn a_malformed_line_is_an_error() {
    let lines = vec![
        Ok(make_record("cfg", "a", 1, 0, "r", vec![], vec![])),
        Err("bad line".to_string()),
        Err("worse line".to_string()),
    ];
    match JsonlHistoryStore::load("history.jsonl", &lines, 20) {
        Err(HistoryError::Parse(m)) => assert_eq!(m, "bad line"),
        other => panic!("unexpected: {:?}", other),
    }
}

#[test]
fn a_saved_history_answers_as_before() {
    let mut store = JsonlHistoryStore::new("history.jsonl", 3);
    for i in 0..6u64 {
        store
            .record_results(
                &[
                    attempt("c", "z", &format!("r{}", i), i % 2 == 0, 1.0, i),
                    attempt("c", "a", &format!("r{}", i), true, 2.0, i),
                ],
                &keys(&[0, 1, 2, 3, 4, 5], 8),
            )
            .unwrap();
    }
    let again = JsonlHistoryStore::load("history.jsonl", &saved(&store.records), 3).unwrap();
    assert_eq!(again.records[0].key.1, "a");
    for id in ["a", "z"] {
        let (x, y) = (store.get_stats("c", id).unwrap(), again.get_stats("c", id).unwrap());
        assert_eq!(x.total_attempts, y.total_attempts);
        assert_eq!(x.total_failures, y.total_failures);
        assert_eq!(x.last_attempt_ms, y.last_attempt_ms);
        assert_eq!(x.last_run_id, y.last_run_id);
    }
    assert!(again.get_stats("c", "m").is_none());
}

#[test]
fn recording_leaves_full_records_of_other_tests_alone() {
    let lines = vec![Ok(make_record("c", "full", u64::MAX, u64::MAX, "r0", vec![], vec![]))];
    let mut store = JsonlHistoryStore::load("history.jsonl", &lines, 20).unwrap();
    store
        .record_results(
            &[attempt("c", "a", "r1", false, 1.0, 1), attempt("c", "a", "r2", true, 1.0, 2)],
            &no_keys(),
        )
        .unwrap();
    let a = store.get_stats("c", "a").unwrap();
    assert_eq!((a.total_attempts, a.total_failures), (2, 1));
    assert_eq!(a.last_run_id, "r2");
    let full = store.get_stats("c", "full").unwrap();
    assert_eq!((full.total_attempts, full.total_failures), (u64::MAX, u64::MAX));
    assert_eq!(full.last_run_id, "r0");
}

#[test]
fn whole_files_are_merged_in_key_order() {
    let ours = vec![
        Ok(make_record("c", "z", 12, 1, "run1", vec![], vec![])),
        Ok(make_record("c", "b", 5, 0, "run1", vec![], vec![])),
    ];
    let theirs = vec![
        Ok(make_record("c", "a", 7, 2, "run2", vec![make_sample("s", 1, 1.0)], vec![])),
        Ok(make_record("c", "z", 11, 3, "run2", vec![], vec![])),
    ];
    let base = vec![
        Ok(make_record("c", "z", 10, 1, "run0", vec![], vec![])),
        Ok(make_record("c", "gone", 4, 0, "run0", vec![], vec![])),
    ];
    let shared = vec![(0, 0), (0, 0)];
    let merged = merge_history_files(&base, &ours, &theirs, 0, &no_keys(), &shared).unwrap();
    let rows: Vec<(&str, u64, u64)> = merged
        .iter()
        .map(|r| (r.key.1.as_str(), r.values.total_attempts, r.values.total_failures))
        .collect();
    assert_eq!(rows, vec![("a", 7, 2), ("b", 5, 0), ("z", 13, 3)]);
    assert_eq!(merged[0].values.ok.len(), 1);

    let torn = vec![Err("torn".to_string())];
    let merged = merge_history_files(&torn, &ours, &theirs, 0, &no_keys(), &shared).unwrap();
    assert_eq!(merged[2].values.total_attempts, 23);
    for (a, b) in [(&torn, &theirs), (&ours, &torn)] {
        match merge_history_files(&base, a, b, 0, &no_keys(), &shared) {
            Err(HistoryError::Parse(m)) => assert_eq!(m, "torn"),
            other => panic!("unexpected: {:?}", other),
        }
    }
}

#[test]
fn percentiles_beyond_the_last_are_the_last() {
    let sorted: Vec<u64> = (1..=20).collect();
    assert_eq!(percentile(&sorted, 100), 20);
    assert_eq!(percentile(&sorted, 250), 20);
    assert_eq!(percentile(&sorted, 0), 1);
}

#[test]
fn durations_below_zero_keep_their_order() {
    let mut store = JsonlHistoryStore::new("history.jsonl", 20);
    let early: Vec<TestAttemptResult> =
        (0..5u64).map(|i| attempt("c", "early", "r", true, -1.0, i)).collect();
    store.record_results(&early, &no_keys()).unwrap();
    let late: Vec<TestAttemptResult> =
        (0..5u64).map(|i| attempt("c", "late", "r", true, 3.0, i)).collect();
    store.record_results(&late, &no_keys()).unwrap();
    store.record_results(&[attempt("c", "failing", "r", false, 9.0, 9)], &no_keys()).unwrap();
    let slow = store.slowest_tests("c", 3);
    let ids: Vec<&str> = slow.iter().map(|s| s.test_id.as_str()).collect();
    assert_eq!(ids, vec!["late", "failing", "early"]);
}

#[test]
fn test_merge_history_files_roundtrip() {
    let ours = vec![Ok(make_record(
        "cfg",
        "test_a",
        10,
        1,
        "run1",
        vec![make_sample("run1", 1000, 1.0)],
        vec![],
    ))];
    let theirs = vec![Ok(make_record(
        "cfg",
        "test_b",
        5,
        0,
        "run2",
        vec![make_sample("run2", 2000, 1.5)],
        vec![],
    ))];
    let written =
        merge_history_files(&vec![], &ours, &theirs, 20, &no_keys(), &vec![(0, 0)]).unwrap();
    let merged = load_records(&written);
    assert_eq!(merged.len(), 2);
    assert!(merged.iter().any(|r| r.key == ("cfg".to_string(), "test_a".to_string())));
    assert!(merged.iter().any(|r| r.key == ("cfg".to_string(), "test_b".to_string())));
}

fn float_position(n: usize, p: usize) -> usize {
    let position = (p as f64 / 100.0 * (n - 1) as f64).round() as usize;
    position.min(n - 1)
}

#[test]
fn percentile_positions_are_those_of_doubles() {
    for n in 1..=400usize {
        for p in 0..=220usize {
            assert_eq!(percentile_index(n, p), float_position(n, p), "{p} of {n}");
        }
    }
    assert_eq!(percentile_index(51, 29), 14);
    let large = [
        1usize << 20,
        (1 << 33) - 1,
        (1 << 52) + 3,
        (1 << 53) + 2,
        (1 << 53) + 4,
        (1 << 60) + 77,
        usize::MAX - 1023,
        usize::MAX,
    ];
    for n in large {
        for p in [0, 1, 2, 3, 7, 29, 50, 57, 75, 90, 95, 99, 100, 101, 255, 511, 512, 513, 1000] {
            assert_eq!(percentile_index(n, p), float_position(n, p), "{p} of {n}");
        }
        for p in [1 << 40, (1 << 53) + 1, usize::MAX - 1, usize::MAX] {
            assert_eq!(percentile_index(n, p), n - 1);
            assert_eq!(float_position(n, p), n - 1);
        }
    }
}
