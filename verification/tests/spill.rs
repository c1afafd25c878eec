//! Grouping beyond memory.
use nodedb_data::maps::{TextKey, VecMap};
use nodedb_data::spill::{GroupBySpiller, GroupState, MemoryAnswer, Run, Tally};
use std::collections::HashMap;

const STATE_BYTES: usize = 64;

fn run_groups(cap: usize, groups: &[(String, i64)]) -> (u64, HashMap<String, Tally>) {
    let mut spiller: GroupBySpiller<Tally> = GroupBySpiller::new(cap, STATE_BYTES);
    let mut runs: Vec<Run<Tally>> = Vec::new();
    for (key, value) in groups {
        if let Some(run) = spiller.feed(key.clone(), Tally::of(*value), MemoryAnswer::Ungoverned) {
            runs.push(run);
        }
    }
    let spilled = spiller.spilled_runs();
    (spilled, to_map(spiller.finalize(runs)))
}

fn to_map(result: VecMap<TextKey, Tally>) -> HashMap<String, Tally> {
    result.into_entries().into_iter().map(|(k, s)| (k.0, s)).collect()
}

fn reference(groups: &[(String, i64)]) -> HashMap<String, Tally> {
    let mut out: HashMap<String, Tally> = HashMap::new();
    for (key, v) in groups {
        let t = out.entry(key.clone()).or_insert(Tally { count: 0, min: i64::MAX, max: i64::MIN });
        t.count += 1;
        t.min = t.min.min(*v);
        t.max = t.max.max(*v);
    }
    out
}

#[test]
fn every_charged_increment_stays_reserved_for_the_run() {
    let mut spiller: GroupBySpiller<Tally> = GroupBySpiller::new(1_000_000, STATE_BYTES);
    let before = spiller.reserved_bytes();
    assert_eq!(before, 0);
    for i in 0..20_000u32 {
        spiller.feed(format!("k{i}"), Tally::of(1), MemoryAnswer::Granted);
    }
    assert_eq!(
        spiller.reservations().len(),
        2,
        "each charge must add a token instead of replacing the last one"
    );
    assert_eq!(
        spiller.reservations().iter().sum::<usize>(),
        spiller.reserved_bytes(),
        "the governor must hold every charged byte the map still owns"
    );
    assert!(
        spiller.reserved_bytes() >= spiller.bytes_estimate() / 2,
        "charges must track the map's footprint, not a fixed slice of it"
    );
}

#[test]
fn roundtrip_no_spill() {
    let groups: Vec<(String, i64)> = (0..50).map(|i| (format!("g{}", i % 5), i)).collect();
    let (spilled, got) = run_groups(1000, &groups);
    assert_eq!(spilled, 0, "no spill expected");
    let expected = reference(&groups);
    assert_eq!(got.len(), expected.len());
    for (k, e) in &expected {
        assert_eq!(got.get(k).expect("key missing").count, e.count, "count mismatch for key {k}");
    }
}

#[test]
fn single_spill_run() {
    let groups: Vec<(String, i64)> = (0..6).map(|i| (format!("g{i}"), i)).collect();
    let (spilled, got) = run_groups(5, &groups);
    assert!(spilled >= 1, "expected at least one spill run");
    assert_eq!(got.len(), 6, "all 6 unique groups must survive spill+merge");
}

#[test]
fn many_spill_runs() {
    let groups: Vec<(String, i64)> = (0..50).map(|i| (format!("g{i}"), i)).collect();
    let (spilled, got) = run_groups(10, &groups);
    assert!(spilled >= 4, "expected multiple spill runs");
    assert_eq!(got.len(), 50, "all 50 groups must be present");
}

#[test]
fn spill_preserves_counts() {
    let groups: Vec<(String, i64)> = (0..30).map(|i| (format!("g{}", i % 3), i)).collect();
    let (_, got) = run_groups(2, &groups);
    for (k, e) in &reference(&groups) {
        assert_eq!(got.get(k).expect("key missing").count, e.count, "count mismatch for key {k}");
    }
}

#[test]
fn merge_correctness_count() {
    let groups: Vec<(String, i64)> = (0..20).map(|i| (format!("g{}", i % 4), i)).collect();
    let (_, got) = run_groups(2, &groups);
    let counts: HashMap<String, u64> = got.into_iter().map(|(k, t)| (k, t.count)).collect();
    let expected: HashMap<String, u64> =
        reference(&groups).into_iter().map(|(k, t)| (k, t.count)).collect();
    assert_eq!(counts, expected);
}

#[test]
fn merge_correctness_min_max() {
    let groups: Vec<(String, i64)> = (0..20).map(|i| (format!("g{}", i % 4), i)).collect();
    let (_, got) = run_groups(2, &groups);
    let bounds: HashMap<String, (i64, i64)> =
        got.into_iter().map(|(k, t)| (k, (t.min, t.max))).collect();
    let expected: HashMap<String, (i64, i64)> =
        reference(&groups).into_iter().map(|(k, t)| (k, (t.min, t.max))).collect();
    assert_eq!(bounds, expected);
    assert_eq!(bounds["g3"], (3, 19));
}

#[test]
fn a_denied_request_spills_what_is_held() {
    let mut spiller: GroupBySpiller<Tally> = GroupBySpiller::new(1_000_000, STATE_BYTES);
    let mut runs: Vec<Run<Tally>> = Vec::new();
    for i in 0..10_000u32 {
        if let Some(run) = spiller.feed(format!("k{}", i % 7), Tally::of(1), MemoryAnswer::Denied) {
            runs.push(run);
        }
    }
    assert_eq!(runs.len(), 1);
    assert_eq!(spiller.spilled_runs(), 1);
    let total: u64 = to_map(spiller.finalize(runs)).values().map(|t| t.count).sum();
    assert_eq!(total, 10_000);
}

/// Sum, count and squared deviations of floats.
struct Moments {
    count: f64,
    sum: f64,
    squares: f64,
}

impl GroupState for Moments {
    /// Stands in proofs alone.
    fn merged(_: Self, _: Self) -> Self {
        unreachable!()
    }

    /// Stands in proofs alone.
    fn associative(_: Self, _: Self, _: Self) {}

    fn merge_from(self, other: Self) -> Self {
        let count = self.count + other.count;
        let gap = other.sum / other.count - self.sum / self.count;
        Moments {
            count,
            sum: self.sum + other.sum,
            squares: self.squares + other.squares + gap * gap * self.count * other.count / count,
        }
    }
}

fn moments(cap: usize, groups: &[(String, i64)]) -> HashMap<String, Moments> {
    let mut spiller: GroupBySpiller<Moments> = GroupBySpiller::new(cap, STATE_BYTES);
    let mut runs: Vec<Run<Moments>> = Vec::new();
    for (key, value) in groups {
        let item = Moments { count: 1.0, sum: *value as f64, squares: 0.0 };
        if let Some(run) = spiller.feed(key.clone(), item, MemoryAnswer::Ungoverned) {
            runs.push(run);
        }
    }
    spiller.finalize(runs).into_entries().into_iter().map(|(k, s)| (k.0, s)).collect()
}

fn values_of(groups: &[(String, i64)], key: &str) -> Vec<f64> {
    groups.iter().filter(|(k, _)| k == key).map(|(_, v)| *v as f64).collect()
}

#[test]
fn merge_correctness_sum_avg() {
    let groups: Vec<(String, i64)> = (0..24).map(|i| (format!("g{}", i % 4), i)).collect();
    let got = moments(2, &groups);
    assert_eq!(got.len(), 4);
    for (k, m) in &got {
        let values = values_of(&groups, k);
        let sum: f64 = values.iter().sum();
        let avg = sum / values.len() as f64;
        assert!((m.sum - sum).abs() < 1e-6, "sum mismatch for key {k}");
        assert!((m.sum / m.count - avg).abs() < 1e-6, "avg mismatch for key {k}");
    }
}

#[test]
fn merge_correctness_welford_variance() {
    let groups: Vec<(String, i64)> = (1..=20i64).map(|i| ("all".to_string(), i)).collect();
    let got = moments(2, &groups);
    let values = values_of(&groups, "all");
    let n = values.len() as f64;
    let mean = values.iter().sum::<f64>() / n;
    let expected = values.iter().map(|v| (v - mean) * (v - mean)).sum::<f64>() / n;
    let variance = got["all"].squares / got["all"].count;
    let rel = (expected - variance).abs() / expected.abs().max(1e-12);
    assert!(rel < 1e-6, "Welford variance: expected {expected}, got {variance}");
}
