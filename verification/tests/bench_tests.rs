//! Benchmark engine behavior: classification, ranking, prefix stripping.

use cmirror::bench::{benchmark, probe_result, rank_results, strip_probe_prefix, ProbeOutcome};
use cmirror::types::{BenchmarkResult, Mirror, SENTINEL_UNREACHABLE};

#[test]
fn probe_outcomes_classify() {
    let m = Mirror::new("A", "https://a.test");
    let r = probe_result(m.clone(), ProbeOutcome::Response { success: true, elapsed_ms: 123 });
    assert_eq!(r.latency_ms, 123);
    assert_eq!(r.mirror.name, "A");

    // a response with a non-success status counts as unreachable
    let r = probe_result(m.clone(), ProbeOutcome::Response { success: false, elapsed_ms: 5 });
    assert_eq!(r.latency_ms, SENTINEL_UNREACHABLE);

    let r = probe_result(m, ProbeOutcome::Failure);
    assert_eq!(r.latency_ms, SENTINEL_UNREACHABLE);
}

#[test]
fn benchmark_three_candidates_ranked() {
    // one reachable in 50ms, one timing out, one reachable in 10ms
    let mirrors = vec![
        Mirror::new("Official", "https://a.test"),
        Mirror::new("Mirror1", "https://b.test"),
        Mirror::new("Mirror2", "https://c.test"),
    ];
    let outcomes = vec![
        ProbeOutcome::Response { success: true, elapsed_ms: 50 },
        ProbeOutcome::Failure,
        ProbeOutcome::Response { success: true, elapsed_ms: 10 },
    ];
    let ranked = benchmark(mirrors, outcomes);
    assert_eq!(ranked.len(), 3);
    assert_eq!(ranked[0].mirror.name, "Mirror2");
    assert_eq!(ranked[0].latency_ms, 10);
    assert_eq!(ranked[1].mirror.name, "Official");
    assert_eq!(ranked[1].latency_ms, 50);
    assert_eq!(ranked[2].mirror.name, "Mirror1");
    assert_eq!(ranked[2].latency_ms, SENTINEL_UNREACHABLE);
}

#[test]
fn benchmark_empty_candidates() {
    // an empty candidate set yields an empty ranking, not an error
    let ranked = benchmark(Vec::new(), Vec::new());
    assert!(ranked.is_empty());
}

#[test]
fn benchmark_keeps_every_probe() {
    // equal latencies and duplicates are all kept
    let mirrors = vec![
        Mirror::new("A", "https://a.test"),
        Mirror::new("B", "https://b.test"),
        Mirror::new("C", "https://c.test"),
        Mirror::new("D", "https://d.test"),
    ];
    let outcomes = vec![
        ProbeOutcome::Failure,
        ProbeOutcome::Response { success: true, elapsed_ms: 7 },
        ProbeOutcome::Response { success: true, elapsed_ms: 7 },
        ProbeOutcome::Failure,
    ];
    let ranked = benchmark(mirrors, outcomes);
    assert_eq!(ranked.len(), 4);
    assert_eq!(ranked[0].latency_ms, 7);
    assert_eq!(ranked[1].latency_ms, 7);
    assert_eq!(ranked[2].latency_ms, SENTINEL_UNREACHABLE);
    assert_eq!(ranked[3].latency_ms, SENTINEL_UNREACHABLE);
}

#[test]
fn rank_results_sorts_ascending() {
    let rs = vec![
        BenchmarkResult { mirror: Mirror::new("x", "u"), latency_ms: 900 },
        BenchmarkResult { mirror: Mirror::new("y", "v"), latency_ms: 3 },
        BenchmarkResult { mirror: Mirror::new("z", "w"), latency_ms: 40 },
    ];
    let ranked = rank_results(rs);
    assert_eq!(ranked.iter().map(|r| r.latency_ms).collect::<Vec<_>>(), vec![3, 40, 900]);
}

#[test]
fn probe_prefixes_are_stripped() {
    assert_eq!(strip_probe_prefix("sparse+https://x.test/index"), "https://x.test/index");
    assert_eq!(strip_probe_prefix("git+ssh://host/repo"), "ssh://host/repo");
    // repeated prefixes are all removed, like trim-start-matches
    assert_eq!(strip_probe_prefix("sparse+sparse+git+https://y"), "https://y");
    assert_eq!(strip_probe_prefix("https://plain.test"), "https://plain.test");
    assert_eq!(strip_probe_prefix(""), "");
}

#[test]
fn pick_fastest_takes_best_reachable() {
    let mirrors = vec![
        Mirror::new("Official", "https://a.test"),
        Mirror::new("Mirror2", "https://c.test"),
    ];
    let outcomes = vec![
        ProbeOutcome::Response { success: true, elapsed_ms: 50 },
        ProbeOutcome::Response { success: true, elapsed_ms: 10 },
    ];
    let ranked = cmirror::bench::benchmark(mirrors, outcomes);
    let best = cmirror::bench::pick_fastest(ranked).unwrap();
    assert_eq!(best.mirror.name, "Mirror2");
    assert_eq!(best.latency_ms, 10);
}

#[test]
fn pick_fastest_fails_when_all_unreachable() {
    let mirrors = vec![Mirror::new("A", "https://a.test"), Mirror::new("B", "https://b.test")];
    let outcomes = vec![ProbeOutcome::Failure, ProbeOutcome::Failure];
    let ranked = cmirror::bench::benchmark(mirrors, outcomes);
    let err = cmirror::bench::pick_fastest(ranked).unwrap_err();
    assert_eq!(err.message(), "All mirrors timed out. Please check your network connection.");
    // an empty candidate set fails the same way rather than picking anything
    let err = cmirror::bench::pick_fastest(Vec::new()).unwrap_err();
    assert_eq!(err.message(), "All mirrors timed out. Please check your network connection.");
}
