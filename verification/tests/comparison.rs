use longctx::benchmark::{
    BenchmarkResult, ErrorKind, Grader, ProviderConfig, ProviderRequestStyle, TestCase,
    SCHEMA_VERSION,
};
use longctx::compare::compare_results;
use longctx::report::summary_counts;
use longctx::runner::unsent_result;

fn s(x: &str) -> String {
    x.to_string()
}

fn result_line_with_metrics(id: &str, passed: bool, latency_ms: u64, input_tokens: u64, output_tokens: u64) -> BenchmarkResult {
    let test = TestCase {
        schema_version: SCHEMA_VERSION,
        id: s(id),
        context: s("c"),
        question: s("q"),
        expected: vec![s("A")],
        grader: Grader::Exact,
        metadata: vec![(s("suite"), s("needle"))],
    };
    let provider = ProviderConfig {
        base_url: s("https://api.openai.com/v1"),
        api_key_env: s("OPENAI_API_KEY"),
        model: s("gpt-4.1"),
        request_style: ProviderRequestStyle::ChatCompletions,
    };
    let mut r = unsent_result(&test, &provider, ErrorKind::Http, s("boom"), None, latency_ms);
    r.passed = passed;
    r.attempts = 1;
    r.input_tokens = input_tokens;
    r.output_tokens = output_tokens;
    r.http_status = Some(if passed { 200 } else { 500 });
    r.request_id = Some(s("req_test"));
    r.answer = Some(s("A"));
    if passed {
        r.error = None;
        r.error_kind = None;
    }
    r
}

fn result_line(id: &str, passed: bool) -> BenchmarkResult {
    result_line_with_metrics(id, passed, 10, 100, 5)
}

#[test]
fn compare_detects_improvements_and_regressions() {
    let baseline = vec![result_line("a", false), result_line("b", true)];
    let candidate = vec![result_line("a", true), result_line("c", true)];
    let summary = compare_results(&baseline, &candidate).unwrap();
    assert_eq!(summary.baseline_total, 2);
    assert_eq!(summary.candidate_total, 2);
    assert_eq!(summary.common_total, 1);
    assert_eq!(summary.improved_ids, vec!["a"]);
    assert_eq!(summary.regressed_ids, Vec::<String>::new());
    assert_eq!(summary.added_ids, vec!["c"]);
    assert_eq!(summary.removed_ids, vec!["b"]);
}

#[test]
fn compare_reports_average_metric_deltas() {
    let baseline = vec![
        result_line_with_metrics("a", true, 10, 100, 5),
        result_line_with_metrics("b", true, 20, 120, 10),
    ];
    let candidate = vec![
        result_line_with_metrics("a", true, 20, 90, 7),
        result_line_with_metrics("b", true, 30, 110, 12),
    ];
    let summary = compare_results(&baseline, &candidate).unwrap();
    assert_eq!(summary.avg_latency_delta_ms, 10);
    assert_eq!(summary.avg_input_tokens_delta, -10);
    assert_eq!(summary.avg_output_tokens_delta, 2);
}

#[test]
fn compare_handles_empty_files() {
    let summary = compare_results(&vec![], &vec![]).unwrap();
    assert_eq!(summary.baseline_total, 0);
    assert_eq!(summary.candidate_total, 0);
    assert_eq!(summary.common_total, 0);
    assert_eq!(summary.avg_latency_delta_ms, 0);
}

#[test]
fn compare_handles_no_common_ids() {
    let summary = compare_results(&vec![result_line("a", true)], &vec![result_line("b", true)]).unwrap();
    assert_eq!(summary.common_total, 0);
    assert!(summary.improved_ids.is_empty());
    assert!(summary.regressed_ids.is_empty());
    assert_eq!(summary.added_ids, vec!["b"]);
    assert_eq!(summary.removed_ids, vec!["a"]);
}

#[test]
fn compare_rejects_duplicate_result_ids() {
    let err = compare_results(&vec![result_line("a", true), result_line("a", false)], &vec![])
        .err()
        .unwrap();
    assert_eq!(err, "duplicate result id in baseline results: a");
    let err = compare_results(&vec![], &vec![result_line("z", true), result_line("z", true)])
        .err()
        .unwrap();
    assert_eq!(err, "duplicate result id in candidate results: z");
}

#[test]
fn compare_renders_counts_and_ids() {
    let summary = compare_results(&vec![result_line("a", false)], &vec![result_line("a", true)]).unwrap();
    let text = summary.render();
    assert!(text.contains("improved: 1"));
}

#[test]
fn summary_json_includes_aggregates() {
    let mut a = result_line_with_metrics("a", true, 10, 100, 5);
    a.token_count = Some(100000);
    let mut b = result_line_with_metrics("b", false, 20, 110, 0);
    b.token_count = Some(100000);
    let counts = summary_counts(&vec![a, b]);
    assert_eq!(counts.total, 2);
    assert_eq!(counts.passed, 1);
    assert_eq!(counts.suites.len(), 1);
    assert_eq!(counts.token_counts.len(), 1);
    assert_eq!(counts.failure_groups[0].label, "Http");
    assert_eq!(counts.avg_latency_ms, 15);
}

#[test]
fn empty_results_have_zero_counts() {
    let counts = summary_counts(&vec![]);
    assert_eq!(counts.total, 0);
    assert_eq!(counts.passed, 0);
    assert_eq!(counts.avg_latency_ms, 0);
    assert!(counts.suites.is_empty());
    assert!(counts.failure_groups.is_empty());
}

#[test]
fn swapping_baseline_and_candidate_swaps_classes_and_negates_deltas() {
    let baseline = vec![
        result_line_with_metrics("a", false, 10, 100, 5),
        result_line_with_metrics("b", true, 20, 120, 10),
        result_line_with_metrics("c", true, 5, 50, 1),
    ];
    let candidate = vec![
        result_line_with_metrics("b", false, 31, 110, 12),
        result_line_with_metrics("a", true, 20, 90, 7),
        result_line_with_metrics("d", true, 1, 1, 1),
    ];
    let s1 = compare_results(&baseline, &candidate).unwrap();
    let s2 = compare_results(&candidate, &baseline).unwrap();
    assert_eq!(s1.improved_ids, s2.regressed_ids);
    assert_eq!(s1.regressed_ids, s2.improved_ids);
    assert_eq!(s1.added_ids, s2.removed_ids);
    assert_eq!(s1.removed_ids, s2.added_ids);
    assert_eq!(s1.common_total, s2.common_total);
    assert_eq!(s1.avg_latency_delta_ms, 10);
    assert_eq!(s2.avg_latency_delta_ms, -10);
    assert_eq!(s1.avg_input_tokens_delta, -s2.avg_input_tokens_delta);
    assert_eq!(s1.avg_output_tokens_delta, -s2.avg_output_tokens_delta);
}

#[test]
fn compare_names_the_first_repeated_id() {
    let baseline = vec![result_line("a", true), result_line("b", true), result_line("b", true), result_line("a", true)];
    let err = compare_results(&baseline, &vec![]).err().unwrap();
    assert_eq!(err, "duplicate result id in baseline results: b");
}

#[test]
fn compare_refuses_rows_with_a_newer_schema() {
    let mut newer = result_line("b", true);
    newer.schema_version = 2;
    let err = compare_results(&vec![result_line("a", true)], &vec![result_line("a", true), newer]).err().unwrap();
    assert_eq!(err, "results file schema_version 2 on line 2 is newer than supported schema_version 1");
}
