use longctx::probe::{ProbeAttemptSummary, ProbeSummary};
use longctx::score::{build_score_summary, ScoreProfile};

fn s(x: &str) -> String {
    x.to_string()
}

fn attempt(tokens: u64, passed: bool) -> ProbeAttemptSummary {
    ProbeAttemptSummary {
        token_count: tokens,
        bench_dir: format!("/runs/needle-{tokens}"),
        passed,
        http_status: Some(if passed { 200 } else { 400 }),
        error_kind: if passed { None } else { Some(s("Http")) },
        attempts: 1,
        latency_ms: 100,
        input_tokens: tokens + 20,
        output_tokens: 3,
        answer: None,
        error: None,
    }
}

fn probe() -> ProbeSummary {
    ProbeSummary {
        run_dir: s("/runs/1"),
        provider_model: s("m<1>"),
        provider_base_url: s("https://api.example.test/v1"),
        request_style: s("chat-completions"),
        min_tokens: 8000,
        max_tokens: 64000,
        resolution_tokens: 8000,
        seed: 42,
        best_success: Some(attempt(32000, true)),
        first_failure: Some(attempt(64000, false)),
        attempts: vec![attempt(8000, true), attempt(16000, true), attempt(32000, true), attempt(64000, false)],
        capabilities: None,
    }
}

#[test]
fn score_card_without_capabilities_has_only_context_capacity() {
    let summary = build_score_summary(ScoreProfile::MaxContext, 64000, "/runs/1", "/runs/1/probe-summary.json", probe());
    assert_eq!(summary.categories.len(), 1);
    assert_eq!(summary.categories[0].name, "Context Capacity");
    assert_eq!(summary.categories[0].detail, "32000/64000 tokens");
    assert_eq!(summary.categories[0].passed, 1);
    assert_eq!(summary.max_context_tokens, Some(32000));
    assert_eq!(summary.max_context_input_tokens, Some(32020));
    assert_eq!(summary.first_failure_tokens, Some(64000));
    assert_eq!(summary.first_failure_http_status, Some(400));
    assert_eq!(summary.artifacts.probe_summary_json, "/runs/1/probe-summary.json");
}

#[test]
fn score_page_shows_the_card() {
    let mut summary = build_score_summary(ScoreProfile::Quick, 64000, "/runs/1", "/runs/1/probe-summary.json", probe());
    summary.score_fmt = s("50.0");
    summary.categories[0].score_fmt = s("50.0");
    let html = summary.page();
    assert!(html.contains("<h1>LongCtx Score: 50.0 / 100</h1>"));
    assert!(html.contains("Model: m&lt;1&gt; (https://api.example.test/v1, chat-completions)"));
    assert!(html.contains("<p>Profile: quick</p>"));
    assert!(html.contains("<p>Max context: 32000</p>"));
    assert!(html.contains("<p>First failure: 64000</p>"));
    assert!(html.contains("<tr><td>Context Capacity</td><td>50.0</td><td>32000/64000 tokens</td><td>1</td><td>1</td></tr>"));
}

#[test]
fn score_text_card_lists_categories() {
    let mut summary = build_score_summary(ScoreProfile::Standard, 64000, "/runs/1", "/runs/1/probe-summary.json", probe());
    summary.score_fmt = s("50.0");
    let text = summary.render();
    assert!(text.starts_with("LongCtx Score: 50.0 / 100\n"));
    assert!(text.contains("Profile: standard\n"));
    assert!(text.contains("Context Capacity"));
}

#[test]
fn probe_summary_renders_the_boundary() {
    let text = probe().render();
    assert!(text.contains("max passing token_count: 32000 (input_tokens: 32020)"));
    assert!(text.contains("first failing token_count: 64000 (status: 400, error_kind: Http)"));
    assert!(text.contains("attempts:\n"));
}

fn group(label: &str, total: usize, passed: usize) -> longctx::report::GroupCounts {
    longctx::report::GroupCounts { label: s(label), total, passed, latency_sum: 0 }
}

#[test]
fn score_card_weights_and_capacity_detail() {
    let mut p = probe();
    p.capabilities = Some(longctx::probe::CapabilityProbeSummary {
        token_count: 32000,
        bench_dir: s("/runs/1/cap"),
        report_path: s("/runs/1/cap/reports/report.html"),
        summary: longctx::report::ReportCounts {
            total: 6,
            passed: 4,
            avg_latency_ms: 1200,
            suites: vec![
                group("multi-needle", 1, 1),
                group("position-sweep", 2, 1),
                group("conflict", 1, 1),
                group("hallucination", 2, 1),
            ],
            token_counts: vec![],
            positions: vec![],
            failure_groups: vec![],
        },
        pass_rate_display: s("66.7%"),
    });
    let summary = build_score_summary(ScoreProfile::Standard, 1_000_000, "/runs/1", "/runs/1/probe-summary.json", p);
    let weights: Vec<u64> = summary.categories.iter().map(|c| c.weight_percent).collect();
    assert_eq!(weights, vec![35, 20, 20, 20, 5]);
    assert_eq!(summary.categories[0].detail, "32000/1000000 tokens");
    assert_eq!(summary.categories[1].detail, "2/3 passed");
    assert_eq!(summary.categories[2].detail, "1/1 passed");
    assert_eq!(summary.categories[3].detail, "1/2 passed");
    assert_eq!(summary.categories[4].detail, "avg 1200 ms");
    assert_eq!((summary.categories[4].passed, summary.categories[4].total), (1, 1));
}
