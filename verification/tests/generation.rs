use longctx::benchmark::{Grader, SuiteManifest};
use longctx::generator::{generate, parse_suite_type, GeneratedSuite, SuiteType};
use longctx::tokenizer::TokenCounter;

fn cl100k() -> TokenCounter {
    TokenCounter::cl100k().unwrap()
}

fn meta<'a>(m: &'a [(String, String)], key: &str) -> Option<&'a str> {
    m.iter().find(|(k, _)| k == key).map(|(_, v)| v.as_str())
}

/// Everything a generated suite writes, as text, for comparing two runs.
fn fingerprint(g: &GeneratedSuite) -> Vec<String> {
    let m: &SuiteManifest = &g.manifest;
    let mut out = vec![
        m.name.clone(),
        m.token_count.to_string(),
        m.seed.to_string(),
        m.schema_version.to_string(),
    ];
    for t in &m.suites {
        out.push(t.id.clone());
        out.push(t.context.clone());
        out.push(t.question.clone());
        out.extend(t.expected.iter().cloned());
        for (k, v) in &t.metadata {
            out.push(format!("{k}={v}"));
        }
    }
    for c in &g.contexts {
        out.push(c.file_name.clone());
        out.push(c.relative_path.clone());
        out.push(c.text());
        out.extend(c.fact_indices.iter().map(|i| i.to_string()));
    }
    out
}

fn same_twice(kind: &str) -> GeneratedSuite {
    let a = generate(kind, 100, Some(42), &cl100k()).unwrap();
    let b = generate(kind, 100, Some(42), &cl100k()).unwrap();
    assert_eq!(fingerprint(&a), fingerprint(&b));
    a
}

#[test]
fn generation_is_reproducible_for_the_same_seed() {
    let a = generate("needle", 100, Some(42), &cl100k()).unwrap();
    let b = generate("needle", 100, Some(42), &cl100k()).unwrap();
    assert_eq!(a.manifest.seed, 42);
    assert_eq!(a.manifest.name, b.manifest.name);
    assert_eq!(a.manifest.suites[0].expected, b.manifest.suites[0].expected);
    assert_eq!(fingerprint(&a), fingerprint(&b));
}

#[test]
fn multi_needle_generation_is_reproducible() {
    same_twice("multi-needle");
}

#[test]
fn conflict_generation_is_reproducible() {
    same_twice("conflict");
}

#[test]
fn multi_hop_generation_is_reproducible() {
    same_twice("multi-hop");
}

#[test]
fn order_dependent_generation_is_reproducible() {
    same_twice("order-dependent");
}

#[test]
fn unknown_suite_type_returns_error() {
    let err = generate("nonexistent", 100, Some(1), &cl100k()).err().unwrap();
    assert!(err.contains("unknown suite type"));
}

#[test]
fn position_sweep_generation_is_reproducible() {
    same_twice("position-sweep");
}

#[test]
fn position_sweep_generates_five_test_cases() {
    let g = generate("position-sweep", 100, Some(42), &cl100k()).unwrap();
    assert_eq!(g.manifest.suites.len(), 5);
    let labels: Vec<&str> = g
        .manifest
        .suites
        .iter()
        .filter_map(|t| meta(&t.metadata, "position_label"))
        .collect();
    assert_eq!(labels, vec!["start", "early", "middle", "late", "end"]);
}

#[test]
fn hallucination_generation_is_reproducible() {
    same_twice("hallucination");
}

#[test]
fn hallucination_generates_three_test_cases() {
    let g = generate("hallucination", 100, Some(42), &cl100k()).unwrap();
    assert_eq!(g.manifest.suites.len(), 3);
    for test in &g.manifest.suites {
        assert!(test.expected.is_empty());
        assert!(matches!(test.grader, Grader::ExpectRefusal));
    }
}

#[test]
fn needle_answer_stands_in_its_context() {
    let g = generate("needle", 2000, Some(7), &cl100k()).unwrap();
    let test = &g.manifest.suites[0];
    assert_eq!(test.id, "needle-2000");
    assert_eq!(test.context, g.contexts[0].relative_path);
    let secret = &test.expected[0];
    assert!(secret.starts_with("ORCHID-"));
    let text = g.contexts[0].text();
    assert!(text.contains(secret.as_str()));
    assert_eq!(g.contexts[0].fact_indices.len(), 1);
    let at = g.contexts[0].fact_indices[0];
    assert!(g.contexts[0].chunks[at].contains(secret.as_str()));
}

#[test]
fn conflict_context_keeps_the_current_fact_last() {
    let g = generate("conflict", 500, Some(3), &cl100k()).unwrap();
    let c = &g.contexts[0];
    assert_eq!(c.fact_indices.len(), 3);
    assert!(c.fact_indices[0] < c.fact_indices[1] && c.fact_indices[1] < c.fact_indices[2]);
    let answer = &g.manifest.suites[0].expected[0];
    assert_eq!(
        c.chunks[c.fact_indices[2]],
        format!("For the 2024 east-region audit, the routing key is {answer}.")
    );
}

#[test]
fn hallucination_contexts_are_filler_only() {
    let g = generate("hallucination", 300, Some(5), &cl100k()).unwrap();
    assert_eq!(g.contexts.len(), 3);
    for c in &g.contexts {
        assert!(c.fact_indices.is_empty());
        let first = &c.chunks[0];
        assert!(c.chunks.iter().all(|p| p == first));
    }
}

#[test]
fn suite_names_parse_without_regard_to_case() {
    assert_eq!(parse_suite_type("Needle").ok(), Some(SuiteType::Needle));
    assert_eq!(parse_suite_type("MULTI_HOP").ok(), Some(SuiteType::MultiHop));
    assert_eq!(parse_suite_type("positionsweep").ok(), Some(SuiteType::PositionSweep));
    let err = parse_suite_type("Bogus").err().unwrap();
    assert_eq!(
        err,
        "unknown suite type 'bogus', expected needle, multi-needle, conflict, multi-hop, order-dependent, position-sweep, or hallucination"
    );
}

#[test]
fn generated_token_count_and_seed_are_recorded() {
    let g = generate("multi-needle", 1234, Some(99), &cl100k()).unwrap();
    assert_eq!(g.manifest.token_count, 1234);
    assert_eq!(g.manifest.seed, 99);
    assert_eq!(g.manifest.name, "multi_needle");
    let n = g.manifest.suites[0].expected.len();
    assert!((3..=8).contains(&n));
    assert_eq!(g.contexts[0].fact_indices.len(), n);
}

#[test]
fn multi_hop_chain_leads_to_the_answer() {
    let g = generate("multi-hop", 400, Some(11), &cl100k()).unwrap();
    let c = &g.contexts[0];
    let badge = &g.manifest.suites[0].expected[0];
    assert!(badge.starts_with("CODE-"));
    let lead = &c.chunks[c.fact_indices[0]];
    let badge_fact = &c.chunks[c.fact_indices[1]];
    assert!(lead.contains("'s lead is Agent-"));
    assert!(badge_fact.ends_with(&format!("'s badge code is {badge}.")));
    let project = lead.split("'s lead is ").next().unwrap();
    assert!(g.manifest.suites[0].question.contains(project));
}

#[test]
fn order_dependent_answer_is_the_asked_step() {
    let g = generate("order-dependent", 400, Some(13), &cl100k()).unwrap();
    let c = &g.contexts[0];
    let test = &g.manifest.suites[0];
    let step: usize = meta(&test.metadata, "target_step").unwrap().parse().unwrap();
    let count: usize = meta(&test.metadata, "step_count").unwrap().parse().unwrap();
    assert_eq!(c.fact_indices.len(), count);
    let fact = &c.chunks[c.fact_indices[step - 1]];
    assert!(fact.starts_with(&format!("At step {step}, the ")));
    assert!(fact.ends_with(&format!(" was {}.", test.expected[0])));
    assert!(test.question.contains(&format!("at step {step}?")));
}

#[test]
fn multi_needle_answers_match_their_facts() {
    let g = generate("multi-needle", 600, Some(17), &cl100k()).unwrap();
    let c = &g.contexts[0];
    for (i, answer) in g.manifest.suites[0].expected.iter().enumerate() {
        let (name, value) = answer.split_once(':').unwrap();
        assert_eq!(
            c.chunks[c.fact_indices[i]],
            format!("Needle fact {i}: project {name} has checkpoint value {value}.")
        );
    }
}

#[test]
fn generated_files_carry_the_token_count() {
    let g = generate("needle", 100, Some(42), &cl100k()).unwrap();
    assert_eq!(g.contexts[0].relative_path, "contexts/needle_context-100.txt");
    assert_eq!(g.manifest.suites[0].context, "contexts/needle_context-100.txt");
    assert_eq!(longctx::generator::manifest_path(&g.manifest), "manifests/needle-100.json");
    let sweep = generate("position-sweep", 100, Some(42), &cl100k()).unwrap();
    assert_eq!(sweep.contexts[0].relative_path, "contexts/position_sweep_start-100.txt");
    assert_eq!(longctx::generator::manifest_path(&sweep.manifest), "manifests/position_sweep-100.json");
}

#[test]
fn token_sweeps_share_no_file() {
    for kind in ["needle", "position-sweep", "hallucination"] {
        let a = generate(kind, 100, Some(7), &cl100k()).unwrap();
        let b = generate(kind, 1000, Some(7), &cl100k()).unwrap();
        assert_ne!(
            longctx::generator::manifest_path(&a.manifest),
            longctx::generator::manifest_path(&b.manifest)
        );
        for ca in &a.contexts {
            for cb in &b.contexts {
                assert_ne!(ca.relative_path, cb.relative_path);
            }
        }
    }
}
