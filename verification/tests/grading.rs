use longctx::benchmark::{Grader, TestCase, SCHEMA_VERSION};
use longctx::benchmark::ProviderRequestStyle;
use longctx::grader::{
    endpoint_path, endpoint_url, grade, grade_expect_refusal, judge_answer, judge_decode_failure,
    judge_http_error, judge_prompt, judge_result_from_reply, judge_verdict, JudgeReply,
};
use longctx::tokenizer::TokenCounter;

fn test_case(expected: Vec<&str>, grader: Grader) -> TestCase {
    TestCase {
        schema_version: SCHEMA_VERSION,
        id: "case".to_string(),
        context: "context".to_string(),
        question: "question".to_string(),
        expected: expected.into_iter().map(str::to_string).collect(),
        grader,
        metadata: Vec::new(),
    }
}

#[test]
fn exact_grading_is_case_insensitive() {
    let test = test_case(vec!["ORCHID-123"], Grader::Exact);
    assert!(grade(" orchid-123 ", &test));
}

#[test]
fn set_grading_accepts_items_in_any_order() {
    let test = test_case(vec!["Aster:12", "Beryl:34"], Grader::ItemSet);
    assert!(grade("Beryl: 34, Aster: 12", &test));
}

#[test]
fn json_grading_requires_valid_json() {
    let test = test_case(vec!["needle"], Grader::Json);
    assert!(!grade("needle", &test));
    assert!(grade(r#"{"value":"needle"}"#, &test));
}

#[test]
fn contains_grading_accepts_substrings() {
    let test = test_case(vec!["archive code"], Grader::Contains);
    assert!(grade("The archive code is orchid-123.", &test));
}

#[test]
fn json_fields_grading_matches_named_fields() {
    let test = test_case(
        vec!["name=Alpha", "count=3", "details={\"enabled\":true}"],
        Grader::JsonFields,
    );
    assert!(grade(
        r#"{"name":"alpha","count":3,"details":{"enabled":true}}"#,
        &test
    ));
}

#[test]
fn json_fields_grading_rejects_missing_fields() {
    let test = test_case(vec!["name=Alpha", "count=3"], Grader::JsonFields);
    assert!(!grade(r#"{"name":"alpha"}"#, &test));
}

#[test]
fn regex_grading_matches_pattern() {
    let test = test_case(vec![r"ORCHID-\d+"], Grader::Regex(r"ORCHID-\d+".to_string()));
    assert!(grade("ORCHID-12345", &test));
}

#[test]
fn regex_grading_rejects_non_matching() {
    let test = test_case(vec![r"ORCHID-\d+"], Grader::Regex(r"ORCHID-\d+".to_string()));
    assert!(!grade("LAMBDA-12345", &test));
}

#[test]
fn regex_grading_returns_false_for_invalid_regex() {
    let test = test_case(vec!["("], Grader::Regex("(".to_string()));
    assert!(!grade("anything", &test));
}

#[test]
fn exact_grading_rejects_wrong_answer() {
    let test = test_case(vec!["ORCHID-123"], Grader::Exact);
    assert!(!grade("LAMBDA-456", &test));
}

#[test]
fn json_fields_rejects_non_object() {
    let test = test_case(vec!["key=value"], Grader::JsonFields);
    assert!(!grade("[1, 2, 3]", &test));
}

#[test]
fn json_fields_rejects_invalid_json() {
    let test = test_case(vec!["key=value"], Grader::JsonFields);
    assert!(!grade("not json", &test));
}

#[test]
fn expect_refusal_passes_for_refusal_phrases() {
    let test = test_case(vec![], Grader::ExpectRefusal);
    assert!(grade("I cannot find this information in the context.", &test));
    assert!(grade("The answer is not mentioned in the document.", &test));
    assert!(grade("I don't know.", &test));
    assert!(grade("There is no answer provided.", &test));
}

#[test]
fn expect_refusal_passes_for_empty_answer() {
    let test = test_case(vec![], Grader::ExpectRefusal);
    assert!(grade("", &test));
}

#[test]
fn expect_refusal_rejects_specific_answer() {
    let test = test_case(vec![], Grader::ExpectRefusal);
    assert!(!grade("ORCHID-123456", &test));
    assert!(!grade("The archive access code is TAU-5738.", &test));
}

#[test]
fn llm_judge_returns_false_from_sync_grade() {
    let test = test_case(vec!["answer"], Grader::LlmJudge);
    assert!(!grade("answer", &test));
}

#[test]
fn expect_refusal_detects_more_signals() {
    let test = test_case(vec![], Grader::ExpectRefusal);
    assert!(grade("This is not in the context.", &test));
    assert!(grade("The document doesn't mention this.", &test));
    assert!(grade("Insufficient information to answer.", &test));
}

#[test]
fn blank_answer_is_a_refusal_once_trimmed() {
    assert!(grade_expect_refusal(""));
    assert!(!grade_expect_refusal("   "));
    let test = test_case(vec![], Grader::ExpectRefusal);
    assert!(grade("   ", &test));
}

#[test]
fn judge_verdict_needs_correct_without_incorrect() {
    assert!(judge_verdict("Correct"));
    assert!(!judge_verdict("incorrect"));
    assert!(!judge_verdict("maybe"));
}

#[test]
fn set_grading_rejects_a_missing_item() {
    let test = test_case(vec!["Aster:12", "Beryl:34"], Grader::ItemSet);
    assert!(!grade("Aster: 12", &test));
}

fn reply() -> JudgeReply {
    JudgeReply {
        chat_content: None,
        output_text: None,
        output_texts: vec![],
        usage_prompt_tokens: None,
        usage_completion_tokens: None,
        usage_input_tokens: None,
        usage_output_tokens: None,
    }
}

#[test]
fn judge_prompt_lays_out_context_question_and_answers() {
    let test = test_case(vec!["A", "B"], Grader::LlmJudge);
    let prompt = judge_prompt("my answer", &test, "ctx");
    assert_eq!(
        prompt,
        "You are grading an answer to a question based on a context.\n\nContext:\nctx\n\nQuestion:\nquestion\n\nExpected answer: A, B\n\nStudent's answer: my answer\n\nIs the student's answer correct? Reply with only \"CORRECT\" or \"INCORRECT\"."
    );
}

#[test]
fn judge_endpoints_follow_the_request_style() {
    assert_eq!(
        endpoint_url("https://api.example.test/v1//", endpoint_path(ProviderRequestStyle::ChatCompletions)),
        "https://api.example.test/v1/chat/completions"
    );
    assert_eq!(
        endpoint_url("https://api.example.test/v1", endpoint_path(ProviderRequestStyle::Responses)),
        "https://api.example.test/v1/responses"
    );
}

#[test]
fn judge_replies_are_read_by_request_style() {
    let mut r = reply();
    r.chat_content = Some("CORRECT".to_string());
    assert_eq!(judge_answer(ProviderRequestStyle::ChatCompletions, &r), "CORRECT");
    assert_eq!(judge_answer(ProviderRequestStyle::Responses, &r), "");
    r.output_text = Some("   ".to_string());
    r.output_texts = vec!["  ".to_string(), " INCORRECT ".to_string()];
    assert_eq!(judge_answer(ProviderRequestStyle::Responses, &r), "INCORRECT");
}

#[test]
fn judge_results_use_reported_usage_or_estimates() {
    let counter = TokenCounter::cl100k().unwrap();
    let mut r = reply();
    r.chat_content = Some("correct".to_string());
    r.usage_prompt_tokens = Some(40);
    let j = judge_result_from_reply(ProviderRequestStyle::ChatCompletions, &r, 200, 2, 15, 99, &counter);
    assert!(j.passed);
    assert_eq!(j.input_tokens, 40);
    assert_eq!(Some(j.output_tokens), counter.count_tokens("correct"));
    assert_eq!((j.http_status, j.attempts, j.latency_ms), (Some(200), 2, 15));
    let j = judge_result_from_reply(ProviderRequestStyle::Responses, &r, 200, 1, 1, 99, &counter);
    assert!(!j.passed);
    assert_eq!(j.input_tokens, 99);
}

#[test]
fn judge_failures_carry_their_errors() {
    assert_eq!(judge_http_error(500, "  boom \n"), "HTTP 500 Internal Server Error from judge: boom");
    assert_eq!(judge_http_error(599, "x"), "HTTP 599 <unknown status code> from judge: x");
    assert_eq!(judge_http_error(42, "x"), "HTTP 42 from judge: x");
    let j = judge_decode_failure(200, 1, 5, 10);
    assert!(!j.passed);
    assert_eq!(j.error.as_deref(), Some("failed to decode judge response JSON"));
    assert_eq!(j.http_status, Some(200));
}

#[test]
fn the_judge_model_defaults_to_the_provider_model() {
    let provider = longctx::benchmark::ProviderConfig {
        base_url: "https://api.example.test/v1".to_string(),
        api_key_env: "KEY".to_string(),
        model: "gpt-4.1".to_string(),
        request_style: ProviderRequestStyle::ChatCompletions,
    };
    let mut grader = longctx::benchmark::GraderConfig::default();
    assert_eq!(longctx::grader::judge_model(&grader, &provider), "gpt-4.1");
    grader.judge_model = Some("gpt-4.1-mini".to_string());
    assert_eq!(longctx::grader::judge_model(&grader, &provider), "gpt-4.1-mini");
}

#[test]
fn json_fields_compare_numbers_by_value() {
    let expected = vec!["x=0.0".to_string(), "n=1".to_string()];
    assert!(longctx::grader::grade_json_fields(r#"{"x": -0.0, "n": 1}"#, &expected));
    assert!(!longctx::grader::grade_json_fields(r#"{"x": 0.5, "n": 1}"#, &expected));
    let text = vec!["name=Ada Lovelace".to_string()];
    assert!(longctx::grader::grade_json_fields(r#"{"name": "ada lovelace"}"#, &text));
}
