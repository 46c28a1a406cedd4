use vstd::prelude::*;

use crate::benchmark::{Config, Grader, TestCase, SCHEMA_VERSION};
use crate::context_index::{is_auto_context, is_auto_spec, looks_inline_context, looks_inline_spec, opt_view};
use crate::paths::{lemma_pieces_nonempty, path_within, pieces, split_pieces, within_spec};
use crate::text::{
    chars_of, dec, extend_chars, extend_str, slices_equal_chars, string_of, trim_seq, trim_str,
    u64_to_chars,
};

verus! {

#[derive(Debug)]
pub struct ValidationSummary {
    pub test_count: usize,
    pub config_model: String,
    pub api_key_checked: bool,
}

// ---------------------------------------------------------------------------
// Provider URLs
// ---------------------------------------------------------------------------

/// The parts of a parsed URL that the checks read.
pub struct UrlParts {
    pub scheme: String,
    pub has_host: bool,
    pub has_query: bool,
    pub has_fragment: bool,
}

/// What `url::Url::parse` makes of a text: `None` where it refuses it.
pub uninterp spec fn spec_url_parts(text: Seq<char>) -> Option<(Seq<char>, bool, bool, bool)>;

/// Calls `reqwest::Url::parse` (the `url` crate's parser) and reads the
/// scheme and whether a host, a query and a fragment are present; the parts
/// are named by the text alone.
#[verifier::external_body]
fn parse_url(text: &str) -> (r: Option<UrlParts>)
    ensures
        match r {
            Some(p) => spec_url_parts(text@) == Some((p.scheme@, p.has_host, p.has_query, p.has_fragment)),
            None => spec_url_parts(text@) is None,
        },
{
    match reqwest::Url::parse(text) {
        Ok(u) => Some(UrlParts {
            scheme: u.scheme().to_string(),
            has_host: u.host_str().is_some(),
            has_query: u.query().is_some(),
            has_fragment: u.fragment().is_some(),
        }),
        Err(_) => None,
    }
}

pub open spec fn base_url_error(base_url: Seq<char>) -> Option<Seq<char>> {
    match spec_url_parts(trim_seq(base_url)) {
        None => Some("provider.base_url must be an absolute http(s) URL"@),
        Some((scheme, has_host, has_query, has_fragment)) => if !(scheme == "http"@ || scheme
            == "https"@) || !has_host {
            Some("provider.base_url must be an absolute http(s) URL with a host"@)
        } else if has_query || has_fragment {
            Some("provider.base_url must not include query strings or fragments"@)
        } else {
            None
        },
    }
}

/// A provider base URL is an absolute http or https URL with a host and
/// without a query or fragment.
pub fn validate_provider_base_url(base_url: &str) -> (r: Result<(), String>)
    ensures
        match base_url_error(base_url@) {
            Some(m) => r matches Err(e) && e@ == m,
            None => r is Ok,
        },
{
    let trimmed = string_of(trim_str(base_url).as_slice());
    match parse_url(trimmed.as_str()) {
        None => Err(String::from_str("provider.base_url must be an absolute http(s) URL")),
        Some(p) => {
            let web = crate::benchmark::str_eq(p.scheme.as_str(), "http")
                || crate::benchmark::str_eq(p.scheme.as_str(), "https");
            if !web || !p.has_host {
                Err(String::from_str("provider.base_url must be an absolute http(s) URL with a host"))
            } else if p.has_query || p.has_fragment {
                Err(String::from_str("provider.base_url must not include query strings or fragments"))
            } else {
                Ok(())
            }
        },
    }
}

// ---------------------------------------------------------------------------
// The request log path
// ---------------------------------------------------------------------------

pub open spec fn request_log_path_error(path: Seq<char>) -> Option<Seq<char>> {
    let ps = pieces(path);
    if path.len() > 0 && path[0] == '/' {
        Some("run.request_log_path must be relative and stay under reports/"@)
    } else if ps[0] != "reports"@ {
        Some("run.request_log_path must stay under reports/"@)
    } else if ps.contains(".."@) {
        Some("run.request_log_path must not escape reports/"@)
    } else {
        None
    }
}

/// The request log stays under `reports/`: a relative path whose first
/// component is `reports` and which never climbs with `..`.
pub fn validate_request_log_path(path: &str) -> (r: Result<(), String>)
    ensures
        match request_log_path_error(path@) {
            Some(m) => r matches Err(e) && e@ == m,
            None => r is Ok,
        },
{
    let cs = chars_of(path);
    if cs.len() > 0 && cs[0] == '/' {
        return Err(String::from_str("run.request_log_path must be relative and stay under reports/"));
    }
    let ps = split_pieces(path);
    proof {
        lemma_pieces_nonempty(path@);
    }
    if !slices_equal_chars(ps[0].as_slice(), chars_of("reports").as_slice()) {
        return Err(String::from_str("run.request_log_path must stay under reports/"));
    }
    assert(ps@[0]@ == pieces(path@)[0]);
    let dots = chars_of("..");
    let mut i: usize = 0;
    while i < ps.len()
        invariant
            i <= ps@.len(),
            dots@ == ".."@,
            !(path@.len() > 0 && path@[0] == '/'),
            pieces(path@)[0] == "reports"@,
            ps@.len() == pieces(path@).len(),
            forall|k: int| 0 <= k < ps@.len() ==> (#[trigger] ps@[k])@ == pieces(path@)[k],
            forall|k: int| 0 <= k < i ==> pieces(path@)[k] != ".."@,
        decreases ps@.len() - i,
    {
        if slices_equal_chars(ps[i].as_slice(), dots.as_slice()) {
            assert(pieces(path@)[i as int] == ".."@);
            assert(pieces(path@).contains(".."@));
            return Err(String::from_str("run.request_log_path must not escape reports/"));
        }
        i = i + 1;
    }
    proof {
        if pieces(path@).contains(".."@) {
            let k = choose|k: int| 0 <= k < pieces(path@).len() && pieces(path@)[k] == ".."@;
            assert(pieces(path@)[k] != ".."@);
        }
    }
    Ok(())
}

// ---------------------------------------------------------------------------
// Configuration
// ---------------------------------------------------------------------------

pub open spec fn newer_schema_message(prefix: Seq<char>, version: u32) -> Seq<char> {
    prefix + dec(version as nat) + " is newer than supported schema_version "@ + dec(
        SCHEMA_VERSION as nat,
    )
}

pub open spec fn missing_env_message(name: Seq<char>) -> Seq<char> {
    "environment variable "@ + name + " is not set"@
}

/// The first rule a configuration breaks, in the order they are checked.
pub open spec fn config_error(config: Config, check_api_key: bool, api_key_set: bool) -> Option<
    Seq<char>,
> {
    if config.schema_version > SCHEMA_VERSION {
        Some(newer_schema_message("config schema_version "@, config.schema_version))
    } else if trim_seq(config.provider.base_url@).len() == 0 {
        Some("provider.base_url must not be empty"@)
    } else if base_url_error(config.provider.base_url@) is Some {
        base_url_error(config.provider.base_url@)
    } else if trim_seq(config.provider.api_key_env@).len() == 0 {
        Some("provider.api_key_env must not be empty"@)
    } else if trim_seq(config.provider.model@).len() == 0 {
        Some("provider.model must not be empty"@)
    } else if config.run.request_timeout_secs == 0 {
        Some("run.request_timeout_secs must be greater than 0"@)
    } else if config.run.concurrency == 0 {
        Some("run.concurrency must be greater than 0"@)
    } else if request_log_path_error(config.run.request_log_path@) is Some {
        request_log_path_error(config.run.request_log_path@)
    } else if check_api_key && !api_key_set {
        Some(missing_env_message(config.provider.api_key_env@))
    } else {
        None
    }
}

fn newer_schema(prefix: &str, version: u32) -> (s: String)
    ensures
        s@ == newer_schema_message(prefix@, version),
{
    let mut m: Vec<char> = Vec::new();
    extend_str(&mut m, prefix);
    extend_chars(&mut m, u64_to_chars(version as u64).as_slice());
    extend_str(&mut m, " is newer than supported schema_version ");
    extend_chars(&mut m, u64_to_chars(SCHEMA_VERSION as u64).as_slice());
    string_of(m.as_slice())
}

/// Checks a configuration; `api_key_set` says whether the environment holds
/// the variable it names, and is read only when `check_api_key` is set.
pub fn validate_config(config: &Config, check_api_key: bool, api_key_set: bool) -> (r: Result<
    (),
    String,
>)
    ensures
        match config_error(*config, check_api_key, api_key_set) {
            Some(m) => r matches Err(e) && e@ == m,
            None => r is Ok,
        },
{
    if config.schema_version > SCHEMA_VERSION {
        return Err(newer_schema("config schema_version ", config.schema_version));
    }
    if trim_str(config.provider.base_url.as_str()).len() == 0 {
        return Err(String::from_str("provider.base_url must not be empty"));
    }
    validate_provider_base_url(config.provider.base_url.as_str())?;
    if trim_str(config.provider.api_key_env.as_str()).len() == 0 {
        return Err(String::from_str("provider.api_key_env must not be empty"));
    }
    if trim_str(config.provider.model.as_str()).len() == 0 {
        return Err(String::from_str("provider.model must not be empty"));
    }
    if config.run.request_timeout_secs == 0 {
        return Err(String::from_str("run.request_timeout_secs must be greater than 0"));
    }
    if config.run.concurrency == 0 {
        return Err(String::from_str("run.concurrency must be greater than 0"));
    }
    validate_request_log_path(config.run.request_log_path.as_str())?;
    if check_api_key && !api_key_set {
        let mut m: Vec<char> = Vec::new();
        extend_str(&mut m, "environment variable ");
        extend_str(&mut m, config.provider.api_key_env.as_str());
        extend_str(&mut m, " is not set");
        return Err(string_of(m.as_slice()));
    }
    Ok(())
}

// ---------------------------------------------------------------------------
// Tests
// ---------------------------------------------------------------------------

/// The first rule a test breaks. `context_error` is what resolving its
/// context reference reported, read only for a test whose context is not
/// `auto`.
pub open spec fn test_error(test: TestCase, context_error: Option<Seq<char>>) -> Option<Seq<char>> {
    if test.schema_version > SCHEMA_VERSION {
        Some(newer_schema_message("test "@ + test.id@ + " schema_version "@, test.schema_version))
    } else if trim_seq(test.id@).len() == 0 {
        Some("test id must not be empty"@)
    } else if trim_seq(test.question@).len() == 0 {
        Some("test "@ + test.id@ + " question must not be empty"@)
    } else if test.expected@.len() == 0 && !(test.grader is ExpectRefusal) {
        Some("test "@ + test.id@ + " expected answers must not be empty"@)
    } else if is_auto_spec(test.context@) {
        None
    } else {
        match context_error {
            Some(e) => Some("test "@ + test.id@ + " context is invalid: "@ + e),
            None => None,
        }
    }
}

/// A test passes its checks only with a supported schema, a non-blank id, a
/// non-blank question, and expected answers unless it expects a refusal;
/// a blank question is refused by name, whatever the context.
pub proof fn lemma_valid_test_is_complete(test: TestCase, context_error: Option<Seq<char>>)
    ensures
        test_error(test, context_error) is None ==> {
            &&& test.schema_version <= SCHEMA_VERSION
            &&& trim_seq(test.id@).len() > 0
            &&& trim_seq(test.question@).len() > 0
            &&& (test.expected@.len() > 0 || test.grader is ExpectRefusal)
        },
        test.schema_version <= SCHEMA_VERSION && trim_seq(test.id@).len() > 0 && trim_seq(test.question@).len()
            == 0 ==> test_error(test, context_error) == Some("test "@ + test.id@ + " question must not be empty"@),
{
}

/// A benchmark that validates has only tests with non-blank questions.
pub proof fn lemma_valid_benchmark_questions(
    config: Config,
    tests: Seq<TestCase>,
    check_api_key: bool,
    api_key_set: bool,
    errors: Seq<Option<Seq<char>>>,
)
    requires
        errors.len() == tests.len(),
        loaded_error(config, tests, check_api_key, api_key_set, errors) is None,
    ensures
        forall|k: int| 0 <= k < tests.len() ==> trim_seq((#[trigger] tests[k]).question@).len() > 0,
{
    lemma_first_test_error_none(tests, errors, 0);
    assert forall|k: int| 0 <= k < tests.len() implies trim_seq((#[trigger] tests[k]).question@).len() > 0 by {
        lemma_valid_test_is_complete(tests[k], errors[k]);
    }
}

proof fn lemma_first_test_error_none(tests: Seq<TestCase>, errors: Seq<Option<Seq<char>>>, k: int)
    requires
        0 <= k <= tests.len(),
        first_test_error_from(tests, errors, k) is None,
    ensures
        forall|j: int| k <= j < tests.len() ==> test_error(#[trigger] tests[j], errors[j]) is None,
    decreases tests.len() - k,
{
    if k < tests.len() {
        lemma_first_test_error_none(tests, errors, k + 1);
    }
}

pub fn validate_test(test: &TestCase, context_error: Option<&str>) -> (r: Result<(), String>)
    ensures
        match test_error(
            *test,
            match context_error {
                Some(e) => Some(e@),
                None => None,
            },
        ) {
            Some(m) => r matches Err(e) && e@ == m,
            None => r is Ok,
        },
        test.schema_version <= SCHEMA_VERSION && trim_seq(test.id@).len() > 0 && trim_seq(test.question@).len()
            == 0 ==> (r matches Err(e) && e@ == "test "@ + test.id@ + " question must not be empty"@),
        r is Ok ==> trim_seq(test.question@).len() > 0 && trim_seq(test.id@).len() > 0,
{
    if test.schema_version > SCHEMA_VERSION {
        let mut p: Vec<char> = Vec::new();
        extend_str(&mut p, "test ");
        extend_str(&mut p, test.id.as_str());
        extend_str(&mut p, " schema_version ");
        let prefix = string_of(p.as_slice());
        return Err(newer_schema(prefix.as_str(), test.schema_version));
    }
    if trim_str(test.id.as_str()).len() == 0 {
        return Err(String::from_str("test id must not be empty"));
    }
    if trim_str(test.question.as_str()).len() == 0 {
        let mut m: Vec<char> = Vec::new();
        extend_str(&mut m, "test ");
        extend_str(&mut m, test.id.as_str());
        extend_str(&mut m, " question must not be empty");
        return Err(string_of(m.as_slice()));
    }
    let refusal = match test.grader {
        Grader::ExpectRefusal => true,
        _ => false,
    };
    if test.expected.len() == 0 && !refusal {
        let mut m: Vec<char> = Vec::new();
        extend_str(&mut m, "test ");
        extend_str(&mut m, test.id.as_str());
        extend_str(&mut m, " expected answers must not be empty");
        return Err(string_of(m.as_slice()));
    }
    if is_auto_context(test.context.as_str()) {
        return Ok(());
    }
    match context_error {
        Some(e) => {
            let mut m: Vec<char> = Vec::new();
            extend_str(&mut m, "test ");
            extend_str(&mut m, test.id.as_str());
            extend_str(&mut m, " context is invalid: ");
            extend_str(&mut m, e);
            Err(string_of(m.as_slice()))
        },
        None => Ok(()),
    }
}

/// Ids are unique: the first repeated id is reported.
pub fn validate_unique_test_ids(tests: &Vec<TestCase>) -> (r: Result<(), String>)
    ensures
        r is Ok <==> forall|i: int, j: int|
            0 <= i < j < tests@.len() ==> (#[trigger] tests@[i]).id@ != (#[trigger] tests@[j]).id@,
        r matches Err(e) ==> exists|i: int, j: int|
            0 <= i < j < tests@.len() && tests@[i].id@ == tests@[j].id@ && e@ == "duplicate test id: "@
                + tests@[j].id@ && forall|j2: int, i2: int|
                0 <= i2 < j2 < j ==> tests@[i2].id@ != tests@[j2].id@,
{
    let mut j: usize = 0;
    while j < tests.len()
        invariant
            j <= tests@.len(),
            forall|i2: int, j2: int|
                0 <= i2 < j2 < j ==> (#[trigger] tests@[i2]).id@ != (#[trigger] tests@[j2]).id@,
        decreases tests@.len() - j,
    {
        match earlier_same_id(tests, j) {
            Some(i) => {
                let mut m: Vec<char> = Vec::new();
                extend_str(&mut m, "duplicate test id: ");
                extend_str(&mut m, tests[j].id.as_str());
                return Err(string_of(m.as_slice()));
            },
            None => {},
        }
        j = j + 1;
    }
    Ok(())
}

/// An earlier test with the same id as test `j`, if any.
fn earlier_same_id(tests: &Vec<TestCase>, j: usize) -> (r: Option<usize>)
    requires
        j < tests@.len(),
    ensures
        match r {
            Some(i) => i < j && tests@[i as int].id@ == tests@[j as int].id@,
            None => forall|i: int| 0 <= i < j ==> tests@[i].id@ != tests@[j as int].id@,
        },
{
    let jc = chars_of(tests[j].id.as_str());
    let mut i: usize = 0;
    while i < j
        invariant
            i <= j < tests@.len(),
            jc@ == tests@[j as int].id@,
            forall|i2: int| 0 <= i2 < i ==> tests@[i2].id@ != tests@[j as int].id@,
        decreases j - i,
    {
        let ic = chars_of(tests[i].id.as_str());
        if slices_equal_chars(ic.as_slice(), jc.as_slice()) {
            return Some(i);
        }
        i = i + 1;
    }
    None
}

/// Test `j`'s id occurs in an earlier test.
pub open spec fn dup_at(tests: Seq<TestCase>, j: int) -> bool {
    exists|i: int| 0 <= i < j && (#[trigger] tests[i]).id@ == tests[j].id@
}

/// The first test, from `k` on, whose id occurs in an earlier test.
pub open spec fn first_dup_from(tests: Seq<TestCase>, k: int) -> Option<int>
    decreases tests.len() - k,
{
    if k < 0 || k >= tests.len() {
        None
    } else if dup_at(tests, k) {
        Some(k)
    } else {
        first_dup_from(tests, k + 1)
    }
}

pub open spec fn errors_view(errors: Seq<Option<String>>) -> Seq<Option<Seq<char>>> {
    errors.map_values(|o: Option<String>| opt_view(o))
}

/// The first test error, from test `k` on.
pub open spec fn first_test_error_from(tests: Seq<TestCase>, errors: Seq<Option<Seq<char>>>, k: int) -> Option<
    Seq<char>,
>
    decreases tests.len() - k,
{
    if k < 0 || k >= tests.len() {
        None
    } else {
        match test_error(tests[k], errors[k]) {
            Some(m) => Some(m),
            None => first_test_error_from(tests, errors, k + 1),
        }
    }
}

/// What is wrong with a loaded benchmark, checked in order: the
/// configuration, then the first repeated test id, then the first test
/// that fails its own checks.
pub open spec fn loaded_error(
    config: Config,
    tests: Seq<TestCase>,
    check_api_key: bool,
    api_key_set: bool,
    errors: Seq<Option<Seq<char>>>,
) -> Option<Seq<char>> {
    match config_error(config, check_api_key, api_key_set) {
        Some(m) => Some(m),
        None => match first_dup_from(tests, 0) {
            Some(j) => Some("duplicate test id: "@ + tests[j].id@),
            None => first_test_error_from(tests, errors, 0),
        },
    }
}

proof fn lemma_first_dup(tests: Seq<TestCase>, k: int, j: int)
    requires
        0 <= k <= j < tests.len(),
        dup_at(tests, j),
        forall|j2: int| k <= j2 < j ==> !dup_at(tests, j2),
    ensures
        first_dup_from(tests, k) == Some(j),
    decreases j - k,
{
    if k < j {
        lemma_first_dup(tests, k + 1, j);
    }
}

proof fn lemma_no_dup(tests: Seq<TestCase>, k: int)
    requires
        0 <= k <= tests.len(),
        forall|i: int, j: int| 0 <= i < j < tests.len() ==> (#[trigger] tests[i]).id@ != (#[trigger] tests[j]).id@,
    ensures
        first_dup_from(tests, k) is None,
    decreases tests.len() - k,
{
    if k < tests.len() {
        assert(!dup_at(tests, k)) by {
            if dup_at(tests, k) {
                let i = choose|i: int| 0 <= i < k && (#[trigger] tests[i]).id@ == tests[k].id@;
                assert(tests[i].id@ != tests[k].id@);
            }
        }
        lemma_no_dup(tests, k + 1);
    }
}

/// The verdict on a loaded benchmark: its configuration, then its test ids,
/// then each test, the first error found returned.
pub fn validate_loaded_benchmark(
    config: &Config,
    tests: &Vec<TestCase>,
    check_api_key: bool,
    api_key_set: bool,
    context_errors: &Vec<Option<String>>,
) -> (r: Result<(), String>)
    requires
        context_errors@.len() == tests@.len(),
    ensures
        r is Ok <==> {
            &&& config_error(*config, check_api_key, api_key_set) is None
            &&& forall|i: int, j: int|
                0 <= i < j < tests@.len() ==> (#[trigger] tests@[i]).id@ != (#[trigger] tests@[j]).id@
            &&& forall|k: int|
                0 <= k < tests@.len() ==> test_error(#[trigger] tests@[k], opt_view(context_errors@[k]))
                    is None
        },
        match loaded_error(*config, tests@, check_api_key, api_key_set, errors_view(context_errors@)) {
            Some(m) => r matches Err(e) && e@ == m,
            None => r is Ok,
        },
{
    let ghost ev = errors_view(context_errors@);
    validate_config(config, check_api_key, api_key_set)?;
    match validate_unique_test_ids(tests) {
        Ok(()) => {
            proof {
                lemma_no_dup(tests@, 0);
            }
        },
        Err(e) => {
            proof {
                let (i, j) = choose|i: int, j: int|
                    0 <= i < j < tests@.len() && tests@[i].id@ == tests@[j].id@ && e@ == "duplicate test id: "@
                        + tests@[j].id@ && forall|j2: int, i2: int|
                        0 <= i2 < j2 < j ==> tests@[i2].id@ != tests@[j2].id@;
                assert(dup_at(tests@, j));
                assert forall|j2: int| 0 <= j2 < j implies !dup_at(tests@, j2) by {
                    if dup_at(tests@, j2) {
                        let i2 = choose|i2: int| 0 <= i2 < j2 && (#[trigger] tests@[i2]).id@ == tests@[j2].id@;
                        assert(tests@[i2].id@ != tests@[j2].id@);
                    }
                }
                lemma_first_dup(tests@, 0, j);
            }
            return Err(e);
        },
    }
    let mut k: usize = 0;
    while k < tests.len()
        invariant
            k <= tests@.len(),
            context_errors@.len() == tests@.len(),
            ev == errors_view(context_errors@),
            config_error(*config, check_api_key, api_key_set) is None,
            first_dup_from(tests@, 0) is None,
            forall|i: int, j: int|
                0 <= i < j < tests@.len() ==> (#[trigger] tests@[i]).id@ != (#[trigger] tests@[j]).id@,
            forall|i: int| 0 <= i < k ==> test_error(#[trigger] tests@[i], opt_view(context_errors@[i]))
                is None,
            first_test_error_from(tests@, ev, 0) == first_test_error_from(tests@, ev, k as int),
        decreases tests@.len() - k,
    {
        let e: Option<&str> = match &context_errors[k] {
            Some(s) => Some(s.as_str()),
            None => None,
        };
        proof {
            assert(ev[k as int] == opt_view(context_errors@[k as int]));
        }
        validate_test(&tests[k], e)?;
        k = k + 1;
    }
    Ok(())
}


pub open spec fn missing_dir_message(dir: Seq<char>) -> Seq<char> {
    "benchmark directory does not exist: "@ + dir
}

/// Where a test's context reference leads. `bench_dir` is the benchmark
/// directory and `resolved` the reference as the file system resolved it
/// (the reference itself when absolute, else joined to the directory), both
/// canonical; `None` when it names no file. Inline text leads to no file; a
/// reference to no file, or to one outside the directory, is refused.
pub fn resolve_context_path(bench_dir: &str, context: &str, resolved: Option<String>) -> (r: Result<
    Option<String>,
    String,
>)
    ensures
        looks_inline_spec(context@) ==> r matches Ok(None),
        !looks_inline_spec(context@) ==> match resolved {
            None => r matches Err(e) && e@ == "context does not resolve to a file: "@ + context@,
            Some(p) => if within_spec(bench_dir@, p@) {
                r matches Ok(Some(q)) && q@ == p@
            } else {
                r matches Err(e) && e@ == "context file must stay under benchmark directory: "@ + context@
            },
        },
{
    if looks_inline_context(context) {
        return Ok(None);
    }
    match resolved {
        None => {
            let mut m: Vec<char> = Vec::new();
            extend_str(&mut m, "context does not resolve to a file: ");
            extend_str(&mut m, context);
            Err(string_of(m.as_slice()))
        },
        Some(p) => {
            if path_within(bench_dir, p.as_str()) {
                Ok(Some(p))
            } else {
                let mut m: Vec<char> = Vec::new();
                extend_str(&mut m, "context file must stay under benchmark directory: ");
                extend_str(&mut m, context);
                Err(string_of(m.as_slice()))
            }
        },
    }
}

/// How a benchmark's context index is checked along with its tests.
#[derive(PartialEq, Eq, Structural, Clone, Copy, Debug)]
pub enum IndexCheck {
    /// Some test routes its context: the index is loaded, or built when
    /// missing, and checked.
    LoadOrBuild,
    /// No test routes, but an index exists: it is read and checked.
    ValidateExisting,
    /// Nothing to check.
    Skip,
}

pub open spec fn any_auto(tests: Seq<TestCase>) -> bool {
    exists|k: int| 0 <= k < tests.len() && is_auto_spec((#[trigger] tests[k]).context@)
}

pub fn index_check(tests: &Vec<TestCase>, index_exists: bool) -> (c: IndexCheck)
    ensures
        c == if any_auto(tests@) {
            IndexCheck::LoadOrBuild
        } else if index_exists {
            IndexCheck::ValidateExisting
        } else {
            IndexCheck::Skip
        },
{
    let mut k: usize = 0;
    while k < tests.len()
        invariant
            k <= tests@.len(),
            forall|j: int| 0 <= j < k ==> !is_auto_spec((#[trigger] tests@[j]).context@),
        decreases tests@.len() - k,
    {
        if is_auto_context(tests[k].context.as_str()) {
            return IndexCheck::LoadOrBuild;
        }
        k = k + 1;
    }
    if index_exists {
        IndexCheck::ValidateExisting
    } else {
        IndexCheck::Skip
    }
}

/// A benchmark directory must exist before anything in it is read;
/// `is_dir` says whether it does.
pub fn check_bench_dir(bench_dir: &str, is_dir: bool) -> (r: Result<(), String>)
    ensures
        is_dir <==> r is Ok,
        !is_dir ==> (r matches Err(e) && e@ == missing_dir_message(bench_dir@)),
{
    if is_dir {
        Ok(())
    } else {
        let mut m: Vec<char> = Vec::new();
        extend_str(&mut m, "benchmark directory does not exist: ");
        extend_str(&mut m, bench_dir);
        Err(string_of(m.as_slice()))
    }
}

/// What was read from a benchmark directory: its configuration, its tests,
/// and for each test what is wrong with its context reference, if anything.
pub struct LoadedBenchmark {
    pub config: Config,
    pub tests: Vec<TestCase>,
    pub context_errors: Vec<Option<String>>,
}

/// The verdict on a benchmark directory, `None` standing for a directory
/// that does not exist: it must exist and hold tests, and then the
/// configuration, the test ids and each test must pass their checks, the
/// first error found returned; the summary counts the tests.
pub fn validate_benchmark_dir(
    bench_dir: &str,
    loaded: Option<&LoadedBenchmark>,
    check_api_key: bool,
    api_key_set: bool,
) -> (r: Result<ValidationSummary, String>)
    requires
        loaded matches Some(l) ==> l.context_errors@.len() == l.tests@.len(),
    ensures
        match loaded {
            None => r matches Err(e) && e@ == missing_dir_message(bench_dir@),
            Some(l) => if l.tests@.len() == 0 {
                r matches Err(e) && e@ == "no benchmark tests found in "@ + bench_dir@
            } else {
                match loaded_error(l.config, l.tests@, check_api_key, api_key_set, errors_view(l.context_errors@)) {
                    Some(m) => r matches Err(e) && e@ == m,
                    None => r matches Ok(s) && s.test_count == l.tests@.len() && s.config_model@
                        == l.config.provider.model@ && s.api_key_checked == check_api_key,
                }
            },
        },
{
    check_bench_dir(bench_dir, loaded.is_some())?;
    let l = loaded.unwrap();
    if l.tests.len() == 0 {
        let mut m: Vec<char> = Vec::new();
        extend_str(&mut m, "no benchmark tests found in ");
        extend_str(&mut m, bench_dir);
        return Err(string_of(m.as_slice()));
    }
    validate_loaded_benchmark(&l.config, &l.tests, check_api_key, api_key_set, &l.context_errors)?;
    Ok(ValidationSummary {
        test_count: l.tests.len(),
        config_model: l.config.provider.model.clone(),
        api_key_checked: check_api_key,
    })
}

} // verus!
