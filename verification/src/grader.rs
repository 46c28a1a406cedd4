use vstd::prelude::*;

use crate::benchmark::{Grader, GraderConfig, ProviderConfig, ProviderRequestStyle, TestCase};
use crate::tokenizer::{token_count_or_zero, TokenCounter};
use crate::context_index::opt_view;
use crate::text::{
    ascii_lower_seq, chars_of, contains_chars, contains_str, eq_ignore_ascii_case, extend_chars,
    extend_str, has_sub, join_seq, join_strings, is_whitespace, is_ws, slices_equal_chars, string_of, strings_view,
    trim_chars, trim_seq,
};

verus! {

// ---------------------------------------------------------------------------
// Outside computations: Unicode case mapping, regular expressions, JSON
// ---------------------------------------------------------------------------

/// What `char::to_lowercase` yields for a character.
pub uninterp spec fn spec_char_lowercase(c: char) -> Seq<char>;

/// What `str::to_lowercase` returns for a string.
pub uninterp spec fn spec_str_lowercase(s: Seq<char>) -> Seq<char>;

/// What `str::to_uppercase` returns for a string.
pub uninterp spec fn spec_str_uppercase(s: Seq<char>) -> Seq<char>;

/// Whether `regex::Regex::new(pattern)` compiles, and if so whether the
/// compiled expression matches somewhere in `text`.
pub uninterp spec fn spec_regex_match(pattern: Seq<char>, text: Seq<char>) -> Option<bool>;

/// `serde_json::from_str::<serde_json::Value>(text)` followed by the value's
/// compact rendering (`Display`), or `None` when the text is not JSON.
pub uninterp spec fn spec_json_compact(text: Seq<char>) -> Option<Seq<char>>;

/// Whether the JSON value that `rendered` holds equals the one `expected`
/// holds, as `serde_json::Value`'s `==` decides; `None` when either text is
/// not JSON.
pub uninterp spec fn spec_json_equal(rendered: Seq<char>, expected: Seq<char>) -> Option<bool>;

/// When `text` is a JSON object: its members in the order of
/// `serde_json::Map` (one per key), each as the key, the member value's
/// compact rendering, and the string content when the value is a string.
pub uninterp spec fn spec_json_members(text: Seq<char>) -> Option<
    Seq<(Seq<char>, Seq<char>, Option<Seq<char>>)>,
>;

/// `char::to_lowercase`, collected: the lowercase mapping of one character
/// (one to three characters, from Unicode's tables). Stated only by name.
#[verifier::external_body]
fn char_to_lowercase(c: char) -> (v: Vec<char>)
    ensures
        v@ == spec_char_lowercase(c),
{
    c.to_lowercase().collect()
}

/// `str::to_lowercase`: Unicode lowercasing of a whole string (with the
/// final-sigma rule). Stated only by name.
#[verifier::external_body]
fn str_to_lowercase(s: &str) -> (r: String)
    ensures
        r@ == spec_str_lowercase(s@),
{
    s.to_lowercase()
}

/// `str::to_uppercase`: Unicode uppercasing of a whole string. Stated only
/// by name.
#[verifier::external_body]
fn str_to_uppercase(s: &str) -> (r: String)
    ensures
        r@ == spec_str_uppercase(s@),
{
    s.to_uppercase()
}

/// `regex::Regex::new(pattern)` and, when it compiles, `Regex::is_match`
/// on `text`. Compiling and matching depend on the two strings alone; the
/// regex syntax and matching rules are left to the name.
#[verifier::external_body]
fn regex_is_match(pattern: &str, text: &str) -> (r: Option<bool>)
    ensures
        r == spec_regex_match(pattern@, text@),
{
    regex::Regex::new(pattern).ok().map(|re| re.is_match(text))
}

/// `serde_json::from_str::<serde_json::Value>` and `Value::to_string` (the
/// compact form). Which texts parse, and how numbers and strings are
/// rendered, are left to the name.
#[verifier::external_body]
fn json_compact(text: &str) -> (r: Option<String>)
    ensures
        opt_view(r) == spec_json_compact(text@),
{
    serde_json::from_str::<serde_json::Value>(text).ok().map(|v| v.to_string())
}

/// Parses both texts with `serde_json::from_str::<serde_json::Value>` and
/// compares the values with `Value`'s `==` (numbers compare by value, so
/// `-0.0` equals `0.0`); `None` when either does not parse.
#[verifier::external_body]
fn json_equal(rendered: &str, expected: &str) -> (r: Option<bool>)
    ensures
        r == spec_json_equal(rendered@, expected@),
{
    let e = serde_json::from_str::<serde_json::Value>(expected).ok()?;
    let a = serde_json::from_str::<serde_json::Value>(rendered).ok()?;
    Some(a == e)
}

/// One member of a JSON object.
pub struct JsonMember {
    pub key: String,
    pub rendered: String,
    pub string_value: Option<String>,
}

pub open spec fn member_view(m: JsonMember) -> (Seq<char>, Seq<char>, Option<Seq<char>>) {
    (m.key@, m.rendered@, opt_view(m.string_value))
}

/// `serde_json::from_str::<serde_json::Value>` and `Value::as_object`, with
/// each member converted to its key, compact rendering and string content.
/// Parsing and ordering are left to the name.
#[verifier::external_body]
fn json_object_members(text: &str) -> (r: Option<Vec<JsonMember>>)
    ensures
        match r {
            Some(v) => spec_json_members(text@) == Some(v@.map_values(|m: JsonMember| member_view(m))),
            None => spec_json_members(text@) is None,
        },
{
    let value = serde_json::from_str::<serde_json::Value>(text).ok()?;
    let object = value.as_object()?;
    Some(
        object.iter().map(|(key, v)| JsonMember {
            key: key.clone(),
            rendered: v.to_string(),
            string_value: v.as_str().map(|s| s.to_string()),
        }).collect(),
    )
}

// ---------------------------------------------------------------------------
// Normalization
// ---------------------------------------------------------------------------

/// Whitespace removed, every other character lowercased (Unicode).
pub open spec fn compact_spec(s: Seq<char>) -> Seq<char>
    decreases s.len(),
{
    if s.len() == 0 {
        seq![]
    } else if is_ws(s.last()) {
        compact_spec(s.drop_last())
    } else {
        compact_spec(s.drop_last()) + spec_char_lowercase(s.last())
    }
}

pub fn compact(value: &[char]) -> (r: Vec<char>)
    ensures
        r@ == compact_spec(value@),
{
    let mut r: Vec<char> = Vec::new();
    let mut i: usize = 0;
    while i < value.len()
        invariant
            i <= value@.len(),
            r@ == compact_spec(value@.take(i as int)),
        decreases value@.len() - i,
    {
        assert(value@.take(i as int + 1).drop_last() =~= value@.take(i as int));
        let c = value[i];
        if !is_whitespace(c) {
            let low = char_to_lowercase(c);
            extend_chars(&mut r, low.as_slice());
        }
        i = i + 1;
    }
    assert(value@.take(value@.len() as int) =~= value@);
    r
}

// ---------------------------------------------------------------------------
// Graders
// ---------------------------------------------------------------------------

pub open spec fn refusal_signals() -> Seq<Seq<char>> {
    seq![
        "cannot find"@,
        "can't find"@,
        "not found"@,
        "no answer"@,
        "don't have"@,
        "do not have"@,
        "unable to find"@,
        "not mentioned"@,
        "not available"@,
        "no information"@,
        "i don't know"@,
        "i do not know"@,
        "cannot determine"@,
        "not specified"@,
        "not provided"@,
        "there is no"@,
        "not in the context"@,
        "not in the document"@,
        "not in the text"@,
        "no mention"@,
        "doesn't mention"@,
        "does not mention"@,
        "couldn't find"@,
        "could not find"@,
        "no data"@,
        "insufficient information"@,
    ]
}

/// An empty answer, or a lowercased answer containing a refusal phrase.
pub open spec fn refusal_spec(answer: Seq<char>) -> bool {
    answer.len() == 0 || exists|i: int|
        0 <= i < refusal_signals().len() && has_sub(
            spec_str_lowercase(answer),
            #[trigger] refusal_signals()[i],
        )
}

fn refusal_signal_list() -> (v: Vec<&'static str>)
    ensures
        v@.map_values(|s: &str| s@) == refusal_signals(),
{
    let v: Vec<&'static str> = vec![
        "cannot find",
        "can't find",
        "not found",
        "no answer",
        "don't have",
        "do not have",
        "unable to find",
        "not mentioned",
        "not available",
        "no information",
        "i don't know",
        "i do not know",
        "cannot determine",
        "not specified",
        "not provided",
        "there is no",
        "not in the context",
        "not in the document",
        "not in the text",
        "no mention",
        "doesn't mention",
        "does not mention",
        "couldn't find",
        "could not find",
        "no data",
        "insufficient information",
    ];
    assert(v@.map_values(|s: &str| s@) =~= refusal_signals());
    v
}

/// Passes when the answer declines to answer.
pub fn grade_expect_refusal(answer: &str) -> (b: bool)
    ensures
        b == refusal_spec(answer@),
{
    if answer.is_empty() {
        return true;
    }
    let lower = chars_of(str_to_lowercase(answer).as_str());
    let signals = refusal_signal_list();
    let ghost sv = signals@.map_values(|s: &str| s@);
    let mut i: usize = 0;
    while i < signals.len()
        invariant
            i <= signals@.len(),
            sv == refusal_signals(),
            sv == signals@.map_values(|s: &str| s@),
            lower@ == spec_str_lowercase(answer@),
            forall|k: int| 0 <= k < i ==> !has_sub(lower@, #[trigger] sv[k]),
        decreases signals@.len() - i,
    {
        assert(sv[i as int] == signals@[i as int]@);
        if contains_str(lower.as_slice(), signals[i]) {
            return true;
        }
        i = i + 1;
    }
    false
}

pub open spec fn all_contained(hay: Seq<char>, expected: Seq<Seq<char>>) -> bool {
    forall|i: int| 0 <= i < expected.len() ==> has_sub(hay, compact_spec(#[trigger] expected[i]))
}

/// Every expected item occurs in the answer once whitespace is removed and
/// case folded.
pub fn grade_set(answer: &[char], expected: &Vec<String>) -> (b: bool)
    ensures
        b == all_contained(compact_spec(answer@), strings_view(expected@)),
{
    let normalized = compact(answer);
    let ghost ev = strings_view(expected@);
    let mut i: usize = 0;
    while i < expected.len()
        invariant
            i <= expected@.len(),
            ev == strings_view(expected@),
            normalized@ == compact_spec(answer@),
            forall|k: int| 0 <= k < i ==> has_sub(normalized@, compact_spec(#[trigger] ev[k])),
        decreases expected@.len() - i,
    {
        assert(ev[i as int] == expected@[i as int]@);
        let needle = compact(chars_of(expected[i].as_str()).as_slice());
        if !contains_chars(normalized.as_slice(), needle.as_slice()) {
            return false;
        }
        i = i + 1;
    }
    true
}

pub open spec fn json_spec(answer: Seq<char>, expected: Seq<Seq<char>>) -> bool {
    match spec_json_compact(answer) {
        None => false,
        Some(rendered) => expected.len() == 0 || forall|i: int|
            0 <= i < expected.len() ==> has_sub(rendered, #[trigger] expected[i]) || has_sub(
                answer,
                expected[i],
            ),
    }
}

/// The answer is JSON and every expected item occurs in its compact
/// rendering or in the answer text.
pub fn grade_json(answer: &str, expected: &Vec<String>) -> (b: bool)
    ensures
        b == json_spec(answer@, strings_view(expected@)),
{
    let rendered = match json_compact(answer) {
        Some(r) => chars_of(r.as_str()),
        None => {
            return false;
        },
    };
    if expected.len() == 0 {
        return true;
    }
    let text = chars_of(answer);
    let ghost ev = strings_view(expected@);
    let mut i: usize = 0;
    while i < expected.len()
        invariant
            i <= expected@.len(),
            ev == strings_view(expected@),
            spec_json_compact(answer@) == Some(rendered@),
            text@ == answer@,
            forall|k: int| 0 <= k < i ==> has_sub(rendered@, #[trigger] ev[k]) || has_sub(answer@, ev[k]),
        decreases expected@.len() - i,
    {
        assert(ev[i as int] == expected@[i as int]@);
        let needle = chars_of(expected[i].as_str());
        if !(contains_chars(rendered.as_slice(), needle.as_slice()) || contains_chars(
            text.as_slice(),
            needle.as_slice(),
        )) {
            return false;
        }
        i = i + 1;
    }
    true
}

/// The first position of `c` in `s`, if any.
pub open spec fn first_pos(s: Seq<char>, c: char) -> Option<int>
    decreases s.len(),
{
    if s.len() == 0 {
        None
    } else if s[0] == c {
        Some(0)
    } else {
        match first_pos(s.drop_first(), c) {
            Some(i) => Some(i + 1),
            None => None,
        }
    }
}

/// `str::split_once('=')`.
pub open spec fn split_eq_spec(s: Seq<char>) -> Option<(Seq<char>, Seq<char>)> {
    match first_pos(s, '=') {
        Some(i) => Some((s.take(i), s.skip(i + 1))),
        None => None,
    }
}

proof fn lemma_first_pos(s: Seq<char>, c: char)
    ensures
        match first_pos(s, c) {
            Some(i) => 0 <= i < s.len() && s[i] == c,
            None => true,
        },
    decreases s.len(),
{
    if s.len() > 0 && s[0] != c {
        lemma_first_pos(s.drop_first(), c);
    }
}

fn find_char(s: &[char], c: char) -> (r: Option<usize>)
    ensures
        match r {
            Some(i) => first_pos(s@, c) == Some(i as int),
            None => first_pos(s@, c) is None,
        },
{
    let mut i: usize = 0;
    assert(s@.skip(0) =~= s@);
    while i < s.len()
        invariant
            i <= s@.len(),
            forall|k: int| 0 <= k < i ==> s@[k] != c,
            first_pos(s@, c) == (match first_pos(s@.skip(i as int), c) {
                Some(j) => Some(j + i),
                None => None,
            }),
        decreases s@.len() - i,
    {
        assert(s@.skip(i as int)[0] == s@[i as int]);
        if s[i] == c {
            return Some(i);
        }
        assert(s@.skip(i as int).drop_first() =~= s@.skip(i as int + 1));
        i = i + 1;
    }
    None
}

pub type MemberView = (Seq<char>, Seq<char>, Option<Seq<char>>);

/// The member stored under `key`, if any.
pub open spec fn member_lookup(ms: Seq<MemberView>, key: Seq<char>) -> Option<MemberView>
    decreases ms.len(),
{
    if ms.len() == 0 {
        None
    } else if ms[0].0 == key {
        Some(ms[0])
    } else {
        member_lookup(ms.drop_first(), key)
    }
}

/// One named field against its expected text: JSON texts compare as JSON
/// values (the member's rendering read back); otherwise a string member
/// matches ignoring ASCII case or after whitespace removal and case folding,
/// and any other member must render to exactly the expected text.
pub open spec fn value_matches_spec(m: MemberView, expected: Seq<char>) -> bool {
    match spec_json_equal(m.1, expected) {
        Some(b) => b,
        None => match m.2 {
            Some(sv) => ascii_lower_seq(sv) == ascii_lower_seq(expected) || compact_spec(sv)
                == compact_spec(expected),
            None => m.1 == expected,
        },
    }
}

pub open spec fn field_spec(members: Seq<MemberView>, needle: Seq<char>) -> bool {
    match split_eq_spec(needle) {
        None => false,
        Some(kv) => match member_lookup(members, trim_seq(kv.0)) {
            None => false,
            Some(m) => value_matches_spec(m, trim_seq(kv.1)),
        },
    }
}

pub open spec fn json_fields_spec(answer: Seq<char>, expected: Seq<Seq<char>>) -> bool {
    match spec_json_members(answer) {
        None => false,
        Some(members) => forall|i: int|
            0 <= i < expected.len() ==> field_spec(members, #[trigger] expected[i]),
    }
}

fn json_value_matches(m: &JsonMember, expected: &Vec<char>) -> (b: bool)
    ensures
        b == value_matches_spec(member_view(*m), expected@),
{
    let expected_text = string_of(expected.as_slice());
    if let Some(b) = json_equal(m.rendered.as_str(), expected_text.as_str()) {
        return b;
    }
    match &m.string_value {
        Some(sv) => {
            let v = chars_of(sv.as_str());
            eq_ignore_ascii_case(v.as_slice(), expected.as_slice()) || slices_equal_chars(
                compact(v.as_slice()).as_slice(),
                compact(expected.as_slice()).as_slice(),
            )
        },
        None => {
            let a = chars_of(m.rendered.as_str());
            slices_equal_chars(a.as_slice(), expected.as_slice())
        },
    }
}

fn find_member(members: &Vec<JsonMember>, key: &Vec<char>) -> (r: Option<usize>)
    ensures
        match r {
            Some(i) => i < members@.len() && member_lookup(
                members@.map_values(|m: JsonMember| member_view(m)),
                key@,
            ) == Some(member_view(members@[i as int])),
            None => member_lookup(members@.map_values(|m: JsonMember| member_view(m)), key@) is None,
        },
{
    let ghost mv = members@.map_values(|m: JsonMember| member_view(m));
    let mut i: usize = 0;
    assert(mv.skip(0) =~= mv);
    while i < members.len()
        invariant
            i <= members@.len(),
            mv == members@.map_values(|m: JsonMember| member_view(m)),
            member_lookup(mv, key@) == member_lookup(mv.skip(i as int), key@),
        decreases members@.len() - i,
    {
        assert(mv.skip(i as int)[0] == member_view(members@[i as int]));
        assert(mv.skip(i as int).drop_first() =~= mv.skip(i as int + 1));
        let k = chars_of(members[i].key.as_str());
        if slices_equal_chars(k.as_slice(), key.as_slice()) {
            return Some(i);
        }
        i = i + 1;
    }
    None
}

fn field_matches(members: &Vec<JsonMember>, needle: &str) -> (b: bool)
    ensures
        b == field_spec(members@.map_values(|m: JsonMember| member_view(m)), needle@),
{
    let n = chars_of(needle);
    let pos = match find_char(n.as_slice(), '=') {
        Some(p) => p,
        None => {
            return false;
        },
    };
    proof {
        lemma_first_pos(n@, '=');
    }
    let mut left: Vec<char> = Vec::new();
    let mut right: Vec<char> = Vec::new();
    let mut i: usize = 0;
    while i < n.len()
        invariant
            i <= n@.len(),
            pos < n@.len(),
            left@ == n@.take(if i < pos { i as int } else { pos as int }),
            right@ == (if i <= pos { Seq::<char>::empty() } else { n@.subrange(pos + 1, i as int) }),
        decreases n@.len() - i,
    {
        if i < pos {
            left.push(n[i]);
            assert(n@.take(i as int + 1) =~= n@.take(i as int).push(n@[i as int]));
        } else if i > pos {
            right.push(n[i]);
            assert(n@.subrange(pos + 1, i as int + 1) =~= (if i <= pos { Seq::<char>::empty() } else { n@.subrange(pos + 1, i as int) }).push(n@[i as int]));
        } else {
            assert(n@.subrange(pos + 1, pos + 1) =~= Seq::<char>::empty());
        }
        i = i + 1;
    }
    assert(right@ =~= n@.skip(pos + 1));
    let key = trim_chars(left.as_slice());
    let value = trim_chars(right.as_slice());
    match find_member(members, &key) {
        Some(j) => json_value_matches(&members[j], &value),
        None => false,
    }
}

/// The answer is a JSON object and every `key=value` item names a member
/// whose value matches.
pub fn grade_json_fields(answer: &str, expected: &Vec<String>) -> (b: bool)
    ensures
        b == json_fields_spec(answer@, strings_view(expected@)),
{
    let members = match json_object_members(answer) {
        Some(m) => m,
        None => {
            return false;
        },
    };
    let ghost mv = members@.map_values(|m: JsonMember| member_view(m));
    let ghost ev = strings_view(expected@);
    let mut i: usize = 0;
    while i < expected.len()
        invariant
            i <= expected@.len(),
            ev == strings_view(expected@),
            mv == members@.map_values(|m: JsonMember| member_view(m)),
            spec_json_members(answer@) == Some(mv),
            forall|k: int| 0 <= k < i ==> field_spec(mv, #[trigger] ev[k]),
        decreases expected@.len() - i,
    {
        assert(ev[i as int] == expected@[i as int]@);
        if !field_matches(&members, expected[i].as_str()) {
            return false;
        }
        i = i + 1;
    }
    true
}

pub open spec fn exact_spec(answer: Seq<char>, expected: Seq<Seq<char>>) -> bool {
    exists|i: int|
        0 <= i < expected.len() && ascii_lower_seq(answer) == ascii_lower_seq(
            trim_seq(#[trigger] expected[i]),
        )
}

/// An answer graded exactly passes just when, with surrounding whitespace
/// removed, it equals one of the expected answers (also trimmed) up to ASCII
/// case; so it has that answer's trimmed length, and an answer that only
/// contains an expected answer among other text fails.
pub proof fn lemma_exact_grade_is_case_blind_equality(answer: Seq<char>, test: TestCase)
    requires
        test.grader is Exact,
    ensures
        grade_spec(answer, test) <==> exists|i: int|
            0 <= i < test.expected@.len() && ascii_lower_seq(trim_seq(answer)) == ascii_lower_seq(
                trim_seq((#[trigger] test.expected@[i])@),
            ),
        grade_spec(answer, test) ==> exists|i: int|
            0 <= i < test.expected@.len() && trim_seq(answer).len() == trim_seq((#[trigger] test.expected@[i])@).len(),
        (forall|i: int| 0 <= i < test.expected@.len() ==> trim_seq(answer).len() != trim_seq((#[trigger] test.expected@[i])@).len())
            ==> !grade_spec(answer, test),
{
    let ev = strings_view(test.expected@);
    assert forall|i: int| 0 <= i < test.expected@.len() implies ev[i] == (#[trigger] test.expected@[i])@ by {}
    if grade_spec(answer, test) {
        let i = choose|i: int|
            0 <= i < ev.len() && ascii_lower_seq(trim_seq(answer)) == ascii_lower_seq(trim_seq(#[trigger] ev[i]));
        assert(ev[i] == test.expected@[i]@);
        assert(ascii_lower_seq(trim_seq(answer)).len() == trim_seq(answer).len());
        assert(ascii_lower_seq(trim_seq(ev[i])).len() == trim_seq(ev[i]).len());
    }
    if exists|i: int|
        0 <= i < test.expected@.len() && ascii_lower_seq(trim_seq(answer)) == ascii_lower_seq(
            trim_seq((#[trigger] test.expected@[i])@),
        ) {
        let i = choose|i: int|
            0 <= i < test.expected@.len() && ascii_lower_seq(trim_seq(answer)) == ascii_lower_seq(
                trim_seq((#[trigger] test.expected@[i])@),
            );
        assert(ev[i] == test.expected@[i]@);
    }
}

fn grade_exact(answer: &[char], expected: &Vec<String>) -> (b: bool)
    ensures
        b == exact_spec(answer@, strings_view(expected@)),
{
    let ghost ev = strings_view(expected@);
    let mut i: usize = 0;
    while i < expected.len()
        invariant
            i <= expected@.len(),
            ev == strings_view(expected@),
            forall|k: int|
                0 <= k < i ==> ascii_lower_seq(answer@) != ascii_lower_seq(trim_seq(#[trigger] ev[k])),
        decreases expected@.len() - i,
    {
        let e = trim_chars(chars_of(expected[i].as_str()).as_slice());
        if eq_ignore_ascii_case(answer, e.as_slice()) {
            assert(ev[i as int] == expected@[i as int]@);
            return true;
        }
        i = i + 1;
    }
    false
}

/// The outcome of grading a trimmed answer with a test's grader.
pub open spec fn grade_spec(answer: Seq<char>, test: TestCase) -> bool {
    let a = trim_seq(answer);
    let expected = strings_view(test.expected@);
    match test.grader {
        Grader::Exact => exact_spec(a, expected),
        Grader::Regex(pattern) => spec_regex_match(pattern@, a) == Some(true),
        Grader::Json => json_spec(a, expected),
        Grader::JsonFields => json_fields_spec(a, expected),
        Grader::ItemSet => all_contained(compact_spec(a), expected),
        Grader::Contains => all_contained(compact_spec(a), expected),
        Grader::LlmJudge => false,
        Grader::ExpectRefusal => refusal_spec(a),
    }
}

/// Grades an answer without calling a model: an LLM-judged test fails here
/// and is graded by the runner instead.
pub fn grade(answer: &str, test: &TestCase) -> (b: bool)
    ensures
        b == grade_spec(answer@, *test),
{
    let a = trim_chars(chars_of(answer).as_slice());
    let text = string_of(a.as_slice());
    match &test.grader {
        Grader::Exact => grade_exact(a.as_slice(), &test.expected),
        Grader::Regex(pattern) => match regex_is_match(pattern.as_str(), text.as_str()) {
            Some(m) => m,
            None => false,
        },
        Grader::Json => grade_json(text.as_str(), &test.expected),
        Grader::JsonFields => grade_json_fields(text.as_str(), &test.expected),
        Grader::ItemSet => grade_set(a.as_slice(), &test.expected),
        Grader::Contains => grade_set(a.as_slice(), &test.expected),
        Grader::LlmJudge => false,
        Grader::ExpectRefusal => grade_expect_refusal(text.as_str()),
    }
}


// ---------------------------------------------------------------------------
// LLM judge
// ---------------------------------------------------------------------------

#[derive(Debug)]
pub struct LlmJudgeResult {
    pub passed: bool,
    pub latency_ms: u64,
    pub input_tokens: u64,
    pub output_tokens: u64,
    pub http_status: Option<u16>,
    pub attempts: u32,
    pub error: Option<String>,
}

pub open spec fn judge_prompt_spec(
    answer: Seq<char>,
    question: Seq<char>,
    expected: Seq<Seq<char>>,
    context: Seq<char>,
) -> Seq<char> {
    "You are grading an answer to a question based on a context.\n\nContext:\n"@ + context
        + "\n\nQuestion:\n"@ + question + "\n\nExpected answer: "@ + join_seq(expected, ", "@)
        + "\n\nStudent's answer: "@ + answer
        + "\n\nIs the student's answer correct? Reply with only \"CORRECT\" or \"INCORRECT\"."@
}

/// The model that judges answers: the configured judge model, else the
/// provider's own model.
pub fn judge_model(grader: &GraderConfig, provider: &ProviderConfig) -> (m: String)
    ensures
        m@ == match grader.judge_model {
            Some(j) => j@,
            None => provider.model@,
        },
{
    match &grader.judge_model {
        Some(j) => j.clone(),
        None => provider.model.clone(),
    }
}

/// The prompt sent to the judge model.
pub fn judge_prompt(answer: &str, test: &TestCase, context: &str) -> (p: String)
    ensures
        p@ == judge_prompt_spec(answer@, test.question@, strings_view(test.expected@), context@),
{
    let mut r: Vec<char> = Vec::new();
    extend_str(&mut r, "You are grading an answer to a question based on a context.\n\nContext:\n");
    extend_str(&mut r, context);
    extend_str(&mut r, "\n\nQuestion:\n");
    extend_str(&mut r, test.question.as_str());
    extend_str(&mut r, "\n\nExpected answer: ");
    let joined = join_strings(&test.expected, ", ");
    extend_chars(&mut r, joined.as_slice());
    extend_str(&mut r, "\n\nStudent's answer: ");
    extend_str(&mut r, answer);
    extend_str(
        &mut r,
        "\n\nIs the student's answer correct? Reply with only \"CORRECT\" or \"INCORRECT\".",
    );
    string_of(r.as_slice())
}

/// The judge passes an answer when its uppercased reply says CORRECT and
/// never INCORRECT.
pub open spec fn judge_verdict_spec(reply: Seq<char>) -> bool {
    has_sub(spec_str_uppercase(reply), "CORRECT"@) && !has_sub(
        spec_str_uppercase(reply),
        "INCORRECT"@,
    )
}

pub fn judge_verdict(reply: &str) -> (b: bool)
    ensures
        b == judge_verdict_spec(reply@),
{
    let upper = chars_of(str_to_uppercase(reply).as_str());
    contains_str(upper.as_slice(), "CORRECT") && !contains_str(upper.as_slice(), "INCORRECT")
}


/// Statuses for which a judge request is sent again: 408, 429, 500, 502,
/// 503 and 504.
pub open spec fn judge_retryable_spec(status: u16) -> bool {
    status == 408 || status == 429 || status == 500 || status == 502 || status == 503 || status
        == 504
}

pub fn is_judge_retryable_status(status: u16) -> (b: bool)
    ensures
        b == judge_retryable_spec(status),
{
    status == 408 || status == 429 || status == 500 || status == 502 || status == 503 || status
        == 504
}


// ---------------------------------------------------------------------------
// Judge requests and replies
// ---------------------------------------------------------------------------

/// `base` without its trailing slashes.
pub open spec fn trim_trailing_slashes(base: Seq<char>) -> Seq<char>
    decreases base.len(),
{
    if base.len() > 0 && base.last() == '/' {
        trim_trailing_slashes(base.drop_last())
    } else {
        base
    }
}

/// An API endpoint: the base URL without trailing slashes, then the path.
pub fn endpoint_url(base_url: &str, path: &str) -> (u: String)
    ensures
        u@ == trim_trailing_slashes(base_url@) + path@,
{
    let b = chars_of(base_url);
    let mut n = b.len();
    assert(b@.take(b@.len() as int) =~= b@);
    while n > 0 && b[n - 1] == '/'
        invariant
            n <= b@.len(),
            trim_trailing_slashes(b@) == trim_trailing_slashes(b@.take(n as int)),
        decreases n,
    {
        assert(b@.take(n as int).drop_last() =~= b@.take(n as int - 1));
        n = n - 1;
    }
    let mut r: Vec<char> = Vec::new();
    let mut i: usize = 0;
    while i < n
        invariant
            i <= n <= b@.len(),
            r@ == b@.take(i as int),
        decreases n - i,
    {
        r.push(b[i]);
        assert(b@.take(i as int + 1) =~= b@.take(i as int).push(b@[i as int]));
        i = i + 1;
    }
    assert(b@.take(b@.len() as int) =~= b@);
    extend_str(&mut r, path);
    string_of(r.as_slice())
}

/// The path of a request style's endpoint.
pub fn endpoint_path(style: ProviderRequestStyle) -> (p: &'static str)
    ensures
        p@ == match style {
            ProviderRequestStyle::ChatCompletions => "/chat/completions"@,
            ProviderRequestStyle::Responses => "/responses"@,
        },
{
    match style {
        ProviderRequestStyle::ChatCompletions => "/chat/completions",
        ProviderRequestStyle::Responses => "/responses",
    }
}

/// The fields of a judge reply that grading reads, each present only where
/// the reply held it with the right JSON type.
pub struct JudgeReply {
    /// `choices[0].message.content`, a string.
    pub chat_content: Option<String>,
    /// `output_text`, a string.
    pub output_text: Option<String>,
    /// The `text` strings of the items in each `output[*].content`, in order.
    pub output_texts: Vec<String>,
    pub usage_prompt_tokens: Option<u64>,
    pub usage_completion_tokens: Option<u64>,
    pub usage_input_tokens: Option<u64>,
    pub usage_output_tokens: Option<u64>,
}

/// The first text that is not blank once trimmed, trimmed.
pub open spec fn first_nonblank(texts: Seq<Seq<char>>) -> Option<Seq<char>>
    decreases texts.len(),
{
    if texts.len() == 0 {
        None
    } else if trim_seq(texts[0]).len() > 0 {
        Some(trim_seq(texts[0]))
    } else {
        first_nonblank(texts.drop_first())
    }
}

/// The judge's reply text: for Chat Completions the first choice's content;
/// for Responses the trimmed `output_text` or else the first non-blank
/// content text; empty where there is none.
pub open spec fn judge_answer_spec(style: ProviderRequestStyle, reply: JudgeReply) -> Seq<char> {
    match style {
        ProviderRequestStyle::ChatCompletions => match opt_view(reply.chat_content) {
            Some(c) => c,
            None => seq![],
        },
        ProviderRequestStyle::Responses => match opt_view(reply.output_text) {
            Some(t) if trim_seq(t).len() > 0 => trim_seq(t),
            _ => match first_nonblank(strings_view(reply.output_texts@)) {
                Some(t) => t,
                None => seq![],
            },
        },
    }
}

pub fn judge_answer(style: ProviderRequestStyle, reply: &JudgeReply) -> (a: String)
    ensures
        a@ == judge_answer_spec(style, *reply),
{
    match style {
        ProviderRequestStyle::ChatCompletions => match &reply.chat_content {
            Some(c) => c.clone(),
            None => String::new(),
        },
        ProviderRequestStyle::Responses => {
            if let Some(t) = &reply.output_text {
                let tt = trim_chars(chars_of(t.as_str()).as_slice());
                if tt.len() > 0 {
                    return string_of(tt.as_slice());
                }
            }
            let ghost tv = strings_view(reply.output_texts@);
            let mut i: usize = 0;
            assert(tv.skip(0) =~= tv);
            while i < reply.output_texts.len()
                invariant
                    i <= reply.output_texts@.len(),
                    tv == strings_view(reply.output_texts@),
                    tv.len() == reply.output_texts@.len(),
                    style == ProviderRequestStyle::Responses,
                    first_nonblank(tv) == first_nonblank(tv.skip(i as int)),
                    !(reply.output_text is Some && trim_seq(reply.output_text->0@).len() > 0),
                decreases reply.output_texts@.len() - i,
            {
                assert(tv.skip(i as int)[0] == reply.output_texts@[i as int]@);
                assert(tv.skip(i as int).drop_first() =~= tv.skip(i as int + 1));
                let tt = trim_chars(chars_of(reply.output_texts[i].as_str()).as_slice());
                if tt.len() > 0 {
                    return string_of(tt.as_slice());
                }
                i = i + 1;
            }
            String::new()
        },
    }
}

/// The judge's verdict and usage from its reply: the prompt and reply token
/// counts it reports for the request style, else the estimate and a count of
/// the reply text (0 where the encoder cannot count it).
pub fn judge_result_from_reply(
    style: ProviderRequestStyle,
    reply: &JudgeReply,
    http_status: u16,
    attempts: u32,
    latency_ms: u64,
    estimated_input_tokens: u64,
    counter: &TokenCounter,
) -> (j: LlmJudgeResult)
    ensures
        j.passed == judge_verdict_spec(judge_answer_spec(style, *reply)),
        j.latency_ms == latency_ms,
        j.http_status == Some(http_status),
        j.attempts == attempts,
        j.error is None,
        j.input_tokens == match (style, reply.usage_prompt_tokens, reply.usage_input_tokens) {
            (ProviderRequestStyle::ChatCompletions, Some(t), _) => t,
            (ProviderRequestStyle::Responses, _, Some(t)) => t,
            _ => estimated_input_tokens,
        },
        j.output_tokens == match (style, reply.usage_completion_tokens, reply.usage_output_tokens) {
            (ProviderRequestStyle::ChatCompletions, Some(t), _) => t,
            (ProviderRequestStyle::Responses, _, Some(t)) => t,
            _ => token_count_or_zero(counter@, judge_answer_spec(style, *reply)),
        },
{
    let answer = judge_answer(style, reply);
    let passed = judge_verdict(answer.as_str());
    let (reported_in, reported_out) = match style {
        ProviderRequestStyle::ChatCompletions => (
            reply.usage_prompt_tokens,
            reply.usage_completion_tokens,
        ),
        ProviderRequestStyle::Responses => (reply.usage_input_tokens, reply.usage_output_tokens),
    };
    let input_tokens = match reported_in {
        Some(t) => t,
        None => estimated_input_tokens,
    };
    let output_tokens = match reported_out {
        Some(t) => t,
        None => match counter.count_tokens(answer.as_str()) {
            Some(n) => n,
            None => 0,
        },
    };
    LlmJudgeResult {
        passed,
        latency_ms,
        input_tokens,
        output_tokens,
        http_status: Some(http_status),
        attempts,
        error: None,
    }
}

/// A judge call that failed: it did not pass, and carries its error.
pub fn judge_failure(
    error: String,
    http_status: Option<u16>,
    attempts: u32,
    latency_ms: u64,
    input_tokens: u64,
) -> (j: LlmJudgeResult)
    ensures
        !j.passed,
        j.latency_ms == latency_ms,
        j.input_tokens == input_tokens,
        j.output_tokens == 0,
        j.http_status == http_status,
        j.attempts == attempts,
        opt_view(j.error) == Some(error@),
{
    LlmJudgeResult {
        passed: false,
        latency_ms,
        input_tokens,
        output_tokens: 0,
        http_status,
        attempts,
        error: Some(error),
    }
}

pub open spec fn judge_http_error_message(status_text: Seq<char>, body: Seq<char>) -> Seq<char> {
    "HTTP "@ + status_text + " from judge: "@ + trim_seq(body)
}

/// A judge reply that was not JSON: the judge call failed with its status.
pub fn judge_decode_failure(http_status: u16, attempts: u32, latency_ms: u64, input_tokens: u64) -> (j:
    LlmJudgeResult)
    ensures
        !j.passed,
        j.latency_ms == latency_ms,
        j.input_tokens == input_tokens,
        j.output_tokens == 0,
        j.http_status == Some(http_status),
        j.attempts == attempts,
        opt_view(j.error) == Some("failed to decode judge response JSON"@),
{
    judge_failure(
        String::from_str("failed to decode judge response JSON"),
        Some(http_status),
        attempts,
        latency_ms,
        input_tokens,
    )
}

/// The error text of a judge request answered with a failure status.
pub fn judge_http_error(status: u16, body: &str) -> (e: String)
    ensures
        e@ == judge_http_error_message(crate::runner::status_text_spec(status), body@),
{
    let mut m: Vec<char> = Vec::new();
    extend_str(&mut m, "HTTP ");
    extend_chars(&mut m, chars_of(crate::runner::status_text(status).as_str()).as_slice());
    extend_str(&mut m, " from judge: ");
    extend_chars(&mut m, trim_chars(chars_of(body).as_slice()).as_slice());
    string_of(m.as_slice())
}

// ---------------------------------------------------------------------------
// Expected answers count as a set
// ---------------------------------------------------------------------------

pub open spec fn same_items(e1: Seq<Seq<char>>, e2: Seq<Seq<char>>) -> bool {
    forall|x: Seq<char>| e1.contains(x) <==> e2.contains(x)
}

proof fn lemma_same_items_index(e1: Seq<Seq<char>>, e2: Seq<Seq<char>>, i: int) -> (j: int)
    requires
        same_items(e1, e2),
        0 <= i < e1.len(),
    ensures
        0 <= j < e2.len(),
        e2[j] == e1[i],
{
    assert(e1.contains(e1[i]));
    choose|j: int| 0 <= j < e2.len() && e2[j] == e1[i]
}

proof fn lemma_all_contained_same(hay: Seq<char>, e1: Seq<Seq<char>>, e2: Seq<Seq<char>>)
    requires
        same_items(e1, e2),
    ensures
        all_contained(hay, e1) ==> all_contained(hay, e2),
        exact_spec(hay, e1) ==> exact_spec(hay, e2),
        json_spec(hay, e1) ==> json_spec(hay, e2),
        json_fields_spec(hay, e1) ==> json_fields_spec(hay, e2),
{
    assert forall|x: Seq<char>| e2.contains(x) <==> e1.contains(x) by {}
    if all_contained(hay, e1) {
        assert forall|j: int| 0 <= j < e2.len() implies has_sub(hay, compact_spec(#[trigger] e2[j])) by {
            let i = lemma_same_items_index(e2, e1, j);
        }
    }
    if exact_spec(hay, e1) {
        let i = choose|i: int|
            0 <= i < e1.len() && ascii_lower_seq(hay) == ascii_lower_seq(trim_seq(#[trigger] e1[i]));
        let j = lemma_same_items_index(e1, e2, i);
        assert(ascii_lower_seq(hay) == ascii_lower_seq(trim_seq(e2[j])));
    }
    if json_spec(hay, e1) {
        if e2.len() > 0 {
            assert(e2.contains(e2[0]));
            assert(e1.len() > 0);
        }
        assert forall|j: int| 0 <= j < e2.len() implies (match spec_json_compact(hay) {
            Some(rendered) => has_sub(rendered, #[trigger] e2[j]) || has_sub(hay, e2[j]),
            None => false,
        }) by {
            let i = lemma_same_items_index(e2, e1, j);
        }
    }
    if json_fields_spec(hay, e1) {
        assert forall|j: int| 0 <= j < e2.len() implies (match spec_json_members(hay) {
            Some(members) => field_spec(members, #[trigger] e2[j]),
            None => false,
        }) by {
            let i = lemma_same_items_index(e2, e1, j);
        }
    }
}

/// A verdict depends on the expected answers as a set: two tests that
/// differ only in the order or repetition of their expected answers grade
/// every answer alike.
pub proof fn lemma_grading_ignores_expected_order(answer: Seq<char>, t1: TestCase, t2: TestCase)
    requires
        t1 == (TestCase { expected: t1.expected, ..t2 }),
        same_items(strings_view(t1.expected@), strings_view(t2.expected@)),
    ensures
        grade_spec(answer, t1) == grade_spec(answer, t2),
{
    let e1 = strings_view(t1.expected@);
    let e2 = strings_view(t2.expected@);
    let a = trim_seq(answer);
    lemma_all_contained_same(a, e1, e2);
    lemma_all_contained_same(compact_spec(a), e1, e2);
    assert forall|x: Seq<char>| e2.contains(x) <==> e1.contains(x) by {}
    lemma_all_contained_same(a, e2, e1);
    lemma_all_contained_same(compact_spec(a), e2, e1);
}

} // verus!
