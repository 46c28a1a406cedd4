use vstd::prelude::*;


use crate::benchmark::{
    str_eq, meta_get, meta_lookup, keys_unique, pairs_view, RoutingCandidate, RoutingConfidence, RoutingDecision,
    SuiteManifest, TestCase, SCHEMA_VERSION,
};
use crate::text::{
    ascii_lower, ascii_lower_seq, chars_of, contains_chars, eq_ignore_ascii_case, has_sub,
    is_ascii_alnum, is_ascii_alphanumeric, lex_less, lex_lt, parse_u64, parse_u64_spec,
    extend_str, strings_view, string_of, to_ascii_lower_char, trim_chars, trim_seq,
};

verus! {

#[derive(Clone)]
pub struct ContextIndex {
    pub schema_version: u32,
    pub bench_id: String,
    pub created_at_unix_ms: u64,
    pub contexts: Vec<ContextIndexEntry>,
}

#[derive(Clone)]
pub struct ContextIndexEntry {
    pub context_id: String,
    pub path: String,
    pub sha256: String,
    pub suite: String,
    pub token_count: u64,
    pub seed: u64,
    pub source_manifests: Vec<String>,
    pub test_ids: Vec<String>,
    pub title: String,
    pub summary: String,
    pub keywords: Vec<String>,
    pub safe_anchors: Vec<String>,
    pub metadata: Vec<(String, String)>,
}

// ---------------------------------------------------------------------------
// Tokens
// ---------------------------------------------------------------------------

/// ASCII-lowercased, with `_` and `-` removed.
pub open spec fn norm_token(s: Seq<char>) -> Seq<char>
    decreases s.len(),
{
    if s.len() == 0 {
        seq![]
    } else {
        let c = ascii_lower(s.last());
        if c == '_' || c == '-' {
            norm_token(s.drop_last())
        } else {
            norm_token(s.drop_last()).push(c)
        }
    }
}

pub fn normalize_token(text: &[char]) -> (r: Vec<char>)
    ensures
        r@ == norm_token(text@),
{
    let mut r: Vec<char> = Vec::new();
    let mut i: usize = 0;
    while i < text.len()
        invariant
            i <= text@.len(),
            r@ == norm_token(text@.take(i as int)),
        decreases text@.len() - i,
    {
        assert(text@.take(i as int + 1).drop_last() =~= text@.take(i as int));
        let c = to_ascii_lower_char(text[i]);
        if c != '_' && c != '-' {
            r.push(c);
        }
        i = i + 1;
    }
    assert(text@.take(text@.len() as int) =~= text@);
    r
}

/// The pieces of `str::split` on every character that is not ASCII
/// alphanumeric (empty pieces included).
pub open spec fn split_pieces(s: Seq<char>) -> Seq<Seq<char>>
    decreases s.len(),
{
    if s.len() == 0 {
        seq![seq![]]
    } else {
        let p = split_pieces(s.drop_last());
        let c = s.last();
        if !is_ascii_alnum(c) {
            p.push(seq![])
        } else {
            p.update(p.len() - 1, p.last().push(c))
        }
    }
}

proof fn lemma_split_pieces_nonempty(s: Seq<char>)
    ensures
        split_pieces(s).len() >= 1,
    decreases s.len(),
{
    if s.len() > 0 {
        lemma_split_pieces_nonempty(s.drop_last());
    }
}

/// The normalized pieces of at least three characters, in order.
pub open spec fn keep_tokens(ps: Seq<Seq<char>>) -> Seq<Seq<char>>
    decreases ps.len(),
{
    if ps.len() == 0 {
        seq![]
    } else {
        keep_tokens(ps.drop_last()) + (if norm_token(ps.last()).len() >= 3 {
            seq![norm_token(ps.last())]
        } else {
            seq![]
        })
    }
}

/// Query terms of a text. The pieces are ASCII, so their length in
/// characters equals their length in bytes.
pub open spec fn tokens_of(s: Seq<char>) -> Seq<Seq<char>> {
    keep_tokens(split_pieces(s))
}

fn flush_token(out: &mut Vec<String>, cur: &Vec<char>)
    ensures
        strings_view(final(out)@) == strings_view(old(out)@) + (if norm_token(cur@).len() >= 3 {
            seq![norm_token(cur@)]
        } else {
            seq![]
        }),
{
    let t = normalize_token(cur.as_slice());
    let ghost before = strings_view(out@);
    if t.len() >= 3 {
        out.push(string_of(t.as_slice()));
        assert(strings_view(out@) =~= before + seq![norm_token(cur@)]);
    } else {
        assert(before + seq![] =~= before);
    }
}

pub fn tokenize_query(text: &[char]) -> (r: Vec<String>)
    ensures
        strings_view(r@) == tokens_of(text@),
{
    let mut out: Vec<String> = Vec::new();
    let mut cur: Vec<char> = Vec::new();
    let ghost mut done: Seq<Seq<char>> = seq![];
    let mut i: usize = 0;
    assert(text@.take(0) =~= Seq::<char>::empty());
    assert(split_pieces(text@.take(0)) =~= done.push(cur@));
    while i < text.len()
        invariant
            i <= text@.len(),
            split_pieces(text@.take(i as int)) == done.push(cur@),
            strings_view(out@) == keep_tokens(done),
        decreases text@.len() - i,
    {
        let c = text[i];
        assert(text@.take(i as int + 1).drop_last() =~= text@.take(i as int));
        assert(text@.take(i as int + 1).last() == c);
        if !is_ascii_alphanumeric(c) {
            flush_token(&mut out, &cur);
            proof {
                assert(done.push(cur@).drop_last() =~= done);
                done = done.push(cur@);
            }
            cur = Vec::new();
            assert(split_pieces(text@.take(i as int + 1)) =~= done.push(cur@));
        } else {
            let ghost old_cur = cur@;
            cur.push(c);
            assert(split_pieces(text@.take(i as int + 1)) =~= done.push(old_cur).update(
                done.len() as int,
                old_cur.push(c),
            ));
            assert(done.push(old_cur).update(done.len() as int, old_cur.push(c)) =~= done.push(
                cur@,
            ));
        }
        i = i + 1;
    }
    flush_token(&mut out, &cur);
    assert(text@.take(text@.len() as int) =~= text@);
    assert(done.push(cur@).drop_last() =~= done);
    out
}

// ---------------------------------------------------------------------------
// Metadata that the router may look at
// ---------------------------------------------------------------------------

/// Metadata keys whose normalized form contains one of these words may hold
/// answers and are never used for routing.
pub open spec fn is_safe_key_spec(key: Seq<char>) -> bool {
    let n = norm_token(key);
    !(has_sub(n, "answer"@) || has_sub(n, "answers"@) || has_sub(n, "expected"@) || has_sub(
        n,
        "expectedanswer"@,
    ) || has_sub(n, "secret"@) || has_sub(n, "secrets"@) || has_sub(n, "password"@) || has_sub(
        n,
        "passcode"@,
    ) || has_sub(n, "code"@) || has_sub(n, "value"@) || has_sub(n, "targetvalue"@))
}

pub fn is_router_safe_metadata_key(key: &str) -> (b: bool)
    ensures
        b == is_safe_key_spec(key@),
{
    let k = chars_of(key);
    let n = normalize_token(k.as_slice());
    let s = n.as_slice();
    !(crate::text::contains_str(s, "answer") || crate::text::contains_str(s, "answers")
        || crate::text::contains_str(s, "expected") || crate::text::contains_str(
        s,
        "expectedanswer",
    ) || crate::text::contains_str(s, "secret") || crate::text::contains_str(s, "secrets")
        || crate::text::contains_str(s, "password") || crate::text::contains_str(s, "passcode")
        || crate::text::contains_str(s, "code") || crate::text::contains_str(s, "value")
        || crate::text::contains_str(s, "targetvalue"))
}

pub open spec fn pair_view(p: (String, String)) -> (Seq<char>, Seq<char>) {
    (p.0@, p.1@)
}

/// The pairs of `m` whose keys are safe, in order.
pub open spec fn safe_pairs(m: Seq<(String, String)>) -> Seq<(Seq<char>, Seq<char>)>
    decreases m.len(),
{
    if m.len() == 0 {
        seq![]
    } else if is_safe_key_spec(m.last().0@) {
        safe_pairs(m.drop_last()).push(pair_view(m.last()))
    } else {
        safe_pairs(m.drop_last())
    }
}

pub fn router_safe_metadata(metadata: &Vec<(String, String)>) -> (r: Vec<(String, String)>)
    ensures
        pairs_view(r@) == safe_pairs(metadata@),
{
    let mut r: Vec<(String, String)> = Vec::new();
    let mut i: usize = 0;
    while i < metadata.len()
        invariant
            i <= metadata@.len(),
            pairs_view(r@) == safe_pairs(metadata@.take(i as int)),
        decreases metadata@.len() - i,
    {
        assert(metadata@.take(i as int + 1).drop_last() =~= metadata@.take(i as int));
        assert(metadata@.take(i as int + 1).last() == metadata@[i as int]);
        if is_router_safe_metadata_key(metadata[i].0.as_str()) {
            let ghost before = r@;
            r.push((metadata[i].0.clone(), metadata[i].1.clone()));
            assert(pairs_view(r@) =~= pairs_view(before).push(pair_view(metadata@[i as int])));
        }
        i = i + 1;
    }
    assert(metadata@.take(metadata@.len() as int) =~= metadata@);
    r
}

/// Keywords contributed by the safe metadata pairs, in order.
pub open spec fn metadata_keywords(m: Seq<(String, String)>) -> Seq<Seq<char>>
    decreases m.len(),
{
    if m.len() == 0 {
        seq![]
    } else if is_safe_key_spec(m.last().0@) {
        metadata_keywords(m.drop_last()) + tokens_of(m.last().0@) + tokens_of(m.last().1@)
    } else {
        metadata_keywords(m.drop_last())
    }
}

pub open spec fn keywords_spec(
    manifest_name: Seq<char>,
    suite: Seq<char>,
    test: TestCase,
) -> Seq<Seq<char>> {
    tokens_of(manifest_name) + tokens_of(suite) + tokens_of(test.id@) + tokens_of(test.question@)
        + metadata_keywords(test.metadata@)
}

fn append_strings(a: &mut Vec<String>, b: Vec<String>)
    ensures
        strings_view(final(a)@) == strings_view(old(a)@) + strings_view(b@),
{
    let mut b = b;
    let ghost bv = strings_view(b@);
    let ghost av = strings_view(a@);
    a.append(&mut b);
    assert(strings_view(a@) =~= av + bv);
}

/// Routing keywords for one test: tokens of the manifest name, suite, test id,
/// question, and every safe metadata key and value.
pub fn keywords_for_test(manifest_name: &str, suite: &str, test: &TestCase) -> (r: Vec<String>)
    ensures
        strings_view(r@) == keywords_spec(manifest_name@, suite@, *test),
{
    let mut keywords: Vec<String> = Vec::new();
    append_strings(&mut keywords, tokenize_query(chars_of(manifest_name).as_slice()));
    append_strings(&mut keywords, tokenize_query(chars_of(suite).as_slice()));
    append_strings(&mut keywords, tokenize_query(chars_of(test.id.as_str()).as_slice()));
    append_strings(&mut keywords, tokenize_query(chars_of(test.question.as_str()).as_slice()));
    let ghost head = strings_view(keywords@);
    assert(head =~= seq![] + tokens_of(manifest_name@) + tokens_of(suite@) + tokens_of(test.id@)
        + tokens_of(test.question@));
    let m = &test.metadata;
    let mut i: usize = 0;
    while i < m.len()
        invariant
            i <= m@.len(),
            strings_view(keywords@) == head + metadata_keywords(m@.take(i as int)),
        decreases m@.len() - i,
    {
        assert(m@.take(i as int + 1).drop_last() =~= m@.take(i as int));
        assert(m@.take(i as int + 1).last() == m@[i as int]);
        if is_router_safe_metadata_key(m[i].0.as_str()) {
            append_strings(&mut keywords, tokenize_query(chars_of(m[i].0.as_str()).as_slice()));
            append_strings(&mut keywords, tokenize_query(chars_of(m[i].1.as_str()).as_slice()));
            assert(head + metadata_keywords(m@.take(i as int + 1)) =~= head + metadata_keywords(
                m@.take(i as int),
            ) + tokens_of(m@[i as int].0@) + tokens_of(m@[i as int].1@));
        }
        i = i + 1;
    }
    assert(m@.take(m@.len() as int) =~= m@);
    keywords
}


// ---------------------------------------------------------------------------
// Scoring one context for one test
// ---------------------------------------------------------------------------

pub open spec fn suite_match_spec(test: TestCase, entry: ContextIndexEntry) -> bool {
    meta_lookup(test.metadata@, "suite"@) == Some(entry.suite@)
}

pub open spec fn token_count_match_spec(test: TestCase, entry: ContextIndexEntry) -> bool {
    match meta_lookup(test.metadata@, "token_count"@) {
        Some(v) => parse_u64_spec(v) == Some(entry.token_count),
        None => false,
    }
}

/// The normalized test id contains the normalized context id or suite.
pub open spec fn id_match_spec(test: TestCase, entry: ContextIndexEntry) -> bool {
    let id = norm_token(test.id@);
    let a = norm_token(entry.context_id@);
    let b = norm_token(entry.suite@);
    (a.len() > 0 && has_sub(id, a)) || (b.len() > 0 && has_sub(id, b))
}

pub open spec fn query_terms_spec(test: TestCase) -> Seq<Seq<char>> {
    tokens_of(test.id@ + seq![' '] + test.question@)
}

/// How many query terms (with repetition) are among the keywords.
pub open spec fn count_hits(terms: Seq<Seq<char>>, keywords: Seq<Seq<char>>) -> nat
    decreases terms.len(),
{
    if terms.len() == 0 {
        0
    } else {
        count_hits(terms.drop_last(), keywords) + (if keywords.contains(terms.last()) {
            1nat
        } else {
            0nat
        })
    }
}

pub open spec fn hits_spec(test: TestCase, entry: ContextIndexEntry) -> nat {
    count_hits(query_terms_spec(test), strings_view(entry.keywords@))
}

/// The candidate score in half points: suite 5, token count 2, id 2, and half
/// a point per keyword hit up to 4.
pub open spec fn score_spec(test: TestCase, entry: ContextIndexEntry) -> u64 {
    let h = hits_spec(test, entry);
    ((if suite_match_spec(test, entry) { 10int } else { 0int }) + (if token_count_match_spec(
        test,
        entry,
    ) {
        4int
    } else {
        0int
    }) + (if id_match_spec(test, entry) { 4int } else { 0int }) + (if h > 8 {
        8int
    } else {
        h as int
    })) as u64
}

pub open spec fn reasons_spec(test: TestCase, entry: ContextIndexEntry) -> Seq<Seq<char>> {
    (if suite_match_spec(test, entry) { seq!["suite_match"@] } else { seq![] }) + (
    if token_count_match_spec(test, entry) {
        seq!["token_count_match"@]
    } else {
        seq![]
    }) + (if id_match_spec(test, entry) { seq!["id_prefix_match"@] } else { seq![] }) + (
    if hits_spec(test, entry) > 0 {
        seq!["keyword_overlap"@]
    } else {
        seq![]
    })
}

/// What the contracts say of a candidate: id, path, score and reasons.
pub type CandView = (Seq<char>, Seq<char>, u64, Seq<Seq<char>>);

pub open spec fn cand_view(c: RoutingCandidate) -> CandView {
    (c.context_id@, c.path@, c.score_halves, strings_view(c.reasons@))
}

pub open spec fn cands_view(s: Seq<RoutingCandidate>) -> Seq<CandView> {
    s.map_values(|c: RoutingCandidate| cand_view(c))
}

pub open spec fn scored_view(test: TestCase, entry: ContextIndexEntry) -> CandView {
    (entry.context_id@, entry.path@, score_spec(test, entry), reasons_spec(test, entry))
}

/// Of two contexts that differ only in their suite, the one whose suite is
/// the test's own scores five points (ten half points) more, when the test id
/// names neither suite alike; so with no token count, no id match and equal
/// keyword hits, a context of the test's suite always outranks one of
/// another suite.
pub proof fn lemma_suite_match_adds_five_points(test: TestCase, same: ContextIndexEntry, other: ContextIndexEntry)
    requires
        same.context_id@ == other.context_id@,
        same.token_count == other.token_count,
        strings_view(same.keywords@) == strings_view(other.keywords@),
        meta_lookup(test.metadata@, "suite"@) == Some(same.suite@),
        other.suite@ != same.suite@,
        id_match_spec(test, same) == id_match_spec(test, other),
    ensures
        scored_view(test, same).2 == scored_view(test, other).2 + 10,
        scored_view(test, same).2 > scored_view(test, other).2,
{
}

/// Of two contexts that differ only in their token count, the one whose
/// count is the test's stated `token_count` scores two points (four half
/// points) more.
pub proof fn lemma_token_count_match_adds_two_points(test: TestCase, same: ContextIndexEntry, other: ContextIndexEntry)
    requires
        same.context_id@ == other.context_id@,
        same.suite@ == other.suite@,
        strings_view(same.keywords@) == strings_view(other.keywords@),
        meta_lookup(test.metadata@, "token_count"@) matches Some(v) && parse_u64_spec(v) == Some(same.token_count),
        other.token_count != same.token_count,
    ensures
        scored_view(test, same).2 == scored_view(test, other).2 + 4,
{
}

fn contains_string(v: &Vec<String>, x: &[char]) -> (b: bool)
    ensures
        b == strings_view(v@).contains(x@),
{
    let mut i: usize = 0;
    while i < v.len()
        invariant
            i <= v@.len(),
            forall|k: int| 0 <= k < i ==> v@[k]@ != x@,
        decreases v@.len() - i,
    {
        let c = chars_of(v[i].as_str());
        if crate::text::slices_equal_chars(c.as_slice(), x) {
            assert(strings_view(v@)[i as int] == x@);
            return true;
        }
        i = i + 1;
    }
    assert forall|k: int| 0 <= k < strings_view(v@).len() implies strings_view(v@)[k] != x@ by {}
    false
}

fn count_keyword_hits(terms: &Vec<String>, keywords: &Vec<String>) -> (n: u64)
    ensures
        n as nat == count_hits(strings_view(terms@), strings_view(keywords@)),
{
    let mut n: u64 = 0;
    let mut i: usize = 0;
    while i < terms.len()
        invariant
            i <= terms@.len(),
            n <= i,
            n as nat == count_hits(strings_view(terms@).take(i as int), strings_view(keywords@)),
        decreases terms@.len() - i,
    {
        assert(strings_view(terms@).take(i as int + 1).drop_last() =~= strings_view(terms@).take(
            i as int,
        ));
        let t = chars_of(terms[i].as_str());
        if contains_string(keywords, t.as_slice()) {
            n = n + 1;
        }
        i = i + 1;
    }
    assert(strings_view(terms@).take(terms@.len() as int) =~= strings_view(terms@));
    n
}

fn id_signal_matches(normalized_id: &Vec<char>, signal: &str) -> (b: bool)
    ensures
        b == (norm_token(signal@).len() > 0 && has_sub(normalized_id@, norm_token(signal@))),
{
    let s = normalize_token(chars_of(signal).as_slice());
    s.len() > 0 && contains_chars(normalized_id.as_slice(), s.as_slice())
}

pub fn score_candidate(test: &TestCase, entry: &ContextIndexEntry) -> (c: RoutingCandidate)
    ensures
        cand_view(c) == scored_view(*test, *entry),
{
    let mut score: u64 = 0;
    let mut reasons: Vec<String> = Vec::new();
    let suite_hit = match meta_get(&test.metadata, "suite") {
        Some(v) => crate::benchmark::str_eq(v.as_str(), entry.suite.as_str()),
        None => false,
    };
    assert(suite_hit == suite_match_spec(*test, *entry));
    if suite_hit {
        score = score + 10;
        reasons.push(String::from_str("suite_match"));
    }
    let ghost r1 = if suite_hit { seq!["suite_match"@] } else { Seq::<Seq<char>>::empty() };
    assert(strings_view(reasons@) =~= r1);
    let token_hit = match meta_get(&test.metadata, "token_count") {
        Some(v) => match parse_u64(chars_of(v.as_str()).as_slice()) {
            Some(n) => n == entry.token_count,
            None => false,
        },
        None => false,
    };
    assert(token_hit == token_count_match_spec(*test, *entry));
    if token_hit {
        score = score + 4;
        reasons.push(String::from_str("token_count_match"));
    }
    let ghost r2 = r1 + if token_hit { seq!["token_count_match"@] } else { Seq::<Seq<char>>::empty() };
    assert(strings_view(reasons@) =~= r2);
    let normalized_id = normalize_token(chars_of(test.id.as_str()).as_slice());
    let id_hit = id_signal_matches(&normalized_id, entry.context_id.as_str()) || id_signal_matches(
        &normalized_id,
        entry.suite.as_str(),
    );
    assert(id_hit == id_match_spec(*test, *entry));
    if id_hit {
        score = score + 4;
        reasons.push(String::from_str("id_prefix_match"));
    }
    let ghost r3 = r2 + if id_hit { seq!["id_prefix_match"@] } else { Seq::<Seq<char>>::empty() };
    assert(strings_view(reasons@) =~= r3);
    let mut query: Vec<char> = chars_of(test.id.as_str());
    query.push(' ');
    crate::text::extend_str(&mut query, test.question.as_str());
    assert(query@ =~= test.id@ + seq![' '] + test.question@);
    let terms = tokenize_query(query.as_slice());
    let hits = count_keyword_hits(&terms, &entry.keywords);
    assert(hits as nat == hits_spec(*test, *entry));
    if hits > 0 {
        score = score + if hits > 8 { 8 } else { hits };
        reasons.push(String::from_str("keyword_overlap"));
    }
    let ghost r4 = r3 + if hits > 0 { seq!["keyword_overlap"@] } else { Seq::<Seq<char>>::empty() };
    assert(strings_view(reasons@) =~= r4);
    assert(r4 =~= reasons_spec(*test, *entry));
    RoutingCandidate {
        context_id: entry.context_id.clone(),
        path: entry.path.clone(),
        score_halves: score,
        reasons,
    }
}

// ---------------------------------------------------------------------------
// Ranking candidates
// ---------------------------------------------------------------------------

/// `a` ranks above `b`: a higher score, or an equal score and a smaller id.
pub open spec fn ranks_above(a: CandView, b: CandView) -> bool {
    a.2 > b.2 || (a.2 == b.2 && lex_lt(a.0, b.0))
}

/// The position of the first candidate that no other candidate ranks above.
pub open spec fn best_index(s: Seq<CandView>) -> int
    decreases s.len(),
{
    if s.len() <= 1 {
        0
    } else {
        let j = best_index(s.drop_last());
        if ranks_above(s.last(), s[j]) {
            s.len() - 1
        } else {
            j
        }
    }
}

/// The first `k` candidates of a stable sort by rank.
pub open spec fn top_ranked(s: Seq<CandView>, k: nat) -> Seq<CandView>
    decreases k,
{
    if k == 0 || s.len() == 0 {
        seq![]
    } else {
        let j = best_index(s);
        seq![s[j]] + top_ranked(s.remove(j), (k - 1) as nat)
    }
}

proof fn lemma_best_index_bounds(s: Seq<CandView>)
    requires
        s.len() > 0,
    ensures
        0 <= best_index(s) < s.len(),
    decreases s.len(),
{
    if s.len() > 1 {
        lemma_best_index_bounds(s.drop_last());
    }
}

fn best_candidate(s: &Vec<RoutingCandidate>) -> (j: usize)
    requires
        s@.len() > 0,
    ensures
        j == best_index(cands_view(s@)),
        j < s@.len(),
{
    let ghost v = cands_view(s@);
    let mut j: usize = 0;
    let mut i: usize = 1;
    assert(v.take(1).len() == 1);
    while i < s.len()
        invariant
            1 <= i <= s@.len(),
            v == cands_view(s@),
            j < i,
            j == best_index(v.take(i as int)),
        decreases s@.len() - i,
    {
        assert(v.take(i as int + 1).drop_last() =~= v.take(i as int));
        assert(v.take(i as int + 1)[j as int] == v[j as int]);
        assert(v.take(i as int + 1).last() == v[i as int]);
        let a = chars_of(s[i].context_id.as_str());
        let b = chars_of(s[j].context_id.as_str());
        let above = s[i].score_halves > s[j].score_halves || (s[i].score_halves
            == s[j].score_halves && lex_less(a.as_slice(), b.as_slice()));
        if above {
            j = i;
        }
        i = i + 1;
    }
    assert(v.take(s@.len() as int) =~= v);
    j
}

/// Sorts candidates by rank (stable) and keeps the first five.
fn rank_candidates(scored: Vec<RoutingCandidate>) -> (r: Vec<RoutingCandidate>)
    ensures
        cands_view(r@) == top_ranked(cands_view(scored@), 5),
{
    let mut rest = scored;
    let mut out: Vec<RoutingCandidate> = Vec::new();
    let mut round: usize = 0;
    while round < 5 && rest.len() > 0
        invariant
            round <= 5,
            cands_view(out@) + top_ranked(cands_view(rest@), (5 - round) as nat) == top_ranked(
                cands_view(scored@),
                5,
            ),
        decreases 5 - round,
    {
        let j = best_candidate(&rest);
        let ghost rv = cands_view(rest@);
        let ghost ov = cands_view(out@);
        let c = rest.remove(j);
        assert(cands_view(rest@) =~= rv.remove(j as int));
        out.push(c);
        assert(cands_view(out@) =~= ov.push(rv[j as int]));
        assert(top_ranked(rv, (5 - round) as nat) == seq![rv[j as int]] + top_ranked(
            rv.remove(j as int),
            (5 - round - 1) as nat,
        ));
        assert(ov.push(rv[j as int]) + top_ranked(rv.remove(j as int), (5 - round - 1) as nat)
            =~= ov + (seq![rv[j as int]] + top_ranked(rv.remove(j as int), (5 - round - 1) as nat)));
        round = round + 1;
    }
    assert(top_ranked(cands_view(rest@), (5 - round) as nat) =~= Seq::<CandView>::empty());
    assert(cands_view(out@) + Seq::<CandView>::empty() =~= cands_view(out@));
    out
}


// ---------------------------------------------------------------------------
// Routing decisions
// ---------------------------------------------------------------------------

pub open spec fn opt_view(o: Option<String>) -> Option<Seq<char>> {
    match o {
        Some(s) => Some(s@),
        None => None,
    }
}

pub open spec fn method_spec(reasons: Seq<Seq<char>>) -> Seq<char> {
    let metadata = reasons.contains("suite_match"@) || reasons.contains("token_count_match"@);
    let lexical = reasons.contains("keyword_overlap"@) || reasons.contains("id_prefix_match"@);
    if metadata && lexical {
        "hybrid"@
    } else if metadata {
        "metadata"@
    } else if lexical {
        "lexical"@
    } else {
        "none"@
    }
}

pub fn routing_method(candidate: &RoutingCandidate) -> (m: String)
    ensures
        m@ == method_spec(strings_view(candidate.reasons@)),
{
    let r = &candidate.reasons;
    let metadata = contains_string(r, chars_of("suite_match").as_slice()) || contains_string(
        r,
        chars_of("token_count_match").as_slice(),
    );
    let lexical = contains_string(r, chars_of("keyword_overlap").as_slice()) || contains_string(
        r,
        chars_of("id_prefix_match").as_slice(),
    );
    if metadata && lexical {
        String::from_str("hybrid")
    } else if metadata {
        String::from_str("metadata")
    } else if lexical {
        String::from_str("lexical")
    } else {
        String::from_str("none")
    }
}

/// The router accepts its top candidate when the top score (in half points)
/// is positive, no other candidate ties it, and the confidence
/// `0.35 + 0.65 * max(margin / max(top, 1), top / 8)` reaches 0.55; a single
/// candidate has confidence 1. In half points the confidence condition is
/// `13 * top >= 64 || 13 * (top - second) >= 4 * max(top, 2)`.
pub open spec fn accept_spec(top: u64, second: u64, count: nat) -> bool {
    top > 0 && (count <= 1 || (second < top && (13 * top >= 64 || 13 * (top - second) >= 4 * (
    if top > 2 {
        top as int
    } else {
        2
    }))))
}

pub fn accepts(top: u64, second: u64, count: usize) -> (b: bool)
    ensures
        b == accept_spec(top, second, count as nat),
{
    if top == 0 {
        return false;
    }
    if count <= 1 {
        return true;
    }
    if second >= top {
        return false;
    }
    let floor: u64 = if top > 2 { top } else { 2 };
    (top as u128) * 13 >= 64 || ((top - second) as u128) * 13 >= (floor as u128) * 4
}

pub open spec fn scored_all(test: TestCase, entries: Seq<ContextIndexEntry>) -> Seq<CandView> {
    entries.map_values(|e: ContextIndexEntry| scored_view(test, e))
}

/// The ranked candidates the router reports for a test.
pub open spec fn ranked_spec(test: TestCase, index: ContextIndex) -> Seq<CandView> {
    top_ranked(scored_all(test, index.contexts@), 5)
}

pub open spec fn second_score(ranked: Seq<CandView>) -> u64 {
    if ranked.len() > 1 {
        ranked[1].2
    } else {
        0
    }
}

/// What the router decides for a test from the index alone: the ranked
/// candidates, and the top one when its lead is clear enough.
pub open spec fn route_spec(test: TestCase, index: ContextIndex, d: RoutingDecision) -> bool {
    &&& d.schema_version == SCHEMA_VERSION
    &&& d.test_id@ == test.id@
    &&& cands_view(d.candidates@) == ranked_spec(test, index)
    &&& !d.llm_router_used
    &&& d.input_tokens == 0
    &&& d.output_tokens == 0
    &&& d.latency_ms == 0
    &&& ({
        let ranked = ranked_spec(test, index);
        if ranked.len() == 0 {
            &&& d.method@ == "none"@
            &&& d.status@ == "error"@
            &&& d.selected_context_id is None
            &&& d.selected_context_path is None
            &&& d.confidence == (RoutingConfidence::Scores {
                top_halves: 0,
                second_halves: 0,
                candidate_count: 0,
            })
            &&& opt_view(d.reason) == Some("empty_context_index"@)
        } else {
            let top = ranked[0].2;
            let second = second_score(ranked);
            let accepted = accept_spec(top, second, ranked.len());
            &&& d.method@ == method_spec(ranked[0].3)
            &&& d.confidence == (RoutingConfidence::Scores {
                top_halves: top,
                second_halves: second,
                candidate_count: ranked.len() as u64,
            })
            &&& accepted ==> {
                &&& d.status@ == "selected"@
                &&& opt_view(d.selected_context_id) == Some(ranked[0].0)
                &&& opt_view(d.selected_context_path) == Some(ranked[0].1)
                &&& opt_view(d.reason) == Some("local_router_selected_top_candidate"@)
            }
            &&& !accepted ==> {
                &&& d.status@ == "ambiguous"@
                &&& d.selected_context_id is None
                &&& d.selected_context_path is None
                &&& opt_view(d.reason) == Some("local_router_confidence_below_threshold"@)
            }
        }
    })
}

/// The router never selects between tied top candidates: when the two best
/// candidates have the same score, no context is selected.
pub proof fn lemma_router_refuses_ties(test: TestCase, index: ContextIndex, d: RoutingDecision)
    requires
        route_spec(test, index, d),
        ranked_spec(test, index).len() >= 2,
        ranked_spec(test, index)[0].2 == ranked_spec(test, index)[1].2,
    ensures
        d.status@ == "ambiguous"@,
        d.selected_context_id is None,
        d.selected_context_path is None,
{
}

/// The router does not read expected answers or graders: two tests that
/// differ only in those get the same candidates and the same decision.
pub proof fn lemma_router_ignores_expected(t1: TestCase, t2: TestCase, index: ContextIndex, d: RoutingDecision)
    requires
        t1 == (TestCase { expected: t1.expected, grader: t1.grader, ..t2 }),
    ensures
        ranked_spec(t1, index) == ranked_spec(t2, index),
        route_spec(t1, index, d) <==> route_spec(t2, index, d),
{
    assert forall|e: ContextIndexEntry| scored_view(t1, e) == scored_view(t2, e) by {}
    assert(scored_all(t1, index.contexts@) =~= scored_all(t2, index.contexts@));
}

/// Chooses a context for a test whose context is `auto`, from the index alone.
pub fn route_context(test: &TestCase, index: &ContextIndex) -> (d: RoutingDecision)
    ensures
        route_spec(*test, *index, d),
{
    let mut scored: Vec<RoutingCandidate> = Vec::new();
    let mut i: usize = 0;
    while i < index.contexts.len()
        invariant
            i <= index.contexts@.len(),
            cands_view(scored@) == scored_all(*test, index.contexts@.take(i as int)),
        decreases index.contexts@.len() - i,
    {
        let c = score_candidate(test, &index.contexts[i]);
        let ghost before = cands_view(scored@);
        scored.push(c);
        assert(cands_view(scored@) =~= before.push(scored_view(*test, index.contexts@[i as int])));
        assert(scored_all(*test, index.contexts@.take(i as int + 1)) =~= scored_all(
            *test,
            index.contexts@.take(i as int),
        ).push(scored_view(*test, index.contexts@[i as int])));
        i = i + 1;
    }
    assert(index.contexts@.take(index.contexts@.len() as int) =~= index.contexts@);
    let candidates = rank_candidates(scored);
    let ghost ranked = ranked_spec(*test, *index);
    if candidates.len() == 0 {
        return RoutingDecision {
            schema_version: SCHEMA_VERSION,
            test_id: test.id.clone(),
            selected_context_id: None,
            selected_context_path: None,
            method: String::from_str("none"),
            status: String::from_str("error"),
            confidence: RoutingConfidence::Scores {
                top_halves: 0,
                second_halves: 0,
                candidate_count: 0,
            },
            candidates,
            llm_router_used: false,
            input_tokens: 0,
            output_tokens: 0,
            latency_ms: 0,
            reason: Some(String::from_str("empty_context_index")),
        };
    }
    assert(cands_view(candidates@)[0] == cand_view(candidates@[0]));
    let top = candidates[0].score_halves;
    let second = if candidates.len() > 1 {
        assert(cands_view(candidates@)[1] == cand_view(candidates@[1]));
        candidates[1].score_halves
    } else {
        0
    };
    let count = candidates.len();
    let accepted = accepts(top, second, count);
    let method = routing_method(&candidates[0]);
    let selected_context_id = if accepted {
        Some(candidates[0].context_id.clone())
    } else {
        None
    };
    let selected_context_path = if accepted {
        Some(candidates[0].path.clone())
    } else {
        None
    };
    RoutingDecision {
        schema_version: SCHEMA_VERSION,
        test_id: test.id.clone(),
        selected_context_id,
        selected_context_path,
        method,
        status: if accepted {
            String::from_str("selected")
        } else {
            String::from_str("ambiguous")
        },
        confidence: RoutingConfidence::Scores {
            top_halves: top,
            second_halves: second,
            candidate_count: count as u64,
        },
        candidates,
        llm_router_used: false,
        input_tokens: 0,
        output_tokens: 0,
        latency_ms: 0,
        reason: if accepted {
            Some(String::from_str("local_router_selected_top_candidate"))
        } else {
            Some(String::from_str("local_router_confidence_below_threshold"))
        },
    }
}

// ---------------------------------------------------------------------------
// Context references
// ---------------------------------------------------------------------------

pub open spec fn is_auto_spec(context: Seq<char>) -> bool {
    ascii_lower_seq(trim_seq(context)) == ascii_lower_seq("auto"@)
}

/// A test's context is `auto` (trimmed, any ASCII case).
pub fn is_auto_context(context: &str) -> (b: bool)
    ensures
        b == is_auto_spec(context@),
{
    let t = trim_chars(chars_of(context).as_slice());
    eq_ignore_ascii_case(t.as_slice(), chars_of("auto").as_slice())
}

/// A context given inline in the manifest rather than as a file path: it
/// holds a newline or is longer than 4096 bytes.
pub open spec fn looks_inline_spec(context: Seq<char>) -> bool {
    context.contains('\n') || (vstd::utf8::encode_utf8(context).len() as usize) > 4096
}

pub fn looks_inline_context(context: &str) -> (b: bool)
    ensures
        b == looks_inline_spec(context@),
{
    let cs = chars_of(context);
    let mut i: usize = 0;
    while i < cs.len()
        invariant
            i <= cs@.len(),
            cs@ == context@,
            forall|k: int| 0 <= k < i ==> cs@[k] != '\n',
        decreases cs@.len() - i,
    {
        if cs[i] == '\n' {
            return true;
        }
        i = i + 1;
    }
    assert(!context@.contains('\n'));
    context.len() > 4096
}

/// The suite name with `_` and `-` turned into spaces, then " context".
pub open spec fn title_spec(suite: Seq<char>) -> Seq<char> {
    suite.map_values(|c: char| if c == '_' || c == '-' { ' ' } else { c }) + " context"@
}

pub fn context_title(suite: &str) -> (t: String)
    ensures
        t@ == title_spec(suite@),
{
    let cs = chars_of(suite);
    let mut r: Vec<char> = Vec::new();
    let mut i: usize = 0;
    while i < cs.len()
        invariant
            i <= cs@.len(),
            r@ == cs@.take(i as int).map_values(
                |c: char|
                    if c == '_' || c == '-' {
                        ' '
                    } else {
                        c
                    },
            ),
        decreases cs@.len() - i,
    {
        let c = cs[i];
        r.push(if c == '_' || c == '-' { ' ' } else { c });
        assert(cs@.take(i as int + 1) =~= cs@.take(i as int).push(c));
        i = i + 1;
    }
    assert(cs@.take(cs@.len() as int) =~= cs@);
    crate::text::extend_str(&mut r, " context");
    string_of(r.as_slice())
}

pub open spec fn summary_spec(suite: Seq<char>) -> Seq<char> {
    if suite == "needle"@ {
        "Single hidden fact retrieval task."@
    } else if suite == "multi-needle"@ || suite == "multi_needle"@ {
        "Multiple hidden facts that must be returned together."@
    } else if suite == "conflict"@ {
        "Conflicting scoped facts where the current scoped answer must be selected."@
    } else if suite == "multi-hop"@ || suite == "multi_hop"@ {
        "Facts requiring composition across multiple statements."@
    } else if suite == "order-dependent"@ || suite == "order_dependent"@ {
        "Ordered facts where sequence matters."@
    } else if suite == "position-sweep"@ || suite == "position_sweep"@ {
        "Needle retrieval cases at different context positions."@
    } else if suite == "hallucination"@ {
        "Filler context with questions about absent facts."@
    } else {
        "Benchmark context descriptor."@
    }
}

pub fn context_summary(suite: &str) -> (s: String)
    ensures
        s@ == summary_spec(suite@),
{
    if str_eq(suite, "needle") {
        String::from_str("Single hidden fact retrieval task.")
    } else if str_eq(suite, "multi-needle") || str_eq(suite, "multi_needle") {
        String::from_str("Multiple hidden facts that must be returned together.")
    } else if str_eq(suite, "conflict") {
        String::from_str("Conflicting scoped facts where the current scoped answer must be selected.")
    } else if str_eq(suite, "multi-hop") || str_eq(suite, "multi_hop") {
        String::from_str("Facts requiring composition across multiple statements.")
    } else if str_eq(suite, "order-dependent") || str_eq(suite, "order_dependent") {
        String::from_str("Ordered facts where sequence matters.")
    } else if str_eq(suite, "position-sweep") || str_eq(suite, "position_sweep") {
        String::from_str("Needle retrieval cases at different context positions.")
    } else if str_eq(suite, "hallucination") {
        String::from_str("Filler context with questions about absent facts.")
    } else {
        String::from_str("Benchmark context descriptor.")
    }
}


// ---------------------------------------------------------------------------
// Paths of indexed contexts
// ---------------------------------------------------------------------------

/// `std::path::Path::is_absolute` on a path.
pub uninterp spec fn spec_path_is_absolute(path: Seq<char>) -> bool;

/// `std::path::Path::strip_prefix`: what is left of `path` after the
/// components of `base`, where `base` is a prefix of it.
pub uninterp spec fn spec_path_strip_prefix(path: Seq<char>, base: Seq<char>) -> Option<Seq<char>>;

/// `std::path::Path::file_stem`: the file name without its extension.
pub uninterp spec fn spec_path_file_stem(path: Seq<char>) -> Option<Seq<char>>;

/// `std::path::Path::file_name`: the last component.
pub uninterp spec fn spec_path_file_name(path: Seq<char>) -> Option<Seq<char>>;

/// Calls `std::path::Path::is_absolute`; named by the path.
#[verifier::external_body]
pub(crate) fn path_is_absolute(path: &str) -> (b: bool)
    ensures
        b == spec_path_is_absolute(path@),
{
    std::path::Path::new(path).is_absolute()
}

/// Calls `std::path::Path::strip_prefix`; `None` stands for its error. The
/// rest of a path given as text is text, so the conversion back loses nothing.
#[verifier::external_body]
pub(crate) fn path_strip_prefix(path: &str, base: &str) -> (r: Option<String>)
    ensures
        opt_view(r) == spec_path_strip_prefix(path@, base@),
{
    match std::path::Path::new(path).strip_prefix(base) {
        Ok(rest) => Some(rest.to_string_lossy().into_owned()),
        Err(_) => None,
    }
}

/// Calls `std::path::Path::file_stem`.
#[verifier::external_body]
pub(crate) fn path_file_stem(path: &str) -> (r: Option<String>)
    ensures
        opt_view(r) == spec_path_file_stem(path@),
{
    match std::path::Path::new(path).file_stem() {
        Some(stem) => Some(stem.to_string_lossy().into_owned()),
        None => None,
    }
}

/// Calls `std::path::Path::file_name`.
#[verifier::external_body]
pub(crate) fn path_file_name(path: &str) -> (r: Option<String>)
    ensures
        opt_view(r) == spec_path_file_name(path@),
{
    match std::path::Path::new(path).file_name() {
        Some(name) => Some(name.to_string_lossy().into_owned()),
        None => None,
    }
}

/// Windows separators written as `/`.
pub open spec fn forward_slashes(s: Seq<char>) -> Seq<char> {
    s.map_values(|c: char| if c == '\\' { '/' } else { c })
}

pub fn to_forward_slashes(s: &str) -> (r: String)
    ensures
        r@ == forward_slashes(s@),
{
    let cs = chars_of(s);
    let mut out: Vec<char> = Vec::new();
    let mut i: usize = 0;
    while i < cs.len()
        invariant
            i <= cs@.len(),
            cs@ == s@,
            out@ == forward_slashes(cs@.take(i as int)),
        decreases cs@.len() - i,
    {
        let c = if cs[i] == '\\' {
            '/'
        } else {
            cs[i]
        };
        out.push(c);
        assert(forward_slashes(cs@.take(i as int + 1)) =~= forward_slashes(cs@.take(i as int)).push(c));
        i = i + 1;
    }
    assert(cs@.take(cs@.len() as int) =~= cs@);
    string_of(out.as_slice())
}

pub open spec fn relative_path_spec(base: Seq<char>, path: Seq<char>) -> Seq<char> {
    forward_slashes(
        match spec_path_strip_prefix(path, base) {
            Some(rest) => rest,
            None => path,
        },
    )
}

/// A path relative to `base` where it lies under it, with `/` separators.
pub fn relative_path(base: &str, path: &str) -> (r: String)
    ensures
        r@ == relative_path_spec(base@, path@),
{
    match path_strip_prefix(path, base) {
        Some(rest) => to_forward_slashes(rest.as_str()),
        None => to_forward_slashes(path),
    }
}

pub open spec fn normalized_context_spec(bench_dir: Seq<char>, context: Seq<char>) -> Seq<char> {
    if spec_path_is_absolute(context) {
        relative_path_spec(bench_dir, context)
    } else {
        forward_slashes(context)
    }
}

/// The index key of a context file: relative to the benchmark directory
/// when given as an absolute path under it, with `/` separators.
pub fn normalize_relative_context_path(bench_dir: &str, context: &str) -> (r: String)
    ensures
        r@ == normalized_context_spec(bench_dir@, context@),
{
    if path_is_absolute(context) {
        relative_path(bench_dir, context)
    } else {
        to_forward_slashes(context)
    }
}

pub open spec fn context_id_spec(path: Seq<char>) -> Seq<char> {
    forward_slashes(
        match spec_path_file_stem(path) {
            Some(stem) => stem,
            None => path,
        },
    )
}

/// A context's id: its file name without the extension.
pub fn context_id_from_path(path: &str) -> (r: String)
    ensures
        r@ == context_id_spec(path@),
{
    match path_file_stem(path) {
        Some(stem) => to_forward_slashes(stem.as_str()),
        None => to_forward_slashes(path),
    }
}


// ---------------------------------------------------------------------------
// Metadata maps kept sorted by key
// ---------------------------------------------------------------------------

pub open spec fn meta_keys(m: Seq<(String, String)>) -> Seq<Seq<char>> {
    m.map_values(|p: (String, String)| p.0@)
}

/// The map a sequence of pairs stands for, later pairs overriding earlier
/// ones with the same key.
pub open spec fn pairs_map(m: Seq<(Seq<char>, Seq<char>)>) -> Map<Seq<char>, Seq<char>>
    decreases m.len(),
{
    if m.len() == 0 {
        Map::empty()
    } else {
        pairs_map(m.drop_last()).insert(m.last().0, m.last().1)
    }
}

proof fn lemma_pairs_map_unique(m: Seq<(Seq<char>, Seq<char>)>)
    requires
        forall|i: int, j: int| 0 <= i < j < m.len() ==> (#[trigger] m[i]).0 != (#[trigger] m[j]).0,
    ensures
        forall|k: Seq<char>| pairs_map(m).dom().contains(k) <==> exists|i: int| 0 <= i < m.len() && (#[trigger] m[i]).0 == k,
        forall|i: int| 0 <= i < m.len() ==> pairs_map(m)[(#[trigger] m[i]).0] == m[i].1,
    decreases m.len(),
{
    if m.len() > 0 {
        let d = m.drop_last();
        lemma_pairs_map_unique(d);
        assert forall|k: Seq<char>| pairs_map(m).dom().contains(k) <==> exists|i: int| 0 <= i < m.len() && (#[trigger] m[i]).0 == k by {
            if pairs_map(d).dom().contains(k) {
                let i = choose|i: int| 0 <= i < d.len() && (#[trigger] d[i]).0 == k;
                assert(m[i].0 == k);
            }
            if exists|i: int| 0 <= i < m.len() && (#[trigger] m[i]).0 == k {
                let i = choose|i: int| 0 <= i < m.len() && (#[trigger] m[i]).0 == k;
                if i < m.len() - 1 {
                    assert(d[i].0 == k);
                }
            }
        }
        assert forall|i: int| 0 <= i < m.len() implies pairs_map(m)[(#[trigger] m[i]).0] == m[i].1 by {
            if i < m.len() - 1 {
                assert(d[i] == m[i]);
                assert(m[i].0 != m[m.len() - 1].0);
            }
        }
    }
}


/// The first position whose key is not below `key`.
fn find_key_pos(m: &Vec<(String, String)>, key: &Vec<char>) -> (p: usize)
    ensures
        p <= m@.len(),
        forall|i: int| 0 <= i < p ==> lex_lt((#[trigger] m@[i]).0@, key@),
        p < m@.len() ==> !lex_lt(m@[p as int].0@, key@),
{
    let mut p: usize = 0;
    while p < m.len()
        invariant
            p <= m@.len(),
            forall|i: int| 0 <= i < p ==> lex_lt((#[trigger] m@[i]).0@, key@),
        decreases m@.len() - p,
    {
        let c = chars_of(m[p].0.as_str());
        if !lex_less(c.as_slice(), key.as_slice()) {
            return p;
        }
        p = p + 1;
    }
    p
}

/// Sets `key` to `value` in a metadata vector kept strictly sorted by key.
fn meta_put(m: &mut Vec<(String, String)>, key: String, value: String)
    requires
        crate::text::strictly_sorted(meta_keys(old(m)@)),
    ensures
        crate::text::strictly_sorted(meta_keys(final(m)@)),
        pairs_map(pairs_view(final(m)@)) == pairs_map(pairs_view(old(m)@)).insert(key@, value@),
{
    let ghost old_m = m@;
    let kc = chars_of(key.as_str());
    let p = find_key_pos(m, &kc);
    proof {
        lemma_sorted_keys_unique(old_m);
        lemma_pairs_map_unique(pairs_view(old_m));
    }
    let mut replace = false;
    if p < m.len() {
        let c = chars_of(m[p].0.as_str());
        replace = crate::text::slices_equal_chars(c.as_slice(), kc.as_slice());
        if !replace {
            proof {
                crate::text::lemma_lex_total(m@[p as int].0@, key@);
            }
        }
    }
    if replace {
        assert(pairs_view(old_m)[p as int].0 == key@);
        m.set(p, (key, value));
        proof {
            assert(meta_keys(m@) =~= meta_keys(old_m));
            lemma_sorted_keys_unique(m@);
            lemma_pairs_map_unique(pairs_view(m@));
            assert(pairs_map(pairs_view(m@)) =~= pairs_map(pairs_view(old_m)).insert(key@, value@)) by {
                assert forall|k: Seq<char>| #![auto] pairs_map(pairs_view(m@)).dom().contains(k) <==> pairs_map(pairs_view(old_m)).insert(key@, value@).dom().contains(k) by {
                    if pairs_map(pairs_view(m@)).dom().contains(k) {
                        let i = choose|i: int| 0 <= i < pairs_view(m@).len() && (#[trigger] pairs_view(m@)[i]).0 == k;
                        if i != p {
                            assert(pairs_view(old_m)[i].0 == k);
                        }
                    }
                    if pairs_map(pairs_view(old_m)).dom().contains(k) {
                        let i = choose|i: int| 0 <= i < pairs_view(old_m).len() && (#[trigger] pairs_view(old_m)[i]).0 == k;
                        assert(pairs_view(m@)[i].0 == k);
                    }
                    if k == key@ {
                        assert(pairs_view(m@)[p as int].0 == k);
                    }
                }
                assert forall|k: Seq<char>| #![auto] pairs_map(pairs_view(m@)).dom().contains(k) implies pairs_map(pairs_view(m@))[k] == pairs_map(pairs_view(old_m)).insert(key@, value@)[k] by {
                    let i = choose|i: int| 0 <= i < pairs_view(m@).len() && (#[trigger] pairs_view(m@)[i]).0 == k;
                    assert(pairs_map(pairs_view(m@))[pairs_view(m@)[i].0] == pairs_view(m@)[i].1);
                    if i != p {
                        assert(pairs_view(old_m)[i] == pairs_view(m@)[i]);
                        assert(pairs_view(old_m)[i].0 != key@);
                        assert(pairs_map(pairs_view(old_m))[pairs_view(old_m)[i].0] == pairs_view(old_m)[i].1);
                    }
                }
            }
        }
    } else {
        m.insert(p, (key, value));
        proof {
            let nk = meta_keys(m@);
            assert(nk =~= meta_keys(old_m).insert(p as int, key@));
            assert forall|i: int, j: int| 0 <= i < j < nk.len() implies lex_lt(#[trigger] nk[i], #[trigger] nk[j]) by {
                let ok = meta_keys(old_m);
                if j == p {
                    assert(lex_lt(old_m[i].0@, key@));
                } else if i == p {
                    assert(lex_lt(key@, ok[p as int]));
                    if j - 1 > p {
                        crate::text::lemma_lex_transitive(key@, ok[p as int], ok[j - 1]);
                    }
                } else if i < p && j > p {
                    assert(lex_lt(ok[i], ok[j - 1]));
                } else if i > p {
                    assert(lex_lt(ok[i - 1], ok[j - 1]));
                }
            }
            lemma_sorted_keys_unique(m@);
            lemma_pairs_map_unique(pairs_view(m@));
            let om = pairs_view(old_m);
            let nm = pairs_view(m@);
            assert(nm =~= om.insert(p as int, (key@, value@)));
            assert forall|i: int| 0 <= i < om.len() implies om[i].0 != key@ by {
                if i < p {
                    assert(lex_lt(old_m[i].0@, key@));
                    crate::text::lemma_lex_irreflexive(key@);
                } else {
                    assert(lex_lt(key@, meta_keys(old_m)[p as int]));
                    if i > p {
                        assert(lex_lt(meta_keys(old_m)[p as int], meta_keys(old_m)[i]));
                        crate::text::lemma_lex_transitive(key@, meta_keys(old_m)[p as int], meta_keys(old_m)[i]);
                    }
                    crate::text::lemma_lex_irreflexive(key@);
                }
            }
            assert(pairs_map(nm) =~= pairs_map(om).insert(key@, value@)) by {
                assert forall|k: Seq<char>| #![auto] pairs_map(nm).dom().contains(k) <==> pairs_map(om).insert(key@, value@).dom().contains(k) by {
                    if pairs_map(nm).dom().contains(k) {
                        let i = choose|i: int| 0 <= i < nm.len() && (#[trigger] nm[i]).0 == k;
                        if i < p {
                            assert(om[i].0 == k);
                        } else if i > p {
                            assert(om[i - 1].0 == k);
                        }
                    }
                    if pairs_map(om).dom().contains(k) {
                        let i = choose|i: int| 0 <= i < om.len() && (#[trigger] om[i]).0 == k;
                        if i < p {
                            assert(nm[i].0 == k);
                        } else {
                            assert(nm[i + 1].0 == k);
                        }
                    }
                    if k == key@ {
                        assert(nm[p as int].0 == k);
                    }
                }
                assert forall|k: Seq<char>| #![auto] pairs_map(nm).dom().contains(k) implies pairs_map(nm)[k] == pairs_map(om).insert(key@, value@)[k] by {
                    let i = choose|i: int| 0 <= i < nm.len() && (#[trigger] nm[i]).0 == k;
                    assert(pairs_map(nm)[nm[i].0] == nm[i].1);
                    if i < p {
                        assert(om[i] == nm[i]);
                        assert(pairs_map(om)[om[i].0] == om[i].1);
                    } else if i > p {
                        assert(om[i - 1] == nm[i]);
                        assert(pairs_map(om)[om[i - 1].0] == om[i - 1].1);
                    }
                }
            }
        }
    }
}

proof fn lemma_sorted_keys_unique(m: Seq<(String, String)>)
    requires
        crate::text::strictly_sorted(meta_keys(m)),
    ensures
        forall|i: int, j: int| 0 <= i < j < m.len() ==> (#[trigger] pairs_view(m)[i]).0 != (#[trigger] pairs_view(m)[j]).0,
{
    assert forall|i: int, j: int| 0 <= i < j < m.len() implies (#[trigger] pairs_view(m)[i]).0 != (#[trigger] pairs_view(m)[j]).0 by {
        assert(lex_lt(meta_keys(m)[i], meta_keys(m)[j]));
        crate::text::lemma_lex_irreflexive(meta_keys(m)[i]);
    }
}


// ---------------------------------------------------------------------------
// Building the index
// ---------------------------------------------------------------------------

/// A manifest read from the benchmark directory.
pub struct ManifestSource {
    /// The manifest's path relative to the benchmark directory.
    pub source_manifest: String,
    pub manifest: SuiteManifest,
    /// Per test, whether the file its context names exists in the directory.
    pub context_exists: Vec<bool>,
}

/// What one test adds to the entry of the context file it names.
pub struct ContextUse {
    pub path: String,
    pub source_manifest: String,
    pub suite: String,
    pub token_count: u64,
    pub seed: u64,
    pub test_id: String,
    pub keywords: Vec<String>,
    pub metadata: Vec<(String, String)>,
}

pub open spec fn use_view(u: ContextUse) -> (
    Seq<char>,
    Seq<char>,
    Seq<char>,
    u64,
    u64,
    Seq<char>,
    Seq<Seq<char>>,
    Seq<(Seq<char>, Seq<char>)>,
) {
    (
        u.path@,
        u.source_manifest@,
        u.suite@,
        u.token_count,
        u.seed,
        u.test_id@,
        strings_view(u.keywords@),
        pairs_view(u.metadata@),
    )
}

pub open spec fn uses_view(us: Seq<ContextUse>) -> Seq<
    (
        Seq<char>,
        Seq<char>,
        Seq<char>,
        u64,
        u64,
        Seq<char>,
        Seq<Seq<char>>,
        Seq<(Seq<char>, Seq<char>)>,
    ),
> {
    us.map_values(|u: ContextUse| use_view(u))
}

/// A test's suite: its `suite` metadata, else its manifest's name.
pub open spec fn test_suite_spec(t: TestCase, manifest_name: Seq<char>) -> Seq<char> {
    match meta_lookup(t.metadata@, "suite"@) {
        Some(s) => s,
        None => manifest_name,
    }
}

/// A test names an indexed context when its context is a file reference
/// (neither `auto` nor inline text) and the file exists.
pub open spec fn indexed_test(m: ManifestSource, j: int) -> bool {
    let t = m.manifest.suites@[j];
    &&& !is_auto_spec(t.context@)
    &&& !looks_inline_spec(t.context@)
    &&& j < m.context_exists@.len()
    &&& m.context_exists@[j]
}

pub open spec fn use_of_test(bench_dir: Seq<char>, m: ManifestSource, j: int) -> (
    Seq<char>,
    Seq<char>,
    Seq<char>,
    u64,
    u64,
    Seq<char>,
    Seq<Seq<char>>,
    Seq<(Seq<char>, Seq<char>)>,
) {
    let t = m.manifest.suites@[j];
    let suite = test_suite_spec(t, m.manifest.name@);
    (
        normalized_context_spec(bench_dir, t.context@),
        m.source_manifest@,
        suite,
        m.manifest.token_count,
        m.manifest.seed,
        t.id@,
        keywords_spec(m.manifest.name@, suite, t),
        safe_pairs(t.metadata@),
    )
}

pub open spec fn manifest_uses(bench_dir: Seq<char>, m: ManifestSource, k: int) -> Seq<
    (
        Seq<char>,
        Seq<char>,
        Seq<char>,
        u64,
        u64,
        Seq<char>,
        Seq<Seq<char>>,
        Seq<(Seq<char>, Seq<char>)>,
    ),
>
    decreases k,
{
    if k <= 0 {
        seq![]
    } else if indexed_test(m, k - 1) {
        manifest_uses(bench_dir, m, k - 1).push(use_of_test(bench_dir, m, k - 1))
    } else {
        manifest_uses(bench_dir, m, k - 1)
    }
}

/// Every test of every manifest that names an indexed context, in order.
pub open spec fn all_uses(bench_dir: Seq<char>, ms: Seq<ManifestSource>) -> Seq<
    (
        Seq<char>,
        Seq<char>,
        Seq<char>,
        u64,
        u64,
        Seq<char>,
        Seq<Seq<char>>,
        Seq<(Seq<char>, Seq<char>)>,
    ),
>
    decreases ms.len(),
{
    if ms.len() == 0 {
        seq![]
    } else {
        all_uses(bench_dir, ms.drop_last()) + manifest_uses(
            bench_dir,
            ms.last(),
            ms.last().manifest.suites@.len() as int,
        )
    }
}

fn use_of(bench_dir: &str, m: &ManifestSource, j: usize) -> (u: ContextUse)
    requires
        j < m.manifest.suites@.len(),
    ensures
        use_view(u) == use_of_test(bench_dir@, *m, j as int),
{
    let t = &m.manifest.suites[j];
    let suite = match meta_get(&t.metadata, "suite") {
        Some(s) => s,
        None => m.manifest.name.clone(),
    };
    let keywords = keywords_for_test(m.manifest.name.as_str(), suite.as_str(), t);
    ContextUse {
        path: normalize_relative_context_path(bench_dir, t.context.as_str()),
        source_manifest: m.source_manifest.clone(),
        suite,
        token_count: m.manifest.token_count,
        seed: m.manifest.seed,
        test_id: t.id.clone(),
        keywords,
        metadata: router_safe_metadata(&t.metadata),
    }
}

/// The uses of indexed contexts by the tests of the manifests, in order.
pub fn context_uses(bench_dir: &str, manifests: &Vec<ManifestSource>) -> (r: Vec<ContextUse>)
    ensures
        uses_view(r@) == all_uses(bench_dir@, manifests@),
{
    let mut r: Vec<ContextUse> = Vec::new();
    let mut i: usize = 0;
    while i < manifests.len()
        invariant
            i <= manifests@.len(),
            uses_view(r@) == all_uses(bench_dir@, manifests@.take(i as int)),
        decreases manifests@.len() - i,
    {
        let m = &manifests[i];
        proof {
            assert(manifests@.take(i as int + 1).drop_last() =~= manifests@.take(i as int));
            assert(manifests@.take(i as int + 1).last() == manifests@[i as int]);
        }
        let ghost base = uses_view(r@);
        let mut j: usize = 0;
        while j < m.manifest.suites.len()
            invariant
                j <= m.manifest.suites@.len(),
                uses_view(r@) == base + manifest_uses(bench_dir@, *m, j as int),
            decreases m.manifest.suites@.len() - j,
        {
            let t = &m.manifest.suites[j];
            let included = !is_auto_context(t.context.as_str()) && !looks_inline_context(
                t.context.as_str(),
            ) && j < m.context_exists.len() && m.context_exists[j];
            if included {
                let u = use_of(bench_dir, m, j);
                let ghost before = uses_view(r@);
                r.push(u);
                assert(uses_view(r@) =~= before.push(use_of_test(bench_dir@, *m, j as int)));
            }
            j = j + 1;
        }
        i = i + 1;
    }
    assert(manifests@.take(manifests@.len() as int) =~= manifests@);
    r
}


/// Entries ordered by context id, then by path.
pub open spec fn entry_key_lt(a: ContextIndexEntry, b: ContextIndexEntry) -> bool {
    lex_lt(a.context_id@, b.context_id@) || (a.context_id@ == b.context_id@ && lex_lt(
        a.path@,
        b.path@,
    ))
}

pub open spec fn entries_sorted(es: Seq<ContextIndexEntry>) -> bool {
    forall|i: int, j: int| 0 <= i < j < es.len() ==> entry_key_lt(#[trigger] es[i], #[trigger] es[j])
}

/// The first use of the context at `p`.
pub open spec fn first_use(us: Seq<(Seq<char>, Seq<char>, Seq<char>, u64, u64, Seq<char>, Seq<Seq<char>>, Seq<(Seq<char>, Seq<char>)>)>, p: Seq<char>) -> Option<int>
    decreases us.len(),
{
    if us.len() == 0 {
        None
    } else {
        match first_use(us.drop_last(), p) {
            Some(i) => Some(i),
            None => if us.last().0 == p {
                Some(us.len() - 1)
            } else {
                None
            },
        }
    }
}

pub open spec fn manifest_used(us: Seq<(Seq<char>, Seq<char>, Seq<char>, u64, u64, Seq<char>, Seq<Seq<char>>, Seq<(Seq<char>, Seq<char>)>)>, p: Seq<char>, x: Seq<char>) -> bool {
    exists|i: int| 0 <= i < us.len() && (#[trigger] us[i]).0 == p && us[i].1 == x
}

pub open spec fn id_used(us: Seq<(Seq<char>, Seq<char>, Seq<char>, u64, u64, Seq<char>, Seq<Seq<char>>, Seq<(Seq<char>, Seq<char>)>)>, p: Seq<char>, x: Seq<char>) -> bool {
    exists|i: int| 0 <= i < us.len() && (#[trigger] us[i]).0 == p && us[i].5 == x
}

pub open spec fn keyword_used(us: Seq<(Seq<char>, Seq<char>, Seq<char>, u64, u64, Seq<char>, Seq<Seq<char>>, Seq<(Seq<char>, Seq<char>)>)>, p: Seq<char>, x: Seq<char>) -> bool {
    exists|i: int| 0 <= i < us.len() && (#[trigger] us[i]).0 == p && us[i].6.contains(x)
}

/// The safe metadata of every use of `p`, later uses overriding earlier ones.
pub open spec fn overlay_map(us: Seq<(Seq<char>, Seq<char>, Seq<char>, u64, u64, Seq<char>, Seq<Seq<char>>, Seq<(Seq<char>, Seq<char>)>)>, p: Seq<char>) -> Map<Seq<char>, Seq<char>>
    decreases us.len(),
{
    if us.len() == 0 {
        Map::empty()
    } else if us.last().0 == p {
        overlay_map(us.drop_last(), p).union_prefer_right(pairs_map(us.last().7))
    } else {
        overlay_map(us.drop_last(), p)
    }
}

/// An entry describes the uses of its path: its fields come from the first
/// use, its manifests, test ids and keywords are the sorted distinct values
/// of all uses, and its metadata is the uses' safe metadata merged in order.
pub open spec fn entry_ok(e: ContextIndexEntry, us: Seq<(Seq<char>, Seq<char>, Seq<char>, u64, u64, Seq<char>, Seq<Seq<char>>, Seq<(Seq<char>, Seq<char>)>)>) -> bool {
    let p = e.path@;
    &&& first_use(us, p) is Some
    &&& ({
        let f = us[first_use(us, p)->0];
        &&& e.suite@ == f.2
        &&& e.token_count == f.3
        &&& e.seed == f.4
        &&& e.title@ == title_spec(f.2)
        &&& e.summary@ == summary_spec(f.2)
    })
    &&& e.context_id@ == context_id_spec(p)
    &&& e.sha256@ == Seq::<char>::empty()
    &&& crate::text::strictly_sorted(strings_view(e.source_manifests@))
    &&& forall|x: Seq<char>| strings_view(e.source_manifests@).contains(x) <==> manifest_used(us, p, x)
    &&& crate::text::strictly_sorted(strings_view(e.test_ids@))
    &&& forall|x: Seq<char>| strings_view(e.test_ids@).contains(x) <==> id_used(us, p, x)
    &&& crate::text::strictly_sorted(strings_view(e.keywords@))
    &&& forall|x: Seq<char>| strings_view(e.keywords@).contains(x) <==> keyword_used(us, p, x)
    &&& crate::text::strictly_sorted(meta_keys(e.metadata@))
    &&& pairs_map(pairs_view(e.metadata@)) == overlay_map(us, p)
    &&& e.safe_anchors@.len() == 0
}

/// The entries of a set of uses: one per used path, sorted by id and path.
pub open spec fn entries_ok(es: Seq<ContextIndexEntry>, us: Seq<(Seq<char>, Seq<char>, Seq<char>, u64, u64, Seq<char>, Seq<Seq<char>>, Seq<(Seq<char>, Seq<char>)>)>) -> bool {
    &&& entries_sorted(es)
    &&& forall|k: int| 0 <= k < es.len() ==> entry_ok(#[trigger] es[k], us)
    &&& forall|i: int| 0 <= i < us.len() ==> exists|k: int| 0 <= k < es.len() && (#[trigger] es[k]).path@ == (#[trigger] us[i]).0
}


/// An entry as plain values: context id, path, digest, suite, token count,
/// seed, manifests, test ids, title, summary, keywords, anchors, metadata.
pub open spec fn entry_view(e: ContextIndexEntry) -> (
    Seq<char>,
    Seq<char>,
    Seq<char>,
    Seq<char>,
    u64,
    u64,
    Seq<Seq<char>>,
    Seq<Seq<char>>,
    Seq<char>,
    Seq<char>,
    Seq<Seq<char>>,
    Seq<Seq<char>>,
    Seq<(Seq<char>, Seq<char>)>,
) {
    (
        e.context_id@,
        e.path@,
        e.sha256@,
        e.suite@,
        e.token_count,
        e.seed,
        strings_view(e.source_manifests@),
        strings_view(e.test_ids@),
        e.title@,
        e.summary@,
        strings_view(e.keywords@),
        strings_view(e.safe_anchors@),
        pairs_view(e.metadata@),
    )
}

proof fn lemma_same_sorted_strings(a: Seq<Seq<char>>, b: Seq<Seq<char>>)
    requires
        crate::text::strictly_sorted(a),
        crate::text::strictly_sorted(b),
        forall|x: Seq<char>| a.contains(x) <==> b.contains(x),
    ensures
        a == b,
{
    crate::text::lemma_lex_strict_order();
    let lt = |x: Seq<char>, y: Seq<char>| lex_lt(x, y);
    assert forall|x: Seq<char>| !(#[trigger] lt(x, x)) by {
        assert(!lex_lt(x, x));
    }
    assert forall|x: Seq<char>, y: Seq<char>, z: Seq<char>| #[trigger] lt(x, y) && #[trigger] lt(y, z) implies lt(x, z) by {
        assert(lex_lt(x, y) && lex_lt(y, z));
    }
    assert forall|i: int, j: int| 0 <= i < j < a.len() implies lt(#[trigger] a[i], #[trigger] a[j]) by {}
    assert forall|i: int, j: int| 0 <= i < j < b.len() implies lt(#[trigger] b[i], #[trigger] b[j]) by {}
    crate::text::lemma_sorted_same_elements(a, b, lt);
}

proof fn lemma_same_metadata(m1: Seq<(String, String)>, m2: Seq<(String, String)>)
    requires
        crate::text::strictly_sorted(meta_keys(m1)),
        crate::text::strictly_sorted(meta_keys(m2)),
        pairs_map(pairs_view(m1)) == pairs_map(pairs_view(m2)),
    ensures
        pairs_view(m1) == pairs_view(m2),
{
    let v1 = pairs_view(m1);
    let v2 = pairs_view(m2);
    let k1 = meta_keys(m1);
    let k2 = meta_keys(m2);
    crate::text::lemma_lex_strict_order();
    assert forall|i: int, j: int| 0 <= i < j < v1.len() implies (#[trigger] v1[i]).0 != (#[trigger] v1[j]).0 by {
        assert(v1[i].0 == k1[i] && v1[j].0 == k1[j]);
        assert(lex_lt(k1[i], k1[j]));
    }
    assert forall|i: int, j: int| 0 <= i < j < v2.len() implies (#[trigger] v2[i]).0 != (#[trigger] v2[j]).0 by {
        assert(v2[i].0 == k2[i] && v2[j].0 == k2[j]);
        assert(lex_lt(k2[i], k2[j]));
    }
    lemma_pairs_map_unique(v1);
    lemma_pairs_map_unique(v2);
    assert forall|x: Seq<char>| k1.contains(x) <==> k2.contains(x) by {
        if k1.contains(x) {
            let i = choose|i: int| 0 <= i < k1.len() && k1[i] == x;
            assert(v1[i].0 == x);
            assert(pairs_map(v2).dom().contains(x));
            let j = choose|j: int| 0 <= j < v2.len() && (#[trigger] v2[j]).0 == x;
            assert(k2[j] == x);
        }
        if k2.contains(x) {
            let i = choose|i: int| 0 <= i < k2.len() && k2[i] == x;
            assert(v2[i].0 == x);
            assert(pairs_map(v1).dom().contains(x));
            let j = choose|j: int| 0 <= j < v1.len() && (#[trigger] v1[j]).0 == x;
            assert(k1[j] == x);
        }
    }
    lemma_same_sorted_strings(k1, k2);
    assert(v1.len() == v2.len());
    assert forall|i: int| 0 <= i < v1.len() implies v1[i] == v2[i] by {
        assert(v1[i].0 == k1[i] && v2[i].0 == k2[i]);
        assert(pairs_map(v1)[v1[i].0] == v1[i].1);
        assert(pairs_map(v2)[v2[i].0] == v2[i].1);
    }
    assert(v1 =~= v2);
}

/// Two entries that describe the same path for the same uses are equal.
#[verifier::spinoff_prover]
proof fn lemma_entry_determined(
    e1: ContextIndexEntry,
    e2: ContextIndexEntry,
    us: Seq<(Seq<char>, Seq<char>, Seq<char>, u64, u64, Seq<char>, Seq<Seq<char>>, Seq<(Seq<char>, Seq<char>)>)>,
)
    requires
        entry_ok(e1, us),
        entry_ok(e2, us),
        e1.path@ == e2.path@,
    ensures
        entry_view(e1) == entry_view(e2),
{
    let p = e1.path@;
    assert forall|x: Seq<char>|
        strings_view(e1.source_manifests@).contains(x) <==> strings_view(e2.source_manifests@).contains(x) by {
        assert(strings_view(e1.source_manifests@).contains(x) <==> manifest_used(us, p, x));
        assert(strings_view(e2.source_manifests@).contains(x) <==> manifest_used(us, p, x));
    }
    lemma_same_sorted_strings(strings_view(e1.source_manifests@), strings_view(e2.source_manifests@));
    assert forall|x: Seq<char>| strings_view(e1.test_ids@).contains(x) <==> strings_view(e2.test_ids@).contains(x) by {
        assert(strings_view(e1.test_ids@).contains(x) <==> id_used(us, p, x));
        assert(strings_view(e2.test_ids@).contains(x) <==> id_used(us, p, x));
    }
    lemma_same_sorted_strings(strings_view(e1.test_ids@), strings_view(e2.test_ids@));
    assert forall|x: Seq<char>| strings_view(e1.keywords@).contains(x) <==> strings_view(e2.keywords@).contains(x) by {
        assert(strings_view(e1.keywords@).contains(x) <==> keyword_used(us, p, x));
        assert(strings_view(e2.keywords@).contains(x) <==> keyword_used(us, p, x));
    }
    lemma_same_sorted_strings(strings_view(e1.keywords@), strings_view(e2.keywords@));
    lemma_same_metadata(e1.metadata@, e2.metadata@);
    assert(strings_view(e1.safe_anchors@) =~= strings_view(e2.safe_anchors@));
    assert(e1.sha256@ =~= e2.sha256@);
}

pub open spec fn view_key_lt(
    a: (Seq<char>, Seq<char>, Seq<char>, Seq<char>, u64, u64, Seq<Seq<char>>, Seq<Seq<char>>, Seq<char>, Seq<char>, Seq<Seq<char>>, Seq<Seq<char>>, Seq<(Seq<char>, Seq<char>)>),
    b: (Seq<char>, Seq<char>, Seq<char>, Seq<char>, u64, u64, Seq<Seq<char>>, Seq<Seq<char>>, Seq<char>, Seq<char>, Seq<Seq<char>>, Seq<Seq<char>>, Seq<(Seq<char>, Seq<char>)>),
) -> bool {
    lex_lt(a.0, b.0) || (a.0 == b.0 && lex_lt(a.1, b.1))
}

/// The entries of a set of uses are fixed by the uses: any two lists of
/// entries for the same uses are equal entry by entry.
#[verifier::spinoff_prover]
proof fn lemma_entries_determined(
    es1: Seq<ContextIndexEntry>,
    es2: Seq<ContextIndexEntry>,
    us: Seq<(Seq<char>, Seq<char>, Seq<char>, u64, u64, Seq<char>, Seq<Seq<char>>, Seq<(Seq<char>, Seq<char>)>)>,
)
    requires
        entries_ok(es1, us),
        entries_ok(es2, us),
    ensures
        es1.map_values(|e: ContextIndexEntry| entry_view(e)) == es2.map_values(|e: ContextIndexEntry| entry_view(e)),
{
    let v1 = es1.map_values(|e: ContextIndexEntry| entry_view(e));
    let v2 = es2.map_values(|e: ContextIndexEntry| entry_view(e));
    crate::text::lemma_lex_strict_order();
    let lt = |a: (Seq<char>, Seq<char>, Seq<char>, Seq<char>, u64, u64, Seq<Seq<char>>, Seq<Seq<char>>, Seq<char>, Seq<char>, Seq<Seq<char>>, Seq<Seq<char>>, Seq<(Seq<char>, Seq<char>)>),
        b: (Seq<char>, Seq<char>, Seq<char>, Seq<char>, u64, u64, Seq<Seq<char>>, Seq<Seq<char>>, Seq<char>, Seq<char>, Seq<Seq<char>>, Seq<Seq<char>>, Seq<(Seq<char>, Seq<char>)>)|
        view_key_lt(a, b);
    assert forall|x| !(#[trigger] lt(x, x)) by {
        assert(!lex_lt(x.0, x.0) && !lex_lt(x.1, x.1));
    }
    assert forall|x, y, z| #[trigger] lt(x, y) && #[trigger] lt(y, z) implies lt(x, z) by {
        if lex_lt(x.0, y.0) && lex_lt(y.0, z.0) {
        } else if lex_lt(x.0, y.0) {
            assert(lex_lt(x.0, z.0));
        } else if lex_lt(y.0, z.0) {
            assert(lex_lt(x.0, z.0));
        } else {
            assert(lex_lt(x.1, y.1) && lex_lt(y.1, z.1));
        }
    }
    assert forall|i: int, j: int| 0 <= i < j < v1.len() implies lt(#[trigger] v1[i], #[trigger] v1[j]) by {
        assert(entry_key_lt(es1[i], es1[j]));
    }
    assert forall|i: int, j: int| 0 <= i < j < v2.len() implies lt(#[trigger] v2[i], #[trigger] v2[j]) by {
        assert(entry_key_lt(es2[i], es2[j]));
    }
    assert forall|x| v1.contains(x) <==> v2.contains(x) by {
        if v1.contains(x) {
            let k = choose|k: int| 0 <= k < v1.len() && v1[k] == x;
            let p = es1[k].path@;
            assert(entry_ok(es1[k], us));
            lemma_first_use(us, p);
            let i = first_use(us, p)->0;
            assert(us[i].0 == p);
            let k2 = choose|k2: int| 0 <= k2 < es2.len() && (#[trigger] es2[k2]).path@ == us[i].0;
            lemma_entry_determined(es1[k], es2[k2], us);
            assert(v2[k2] == x);
        }
        if v2.contains(x) {
            let k = choose|k: int| 0 <= k < v2.len() && v2[k] == x;
            let p = es2[k].path@;
            assert(entry_ok(es2[k], us));
            lemma_first_use(us, p);
            let i = first_use(us, p)->0;
            assert(us[i].0 == p);
            let k1 = choose|k1: int| 0 <= k1 < es1.len() && (#[trigger] es1[k1]).path@ == us[i].0;
            lemma_entry_determined(es2[k], es1[k1], us);
            assert(v1[k1] == x);
        }
    }
    crate::text::lemma_sorted_same_elements(v1, v2, lt);
}

/// A keyword: at least three characters, each a lowercase ASCII letter or
/// an ASCII digit.
pub open spec fn keyword_shape(k: Seq<char>) -> bool {
    &&& k.len() >= 3
    &&& forall|i: int| 0 <= i < k.len() ==> ('a' <= #[trigger] k[i] && k[i] <= 'z') || ('0' <= k[i] && k[i] <= '9')
}

pub open spec fn all_keyword_shaped(ks: Seq<Seq<char>>) -> bool {
    forall|i: int| 0 <= i < ks.len() ==> keyword_shape(#[trigger] ks[i])
}

pub open spec fn all_alnum(s: Seq<char>) -> bool {
    forall|i: int| 0 <= i < s.len() ==> is_ascii_alnum(#[trigger] s[i])
}

proof fn lemma_split_pieces_alnum(s: Seq<char>)
    ensures
        forall|k: int| 0 <= k < split_pieces(s).len() ==> all_alnum(#[trigger] split_pieces(s)[k]),
    decreases s.len(),
{
    if s.len() > 0 {
        let d = s.drop_last();
        let p = split_pieces(d);
        lemma_split_pieces_alnum(d);
        lemma_split_pieces_nonempty(d);
        let c = s.last();
        if is_ascii_alnum(c) {
            let q = p.update(p.len() - 1, p.last().push(c));
            assert forall|k: int| 0 <= k < q.len() implies all_alnum(#[trigger] q[k]) by {
                if k == p.len() - 1 {
                    assert(all_alnum(p[k]));
                    assert forall|i: int| 0 <= i < q[k].len() implies is_ascii_alnum(#[trigger] q[k][i]) by {
                        if i < p[k].len() {
                            assert(q[k][i] == p[k][i]);
                        }
                    }
                }
            }
        } else {
            let q = p.push(seq![]);
            assert forall|k: int| 0 <= k < q.len() implies all_alnum(#[trigger] q[k]) by {
                if k < p.len() {
                    assert(q[k] == p[k]);
                }
            }
        }
    }
}

proof fn lemma_norm_token_lower(s: Seq<char>)
    requires
        all_alnum(s),
    ensures
        forall|i: int| 0 <= i < norm_token(s).len() ==> ('a' <= #[trigger] norm_token(s)[i] && norm_token(s)[i] <= 'z')
            || ('0' <= norm_token(s)[i] && norm_token(s)[i] <= '9'),
    decreases s.len(),
{
    if s.len() > 0 {
        let d = s.drop_last();
        assert(all_alnum(d)) by {
            assert forall|i: int| 0 <= i < d.len() implies is_ascii_alnum(#[trigger] d[i]) by {
                assert(d[i] == s[i]);
            }
        }
        lemma_norm_token_lower(d);
        let c = s.last();
        assert(is_ascii_alnum(s[s.len() - 1]));
        let l = ascii_lower(c);
        assert(('a' <= l && l <= 'z') || ('0' <= l && l <= '9'));
        assert(l != '_' && l != '-');
        let n = norm_token(s);
        assert(n == norm_token(d).push(l));
        assert forall|i: int| 0 <= i < n.len() implies ('a' <= #[trigger] n[i] && n[i] <= 'z') || ('0' <= n[i]
            && n[i] <= '9') by {
            if i < norm_token(d).len() {
                assert(n[i] == norm_token(d)[i]);
            }
        }
    }
}

proof fn lemma_keep_tokens_shaped(ps: Seq<Seq<char>>)
    requires
        forall|k: int| 0 <= k < ps.len() ==> all_alnum(#[trigger] ps[k]),
    ensures
        all_keyword_shaped(keep_tokens(ps)),
    decreases ps.len(),
{
    if ps.len() > 0 {
        let d = ps.drop_last();
        assert forall|k: int| 0 <= k < d.len() implies all_alnum(#[trigger] d[k]) by {
            assert(d[k] == ps[k]);
        }
        lemma_keep_tokens_shaped(d);
        assert(all_alnum(ps[ps.len() - 1]));
        lemma_norm_token_lower(ps.last());
        let t = keep_tokens(ps);
        let a = keep_tokens(d);
        assert forall|i: int| 0 <= i < t.len() implies keyword_shape(#[trigger] t[i]) by {
            if i < a.len() {
                assert(t[i] == a[i]);
            }
        }
    }
}

proof fn lemma_tokens_of_shaped(s: Seq<char>)
    ensures
        all_keyword_shaped(tokens_of(s)),
{
    lemma_split_pieces_alnum(s);
    lemma_keep_tokens_shaped(split_pieces(s));
}

proof fn lemma_concat_shaped(a: Seq<Seq<char>>, b: Seq<Seq<char>>)
    requires
        all_keyword_shaped(a),
        all_keyword_shaped(b),
    ensures
        all_keyword_shaped(a + b),
{
    assert forall|i: int| 0 <= i < (a + b).len() implies keyword_shape(#[trigger] (a + b)[i]) by {
        if i < a.len() {
            assert((a + b)[i] == a[i]);
        } else {
            assert((a + b)[i] == b[i - a.len()]);
        }
    }
}

proof fn lemma_metadata_keywords_shaped(m: Seq<(String, String)>)
    ensures
        all_keyword_shaped(metadata_keywords(m)),
    decreases m.len(),
{
    if m.len() > 0 {
        lemma_metadata_keywords_shaped(m.drop_last());
        if is_safe_key_spec(m.last().0@) {
            lemma_tokens_of_shaped(m.last().0@);
            lemma_tokens_of_shaped(m.last().1@);
            lemma_concat_shaped(metadata_keywords(m.drop_last()), tokens_of(m.last().0@));
            lemma_concat_shaped(metadata_keywords(m.drop_last()) + tokens_of(m.last().0@), tokens_of(m.last().1@));
        }
    }
}

proof fn lemma_keywords_spec_shaped(manifest_name: Seq<char>, suite: Seq<char>, test: TestCase)
    ensures
        all_keyword_shaped(keywords_spec(manifest_name, suite, test)),
{
    let a = tokens_of(manifest_name);
    let b = tokens_of(suite);
    let c = tokens_of(test.id@);
    let d = tokens_of(test.question@);
    let e = metadata_keywords(test.metadata@);
    lemma_tokens_of_shaped(manifest_name);
    lemma_tokens_of_shaped(suite);
    lemma_tokens_of_shaped(test.id@);
    lemma_tokens_of_shaped(test.question@);
    lemma_metadata_keywords_shaped(test.metadata@);
    lemma_concat_shaped(a, b);
    lemma_concat_shaped(a + b, c);
    lemma_concat_shaped(a + b + c, d);
    lemma_concat_shaped(a + b + c + d, e);
}

proof fn lemma_manifest_uses_shaped(bench_dir: Seq<char>, m: ManifestSource, k: int)
    ensures
        forall|i: int| 0 <= i < manifest_uses(bench_dir, m, k).len() ==> all_keyword_shaped(
            (#[trigger] manifest_uses(bench_dir, m, k)[i]).6,
        ),
    decreases k,
{
    if k > 0 {
        lemma_manifest_uses_shaped(bench_dir, m, k - 1);
        let p = manifest_uses(bench_dir, m, k - 1);
        let u = use_of_test(bench_dir, m, k - 1);
        let t = m.manifest.suites@[k - 1];
        lemma_keywords_spec_shaped(m.manifest.name@, test_suite_spec(t, m.manifest.name@), t);
        assert(all_keyword_shaped(u.6));
        let q = manifest_uses(bench_dir, m, k);
        assert forall|i: int| 0 <= i < q.len() implies all_keyword_shaped((#[trigger] q[i]).6) by {
            if indexed_test(m, k - 1) {
                assert(q == p.push(u));
                if i < p.len() {
                    assert(q[i] == p[i]);
                } else {
                    assert(q[i] == u);
                }
            } else {
                assert(q == p);
            }
        }
    }
}

proof fn lemma_all_uses_shaped(bench_dir: Seq<char>, ms: Seq<ManifestSource>)
    ensures
        forall|i: int| 0 <= i < all_uses(bench_dir, ms).len() ==> all_keyword_shaped(
            (#[trigger] all_uses(bench_dir, ms)[i]).6,
        ),
    decreases ms.len(),
{
    if ms.len() > 0 {
        lemma_all_uses_shaped(bench_dir, ms.drop_last());
        let a = all_uses(bench_dir, ms.drop_last());
        let b = manifest_uses(bench_dir, ms.last(), ms.last().manifest.suites@.len() as int);
        lemma_manifest_uses_shaped(bench_dir, ms.last(), ms.last().manifest.suites@.len() as int);
        assert forall|i: int| 0 <= i < (a + b).len() implies all_keyword_shaped(#[trigger] (a + b)[i].6) by {
            if i < a.len() {
                assert((a + b)[i] == a[i]);
            } else {
                assert((a + b)[i] == b[i - a.len()]);
            }
        }
    }
}

/// Every keyword of a built index is at least three characters long and
/// made of lowercase ASCII letters and digits.
pub proof fn lemma_built_index_keywords_shaped(bench_dir: Seq<char>, manifests: Seq<ManifestSource>, index: ContextIndex)
    requires
        entries_ok(index.contexts@, all_uses(bench_dir, manifests)),
    ensures
        forall|k: int, j: int|
            0 <= k < index.contexts@.len() && 0 <= j < index.contexts@[k].keywords@.len() ==> keyword_shape(
                #[trigger] index.contexts@[k].keywords@[j]@,
            ),
{
    let us = all_uses(bench_dir, manifests);
    lemma_all_uses_shaped(bench_dir, manifests);
    assert forall|k: int, j: int|
        0 <= k < index.contexts@.len() && 0 <= j < index.contexts@[k].keywords@.len() implies keyword_shape(
            #[trigger] index.contexts@[k].keywords@[j]@,
        ) by {
        let e = index.contexts@[k];
        assert(entry_ok(e, us));
        let x = e.keywords@[j]@;
        assert(strings_view(e.keywords@)[j] == x);
        assert(strings_view(e.keywords@).contains(x));
        assert(keyword_used(us, e.path@, x));
        let i = choose|i: int| 0 <= i < us.len() && (#[trigger] us[i]).0 == e.path@ && us[i].6.contains(x);
        assert(all_keyword_shaped(us[i].6));
        let q = choose|q: int| 0 <= q < us[i].6.len() && us[i].6[q] == x;
        assert(keyword_shape(us[i].6[q]));
    }
}

/// Building the index twice from the same benchmark directory and the same
/// manifests gives the same index: only the time it was made may differ.
pub proof fn lemma_index_build_is_deterministic(
    bench_dir: Seq<char>,
    manifests: Seq<ManifestSource>,
    a: ContextIndex,
    b: ContextIndex,
)
    requires
        a.schema_version == SCHEMA_VERSION,
        a.bench_id@ == bench_id_spec(bench_dir),
        entries_ok(a.contexts@, all_uses(bench_dir, manifests)),
        b.schema_version == SCHEMA_VERSION,
        b.bench_id@ == bench_id_spec(bench_dir),
        entries_ok(b.contexts@, all_uses(bench_dir, manifests)),
    ensures
        a.schema_version == b.schema_version,
        a.bench_id@ == b.bench_id@,
        a.contexts@.map_values(|e: ContextIndexEntry| entry_view(e)) == b.contexts@.map_values(
            |e: ContextIndexEntry| entry_view(e),
        ),
{
    lemma_entries_determined(a.contexts@, b.contexts@, all_uses(bench_dir, manifests));
}

proof fn lemma_first_use(us: Seq<(Seq<char>, Seq<char>, Seq<char>, u64, u64, Seq<char>, Seq<Seq<char>>, Seq<(Seq<char>, Seq<char>)>)>, p: Seq<char>)
    ensures
        first_use(us, p) matches Some(i) ==> 0 <= i < us.len() && us[i].0 == p && forall|j: int|
            0 <= j < i ==> (#[trigger] us[j]).0 != p,
        first_use(us, p) is None <==> forall|i: int| 0 <= i < us.len() ==> (#[trigger] us[i]).0 != p,
    decreases us.len(),
{
    if us.len() > 0 {
        let d = us.drop_last();
        lemma_first_use(d, p);
        assert forall|j: int| 0 <= j < d.len() implies d[j] == us[j] by {}
        if first_use(us, p) is None {
            assert forall|i: int| 0 <= i < us.len() implies (#[trigger] us[i]).0 != p by {
                if i < d.len() {
                    assert(d[i].0 != p);
                }
            }
        }
        if first_use(us, p) is Some && first_use(d, p) is None {
            assert forall|j: int| 0 <= j < us.len() - 1 implies (#[trigger] us[j]).0 != p by {
                assert(d[j].0 != p);
            }
        }
    }
}

proof fn lemma_uses_push(us: Seq<(Seq<char>, Seq<char>, Seq<char>, u64, u64, Seq<char>, Seq<Seq<char>>, Seq<(Seq<char>, Seq<char>)>)>, u: (Seq<char>, Seq<char>, Seq<char>, u64, u64, Seq<char>, Seq<Seq<char>>, Seq<(Seq<char>, Seq<char>)>), p: Seq<char>)
    ensures
        first_use(us.push(u), p) == if first_use(us, p) is Some {
            first_use(us, p)
        } else if u.0 == p {
            Some(us.len() as int)
        } else {
            None
        },
        overlay_map(us.push(u), p) == if u.0 == p {
            overlay_map(us, p).union_prefer_right(pairs_map(u.7))
        } else {
            overlay_map(us, p)
        },
        forall|x: Seq<char>| manifest_used(us.push(u), p, x) <==> (manifest_used(us, p, x) || (u.0 == p && u.1 == x)),
        forall|x: Seq<char>| id_used(us.push(u), p, x) <==> (id_used(us, p, x) || (u.0 == p && u.5 == x)),
        forall|x: Seq<char>| keyword_used(us.push(u), p, x) <==> (keyword_used(us, p, x) || (u.0 == p && u.6.contains(x))),
{
    let n = us.push(u);
    assert(n.drop_last() =~= us);
    assert(n.last() == u);
    assert forall|x: Seq<char>| manifest_used(n, p, x) <==> (manifest_used(us, p, x) || (u.0 == p && u.1 == x)) by {
        if manifest_used(n, p, x) {
            let i = choose|i: int| 0 <= i < n.len() && (#[trigger] n[i]).0 == p && n[i].1 == x;
            if i < us.len() {
                assert(us[i] == n[i]);
            }
        }
        if manifest_used(us, p, x) {
            let i = choose|i: int| 0 <= i < us.len() && (#[trigger] us[i]).0 == p && us[i].1 == x;
            assert(n[i] == us[i]);
        }
        if u.0 == p && u.1 == x {
            assert(n[us.len() as int] == u);
        }
    }
    assert forall|x: Seq<char>| id_used(n, p, x) <==> (id_used(us, p, x) || (u.0 == p && u.5 == x)) by {
        if id_used(n, p, x) {
            let i = choose|i: int| 0 <= i < n.len() && (#[trigger] n[i]).0 == p && n[i].5 == x;
            if i < us.len() {
                assert(us[i] == n[i]);
            }
        }
        if id_used(us, p, x) {
            let i = choose|i: int| 0 <= i < us.len() && (#[trigger] us[i]).0 == p && us[i].5 == x;
            assert(n[i] == us[i]);
        }
        if u.0 == p && u.5 == x {
            assert(n[us.len() as int] == u);
        }
    }
    assert forall|x: Seq<char>| keyword_used(n, p, x) <==> (keyword_used(us, p, x) || (u.0 == p && u.6.contains(x))) by {
        if keyword_used(n, p, x) {
            let i = choose|i: int| 0 <= i < n.len() && (#[trigger] n[i]).0 == p && n[i].6.contains(x);
            if i < us.len() {
                assert(us[i] == n[i]);
            }
        }
        if keyword_used(us, p, x) {
            let i = choose|i: int| 0 <= i < us.len() && (#[trigger] us[i]).0 == p && us[i].6.contains(x);
            assert(n[i] == us[i]);
        }
        if u.0 == p && u.6.contains(x) {
            assert(n[us.len() as int] == u);
        }
    }
}

proof fn lemma_unused_path(us: Seq<(Seq<char>, Seq<char>, Seq<char>, u64, u64, Seq<char>, Seq<Seq<char>>, Seq<(Seq<char>, Seq<char>)>)>, p: Seq<char>)
    requires
        forall|i: int| 0 <= i < us.len() ==> (#[trigger] us[i]).0 != p,
    ensures
        overlay_map(us, p) == Map::<Seq<char>, Seq<char>>::empty(),
        forall|x: Seq<char>| !manifest_used(us, p, x) && !id_used(us, p, x) && !keyword_used(us, p, x),
    decreases us.len(),
{
    if us.len() > 0 {
        let d = us.drop_last();
        assert forall|i: int| 0 <= i < d.len() implies (#[trigger] d[i]).0 != p by {
            assert(d[i] == us[i]);
        }
        lemma_unused_path(d, p);
        assert(us.last() == us[us.len() - 1]);
    }
}

proof fn lemma_key_lt_irreflexive(a: ContextIndexEntry)
    ensures
        !entry_key_lt(a, a),
{
    crate::text::lemma_lex_irreflexive(a.context_id@);
    crate::text::lemma_lex_irreflexive(a.path@);
}

proof fn lemma_key_lt_transitive(a: ContextIndexEntry, b: ContextIndexEntry, c: ContextIndexEntry)
    requires
        entry_key_lt(a, b),
        entry_key_lt(b, c),
    ensures
        entry_key_lt(a, c),
{
    if lex_lt(a.context_id@, b.context_id@) && lex_lt(b.context_id@, c.context_id@) {
        crate::text::lemma_lex_transitive(a.context_id@, b.context_id@, c.context_id@);
    } else if lex_lt(a.path@, b.path@) && lex_lt(b.path@, c.path@) && a.context_id@ == b.context_id@
        && b.context_id@ == c.context_id@ {
        crate::text::lemma_lex_transitive(a.path@, b.path@, c.path@);
    }
}

proof fn lemma_key_lt_total(a: ContextIndexEntry, b: ContextIndexEntry)
    requires
        a.path@ != b.path@,
    ensures
        entry_key_lt(a, b) || entry_key_lt(b, a),
{
    crate::text::lemma_lex_total(a.context_id@, b.context_id@);
    crate::text::lemma_lex_total(a.path@, b.path@);
}

/// Adds one use to an entry's sets and metadata.
fn add_use(e: ContextIndexEntry, u: &ContextUse) -> (r: ContextIndexEntry)
    requires
        crate::text::strictly_sorted(strings_view(e.source_manifests@)),
        crate::text::strictly_sorted(strings_view(e.test_ids@)),
        crate::text::strictly_sorted(strings_view(e.keywords@)),
        crate::text::strictly_sorted(meta_keys(e.metadata@)),
    ensures
        r.context_id@ == e.context_id@,
        r.path@ == e.path@,
        r.sha256@ == e.sha256@,
        r.suite@ == e.suite@,
        r.token_count == e.token_count,
        r.seed == e.seed,
        r.title@ == e.title@,
        r.summary@ == e.summary@,
        r.safe_anchors@.len() == e.safe_anchors@.len(),
        crate::text::strictly_sorted(strings_view(r.source_manifests@)),
        forall|x: Seq<char>| strings_view(r.source_manifests@).contains(x) <==> (strings_view(e.source_manifests@).contains(x) || x == u.source_manifest@),
        crate::text::strictly_sorted(strings_view(r.test_ids@)),
        forall|x: Seq<char>| strings_view(r.test_ids@).contains(x) <==> (strings_view(e.test_ids@).contains(x) || x == u.test_id@),
        crate::text::strictly_sorted(strings_view(r.keywords@)),
        forall|x: Seq<char>| #[trigger] strings_view(r.keywords@).contains(x) <==> (strings_view(e.keywords@).contains(x) || strings_view(u.keywords@).contains(x)),
        crate::text::strictly_sorted(meta_keys(r.metadata@)),
        pairs_map(pairs_view(r.metadata@)) == pairs_map(pairs_view(e.metadata@)).union_prefer_right(pairs_map(pairs_view(u.metadata@))),
{
    let ContextIndexEntry {
        context_id,
        path,
        sha256,
        suite,
        token_count,
        seed,
        source_manifests,
        test_ids,
        title,
        summary,
        keywords,
        safe_anchors,
        metadata,
    } = e;
    let mut source_manifests = source_manifests;
    crate::text::insert_sorted_unique(&mut source_manifests, u.source_manifest.clone());
    let mut test_ids = test_ids;
    crate::text::insert_sorted_unique(&mut test_ids, u.test_id.clone());
    let ghost old_keywords = strings_view(keywords@);
    let mut keywords = keywords;
    let mut i: usize = 0;
    while i < u.keywords.len()
        invariant
            i <= u.keywords@.len(),
            crate::text::strictly_sorted(strings_view(keywords@)),
            forall|x: Seq<char>| #[trigger] strings_view(keywords@).contains(x) <==> (old_keywords.contains(x) || strings_view(u.keywords@).take(i as int).contains(x)),
        decreases u.keywords@.len() - i,
    {
        let ghost uk = strings_view(u.keywords@);
        proof {
            assert(uk.take(i as int + 1) =~= uk.take(i as int).push(uk[i as int]));
            assert forall|x: Seq<char>| uk.take(i as int + 1).contains(x) <==> (uk.take(i as int).contains(x) || x == uk[i as int]) by {
                if uk.take(i as int + 1).contains(x) {
                    let k = choose|k: int| 0 <= k < i + 1 && #[trigger] uk.take(i as int + 1)[k] == x;
                    if k < i {
                        assert(uk.take(i as int)[k] == x);
                    }
                }
                if uk.take(i as int).contains(x) {
                    let k = choose|k: int| 0 <= k < i && #[trigger] uk.take(i as int)[k] == x;
                    assert(uk.take(i as int + 1)[k] == x);
                }
                if x == uk[i as int] {
                    assert(uk.take(i as int + 1)[i as int] == x);
                }
            }
        }
        let kw = u.keywords[i].clone();
        assert(kw@ == uk[i as int]);
        let ghost before_kw = strings_view(keywords@);
        assert forall|x: Seq<char>| before_kw.contains(x) <==> (old_keywords.contains(x) || uk.take(i as int).contains(x)) by {
            assert(strings_view(keywords@).contains(x) <==> (old_keywords.contains(x) || strings_view(u.keywords@).take(i as int).contains(x)));
        }
        crate::text::insert_sorted_unique(&mut keywords, kw);
        proof {
            assert forall|x: Seq<char>| strings_view(keywords@).contains(x) <==> (old_keywords.contains(x) || uk.take(i as int + 1).contains(x)) by {
                assert(strings_view(keywords@).contains(x) <==> (before_kw.contains(x) || x == uk[i as int]));
                assert(uk.take(i as int + 1).contains(x) <==> (uk.take(i as int).contains(x) || x == uk[i as int]));
            }
        }
        i = i + 1;
    }
    assert(strings_view(u.keywords@).take(u.keywords@.len() as int) =~= strings_view(u.keywords@));
    let ghost old_map = pairs_map(pairs_view(metadata@));
    let ghost um = pairs_view(u.metadata@);
    let mut metadata = metadata;
    let mut j: usize = 0;
    assert(pairs_map(um.take(0)) =~= Map::<Seq<char>, Seq<char>>::empty()) by {
        assert(um.take(0).len() == 0);
    }
    assert(old_map.union_prefer_right(pairs_map(um.take(0))) =~= old_map);
    while j < u.metadata.len()
        invariant
            j <= u.metadata@.len(),
            um == pairs_view(u.metadata@),
            crate::text::strictly_sorted(meta_keys(metadata@)),
            pairs_map(pairs_view(metadata@)) == old_map.union_prefer_right(pairs_map(um.take(j as int))),
        decreases u.metadata@.len() - j,
    {
        let k = u.metadata[j].0.clone();
        let v = u.metadata[j].1.clone();
        meta_put(&mut metadata, k, v);
        proof {
            assert(um.take(j as int + 1).drop_last() =~= um.take(j as int));
            assert(um.take(j as int + 1).last() == um[j as int]);
            assert(old_map.union_prefer_right(pairs_map(um.take(j as int + 1))) =~= old_map.union_prefer_right(pairs_map(um.take(j as int))).insert(um[j as int].0, um[j as int].1));
        }
        j = j + 1;
    }
    assert(um.take(u.metadata@.len() as int) =~= um);
    ContextIndexEntry {
        context_id,
        path,
        sha256,
        suite,
        token_count,
        seed,
        source_manifests,
        test_ids,
        title,
        summary,
        keywords,
        safe_anchors,
        metadata,
    }
}

/// A fresh entry for the first use of a path.
fn new_entry(u: &ContextUse) -> (r: ContextIndexEntry)
    ensures
        r.context_id@ == context_id_spec(u.path@),
        r.path@ == u.path@,
        r.sha256@ == Seq::<char>::empty(),
        r.suite@ == u.suite@,
        r.token_count == u.token_count,
        r.seed == u.seed,
        r.title@ == title_spec(u.suite@),
        r.summary@ == summary_spec(u.suite@),
        r.safe_anchors@.len() == 0,
        crate::text::strictly_sorted(strings_view(r.source_manifests@)),
        forall|x: Seq<char>| strings_view(r.source_manifests@).contains(x) <==> x == u.source_manifest@,
        crate::text::strictly_sorted(strings_view(r.test_ids@)),
        forall|x: Seq<char>| strings_view(r.test_ids@).contains(x) <==> x == u.test_id@,
        crate::text::strictly_sorted(strings_view(r.keywords@)),
        forall|x: Seq<char>| strings_view(r.keywords@).contains(x) <==> strings_view(u.keywords@).contains(x),
        crate::text::strictly_sorted(meta_keys(r.metadata@)),
        pairs_map(pairs_view(r.metadata@)) == Map::<Seq<char>, Seq<char>>::empty().union_prefer_right(pairs_map(pairs_view(u.metadata@))),
{
    let blank = ContextIndexEntry {
        context_id: context_id_from_path(u.path.as_str()),
        path: u.path.clone(),
        sha256: String::new(),
        suite: u.suite.clone(),
        token_count: u.token_count,
        seed: u.seed,
        source_manifests: Vec::new(),
        test_ids: Vec::new(),
        title: context_title(u.suite.as_str()),
        summary: context_summary(u.suite.as_str()),
        keywords: Vec::new(),
        safe_anchors: Vec::new(),
        metadata: Vec::new(),
    };
    proof {
        assert(strings_view(blank.source_manifests@) =~= Seq::<Seq<char>>::empty());
        assert(strings_view(blank.test_ids@) =~= Seq::<Seq<char>>::empty());
        assert(strings_view(blank.keywords@) =~= Seq::<Seq<char>>::empty());
        assert(meta_keys(blank.metadata@) =~= Seq::<Seq<char>>::empty());
        assert(pairs_view(blank.metadata@) =~= Seq::<(Seq<char>, Seq<char>)>::empty());
        assert(pairs_map(pairs_view(blank.metadata@)) == Map::<Seq<char>, Seq<char>>::empty());
    }
    add_use(blank, u)
}


/// An entry stays correct when a use of another path is added.
proof fn lemma_entry_other_use(e: ContextIndexEntry, us: Seq<(Seq<char>, Seq<char>, Seq<char>, u64, u64, Seq<char>, Seq<Seq<char>>, Seq<(Seq<char>, Seq<char>)>)>, u: (Seq<char>, Seq<char>, Seq<char>, u64, u64, Seq<char>, Seq<Seq<char>>, Seq<(Seq<char>, Seq<char>)>))
    requires
        entry_ok(e, us),
        e.path@ != u.0,
    ensures
        entry_ok(e, us.push(u)),
{
    let p = e.path@;
    let un = us.push(u);
    lemma_uses_push(us, u, p);
    lemma_first_use(us, p);
    assert(un[first_use(us, p)->0] == us[first_use(us, p)->0]);
    assert forall|x: Seq<char>| strings_view(e.source_manifests@).contains(x) <==> manifest_used(un, p, x) by {
        assert(strings_view(e.source_manifests@).contains(x) <==> manifest_used(us, p, x));
    }
    assert forall|x: Seq<char>| strings_view(e.test_ids@).contains(x) <==> id_used(un, p, x) by {
        assert(strings_view(e.test_ids@).contains(x) <==> id_used(us, p, x));
    }
    assert forall|x: Seq<char>| strings_view(e.keywords@).contains(x) <==> keyword_used(un, p, x) by {
        assert(strings_view(e.keywords@).contains(x) <==> keyword_used(us, p, x));
    }
}

/// An entry grown by a use of its own path describes the longer uses.
proof fn lemma_entry_same_use(e: ContextIndexEntry, e2: ContextIndexEntry, us: Seq<(Seq<char>, Seq<char>, Seq<char>, u64, u64, Seq<char>, Seq<Seq<char>>, Seq<(Seq<char>, Seq<char>)>)>, u: (Seq<char>, Seq<char>, Seq<char>, u64, u64, Seq<char>, Seq<Seq<char>>, Seq<(Seq<char>, Seq<char>)>))
    requires
        entry_ok(e, us),
        e.path@ == u.0,
        e2.context_id@ == e.context_id@,
        e2.path@ == e.path@,
        e2.sha256@ == e.sha256@,
        e2.suite@ == e.suite@,
        e2.token_count == e.token_count,
        e2.seed == e.seed,
        e2.title@ == e.title@,
        e2.summary@ == e.summary@,
        e2.safe_anchors@.len() == e.safe_anchors@.len(),
        crate::text::strictly_sorted(strings_view(e2.source_manifests@)),
        forall|x: Seq<char>| strings_view(e2.source_manifests@).contains(x) <==> (strings_view(e.source_manifests@).contains(x) || x == u.1),
        crate::text::strictly_sorted(strings_view(e2.test_ids@)),
        forall|x: Seq<char>| strings_view(e2.test_ids@).contains(x) <==> (strings_view(e.test_ids@).contains(x) || x == u.5),
        crate::text::strictly_sorted(strings_view(e2.keywords@)),
        forall|x: Seq<char>| #[trigger] strings_view(e2.keywords@).contains(x) <==> (strings_view(e.keywords@).contains(x) || u.6.contains(x)),
        crate::text::strictly_sorted(meta_keys(e2.metadata@)),
        pairs_map(pairs_view(e2.metadata@)) == pairs_map(pairs_view(e.metadata@)).union_prefer_right(pairs_map(u.7)),
    ensures
        entry_ok(e2, us.push(u)),
{
    let p = e.path@;
    let un = us.push(u);
    lemma_uses_push(us, u, p);
    lemma_first_use(us, p);
    assert(un[first_use(us, p)->0] == us[first_use(us, p)->0]);
    assert forall|x: Seq<char>| strings_view(e2.source_manifests@).contains(x) <==> manifest_used(un, p, x) by {
        assert(strings_view(e.source_manifests@).contains(x) <==> manifest_used(us, p, x));
        assert(strings_view(e2.source_manifests@).contains(x) <==> (strings_view(e.source_manifests@).contains(x) || x == u.1));
    }
    assert forall|x: Seq<char>| strings_view(e2.test_ids@).contains(x) <==> id_used(un, p, x) by {
        assert(strings_view(e.test_ids@).contains(x) <==> id_used(us, p, x));
        assert(strings_view(e2.test_ids@).contains(x) <==> (strings_view(e.test_ids@).contains(x) || x == u.5));
    }
    assert forall|x: Seq<char>| strings_view(e2.keywords@).contains(x) <==> keyword_used(un, p, x) by {
        assert(strings_view(e.keywords@).contains(x) <==> keyword_used(us, p, x));
        assert(strings_view(e2.keywords@).contains(x) <==> (strings_view(e.keywords@).contains(x) || u.6.contains(x)));
    }
}

/// An entry grown by one more use of its own path still describes the uses.
proof fn lemma_step_update(es: Seq<ContextIndexEntry>, us: Seq<(Seq<char>, Seq<char>, Seq<char>, u64, u64, Seq<char>, Seq<Seq<char>>, Seq<(Seq<char>, Seq<char>)>)>, u: (Seq<char>, Seq<char>, Seq<char>, u64, u64, Seq<char>, Seq<Seq<char>>, Seq<(Seq<char>, Seq<char>)>), k: int, e2: ContextIndexEntry)
    requires
        entries_ok(es, us),
        0 <= k < es.len(),
        es[k].path@ == u.0,
        e2.context_id@ == es[k].context_id@,
        e2.path@ == es[k].path@,
        e2.sha256@ == es[k].sha256@,
        e2.suite@ == es[k].suite@,
        e2.token_count == es[k].token_count,
        e2.seed == es[k].seed,
        e2.title@ == es[k].title@,
        e2.summary@ == es[k].summary@,
        e2.safe_anchors@.len() == es[k].safe_anchors@.len(),
        crate::text::strictly_sorted(strings_view(e2.source_manifests@)),
        forall|x: Seq<char>| strings_view(e2.source_manifests@).contains(x) <==> (strings_view(es[k].source_manifests@).contains(x) || x == u.1),
        crate::text::strictly_sorted(strings_view(e2.test_ids@)),
        forall|x: Seq<char>| strings_view(e2.test_ids@).contains(x) <==> (strings_view(es[k].test_ids@).contains(x) || x == u.5),
        crate::text::strictly_sorted(strings_view(e2.keywords@)),
        forall|x: Seq<char>| #[trigger] strings_view(e2.keywords@).contains(x) <==> (strings_view(es[k].keywords@).contains(x) || u.6.contains(x)),
        crate::text::strictly_sorted(meta_keys(e2.metadata@)),
        pairs_map(pairs_view(e2.metadata@)) == pairs_map(pairs_view(es[k].metadata@)).union_prefer_right(pairs_map(u.7)),
    ensures
        entries_ok(es.update(k, e2), us.push(u)),
{
    let n = es.update(k, e2);
    let un = us.push(u);
    assert(un.drop_last() =~= us);
    assert forall|i: int, j: int| 0 <= i < j < n.len() implies entry_key_lt(#[trigger] n[i], #[trigger] n[j]) by {
        assert(entry_key_lt(es[i], es[j]));
    }
    assert forall|j: int| 0 <= j < n.len() implies entry_ok(#[trigger] n[j], un) by {
        assert(entry_ok(es[j], us));
        if j == k {
            lemma_entry_same_use(es[k], e2, us, u);
        } else {
            assert(n[j] == es[j]);
            assert(es[j].path@ != u.0) by {
                if es[j].path@ == u.0 {
                    if j < k {
                        assert(entry_key_lt(es[j], es[k]));
                    } else {
                        assert(entry_key_lt(es[k], es[j]));
                    }
                    lemma_key_lt_irreflexive(es[j]);
                }
            }
            lemma_entry_other_use(es[j], us, u);
        }
    }
    assert forall|i: int| 0 <= i < un.len() implies exists|j: int| 0 <= j < n.len() && (#[trigger] n[j]).path@ == (#[trigger] un[i]).0 by {
        if i < us.len() {
            assert(un[i] == us[i]);
            let j = choose|j: int| 0 <= j < es.len() && (#[trigger] es[j]).path@ == (#[trigger] us[i]).0;
            assert(n[j].path@ == es[j].path@);
        } else {
            assert(n[k].path@ == u.0);
        }
    }
}

/// A new entry for the first use of a path, placed in key order, keeps the
/// entries describing the uses.
proof fn lemma_step_insert(es: Seq<ContextIndexEntry>, us: Seq<(Seq<char>, Seq<char>, Seq<char>, u64, u64, Seq<char>, Seq<Seq<char>>, Seq<(Seq<char>, Seq<char>)>)>, u: (Seq<char>, Seq<char>, Seq<char>, u64, u64, Seq<char>, Seq<Seq<char>>, Seq<(Seq<char>, Seq<char>)>), p: int, e2: ContextIndexEntry)
    requires
        entries_ok(es, us),
        forall|k: int| 0 <= k < es.len() ==> (#[trigger] es[k]).path@ != u.0,
        0 <= p <= es.len(),
        forall|k: int| 0 <= k < p ==> entry_key_lt(#[trigger] es[k], e2),
        p < es.len() ==> !entry_key_lt(es[p], e2),
        e2.context_id@ == context_id_spec(u.0),
        e2.path@ == u.0,
        e2.sha256@ == Seq::<char>::empty(),
        e2.suite@ == u.2,
        e2.token_count == u.3,
        e2.seed == u.4,
        e2.title@ == title_spec(u.2),
        e2.summary@ == summary_spec(u.2),
        e2.safe_anchors@.len() == 0,
        crate::text::strictly_sorted(strings_view(e2.source_manifests@)),
        forall|x: Seq<char>| strings_view(e2.source_manifests@).contains(x) <==> x == u.1,
        crate::text::strictly_sorted(strings_view(e2.test_ids@)),
        forall|x: Seq<char>| strings_view(e2.test_ids@).contains(x) <==> x == u.5,
        crate::text::strictly_sorted(strings_view(e2.keywords@)),
        forall|x: Seq<char>| strings_view(e2.keywords@).contains(x) <==> u.6.contains(x),
        crate::text::strictly_sorted(meta_keys(e2.metadata@)),
        pairs_map(pairs_view(e2.metadata@)) == Map::<Seq<char>, Seq<char>>::empty().union_prefer_right(pairs_map(u.7)),
    ensures
        entries_ok(es.insert(p, e2), us.push(u)),
{
    let n = es.insert(p, e2);
    let un = us.push(u);
    assert(un.drop_last() =~= us);
    assert forall|i: int| 0 <= i < us.len() implies (#[trigger] us[i]).0 != u.0 by {
        let j = choose|j: int| 0 <= j < es.len() && (#[trigger] es[j]).path@ == (#[trigger] us[i]).0;
        assert(es[j].path@ != u.0);
    }
    lemma_unused_path(us, u.0);
    lemma_first_use(us, u.0);
    if p < es.len() {
        lemma_key_lt_total(es[p], e2);
    }
    assert forall|i: int, j: int| 0 <= i < j < n.len() implies entry_key_lt(#[trigger] n[i], #[trigger] n[j]) by {
        if j == p {
            assert(n[i] == es[i]);
        } else if i == p {
            assert(n[j] == es[j - 1]);
            if j - 1 > p {
                assert(entry_key_lt(es[p], es[j - 1]));
                lemma_key_lt_transitive(e2, es[p], es[j - 1]);
            }
        } else if i < p && j > p {
            assert(entry_key_lt(es[i], es[j - 1]));
        } else if i > p {
            assert(entry_key_lt(es[i - 1], es[j - 1]));
        } else {
            assert(entry_key_lt(es[i], es[j]));
        }
    }
    assert forall|j: int| 0 <= j < n.len() implies entry_ok(#[trigger] n[j], un) by {
        if j == p {
            let q = u.0;
            lemma_uses_push(us, u, q);
            assert(un[us.len() as int] == u);
            assert(overlay_map(un, q) =~= Map::<Seq<char>, Seq<char>>::empty().union_prefer_right(pairs_map(u.7)));
            assert forall|x: Seq<char>| strings_view(e2.source_manifests@).contains(x) <==> manifest_used(un, q, x) by {}
            assert forall|x: Seq<char>| strings_view(e2.test_ids@).contains(x) <==> id_used(un, q, x) by {}
            assert forall|x: Seq<char>| strings_view(e2.keywords@).contains(x) <==> keyword_used(un, q, x) by {}
        } else {
            let jj = if j < p { j } else { j - 1 };
            assert(n[j] == es[jj]);
            assert(entry_ok(es[jj], us));
            lemma_entry_other_use(es[jj], us, u);
        }
    }
    assert forall|i: int| 0 <= i < un.len() implies exists|j: int| 0 <= j < n.len() && (#[trigger] n[j]).path@ == (#[trigger] un[i]).0 by {
        if i < us.len() {
            assert(un[i] == us[i]);
            let j = choose|j: int| 0 <= j < es.len() && (#[trigger] es[j]).path@ == (#[trigger] us[i]).0;
            if j < p {
                assert(n[j] == es[j]);
            } else {
                assert(n[j + 1] == es[j]);
            }
        } else {
            assert(n[p].path@ == u.0);
        }
    }
}

fn find_entry(es: &Vec<ContextIndexEntry>, path: &Vec<char>) -> (r: Option<usize>)
    ensures
        match r {
            Some(k) => k < es@.len() && es@[k as int].path@ == path@,
            None => forall|k: int| 0 <= k < es@.len() ==> (#[trigger] es@[k]).path@ != path@,
        },
{
    let mut k: usize = 0;
    while k < es.len()
        invariant
            k <= es@.len(),
            forall|j: int| 0 <= j < k ==> (#[trigger] es@[j]).path@ != path@,
        decreases es@.len() - k,
    {
        let pc = chars_of(es[k].path.as_str());
        if crate::text::slices_equal_chars(pc.as_slice(), path.as_slice()) {
            return Some(k);
        }
        k = k + 1;
    }
    None
}

fn entry_key_less(a: &ContextIndexEntry, b: &ContextIndexEntry) -> (r: bool)
    ensures
        r == entry_key_lt(*a, *b),
{
    let ac = chars_of(a.context_id.as_str());
    let bc = chars_of(b.context_id.as_str());
    if lex_less(ac.as_slice(), bc.as_slice()) {
        return true;
    }
    if !crate::text::slices_equal_chars(ac.as_slice(), bc.as_slice()) {
        return false;
    }
    let ap = chars_of(a.path.as_str());
    let bp = chars_of(b.path.as_str());
    lex_less(ap.as_slice(), bp.as_slice())
}

fn entry_insert_pos(es: &Vec<ContextIndexEntry>, e: &ContextIndexEntry) -> (p: usize)
    ensures
        p <= es@.len(),
        forall|k: int| 0 <= k < p ==> entry_key_lt(#[trigger] es@[k], *e),
        p < es@.len() ==> !entry_key_lt(es@[p as int], *e),
{
    let mut p: usize = 0;
    while p < es.len()
        invariant
            p <= es@.len(),
            forall|k: int| 0 <= k < p ==> entry_key_lt(#[trigger] es@[k], *e),
        decreases es@.len() - p,
    {
        if !entry_key_less(&es[p], e) {
            return p;
        }
        p = p + 1;
    }
    p
}

/// The index entries of some uses: one per context file, in order of id and
/// path (the hashes are filled in once the files are read).
pub fn index_entries(uses: &Vec<ContextUse>) -> (es: Vec<ContextIndexEntry>)
    ensures
        entries_ok(es@, uses_view(uses@)),
{
    let ghost uv = uses_view(uses@);
    let mut es: Vec<ContextIndexEntry> = Vec::new();
    let mut i: usize = 0;
    proof {
        assert(uv.take(0) =~= Seq::<(Seq<char>, Seq<char>, Seq<char>, u64, u64, Seq<char>, Seq<Seq<char>>, Seq<(Seq<char>, Seq<char>)>)>::empty());
    }
    while i < uses.len()
        invariant
            i <= uses@.len(),
            uv == uses_view(uses@),
            entries_ok(es@, uv.take(i as int)),
        decreases uses@.len() - i,
    {
        let u = &uses[i];
        proof {
            assert(uv.take(i as int + 1) =~= uv.take(i as int).push(use_view(*u)));
        }
        let pc = chars_of(u.path.as_str());
        match find_entry(&es, &pc) {
            Some(k) => {
                let ghost before = es@;
                let e = es.remove(k);
                proof {
                    assert(e == before[k as int]);
                    assert(entry_ok(before[k as int], uv.take(i as int)));
                }
                let e2 = add_use(e, u);
                es.insert(k, e2);
                proof {
                    assert(es@ =~= before.update(k as int, e2));
                    lemma_step_update(before, uv.take(i as int), use_view(*u), k as int, e2);
                }
            },
            None => {
                let e2 = new_entry(u);
                let p = entry_insert_pos(&es, &e2);
                let ghost before = es@;
                es.insert(p, e2);
                proof {
                    lemma_step_insert(before, uv.take(i as int), use_view(*u), p as int, e2);
                }
            },
        }
        i = i + 1;
    }
    assert(uv.take(uses@.len() as int) =~= uv);
    es
}


pub open spec fn bench_id_spec(bench_dir: Seq<char>) -> Seq<char> {
    match spec_path_file_name(bench_dir) {
        Some(n) => n,
        None => "bench"@,
    }
}

/// The index of the contexts the manifests' tests name, before their files
/// are hashed: one entry per context file, described by the tests using it.
pub fn build_context_index(bench_dir: &str, created_at_unix_ms: u64, manifests: &Vec<ManifestSource>) -> (index: ContextIndex)
    ensures
        index.schema_version == SCHEMA_VERSION,
        index.bench_id@ == bench_id_spec(bench_dir@),
        index.created_at_unix_ms == created_at_unix_ms,
        entries_ok(index.contexts@, all_uses(bench_dir@, manifests@)),
{
    let uses = context_uses(bench_dir, manifests);
    let contexts = index_entries(&uses);
    let bench_id = match path_file_name(bench_dir) {
        Some(n) => n,
        None => String::from_str("bench"),
    };
    ContextIndex { schema_version: SCHEMA_VERSION, bench_id, created_at_unix_ms, contexts }
}

/// An entry with the digest of its file's content.
pub fn with_context_hash(e: ContextIndexEntry, content: &[u8]) -> (r: ContextIndexEntry)
    ensures
        r.sha256@ == crate::hashing::spec_sha256_hex(content@),
        r.context_id == e.context_id,
        r.path == e.path,
        r.suite == e.suite,
        r.token_count == e.token_count,
        r.seed == e.seed,
        r.source_manifests == e.source_manifests,
        r.test_ids == e.test_ids,
        r.title == e.title,
        r.summary == e.summary,
        r.keywords == e.keywords,
        r.safe_anchors == e.safe_anchors,
        r.metadata == e.metadata,
{
    let mut r = e;
    r.sha256 = crate::hashing::sha256_hex(content);
    r
}

/// The contents of the entries' files, each one there.
pub open spec fn all_present(contents: Seq<Vec<u8>>) -> Seq<Option<Seq<u8>>> {
    contents.map_values(|c: Vec<u8>| Some(c@))
}

/// `b` is `a` with another digest.
pub open spec fn same_but_digest(a: ContextIndexEntry, b: ContextIndexEntry) -> bool {
    let va = entry_view(a);
    let vb = entry_view(b);
    &&& va.0 == vb.0 && va.1 == vb.1 && va.3 == vb.3 && va.4 == vb.4 && va.5 == vb.5
    &&& va.6 == vb.6 && va.7 == vb.7 && va.8 == vb.8 && va.9 == vb.9 && va.10 == vb.10
    &&& va.11 == vb.11 && va.12 == vb.12
}

/// The index with each entry's digest taken from the content of its file,
/// `contents[k]` being the content of entry `k`'s file.
pub fn hash_context_index(index: ContextIndex, contents: &Vec<Vec<u8>>) -> (r: ContextIndex)
    requires
        contents@.len() == index.contexts@.len(),
    ensures
        r.schema_version == index.schema_version,
        r.bench_id == index.bench_id,
        r.created_at_unix_ms == index.created_at_unix_ms,
        hashed_entries(index.contexts@, r.contexts@, all_present(contents@)),
        forall|k: int| 0 <= k < r.contexts@.len() ==> same_but_digest(index.contexts@[k], #[trigger] r.contexts@[k]),
{
    let ContextIndex { schema_version, bench_id, created_at_unix_ms, contexts } = index;
    let ghost before = contexts@;
    let mut rest = contexts;
    let mut out: Vec<ContextIndexEntry> = Vec::new();
    let mut k: usize = 0;
    let n = contents.len();
    proof {
        assert(rest@ =~= before.subrange(0, before.len() as int));
    }
    while rest.len() > 0
        invariant
            k + rest@.len() == before.len(),
            before.len() == n,
            contents@.len() == before.len(),
            rest@ == before.subrange(k as int, before.len() as int),
            out@.len() == k,
            forall|j: int| 0 <= j < k ==> {
                &&& (#[trigger] out@[j]).context_id@ == before[j].context_id@
                &&& out@[j].path@ == before[j].path@
                &&& out@[j].sha256@ == crate::hashing::spec_sha256_hex(contents@[j]@)
                &&& same_but_digest(before[j], out@[j])
            },
        decreases rest@.len(),
    {
        let e = rest.remove(0);
        let h = with_context_hash(e, contents[k].as_slice());
        out.push(h);
        proof {
            assert(rest@ =~= before.subrange(k as int + 1, before.len() as int));
        }
        k = k + 1;
    }
    let r = ContextIndex { schema_version, bench_id, created_at_unix_ms, contexts: out };
    proof {
        let cs = all_present(contents@);
        assert forall|j: int| 0 <= j < before.len() implies {
            &&& (#[trigger] r.contexts@[j]).context_id@ == before[j].context_id@
            &&& r.contexts@[j].path@ == before[j].path@
            &&& cs[j] matches Some(c) && r.contexts@[j].sha256@ == crate::hashing::spec_sha256_hex(c)
        } by {
            assert(cs[j] == Some(contents@[j]@));
        }
    }
    r
}

/// The index to use: the one already written, else a fresh one; the flag
/// says whether it was built and so still needs writing.
pub fn load_or_build_context_index(
    existing: Option<ContextIndex>,
    bench_dir: &str,
    created_at_unix_ms: u64,
    manifests: &Vec<ManifestSource>,
) -> (r: (ContextIndex, bool))
    ensures
        match existing {
            Some(i) => r.0 == i && !r.1,
            None => r.1 && r.0.schema_version == SCHEMA_VERSION && r.0.bench_id@ == bench_id_spec(
                bench_dir@,
            ) && r.0.created_at_unix_ms == created_at_unix_ms && entries_ok(
                r.0.contexts@,
                all_uses(bench_dir@, manifests@),
            ),
        },
{
    match existing {
        Some(i) => (i, false),
        None => (build_context_index(bench_dir, created_at_unix_ms, manifests), true),
    }
}

pub open spec fn index_schema_message(v: u32) -> Seq<char> {
    "context index schema_version "@ + crate::text::dec(v as nat)
        + " is newer than supported schema_version "@ + crate::text::dec(SCHEMA_VERSION as nat)
}

/// The first problem of the entries from `k` on: an empty id, a missing
/// file, or a file whose digest is not the recorded one. `contents[k]` is
/// the content of entry `k`'s file, if it exists.
pub open spec fn entries_error(es: Seq<ContextIndexEntry>, contents: Seq<Option<Seq<u8>>>, k: int) -> Option<Seq<char>>
    decreases es.len() - k,
{
    if k < 0 || k >= es.len() || k >= contents.len() {
        None
    } else {
        let e = es[k];
        if trim_seq(e.context_id@).len() == 0 {
            Some("context index entry has empty context_id"@)
        } else if crate::paths::is_absolute_spec(e.path@) {
            Some("indexed context path must be relative: "@ + e.path@)
        } else if crate::paths::escapes_spec(e.path@) {
            Some("indexed context path escapes the benchmark directory: "@ + e.path@)
        } else {
            match contents[k] {
                None => Some("indexed context does not exist: "@ + e.path@),
                Some(c) => if crate::hashing::spec_sha256_hex(c) != e.sha256@ {
                    Some(
                        "indexed context hash mismatch for "@ + e.path@ + ": expected "@ + e.sha256@
                            + ", got "@ + crate::hashing::spec_sha256_hex(c),
                    )
                } else {
                    entries_error(es, contents, k + 1)
                },
            }
        }
    }
}

pub open spec fn index_error(index: ContextIndex, contents: Seq<Option<Seq<u8>>>) -> Option<Seq<char>> {
    if index.schema_version > SCHEMA_VERSION {
        Some(index_schema_message(index.schema_version))
    } else {
        entries_error(index.contexts@, contents, 0)
    }
}

pub open spec fn contents_view(c: Seq<Option<Vec<u8>>>) -> Seq<Option<Seq<u8>>> {
    c.map_values(|o: Option<Vec<u8>>| match o {
        Some(v) => Some(v@),
        None => None,
    })
}

/// The entries from position `k` on that name safe relative paths, carry a
/// context id and the digest of what their file holds.
pub open spec fn entries_hashed(es: Seq<ContextIndexEntry>, contents: Seq<Option<Seq<u8>>>) -> bool {
    &&& contents.len() == es.len()
    &&& forall|k: int| 0 <= k < es.len() ==> {
        &&& trim_seq((#[trigger] es[k]).context_id@).len() > 0
        &&& !crate::paths::is_absolute_spec(es[k].path@)
        &&& !crate::paths::escapes_spec(es[k].path@)
        &&& contents[k] matches Some(c) && crate::hashing::spec_sha256_hex(c) == es[k].sha256@
    }
}

proof fn lemma_entries_hashed_from(es: Seq<ContextIndexEntry>, contents: Seq<Option<Seq<u8>>>, k: int)
    requires
        entries_hashed(es, contents),
        0 <= k <= es.len(),
    ensures
        entries_error(es, contents, k) is None,
    decreases es.len() - k,
{
    if k < es.len() {
        lemma_entries_hashed_from(es, contents, k + 1);
        let e = es[k];
        assert(trim_seq(e.context_id@).len() > 0);
    }
}

/// An index read back with every entry's digest taken from the file it
/// names, under safe relative paths and a supported schema, passes
/// validation against those files.
pub proof fn lemma_hashed_index_validates(index: ContextIndex, contents: Seq<Option<Seq<u8>>>)
    requires
        index.schema_version <= SCHEMA_VERSION,
        entries_hashed(index.contexts@, contents),
    ensures
        index_error(index, contents) is None,
{
    lemma_entries_hashed_from(index.contexts@, contents, 0);
}

/// `hs` is `es` with each entry's digest taken from the content of its file,
/// as `with_context_hash` gives it.
pub open spec fn hashed_entries(es: Seq<ContextIndexEntry>, hs: Seq<ContextIndexEntry>, contents: Seq<Option<Seq<u8>>>) -> bool {
    &&& hs.len() == es.len()
    &&& contents.len() == es.len()
    &&& forall|k: int| 0 <= k < es.len() ==> {
        &&& (#[trigger] hs[k]).context_id@ == es[k].context_id@
        &&& hs[k].path@ == es[k].path@
        &&& contents[k] matches Some(c) && hs[k].sha256@ == crate::hashing::spec_sha256_hex(c)
    }
}

/// Every context the manifests use has a safe relative path and a name
/// from which a context id is made.
pub open spec fn uses_safe(us: Seq<(Seq<char>, Seq<char>, Seq<char>, u64, u64, Seq<char>, Seq<Seq<char>>, Seq<(Seq<char>, Seq<char>)>)>) -> bool {
    forall|i: int| 0 <= i < us.len() ==> {
        &&& !crate::paths::is_absolute_spec((#[trigger] us[i]).0)
        &&& !crate::paths::escapes_spec(us[i].0)
        &&& trim_seq(context_id_spec(us[i].0)).len() > 0
    }
}

/// An index built from the manifests, whose entries are then hashed from
/// the files they name, passes validation against those same files, when
/// the manifests name their contexts by safe relative paths.
#[verifier::spinoff_prover]
pub proof fn lemma_built_index_validates(
    bench_dir: Seq<char>,
    manifests: Seq<ManifestSource>,
    built: ContextIndex,
    hashed: ContextIndex,
    contents: Seq<Option<Seq<u8>>>,
)
    requires
        built.schema_version == SCHEMA_VERSION,
        entries_ok(built.contexts@, all_uses(bench_dir, manifests)),
        uses_safe(all_uses(bench_dir, manifests)),
        hashed.schema_version == built.schema_version,
        hashed_entries(built.contexts@, hashed.contexts@, contents),
    ensures
        index_error(hashed, contents) is None,
{
    let us = all_uses(bench_dir, manifests);
    let es = built.contexts@;
    let hs = hashed.contexts@;
    assert forall|k: int| 0 <= k < hs.len() implies {
        &&& trim_seq((#[trigger] hs[k]).context_id@).len() > 0
        &&& !crate::paths::is_absolute_spec(hs[k].path@)
        &&& !crate::paths::escapes_spec(hs[k].path@)
        &&& contents[k] matches Some(c) && crate::hashing::spec_sha256_hex(c) == hs[k].sha256@
    } by {
        assert(entry_ok(es[k], us));
        let p = es[k].path@;
        lemma_first_use(us, p);
        let i = first_use(us, p)->0;
        assert(us[i].0 == p);
        assert(es[k].context_id@ == context_id_spec(p));
        assert(hs[k].context_id@ == es[k].context_id@ && hs[k].path@ == p);
        assert(!crate::paths::is_absolute_spec(us[i].0) && !crate::paths::escapes_spec(us[i].0));
        assert(trim_seq(context_id_spec(us[i].0)).len() > 0);
    }
    lemma_hashed_index_validates(hashed, contents);
}

/// Checks an index against the files it names.
pub fn validate_context_index(index: &ContextIndex, contents: &Vec<Option<Vec<u8>>>) -> (r: Result<(), String>)
    requires
        contents@.len() == index.contexts@.len(),
    ensures
        match index_error(*index, contents_view(contents@)) {
            Some(m) => r matches Err(e) && e@ == m,
            None => r is Ok,
        },
{
    let ghost cv = contents_view(contents@);
    if index.schema_version > SCHEMA_VERSION {
        let mut m: Vec<char> = Vec::new();
        extend_str(&mut m, "context index schema_version ");
        crate::text::extend_chars(&mut m, crate::text::u64_to_chars(index.schema_version as u64).as_slice());
        extend_str(&mut m, " is newer than supported schema_version ");
        crate::text::extend_chars(&mut m, crate::text::u64_to_chars(SCHEMA_VERSION as u64).as_slice());
        return Err(string_of(m.as_slice()));
    }
    let mut k: usize = 0;
    while k < index.contexts.len()
        invariant
            k <= index.contexts@.len(),
            contents@.len() == index.contexts@.len(),
            cv == contents_view(contents@),
            index.schema_version <= SCHEMA_VERSION,
            entries_error(index.contexts@, cv, 0) == entries_error(index.contexts@, cv, k as int),
        decreases index.contexts@.len() - k,
    {
        let e = &index.contexts[k];
        assert(cv[k as int] == match contents@[k as int] {
            Some(v) => Some(v@),
            None => None::<Seq<u8>>,
        });
        if trim_chars(chars_of(e.context_id.as_str()).as_slice()).len() == 0 {
            return Err(String::from_str("context index entry has empty context_id"));
        }
        let pc = chars_of(e.path.as_str());
        if pc.len() > 0 && pc[0] == '/' {
            let mut m: Vec<char> = Vec::new();
            extend_str(&mut m, "indexed context path must be relative: ");
            extend_str(&mut m, e.path.as_str());
            return Err(string_of(m.as_slice()));
        }
        if crate::paths::path_escapes(e.path.as_str()) {
            let mut m: Vec<char> = Vec::new();
            extend_str(&mut m, "indexed context path escapes the benchmark directory: ");
            extend_str(&mut m, e.path.as_str());
            return Err(string_of(m.as_slice()));
        }
        match &contents[k] {
            None => {
                let mut m: Vec<char> = Vec::new();
                extend_str(&mut m, "indexed context does not exist: ");
                extend_str(&mut m, e.path.as_str());
                return Err(string_of(m.as_slice()));
            },
            Some(c) => {
                let actual = crate::hashing::sha256_hex(c.as_slice());
                if !str_eq(actual.as_str(), e.sha256.as_str()) {
                    let mut m: Vec<char> = Vec::new();
                    extend_str(&mut m, "indexed context hash mismatch for ");
                    extend_str(&mut m, e.path.as_str());
                    extend_str(&mut m, ": expected ");
                    extend_str(&mut m, e.sha256.as_str());
                    extend_str(&mut m, ", got ");
                    extend_str(&mut m, actual.as_str());
                    return Err(string_of(m.as_slice()));
                }
            },
        }
        k = k + 1;
    }
    Ok(())
}

} // verus!
