use vstd::prelude::*;

use crate::benchmark::{Grader, SuiteManifest, TestCase, SCHEMA_VERSION};
use crate::text::{
    ascii_lower_seq, chars_of, dec, extend_chars, lemma_dec_injective, lemma_dec_len_u64, extend_str, join_seq, join_strings, string_of,
    strings_view, to_ascii_lowercase, u64_to_chars,
};
use crate::tokenizer::{spec_token_count, token_count_or_zero, TokenCounter};
use rand::seq::SliceRandom;
use rand::{Rng, SeedableRng};

verus! {

broadcast use vstd::seq_lib::to_multiset_insert, vstd::seq_lib::to_multiset_remove;

#[verifier::external_type_specification]
#[verifier::external_body]
pub struct ExStdRng(rand::rngs::StdRng);

// ---------------------------------------------------------------------------
// Random choices
// ---------------------------------------------------------------------------

/// Calls `StdRng::seed_from_u64`: a generator whose draws are fixed by the
/// seed (nothing is stated of them here).
#[verifier::external_body]
fn seeded_rng(seed: u64) -> (r: rand::rngs::StdRng) {
    rand::rngs::StdRng::seed_from_u64(seed)
}

/// Calls `rand::thread_rng().gen::<u64>()`: any seed.
#[verifier::external_body]
fn random_seed() -> (s: u64) {
    rand::thread_rng().gen::<u64>()
}

/// Calls `Rng::gen_range` on `low..high` with `i32` bounds: a value in the
/// range. The range must not be empty, which `gen_range` asserts.
#[verifier::external_body]
fn gen_range_i32(rng: &mut rand::rngs::StdRng, low: i32, high: i32) -> (v: i32)
    requires
        low < high,
    ensures
        low <= v < high,
{
    rng.gen_range(low..high)
}

/// Calls `Rng::gen_range` on `low..=high` with `usize` bounds.
#[verifier::external_body]
fn gen_range_usize_inclusive(rng: &mut rand::rngs::StdRng, low: usize, high: usize) -> (v: usize)
    requires
        low <= high,
    ensures
        low <= v <= high,
{
    rng.gen_range(low..=high)
}

/// Calls `Rng::gen_range` on `low..=high` with `u32` bounds.
#[verifier::external_body]
fn gen_range_u32_inclusive(rng: &mut rand::rngs::StdRng, low: u32, high: u32) -> (v: u32)
    requires
        low <= high,
    ensures
        low <= v <= high,
{
    rng.gen_range(low..=high)
}

/// Calls `SliceRandom::choose` on a non-empty slice: one of its elements.
#[verifier::external_body]
fn choose_str(rng: &mut rand::rngs::StdRng, items: &[&'static str]) -> (chosen: &'static str)
    requires
        items@.len() > 0,
    ensures
        items@.map_values(|x: &str| x@).contains(chosen@),
{
    match items.choose(rng) {
        Some(s) => *s,
        None => "",
    }
}

/// Calls `rand::seq::index::sample` (what `SliceRandom::choose_multiple`
/// draws its positions with): `amount` distinct positions below `length`.
#[verifier::external_body]
fn sample_indices(rng: &mut rand::rngs::StdRng, length: usize, amount: usize) -> (r: Vec<usize>)
    requires
        amount <= length,
    ensures
        r@.len() == amount,
        forall|i: int| 0 <= i < r@.len() ==> r@[i] < length,
        forall|i: int, j: int| 0 <= i < j < r@.len() ==> r@[i] != r@[j],
{
    rand::seq::index::sample(rng, length, amount).into_vec()
}

/// Calls `SliceRandom::shuffle`: the same values in some order.
#[verifier::external_body]
fn shuffle_usize(rng: &mut rand::rngs::StdRng, v: &mut Vec<usize>)
    ensures
        final(v)@.to_multiset() == old(v)@.to_multiset(),
{
    v.shuffle(rng)
}

// ---------------------------------------------------------------------------
// Context files
// ---------------------------------------------------------------------------

pub open spec fn filler_spec() -> Seq<char> {
    "This paragraph is ordinary benchmark filler text about documents, meetings, logs, summaries, and archived notes. It contains no answer to the benchmark question."@
}

fn filler() -> (s: &'static str)
    ensures
        s@ == filler_spec(),
{
    "This paragraph is ordinary benchmark filler text about documents, meetings, logs, summaries, and archived notes. It contains no answer to the benchmark question."
}

/// A generated context file: its name, its path relative to the benchmark
/// directory, its paragraphs and where the facts stand among them.
pub struct ContextFile {
    pub file_name: String,
    pub relative_path: String,
    pub chunks: Vec<String>,
    pub fact_indices: Vec<usize>,
}

impl ContextFile {
    /// The text written to the file: the paragraphs separated by blank lines.
    pub fn text(&self) -> (t: String)
        ensures
            t@ == join_seq(strings_view(self.chunks@), "\n\n"@),
    {
        string_of(join_strings(&self.chunks, "\n\n").as_slice())
    }
}

/// The tokens of the facts, added up (saturating).
pub open spec fn fact_tokens_spec(counter: crate::tokenizer::TokenEncoding, facts: Seq<Seq<char>>) -> nat
    decreases facts.len(),
{
    if facts.len() == 0 {
        0
    } else {
        let prev = fact_tokens_spec(counter, facts.drop_last());
        let s = prev + token_count_or_zero(counter, facts.last());
        if s > u64::MAX {
            u64::MAX as nat
        } else {
            s as nat
        }
    }
}

/// The number of characters in all the texts together.
pub open spec fn total_len(s: Seq<Seq<char>>) -> nat
    decreases s.len(),
{
    if s.len() == 0 {
        0
    } else {
        total_len(s.drop_last()) + s.last().len()
    }
}

/// Every fact and the filler paragraph have a token count.
pub open spec fn counts_known(counter: crate::tokenizer::TokenEncoding, facts: Seq<Seq<char>>) -> bool {
    &&& forall|i: int| 0 <= i < facts.len() ==> (#[trigger] spec_token_count(counter, facts[i])) is Some
    &&& spec_token_count(counter, filler_spec()) is Some
}

/// Every text of at most 256 characters has a token count.
pub open spec fn short_texts_counted(counter: crate::tokenizer::TokenEncoding) -> bool {
    forall|t: Seq<char>| t.len() <= 256 ==> (#[trigger] spec_token_count(counter, t)) is Some
}

/// The message for a context whose tokens cannot be counted.
pub open spec fn uncounted_message() -> Seq<char> {
    "failed to count the tokens of the context"@
}

proof fn lemma_filler_short()
    ensures
        filler_spec().len() <= 256,
{
    reveal_strlit("This paragraph is ordinary benchmark filler text about documents, meetings, logs, summaries, and archived notes. It contains no answer to the benchmark question.");
}

/// Every text is at most 256 characters long.
pub open spec fn short_texts(s: Seq<Seq<char>>) -> bool {
    forall|i: int| 0 <= i < s.len() ==> (#[trigger] s[i]).len() <= 256
}

proof fn lemma_total_len_bound(s: Seq<Seq<char>>)
    requires
        short_texts(s),
    ensures
        total_len(s) <= 256 * s.len(),
    decreases s.len(),
{
    if s.len() > 0 {
        assert(short_texts(s.drop_last())) by {
            assert forall|i: int| 0 <= i < s.drop_last().len() implies (#[trigger] s.drop_last()[i]).len() <= 256 by {
                assert(s.drop_last()[i] == s[i]);
            }
        }
        lemma_total_len_bound(s.drop_last());
        assert(s.last() == s[s.len() - 1]);
    }
}

/// The number of filler paragraphs: enough to reach the token count (less
/// sixteen tokens per fact), and at least one more than the facts.
pub open spec fn repeats_spec(counter: crate::tokenizer::TokenEncoding, token_count: u64, facts: Seq<Seq<char>>) -> nat {
    let fact_tokens = fact_tokens_spec(counter, facts);
    let target: nat = if token_count >= fact_tokens {
        token_count as nat
    } else {
        fact_tokens
    };
    let filler_tokens: nat = if token_count_or_zero(counter, filler_spec()) >= 1 {
        token_count_or_zero(counter, filler_spec()) as nat
    } else {
        1
    };
    let budget: nat = if target >= 16 * facts.len() {
        (target - 16 * facts.len()) as nat
    } else {
        0
    };
    let n = budget / filler_tokens;
    if n >= facts.len() + 1 {
        n
    } else {
        facts.len() + 1
    }
}

/// The paragraphs hold the facts, in order and at `indices`, and filler
/// everywhere else.
pub open spec fn facts_placed(chunks: Seq<Seq<char>>, facts: Seq<Seq<char>>, indices: Seq<usize>) -> bool {
    &&& indices.len() == facts.len()
    &&& forall|i: int, j: int| 0 <= i < j < indices.len() ==> indices[i] < indices[j]
    &&& forall|i: int| 0 <= i < indices.len() ==> indices[i] < chunks.len() && chunks[indices[i] as int] == facts[i]
    &&& forall|k: int| 0 <= k < chunks.len() && !indices.contains(k as usize) ==> chunks[k] == filler_spec()
}

fn sort_usize(v: Vec<usize>) -> (r: Vec<usize>)
    ensures
        r@.to_multiset() == v@.to_multiset(),
        forall|i: int, j: int| 0 <= i < j < r@.len() ==> r@[i] <= r@[j],
{
    let mut input = v;
    let mut r: Vec<usize> = Vec::new();
    let ghost orig = input@;
    let ghost mut taken: Seq<usize> = seq![];
    proof {
        assert(orig =~= taken + input@);
    }
    while input.len() > 0
        invariant
            orig == taken + input@,
            r@.to_multiset() == taken.to_multiset(),
            forall|i: int, j: int| 0 <= i < j < r@.len() ==> r@[i] <= r@[j],
        decreases input@.len(),
    {
        let x = input.remove(0);
        let ghost old_taken = taken;
        proof {
            assert(orig =~= taken.push(x) + input@);
            vstd::seq_lib::to_multiset_build(old_taken, x);
            taken = taken.push(x);
        }
        let mut p: usize = r.len();
        while p > 0 && r[p - 1] > x
            invariant
                p <= r@.len(),
                forall|k: int| p <= k < r@.len() ==> r@[k] > x,
            decreases p,
        {
            p = p - 1;
        }
        let ghost before = r@;
        proof {
            assert(before.to_multiset() == old_taken.to_multiset());
        }
        r.insert(p, x);
        proof {
            assert(r@ == before.insert(p as int, x));
            vstd::seq_lib::to_multiset_insert(before, p as int, x);
            assert forall|i: int, j: int| 0 <= i < j < r@.len() implies r@[i] <= r@[j] by {
                if j == p {
                    if i < p {
                        assert(before[i] <= before[p - 1]);
                    }
                } else if i == p {
                    assert(before[j - 1] > x);
                } else if i < p && j > p {
                    assert(before[i] <= before[j - 1]);
                } else if i > p {
                    assert(before[i - 1] <= before[j - 1]);
                }
            }
        }
    }
    proof {
        assert(input@ =~= Seq::<usize>::empty());
        assert(orig =~= taken);
    }
    r
}

/// Puts the facts into the filler paragraphs: fact `i` goes before what
/// stood at `positions[i]`, counting the facts placed before it.
fn place_facts(repeats: usize, facts: &Vec<String>, positions: &Vec<usize>) -> (r: (Vec<String>, Vec<usize>))
    requires
        positions@.len() == facts@.len(),
        forall|i: int, j: int| 0 <= i < j < positions@.len() ==> positions@[i] <= positions@[j],
        forall|i: int| 0 <= i < positions@.len() ==> positions@[i] <= repeats,
        repeats + facts@.len() <= usize::MAX,
    ensures
        r.0@.len() == repeats + facts@.len(),
        facts_placed(strings_view(r.0@), strings_view(facts@), r.1@),
        forall|i: int| 0 <= i < r.1@.len() ==> r.1@[i] == positions@[i] + i,
{
    let mut chunks: Vec<String> = Vec::new();
    let mut k: usize = 0;
    while k < repeats
        invariant
            k <= repeats,
            chunks@.len() == k,
            forall|j: int| 0 <= j < k ==> (#[trigger] chunks@[j])@ == filler_spec(),
        decreases repeats - k,
    {
        chunks.push(String::from_str(filler()));
        k = k + 1;
    }
    let mut indices: Vec<usize> = Vec::new();
    let mut t: usize = 0;
    while t < facts.len()
        invariant
            t <= facts@.len(),
            positions@.len() == facts@.len(),
            forall|i: int, j: int| 0 <= i < j < positions@.len() ==> positions@[i] <= positions@[j],
            forall|i: int| 0 <= i < positions@.len() ==> positions@[i] <= repeats,
            repeats + facts@.len() <= usize::MAX,
            chunks@.len() == repeats + t,
            indices@.len() == t,
            forall|i: int| 0 <= i < t ==> indices@[i] == positions@[i] + i,
            facts_placed(strings_view(chunks@), strings_view(facts@).take(t as int), indices@),
        decreases facts@.len() - t,
    {
        let at = positions[t] + t;
        let ghost before = chunks@;
        let ghost before_idx = indices@;
        chunks.insert(at, facts[t].clone());
        indices.push(at);
        proof {
            let cv = strings_view(chunks@);
            let bv = strings_view(before);
            let fv = strings_view(facts@);
            assert(cv =~= bv.insert(at as int, fv[t as int]));
            assert(fv.take(t as int + 1) =~= fv.take(t as int).push(fv[t as int]));
            assert forall|i: int| 0 <= i < t implies before_idx[i] < at by {
                assert(positions@[i] <= positions@[t as int]);
            }
            assert forall|i: int| 0 <= i < indices@.len() implies indices@[i] < cv.len() && cv[indices@[i] as int] == fv.take(t as int + 1)[i] by {
                if i < t {
                    assert(before_idx[i] < at);
                    assert(cv[before_idx[i] as int] == bv[before_idx[i] as int]);
                }
            }
            assert forall|q: int| 0 <= q < cv.len() && !indices@.contains(q as usize) implies cv[q] == filler_spec() by {
                if q < at {
                    assert(cv[q] == bv[q]);
                    assert(!before_idx.contains(q as usize)) by {
                        if before_idx.contains(q as usize) {
                            let i = choose|i: int| 0 <= i < before_idx.len() && before_idx[i] == q as usize;
                            assert(indices@[i] == q as usize);
                        }
                    }
                } else if q > at {
                    assert(cv[q] == bv[q - 1]);
                    assert(!before_idx.contains((q - 1) as usize)) by {
                        if before_idx.contains((q - 1) as usize) {
                            let i = choose|i: int| 0 <= i < before_idx.len() && before_idx[i] == (q - 1) as usize;
                            assert(before_idx[i] < at);
                        }
                    }
                } else {
                    assert(indices@[t as int] == at);
                }
            }
        }
        t = t + 1;
    }
    assert(strings_view(facts@).take(facts@.len() as int) =~= strings_view(facts@));
    (chunks, indices)
}

proof fn lemma_elems_bounded(s: Seq<usize>, t: Seq<usize>, bound: int)
    requires
        s.to_multiset() == t.to_multiset(),
        forall|j: int| 0 <= j < t.len() ==> t[j] <= bound,
    ensures
        forall|i: int| 0 <= i < s.len() ==> s[i] <= bound,
{
    assert forall|i: int| 0 <= i < s.len() implies s[i] <= bound by {
        vstd::seq_lib::to_multiset_contains(s, s[i]);
        vstd::seq_lib::to_multiset_contains(t, s[i]);
        assert(s.contains(s[i]));
        let j = choose|j: int| 0 <= j < t.len() && t[j] == s[i];
    }
}

pub open spec fn context_path_spec(file_name: Seq<char>) -> Seq<char> {
    "contexts/"@ + file_name
}

/// A file name that carries the token count, so that suites generated at
/// several token counts share one benchmark directory without overwriting
/// each other.
pub open spec fn token_suffixed(stem: Seq<char>, token_count: u64, ext: Seq<char>) -> Seq<char> {
    stem + "-"@ + dec(token_count as nat) + ext
}

/// A context file of about `token_count` tokens holding the facts: at
/// `position_percent` of the way through when given, else at random places.
fn write_context(
    rng: &mut rand::rngs::StdRng,
    stem: &str,
    token_count: u64,
    facts: &Vec<String>,
    counter: &TokenCounter,
    position_percent: Option<u64>,
) -> (r: Result<ContextFile, String>)
    requires
        facts@.len() <= 8,
        position_percent matches Some(p) ==> p <= 100,
    ensures
        !counts_known(counter@, strings_view(facts@)) ==> (r matches Err(e) && e@ == uncounted_message()),
        counts_known(counter@, strings_view(facts@)) && repeats_spec(counter@, token_count, strings_view(facts@))
            > usize::MAX - 8 ==> (r matches Err(e) && e@ == "token count is too large to allocate context"@),
        counts_known(counter@, strings_view(facts@)) && repeats_spec(counter@, token_count, strings_view(facts@))
            <= usize::MAX - 8 ==> r is Ok,
        token_count <= usize::MAX - 8 && short_texts(strings_view(facts@)) && short_texts_counted(counter@) ==> r is Ok,
        r matches Err(e) ==> e@ == "token count is too large to allocate context"@ || e@ == uncounted_message(),
        r matches Ok(c) ==> {
            &&& c.file_name@ == token_suffixed(stem@, token_count, ".txt"@)
            &&& c.relative_path@ == context_path_spec(c.file_name@)
            &&& c.chunks@.len() == repeats_spec(counter@, token_count, strings_view(facts@)) + facts@.len()
            &&& facts_placed(strings_view(c.chunks@), strings_view(facts@), c.fact_indices@)
            &&& position_percent matches Some(p) ==> forall|i: int| 0 <= i < c.fact_indices@.len() ==> c.fact_indices@[i] == ({
                let n = repeats_spec(counter@, token_count, strings_view(facts@)) as int;
                let at: int = (p * n + 50) / 100;
                if at <= n {
                    at
                } else {
                    n
                }
            }) + i
        },
{
    let ghost fv = strings_view(facts@);
    let mut fact_tokens: u64 = 0;
    let mut i: usize = 0;
    while i < facts.len()
        invariant
            i <= facts@.len(),
            fv == strings_view(facts@),
            fact_tokens as nat == fact_tokens_spec(counter@, fv.take(i as int)),
            fact_tokens <= 4 * total_len(fv.take(i as int)),
            forall|j: int| 0 <= j < i ==> (#[trigger] spec_token_count(counter@, fv[j])) is Some,
        decreases facts@.len() - i,
    {
        proof {
            assert(fv.take(i as int + 1).drop_last() =~= fv.take(i as int));
            assert(fv.take(i as int + 1).last() == facts@[i as int]@);
            assert(fv[i as int] == facts@[i as int]@);
        }
        let n = match counter.count_tokens(facts[i].as_str()) {
            Some(n) => n,
            None => {
                proof {
                    if short_texts(fv) && short_texts_counted(counter@) {
                        assert(fv[i as int].len() <= 256);
                    }
                }
                return Err(String::from_str("failed to count the tokens of the context"));
            },
        };
        fact_tokens = fact_tokens.saturating_add(n);
        i = i + 1;
    }
    assert(fv.take(facts@.len() as int) =~= fv);
    assert(fact_tokens <= 4 * total_len(fv));
    proof {
        if short_texts(fv) {
            lemma_total_len_bound(fv);
        }
    }
    let target = if token_count >= fact_tokens {
        token_count
    } else {
        fact_tokens
    };
    let counted = match counter.count_tokens(filler()) {
        Some(n) => n,
        None => {
            proof {
                lemma_filler_short();
            }
            return Err(String::from_str("failed to count the tokens of the context"));
        },
    };
    proof {
        if short_texts(fv) && short_texts_counted(counter@) {
            assert forall|j: int| 0 <= j < fv.len() implies (#[trigger] spec_token_count(counter@, fv[j])) is Some by {
                assert(fv[j].len() <= 256);
            }
        }
    }
    let filler_tokens = if counted >= 1 {
        counted
    } else {
        1
    };
    let nf = facts.len() as u64;
    let budget = target.saturating_sub(nf * 16);
    let quotient = budget / filler_tokens;
    assert(quotient <= budget) by (nonlinear_arith)
        requires
            filler_tokens >= 1,
            quotient == budget / filler_tokens,
    ;
    let repeats64 = if quotient >= nf + 1 {
        quotient
    } else {
        nf + 1
    };
    if repeats64 > (usize::MAX - 8) as u64 {
        return Err(String::from_str("token count is too large to allocate context"));
    }
    let repeats = repeats64 as usize;
    let positions: Vec<usize> = match position_percent {
        Some(p) => {
            assert((p as u128) * (repeats as u128) <= 100 * 0xffff_ffff_ffff_ffffu128) by (nonlinear_arith)
                requires
                    p <= 100,
                    repeats <= 0xffff_ffff_ffff_ffffu64,
            ;
            let scaled = (p as u128) * (repeats as u128) + 50;
            let at128 = scaled / 100;
            proof {
                assert(at128 <= repeats as u128 + 1) by (nonlinear_arith)
                    requires
                        p <= 100,
                        scaled == (p as u128) * (repeats as u128) + 50,
                        at128 == scaled / 100,
                ;
            }
            let at = if at128 <= repeats as u128 {
                at128 as usize
            } else {
                repeats
            };
            let mut ps: Vec<usize> = Vec::new();
            let mut j: usize = 0;
            while j < facts.len()
                invariant
                    j <= facts@.len(),
                    ps@.len() == j,
                    at <= repeats,
                    forall|q: int| 0 <= q < j ==> ps@[q] == at,
                decreases facts@.len() - j,
            {
                ps.push(at);
                j = j + 1;
            }
            ps
        },
        None => {
            let mut all: Vec<usize> = Vec::new();
            let mut j: usize = 0;
            while j < repeats
                invariant
                    j <= repeats,
                    all@.len() == j,
                    forall|q: int| 0 <= q < j ==> all@[q] == q,
                decreases repeats - j,
            {
                all.push(j);
                j = j + 1;
            }
            let ghost range = all@;
            shuffle_usize(rng, &mut all);
            proof {
                lemma_elems_bounded(all@, range, repeats as int);
                vstd::seq_lib::to_multiset_len(all@);
                vstd::seq_lib::to_multiset_len(range);
            }
            let ghost shuffled = all@;
            all.truncate(facts.len());
            proof {
                assert forall|q: int| 0 <= q < all@.len() implies all@[q] <= repeats by {
                    assert(all@[q] == shuffled[q]);
                }
            }
            let ghost truncated = all@;
            let sorted = sort_usize(all);
            proof {
                lemma_elems_bounded(sorted@, truncated, repeats as int);
                vstd::seq_lib::to_multiset_len(sorted@);
                vstd::seq_lib::to_multiset_len(truncated);
            }
            sorted
        },
    };
    let (chunks, fact_indices) = place_facts(repeats, facts, &positions);
    let mut name: Vec<char> = Vec::new();
    extend_str(&mut name, stem);
    extend_str(&mut name, "-");
    extend_chars(&mut name, u64_to_chars(token_count).as_slice());
    extend_str(&mut name, ".txt");
    let mut path: Vec<char> = Vec::new();
    extend_str(&mut path, "contexts/");
    extend_chars(&mut path, name.as_slice());
    Ok(ContextFile {
        file_name: string_of(name.as_slice()),
        relative_path: string_of(path.as_slice()),
        chunks,
        fact_indices,
    })
}


// ---------------------------------------------------------------------------
// Suites
// ---------------------------------------------------------------------------

/// A generated suite: its manifest and the context files its tests name.
pub struct GeneratedSuite {
    pub manifest: SuiteManifest,
    pub contexts: Vec<ContextFile>,
}

/// Where a suite's manifest is written, relative to the benchmark directory.
pub open spec fn manifest_path_spec(manifest: SuiteManifest) -> Seq<char> {
    "manifests/"@ + token_suffixed(manifest.name@, manifest.token_count, ".json"@)
}

/// The relative path of a suite's manifest: its name and token count.
pub fn manifest_path(manifest: &SuiteManifest) -> (p: String)
    ensures
        p@ == manifest_path_spec(*manifest),
{
    let mut path: Vec<char> = Vec::new();
    extend_str(&mut path, "manifests/");
    extend_str(&mut path, manifest.name.as_str());
    extend_str(&mut path, "-");
    extend_chars(&mut path, u64_to_chars(manifest.token_count).as_slice());
    extend_str(&mut path, ".json");
    string_of(path.as_slice())
}

pub open spec fn no_dash(s: Seq<char>) -> bool {
    forall|i: int| 0 <= i < s.len() ==> s[i] != '-'
}

proof fn lemma_suffixed_apart(a: Seq<char>, b: Seq<char>, t1: u64, t2: u64, ext: Seq<char>)
    requires
        no_dash(a),
        no_dash(b),
        t1 != t2,
    ensures
        token_suffixed(a, t1, ext) != token_suffixed(b, t2, ext),
{
    reveal_strlit("-");
    let x = token_suffixed(a, t1, ext);
    let y = token_suffixed(b, t2, ext);
    if x == y {
        if a.len() < b.len() {
            assert(x[a.len() as int] == '-');
            assert(y[a.len() as int] == b[a.len() as int]);
        } else if b.len() < a.len() {
            assert(y[b.len() as int] == '-');
            assert(x[b.len() as int] == a[b.len() as int]);
        } else {
            let lo = a.len() + 1;
            assert(x.subrange(lo as int, x.len() - ext.len()) =~= dec(t1 as nat));
            assert(y.subrange(lo as int, y.len() - ext.len()) =~= dec(t2 as nat));
            lemma_dec_injective(t1 as nat, t2 as nat);
        }
    }
}

proof fn lemma_stems_have_no_dash(kind: SuiteType, k: int)
    requires
        0 <= k < 5,
        kind is Hallucination ==> k < 3,
    ensures
        no_dash(context_stem(kind, k)),
{
    reveal_strlit("needle_context");
    reveal_strlit("multi_needle_context");
    reveal_strlit("conflict_context");
    reveal_strlit("multi_hop_context");
    reveal_strlit("order_dependent_context");
    reveal_strlit("position_sweep_");
    reveal_strlit("hallucination_");
    reveal_strlit("start");
    reveal_strlit("early");
    reveal_strlit("middle");
    reveal_strlit("late");
    reveal_strlit("end");
    reveal_strlit("code");
    reveal_strlit("name");
    reveal_strlit("date");
}

/// Suites of one type generated at two different token counts share no file:
/// neither their manifests nor any of their contexts have the same path, so
/// a token sweep can fill one benchmark directory.
pub proof fn lemma_token_sweeps_share_no_file(
    kind: SuiteType,
    t1: u64,
    s1: u64,
    g1: GeneratedSuite,
    t2: u64,
    s2: u64,
    g2: GeneratedSuite,
)
    requires
        generated_spec(kind, t1, s1, g1),
        generated_spec(kind, t2, s2, g2),
        t1 != t2,
    ensures
        manifest_path_spec(g1.manifest) != manifest_path_spec(g2.manifest),
        forall|i: int, j: int|
            0 <= i < g1.contexts@.len() && 0 <= j < g2.contexts@.len() ==> g1.contexts@[i].relative_path@
                != g2.contexts@[j].relative_path@,
{
    reveal_strlit("manifests/");
    reveal_strlit("contexts/");
    reveal_strlit("needle");
    reveal_strlit("multi_needle");
    reveal_strlit("conflict");
    reveal_strlit("multi_hop");
    reveal_strlit("order_dependent");
    reveal_strlit("position_sweep");
    reveal_strlit("hallucination");
    assert(no_dash(g1.manifest.name@));
    lemma_suffixed_apart(g1.manifest.name@, g2.manifest.name@, t1, t2, ".json"@);
    if manifest_path_spec(g1.manifest) == manifest_path_spec(g2.manifest) {
        assert(manifest_path_spec(g1.manifest).subrange(10, manifest_path_spec(g1.manifest).len() as int)
            =~= token_suffixed(g1.manifest.name@, t1, ".json"@));
        assert(manifest_path_spec(g2.manifest).subrange(10, manifest_path_spec(g2.manifest).len() as int)
            =~= token_suffixed(g2.manifest.name@, t2, ".json"@));
    }
    assert forall|i: int, j: int|
        0 <= i < g1.contexts@.len() && 0 <= j < g2.contexts@.len() implies g1.contexts@[i].relative_path@
            != g2.contexts@[j].relative_path@ by {
        let a = context_stem(kind, i);
        let b = context_stem(kind, j);
        assert(g1.contexts@[i].file_name@ == token_suffixed(a, t1, ".txt"@));
        assert(g2.contexts@[j].file_name@ == token_suffixed(b, t2, ".txt"@));
        lemma_stems_have_no_dash(kind, i);
        lemma_stems_have_no_dash(kind, j);
        lemma_suffixed_apart(a, b, t1, t2, ".txt"@);
        let p = g1.contexts@[i].relative_path@;
        let q = g2.contexts@[j].relative_path@;
        if p == q {
            assert(p.subrange(9, p.len() as int) =~= g1.contexts@[i].file_name@);
            assert(q.subrange(9, q.len() as int) =~= g2.contexts@[j].file_name@);
        }
    }
}

fn number(n: u64) -> (s: String)
    ensures
        s@ == dec(n as nat),
{
    string_of(u64_to_chars(n).as_slice())
}

fn metadata_pair(key: &str, value: String) -> (p: (String, String))
    ensures
        p.0@ == key@,
        p.1@ == value@,
{
    (String::from_str(key), value)
}

pub open spec fn needle_fact_spec(secret: Seq<char>) -> Seq<char> {
    "Needle fact: the archive access code is "@ + secret + "."@
}

proof fn lemma_code_fact_short(n: u64)
    ensures
        needle_fact_spec("ORCHID-"@ + dec(n as nat)).len() <= 256,
{
    reveal_strlit("Needle fact: the archive access code is ");
    reveal_strlit(".");
    reveal_strlit("ORCHID-");
    lemma_dec_len_u64(n);
}

fn needle_fact(secret: &str) -> (f: String)
    ensures
        f@ == needle_fact_spec(secret@),
{
    let mut r: Vec<char> = Vec::new();
    extend_str(&mut r, "Needle fact: the archive access code is ");
    extend_str(&mut r, secret);
    extend_str(&mut r, ".");
    string_of(r.as_slice())
}

fn prefixed_number(prefix: &str, n: u64) -> (s: String)
    ensures
        s@ == prefix@ + dec(n as nat),
{
    let mut r: Vec<char> = Vec::new();
    extend_str(&mut r, prefix);
    extend_chars(&mut r, u64_to_chars(n).as_slice());
    string_of(r.as_slice())
}

/// The single-fact retrieval suite: one hidden access code.
fn build_needle_suite(rng: &mut rand::rngs::StdRng, token_count: u64, seed: u64, counter: &TokenCounter) -> (r: Result<GeneratedSuite, String>)
    ensures
        r matches Ok(g) ==> generated_spec(SuiteType::Needle, token_count, seed, g),
        r matches Err(e) ==> e@ == "token count is too large to allocate context"@ || e@ == uncounted_message(),
        token_count <= usize::MAX - 8 && short_texts_counted(counter@) ==> r is Ok,
{
    let v = gen_range_i32(rng, 100_000, 999_999);
    let secret = prefixed_number("ORCHID-", v as u64);
    assert(secret@ == "ORCHID-"@ + dec((v as u64) as nat));
    let facts = vec![needle_fact(secret.as_str())];
    proof {
        lemma_code_fact_short(v as u64);
        assert(strings_view(facts@)[0] == facts@[0]@);
    }
    let context = write_context(rng, "needle_context", token_count, &facts, counter, None)?;
    assert(strings_view(facts@) =~= seq![needle_fact_spec(secret@)]);
    let metadata = vec![
        metadata_pair("seed", number(seed)),
        metadata_pair("suite", String::from_str("needle")),
        metadata_pair("token_count", number(token_count)),
    ];
    let test = TestCase {
        schema_version: SCHEMA_VERSION,
        id: prefixed_number("needle-", token_count),
        context: context.relative_path.clone(),
        question: String::from_str("What is the archive access code? Answer with only the code."),
        expected: vec![secret],
        grader: Grader::Exact,
        metadata,
    };
    Ok(GeneratedSuite {
        manifest: SuiteManifest {
            schema_version: SCHEMA_VERSION,
            name: String::from_str("needle"),
            token_count,
            seed,
            suites: vec![test],
        },
        contexts: vec![context],
    })
}

/// The names the multi-needle suite picks projects from.
fn project_names() -> (v: Vec<&'static str>)
    ensures
        v@.len() == 8,
        forall|i: int| 0 <= i < v@.len() ==> (#[trigger] v@[i])@.len() <= 32,
{
    proof {
        reveal_strlit("Aster");
        reveal_strlit("Beryl");
        reveal_strlit("Cygnus");
        reveal_strlit("Dahlia");
        reveal_strlit("Ember");
        reveal_strlit("Fjord");
        reveal_strlit("Garnet");
        reveal_strlit("Helio");
    }
    vec!["Aster", "Beryl", "Cygnus", "Dahlia", "Ember", "Fjord", "Garnet", "Helio"]
}

pub open spec fn multi_fact_spec(i: nat, name: Seq<char>, value: nat) -> Seq<char> {
    "Needle fact "@ + dec(i) + ": project "@ + name + " has checkpoint value "@ + dec(value) + "."@
}

pub open spec fn multi_answer_spec(name: Seq<char>, value: nat) -> Seq<char> {
    name + ":"@ + dec(value)
}

proof fn lemma_multi_fact_short(i: u64, name: Seq<char>, value: u64)
    requires
        name.len() <= 32,
    ensures
        multi_fact_spec(i as nat, name, value as nat).len() <= 256,
{
    reveal_strlit("Needle fact ");
    reveal_strlit(": project ");
    reveal_strlit(" has checkpoint value ");
    reveal_strlit(".");
    lemma_dec_len_u64(i);
    lemma_dec_len_u64(value);
}

/// A name picked from a list of names at most 32 characters long is itself
/// at most that long.
proof fn lemma_chosen_short(items: Seq<&str>, chosen: Seq<char>)
    requires
        items.map_values(|x: &str| x@).contains(chosen),
        forall|i: int| 0 <= i < items.len() ==> (#[trigger] items[i])@.len() <= 32,
    ensures
        chosen.len() <= 32,
{
    let m = items.map_values(|x: &str| x@);
    let j = choose|j: int| 0 <= j < m.len() && m[j] == chosen;
    assert(m[j] == items[j]@);
}

proof fn lemma_hop_facts_short(project: Seq<char>, p: u64, b: u64)
    requires
        project.len() <= 32,
    ensures
        lead_fact_spec(project, "Agent-"@ + dec(p as nat)).len() <= 256,
        badge_fact_spec("Agent-"@ + dec(p as nat), "CODE-"@ + dec(b as nat)).len() <= 256,
{
    reveal_strlit("Agent-");
    reveal_strlit("CODE-");
    reveal_strlit("'s lead is ");
    reveal_strlit("'s badge code is ");
    reveal_strlit(".");
    lemma_dec_len_u64(p);
    lemma_dec_len_u64(b);
}

proof fn lemma_step_fact_short(step: u64, param: Seq<char>, value: u64)
    requires
        param.len() <= 32,
    ensures
        step_fact_spec(step as nat, param, dec(value as nat)).len() <= 256,
{
    reveal_strlit("At step ");
    reveal_strlit(", the ");
    reveal_strlit(" was ");
    reveal_strlit(".");
    lemma_dec_len_u64(step);
    lemma_dec_len_u64(value);
}

/// Fact `i` of a multi-fact suite and the answer it gives.
pub open spec fn multi_pair(fact: Seq<char>, answer: Seq<char>, i: nat) -> bool {
    exists|name: Seq<char>, value: nat|
        #![trigger multi_fact_spec(i, name, value)]
        fact == multi_fact_spec(i, name, value) && answer == multi_answer_spec(name, value)
}

/// The multi-fact suite: three to eight projects, each with a checkpoint
/// value, all to be listed.
fn build_multi_needle_suite(rng: &mut rand::rngs::StdRng, token_count: u64, seed: u64, counter: &TokenCounter) -> (r: Result<GeneratedSuite, String>)
    ensures
        r matches Ok(g) ==> generated_spec(SuiteType::MultiNeedle, token_count, seed, g),
        r matches Err(e) ==> e@ == "token count is too large to allocate context"@ || e@ == uncounted_message(),
        token_count <= usize::MAX - 8 && short_texts_counted(counter@) ==> r is Ok,
{
    let count = gen_range_usize_inclusive(rng, 3, 8);
    let names = project_names();
    let picks = sample_indices(rng, names.len(), count);
    let mut facts: Vec<String> = Vec::new();
    let mut expected: Vec<String> = Vec::new();
    let mut idx: usize = 0;
    while idx < picks.len()
        invariant
            idx <= picks@.len(),
            picks@.len() == count,
            3 <= count <= 8,
            names@.len() == 8,
            forall|i: int| 0 <= i < picks@.len() ==> picks@[i] < 8,
            facts@.len() == idx,
            expected@.len() == idx,
            forall|i: int| 0 <= i < idx ==> #[trigger] multi_pair(facts@[i]@, expected@[i]@, i as nat),
            forall|i: int| 0 <= i < 8 ==> (#[trigger] names@[i])@.len() <= 32,
            forall|i: int| 0 <= i < idx ==> (#[trigger] facts@[i])@.len() <= 256,
        decreases picks@.len() - idx,
    {
        let name = names[picks[idx]];
        let value = gen_range_i32(rng, 10, 99);
        let mut f: Vec<char> = Vec::new();
        extend_str(&mut f, "Needle fact ");
        extend_chars(&mut f, u64_to_chars(idx as u64).as_slice());
        extend_str(&mut f, ": project ");
        extend_str(&mut f, name);
        extend_str(&mut f, " has checkpoint value ");
        extend_chars(&mut f, u64_to_chars(value as u64).as_slice());
        extend_str(&mut f, ".");
        let ghost old_facts = facts@;
        let ghost old_expected = expected@;
        let mut e: Vec<char> = Vec::new();
        extend_str(&mut e, name);
        extend_str(&mut e, ":");
        extend_chars(&mut e, u64_to_chars(value as u64).as_slice());
        let fs = string_of(f.as_slice());
        let es = string_of(e.as_slice());
        proof {
            assert(fs@ =~= multi_fact_spec(idx as nat, name@, value as nat));
            assert(es@ =~= multi_answer_spec(name@, value as nat));
            assert(multi_pair(fs@, es@, idx as nat));
            lemma_multi_fact_short(idx as u64, name@, value as u64);
        }
        facts.push(fs);
        expected.push(es);
        assert(forall|i: int| 0 <= i < idx ==> facts@[i] == old_facts[i] && expected@[i] == old_expected[i]);
        idx = idx + 1;
    }
    assert(short_texts(strings_view(facts@))) by {
        assert forall|i: int| 0 <= i < facts@.len() implies (#[trigger] strings_view(facts@)[i]).len() <= 256 by {
            assert(strings_view(facts@)[i] == facts@[i]@);
        }
    }
    let context = write_context(rng, "multi_needle_context", token_count, &facts, counter, None)?;
    proof {
        assert forall|i: int| 0 <= i < context.fact_indices@.len() implies #[trigger] multi_pair(
            strings_view(context.chunks@)[context.fact_indices@[i] as int],
            expected@[i]@,
            i as nat,
        ) by {
            assert(strings_view(facts@)[i] == facts@[i]@);
            assert(multi_pair(facts@[i]@, expected@[i]@, i as nat));
        }
    }
    let metadata = vec![
        metadata_pair("fact_count", number(count as u64)),
        metadata_pair("seed", number(seed)),
        metadata_pair("suite", String::from_str("multi-needle")),
        metadata_pair("token_count", number(token_count)),
    ];
    let mut id: Vec<char> = Vec::new();
    extend_str(&mut id, "multi-needle-");
    extend_chars(&mut id, u64_to_chars(token_count).as_slice());
    extend_str(&mut id, "-");
    extend_chars(&mut id, u64_to_chars(count as u64).as_slice());
    let test = TestCase {
        schema_version: SCHEMA_VERSION,
        id: string_of(id.as_slice()),
        context: context.relative_path.clone(),
        question: String::from_str("List each project and checkpoint value as Name:value pairs, separated by commas."),
        expected,
        grader: Grader::ItemSet,
        metadata,
    };
    Ok(GeneratedSuite {
        manifest: SuiteManifest {
            schema_version: SCHEMA_VERSION,
            name: String::from_str("multi_needle"),
            token_count,
            seed,
            suites: vec![test],
        },
        contexts: vec![context],
    })
}

/// The conflict suite: three routing keys for different audits; the 2024
/// east-region one is asked for.
fn build_conflict_suite(rng: &mut rand::rngs::StdRng, token_count: u64, seed: u64, counter: &TokenCounter) -> (r: Result<GeneratedSuite, String>)
    ensures
        r matches Ok(g) ==> generated_spec(SuiteType::Conflict, token_count, seed, g),
        r matches Err(e) ==> e@ == "token count is too large to allocate context"@ || e@ == uncounted_message(),
        token_count <= usize::MAX - 8 && short_texts_counted(counter@) ==> r is Ok,
{
    let c = gen_range_i32(rng, 1000, 9999);
    let o = gen_range_i32(rng, 1000, 9999);
    let k = gen_range_i32(rng, 1000, 9999);
    let correct = prefixed_number("TAU-", c as u64);
    let old = prefixed_number("LAMBDA-", o as u64);
    let other_scope = prefixed_number("KAPPA-", k as u64);
    let mut f0: Vec<char> = Vec::new();
    extend_str(&mut f0, "For the 2023 east-region audit, the routing key was ");
    extend_str(&mut f0, old.as_str());
    extend_str(&mut f0, ".");
    let mut f1: Vec<char> = Vec::new();
    extend_str(&mut f1, "For the 2024 west-region audit, the routing key was ");
    extend_str(&mut f1, other_scope.as_str());
    extend_str(&mut f1, ".");
    let mut f2: Vec<char> = Vec::new();
    extend_str(&mut f2, "For the 2024 east-region audit, the routing key is ");
    extend_str(&mut f2, correct.as_str());
    extend_str(&mut f2, ".");
    let facts = vec![string_of(f0.as_slice()), string_of(f1.as_slice()), string_of(f2.as_slice())];
    proof {
        reveal_strlit("For the 2023 east-region audit, the routing key was ");
        reveal_strlit("For the 2024 west-region audit, the routing key was ");
        reveal_strlit("For the 2024 east-region audit, the routing key is ");
        reveal_strlit("TAU-");
        reveal_strlit("LAMBDA-");
        reveal_strlit("KAPPA-");
        reveal_strlit(".");
        lemma_dec_len_u64(c as u64);
        lemma_dec_len_u64(o as u64);
        lemma_dec_len_u64(k as u64);
        assert(short_texts(strings_view(facts@))) by {
            assert forall|i: int| 0 <= i < facts@.len() implies (#[trigger] strings_view(facts@)[i]).len() <= 256 by {
                assert(strings_view(facts@)[i] == facts@[i]@);
            }
        }
    }
    let context = write_context(rng, "conflict_context", token_count, &facts, counter, None)?;
    let metadata = vec![
        metadata_pair("scope", String::from_str("2024 east-region audit")),
        metadata_pair("seed", number(seed)),
        metadata_pair("suite", String::from_str("conflict")),
        metadata_pair("token_count", number(token_count)),
    ];
    let test = TestCase {
        schema_version: SCHEMA_VERSION,
        id: prefixed_number("conflict-", token_count),
        context: context.relative_path.clone(),
        question: String::from_str("What is the routing key for the 2024 east-region audit? Answer with only the key."),
        expected: vec![correct],
        grader: Grader::Exact,
        metadata,
    };
    Ok(GeneratedSuite {
        manifest: SuiteManifest {
            schema_version: SCHEMA_VERSION,
            name: String::from_str("conflict"),
            token_count,
            seed,
            suites: vec![test],
        },
        contexts: vec![context],
    })
}


/// The projects the multi-hop suite picks from.
fn multi_hop_projects() -> (v: Vec<&'static str>)
    ensures
        v@.len() == 6,
        forall|i: int| 0 <= i < v@.len() ==> (#[trigger] v@[i])@.len() <= 32,
{
    proof {
        reveal_strlit("Project Alpha");
        reveal_strlit("Project Beta");
        reveal_strlit("Project Gamma");
        reveal_strlit("Project Delta");
        reveal_strlit("Project Sigma");
        reveal_strlit("Project Omega");
    }
    vec!["Project Alpha", "Project Beta", "Project Gamma", "Project Delta", "Project Sigma", "Project Omega"]
}

pub open spec fn lead_fact_spec(project: Seq<char>, person: Seq<char>) -> Seq<char> {
    project + "'s lead is "@ + person + "."@
}

pub open spec fn badge_fact_spec(person: Seq<char>, badge: Seq<char>) -> Seq<char> {
    person + "'s badge code is "@ + badge + "."@
}

pub open spec fn hop_question_spec(project: Seq<char>) -> Seq<char> {
    "What is the badge code of "@ + project + "'s lead? Answer with only the code."@
}

pub open spec fn step_fact_spec(step: nat, param: Seq<char>, value: Seq<char>) -> Seq<char> {
    "At step "@ + dec(step) + ", the "@ + param + " was "@ + value + "."@
}

pub open spec fn step_question_spec(param: Seq<char>, step: nat) -> Seq<char> {
    "What was the "@ + param + " at step "@ + dec(step) + "? Answer with only the number."@
}

/// The two-hop suite: a project's lead, then the lead's badge code.
fn build_multi_hop_suite(rng: &mut rand::rngs::StdRng, token_count: u64, seed: u64, counter: &TokenCounter) -> (r: Result<GeneratedSuite, String>)
    ensures
        r matches Ok(g) ==> generated_spec(SuiteType::MultiHop, token_count, seed, g),
        r matches Err(e) ==> e@ == "token count is too large to allocate context"@ || e@ == uncounted_message(),
        token_count <= usize::MAX - 8 && short_texts_counted(counter@) ==> r is Ok,
{
    let projects = multi_hop_projects();
    let project = choose_str(rng, projects.as_slice());
    let p = gen_range_i32(rng, 100, 999);
    let b = gen_range_i32(rng, 1000, 9999);
    let person = prefixed_number("Agent-", p as u64);
    let badge = prefixed_number("CODE-", b as u64);
    let mut f0: Vec<char> = Vec::new();
    extend_str(&mut f0, project);
    extend_str(&mut f0, "'s lead is ");
    extend_str(&mut f0, person.as_str());
    extend_str(&mut f0, ".");
    let mut f1: Vec<char> = Vec::new();
    extend_str(&mut f1, person.as_str());
    extend_str(&mut f1, "'s badge code is ");
    extend_str(&mut f1, badge.as_str());
    extend_str(&mut f1, ".");
    let facts = vec![string_of(f0.as_slice()), string_of(f1.as_slice())];
    assert(facts@[0]@ =~= lead_fact_spec(project@, person@));
    assert(facts@[1]@ =~= badge_fact_spec(person@, badge@));
    proof {
        lemma_chosen_short(projects@, project@);
        lemma_hop_facts_short(project@, p as u64, b as u64);
        assert(short_texts(strings_view(facts@))) by {
            assert forall|i: int| 0 <= i < facts@.len() implies (#[trigger] strings_view(facts@)[i]).len() <= 256 by {
                assert(strings_view(facts@)[i] == facts@[i]@);
            }
        }
    }
    let context = write_context(rng, "multi_hop_context", token_count, &facts, counter, None)?;
    assert(strings_view(facts@)[0] == facts@[0]@ && strings_view(facts@)[1] == facts@[1]@);
    let metadata = vec![
        metadata_pair("seed", number(seed)),
        metadata_pair("suite", String::from_str("multi-hop")),
        metadata_pair("token_count", number(token_count)),
    ];
    let mut q: Vec<char> = Vec::new();
    extend_str(&mut q, "What is the badge code of ");
    extend_str(&mut q, project);
    extend_str(&mut q, "'s lead? Answer with only the code.");
    assert(q@ =~= hop_question_spec(project@));
    let test = TestCase {
        schema_version: SCHEMA_VERSION,
        id: prefixed_number("multi-hop-", token_count),
        context: context.relative_path.clone(),
        question: string_of(q.as_slice()),
        expected: vec![badge],
        grader: Grader::Exact,
        metadata,
    };
    Ok(GeneratedSuite {
        manifest: SuiteManifest {
            schema_version: SCHEMA_VERSION,
            name: String::from_str("multi_hop"),
            token_count,
            seed,
            suites: vec![test],
        },
        contexts: vec![context],
    })
}

fn parameter_names() -> (v: Vec<&'static str>)
    ensures
        v@.len() == 5,
        forall|i: int| 0 <= i < v@.len() ==> (#[trigger] v@[i])@.len() <= 32,
{
    proof {
        reveal_strlit("temperature");
        reveal_strlit("pressure");
        reveal_strlit("voltage");
        reveal_strlit("humidity");
        reveal_strlit("frequency");
    }
    vec!["temperature", "pressure", "voltage", "humidity", "frequency"]
}

/// The order suite: a parameter's value at each of three to six steps; the
/// value at one step is asked for.
fn build_order_dependent_suite(rng: &mut rand::rngs::StdRng, token_count: u64, seed: u64, counter: &TokenCounter) -> (r: Result<GeneratedSuite, String>)
    ensures
        r matches Ok(g) ==> generated_spec(SuiteType::OrderDependent, token_count, seed, g),
        r matches Err(e) ==> e@ == "token count is too large to allocate context"@ || e@ == uncounted_message(),
        token_count <= usize::MAX - 8 && short_texts_counted(counter@) ==> r is Ok,
{
    let step_count = gen_range_u32_inclusive(rng, 3, 6);
    let target_step = gen_range_u32_inclusive(rng, 1, step_count);
    let params = parameter_names();
    let param = choose_str(rng, params.as_slice());
    let mut facts: Vec<String> = Vec::new();
    let mut target_value = String::new();
    proof {
        lemma_chosen_short(params@, param@);
    }
    let mut step: u32 = 1;
    while step <= step_count
        invariant
            1 <= step <= step_count + 1,
            step_count <= 6,
            1 <= target_step <= step_count,
            facts@.len() == step - 1,
            param@.len() <= 32,
            forall|i: int| 0 <= i < facts@.len() ==> (#[trigger] facts@[i])@.len() <= 256,
            step > target_step ==> facts@[target_step - 1]@ == step_fact_spec(
                target_step as nat,
                param@,
                target_value@,
            ),
        decreases step_count + 1 - step,
    {
        let value = gen_range_i32(rng, 10, 100);
        let mut f: Vec<char> = Vec::new();
        extend_str(&mut f, "At step ");
        extend_chars(&mut f, u64_to_chars(step as u64).as_slice());
        extend_str(&mut f, ", the ");
        extend_str(&mut f, param);
        extend_str(&mut f, " was ");
        extend_chars(&mut f, u64_to_chars(value as u64).as_slice());
        extend_str(&mut f, ".");
        let ghost before = facts@;
        let fs = string_of(f.as_slice());
        assert(fs@ =~= step_fact_spec(step as nat, param@, dec(value as nat)));
        proof {
            lemma_step_fact_short(step as u64, param@, value as u64);
        }
        facts.push(fs);
        assert(forall|i: int| 0 <= i < before.len() ==> facts@[i] == before[i]);
        if step == target_step {
            target_value = number(value as u64);
        }
        step = step + 1;
    }
    assert(short_texts(strings_view(facts@))) by {
        assert forall|i: int| 0 <= i < facts@.len() implies (#[trigger] strings_view(facts@)[i]).len() <= 256 by {
            assert(strings_view(facts@)[i] == facts@[i]@);
        }
    }
    let context = write_context(rng, "order_dependent_context", token_count, &facts, counter, None)?;
    assert(strings_view(facts@)[target_step - 1] == facts@[target_step - 1]@);
    let metadata = vec![
        metadata_pair("seed", number(seed)),
        metadata_pair("step_count", number(step_count as u64)),
        metadata_pair("suite", String::from_str("order-dependent")),
        metadata_pair("target_step", number(target_step as u64)),
        metadata_pair("token_count", number(token_count)),
    ];
    let mut q: Vec<char> = Vec::new();
    extend_str(&mut q, "What was the ");
    extend_str(&mut q, param);
    extend_str(&mut q, " at step ");
    extend_chars(&mut q, u64_to_chars(target_step as u64).as_slice());
    extend_str(&mut q, "? Answer with only the number.");
    assert(q@ =~= step_question_spec(param@, target_step as nat));
    let test = TestCase {
        schema_version: SCHEMA_VERSION,
        id: prefixed_number("order-dependent-", token_count),
        context: context.relative_path.clone(),
        question: string_of(q.as_slice()),
        expected: vec![target_value],
        grader: Grader::Exact,
        metadata,
    };
    Ok(GeneratedSuite {
        manifest: SuiteManifest {
            schema_version: SCHEMA_VERSION,
            name: String::from_str("order_dependent"),
            token_count,
            seed,
            suites: vec![test],
        },
        contexts: vec![context],
    })
}

/// The filler paragraph before which a fact goes when it stands `percent`
/// hundredths of the way through `n` paragraphs: rounded to the nearest,
/// halves up, and at most `n`.
pub open spec fn sweep_index(percent: int, n: int) -> int {
    let at = (percent * n + 50) / 100;
    if at <= n {
        at
    } else {
        n
    }
}

/// Where the position sweep puts its fact, in hundredths of the context,
/// with the label and the position as the metadata shows it.
pub open spec fn sweep_spec() -> Seq<(Seq<char>, u64, Seq<char>)> {
    seq![
        ("start"@, 5u64, "0.05"@),
        ("early"@, 25u64, "0.25"@),
        ("middle"@, 50u64, "0.50"@),
        ("late"@, 75u64, "0.75"@),
        ("end"@, 95u64, "0.95"@),
    ]
}

fn sweep_positions() -> (v: Vec<(&'static str, u64, &'static str)>)
    ensures
        v@.len() == 5,
        forall|i: int| 0 <= i < 5 ==> (#[trigger] v@[i]).0@ == sweep_spec()[i].0 && v@[i].1 == sweep_spec()[i].1 && v@[i].2@ == sweep_spec()[i].2,
{
    let v = vec![
        ("start", 5u64, "0.05"),
        ("early", 25u64, "0.25"),
        ("middle", 50u64, "0.50"),
        ("late", 75u64, "0.75"),
        ("end", 95u64, "0.95"),
    ];
    v
}

/// The position sweep: five contexts with the same kind of hidden code, at
/// 5%, 25%, 50%, 75% and 95% of the way through.
fn build_position_sweep_suite(rng: &mut rand::rngs::StdRng, token_count: u64, seed: u64, counter: &TokenCounter) -> (r: Result<GeneratedSuite, String>)
    ensures
        r matches Ok(g) ==> generated_spec(SuiteType::PositionSweep, token_count, seed, g),
        r matches Err(e) ==> e@ == "token count is too large to allocate context"@ || e@ == uncounted_message(),
        token_count <= usize::MAX - 8 && short_texts_counted(counter@) ==> r is Ok,
{
    let positions = sweep_positions();
    let mut tests: Vec<TestCase> = Vec::new();
    let mut contexts: Vec<ContextFile> = Vec::new();
    let mut k: usize = 0;
    while k < positions.len()
        invariant
            k <= 5,
            positions@.len() == 5,
            forall|i: int| 0 <= i < 5 ==> (#[trigger] positions@[i]).1 <= 100,
            forall|i: int| 0 <= i < 5 ==> (#[trigger] positions@[i]).0@ == sweep_spec()[i].0,
            forall|i: int| 0 <= i < 5 ==> (#[trigger] positions@[i]).1 == sweep_spec()[i].1,
            tests@.len() == k,
            contexts@.len() == k,
            forall|j: int| 0 <= j < k ==> {
            &&& (#[trigger] contexts@[j]).file_name@ == token_suffixed(context_stem(SuiteType::PositionSweep, j), token_count, ".txt"@)
            &&& contexts@[j].relative_path@ == context_path_spec(contexts@[j].file_name@)
            },
            forall|j: int| 0 <= j < k ==> {
            &&& (#[trigger] tests@[j]).context@ == contexts@[j].relative_path@
            &&& tests@[j].grader is Exact
            &&& tests@[j].expected@.len() == 1
            &&& contexts@[j].fact_indices@.len() == 1
            &&& strings_view(contexts@[j].chunks@)[contexts@[j].fact_indices@[0] as int] == needle_fact_spec(tests@[j].expected@[0]@)
            &&& contexts@[j].fact_indices@[0] == sweep_index(sweep_spec()[j].1 as int, contexts@[j].chunks@.len() - 1)
            },
        decreases 5 - k,
    {
        let (label, percent, shown) = positions[k];
        let v = gen_range_i32(rng, 100_000, 999_999);
        let secret = prefixed_number("ORCHID-", v as u64);
        let facts = vec![needle_fact(secret.as_str())];
        let mut file: Vec<char> = Vec::new();
        extend_str(&mut file, "position_sweep_");
        extend_str(&mut file, label);
        let file_name = string_of(file.as_slice());
        assert(file_name@ =~= context_stem(SuiteType::PositionSweep, k as int));
        assert(positions@[k as int].1 <= 100);
        proof {
            lemma_code_fact_short(v as u64);
            assert(strings_view(facts@)[0] == facts@[0]@);
        }
        let context = write_context(rng, file_name.as_str(), token_count, &facts, counter, Some(percent))?;
        proof {
            assert(strings_view(facts@)[0] == needle_fact_spec(secret@));
        }
        let metadata = vec![
            metadata_pair("position", String::from_str(shown)),
            metadata_pair("position_label", String::from_str(label)),
            metadata_pair("seed", number(seed)),
            metadata_pair("suite", String::from_str("position-sweep")),
            metadata_pair("token_count", number(token_count)),
        ];
        let mut id: Vec<char> = Vec::new();
        extend_str(&mut id, "position-sweep-");
        extend_chars(&mut id, u64_to_chars(token_count).as_slice());
        extend_str(&mut id, "-");
        extend_str(&mut id, label);
        let test = TestCase {
            schema_version: SCHEMA_VERSION,
            id: string_of(id.as_slice()),
            context: context.relative_path.clone(),
            question: String::from_str("What is the archive access code? Answer with only the code."),
            expected: vec![secret],
            grader: Grader::Exact,
            metadata,
        };
        tests.push(test);
        contexts.push(context);
        k = k + 1;
    }
    Ok(GeneratedSuite {
        manifest: SuiteManifest {
            schema_version: SCHEMA_VERSION,
            name: String::from_str("position_sweep"),
            token_count,
            seed,
            suites: tests,
        },
        contexts,
    })
}

/// The labels of the hallucination suite's three questions.
pub open spec fn hallucination_labels() -> Seq<Seq<char>> {
    seq!["code"@, "name"@, "date"@]
}

fn hallucination_questions() -> (v: Vec<(&'static str, &'static str)>)
    ensures
        v@.len() == 3,
        forall|i: int| 0 <= i < 3 ==> (#[trigger] v@[i]).0@ == hallucination_labels()[i],
{
    vec![
        ("code", "What is the archive access code? Answer with only the code."),
        ("name", "What is the project lead's name? Answer with only the name."),
        ("date", "What date was the audit completed? Answer with only the date."),
    ]
}

/// The hallucination suite: three questions over contexts that hold no
/// facts at all, to be refused.
fn build_hallucination_suite(rng: &mut rand::rngs::StdRng, token_count: u64, seed: u64, counter: &TokenCounter) -> (r: Result<GeneratedSuite, String>)
    ensures
        r matches Ok(g) ==> generated_spec(SuiteType::Hallucination, token_count, seed, g),
        r matches Err(e) ==> e@ == "token count is too large to allocate context"@ || e@ == uncounted_message(),
        token_count <= usize::MAX - 8 && short_texts_counted(counter@) ==> r is Ok,
{
    let questions = hallucination_questions();
    let mut tests: Vec<TestCase> = Vec::new();
    let mut contexts: Vec<ContextFile> = Vec::new();
    let mut k: usize = 0;
    while k < questions.len()
        invariant
            k <= 3,
            questions@.len() == 3,
            tests@.len() == k,
            contexts@.len() == k,
            forall|i: int| 0 <= i < 3 ==> (#[trigger] questions@[i]).0@ == hallucination_labels()[i],
            forall|j: int| 0 <= j < k ==> {
            &&& (#[trigger] contexts@[j]).file_name@ == token_suffixed(context_stem(SuiteType::Hallucination, j), token_count, ".txt"@)
            &&& contexts@[j].relative_path@ == context_path_spec(contexts@[j].file_name@)
            },
            forall|j: int| 0 <= j < k ==> {
            &&& (#[trigger] tests@[j]).context@ == contexts@[j].relative_path@
            &&& tests@[j].grader is ExpectRefusal
            &&& tests@[j].expected@.len() == 0
            &&& forall|c: int| 0 <= c < contexts@[j].chunks@.len() ==> (#[trigger] contexts@[j].chunks@[c])@ == filler_spec()
            },
        decreases 3 - k,
    {
        let (label, question) = questions[k];
        let mut file: Vec<char> = Vec::new();
        extend_str(&mut file, "hallucination_");
        extend_str(&mut file, label);
        let file_name = string_of(file.as_slice());
        assert(file_name@ =~= context_stem(SuiteType::Hallucination, k as int));
        let facts: Vec<String> = Vec::new();
        let context = write_context(rng, file_name.as_str(), token_count, &facts, counter, None)?;
        proof {
            assert forall|c: int| 0 <= c < context.chunks@.len() implies (#[trigger] context.chunks@[c])@ == filler_spec() by {
                assert(strings_view(context.chunks@)[c] == context.chunks@[c]@);
                assert(!context.fact_indices@.contains(c as usize));
            }
        }
        let metadata = vec![
            metadata_pair("seed", number(seed)),
            metadata_pair("suite", String::from_str("hallucination")),
            metadata_pair("token_count", number(token_count)),
        ];
        let mut id: Vec<char> = Vec::new();
        extend_str(&mut id, "hallucination-");
        extend_chars(&mut id, u64_to_chars(token_count).as_slice());
        extend_str(&mut id, "-");
        extend_str(&mut id, label);
        let test = TestCase {
            schema_version: SCHEMA_VERSION,
            id: string_of(id.as_slice()),
            context: context.relative_path.clone(),
            question: String::from_str(question),
            expected: Vec::new(),
            grader: Grader::ExpectRefusal,
            metadata,
        };
        tests.push(test);
        contexts.push(context);
        k = k + 1;
    }
    Ok(GeneratedSuite {
        manifest: SuiteManifest {
            schema_version: SCHEMA_VERSION,
            name: String::from_str("hallucination"),
            token_count,
            seed,
            suites: tests,
        },
        contexts,
    })
}

/// The suite types, by every name they go by.
#[derive(PartialEq, Eq, Structural, Clone, Copy, Debug)]
pub enum SuiteType {
    Needle,
    MultiNeedle,
    Conflict,
    MultiHop,
    OrderDependent,
    PositionSweep,
    Hallucination,
}

pub open spec fn suite_type_spec(name: Seq<char>) -> Option<SuiteType> {
    let n = ascii_lower_seq(name);
    if n == "needle"@ || n == "needlesuite"@ {
        Some(SuiteType::Needle)
    } else if n == "multi-needle"@ || n == "multineedle"@ || n == "multi_needle"@ || n == "multineedlesuite"@ {
        Some(SuiteType::MultiNeedle)
    } else if n == "conflict"@ || n == "conflictsuite"@ {
        Some(SuiteType::Conflict)
    } else if n == "multi-hop"@ || n == "multihop"@ || n == "multi_hop"@ {
        Some(SuiteType::MultiHop)
    } else if n == "order-dependent"@ || n == "orderdependent"@ || n == "order_dependent"@ {
        Some(SuiteType::OrderDependent)
    } else if n == "position-sweep"@ || n == "positionsweep"@ || n == "position_sweep"@ {
        Some(SuiteType::PositionSweep)
    } else if n == "hallucination"@ || n == "hallucinationsuite"@ {
        Some(SuiteType::Hallucination)
    } else {
        None
    }
}

pub open spec fn unknown_suite_message(lowered: Seq<char>) -> Seq<char> {
    "unknown suite type '"@ + lowered
        + "', expected needle, multi-needle, conflict, multi-hop, order-dependent, position-sweep, or hallucination"@
}

fn is_one_of(s: &str, names: &Vec<&str>) -> (b: bool)
    ensures
        b == names@.map_values(|n: &str| n@).contains(s@),
{
    let ghost nv = names@.map_values(|n: &str| n@);
    let mut i: usize = 0;
    while i < names.len()
        invariant
            i <= names@.len(),
            nv == names@.map_values(|n: &str| n@),
            forall|k: int| 0 <= k < i ==> nv[k] != s@,
        decreases names@.len() - i,
    {
        if crate::benchmark::str_eq(names[i], s) {
            assert(nv[i as int] == s@);
            return true;
        }
        i = i + 1;
    }
    proof {
        if nv.contains(s@) {
            let k = choose|k: int| 0 <= k < nv.len() && nv[k] == s@;
            assert(nv[k] != s@);
        }
    }
    false
}

/// The stem of the file name of context `k` in a suite of the given type.
pub open spec fn context_stem(kind: SuiteType, k: int) -> Seq<char> {
    match kind {
        SuiteType::Needle => "needle_context"@,
        SuiteType::MultiNeedle => "multi_needle_context"@,
        SuiteType::Conflict => "conflict_context"@,
        SuiteType::MultiHop => "multi_hop_context"@,
        SuiteType::OrderDependent => "order_dependent_context"@,
        SuiteType::PositionSweep => "position_sweep_"@ + sweep_spec()[k].0,
        SuiteType::Hallucination => "hallucination_"@ + hallucination_labels()[k],
    }
}

/// What a generated suite of each type holds: its name, token count and
/// seed, its tests and contexts, and where the answers stand in the contexts.
pub open spec fn generated_spec(kind: SuiteType, token_count: u64, seed: u64, g: GeneratedSuite) -> bool {
    &&& forall|k: int| 0 <= k < g.contexts@.len() ==> {
        &&& (#[trigger] g.contexts@[k]).file_name@ == token_suffixed(context_stem(kind, k), token_count, ".txt"@)
        &&& g.contexts@[k].relative_path@ == context_path_spec(g.contexts@[k].file_name@)
    }
    &&& match kind {
        SuiteType::Needle => {
            &&& g.manifest.name@ == "needle"@
            &&& g.manifest.token_count == token_count
            &&& g.manifest.seed == seed
            &&& g.manifest.suites@.len() == 1
            &&& g.contexts@.len() == 1
            &&& g.manifest.suites@[0].id@ == "needle-"@ + dec(token_count as nat)
            &&& g.manifest.suites@[0].context@ == g.contexts@[0].relative_path@
            &&& g.manifest.suites@[0].grader is Exact
            &&& g.manifest.suites@[0].expected@.len() == 1
            &&& exists|v: nat| 100_000 <= v < 999_999 && g.manifest.suites@[0].expected@[0]@ == "ORCHID-"@ + #[trigger] dec(v)
            &&& facts_placed(strings_view(g.contexts@[0].chunks@), seq![needle_fact_spec(g.manifest.suites@[0].expected@[0]@)], g.contexts@[0].fact_indices@)
        },
        SuiteType::MultiNeedle => {
            &&& g.manifest.name@ == "multi_needle"@
            &&& g.manifest.token_count == token_count
            &&& g.manifest.seed == seed
            &&& g.manifest.suites@.len() == 1
            &&& g.contexts@.len() == 1
            &&& g.manifest.suites@[0].context@ == g.contexts@[0].relative_path@
            &&& g.manifest.suites@[0].grader is ItemSet
            &&& 3 <= g.manifest.suites@[0].expected@.len() <= 8
            &&& g.contexts@[0].fact_indices@.len() == g.manifest.suites@[0].expected@.len()
            &&& forall|i: int|
                0 <= i < g.contexts@[0].fact_indices@.len() ==> #[trigger] multi_pair(
                    strings_view(g.contexts@[0].chunks@)[g.contexts@[0].fact_indices@[i] as int],
                    g.manifest.suites@[0].expected@[i]@,
                    i as nat,
                )
        },
        SuiteType::Conflict => {
            &&& g.manifest.name@ == "conflict"@
            &&& g.manifest.token_count == token_count
            &&& g.manifest.seed == seed
            &&& g.manifest.suites@.len() == 1
            &&& g.contexts@.len() == 1
            &&& g.manifest.suites@[0].id@ == "conflict-"@ + dec(token_count as nat)
            &&& g.manifest.suites@[0].context@ == g.contexts@[0].relative_path@
            &&& g.manifest.suites@[0].grader is Exact
            &&& g.manifest.suites@[0].expected@.len() == 1
            &&& g.contexts@[0].fact_indices@.len() == 3
            &&& strings_view(g.contexts@[0].chunks@)[g.contexts@[0].fact_indices@[2] as int]
                    == "For the 2024 east-region audit, the routing key is "@ + g.manifest.suites@[0].expected@[0]@ + "."@
        },
        SuiteType::MultiHop => {
            &&& g.manifest.name@ == "multi_hop"@
            &&& g.manifest.token_count == token_count
            &&& g.manifest.seed == seed
            &&& g.manifest.suites@.len() == 1
            &&& g.contexts@.len() == 1
            &&& g.manifest.suites@[0].id@ == "multi-hop-"@ + dec(token_count as nat)
            &&& g.manifest.suites@[0].context@ == g.contexts@[0].relative_path@
            &&& g.manifest.suites@[0].grader is Exact
            &&& g.manifest.suites@[0].expected@.len() == 1
            &&& g.contexts@[0].fact_indices@.len() == 2
            &&& exists|project: Seq<char>, person: Seq<char>|
                #![trigger lead_fact_spec(project, person)]
                {
                    let chunks = strings_view(g.contexts@[0].chunks@);
                    let at = g.contexts@[0].fact_indices@;
                    &&& chunks[at[0] as int] == lead_fact_spec(project, person)
                    &&& chunks[at[1] as int] == badge_fact_spec(person, g.manifest.suites@[0].expected@[0]@)
                    &&& g.manifest.suites@[0].question@ == hop_question_spec(project)
                }
        },
        SuiteType::OrderDependent => {
            &&& g.manifest.name@ == "order_dependent"@
            &&& g.manifest.token_count == token_count
            &&& g.manifest.seed == seed
            &&& g.manifest.suites@.len() == 1
            &&& g.contexts@.len() == 1
            &&& g.manifest.suites@[0].id@ == "order-dependent-"@ + dec(token_count as nat)
            &&& g.manifest.suites@[0].context@ == g.contexts@[0].relative_path@
            &&& g.manifest.suites@[0].grader is Exact
            &&& g.manifest.suites@[0].expected@.len() == 1
            &&& 3 <= g.contexts@[0].fact_indices@.len() <= 6
            &&& exists|param: Seq<char>, t: nat|
                #![trigger step_question_spec(param, t)]
                {
                    let chunks = strings_view(g.contexts@[0].chunks@);
                    let at = g.contexts@[0].fact_indices@;
                    &&& 1 <= t <= at.len()
                    &&& g.manifest.suites@[0].question@ == step_question_spec(param, t)
                    &&& chunks[at[t - 1] as int] == step_fact_spec(t, param, g.manifest.suites@[0].expected@[0]@)
                }
        },
        SuiteType::PositionSweep => {
            &&& g.manifest.name@ == "position_sweep"@
            &&& g.manifest.token_count == token_count
            &&& g.manifest.seed == seed
            &&& g.manifest.suites@.len() == 5
            &&& g.contexts@.len() == 5
            &&& forall|k: int| 0 <= k < 5 ==> {
                    &&& (#[trigger] g.manifest.suites@[k]).context@ == g.contexts@[k].relative_path@
                    &&& g.manifest.suites@[k].grader is Exact
                    &&& g.manifest.suites@[k].expected@.len() == 1
                    &&& g.contexts@[k].fact_indices@.len() == 1
                    &&& strings_view(g.contexts@[k].chunks@)[g.contexts@[k].fact_indices@[0] as int] == needle_fact_spec(g.manifest.suites@[k].expected@[0]@)
                    &&& g.contexts@[k].fact_indices@[0] == sweep_index(sweep_spec()[k].1 as int, g.contexts@[k].chunks@.len() - 1)
                }
        },
        SuiteType::Hallucination => {
            &&& g.manifest.name@ == "hallucination"@
            &&& g.manifest.token_count == token_count
            &&& g.manifest.seed == seed
            &&& g.manifest.suites@.len() == 3
            &&& g.contexts@.len() == 3
            &&& forall|k: int| 0 <= k < 3 ==> {
                    &&& (#[trigger] g.manifest.suites@[k]).context@ == g.contexts@[k].relative_path@
                    &&& g.manifest.suites@[k].grader is ExpectRefusal
                    &&& g.manifest.suites@[k].expected@.len() == 0
                    &&& forall|c: int| 0 <= c < g.contexts@[k].chunks@.len() ==> (#[trigger] g.contexts@[k].chunks@[c])@ == filler_spec()
                }
        },
    }
}

proof fn lemma_sweep_order(p: int, q: int, n: int)
    requires
        0 <= p,
        p + 20 <= q <= 95,
        n >= 5,
    ensures
        sweep_index(p, n) < sweep_index(q, n),
        sweep_index(q, n) == (q * n + 50) / 100,
{
    assert((p * n + 50) / 100 < (q * n + 50) / 100) by (nonlinear_arith)
        requires
            0 <= p,
            p + 20 <= q,
            n >= 5,
    ;
    assert((q * n + 50) / 100 <= n) by (nonlinear_arith)
        requires
            q <= 95,
            n >= 5,
    ;
    assert((p * n + 50) / 100 <= n) by (nonlinear_arith)
        requires
            0 <= p,
            p + 20 <= 95,
            n >= 5,
    ;
}

/// The position sweep's contexts hold their needle 5, 25, 50, 75 and 95
/// hundredths of the way through their filler paragraphs (rounded, halves
/// up), in the order of the labels start, early, middle, late and end; of
/// two contexts with as many paragraphs (five or more), the one with the
/// earlier label holds it strictly earlier.
pub proof fn lemma_sweep_places_needles(token_count: u64, seed: u64, g: GeneratedSuite)
    requires
        generated_spec(SuiteType::PositionSweep, token_count, seed, g),
    ensures
        forall|k: int|
            0 <= k < 5 ==> {
                let n = g.contexts@[k].chunks@.len() - 1;
                let p = seq![5int, 25int, 50int, 75int, 95int][k];
                #[trigger] g.contexts@[k].fact_indices@[0] == if (p * n + 50) / 100 <= n {
                    (p * n + 50) / 100
                } else {
                    n
                }
            },
        forall|k: int, l: int|
            0 <= k < l < 5 && g.contexts@[k].chunks@.len() == g.contexts@[l].chunks@.len()
                && g.contexts@[k].chunks@.len() >= 6 ==> #[trigger] g.contexts@[k].fact_indices@[0]
                < #[trigger] g.contexts@[l].fact_indices@[0],
{
    let ps = seq![5int, 25int, 50int, 75int, 95int];
    assert forall|k: int| 0 <= k < 5 implies sweep_spec()[k].1 as int == ps[k] by {}
    assert forall|k: int| 0 <= k < 5 implies g.contexts@[k].fact_indices@[0] == sweep_index(
        ps[k],
        g.contexts@[k].chunks@.len() - 1,
    ) by {
        assert(g.manifest.suites@[k].grader is Exact);
        assert(sweep_spec()[k].1 as int == ps[k]);
    }
    assert forall|k: int, l: int|
        0 <= k < l < 5 && g.contexts@[k].chunks@.len() == g.contexts@[l].chunks@.len()
            && g.contexts@[k].chunks@.len() >= 6 implies #[trigger] g.contexts@[k].fact_indices@[0]
            < #[trigger] g.contexts@[l].fact_indices@[0] by {
        let n = g.contexts@[k].chunks@.len() - 1;
        assert(g.manifest.suites@[k].grader is Exact);
        assert(g.manifest.suites@[l].grader is Exact);
        assert(sweep_spec()[k].1 as int == ps[k] && sweep_spec()[l].1 as int == ps[l]);
        assert(ps[k] + 20 <= ps[l]);
        lemma_sweep_order(ps[k], ps[l], n);
    }
}

/// The suite type a name stands for, matched without regard to ASCII case.
pub fn parse_suite_type(name: &str) -> (r: Result<SuiteType, String>)
    ensures
        match suite_type_spec(name@) {
            Some(t) => r == Ok::<SuiteType, String>(t),
            None => r matches Err(e) && e@ == unknown_suite_message(ascii_lower_seq(name@)),
        },
{
    let lowered = to_ascii_lowercase(chars_of(name).as_slice());
    let n = string_of(lowered.as_slice());
    let s = n.as_str();
    let a = vec!["needle", "needlesuite"];
    let b = vec!["multi-needle", "multineedle", "multi_needle", "multineedlesuite"];
    let c = vec!["conflict", "conflictsuite"];
    let d = vec!["multi-hop", "multihop", "multi_hop"];
    let e = vec!["order-dependent", "orderdependent", "order_dependent"];
    let f = vec!["position-sweep", "positionsweep", "position_sweep"];
    let g = vec!["hallucination", "hallucinationsuite"];
    proof {
        assert(a@.map_values(|n: &str| n@) =~= seq!["needle"@, "needlesuite"@]);
        assert(b@.map_values(|n: &str| n@) =~= seq!["multi-needle"@, "multineedle"@, "multi_needle"@, "multineedlesuite"@]);
        assert(c@.map_values(|n: &str| n@) =~= seq!["conflict"@, "conflictsuite"@]);
        assert(d@.map_values(|n: &str| n@) =~= seq!["multi-hop"@, "multihop"@, "multi_hop"@]);
        assert(e@.map_values(|n: &str| n@) =~= seq!["order-dependent"@, "orderdependent"@, "order_dependent"@]);
        assert(f@.map_values(|n: &str| n@) =~= seq!["position-sweep"@, "positionsweep"@, "position_sweep"@]);
        assert(g@.map_values(|n: &str| n@) =~= seq!["hallucination"@, "hallucinationsuite"@]);
    }
    if is_one_of(s, &a) {
        Ok(SuiteType::Needle)
    } else if is_one_of(s, &b) {
        Ok(SuiteType::MultiNeedle)
    } else if is_one_of(s, &c) {
        Ok(SuiteType::Conflict)
    } else if is_one_of(s, &d) {
        Ok(SuiteType::MultiHop)
    } else if is_one_of(s, &e) {
        Ok(SuiteType::OrderDependent)
    } else if is_one_of(s, &f) {
        Ok(SuiteType::PositionSweep)
    } else if is_one_of(s, &g) {
        Ok(SuiteType::Hallucination)
    } else {
        let mut m: Vec<char> = Vec::new();
        extend_str(&mut m, "unknown suite type '");
        extend_chars(&mut m, lowered.as_slice());
        extend_str(&mut m, "', expected needle, multi-needle, conflict, multi-hop, order-dependent, position-sweep, or hallucination");
        Err(string_of(m.as_slice()))
    }
}

/// Generates a suite from its type name, counting tokens with the cl100k
/// counter given: an unknown name is refused before anything is drawn; the
/// seed, when not given, is drawn at random.
pub fn generate(suite_type: &str, token_count: u64, seed: Option<u64>, counter: &TokenCounter) -> (r: Result<GeneratedSuite, String>)
    requires
        counter@ == crate::tokenizer::TokenEncoding::Cl100k,
    ensures
        suite_type_spec(suite_type@) is None ==> (r matches Err(e) && e@ == unknown_suite_message(ascii_lower_seq(suite_type@))),
        r matches Ok(g) ==> suite_type_spec(suite_type@) matches Some(kind) && generated_spec(kind, token_count, g.manifest.seed, g),
        r matches Ok(g) ==> g.manifest.token_count == token_count,
        r matches Ok(g) ==> (seed matches Some(s) ==> g.manifest.seed == s),
        suite_type_spec(suite_type@) is Some ==> (r matches Err(e) ==> e@ == "token count is too large to allocate context"@
            || e@ == uncounted_message()),
        suite_type_spec(suite_type@) is Some && token_count <= usize::MAX - 8 && short_texts_counted(counter@) ==> r is Ok,
{
    let kind = parse_suite_type(suite_type)?;
    let seed = match seed {
        Some(s) => s,
        None => random_seed(),
    };
    let mut rng = seeded_rng(seed);
    match kind {
        SuiteType::Needle => build_needle_suite(&mut rng, token_count, seed, counter),
        SuiteType::MultiNeedle => build_multi_needle_suite(&mut rng, token_count, seed, counter),
        SuiteType::Conflict => build_conflict_suite(&mut rng, token_count, seed, counter),
        SuiteType::MultiHop => build_multi_hop_suite(&mut rng, token_count, seed, counter),
        SuiteType::OrderDependent => build_order_dependent_suite(&mut rng, token_count, seed, counter),
        SuiteType::PositionSweep => build_position_sweep_suite(&mut rng, token_count, seed, counter),
        SuiteType::Hallucination => build_hallucination_suite(&mut rng, token_count, seed, counter),
    }
}

} // verus!
