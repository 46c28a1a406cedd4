use longctx::benchmark::{Grader, SuiteManifest, TestCase, SCHEMA_VERSION};
use longctx::context_index::{
    build_context_index, load_or_build_context_index, normalize_relative_context_path,
    validate_context_index, with_context_hash, ContextIndex, ManifestSource,
};
use longctx::hashing::sha256_hex_of_str;
use longctx::paths::{path_escapes, path_within};

fn s(x: &str) -> String {
    x.to_string()
}

fn needle_manifest() -> ManifestSource {
    ManifestSource {
        source_manifest: s("manifests/needle.json"),
        manifest: SuiteManifest {
            schema_version: SCHEMA_VERSION,
            name: s("needle"),
            token_count: 100,
            seed: 7,
            suites: vec![TestCase {
                schema_version: SCHEMA_VERSION,
                id: s("needle-100"),
                context: s("contexts/needle_context.txt"),
                question: s("What is the archive access code?"),
                expected: vec![s("ORCHID-1")],
                grader: Grader::Exact,
                metadata: vec![(s("suite"), s("needle")), (s("token_count"), s("100"))],
            }],
        },
        context_exists: vec![true],
    }
}

/// The index as the command writes it: every entry with its file's digest.
fn hashed(mut index: ContextIndex, contents: &[&[u8]]) -> ContextIndex {
    let entries = std::mem::take(&mut index.contexts);
    index.contexts = entries
        .into_iter()
        .zip(contents.iter())
        .map(|(e, c)| with_context_hash(e, c))
        .collect();
    index
}

#[test]
fn builds_context_index_from_manifest_layout() {
    let index = build_context_index("/tmp/bench", 5, &vec![needle_manifest()]);
    assert_eq!(index.contexts.len(), 1);
    assert_eq!(index.bench_id, "bench");
    assert_eq!(index.contexts[0].context_id, "needle_context");
    assert_eq!(index.contexts[0].path, "contexts/needle_context.txt");
    assert_eq!(index.contexts[0].suite, "needle");
    assert_eq!(index.contexts[0].test_ids, vec![s("needle-100")]);
    assert_eq!(index.contexts[0].source_manifests, vec![s("manifests/needle.json")]);
    assert!(index.contexts[0].keywords.contains(&s("archive")));
    let index = hashed(index, &[b"needle text"]);
    validate_context_index(&index, &vec![Some(b"needle text".to_vec())]).unwrap();
}

#[test]
fn index_skips_missing_auto_and_inline_contexts() {
    let mut m = needle_manifest();
    m.context_exists = vec![false];
    assert!(build_context_index("/tmp/bench", 5, &vec![m]).contexts.is_empty());
    let mut m = needle_manifest();
    m.manifest.suites[0].context = s("auto");
    assert!(build_context_index("/tmp/bench", 5, &vec![m]).contexts.is_empty());
    let mut m = needle_manifest();
    m.manifest.suites[0].context = s("line one\nline two");
    assert!(build_context_index("/tmp/bench", 5, &vec![m]).contexts.is_empty());
}

#[test]
fn index_merges_tests_that_share_a_context() {
    let mut m = needle_manifest();
    m.manifest.suites.push(TestCase {
        schema_version: SCHEMA_VERSION,
        id: s("needle-100-b"),
        context: s("contexts/needle_context.txt"),
        question: s("Which code opens the vault?"),
        expected: vec![s("ORCHID-2")],
        grader: Grader::Exact,
        metadata: vec![(s("suite"), s("needle"))],
    });
    m.context_exists.push(true);
    let index = build_context_index("/tmp/bench", 5, &vec![m]);
    assert_eq!(index.contexts.len(), 1);
    assert_eq!(index.contexts[0].test_ids, vec![s("needle-100"), s("needle-100-b")]);
}

#[test]
fn index_validation_rejects_stale_or_missing_files() {
    let index = hashed(build_context_index("/b", 1, &vec![needle_manifest()]), &[b"needle text"]);
    let err = validate_context_index(&index, &vec![Some(b"changed".to_vec())]).unwrap_err();
    assert!(err.starts_with("indexed context hash mismatch for contexts/needle_context.txt: expected "));
    assert!(err.ends_with(&sha256_hex_of_str("changed")));
    let err = validate_context_index(&index, &vec![None]).unwrap_err();
    assert_eq!(err, "indexed context does not exist: contexts/needle_context.txt");
}

#[test]
fn index_validation_rejects_absolute_and_escaping_paths() {
    let mut index = hashed(build_context_index("/b", 1, &vec![needle_manifest()]), &[b"x"]);
    index.contexts[0].path = s("/etc/passwd");
    let err = validate_context_index(&index, &vec![Some(b"x".to_vec())]).unwrap_err();
    assert_eq!(err, "indexed context path must be relative: /etc/passwd");
    index.contexts[0].path = s("contexts/../../secret.txt");
    let err = validate_context_index(&index, &vec![Some(b"x".to_vec())]).unwrap_err();
    assert_eq!(err, "indexed context path escapes the benchmark directory: contexts/../../secret.txt");
    index.contexts[0].path = s("contexts/../contexts/a.txt");
    assert!(validate_context_index(&index, &vec![Some(b"x".to_vec())]).is_ok());
}

#[test]
fn index_validation_rejects_newer_schema() {
    let mut index = build_context_index("/b", 1, &vec![]);
    index.schema_version = SCHEMA_VERSION + 1;
    let err = validate_context_index(&index, &vec![]).unwrap_err();
    assert!(err.contains("is newer than supported schema_version"));
}

#[test]
fn existing_index_is_kept_and_missing_one_is_built() {
    let existing = build_context_index("/b", 1, &vec![]);
    let (kept, built) = load_or_build_context_index(Some(existing), "/b", 9, &vec![needle_manifest()]);
    assert!(!built);
    assert!(kept.contexts.is_empty());
    assert_eq!(kept.created_at_unix_ms, 1);
    let (fresh, built) = load_or_build_context_index(None, "/b", 9, &vec![needle_manifest()]);
    assert!(built);
    assert_eq!(fresh.contexts.len(), 1);
    assert_eq!(fresh.created_at_unix_ms, 9);
}

#[test]
fn sha256_hex_matches_known_digests() {
    assert_eq!(sha256_hex_of_str(""), "e3b0c44298fc1c149afbf4c8996fb92427ae41e4649b934ca495991b7852b855");
    assert_eq!(sha256_hex_of_str("abc"), "ba7816bf8f01cfea414140de5dae2223b00361a396177a9cb410ff61f20015ad");
}

#[test]
fn absolute_context_paths_are_made_relative_to_the_bench_dir() {
    assert_eq!(normalize_relative_context_path("/b", "/b/contexts/a.txt"), "contexts/a.txt");
    assert_eq!(normalize_relative_context_path("/b", "contexts/a.txt"), "contexts/a.txt");
    assert_eq!(normalize_relative_context_path("/b", "/elsewhere/a.txt"), "/elsewhere/a.txt");
}

#[test]
fn path_components_decide_containment_and_escape() {
    assert!(path_within("/a/b", "/a/b/c"));
    assert!(path_within("/a/b", "/a/b"));
    assert!(!path_within("/a/b", "/a/bc"));
    assert!(!path_within("/a/b", "/a"));
    assert!(!path_within("/a/b", "a/b/c"));
    assert!(path_escapes("../x"));
    assert!(path_escapes("a/../../x"));
    assert!(!path_escapes("a/../x"));
    assert!(!path_escapes("./a/b"));
}

fn entry_text(index: &ContextIndex) -> Vec<String> {
    index
        .contexts
        .iter()
        .map(|e| {
            format!(
                "{}|{}|{}|{}|{}|{}|{:?}|{:?}|{}|{}|{:?}|{:?}|{:?}",
                e.context_id, e.path, e.sha256, e.suite, e.token_count, e.seed, e.source_manifests, e.test_ids,
                e.title, e.summary, e.keywords, e.safe_anchors, e.metadata
            )
        })
        .collect()
}

#[test]
fn building_the_index_twice_gives_the_same_entries() {
    let mut other = needle_manifest();
    other.source_manifest = s("manifests/needle-b.json");
    other.manifest.suites[0].id = s("needle-b");
    let ms = vec![needle_manifest(), other];
    let a = build_context_index("/tmp/bench", 5, &ms);
    let b = build_context_index("/tmp/bench", 99, &ms);
    assert_eq!(entry_text(&a), entry_text(&b));
    assert_eq!((a.schema_version, a.bench_id.clone()), (b.schema_version, b.bench_id.clone()));
    assert_ne!(a.created_at_unix_ms, b.created_at_unix_ms);
    let h = longctx::context_index::hash_context_index(a, &vec![b"needle text".to_vec()]);
    assert_eq!(h.contexts[0].sha256, sha256_hex_of_str("needle text"));
    validate_context_index(&h, &vec![Some(b"needle text".to_vec())]).unwrap();
}

#[test]
fn built_index_keywords_are_lowercase_words() {
    let mut m = needle_manifest();
    m.manifest.suites[0].question = s("What is the ARCHIVE_access-Code? (Answer: quickly!) é ok");
    let index = build_context_index("/tmp/bench", 5, &vec![m]);
    assert!(!index.contexts[0].keywords.is_empty());
    for k in &index.contexts[0].keywords {
        assert!(k.len() >= 3, "{k}");
        assert!(k.chars().all(|c| c.is_ascii_lowercase() || c.is_ascii_digit()), "{k}");
    }
}
