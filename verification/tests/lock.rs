use spenv::compose::{compose_specs, ComposedEnvironment};
use spenv::declaration::EnvSpec;
use spenv::error::Error;
use spenv::lock::{
    check_exit_code, generate_lock, hash_contents, layers_to_resolve, lock_changes, seal_lock, sources_to_read,
    verify_lock, GenerationMetadata, LayerReading, LockApiVersion, LockChange, LockChangeKind,
    LockFile, ResolvedLayer, SourceFile, SourceReading, Timestamp,
};

const HELLO_SHA256: &str = "b94d27b9934d3e08a52e52d7da7dabfac484efe37a5380ee9088f7ace2efcde9";
const EMPTY_SHA256: &str = "e3b0c44298fc1c149afbf4c8996fb92427ae41e4649b934ca495991b7852b855";

fn at(secs: i64) -> Timestamp {
    Timestamp { secs, nanos: 0 }
}

fn test_metadata() -> GenerationMetadata {
    GenerationMetadata {
        timestamp: at(1_700_000_000),
        spenv_version: "0.0.0-test".to_string(),
        hostname: "test-host".to_string(),
    }
}

fn environment(sources: Vec<&str>, layers: Vec<&str>) -> ComposedEnvironment {
    let mut env = ComposedEnvironment::new();
    env.source_files = sources.into_iter().map(String::from).collect();
    env.layers = layers.into_iter().map(String::from).collect();
    env
}

fn reading(content: &[u8], secs: i64) -> SourceReading {
    SourceReading { content: content.to_vec(), mtime: at(secs) }
}

fn resolved(digest: &str, secs: i64) -> LayerReading {
    LayerReading { digest: digest.to_string(), resolved_at: at(secs) }
}

#[test]
fn test_basic_lockfile_structure() {
    let now = at(1_700_000_000);
    let lf = LockFile {
        api: LockApiVersion::V0,
        generated: GenerationMetadata {
            timestamp: now,
            spenv_version: "0.0.0-test".to_string(),
            hostname: "test-host".to_string(),
        },
        sources: vec![SourceFile {
            path: "/tmp/test.spenv.yaml".to_string(),
            sha256: "deadbeef".to_string(),
            mtime: now,
        }],
        layers: vec![ResolvedLayer {
            reference: "base".to_string(),
            digest: "digest".to_string(),
            resolved_at: now,
        }],
    };

    assert_eq!(lf.api, LockApiVersion::V0);
    assert_eq!(lf.sources.len(), 1);
    assert_eq!(lf.layers.len(), 1);
}

#[test]
fn test_generate_and_verify_lock_round_trip_no_changes() {
    let content = b"api: spenv/v0\nlayers:\n  - test-layer\n";
    let mut spec = EnvSpec::default();
    spec.layers = vec!["test-layer".to_string()];
    spec.source_path = Some("/tmp/project/.spenv.yaml".to_string());
    let specs = vec![spec];
    let composed = compose_specs(&specs);

    let lock = generate_lock(
        &specs,
        &composed,
        &[reading(content, 10)],
        &[resolved("DIGEST-OF-TEST-LAYER", 20)],
        GenerationMetadata {
            timestamp: at(30),
            spenv_version: "0.0.0-test".to_string(),
            hostname: "test-host".to_string(),
        },
    )
    .unwrap();

    let changes = verify_lock(
        &lock,
        &specs,
        &composed,
        &[content.to_vec()],
        &["DIGEST-OF-TEST-LAYER".to_string()],
    )
    .unwrap();

    assert!(changes.is_empty());
}

#[test]
fn test_verify_lock_detects_layer_change() {
    let mut spec = EnvSpec::default();
    spec.source_path = Some("/tmp/project/.spenv.yaml".to_string());
    let specs = vec![spec];
    let mut composed = compose_specs(&specs);

    let lock = LockFile {
        api: LockApiVersion::V0,
        generated: GenerationMetadata {
            timestamp: at(0),
            spenv_version: "0.0.0-test".to_string(),
            hostname: "test-host".to_string(),
        },
        sources: Vec::new(),
        layers: Vec::new(),
    };

    composed.layers.push("extra".to_string());

    let changes = verify_lock(&lock, &specs, &composed, &[], &[]).unwrap();
    let change = LockChange {
        kind: LockChangeKind::LayerAdded,
        reference: "extra".to_string(),
        expected: None,
        actual: None,
    };

    assert_eq!(change.kind, LockChangeKind::LayerAdded);
    assert_eq!(changes, vec![change]);
}

#[test]
fn hashes_are_sha256_in_lower_case_hex() {
    let hashes = hash_contents(&[b"hello world".to_vec(), Vec::new()]);
    assert_eq!(hashes, vec![HELLO_SHA256.to_string(), EMPTY_SHA256.to_string()]);
}

#[test]
fn generated_lock_pairs_by_position() {
    let env = environment(vec!["/a/.spenv.yaml", "/b.yaml"], vec!["base", "tools", "base"]);
    let lock = generate_lock(
        &[],
        &env,
        &[reading(b"hello world", 1), reading(b"", 2)],
        &[resolved("D1", 3), resolved("D2", 4), resolved("D1", 5)],
        test_metadata(),
    )
    .unwrap();
    assert_eq!(
        lock,
        LockFile {
            api: LockApiVersion::V0,
            generated: test_metadata(),
            sources: vec![
                SourceFile {
                    path: "/a/.spenv.yaml".to_string(),
                    sha256: HELLO_SHA256.to_string(),
                    mtime: at(1),
                },
                SourceFile {
                    path: "/b.yaml".to_string(),
                    sha256: EMPTY_SHA256.to_string(),
                    mtime: at(2),
                },
            ],
            layers: vec![
                ResolvedLayer {
                    reference: "base".to_string(),
                    digest: "D1".to_string(),
                    resolved_at: at(3),
                },
                ResolvedLayer {
                    reference: "tools".to_string(),
                    digest: "D2".to_string(),
                    resolved_at: at(4),
                },
                ResolvedLayer {
                    reference: "base".to_string(),
                    digest: "D1".to_string(),
                    resolved_at: at(5),
                },
            ],
        }
    );
}

#[test]
fn no_partial_lock_from_misaligned_readings() {
    let env = environment(vec!["/a"], vec!["base"]);
    let misaligned =
        Error::ValidationFailed("Readings do not match the positions they are for".to_string());
    assert_eq!(
        generate_lock(&[], &env, &[], &[resolved("D1", 3)], test_metadata()).unwrap_err(),
        misaligned
    );
    assert_eq!(
        generate_lock(&[], &env, &[reading(b"x", 1)], &[], test_metadata()).unwrap_err(),
        misaligned
    );
    assert_eq!(
        seal_lock(&env, &["h".to_string()], &[], &[resolved("D1", 3)], test_metadata())
            .unwrap_err(),
        misaligned
    );
    let lock =
        generate_lock(&[], &env, &[reading(b"x", 1)], &[resolved("D1", 3)], test_metadata())
            .unwrap();
    assert_eq!(verify_lock(&lock, &[], &env, &[], &["D1".to_string()]).unwrap_err(), misaligned);
    assert_eq!(verify_lock(&lock, &[], &env, &[b"x".to_vec()], &[]).unwrap_err(), misaligned);
    assert_eq!(
        lock_changes(&lock, &env, &["h".to_string(), "h".to_string()], &["D1".to_string()])
            .unwrap_err(),
        misaligned
    );
}

#[test]
fn one_changed_source_gives_one_record() {
    let env = environment(vec!["/a", "/b", "/c"], vec!["base"]);
    let lock = generate_lock(
        &[],
        &env,
        &[reading(b"one", 1), reading(b"hello world", 2), reading(b"three", 3)],
        &[resolved("D1", 4)],
        test_metadata(),
    )
    .unwrap();
    let changes = verify_lock(
        &lock,
        &[],
        &env,
        &[b"one".to_vec(), Vec::new(), b"three".to_vec()],
        &["D1".to_string()],
    )
    .unwrap();
    assert_eq!(
        changes,
        vec![LockChange {
            kind: LockChangeKind::SourceFileChanged,
            reference: "/b".to_string(),
            expected: Some(HELLO_SHA256.to_string()),
            actual: Some(EMPTY_SHA256.to_string()),
        }]
    );
}

#[test]
fn shorter_live_lists_give_removals() {
    let env = environment(vec!["/a", "/b"], vec!["base", "tools"]);
    let lock = generate_lock(
        &[],
        &env,
        &[reading(b"one", 1), reading(b"two", 2)],
        &[resolved("D1", 3), resolved("D2", 4)],
        test_metadata(),
    )
    .unwrap();
    let live = environment(vec!["/a"], vec!["base"]);
    assert_eq!(sources_to_read(&lock, &live), vec!["/a"]);
    assert_eq!(layers_to_resolve(&lock, &live), vec!["base"]);
    let changes =
        verify_lock(&lock, &[], &live, &[b"one".to_vec()], &["D1".to_string()]).unwrap();
    assert_eq!(
        changes,
        vec![
            LockChange {
                kind: LockChangeKind::SourceFileRemoved,
                reference: "/b".to_string(),
                expected: Some(lock.sources[1].sha256.clone()),
                actual: None,
            },
            LockChange {
                kind: LockChangeKind::LayerRemoved,
                reference: "tools".to_string(),
                expected: Some("D2".to_string()),
                actual: None,
            },
        ]
    );
}

#[test]
fn changed_digest_and_added_layers_in_order() {
    let env = environment(vec![], vec!["base", "tools"]);
    let lock = generate_lock(
        &[],
        &env,
        &[],
        &[resolved("D1", 3), resolved("D2", 4)],
        test_metadata(),
    )
    .unwrap();
    let live = environment(vec![], vec!["base", "other", "x", "y"]);
    assert_eq!(layers_to_resolve(&lock, &live), vec!["base", "other"]);
    assert!(sources_to_read(&lock, &live).is_empty());
    let changes =
        verify_lock(&lock, &[], &live, &[], &["D1".to_string(), "D9".to_string()]).unwrap();
    assert_eq!(
        changes,
        vec![
            LockChange {
                kind: LockChangeKind::LayerDigestChanged,
                reference: "tools".to_string(),
                expected: Some("D2".to_string()),
                actual: Some("D9".to_string()),
            },
            LockChange {
                kind: LockChangeKind::LayerAdded,
                reference: "x".to_string(),
                expected: None,
                actual: None,
            },
            LockChange {
                kind: LockChangeKind::LayerAdded,
                reference: "y".to_string(),
                expected: None,
                actual: None,
            },
        ]
    );
}

#[test]
fn live_sources_beyond_the_lock_are_not_read() {
    let env = environment(vec!["/a"], vec![]);
    let lock =
        generate_lock(&[], &env, &[reading(b"one", 1)], &[], test_metadata()).unwrap();
    let live = environment(vec!["/a", "/new"], vec![]);
    assert_eq!(sources_to_read(&lock, &live), vec!["/a"]);
    assert_eq!(verify_lock(&lock, &[], &live, &[b"one".to_vec()], &[]), Ok(Vec::new()));
}

#[test]
fn metadata_falls_back_to_unknown_host() {
    assert_eq!(
        GenerationMetadata::new(at(5), "1.2.3", None),
        GenerationMetadata {
            timestamp: at(5),
            spenv_version: "1.2.3".to_string(),
            hostname: "unknown".to_string(),
        }
    );
    assert_eq!(
        GenerationMetadata::new(at(5), "1.2.3", Some("box".to_string())).hostname,
        "box"
    );
}

#[test]
fn check_ends_by_lock_drift_and_strictness() {
    let drift = vec![LockChange {
        kind: LockChangeKind::LayerAdded,
        reference: "extra".to_string(),
        expected: None,
        actual: None,
    }];
    let none: Vec<LockChange> = Vec::new();
    assert_eq!(check_exit_code(None, true), None);
    assert_eq!(check_exit_code(None, false), Some(2));
    assert_eq!(check_exit_code(Some(&none), true), Some(0));
    assert_eq!(check_exit_code(Some(&none), false), Some(0));
    assert_eq!(check_exit_code(Some(&drift), true), Some(1));
    assert_eq!(check_exit_code(Some(&drift), false), Some(0));
}

#[test]
fn hashes_have_sixty_four_digits() {
    for hash in hash_contents(&[b"a".to_vec(), vec![0u8; 1000]]) {
        assert_eq!(hash.len(), 64);
        assert!(hash.chars().all(|c| c.is_ascii_digit() || ('a'..='f').contains(&c)));
    }
}
