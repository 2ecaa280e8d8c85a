use mango_launcher::cache::Cache;
use mango_launcher::download::needs_transfer;
use mango_launcher::download::judge_attempt;
use mango_launcher::download::AttemptOutcome;
use mango_launcher::download::AttemptVerdict;
use mango_launcher::download::ConcurrencyLimiter;
use mango_launcher::download::next_chunk_end;
use mango_launcher::error::Error;
use mango_launcher::http_cache::CacheEntry;
use mango_launcher::http_cache::HttpCache;
use mango_launcher::retry::run_attempts;
use mango_launcher::retry::RetryDecision;
use mango_launcher::retry::RetryState;
use mango_launcher::version::batch_all_ok;
use mango_launcher::version::expand_library_tasks;
use mango_launcher::version::is_complete;
use mango_launcher::version::Artifact;
use mango_launcher::version::Library;
use mango_launcher::version::LibraryDownloads;

fn lib_with_artifact(name: &str, path: &str, sha1: &str, url: &str) -> Library {
    Library {
        name: name.to_string(),
        downloads: Some(LibraryDownloads {
            artifact: Some(Artifact {
                path: path.to_string(),
                sha1: sha1.to_string(),
                size: 10,
                url: url.to_string(),
            }),
            classifiers: None,
        }),
        rules: None,
        natives: None,
    }
}

#[test]
fn idempotent_redownload_skips_matching_file() {
    // a destination already matching the expected hash is not transferred again
    assert!(!needs_transfer(true, Some("abc123"), Some("abc123")));
    assert!(needs_transfer(true, Some("abc123"), Some("def456")));
    assert!(needs_transfer(false, None, Some("abc123")));
    assert!(needs_transfer(true, None, None));
}

#[test]
fn corruption_never_lands() {
    let verdict = judge_attempt(
        AttemptOutcome::Completed { actual_hash: "aaaa".to_string() },
        Some("bbbb"),
    );
    match verdict {
        AttemptVerdict::Reject { error } => match error {
            Error::HashMismatch { expected, actual } => {
                assert_eq!(expected, "bbbb");
                assert_eq!(actual, "aaaa");
            },
            other => panic!("expected a hash mismatch, got {:?}", other),
        },
        AttemptVerdict::Accepted => panic!("a mismatching transfer must not be accepted"),
    }
}

#[test]
fn matching_transfer_is_accepted() {
    let verdict = judge_attempt(
        AttemptOutcome::Completed { actual_hash: "aaaa".to_string() },
        Some("aaaa"),
    );
    assert!(matches!(verdict, AttemptVerdict::Accepted));
    let verdict2 = judge_attempt(
        AttemptOutcome::Completed { actual_hash: "whatever".to_string() },
        None,
    );
    assert!(matches!(verdict2, AttemptVerdict::Accepted));
}

#[test]
fn cancellation_is_not_a_generic_failure() {
    let verdict = judge_attempt(AttemptOutcome::Cancelled, Some("aaaa"));
    match verdict {
        AttemptVerdict::Reject { error } => assert_eq!(error, Error::Cancelled),
        _ => panic!("cancellation must be rejected distinctly"),
    }
}

#[test]
fn transport_and_disk_failures_map_to_their_errors() {
    let v1 = judge_attempt(
        AttemptOutcome::TransportFailed { detail: "timed out".to_string() },
        None,
    );
    match v1 {
        AttemptVerdict::Reject { error } => assert_eq!(error, Error::Network("timed out".to_string())),
        _ => panic!("transport failure must be rejected"),
    }
    let v2 = judge_attempt(AttemptOutcome::WriteFailed { detail: "disk full".to_string() }, None);
    match v2 {
        AttemptVerdict::Reject { error } => assert_eq!(error, Error::Io("disk full".to_string())),
        _ => panic!("write failure must be rejected"),
    }
}

#[test]
fn retry_bound_respected() {
    // a transport that always fails: budget 2 gives exactly 3 attempts,
    // with strictly increasing backoff
    let outcomes = vec![
        Some(Error::Network("down".to_string())),
        Some(Error::Network("down".to_string())),
        Some(Error::Network("down".to_string())),
    ];
    let (attempts, last, delays) = run_attempts(&outcomes, 2, 1000);
    assert_eq!(attempts, 3);
    assert_eq!(last, Some(Error::Network("down".to_string())));
    assert_eq!(delays, vec![1000, 2000]);
    assert!(delays[0] < delays[1]);
}

#[test]
fn retry_stops_at_first_success() {
    let outcomes = vec![None, Some(Error::Network("down".to_string()))];
    let (attempts, last, delays) = run_attempts(&outcomes, 1, 1000);
    assert_eq!(attempts, 1);
    assert_eq!(last, None);
    assert!(delays.is_empty());
}

#[test]
fn retry_never_retries_terminal_errors() {
    let outcomes = vec![
        Some(Error::Io("disk full".to_string())),
        Some(Error::Io("disk full".to_string())),
        Some(Error::Io("disk full".to_string())),
    ];
    let (attempts, last, _delays) = run_attempts(&outcomes, 2, 1000);
    assert_eq!(attempts, 1);
    assert_eq!(last, Some(Error::Io("disk full".to_string())));

    let cancelled = vec![Some(Error::Cancelled), Some(Error::Cancelled)];
    let (attempts2, last2, _d) = run_attempts(&cancelled, 1, 500);
    assert_eq!(attempts2, 1);
    assert_eq!(last2, Some(Error::Cancelled));
}

#[test]
fn retry_state_decisions() {
    let mut st = RetryState::new(2, 1000);
    match st.on_failure(&Error::Network("x".to_string())) {
        RetryDecision::Sleep(d) => assert_eq!(d, 1000),
        RetryDecision::Abort => panic!("first retryable failure should sleep"),
    }
    match st.on_failure(&Error::HashMismatch { expected: "a".to_string(), actual: "b".to_string() }) {
        RetryDecision::Sleep(d) => assert_eq!(d, 2000),
        RetryDecision::Abort => panic!("second retryable failure should sleep"),
    }
    assert!(matches!(st.on_failure(&Error::Network("x".to_string())), RetryDecision::Abort));
    let mut st2 = RetryState::new(5, 100);
    assert!(matches!(st2.on_failure(&Error::Decode("bad json".to_string())), RetryDecision::Abort));
    assert!(matches!(st2.on_failure(&Error::Cancelled), RetryDecision::Abort));
}

#[test]
fn cache_eviction_keeps_size_bounded_and_evicts_oldest() {
    let mut cache = Cache::with_max_size(100);
    cache.insert("a".to_string(), vec![0u8; 40]);
    cache.insert("b".to_string(), vec![1u8; 40]);
    // touch `a` so that `b` is the least recently used entry
    assert!(cache.get("a").is_some());
    cache.insert("c".to_string(), vec![2u8; 40]);
    assert!(cache.size() <= 100);
    assert_eq!(cache.get("b"), None);
    assert_eq!(cache.get("a"), Some(vec![0u8; 40]));
    assert_eq!(cache.get("c"), Some(vec![2u8; 40]));
    assert_eq!(cache.len(), 2);
    assert_eq!(cache.size(), 80);
}

#[test]
fn cache_rejects_oversized_payload_outright() {
    let mut cache = Cache::with_max_size(100);
    cache.insert("big".to_string(), vec![0u8; 200]);
    assert!(cache.is_empty());
    assert_eq!(cache.get("big"), None);
}

#[test]
fn cache_replaces_same_key() {
    let mut cache = Cache::with_max_size(100);
    cache.insert("k".to_string(), vec![0u8; 30]);
    cache.insert("k".to_string(), vec![1u8; 50]);
    assert_eq!(cache.len(), 1);
    assert_eq!(cache.size(), 50);
    assert_eq!(cache.get("k"), Some(vec![1u8; 50]));
}

#[test]
fn cache_clear_empties_everything() {
    let mut cache = Cache::new();
    assert_eq!(cache.size(), 0);
    cache.insert("k".to_string(), vec![9u8; 10]);
    assert_eq!(cache.len(), 1);
    cache.clear();
    assert!(cache.is_empty());
    assert_eq!(cache.size(), 0);
}

#[test]
fn persistent_cache_survives_missing_file() {
    let mut hc = HttpCache::new("cachedir".to_string(), 1000, 3600);
    let (path, evicted) = hc.store_file("http://example.com/a.jar", "feedbeef", 10, 100);
    assert!(evicted.is_empty());
    // with the file present the lookup serves the recorded path
    assert_eq!(
        hc.get_cached_file("http://example.com/a.jar", None, 200, true),
        Some(path.clone())
    );
    // the file was deleted externally: the cache must not claim it
    assert_eq!(hc.get_cached_file("http://example.com/a.jar", None, 200, false), None);
}

#[test]
fn persistent_cache_respects_expiry_and_hash() {
    let mut hc = HttpCache::new("cachedir".to_string(), 1000, 3600);
    let (_path, _evicted) = hc.store_file("http://example.com/a.jar", "feedbeef", 10, 100);
    // expired: created at 100, max age 3600
    assert_eq!(hc.get_cached_file("http://example.com/a.jar", None, 4000, true), None);
    // wrong expected hash
    assert_eq!(
        hc.get_cached_file("http://example.com/a.jar", Some("00000000"), 200, true),
        None
    );
    // matching expected hash
    assert!(hc.get_cached_file("http://example.com/a.jar", Some("feedbeef"), 200, true).is_some());
    // unknown url
    assert_eq!(hc.get_cached_file("http://example.com/b.jar", None, 200, true), None);
}

#[test]
fn persistent_cache_sweeps_exactly_the_expired() {
    let mut hc = HttpCache::new("cachedir".to_string(), 10000, 1000);
    hc.store_file("http://u/1", "h1", 10, 100);  // expires at 1100
    hc.store_file("http://u/2", "h2", 10, 500);  // expires at 1500
    let removed = hc.cleanup_expired(1200);
    assert_eq!(removed.len(), 1);
    assert_eq!(removed[0].url, "http://u/1");
    let (count, size, _max) = hc.get_cache_info();
    assert_eq!(count, 1);
    assert_eq!(size, 10);
}

#[test]
fn persistent_cache_evicts_oldest_created_to_budget() {
    let mut hc = HttpCache::new("cachedir".to_string(), 100, 100000);
    hc.store_file("http://u/old", "h1", 60, 10);
    let (_p, evicted) = hc.store_file("http://u/new", "h2", 50, 20);
    // 110 bytes exceed the budget of 100: the oldest-created entry goes
    assert_eq!(evicted.len(), 1);
    assert_eq!(evicted[0].url, "http://u/old");
    assert_eq!(hc.get_cache_size(), 50);
    assert!(hc.get_cached_file("http://u/new", None, 30, true).is_some());
    assert_eq!(hc.get_cached_file("http://u/old", None, 30, true), None);
}

#[test]
fn restore_entry_refuses_duplicates() {
    let mut hc = HttpCache::new("cachedir".to_string(), 1000, 3600);
    let e = CacheEntry {
        url: "http://u/x".to_string(),
        file_path: "cachedir/abc".to_string(),
        hash: "h".to_string(),
        size: 5,
        created_at: 1,
        expires_at: None,
        etag: None,
        content_type: None,
    };
    let e2 = CacheEntry {
        url: "http://u/x".to_string(),
        file_path: "cachedir/other".to_string(),
        hash: "h2".to_string(),
        size: 7,
        created_at: 2,
        expires_at: None,
        etag: None,
        content_type: None,
    };
    assert!(hc.restore_entry(e).is_none());
    assert!(hc.restore_entry(e2).is_some());
    let (count, size, _) = hc.get_cache_info();
    assert_eq!(count, 1);
    assert_eq!(size, 5);
}

#[test]
fn concrete_scenario_one_missing_library() {
    // version "1.20.1" needs libA (present) and libB (absent)
    let libs = vec![
        lib_with_artifact("libA", "a/libA.jar", "sha-a", "http://repo/a"),
        lib_with_artifact("libB", "b/libB.jar", "sha-b", "http://repo/b"),
    ];
    let mut present = vec!["libs/a/libA.jar".to_string()];
    let tasks = expand_library_tasks(&libs, "libs", &present);
    assert_eq!(tasks.len(), 1);
    assert_eq!(tasks[0].0, "http://repo/b");
    assert_eq!(tasks[0].1, "libs/b/libB.jar");
    assert_eq!(tasks[0].2, Some("sha-b".to_string()));
    // not complete while libB is missing
    assert!(!is_complete(true, true, &libs, "libs", &present));
    // after the one download succeeds, the version is complete
    present.push("libs/b/libB.jar".to_string());
    assert!(is_complete(true, true, &libs, "libs", &present));
    assert!(expand_library_tasks(&libs, "libs", &present).is_empty());
}

#[test]
fn completeness_check_is_live() {
    let libs = vec![lib_with_artifact("libA", "a/libA.jar", "sha-a", "http://repo/a")];
    let present = vec!["libs/a/libA.jar".to_string()];
    assert!(is_complete(true, true, &libs, "libs", &present));
    // the library file disappears out-of-band: the next call sees it gone
    let present_after_delete: Vec<String> = Vec::new();
    assert!(!is_complete(true, true, &libs, "libs", &present_after_delete));
    // descriptor and binary are part of the answer too
    assert!(!is_complete(false, true, &libs, "libs", &present));
    assert!(!is_complete(true, false, &libs, "libs", &present));
}

#[test]
fn duplicate_targets_are_fetched_once() {
    let libs = vec![
        lib_with_artifact("libX", "x/lib.jar", "sha-x", "http://repo/x"),
        lib_with_artifact("libX-copy", "x/lib.jar", "sha-x", "http://repo/x"),
    ];
    let present: Vec<String> = Vec::new();
    let tasks = expand_library_tasks(&libs, "libs", &present);
    assert_eq!(tasks.len(), 1);
}

#[test]
fn classifier_artifacts_are_expanded() {
    let lib = Library {
        name: "libN".to_string(),
        downloads: Some(LibraryDownloads {
            artifact: Some(Artifact {
                path: "n/lib.jar".to_string(),
                sha1: "s1".to_string(),
                size: 1,
                url: "http://repo/n".to_string(),
            }),
            classifiers: Some(vec![(
                "natives-linux".to_string(),
                Artifact {
                    path: "n/lib-natives.jar".to_string(),
                    sha1: "s2".to_string(),
                    size: 1,
                    url: "http://repo/n-natives".to_string(),
                },
            )]),
        }),
        rules: None,
        natives: None,
    };
    let present: Vec<String> = Vec::new();
    let tasks = expand_library_tasks(&vec![lib], "libs", &present);
    assert_eq!(tasks.len(), 2);
    assert_eq!(tasks[0].1, "libs/n/lib.jar");
    assert_eq!(tasks[1].1, "libs/n/lib-natives.jar");
}

#[test]
fn batch_failure_isolation() {
    // task 2 of 3 fails: the batch fails as a whole, per-task outcomes stand
    let results = vec![true, false, true];
    assert!(!batch_all_ok(&results));
    assert!(results[0] && results[2]);
    assert!(batch_all_ok(&vec![true, true, true]));
    assert!(batch_all_ok(&Vec::new()));
}

#[test]
fn limiter_bounds_and_resizes() {
    let mut lim = ConcurrencyLimiter::new(2);
    assert!(lim.try_acquire());
    assert!(lim.try_acquire());
    assert!(!lim.try_acquire());
    lim.set_limit(3);
    assert!(lim.try_acquire());
    assert!(!lim.try_acquire());
    // shrinking does not disturb permits already held
    lim.set_limit(1);
    assert_eq!(lim.get_limit(), 1);
    lim.release();
    lim.release();
    lim.release();
    assert!(lim.try_acquire());
}

#[test]
fn chunking_covers_the_stream() {
    assert_eq!(next_chunk_end(0, 8192, 100000), 8192);
    assert_eq!(next_chunk_end(98304, 8192, 100000), 100000);
    assert_eq!(next_chunk_end(0, 8192, 10), 10);
}
