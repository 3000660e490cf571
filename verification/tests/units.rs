use ctxhelpr::budget::TokenBudget;
use ctxhelpr::config::{Config, ConfigCache};
use ctxhelpr::debouncer::{Debouncer, FileChangeKind};
use ctxhelpr::filters::{detect_language, is_ignored_component, is_ignored_suffix, matches_ignore_pattern};
use ctxhelpr::formatter::PathIndex;
use ctxhelpr::hasher::hash_bytes;
use ctxhelpr::paths::{db_file_stem, has_index_db};
use ctxhelpr::style::done;
use ctxhelpr::tokenizer::split_code_identifier;

#[test]
fn test_camel_case() {
    assert_eq!(split_code_identifier("getUserById"), "get user by id getuserbyid");
}

#[test]
fn test_pascal_case() {
    assert_eq!(split_code_identifier("UserRepository"), "user repository userrepository");
}

#[test]
fn test_snake_case() {
    assert_eq!(split_code_identifier("user_repository"), "user repository user_repository");
}

#[test]
fn test_screaming_snake() {
    assert_eq!(split_code_identifier("MAX_RETRIES"), "max retries max_retries");
}

#[test]
fn test_acronym_boundary() {
    assert_eq!(split_code_identifier("HTMLParser"), "html parser htmlparser");
}

#[test]
fn test_simple_word() {
    assert_eq!(split_code_identifier("add"), "add");
}

#[test]
fn test_single_char() {
    assert_eq!(split_code_identifier("x"), "x");
}

#[test]
fn test_all_caps() {
    assert_eq!(split_code_identifier("HTTP"), "http");
}

#[test]
fn test_mixed_separators() {
    assert_eq!(split_code_identifier("get_UserName"), "get user name get_username");
}

#[test]
fn test_empty() {
    assert_eq!(split_code_identifier(""), "");
}

// ── Debouncer; the callers pass the clock in as milliseconds ──

#[test]
fn test_empty_debouncer() {
    let debouncer = Debouncer::new();
    assert!(!debouncer.has_pending());
    assert!(debouncer.time_until_flush(0).is_none());
    assert!(!debouncer.is_ready(0));
}

#[test]
fn test_record_single_event() {
    let mut debouncer = Debouncer::new();
    debouncer.record("/repo", "src/main.rs", FileChangeKind::Modified, 0);

    assert!(debouncer.has_pending());
    assert!(debouncer.time_until_flush(0).is_some());
    // Not ready immediately: the debounce window is two seconds.
    assert!(!debouncer.is_ready(0));
}

fn pending_for<'a>(
    debouncer: &'a Debouncer,
    repo: &str,
) -> Option<&'a Vec<(String, FileChangeKind)>> {
    debouncer.pending.iter().find(|e| e.0 == repo).map(|e| &e.1)
}

#[test]
fn test_multiple_events_same_file() {
    let mut debouncer = Debouncer::new();
    debouncer.record("/repo", "src/main.rs", FileChangeKind::Modified, 0);
    debouncer.record("/repo", "src/main.rs", FileChangeKind::Deleted, 1);

    let pending = pending_for(&debouncer, "/repo").unwrap();
    assert_eq!(pending.len(), 1);
    assert_eq!(pending[0].1, FileChangeKind::Deleted);
}

#[test]
fn test_multiple_files_same_repo() {
    let mut debouncer = Debouncer::new();
    debouncer.record("/repo", "src/a.rs", FileChangeKind::Modified, 0);
    debouncer.record("/repo", "src/b.rs", FileChangeKind::Modified, 1);

    let pending = pending_for(&debouncer, "/repo").unwrap();
    assert_eq!(pending.len(), 2);
}

#[test]
fn test_multiple_repos() {
    let mut debouncer = Debouncer::new();
    debouncer.record("/repo1", "a.rs", FileChangeKind::Modified, 0);
    debouncer.record("/repo2", "b.rs", FileChangeKind::Deleted, 1);

    assert_eq!(debouncer.pending.len(), 2);
}

#[test]
fn test_flush_clears_pending() {
    let mut debouncer = Debouncer::new();
    debouncer.record("/repo", "a.rs", FileChangeKind::Modified, 0);

    let flushed = debouncer.flush();
    assert_eq!(flushed.len(), 1);
    assert_eq!(flushed[0].0, "/repo");
    assert!(flushed[0].1.iter().any(|e| e.0 == "a.rs"));

    assert!(!debouncer.has_pending());
    assert!(debouncer.time_until_flush(5).is_none());
}

#[test]
fn test_ready_after_delay() {
    let mut debouncer = Debouncer::new();
    debouncer.record("/repo", "a.rs", FileChangeKind::Modified, 0);
    // One millisecond past the debounce window.
    assert!(debouncer.is_ready(2001));
    assert_eq!(debouncer.time_until_flush(2001), Some(0));
}

#[test]
fn test_timer_resets_on_new_event() {
    let mut debouncer = Debouncer::new();
    debouncer.record("/repo", "a.rs", FileChangeKind::Modified, 0);
    // Almost ready; a new event resets the timer.
    debouncer.record("/repo", "b.rs", FileChangeKind::Modified, 1900);
    assert!(!debouncer.is_ready(1900));

    let until = debouncer.time_until_flush(1900).unwrap();
    // Close to the full window again.
    assert!(until > 1000);
}

#[test]
fn test_mixed_change_kinds_in_flush() {
    let mut debouncer = Debouncer::new();
    debouncer.record("/repo", "src/new.rs", FileChangeKind::Modified, 0);
    debouncer.record("/repo", "src/old.rs", FileChangeKind::Deleted, 1);
    debouncer.record("/repo", "src/changed.rs", FileChangeKind::Modified, 2);

    let flushed = debouncer.flush();
    let changes = &flushed[0].1;
    let kind_of = |p: &str| changes.iter().find(|e| e.0 == p).map(|e| e.1).unwrap();
    assert_eq!(kind_of("src/new.rs"), FileChangeKind::Modified);
    assert_eq!(kind_of("src/old.rs"), FileChangeKind::Deleted);
    assert_eq!(kind_of("src/changed.rs"), FileChangeKind::Modified);
}

#[test]
fn test_real_timing() {
    let mut debouncer = Debouncer::new();
    debouncer.record("/repo", "a.rs", FileChangeKind::Modified, 0);
    assert!(!debouncer.is_ready(0));
    // Past the debounce window.
    assert!(debouncer.is_ready(3000));
}

// ── Configuration ──

#[test]
fn test_default_config() {
    let config = Config::default();
    assert_eq!(config.search.max_results, 20);
    assert_eq!(config.indexer.max_file_size, 1_048_576);
    assert_eq!(config.output.truncate_signatures, 120);
}

#[test]
fn config_cache_returns_cached_value() {
    let mut cache = ConfigCache::new();
    let mut first = Config::default();
    first.search.max_results = 7;
    let got = cache.get("/repo", first);
    assert_eq!(got.search.max_results, 7);

    let mut second = Config::default();
    second.search.max_results = 99;
    // The cached value wins over a newly loaded one.
    let again = cache.get("/repo", second);
    assert_eq!(again.search.max_results, 7);
}

// ── Token budget ──

#[test]
fn test_fits_within_budget() {
    let budget = TokenBudget::from_tokens(100);
    assert!(budget.fits("short text"));
    assert!(!budget.fits(&"x".repeat(500)));
}

// ── Path deduplication ──

#[test]
fn test_path_index_deduplication() {
    let mut pi = PathIndex::new();
    assert_eq!(pi.index("src/a.rs"), 0);
    assert_eq!(pi.index("src/b.rs"), 1);
    assert_eq!(pi.index("src/a.rs"), 0);
    assert_eq!(pi.len(), 2);
}

// ── Hashing ──

#[test]
fn hash_of_empty_input() {
    assert_eq!(
        hash_bytes(b""),
        "e3b0c44298fc1c149afbf4c8996fb92427ae41e4649b934ca495991b7852b855"
    );
}

#[test]
fn hash_distinguishes_content() {
    assert_ne!(hash_bytes(b"a"), hash_bytes(b"b"));
    assert_eq!(hash_bytes(b"abc").len(), 64);
}

// ── Filters ──

#[test]
fn ignore_pattern_shapes() {
    let pats = vec!["*.min.js".to_string(), "generated/".to_string(), "notes.md".to_string()];
    assert!(matches_ignore_pattern("lib/app.min.js", &pats));
    assert!(matches_ignore_pattern("generated/x.ts", &pats));
    assert!(matches_ignore_pattern("src/generated/x.ts", &pats));
    assert!(matches_ignore_pattern("notes.md", &pats));
    assert!(matches_ignore_pattern("docs/notes.md", &pats));
    assert!(!matches_ignore_pattern("src/app.ts", &pats));
}

#[test]
fn builtin_ignores() {
    assert!(is_ignored_component("node_modules"));
    assert!(is_ignored_component(".git"));
    assert!(!is_ignored_component("src"));
    assert!(is_ignored_suffix("bundle.min.js"));
    assert!(is_ignored_suffix("style.min.css"));
    assert!(!is_ignored_suffix("bundle.js"));
}

#[test]
fn language_tags() {
    assert_eq!(detect_language("ts"), Some("typescript"));
    assert_eq!(detect_language("py"), Some("python"));
    assert_eq!(detect_language("rs"), Some("rust"));
    assert_eq!(detect_language("rb"), None);
    assert_eq!(detect_language("md"), None);
}

// ── Auto-index helpers ──

#[test]
fn test_has_index_db_nonexistent() {
    assert!(
        !has_index_db("/nonexistent/repo/path/abc123"),
        "has_index_db should return false for non-existent repo"
    );
}

#[test]
fn db_stem_is_short_hash() {
    let stem = db_file_stem("/some/repo");
    assert_eq!(stem.len(), 16);
    assert!(stem.chars().all(|c| c.is_ascii_hexdigit()));
}

#[test]
fn done_mentions_done() {
    assert!(done().contains("done"));
}

// ── Indexing tracker ──

#[test]
fn tracker_one_run_per_repo() {
    let mut tracker = ctxhelpr::tracker::IndexingTracker::new();
    assert!(!tracker.is_indexing("/repo"));

    assert!(tracker.start_indexing("/repo"));
    assert!(tracker.is_indexing("/repo"));
    // A second claim is refused while the first run is active.
    assert!(!tracker.start_indexing("/repo"));
    // A different repository is independent.
    assert!(tracker.start_indexing("/other"));

    tracker.complete("/repo");
    assert!(!tracker.is_indexing("/repo"));
    // After completion the repository can be claimed again.
    assert!(tracker.start_indexing("/repo"));
}
