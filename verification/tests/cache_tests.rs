use warp_matcher::fingerprint::{digest_bytes, Fingerprint, UnavailableRepresentation};
use warp_matcher::identity::{FunctionIdentity, PlatformIdentity, SessionIdentity, TypeIdentity};
use warp_matcher::load::{LoadError, LoadSignatureFile, ParseError};
use warp_matcher::matching::{match_function, MatchError};
use warp_matcher::platform::PlatformCache;
use warp_matcher::record::SignatureRecord;
use warp_matcher::session::{SessionCache, SessionCaches};
use warp_matcher::store::{Outcome, SignatureStore, TypeDefinition};

fn record(g: u64, symbol: &str) -> SignatureRecord {
    SignatureRecord::new(
        Fingerprint { value: g },
        symbol.to_string(),
        "int(void)".to_string(),
        Some("test".to_string()),
    )
}

fn store_of(records: Vec<SignatureRecord>) -> SignatureStore {
    SignatureStore::from_data(&records, &Vec::new())
}

fn g(value: u64) -> Fingerprint {
    Fingerprint { value }
}

fn session(value: u64) -> SessionIdentity {
    SessionIdentity { value }
}

fn function(value: u64) -> FunctionIdentity {
    FunctionIdentity { value }
}

#[test]
fn end_to_end_load_then_load_again() {
    let platform = PlatformIdentity::from_name("x86_64-default");
    let mut cache = PlatformCache::new();
    assert!(cache.is_empty());

    cache.load_and_merge(platform, SignatureStore::new(), store_of(vec![record(1, "r1")]));
    let cached = cache.get(platform).unwrap();
    assert_eq!(cached.lookup(g(1)), Outcome::Unique(record(1, "r1")));

    let second = store_of(vec![record(1, "r2"), record(2, "r3")]);
    cache.load_and_merge(platform, SignatureStore::new(), second);
    let cached = cache.get(platform).unwrap();
    assert_eq!(cached.lookup(g(1)), Outcome::Ambiguous(vec![record(1, "r1"), record(1, "r2")]));
    assert_eq!(cached.lookup(g(2)), Outcome::Unique(record(2, "r3")));
    assert_eq!(cached.lookup(g(3)), Outcome::NoMatch);
}

#[test]
fn load_on_unbuilt_platform_keeps_defaults() {
    let platform = PlatformIdentity::from_name("x86_64-default");
    let defaults = store_of(vec![record(10, "memcpy"), record(11, "memset")]);
    let mut cache = PlatformCache::new();
    cache.load_and_merge(platform, defaults, store_of(vec![record(10, "my_copy")]));
    let cached = cache.get(platform).unwrap();
    assert_eq!(
        cached.lookup(g(10)),
        Outcome::Ambiguous(vec![record(10, "memcpy"), record(10, "my_copy")])
    );
    assert_eq!(cached.lookup(g(11)), Outcome::Unique(record(11, "memset")));
}

#[test]
fn load_on_built_platform_ignores_new_defaults() {
    let platform = PlatformIdentity::from_name("x86_64-default");
    let mut cache = PlatformCache::new();
    cache.get_or_build(platform, store_of(vec![record(1, "r1")]));
    let merged = cache.load_and_merge(
        platform,
        store_of(vec![record(5, "other")]),
        store_of(vec![record(2, "r2")]),
    );
    assert_eq!(merged.lookup(g(2)), Outcome::Unique(record(2, "r2")));
    let cached = cache.get(platform).unwrap();
    assert_eq!(cached.lookup(g(1)), Outcome::Unique(record(1, "r1")));
    assert_eq!(cached.lookup(g(2)), Outcome::Unique(record(2, "r2")));
    assert_eq!(cached.lookup(g(5)), Outcome::NoMatch);
}

#[test]
fn get_or_build_builds_once() {
    let platform = PlatformIdentity::from_name("x86_64-default");
    let mut cache = PlatformCache::new();
    assert!(!cache.contains(platform));
    assert!(cache.get(platform).is_none());
    let built = cache.get_or_build(platform, store_of(vec![record(1, "r1")]));
    assert_eq!(built.lookup(g(1)), Outcome::Unique(record(1, "r1")));
    assert!(cache.contains(platform));
    let again = cache.get_or_build(platform, store_of(vec![record(2, "r2")]));
    assert_eq!(again.lookup(g(1)), Outcome::Unique(record(1, "r1")));
    assert_eq!(again.lookup(g(2)), Outcome::NoMatch);
    let cached = cache.get(platform).unwrap();
    assert_eq!(cached.lookup(g(1)), Outcome::Unique(record(1, "r1")));
    assert_eq!(cached.lookup(g(2)), Outcome::NoMatch);
}

#[test]
fn load_touches_one_platform_only() {
    let x86 = PlatformIdentity::from_name("x86_64-default");
    let arm = PlatformIdentity::from_name("aarch64-default");
    let mut cache = PlatformCache::new();
    cache.get_or_build(x86, store_of(vec![record(1, "r1")]));
    cache.get_or_build(arm, store_of(vec![record(1, "a1")]));
    cache.load_and_merge(x86, SignatureStore::new(), store_of(vec![record(1, "r2")]));
    assert_eq!(cache.get(arm).unwrap().lookup(g(1)), Outcome::Unique(record(1, "a1")));
    assert_eq!(
        cache.get(x86).unwrap().lookup(g(1)),
        Outcome::Ambiguous(vec![record(1, "r1"), record(1, "r2")])
    );
}

#[test]
fn invalidate_all_platforms_empties_the_cache() {
    let x86 = PlatformIdentity::from_name("x86_64-default");
    let arm = PlatformIdentity::from_name("aarch64-default");
    let mut cache = PlatformCache::new();
    cache.get_or_build(x86, SignatureStore::new());
    cache.get_or_build(arm, SignatureStore::new());
    assert!(!cache.is_empty());
    cache.invalidate_all();
    assert!(cache.is_empty());
    assert!(!cache.contains(x86));
    assert!(!cache.contains(arm));
}

#[test]
fn load_command_without_platform_fails() {
    let mut cache = PlatformCache::new();
    let result = LoadSignatureFile.action(
        &mut cache,
        None,
        SignatureStore::new(),
        Ok(store_of(vec![record(1, "r1")])),
    );
    assert_eq!(result, Err(LoadError::PlatformUnset));
    assert!(cache.is_empty());
}

#[test]
fn load_command_with_bad_payload_leaves_cache() {
    let platform = PlatformIdentity::from_name("x86_64-default");
    let mut cache = PlatformCache::new();
    cache.get_or_build(platform, store_of(vec![record(1, "r1")]));
    let result = LoadSignatureFile.action(
        &mut cache,
        Some(platform),
        store_of(vec![record(9, "unused")]),
        Err(ParseError),
    );
    assert_eq!(result, Err(LoadError::Parse));
    assert_eq!(cache.get(platform).unwrap().lookup(g(1)), Outcome::Unique(record(1, "r1")));
    assert_eq!(cache.get(platform).unwrap().lookup(g(9)), Outcome::NoMatch);
}

#[test]
fn load_command_merges_into_defaults() {
    let platform = PlatformIdentity::from_name("x86_64-default");
    let mut cache = PlatformCache::new();
    let result = LoadSignatureFile.action(
        &mut cache,
        Some(platform),
        store_of(vec![record(1, "default")]),
        Ok(store_of(vec![record(2, "loaded")])),
    );
    assert_eq!(result, Ok(()));
    assert!(LoadSignatureFile.valid());
    assert_eq!(cache.get(platform).unwrap().lookup(g(1)), Outcome::Unique(record(1, "default")));
    assert_eq!(cache.get(platform).unwrap().lookup(g(2)), Outcome::Unique(record(2, "loaded")));
}

#[test]
fn session_cache_get_and_replace() {
    let mut cache: SessionCache<u32> = SessionCache::new();
    assert_eq!(cache.get(session(1), function(1)), None);
    cache.insert(session(1), function(1), 10);
    cache.insert(session(1), function(2), 20);
    cache.insert(session(1), function(1), 11);
    assert_eq!(cache.get(session(1), function(1)), Some(&11));
    assert_eq!(cache.get(session(1), function(2)), Some(&20));
    assert_eq!(cache.get(session(2), function(1)), None);
}

#[test]
fn invalidate_removes_one_session_only() {
    let mut caches = SessionCaches::new();
    let a = session(1);
    let b = session(2);
    caches.fingerprints.insert(a, function(1), g(100));
    caches.fingerprints.insert(b, function(1), g(200));
    caches.fingerprints.insert(a, function(2), g(101));
    caches.signatures.insert(a, function(1), record(100, "in_a"));
    caches.signatures.insert(b, function(1), record(200, "in_b"));
    caches.outcomes.insert(a, function(1), Outcome::NoMatch);
    caches.outcomes.insert(b, function(1), Outcome::Unique(record(200, "in_b")));

    caches.invalidate(a);

    assert_eq!(caches.fingerprints.get(a, function(1)), None);
    assert_eq!(caches.fingerprints.get(a, function(2)), None);
    assert_eq!(caches.signatures.get(a, function(1)), None);
    assert_eq!(caches.outcomes.get(a, function(1)), None);
    assert_eq!(caches.fingerprints.get(b, function(1)), Some(&g(200)));
    assert_eq!(caches.signatures.get(b, function(1)), Some(&record(200, "in_b")));
    assert_eq!(caches.outcomes.get(b, function(1)), Some(&Outcome::Unique(record(200, "in_b"))));
}

#[test]
fn invalidate_twice_or_on_nothing_is_harmless() {
    let mut caches = SessionCaches::new();
    caches.invalidate(session(1));
    caches.fingerprints.insert(session(2), function(1), g(200));
    caches.invalidate(session(1));
    caches.invalidate(session(1));
    assert_eq!(caches.fingerprints.get(session(2), function(1)), Some(&g(200)));
}

#[test]
fn fingerprint_for_computes_then_remembers() {
    let mut caches = SessionCaches::new();
    let code: Vec<u8> = vec![0x90, 0xc3];
    let first = caches.fingerprint_for(session(1), function(1), Some(&code));
    assert_eq!(first, Ok(Fingerprint { value: digest_bytes(&code) }));
    let other: Vec<u8> = vec![0xcc];
    let second = caches.fingerprint_for(session(1), function(1), Some(&other));
    assert_eq!(second, first);
    let third = caches.fingerprint_for(session(1), function(1), None);
    assert_eq!(third, first);
    caches.invalidate(session(1));
    let fourth = caches.fingerprint_for(session(1), function(1), Some(&other));
    assert_eq!(fourth, Ok(Fingerprint { value: digest_bytes(&other) }));
}

#[test]
fn fingerprint_for_failure_is_local_and_not_cached() {
    let mut caches = SessionCaches::new();
    let failed = caches.fingerprint_for(session(1), function(1), None);
    assert_eq!(failed, Err(UnavailableRepresentation));
    assert_eq!(caches.fingerprints.get(session(1), function(1)), None);
    let code: Vec<u8> = vec![1, 2, 3];
    let next = caches.fingerprint_for(session(1), function(2), Some(&code));
    assert_eq!(next, Ok(Fingerprint { value: digest_bytes(&code) }));
    let retried = caches.fingerprint_for(session(1), function(1), Some(&code));
    assert_eq!(retried, Ok(Fingerprint { value: digest_bytes(&code) }));
}

#[test]
fn match_for_looks_up_then_remembers() {
    let mut caches = SessionCaches::new();
    let store = store_of(vec![record(1, "r1")]);
    let first = caches.match_for(&store, session(1), function(1), g(1));
    assert_eq!(first, Outcome::Unique(record(1, "r1")));
    assert_eq!(caches.outcomes.get(session(1), function(1)), Some(&Outcome::Unique(record(1, "r1"))));
    let bigger = store_of(vec![record(1, "r1"), record(1, "r2")]);
    let second = caches.match_for(&bigger, session(1), function(1), g(1));
    assert_eq!(second, Outcome::Unique(record(1, "r1")));
    caches.invalidate(session(1));
    let third = caches.match_for(&bigger, session(1), function(1), g(1));
    assert_eq!(third, Outcome::Ambiguous(vec![record(1, "r1"), record(1, "r2")]));
    let miss = caches.match_for(&bigger, session(1), function(2), g(7));
    assert_eq!(miss, Outcome::NoMatch);
}

#[test]
fn match_function_without_platform_fails_and_changes_nothing() {
    let mut platforms = PlatformCache::new();
    let mut caches = SessionCaches::new();
    let code: Vec<u8> = vec![1, 2, 3];
    let result = match_function(
        &mut platforms,
        &mut caches,
        None,
        store_of(vec![record(1, "r1")]),
        session(1),
        function(1),
        Some(&code),
    );
    assert_eq!(result, Err(MatchError::PlatformUnset));
    assert!(platforms.is_empty());
    assert_eq!(caches.fingerprints.get(session(1), function(1)), None);
    assert_eq!(caches.outcomes.get(session(1), function(1)), None);
}

#[test]
fn match_function_without_representation_fails_alone() {
    let platform = PlatformIdentity::from_name("x86_64-default");
    let mut platforms = PlatformCache::new();
    let mut caches = SessionCaches::new();
    let code: Vec<u8> = vec![1, 2, 3];
    let known = digest_bytes(&code);

    let failed = match_function(
        &mut platforms,
        &mut caches,
        Some(platform),
        store_of(vec![record(known, "r1")]),
        session(1),
        function(1),
        None,
    );
    assert_eq!(failed, Err(MatchError::UnavailableRepresentation));
    assert!(platforms.is_empty());
    assert_eq!(caches.outcomes.get(session(1), function(1)), None);

    let matched = match_function(
        &mut platforms,
        &mut caches,
        Some(platform),
        store_of(vec![record(known, "r1")]),
        session(1),
        function(2),
        Some(&code),
    );
    assert_eq!(matched, Ok(Outcome::Unique(record(known, "r1"))));
    assert!(platforms.contains(platform));
    assert_eq!(caches.fingerprints.get(session(1), function(2)), Some(&g(known)));
}

#[test]
fn match_function_reports_ambiguity_and_misses() {
    let platform = PlatformIdentity::from_name("x86_64-default");
    let mut platforms = PlatformCache::new();
    let mut caches = SessionCaches::new();
    let code: Vec<u8> = vec![0x55, 0xc3];
    let known = digest_bytes(&code);
    let defaults = store_of(vec![record(known, "r1"), record(known, "r2")]);

    let first = match_function(
        &mut platforms,
        &mut caches,
        Some(platform),
        defaults,
        session(1),
        function(1),
        Some(&code),
    );
    assert_eq!(first, Ok(Outcome::Ambiguous(vec![record(known, "r1"), record(known, "r2")])));

    let other: Vec<u8> = vec![0x90];
    let second = match_function(
        &mut platforms,
        &mut caches,
        Some(platform),
        SignatureStore::new(),
        session(1),
        function(2),
        Some(&other),
    );
    assert_eq!(second, Ok(Outcome::NoMatch));
    assert_eq!(caches.outcomes.session_len(session(1)), 2);
    assert_eq!(caches.fingerprints.session_len(session(1)), 2);
    assert_eq!(caches.signatures.session_len(session(1)), 0);
    assert_eq!(caches.outcomes.session_len(session(2)), 0);
}

#[test]
fn session_functions_are_listed_once() {
    let mut cache: SessionCache<u32> = SessionCache::new();
    cache.insert(session(1), function(1), 1);
    cache.insert(session(2), function(9), 2);
    cache.insert(session(1), function(2), 3);
    cache.insert(session(1), function(1), 4);
    assert_eq!(cache.functions_of(session(1)), vec![function(1), function(2)]);
    assert_eq!(cache.functions_of(session(2)), vec![function(9)]);
    assert_eq!(cache.session_len(session(1)), 2);
    assert_eq!(cache.session_len(session(3)), 0);
}

#[test]
fn store_counts_distinct_keys() {
    let store = SignatureStore::from_data(
        &vec![record(1, "r1"), record(1, "r2"), record(2, "r3")],
        &vec![
            (TypeIdentity { value: 1 }, TypeDefinition { name: "A".to_string(), definition: "a".to_string() }),
            (TypeIdentity { value: 1 }, TypeDefinition { name: "A".to_string(), definition: "b".to_string() }),
            (TypeIdentity { value: 2 }, TypeDefinition { name: "B".to_string(), definition: "c".to_string() }),
        ],
    );
    assert_eq!(store.fingerprints(), vec![g(1), g(2)]);
    assert_eq!(store.function_count(), 2);
    assert_eq!(store.type_identities(), vec![TypeIdentity { value: 1 }, TypeIdentity { value: 2 }]);
    assert_eq!(store.type_count(), 2);
    assert_eq!(SignatureStore::new().function_count(), 0);
    assert_eq!(SignatureStore::new().type_count(), 0);
}

#[test]
fn signature_for_extracts_then_remembers() {
    let mut caches = SessionCaches::new();
    let code: Vec<u8> = vec![0x55, 0xc3];
    let known = digest_bytes(&code);
    let first = caches.signature_for(
        session(1),
        function(1),
        Some(&code),
        "main".to_string(),
        "int(void)".to_string(),
    );
    let expected = SignatureRecord::new(
        g(known),
        "main".to_string(),
        "int(void)".to_string(),
        None,
    );
    assert_eq!(first, Ok(expected.clone()));
    assert_eq!(caches.fingerprints.get(session(1), function(1)), Some(&g(known)));
    assert_eq!(caches.signatures.get(session(1), function(1)), Some(&expected));

    let second = caches.signature_for(
        session(1),
        function(1),
        None,
        "renamed".to_string(),
        "void(void)".to_string(),
    );
    assert_eq!(second, Ok(expected));

    let failed = caches.signature_for(
        session(1),
        function(2),
        None,
        "other".to_string(),
        "void(void)".to_string(),
    );
    assert_eq!(failed, Err(UnavailableRepresentation));
    assert_eq!(caches.signatures.get(session(1), function(2)), None);
    assert_eq!(caches.fingerprints.get(session(1), function(2)), None);
}
