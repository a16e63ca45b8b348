use skills_lint_core::cache::{cache_key, TokenCache, CACHE_VERSION};
use skills_lint_core::errors::LintError;
use skills_lint_core::tokenizer::count_tokens;

#[test]
fn test_cache_key_format() {
    let key = cache_key("hello", "cl100k_base");
    assert!(key.ends_with(":cl100k_base"));
    // 16 hex chars + colon + encoding name
    let parts: Vec<&str> = key.splitn(2, ':').collect();
    assert_eq!(parts[0].len(), 16);
    assert_eq!(parts[1], "cl100k_base");
}

#[test]
fn test_cache_hit() {
    let mut cache = TokenCache::new();
    let count1 = cache.count_tokens("Hello, world!", "cl100k_base").unwrap();
    assert!(cache.len() > 0);
    assert!(cache.is_dirty());
    let count2 = cache.count_tokens("Hello, world!", "cl100k_base").unwrap();
    assert_eq!(count1, count2);
}

#[test]
fn test_load_empty() {
    let cache = TokenCache::load_from(None);
    // Should not panic, just return empty
    assert!(!cache.is_dirty());
}

#[test]
fn cache_key_is_hash_prefix_colon_encoding() {
    assert_eq!(cache_key("hello", "cl100k_base"), "2cf24dba5fb0a30e:cl100k_base");
    assert_eq!(cache_key("", "o200k_base"), "e3b0c44298fc1c14:o200k_base");
    assert_eq!(cache_key("héllo", "x"), cache_key("héllo", "x"));
    assert_ne!(cache_key("hello", "x"), cache_key("hellp", "x"));
}

#[test]
fn one_text_has_different_keys_under_different_encodings() {
    assert_ne!(cache_key("hello", "cl100k_base"), cache_key("hello", "o200k_base"));
    let mut cache = TokenCache::new();
    cache.count_tokens("Hello, world!", "cl100k_base").unwrap();
    cache.count_tokens("Hello, world!", "o200k_base").unwrap();
    assert_eq!(cache.len(), 2);
}

#[test]
fn cached_count_is_returned_without_recomputation() {
    let key = cache_key("Hello, world!", "cl100k_base");
    let mut cache = TokenCache::from_persisted(CACHE_VERSION, vec![(key.clone(), 999)]);
    assert_eq!(cache.count_tokens("Hello, world!", "cl100k_base").unwrap(), 999);
    assert!(!cache.is_dirty());
    assert_eq!(cache.len(), 1);
    assert_eq!(cache.get(&key), Some(999));
}

#[test]
fn cached_count_is_returned_even_under_an_unknown_encoding() {
    let key = cache_key("text", "made_up");
    let mut cache = TokenCache::from_persisted(CACHE_VERSION, vec![(key, 5)]);
    assert_eq!(cache.count_tokens("text", "made_up").unwrap(), 5);
    assert!(cache.count_tokens("other text", "made_up").is_err());
}

#[test]
fn miss_computes_stores_and_marks_dirty() {
    let mut cache = TokenCache::new();
    assert_eq!(cache.len(), 0);
    assert!(!cache.is_dirty());
    let expected = count_tokens("Hello, world!", "cl100k_base").unwrap();
    assert_eq!(cache.count_tokens("Hello, world!", "cl100k_base").unwrap(), expected);
    assert!(cache.is_dirty());
    assert_eq!(cache.get(&cache_key("Hello, world!", "cl100k_base")), Some(expected));
}

#[test]
fn failed_count_leaves_the_cache_as_it_was() {
    let mut cache = TokenCache::new();
    match cache.count_tokens("text", "made_up") {
        Err(LintError::UnknownEncoding(name)) => assert_eq!(name, "made_up"),
        other => panic!("unexpected result: {:?}", other),
    }
    assert!(!cache.is_dirty());
    assert_eq!(cache.len(), 0);
}

#[test]
fn other_version_loads_as_empty() {
    let cache = TokenCache::from_persisted(2, vec![("k".to_string(), 1)]);
    assert_eq!(cache.len(), 0);
    assert_eq!(cache.get("k"), None);
    assert!(!cache.is_dirty());
    let cache = TokenCache::from_persisted(0, vec![("k".to_string(), 1)]);
    assert_eq!(cache.len(), 0);
}

#[test]
fn loaded_entries_are_kept_and_later_duplicates_win() {
    let cache = TokenCache::from_persisted(
        1,
        vec![("b".to_string(), 1), ("a".to_string(), 2), ("b".to_string(), 3)],
    );
    assert_eq!(cache.len(), 2);
    assert_eq!(cache.get("a"), Some(2));
    assert_eq!(cache.get("b"), Some(3));
}

#[test]
fn only_a_dirty_cache_is_persisted() {
    let mut cache = TokenCache::from_persisted(1, vec![("zz".to_string(), 1)]);
    assert!(cache.to_persist().is_none());
    let n = cache.count_tokens("Hello, world!", "cl100k_base").unwrap();
    let entries = cache.to_persist().unwrap();
    assert_eq!(
        entries,
        vec![(cache_key("Hello, world!", "cl100k_base"), n), ("zz".to_string(), 1)]
    );
}

#[test]
fn cache_document_is_read() {
    let text = "{\"v\": 1, \"entries\": {\"b:x\": 3, \"a:x\": 4}, \"extra\": null}";
    let cache = TokenCache::load_from(Some(text));
    assert_eq!(cache.len(), 2);
    assert_eq!(cache.get("a:x"), Some(4));
    assert_eq!(cache.get("b:x"), Some(3));
    assert_eq!(cache.get("c:x"), None);
    assert!(!cache.is_dirty());
    assert_eq!(TokenCache::load_from(Some("{\"v\":1,\"entries\":{}}")).len(), 0);
}

#[test]
fn anything_but_a_cache_document_loads_as_empty() {
    let broken = [
        "",
        "not json",
        "[]",
        "7",
        "{}",
        "{\"entries\": {\"k\": 1}}",
        "{\"v\": 2, \"entries\": {\"k\": 1}}",
        "{\"v\": \"1\", \"entries\": {\"k\": 1}}",
        "{\"v\": 1.0, \"entries\": {\"k\": 1}}",
        "{\"v\": -1, \"entries\": {\"k\": 1}}",
        "{\"v\": 1}",
        "{\"v\": 1, \"entries\": [1]}",
        "{\"v\": 1, \"entries\": {\"k\": 1, \"l\": \"2\"}}",
        "{\"v\": 1, \"entries\": {\"k\": 1, \"l\": -2}}",
        "{\"v\": 1, \"entries\": {\"k\": 1, \"l\": 2.5}}",
        "{\"v\": 1, \"entries\": {\"k\": null}}",
        "{\"v\": 1, \"entries\": {\"k\": 1}",
    ];
    for text in broken {
        let cache = TokenCache::load_from(Some(text));
        assert_eq!(cache.len(), 0);
        assert!(!cache.is_dirty());
    }
    assert_eq!(TokenCache::load_from(None).len(), 0);
}

#[test]
fn clean_cache_has_nothing_to_write() {
    assert_eq!(TokenCache::new().persisted_text(), None);
    assert_eq!(TokenCache::load_from(Some("{\"v\":1,\"entries\":{\"k\":1}}")).persisted_text(), None);
}

#[test]
fn dirty_cache_is_written_as_a_versioned_document() {
    let mut cache = TokenCache::load_from(Some("{\"v\":1,\"entries\":{\"zz\":1}}"));
    let n = cache.count_tokens("Hello, world!", "cl100k_base").unwrap();
    assert_eq!(n, 4);
    let expected = format!(
        "{{\n  \"entries\": {{\n    \"{}\": 4,\n    \"zz\": 1\n  }},\n  \"v\": 1\n}}\n",
        cache_key("Hello, world!", "cl100k_base")
    );
    let text = cache.persisted_text().unwrap();
    assert_eq!(text, expected);
    let again = TokenCache::load_from(Some(&text));
    assert_eq!(again.len(), 2);
    assert_eq!(again.get("zz"), Some(1));
    assert_eq!(again.get(&cache_key("Hello, world!", "cl100k_base")), Some(4));
}

#[test]
fn cache_key_starts_with_sixteen_hex_digits() {
    for (text, encoding) in [("", ""), ("héllo wörld", "o200k_base"), ("a:b", "x:y")] {
        let key = cache_key(text, encoding);
        assert_eq!(key.chars().count(), 17 + encoding.chars().count());
        assert!(key.chars().take(16).all(|c| matches!(c, '0'..='9' | 'a'..='f')));
        assert_eq!(key.chars().nth(16), Some(':'));
        assert_eq!(key.chars().skip(17).collect::<String>(), encoding);
    }
}
