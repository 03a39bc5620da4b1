use papyro::doc_cache::{DocumentCache, DocumentCacheKey, MAX_CACHE_ENTRIES};

#[test]
fn cache_key_tracks_document_revision() {
    let a = DocumentCacheKey::new("tab-a", 1);
    let b = DocumentCacheKey::new("tab-a", 2);
    let c = DocumentCacheKey::new("tab-a", 1);
    assert!(!a.same_as(&b));
    assert!(a.same_as(&c));
    assert!(!a.same_as(&DocumentCacheKey::new("tab-b", 1)));
}

#[test]
fn cache_returns_what_was_inserted_and_replaces_values() {
    let mut cache: DocumentCache<String> = DocumentCache::new();
    assert_eq!(cache.get(&DocumentCacheKey::new("a", 1)), None);
    cache.insert_bounded(DocumentCacheKey::new("a", 1), "one".to_string());
    cache.insert_bounded(DocumentCacheKey::new("a", 2), "two".to_string());
    assert_eq!(cache.get(&DocumentCacheKey::new("a", 1)), Some(&"one".to_string()));
    assert_eq!(cache.get(&DocumentCacheKey::new("a", 2)), Some(&"two".to_string()));
    cache.insert_bounded(DocumentCacheKey::new("a", 1), "uno".to_string());
    assert_eq!(cache.get(&DocumentCacheKey::new("a", 1)), Some(&"uno".to_string()));
    assert_eq!(cache.len(), 2);
}

#[test]
fn cache_stays_bounded_and_drops_the_oldest_entry() {
    let mut cache: DocumentCache<usize> = DocumentCache::new();
    for i in 0..(MAX_CACHE_ENTRIES as u64 + 5) {
        cache.insert_bounded(DocumentCacheKey::new("tab", i), i as usize);
        assert!(cache.len() <= MAX_CACHE_ENTRIES);
    }
    assert_eq!(cache.len(), MAX_CACHE_ENTRIES);
    assert_eq!(cache.get(&DocumentCacheKey::new("tab", 0)), None);
    assert_eq!(cache.get(&DocumentCacheKey::new("tab", 4)), None);
    assert_eq!(cache.get(&DocumentCacheKey::new("tab", 5)), Some(&5));
    assert_eq!(cache.get(&DocumentCacheKey::new("tab", 28)), Some(&28));
    // Replacing an entry of a full cache drops nothing.
    cache.insert_bounded(DocumentCacheKey::new("tab", 5), 500);
    assert_eq!(cache.len(), MAX_CACHE_ENTRIES);
    assert_eq!(cache.get(&DocumentCacheKey::new("tab", 6)), Some(&6));
}

use papyro::doc_cache::{derived_state_matches, resolve_derived, DerivedState};

#[test]
fn cache_key_ignores_content_handle_when_revision_matches() {
    // Two snapshots of tab "a" at revision 1, whatever their content.
    let first = DocumentCacheKey::new("a", 1);
    let next = DocumentCacheKey::new("a", 1);
    assert!(first.same_as(&next));
}

#[test]
fn resolve_outline_ignores_stale_render_state() {
    let document_cache: DocumentCache<Vec<String>> = DocumentCache::new();
    let key = DocumentCacheKey::new("a", 1);
    let stale_key = DocumentCacheKey::new("a", 0);
    let state = DerivedState { key: Some(stale_key), value: vec!["Old".to_string()] };

    let outline = resolve_derived(&document_cache, Some(&key), Some(&state))
        .cloned()
        .unwrap_or_default();

    assert!(outline.is_empty());
}

#[test]
fn resolve_outline_prefers_cached_document_match() {
    let mut document_cache: DocumentCache<Vec<String>> = DocumentCache::new();
    let key = DocumentCacheKey::new("a", 1);
    document_cache.insert_bounded(key.clone(), vec!["Current".to_string()]);

    let outline = resolve_derived(&document_cache, Some(&key), None)
        .cloned()
        .unwrap_or_default();

    assert_eq!(outline, vec!["Current".to_string()]);
}

#[test]
fn resolve_block_hints_rejects_stale_state() {
    let cache: DocumentCache<u64> = DocumentCache::new();
    let current_key = DocumentCacheKey::new("a", 2);
    let stale_key = DocumentCacheKey::new("a", 1);
    let state = DerivedState { key: Some(stale_key), value: 1u64 };

    assert_eq!(resolve_derived(&cache, Some(&current_key), Some(&state)), None);
}

#[test]
fn resolve_block_hints_prefers_cached_document_match() {
    let mut cache: DocumentCache<u64> = DocumentCache::new();
    let key = DocumentCacheKey::new("a", 2);
    cache.insert_bounded(key.clone(), 2);

    assert_eq!(resolve_derived(&cache, Some(&key), None), Some(&2));
}

#[test]
fn resolve_derived_uses_fresh_background_result() {
    let cache: DocumentCache<u64> = DocumentCache::new();
    let key = DocumentCacheKey::new("a", 2);
    let state = DerivedState { key: Some(DocumentCacheKey::new("a", 2)), value: 7u64 };
    assert_eq!(resolve_derived(&cache, Some(&key), Some(&state)), Some(&7));
    // The cached value wins over a background result of the same document.
    let mut cache = cache;
    cache.insert_bounded(key.clone(), 9);
    assert_eq!(resolve_derived(&cache, Some(&key), Some(&state)), Some(&9));
    // No document and a result of no document.
    let none_state = DerivedState { key: None, value: 3u64 };
    assert_eq!(resolve_derived(&cache, None, Some(&none_state)), Some(&3));
    assert_eq!(resolve_derived(&cache, None, Some(&state)), None);
}

#[test]
fn preview_result_matching_rejects_stale_completed_work() {
    let current_key = DocumentCacheKey::new("a", 2);
    let stale_key = DocumentCacheKey::new("a", 1);
    let state = DerivedState { key: Some(current_key.clone()), value: String::new() };

    assert!(derived_state_matches(Some(&state), &current_key));
    assert!(!derived_state_matches(Some(&state), &stale_key));
    assert!(!derived_state_matches::<String>(None, &current_key));
}

#[test]
fn cache_key_changes_when_saved_content_replace_advances_revision() {
    // Replacing a tab's saved content moves it from revision 1 to 2.
    let first = DocumentCacheKey::new("a", 1);
    let next = DocumentCacheKey::new("a", 2);
    assert!(!first.same_as(&next));
}

#[test]
fn cache_key_survives_tab_content_map_clones() {
    // A clone of the tab contents keeps the tab's revision.
    let first = DocumentCacheKey::new("a", 1);
    let next = first.clone();
    assert!(first.same_as(&next));
}
