use papyro::preview::{
    encode_file_url_path, file_url, is_rewritable_relative_url, local_preview_image_url,
    normalize_lexical, preview_failed, preview_notice, preview_notice_tone, preview_pending,
    split_url_path_suffix, CachedPreview, CachedPreviewStatus, PreviewPolicy,
};
use papyro::doc_cache::{resolve_derived, DerivedState, DocumentCache, DocumentCacheKey};
use papyro::models::AppLanguage;
use papyro::primitives::InlineAlertTone;

fn small_policy(byte_len: usize) -> PreviewPolicy {
    PreviewPolicy { byte_len, code_highlighting_enabled: true, live_preview_enabled: true }
}

#[test]
fn local_preview_image_url_resolves_workspace_relative_image() {
    let workspace = "/workspace";
    let note_path = "/workspace/notes/daily/note.md";
    let url = local_preview_image_url("../../assets/pasted image.png", workspace, note_path)
        .expect("local image url");

    assert!(url.starts_with("file://"));
    assert!(url.contains("/workspace/assets/pasted%20image.png"));
    assert_eq!(
        local_preview_image_url("../../../outside.png", workspace, note_path),
        None
    );
    assert_eq!(
        local_preview_image_url("https://example.test/a.png", workspace, note_path),
        None
    );
}

#[test]
fn local_preview_image_url_exact_values() {
    let workspace = "/workspace";
    let note_path = "/workspace/notes/note.md";
    assert_eq!(
        local_preview_image_url("  ../assets/a b.png?raw=1#top ", workspace, note_path),
        Some("file:///workspace/assets/a%20b.png".to_string())
    );
    assert_eq!(
        local_preview_image_url("./img/./x.png", workspace, note_path),
        Some("file:///workspace/notes/img/x.png".to_string())
    );
    assert_eq!(local_preview_image_url("", workspace, note_path), None);
    assert_eq!(local_preview_image_url("/etc/passwd", workspace, note_path), None);
    assert_eq!(local_preview_image_url("#anchor", workspace, note_path), None);
    assert_eq!(local_preview_image_url("?x", workspace, note_path), None);
    assert_eq!(local_preview_image_url("mailto:me", workspace, note_path), None);
    // A colon after the first segment is part of a file name.
    assert_eq!(
        local_preview_image_url("dir/a:b.png", workspace, note_path),
        Some("file:///workspace/notes/dir/a:b.png".to_string())
    );
    // The workspace path itself is normalized before the comparison.
    assert_eq!(
        local_preview_image_url("x.png", "/workspace/notes/..", note_path),
        Some("file:///workspace/notes/x.png".to_string())
    );
    assert_eq!(local_preview_image_url("x.png", "/other", note_path), None);
}

#[test]
fn url_parts_split_at_query_or_fragment() {
    assert_eq!(
        split_url_path_suffix("a/b.png?x#y"),
        ("a/b.png".to_string(), "?x#y".to_string())
    );
    assert_eq!(split_url_path_suffix("a.png"), ("a.png".to_string(), String::new()));
    assert_eq!(split_url_path_suffix("#f"), (String::new(), "#f".to_string()));
    assert!(is_rewritable_relative_url("images/a.png"));
    assert!(is_rewritable_relative_url("a\\b:c"));
    assert!(!is_rewritable_relative_url("c:/x.png"));
    assert!(!is_rewritable_relative_url("data:image/png;base64,AAAA"));
    assert!(!is_rewritable_relative_url(""));
}

#[test]
fn normalize_lexical_resolves_dots() {
    assert_eq!(normalize_lexical("/a/b/../c/./d"), "/a/c/d");
    assert_eq!(normalize_lexical("../x"), "x");
    assert_eq!(normalize_lexical("/.."), "/");
    assert_eq!(normalize_lexical("a//b/"), "a/b");
    assert_eq!(normalize_lexical(""), "");
    let once = normalize_lexical("./p/../q/r/..");
    assert_eq!(once, "q");
    assert_eq!(normalize_lexical(&once), once);
}

#[test]
fn file_urls_escape_reserved_characters() {
    assert_eq!(encode_file_url_path("a b\"#%?<>c"), "a%20b%22%23%25%3F%3C%3Ec");
    assert_eq!(file_url("/w/a b.png"), "file:///w/a%20b.png");
    assert_eq!(file_url("C:\\w\\x.png"), "file://C:/w/x.png");
}

#[test]
fn preview_notice_reports_pending_and_failed_render() {
    let content = "# Current";
    let pending = preview_pending(small_policy(content.len()));
    let failed = preview_failed(small_policy(content.len()));

    assert_eq!(
        preview_notice(AppLanguage::English, &pending),
        Some("Rendering preview...")
    );
    assert_eq!(
        preview_notice(AppLanguage::English, &failed),
        Some("Preview could not be rendered.")
    );
    assert_eq!(failed.policy.byte_len, content.len());
}

#[test]
fn preview_notice_reports_large_document_modes() {
    let ready = |live: bool, code: bool| CachedPreview {
        html: String::new(),
        policy: PreviewPolicy { byte_len: 10, code_highlighting_enabled: code, live_preview_enabled: live },
        status: CachedPreviewStatus::Ready,
    };
    assert_eq!(preview_notice(AppLanguage::English, &ready(true, true)), None);
    assert_eq!(
        preview_notice(AppLanguage::English, &ready(false, false)),
        Some("Large document mode keeps editing responsive by pausing live preview.")
    );
    assert_eq!(
        preview_notice(AppLanguage::Chinese, &ready(true, false)),
        Some("大文档模式会关闭代码高亮，以保持编辑流畅。")
    );
    assert_eq!(preview_notice_tone(&ready(true, true)), InlineAlertTone::Attention);
    assert_eq!(preview_notice_tone(&preview_failed(small_policy(0))), InlineAlertTone::Danger);
    assert_eq!(preview_notice_tone(&preview_pending(small_policy(0))), InlineAlertTone::Neutral);
}

#[test]
fn resolve_preview_ignores_stale_render_state() {
    let document_cache: DocumentCache<CachedPreview> = DocumentCache::new();
    let content = "# Current";
    let key = DocumentCacheKey::new("a", 1);
    let stale_key = DocumentCacheKey::new("a", 0);
    let state = DerivedState {
        key: Some(stale_key),
        value: CachedPreview {
            html: "<h1>Old</h1>".to_string(),
            policy: small_policy("# Old".len()),
            status: CachedPreviewStatus::Ready,
        },
    };

    let preview = resolve_derived(&document_cache, Some(&key), Some(&state))
        .cloned()
        .unwrap_or_else(|| preview_pending(small_policy(content.len())));

    assert_eq!(preview.html, "");
    assert_eq!(preview.policy.byte_len, content.len());
}

#[test]
fn resolve_preview_prefers_cached_document_match() {
    let mut document_cache: DocumentCache<CachedPreview> = DocumentCache::new();
    let content = "# Current";
    let key = DocumentCacheKey::new("a", 1);
    document_cache.insert_bounded(
        key.clone(),
        CachedPreview {
            html: "<h1>Current</h1>".to_string(),
            policy: small_policy(content.len()),
            status: CachedPreviewStatus::Ready,
        },
    );

    let preview = resolve_derived(&document_cache, Some(&key), None)
        .cloned()
        .unwrap_or_else(|| preview_pending(small_policy(content.len())));

    assert_eq!(preview.html, "<h1>Current</h1>");
}
