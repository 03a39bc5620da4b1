use papyro::platform::{
    app_data_dir, dialog_error_context, normalize_filters, open_external_url_with,
    open_file_request, reveal_path_with, save_file_request, validate_external_url,
    ExternalUrlError, OpenLinkError,
};
use std::cell::RefCell;
use std::path::PathBuf;

#[test]
fn app_data_dir_uses_system_base_when_available() {
    let dir = app_data_dir(Some("base".to_string()));

    assert_eq!(PathBuf::from(dir), PathBuf::from("base").join("papyro"));
}

#[test]
fn app_data_dir_falls_back_to_current_directory() {
    let dir = app_data_dir(None);

    assert_eq!(PathBuf::from(dir), PathBuf::from(".").join("papyro"));
}

#[test]
fn open_external_url_with_accepts_web_and_mail_links() {
    let opened = RefCell::new(Vec::new());

    for url in [
        "https://example.test/doc",
        "HTTP://example.test/doc",
        "mailto:hello@example.test",
    ] {
        open_external_url_with(url, |url| {
            opened.borrow_mut().push(url.to_string());
            Ok(())
        })
        .expect("external URL opens");
    }

    assert_eq!(
        opened.into_inner(),
        vec![
            "https://example.test/doc".to_string(),
            "HTTP://example.test/doc".to_string(),
            "mailto:hello@example.test".to_string(),
        ]
    );
}

#[test]
fn open_external_url_with_rejects_relative_and_script_links() {
    for url in [
        "notes/a.md",
        "#heading",
        "javascript:alert(1)",
        "file:///tmp/a.md",
    ] {
        let error = open_external_url_with(url, |_| {
            panic!("invalid link must not reach platform opener")
        })
        .expect_err("invalid external URL is rejected");

        assert!(error
            .message()
            .contains("external http, https, or mailto URL"));
    }
}

#[test]
fn open_external_url_with_rejects_whitespace_and_control_characters() {
    for url in ["https://example.test/a b", "https://example.test/\nnext"] {
        let error = open_external_url_with(url, |_| {
            panic!("invalid link must not reach platform opener")
        })
        .expect_err("invalid external URL is rejected");

        assert!(error
            .message()
            .contains("whitespace or control characters"));
    }
}

#[test]
fn open_external_url_with_adds_target_context_to_errors() {
    let error = open_external_url_with("https://example.test/doc", |_| {
        Err("platform opener failed".to_string())
    })
    .expect_err("platform open failure is reported");

    let message = error.message();
    assert!(message.contains("failed to open external URL https://example.test/doc"));
    assert!(message.contains("platform opener failed"));
}

#[test]
fn reveal_path_with_forwards_target_path() {
    let seen = RefCell::new(None);
    let target = "workspace/note.md";

    reveal_path_with(target, |path| {
        *seen.borrow_mut() = Some(PathBuf::from(path));
        Ok(())
    })
    .expect("path reveal succeeds");

    assert_eq!(*seen.borrow(), Some(PathBuf::from("workspace/note.md")));
}

#[test]
fn reveal_path_with_adds_target_context_to_errors() {
    let error = reveal_path_with("workspace/missing.md", |_| {
        Err("platform open failed".to_string())
    })
    .expect_err("platform open failure is reported");

    let message = error.message();
    assert!(message.contains("failed to open workspace/missing.md"));
    assert!(message.contains("platform open failed"));
}

#[test]
fn validate_external_url_reports_each_error() {
    assert_eq!(validate_external_url("   "), Err(ExternalUrlError::Empty));
    assert_eq!(
        validate_external_url("https://a b"),
        Err(ExternalUrlError::WhitespaceOrControl)
    );
    assert_eq!(
        validate_external_url("ftp://example.test"),
        Err(ExternalUrlError::NotExternal)
    );
    assert_eq!(validate_external_url("no-scheme"), Err(ExternalUrlError::NotExternal));
    assert_eq!(
        validate_external_url("  MailTo:me@example.test  "),
        Ok("MailTo:me@example.test".to_string())
    );
    assert_eq!(ExternalUrlError::Empty.message(), "Preview link is empty");
    let invalid = open_external_url_with("", |_| Ok(())).expect_err("empty link");
    assert_eq!(invalid, OpenLinkError::Invalid(ExternalUrlError::Empty));
}

#[test]
fn opener_receives_the_trimmed_link() {
    let seen = RefCell::new(String::new());
    open_external_url_with("  https://example.test  ", |url| {
        *seen.borrow_mut() = url.to_string();
        Ok(())
    })
    .expect("opens");
    assert_eq!(seen.into_inner(), "https://example.test");
}

#[test]
fn dialog_requests_keep_titles_filters_and_defaults() {
    let filters: [(&str, &[&str]); 2] = [("Markdown", &["md", "markdown"]), ("All", &[])];
    let normalized = normalize_filters(&filters);
    assert_eq!(normalized.len(), 2);
    assert_eq!(normalized[0].name, "Markdown");
    assert_eq!(normalized[0].extensions, vec!["md".to_string(), "markdown".to_string()]);
    assert!(normalized[1].extensions.is_empty());
    let open = open_file_request("Open note", &filters);
    assert_eq!(open.title, "Open note");
    assert_eq!(open.filters, normalized);
    let save = save_file_request("Export", &filters, "note.html", Some("out".to_string()));
    assert_eq!(save.default_name, "note.html");
    assert_eq!(save.directory, Some("out".to_string()));
    assert_eq!(
        dialog_error_context("folder", "Choose workspace"),
        "failed to show folder dialog: Choose workspace"
    );
}
