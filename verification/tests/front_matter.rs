use papyro::front_matter::{
    extract_front_matter_tags, load_yaml_tags, tags_from_yaml, within_yaml_nesting_limit, YamlTags,
    MAX_YAML_NESTING,
};

#[test]
fn extracts_sequence_tags_from_front_matter() {
    let markdown = "---\ntags:\n  - rust\n  - search\n---\n# Note";

    assert_eq!(
        extract_front_matter_tags(markdown),
        vec!["rust".to_string(), "search".to_string()]
    );
}

#[test]
fn extracts_inline_string_tags() {
    let markdown = "---\ntags: \"#rust, search notes\"\n---\n# Note";

    assert_eq!(
        extract_front_matter_tags(markdown),
        vec![
            "rust".to_string(),
            "search".to_string(),
            "notes".to_string()
        ]
    );
}

#[test]
fn ignores_missing_invalid_and_duplicate_tags() {
    assert!(extract_front_matter_tags("# No front matter").is_empty());
    assert!(extract_front_matter_tags("---\ntags: [\n---\n# Bad").is_empty());

    let markdown = "---\ntags:\n  - Rust\n  - rust\n  - \"\"\n---\n# Note";
    assert_eq!(
        extract_front_matter_tags(markdown),
        vec!["Rust".to_string()]
    );
}

#[test]
fn yaml_tags_are_read_by_shape() {
    assert_eq!(load_yaml_tags("title: x"), YamlTags::Absent);
    assert_eq!(load_yaml_tags("tags: a, b"), YamlTags::Text("a, b".to_string()));
    assert_eq!(
        load_yaml_tags("tags:\n  - one\n  - 2\n"),
        YamlTags::Items(vec![Some("one".to_string()), None])
    );
    assert_eq!(
        tags_from_yaml(&YamlTags::Items(vec![Some(" #A ".to_string()), Some("a".to_string()), None])),
        vec!["A".to_string()]
    );
    assert_eq!(
        extract_front_matter_tags("---\r\ntags: [one, \"#two\", One]\r\n---\r\nbody"),
        vec!["one".to_string(), "two".to_string()]
    );
}

#[test]
fn nesting_limit_bounds_collection_depth() {
    assert!(within_yaml_nesting_limit("tags: [a, b]\n- c\n? d\n{e}"));
    assert!(within_yaml_nesting_limit(&"-".repeat(MAX_YAML_NESTING)));
    assert!(within_yaml_nesting_limit(&"- a\n".repeat(MAX_YAML_NESTING + 100)));
    assert!(!within_yaml_nesting_limit(&format!("{}x", "- ".repeat(MAX_YAML_NESTING + 1))));
    assert!(!within_yaml_nesting_limit(&format!("x: *a\n{}", "- b\n".repeat(MAX_YAML_NESTING + 1))));
    assert!(!within_yaml_nesting_limit(&"[".repeat(MAX_YAML_NESTING + 1)));
    assert!(within_yaml_nesting_limit(&"x".repeat(5000)));
}

#[test]
fn long_lists_and_many_dated_keys_are_read() {
    let list = format!("tags:\n{}", "  - a\n".repeat(400));
    assert_eq!(load_yaml_tags(&list), YamlTags::Items(vec![Some("a".to_string()); 400]));
    let mut dated = String::from("tags: [x]\n");
    for i in 0..100 {
        dated.push_str(&format!("d{}: 2024-01-01T10:00:00\n", i));
    }
    assert_eq!(load_yaml_tags(&dated), YamlTags::Items(vec![Some("x".to_string())]));
}

#[test]
fn nesting_up_to_the_limit_is_loaded() {
    let deep = format!("{}x", "- ".repeat(MAX_YAML_NESTING));
    assert_eq!(load_yaml_tags(&deep), YamlTags::Absent);
    let deep_tags = format!("tags: [a]\nnote:\n  {}x", "- ".repeat(MAX_YAML_NESTING - 3));
    assert_eq!(load_yaml_tags(&deep_tags), YamlTags::Items(vec![Some("a".to_string())]));
}

#[test]
fn front_matter_beyond_the_limit_gives_no_tags() {
    let deep = format!("{}x", "- ".repeat(100_000));
    assert_eq!(load_yaml_tags(&deep), YamlTags::Absent);
    let padded = format!("tags: [a]\n# {}", ":".repeat(MAX_YAML_NESTING));
    assert_eq!(load_yaml_tags(&padded), YamlTags::Absent);
    let markdown = format!("---\ntags: [a]\n# {}\n---\nbody", ":".repeat(MAX_YAML_NESTING));
    assert!(extract_front_matter_tags(&markdown).is_empty());
}
