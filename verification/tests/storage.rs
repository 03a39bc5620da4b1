use papyro::file_ops::{
    count_words, extract_title, moved_folder_path, moved_note_path, new_folder_path,
    new_note_content, new_note_path, renamed_folder_path, renamed_note_path, sanitize_filename,
    unique_folder_path, unique_path, unique_restore_path,
};
use papyro::paths::compare_std_paths;
use papyro::search::{query_tokens, search_note, sort_search_results, SearchField, SearchHighlight};
use papyro::text::{chars_of, to_char_vecs};
use papyro::tree::{
    attach_note_ids, flatten_notes, note_count, should_skip_entry, sort_nodes, stable_note_id,
    FileNode, FileNodeKind,
};
use papyro::workspace::{
    build_note_meta, char_count, free_trash_batch, loaded_workspace_status, new_workspace,
    note_id_update, recent_workspaces_with_current, relative_path_in, stale_cutoff_ms, tag_id,
    trash_batch_dir, trash_destination, trashed_note_location, workspace_settings_key,
    workspace_tree_state_key, Workspace,
};

fn on_disk(path: &str) -> bool {
    std::path::Path::new(path).exists()
}

fn workspace(root: &str) -> Workspace {
    Workspace {
        id: "ws".to_string(),
        name: "Workspace".to_string(),
        path: root.to_string(),
        created_at: 7,
        last_opened: None,
        sort_order: 0,
    }
}

#[test]
fn extract_title_prefers_first_heading_then_file_stem() {
    assert_eq!(extract_title("notes/a.md", "# Hello\n\nbody"), "Hello");
    assert_eq!(extract_title("notes/a.md", "\n\n  #   Spaced title  \n"), "Spaced title");
    assert_eq!(extract_title("notes/plan.md", "intro\n# Late heading"), "Late heading");
    assert_eq!(extract_title("notes/plan.md", "#\n# Real"), "Real");
    assert_eq!(extract_title("notes/plan.md", "## Sub\n#Tight\n#  \nbody"), "plan");
    assert_eq!(
        extract_title("tagged.md", "---\ntags: [Rust, search]\n---\n# Tagged\n\nhello"),
        "Tagged"
    );
    assert_eq!(extract_title("notes/plan.md", ""), "plan");
    assert_eq!(extract_title("", ""), "");
}

#[test]
fn count_words_splits_on_whitespace() {
    assert_eq!(count_words(""), 0);
    assert_eq!(count_words("  one\ttwo\nthree  "), 3);
    assert_eq!(count_words("中文 text"), 2);
}

#[test]
fn sanitize_filename_replaces_forbidden_characters_and_trims() {
    assert_eq!(sanitize_filename("  a/b:c*d?e\"f<g>h|i\\j  "), "a_b_c_d_e_f_g_h_i_j");
    assert_eq!(sanitize_filename("plain"), "plain");
    let once = sanitize_filename(" x/y ");
    assert_eq!(sanitize_filename(&once), once);
}

/// Creates an empty file at `path`.
fn touch(path: &str) {
    let dir = std::path::Path::new(path).parent().expect("parent");
    tempfile::NamedTempFile::new_in(dir)
        .expect("temp file")
        .persist(path)
        .expect("file in place");
}

#[test]
fn unique_paths_pick_the_first_free_candidate() {
    let temp = tempfile::tempdir().expect("tempdir");
    let dir = temp.path().to_str().expect("utf-8 temp dir").to_string();
    let first = unique_path(&dir, "Note", "md");
    assert_eq!(first, format!("{dir}/Note.md"));
    touch(&first);
    assert_eq!(unique_path(&dir, "Note", "md"), format!("{dir}/Note (1).md"));
    touch(&format!("{dir}/Note (1).md"));
    assert_eq!(unique_path(&dir, "Note", "md"), format!("{dir}/Note (2).md"));
    let folder = unique_folder_path(&dir, "Folder");
    assert_eq!(folder, format!("{dir}/Folder"));
    touch(&folder);
    assert_eq!(unique_folder_path(&dir, "Folder"), format!("{dir}/Folder (1)"));
    assert_eq!(unique_restore_path(&format!("{dir}/gone.md")), format!("{dir}/gone.md"));
    assert_eq!(unique_restore_path(&first), format!("{dir}/Note (2).md"));
}

#[test]
fn file_operation_paths_follow_the_storage_rules() {
    let temp = tempfile::tempdir().expect("tempdir");
    let dir = temp.path().to_str().expect("utf-8 temp dir").to_string();
    assert_eq!(new_note_path(&dir, " My: note ", on_disk), format!("{dir}/My_ note.md"));
    assert_eq!(new_note_content(&format!("{dir}/My_ note.md")), "# My_ note\n\n");
    assert_eq!(new_folder_path(&dir, "a/b", on_disk), format!("{dir}/a_b"));
    assert_eq!(renamed_note_path(&format!("{dir}/old.md"), "New", on_disk), format!("{dir}/New.md"));
    assert_eq!(renamed_folder_path(&format!("{dir}/old"), "New", on_disk), format!("{dir}/New"));
    assert_eq!(moved_note_path(&format!("{dir}/x/n.md"), &dir, on_disk), format!("{dir}/n.md"));
    assert_eq!(moved_folder_path(&format!("{dir}/x/sub"), &dir, on_disk), format!("{dir}/sub"));
}

#[test]
fn workspace_records_and_keys() {
    let w = new_workspace("id-1".to_string(), "/home/me/notes", 42);
    assert_eq!(w.name, "notes");
    assert_eq!(w.path, "/home/me/notes");
    assert_eq!(w.created_at, 42);
    assert_eq!(w.last_opened, Some(42));
    assert_eq!(new_workspace("id-2".to_string(), "", 1).name, "Workspace");
    assert_eq!(workspace_settings_key("ws"), "workspace_settings:ws");
    assert_eq!(workspace_tree_state_key("ws"), "workspace_tree_state:ws");
    assert_eq!(tag_id("  Rust "), "rust");
    assert_eq!(relative_path_in("/w", "/w/notes/a.md"), "notes/a.md");
    assert_eq!(relative_path_in("/w", "/other/a.md"), "/other/a.md");
    assert_eq!(char_count("héllo"), 5);
}

#[test]
fn recent_workspaces_always_list_the_current_one() {
    let a = workspace("/a");
    let mut b = workspace("/b");
    b.id = "other".to_string();
    let listed = recent_workspaces_with_current(vec![b.clone()], a.clone());
    assert_eq!(listed, vec![a.clone(), b.clone()]);
    let kept = recent_workspaces_with_current(vec![b.clone(), a.clone()], a.clone());
    assert_eq!(kept, vec![b, a]);
}

#[test]
fn note_metadata_is_built_from_path_and_content() {
    let ws = workspace("/w");
    let meta = build_note_meta(
        &ws,
        "/w",
        "/w/notes/a.md",
        "---\ntags: [Rust, rust, search]\n---\n# Title\n\nsome words here",
        None,
        Some(99),
    );
    assert_eq!(meta.id, "ws::notes/a.md");
    assert_eq!(meta.relative_path, "notes/a.md");
    assert_eq!(meta.title, "Title");
    assert_eq!(meta.created_at, 7);
    assert_eq!(meta.updated_at, 99);
    assert_eq!(
        meta.tags.iter().map(|t| t.name.as_str()).collect::<Vec<_>>(),
        vec!["Rust", "search"]
    );
    assert_eq!(meta.tags[0].id, "rust");
    assert_eq!(meta.tags[0].color, "#6B7280");
    let update = note_id_update(&ws, "/w/a.md", "/w/b/a.md");
    assert_eq!(
        update,
        ("ws::a.md".to_string(), "ws::b/a.md".to_string(), "b/a.md".to_string())
    );
}

#[test]
fn recovery_and_trash_locations() {
    assert_eq!(stale_cutoff_ms(2_592_000_000 + 5), 5);
    assert_eq!(stale_cutoff_ms(i64::MIN), i64::MIN);
    assert_eq!(
        loaded_workspace_status(3, "/w", 0),
        "Loaded 3 notes from /w"
    );
    assert_eq!(
        loaded_workspace_status(3, "/w", 2),
        "Loaded 3 notes from /w; 2 recovery drafts need review"
    );
    assert_eq!(trash_batch_dir("/w", -5), "/w/.papyro-trash/-5");
    assert_eq!(trash_destination("/w/.papyro-trash/9", "/w", "/w/notes/a.md"), "/w/.papyro-trash/9/notes/a.md");
    assert_eq!(trashed_note_location("/w", 9, "notes/a.md"), "/w/.papyro-trash/9/notes/a.md");
    let temp = tempfile::tempdir().expect("tempdir");
    let root = temp.path().to_str().expect("utf-8").to_string();
    let (dir, ts) = free_trash_batch(&root, 10);
    assert_eq!((dir.clone(), ts), (format!("{root}/.papyro-trash/10"), 10));
}

fn leaf(path: &str) -> FileNode {
    FileNode {
        name: path.rsplit('/').next().unwrap_or(path).to_string(),
        path: format!("/w/{path}"),
        relative_path: path.to_string(),
        created_at: 0,
        updated_at: 0,
        kind: FileNodeKind::Note { note_id: None },
    }
}

fn folder(path: &str, children: Vec<FileNode>) -> FileNode {
    FileNode {
        kind: FileNodeKind::Directory { children },
        ..leaf(path)
    }
}

#[test]
fn tree_helpers_count_flatten_sort_and_identify_notes() {
    let tree = vec![
        leaf("z.md"),
        folder("docs", vec![leaf("docs/b.md"), leaf("docs/A.md")]),
    ];
    assert_eq!(note_count(&tree), 3);
    assert_eq!(
        flatten_notes(&tree),
        vec![
            ("/w/z.md".to_string(), "z.md".to_string()),
            ("/w/docs/b.md".to_string(), "docs/b.md".to_string()),
            ("/w/docs/A.md".to_string(), "docs/A.md".to_string()),
        ]
    );
    let sorted = sort_nodes(tree);
    assert_eq!(sorted.iter().map(|n| n.name.as_str()).collect::<Vec<_>>(), vec!["docs", "z.md"]);
    let with_ids = attach_note_ids(sorted, "ws");
    match &with_ids[1].kind {
        FileNodeKind::Note { note_id } => assert_eq!(note_id.as_deref(), Some("ws::z.md")),
        _ => panic!("expected a note"),
    }
    assert_eq!(stable_note_id("ws", "docs/b.md"), "ws::docs/b.md");
    assert!(should_skip_entry(".git", true));
    assert!(should_skip_entry("Assets", true));
    assert!(should_skip_entry("node_modules", true));
    assert!(!should_skip_entry("assets", false));
    assert!(!should_skip_entry("notes", true));
}

#[test]
fn search_matches_title_path_and_body() {
    let tokens = to_char_vecs(&query_tokens("release search"));
    let result = search_note(
        "/w/notes/release-plan.md",
        "notes/release-plan.md",
        "# Release Plan\n\nShip the search feature safely.\n",
        &tokens,
    )
    .expect("the note matches");
    assert_eq!(result.title, "Release Plan");
    assert!(result.matches.iter().any(|m| m.field == SearchField::Title));
    assert!(result.matches.iter().any(|m| m.field == SearchField::Path));
    assert!(result
        .matches
        .iter()
        .any(|m| m.field == SearchField::Body && m.line == Some(3)));
    assert!(search_note("/w/notes/daily.md", "notes/daily.md", "# Daily\n\nNo match", &tokens).is_none());
}

#[test]
fn search_tokens_are_case_insensitive_and_highlights_sorted() {
    let tokens = to_char_vecs(&query_tokens("SEARCH token"));
    assert_eq!(query_tokens("  SEARCH  token "), vec!["search".to_string(), "token".to_string()]);
    let result = search_note("/w/a.md", "a.md", "# Alpha\n\nSearch Token", &tokens)
        .expect("matches");
    assert_eq!(
        result.matches[0].highlights,
        vec![
            SearchHighlight { start: 0, end: 6 },
            SearchHighlight { start: 7, end: 12 },
        ]
    );
    assert_eq!(result.matches[0].line, Some(3));
    assert!(query_tokens("   ").is_empty());
    assert_eq!(chars_of("ab"), vec!['a', 'b']);
}

#[test]
fn search_results_are_ordered_by_relative_path() {
    let tokens = to_char_vecs(&query_tokens("x"));
    let make = |rel: &str| search_note(&format!("/w/{rel}"), rel, "x", &tokens).expect("match");
    let sorted = sort_search_results(vec![make("b/a.md"), make("a.md"), make("b.md"), make("a/z.md")]);
    assert_eq!(
        sorted.iter().map(|r| r.relative_path.as_str()).collect::<Vec<_>>(),
        vec!["a/z.md", "a.md", "b/a.md", "b.md"]
    );
    assert_eq!(compare_std_paths("a/b", "a.b"), -1);
    assert_eq!(compare_std_paths("x", "x/"), 0);
}

use papyro::workspace::{moved_note_origin, renamed_note_ids};

#[test]
fn renamed_note_ids_map_moved_notes_back_to_their_old_paths() {
    let ws = workspace("/w");
    // A folder moved from /w/old to /w/new, holding two notes and an image.
    let files = vec![
        "/w/new/a.md".to_string(),
        "/w/new/img.png".to_string(),
        "/w/new/sub/b.MD".to_string(),
    ];
    let updates = renamed_note_ids(&ws, "/w/old", "/w/new", true, &files);
    assert_eq!(
        updates,
        vec![
            ("ws::old/a.md".to_string(), "ws::new/a.md".to_string(), "new/a.md".to_string()),
            ("ws::old/sub/b.MD".to_string(), "ws::new/sub/b.MD".to_string(), "new/sub/b.MD".to_string()),
        ]
    );
    // A renamed note.
    assert_eq!(
        renamed_note_ids(&ws, "/w/x.md", "/w/y.md", false, &[]),
        vec![("ws::x.md".to_string(), "ws::y.md".to_string(), "y.md".to_string())]
    );
    // A renamed file that is not a note.
    assert!(renamed_note_ids(&ws, "/w/x.png", "/w/y.png", false, &[]).is_empty());
    assert_eq!(moved_note_origin("/w/old", "/w/new", "/w/new/sub/b.md"), "/w/old/sub/b.md");
    assert_eq!(moved_note_origin("/w/old", "/w/new", "/elsewhere/c.md"), "/elsewhere/c.md");
}

use papyro::workspace::missing_note_ids;

#[test]
fn missing_note_ids_lists_indexed_notes_gone_from_disk() {
    let known = vec!["ws::a.md".to_string(), "ws::b.md".to_string(), "ws::c.md".to_string()];
    let existing = vec!["ws::c.md".to_string(), "ws::a.md".to_string()];
    assert_eq!(missing_note_ids(&known, &existing), vec!["ws::b.md".to_string()]);
    assert!(missing_note_ids(&known, &known).is_empty());
    assert_eq!(missing_note_ids(&known, &[]), known);
}

use papyro::file_ops::{unique_folder_path_with, unique_path_with, unique_restore_path_with};
use papyro::workspace::free_trash_batch_with;

#[test]
fn free_paths_follow_the_existence_answers() {
    let taken = |names: &'static [&'static str]| move |p: &str| names.iter().any(|n| *n == p);
    assert_eq!(unique_path_with("/d", "N", "md", taken(&[])), "/d/N.md");
    assert_eq!(unique_path_with("/d", "N", "md", taken(&["/d/N.md"])), "/d/N (1).md");
    assert_eq!(
        unique_path_with("/d", "N", "md", taken(&["/d/N.md", "/d/N (1).md", "/d/N (3).md"])),
        "/d/N (2).md"
    );
    // Everything taken: the first candidate comes back.
    assert_eq!(unique_path_with("/d", "N", "md", |_p: &str| true), "/d/N.md");
    assert_eq!(unique_folder_path_with("/d", "F", taken(&["/d/F"])), "/d/F (1)");
    assert_eq!(unique_folder_path_with("/d", "F", |_p: &str| true), "/d/F");
    assert_eq!(unique_restore_path_with("/d/a.md", taken(&[])), "/d/a.md");
    assert_eq!(unique_restore_path_with("/d/a.md", taken(&["/d/a.md"])), "/d/a (1).md");
    assert_eq!(unique_restore_path_with("/d/a", taken(&["/d/a", "/d/a (1)"])), "/d/a (2)");
    assert_eq!(unique_restore_path_with("/d/a.md", |_p: &str| true), "/d/a.md");
    assert_eq!(
        free_trash_batch_with("/w", 5, taken(&["/w/.papyro-trash/5", "/w/.papyro-trash/6"])),
        ("/w/.papyro-trash/7".to_string(), 7)
    );
    assert_eq!(new_note_path("/d", "x/y", taken(&["/d/x_y.md"])), "/d/x_y (1).md");
}
