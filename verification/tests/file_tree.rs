use papyro::file_tree::{
    can_drop_on_directory, delete_menu_label, file_target, file_tree_keyboard_action,
    file_tree_row_class, sidebar_workspace_path_text, sort_mode_from_value, sort_mode_label,
    sort_mode_value, sorted_file_tree_nodes, visible_file_tree_items, FileTreeDragSource,
    FileTreeKey, FileTreeKeyboardAction, FileTreeRenameDraft, FileTreeSortMode,
};
use papyro::models::AppLanguage;
use papyro::tree::{scanned_as_note, FileNode, FileNodeKind};

fn note(path: &str) -> FileNode {
    FileNode {
        name: path
            .rsplit('/')
            .next()
            .expect("test path has a file name")
            .to_string(),
        path: path.to_string(),
        relative_path: path.to_string(),
        created_at: 0,
        updated_at: 0,
        kind: FileNodeKind::Note { note_id: None },
    }
}

fn note_with_times(path: &str, created_at: i64, updated_at: i64) -> FileNode {
    FileNode {
        created_at,
        updated_at,
        ..note(path)
    }
}

fn directory(path: &str, children: Vec<FileNode>) -> FileNode {
    FileNode {
        name: path
            .rsplit('/')
            .next()
            .expect("test path has a directory name")
            .to_string(),
        path: path.to_string(),
        relative_path: path.to_string(),
        created_at: 0,
        updated_at: 0,
        kind: FileNodeKind::Directory { children },
    }
}

fn directory_with_times(
    path: &str,
    created_at: i64,
    updated_at: i64,
    children: Vec<FileNode>,
) -> FileNode {
    FileNode {
        created_at,
        updated_at,
        ..directory(path, children)
    }
}

fn expanded(paths: &[&str]) -> Vec<String> {
    paths.iter().map(|p| p.to_string()).collect()
}

#[test]
fn visible_items_include_only_expanded_descendants() {
    let nodes = vec![directory(
        "workspace/notes",
        vec![note("workspace/notes/a.md"), note("workspace/notes/b.md")],
    )];

    assert_eq!(visible_file_tree_items(&nodes, &[]).len(), 1);

    let expanded = expanded(&["workspace/notes"]);
    let items = visible_file_tree_items(&nodes, &expanded);

    assert_eq!(
        items
            .iter()
            .map(|item| (item.node.path.clone(), item.depth))
            .collect::<Vec<_>>(),
        vec![
            ("workspace/notes".to_string(), 0),
            ("workspace/notes/a.md".to_string(), 1),
            ("workspace/notes/b.md".to_string(), 1),
        ]
    );
}

#[test]
fn sorted_tree_orders_by_name_with_directories_first() {
    let nodes = vec![
        note("workspace/z.md"),
        directory("workspace/B", Vec::new()),
        note("workspace/a.md"),
        directory("workspace/A", Vec::new()),
    ];

    let sorted = sorted_file_tree_nodes(nodes, FileTreeSortMode::Name);

    assert_eq!(
        sorted
            .iter()
            .map(|node| node.name.as_str())
            .collect::<Vec<_>>(),
        vec!["A", "B", "a.md", "z.md"]
    );
}

#[test]
fn sorted_tree_orders_by_updated_and_created_times() {
    let nodes = || {
        vec![
            note_with_times("workspace/old.md", 10, 20),
            note_with_times("workspace/new.md", 30, 40),
            directory_with_times(
                "workspace/dir",
                5,
                50,
                vec![
                    note_with_times("workspace/dir/child-old.md", 1, 2),
                    note_with_times("workspace/dir/child-new.md", 3, 4),
                ],
            ),
        ]
    };

    let updated = sorted_file_tree_nodes(nodes(), FileTreeSortMode::Updated);
    let created = sorted_file_tree_nodes(nodes(), FileTreeSortMode::Created);

    assert_eq!(
        updated
            .iter()
            .map(|node| node.name.as_str())
            .collect::<Vec<_>>(),
        vec!["dir", "new.md", "old.md"]
    );
    assert_eq!(
        created
            .iter()
            .map(|node| node.name.as_str())
            .collect::<Vec<_>>(),
        vec!["dir", "new.md", "old.md"]
    );

    let FileNodeKind::Directory { children } = &updated[0].kind else {
        panic!("expected directory children");
    };
    assert_eq!(
        children
            .iter()
            .map(|node| node.name.as_str())
            .collect::<Vec<_>>(),
        vec!["child-new.md", "child-old.md"]
    );
}

#[test]
fn drag_drop_model_allows_valid_directory_targets_only() {
    let note_source = FileTreeDragSource {
        path: "workspace/notes/a.md".to_string(),
        is_directory: false,
    };
    let directory_source = FileTreeDragSource {
        path: "workspace/notes".to_string(),
        is_directory: true,
    };

    assert!(can_drop_on_directory(&note_source, "workspace/archive"));
    assert!(!can_drop_on_directory(&note_source, "workspace/notes"));
    assert!(!can_drop_on_directory(&directory_source, "workspace/notes"));
    assert!(!can_drop_on_directory(
        &directory_source,
        "workspace/notes/nested"
    ));
    assert!(can_drop_on_directory(&directory_source, "workspace/archive"));
}

#[test]
fn tree_row_class_reflects_drag_states() {
    assert_eq!(
        file_tree_row_class("directory", true, false, true, true),
        "mn-tree-row directory active dragging drop-target"
    );
    assert_eq!(
        file_tree_row_class("note", false, true, false, false),
        "mn-tree-row note editing"
    );
}

fn selected(action: &FileTreeKeyboardAction) -> Option<&str> {
    match action {
        FileTreeKeyboardAction::Select(path) => Some(path.as_str()),
        _ => None,
    }
}

#[test]
fn keyboard_navigation_moves_between_visible_items() {
    let nodes = vec![directory(
        "workspace/notes",
        vec![note("workspace/notes/a.md"), note("workspace/notes/b.md")],
    )];
    let expanded = expanded(&["workspace/notes"]);
    let items = visible_file_tree_items(&nodes, &expanded);

    assert_eq!(
        selected(&file_tree_keyboard_action(
            &items,
            Some("workspace/notes/a.md"),
            &expanded,
            FileTreeKey::ArrowDown,
        )),
        Some("workspace/notes/b.md")
    );
    assert_eq!(
        selected(&file_tree_keyboard_action(
            &items,
            Some("workspace/notes/a.md"),
            &expanded,
            FileTreeKey::ArrowUp,
        )),
        Some("workspace/notes")
    );
}

#[test]
fn keyboard_navigation_expands_collapses_and_opens_nodes() {
    let nodes = vec![directory(
        "workspace/notes",
        vec![note("workspace/notes/a.md")],
    )];
    let collapsed_items = visible_file_tree_items(&nodes, &[]);

    assert!(matches!(
        file_tree_keyboard_action(
            &collapsed_items,
            Some("workspace/notes"),
            &[],
            FileTreeKey::ArrowRight,
        ),
        FileTreeKeyboardAction::ToggleDirectory(path) if path == "workspace/notes"
    ));

    let expanded = expanded(&["workspace/notes"]);
    let expanded_items = visible_file_tree_items(&nodes, &expanded);

    assert_eq!(
        selected(&file_tree_keyboard_action(
            &expanded_items,
            Some("workspace/notes/a.md"),
            &expanded,
            FileTreeKey::ArrowLeft,
        )),
        Some("workspace/notes")
    );
    assert!(matches!(
        file_tree_keyboard_action(
            &expanded_items,
            Some("workspace/notes/a.md"),
            &expanded,
            FileTreeKey::Enter,
        ),
        FileTreeKeyboardAction::OpenNote(node)
            if node.path == "workspace/notes/a.md"
    ));
}

#[test]
fn keyboard_navigation_starts_inline_rename_with_f2() {
    let nodes = vec![directory(
        "workspace/notes",
        vec![note("workspace/notes/a.md")],
    )];
    let expanded = expanded(&["workspace/notes"]);
    let items = visible_file_tree_items(&nodes, &expanded);

    assert!(matches!(
        file_tree_keyboard_action(
            &items,
            Some("workspace/notes/a.md"),
            &expanded,
            FileTreeKey::F2,
        ),
        FileTreeKeyboardAction::Rename(node)
            if node.path == "workspace/notes/a.md"
    ));
}

#[test]
fn rename_draft_uses_note_stem_and_directory_name() {
    let note_draft = FileTreeRenameDraft::from_node(&note("workspace/notes/a.md"));
    let directory_draft = FileTreeRenameDraft::from_node(&directory("workspace/notes", Vec::new()));

    assert_eq!(note_draft.value, "a");
    assert_eq!(note_draft.original_value, "a");
    assert_eq!(directory_draft.value, "notes");
    assert_eq!(directory_draft.original_value, "notes");
}

#[test]
fn rename_draft_commits_only_changed_non_empty_names() {
    let mut draft = FileTreeRenameDraft::from_node(&note("workspace/notes/a.md"));

    draft.value = "  ".to_string();
    assert_eq!(draft.commit_name(), None);

    draft.value = "a".to_string();
    assert_eq!(draft.commit_name(), None);

    draft.value = " renamed ".to_string();
    assert_eq!(draft.commit_name(), Some("renamed".to_string()));
}

#[test]
fn context_menu_model_detects_directory_and_target() {
    let node = directory("workspace/notes", Vec::new());

    assert!(node.is_directory());
    let target = file_target(&node);
    assert_eq!(target.path, "workspace/notes");
    assert_eq!(target.name, "notes");
}

#[test]
fn delete_menu_label_reflects_confirmation_state() {
    assert_eq!(delete_menu_label(false), "Delete");
    assert_eq!(delete_menu_label(true), "Confirm delete");
}

#[test]
fn sidebar_workspace_path_text_describes_current_folder() {
    assert_eq!(
        sidebar_workspace_path_text(Some("workspace"), AppLanguage::English),
        "workspace"
    );
    assert_eq!(
        sidebar_workspace_path_text(None, AppLanguage::English),
        "Open a folder to start"
    );
}

#[test]
fn sort_mode_values_round_trip() {
    assert_eq!(sort_mode_value(FileTreeSortMode::Name), "name");
    assert_eq!(sort_mode_value(FileTreeSortMode::Updated), "updated");
    assert_eq!(sort_mode_value(FileTreeSortMode::Created), "created");
    assert_eq!(sort_mode_from_value("name"), Some(FileTreeSortMode::Name));
    assert_eq!(
        sort_mode_from_value("updated"),
        Some(FileTreeSortMode::Updated)
    );
    assert_eq!(
        sort_mode_from_value("created"),
        Some(FileTreeSortMode::Created)
    );
    assert_eq!(sort_mode_from_value("missing"), None);
}

#[test]
fn sort_mode_labels_and_order() {
    assert_eq!(
        FileTreeSortMode::all(),
        [FileTreeSortMode::Name, FileTreeSortMode::Updated, FileTreeSortMode::Created]
    );
    assert_eq!(FileTreeSortMode::Updated.label(), "Updated");
    assert_eq!(sort_mode_label(FileTreeSortMode::Created, AppLanguage::Chinese), "创建");
}

#[test]
fn keyboard_navigation_edges() {
    let nodes = vec![
        directory("w/empty", Vec::new()),
        directory("w/full", vec![note("w/full/x.md.md")]),
    ];
    let open = expanded(&["w/empty", "w/full"]);
    let items = visible_file_tree_items(&nodes, &open);
    assert_eq!(items.len(), 3);
    // Nothing selected: the first row is selected.
    assert_eq!(
        selected(&file_tree_keyboard_action(&items, None, &open, FileTreeKey::ArrowDown)),
        Some("w/empty")
    );
    assert_eq!(
        selected(&file_tree_keyboard_action(&items, Some("missing"), &open, FileTreeKey::Enter)),
        Some("w/empty")
    );
    // An open empty folder: ArrowRight does nothing; an open full folder
    // moves to its first entry.
    assert!(matches!(
        file_tree_keyboard_action(&items, Some("w/empty"), &open, FileTreeKey::ArrowRight),
        FileTreeKeyboardAction::NoAction
    ));
    assert_eq!(
        selected(&file_tree_keyboard_action(&items, Some("w/full"), &open, FileTreeKey::ArrowRight)),
        Some("w/full/x.md.md")
    );
    // ArrowLeft on an open folder closes it; on a top-level note nothing.
    assert!(matches!(
        file_tree_keyboard_action(&items, Some("w/full"), &open, FileTreeKey::ArrowLeft),
        FileTreeKeyboardAction::ToggleDirectory(path) if path == "w/full"
    ));
    assert!(matches!(
        file_tree_keyboard_action(&items, Some("w/empty"), &open, FileTreeKey::ArrowUp),
        FileTreeKeyboardAction::NoAction
    ));
    assert!(matches!(
        file_tree_keyboard_action(&items, Some("w/full/x.md.md"), &open, FileTreeKey::ArrowDown),
        FileTreeKeyboardAction::NoAction
    ));
    assert!(matches!(
        file_tree_keyboard_action(&Vec::new(), None, &open, FileTreeKey::Space),
        FileTreeKeyboardAction::NoAction
    ));
    // Every trailing ".md" is dropped from a note's rename text.
    let draft = FileTreeRenameDraft::from_node(&note("w/full/x.md.md"));
    assert_eq!(draft.value, "x");
}

#[test]
fn sorting_by_name_ignores_case_and_is_stable() {
    let nodes = vec![note("w/b.md"), note("w/B.md"), note("w/a.md")];
    let sorted = sorted_file_tree_nodes(nodes, FileTreeSortMode::Name);
    assert_eq!(
        sorted.iter().map(|n| n.name.as_str()).collect::<Vec<_>>(),
        vec!["a.md", "b.md", "B.md"]
    );
}

#[test]
fn scans_list_exactly_md_files_as_notes() {
    assert!(scanned_as_note("/w/a.md"));
    assert!(!scanned_as_note("/w/a.MD"));
    assert!(!scanned_as_note("/w/a.markdown"));
    assert!(!scanned_as_note("/w/md"));
}
