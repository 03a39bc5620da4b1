use papyro::commands::{ChromeTrigger, SetViewModeRequest};
use papyro::models::{AppLanguage, SaveStatus, Theme, ViewMode};
use papyro::palette::{command_action_effects, AppCommand, InsertMarkdownRequest, PaletteEffect};
use papyro::palette::{
    command_palette_actions, filter_command_palette_actions, markdown_insert_actions,
    markdown_insert_template, selected_note_name, CommandPaletteActionInput,
    CommandPaletteActionKind, RecentFileListItem, TrashedNoteListItem, WorkspaceListItem,
};

fn test_input() -> CommandPaletteActionInput<'static> {
    CommandPaletteActionInput {
        language: AppLanguage::English,
        has_workspace: true,
        recent_workspaces: &[],
        recent_files: &[],
        trashed_notes: &[],
        active_tab_id: None,
        has_active_tab: false,
        active_save_status: SaveStatus::Saved,
        selected_note_name: None,
        next_theme: Theme::Dark,
        view_mode: ViewMode::Hybrid,
        outline_visible: false,
    }
}

#[test]
fn command_palette_actions_reflect_workspace_and_tab_state() {
    let actions = command_palette_actions(CommandPaletteActionInput {
        has_active_tab: true,
        active_tab_id: Some("tab-draft"),
        selected_note_name: Some("Draft.md"),
        next_theme: Theme::Light,
        ..test_input()
    });
    let titles = actions
        .iter()
        .map(|action| action.title.as_str())
        .collect::<Vec<_>>();

    assert!(titles.contains(&"Switch workspace"));
    assert!(titles.contains(&"Refresh workspace"));
    assert!(titles.contains(&"Save active note"));
    assert!(titles.contains(&"Close active note"));
    assert!(titles.contains(&"Show outline"));
    assert!(titles.contains(&"Favorite selected note"));
    assert!(titles.contains(&"Unfavorite selected note"));
    assert!(titles.contains(&"Use source mode"));
    assert!(titles.contains(&"Insert table"));
    assert!(titles.contains(&"Insert link"));
    assert!(titles.contains(&"Insert image"));
    assert!(titles.contains(&"Insert callout"));
    assert!(titles.contains(&"Insert inline math"));
    assert!(titles.contains(&"Insert Mermaid diagram"));
    assert!(!titles.contains(&"Use hybrid mode"));
}

#[test]
fn command_palette_actions_hide_file_commands_without_active_tab() {
    let actions = command_palette_actions(CommandPaletteActionInput {
        has_workspace: false,
        next_theme: Theme::Dark,
        view_mode: ViewMode::Preview,
        ..test_input()
    });
    let titles = actions
        .iter()
        .map(|action| action.title.as_str())
        .collect::<Vec<_>>();

    assert!(titles.contains(&"Open workspace"));
    assert!(!titles.contains(&"Refresh workspace"));
    assert!(!titles.contains(&"Open trash"));
    assert!(!titles.contains(&"Save active note"));
    assert!(!titles.contains(&"Insert table"));
    assert!(!titles.contains(&"Reload conflicted note"));
    assert!(!titles.contains(&"Overwrite conflicted note"));
    assert!(!titles.contains(&"Save conflicted note as..."));
}

#[test]
fn command_palette_actions_include_conflict_resolution() {
    let actions = command_palette_actions(CommandPaletteActionInput {
        has_active_tab: true,
        active_tab_id: Some("tab-a"),
        active_save_status: SaveStatus::Conflict,
        ..test_input()
    });

    assert!(actions.iter().any(|action| {
        action.title == "Reload conflicted note"
            && action.detail == "Discard editor content and load the disk version"
            && action.group == "FILE"
            && matches!(
                action.kind,
                CommandPaletteActionKind::ReloadConflictedActiveNote
            )
    }));
    assert!(actions.iter().any(|action| {
        action.title == "Overwrite conflicted note"
            && action.detail == "Replace the disk version with editor content"
            && action.group == "FILE"
            && matches!(action.kind, CommandPaletteActionKind::OverwriteActiveNote)
    }));
    assert!(actions.iter().any(|action| {
        action.title == "Save conflicted note as..."
            && action.detail == "Write editor content to another workspace Markdown file"
            && action.group == "FILE"
            && matches!(
                action.kind,
                CommandPaletteActionKind::SaveConflictedActiveNoteAs
            )
    }));
}

#[test]
fn command_palette_actions_include_close_active_tab() {
    let actions = command_palette_actions(CommandPaletteActionInput {
        has_active_tab: true,
        active_tab_id: Some("tab-a"),
        ..test_input()
    });

    assert!(actions.iter().any(|action| {
        action.title == "Close active note"
            && action.detail == "Close the current tab"
            && action.group == "FILE"
            && matches!(
                &action.kind,
                CommandPaletteActionKind::CloseActiveTab(tab_id) if tab_id == "tab-a"
            )
    }));
}

#[test]
fn command_palette_actions_toggle_outline_label() {
    let actions = command_palette_actions(CommandPaletteActionInput {
        outline_visible: true,
        ..test_input()
    });
    let titles = actions
        .iter()
        .map(|action| action.title.as_str())
        .collect::<Vec<_>>();

    assert!(titles.contains(&"Hide outline"));
    assert!(!titles.contains(&"Show outline"));
    assert!(actions
        .iter()
        .any(|action| matches!(action.kind, CommandPaletteActionKind::ToggleOutline)));
}

#[test]
fn command_palette_filter_matches_title_detail_and_group() {
    let actions = command_palette_actions(CommandPaletteActionInput {
        has_active_tab: true,
        view_mode: ViewMode::Source,
        ..test_input()
    });

    assert_eq!(
        filter_command_palette_actions(&actions, "file save")
            .iter()
            .map(|action| action.title.as_str())
            .collect::<Vec<_>>(),
        vec!["Save active note"]
    );
    assert_eq!(
        filter_command_palette_actions(&actions, "render preview")
            .iter()
            .map(|action| action.title.as_str())
            .collect::<Vec<_>>(),
        vec!["Use preview mode"]
    );
}

#[test]
fn command_palette_actions_include_recent_workspaces() {
    let recent_workspaces = [
        WorkspaceListItem {
            name: "Current".to_string(),
            path: "current".to_string(),
            is_current: true,
        },
        WorkspaceListItem {
            name: "Archive".to_string(),
            path: "archive".to_string(),
            is_current: false,
        },
    ];
    let actions = command_palette_actions(CommandPaletteActionInput {
        recent_workspaces: &recent_workspaces,
        ..test_input()
    });

    assert!(actions.iter().any(|action| {
        action.title == "Open Archive"
            && action.group == "WS"
            && matches!(
                &action.kind,
                CommandPaletteActionKind::OpenWorkspacePath(path) if path == "archive"
            )
    }));
    assert!(!actions.iter().any(|action| action.title == "Open Current"));
}

#[test]
fn command_palette_actions_include_recent_files() {
    let recent_files = [RecentFileListItem {
        title: "Meeting".to_string(),
        relative_path: "notes/meeting.md".to_string(),
        workspace_name: "Work".to_string(),
        workspace_path: "work".to_string(),
    }];
    let actions = command_palette_actions(CommandPaletteActionInput {
        recent_files: &recent_files,
        ..test_input()
    });

    assert!(actions.iter().any(|action| {
        action.title == "Open Meeting"
            && action.detail == "Work / notes/meeting.md"
            && action.group == "REC"
            && matches!(
                &action.kind,
                CommandPaletteActionKind::OpenMarkdown(target)
                    if target.path == "work/notes/meeting.md"
            )
    }));
}

#[test]
fn command_palette_actions_include_trash_entry() {
    let trashed_notes = [TrashedNoteListItem {
        note_id: "note-a".to_string(),
        title: "Deleted draft".to_string(),
        relative_path: "notes/deleted.md".to_string(),
        trashed_at: 1,
    }];
    let actions = command_palette_actions(CommandPaletteActionInput {
        trashed_notes: &trashed_notes,
        ..test_input()
    });

    assert!(actions.iter().any(|action| {
        action.title == "Open trash"
            && action.detail == "Review 1 deleted note"
            && action.group == "APP"
            && matches!(action.kind, CommandPaletteActionKind::OpenTrash)
    }));
    assert!(!actions
        .iter()
        .any(|action| action.title == "Restore Deleted draft"));
    assert!(!actions.iter().any(|action| action.title == "Empty trash"));
}

#[test]
fn command_palette_actions_include_selected_note_favorites() {
    let actions = command_palette_actions(CommandPaletteActionInput {
        selected_note_name: Some("Draft.md"),
        ..test_input()
    });

    assert!(actions.iter().any(|action| {
        action.title == "Favorite selected note"
            && action.detail == "Draft.md"
            && matches!(
                action.kind,
                CommandPaletteActionKind::SetSelectedFavorite(true)
            )
    }));
    assert!(actions.iter().any(|action| {
        action.title == "Unfavorite selected note"
            && action.detail == "Draft.md"
            && matches!(
                action.kind,
                CommandPaletteActionKind::SetSelectedFavorite(false)
            )
    }));
}

#[test]
fn command_palette_insert_actions_target_active_tab() {
    let actions = command_palette_actions(CommandPaletteActionInput {
        has_active_tab: true,
        active_tab_id: Some("tab-a"),
        ..test_input()
    });

    assert!(actions.iter().any(|action| {
        action.title == "Insert table"
            && action.group == "INSERT"
            && matches!(
                &action.kind,
                CommandPaletteActionKind::InsertMarkdown(request)
                    if request.tab_id == "tab-a"
                        && request.markdown.contains("| Column | Value |")
                        && request.cursor_offset.is_some()
            )
    }));
    assert!(actions.iter().any(|action| {
        action.title == "Insert inline math"
            && matches!(
                &action.kind,
                CommandPaletteActionKind::InsertMarkdown(request)
                    if request.markdown == "$$"
                        && request.cursor_offset == Some(1)
            )
    }));
    assert!(actions.iter().any(|action| {
        action.title == "Insert callout"
            && matches!(
                &action.kind,
                CommandPaletteActionKind::InsertMarkdown(request)
                    if request.markdown.contains("> [!NOTE]")
                        && request.cursor_offset.is_some()
            )
    }));
    assert!(actions.iter().any(|action| {
        action.title == "Insert math block"
            && matches!(
                &action.kind,
                CommandPaletteActionKind::InsertMarkdown(request)
                    if request.markdown.contains("$$")
                        && request.cursor_offset.is_some()
            )
    }));
}

#[test]
fn theme_toggle_names_the_next_theme() {
    let actions = command_palette_actions(CommandPaletteActionInput {
        next_theme: Theme::WarmReading,
        ..test_input()
    });
    assert!(actions.iter().any(|action| {
        action.title == "Toggle theme"
            && action.detail == "Switch to Warm Reading"
            && matches!(action.kind, CommandPaletteActionKind::ToggleTheme)
    }));
}

#[test]
fn base_action_order_is_fixed() {
    let actions = command_palette_actions(test_input());
    let titles = actions
        .iter()
        .map(|action| action.title.as_str())
        .collect::<Vec<_>>();
    assert_eq!(
        titles,
        vec![
            "Switch workspace",
            "Toggle sidebar",
            "Show outline",
            "Toggle theme",
            "Open settings",
            "Open trash",
            "Refresh workspace",
            "Use source mode",
            "Use preview mode",
        ]
    );
}

#[test]
fn chinese_actions_use_chinese_titles() {
    let actions = command_palette_actions(CommandPaletteActionInput {
        language: AppLanguage::Chinese,
        has_workspace: false,
        ..test_input()
    });
    assert_eq!(actions[0].title, "打开工作区");
    assert_eq!(actions[0].group, "APP");
}

#[test]
fn markdown_insert_template_removes_the_cursor_marker() {
    assert_eq!(markdown_insert_template("${|cursor|}$"), ("$$".to_string(), Some(1)));
    assert_eq!(markdown_insert_template("plain"), ("plain".to_string(), None));
    assert_eq!(
        markdown_insert_template("é{|cursor|}x{|cursor|}"),
        ("éx{|cursor|}".to_string(), Some(2))
    );
    let (markdown, cursor) = markdown_insert_template("\n- [ ] {|cursor|}\n");
    let cursor = cursor.expect("template has a cursor");
    let rebuilt = format!("{}{{|cursor|}}{}", &markdown[..cursor], &markdown[cursor..]);
    assert_eq!(rebuilt, "\n- [ ] {|cursor|}\n");
}

#[test]
fn markdown_insert_actions_cover_every_snippet() {
    let actions = markdown_insert_actions(AppLanguage::English, "tab-x");
    assert_eq!(actions.len(), 9);
    for action in &actions {
        assert_eq!(action.group, "INSERT");
        match &action.kind {
            CommandPaletteActionKind::InsertMarkdown(request) => {
                assert_eq!(request.tab_id, "tab-x");
                assert!(!request.markdown.contains("{|cursor|}"));
                assert!(request.cursor_offset.is_some());
            }
            other => panic!("unexpected action kind {other:?}"),
        }
    }
}

#[test]
fn filter_limits_results_and_keeps_order() {
    let actions = command_palette_actions(CommandPaletteActionInput {
        has_active_tab: true,
        active_tab_id: Some("tab-a"),
        active_save_status: SaveStatus::Conflict,
        selected_note_name: Some("Draft.md"),
        ..test_input()
    });
    assert!(actions.len() > 24);
    let all = filter_command_palette_actions(&actions, "   ");
    assert_eq!(all.len(), 24);
    assert_eq!(all[0].title, actions[0].title);
    assert!(filter_command_palette_actions(&actions, "nothing-matches-this").is_empty());
    let inserts = filter_command_palette_actions(&actions, "INSERT math");
    assert_eq!(
        inserts.iter().map(|a| a.title.as_str()).collect::<Vec<_>>(),
        vec!["Insert inline math", "Insert math block"]
    );
}

#[test]
fn selected_note_name_skips_directories() {
    assert_eq!(selected_note_name(true, false, Some("a.md")), Some("a.md"));
    assert_eq!(selected_note_name(true, true, Some("dir")), None);
    assert_eq!(selected_note_name(false, false, Some("a.md")), None);
}

#[test]
fn running_an_action_runs_its_command_then_closes_the_palette() {
    assert_eq!(
        command_action_effects(CommandPaletteActionKind::CloseActiveTab("t1".to_string())),
        vec![
            PaletteEffect::Run(AppCommand::CloseTab("t1".to_string())),
            PaletteEffect::ClosePalette
        ]
    );
    assert_eq!(
        command_action_effects(CommandPaletteActionKind::ToggleSidebar),
        vec![
            PaletteEffect::Run(AppCommand::ToggleSidebar(ChromeTrigger {
                trigger: "command_palette".to_string()
            })),
            PaletteEffect::ClosePalette
        ]
    );
    assert_eq!(
        command_action_effects(CommandPaletteActionKind::SetViewMode(ViewMode::Preview)),
        vec![
            PaletteEffect::Run(AppCommand::SetViewMode(SetViewModeRequest {
                mode: ViewMode::Preview,
                trigger: "command_palette".to_string()
            })),
            PaletteEffect::ClosePalette
        ]
    );
    assert_eq!(
        command_action_effects(CommandPaletteActionKind::OpenSettings),
        vec![PaletteEffect::OpenSettings, PaletteEffect::ClosePalette]
    );
    assert_eq!(
        command_action_effects(CommandPaletteActionKind::OpenTrash),
        vec![PaletteEffect::OpenTrash, PaletteEffect::ClosePalette]
    );
    let request = InsertMarkdownRequest {
        tab_id: "t1".to_string(),
        markdown: "**b**".to_string(),
        cursor_offset: Some(2),
    };
    assert_eq!(
        command_action_effects(CommandPaletteActionKind::InsertMarkdown(request.clone())),
        vec![PaletteEffect::Run(AppCommand::InsertMarkdown(request)), PaletteEffect::ClosePalette]
    );
}
