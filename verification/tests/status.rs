use papyro::models::{AppLanguage, SaveStatus};
use papyro::primitives::{InlineAlertTone, StatusTone};
use papyro::status::{
    char_count_label, close_label, editor_view_modes, empty_search_message, empty_search_tone,
    is_workspace_loaded_message, save_status_attr, save_status_tone, sidebar_icon,
    status_bar_items, status_bar_stats, tab_save_status_indicator, view_mode_options,
    visible_status_message, StatusBarItem, TabSaveStatusIndicator,
};
use papyro::models::ViewMode;

#[test]
fn status_bar_items_hide_editor_stats_without_active_tab() {
    assert!(status_bar_items(false, SaveStatus::Saved, AppLanguage::English).is_empty());
}

#[test]
fn status_bar_items_are_derived_from_editor_view_model() {
    assert_eq!(
        status_bar_items(true, SaveStatus::Dirty, AppLanguage::English),
        vec![StatusBarItem {
            label: "Unsaved".to_string(),
            tone: StatusTone::Attention,
        }]
    );
}

#[test]
fn status_bar_items_hide_saved_state() {
    assert_eq!(
        status_bar_items(true, SaveStatus::Saved, AppLanguage::English),
        Vec::<StatusBarItem>::new()
    );
}

#[test]
fn status_bar_items_hide_stale_editor_stats() {
    assert_eq!(
        status_bar_items(true, SaveStatus::Dirty, AppLanguage::English),
        vec![StatusBarItem {
            label: "Unsaved".to_string(),
            tone: StatusTone::Attention,
        }]
    );
}

#[test]
fn status_bar_stats_include_words_chars_and_lines() {
    assert_eq!(
        status_bar_stats(true, Some(0), 12, 72, 4, AppLanguage::English),
        vec![
            StatusBarItem {
                label: "12 words".to_string(),
                tone: StatusTone::Default,
            },
            StatusBarItem {
                label: "72 chars".to_string(),
                tone: StatusTone::Default,
            },
            StatusBarItem {
                label: "4 lines".to_string(),
                tone: StatusTone::Default,
            },
        ]
    );
}

#[test]
fn status_bar_stats_hide_stale_editor_stats() {
    assert!(status_bar_stats(true, None, 12, 72, 4, AppLanguage::English).is_empty());
    assert!(status_bar_stats(false, Some(3), 12, 72, 4, AppLanguage::English).is_empty());
}

#[test]
fn status_bar_items_show_conflict_state() {
    assert_eq!(
        status_bar_items(true, SaveStatus::Conflict, AppLanguage::English),
        vec![StatusBarItem {
            label: "Conflict".to_string(),
            tone: StatusTone::Attention,
        }]
    );
}

#[test]
fn view_mode_options_round_trip() {
    assert_eq!(view_mode_options(AppLanguage::English).len(), 3);
    assert_eq!(
        view_mode_options(AppLanguage::Chinese)
            .into_iter()
            .map(|option| option.label)
            .collect::<Vec<_>>(),
        vec!["源码模式", "混合模式", "预览模式"]
    );
    assert_eq!(
        view_mode_options(AppLanguage::English)
            .into_iter()
            .map(|option| option.value)
            .collect::<Vec<_>>(),
        vec!["source", "hybrid", "preview"]
    );
    assert_eq!(editor_view_modes(), [ViewMode::Source, ViewMode::Hybrid, ViewMode::Preview]);
}

#[test]
fn visible_status_message_hides_workspace_loaded_notice() {
    assert_eq!(
        visible_status_message(Some("Loaded 49 notes from E:\\papyro".to_string())),
        None
    );
    assert_eq!(
        visible_status_message(Some("Reloaded roadmap.md from disk".to_string())),
        Some("Reloaded roadmap.md from disk".to_string())
    );
    assert_eq!(visible_status_message(None), None);
    assert!(is_workspace_loaded_message("  Loaded 1 notes from /w; 2 recovery drafts need review"));
    assert!(!is_workspace_loaded_message("Loaded settings"));
}

#[test]
fn tab_save_status_indicator_prefers_explicit_save_state() {
    assert_eq!(
        tab_save_status_indicator(AppLanguage::English, SaveStatus::Saved, false),
        None
    );
    assert_eq!(
        tab_save_status_indicator(AppLanguage::English, SaveStatus::Saved, true),
        Some(TabSaveStatusIndicator {
            class_name: "dirty",
            label: "Unsaved changes",
            marker: "*",
        })
    );
    assert_eq!(
        tab_save_status_indicator(AppLanguage::English, SaveStatus::Saving, true),
        Some(TabSaveStatusIndicator {
            class_name: "saving",
            label: "Saving",
            marker: "...",
        })
    );
    assert_eq!(
        tab_save_status_indicator(AppLanguage::English, SaveStatus::Failed, true),
        Some(TabSaveStatusIndicator {
            class_name: "failed",
            label: "Save failed",
            marker: "!",
        })
    );
    assert_eq!(
        tab_save_status_indicator(AppLanguage::English, SaveStatus::Conflict, true),
        Some(TabSaveStatusIndicator {
            class_name: "conflict",
            label: "File changed outside Papyro",
            marker: "!",
        })
    );
}

#[test]
fn i18n_close_label_names_target_tab() {
    assert_eq!(close_label(AppLanguage::English, "Draft"), "Close Draft");
    assert_eq!(close_label(AppLanguage::Chinese, "草稿"), "关闭 草稿");
}

#[test]
fn sidebar_icon_reflects_collapsed_state() {
    assert_eq!(sidebar_icon(true), "\u{2630}");
    assert_eq!(sidebar_icon(false), "\u{25E7}");
}

#[test]
fn save_status_styles_and_attributes() {
    assert_eq!(save_status_tone(SaveStatus::Saving), StatusTone::Saving);
    assert_eq!(save_status_tone(SaveStatus::Failed), StatusTone::Attention);
    assert_eq!(save_status_tone(SaveStatus::Saved), StatusTone::Default);
    assert_eq!(save_status_attr(SaveStatus::Conflict), "conflict");
    assert_eq!(save_status_attr(SaveStatus::Dirty), "dirty");
    assert_eq!(char_count_label(AppLanguage::English, 1), "1 char");
    assert_eq!(char_count_label(AppLanguage::Chinese, 5), "5 字符");
}

#[test]
fn empty_search_panel_messages_and_tones() {
    assert_eq!(empty_search_message(AppLanguage::English, "  ", true, Some("boom")), "Ready");
    assert_eq!(
        empty_search_message(AppLanguage::English, "plan", true, None),
        "Searching notes..."
    );
    assert_eq!(empty_search_message(AppLanguage::English, "plan", false, Some("boom")), "boom");
    assert_eq!(
        empty_search_message(AppLanguage::Chinese, "plan", false, None),
        "没有匹配的笔记"
    );
    assert_eq!(empty_search_tone("plan", false, Some("boom")), InlineAlertTone::Danger);
    assert_eq!(empty_search_tone(" ", false, None), InlineAlertTone::Neutral);
    assert_eq!(empty_search_tone("plan", true, None), InlineAlertTone::Neutral);
    assert_eq!(empty_search_tone("plan", false, None), InlineAlertTone::Attention);
}
