use papyro::labels::{
    delete_action_label, delete_action_title, open_note_label, save_status_label,
    status_view_mode_label, theme_label, trash_action_detail,
};
use papyro::models::{
    language_from_value, language_value, text, theme_from_value, theme_value, view_mode_from_value,
    view_mode_value, AppLanguage, SaveStatus, Theme, ViewMode,
};

#[test]
fn open_note_label_names_open_action() {
    assert_eq!(
        open_note_label(AppLanguage::English, "Daily note"),
        "Open Daily note"
    );
    assert_eq!(
        open_note_label(AppLanguage::Chinese, "每日笔记"),
        "打开 每日笔记"
    );
}

#[test]
fn delete_action_labels_reflect_confirmation_state() {
    assert_eq!(delete_action_label(AppLanguage::English, false), "Delete");
    assert_eq!(
        delete_action_label(AppLanguage::English, true),
        "Confirm delete"
    );
    assert_eq!(
        delete_action_title(AppLanguage::English, false),
        "Delete selected"
    );
    assert_eq!(
        delete_action_title(AppLanguage::English, true),
        "Confirm delete"
    );
    assert_eq!(delete_action_label(AppLanguage::Chinese, false), "删除");
}

#[test]
fn trash_action_detail_names_empty_singular_and_plural_states() {
    assert_eq!(
        trash_action_detail(AppLanguage::English, 0),
        "No deleted notes"
    );
    assert_eq!(
        trash_action_detail(AppLanguage::English, 1),
        "Review 1 deleted note"
    );
    assert_eq!(
        trash_action_detail(AppLanguage::English, 4),
        "Review 4 deleted notes"
    );
}

#[test]
fn segmented_setting_values_round_trip() {
    assert_eq!(theme_value(Theme::Dark), "dark");
    assert_eq!(theme_value(Theme::GitHubLight), "github_light");
    assert_eq!(theme_from_value("system"), Some(Theme::System));
    assert_eq!(theme_from_value("warm_reading"), Some(Theme::WarmReading));
    assert_eq!(theme_from_value("missing"), None);
    assert_eq!(language_value(AppLanguage::Chinese), "chinese");
    assert_eq!(language_from_value("english"), Some(AppLanguage::English));
    assert_eq!(language_from_value("missing"), None);
}

#[test]
fn every_stored_value_reads_back() {
    for theme in [
        Theme::System,
        Theme::Light,
        Theme::Dark,
        Theme::GitHubLight,
        Theme::GitHubDark,
        Theme::HighContrast,
        Theme::WarmReading,
    ] {
        assert_eq!(theme_from_value(theme_value(theme)), Some(theme));
    }
    for mode in [ViewMode::Source, ViewMode::Hybrid, ViewMode::Preview] {
        assert_eq!(view_mode_from_value(view_mode_value(mode)), Some(mode));
    }
    for language in [AppLanguage::English, AppLanguage::Chinese] {
        assert_eq!(language_from_value(language_value(language)), Some(language));
    }
    assert_eq!(view_mode_from_value("Source"), None);
    assert_eq!(theme_from_value("Dark"), None);
}

#[test]
fn labels_follow_the_language() {
    assert_eq!(text(AppLanguage::English, "Ready", "就绪"), "Ready");
    assert_eq!(text(AppLanguage::Chinese, "Ready", "就绪"), "就绪");
    assert_eq!(theme_label(AppLanguage::English, Theme::HighContrast), "High Contrast");
    assert_eq!(theme_label(AppLanguage::Chinese, Theme::Dark), "深色");
    assert_eq!(status_view_mode_label(AppLanguage::Chinese, ViewMode::Source), "源码模式");
    assert_eq!(status_view_mode_label(AppLanguage::English, ViewMode::Preview), "Preview mode");
    assert_eq!(save_status_label(AppLanguage::English, SaveStatus::Dirty), "Unsaved");
    assert_eq!(save_status_label(AppLanguage::English, SaveStatus::Failed), "Save failed");
    assert_eq!(trash_action_detail(AppLanguage::English, 12), "Review 12 deleted notes");
    assert_eq!(trash_action_detail(AppLanguage::Chinese, 0), "没有已删除的笔记");
    assert_eq!(trash_action_detail(AppLanguage::Chinese, 3), "查看 3 篇已删除的笔记");
}
