//! Label text of interface actions, in English or Chinese.
use vstd::prelude::*;
use crate::models::{text, tr, AppLanguage, SaveStatus, Theme, ViewMode};
use crate::text::{chars_of, concat, decimal, decimal_chars, string_from};

verus! {

broadcast use vstd::string::group_string_axioms;

/// The label of the action that opens the note titled `title`.
pub open spec fn open_note_text(language: AppLanguage, title: Seq<char>) -> Seq<char> {
    tr(language, "Open"@, "打开"@) + seq![' '] + title
}

/// The label of the action that opens the note titled `title`.
pub fn open_note_label(language: AppLanguage, title: &str) -> (r: String)
    ensures
        r@ == open_note_text(language, title@),
{
    let mut head = chars_of(text(language, "Open", "打开"));
    head.push(' ');
    string_from(concat(&head, &chars_of(title)).as_slice())
}

/// The label of the delete action, which asks for confirmation first.
pub fn delete_action_label(language: AppLanguage, is_pending: bool) -> (r: &'static str)
    ensures
        r@ == (if is_pending {
            tr(language, "Confirm delete"@, "确认删除"@)
        } else {
            tr(language, "Delete"@, "删除"@)
        }),
{
    if is_pending {
        text(language, "Confirm delete", "确认删除")
    } else {
        text(language, "Delete", "删除")
    }
}

/// The tooltip of the delete action.
pub fn delete_action_title(language: AppLanguage, is_pending: bool) -> (r: &'static str)
    ensures
        r@ == (if is_pending {
            tr(language, "Confirm delete"@, "确认删除"@)
        } else {
            tr(language, "Delete selected"@, "删除所选项"@)
        }),
{
    if is_pending {
        text(language, "Confirm delete", "确认删除")
    } else {
        text(language, "Delete selected", "删除所选项")
    }
}

/// The name of a theme.
pub open spec fn theme_name(language: AppLanguage, theme: Theme) -> Seq<char> {
    match theme {
        Theme::System => tr(language, "System"@, "跟随系统"@),
        Theme::Light => tr(language, "Light"@, "浅色"@),
        Theme::Dark => tr(language, "Dark"@, "深色"@),
        Theme::GitHubLight => tr(language, "GitHub Light"@, "GitHub 浅色"@),
        Theme::GitHubDark => tr(language, "GitHub Dark"@, "GitHub 深色"@),
        Theme::HighContrast => tr(language, "High Contrast"@, "高对比度"@),
        Theme::WarmReading => tr(language, "Warm Reading"@, "暖色阅读"@),
    }
}

/// The name of `theme`.
pub fn theme_label(language: AppLanguage, theme: Theme) -> (r: &'static str)
    ensures
        r@ == theme_name(language, theme),
{
    match theme {
        Theme::System => text(language, "System", "跟随系统"),
        Theme::Light => text(language, "Light", "浅色"),
        Theme::Dark => text(language, "Dark", "深色"),
        Theme::GitHubLight => text(language, "GitHub Light", "GitHub 浅色"),
        Theme::GitHubDark => text(language, "GitHub Dark", "GitHub 深色"),
        Theme::HighContrast => text(language, "High Contrast", "高对比度"),
        Theme::WarmReading => text(language, "Warm Reading", "暖色阅读"),
    }
}

/// The name of a view mode.
pub open spec fn view_mode_name(language: AppLanguage, mode: ViewMode) -> Seq<char> {
    match mode {
        ViewMode::Source => tr(language, "Source mode"@, "源码模式"@),
        ViewMode::Hybrid => tr(language, "Hybrid mode"@, "混合模式"@),
        ViewMode::Preview => tr(language, "Preview mode"@, "预览模式"@),
    }
}

/// The name of `mode`.
pub fn status_view_mode_label(language: AppLanguage, mode: ViewMode) -> (r: &'static str)
    ensures
        r@ == view_mode_name(language, mode),
{
    match mode {
        ViewMode::Source => text(language, "Source mode", "源码模式"),
        ViewMode::Hybrid => text(language, "Hybrid mode", "混合模式"),
        ViewMode::Preview => text(language, "Preview mode", "预览模式"),
    }
}

/// The name of a save status.
pub open spec fn save_status_name(language: AppLanguage, status: SaveStatus) -> Seq<char> {
    match status {
        SaveStatus::Saved => tr(language, "Saved"@, "已保存"@),
        SaveStatus::Dirty => tr(language, "Unsaved"@, "未保存"@),
        SaveStatus::Saving => tr(language, "Saving"@, "保存中"@),
        SaveStatus::Conflict => tr(language, "Conflict"@, "冲突"@),
        SaveStatus::Failed => tr(language, "Save failed"@, "保存失败"@),
    }
}

/// The name of `status`.
pub fn save_status_label(language: AppLanguage, status: SaveStatus) -> (r: &'static str)
    ensures
        r@ == save_status_name(language, status),
{
    match status {
        SaveStatus::Saved => text(language, "Saved", "已保存"),
        SaveStatus::Dirty => text(language, "Unsaved", "未保存"),
        SaveStatus::Saving => text(language, "Saving", "保存中"),
        SaveStatus::Conflict => text(language, "Conflict", "冲突"),
        SaveStatus::Failed => text(language, "Save failed", "保存失败"),
    }
}

/// What the trash holds, for `count` deleted notes: nothing, one note, or
/// a number of notes.
pub open spec fn deleted_notes_text(language: AppLanguage, count: nat) -> Seq<char> {
    if count == 0 {
        tr(language, "No deleted notes"@, "没有已删除的笔记"@)
    } else {
        match language {
            AppLanguage::English => "Review "@ + decimal(count) + (if count == 1 {
                " deleted note"@
            } else {
                " deleted notes"@
            }),
            AppLanguage::Chinese => "查看 "@ + decimal(count) + " 篇已删除的笔记"@,
        }
    }
}

/// The detail line of the action that opens the trash.
pub fn trash_action_detail(language: AppLanguage, count: usize) -> (r: String)
    ensures
        r@ == deleted_notes_text(language, count as nat),
{
    if count == 0 {
        return text(language, "No deleted notes", "没有已删除的笔记").to_owned();
    }
    let digits = decimal_chars(count as u64);
    let r = match language {
        AppLanguage::English => {
            let tail = if count == 1 {
                " deleted note"
            } else {
                " deleted notes"
            };
            concat(&concat(&chars_of("Review "), &digits), &chars_of(tail))
        },
        AppLanguage::Chinese => concat(
            &concat(&chars_of("查看 "), &digits),
            &chars_of(" 篇已删除的笔记"),
        ),
    };
    string_from(r.as_slice())
}

} // verus!
