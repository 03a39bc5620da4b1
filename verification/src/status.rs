//! What the status bar, the tab strip, the header and the search panel
//! show about the editor and the workspace.
use vstd::prelude::*;
use crate::labels::{save_status_label, save_status_name, status_view_mode_label, view_mode_name};
use crate::models::{text, tr, view_mode_str, view_mode_value, AppLanguage, SaveStatus, ViewMode};
use crate::primitives::{DropdownOption, InlineAlertTone, StatusTone};
use crate::text::{chars_of, concat, contains_seq, decimal, decimal_chars, has_prefix, string_from, trim, trimmed};

verus! {

broadcast use vstd::string::group_string_axioms;

// ---------------------------------------------------------------------
// Status bar
// ---------------------------------------------------------------------

/// One item of the status bar.
#[derive(Debug, Clone, PartialEq, Eq)]
pub struct StatusBarItem {
    pub label: String,
    pub tone: StatusTone,
}

/// The view of a status bar item.
pub open spec fn status_item_view(item: StatusBarItem) -> (Seq<char>, StatusTone) {
    (item.label@, item.tone)
}

/// The views of status bar items.
pub open spec fn status_items_view(items: Seq<StatusBarItem>) -> Seq<(Seq<char>, StatusTone)> {
    items.map_values(|i: StatusBarItem| status_item_view(i))
}

/// How a save status is styled: saving, attention for anything not on
/// disk, plain when saved.
pub open spec fn save_tone(status: SaveStatus) -> StatusTone {
    match status {
        SaveStatus::Saving => StatusTone::Saving,
        SaveStatus::Conflict | SaveStatus::Failed | SaveStatus::Dirty => StatusTone::Attention,
        SaveStatus::Saved => StatusTone::Default,
    }
}

/// How the status bar styles `status`.
pub fn save_status_tone(status: SaveStatus) -> (r: StatusTone)
    ensures
        r == save_tone(status),
{
    match status {
        SaveStatus::Saving => StatusTone::Saving,
        SaveStatus::Conflict | SaveStatus::Failed | SaveStatus::Dirty => StatusTone::Attention,
        SaveStatus::Saved => StatusTone::Default,
    }
}

/// The status bar items for the active tab: its save status, unless it is
/// saved; nothing without an active tab.
pub open spec fn status_items(has_active_tab: bool, status: SaveStatus, language: AppLanguage) -> Seq<
    (Seq<char>, StatusTone),
> {
    if !has_active_tab || status == SaveStatus::Saved {
        Seq::empty()
    } else {
        seq![(save_status_name(language, status), save_tone(status))]
    }
}

/// The status bar items for the active tab.
pub fn status_bar_items(has_active_tab: bool, active_save_status: SaveStatus, language: AppLanguage) -> (r:
    Vec<StatusBarItem>)
    ensures
        status_items_view(r@) == status_items(has_active_tab, active_save_status, language),
{
    let mut items: Vec<StatusBarItem> = Vec::new();
    if has_active_tab && active_save_status != SaveStatus::Saved {
        items.push(
            StatusBarItem {
                label: save_status_label(language, active_save_status).to_owned(),
                tone: save_status_tone(active_save_status),
            },
        );
    }
    assert(status_items_view(items@) =~= status_items(has_active_tab, active_save_status, language));
    items
}

/// `n` followed by the unit `one` or `many` (English) or `zh` (Chinese).
pub open spec fn count_text(language: AppLanguage, n: nat, one: Seq<char>, many: Seq<char>, zh: Seq<char>) -> Seq<
    char,
> {
    match language {
        AppLanguage::English => decimal(n) + seq![' '] + if n == 1 {
            one
        } else {
            many
        },
        AppLanguage::Chinese => decimal(n) + seq![' '] + zh,
    }
}

/// `n` and a unit.
fn count_label(language: AppLanguage, n: usize, one: &str, many: &str, zh: &str) -> (r: String)
    ensures
        r@ == count_text(language, n as nat, one@, many@, zh@),
{
    let mut head = decimal_chars(n as u64);
    head.push(' ');
    let unit = match language {
        AppLanguage::English => {
            if n == 1 {
                one
            } else {
                many
            }
        },
        AppLanguage::Chinese => zh,
    };
    string_from(concat(&head, &chars_of(unit)).as_slice())
}

/// The number of characters, with its unit.
pub fn char_count_label(language: AppLanguage, count: usize) -> (r: String)
    ensures
        r@ == count_text(language, count as nat, "char"@, "chars"@, "字符"@),
{
    count_label(language, count, "char", "chars", "字符")
}

/// The statistics of the active note: words, characters and lines; none
/// without an active tab or while they are out of date.
pub open spec fn status_stats(
    has_active_tab: bool,
    stats_revision: Option<u64>,
    words: nat,
    chars: nat,
    lines: nat,
    language: AppLanguage,
) -> Seq<(Seq<char>, StatusTone)> {
    if !has_active_tab || stats_revision is None {
        Seq::empty()
    } else {
        seq![
            (count_text(language, words, "word"@, "words"@, "词"@), StatusTone::Default),
            (count_text(language, chars, "char"@, "chars"@, "字符"@), StatusTone::Default),
            (count_text(language, lines, "line"@, "lines"@, "行"@), StatusTone::Default),
        ]
    }
}

/// The statistics items of the status bar.
pub fn status_bar_stats(
    has_active_tab: bool,
    active_stats_revision: Option<u64>,
    word_count: usize,
    char_count: usize,
    line_count: usize,
    language: AppLanguage,
) -> (r: Vec<StatusBarItem>)
    ensures
        status_items_view(r@) == status_stats(
            has_active_tab,
            active_stats_revision,
            word_count as nat,
            char_count as nat,
            line_count as nat,
            language,
        ),
{
    let mut items: Vec<StatusBarItem> = Vec::new();
    if has_active_tab && active_stats_revision.is_some() {
        items.push(
            StatusBarItem {
                label: count_label(language, word_count, "word", "words", "词"),
                tone: StatusTone::Default,
            },
        );
        items.push(StatusBarItem { label: char_count_label(language, char_count), tone: StatusTone::Default });
        items.push(
            StatusBarItem {
                label: count_label(language, line_count, "line", "lines", "行"),
                tone: StatusTone::Default,
            },
        );
    }
    assert(status_items_view(items@) =~= status_stats(
        has_active_tab,
        active_stats_revision,
        word_count as nat,
        char_count as nat,
        line_count as nat,
        language,
    ));
    items
}

/// A status message announcing a loaded workspace: it starts (once
/// trimmed) with `Loaded ` and mentions ` notes from `.
pub open spec fn is_loaded_notice(message: Seq<char>) -> bool {
    has_prefix(trim(message), "Loaded "@) && contains_seq(trim(message), " notes from "@)
}

/// Whether `message` announces a loaded workspace.
pub fn is_workspace_loaded_message(message: &str) -> (b: bool)
    ensures
        b == is_loaded_notice(message@),
{
    let t = trimmed(&chars_of(message));
    crate::text::starts_with(&t, &chars_of("Loaded ")) && crate::text::contains_chars(&t, &chars_of(" notes from "))
}

/// The status message to show: any message but a loaded-workspace notice.
pub fn visible_status_message(message: Option<String>) -> (r: Option<String>)
    ensures
        r == match message {
            Some(m) => if is_loaded_notice(m@) {
                None
            } else {
                Some(m)
            },
            None => None,
        },
{
    match message {
        Some(m) => {
            if is_workspace_loaded_message(m.as_str()) {
                None
            } else {
                Some(m)
            }
        },
        None => None,
    }
}

/// The view modes offered by the status bar, in order.
pub open spec fn editor_view_mode_list() -> Seq<ViewMode> {
    seq![ViewMode::Source, ViewMode::Hybrid, ViewMode::Preview]
}

/// The view modes offered by the status bar.
pub fn editor_view_modes() -> (r: [ViewMode; 3])
    ensures
        r@ == editor_view_mode_list(),
{
    let r = [ViewMode::Source, ViewMode::Hybrid, ViewMode::Preview];
    assert(r@ =~= editor_view_mode_list());
    r
}

/// The dropdown options of the view mode switch: each mode's name and
/// stored value.
pub fn view_mode_options(language: AppLanguage) -> (r: Vec<DropdownOption>)
    ensures
        r.len() == 3,
        forall|i: int|
            0 <= i < 3 ==> (#[trigger] r@[i]).label@ == view_mode_name(language, editor_view_mode_list()[i])
                && r@[i].value@ == view_mode_str(editor_view_mode_list()[i]),
{
    let modes = editor_view_modes();
    let mut r: Vec<DropdownOption> = Vec::new();
    let mut i: usize = 0;
    while i < 3
        invariant
            i <= 3,
            modes@ == editor_view_mode_list(),
            r.len() == i,
            forall|k: int|
                0 <= k < i ==> (#[trigger] r@[k]).label@ == view_mode_name(language, editor_view_mode_list()[k])
                    && r@[k].value@ == view_mode_str(editor_view_mode_list()[k]),
        decreases 3 - i,
    {
        let mode = modes[i];
        r.push(DropdownOption::new(status_view_mode_label(language, mode), view_mode_value(mode)));
        i = i + 1;
    }
    r
}

// ---------------------------------------------------------------------
// Tab strip
// ---------------------------------------------------------------------

/// The marker a tab shows for its save state.
#[derive(Debug, Clone, Copy, PartialEq, Eq)]
pub struct TabSaveStatusIndicator {
    pub class_name: &'static str,
    pub label: &'static str,
    pub marker: &'static str,
}

/// The view of a tab marker: class, label and marker text.
pub open spec fn indicator_view(i: TabSaveStatusIndicator) -> (Seq<char>, Seq<char>, Seq<char>) {
    (i.class_name@, i.label@, i.marker@)
}

/// The marker of a tab with save status `status`: saving, failed and
/// conflicting tabs say so, dirty tabs (or saved tabs with unsaved edits)
/// show `*`, saved tabs nothing.
pub open spec fn tab_indicator(language: AppLanguage, status: SaveStatus, is_dirty: bool) -> Option<
    (Seq<char>, Seq<char>, Seq<char>),
> {
    match status {
        SaveStatus::Saving => Some(("saving"@, save_status_name(language, SaveStatus::Saving), "..."@)),
        SaveStatus::Failed => Some(("failed"@, save_status_name(language, SaveStatus::Failed), "!"@)),
        SaveStatus::Conflict => Some(
            (
                "conflict"@,
                tr(language, "File changed outside Papyro"@, "文件已在 Papyro 外部更改"@),
                "!"@,
            ),
        ),
        SaveStatus::Dirty => Some(("dirty"@, tr(language, "Unsaved changes"@, "未保存的更改"@), "*"@)),
        SaveStatus::Saved => if is_dirty {
            Some(("dirty"@, tr(language, "Unsaved changes"@, "未保存的更改"@), "*"@))
        } else {
            None
        },
    }
}

/// The marker of a tab.
pub fn tab_save_status_indicator(language: AppLanguage, save_status: SaveStatus, is_dirty: bool) -> (r:
    Option<TabSaveStatusIndicator>)
    ensures
        match r {
            Some(i) => tab_indicator(language, save_status, is_dirty) == Some(indicator_view(i)),
            None => tab_indicator(language, save_status, is_dirty) is None,
        },
{
    match save_status {
        SaveStatus::Saving => Some(
            TabSaveStatusIndicator {
                class_name: "saving",
                label: save_status_label(language, SaveStatus::Saving),
                marker: "...",
            },
        ),
        SaveStatus::Failed => Some(
            TabSaveStatusIndicator {
                class_name: "failed",
                label: save_status_label(language, SaveStatus::Failed),
                marker: "!",
            },
        ),
        SaveStatus::Conflict => Some(
            TabSaveStatusIndicator {
                class_name: "conflict",
                label: text(language, "File changed outside Papyro", "文件已在 Papyro 外部更改"),
                marker: "!",
            },
        ),
        SaveStatus::Dirty => Some(
            TabSaveStatusIndicator {
                class_name: "dirty",
                label: text(language, "Unsaved changes", "未保存的更改"),
                marker: "*",
            },
        ),
        SaveStatus::Saved => {
            if is_dirty {
                Some(
                    TabSaveStatusIndicator {
                        class_name: "dirty",
                        label: text(language, "Unsaved changes", "未保存的更改"),
                        marker: "*",
                    },
                )
            } else {
                None
            }
        },
    }
}

/// The stored form of a save status.
pub open spec fn save_status_str(status: SaveStatus) -> Seq<char> {
    match status {
        SaveStatus::Saved => "saved"@,
        SaveStatus::Dirty => "dirty"@,
        SaveStatus::Saving => "saving"@,
        SaveStatus::Conflict => "conflict"@,
        SaveStatus::Failed => "failed"@,
    }
}

/// The value of a tab's save status attribute.
pub fn save_status_attr(save_status: SaveStatus) -> (r: &'static str)
    ensures
        r@ == save_status_str(save_status),
{
    match save_status {
        SaveStatus::Saved => "saved",
        SaveStatus::Dirty => "dirty",
        SaveStatus::Saving => "saving",
        SaveStatus::Conflict => "conflict",
        SaveStatus::Failed => "failed",
    }
}

/// The label of the button that closes the tab titled `title`.
pub fn close_label(language: AppLanguage, title: &str) -> (r: String)
    ensures
        r@ == tr(language, "Close"@, "关闭"@) + seq![' '] + title@,
{
    let mut head = chars_of(text(language, "Close", "关闭"));
    head.push(' ');
    string_from(concat(&head, &chars_of(title)).as_slice())
}

// ---------------------------------------------------------------------
// Header and search panel
// ---------------------------------------------------------------------

/// The icon of the sidebar button: a menu when the sidebar is collapsed,
/// a panel otherwise.
pub fn sidebar_icon(collapsed: bool) -> (r: &'static str)
    ensures
        r@ == (if collapsed {
            "\u{2630}"@
        } else {
            "\u{25E7}"@
        }),
{
    if collapsed {
        "\u{2630}"
    } else {
        "\u{25E7}"
    }
}

/// What the search panel says when it lists no result: ready for a blank
/// query, searching while loading, the error when there is one, else that
/// nothing matches.
pub open spec fn empty_search_text(
    language: AppLanguage,
    query: Seq<char>,
    is_loading: bool,
    error: Option<Seq<char>>,
) -> Seq<char> {
    if trim(query).len() == 0 {
        tr(language, "Ready"@, "就绪"@)
    } else if is_loading {
        tr(language, "Searching notes..."@, "正在搜索笔记..."@)
    } else {
        match error {
            Some(e) => e,
            None => tr(language, "No matching notes"@, "没有匹配的笔记"@),
        }
    }
}

/// What the search panel says when it lists no result.
pub fn empty_search_message(language: AppLanguage, query: &str, is_loading: bool, error: Option<&str>) -> (r:
    String)
    ensures
        r@ == empty_search_text(
            language,
            query@,
            is_loading,
            match error {
                Some(e) => Some(e@),
                None => None,
            },
        ),
{
    if trimmed(&chars_of(query)).len() == 0 {
        return text(language, "Ready", "就绪").to_owned();
    }
    if is_loading {
        return text(language, "Searching notes...", "正在搜索笔记...").to_owned();
    }
    match error {
        Some(e) => e.to_owned(),
        None => text(language, "No matching notes", "没有匹配的笔记").to_owned(),
    }
}

/// How the empty search panel is styled: danger for an error, neutral
/// while loading or for a blank query, attention when nothing matches.
pub fn empty_search_tone(query: &str, is_loading: bool, error: Option<&str>) -> (r: InlineAlertTone)
    ensures
        r == (if error is Some {
            InlineAlertTone::Danger
        } else if is_loading || trim(query@).len() == 0 {
            InlineAlertTone::Neutral
        } else {
            InlineAlertTone::Attention
        }),
{
    if error.is_some() {
        return InlineAlertTone::Danger;
    }
    if is_loading || trimmed(&chars_of(query)).len() == 0 {
        return InlineAlertTone::Neutral;
    }
    InlineAlertTone::Attention
}

} // verus!
