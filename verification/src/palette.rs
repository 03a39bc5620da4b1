//! The command palette: which actions it offers for the state of the
//! workspace and the editor, the Markdown snippets it can insert, and how
//! a query narrows the list.
use vstd::prelude::*;
use crate::commands::{ChromeTrigger, SetViewModeRequest};
use crate::labels::{deleted_notes_text, open_note_label, open_note_text, theme_label, theme_name, trash_action_detail};
use crate::models::{text, tr, AppLanguage, SaveStatus, Theme, ViewMode};
use crate::paths::{join, path_join};
use crate::search::{all_tokens_found, all_tokens_in, query_token_chars, query_token_list};
use crate::text::{
    byte_len, byte_offset, chars_of, concat, find_first, first_occurrence, lowercase,
    lowercase_chars, slice_vec, string_from,
};

verus! {

broadcast use vstd::string::group_string_axioms;

/// At most this many actions are listed for a query.
pub const COMMAND_PALETTE_LIMIT: usize = 24;

// ---------------------------------------------------------------------
// Actions
// ---------------------------------------------------------------------

/// A Markdown file to open.
#[derive(Debug, Clone, PartialEq, Eq)]
pub struct OpenMarkdownTarget {
    pub path: String,
}

/// Markdown to insert into a tab, with the byte offset at which the
/// cursor goes, if any.
#[derive(Debug, Clone, PartialEq, Eq)]
pub struct InsertMarkdownRequest {
    pub tab_id: String,
    pub markdown: String,
    pub cursor_offset: Option<usize>,
}

/// What running a palette action does.
#[derive(Debug, Clone, PartialEq, Eq)]
pub enum CommandPaletteActionKind {
    OpenWorkspace,
    OpenWorkspacePath(String),
    OpenMarkdown(OpenMarkdownTarget),
    RefreshWorkspace,
    SaveActiveNote,
    ReloadConflictedActiveNote,
    OverwriteActiveNote,
    SaveConflictedActiveNoteAs,
    CloseActiveTab(String),
    ToggleSidebar,
    ToggleOutline,
    ToggleTheme,
    OpenSettings,
    OpenTrash,
    SetViewMode(ViewMode),
    SetSelectedFavorite(bool),
    InsertMarkdown(InsertMarkdownRequest),
}

/// One entry of the command palette.
#[derive(Debug, Clone, PartialEq, Eq)]
pub struct CommandPaletteAction {
    pub title: String,
    pub detail: String,
    pub group: String,
    pub kind: CommandPaletteActionKind,
}

/// What an action kind does, with its strings as characters.
pub enum KindView {
    OpenWorkspace,
    OpenWorkspacePath(Seq<char>),
    OpenMarkdown(Seq<char>),
    RefreshWorkspace,
    SaveActiveNote,
    ReloadConflictedActiveNote,
    OverwriteActiveNote,
    SaveConflictedActiveNoteAs,
    CloseActiveTab(Seq<char>),
    ToggleSidebar,
    ToggleOutline,
    ToggleTheme,
    OpenSettings,
    OpenTrash,
    SetViewMode(ViewMode),
    SetSelectedFavorite(bool),
    InsertMarkdown(Seq<char>, Seq<char>, Option<usize>),
}

/// A palette action, with its strings as characters.
pub struct ActionView {
    pub title: Seq<char>,
    pub detail: Seq<char>,
    pub group: Seq<char>,
    pub kind: KindView,
}

/// The view of an action kind.
pub open spec fn kind_view(k: CommandPaletteActionKind) -> KindView {
    match k {
        CommandPaletteActionKind::OpenWorkspace => KindView::OpenWorkspace,
        CommandPaletteActionKind::OpenWorkspacePath(p) => KindView::OpenWorkspacePath(p@),
        CommandPaletteActionKind::OpenMarkdown(t) => KindView::OpenMarkdown(t.path@),
        CommandPaletteActionKind::RefreshWorkspace => KindView::RefreshWorkspace,
        CommandPaletteActionKind::SaveActiveNote => KindView::SaveActiveNote,
        CommandPaletteActionKind::ReloadConflictedActiveNote => KindView::ReloadConflictedActiveNote,
        CommandPaletteActionKind::OverwriteActiveNote => KindView::OverwriteActiveNote,
        CommandPaletteActionKind::SaveConflictedActiveNoteAs => KindView::SaveConflictedActiveNoteAs,
        CommandPaletteActionKind::CloseActiveTab(t) => KindView::CloseActiveTab(t@),
        CommandPaletteActionKind::ToggleSidebar => KindView::ToggleSidebar,
        CommandPaletteActionKind::ToggleOutline => KindView::ToggleOutline,
        CommandPaletteActionKind::ToggleTheme => KindView::ToggleTheme,
        CommandPaletteActionKind::OpenSettings => KindView::OpenSettings,
        CommandPaletteActionKind::OpenTrash => KindView::OpenTrash,
        CommandPaletteActionKind::SetViewMode(m) => KindView::SetViewMode(m),
        CommandPaletteActionKind::SetSelectedFavorite(f) => KindView::SetSelectedFavorite(f),
        CommandPaletteActionKind::InsertMarkdown(r) => KindView::InsertMarkdown(
            r.tab_id@,
            r.markdown@,
            r.cursor_offset,
        ),
    }
}

/// The view of an action.
pub open spec fn action_view(a: CommandPaletteAction) -> ActionView {
    ActionView { title: a.title@, detail: a.detail@, group: a.group@, kind: kind_view(a.kind) }
}

/// The views of a list of actions.
pub open spec fn actions_view(s: Seq<CommandPaletteAction>) -> Seq<ActionView> {
    s.map_values(|a: CommandPaletteAction| action_view(a))
}

/// The action view with these parts.
pub open spec fn av(title: Seq<char>, detail: Seq<char>, group: Seq<char>, kind: KindView) -> ActionView {
    ActionView { title, detail, group, kind }
}

/// The action with these parts.
fn action(title: &str, detail: &str, group: &str, kind: CommandPaletteActionKind) -> (a: CommandPaletteAction)
    ensures
        action_view(a) == av(title@, detail@, group@, kind_view(kind)),
{
    CommandPaletteAction {
        title: title.to_owned(),
        detail: detail.to_owned(),
        group: group.to_owned(),
        kind,
    }
}

proof fn lemma_actions_view_concat(a: Seq<CommandPaletteAction>, b: Seq<CommandPaletteAction>)
    ensures
        actions_view(a + b) == actions_view(a) + actions_view(b),
{
    assert(actions_view(a + b) =~= actions_view(a) + actions_view(b));
}

proof fn lemma_actions_view_push(a: Seq<CommandPaletteAction>, x: CommandPaletteAction)
    ensures
        actions_view(a.push(x)) == actions_view(a).push(action_view(x)),
{
    assert(actions_view(a.push(x)) =~= actions_view(a).push(action_view(x)));
}

/// Appends the actions of `b` to `a`.
fn append_actions(a: &mut Vec<CommandPaletteAction>, b: Vec<CommandPaletteAction>)
    ensures
        actions_view(final(a)@) == actions_view(old(a)@) + actions_view(b@),
{
    let mut b = b;
    let ghost a0 = a@;
    let ghost b0 = b@;
    a.append(&mut b);
    proof {
        lemma_actions_view_concat(a0, b0);
    }
}

// ---------------------------------------------------------------------
// Inputs
// ---------------------------------------------------------------------

/// A recently opened workspace.
#[derive(Debug, Clone, PartialEq, Eq)]
pub struct WorkspaceListItem {
    pub name: String,
    pub path: String,
    pub is_current: bool,
}

/// A recently opened note.
#[derive(Debug, Clone, PartialEq, Eq)]
pub struct RecentFileListItem {
    pub title: String,
    pub relative_path: String,
    pub workspace_name: String,
    pub workspace_path: String,
}

/// A note in the trash.
#[derive(Debug, Clone, PartialEq, Eq)]
pub struct TrashedNoteListItem {
    pub note_id: String,
    pub title: String,
    pub relative_path: String,
    pub trashed_at: i64,
}

/// The state of the application that decides which actions are offered.
/// `next_theme` is the theme that toggling the theme switches to.
pub struct CommandPaletteActionInput<'a> {
    pub language: AppLanguage,
    pub has_workspace: bool,
    pub recent_workspaces: &'a [WorkspaceListItem],
    pub recent_files: &'a [RecentFileListItem],
    pub trashed_notes: &'a [TrashedNoteListItem],
    pub active_tab_id: Option<&'a str>,
    pub has_active_tab: bool,
    pub active_save_status: SaveStatus,
    pub selected_note_name: Option<&'a str>,
    pub next_theme: Theme,
    pub view_mode: ViewMode,
    pub outline_visible: bool,
}

/// The name of the selected note: only a selected entry that is not a
/// directory has one.
pub fn selected_note_name<'a>(
    has_selection: bool,
    selected_is_directory: bool,
    selected_name: Option<&'a str>,
) -> (r: Option<&'a str>)
    ensures
        r == (if has_selection && !selected_is_directory {
            selected_name
        } else {
            None
        }),
{
    if has_selection && !selected_is_directory {
        selected_name
    } else {
        None
    }
}

// ---------------------------------------------------------------------
// The sections of the action list
// ---------------------------------------------------------------------

/// The actions that are always offered.
pub open spec fn base_actions(
    lang: AppLanguage,
    has_workspace: bool,
    outline_visible: bool,
    next_theme: Theme,
) -> Seq<ActionView> {
    seq![
        av(
            if has_workspace {
                tr(lang, "Switch workspace"@, "切换工作区"@)
            } else {
                tr(lang, "Open workspace"@, "打开工作区"@)
            },
            tr(lang, "Choose a workspace folder"@, "选择工作区目录"@),
            "APP"@,
            KindView::OpenWorkspace,
        ),
        av(
            tr(lang, "Toggle sidebar"@, "切换侧边栏"@),
            tr(lang, "Show or hide the workspace browser"@, "显示或隐藏工作区文件栏"@),
            "VIEW"@,
            KindView::ToggleSidebar,
        ),
        av(
            if outline_visible {
                tr(lang, "Hide outline"@, "隐藏大纲"@)
            } else {
                tr(lang, "Show outline"@, "显示大纲"@)
            },
            tr(lang, "Toggle the active note heading outline"@, "切换当前笔记的大纲面板"@),
            "VIEW"@,
            KindView::ToggleOutline,
        ),
        av(
            tr(lang, "Toggle theme"@, "切换主题"@),
            "Switch to "@ + theme_name(lang, next_theme),
            "VIEW"@,
            KindView::ToggleTheme,
        ),
        av(
            tr(lang, "Open settings"@, "打开设置"@),
            tr(lang, "Edit app preferences"@, "修改应用偏好"@),
            "APP"@,
            KindView::OpenSettings,
        ),
    ]
}

fn base_actions_exec(
    lang: AppLanguage,
    has_workspace: bool,
    outline_visible: bool,
    next_theme: Theme,
) -> (r: Vec<CommandPaletteAction>)
    ensures
        actions_view(r@) == base_actions(lang, has_workspace, outline_visible, next_theme),
{
    let workspace_title = if has_workspace {
        text(lang, "Switch workspace", "切换工作区")
    } else {
        text(lang, "Open workspace", "打开工作区")
    };
    let outline_title = if outline_visible {
        text(lang, "Hide outline", "隐藏大纲")
    } else {
        text(lang, "Show outline", "显示大纲")
    };
    let theme_detail = string_from(
        concat(&chars_of("Switch to "), &chars_of(theme_label(lang, next_theme))).as_slice(),
    );
    let mut r: Vec<CommandPaletteAction> = Vec::new();
    r.push(
        action(
            workspace_title,
            text(lang, "Choose a workspace folder", "选择工作区目录"),
            "APP",
            CommandPaletteActionKind::OpenWorkspace,
        ),
    );
    r.push(
        action(
            text(lang, "Toggle sidebar", "切换侧边栏"),
            text(lang, "Show or hide the workspace browser", "显示或隐藏工作区文件栏"),
            "VIEW",
            CommandPaletteActionKind::ToggleSidebar,
        ),
    );
    r.push(
        action(
            outline_title,
            text(lang, "Toggle the active note heading outline", "切换当前笔记的大纲面板"),
            "VIEW",
            CommandPaletteActionKind::ToggleOutline,
        ),
    );
    r.push(
        action(
            text(lang, "Toggle theme", "切换主题"),
            theme_detail.as_str(),
            "VIEW",
            CommandPaletteActionKind::ToggleTheme,
        ),
    );
    r.push(
        action(
            text(lang, "Open settings", "打开设置"),
            text(lang, "Edit app preferences", "修改应用偏好"),
            "APP",
            CommandPaletteActionKind::OpenSettings,
        ),
    );
    assert(actions_view(r@) =~= base_actions(lang, has_workspace, outline_visible, next_theme));
    r
}

/// An action that opens each recent workspace other than the current one,
/// in order.
pub open spec fn workspace_path_actions(lang: AppLanguage, ws: Seq<WorkspaceListItem>) -> Seq<
    ActionView,
>
    decreases ws.len(),
{
    if ws.len() == 0 {
        Seq::empty()
    } else {
        let rest = workspace_path_actions(lang, ws.drop_last());
        let w = ws.last();
        if w.is_current {
            rest
        } else {
            rest.push(
                av(open_note_text(lang, w.name@), w.path@, "WS"@, KindView::OpenWorkspacePath(w.path@)),
            )
        }
    }
}

fn workspace_path_actions_exec(lang: AppLanguage, ws: &[WorkspaceListItem]) -> (r: Vec<
    CommandPaletteAction,
>)
    ensures
        actions_view(r@) == workspace_path_actions(lang, ws@),
{
    let mut r: Vec<CommandPaletteAction> = Vec::new();
    let mut i: usize = 0;
    while i < ws.len()
        invariant
            i <= ws.len(),
            actions_view(r@) == workspace_path_actions(lang, ws@.take(i as int)),
        decreases ws.len() - i,
    {
        assert(ws@.take(i + 1).drop_last() =~= ws@.take(i as int));
        let w = &ws[i];
        if !w.is_current {
            let title = open_note_label(lang, w.name.as_str());
            let a = action(
                title.as_str(),
                w.path.as_str(),
                "WS",
                CommandPaletteActionKind::OpenWorkspacePath(w.path.clone()),
            );
            proof {
                lemma_actions_view_push(r@, a);
            }
            r.push(a);
        }
        i = i + 1;
    }
    assert(ws@.take(ws.len() as int) =~= ws@);
    r
}

/// An action that opens each recent note, in order.
pub open spec fn recent_file_actions(lang: AppLanguage, fs: Seq<RecentFileListItem>) -> Seq<
    ActionView,
>
    decreases fs.len(),
{
    if fs.len() == 0 {
        Seq::empty()
    } else {
        let f = fs.last();
        recent_file_actions(lang, fs.drop_last()).push(
            av(
                open_note_text(lang, f.title@),
                f.workspace_name@ + " / "@ + f.relative_path@,
                "REC"@,
                KindView::OpenMarkdown(join(f.workspace_path@, f.relative_path@)),
            ),
        )
    }
}

fn recent_file_actions_exec(lang: AppLanguage, fs: &[RecentFileListItem]) -> (r: Vec<
    CommandPaletteAction,
>)
    ensures
        actions_view(r@) == recent_file_actions(lang, fs@),
{
    let mut r: Vec<CommandPaletteAction> = Vec::new();
    let mut i: usize = 0;
    while i < fs.len()
        invariant
            i <= fs.len(),
            actions_view(r@) == recent_file_actions(lang, fs@.take(i as int)),
        decreases fs.len() - i,
    {
        assert(fs@.take(i + 1).drop_last() =~= fs@.take(i as int));
        let f = &fs[i];
        let title = open_note_label(lang, f.title.as_str());
        let detail = concat(
            &concat(&chars_of(f.workspace_name.as_str()), &chars_of(" / ")),
            &chars_of(f.relative_path.as_str()),
        );
        let detail = string_from(detail.as_slice());
        let path = path_join(&chars_of(f.workspace_path.as_str()), &chars_of(f.relative_path.as_str()));
        let a = action(
            title.as_str(),
            detail.as_str(),
            "REC",
            CommandPaletteActionKind::OpenMarkdown(
                OpenMarkdownTarget { path: string_from(path.as_slice()) },
            ),
        );
        proof {
            lemma_actions_view_push(r@, a);
        }
        r.push(a);
        i = i + 1;
    }
    assert(fs@.take(fs.len() as int) =~= fs@);
    r
}

/// The actions offered while a workspace is open.
pub open spec fn workspace_actions(lang: AppLanguage, has_workspace: bool, trashed: nat) -> Seq<
    ActionView,
> {
    if has_workspace {
        seq![
            av(
                tr(lang, "Open trash"@, "打开回收站"@),
                deleted_notes_text(lang, trashed),
                "APP"@,
                KindView::OpenTrash,
            ),
            av(
                tr(lang, "Refresh workspace"@, "刷新工作区"@),
                tr(lang, "Reload the file tree"@, "重新加载文件树"@),
                "APP"@,
                KindView::RefreshWorkspace,
            ),
        ]
    } else {
        Seq::empty()
    }
}

fn workspace_actions_exec(lang: AppLanguage, has_workspace: bool, trashed: usize) -> (r: Vec<
    CommandPaletteAction,
>)
    ensures
        actions_view(r@) == workspace_actions(lang, has_workspace, trashed as nat),
{
    let mut r: Vec<CommandPaletteAction> = Vec::new();
    if has_workspace {
        let detail = trash_action_detail(lang, trashed);
        r.push(
            action(
                text(lang, "Open trash", "打开回收站"),
                detail.as_str(),
                "APP",
                CommandPaletteActionKind::OpenTrash,
            ),
        );
        r.push(
            action(
                text(lang, "Refresh workspace", "刷新工作区"),
                text(lang, "Reload the file tree", "重新加载文件树"),
                "APP",
                CommandPaletteActionKind::RefreshWorkspace,
            ),
        );
    }
    assert(actions_view(r@) =~= workspace_actions(lang, has_workspace, trashed as nat));
    r
}

// ---------------------------------------------------------------------
// Markdown snippets
// ---------------------------------------------------------------------

/// Where the cursor goes in a snippet template.
pub open spec fn cursor_marker() -> Seq<char> {
    "{|cursor|}"@
}

/// The Markdown of a snippet template: the template without its first
/// cursor marker.
pub open spec fn template_markdown(t: Seq<char>) -> Seq<char> {
    match first_occurrence(t, cursor_marker()) {
        Some(i) => t.take(i) + t.skip(i + cursor_marker().len()),
        None => t,
    }
}

/// The cursor of a snippet template: the byte offset of its first cursor
/// marker, if it has one.
pub open spec fn template_cursor(t: Seq<char>) -> Option<usize> {
    match first_occurrence(t, cursor_marker()) {
        Some(i) => Some(byte_len(t.take(i)) as usize),
        None => None,
    }
}

/// Splits a snippet template into its Markdown and the byte offset of the
/// cursor.
pub fn markdown_insert_template(template: &str) -> (r: (String, Option<usize>))
    ensures
        r.0@ == template_markdown(template@),
        r.1 == template_cursor(template@),
{
    let t = chars_of(template);
    let marker = chars_of("{|cursor|}");
    match find_first(&t, &marker) {
        None => (template.to_owned(), None),
        Some(i) => {
            proof {
                crate::text::lemma_first_occurrence_bound(t@, marker@);
            }
            let n = crate::search::str_byte_len(template);
            let offset = byte_offset(&t, i);
            let head = slice_vec(&t, 0, i);
            let tail = slice_vec(&t, i + marker.len(), t.len());
            assert(head@ =~= t@.take(i as int));
            assert(tail@ =~= t@.skip(i + marker@.len()));
            (string_from(concat(&head, &tail).as_slice()), Some(offset))
        },
    }
}

/// Putting the cursor marker back where the cursor is gives the template
/// again (the cursor counted in characters).
pub proof fn template_round_trip(t: Seq<char>)
    ensures
        match first_occurrence(t, cursor_marker()) {
            Some(i) => template_markdown(t).take(i) + cursor_marker() + template_markdown(t).skip(i)
                == t,
            None => template_markdown(t) == t,
        },
{
    crate::text::lemma_first_occurrence_bound(t, cursor_marker());
    match first_occurrence(t, cursor_marker()) {
        Some(i) => {
            let m = template_markdown(t);
            assert(m.take(i) =~= t.take(i));
            assert(m.skip(i) =~= t.skip(i + cursor_marker().len()));
            assert(t.subrange(i, i + cursor_marker().len()) =~= cursor_marker());
            assert(m.take(i) + cursor_marker() + m.skip(i) =~= t);
        },
        None => {},
    }
}

/// An action that inserts a snippet into the tab `tab`.
pub open spec fn insert_action(
    lang: AppLanguage,
    tab: Seq<char>,
    title_en: Seq<char>,
    title_zh: Seq<char>,
    detail_en: Seq<char>,
    detail_zh: Seq<char>,
    template: Seq<char>,
) -> ActionView {
    av(
        tr(lang, title_en, title_zh),
        tr(lang, detail_en, detail_zh),
        "INSERT"@,
        KindView::InsertMarkdown(tab, template_markdown(template), template_cursor(template)),
    )
}

fn insert_action_exec(
    lang: AppLanguage,
    tab: &str,
    title_en: &'static str,
    title_zh: &'static str,
    detail_en: &'static str,
    detail_zh: &'static str,
    template: &'static str,
) -> (a: CommandPaletteAction)
    ensures
        action_view(a) == insert_action(lang, tab@, title_en@, title_zh@, detail_en@, detail_zh@, template@),
{
    let (markdown, cursor_offset) = markdown_insert_template(template);
    action(
        text(lang, title_en, title_zh),
        text(lang, detail_en, detail_zh),
        "INSERT",
        CommandPaletteActionKind::InsertMarkdown(
            InsertMarkdownRequest { tab_id: tab.to_owned(), markdown, cursor_offset },
        ),
    )
}

/// The snippet actions for the tab `tab`.
pub open spec fn insert_actions(lang: AppLanguage, tab: Seq<char>) -> Seq<ActionView> {
    seq![
        insert_action(lang, tab, "Insert table"@, "插入表格"@, "Add a basic Markdown table"@,
            "添加基础 Markdown 表格"@, "\n| Column | Value |\n| --- | --- |\n| {|cursor|} |  |\n"@),
        insert_action(lang, tab, "Insert code block"@, "插入代码块"@, "Add a fenced code block"@,
            "添加围栏代码块"@, "\n```text\n{|cursor|}\n```\n"@),
        insert_action(lang, tab, "Insert link"@, "插入链接"@, "Add Markdown link syntax"@,
            "添加 Markdown 链接语法"@, "[link text]({|cursor|}https://example.com)"@),
        insert_action(lang, tab, "Insert image"@, "插入图片"@, "Add Markdown image syntax"@,
            "添加 Markdown 图片语法"@, "![alt text]({|cursor|}assets/image.png)"@),
        insert_action(lang, tab, "Insert callout"@, "插入提示块"@, "Add a portable Markdown callout"@,
            "添加可移植的 Markdown 提示块"@, "\n> [!NOTE]\n> {|cursor|}\n"@),
        insert_action(lang, tab, "Insert inline math"@, "插入行内公式"@,
            "Add an inline KaTeX expression"@, "添加行内 KaTeX 公式"@, "${|cursor|}$"@),
        insert_action(lang, tab, "Insert math block"@, "插入公式块"@, "Add a display math block"@,
            "添加独立数学公式"@, "\n$$\n{|cursor|}\n$$\n"@),
        insert_action(lang, tab, "Insert Mermaid diagram"@, "插入 Mermaid 图"@,
            "Add a live Mermaid diagram block"@, "添加可预览的 Mermaid 图表"@,
            "\n```mermaid\nflowchart TD\n    A[Start] --> B[Finish]{|cursor|}\n```\n"@),
        insert_action(lang, tab, "Insert task list"@, "插入任务列表"@, "Add a Markdown checklist item"@,
            "添加 Markdown 待办项"@, "\n- [ ] {|cursor|}\n"@),
    ]
}

/// The snippet actions for the tab `tab_id`.
pub fn markdown_insert_actions(lang: AppLanguage, tab_id: &str) -> (r: Vec<CommandPaletteAction>)
    ensures
        actions_view(r@) == insert_actions(lang, tab_id@),
{
    let mut r: Vec<CommandPaletteAction> = Vec::new();
    r.push(insert_action_exec(lang, tab_id, "Insert table", "插入表格", "Add a basic Markdown table",
        "添加基础 Markdown 表格", "\n| Column | Value |\n| --- | --- |\n| {|cursor|} |  |\n"));
    r.push(insert_action_exec(lang, tab_id, "Insert code block", "插入代码块", "Add a fenced code block",
        "添加围栏代码块", "\n```text\n{|cursor|}\n```\n"));
    r.push(insert_action_exec(lang, tab_id, "Insert link", "插入链接", "Add Markdown link syntax",
        "添加 Markdown 链接语法", "[link text]({|cursor|}https://example.com)"));
    r.push(insert_action_exec(lang, tab_id, "Insert image", "插入图片", "Add Markdown image syntax",
        "添加 Markdown 图片语法", "![alt text]({|cursor|}assets/image.png)"));
    r.push(insert_action_exec(lang, tab_id, "Insert callout", "插入提示块",
        "Add a portable Markdown callout", "添加可移植的 Markdown 提示块", "\n> [!NOTE]\n> {|cursor|}\n"));
    r.push(insert_action_exec(lang, tab_id, "Insert inline math", "插入行内公式",
        "Add an inline KaTeX expression", "添加行内 KaTeX 公式", "${|cursor|}$"));
    r.push(insert_action_exec(lang, tab_id, "Insert math block", "插入公式块", "Add a display math block",
        "添加独立数学公式", "\n$$\n{|cursor|}\n$$\n"));
    r.push(insert_action_exec(lang, tab_id, "Insert Mermaid diagram", "插入 Mermaid 图",
        "Add a live Mermaid diagram block", "添加可预览的 Mermaid 图表",
        "\n```mermaid\nflowchart TD\n    A[Start] --> B[Finish]{|cursor|}\n```\n"));
    r.push(insert_action_exec(lang, tab_id, "Insert task list", "插入任务列表",
        "Add a Markdown checklist item", "添加 Markdown 待办项", "\n- [ ] {|cursor|}\n"));
    assert(actions_view(r@) =~= insert_actions(lang, tab_id@));
    r
}

// ---------------------------------------------------------------------
// Tab, selection and view mode actions
// ---------------------------------------------------------------------

/// The actions offered while a tab is active: saving, closing and the
/// snippets when the tab is known, and the ways out of a conflict.
pub open spec fn tab_actions(
    lang: AppLanguage,
    has_active_tab: bool,
    tab: Option<Seq<char>>,
    status: SaveStatus,
) -> Seq<ActionView> {
    if !has_active_tab {
        Seq::empty()
    } else {
        seq![
            av(
                tr(lang, "Save active note"@, "保存当前笔记"@),
                tr(lang, "Write current note changes"@, "写入当前笔记的更改"@),
                "FILE"@,
                KindView::SaveActiveNote,
            ),
        ] + match tab {
            Some(t) => seq![
                av(
                    tr(lang, "Close active note"@, "关闭当前笔记"@),
                    tr(lang, "Close the current tab"@, "关闭当前标签页"@),
                    "FILE"@,
                    KindView::CloseActiveTab(t),
                ),
            ] + insert_actions(lang, t),
            None => Seq::empty(),
        } + if status == SaveStatus::Conflict {
            seq![
                av(
                    tr(lang, "Reload conflicted note"@, "重新加载冲突笔记"@),
                    tr(lang, "Discard editor content and load the disk version"@,
                        "丢弃编辑器内容并加载磁盘版本"@),
                    "FILE"@,
                    KindView::ReloadConflictedActiveNote,
                ),
                av(
                    tr(lang, "Overwrite conflicted note"@, "覆盖冲突笔记"@),
                    tr(lang, "Replace the disk version with editor content"@,
                        "用编辑器内容替换磁盘版本"@),
                    "FILE"@,
                    KindView::OverwriteActiveNote,
                ),
                av(
                    tr(lang, "Save conflicted note as..."@, "将冲突笔记另存为..."@),
                    tr(lang, "Write editor content to another workspace Markdown file"@,
                        "将编辑器内容写入另一个工作区 Markdown 文件"@),
                    "FILE"@,
                    KindView::SaveConflictedActiveNoteAs,
                ),
            ]
        } else {
            Seq::empty()
        }
    }
}

/// The view of an optional string.
pub open spec fn opt_view(o: Option<&str>) -> Option<Seq<char>> {
    match o {
        Some(s) => Some(s@),
        None => None,
    }
}

fn tab_actions_exec(
    lang: AppLanguage,
    has_active_tab: bool,
    tab: Option<&str>,
    status: SaveStatus,
) -> (r: Vec<CommandPaletteAction>)
    ensures
        actions_view(r@) == tab_actions(lang, has_active_tab, opt_view(tab), status),
{
    let mut r: Vec<CommandPaletteAction> = Vec::new();
    if !has_active_tab {
        assert(actions_view(r@) =~= Seq::<ActionView>::empty());
        return r;
    }
    r.push(
        action(
            text(lang, "Save active note", "保存当前笔记"),
            text(lang, "Write current note changes", "写入当前笔记的更改"),
            "FILE",
            CommandPaletteActionKind::SaveActiveNote,
        ),
    );
    let ghost first = actions_view(r@);
    let mut middle: Vec<CommandPaletteAction> = Vec::new();
    match tab {
        Some(tab_id) => {
            middle.push(
                action(
                    text(lang, "Close active note", "关闭当前笔记"),
                    text(lang, "Close the current tab", "关闭当前标签页"),
                    "FILE",
                    CommandPaletteActionKind::CloseActiveTab(tab_id.to_owned()),
                ),
            );
            append_actions(&mut middle, markdown_insert_actions(lang, tab_id));
        },
        None => {},
    }
    assert(actions_view(middle@) =~= match opt_view(tab) {
        Some(t) => seq![
            av(
                tr(lang, "Close active note"@, "关闭当前笔记"@),
                tr(lang, "Close the current tab"@, "关闭当前标签页"@),
                "FILE"@,
                KindView::CloseActiveTab(t),
            ),
        ] + insert_actions(lang, t),
        None => Seq::<ActionView>::empty(),
    });
    let mut conflict: Vec<CommandPaletteAction> = Vec::new();
    if status == SaveStatus::Conflict {
        conflict.push(
            action(
                text(lang, "Reload conflicted note", "重新加载冲突笔记"),
                text(lang, "Discard editor content and load the disk version",
                    "丢弃编辑器内容并加载磁盘版本"),
                "FILE",
                CommandPaletteActionKind::ReloadConflictedActiveNote,
            ),
        );
        conflict.push(
            action(
                text(lang, "Overwrite conflicted note", "覆盖冲突笔记"),
                text(lang, "Replace the disk version with editor content",
                    "用编辑器内容替换磁盘版本"),
                "FILE",
                CommandPaletteActionKind::OverwriteActiveNote,
            ),
        );
        conflict.push(
            action(
                text(lang, "Save conflicted note as...", "将冲突笔记另存为..."),
                text(lang, "Write editor content to another workspace Markdown file",
                    "将编辑器内容写入另一个工作区 Markdown 文件"),
                "FILE",
                CommandPaletteActionKind::SaveConflictedActiveNoteAs,
            ),
        );
    }
    assert(actions_view(conflict@) =~= if status == SaveStatus::Conflict {
        seq![
            av(
                tr(lang, "Reload conflicted note"@, "重新加载冲突笔记"@),
                tr(lang, "Discard editor content and load the disk version"@,
                    "丢弃编辑器内容并加载磁盘版本"@),
                "FILE"@,
                KindView::ReloadConflictedActiveNote,
            ),
            av(
                tr(lang, "Overwrite conflicted note"@, "覆盖冲突笔记"@),
                tr(lang, "Replace the disk version with editor content"@,
                    "用编辑器内容替换磁盘版本"@),
                "FILE"@,
                KindView::OverwriteActiveNote,
            ),
            av(
                tr(lang, "Save conflicted note as..."@, "将冲突笔记另存为..."@),
                tr(lang, "Write editor content to another workspace Markdown file"@,
                    "将编辑器内容写入另一个工作区 Markdown 文件"@),
                "FILE"@,
                KindView::SaveConflictedActiveNoteAs,
            ),
        ]
    } else {
        Seq::<ActionView>::empty()
    });
    append_actions(&mut r, middle);
    append_actions(&mut r, conflict);
    r
}

/// The actions that mark or unmark the selected note as a favorite.
pub open spec fn favorite_actions(lang: AppLanguage, name: Option<Seq<char>>) -> Seq<ActionView> {
    match name {
        Some(n) => seq![
            av(
                tr(lang, "Favorite selected note"@, "收藏所选笔记"@),
                n,
                "FILE"@,
                KindView::SetSelectedFavorite(true),
            ),
            av(
                tr(lang, "Unfavorite selected note"@, "取消收藏所选笔记"@),
                n,
                "FILE"@,
                KindView::SetSelectedFavorite(false),
            ),
        ],
        None => Seq::empty(),
    }
}

fn favorite_actions_exec(lang: AppLanguage, name: Option<&str>) -> (r: Vec<CommandPaletteAction>)
    ensures
        actions_view(r@) == favorite_actions(lang, opt_view(name)),
{
    let mut r: Vec<CommandPaletteAction> = Vec::new();
    if let Some(n) = name {
        r.push(
            action(
                text(lang, "Favorite selected note", "收藏所选笔记"),
                n,
                "FILE",
                CommandPaletteActionKind::SetSelectedFavorite(true),
            ),
        );
        r.push(
            action(
                text(lang, "Unfavorite selected note", "取消收藏所选笔记"),
                n,
                "FILE",
                CommandPaletteActionKind::SetSelectedFavorite(false),
            ),
        );
    }
    assert(actions_view(r@) =~= favorite_actions(lang, opt_view(name)));
    r
}

/// The title of the action that switches to `mode`.
pub open spec fn mode_title(lang: AppLanguage, mode: ViewMode) -> Seq<char> {
    match mode {
        ViewMode::Hybrid => tr(lang, "Use hybrid mode"@, "切换到混合模式"@),
        ViewMode::Source => tr(lang, "Use source mode"@, "切换到源码模式"@),
        ViewMode::Preview => tr(lang, "Use preview mode"@, "切换到预览模式"@),
    }
}

/// The action that switches to `mode`, unless `mode` is `current`.
pub open spec fn mode_action(lang: AppLanguage, mode: ViewMode, current: ViewMode) -> Seq<ActionView> {
    if mode != current {
        seq![
            av(
                mode_title(lang, mode),
                tr(lang, "Change editor rendering mode"@, "切换编辑器渲染模式"@),
                "VIEW"@,
                KindView::SetViewMode(mode),
            ),
        ]
    } else {
        Seq::empty()
    }
}

/// The actions that switch to the other view modes: hybrid, source,
/// preview.
pub open spec fn view_mode_actions(lang: AppLanguage, current: ViewMode) -> Seq<ActionView> {
    mode_action(lang, ViewMode::Hybrid, current) + mode_action(lang, ViewMode::Source, current)
        + mode_action(lang, ViewMode::Preview, current)
}

fn push_mode_action(
    r: &mut Vec<CommandPaletteAction>,
    lang: AppLanguage,
    mode: ViewMode,
    current: ViewMode,
)
    ensures
        actions_view(final(r)@) == actions_view(old(r)@) + mode_action(lang, mode, current),
{
    if mode != current {
        let title = match mode {
            ViewMode::Hybrid => text(lang, "Use hybrid mode", "切换到混合模式"),
            ViewMode::Source => text(lang, "Use source mode", "切换到源码模式"),
            ViewMode::Preview => text(lang, "Use preview mode", "切换到预览模式"),
        };
        let a = action(
            title,
            text(lang, "Change editor rendering mode", "切换编辑器渲染模式"),
            "VIEW",
            CommandPaletteActionKind::SetViewMode(mode),
        );
        proof {
            lemma_actions_view_push(r@, a);
        }
        r.push(a);
        assert(actions_view(old(r)@).push(action_view(a)) =~= actions_view(old(r)@) + mode_action(
            lang,
            mode,
            current,
        ));
    } else {
        assert(actions_view(r@) =~= actions_view(r@) + mode_action(lang, mode, current));
    }
}

// ---------------------------------------------------------------------
// The whole list
// ---------------------------------------------------------------------

/// Every action the palette offers for `input`, in order: the general
/// actions, the recent workspaces, the recent notes, the workspace
/// actions, the active tab's actions, the favorite actions and the view
/// modes.
pub open spec fn palette_actions(input: CommandPaletteActionInput) -> Seq<ActionView> {
    base_actions(input.language, input.has_workspace, input.outline_visible, input.next_theme)
        + workspace_path_actions(input.language, input.recent_workspaces@)
        + recent_file_actions(input.language, input.recent_files@)
        + workspace_actions(input.language, input.has_workspace, input.trashed_notes@.len())
        + tab_actions(input.language, input.has_active_tab, opt_view(input.active_tab_id),
        input.active_save_status) + favorite_actions(input.language, opt_view(input.selected_note_name))
        + view_mode_actions(input.language, input.view_mode)
}

/// The actions the command palette offers for `input`.
pub fn command_palette_actions(input: CommandPaletteActionInput<'_>) -> (r: Vec<CommandPaletteAction>)
    ensures
        actions_view(r@) == palette_actions(input),
{
    let lang = input.language;
    let mut actions = base_actions_exec(lang, input.has_workspace, input.outline_visible, input.next_theme);
    append_actions(&mut actions, workspace_path_actions_exec(lang, input.recent_workspaces));
    append_actions(&mut actions, recent_file_actions_exec(lang, input.recent_files));
    append_actions(
        &mut actions,
        workspace_actions_exec(lang, input.has_workspace, input.trashed_notes.len()),
    );
    append_actions(
        &mut actions,
        tab_actions_exec(lang, input.has_active_tab, input.active_tab_id, input.active_save_status),
    );
    append_actions(&mut actions, favorite_actions_exec(lang, input.selected_note_name));
    let ghost before_modes = actions_view(actions@);
    push_mode_action(&mut actions, lang, ViewMode::Hybrid, input.view_mode);
    push_mode_action(&mut actions, lang, ViewMode::Source, input.view_mode);
    push_mode_action(&mut actions, lang, ViewMode::Preview, input.view_mode);
    assert(actions_view(actions@) =~= before_modes + view_mode_actions(lang, input.view_mode));
    actions
}

// ---------------------------------------------------------------------
// Running an action
// ---------------------------------------------------------------------

/// A command of the application, with its argument.
#[derive(Debug, Clone, PartialEq, Eq)]
pub enum AppCommand {
    OpenWorkspace,
    OpenWorkspacePath(String),
    OpenMarkdown(OpenMarkdownTarget),
    RefreshWorkspace,
    SaveActiveNote,
    ReloadConflictedActiveNote,
    OverwriteActiveNote,
    SaveConflictedActiveNoteAs,
    CloseTab(String),
    ToggleSidebar(ChromeTrigger),
    ToggleOutline,
    ToggleTheme,
    SetViewMode(SetViewModeRequest),
    SetSelectedFavorite(bool),
    InsertMarkdown(InsertMarkdownRequest),
}

/// What running a palette action does.
#[derive(Debug, Clone, PartialEq, Eq)]
pub enum PaletteEffect {
    /// Run a command of the application.
    Run(AppCommand),
    /// Open the settings.
    OpenSettings,
    /// Open the trash.
    OpenTrash,
    /// Close the palette.
    ClosePalette,
}

/// The name under which the palette asks for changes of the chrome.
pub open spec fn palette_trigger() -> Seq<char> {
    "command_palette"@
}

/// What running an action of kind `k` does first: its command, with the
/// palette as the trigger of chrome changes, or the settings or the trash.
pub open spec fn first_effect(e: PaletteEffect, k: CommandPaletteActionKind) -> bool {
    match k {
        CommandPaletteActionKind::OpenWorkspace => e == PaletteEffect::Run(AppCommand::OpenWorkspace),
        CommandPaletteActionKind::OpenWorkspacePath(p) => e == PaletteEffect::Run(
            AppCommand::OpenWorkspacePath(p),
        ),
        CommandPaletteActionKind::OpenMarkdown(t) => e == PaletteEffect::Run(AppCommand::OpenMarkdown(t)),
        CommandPaletteActionKind::RefreshWorkspace => e == PaletteEffect::Run(AppCommand::RefreshWorkspace),
        CommandPaletteActionKind::SaveActiveNote => e == PaletteEffect::Run(AppCommand::SaveActiveNote),
        CommandPaletteActionKind::ReloadConflictedActiveNote => e == PaletteEffect::Run(
            AppCommand::ReloadConflictedActiveNote,
        ),
        CommandPaletteActionKind::OverwriteActiveNote => e == PaletteEffect::Run(
            AppCommand::OverwriteActiveNote,
        ),
        CommandPaletteActionKind::SaveConflictedActiveNoteAs => e == PaletteEffect::Run(
            AppCommand::SaveConflictedActiveNoteAs,
        ),
        CommandPaletteActionKind::CloseActiveTab(t) => e == PaletteEffect::Run(AppCommand::CloseTab(t)),
        CommandPaletteActionKind::ToggleSidebar => e matches PaletteEffect::Run(
            AppCommand::ToggleSidebar(c),
        ) && c.trigger@ == palette_trigger(),
        CommandPaletteActionKind::ToggleOutline => e == PaletteEffect::Run(AppCommand::ToggleOutline),
        CommandPaletteActionKind::ToggleTheme => e == PaletteEffect::Run(AppCommand::ToggleTheme),
        CommandPaletteActionKind::OpenSettings => e == PaletteEffect::OpenSettings,
        CommandPaletteActionKind::OpenTrash => e == PaletteEffect::OpenTrash,
        CommandPaletteActionKind::SetViewMode(m) => e matches PaletteEffect::Run(
            AppCommand::SetViewMode(r),
        ) && r.mode == m && r.trigger@ == palette_trigger(),
        CommandPaletteActionKind::SetSelectedFavorite(f) => e == PaletteEffect::Run(
            AppCommand::SetSelectedFavorite(f),
        ),
        CommandPaletteActionKind::InsertMarkdown(r) => e == PaletteEffect::Run(AppCommand::InsertMarkdown(r)),
    }
}

/// What running an action of kind `kind` does, in order: its command (or
/// the settings or the trash), then the palette closes.
pub fn command_action_effects(kind: CommandPaletteActionKind) -> (r: Vec<PaletteEffect>)
    ensures
        r.len() == 2,
        first_effect(r@[0], kind),
        r@[1] == PaletteEffect::ClosePalette,
{
    let first = match kind {
        CommandPaletteActionKind::OpenWorkspace => PaletteEffect::Run(AppCommand::OpenWorkspace),
        CommandPaletteActionKind::OpenWorkspacePath(p) => PaletteEffect::Run(AppCommand::OpenWorkspacePath(p)),
        CommandPaletteActionKind::OpenMarkdown(t) => PaletteEffect::Run(AppCommand::OpenMarkdown(t)),
        CommandPaletteActionKind::RefreshWorkspace => PaletteEffect::Run(AppCommand::RefreshWorkspace),
        CommandPaletteActionKind::SaveActiveNote => PaletteEffect::Run(AppCommand::SaveActiveNote),
        CommandPaletteActionKind::ReloadConflictedActiveNote => PaletteEffect::Run(
            AppCommand::ReloadConflictedActiveNote,
        ),
        CommandPaletteActionKind::OverwriteActiveNote => PaletteEffect::Run(AppCommand::OverwriteActiveNote),
        CommandPaletteActionKind::SaveConflictedActiveNoteAs => PaletteEffect::Run(
            AppCommand::SaveConflictedActiveNoteAs,
        ),
        CommandPaletteActionKind::CloseActiveTab(t) => PaletteEffect::Run(AppCommand::CloseTab(t)),
        CommandPaletteActionKind::ToggleSidebar => {
            let trigger = ChromeTrigger::new("command_palette");
            proof {
                reveal_strlit("command_palette");
            }
            PaletteEffect::Run(AppCommand::ToggleSidebar(trigger))
        },
        CommandPaletteActionKind::ToggleOutline => PaletteEffect::Run(AppCommand::ToggleOutline),
        CommandPaletteActionKind::ToggleTheme => PaletteEffect::Run(AppCommand::ToggleTheme),
        CommandPaletteActionKind::OpenSettings => PaletteEffect::OpenSettings,
        CommandPaletteActionKind::OpenTrash => PaletteEffect::OpenTrash,
        CommandPaletteActionKind::SetViewMode(mode) => {
            let request = SetViewModeRequest::new(mode, "command_palette");
            proof {
                reveal_strlit("command_palette");
            }
            PaletteEffect::Run(AppCommand::SetViewMode(request))
        },
        CommandPaletteActionKind::SetSelectedFavorite(f) => PaletteEffect::Run(AppCommand::SetSelectedFavorite(f)),
        CommandPaletteActionKind::InsertMarkdown(r) => PaletteEffect::Run(AppCommand::InsertMarkdown(r)),
    };
    vec![first, PaletteEffect::ClosePalette]
}

// ---------------------------------------------------------------------
// Narrowing by a query
// ---------------------------------------------------------------------

/// The text a query is matched against: title, detail and group,
/// separated by spaces, lowercased.
pub open spec fn action_haystack(a: ActionView) -> Seq<char> {
    lowercase(a.title + seq![' '] + a.detail + seq![' '] + a.group)
}

/// Whether an action matches every token.
pub open spec fn matches_tokens(tokens: Seq<Seq<char>>) -> spec_fn(ActionView) -> bool {
    |a: ActionView| all_tokens_in(action_haystack(a), tokens)
}

/// At most `COMMAND_PALETTE_LIMIT` of `s`, from the front.
pub open spec fn limited(s: Seq<ActionView>) -> Seq<ActionView> {
    if s.len() <= COMMAND_PALETTE_LIMIT {
        s
    } else {
        s.take(COMMAND_PALETTE_LIMIT as int)
    }
}

/// The actions that match every token of `query` (all of them for a
/// query without tokens), in order, at most `COMMAND_PALETTE_LIMIT`.
pub open spec fn palette_matches(actions: Seq<ActionView>, query: Seq<char>) -> Seq<ActionView> {
    limited(actions.filter(matches_tokens(query_token_list(query))))
}

fn copy_kind(k: &CommandPaletteActionKind) -> (r: CommandPaletteActionKind)
    ensures
        kind_view(r) == kind_view(*k),
{
    match k {
        CommandPaletteActionKind::OpenWorkspace => CommandPaletteActionKind::OpenWorkspace,
        CommandPaletteActionKind::OpenWorkspacePath(p) => CommandPaletteActionKind::OpenWorkspacePath(
            p.clone(),
        ),
        CommandPaletteActionKind::OpenMarkdown(t) => CommandPaletteActionKind::OpenMarkdown(
            OpenMarkdownTarget { path: t.path.clone() },
        ),
        CommandPaletteActionKind::RefreshWorkspace => CommandPaletteActionKind::RefreshWorkspace,
        CommandPaletteActionKind::SaveActiveNote => CommandPaletteActionKind::SaveActiveNote,
        CommandPaletteActionKind::ReloadConflictedActiveNote => CommandPaletteActionKind::ReloadConflictedActiveNote,
        CommandPaletteActionKind::OverwriteActiveNote => CommandPaletteActionKind::OverwriteActiveNote,
        CommandPaletteActionKind::SaveConflictedActiveNoteAs => CommandPaletteActionKind::SaveConflictedActiveNoteAs,
        CommandPaletteActionKind::CloseActiveTab(t) => CommandPaletteActionKind::CloseActiveTab(t.clone()),
        CommandPaletteActionKind::ToggleSidebar => CommandPaletteActionKind::ToggleSidebar,
        CommandPaletteActionKind::ToggleOutline => CommandPaletteActionKind::ToggleOutline,
        CommandPaletteActionKind::ToggleTheme => CommandPaletteActionKind::ToggleTheme,
        CommandPaletteActionKind::OpenSettings => CommandPaletteActionKind::OpenSettings,
        CommandPaletteActionKind::OpenTrash => CommandPaletteActionKind::OpenTrash,
        CommandPaletteActionKind::SetViewMode(m) => CommandPaletteActionKind::SetViewMode(*m),
        CommandPaletteActionKind::SetSelectedFavorite(f) => CommandPaletteActionKind::SetSelectedFavorite(*f),
        CommandPaletteActionKind::InsertMarkdown(r) => CommandPaletteActionKind::InsertMarkdown(
            InsertMarkdownRequest {
                tab_id: r.tab_id.clone(),
                markdown: r.markdown.clone(),
                cursor_offset: r.cursor_offset,
            },
        ),
    }
}

fn copy_action(a: &CommandPaletteAction) -> (r: CommandPaletteAction)
    ensures
        action_view(r) == action_view(*a),
{
    CommandPaletteAction {
        title: a.title.clone(),
        detail: a.detail.clone(),
        group: a.group.clone(),
        kind: copy_kind(&a.kind),
    }
}

/// The lowercased text a query is matched against.
fn haystack_of(a: &CommandPaletteAction) -> (r: Vec<char>)
    ensures
        r@ == action_haystack(action_view(*a)),
{
    let mut h = chars_of(a.title.as_str());
    h.push(' ');
    let mut h = concat(&h, &chars_of(a.detail.as_str()));
    h.push(' ');
    let h = concat(&h, &chars_of(a.group.as_str()));
    assert(h@ =~= a.title@ + seq![' '] + a.detail@ + seq![' '] + a.group@);
    lowercase_chars(&h)
}

/// The actions that match `query`.
pub fn filter_command_palette_actions(actions: &[CommandPaletteAction], query: &str) -> (r: Vec<
    CommandPaletteAction,
>)
    ensures
        actions_view(r@) == palette_matches(actions_view(actions@), query@),
{
    let tokens = query_token_chars(query);
    let ghost tv = tokens@.map_values(|w: Vec<char>| w@);
    let ghost p = matches_tokens(query_token_list(query@));
    let ghost all = actions_view(actions@);
    let mut r: Vec<CommandPaletteAction> = Vec::new();
    let mut i: usize = 0;
    proof {
        reveal(Seq::filter);
        assert(all.take(0).filter(p) =~= Seq::<ActionView>::empty());
    }
    while i < actions.len()
        invariant
            i <= actions.len(),
            tv == tokens@.map_values(|w: Vec<char>| w@),
            tv == query_token_list(query@),
            p == matches_tokens(query_token_list(query@)),
            all == actions_view(actions@),
            actions_view(r@) == limited(all.take(i as int).filter(p)),
        decreases actions.len() - i,
    {
        let ghost f = all.take(i as int).filter(p);
        proof {
            assert(all.take(i + 1) =~= all.take(i as int).push(all[i as int]));
            all.take(i as int).lemma_filter_push(all[i as int], p);
        }
        let hay = haystack_of(&actions[i]);
        if all_tokens_found(&hay, &tokens) {
            if r.len() < COMMAND_PALETTE_LIMIT {
                let a = copy_action(&actions[i]);
                proof {
                    lemma_actions_view_push(r@, a);
                }
                r.push(a);
                assert(limited(f.push(all[i as int])) =~= limited(f).push(all[i as int]));
            } else {
                assert(limited(f.push(all[i as int])) =~= limited(f));
            }
        }
        i = i + 1;
    }
    assert(all.take(actions.len() as int) =~= all);
    r
}

/// A query lists only actions that match all of its tokens, and never
/// more than `COMMAND_PALETTE_LIMIT` of them.
pub proof fn palette_matches_are_matches(actions: Seq<ActionView>, query: Seq<char>)
    ensures
        palette_matches(actions, query).len() <= COMMAND_PALETTE_LIMIT,
        forall|i: int|
            0 <= i < palette_matches(actions, query).len() ==> all_tokens_in(
                action_haystack(#[trigger] palette_matches(actions, query)[i]),
                query_token_list(query),
            ),
{
    let p = matches_tokens(query_token_list(query));
    let f = actions.filter(p);
    assert forall|i: int| 0 <= i < palette_matches(actions, query).len() implies all_tokens_in(
        action_haystack(#[trigger] palette_matches(actions, query)[i]),
        query_token_list(query),
    ) by {
        assert(palette_matches(actions, query)[i] == f[i]);
        actions.lemma_filter_pred(p, i);
    }
}

/// The palette never offers to switch to the view mode already in use,
/// and offers each of the other two.
pub proof fn view_mode_actions_skip_current(lang: AppLanguage, current: ViewMode)
    ensures
        view_mode_actions(lang, current).len() == 2,
        forall|i: int|
            0 <= i < view_mode_actions(lang, current).len() ==> (#[trigger] view_mode_actions(
                lang,
                current,
            )[i]).kind != KindView::SetViewMode(current),
{
}

} // verus!
