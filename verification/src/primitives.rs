//! Class names and element ids of the interface primitives (buttons,
//! layout, forms, navigation rows, feedback).
//!
//! A class attribute is modelled by its characters; a list of classes is
//! joined with single spaces, and an extra class given by a caller is
//! trimmed and appended only when it is not blank.
use vstd::prelude::*;
use crate::text::{chars_of, concat, decimal, decimal_chars, string_from, trim, trimmed};

verus! {

broadcast use vstd::string::group_string_axioms;

// ---------------------------------------------------------------------
// Joining and extending class lists
// ---------------------------------------------------------------------

/// The classes of `ws` separated by single spaces.
pub open spec fn joined(ws: Seq<Seq<char>>) -> Seq<char>
    decreases ws.len(),
{
    if ws.len() == 0 {
        Seq::empty()
    } else if ws.len() == 1 {
        ws[0]
    } else {
        joined(ws.drop_last()) + seq![' '] + ws.last()
    }
}

/// The one-class list `c` when `cond` holds, else no class.
pub open spec fn when_class(cond: bool, c: Seq<char>) -> Seq<Seq<char>> {
    if cond {
        seq![c]
    } else {
        Seq::empty()
    }
}

/// `base`, followed by a space and the trimmed `extra` unless `extra` is
/// blank.
pub open spec fn appended(base: Seq<char>, extra: Seq<char>) -> Seq<char> {
    if trim(extra).len() == 0 {
        base
    } else {
        base + seq![' '] + trim(extra)
    }
}

/// `base` extended by the class `class_name` (ignored when blank).
pub fn append_class(base: &str, class_name: &str) -> (r: String)
    ensures
        r@ == appended(base@, class_name@),
{
    let extra = trimmed(&chars_of(class_name));
    if extra.len() == 0 {
        base.to_owned()
    } else {
        let mut b = chars_of(base);
        b.push(' ');
        string_from(concat(&b, &extra).as_slice())
    }
}

/// The characters of the classes `classes` joined by spaces.
fn join_classes(classes: &Vec<&'static str>) -> (r: Vec<char>)
    ensures
        r@ == joined(classes@.map_values(|s: &'static str| s@)),
{
    let ghost ws = classes@.map_values(|s: &'static str| s@);
    let mut r: Vec<char> = Vec::new();
    let mut i: usize = 0;
    while i < classes.len()
        invariant
            i <= classes.len(),
            ws == classes@.map_values(|s: &'static str| s@),
            r@ == joined(ws.take(i as int)),
        decreases classes.len() - i,
    {
        let c = chars_of(classes[i]);
        if i == 0 {
            r = c;
            assert(ws.take(1).len() == 1);
        } else {
            r.push(' ');
            r = concat(&r, &c);
            assert(ws.take(i + 1).drop_last() =~= ws.take(i as int));
        }
        i = i + 1;
    }
    assert(ws.take(classes.len() as int) =~= ws);
    r
}

/// The words of `ws` joined by single spaces.
pub fn join_words(ws: &Vec<Vec<char>>) -> (r: Vec<char>)
    ensures
        r@ == joined(ws@.map_values(|w: Vec<char>| w@)),
{
    let ghost vs = ws@.map_values(|w: Vec<char>| w@);
    let mut r: Vec<char> = Vec::new();
    let mut i: usize = 0;
    while i < ws.len()
        invariant
            i <= ws.len(),
            vs == ws@.map_values(|w: Vec<char>| w@),
            r@ == joined(vs.take(i as int)),
        decreases ws.len() - i,
    {
        if i == 0 {
            r = ws[0].clone();
            assert(vs.take(1).len() == 1);
        } else {
            r.push(' ');
            r = concat(&r, &ws[i]);
            assert(vs.take(i + 1).drop_last() =~= vs.take(i as int));
        }
        i = i + 1;
    }
    assert(vs.take(ws.len() as int) =~= vs);
    r
}

/// A list of class names under construction.
struct ClassBuilder {
    classes: Vec<&'static str>,
}

impl View for ClassBuilder {
    type V = Seq<Seq<char>>;

    closed spec fn view(&self) -> Seq<Seq<char>> {
        self.classes@.map_values(|s: &'static str| s@)
    }
}

impl ClassBuilder {
    fn new(base: &'static str) -> (b: Self)
        ensures
            b@ == seq![base@],
    {
        let mut classes: Vec<&'static str> = Vec::new();
        classes.push(base);
        let b = ClassBuilder { classes };
        assert(b@ =~= seq![base@]);
        b
    }

    fn when(self, condition: bool, class_name: &'static str) -> (b: Self)
        ensures
            b@ == self@ + when_class(condition, class_name@),
    {
        let mut classes = self.classes;
        if condition {
            classes.push(class_name);
        }
        let b = ClassBuilder { classes };
        assert(b@ =~= self@ + when_class(condition, class_name@));
        b
    }

    fn state_when(self, condition: bool, state: PrimitiveState) -> (b: Self)
        ensures
            b@ == self@ + when_class(condition, state_class(state)),
    {
        self.when(condition, state.class())
    }

    fn push(self, class_name: &'static str) -> (b: Self)
        ensures
            b@ == self@.push(class_name@),
    {
        let mut classes = self.classes;
        classes.push(class_name);
        let b = ClassBuilder { classes };
        assert(b@ =~= self@.push(class_name@));
        b
    }

    fn extend(self, class_name: &str) -> (r: String)
        ensures
            r@ == appended(joined(self@), class_name@),
    {
        let base = string_from(join_classes(&self.classes).as_slice());
        append_class(base.as_str(), class_name)
    }
}

/// Extending by the blank class changes nothing.
proof fn lemma_appended_blank(base: Seq<char>)
    ensures
        appended(base, ""@) == base,
{
    reveal_strlit("");
    assert(trim(""@).len() == 0);
}

/// A visual state that a primitive can be in.
#[derive(Debug, Clone, Copy, PartialEq, Eq)]
pub enum PrimitiveState {
    Active,
    Open,
    Onboarding,
    Danger,
    Disabled,
}

/// The class name of a state.
pub open spec fn state_class(state: PrimitiveState) -> Seq<char> {
    match state {
        PrimitiveState::Active => "active"@,
        PrimitiveState::Open => "open"@,
        PrimitiveState::Onboarding => "onboarding"@,
        PrimitiveState::Danger => "danger"@,
        PrimitiveState::Disabled => "disabled"@,
    }
}

impl PrimitiveState {
    /// The class name of this state.
    pub fn class(self) -> (r: &'static str)
        ensures
            r@ == state_class(self),
    {
        match self {
            PrimitiveState::Active => "active",
            PrimitiveState::Open => "open",
            PrimitiveState::Onboarding => "onboarding",
            PrimitiveState::Danger => "danger",
            PrimitiveState::Disabled => "disabled",
        }
    }
}

// ---------------------------------------------------------------------
// Buttons
// ---------------------------------------------------------------------

/// How a button is styled.
#[derive(Debug, Clone, Copy, PartialEq, Eq)]
pub enum ButtonVariant {
    Default,
    Primary,
    Danger,
}

/// Whether a button can be pressed.
#[derive(Debug, Clone, Copy, PartialEq, Eq)]
pub enum ButtonState {
    Enabled,
    Disabled,
    Loading,
}

/// The classes of a button variant.
pub open spec fn variant_class(variant: ButtonVariant) -> Seq<char> {
    match variant {
        ButtonVariant::Default => "mn-button"@,
        ButtonVariant::Primary => "mn-button primary"@,
        ButtonVariant::Danger => "mn-button danger"@,
    }
}

impl ButtonVariant {
    /// The classes of this variant.
    pub fn class(self) -> (r: &'static str)
        ensures
            r@ == variant_class(self),
    {
        match self {
            ButtonVariant::Default => "mn-button",
            ButtonVariant::Primary => "mn-button primary",
            ButtonVariant::Danger => "mn-button danger",
        }
    }
}

impl ButtonState {
    /// A disabled or loading button cannot be pressed.
    pub fn is_disabled(self) -> (b: bool)
        ensures
            b == (self != ButtonState::Enabled),
    {
        match self {
            ButtonState::Enabled => false,
            ButtonState::Disabled => true,
            ButtonState::Loading => true,
        }
    }
}

/// The classes of an action button: its variant, extended by `class_name`.
pub fn action_button_class(variant: ButtonVariant, class_name: &str) -> (r: String)
    ensures
        r@ == appended(variant_class(variant), class_name@),
{
    append_class(variant.class(), class_name)
}

/// The classes of an icon button.
pub fn icon_button_class(selected: bool, danger: bool, class_name: &str) -> (r: String)
    ensures
        r@ == appended(
            joined(
                seq!["mn-icon-btn"@] + when_class(selected, "active"@) + when_class(danger, "danger"@),
            ),
            class_name@,
        ),
{
    ClassBuilder::new("mn-icon-btn").when(selected, "active").when(danger, "danger").extend(
        class_name,
    )
}

// ---------------------------------------------------------------------
// Layout
// ---------------------------------------------------------------------

/// Which part of the editor toolbar a zone is.
#[derive(Debug, Clone, Copy, PartialEq, Eq)]
pub enum ToolbarZoneKind {
    Flexible,
    Fixed,
}

/// The classes of the application shell.
pub fn app_shell_class(class_name: &str) -> (r: String)
    ensures
        r@ == appended("mn-shell"@, class_name@),
{
    append_class("mn-shell", class_name)
}

/// The classes of the workbench.
pub fn workbench_class(class_name: &str) -> (r: String)
    ensures
        r@ == appended("mn-workbench"@, class_name@),
{
    append_class("mn-workbench", class_name)
}

/// The base classes of a toolbar zone.
pub open spec fn toolbar_zone_base(kind: ToolbarZoneKind) -> Seq<char> {
    match kind {
        ToolbarZoneKind::Flexible => "mn-editor-tabs-row"@,
        ToolbarZoneKind::Fixed => "mn-editor-tools"@,
    }
}

/// The classes of a toolbar zone.
pub fn toolbar_zone_class(kind: ToolbarZoneKind, class_name: &str) -> (r: String)
    ensures
        r@ == appended(toolbar_zone_base(kind), class_name@),
{
    let base = match kind {
        ToolbarZoneKind::Flexible => "mn-editor-tabs-row",
        ToolbarZoneKind::Fixed => "mn-editor-tools",
    };
    append_class(base, class_name)
}

/// The classes of an editor tool button.
pub fn editor_tool_button_class(selected: bool, class_name: &str) -> (r: String)
    ensures
        r@ == appended(
            if selected {
                "mn-editor-tool icon-only active"@
            } else {
                "mn-editor-tool icon-only"@
            },
            class_name@,
        ),
{
    let base = if selected {
        "mn-editor-tool icon-only active"
    } else {
        "mn-editor-tool icon-only"
    };
    append_class(base, class_name)
}

/// The classes of a tab strip scroll button.
pub fn editor_tab_scroll_button_class(class_name: &str) -> (r: String)
    ensures
        r@ == appended("mn-tab-scroll-btn"@, class_name@),
{
    append_class("mn-tab-scroll-btn", class_name)
}

/// The classes of a scroll container.
pub fn scroll_container_class(class_name: &str) -> (r: String)
    ensures
        r@ == appended("mn-scroll-container"@, class_name@),
{
    append_class("mn-scroll-container", class_name)
}

/// The classes of the empty-state card.
pub fn empty_state_card_class(onboarding: bool, class_name: &str) -> (r: String)
    ensures
        r@ == appended(
            joined(seq!["mn-empty-card"@] + when_class(onboarding, "onboarding"@)),
            class_name@,
        ),
{
    ClassBuilder::new("mn-empty-card").state_when(onboarding, PrimitiveState::Onboarding).extend(
        class_name,
    )
}

// ---------------------------------------------------------------------
// Feedback
// ---------------------------------------------------------------------

/// How a status bar item is styled.
#[derive(Debug, Clone, Copy, PartialEq, Eq)]
pub enum StatusTone {
    Default,
    Saving,
    Attention,
}

/// How an inline alert is styled.
#[derive(Debug, Clone, Copy, PartialEq, Eq)]
pub enum InlineAlertTone {
    Neutral,
    Attention,
    Danger,
}

/// How a message is styled.
#[derive(Debug, Clone, Copy, PartialEq, Eq)]
pub enum MessageTone {
    Info,
    Success,
    Attention,
    Danger,
}

/// The class of a status tone.
pub open spec fn status_tone_spec(tone: StatusTone) -> Seq<char> {
    match tone {
        StatusTone::Default => "mn-status-item"@,
        StatusTone::Saving => "mn-status-saving"@,
        StatusTone::Attention => "mn-status-unsaved"@,
    }
}

/// The class of a status bar item with `tone`.
pub fn status_tone_class(tone: StatusTone) -> (r: &'static str)
    ensures
        r@ == status_tone_spec(tone),
{
    match tone {
        StatusTone::Default => "mn-status-item",
        StatusTone::Saving => "mn-status-saving",
        StatusTone::Attention => "mn-status-unsaved",
    }
}

/// The base classes of an inline alert.
pub open spec fn inline_alert_base(tone: InlineAlertTone) -> Seq<char> {
    match tone {
        InlineAlertTone::Neutral => "mn-inline-alert neutral"@,
        InlineAlertTone::Attention => "mn-inline-alert attention"@,
        InlineAlertTone::Danger => "mn-inline-alert danger"@,
    }
}

/// The classes of an inline alert.
pub fn inline_alert_class(tone: InlineAlertTone, class_name: &str) -> (r: String)
    ensures
        r@ == appended(inline_alert_base(tone), class_name@),
{
    let base = match tone {
        InlineAlertTone::Neutral => "mn-inline-alert neutral",
        InlineAlertTone::Attention => "mn-inline-alert attention",
        InlineAlertTone::Danger => "mn-inline-alert danger",
    };
    append_class(base, class_name)
}

/// The base classes of a message.
pub open spec fn message_base(tone: MessageTone) -> Seq<char> {
    match tone {
        MessageTone::Info => "mn-message info"@,
        MessageTone::Success => "mn-message success"@,
        MessageTone::Attention => "mn-message attention"@,
        MessageTone::Danger => "mn-message danger"@,
    }
}

/// The classes of a message.
pub fn message_class(tone: MessageTone, class_name: &str) -> (r: String)
    ensures
        r@ == appended(message_base(tone), class_name@),
{
    let base = match tone {
        MessageTone::Info => "mn-message info",
        MessageTone::Success => "mn-message success",
        MessageTone::Attention => "mn-message attention",
        MessageTone::Danger => "mn-message danger",
    };
    append_class(base, class_name)
}

// ---------------------------------------------------------------------
// Forms
// ---------------------------------------------------------------------

/// One option of a segmented control.
#[derive(Debug, Clone, PartialEq, Eq)]
pub struct SegmentedControlOption {
    pub label: String,
    pub value: String,
}

/// One option of a dropdown.
#[derive(Debug, Clone, PartialEq, Eq)]
pub struct DropdownOption {
    pub label: String,
    pub value: String,
}

impl SegmentedControlOption {
    /// The option shown as `label` that stands for `value`.
    pub fn new(label: &str, value: &str) -> (o: Self)
        ensures
            o.label@ == label@,
            o.value@ == value@,
    {
        SegmentedControlOption { label: label.to_owned(), value: value.to_owned() }
    }
}

impl DropdownOption {
    /// The option shown as `label` that stands for `value`.
    pub fn new(label: &str, value: &str) -> (o: Self)
        ensures
            o.label@ == label@,
            o.value@ == value@,
    {
        DropdownOption { label: label.to_owned(), value: value.to_owned() }
    }
}

/// The classes of a segmented control option.
pub fn segmented_option_class(is_selected: bool) -> (r: String)
    ensures
        r@ == joined(seq!["mn-segmented-option"@] + when_class(is_selected, "active"@)),
{
    proof {
        lemma_appended_blank(joined(seq!["mn-segmented-option"@] + when_class(is_selected, "active"@)));
    }
    ClassBuilder::new("mn-segmented-option").state_when(is_selected, PrimitiveState::Active).extend(
        "",
    )
}

/// The label of the first option whose value is `selected`, or
/// `selected` itself when no option has that value.
pub open spec fn selected_label(options: Seq<DropdownOption>, selected: Seq<char>) -> Seq<char>
    decreases options.len(),
{
    if options.len() == 0 {
        selected
    } else if options[0].value@ == selected {
        options[0].label@
    } else {
        selected_label(options.drop_first(), selected)
    }
}

/// The label shown for the selected value of a dropdown.
pub fn dropdown_selected_label(options: &[DropdownOption], selected: &str) -> (r: String)
    ensures
        r@ == selected_label(options@, selected@),
{
    let sel = chars_of(selected);
    let mut i: usize = 0;
    assert(options@.skip(0) =~= options@);
    while i < options.len()
        invariant
            i <= options.len(),
            sel@ == selected@,
            selected_label(options@, selected@) == selected_label(options@.skip(i as int), selected@),
        decreases options.len() - i,
    {
        let v = chars_of(options[i].value.as_str());
        if crate::text::chars_equal(&v, &sel) {
            return options[i].label.clone();
        }
        assert(options@.skip(i as int).drop_first() =~= options@.skip(i + 1));
        i = i + 1;
    }
    selected.to_owned()
}

/// What happens to a dropdown.
#[derive(Debug, Clone, PartialEq, Eq)]
pub enum DropdownEvent {
    /// The Escape key.
    EscapeKey,
    /// The Enter key.
    EnterKey,
    /// The space bar.
    SpaceKey,
    /// Any other key.
    OtherKey,
    /// The dropdown lost the focus.
    Blur,
    /// A click on the trigger button.
    TriggerClick,
    /// A click outside the open menu.
    DismissClick,
    /// A click on the option with this value.
    OptionClick(String),
}

/// What a dropdown does: whether it is open afterwards, whether the
/// event's default action is prevented, and the value to select, if any.
#[derive(Debug, Clone, PartialEq, Eq)]
pub struct DropdownOutcome {
    pub is_open: bool,
    pub prevent_default: bool,
    pub select: Option<String>,
}

/// What a dropdown that is open (or not) does on `event`: Escape, a blur
/// and a click outside close it; Enter and the space bar toggle it and
/// keep their default action from happening; a click on the trigger
/// toggles it; a click on an option selects its value and closes it;
/// other keys change nothing.
pub fn dropdown_step(is_open: bool, event: DropdownEvent) -> (r: DropdownOutcome)
    ensures
        r == (match event {
            DropdownEvent::EscapeKey | DropdownEvent::Blur | DropdownEvent::DismissClick => DropdownOutcome {
                is_open: false,
                prevent_default: false,
                select: None,
            },
            DropdownEvent::EnterKey | DropdownEvent::SpaceKey => DropdownOutcome {
                is_open: !is_open,
                prevent_default: true,
                select: None,
            },
            DropdownEvent::TriggerClick => DropdownOutcome {
                is_open: !is_open,
                prevent_default: false,
                select: None,
            },
            DropdownEvent::OptionClick(v) => DropdownOutcome {
                is_open: false,
                prevent_default: false,
                select: Some(v),
            },
            DropdownEvent::OtherKey => DropdownOutcome { is_open, prevent_default: false, select: None },
        }),
{
    match event {
        DropdownEvent::EscapeKey | DropdownEvent::Blur | DropdownEvent::DismissClick => DropdownOutcome {
            is_open: false,
            prevent_default: false,
            select: None,
        },
        DropdownEvent::EnterKey | DropdownEvent::SpaceKey => DropdownOutcome {
            is_open: !is_open,
            prevent_default: true,
            select: None,
        },
        DropdownEvent::TriggerClick => DropdownOutcome {
            is_open: !is_open,
            prevent_default: false,
            select: None,
        },
        DropdownEvent::OptionClick(v) => DropdownOutcome { is_open: false, prevent_default: false, select: Some(v) },
        DropdownEvent::OtherKey => DropdownOutcome { is_open, prevent_default: false, select: None },
    }
}

/// The classes of a dropdown.
pub fn dropdown_class(is_open: bool) -> (r: String)
    ensures
        r@ == joined(seq!["mn-select"@] + when_class(is_open, "open"@)),
{
    proof {
        lemma_appended_blank(joined(seq!["mn-select"@] + when_class(is_open, "open"@)));
    }
    ClassBuilder::new("mn-select").state_when(is_open, PrimitiveState::Open).extend("")
}

/// The classes of a dropdown option.
pub fn dropdown_option_class(is_selected: bool) -> (r: String)
    ensures
        r@ == joined(seq!["mn-select-option"@] + when_class(is_selected, "active"@)),
{
    proof {
        lemma_appended_blank(joined(seq!["mn-select-option"@] + when_class(is_selected, "active"@)));
    }
    ClassBuilder::new("mn-select-option").state_when(is_selected, PrimitiveState::Active).extend("")
}

/// The classes of a form field.
pub fn form_field_class(class_name: &str) -> (r: String)
    ensures
        r@ == appended("mn-form-field mn-setting-row"@, class_name@),
{
    append_class("mn-form-field mn-setting-row", class_name)
}

/// The classes of a color input.
pub fn color_input_class(class_name: &str) -> (r: String)
    ensures
        r@ == appended("mn-tag-color-input"@, class_name@),
{
    append_class("mn-tag-color-input", class_name)
}

// ---------------------------------------------------------------------
// Navigation
// ---------------------------------------------------------------------

/// What a file tree row stands for.
#[derive(Debug, Clone, Copy, PartialEq, Eq)]
pub enum TreeItemKind {
    Directory,
    Note,
}

/// The icon of a file tree row.
#[derive(Debug, Clone, Copy, PartialEq, Eq)]
pub enum TreeItemIconKind {
    Folder,
    FolderOpen,
    Markdown,
}

/// The classes of a sidebar workspace item.
pub fn sidebar_item_class(selected: bool, class_name: &str) -> (r: String)
    ensures
        r@ == appended(
            if selected {
                "mn-sidebar-workspace active"@
            } else {
                "mn-sidebar-workspace"@
            },
            class_name@,
        ),
{
    let base = if selected {
        "mn-sidebar-workspace active"
    } else {
        "mn-sidebar-workspace"
    };
    append_class(base, class_name)
}

/// The classes of the sidebar search button.
pub fn sidebar_search_button_class(class_name: &str) -> (r: String)
    ensures
        r@ == appended("mn-sidebar-search"@, class_name@),
{
    append_class("mn-sidebar-search", class_name)
}

/// The classes of an outline entry for a heading of `level`.
pub fn outline_item_class(level: u8, class_name: &str) -> (r: String)
    ensures
        r@ == appended("mn-outline-item level-"@ + decimal(level as nat), class_name@),
{
    let base = concat(&chars_of("mn-outline-item level-"), &decimal_chars(level as u64));
    let base = string_from(base.as_slice());
    append_class(base.as_str(), class_name)
}

/// The class of a tree row's kind.
pub open spec fn tree_kind_class(kind: TreeItemKind) -> Seq<char> {
    match kind {
        TreeItemKind::Directory => "directory"@,
        TreeItemKind::Note => "note"@,
    }
}

/// The classes of a file tree row.
pub fn tree_item_class(
    kind: TreeItemKind,
    is_selected: bool,
    is_editing: bool,
    is_dragging: bool,
    is_drop_target: bool,
) -> (r: String)
    ensures
        r@ == joined(
            seq!["mn-tree-row"@, tree_kind_class(kind)] + when_class(is_selected, "active"@)
                + when_class(is_editing, "editing"@) + when_class(is_dragging, "dragging"@)
                + when_class(is_drop_target, "drop-target"@),
        ),
{
    let kind_class = match kind {
        TreeItemKind::Directory => "directory",
        TreeItemKind::Note => "note",
    };
    let b = ClassBuilder::new("mn-tree-row").push(kind_class);
    assert(seq!["mn-tree-row"@].push(kind_class@) =~= seq!["mn-tree-row"@, tree_kind_class(kind)]);
    proof {
        lemma_appended_blank(
            joined(
                seq!["mn-tree-row"@, tree_kind_class(kind)] + when_class(is_selected, "active"@)
                    + when_class(is_editing, "editing"@) + when_class(is_dragging, "dragging"@)
                    + when_class(is_drop_target, "drop-target"@),
            ),
        );
    }
    b.when(is_selected, "active").when(is_editing, "editing").when(is_dragging, "dragging").when(
        is_drop_target,
        "drop-target",
    ).extend("")
}

/// The classes of a tree row's expand caret.
pub fn tree_caret_class(is_expanded: bool) -> (r: &'static str)
    ensures
        r@ == (if is_expanded {
            "mn-tree-caret expanded"@
        } else {
            "mn-tree-caret"@
        }),
{
    if is_expanded {
        "mn-tree-caret expanded"
    } else {
        "mn-tree-caret"
    }
}

/// The classes of a tree icon.
pub open spec fn tree_icon_spec(kind: TreeItemIconKind) -> Seq<char> {
    match kind {
        TreeItemIconKind::Folder => "mn-tree-icon folder"@,
        TreeItemIconKind::FolderOpen => "mn-tree-icon folder-open"@,
        TreeItemIconKind::Markdown => "mn-tree-icon markdown"@,
    }
}

/// The classes of a tree row's icon.
pub fn tree_icon_class(kind: TreeItemIconKind) -> (r: &'static str)
    ensures
        r@ == tree_icon_spec(kind),
{
    match kind {
        TreeItemIconKind::Folder => "mn-tree-icon folder",
        TreeItemIconKind::FolderOpen => "mn-tree-icon folder-open",
        TreeItemIconKind::Markdown => "mn-tree-icon markdown",
    }
}

// ---------------------------------------------------------------------
// Menus, result lists, settings and tabs
// ---------------------------------------------------------------------

/// The classes of a menu item.
pub fn menu_item_class(danger: bool) -> (r: String)
    ensures
        r@ == joined(seq!["mn-menu-item"@] + when_class(danger, "danger"@)),
{
    proof {
        lemma_appended_blank(joined(seq!["mn-menu-item"@] + when_class(danger, "danger"@)));
    }
    ClassBuilder::new("mn-menu-item").state_when(danger, PrimitiveState::Danger).extend("")
}

/// What list a result row belongs to.
#[derive(Debug, Clone, Copy, PartialEq, Eq)]
pub enum ResultRowKind {
    Default,
    Search,
}

/// The base classes of a result row.
pub open spec fn result_row_base(kind: ResultRowKind) -> Seq<Seq<char>> {
    match kind {
        ResultRowKind::Default => seq!["mn-command-row"@],
        ResultRowKind::Search => seq!["mn-command-row"@, "mn-search-row"@],
    }
}

/// The classes of a result row.
pub fn result_row_class(kind: ResultRowKind, is_active: bool) -> (r: String)
    ensures
        r@ == joined(result_row_base(kind) + when_class(is_active, "active"@)),
{
    let builder = match kind {
        ResultRowKind::Default => ClassBuilder::new("mn-command-row"),
        ResultRowKind::Search => {
            let b = ClassBuilder::new("mn-command-row").push("mn-search-row");
            assert(b@ =~= seq!["mn-command-row"@, "mn-search-row"@]);
            b
        },
    };
    proof {
        lemma_appended_blank(joined(result_row_base(kind) + when_class(is_active, "active"@)));
    }
    builder.state_when(is_active, PrimitiveState::Active).extend("")
}

/// Whether an inline settings row creates or edits an entry.
#[derive(Debug, Clone, Copy, PartialEq, Eq)]
pub enum SettingsInlineRowKind {
    Create,
    Edit,
}

/// The classes of a settings navigation button.
pub fn settings_nav_button_class(active: bool, class_name: &str) -> (r: String)
    ensures
        r@ == appended(
            if active {
                "mn-settings-nav-button active"@
            } else {
                "mn-settings-nav-button"@
            },
            class_name@,
        ),
{
    let base = if active {
        "mn-settings-nav-button active"
    } else {
        "mn-settings-nav-button"
    };
    append_class(base, class_name)
}

/// The base classes of an inline settings row.
pub open spec fn settings_inline_row_base(kind: SettingsInlineRowKind) -> Seq<char> {
    match kind {
        SettingsInlineRowKind::Create => "mn-setting-inline-row create"@,
        SettingsInlineRowKind::Edit => "mn-setting-inline-row edit"@,
    }
}

/// The classes of an inline settings row.
pub fn settings_inline_row_class(kind: SettingsInlineRowKind, class_name: &str) -> (r: String)
    ensures
        r@ == appended(settings_inline_row_base(kind), class_name@),
{
    let base = match kind {
        SettingsInlineRowKind::Create => "mn-setting-inline-row create",
        SettingsInlineRowKind::Edit => "mn-setting-inline-row edit",
    };
    append_class(base, class_name)
}

/// One option of a tab strip.
#[derive(Debug, Clone, PartialEq, Eq)]
pub struct TabOption {
    pub label: String,
    pub value: String,
}

impl TabOption {
    /// The tab shown as `label` that stands for `value`.
    pub fn new(label: &str, value: &str) -> (o: Self)
        ensures
            o.label@ == label@,
            o.value@ == value@,
    {
        TabOption { label: label.to_owned(), value: value.to_owned() }
    }
}

/// The classes of a tab option.
pub fn tab_option_class(is_selected: bool) -> (r: &'static str)
    ensures
        r@ == (if is_selected {
            "mn-tabs-option active"@
        } else {
            "mn-tabs-option"@
        }),
{
    if is_selected {
        "mn-tabs-option active"
    } else {
        "mn-tabs-option"
    }
}

// ---------------------------------------------------------------------
// Element ids of dropdown lists
// ---------------------------------------------------------------------

/// An ASCII letter or digit.
pub open spec fn is_ascii_alnum(c: char) -> bool {
    ('a' <= c <= 'z') || ('A' <= c <= 'Z') || ('0' <= c <= '9')
}

/// A character allowed in an id suffix: a lowercase ASCII letter, a digit
/// or `-`.
pub open spec fn is_id_char(c: char) -> bool {
    ('a' <= c <= 'z') || ('0' <= c <= '9') || c == '-'
}

/// How one character of a value appears in an id: ASCII letters and
/// digits in lowercase, anything else as `-`.
pub open spec fn id_char(c: char) -> char {
    if is_ascii_alnum(c) {
        crate::text::ascii_lower(c)
    } else {
        '-'
    }
}

/// `s` without its leading dashes.
pub open spec fn strip_leading_dashes(s: Seq<char>) -> Seq<char>
    decreases s.len(),
{
    if s.len() > 0 && s[0] == '-' {
        strip_leading_dashes(s.drop_first())
    } else {
        s
    }
}

/// `s` without its trailing dashes.
pub open spec fn strip_trailing_dashes(s: Seq<char>) -> Seq<char>
    decreases s.len(),
{
    if s.len() > 0 && s.last() == '-' {
        strip_trailing_dashes(s.drop_last())
    } else {
        s
    }
}

/// The id suffix for `value`: its characters mapped by `id_char`, without
/// leading and trailing dashes, or `value` when nothing is left.
pub open spec fn id_suffix(value: Seq<char>) -> Seq<char> {
    let t = strip_trailing_dashes(strip_leading_dashes(value.map_values(|c: char| id_char(c))));
    if t.len() == 0 {
        "value"@
    } else {
        t
    }
}

proof fn lemma_strip_leading(s: Seq<char>)
    ensures
        strip_leading_dashes(s).len() <= s.len(),
        strip_leading_dashes(s) == s.skip(s.len() - strip_leading_dashes(s).len()),
        strip_leading_dashes(s).len() > 0 ==> strip_leading_dashes(s)[0] != '-',
        forall|k: int| 0 <= k < s.len() - strip_leading_dashes(s).len() ==> s[k] == '-',
    decreases s.len(),
{
    if s.len() > 0 && s[0] == '-' {
        lemma_strip_leading(s.drop_first());
        let t = strip_leading_dashes(s);
        assert(s.drop_first().skip(s.len() - 1 - t.len()) =~= s.skip(s.len() - t.len()));
        assert forall|k: int| 0 <= k < s.len() - t.len() implies s[k] == '-' by {
            if k > 0 {
                assert(s[k] == s.drop_first()[k - 1]);
            }
        }
    } else {
        assert(s.skip(0) =~= s);
    }
}

proof fn lemma_strip_trailing(s: Seq<char>)
    ensures
        strip_trailing_dashes(s).len() <= s.len(),
        strip_trailing_dashes(s) == s.take(strip_trailing_dashes(s).len() as int),
        strip_trailing_dashes(s).len() > 0 ==> strip_trailing_dashes(s).last() != '-',
        forall|k: int| strip_trailing_dashes(s).len() <= k < s.len() ==> s[k] == '-',
    decreases s.len(),
{
    if s.len() > 0 && s.last() == '-' {
        lemma_strip_trailing(s.drop_last());
        let t = strip_trailing_dashes(s);
        assert(s.drop_last().take(t.len() as int) =~= s.take(t.len() as int));
        assert forall|k: int| t.len() <= k < s.len() implies s[k] == '-' by {
            if k < s.len() - 1 {
                assert(s[k] == s.drop_last()[k]);
            }
        }
    } else {
        assert(s.take(s.len() as int) =~= s);
    }
}

/// An id suffix is never empty, is made of lowercase ASCII letters, digits
/// and dashes, and neither starts nor ends with a dash.
pub proof fn id_suffix_is_normalized(value: Seq<char>)
    ensures
        id_suffix(value).len() > 0,
        forall|i: int| 0 <= i < id_suffix(value).len() ==> is_id_char(#[trigger] id_suffix(value)[i]),
        id_suffix(value)[0] != '-',
        id_suffix(value).last() != '-',
{
    let m = value.map_values(|c: char| id_char(c));
    let a = strip_leading_dashes(m);
    let t = strip_trailing_dashes(a);
    lemma_strip_leading(m);
    lemma_strip_trailing(a);
    reveal_strlit("value");
    if t.len() > 0 {
        assert forall|i: int| 0 <= i < t.len() implies is_id_char(#[trigger] t[i]) by {
            let k = m.len() - a.len() + i;
            assert(t[i] == a[i]);
            assert(a[i] == m[k]);
            assert(m[k] == id_char(value[k]));
        }
        assert(t[0] == a[0]);
    }
}

/// Normalizing an id suffix again leaves it unchanged.
pub proof fn id_suffix_idempotent(value: Seq<char>)
    ensures
        id_suffix(id_suffix(value)) == id_suffix(value),
{
    let s = id_suffix(value);
    id_suffix_is_normalized(value);
    let m = s.map_values(|c: char| id_char(c));
    assert(m =~= s) by {
        assert forall|i: int| 0 <= i < s.len() implies m[i] == s[i] by {
            assert(is_id_char(s[i]));
        }
    }
    assert(strip_leading_dashes(s) == s);
    assert(strip_trailing_dashes(s) == s);
}

/// The id suffix for `value` (see `id_suffix`).
pub fn dropdown_id_suffix(value: &str) -> (r: String)
    ensures
        r@ == id_suffix(value@),
{
    let v = chars_of(value);
    let ghost m = value@.map_values(|c: char| id_char(c));
    let mut mapped: Vec<char> = Vec::new();
    let mut i: usize = 0;
    while i < v.len()
        invariant
            i <= v.len(),
            v@ == value@,
            m == value@.map_values(|c: char| id_char(c)),
            mapped@ == m.take(i as int),
        decreases v.len() - i,
    {
        let c = v[i];
        let alnum = ('a' <= c && c <= 'z') || ('A' <= c && c <= 'Z') || ('0' <= c && c <= '9');
        let d = if alnum {
            crate::text::to_ascii_lower(c)
        } else {
            '-'
        };
        mapped.push(d);
        i = i + 1;
        assert(mapped@ =~= m.take(i as int));
    }
    assert(m.take(v.len() as int) =~= m);
    let mut lo: usize = 0;
    assert(m.skip(0) =~= m);
    while lo < mapped.len() && mapped[lo] == '-'
        invariant
            lo <= mapped.len(),
            mapped@ == m,
            strip_leading_dashes(m) == strip_leading_dashes(m.skip(lo as int)),
        decreases mapped.len() - lo,
    {
        assert(m.skip(lo as int).drop_first() =~= m.skip(lo + 1));
        lo = lo + 1;
    }
    assert(m.skip(lo as int) == strip_leading_dashes(m.skip(lo as int)));
    let mut hi: usize = mapped.len();
    assert(m.skip(lo as int) =~= m.subrange(lo as int, hi as int));
    while hi > lo && mapped[hi - 1] == '-'
        invariant
            lo <= hi <= mapped.len(),
            mapped@ == m,
            strip_trailing_dashes(strip_leading_dashes(m)) == strip_trailing_dashes(
                m.subrange(lo as int, hi as int),
            ),
        decreases hi,
    {
        assert(m.subrange(lo as int, hi as int).drop_last() =~= m.subrange(lo as int, hi - 1));
        hi = hi - 1;
    }
    if lo == hi {
        proof {
            let e = m.subrange(lo as int, hi as int);
            assert(e.len() == 0);
            assert(strip_trailing_dashes(e) == e);
        }
        "value".to_owned()
    } else {
        proof {
            let e = m.subrange(lo as int, hi as int);
            assert(e.last() == m[hi - 1]);
            assert(strip_trailing_dashes(e) == e);
        }
        string_from(crate::text::slice_vec(&mapped, lo, hi).as_slice())
    }
}

/// The element id of the option list of a dropdown labelled `label`
/// whose value is `value`.
pub open spec fn list_id(label: Seq<char>, value: Seq<char>) -> Seq<char> {
    "mn-select-"@ + id_suffix(label) + seq!['-'] + id_suffix(value)
}

/// The element id of a dropdown's option list.
pub fn dropdown_list_id(label: &str, value: &str) -> (r: String)
    ensures
        r@ == list_id(label@, value@),
{
    let a = dropdown_id_suffix(label);
    let b = dropdown_id_suffix(value);
    let mut head = concat(&chars_of("mn-select-"), &chars_of(a.as_str()));
    head.push('-');
    let all = concat(&head, &chars_of(b.as_str()));
    string_from(all.as_slice())
}

} // verus!
