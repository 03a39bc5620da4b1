//! The decisions of an editor host: what it does on each event of its
//! editor runtime, and which commands it sends the runtime (each setting
//! once, until it changes).
use vstd::prelude::*;
use crate::models::ViewMode;

verus! {

broadcast use vstd::string::group_string_axioms;

/// Where the editor runtime of a host stands.
#[derive(Debug, Clone, PartialEq, Eq)]
pub enum EditorRuntimeState {
    Loading,
    Ready,
    Error(String),
}

/// The settings last sent to a runtime, so that each is sent once.
#[derive(Debug, Clone, Copy, PartialEq, Eq, Structural)]
pub struct EditorCommandCache {
    pub view_mode: Option<ViewMode>,
    pub auto_link_paste: Option<bool>,
}

/// What the editor runtime of a host reports.
#[derive(Debug, Clone, PartialEq, Eq)]
pub enum EditorHostEvent {
    RuntimeReady { tab_id: String },
    RuntimeError { tab_id: String, message: String },
    ContentChanged { tab_id: String, content: String },
    SaveRequested { tab_id: String },
    PasteImageRequested { tab_id: String, mime_type: String, data: String },
    /// The channel to the runtime closed.
    ChannelClosed,
}

/// What a host does in answer.
#[derive(Debug, Clone, PartialEq, Eq)]
pub enum EditorHostAction {
    /// Send the runtime the tab's content.
    SetContent(String),
    /// Send the runtime the view mode.
    SetViewMode(ViewMode),
    /// Send the runtime the paste preference.
    SetPreferences(bool),
    /// Report that the tab's content changed.
    ContentChanged { tab_id: String, content: String },
    /// Save the tab.
    SaveTab(String),
    /// Save a pasted image of the tab as an asset.
    SavePastedImage { tab_id: String, mime_type: String, data: String },
    /// Show a status message.
    ShowStatus(String),
    /// Insert Markdown at the cursor.
    InsertMarkdown(String),
    /// Forget the runtime's bridge.
    DropBridge,
}

/// The view mode command to send, if the runtime was not sent `mode`
/// last, and the cache afterwards.
pub open spec fn view_mode_step(cache: EditorCommandCache, mode: ViewMode) -> (EditorCommandCache, Option<EditorHostAction>) {
    if cache.view_mode == Some(mode) {
        (cache, None)
    } else {
        (EditorCommandCache { view_mode: Some(mode), ..cache }, Some(EditorHostAction::SetViewMode(mode)))
    }
}

/// The preference command to send, if the runtime was not sent it last,
/// and the cache afterwards.
pub open spec fn preferences_step(cache: EditorCommandCache, auto_link_paste: bool) -> (EditorCommandCache, Option<EditorHostAction>) {
    if cache.auto_link_paste == Some(auto_link_paste) {
        (cache, None)
    } else {
        (
            EditorCommandCache { auto_link_paste: Some(auto_link_paste), ..cache },
            Some(EditorHostAction::SetPreferences(auto_link_paste)),
        )
    }
}

/// Sends the view mode unless it was the last one sent.
pub fn send_set_view_mode(cache: &mut EditorCommandCache, mode: ViewMode) -> (r: Option<EditorHostAction>)
    ensures
        (*final(cache), r) == view_mode_step(*old(cache), mode),
{
    if cache.view_mode == Some(mode) {
        None
    } else {
        cache.view_mode = Some(mode);
        Some(EditorHostAction::SetViewMode(mode))
    }
}

/// Sends the paste preference unless it was the last one sent.
pub fn send_set_preferences(cache: &mut EditorCommandCache, auto_link_paste: bool) -> (r: Option<EditorHostAction>)
    ensures
        (*final(cache), r) == preferences_step(*old(cache), auto_link_paste),
{
    if cache.auto_link_paste == Some(auto_link_paste) {
        None
    } else {
        cache.auto_link_paste = Some(auto_link_paste);
        Some(EditorHostAction::SetPreferences(auto_link_paste))
    }
}

/// The actions `a` (if any) followed by `b` (if any).
pub open spec fn some_actions(a: Option<EditorHostAction>, b: Option<EditorHostAction>) -> Seq<EditorHostAction> {
    let first = match a {
        Some(x) => seq![x],
        None => seq![],
    };
    match b {
        Some(y) => first.push(y),
        None => first,
    }
}

/// What a host does on `event`: its runtime state and command cache
/// afterwards, and its actions in order. `content` is the tab's content
/// (empty when unknown), `can_paste` tells whether a workspace and the tab
/// are open.
///
/// - ready: the state becomes ready; the content is sent, then the
///   startup view mode and the paste preference unless already sent;
/// - an error: the state records its message;
/// - a content change or a save request: reported as such;
/// - a pasted image: saved, or a status asks to open a workspace note;
/// - a closed channel: the bridge is dropped and the state records it.
pub fn editor_host_step(
    state: EditorRuntimeState,
    cache: EditorCommandCache,
    event: EditorHostEvent,
    content: String,
    initial_view_mode: ViewMode,
    auto_link_paste: bool,
    can_paste: bool,
) -> (r: (EditorRuntimeState, EditorCommandCache, Vec<EditorHostAction>))
    ensures
        match event {
            EditorHostEvent::RuntimeReady { .. } => {
                let (c1, a1) = view_mode_step(cache, initial_view_mode);
                let (c2, a2) = preferences_step(c1, auto_link_paste);
                &&& r.0 == EditorRuntimeState::Ready
                &&& r.1 == c2
                &&& r.2@ == seq![EditorHostAction::SetContent(content)] + some_actions(a1, a2)
            },
            EditorHostEvent::RuntimeError { message, .. } => {
                &&& r.0 == EditorRuntimeState::Error(message)
                &&& r.1 == cache
                &&& r.2@.len() == 0
            },
            EditorHostEvent::ContentChanged { tab_id, content: c } => {
                &&& r.0 == state
                &&& r.1 == cache
                &&& r.2@ == seq![EditorHostAction::ContentChanged { tab_id, content: c }]
            },
            EditorHostEvent::SaveRequested { tab_id } => {
                &&& r.0 == state
                &&& r.1 == cache
                &&& r.2@ == seq![EditorHostAction::SaveTab(tab_id)]
            },
            EditorHostEvent::PasteImageRequested { tab_id, mime_type, data } => {
                &&& r.0 == state
                &&& r.1 == cache
                &&& r.2@.len() == 1
                &&& if can_paste {
                    r.2@[0] == EditorHostAction::SavePastedImage { tab_id, mime_type, data }
                } else {
                    r.2@[0] matches EditorHostAction::ShowStatus(m) && m@
                        == "Open a workspace note before pasting images"@
                }
            },
            EditorHostEvent::ChannelClosed => {
                &&& r.0 matches EditorRuntimeState::Error(m) && m@ == "Editor runtime channel closed"@
                &&& r.1 == cache
                &&& r.2@ == seq![EditorHostAction::DropBridge]
            },
        },
{
    match event {
        EditorHostEvent::RuntimeReady { .. } => {
            let mut c = cache;
            let mut actions: Vec<EditorHostAction> = Vec::new();
            actions.push(EditorHostAction::SetContent(content));
            let a1 = send_set_view_mode(&mut c, initial_view_mode);
            let a2 = send_set_preferences(&mut c, auto_link_paste);
            let ghost first = actions@;
            match a1 {
                Some(x) => actions.push(x),
                None => {},
            }
            match a2 {
                Some(y) => actions.push(y),
                None => {},
            }
            assert(actions@ =~= first + some_actions(a1, a2));
            (EditorRuntimeState::Ready, c, actions)
        },
        EditorHostEvent::RuntimeError { message, .. } => (EditorRuntimeState::Error(message), cache, Vec::new()),
        EditorHostEvent::ContentChanged { tab_id, content: c } => {
            let mut actions: Vec<EditorHostAction> = Vec::new();
            actions.push(EditorHostAction::ContentChanged { tab_id, content: c });
            (state, cache, actions)
        },
        EditorHostEvent::SaveRequested { tab_id } => {
            let mut actions: Vec<EditorHostAction> = Vec::new();
            actions.push(EditorHostAction::SaveTab(tab_id));
            (state, cache, actions)
        },
        EditorHostEvent::PasteImageRequested { tab_id, mime_type, data } => {
            let mut actions: Vec<EditorHostAction> = Vec::new();
            if can_paste {
                actions.push(EditorHostAction::SavePastedImage { tab_id, mime_type, data });
            } else {
                actions.push(EditorHostAction::ShowStatus("Open a workspace note before pasting images".to_owned()));
            }
            (state, cache, actions)
        },
        EditorHostEvent::ChannelClosed => {
            let mut actions: Vec<EditorHostAction> = Vec::new();
            actions.push(EditorHostAction::DropBridge);
            (EditorRuntimeState::Error("Editor runtime channel closed".to_owned()), cache, actions)
        },
    }
}

/// What a host does once a pasted image was saved (`Ok` with its
/// Markdown) or not (`Err` with the reason).
pub fn pasted_image_outcome(saved: Result<String, String>) -> (r: EditorHostAction)
    ensures
        match saved {
            Ok(markdown) => r == EditorHostAction::InsertMarkdown(markdown),
            Err(reason) => r == EditorHostAction::ShowStatus(reason),
        },
{
    match saved {
        Ok(markdown) => EditorHostAction::InsertMarkdown(markdown),
        Err(reason) => EditorHostAction::ShowStatus(reason),
    }
}

/// Whether a host asks its runtime to lay out again: when it is shown and
/// its runtime is ready.
pub fn needs_refresh_layout(is_visible: bool, runtime_ready: bool) -> (b: bool)
    ensures
        b == (is_visible && runtime_ready),
{
    is_visible && runtime_ready
}

/// The view mode command a shown host with a ready runtime sends (once
/// per mode); a hidden host or one still loading sends nothing.
pub fn visible_view_mode_command(
    cache: &mut EditorCommandCache,
    is_visible: bool,
    runtime_ready: bool,
    mode: ViewMode,
) -> (r: Option<EditorHostAction>)
    ensures
        is_visible && runtime_ready ==> (*final(cache), r) == view_mode_step(*old(cache), mode),
        !(is_visible && runtime_ready) ==> *final(cache) == *old(cache) && r is None,
{
    if !is_visible || !runtime_ready {
        return None;
    }
    send_set_view_mode(cache, mode)
}

/// The preference command a shown host with a ready runtime sends (once
/// per value); a hidden host or one still loading sends nothing.
pub fn visible_preferences_command(
    cache: &mut EditorCommandCache,
    is_visible: bool,
    runtime_ready: bool,
    auto_link_paste: bool,
) -> (r: Option<EditorHostAction>)
    ensures
        is_visible && runtime_ready ==> (*final(cache), r) == preferences_step(*old(cache), auto_link_paste),
        !(is_visible && runtime_ready) ==> *final(cache) == *old(cache) && r is None,
{
    if !is_visible || !runtime_ready {
        return None;
    }
    send_set_preferences(cache, auto_link_paste)
}

/// The status line of a host's fallback: shown while the runtime starts.
pub fn fallback_status(state: &EditorRuntimeState) -> (r: Option<&'static str>)
    ensures
        match *state {
            EditorRuntimeState::Loading => r matches Some(t) && t@ == "Starting editor runtime..."@,
            _ => r is None,
        },
{
    match state {
        EditorRuntimeState::Loading => Some("Starting editor runtime..."),
        _ => None,
    }
}

} // verus!
