use papyro::editor_host::{
    editor_host_step, fallback_status, needs_refresh_layout, pasted_image_outcome,
    visible_preferences_command, visible_view_mode_command, EditorCommandCache, EditorHostAction,
    EditorHostEvent, EditorRuntimeState,
};
use papyro::models::ViewMode;

fn empty_cache() -> EditorCommandCache {
    EditorCommandCache { view_mode: None, auto_link_paste: None }
}

#[test]
fn ready_runtime_gets_content_view_mode_and_preferences_once() {
    let (state, cache, actions) = editor_host_step(
        EditorRuntimeState::Loading,
        empty_cache(),
        EditorHostEvent::RuntimeReady { tab_id: "a".to_string() },
        "# Note".to_string(),
        ViewMode::Hybrid,
        true,
        true,
    );
    assert_eq!(state, EditorRuntimeState::Ready);
    assert_eq!(
        actions,
        vec![
            EditorHostAction::SetContent("# Note".to_string()),
            EditorHostAction::SetViewMode(ViewMode::Hybrid),
            EditorHostAction::SetPreferences(true),
        ]
    );
    // A second ready with the same settings sends only the content.
    let (_, _, again) = editor_host_step(
        state,
        cache,
        EditorHostEvent::RuntimeReady { tab_id: "a".to_string() },
        "# Note".to_string(),
        ViewMode::Hybrid,
        true,
        true,
    );
    assert_eq!(again, vec![EditorHostAction::SetContent("# Note".to_string())]);
}

#[test]
fn runtime_events_become_commands() {
    let step = |event: EditorHostEvent, can_paste: bool| {
        editor_host_step(EditorRuntimeState::Ready, empty_cache(), event, String::new(), ViewMode::Source, false, can_paste)
    };
    let (_, _, a) = step(EditorHostEvent::SaveRequested { tab_id: "t".to_string() }, true);
    assert_eq!(a, vec![EditorHostAction::SaveTab("t".to_string())]);
    let (_, _, a) = step(
        EditorHostEvent::ContentChanged { tab_id: "t".to_string(), content: "x".to_string() },
        true,
    );
    assert_eq!(a, vec![EditorHostAction::ContentChanged { tab_id: "t".to_string(), content: "x".to_string() }]);
    let paste = || EditorHostEvent::PasteImageRequested {
        tab_id: "t".to_string(),
        mime_type: "image/png".to_string(),
        data: "AA==".to_string(),
    };
    let (_, _, a) = step(paste(), true);
    assert_eq!(
        a,
        vec![EditorHostAction::SavePastedImage {
            tab_id: "t".to_string(),
            mime_type: "image/png".to_string(),
            data: "AA==".to_string()
        }]
    );
    let (_, _, a) = step(paste(), false);
    assert_eq!(a, vec![EditorHostAction::ShowStatus("Open a workspace note before pasting images".to_string())]);
    let (s, _, a) = step(EditorHostEvent::RuntimeError { tab_id: "t".to_string(), message: "boom".to_string() }, true);
    assert_eq!(s, EditorRuntimeState::Error("boom".to_string()));
    assert!(a.is_empty());
    let (s, _, a) = step(EditorHostEvent::ChannelClosed, true);
    assert_eq!(s, EditorRuntimeState::Error("Editor runtime channel closed".to_string()));
    assert_eq!(a, vec![EditorHostAction::DropBridge]);
}

#[test]
fn shown_hosts_send_changed_settings_only() {
    let mut cache = empty_cache();
    assert_eq!(visible_view_mode_command(&mut cache, false, true, ViewMode::Preview), None);
    assert_eq!(
        visible_view_mode_command(&mut cache, true, true, ViewMode::Preview),
        Some(EditorHostAction::SetViewMode(ViewMode::Preview))
    );
    assert_eq!(visible_view_mode_command(&mut cache, true, true, ViewMode::Preview), None);
    assert_eq!(visible_preferences_command(&mut cache, true, false, true), None);
    assert_eq!(
        visible_preferences_command(&mut cache, true, true, true),
        Some(EditorHostAction::SetPreferences(true))
    );
    assert!(needs_refresh_layout(true, true));
    assert!(!needs_refresh_layout(false, true));
    assert_eq!(
        pasted_image_outcome(Ok("![image](a.png)".to_string())),
        EditorHostAction::InsertMarkdown("![image](a.png)".to_string())
    );
    assert_eq!(pasted_image_outcome(Err("bad".to_string())), EditorHostAction::ShowStatus("bad".to_string()));
    assert_eq!(fallback_status(&EditorRuntimeState::Loading), Some("Starting editor runtime..."));
    assert_eq!(fallback_status(&EditorRuntimeState::Ready), None);
}
