use papyro::editor_pane::{
    block_hints_for_host, host_lifecycle_change, host_lifecycle_map, host_runtime_auto_link_paste,
    host_runtime_view_mode, outline_tool_class, sidebar_toggle_icon_class, sidebar_toggle_label,
    view_mode_label, view_mode_option_class, EditorHostItemViewModel, HostLifecycleMap,
};
use papyro::editor_pane::{editor_pane_layout, preview_workspace_path, EditorBridges, HostSlot};
use papyro::models::ViewMode;
use papyro::status::editor_view_modes;

fn host_item(tab_id: &str, is_active: bool) -> EditorHostItemViewModel {
    EditorHostItemViewModel {
        tab_id: tab_id.to_string(),
        is_active,
        initial_content: Default::default(),
    }
}

fn table(entries: &[(&str, bool)]) -> HostLifecycleMap {
    let mut map = HostLifecycleMap::new();
    for (tab_id, active) in entries {
        map.insert(tab_id.to_string(), *active);
    }
    map
}

#[test]
fn editor_chrome_view_mode_helpers_keep_visible_labels() {
    assert_eq!(editor_view_modes().len(), 3);
    assert_eq!(view_mode_label(&ViewMode::Source), "Source");
    assert_eq!(view_mode_label(&ViewMode::Hybrid), "Hybrid");
    assert_eq!(view_mode_label(&ViewMode::Preview), "Preview");
    assert_eq!(
        view_mode_option_class(&ViewMode::Hybrid, &ViewMode::Hybrid),
        "mn-view-mode-option active"
    );
    assert_eq!(
        view_mode_option_class(&ViewMode::Hybrid, &ViewMode::Source),
        "mn-view-mode-option"
    );
}

#[test]
fn editor_chrome_icon_helpers_reflect_panel_state() {
    assert_eq!(sidebar_toggle_label(false), "Hide sidebar (Ctrl+\\)");
    assert_eq!(sidebar_toggle_label(true), "Show sidebar (Ctrl+\\)");
    assert_eq!(
        sidebar_toggle_icon_class(false),
        "mn-tool-icon sidebar-open"
    );
    assert_eq!(
        sidebar_toggle_icon_class(true),
        "mn-tool-icon sidebar-closed"
    );
    assert_eq!(outline_tool_class(false), "mn-editor-tool icon-only");
    assert_eq!(outline_tool_class(true), "mn-editor-tool icon-only active");
}

#[test]
fn host_lifecycle_change_tracks_create_hide_restore_and_retire() {
    let previous = table(&[("a", true), ("b", false), ("old", false)]);
    let current = vec![
        host_item("b", true),
        host_item("a", false),
        host_item("c", false),
    ];

    let change = host_lifecycle_change(&previous, &current);

    assert_eq!(change.active_tab_id.as_deref(), Some("b"));
    assert_eq!(change.host_count, 3);
    assert_eq!(change.created, vec!["c".to_string()]);
    assert_eq!(change.restored, vec!["b".to_string()]);
    assert_eq!(change.hidden, vec!["a".to_string()]);
    assert_eq!(change.retired, vec!["old".to_string()]);
    assert!(change.has_changes());
}

#[test]
fn host_lifecycle_change_is_empty_for_stable_pool() {
    let previous = table(&[("a", true), ("b", false)]);
    let current = vec![host_item("a", true), host_item("b", false)];

    let change = host_lifecycle_change(&previous, &current);

    assert!(!change.has_changes());
}

#[test]
fn recorded_pool_compared_with_itself_has_no_changes() {
    let current = vec![host_item("x", false), host_item("y", true), host_item("z", false)];
    let change = host_lifecycle_change(&host_lifecycle_map(&current), &current);
    assert!(!change.has_changes());
    assert_eq!(change.active_tab_id.as_deref(), Some("y"));
}

#[test]
fn host_table_keeps_one_entry_per_tab() {
    let mut map = HostLifecycleMap::new();
    map.insert("a".to_string(), true);
    map.insert("b".to_string(), false);
    map.insert("a".to_string(), false);
    assert_eq!(map.len(), 2);
    assert_eq!(map.get(&"a".to_string()), Some(false));
    assert_eq!(map.get(&"b".to_string()), Some(false));
    assert_eq!(map.get(&"c".to_string()), None);
    assert!(map.contains_key(&"b".to_string()));
    assert!(!map.contains_key(&"c".to_string()));
    // A later host of the same tab wins.
    let m = host_lifecycle_map(&[host_item("t", true), host_item("t", false)]);
    assert_eq!(m.len(), 1);
    assert_eq!(m.get(&"t".to_string()), Some(false));
}

#[test]
fn hidden_host_runtime_inputs_ignore_editor_preferences() {
    assert_eq!(
        host_runtime_view_mode(false, &ViewMode::Preview),
        ViewMode::Source
    );
    assert!(!host_runtime_auto_link_paste(false, true));
}

#[test]
fn active_host_runtime_inputs_track_editor_preferences() {
    assert_eq!(
        host_runtime_view_mode(true, &ViewMode::Preview),
        ViewMode::Preview
    );
    assert!(host_runtime_auto_link_paste(true, true));
    assert!(!host_runtime_auto_link_paste(true, false));
}

#[test]
fn block_hints_only_route_to_active_host() {
    let hints = 3u64;

    assert_eq!(block_hints_for_host(true, Some(&hints)), Some(&hints));
    assert_eq!(block_hints_for_host(false, Some(&4u64)), None);
    assert_eq!(block_hints_for_host::<u64>(true, None), None);
}

use papyro::editor_pane::stale_bridge_ids;

#[test]
fn stale_bridges_are_those_of_tabs_without_host() {
    let current = vec![host_item("a", true), host_item("c", false)];
    let bridges = vec!["a".to_string(), "b".to_string(), "c".to_string(), "d".to_string()];
    assert_eq!(stale_bridge_ids(&bridges, &current), vec!["b".to_string(), "d".to_string()]);
    assert!(stale_bridge_ids(&[], &current).is_empty());
}

#[test]
fn pane_layout_shows_the_active_host_for_editing() {
    let hosts = vec![host_item("a", false), host_item("b", true)];
    let layout = editor_pane_layout(true, ViewMode::Hybrid, true, true, &hosts);
    assert!(layout.shows_document && !layout.shows_empty_state);
    assert!(!layout.edit_area_hidden && !layout.shows_preview && layout.shows_outline);
    assert_eq!(
        layout.hosts,
        vec![
            HostSlot {
                tab_id: "a".to_string(),
                hidden: true,
                is_visible: false,
                view_mode: ViewMode::Source,
                auto_link_paste: false,
                receives_block_hints: false,
            },
            HostSlot {
                tab_id: "b".to_string(),
                hidden: false,
                is_visible: true,
                view_mode: ViewMode::Hybrid,
                auto_link_paste: true,
                receives_block_hints: true,
            },
        ]
    );
}

#[test]
fn pane_layout_in_preview_hides_the_edit_area() {
    let hosts = vec![host_item("b", true)];
    let layout = editor_pane_layout(true, ViewMode::Preview, false, true, &hosts);
    assert!(layout.edit_area_hidden && layout.shows_preview && !layout.shows_outline);
    assert!(!layout.hosts[0].hidden);
    assert!(!layout.hosts[0].is_visible);
    assert_eq!(layout.hosts[0].view_mode, ViewMode::Preview);
    assert!(ViewMode::Source.is_editable() && ViewMode::Hybrid.is_editable());
    assert!(!ViewMode::Preview.is_editable());
}

#[test]
fn pane_layout_without_a_tab_shows_the_empty_state_and_retired_hosts() {
    let hosts = vec![host_item("a", true)];
    let layout = editor_pane_layout(false, ViewMode::Hybrid, true, true, &hosts);
    assert!(!layout.shows_document && layout.shows_empty_state);
    assert!(!layout.shows_preview && !layout.shows_outline);
    assert!(layout.hosts[0].hidden && !layout.hosts[0].is_visible);
    assert_eq!(layout.hosts[0].view_mode, ViewMode::Source);
    assert!(!layout.hosts[0].auto_link_paste && !layout.hosts[0].receives_block_hints);
}

#[test]
fn preview_resolves_links_against_the_workspace_only_in_preview() {
    assert_eq!(
        preview_workspace_path(ViewMode::Preview, Some("/w".to_string())),
        Some("/w".to_string())
    );
    assert_eq!(preview_workspace_path(ViewMode::Hybrid, Some("/w".to_string())), None);
}

#[test]
fn dropping_a_host_destroys_its_bridge_once() {
    let mut bridges = EditorBridges::new();
    bridges.register("a".to_string());
    bridges.register("b".to_string());
    bridges.register("a".to_string());
    assert!(bridges.drop_host(&"a".to_string()));
    assert!(!bridges.contains(&"a".to_string()));
    assert!(bridges.contains(&"b".to_string()));
    assert!(!bridges.drop_host(&"a".to_string()));
    assert!(!bridges.drop_host(&"missing".to_string()));
    assert!(bridges.contains(&"b".to_string()));
}

#[test]
fn stale_bridges_are_retired_and_current_ones_kept() {
    let mut bridges = EditorBridges::new();
    bridges.register("a".to_string());
    bridges.register("b".to_string());
    bridges.register("c".to_string());
    let mut stale = bridges.retire_stale(&[host_item("b", true)]);
    stale.sort();
    assert_eq!(stale, vec!["a".to_string(), "c".to_string()]);
    assert!(bridges.contains(&"b".to_string()));
    assert!(!bridges.contains(&"a".to_string()) && !bridges.contains(&"c".to_string()));
    assert!(bridges.retire_stale(&[host_item("b", false)]).is_empty());
}
