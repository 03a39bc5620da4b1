use papyro::commands::{EditorRuntimeCommand, EditorRuntimeCommandQueue};

#[test]
fn editor_runtime_command_queue_drains_only_target_tab() {
    let mut queue = EditorRuntimeCommandQueue::default();
    queue.push_insert_markdown("a".to_string(), "![a](a.png)".to_string());
    queue.push_insert_markdown("b".to_string(), "![b](b.png)".to_string());

    let drained = queue.drain_for_tab("a");

    assert_eq!(
        drained,
        vec![EditorRuntimeCommand::InsertMarkdown {
            tab_id: "a".to_string(),
            markdown: "![a](a.png)".to_string(),
        }]
    );
    assert!(!queue.has_pending_for_tab("a"));
    assert!(queue.has_pending_for_tab("b"));
}

#[test]
fn editor_runtime_command_queue_discards_closed_tab_commands() {
    let mut queue = EditorRuntimeCommandQueue::default();
    queue.push_insert_markdown("a".to_string(), "![a](a.png)".to_string());
    queue.push_insert_markdown("b".to_string(), "![b](b.png)".to_string());

    queue.discard_for_tab("a");

    assert!(!queue.has_pending_for_tab("a"));
    assert!(queue.has_pending_for_tab("b"));
}

#[test]
fn queue_revision_counts_pushes_and_survives_draining() {
    let mut queue = EditorRuntimeCommandQueue::default();
    assert_eq!(queue.revision(), 0);
    queue.push_insert_markdown("a".to_string(), "x".to_string());
    queue.push_insert_markdown("a".to_string(), "y".to_string());
    queue.push_insert_markdown("b".to_string(), "z".to_string());
    assert_eq!(queue.revision(), 3);
    let drained = queue.drain_for_tab("a");
    assert_eq!(queue.revision(), 3);
    let markdown: Vec<String> = drained
        .into_iter()
        .map(|command| match command {
            EditorRuntimeCommand::InsertMarkdown { markdown, .. } => markdown,
        })
        .collect();
    assert_eq!(markdown, vec!["x".to_string(), "y".to_string()]);
    assert!(queue.drain_for_tab("a").is_empty());
    let rest = queue.drain_for_tab("b");
    assert_eq!(rest.len(), 1);
    assert_eq!(rest[0].tab_id(), "b");
    assert!(!queue.has_pending_for_tab("b"));
}
