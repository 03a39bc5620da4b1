use papyro::watch::{watch_event_from_notify_event, FsEventKind, FsModifyKind, FsRenameMode, WatchEvent};
use std::path::PathBuf;

fn paths(ps: &[&str]) -> Vec<PathBuf> {
    ps.iter().map(PathBuf::from).collect()
}

#[test]
fn maps_create_modify_and_remove_events() {
    assert_eq!(
        watch_event_from_notify_event(FsEventKind::Create, paths(&["note.md"])),
        Some(WatchEvent::Created(PathBuf::from("note.md"))),
    );
    assert_eq!(
        watch_event_from_notify_event(FsEventKind::Modify(FsModifyKind::Data), paths(&["note.md"])),
        Some(WatchEvent::Modified(PathBuf::from("note.md"))),
    );
    assert_eq!(
        watch_event_from_notify_event(FsEventKind::Remove, paths(&["note.md"])),
        Some(WatchEvent::Deleted(PathBuf::from("note.md"))),
    );
}

#[test]
fn maps_rename_when_both_paths_are_available() {
    assert_eq!(
        watch_event_from_notify_event(
            FsEventKind::Modify(FsModifyKind::Name(FsRenameMode::Both)),
            paths(&["old.md", "new.md"]),
        ),
        Some(WatchEvent::Renamed {
            from: PathBuf::from("old.md"),
            to: PathBuf::from("new.md"),
        }),
    );
}

#[test]
fn falls_back_to_modified_for_incomplete_rename() {
    assert_eq!(
        watch_event_from_notify_event(
            FsEventKind::Modify(FsModifyKind::Name(FsRenameMode::Both)),
            paths(&["old.md"]),
        ),
        Some(WatchEvent::Modified(PathBuf::from("old.md"))),
    );
}

#[test]
fn ignores_events_without_paths_and_non_refresh_events() {
    assert_eq!(
        watch_event_from_notify_event(
            FsEventKind::Modify(FsModifyKind::Name(FsRenameMode::Both)),
            paths(&[]),
        ),
        None,
    );
    assert_eq!(
        watch_event_from_notify_event(FsEventKind::Access, paths(&["note.md"])),
        None,
    );
}

#[test]
fn events_take_the_first_paths_only() {
    assert_eq!(
        watch_event_from_notify_event(FsEventKind::Remove, paths(&["a.md", "b.md"])),
        Some(WatchEvent::Deleted(PathBuf::from("a.md")))
    );
    assert_eq!(
        watch_event_from_notify_event(
            FsEventKind::Modify(FsModifyKind::Name(FsRenameMode::Both)),
            paths(&["a.md", "b.md", "c.md"]),
        ),
        Some(WatchEvent::Renamed { from: PathBuf::from("a.md"), to: PathBuf::from("b.md") })
    );
    // A rename reported in two halves is a modification of the path given.
    assert_eq!(
        watch_event_from_notify_event(
            FsEventKind::Modify(FsModifyKind::Name(FsRenameMode::From)),
            paths(&["a.md", "b.md"]),
        ),
        Some(WatchEvent::Modified(PathBuf::from("a.md")))
    );
    assert_eq!(watch_event_from_notify_event(FsEventKind::Other, paths(&["a.md"])), None);
    assert_eq!(watch_event_from_notify_event(FsEventKind::Any, paths(&["a.md"])), None);
    assert_eq!(watch_event_from_notify_event(FsEventKind::Create, paths(&[])), None);
}
