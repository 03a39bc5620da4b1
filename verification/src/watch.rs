//! File system events of a watched workspace, as the application sees
//! them.
use vstd::prelude::*;
use std::path::PathBuf;

verus! {

/// `std::path::PathBuf`, carried through unchanged.
#[verifier::external_type_specification]
#[verifier::external_body]
pub struct ExPathBuf(PathBuf);

/// A change in a watched workspace.
#[derive(Debug, PartialEq, Eq)]
pub enum WatchEvent {
    Created(PathBuf),
    Modified(PathBuf),
    Deleted(PathBuf),
    Renamed { from: PathBuf, to: PathBuf },
}

/// How a rename was reported (the shape of `notify`'s `RenameMode`).
#[derive(Debug, Clone, Copy, PartialEq, Eq, Structural)]
pub enum FsRenameMode {
    Any,
    To,
    From,
    Both,
    Other,
}

/// What was modified (the shape of `notify`'s `ModifyKind`).
#[derive(Debug, Clone, Copy, PartialEq, Eq, Structural)]
pub enum FsModifyKind {
    Any,
    Data,
    Metadata,
    Name(FsRenameMode),
    Other,
}

/// The kind of a file system event (the shape of `notify`'s `EventKind`).
#[derive(Debug, Clone, Copy, PartialEq, Eq, Structural)]
pub enum FsEventKind {
    Any,
    Access,
    Create,
    Modify(FsModifyKind),
    Remove,
    Other,
}

/// The workspace event for an event of `kind` on `paths`: creations,
/// modifications and removals of the first path; a rename reported with
/// both paths becomes a rename from the first to the second (with one
/// path only, a modification of it); nothing without a path, and nothing
/// for access and other events.
pub open spec fn watch_event_of(kind: FsEventKind, paths: Seq<PathBuf>) -> Option<WatchEvent> {
    if paths.len() == 0 {
        None
    } else {
        match kind {
            FsEventKind::Create => Some(WatchEvent::Created(paths[0])),
            FsEventKind::Modify(FsModifyKind::Name(FsRenameMode::Both)) => if paths.len() >= 2 {
                Some(WatchEvent::Renamed { from: paths[0], to: paths[1] })
            } else {
                Some(WatchEvent::Modified(paths[0]))
            },
            FsEventKind::Modify(_) => Some(WatchEvent::Modified(paths[0])),
            FsEventKind::Remove => Some(WatchEvent::Deleted(paths[0])),
            FsEventKind::Any | FsEventKind::Access | FsEventKind::Other => None,
        }
    }
}

/// The workspace event for a file system event of `kind` on `paths`, if
/// it is one the workspace reacts to.
pub fn watch_event_from_notify_event(kind: FsEventKind, paths: Vec<PathBuf>) -> (r: Option<WatchEvent>)
    ensures
        r == watch_event_of(kind, paths@),
{
    let ghost ps = paths@;
    let mut paths = paths;
    if paths.len() == 0 {
        return None;
    }
    match kind {
        FsEventKind::Create => Some(WatchEvent::Created(paths.remove(0))),
        FsEventKind::Modify(FsModifyKind::Name(FsRenameMode::Both)) => {
            if paths.len() >= 2 {
                let from = paths.remove(0);
                assert(paths@[0] == ps[1]);
                let to = paths.remove(0);
                Some(WatchEvent::Renamed { from, to })
            } else {
                Some(WatchEvent::Modified(paths.remove(0)))
            }
        },
        FsEventKind::Modify(_) => Some(WatchEvent::Modified(paths.remove(0))),
        FsEventKind::Remove => Some(WatchEvent::Deleted(paths.remove(0))),
        FsEventKind::Any | FsEventKind::Access | FsEventKind::Other => None,
    }
}

} // verus!
