//! Workspaces and note metadata: records, keys, derived note metadata,
//! trash locations and status texts.
use vstd::prelude::*;
use crate::file_ops::{answers, count_words, extract_title, note_title};
use crate::front_matter::{extract_front_matter_tags, front_matter_tags};
use crate::paths::{file_name, join, path_exists, path_file_name, path_join, path_strip_prefix, strip_prefix};
use crate::text::{chars_of, concat, decimal, decimal_chars, i64_decimal_chars, signed_decimal, lowercase, lowercase_chars, string_from, trim, trimmed, words};
use crate::tree::{is_markdown, markdown_path, note_id_of, stable_note_id};

verus! {

broadcast use vstd::string::group_string_axioms;

/// A workspace: a folder of notes known to the application.
#[derive(Debug, Clone, PartialEq, Eq)]
pub struct Workspace {
    pub id: String,
    pub name: String,
    pub path: String,
    pub created_at: i64,
    pub last_opened: Option<i64>,
    pub sort_order: i64,
}

/// The stored state of a note, used to detect changes on disk.
#[derive(Debug, Clone, PartialEq, Eq)]
pub struct NoteSyncState {
    pub relative_path: String,
    pub updated_at: i64,
}

/// A tag of a note.
#[derive(Debug, Clone, PartialEq, Eq)]
pub struct Tag {
    pub id: String,
    pub name: String,
    pub color: String,
}

/// The metadata kept for a note.
#[derive(Debug, Clone, PartialEq, Eq)]
pub struct NoteMeta {
    pub id: String,
    pub workspace_id: String,
    pub relative_path: String,
    pub title: String,
    pub created_at: i64,
    pub updated_at: i64,
    pub word_count: u32,
    pub char_count: u32,
    pub is_favorite: bool,
    pub is_trashed: bool,
    pub tags: Vec<Tag>,
}

// ---------------------------------------------------------------------
// Workspace records
// ---------------------------------------------------------------------

/// The name of a new workspace at `root`: its folder name, or `Workspace`.
pub open spec fn workspace_name(root: Seq<char>) -> Seq<char> {
    match file_name(root) {
        Some(n) => n,
        None => "Workspace"@,
    }
}

/// A new workspace record for the folder `root`, created and opened at
/// `now`, with the identifier `id`.
pub fn new_workspace(id: String, root: &str, now: i64) -> (w: Workspace)
    ensures
        w.id == id,
        w.name@ == workspace_name(root@),
        w.path@ == root@,
        w.created_at == now,
        w.last_opened == Some(now),
        w.sort_order == 0,
{
    let name = match path_file_name(&chars_of(root)) {
        Some(n) => string_from(n.as_slice()),
        None => "Workspace".to_owned(),
    };
    Workspace { id, name, path: root.to_owned(), created_at: now, last_opened: Some(now), sort_order: 0 }
}

/// Whether some workspace of `ws` has the identifier `id`.
pub open spec fn has_workspace_id(ws: Seq<Workspace>, id: Seq<char>) -> bool {
    exists|i: int| 0 <= i < ws.len() && (#[trigger] ws[i]).id@ == id
}

/// The recent workspaces with the current one in front when the list
/// lacks it.
pub open spec fn with_current(ws: Seq<Workspace>, current: Workspace) -> Seq<Workspace> {
    if has_workspace_id(ws, current.id@) {
        ws
    } else {
        seq![current] + ws
    }
}

/// The recent workspaces, with `current` put first when none of them has
/// its identifier.
pub fn recent_workspaces_with_current(workspaces: Vec<Workspace>, current: Workspace) -> (r: Vec<Workspace>)
    ensures
        r@ == with_current(workspaces@, current),
{
    let mut i: usize = 0;
    while i < workspaces.len()
        invariant
            i <= workspaces.len(),
            forall|k: int| 0 <= k < i ==> (#[trigger] workspaces@[k]).id@ != current.id@,
        decreases workspaces.len() - i,
    {
        if workspaces[i].id == current.id {
            assert(has_workspace_id(workspaces@, current.id@)) by {
                assert(workspaces@[i as int].id@ == current.id@);
            }
            return workspaces;
        }
        i = i + 1;
    }
    let mut workspaces = workspaces;
    let ghost before = workspaces@;
    workspaces.insert(0, current);
    assert(workspaces@ =~= seq![current] + before);
    workspaces
}

/// The current workspace is always among the workspaces listed with it.
pub proof fn current_workspace_is_listed(ws: Seq<Workspace>, current: Workspace)
    ensures
        has_workspace_id(with_current(ws, current), current.id@),
{
    if !has_workspace_id(ws, current.id@) {
        assert((seq![current] + ws)[0] == current);
    }
}

// ---------------------------------------------------------------------
// Settings keys and tags
// ---------------------------------------------------------------------

/// The key under which a workspace's settings are stored.
pub fn workspace_settings_key(workspace_id: &str) -> (r: String)
    ensures
        r@ == "workspace_settings:"@ + workspace_id@,
{
    string_from(concat(&chars_of("workspace_settings:"), &chars_of(workspace_id)).as_slice())
}

/// The key under which a workspace's file tree state is stored.
pub fn workspace_tree_state_key(workspace_id: &str) -> (r: String)
    ensures
        r@ == "workspace_tree_state:"@ + workspace_id@,
{
    string_from(concat(&chars_of("workspace_tree_state:"), &chars_of(workspace_id)).as_slice())
}

/// The identifier of the tag named `name`: the name trimmed and
/// lowercased.
pub open spec fn tag_id_of(name: Seq<char>) -> Seq<char> {
    lowercase(trim(name))
}

/// The identifier of the tag named `name`.
pub fn tag_id(name: &str) -> (r: String)
    ensures
        r@ == tag_id_of(name@),
{
    string_from(lowercase_chars(&trimmed(&chars_of(name))).as_slice())
}

/// The color given to tags found in front matter.
pub open spec fn default_tag_color() -> Seq<char> {
    "#6B7280"@
}

/// The views of tags.
pub open spec fn tag_views(tags: Seq<Tag>) -> Seq<(Seq<char>, Seq<char>, Seq<char>)> {
    tags.map_values(|t: Tag| (t.id@, t.name@, t.color@))
}

/// The tags made from front matter tag names.
pub open spec fn tags_from_names(names: Seq<Seq<char>>) -> Seq<(Seq<char>, Seq<char>, Seq<char>)> {
    names.map_values(|n: Seq<char>| (tag_id_of(n), n, default_tag_color()))
}

// ---------------------------------------------------------------------
// Note metadata
// ---------------------------------------------------------------------

/// The path of `path` inside `root`, or `path` itself when it is outside.
pub open spec fn relative_to(root: Seq<char>, path: Seq<char>) -> Seq<char> {
    match strip_prefix(path, root) {
        Some(r) => r,
        None => path,
    }
}

/// The path of `path` inside `root`, or `path` itself.
pub fn relative_path_in(root: &str, path: &str) -> (r: String)
    ensures
        r@ == relative_to(root@, path@),
{
    match path_strip_prefix(&chars_of(path), &chars_of(root)) {
        Some(r) => string_from(r.as_slice()),
        None => path.to_owned(),
    }
}

/// The number of characters of `s`, as a `u32`.
pub fn char_count(s: &str) -> (n: u32)
    ensures
        n == s@.len() as u32,
{
    let v = chars_of(s);
    v.len() as u32
}

/// The metadata of the note at `path` (inside `root`, the folder of
/// `workspace`) with text `content`. `created` and `modified` are the
/// file's times, when the file system gives them: the creation time
/// defaults to the workspace's, the update time to the creation time.
pub fn build_note_meta(
    workspace: &Workspace,
    root: &str,
    path: &str,
    content: &str,
    created: Option<i64>,
    modified: Option<i64>,
) -> (m: NoteMeta)
    ensures
        m.relative_path@ == relative_to(root@, path@),
        m.id@ == note_id_of(workspace.id@, relative_to(root@, path@)),
        m.workspace_id == workspace.id,
        m.title@ == note_title(path@, content@),
        m.created_at == match created {
            Some(t) => t,
            None => workspace.created_at,
        },
        m.updated_at == match modified {
            Some(t) => t,
            None => m.created_at,
        },
        m.word_count == words(content@).len() as u32,
        m.char_count == content@.len() as u32,
        !m.is_favorite,
        !m.is_trashed,
        tag_views(m.tags@) == tags_from_names(front_matter_tags(content@)),
{
    let relative_path = relative_path_in(root, path);
    let created_at = match created {
        Some(t) => t,
        None => workspace.created_at,
    };
    let updated_at = match modified {
        Some(t) => t,
        None => created_at,
    };
    let names = extract_front_matter_tags(content);
    let ghost nv = names@.map_values(|s: String| s@);
    let mut tags: Vec<Tag> = Vec::new();
    let mut i: usize = 0;
    while i < names.len()
        invariant
            i <= names.len(),
            nv == names@.map_values(|s: String| s@),
            tags.len() == i,
            forall|k: int| 0 <= k < i ==> #[trigger] tag_views(tags@)[k] == tags_from_names(nv)[k],
        decreases names.len() - i,
    {
        let name = names[i].clone();
        assert(name@ == nv[i as int]);
        let color = "#6B7280".to_owned();
        assert(color@ == default_tag_color());
        let t = Tag { id: tag_id(name.as_str()), name, color };
        assert((t.id@, t.name@, t.color@) == (tag_id_of(nv[i as int]), nv[i as int], default_tag_color()));
        let ghost before = tags@;
        tags.push(t);
        assert(tag_views(tags@)[i as int] == tags_from_names(nv)[i as int]);
        assert forall|k: int| 0 <= k < i implies #[trigger] tag_views(tags@)[k] == tags_from_names(nv)[k] by {
            assert(tags@[k] == before[k]);
            assert(tag_views(before)[k] == tags_from_names(nv)[k]);
        }
        i = i + 1;
    }
    assert(tag_views(tags@) =~= tags_from_names(nv));
    NoteMeta {
        id: stable_note_id(workspace.id.as_str(), relative_path.as_str()),
        workspace_id: workspace.id.clone(),
        relative_path,
        title: extract_title(path, content),
        created_at,
        updated_at,
        word_count: count_words(content),
        char_count: char_count(content),
        is_favorite: false,
        is_trashed: false,
        tags,
    }
}

/// The identifiers a note changes between when it moves from
/// `old_note_path` to `new_note_path` inside a workspace, and its new
/// relative path.
pub fn note_id_update(workspace: &Workspace, old_note_path: &str, new_note_path: &str) -> (r: (String, String, String))
    ensures
        r.0@ == note_id_of(workspace.id@, relative_to(workspace.path@, old_note_path@)),
        r.1@ == note_id_of(workspace.id@, relative_to(workspace.path@, new_note_path@)),
        r.2@ == relative_to(workspace.path@, new_note_path@),
{
    let old_rel = relative_path_in(workspace.path.as_str(), old_note_path);
    let new_rel = relative_path_in(workspace.path.as_str(), new_note_path);
    (
        stable_note_id(workspace.id.as_str(), old_rel.as_str()),
        stable_note_id(workspace.id.as_str(), new_rel.as_str()),
        new_rel,
    )
}


/// The identifiers of a note that moved from `old_note` to `new_note`,
/// and its new relative path.
pub open spec fn id_update(ws: Workspace, old_note: Seq<char>, new_note: Seq<char>) -> (Seq<char>, Seq<char>, Seq<char>) {
    (
        note_id_of(ws.id@, relative_to(ws.path@, old_note)),
        note_id_of(ws.id@, relative_to(ws.path@, new_note)),
        relative_to(ws.path@, new_note),
    )
}

/// Where a note that is now at `new_note`, under the moved `new_root`, was
/// before `old_root` moved there.
pub open spec fn moved_from(old_root: Seq<char>, new_root: Seq<char>, new_note: Seq<char>) -> Seq<char> {
    join(
        old_root,
        match strip_prefix(new_note, new_root) {
            Some(suffix) => suffix,
            None => new_note,
        },
    )
}

/// Where a note now under `new_root` was before `old_root` moved there.
pub fn moved_note_origin(old_root: &str, new_root: &str, new_note: &str) -> (r: String)
    ensures
        r@ == moved_from(old_root@, new_root@, new_note@),
{
    let note = chars_of(new_note);
    let suffix = match path_strip_prefix(&note, &chars_of(new_root)) {
        Some(s) => s,
        None => note,
    };
    string_from(path_join(&chars_of(old_root), &suffix).as_slice())
}

/// The Markdown files of `files`, in order.
pub open spec fn markdown_files(files: Seq<Seq<char>>) -> Seq<Seq<char>>
    decreases files.len(),
{
    if files.len() == 0 {
        seq![]
    } else if markdown_path(files.last()) {
        markdown_files(files.drop_last()).push(files.last())
    } else {
        markdown_files(files.drop_last())
    }
}

/// The identifier updates of renaming or moving `old_path` to `new_path`:
/// for a folder, one per Markdown file now under it (`files_under`, the
/// files found there), each mapped back below `old_path`; for a Markdown
/// file, its own; otherwise none.
pub open spec fn renamed_ids(
    ws: Workspace,
    old_path: Seq<char>,
    new_path: Seq<char>,
    new_is_dir: bool,
    files_under: Seq<Seq<char>>,
) -> Seq<(Seq<char>, Seq<char>, Seq<char>)> {
    if new_is_dir {
        markdown_files(files_under).map_values(|n: Seq<char>| id_update(ws, moved_from(old_path, new_path, n), n))
    } else if markdown_path(new_path) {
        seq![id_update(ws, old_path, new_path)]
    } else {
        seq![]
    }
}

/// The view of a list of identifier updates.
pub open spec fn updates_view(v: Seq<(String, String, String)>) -> Seq<(Seq<char>, Seq<char>, Seq<char>)> {
    v.map_values(|u: (String, String, String)| (u.0@, u.1@, u.2@))
}

/// The identifier updates of renaming or moving `old_path` to `new_path`.
/// `new_is_dir` tells whether `new_path` is a folder, and `files_under`
/// lists the files found under it.
pub fn renamed_note_ids(
    workspace: &Workspace,
    old_path: &str,
    new_path: &str,
    new_is_dir: bool,
    files_under: &[String],
) -> (r: Vec<(String, String, String)>)
    ensures
        updates_view(r@) == renamed_ids(*workspace, old_path@, new_path@, new_is_dir, files_under@.map_values(|f: String| f@)),
{
    let mut updates: Vec<(String, String, String)> = Vec::new();
    if new_is_dir {
        let ghost fv = files_under@.map_values(|f: String| f@);
        let mut i: usize = 0;
        while i < files_under.len()
            invariant
                i <= files_under.len(),
                new_is_dir,
                fv == files_under@.map_values(|f: String| f@),
                updates_view(updates@) == markdown_files(fv.take(i as int)).map_values(
                    |n: Seq<char>| id_update(*workspace, moved_from(old_path@, new_path@, n), n),
                ),
            decreases files_under.len() - i,
        {
            assert(fv.take(i + 1).drop_last() =~= fv.take(i as int));
            assert(fv.take(i + 1).last() == files_under@[i as int]@);
            let file = &files_under[i];
            if is_markdown(file.as_str()) {
                let ghost before = updates@;
                let origin = moved_note_origin(old_path, new_path, file.as_str());
                let u = note_id_update(workspace, origin.as_str(), file.as_str());
                updates.push(u);
                assert(updates_view(updates@) =~= updates_view(before).push(
                    id_update(*workspace, moved_from(old_path@, new_path@, file@), file@),
                ));
                assert(markdown_files(fv.take(i + 1)) == markdown_files(fv.take(i as int)).push(file@));
                assert(markdown_files(fv.take(i + 1)).map_values(
                    |n: Seq<char>| id_update(*workspace, moved_from(old_path@, new_path@, n), n),
                ) =~= markdown_files(fv.take(i as int)).map_values(
                    |n: Seq<char>| id_update(*workspace, moved_from(old_path@, new_path@, n), n),
                ).push(id_update(*workspace, moved_from(old_path@, new_path@, file@), file@)));
            }
            i = i + 1;
        }
        assert(fv.take(files_under.len() as int) =~= fv);
    } else if is_markdown(new_path) {
        updates.push(note_id_update(workspace, old_path, new_path));
        assert(updates_view(updates@) =~= seq![id_update(*workspace, old_path@, new_path@)]);
    } else {
        assert(updates_view(updates@) =~= Seq::<(Seq<char>, Seq<char>, Seq<char>)>::empty());
    }
    updates
}

/// The notes of `known` (those the index holds) that are not among
/// `existing` (those found on disk), in order.
pub open spec fn missing_ids(known: Seq<Seq<char>>, existing: Seq<Seq<char>>) -> Seq<Seq<char>>
    decreases known.len(),
{
    if known.len() == 0 {
        seq![]
    } else if existing.contains(known.last()) {
        missing_ids(known.drop_last(), existing)
    } else {
        missing_ids(known.drop_last(), existing).push(known.last())
    }
}

/// The indexed notes that are no longer on disk: those of `known_note_ids`
/// that `existing_note_ids` does not hold.
pub fn missing_note_ids(known_note_ids: &[String], existing_note_ids: &[String]) -> (r: Vec<String>)
    ensures
        r@.map_values(|s: String| s@) == missing_ids(
            known_note_ids@.map_values(|s: String| s@),
            existing_note_ids@.map_values(|s: String| s@),
        ),
{
    let ghost kv = known_note_ids@.map_values(|s: String| s@);
    let ghost ev = existing_note_ids@.map_values(|s: String| s@);
    let mut missing: Vec<String> = Vec::new();
    let mut i: usize = 0;
    while i < known_note_ids.len()
        invariant
            i <= known_note_ids.len(),
            kv == known_note_ids@.map_values(|s: String| s@),
            ev == existing_note_ids@.map_values(|s: String| s@),
            missing@.map_values(|s: String| s@) == missing_ids(kv.take(i as int), ev),
        decreases known_note_ids.len() - i,
    {
        assert(kv.take(i + 1).drop_last() =~= kv.take(i as int));
        assert(kv.take(i + 1).last() == known_note_ids@[i as int]@);
        let note_id = &known_note_ids[i];
        let mut found = false;
        let mut j: usize = 0;
        while j < existing_note_ids.len()
            invariant
                j <= existing_note_ids.len(),
                ev == existing_note_ids@.map_values(|s: String| s@),
                found == exists|k: int| 0 <= k < j && ev[k] == note_id@,
            decreases existing_note_ids.len() - j,
        {
            if existing_note_ids[j] == *note_id {
                assert(ev[j as int] == note_id@);
                found = true;
            }
            j = j + 1;
        }
        assert(found == ev.contains(note_id@));
        if !found {
            let ghost before = missing@;
            missing.push(note_id.clone());
            assert(missing@.map_values(|s: String| s@) =~= before.map_values(|s: String| s@).push(note_id@));
        }
        i = i + 1;
    }
    assert(kv.take(known_note_ids.len() as int) =~= kv);
    missing
}

// ---------------------------------------------------------------------
// Recovery drafts and status
// ---------------------------------------------------------------------

/// How long recovery drafts are kept: 30 days, in milliseconds.
pub open spec fn draft_retention_ms() -> int {
    2592000000int
}

/// The time before which recovery drafts are stale at `now_ms`: 30 days
/// earlier, or the earliest `i64` when that lies before it.
pub fn stale_cutoff_ms(now_ms: i64) -> (r: i64)
    ensures
        r == if now_ms - draft_retention_ms() < i64::MIN {
            i64::MIN as int
        } else {
            now_ms - draft_retention_ms()
        },
{
    let retention: i64 = 2592000000i64;
    if now_ms < i64::MIN + retention {
        i64::MIN
    } else {
        now_ms - retention
    }
}

/// `Loaded {notes} notes from {path}`, followed by
/// `; {drafts} recovery drafts need review` when there are drafts.
pub open spec fn loaded_status_text(notes: nat, path: Seq<char>, drafts: nat) -> Seq<char> {
    let base = "Loaded "@ + decimal(notes) + " notes from "@ + path;
    if drafts > 0 {
        base + "; "@ + decimal(drafts) + " recovery drafts need review"@
    } else {
        base
    }
}

/// The status shown once a workspace is loaded.
pub fn loaded_workspace_status(note_count: usize, workspace_path: &str, recovery_count: usize) -> (r: String)
    ensures
        r@ == loaded_status_text(note_count as nat, workspace_path@, recovery_count as nat),
{
    let a = concat(&chars_of("Loaded "), &decimal_chars(note_count as u64));
    let b = concat(&a, &chars_of(" notes from "));
    let c = concat(&b, &chars_of(workspace_path));
    if recovery_count > 0 {
        let d = concat(&c, &chars_of("; "));
        let e = concat(&d, &decimal_chars(recovery_count as u64));
        string_from(concat(&e, &chars_of(" recovery drafts need review")).as_slice())
    } else {
        string_from(c.as_slice())
    }
}

// ---------------------------------------------------------------------
// Trash
// ---------------------------------------------------------------------

/// The folder of a workspace that holds trashed notes.
pub open spec fn trash_root(workspace_path: Seq<char>) -> Seq<char> {
    join(workspace_path, ".papyro-trash"@)
}

/// The trash folder of the batch trashed at `ts`.
pub open spec fn trash_batch(workspace_path: Seq<char>, ts: int) -> Seq<char> {
    join(trash_root(workspace_path), signed_decimal(ts))
}

/// The trash folder of the batch trashed at `ts`.
pub fn trash_batch_dir(workspace_path: &str, ts: i64) -> (r: String)
    ensures
        r@ == trash_batch(workspace_path@, ts as int),
{
    let root = path_join(&chars_of(workspace_path), &chars_of(".papyro-trash"));
    string_from(path_join(&root, &i64_decimal_chars(ts)).as_slice())
}

/// `r` is the trash batch a search for a free one from `start_ms` gives,
/// asking `is_taken`: the first time from `start_ms` on whose folder was
/// found free, every earlier one found taken (or the last time an `i64`
/// holds).
pub open spec fn first_free_batch<F: Fn(&str) -> bool>(
    is_taken: F,
    workspace_path: Seq<char>,
    start_ms: int,
    r: (Seq<char>, int),
) -> bool {
    &&& r.1 >= start_ms
    &&& r.0 == trash_batch(workspace_path, r.1)
    &&& forall|t: int| start_ms <= t < r.1 ==> answers(is_taken, #[trigger] trash_batch(workspace_path, t), true)
    &&& r.1 == i64::MAX || answers(is_taken, trash_batch(workspace_path, r.1), false)
}

/// A trash batch folder not used yet, asking `is_taken` whether each one
/// exists: the one for `start_ms`, or for the first later time whose
/// folder is free. Its time comes back with it.
pub fn free_trash_batch_with<F: Fn(&str) -> bool>(workspace_path: &str, start_ms: i64, is_taken: F) -> (r: (String, i64))
    requires
        forall|s: &str| call_requires(is_taken, (s,)),
    ensures
        first_free_batch(is_taken, workspace_path@, start_ms as int, (r.0@, r.1 as int)),
        r.1 >= start_ms,
        r.0@ == trash_batch(workspace_path@, r.1 as int),
{
    let mut ts = start_ms;
    let mut dir = trash_batch_dir(workspace_path, ts);
    loop
        invariant
            ts >= start_ms,
            dir@ == trash_batch(workspace_path@, ts as int),
            forall|s: &str| call_requires(is_taken, (s,)),
            forall|t: int| start_ms <= t < ts ==> answers(is_taken, #[trigger] trash_batch(workspace_path@, t), true),
        decreases i64::MAX - ts,
    {
        if ts == i64::MAX {
            return (dir, ts);
        }
        let asked = dir.as_str();
        let taken = is_taken(asked);
        assert(call_ensures(is_taken, (asked,), taken));
        if !taken {
            assert(answers(is_taken, trash_batch(workspace_path@, ts as int), false));
            return (dir, ts);
        }
        assert(answers(is_taken, trash_batch(workspace_path@, ts as int), true));
        ts = ts + 1;
        dir = trash_batch_dir(workspace_path, ts);
    }
}

/// A trash batch folder not used yet: the one for `start_ms`, or for the
/// first later time whose folder does not exist. Its time comes back with
/// it. Which one depends on the disk at the moment of the call;
/// `free_trash_batch_with` states the choice.
pub fn free_trash_batch(workspace_path: &str, start_ms: i64) -> (r: (String, i64))
    ensures
        r.1 >= start_ms,
        r.0@ == trash_batch(workspace_path@, r.1 as int),
{
    free_trash_batch_with(workspace_path, start_ms, |p: &str| path_exists(p))
}

/// Where an entry at `path` of a workspace goes in the trash batch
/// folder `batch_dir`: at the same relative place.
pub fn trash_destination(batch_dir: &str, workspace_path: &str, path: &str) -> (r: String)
    ensures
        r@ == join(batch_dir@, relative_to(workspace_path@, path@)),
{
    let rel = relative_path_in(workspace_path, path);
    string_from(path_join(&chars_of(batch_dir), &chars_of(rel.as_str())).as_slice())
}

/// Where a note trashed at `trashed_at` with relative path
/// `relative_path` lies in the trash.
pub fn trashed_note_location(workspace_path: &str, trashed_at: i64, relative_path: &str) -> (r: String)
    ensures
        r@ == join(trash_batch(workspace_path@, trashed_at as int), relative_path@),
{
    let batch = trash_batch_dir(workspace_path, trashed_at);
    string_from(path_join(&chars_of(batch.as_str()), &chars_of(relative_path)).as_slice())
}

} // verus!
