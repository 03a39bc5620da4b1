//! The file tree of the sidebar: display order, the rows visible for the
//! expanded folders, keyboard navigation, drag and drop, and inline
//! renaming.
use vstd::prelude::*;
use crate::models::{text, tr, AppLanguage};
use crate::text::{compare_text, text_order};
use crate::text::{chars_equal, chars_of, lowercase, lowercase_chars, string_from, trim, trimmed};
use crate::tree::{FileNode, FileNodeKind};

verus! {

broadcast use vstd::string::group_string_axioms;

// ---------------------------------------------------------------------
// Sort modes
// ---------------------------------------------------------------------

/// How the entries of a folder are ordered.
#[derive(Debug, Clone, Copy, PartialEq, Eq, Structural)]
pub enum FileTreeSortMode {
    Name,
    Updated,
    Created,
}

impl FileTreeSortMode {
    /// Every sort mode, in the order they are offered.
    pub fn all() -> (r: [FileTreeSortMode; 3])
        ensures
            r@ == seq![FileTreeSortMode::Name, FileTreeSortMode::Updated, FileTreeSortMode::Created],
    {
        let r = [FileTreeSortMode::Name, FileTreeSortMode::Updated, FileTreeSortMode::Created];
        assert(r@ =~= seq![FileTreeSortMode::Name, FileTreeSortMode::Updated, FileTreeSortMode::Created]);
        r
    }

    /// The English name of this mode.
    pub fn label(self) -> (r: &'static str)
        ensures
            r@ == sort_mode_name(AppLanguage::English, self),
    {
        match self {
            FileTreeSortMode::Name => "Name",
            FileTreeSortMode::Updated => "Updated",
            FileTreeSortMode::Created => "Created",
        }
    }
}

/// The name of a sort mode.
pub open spec fn sort_mode_name(language: AppLanguage, mode: FileTreeSortMode) -> Seq<char> {
    match mode {
        FileTreeSortMode::Name => tr(language, "Name"@, "名称"@),
        FileTreeSortMode::Updated => tr(language, "Updated"@, "更新"@),
        FileTreeSortMode::Created => tr(language, "Created"@, "创建"@),
    }
}

/// The name of `mode`.
pub fn sort_mode_label(mode: FileTreeSortMode, language: AppLanguage) -> (r: &'static str)
    ensures
        r@ == sort_mode_name(language, mode),
{
    match mode {
        FileTreeSortMode::Name => text(language, "Name", "名称"),
        FileTreeSortMode::Updated => text(language, "Updated", "更新"),
        FileTreeSortMode::Created => text(language, "Created", "创建"),
    }
}

/// The stored value of a sort mode.
pub open spec fn sort_mode_str(mode: FileTreeSortMode) -> Seq<char> {
    match mode {
        FileTreeSortMode::Name => "name"@,
        FileTreeSortMode::Updated => "updated"@,
        FileTreeSortMode::Created => "created"@,
    }
}

/// The sort mode stored as `value`, if any.
pub open spec fn sort_mode_of(value: Seq<char>) -> Option<FileTreeSortMode> {
    if value == "name"@ {
        Some(FileTreeSortMode::Name)
    } else if value == "updated"@ {
        Some(FileTreeSortMode::Updated)
    } else if value == "created"@ {
        Some(FileTreeSortMode::Created)
    } else {
        None
    }
}

/// The stored value of `mode`.
pub fn sort_mode_value(mode: FileTreeSortMode) -> (r: &'static str)
    ensures
        r@ == sort_mode_str(mode),
{
    match mode {
        FileTreeSortMode::Name => "name",
        FileTreeSortMode::Updated => "updated",
        FileTreeSortMode::Created => "created",
    }
}

/// The sort mode stored as `value`.
pub fn sort_mode_from_value(value: &str) -> (r: Option<FileTreeSortMode>)
    ensures
        r == sort_mode_of(value@),
{
    let v = chars_of(value);
    if crate::text::chars_equal(&v, &chars_of("name")) {
        Some(FileTreeSortMode::Name)
    } else if crate::text::chars_equal(&v, &chars_of("updated")) {
        Some(FileTreeSortMode::Updated)
    } else if crate::text::chars_equal(&v, &chars_of("created")) {
        Some(FileTreeSortMode::Created)
    } else {
        None
    }
}

/// Reading back the stored value of a sort mode gives that mode, and a
/// value read as a mode is that mode's stored value.
pub proof fn sort_mode_values_round_trip(mode: FileTreeSortMode, value: Seq<char>)
    ensures
        sort_mode_of(sort_mode_str(mode)) == Some(mode),
        sort_mode_of(value) matches Some(m) ==> value == sort_mode_str(m),
{
    reveal_strlit("name");
    reveal_strlit("updated");
    reveal_strlit("created");
    assert("name"@.len() == 4 && "updated"@.len() == 7 && "created"@.len() == 7);
    assert("updated"@[0] != "created"@[0]);
}

// ---------------------------------------------------------------------
// Display order
// ---------------------------------------------------------------------

/// `b` before `a` (-1), after (1) or level (0) for two integers sorted
/// from the largest down.
pub open spec fn newest_first(a: i64, b: i64) -> int {
    if a > b {
        -1
    } else if a < b {
        1
    } else {
        0
    }
}

/// How two siblings are ordered for `mode` (-1, 0 or 1): directories
/// first; then by lowercased name, or by update or creation time, newest
/// first, and then by lowercased name.
pub open spec fn order_by(a: FileNode, b: FileNode, mode: FileTreeSortMode) -> int {
    let by_name = text_order(lowercase(a.name@), lowercase(b.name@));
    if a.is_dir() && !b.is_dir() {
        -1
    } else if !a.is_dir() && b.is_dir() {
        1
    } else {
        match mode {
            FileTreeSortMode::Name => by_name,
            FileTreeSortMode::Updated => if newest_first(a.updated_at, b.updated_at) != 0 {
                newest_first(a.updated_at, b.updated_at)
            } else {
                by_name
            },
            FileTreeSortMode::Created => if newest_first(a.created_at, b.created_at) != 0 {
                newest_first(a.created_at, b.created_at)
            } else {
                by_name
            },
        }
    }
}

/// Compares two siblings for `mode`.
pub fn compare_file_nodes(a: &FileNode, b: &FileNode, mode: FileTreeSortMode) -> (r: i8)
    ensures
        r as int == order_by(*a, *b, mode),
{
    let ad = a.is_directory();
    let bd = b.is_directory();
    if ad && !bd {
        return -1;
    }
    if !ad && bd {
        return 1;
    }
    let (x, y) = match mode {
        FileTreeSortMode::Name => (0i64, 0i64),
        FileTreeSortMode::Updated => (a.updated_at, b.updated_at),
        FileTreeSortMode::Created => (a.created_at, b.created_at),
    };
    if x > y {
        -1
    } else if x < y {
        1
    } else {
        compare_text(
            &lowercase_chars(&chars_of(a.name.as_str())),
            &lowercase_chars(&chars_of(b.name.as_str())),
        )
    }
}

/// `ns` with `x` inserted after the entries at its end that do not come
/// after `x` (one step of a stable sort).
pub open spec fn insert_by_mode(ns: Seq<FileNode>, x: FileNode, mode: FileTreeSortMode) -> Seq<FileNode>
    decreases ns.len(),
{
    if ns.len() == 0 {
        seq![x]
    } else if order_by(ns.last(), x, mode) <= 0 {
        ns.push(x)
    } else {
        insert_by_mode(ns.drop_last(), x, mode).push(ns.last())
    }
}

/// `ns` stably sorted for `mode`.
pub open spec fn sorted_by_mode(ns: Seq<FileNode>, mode: FileTreeSortMode) -> Seq<FileNode>
    decreases ns.len(),
{
    if ns.len() == 0 {
        seq![]
    } else {
        insert_by_mode(sorted_by_mode(ns.drop_last(), mode), ns.last(), mode)
    }
}

/// A tree entry as plain values: its fields, whether it is a folder, its
/// entries (for a folder) and its note identifier (for a note).
pub struct NodeView {
    pub name: Seq<char>,
    pub path: Seq<char>,
    pub relative_path: Seq<char>,
    pub created_at: i64,
    pub updated_at: i64,
    pub dir: bool,
    pub children: Seq<NodeView>,
    pub note_id: Option<Seq<char>>,
}

/// The view of a tree entry.
pub open spec fn view_of(n: FileNode) -> NodeView
    decreases n,
{
    NodeView {
        name: n.name@,
        path: n.path@,
        relative_path: n.relative_path@,
        created_at: n.created_at,
        updated_at: n.updated_at,
        dir: n.kind is Directory,
        children: match n.kind {
            FileNodeKind::Directory { children } => views_of(children@),
            FileNodeKind::Note { .. } => Seq::empty(),
        },
        note_id: match n.kind {
            FileNodeKind::Note { note_id } => match note_id {
                Some(id) => Some(id@),
                None => None,
            },
            FileNodeKind::Directory { .. } => None,
        },
    }
}

/// The views of a list of entries.
pub open spec fn views_of(s: Seq<FileNode>) -> Seq<NodeView>
    decreases s,
{
    if s.len() == 0 {
        Seq::empty()
    } else {
        views_of(s.drop_last()).push(view_of(s.last()))
    }
}

/// How two entry views are ordered for `mode` (as `order_by`).
pub open spec fn order_view(a: NodeView, b: NodeView, mode: FileTreeSortMode) -> int {
    let by_name = text_order(lowercase(a.name), lowercase(b.name));
    if a.dir && !b.dir {
        -1
    } else if !a.dir && b.dir {
        1
    } else {
        match mode {
            FileTreeSortMode::Name => by_name,
            FileTreeSortMode::Updated => if newest_first(a.updated_at, b.updated_at) != 0 {
                newest_first(a.updated_at, b.updated_at)
            } else {
                by_name
            },
            FileTreeSortMode::Created => if newest_first(a.created_at, b.created_at) != 0 {
                newest_first(a.created_at, b.created_at)
            } else {
                by_name
            },
        }
    }
}

/// One step of the stable sort of entry views.
pub open spec fn insert_view(ns: Seq<NodeView>, x: NodeView, mode: FileTreeSortMode) -> Seq<NodeView>
    decreases ns.len(),
{
    if ns.len() == 0 {
        seq![x]
    } else if order_view(ns.last(), x, mode) <= 0 {
        ns.push(x)
    } else {
        insert_view(ns.drop_last(), x, mode).push(ns.last())
    }
}

/// Entry views stably sorted for `mode`.
pub open spec fn sort_views(ns: Seq<NodeView>, mode: FileTreeSortMode) -> Seq<NodeView>
    decreases ns.len(),
{
    if ns.len() == 0 {
        seq![]
    } else {
        insert_view(sort_views(ns.drop_last(), mode), ns.last(), mode)
    }
}

/// `v` with its entries replaced by `children`.
pub open spec fn with_children(v: NodeView, children: Seq<NodeView>) -> NodeView {
    NodeView { children, ..v }
}

/// Every entry of `s` with the entries of its folders in display order.
pub open spec fn sort_inside(s: Seq<NodeView>, mode: FileTreeSortMode) -> Seq<NodeView>
    decreases s,
{
    if s.len() == 0 {
        Seq::empty()
    } else {
        let x = s.last();
        sort_inside(s.drop_last(), mode).push(
            with_children(x, sort_views(sort_inside(x.children, mode), mode)),
        )
    }
}

/// The tree `s` in display order for `mode`: the entries stably sorted,
/// and the entries of every folder in display order too.
pub open spec fn display_order(s: Seq<NodeView>, mode: FileTreeSortMode) -> Seq<NodeView> {
    sort_views(sort_inside(s, mode), mode)
}

proof fn lemma_views_push(s: Seq<FileNode>, x: FileNode)
    ensures
        views_of(s.push(x)) == views_of(s).push(view_of(x)),
{
    assert(s.push(x).drop_last() =~= s);
}

proof fn lemma_order_view(a: FileNode, b: FileNode, mode: FileTreeSortMode)
    ensures
        order_by(a, b, mode) == order_view(view_of(a), view_of(b), mode),
{
}

proof fn lemma_insert_views(ns: Seq<FileNode>, x: FileNode, mode: FileTreeSortMode)
    ensures
        views_of(insert_by_mode(ns, x, mode)) == insert_view(views_of(ns), view_of(x), mode),
    decreases ns.len(),
{
    if ns.len() == 0 {
        lemma_views_push(ns, x);
        assert(ns.push(x) =~= seq![x]);
        assert(views_of(ns) =~= Seq::<NodeView>::empty());
        assert(Seq::<NodeView>::empty().push(view_of(x)) =~= seq![view_of(x)]);
    } else {
        let t = ns.drop_last();
        assert(ns =~= t.push(ns.last()));
        lemma_views_push(t, ns.last());
        let vs = views_of(ns);
        assert(vs.drop_last() =~= views_of(t));
        assert(vs.last() == view_of(ns.last()));
        lemma_order_view(ns.last(), x, mode);
        if order_by(ns.last(), x, mode) <= 0 {
            lemma_views_push(ns, x);
        } else {
            lemma_insert_views(t, x, mode);
            lemma_views_push(insert_by_mode(t, x, mode), ns.last());
        }
    }
}

proof fn lemma_sort_views(ns: Seq<FileNode>, mode: FileTreeSortMode)
    ensures
        views_of(sorted_by_mode(ns, mode)) == sort_views(views_of(ns), mode),
    decreases ns.len(),
{
    if ns.len() > 0 {
        let t = ns.drop_last();
        assert(ns =~= t.push(ns.last()));
        lemma_views_push(t, ns.last());
        let vs = views_of(ns);
        assert(vs.drop_last() =~= views_of(t));
        assert(vs.last() == view_of(ns.last()));
        lemma_sort_views(t, mode);
        lemma_insert_views(sorted_by_mode(t, mode), ns.last(), mode);
    } else {
        assert(views_of(ns) =~= Seq::<NodeView>::empty());
    }
}

/// Sorts siblings in place of a vector: the stable insertion of each entry.
fn sort_siblings(nodes: Vec<FileNode>, mode: FileTreeSortMode) -> (r: Vec<FileNode>)
    ensures
        r@ == sorted_by_mode(nodes@, mode),
{
    let ghost input = nodes@;
    let mut rest = nodes;
    let mut out: Vec<FileNode> = Vec::new();
    let mut i: usize = 0;
    let n = rest.len();
    while i < n
        invariant
            i <= n,
            n == input.len(),
            rest@ == input.skip(i as int),
            out@ == sorted_by_mode(input.take(i as int), mode),
        decreases n - i,
    {
        let x = rest.remove(0);
        assert(x == input[i as int]);
        assert(rest@ =~= input.skip(i + 1));
        assert(input.take(i + 1).drop_last() =~= input.take(i as int));
        let mut j: usize = out.len();
        assert(out@.take(j as int) =~= out@);
        assert(out@.skip(j as int) =~= Seq::<FileNode>::empty());
        while j > 0 && compare_file_nodes(&out[j - 1], &x, mode) > 0
            invariant
                j <= out.len(),
                insert_by_mode(out@, x, mode) == insert_by_mode(out@.take(j as int), x, mode)
                    + out@.skip(j as int),
            decreases j,
        {
            assert(out@.take(j as int).drop_last() =~= out@.take(j - 1));
            assert(out@.skip(j - 1) =~= seq![out@[j - 1]] + out@.skip(j as int));
            assert(insert_by_mode(out@.take(j as int), x, mode) == insert_by_mode(
                out@.take(j - 1),
                x,
                mode,
            ).push(out@[j - 1]));
            assert(insert_by_mode(out@.take(j - 1), x, mode).push(out@[j - 1]) + out@.skip(j as int)
                =~= insert_by_mode(out@.take(j - 1), x, mode) + out@.skip(j - 1));
            j = j - 1;
        }
        let ghost before = out@;
        proof {
            if j > 0 {
                assert(out@.take(j as int).last() == out@[j - 1]);
            } else {
                assert(out@.take(0) =~= Seq::<FileNode>::empty());
            }
        }
        assert(insert_by_mode(before.take(j as int), x, mode) =~= before.take(j as int).push(x));
        out.insert(j, x);
        assert(out@ =~= before.take(j as int).push(x) + before.skip(j as int));
        i = i + 1;
    }
    assert(input.take(n as int) =~= input);
    out
}

/// The tree `nodes` in display order for `sort_mode`.
pub fn sorted_file_tree_nodes(nodes: Vec<FileNode>, sort_mode: FileTreeSortMode) -> (r: Vec<FileNode>)
    ensures
        views_of(r@) == display_order(views_of(nodes@), sort_mode),
    decreases nodes@,
{
    let ghost input = nodes@;
    let mut rest = nodes;
    let mut mid: Vec<FileNode> = Vec::new();
    let mut i: usize = 0;
    let n = rest.len();
    assert(views_of(input.take(0)) =~= Seq::<NodeView>::empty()) by {
        assert(input.take(0).len() == 0);
    }
    while i < n
        invariant
            i <= n,
            n == input.len(),
            rest@ == input.skip(i as int),
            input == nodes@,
            views_of(mid@) == sort_inside(views_of(input.take(i as int)), sort_mode),
        decreases n - i,
    {
        let x = rest.remove(0);
        assert(x == input[i as int]);
        assert(rest@ =~= input.skip(i + 1));
        proof {
            assert(input.take(i + 1) =~= input.take(i as int).push(x));
            lemma_views_push(input.take(i as int), x);
        }
        let ghost vx = view_of(x);
        let FileNode { name, path, relative_path, created_at, updated_at, kind } = x;
        let new_kind = match kind {
            FileNodeKind::Directory { children } => {
                proof {
                    let xi = input[i as int];
                    assert(decreases_to!(input => xi));
                    assert(xi.kind == FileNodeKind::Directory { children });
                    assert(decreases_to!(xi => xi.kind));
                    assert(decreases_to!(xi.kind => children));
                    assert(decreases_to!(children => children@));
                    assert(decreases_to!(input => children@));
                }
                let sorted = sorted_file_tree_nodes(children, sort_mode);
                FileNodeKind::Directory { children: sorted }
            },
            FileNodeKind::Note { note_id } => FileNodeKind::Note { note_id },
        };
        let y = FileNode { name, path, relative_path, created_at, updated_at, kind: new_kind };
        assert(view_of(y) == with_children(vx, sort_views(sort_inside(vx.children, sort_mode), sort_mode)));
        let ghost before = mid@;
        proof {
            lemma_views_push(before, y);
            let vs = views_of(input.take(i as int)).push(vx);
            assert(vs.drop_last() =~= views_of(input.take(i as int)));
            assert(vs.last() == vx);
        }
        mid.push(y);
        i = i + 1;
    }
    assert(input.take(n as int) =~= input);
    let ghost m = mid@;
    let r = sort_siblings(mid, sort_mode);
    proof {
        lemma_sort_views(m, sort_mode);
    }
    r
}

// ---------------------------------------------------------------------
// Copies of entries
// ---------------------------------------------------------------------

/// A copy of the entry `n`, folders with all their entries.
pub fn copy_node(n: &FileNode) -> (r: FileNode)
    ensures
        view_of(r) == view_of(*n),
    decreases *n,
{
    let kind = match &n.kind {
        FileNodeKind::Directory { children } => {
            assert(decreases_to!(*n => n.kind));
            assert(decreases_to!(n.kind => *children));
            FileNodeKind::Directory { children: copy_nodes(children) }
        },
        FileNodeKind::Note { note_id } => FileNodeKind::Note { note_id: note_id.clone() },
    };
    FileNode {
        name: n.name.clone(),
        path: n.path.clone(),
        relative_path: n.relative_path.clone(),
        created_at: n.created_at,
        updated_at: n.updated_at,
        kind,
    }
}

/// Copies of the entries `ns`.
pub fn copy_nodes(ns: &Vec<FileNode>) -> (r: Vec<FileNode>)
    ensures
        views_of(r@) == views_of(ns@),
    decreases *ns,
{
    let mut r: Vec<FileNode> = Vec::new();
    let mut i: usize = 0;
    assert(views_of(ns@.take(0)) =~= Seq::<NodeView>::empty()) by {
        assert(ns@.take(0).len() == 0);
    }
    while i < ns.len()
        invariant
            i <= ns.len(),
            views_of(r@) == views_of(ns@.take(i as int)),
        decreases ns.len() - i,
    {
        proof {
            assert(decreases_to!(*ns => ns@));
            assert(decreases_to!(ns@ => ns@[i as int]));
        }
        let c = copy_node(&ns[i]);
        proof {
            lemma_views_push(r@, c);
            assert(ns@.take(i + 1) =~= ns@.take(i as int).push(ns@[i as int]));
            lemma_views_push(ns@.take(i as int), ns@[i as int]);
        }
        r.push(c);
        i = i + 1;
    }
    assert(ns@.take(ns.len() as int) =~= ns@);
    r
}

// ---------------------------------------------------------------------
// Visible rows
// ---------------------------------------------------------------------

/// A row of the file tree: an entry and how deep it is nested.
#[derive(Debug)]
pub struct VisibleFileTreeItem {
    pub node: FileNode,
    pub depth: u32,
}

/// The view of a row.
pub open spec fn item_view(item: VisibleFileTreeItem) -> (NodeView, nat) {
    (view_of(item.node), item.depth as nat)
}

/// The views of a list of rows.
pub open spec fn item_views(items: Seq<VisibleFileTreeItem>) -> Seq<(NodeView, nat)> {
    items.map_values(|i: VisibleFileTreeItem| item_view(i))
}

/// `path` is one of the expanded folders.
pub open spec fn is_expanded(expanded: Seq<Seq<char>>, path: Seq<char>) -> bool {
    exists|i: int| 0 <= i < expanded.len() && expanded[i] == path
}

/// The views of the expanded folder paths.
pub open spec fn expanded_view(expanded: Seq<String>) -> Seq<Seq<char>> {
    expanded.map_values(|p: String| p@)
}

/// The rows shown for the entries `s` at nesting `depth`: each entry,
/// followed by the rows of its entries when it is an expanded folder.
pub open spec fn visible(s: Seq<NodeView>, expanded: Seq<Seq<char>>, depth: nat) -> Seq<(NodeView, nat)>
    decreases s,
{
    if s.len() == 0 {
        Seq::empty()
    } else {
        let x = s.last();
        visible(s.drop_last(), expanded, depth) + seq![(x, depth)] + if x.dir && is_expanded(
            expanded,
            x.path,
        ) {
            visible(x.children, expanded, depth + 1)
        } else {
            Seq::empty()
        }
    }
}

/// How deeply folders are nested in `s` (0 for no folders).
pub open spec fn nesting(s: Seq<NodeView>) -> nat
    decreases s,
{
    if s.len() == 0 {
        0
    } else {
        let x = s.last();
        let inner: nat = if x.dir {
            nesting(x.children) + 1
        } else {
            0
        };
        let rest = nesting(s.drop_last());
        if inner > rest {
            inner
        } else {
            rest
        }
    }
}

/// Whether `path` is one of the expanded folders.
pub fn expanded_contains(expanded: &[String], path: &String) -> (b: bool)
    ensures
        b == is_expanded(expanded_view(expanded@), path@),
{
    let mut i: usize = 0;
    while i < expanded.len()
        invariant
            i <= expanded.len(),
            forall|k: int| 0 <= k < i ==> expanded@[k]@ != path@,
        decreases expanded.len() - i,
    {
        if expanded[i] == *path {
            assert(expanded_view(expanded@)[i as int] == path@);
            return true;
        }
        i = i + 1;
    }
    assert forall|k: int| 0 <= k < expanded_view(expanded@).len() implies expanded_view(expanded@)[k]
        != path@ by {
        assert(expanded_view(expanded@)[k] == expanded@[k]@);
    }
    false
}

proof fn lemma_item_views_push(items: Seq<VisibleFileTreeItem>, x: VisibleFileTreeItem)
    ensures
        item_views(items.push(x)) == item_views(items).push(item_view(x)),
{
    assert(item_views(items.push(x)) =~= item_views(items).push(item_view(x)));
}

proof fn lemma_nesting_prefix(s: Seq<NodeView>, i: int)
    requires
        0 <= i < s.len(),
    ensures
        nesting(s.take(i + 1)) <= nesting(s),
        s[i].dir ==> nesting(s[i].children) + 1 <= nesting(s),
    decreases s.len() - i,
{
    if i + 1 < s.len() {
        lemma_nesting_prefix(s, i + 1);
        assert(s.take(i + 2).drop_last() =~= s.take(i + 1));
        assert(s.take(i + 2)[i] == s[i]);
        assert(s.take(i + 1).last() == s[i]);
    } else {
        assert(s.take(i + 1) =~= s);
    }
}

/// Appends the rows shown for the entries `nodes` at nesting `depth`.
fn append_visible_file_tree_items(
    nodes: &Vec<FileNode>,
    expanded: &[String],
    depth: u32,
    items: &mut Vec<VisibleFileTreeItem>,
)
    requires
        depth + nesting(views_of(nodes@)) <= u32::MAX,
    ensures
        item_views(final(items)@) == item_views(old(items)@) + visible(
            views_of(nodes@),
            expanded_view(expanded@),
            depth as nat,
        ),
    decreases *nodes,
{
    let ghost start = item_views(items@);
    let ghost ev = expanded_view(expanded@);
    let ghost all = views_of(nodes@);
    let mut i: usize = 0;
    assert(views_of(nodes@.take(0)) =~= Seq::<NodeView>::empty()) by {
        assert(nodes@.take(0).len() == 0);
    }
    assert(item_views(items@) =~= start + visible(views_of(nodes@.take(0)), ev, depth as nat));
    while i < nodes.len()
        invariant
            i <= nodes.len(),
            ev == expanded_view(expanded@),
            all == views_of(nodes@),
            depth + nesting(all) <= u32::MAX,
            item_views(items@) == start + visible(views_of(nodes@.take(i as int)), ev, depth as nat),
        decreases nodes.len() - i,
    {
        let ghost before = item_views(items@);
        proof {
            assert(nodes@.take(i + 1) =~= nodes@.take(i as int).push(nodes@[i as int]));
            lemma_views_push(nodes@.take(i as int), nodes@[i as int]);
            let vs = views_of(nodes@.take(i + 1));
            assert(vs.drop_last() =~= views_of(nodes@.take(i as int)));
            assert(vs.last() == view_of(nodes@[i as int]));
            assert(decreases_to!(*nodes => nodes@));
            assert(decreases_to!(nodes@ => nodes@[i as int]));
            lemma_views_of_index(nodes@, i as int);
            lemma_nesting_prefix(all, i as int);
        }
        let node = &nodes[i];
        let item = VisibleFileTreeItem { node: copy_node(node), depth };
        proof {
            lemma_item_views_push(items@, item);
        }
        items.push(item);
        match &node.kind {
            FileNodeKind::Directory { children } => {
                if expanded_contains(expanded, &node.path) {
                    assert(decreases_to!(nodes@[i as int] => node.kind));
                    assert(decreases_to!(node.kind => *children));
                    append_visible_file_tree_items(children, expanded, depth + 1, items);
                } else {
                    assert(item_views(items@) =~= item_views(items@) + Seq::<(NodeView, nat)>::empty());
                }
            },
            FileNodeKind::Note { .. } => {
                assert(item_views(items@) =~= item_views(items@) + Seq::<(NodeView, nat)>::empty());
            },
        }
        assert(item_views(items@) =~= start + visible(views_of(nodes@.take(i + 1)), ev, depth as nat));
        i = i + 1;
    }
    assert(nodes@.take(nodes.len() as int) =~= nodes@);
}

proof fn lemma_views_of_index(s: Seq<FileNode>, i: int)
    requires
        0 <= i < s.len(),
    ensures
        views_of(s).len() == s.len(),
        views_of(s)[i] == view_of(s[i]),
    decreases s.len(),
{
    let t = s.drop_last();
    assert(s =~= t.push(s.last()));
    lemma_views_push(t, s.last());
    if i < s.len() - 1 {
        lemma_views_of_index(t, i);
    } else if t.len() > 0 {
        lemma_views_of_index(t, 0);
    } else {
        assert(views_of(t) =~= Seq::<NodeView>::empty());
    }
}

/// The rows of the file tree `nodes` when the folders `expanded` are open.
pub fn visible_file_tree_items(nodes: &Vec<FileNode>, expanded: &[String]) -> (r: Vec<
    VisibleFileTreeItem,
>)
    requires
        nesting(views_of(nodes@)) <= u32::MAX,
    ensures
        item_views(r@) == visible(views_of(nodes@), expanded_view(expanded@), 0),
{
    let mut items: Vec<VisibleFileTreeItem> = Vec::new();
    append_visible_file_tree_items(nodes, expanded, 0, &mut items);
    assert(item_views(Seq::<VisibleFileTreeItem>::empty()) =~= Seq::<(NodeView, nat)>::empty());
    assert(Seq::<(NodeView, nat)>::empty() + visible(views_of(nodes@), expanded_view(expanded@), 0)
        =~= visible(views_of(nodes@), expanded_view(expanded@), 0));
    items
}

// ---------------------------------------------------------------------
// Keyboard navigation
// ---------------------------------------------------------------------

/// A key the file tree reacts to.
#[derive(Debug, Clone, Copy, PartialEq, Eq, Structural)]
pub enum FileTreeKey {
    ArrowDown,
    ArrowUp,
    ArrowRight,
    ArrowLeft,
    F2,
    Enter,
    Space,
}

/// What a key press in the file tree does.
#[derive(Debug)]
pub enum FileTreeKeyboardAction {
    NoAction,
    Select(String),
    ToggleDirectory(String),
    OpenNote(FileNode),
    Rename(FileNode),
}

/// What a key press does, with entries named by their row.
pub enum KeyOutcome {
    Nothing,
    Select(Seq<char>),
    Toggle(Seq<char>),
    Open(int),
    Rename(int),
}

/// The first row from row `from` on whose entry is at `p`, if any.
pub open spec fn first_row_from(items: Seq<(NodeView, nat)>, p: Seq<char>, from: int) -> Option<int>
    decreases items.len() - from,
{
    if from < 0 || from >= items.len() {
        None
    } else if items[from].0.path == p {
        Some(from)
    } else {
        first_row_from(items, p, from + 1)
    }
}

/// The first row whose entry is at `selected`, if any.
pub open spec fn current_row(items: Seq<(NodeView, nat)>, selected: Option<Seq<char>>) -> Option<int> {
    match selected {
        None => None,
        Some(p) => first_row_from(items, p, 0),
    }
}

/// The nearest row above row `below` whose depth is one less than `d`.
pub open spec fn row_above_at_depth(items: Seq<(NodeView, nat)>, d: nat, below: int) -> Option<int>
    decreases below,
{
    if below <= 0 {
        None
    } else if items[below - 1].1 + 1 == d {
        Some(below - 1)
    } else {
        row_above_at_depth(items, d, below - 1)
    }
}

/// The row of the folder that holds the entry in row `cur`: the nearest
/// row above it one level less deep, if any.
pub open spec fn parent_row(items: Seq<(NodeView, nat)>, cur: int) -> Option<int> {
    let d = items[cur].1;
    if d == 0 {
        None
    } else {
        row_above_at_depth(items, d, cur)
    }
}

/// Selecting row `i`, if there is one.
pub open spec fn select_row(items: Seq<(NodeView, nat)>, i: int) -> KeyOutcome {
    if 0 <= i < items.len() {
        KeyOutcome::Select(items[i].0.path)
    } else {
        KeyOutcome::Nothing
    }
}

/// What pressing `key` does with the rows `items` when `selected` is the
/// selected path and `expanded` are the open folders: without a selected
/// row, select the first row; arrows move up and down, open and close
/// folders or go to the first entry of an open one, or to the folder
/// above; F2 renames; Enter and Space open a note or open and close a
/// folder.
pub open spec fn key_outcome(
    items: Seq<(NodeView, nat)>,
    selected: Option<Seq<char>>,
    expanded: Seq<Seq<char>>,
    key: FileTreeKey,
) -> KeyOutcome {
    match current_row(items, selected) {
        None => select_row(items, 0),
        Some(c) => key_outcome_at(items, c, expanded, key),
    }
}

/// What pressing `key` does when row `c` is the selected one.
pub open spec fn key_outcome_at(
    items: Seq<(NodeView, nat)>,
    c: int,
    expanded: Seq<Seq<char>>,
    key: FileTreeKey,
) -> KeyOutcome {
    let cur = items[c].0;
    match key {
        FileTreeKey::ArrowDown => select_row(items, c + 1),
        FileTreeKey::ArrowUp => select_row(items, c - 1),
        FileTreeKey::ArrowRight => if cur.dir && !is_expanded(expanded, cur.path) {
            KeyOutcome::Toggle(cur.path)
        } else if cur.dir && cur.children.len() > 0 {
            select_row(items, c + 1)
        } else {
            KeyOutcome::Nothing
        },
        FileTreeKey::ArrowLeft => if cur.dir && is_expanded(expanded, cur.path) {
            KeyOutcome::Toggle(cur.path)
        } else {
            match parent_row(items, c) {
                Some(p) => KeyOutcome::Select(items[p].0.path),
                None => KeyOutcome::Nothing,
            }
        },
        FileTreeKey::F2 => KeyOutcome::Rename(c),
        FileTreeKey::Enter | FileTreeKey::Space => if cur.dir {
            KeyOutcome::Toggle(cur.path)
        } else {
            KeyOutcome::Open(c)
        },
    }
}

/// `action` carries out `outcome` on the rows `items`.
pub open spec fn carries_out(
    action: FileTreeKeyboardAction,
    outcome: KeyOutcome,
    items: Seq<(NodeView, nat)>,
) -> bool {
    match (action, outcome) {
        (FileTreeKeyboardAction::NoAction, KeyOutcome::Nothing) => true,
        (FileTreeKeyboardAction::Select(p), KeyOutcome::Select(q)) => p@ == q,
        (FileTreeKeyboardAction::ToggleDirectory(p), KeyOutcome::Toggle(q)) => p@ == q,
        (FileTreeKeyboardAction::OpenNote(n), KeyOutcome::Open(i)) => view_of(n) == items[i].0,
        (FileTreeKeyboardAction::Rename(n), KeyOutcome::Rename(i)) => view_of(n) == items[i].0,
        _ => false,
    }
}

/// The row of the entry at `selected`.
fn current_tree_index(items: &Vec<VisibleFileTreeItem>, selected: Option<&str>) -> (r: Option<usize>)
    ensures
        match r {
            Some(i) => i < items.len() && current_row(item_views(items@), opt_str(selected)) == Some(
                i as int,
            ),
            None => current_row(item_views(items@), opt_str(selected)) is None,
        },
{
    let ghost iv = item_views(items@);
    match selected {
        None => None,
        Some(p) => {
            let target = chars_of(p);
            let mut i: usize = 0;
            while i < items.len()
                invariant
                    i <= items.len(),
                    iv == item_views(items@),
                    target@ == p@,
                    selected == Some(p),
                    first_row_from(iv, p@, 0) == first_row_from(iv, p@, i as int),
                decreases items.len() - i,
            {
                assert(iv[i as int] == item_view(items@[i as int]));
                assert(iv[i as int].0.path == items@[i as int].node.path@);
                if chars_equal(&chars_of(items[i].node.path.as_str()), &target) {
                    assert(first_row_from(iv, p@, i as int) == Some(i as int));
                    return Some(i);
                }
                i = i + 1;
            }
            None
        },
    }
}

/// The view of an optional path.
pub open spec fn opt_str(o: Option<&str>) -> Option<Seq<char>> {
    match o {
        Some(s) => Some(s@),
        None => None,
    }
}

/// The row of the folder that holds the entry in row `cur`.
fn parent_index(items: &Vec<VisibleFileTreeItem>, cur: usize) -> (r: Option<usize>)
    requires
        cur < items.len(),
    ensures
        match r {
            Some(j) => j < cur && parent_row(item_views(items@), cur as int) == Some(j as int),
            None => parent_row(item_views(items@), cur as int) is None,
        },
{
    let ghost iv = item_views(items@);
    assert(iv[cur as int] == item_view(items@[cur as int]));
    let d = items[cur].depth;
    if d == 0 {
        return None;
    }
    let mut j: usize = cur;
    while j > 0
        invariant
            j <= cur < items.len(),
            iv == item_views(items@),
            d == iv[cur as int].1,
            d > 0,
            row_above_at_depth(iv, d as nat, cur as int) == row_above_at_depth(iv, d as nat, j as int),
        decreases j,
    {
        assert(iv[j - 1] == item_view(items@[j - 1]));
        if items[j - 1].depth as u64 + 1 == d as u64 {
            return Some(j - 1);
        }
        j = j - 1;
    }
    None
}

/// Selecting row `i`.
fn select_index(items: &Vec<VisibleFileTreeItem>, i: usize) -> (r: FileTreeKeyboardAction)
    ensures
        carries_out(r, select_row(item_views(items@), i as int), item_views(items@)),
{
    if i < items.len() {
        assert(item_views(items@)[i as int] == item_view(items@[i as int]));
        FileTreeKeyboardAction::Select(items[i].node.path.clone())
    } else {
        FileTreeKeyboardAction::NoAction
    }
}

/// What ArrowRight does on the selected row `c`.
fn arrow_right_action(items: &Vec<VisibleFileTreeItem>, c: usize, expanded_paths: &[String]) -> (r:
    FileTreeKeyboardAction)
    requires
        c < items.len(),
    ensures
        carries_out(
            r,
            key_outcome_at(item_views(items@), c as int, expanded_view(expanded_paths@), FileTreeKey::ArrowRight),
            item_views(items@),
        ),
{
    assert(item_views(items@)[c as int] == item_view(items@[c as int]));
    let current = &items[c].node;
    match &current.kind {
        FileNodeKind::Directory { children } => {
            proof {
                lemma_views_len(children@);
            }
            if !expanded_contains(expanded_paths, &current.path) {
                FileTreeKeyboardAction::ToggleDirectory(current.path.clone())
            } else if children.len() > 0 {
                select_index(items, c + 1)
            } else {
                FileTreeKeyboardAction::NoAction
            }
        },
        FileNodeKind::Note { .. } => FileTreeKeyboardAction::NoAction,
    }
}

/// What ArrowLeft does on the selected row `c`.
fn arrow_left_action(items: &Vec<VisibleFileTreeItem>, c: usize, expanded_paths: &[String]) -> (r:
    FileTreeKeyboardAction)
    requires
        c < items.len(),
    ensures
        carries_out(
            r,
            key_outcome_at(item_views(items@), c as int, expanded_view(expanded_paths@), FileTreeKey::ArrowLeft),
            item_views(items@),
        ),
{
    let ghost iv = item_views(items@);
    assert(iv[c as int] == item_view(items@[c as int]));
    let current = &items[c].node;
    if current.is_directory() && expanded_contains(expanded_paths, &current.path) {
        FileTreeKeyboardAction::ToggleDirectory(current.path.clone())
    } else {
        match parent_index(items, c) {
            Some(p) => {
                assert(iv[p as int] == item_view(items@[p as int]));
                FileTreeKeyboardAction::Select(items[p].node.path.clone())
            },
            None => FileTreeKeyboardAction::NoAction,
        }
    }
}

/// What the other keys do on the selected row `c`.
fn other_key_action(items: &Vec<VisibleFileTreeItem>, c: usize, expanded_paths: &[String], key: FileTreeKey) -> (r:
    FileTreeKeyboardAction)
    requires
        c < items.len(),
        key != FileTreeKey::ArrowRight,
        key != FileTreeKey::ArrowLeft,
    ensures
        carries_out(
            r,
            key_outcome_at(item_views(items@), c as int, expanded_view(expanded_paths@), key),
            item_views(items@),
        ),
{
    let ghost iv = item_views(items@);
    assert(iv[c as int] == item_view(items@[c as int]));
    let current = &items[c].node;
    match key {
        FileTreeKey::ArrowDown => select_index(items, c + 1),
        FileTreeKey::ArrowUp => {
            if c == 0 {
                FileTreeKeyboardAction::NoAction
            } else {
                select_index(items, c - 1)
            }
        },
        FileTreeKey::F2 => FileTreeKeyboardAction::Rename(copy_node(current)),
        _ => match &current.kind {
            FileNodeKind::Directory { .. } => FileTreeKeyboardAction::ToggleDirectory(
                current.path.clone(),
            ),
            FileNodeKind::Note { .. } => FileTreeKeyboardAction::OpenNote(copy_node(current)),
        },
    }
}

/// What pressing `key` does in the file tree.
pub fn file_tree_keyboard_action(
    items: &Vec<VisibleFileTreeItem>,
    selected_path: Option<&str>,
    expanded_paths: &[String],
    key: FileTreeKey,
) -> (r: FileTreeKeyboardAction)
    ensures
        carries_out(
            r,
            key_outcome(item_views(items@), opt_str(selected_path), expanded_view(expanded_paths@), key),
            item_views(items@),
        ),
{
    match current_tree_index(items, selected_path) {
        None => select_index(items, 0),
        Some(c) => {
            match key {
                FileTreeKey::ArrowRight => arrow_right_action(items, c, expanded_paths),
                FileTreeKey::ArrowLeft => arrow_left_action(items, c, expanded_paths),
                _ => other_key_action(items, c, expanded_paths, key),
            }
        },
    }
}

proof fn lemma_views_len(s: Seq<FileNode>)
    ensures
        views_of(s).len() == s.len(),
    decreases s.len(),
{
    if s.len() > 0 {
        lemma_views_len(s.drop_last());
    }
}

// ---------------------------------------------------------------------
// Drag and drop
// ---------------------------------------------------------------------

/// The entry being dragged.
#[derive(Debug, Clone, PartialEq, Eq)]
pub struct FileTreeDragSource {
    pub path: String,
    pub is_directory: bool,
}

impl FileTreeDragSource {
    /// The drag source for the entry `node`.
    pub fn from_node(node: &FileNode) -> (r: Self)
        ensures
            r.path == node.path,
            r.is_directory == node.is_dir(),
    {
        FileTreeDragSource { path: node.path.clone(), is_directory: node.is_directory() }
    }
}

/// An entry at `source` may be dropped on the folder `target`: not on
/// itself, not on the folder it is already in, and a folder not on a
/// folder inside it.
pub open spec fn drop_allowed(source: Seq<char>, is_directory: bool, target: Seq<char>) -> bool {
    if source == target || crate::paths::parent(source) == Some(target) {
        false
    } else {
        !is_directory || crate::paths::strip_prefix(target, source) is None
    }
}

/// Whether the dragged entry may be dropped on the folder `target_dir`.
pub fn can_drop_on_directory(source: &FileTreeDragSource, target_dir: &str) -> (b: bool)
    ensures
        b == drop_allowed(source.path@, source.is_directory, target_dir@),
{
    let src = chars_of(source.path.as_str());
    let target = chars_of(target_dir);
    if chars_equal(&src, &target) {
        return false;
    }
    match crate::paths::path_parent(&src) {
        Some(parent) => {
            if chars_equal(&parent, &target) {
                return false;
            }
        },
        None => {},
    }
    !source.is_directory || crate::paths::path_strip_prefix(&target, &src).is_none()
}

// ---------------------------------------------------------------------
// Inline renaming
// ---------------------------------------------------------------------

/// `s` without every trailing `.md`.
pub open spec fn strip_md_suffixes(s: Seq<char>) -> Seq<char>
    decreases s.len(),
{
    if s.len() >= 3 && s.skip(s.len() - 3) == seq!['.', 'm', 'd'] {
        strip_md_suffixes(s.take(s.len() - 3))
    } else {
        s
    }
}

/// The text an entry's rename box starts with: a note's name without its
/// `.md` endings, a folder's name.
pub open spec fn rename_text(n: FileNode) -> Seq<char> {
    if n.is_dir() {
        n.name@
    } else {
        strip_md_suffixes(n.name@)
    }
}

/// The text the rename box of `node` starts with.
pub fn rename_input_value(node: &FileNode) -> (r: String)
    ensures
        r@ == rename_text(*node),
{
    if node.is_directory() {
        return node.name.clone();
    }
    let v = chars_of(node.name.as_str());
    let mut end: usize = v.len();
    assert(v@.take(end as int) =~= v@);
    while end >= 3 && v[end - 3] == '.' && v[end - 2] == 'm' && v[end - 1] == 'd'
        invariant
            end <= v.len(),
            strip_md_suffixes(v@) == strip_md_suffixes(v@.take(end as int)),
        decreases end,
    {
        let ghost t = v@.take(end as int);
        assert(t.skip(t.len() - 3) =~= seq!['.', 'm', 'd']);
        assert(t.take(t.len() - 3) =~= v@.take(end - 3));
        end = end - 3;
    }
    proof {
        let t = v@.take(end as int);
        if t.len() >= 3 && t.skip(t.len() - 3) == seq!['.', 'm', 'd'] {
            assert(t.skip(t.len() - 3)[0] == v@[end - 3]);
            assert(t.skip(t.len() - 3)[1] == v@[end - 2]);
            assert(t.skip(t.len() - 3)[2] == v@[end - 1]);
        }
    }
    string_from(crate::text::slice_vec(&v, 0, end).as_slice())
}

/// An inline rename in progress: the entry, what the box holds and what
/// it held at first.
#[derive(Debug, Clone, PartialEq, Eq)]
pub struct FileTreeRenameDraft {
    pub path: String,
    pub value: String,
    pub original_value: String,
}

/// The new name a rename commits: the trimmed text, unless it is empty or
/// unchanged.
pub open spec fn committed_name(value: Seq<char>, original: Seq<char>) -> Option<Seq<char>> {
    if trim(value).len() > 0 && trim(value) != original {
        Some(trim(value))
    } else {
        None
    }
}

impl FileTreeRenameDraft {
    /// The rename of `node`, starting from its current name.
    pub fn from_node(node: &FileNode) -> (r: Self)
        ensures
            r.path == node.path,
            r.value@ == rename_text(*node),
            r.original_value@ == rename_text(*node),
    {
        let value = rename_input_value(node);
        FileTreeRenameDraft { path: node.path.clone(), value: value.clone(), original_value: value }
    }

    /// The name to rename to, if the text was changed to a non-blank name.
    pub fn commit_name(&self) -> (r: Option<String>)
        ensures
            match r {
                Some(n) => committed_name(self.value@, self.original_value@) == Some(n@),
                None => committed_name(self.value@, self.original_value@) is None,
            },
    {
        let t = trimmed(&chars_of(self.value.as_str()));
        if t.len() > 0 && !chars_equal(&t, &chars_of(self.original_value.as_str())) {
            Some(string_from(t.as_slice()))
        } else {
            None
        }
    }
}

// ---------------------------------------------------------------------
// Row classes, menus and labels
// ---------------------------------------------------------------------

/// The classes of a file tree row of kind `kind`.
pub fn file_tree_row_class(
    kind: &str,
    is_selected: bool,
    is_editing: bool,
    is_dragging: bool,
    is_drop_target: bool,
) -> (r: String)
    ensures
        r@ == crate::primitives::joined(
            seq!["mn-tree-row"@, kind@] + crate::primitives::when_class(is_selected, "active"@)
                + crate::primitives::when_class(is_editing, "editing"@)
                + crate::primitives::when_class(is_dragging, "dragging"@)
                + crate::primitives::when_class(is_drop_target, "drop-target"@),
        ),
{
    let mut classes: Vec<Vec<char>> = Vec::new();
    classes.push(chars_of("mn-tree-row"));
    classes.push(chars_of(kind));
    let ghost base = classes@.map_values(|w: Vec<char>| w@);
    assert(base =~= seq!["mn-tree-row"@, kind@]);
    if is_selected {
        classes.push(chars_of("active"));
    }
    let ghost a = classes@.map_values(|w: Vec<char>| w@);
    assert(a =~= base + crate::primitives::when_class(is_selected, "active"@));
    if is_editing {
        classes.push(chars_of("editing"));
    }
    let ghost b = classes@.map_values(|w: Vec<char>| w@);
    assert(b =~= a + crate::primitives::when_class(is_editing, "editing"@));
    if is_dragging {
        classes.push(chars_of("dragging"));
    }
    let ghost c = classes@.map_values(|w: Vec<char>| w@);
    assert(c =~= b + crate::primitives::when_class(is_dragging, "dragging"@));
    if is_drop_target {
        classes.push(chars_of("drop-target"));
    }
    let ghost d = classes@.map_values(|w: Vec<char>| w@);
    assert(d =~= c + crate::primitives::when_class(is_drop_target, "drop-target"@));
    string_from(crate::primitives::join_words(&classes).as_slice())
}

/// The label of the delete entry of the context menu.
pub fn delete_menu_label(is_pending: bool) -> (r: &'static str)
    ensures
        r@ == (if is_pending {
            "Confirm delete"@
        } else {
            "Delete"@
        }),
{
    if is_pending {
        "Confirm delete"
    } else {
        "Delete"
    }
}

/// What the system file browser is asked to show for the entry `node`.
pub fn file_target(node: &FileNode) -> (r: crate::commands::FileTarget)
    ensures
        r.path == node.path,
        r.name == node.name,
{
    crate::commands::FileTarget { path: node.path.clone(), name: node.name.clone() }
}

/// The text shown under the workspace name: its folder, or an invitation
/// to open one.
pub fn sidebar_workspace_path_text(path: Option<&str>, language: AppLanguage) -> (r: String)
    ensures
        r@ == match path {
            Some(p) => p@,
            None => tr(language, "Open a folder to start"@, "打开目录即可开始"@),
        },
{
    match path {
        Some(p) => p.to_owned(),
        None => text(language, "Open a folder to start", "打开目录即可开始").to_owned(),
    }
}

// ---------------------------------------------------------------------
// Laws
// ---------------------------------------------------------------------

proof fn lemma_insert_view_len(ns: Seq<NodeView>, x: NodeView, mode: FileTreeSortMode)
    ensures
        insert_view(ns, x, mode).len() == ns.len() + 1,
        insert_view(ns, x, mode).to_multiset() == ns.to_multiset().insert(x),
    decreases ns.len(),
{
    broadcast use vstd::seq_lib::group_to_multiset_ensures;

    if ns.len() == 0 {
        assert(seq![x] =~= Seq::<NodeView>::empty().push(x));
        assert(ns =~= Seq::<NodeView>::empty());
    } else {
        let t = ns.drop_last();
        assert(ns =~= t.push(ns.last()));
        if order_view(ns.last(), x, mode) > 0 {
            lemma_insert_view_len(t, x, mode);
            assert(insert_view(t, x, mode).push(ns.last()).to_multiset() =~= ns.to_multiset().insert(x));
        }
    }
}

/// Putting entries in display order keeps every entry: the sorted list is
/// a rearrangement of the list.
pub proof fn sort_views_rearranges(ns: Seq<NodeView>, mode: FileTreeSortMode)
    ensures
        sort_views(ns, mode).len() == ns.len(),
        sort_views(ns, mode).to_multiset() == ns.to_multiset(),
    decreases ns.len(),
{
    broadcast use vstd::seq_lib::group_to_multiset_ensures;

    if ns.len() > 0 {
        let t = ns.drop_last();
        assert(ns =~= t.push(ns.last()));
        sort_views_rearranges(t, mode);
        lemma_insert_view_len(sort_views(t, mode), ns.last(), mode);
    } else {
        assert(ns.to_multiset() =~= vstd::multiset::Multiset::empty());
        assert(sort_views(ns, mode).to_multiset() =~= vstd::multiset::Multiset::empty());
    }
}

/// With no folder open, the rows are exactly the top-level entries, in
/// order, at depth 0.
pub proof fn collapsed_tree_shows_top_level(s: Seq<NodeView>)
    ensures
        visible(s, Seq::empty(), 0) == s.map_values(|v: NodeView| (v, 0nat)),
    decreases s.len(),
{
    if s.len() > 0 {
        collapsed_tree_shows_top_level(s.drop_last());
        assert(!is_expanded(Seq::empty(), s.last().path));
        assert(visible(s, Seq::empty(), 0) =~= s.map_values(|v: NodeView| (v, 0nat)));
    } else {
        assert(visible(s, Seq::empty(), 0) =~= s.map_values(|v: NodeView| (v, 0nat)));
    }
}

} // verus!
