//! The workspace file tree: which entries a scan keeps, how siblings are
//! ordered, note identifiers, and counts.
use vstd::prelude::*;
use crate::text::{text_order, compare_text};
use crate::text::{chars_of, concat, equal_ignore_ascii_case, eq_ignore_ascii_case, lowercase, lowercase_chars, starts_with, has_prefix, string_from};

verus! {

broadcast use vstd::string::group_string_axioms;

/// What a tree entry is.
#[derive(Debug)]
pub enum FileNodeKind {
    Directory { children: Vec<FileNode> },
    Note { note_id: Option<String> },
}

/// One entry of the workspace tree.
#[derive(Debug)]
pub struct FileNode {
    pub name: String,
    pub path: String,
    pub relative_path: String,
    pub created_at: i64,
    pub updated_at: i64,
    pub kind: FileNodeKind,
}

impl FileNode {
    /// Whether the entry is a directory.
    pub open spec fn is_dir(self) -> bool {
        self.kind is Directory
    }

    /// Whether the entry is a directory.
    pub fn is_directory(&self) -> (r: bool)
        ensures
            r == self.is_dir(),
    {
        match self.kind {
            FileNodeKind::Directory { .. } => true,
            FileNodeKind::Note { .. } => false,
        }
    }
}

// ---------------------------------------------------------------------
// Which entries a scan keeps
// ---------------------------------------------------------------------

/// The name of the folder that holds a workspace's assets.
pub open spec fn assets_dir_name() -> Seq<char> {
    "assets"@
}

/// An entry the workspace scan leaves out: hidden entries, and the
/// assets, `target` and `node_modules` directories (in any ASCII case).
pub open spec fn skipped_entry(name: Seq<char>, is_dir: bool) -> bool {
    has_prefix(name, seq!['.']) || (is_dir && (eq_ignore_ascii_case(name, assets_dir_name())
        || eq_ignore_ascii_case(name, "target"@) || eq_ignore_ascii_case(name, "node_modules"@)))
}

/// Whether the workspace scan leaves out the entry `name`.
pub fn should_skip_entry(name: &str, is_dir: bool) -> (r: bool)
    ensures
        r == skipped_entry(name@, is_dir),
{
    let n = chars_of(name);
    let mut dot: Vec<char> = Vec::new();
    dot.push('.');
    assert(dot@ =~= seq!['.']);
    starts_with(&n, &dot) || (is_dir && (equal_ignore_ascii_case(&n, &chars_of("assets"))
        || equal_ignore_ascii_case(&n, &chars_of("target")) || equal_ignore_ascii_case(
        &n,
        &chars_of("node_modules"),
    )))
}

/// An entry whose name starts with `.`.
pub open spec fn hidden_path(path: Seq<char>) -> bool {
    match crate::paths::file_name(path) {
        Some(n) => has_prefix(n, seq!['.']),
        None => false,
    }
}

/// Whether the entry at `path` is hidden.
pub fn is_hidden(path: &str) -> (b: bool)
    ensures
        b == hidden_path(path@),
{
    match crate::paths::path_file_name(&chars_of(path)) {
        Some(n) => {
            let mut dot: Vec<char> = Vec::new();
            dot.push('.');
            assert(dot@ =~= seq!['.']);
            starts_with(&n, &dot)
        },
        None => false,
    }
}

/// A Markdown file: its extension is `md` in any ASCII case.
pub open spec fn markdown_path(path: Seq<char>) -> bool {
    match crate::paths::extension(path) {
        Some(e) => eq_ignore_ascii_case(e, "md"@),
        None => false,
    }
}

/// Whether a workspace scan lists the file at `path` as a note: its
/// extension is exactly `md`.
pub fn scanned_as_note(path: &str) -> (b: bool)
    ensures
        b == (crate::paths::extension(path@) == Some("md"@)),
{
    let r = match crate::paths::path_extension(&chars_of(path)) {
        Some(e) => crate::text::chars_equal(&e, &chars_of("md")),
        None => false,
    };
    proof {
        reveal_strlit("md");
    }
    r
}

/// Whether the file at `path` is a Markdown note.
pub fn is_markdown(path: &str) -> (b: bool)
    ensures
        b == markdown_path(path@),
{
    match crate::paths::path_extension(&chars_of(path)) {
        Some(e) => equal_ignore_ascii_case(&e, &chars_of("md")),
        None => false,
    }
}

// ---------------------------------------------------------------------
// Counting and listing notes
// ---------------------------------------------------------------------

/// The number of notes in `nodes` and below.
pub open spec fn notes_in(nodes: Seq<FileNode>) -> nat
    decreases nodes,
{
    if nodes.len() == 0 {
        0
    } else {
        notes_in(nodes.drop_last()) + match nodes.last().kind {
            FileNodeKind::Directory { children } => notes_in(children@),
            FileNodeKind::Note { .. } => 1,
        }
    }
}

/// The number of notes in the tree `nodes`.
pub fn note_count(nodes: &Vec<FileNode>) -> (n: usize)
    requires
        notes_in(nodes@) <= usize::MAX,
    ensures
        n == notes_in(nodes@),
    decreases nodes@,
{
    let mut n: usize = 0;
    let mut i: usize = 0;
    while i < nodes.len()
        invariant
            i <= nodes.len(),
            notes_in(nodes@) <= usize::MAX,
            n == notes_in(nodes@.take(i as int)),
        decreases nodes.len() - i,
    {
        assert(nodes@.take(i + 1).drop_last() =~= nodes@.take(i as int));
        proof {
            lemma_notes_in_take(nodes@, i + 1);
        }
        match &nodes[i].kind {
            FileNodeKind::Directory { children } => {
                assert(decreases_to!(nodes@ => nodes@[i as int]));
                let c = note_count(children);
                n = n + c;
            },
            FileNodeKind::Note { .. } => {
                n = n + 1;
            },
        }
        i = i + 1;
    }
    assert(nodes@.take(nodes.len() as int) =~= nodes@);
    n
}

/// Counting a prefix counts no more than the whole.
pub proof fn lemma_notes_in_take(nodes: Seq<FileNode>, i: int)
    requires
        0 <= i <= nodes.len(),
    ensures
        notes_in(nodes.take(i)) <= notes_in(nodes),
    decreases nodes.len() - i,
{
    if i < nodes.len() {
        lemma_notes_in_take(nodes, i + 1);
        assert(nodes.take(i + 1).drop_last() =~= nodes.take(i));
    } else {
        assert(nodes.take(i) =~= nodes);
    }
}

/// The `(path, relative path)` of every note in the tree, depth first in
/// order.
pub open spec fn note_entries(nodes: Seq<FileNode>) -> Seq<(Seq<char>, Seq<char>)>
    decreases nodes,
{
    if nodes.len() == 0 {
        seq![]
    } else {
        note_entries(nodes.drop_last()) + match nodes.last().kind {
            FileNodeKind::Directory { children } => note_entries(children@),
            FileNodeKind::Note { .. } => seq![(nodes.last().path@, nodes.last().relative_path@)],
        }
    }
}

/// The views of a list of path pairs.
pub open spec fn pair_views(v: Seq<(String, String)>) -> Seq<(Seq<char>, Seq<char>)> {
    v.map_values(|p: (String, String)| (p.0@, p.1@))
}

/// Appends the notes of the tree `nodes` to `out`.
fn push_note_entries(nodes: &Vec<FileNode>, out: &mut Vec<(String, String)>)
    ensures
        pair_views(final(out)@) == pair_views(old(out)@) + note_entries(nodes@),
    decreases nodes@,
{
    let ghost start = pair_views(out@);
    let mut i: usize = 0;
    assert(note_entries(nodes@.take(0)) =~= Seq::<(Seq<char>, Seq<char>)>::empty()) by {
        assert(nodes@.take(0).len() == 0);
    }
    assert(pair_views(out@) =~= start + note_entries(nodes@.take(0)));
    while i < nodes.len()
        invariant
            i <= nodes.len(),
            pair_views(out@) == start + note_entries(nodes@.take(i as int)),
        decreases nodes.len() - i,
    {
        assert(nodes@.take(i + 1).drop_last() =~= nodes@.take(i as int));
        assert(nodes@.take(i + 1).last() == nodes@[i as int]);
        match &nodes[i].kind {
            FileNodeKind::Directory { children } => {
                assert(decreases_to!(nodes@ => nodes@[i as int]));
                push_note_entries(children, out);
            },
            FileNodeKind::Note { .. } => {
                let ghost before = out@;
                out.push((nodes[i].path.clone(), nodes[i].relative_path.clone()));
                assert(pair_views(out@) =~= pair_views(before) + seq![(nodes@[i as int].path@, nodes@[i as int].relative_path@)]);
            },
        }
        assert(pair_views(out@) =~= start + note_entries(nodes@.take(i + 1)));
        i = i + 1;
    }
    assert(nodes@.take(nodes.len() as int) =~= nodes@);
}

/// The `(path, relative path)` of every note in the tree, in order.
pub fn flatten_notes(nodes: &Vec<FileNode>) -> (r: Vec<(String, String)>)
    ensures
        pair_views(r@) == note_entries(nodes@),
{
    let mut out: Vec<(String, String)> = Vec::new();
    assert(pair_views(out@) =~= Seq::empty());
    push_note_entries(nodes, &mut out);
    assert(pair_views(out@) =~= note_entries(nodes@));
    out
}


// ---------------------------------------------------------------------
// Sibling order
// ---------------------------------------------------------------------

/// How two siblings are ordered: directories first, then by lowercased
/// name (-1, 0 or 1).
pub open spec fn node_order(a: FileNode, b: FileNode) -> int {
    if a.is_dir() && !b.is_dir() {
        -1
    } else if !a.is_dir() && b.is_dir() {
        1
    } else {
        text_order(lowercase(a.name@), lowercase(b.name@))
    }
}

/// Compares two siblings.
pub fn compare_nodes(a: &FileNode, b: &FileNode) -> (r: i8)
    ensures
        r as int == node_order(*a, *b),
{
    let ad = a.is_directory();
    let bd = b.is_directory();
    if ad && !bd {
        -1
    } else if !ad && bd {
        1
    } else {
        compare_text(&lowercase_chars(&chars_of(a.name.as_str())), &lowercase_chars(&chars_of(b.name.as_str())))
    }
}

/// `ns` with `x` inserted after the entries at its end that do not come
/// after `x` (one step of a stable sort).
pub open spec fn insert_node(ns: Seq<FileNode>, x: FileNode) -> Seq<FileNode>
    decreases ns.len(),
{
    if ns.len() == 0 {
        seq![x]
    } else if node_order(ns.last(), x) <= 0 {
        ns.push(x)
    } else {
        insert_node(ns.drop_last(), x).push(ns.last())
    }
}

/// `ns` stably sorted: directories first, then by lowercased name.
pub open spec fn sorted_nodes(ns: Seq<FileNode>) -> Seq<FileNode>
    decreases ns.len(),
{
    if ns.len() == 0 {
        seq![]
    } else {
        insert_node(sorted_nodes(ns.drop_last()), ns.last())
    }
}

/// Siblings in display order: directories first, then by lowercased
/// name, equal entries kept in their order.
pub fn sort_nodes(nodes: Vec<FileNode>) -> (r: Vec<FileNode>)
    ensures
        r@ == sorted_nodes(nodes@),
        in_display_order(r@),
        r@.to_multiset() == nodes@.to_multiset(),
{
    proof {
        sorted_siblings_in_display_order(nodes@);
    }
    let ghost input = nodes@;
    let mut rest = nodes;
    let mut out: Vec<FileNode> = Vec::new();
    let mut i: usize = 0;
    let n = rest.len();
    while i < n
        invariant
            i <= n,
            n == input.len(),
            rest@ == input.skip(i as int),
            out@ == sorted_nodes(input.take(i as int)),
        decreases n - i,
    {
        let x = rest.remove(0);
        assert(x == input[i as int]);
        assert(rest@ =~= input.skip(i + 1));
        assert(input.take(i + 1).drop_last() =~= input.take(i as int));
        let mut j: usize = out.len();
        assert(out@.take(j as int) =~= out@);
        assert(out@.skip(j as int) =~= Seq::<FileNode>::empty());
        while j > 0 && compare_nodes(&out[j - 1], &x) > 0
            invariant
                j <= out.len(),
                insert_node(out@, x) == insert_node(out@.take(j as int), x) + out@.skip(j as int),
            decreases j,
        {
            assert(out@.take(j as int).drop_last() =~= out@.take(j - 1));
            assert(out@.skip(j - 1) =~= seq![out@[j - 1]] + out@.skip(j as int));
            assert(insert_node(out@.take(j as int), x) == insert_node(out@.take(j - 1), x).push(out@[j - 1]));
            assert(insert_node(out@.take(j - 1), x).push(out@[j - 1]) + out@.skip(j as int) =~= insert_node(out@.take(j - 1), x) + out@.skip(j - 1));
            j = j - 1;
        }
        let ghost before = out@;
        proof {
            if j > 0 {
                assert(out@.take(j as int).last() == out@[j - 1]);
            } else {
                assert(out@.take(0) =~= Seq::<FileNode>::empty());
            }
        }
        assert(insert_node(before.take(j as int), x) =~= before.take(j as int).push(x));
        out.insert(j, x);
        assert(out@ =~= before.take(j as int).push(x) + before.skip(j as int));
        i = i + 1;
    }
    assert(input.take(n as int) =~= input);
    out
}

/// `a` may come before `b` among siblings: a file never comes before a
/// directory, and of two entries of one kind the lowercased names do not
/// descend (in text order).
pub open spec fn display_before(a: FileNode, b: FileNode) -> bool {
    &&& (a.is_dir() || !b.is_dir())
    &&& (a.is_dir() == b.is_dir() ==> text_order(lowercase(a.name@), lowercase(b.name@)) <= 0)
}

/// Siblings in display order: each may come before every later one.
pub open spec fn in_display_order(ns: Seq<FileNode>) -> bool {
    forall|i: int, j: int| 0 <= i < j < ns.len() ==> display_before(#[trigger] ns[i], #[trigger] ns[j])
}

proof fn lemma_node_order(a: FileNode, b: FileNode)
    ensures
        (node_order(a, b) <= 0) == display_before(a, b),
        node_order(a, b) > 0 ==> display_before(b, a),
{
    crate::paths::lemma_text_order_facts(lowercase(a.name@), lowercase(b.name@));
}

proof fn lemma_display_before_trans(a: FileNode, b: FileNode, c: FileNode)
    requires
        display_before(a, b),
        display_before(b, c),
    ensures
        display_before(a, c),
{
    let x = lowercase(a.name@);
    let y = lowercase(b.name@);
    let z = lowercase(c.name@);
    crate::paths::lemma_text_order_facts(x, y);
    crate::paths::lemma_text_order_facts(y, z);
    crate::paths::lemma_text_order_facts(x, z);
    if text_order(x, y) < 0 && text_order(y, z) < 0 {
        crate::paths::lemma_text_order_trans(x, y, z);
    }
}

proof fn lemma_insert_node_ordered(ns: Seq<FileNode>, x: FileNode)
    requires
        in_display_order(ns),
    ensures
        in_display_order(insert_node(ns, x)),
        insert_node(ns, x).to_multiset() == ns.to_multiset().insert(x),
        forall|k: int| 0 <= k < insert_node(ns, x).len() ==> #[trigger] insert_node(ns, x)[k] == x
            || ns.contains(insert_node(ns, x)[k]),
    decreases ns.len(),
{
    broadcast use vstd::seq_lib::group_to_multiset_ensures;
    let r = insert_node(ns, x);
    if ns.len() == 0 {
        assert(r =~= Seq::<FileNode>::empty().push(x));
    } else {
        let t = ns.drop_last();
        let last = ns.last();
        assert(ns =~= t.push(last));
        lemma_node_order(last, x);
        if node_order(last, x) <= 0 {
            assert forall|i: int, j: int| 0 <= i < j < r.len() implies display_before(#[trigger] r[i], #[trigger] r[j]) by {
                if j == r.len() - 1 && i < ns.len() - 1 {
                    lemma_display_before_trans(ns[i], last, x);
                }
            }
        } else {
            assert(in_display_order(t));
            lemma_insert_node_ordered(t, x);
            let r2 = insert_node(t, x);
            assert(r =~= r2.push(last));
            assert forall|i: int, j: int| 0 <= i < j < r.len() implies display_before(#[trigger] r[i], #[trigger] r[j]) by {
                if j == r.len() - 1 {
                    assert(r[j] == last);
                    assert(r[i] == r2[i]);
                    if r2[i] != x {
                        assert(t.contains(r2[i]));
                        let m = choose|m: int| 0 <= m < t.len() && t[m] == r2[i];
                        assert(ns[m] == t[m]);
                        assert(ns[ns.len() - 1] == last);
                    }
                } else {
                    assert(r[i] == r2[i] && r[j] == r2[j]);
                }
            }
            assert forall|k: int| 0 <= k < r.len() implies #[trigger] r[k] == x || ns.contains(r[k]) by {
                if k < r.len() - 1 {
                    assert(r[k] == r2[k]);
                    if r2[k] != x {
                        let m = choose|m: int| 0 <= m < t.len() && t[m] == r2[k];
                        assert(ns[m] == t[m]);
                    }
                } else {
                    assert(ns[ns.len() - 1] == last);
                }
            }
        }
    }
}

/// Sorting siblings puts every directory before every file and, within
/// each kind, orders the lowercased names ascending (in text order); the
/// entries are those given, rearranged.
pub proof fn sorted_siblings_in_display_order(ns: Seq<FileNode>)
    ensures
        in_display_order(sorted_nodes(ns)),
        sorted_nodes(ns).to_multiset() == ns.to_multiset(),
    decreases ns.len(),
{
    broadcast use vstd::seq_lib::group_to_multiset_ensures;
    if ns.len() == 0 {
        assert(sorted_nodes(ns) =~= ns);
    } else {
        sorted_siblings_in_display_order(ns.drop_last());
        lemma_insert_node_ordered(sorted_nodes(ns.drop_last()), ns.last());
        assert(ns =~= ns.drop_last().push(ns.last()));
    }
}

// ---------------------------------------------------------------------
// Note identifiers
// ---------------------------------------------------------------------

/// The identifier of the note at `relative_path` in a workspace:
/// `{workspace_id}::{relative_path}`.
pub open spec fn note_id_of(workspace_id: Seq<char>, relative_path: Seq<char>) -> Seq<char> {
    workspace_id + "::"@ + relative_path
}

/// The identifier of the note at `relative_path` in a workspace.
pub fn stable_note_id(workspace_id: &str, relative_path: &str) -> (r: String)
    ensures
        r@ == note_id_of(workspace_id@, relative_path@),
{
    let a = concat(&chars_of(workspace_id), &chars_of("::"));
    string_from(concat(&a, &chars_of(relative_path)).as_slice())
}

/// `after` is `before` with every note given its identifier in the
/// workspace `ws`, all else unchanged.
pub open spec fn ids_attached(before: Seq<FileNode>, after: Seq<FileNode>, ws: Seq<char>) -> bool
    decreases before,
{
    before.len() == after.len() && (before.len() == 0 || {
        let x = before.last();
        let y = after.last();
        &&& ids_attached(before.drop_last(), after.drop_last(), ws)
        &&& y.name == x.name
        &&& y.path == x.path
        &&& y.relative_path == x.relative_path
        &&& y.created_at == x.created_at
        &&& y.updated_at == x.updated_at
        &&& match (x.kind, y.kind) {
            (FileNodeKind::Directory { children: cx }, FileNodeKind::Directory { children: cy }) => ids_attached(cx@, cy@, ws),
            (FileNodeKind::Note { .. }, FileNodeKind::Note { note_id }) => note_id is Some && note_id->0@ == note_id_of(ws, x.relative_path@),
            _ => false,
        }
    })
}

/// The tree with every note given its identifier in the workspace
/// `workspace_id`.
pub fn attach_note_ids(nodes: Vec<FileNode>, workspace_id: &str) -> (r: Vec<FileNode>)
    ensures
        ids_attached(nodes@, r@, workspace_id@),
    decreases nodes@,
{
    let ghost input = nodes@;
    let mut rest = nodes;
    let mut out: Vec<FileNode> = Vec::new();
    let mut i: usize = 0;
    let n = rest.len();
    assert(ids_attached(input.take(0), out@, workspace_id@)) by {
        assert(input.take(0).len() == 0);
    }
    while i < n
        invariant
            i <= n,
            n == input.len(),
            rest@ == input.skip(i as int),
            input == nodes@,
            ids_attached(input.take(i as int), out@, workspace_id@),
        decreases n - i,
    {
        let x = rest.remove(0);
        assert(x == input[i as int]);
        assert(rest@ =~= input.skip(i + 1));
        assert(input.take(i + 1).drop_last() =~= input.take(i as int));
        let FileNode { name, path, relative_path, created_at, updated_at, kind } = x;
        let new_kind = match kind {
            FileNodeKind::Directory { children } => {
                proof {
                    let xi = input[i as int];
                    assert(decreases_to!(input => xi));
                    assert(xi.kind == FileNodeKind::Directory { children });
                    assert(decreases_to!(xi => xi.kind));
                    assert(decreases_to!(xi.kind => children));
                    assert(decreases_to!(children => children@));
                    assert(decreases_to!(input => children@));
                }
                FileNodeKind::Directory { children: attach_note_ids(children, workspace_id) }
            },
            FileNodeKind::Note { .. } => FileNodeKind::Note {
                note_id: Some(stable_note_id(workspace_id, relative_path.as_str())),
            },
        };
        let y = FileNode { name, path, relative_path, created_at, updated_at, kind: new_kind };
        let ghost before = out@;
        out.push(y);
        assert(out@.drop_last() =~= before);
        i = i + 1;
    }
    assert(input.take(n as int) =~= input);
    out
}

} // verus!
