//! File system paths, modelled as `/`-separated strings.
//!
//! A path is the sequence of its characters. These functions follow what
//! `std::path::Path` does for such strings: `join`, `file_name`,
//! `file_stem`, `extension`, `parent` and `strip_prefix`, its components,
//! their equality and order, and lexical resolution of `.` and `..`.
use vstd::prelude::*;
use crate::text::{chars_equal, chars_of, compare_text, concat, has_prefix, slice_vec, starts_with, text_order};

verus! {

/// The position of the last `c` in `s`, or -1.
pub open spec fn last_index(s: Seq<char>, c: char) -> int
    decreases s.len(),
{
    if s.len() == 0 {
        -1
    } else if s.last() == c {
        s.len() - 1
    } else {
        last_index(s.drop_last(), c)
    }
}

/// `last_index` names an occurrence, and no later one exists.
pub proof fn lemma_last_index(s: Seq<char>, c: char)
    ensures
        -1 <= last_index(s, c) < s.len(),
        last_index(s, c) >= 0 ==> s[last_index(s, c)] == c,
        forall|k: int| last_index(s, c) < k < s.len() ==> s[k] != c,
    decreases s.len(),
{
    if s.len() > 0 && s.last() != c {
        lemma_last_index(s.drop_last(), c);
        assert forall|k: int| last_index(s, c) < k < s.len() implies s[k] != c by {
            if k < s.len() - 1 {
                assert(s[k] == s.drop_last()[k]);
            }
        }
    }
}

/// The position of the last `c` in `s`.
pub fn rfind_char(s: &Vec<char>, c: char) -> (r: Option<usize>)
    ensures
        match r {
            Some(i) => i as int == last_index(s@, c) && i < s.len(),
            None => last_index(s@, c) == -1,
        },
{
    let mut k: usize = s.len();
    assert(s@.take(k as int) =~= s@);
    while k > 0
        invariant
            k <= s.len(),
            last_index(s@, c) == last_index(s@.take(k as int), c),
        decreases k,
    {
        assert(s@.take(k as int).drop_last() =~= s@.take(k - 1));
        if s[k - 1] == c {
            return Some(k - 1);
        }
        k = k - 1;
    }
    None
}

/// The stem of a file name: what precedes its last `.`, or the whole name
/// when it has no `.` after its first character.
pub open spec fn name_stem(name: Seq<char>) -> Seq<char> {
    let d = last_index(name, '.');
    if d <= 0 {
        name
    } else {
        name.take(d)
    }
}

/// The extension of a file name: what follows its last `.`, when that `.`
/// is not its first character.
pub open spec fn name_extension(name: Seq<char>) -> Option<Seq<char>> {
    let d = last_index(name, '.');
    if d <= 0 {
        None
    } else {
        Some(name.skip(d + 1))
    }
}

/// The file stem of `p` (`Path::file_stem`).
pub open spec fn file_stem(p: Seq<char>) -> Option<Seq<char>> {
    match file_name(p) {
        Some(n) => Some(name_stem(n)),
        None => None,
    }
}

/// The extension of `p` (`Path::extension`).
pub open spec fn extension(p: Seq<char>) -> Option<Seq<char>> {
    match file_name(p) {
        Some(n) => name_extension(n),
        None => None,
    }
}

/// The stem and extension of a file name.
pub fn split_name(name: &Vec<char>) -> (r: (Vec<char>, Option<Vec<char>>))
    ensures
        r.0@ == name_stem(name@),
        match r.1 {
            Some(e) => name_extension(name@) == Some(e@),
            None => name_extension(name@) is None,
        },
{
    match rfind_char(name, '.') {
        Some(d) => {
            if d == 0 {
                (name.clone(), None)
            } else {
                assert(name@.take(d as int) =~= name@.subrange(0, d as int));
                assert(name@.skip(d + 1) =~= name@.subrange(d + 1, name.len() as int));
                (slice_vec(name, 0, d), Some(slice_vec(name, d + 1, name.len())))
            }
        },
        None => (name.clone(), None),
    }
}

/// The file stem of `p`.
pub fn path_file_stem(p: &Vec<char>) -> (r: Option<Vec<char>>)
    ensures
        match r {
            Some(s) => file_stem(p@) == Some(s@),
            None => file_stem(p@) is None,
        },
{
    match path_file_name(p) {
        Some(n) => Some(split_name(&n).0),
        None => None,
    }
}

/// The extension of `p`.
pub fn path_extension(p: &Vec<char>) -> (r: Option<Vec<char>>)
    ensures
        match r {
            Some(s) => extension(p@) == Some(s@),
            None => extension(p@) is None,
        },
{
    match path_file_name(p) {
        Some(n) => split_name(&n).1,
        None => None,
    }
}

/// `b` appended to `a` as a new component (`Path::join`): an absolute `b`
/// replaces `a`.
pub open spec fn join(a: Seq<char>, b: Seq<char>) -> Seq<char> {
    if b.len() > 0 && b[0] == '/' {
        b
    } else if a.len() == 0 || a.last() == '/' {
        a + b
    } else {
        a.push('/') + b
    }
}

/// `b` appended to `a` as a new component.
pub fn path_join(a: &Vec<char>, b: &Vec<char>) -> (r: Vec<char>)
    ensures
        r@ == join(a@, b@),
{
    if b.len() > 0 && b[0] == '/' {
        b.clone()
    } else if a.len() == 0 || a[a.len() - 1] == '/' {
        concat(a, b)
    } else {
        let mut a2 = a.clone();
        a2.push('/');
        concat(&a2, b)
    }
}

/// Whether a file exists at `path` (`Path::exists`, std). The answer depends
/// on the disk at the moment of the call, so nothing is stated of it.
#[verifier::external_body]
pub fn path_exists(path: &str) -> bool {
    std::path::Path::new(path).exists()
}

// ---------------------------------------------------------------------
// Splitting a path into components
// ---------------------------------------------------------------------

/// Reading `p` from the left: the components completed so far and the one
/// being read.
pub open spec fn component_state(p: Seq<char>) -> (Seq<Seq<char>>, Seq<char>)
    decreases p.len(),
{
    if p.len() == 0 {
        (seq![], seq![])
    } else {
        let prev = component_state(p.drop_last());
        if p.last() == '/' {
            if prev.1.len() > 0 {
                (prev.0.push(prev.1), seq![])
            } else {
                prev
            }
        } else {
            (prev.0, prev.1.push(p.last()))
        }
    }
}

/// The non-empty `/`-separated components of a path.
pub open spec fn components(p: Seq<char>) -> Seq<Seq<char>> {
    let st = component_state(p);
    if st.1.len() > 0 {
        st.0.push(st.1)
    } else {
        st.0
    }
}

/// The components of a path.
pub fn path_components(p: &Vec<char>) -> (r: Vec<Vec<char>>)
    ensures
        r@.map_values(|w: Vec<char>| w@) == components(p@),
{
    let mut done: Vec<Vec<char>> = Vec::new();
    let mut cur: Vec<char> = Vec::new();
    let mut i: usize = 0;
    while i < p.len()
        invariant
            i <= p.len(),
            done@.map_values(|w: Vec<char>| w@) == component_state(p@.take(i as int)).0,
            cur@ == component_state(p@.take(i as int)).1,
        decreases p.len() - i,
    {
        let c = p[i];
        assert(p@.take(i + 1).drop_last() =~= p@.take(i as int));
        if c == '/' {
            if cur.len() > 0 {
                let ghost old_done = done@;
                done.push(cur);
                cur = Vec::new();
                assert(done@.map_values(|w: Vec<char>| w@) =~= old_done.map_values(|w: Vec<char>| w@).push(
                    component_state(p@.take(i as int)).1,
                ));
            }
        } else {
            cur.push(c);
        }
        i = i + 1;
    }
    assert(p@.take(p.len() as int) =~= p@);
    if cur.len() > 0 {
        let ghost old_done = done@;
        done.push(cur);
        assert(done@.map_values(|w: Vec<char>| w@) =~= old_done.map_values(|w: Vec<char>| w@).push(
            component_state(p@).1,
        ));
    }
    done
}

// ---------------------------------------------------------------------
// Components and lexical resolution
// ---------------------------------------------------------------------

/// The path component `.`.
pub open spec fn cur_dir() -> Seq<char> {
    seq!['.']
}

/// The path component `..`.
pub open spec fn parent_dir() -> Seq<char> {
    seq!['.', '.']
}

/// The view of a list of path components.
pub open spec fn parts_view(v: Seq<Vec<char>>) -> Seq<Seq<char>> {
    v.map_values(|w: Vec<char>| w@)
}

/// A path that starts at the root.
pub open spec fn is_rooted(p: Seq<char>) -> bool {
    p.len() > 0 && p[0] == '/'
}

/// The components of a path other than `.`.
pub open spec fn named_parts(pieces: Seq<Seq<char>>) -> Seq<Seq<char>>
    decreases pieces.len(),
{
    if pieces.len() == 0 {
        seq![]
    } else if pieces.last() == cur_dir() {
        named_parts(pieces.drop_last())
    } else {
        named_parts(pieces.drop_last()).push(pieces.last())
    }
}

/// Lexical resolution of path components, read from the left: `.` is
/// dropped, `..` removes the component before it (if there is one), and
/// every other component is appended.
pub open spec fn resolve_parts(pieces: Seq<Seq<char>>) -> Seq<Seq<char>>
    decreases pieces.len(),
{
    if pieces.len() == 0 {
        seq![]
    } else {
        let prev = resolve_parts(pieces.drop_last());
        if pieces.last() == cur_dir() {
            prev
        } else if pieces.last() == parent_dir() {
            if prev.len() > 0 {
                prev.drop_last()
            } else {
                prev
            }
        } else {
            prev.push(pieces.last())
        }
    }
}

/// `a` is a prefix of `b`.
pub open spec fn is_prefix_of(a: Seq<Seq<char>>, b: Seq<Seq<char>>) -> bool {
    a.len() <= b.len() && b.take(a.len() as int) == a
}

/// Whether the path made of `rooted` and `parts` starts with the path
/// made of `base_rooted` and `base_parts`, component by component (the
/// root being a component of its own).
pub open spec fn path_starts_with(
    rooted: bool,
    parts: Seq<Seq<char>>,
    base_rooted: bool,
    base_parts: Seq<Seq<char>>,
) -> bool {
    if base_rooted {
        rooted && is_prefix_of(base_parts, parts)
    } else if base_parts.len() == 0 {
        true
    } else {
        !rooted && is_prefix_of(base_parts, parts)
    }
}

/// The components joined by `/`.
pub open spec fn joined_parts(parts: Seq<Seq<char>>) -> Seq<char>
    decreases parts.len(),
{
    if parts.len() == 0 {
        seq![]
    } else if parts.len() == 1 {
        parts[0]
    } else {
        joined_parts(parts.drop_last()) + seq!['/'] + parts.last()
    }
}

/// The text of the path made of `rooted` and `parts`.
pub open spec fn path_text(rooted: bool, parts: Seq<Seq<char>>) -> Seq<char> {
    if rooted {
        seq!['/'] + joined_parts(parts)
    } else {
        joined_parts(parts)
    }
}

pub(crate) fn is_cur_dir(p: &Vec<char>) -> (b: bool)
    ensures
        b == (p@ == cur_dir()),
{
    let b = p.len() == 1 && p[0] == '.';
    if b {
        assert(p@ =~= cur_dir());
    }
    b
}

pub(crate) fn is_parent_dir(p: &Vec<char>) -> (b: bool)
    ensures
        b == (p@ == parent_dir()),
{
    let b = p.len() == 2 && p[0] == '.' && p[1] == '.';
    if b {
        assert(p@ =~= parent_dir());
    }
    b
}

/// The components of `pieces` other than `.`.
pub(crate) fn named_pieces(pieces: &Vec<Vec<char>>) -> (r: Vec<Vec<char>>)
    ensures
        parts_view(r@) == named_parts(parts_view(pieces@)),
{
    let mut out: Vec<Vec<char>> = Vec::new();
    let mut i: usize = 0;
    while i < pieces.len()
        invariant
            i <= pieces.len(),
            parts_view(out@) == named_parts(parts_view(pieces@).take(i as int)),
        decreases pieces.len() - i,
    {
        let ghost before = out@;
        assert(parts_view(pieces@).take(i + 1).drop_last() =~= parts_view(pieces@).take(i as int));
        assert(parts_view(pieces@).take(i + 1).last() == pieces@[i as int]@);
        if !is_cur_dir(&pieces[i]) {
            out.push(pieces[i].clone());
            assert(parts_view(out@) =~= parts_view(before).push(pieces@[i as int]@));
        }
        i = i + 1;
    }
    assert(parts_view(pieces@).take(pieces.len() as int) =~= parts_view(pieces@));
    out
}

/// The lexical resolution of `pieces`.
pub(crate) fn resolve_pieces(pieces: &Vec<Vec<char>>) -> (r: Vec<Vec<char>>)
    ensures
        parts_view(r@) == resolve_parts(parts_view(pieces@)),
{
    let mut out: Vec<Vec<char>> = Vec::new();
    let mut i: usize = 0;
    while i < pieces.len()
        invariant
            i <= pieces.len(),
            parts_view(out@) == resolve_parts(parts_view(pieces@).take(i as int)),
        decreases pieces.len() - i,
    {
        let ghost before = out@;
        assert(parts_view(pieces@).take(i + 1).drop_last() =~= parts_view(pieces@).take(i as int));
        assert(parts_view(pieces@).take(i + 1).last() == pieces@[i as int]@);
        if is_cur_dir(&pieces[i]) {
        } else if is_parent_dir(&pieces[i]) {
            if out.len() > 0 {
                out.pop();
                assert(parts_view(out@) =~= parts_view(before).drop_last());
            }
        } else {
            out.push(pieces[i].clone());
            assert(parts_view(out@) =~= parts_view(before).push(pieces@[i as int]@));
        }
        i = i + 1;
    }
    assert(parts_view(pieces@).take(pieces.len() as int) =~= parts_view(pieces@));
    out
}

/// `a` followed by `b`.
pub(crate) fn append_pieces(a: &Vec<Vec<char>>, b: &Vec<Vec<char>>) -> (r: Vec<Vec<char>>)
    ensures
        parts_view(r@) == parts_view(a@) + parts_view(b@),
{
    let mut out: Vec<Vec<char>> = Vec::new();
    let mut i: usize = 0;
    while i < a.len()
        invariant
            i <= a.len(),
            out.len() == i,
            forall|k: int| 0 <= k < i ==> #[trigger] out@[k]@ == a@[k]@,
        decreases a.len() - i,
    {
        out.push(a[i].clone());
        i = i + 1;
    }
    let mut j: usize = 0;
    while j < b.len()
        invariant
            j <= b.len(),
            out.len() == a.len() + j,
            forall|k: int| 0 <= k < a.len() ==> #[trigger] out@[k]@ == a@[k]@,
            forall|k: int| a.len() <= k < a.len() + j ==> #[trigger] out@[k]@ == b@[k - a.len()]@,
        decreases b.len() - j,
    {
        out.push(b[j].clone());
        j = j + 1;
    }
    assert(parts_view(out@) =~= parts_view(a@) + parts_view(b@));
    out
}

/// Whether `base` is a prefix of `parts`, component by component.
pub(crate) fn pieces_prefix(base: &Vec<Vec<char>>, parts: &Vec<Vec<char>>) -> (b: bool)
    ensures
        b == is_prefix_of(parts_view(base@), parts_view(parts@)),
{
    if base.len() > parts.len() {
        return false;
    }
    let mut i: usize = 0;
    while i < base.len()
        invariant
            base.len() <= parts.len(),
            i <= base.len(),
            forall|k: int| 0 <= k < i ==> #[trigger] base@[k]@ == parts@[k]@,
        decreases base.len() - i,
    {
        if !chars_equal(&base[i], &parts[i]) {
            assert(parts_view(parts@).take(base.len() as int)[i as int] != parts_view(base@)[i as int]);
            return false;
        }
        i = i + 1;
    }
    assert(parts_view(parts@).take(base.len() as int) =~= parts_view(base@));
    true
}

/// The text of a path.
pub(crate) fn path_text_chars(rooted: bool, parts: &Vec<Vec<char>>) -> (r: Vec<char>)
    ensures
        r@ == path_text(rooted, parts_view(parts@)),
{
    let mut out: Vec<char> = Vec::new();
    let mut i: usize = 0;
    while i < parts.len()
        invariant
            i <= parts.len(),
            out@ == joined_parts(parts_view(parts@).take(i as int)),
        decreases parts.len() - i,
    {
        let ghost before = out@;
        let ghost pv = parts_view(parts@).take(i + 1);
        assert(pv.drop_last() =~= parts_view(parts@).take(i as int));
        assert(pv.last() == parts@[i as int]@);
        if i == 0 {
            out = parts[0].clone();
            assert(pv.len() == 1);
        } else {
            out.push('/');
            out = concat(&out, &parts[i]);
            assert(out@ =~= before + seq!['/'] + parts@[i as int]@);
        }
        i = i + 1;
    }
    assert(parts_view(parts@).take(parts.len() as int) =~= parts_view(parts@));
    if rooted {
        let mut root: Vec<char> = Vec::new();
        root.push('/');
        assert(root@ =~= seq!['/']);
        concat(&root, &out)
    } else {
        out
    }
}

// ---------------------------------------------------------------------
// Path components, equality and order
// ---------------------------------------------------------------------

/// The root component, written `/`.
pub open spec fn root_component() -> Seq<char> {
    seq!['/']
}

/// The components of a path as `Path::components` yields them: the root
/// (written `/`), the `.` that starts a relative path, then every
/// component but `.`.
pub open spec fn std_components(p: Seq<char>) -> Seq<Seq<char>> {
    let pieces = components(p);
    if is_rooted(p) {
        seq![root_component()] + named_parts(pieces)
    } else if pieces.len() > 0 && pieces[0] == cur_dir() {
        seq![cur_dir()] + named_parts(pieces.drop_first())
    } else {
        named_parts(pieces)
    }
}

/// The kind of a component, in the order `Path` sorts kinds: the root,
/// `.`, `..`, then names.
pub open spec fn component_rank(c: Seq<char>) -> int {
    if c == root_component() {
        0
    } else if c == cur_dir() {
        1
    } else if c == parent_dir() {
        2
    } else {
        3
    }
}

/// Three-way comparison of two components: by kind, then names by text.
pub open spec fn component_order(a: Seq<char>, b: Seq<char>) -> int {
    if component_rank(a) < component_rank(b) {
        -1
    } else if component_rank(a) > component_rank(b) {
        1
    } else if component_rank(a) == 3 {
        text_order(a, b)
    } else {
        0
    }
}

/// Three-way comparison of component lists, lexicographically.
pub open spec fn components_order(a: Seq<Seq<char>>, b: Seq<Seq<char>>) -> int
    decreases a.len(),
{
    if a.len() == 0 {
        if b.len() == 0 {
            0
        } else {
            -1
        }
    } else if b.len() == 0 {
        1
    } else if component_order(a[0], b[0]) != 0 {
        component_order(a[0], b[0])
    } else {
        components_order(a.drop_first(), b.drop_first())
    }
}

/// Three-way comparison of two paths, as `Path` orders them.
pub open spec fn std_path_order(a: Seq<char>, b: Seq<char>) -> int {
    components_order(std_components(a), std_components(b))
}

/// Two paths are equal as `Path`s: they have the same components.
#[verifier::opaque]
pub open spec fn same_path(a: Seq<char>, b: Seq<char>) -> bool {
    std_components(a) == std_components(b)
}

/// `v` without its first component.
fn tail_pieces(v: &Vec<Vec<char>>) -> (r: Vec<Vec<char>>)
    requires
        v.len() > 0,
    ensures
        parts_view(r@) == parts_view(v@).drop_first(),
{
    let mut r: Vec<Vec<char>> = Vec::new();
    let mut i: usize = 1;
    while i < v.len()
        invariant
            1 <= i <= v.len(),
            r.len() == i - 1,
            forall|k: int| 0 <= k < r.len() ==> #[trigger] r@[k]@ == v@[k + 1]@,
        decreases v.len() - i,
    {
        r.push(v[i].clone());
        i = i + 1;
    }
    assert(parts_view(r@) =~= parts_view(v@).drop_first());
    r
}

/// The components of a path, as `Path::components` yields them.
pub fn path_std_components(p: &Vec<char>) -> (r: Vec<Vec<char>>)
    ensures
        parts_view(r@) == std_components(p@),
{
    let pieces = path_components(p);
    assert(parts_view(pieces@) == components(p@));
    if p.len() > 0 && p[0] == '/' {
        let mut root: Vec<char> = Vec::new();
        root.push('/');
        let mut head: Vec<Vec<char>> = Vec::new();
        head.push(root);
        assert(parts_view(head@) =~= seq![root_component()]);
        append_pieces(&head, &named_pieces(&pieces))
    } else if pieces.len() > 0 && is_cur_dir(&pieces[0]) {
        let mut dot: Vec<char> = Vec::new();
        dot.push('.');
        let mut head: Vec<Vec<char>> = Vec::new();
        head.push(dot);
        assert(parts_view(head@) =~= seq![cur_dir()]);
        append_pieces(&head, &named_pieces(&tail_pieces(&pieces)))
    } else {
        named_pieces(&pieces)
    }
}

fn rank_of(c: &Vec<char>) -> (r: u8)
    ensures
        r as int == component_rank(c@),
{
    if c.len() == 1 && c[0] == '/' {
        assert(c@ =~= root_component());
        0
    } else if is_cur_dir(c) {
        1
    } else if is_parent_dir(c) {
        2
    } else {
        3
    }
}

fn compare_component(a: &Vec<char>, b: &Vec<char>) -> (r: i8)
    ensures
        r as int == component_order(a@, b@),
{
    let ra = rank_of(a);
    let rb = rank_of(b);
    if ra < rb {
        -1
    } else if ra > rb {
        1
    } else if ra == 3 {
        compare_text(a, b)
    } else {
        0
    }
}

fn compare_component_lists(ca: &Vec<Vec<char>>, cb: &Vec<Vec<char>>) -> (r: i8)
    ensures
        r as int == components_order(parts_view(ca@), parts_view(cb@)),
{
    let ghost av = parts_view(ca@);
    let ghost bv = parts_view(cb@);
    let mut i: usize = 0;
    assert(av.skip(0) =~= av);
    assert(bv.skip(0) =~= bv);
    while i < ca.len() && i < cb.len()
        invariant
            i <= ca.len(),
            i <= cb.len(),
            av == parts_view(ca@),
            bv == parts_view(cb@),
            components_order(av, bv) == components_order(av.skip(i as int), bv.skip(i as int)),
        decreases ca.len() - i,
    {
        let c = compare_component(&ca[i], &cb[i]);
        assert(av.skip(i as int)[0] == ca@[i as int]@);
        assert(bv.skip(i as int)[0] == cb@[i as int]@);
        if c != 0 {
            return c;
        }
        assert(av.skip(i as int).drop_first() =~= av.skip(i + 1));
        assert(bv.skip(i as int).drop_first() =~= bv.skip(i + 1));
        i = i + 1;
    }
    if i == ca.len() {
        assert(av.skip(i as int).len() == 0);
        if i == cb.len() {
            assert(bv.skip(i as int).len() == 0);
            0
        } else {
            -1
        }
    } else {
        assert(bv.skip(i as int).len() == 0);
        1
    }
}

/// Compares two paths as `Path` orders them.
pub fn compare_std_paths(a: &str, b: &str) -> (r: i8)
    ensures
        r as int == std_path_order(a@, b@),
{
    compare_component_lists(&path_std_components(&chars_of(a)), &path_std_components(&chars_of(b)))
}

fn pieces_equal(a: &Vec<Vec<char>>, b: &Vec<Vec<char>>) -> (r: bool)
    ensures
        r == (parts_view(a@) == parts_view(b@)),
{
    if a.len() != b.len() {
        return false;
    }
    let r = pieces_prefix(a, b);
    assert(parts_view(b@).take(b.len() as int) =~= parts_view(b@));
    r
}

/// Whether two paths are equal as `Path`s.
pub fn same_std_path(a: &str, b: &str) -> (r: bool)
    ensures
        r == same_path(a@, b@),
{
    proof {
        reveal(same_path);
    }
    pieces_equal(&path_std_components(&chars_of(a)), &path_std_components(&chars_of(b)))
}

/// Whether `path` lies under `base` (`Path::starts_with`): the components
/// of `base` begin those of `path`.
pub fn std_path_starts_with(path: &str, base: &str) -> (r: bool)
    ensures
        r == is_prefix_of(std_components(base@), std_components(path@)),
{
    pieces_prefix(&path_std_components(&chars_of(base)), &path_std_components(&chars_of(path)))
}

// ---------------------------------------------------------------------
// The order of paths is a strict total order
// ---------------------------------------------------------------------

/// Text order is antisymmetric, gives -1, 0 or 1, and 0 only on equal
/// strings.
pub proof fn lemma_text_order_facts(a: Seq<char>, b: Seq<char>)
    ensures
        text_order(a, b) == -text_order(b, a),
        -1 <= text_order(a, b) <= 1,
        text_order(a, b) == 0 <==> a == b,
    decreases a.len(),
{
    if a.len() > 0 && b.len() > 0 && a[0] == b[0] {
        lemma_text_order_facts(a.drop_first(), b.drop_first());
        if a.drop_first() == b.drop_first() {
            assert(a =~= seq![a[0]] + a.drop_first());
            assert(b =~= seq![b[0]] + b.drop_first());
        }
    }
    if a.len() == 0 && b.len() == 0 {
        assert(a =~= b);
    }
}

/// Text order is transitive.
pub proof fn lemma_text_order_trans(a: Seq<char>, b: Seq<char>, c: Seq<char>)
    requires
        text_order(a, b) < 0,
        text_order(b, c) < 0,
    ensures
        text_order(a, c) < 0,
    decreases a.len(),
{
    if a.len() > 0 && b.len() > 0 && c.len() > 0 && a[0] == b[0] && b[0] == c[0] {
        lemma_text_order_trans(a.drop_first(), b.drop_first(), c.drop_first());
    }
}

/// Component order is antisymmetric, gives -1, 0 or 1, and 0 only on
/// equal components.
pub proof fn lemma_component_order_facts(a: Seq<char>, b: Seq<char>)
    ensures
        component_order(a, b) == -component_order(b, a),
        -1 <= component_order(a, b) <= 1,
        component_order(a, b) == 0 <==> a == b,
{
    lemma_text_order_facts(a, b);
}

/// Component order is transitive.
pub proof fn lemma_component_order_trans(a: Seq<char>, b: Seq<char>, c: Seq<char>)
    requires
        component_order(a, b) < 0,
        component_order(b, c) < 0,
    ensures
        component_order(a, c) < 0,
{
    if component_rank(a) == 3 && component_rank(b) == 3 && component_rank(c) == 3 {
        lemma_text_order_trans(a, b, c);
    }
}

/// The order of component lists is antisymmetric, and 0 only on equal
/// lists.
pub proof fn lemma_components_order_facts(a: Seq<Seq<char>>, b: Seq<Seq<char>>)
    ensures
        components_order(a, b) == -components_order(b, a),
        components_order(a, b) == 0 <==> a == b,
    decreases a.len(),
{
    if a.len() > 0 && b.len() > 0 {
        lemma_component_order_facts(a[0], b[0]);
        if component_order(a[0], b[0]) == 0 {
            lemma_components_order_facts(a.drop_first(), b.drop_first());
            if a.drop_first() == b.drop_first() {
                assert(a =~= seq![a[0]] + a.drop_first());
                assert(b =~= seq![b[0]] + b.drop_first());
            }
        }
    }
    if a.len() == 0 && b.len() == 0 {
        assert(a =~= b);
    }
}

/// The order of component lists is transitive.
pub proof fn lemma_components_order_trans(a: Seq<Seq<char>>, b: Seq<Seq<char>>, c: Seq<Seq<char>>)
    requires
        components_order(a, b) < 0,
        components_order(b, c) < 0,
    ensures
        components_order(a, c) < 0,
    decreases a.len(),
{
    if a.len() > 0 && b.len() > 0 && c.len() > 0 {
        lemma_component_order_facts(a[0], b[0]);
        lemma_component_order_facts(b[0], c[0]);
        lemma_component_order_facts(a[0], c[0]);
        if component_order(a[0], b[0]) < 0 && component_order(b[0], c[0]) < 0 {
            lemma_component_order_trans(a[0], b[0], c[0]);
        } else if component_order(a[0], b[0]) == 0 && component_order(b[0], c[0]) == 0 {
            lemma_components_order_trans(a.drop_first(), b.drop_first(), c.drop_first());
        }
    }
}

/// `std_path_order` is antisymmetric, and 0 exactly on equal paths.
pub proof fn lemma_path_order_facts(a: Seq<char>, b: Seq<char>)
    ensures
        std_path_order(a, b) == -std_path_order(b, a),
        std_path_order(a, b) == 0 <==> same_path(a, b),
{
    reveal(same_path);
    lemma_components_order_facts(std_components(a), std_components(b));
}

/// Paths are ordered as `Path` orders them by a strict total order whose
/// ties are exactly the equal paths: swapping two paths flips the sign,
/// two paths tie only when they are equal as `Path`s, and the order is
/// transitive.
pub proof fn path_order_is_total(a: Seq<char>, b: Seq<char>, c: Seq<char>)
    ensures
        std_path_order(a, b) == -std_path_order(b, a),
        std_path_order(a, b) == 0 <==> same_path(a, b),
        std_path_order(a, b) < 0 && std_path_order(b, c) < 0 ==> std_path_order(a, c) < 0,
{
    lemma_path_order_facts(a, b);
    if std_path_order(a, b) < 0 && std_path_order(b, c) < 0 {
        lemma_components_order_trans(std_components(a), std_components(b), std_components(c));
    }
}

/// "Comes no later than" is transitive.
pub proof fn lemma_path_order_le_trans(a: Seq<char>, b: Seq<char>, c: Seq<char>)
    requires
        std_path_order(a, b) <= 0,
        std_path_order(b, c) <= 0,
    ensures
        std_path_order(a, c) <= 0,
{
    lemma_components_order_facts(std_components(a), std_components(b));
    lemma_components_order_facts(std_components(b), std_components(c));
    if std_path_order(a, b) < 0 && std_path_order(b, c) < 0 {
        lemma_components_order_trans(std_components(a), std_components(b), std_components(c));
    }
}

// ---------------------------------------------------------------------
// Where the components of a path lie
// ---------------------------------------------------------------------

/// The spans `(start, end)` of the non-empty `/`-separated pieces of `p`,
/// left to right.
pub open spec fn piece_spans(p: Seq<char>) -> Seq<(int, int)>
    decreases p.len(),
{
    if p.len() == 0 {
        seq![]
    } else if p.last() == '/' {
        piece_spans(p.drop_last())
    } else if p.len() >= 2 && p[p.len() - 2] != '/' {
        let prev = piece_spans(p.drop_last());
        prev.update(prev.len() - 1, (prev.last().0, p.len() as int))
    } else {
        piece_spans(p.drop_last()).push((p.len() - 1, p.len() as int))
    }
}

/// Spans of `p` in order, not empty, inside `p`.
pub open spec fn spans_ordered(p: Seq<char>, sp: Seq<(int, int)>) -> bool {
    &&& forall|i: int| 0 <= i < sp.len() ==> 0 <= #[trigger] sp[i].0 < sp[i].1 <= p.len()
    &&& forall|i: int, j: int| 0 <= i < j < sp.len() ==> #[trigger] sp[i].1 <= #[trigger] sp[j].0
}

/// Well-placed spans of `p`: in order, not empty, inside `p`, each
/// starting with a character other than `/`.
pub open spec fn spans_ok(p: Seq<char>, sp: Seq<(int, int)>) -> bool {
    &&& forall|i: int| 0 <= i < sp.len() ==> 0 <= #[trigger] sp[i].0 < sp[i].1 <= p.len() && p[sp[i].0] != '/'
    &&& forall|i: int, j: int| 0 <= i < j < sp.len() ==> #[trigger] sp[i].1 <= #[trigger] sp[j].0
}

/// The text of each span.
pub open spec fn span_texts(p: Seq<char>, sp: Seq<(int, int)>) -> Seq<Seq<char>> {
    sp.map_values(|s: (int, int)| p.subrange(s.0, s.1))
}

proof fn lemma_piece_spans(p: Seq<char>)
    ensures
        spans_ok(p, piece_spans(p)),
        p.len() > 0 && p.last() != '/' ==> {
            &&& component_state(p).1.len() > 0
            &&& piece_spans(p).len() == component_state(p).0.len() + 1
            &&& piece_spans(p).last().1 == p.len()
            &&& component_state(p).1 == p.subrange(piece_spans(p).last().0, p.len() as int)
        },
        !(p.len() > 0 && p.last() != '/') ==> {
            &&& component_state(p).1.len() == 0
            &&& piece_spans(p).len() == component_state(p).0.len()
        },
        forall|i: int| 0 <= i < component_state(p).0.len() ==> #[trigger] component_state(p).0[i] == p.subrange(
            piece_spans(p)[i].0,
            piece_spans(p)[i].1,
        ),
        piece_spans(p).len() > 0 ==> piece_spans(p).last().1 <= p.len(),
    decreases p.len(),
{
    if p.len() > 0 {
        let q = p.drop_last();
        lemma_piece_spans(q);
        let prev = piece_spans(q);
        let st = component_state(q);
        let n = p.len() as int;
        assert forall|i: int| 0 <= i < prev.len() implies #[trigger] prev[i].1 <= q.len() by {}
        assert forall|a: int, b: int| 0 <= a <= b <= q.len() implies p.subrange(a, b) == q.subrange(a, b) by {
            assert(p.subrange(a, b) =~= q.subrange(a, b));
        }
        if p.last() == '/' {
            if q.len() > 0 && q.last() != '/' {
                assert(component_state(p).0 == st.0.push(st.1));
            }
        } else if p.len() >= 2 && p[p.len() - 2] != '/' {
            assert(q.last() == p[p.len() - 2]);
            let sp = piece_spans(p);
            assert(sp == prev.update(prev.len() - 1, (prev.last().0, n)));
            assert(st.1.push(p.last()) =~= p.subrange(prev.last().0, n));
            assert forall|i: int, j: int| 0 <= i < j < sp.len() implies #[trigger] sp[i].1 <= #[trigger] sp[j].0 by {
                assert(prev[i].1 <= prev[j].0);
            }
        } else {
            assert(q.len() == 0 || q.last() == '/');
            let sp = piece_spans(p);
            assert(sp == prev.push((n - 1, n)));
            assert(component_state(p).1 =~= seq![p.last()]);
            assert(p.subrange(n - 1, n) =~= seq![p.last()]);
        }
    }
}

/// The spans of `sp` whose text is not `.`.
pub open spec fn named_spans(p: Seq<char>, sp: Seq<(int, int)>) -> Seq<(int, int)>
    decreases sp.len(),
{
    if sp.len() == 0 {
        seq![]
    } else if p.subrange(sp.last().0, sp.last().1) == cur_dir() {
        named_spans(p, sp.drop_last())
    } else {
        named_spans(p, sp.drop_last()).push(sp.last())
    }
}

/// Where the components of `p` (as `Path::components` yields them) lie:
/// the root is the first character.
pub open spec fn std_spans(p: Seq<char>) -> Seq<(int, int)> {
    let sp = piece_spans(p);
    if is_rooted(p) {
        seq![(0int, 1int)] + named_spans(p, sp)
    } else if sp.len() > 0 && p.subrange(sp[0].0, sp[0].1) == cur_dir() {
        seq![sp[0]] + named_spans(p, sp.drop_first())
    } else {
        named_spans(p, sp)
    }
}

/// The pieces of `p` are the texts of its spans.
proof fn lemma_components_spans(p: Seq<char>)
    ensures
        spans_ok(p, piece_spans(p)),
        components(p) == span_texts(p, piece_spans(p)),
{
    lemma_piece_spans(p);
    let st = component_state(p);
    let sp = piece_spans(p);
    if p.len() > 0 && p.last() != '/' {
        assert(components(p) == st.0.push(st.1));
        assert forall|i: int| 0 <= i < sp.len() implies #[trigger] components(p)[i] == p.subrange(sp[i].0, sp[i].1) by {
            if i < st.0.len() {
                assert(components(p)[i] == st.0[i]);
            } else {
                assert(sp[i] == sp.last());
            }
        }
    }
    assert(components(p) =~= span_texts(p, sp));
}

proof fn lemma_named_spans(p: Seq<char>, sp: Seq<(int, int)>)
    requires
        spans_ok(p, sp),
    ensures
        spans_ok(p, named_spans(p, sp)),
        named_parts(span_texts(p, sp)) == span_texts(p, named_spans(p, sp)),
        forall|i: int| 0 <= i < named_spans(p, sp).len() ==> exists|j: int| 0 <= j < sp.len() && sp[j] == #[trigger] named_spans(p, sp)[i],
        named_spans(p, sp).len() > 0 ==> named_spans(p, sp).last().1 <= sp.last().1,
    decreases sp.len(),
{
    if sp.len() > 0 {
        let t = sp.drop_last();
        assert(spans_ok(p, t)) by {
            assert forall|i: int| 0 <= i < t.len() implies 0 <= #[trigger] t[i].0 < t[i].1 <= p.len() && p[t[i].0] != '/' by {
                assert(t[i] == sp[i]);
            }
            assert forall|i: int, j: int| 0 <= i < j < t.len() implies #[trigger] t[i].1 <= #[trigger] t[j].0 by {
                assert(t[i] == sp[i] && t[j] == sp[j]);
            }
        }
        lemma_named_spans(p, t);
        assert(span_texts(p, sp).drop_last() =~= span_texts(p, t));
        assert(span_texts(p, sp).last() == p.subrange(sp.last().0, sp.last().1));
        let ns = named_spans(p, sp);
        let nt = named_spans(p, t);
        if p.subrange(sp.last().0, sp.last().1) != cur_dir() {
            assert(ns == nt.push(sp.last()));
            assert(span_texts(p, ns) =~= span_texts(p, nt).push(p.subrange(sp.last().0, sp.last().1)));
            assert forall|i: int| 0 <= i < nt.len() implies #[trigger] nt[i].1 <= sp.last().0 by {
                let j = choose|j: int| 0 <= j < t.len() && t[j] == nt[i];
                assert(sp[j] == t[j]);
            }
            assert forall|i: int| 0 <= i < ns.len() implies exists|j: int| 0 <= j < sp.len() && sp[j] == #[trigger] ns[i] by {
                if i < nt.len() {
                    let j = choose|j: int| 0 <= j < t.len() && t[j] == nt[i];
                    assert(sp[j] == t[j]);
                } else {
                    assert(sp[sp.len() - 1] == ns[i]);
                }
            }
        } else {
            assert forall|i: int| 0 <= i < ns.len() implies exists|j: int| 0 <= j < sp.len() && sp[j] == #[trigger] ns[i] by {
                let j = choose|j: int| 0 <= j < t.len() && t[j] == nt[i];
                assert(sp[j] == t[j]);
            }
            if nt.len() > 0 {
                assert(t.len() > 0);
                assert(t.last() == sp[sp.len() - 2]);
                assert(sp[sp.len() - 2].1 <= sp[sp.len() - 1].0);
            }
        }
    }
}

/// The components of `p` are the texts of their spans, which are well
/// placed.
pub proof fn lemma_std_spans(p: Seq<char>)
    ensures
        spans_ordered(p, std_spans(p)),
        std_components(p) == span_texts(p, std_spans(p)),
{
    lemma_components_spans(p);
    let sp = piece_spans(p);
    let c = components(p);
    if is_rooted(p) {
        lemma_named_spans(p, sp);
        let ns = named_spans(p, sp);
        let ss = std_spans(p);
        assert(p.subrange(0, 1) =~= root_component());
        assert(span_texts(p, ss) =~= seq![root_component()] + span_texts(p, ns));
        assert forall|i: int| 0 <= i < ns.len() implies #[trigger] ns[i].0 >= 1 by {
            let j = choose|j: int| 0 <= j < sp.len() && sp[j] == ns[i];
            assert(p[sp[j].0] != '/');
        }
        assert forall|i: int, j: int| 0 <= i < j < ss.len() implies #[trigger] ss[i].1 <= #[trigger] ss[j].0 by {
            if i > 0 {
                assert(ss[i] == ns[i - 1] && ss[j] == ns[j - 1]);
            } else {
                assert(ss[j] == ns[j - 1]);
            }
        }
        assert forall|i: int| 0 <= i < ss.len() implies 0 <= #[trigger] ss[i].0 < ss[i].1 <= p.len() by {
            if i > 0 {
                assert(ss[i] == ns[i - 1]);
            }
        }
    } else if sp.len() > 0 && p.subrange(sp[0].0, sp[0].1) == cur_dir() {
        let rest = sp.drop_first();
        assert(spans_ok(p, rest)) by {
            assert forall|i: int| 0 <= i < rest.len() implies 0 <= #[trigger] rest[i].0 < rest[i].1 <= p.len() && p[rest[i].0] != '/' by {
                assert(rest[i] == sp[i + 1]);
            }
            assert forall|i: int, j: int| 0 <= i < j < rest.len() implies #[trigger] rest[i].1 <= #[trigger] rest[j].0 by {
                assert(rest[i] == sp[i + 1] && rest[j] == sp[j + 1]);
            }
        }
        lemma_named_spans(p, rest);
        let ns = named_spans(p, rest);
        let ss = std_spans(p);
        assert(c[0] == cur_dir());
        assert(span_texts(p, rest) =~= c.drop_first());
        assert(span_texts(p, ss) =~= seq![cur_dir()] + span_texts(p, ns));
        assert forall|i: int| 0 <= i < ns.len() implies #[trigger] ns[i].0 >= sp[0].1 by {
            let j = choose|j: int| 0 <= j < rest.len() && rest[j] == ns[i];
            assert(rest[j] == sp[j + 1]);
        }
        assert forall|i: int, j: int| 0 <= i < j < ss.len() implies #[trigger] ss[i].1 <= #[trigger] ss[j].0 by {
            if i > 0 {
                assert(ss[i] == ns[i - 1] && ss[j] == ns[j - 1]);
            } else {
                assert(ss[j] == ns[j - 1]);
            }
        }
        assert forall|i: int| 0 <= i < ss.len() implies 0 <= #[trigger] ss[i].0 < ss[i].1 <= p.len() by {
            if i > 0 {
                assert(ss[i] == ns[i - 1]);
            }
        }
    } else {
        lemma_named_spans(p, sp);
        if sp.len() > 0 {
            assert(c[0] == p.subrange(sp[0].0, sp[0].1));
        }
    }
}

// ---------------------------------------------------------------------
// File name, parent and prefix, as `Path` gives them
// ---------------------------------------------------------------------

/// The view of a list of spans.
pub open spec fn spans_view(v: Seq<(usize, usize)>) -> Seq<(int, int)> {
    v.map_values(|s: (usize, usize)| (s.0 as int, s.1 as int))
}

fn piece_spans_of(p: &Vec<char>) -> (r: Vec<(usize, usize)>)
    ensures
        spans_view(r@) == piece_spans(p@),
{
    let mut r: Vec<(usize, usize)> = Vec::new();
    let mut i: usize = 0;
    while i < p.len()
        invariant
            i <= p.len(),
            spans_view(r@) == piece_spans(p@.take(i as int)),
        decreases p.len() - i,
    {
        let ghost q = p@.take(i as int);
        let ghost before = r@;
        assert(p@.take(i + 1).drop_last() =~= q);
        assert(p@.take(i + 1).last() == p@[i as int]);
        if p[i] == '/' {
        } else if i >= 1 && p[i - 1] != '/' {
            proof {
                lemma_piece_spans(q);
                assert(q.last() == p@[i - 1]);
                assert(p@.take(i + 1)[i - 1] == p@[i - 1]);
            }
            let last = r.len() - 1;
            let start = r[last].0;
            r.set(last, (start, i + 1));
            assert(spans_view(r@) =~= spans_view(before).update(last as int, (start as int, i + 1)));
        } else {
            proof {
                if i >= 1 {
                    assert(p@.take(i + 1)[i - 1] == p@[i - 1]);
                }
            }
            r.push((i, i + 1));
            assert(spans_view(r@) =~= spans_view(before).push((i as int, i + 1)));
        }
        i = i + 1;
    }
    assert(p@.take(p.len() as int) =~= p@);
    r
}

fn is_dot_span(p: &Vec<char>, s: (usize, usize)) -> (b: bool)
    requires
        s.0 < s.1 <= p.len(),
    ensures
        b == (p@.subrange(s.0 as int, s.1 as int) == cur_dir()),
{
    let b = s.1 - s.0 == 1 && p[s.0] == '.';
    proof {
        if b {
            assert(p@.subrange(s.0 as int, s.1 as int) =~= cur_dir());
        } else if p@.subrange(s.0 as int, s.1 as int) == cur_dir() {
            assert(p@.subrange(s.0 as int, s.1 as int)[0] == p@[s.0 as int]);
        }
    }
    b
}

fn named_spans_of(p: &Vec<char>, sp: &Vec<(usize, usize)>, from: usize) -> (r: Vec<(usize, usize)>)
    requires
        from <= sp.len(),
        spans_ordered(p@, spans_view(sp@)),
    ensures
        spans_view(r@) == named_spans(p@, spans_view(sp@).skip(from as int)),
{
    let ghost all = spans_view(sp@);
    let mut r: Vec<(usize, usize)> = Vec::new();
    let mut i: usize = from;
    assert(all.skip(from as int).take(0) =~= Seq::<(int, int)>::empty());
    while i < sp.len()
        invariant
            from <= i <= sp.len(),
            all == spans_view(sp@),
            spans_ordered(p@, all),
            spans_view(r@) == named_spans(p@, all.skip(from as int).take(i - from)),
        decreases sp.len() - i,
    {
        let ghost t = all.skip(from as int).take(i - from + 1);
        assert(t.drop_last() =~= all.skip(from as int).take(i - from));
        assert(t.last() == all[i as int]);
        assert(0 <= all[i as int].0 < all[i as int].1 <= p.len());
        let ghost before = r@;
        if !is_dot_span(p, sp[i]) {
            r.push(sp[i]);
            assert(spans_view(r@) =~= spans_view(before).push(all[i as int]));
        }
        i = i + 1;
    }
    assert(all.skip(from as int).take(sp.len() - from) =~= all.skip(from as int));
    r
}

/// Where the components of `p` lie.
fn std_spans_of(p: &Vec<char>) -> (r: Vec<(usize, usize)>)
    ensures
        spans_view(r@) == std_spans(p@),
{
    proof {
        lemma_piece_spans(p@);
    }
    let sp = piece_spans_of(p);
    let ghost all = spans_view(sp@);
    assert(all.skip(0) =~= all);
    if p.len() > 0 && p[0] == '/' {
        let mut r: Vec<(usize, usize)> = Vec::new();
        r.push((0, 1));
        assert(spans_view(r@) =~= seq![(0int, 1int)]);
        let named = named_spans_of(p, &sp, 0);
        let mut i: usize = 0;
        while i < named.len()
            invariant
                i <= named.len(),
                r.len() == i + 1,
                spans_view(r@) == seq![(0int, 1int)] + spans_view(named@).take(i as int),
            decreases named.len() - i,
        {
            let ghost before = r@;
            r.push(named[i]);
            assert(spans_view(r@) =~= spans_view(before).push(spans_view(named@)[i as int]));
            assert(spans_view(named@).take(i + 1) =~= spans_view(named@).take(i as int).push(spans_view(named@)[i as int]));
            assert(spans_view(r@) =~= seq![(0int, 1int)] + spans_view(named@).take(i + 1));
            i = i + 1;
        }
        assert(spans_view(named@).take(named.len() as int) =~= spans_view(named@));
        r
    } else if sp.len() > 0 && {
        assert(all[0] == (sp[0].0 as int, sp[0].1 as int));
        is_dot_span(p, sp[0])
    } {
        let mut r: Vec<(usize, usize)> = Vec::new();
        r.push(sp[0]);
        assert(spans_view(r@) =~= seq![all[0]]);
        let named = named_spans_of(p, &sp, 1);
        assert(all.skip(1) =~= all.drop_first());
        let mut i: usize = 0;
        while i < named.len()
            invariant
                i <= named.len(),
                r.len() == i + 1,
                spans_view(r@) == seq![all[0]] + spans_view(named@).take(i as int),
            decreases named.len() - i,
        {
            let ghost before = r@;
            r.push(named[i]);
            assert(spans_view(r@) =~= spans_view(before).push(spans_view(named@)[i as int]));
            assert(spans_view(named@).take(i + 1) =~= spans_view(named@).take(i as int).push(spans_view(named@)[i as int]));
            assert(spans_view(r@) =~= seq![all[0]] + spans_view(named@).take(i + 1));
            i = i + 1;
        }
        assert(spans_view(named@).take(named.len() as int) =~= spans_view(named@));
        r
    } else {
        named_spans_of(p, &sp, 0)
    }
}

/// The last component of `p` when it is a name (`Path::file_name`): none
/// for the root, `.` or `..`, or when `p` has no component.
pub open spec fn file_name(p: Seq<char>) -> Option<Seq<char>> {
    let named = named_parts(components(p));
    if named.len() == 0 || named.last() == parent_dir() {
        None
    } else {
        Some(named.last())
    }
}

/// The last component of `p`, when it is a name.
pub fn path_file_name(p: &Vec<char>) -> (r: Option<Vec<char>>)
    ensures
        match r {
            Some(n) => file_name(p@) == Some(n@),
            None => file_name(p@) is None,
        },
{
    let named = named_pieces(&path_components(p));
    if named.len() == 0 {
        return None;
    }
    let last = &named[named.len() - 1];
    if is_parent_dir(last) {
        None
    } else {
        Some(last.clone())
    }
}

/// The parent of `p` (`Path::parent`): none for a path without components
/// or for the root alone; otherwise `p` up to the end of its next-to-last
/// component (empty when there is none).
pub open spec fn parent(p: Seq<char>) -> Option<Seq<char>> {
    let c = std_components(p);
    let ss = std_spans(p);
    if c.len() == 0 || c.last() == root_component() {
        None
    } else if c.len() == 1 {
        Some(seq![])
    } else {
        Some(p.take(ss[ss.len() - 2].1))
    }
}

/// The parent of `p`.
pub fn path_parent(p: &Vec<char>) -> (r: Option<Vec<char>>)
    ensures
        match r {
            Some(s) => parent(p@) == Some(s@),
            None => parent(p@) is None,
        },
{
    proof {
        lemma_std_spans(p@);
    }
    let c = path_std_components(p);
    let n = c.len();
    if n == 0 {
        return None;
    }
    let last = &c[n - 1];
    if last.len() == 1 && last[0] == '/' {
        assert(last@ =~= root_component());
        return None;
    }
    if n == 1 {
        return Some(Vec::new());
    }
    let ss = std_spans_of(p);
    assert(spans_view(ss@)[n - 2] == (ss[n - 2].0 as int, ss[n - 2].1 as int));
    assert(p@.take(ss[n - 2].1 as int) =~= p@.subrange(0, ss[n - 2].1 as int));
    Some(slice_vec(p, 0, ss[n - 2].1))
}

/// `p` relative to `base` (`Path::strip_prefix`), when the components of
/// `base` begin those of `p`: `p` from its first component after them to
/// the end of its last component (the whole of `p` up to its last
/// component when `base` has none, empty when nothing is left).
pub open spec fn strip_prefix(p: Seq<char>, base: Seq<char>) -> Option<Seq<char>> {
    let cp = std_components(p);
    let cb = std_components(base);
    let ss = std_spans(p);
    if !is_prefix_of(cb, cp) {
        None
    } else if cb.len() == cp.len() {
        Some(seq![])
    } else if cb.len() == 0 {
        Some(p.take(ss.last().1))
    } else {
        Some(p.subrange(ss[cb.len() as int].0, ss.last().1))
    }
}

/// `p` relative to `base`.
pub fn path_strip_prefix(p: &Vec<char>, base: &Vec<char>) -> (r: Option<Vec<char>>)
    ensures
        match r {
            Some(s) => strip_prefix(p@, base@) == Some(s@),
            None => strip_prefix(p@, base@) is None,
        },
{
    proof {
        lemma_std_spans(p@);
    }
    let cp = path_std_components(p);
    let cb = path_std_components(base);
    if !pieces_prefix(&cb, &cp) {
        return None;
    }
    let k = cb.len();
    let n = cp.len();
    if k == n {
        return Some(Vec::new());
    }
    let ss = std_spans_of(p);
    let ghost sv = spans_view(ss@);
    assert(sv.len() == n);
    assert(sv.last() == (ss[n - 1].0 as int, ss[n - 1].1 as int));
    if k == 0 {
        assert(p@.take(ss[n - 1].1 as int) =~= p@.subrange(0, ss[n - 1].1 as int));
        Some(slice_vec(p, 0, ss[n - 1].1))
    } else {
        assert(sv[k as int] == (ss[k as int].0 as int, ss[k as int].1 as int));
        assert(sv[k as int].1 <= sv[n - 1].0 || k == n - 1);
        Some(slice_vec(p, ss[k].0, ss[n - 1].1))
    }
}

} // verus!
