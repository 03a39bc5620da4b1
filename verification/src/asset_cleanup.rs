//! The workspace assets that deleting notes would leave unreferenced.
//! Paths are compared as `Path` compares them: component by component.
use vstd::prelude::*;
use crate::paths::{
    compare_std_paths, components_order, is_prefix_of, lemma_components_order_trans,
    lemma_path_order_facts, same_path, same_std_path, std_components, std_path_order,
    std_path_starts_with,
};

verus! {

broadcast use vstd::string::group_string_axioms;

// ---------------------------------------------------------------------
// Assets referenced by notes
// ---------------------------------------------------------------------

/// The view of a list of paths.
pub open spec fn paths_view(v: Seq<String>) -> Seq<Seq<char>> {
    v.map_values(|s: String| s@)
}

/// Some path of `out` equals `x` as a `Path`.
pub open spec fn has_same_path(out: Seq<Seq<char>>, x: Seq<char>) -> bool {
    exists|i: int| 0 <= i < out.len() && same_path(out[i], x)
}

fn contains_same_path(out: &[String], x: &str) -> (r: bool)
    ensures
        r == has_same_path(paths_view(out@), x@),
{
    let mut i: usize = 0;
    while i < out.len()
        invariant
            i <= out.len(),
            forall|k: int| 0 <= k < i ==> !same_path(#[trigger] paths_view(out@)[k], x@),
        decreases out.len() - i,
    {
        if same_std_path(out[i].as_str(), x) {
            assert(same_path(paths_view(out@)[i as int], x@));
            return true;
        }
        i = i + 1;
    }
    false
}

/// `out` followed by the targets that lie in `assets_dir` and that it does
/// not hold yet, in order.
pub open spec fn assets_added(out: Seq<Seq<char>>, assets_dir: Seq<char>, targets: Seq<Seq<char>>) -> Seq<Seq<char>>
    decreases targets.len(),
{
    if targets.len() == 0 {
        out
    } else {
        let prev = assets_added(out, assets_dir, targets.drop_last());
        let t = targets.last();
        if is_prefix_of(std_components(assets_dir), std_components(t)) && !has_same_path(prev, t) {
            prev.push(t)
        } else {
            prev
        }
    }
}

/// Adds to `output` the image targets of a note (those that exist as
/// files) that lie in the workspace's assets folder, each once.
pub fn add_existing_assets(assets_dir: &str, existing_targets: &[String], output: &mut Vec<String>)
    ensures
        paths_view(final(output)@) == assets_added(paths_view(old(output)@), assets_dir@, paths_view(existing_targets@)),
{
    let ghost start = paths_view(output@);
    let ghost tv = paths_view(existing_targets@);
    let mut i: usize = 0;
    while i < existing_targets.len()
        invariant
            i <= existing_targets.len(),
            tv == paths_view(existing_targets@),
            paths_view(output@) == assets_added(start, assets_dir@, tv.take(i as int)),
        decreases existing_targets.len() - i,
    {
        assert(tv.take(i + 1).drop_last() =~= tv.take(i as int));
        assert(tv.take(i + 1).last() == existing_targets@[i as int]@);
        let target = &existing_targets[i];
        if std_path_starts_with(target.as_str(), assets_dir) && !contains_same_path(output.as_slice(), target.as_str()) {
            let ghost before = output@;
            output.push(target.clone());
            assert(paths_view(output@) =~= paths_view(before).push(target@));
        }
        i = i + 1;
    }
    assert(tv.take(existing_targets.len() as int) =~= tv);
}

// ---------------------------------------------------------------------
// Orphaned assets
// ---------------------------------------------------------------------

/// The paths of `deleting` that no path of `retained` equals, in order.
pub open spec fn not_retained(deleting: Seq<Seq<char>>, retained: Seq<Seq<char>>) -> Seq<Seq<char>>
    decreases deleting.len(),
{
    if deleting.len() == 0 {
        seq![]
    } else if has_same_path(retained, deleting.last()) {
        not_retained(deleting.drop_last(), retained)
    } else {
        not_retained(deleting.drop_last(), retained).push(deleting.last())
    }
}

/// Where `x` goes in the sorted `out`: before the first path that comes
/// after it.
pub open spec fn insert_position(out: Seq<Seq<char>>, x: Seq<char>) -> int
    decreases out.len(),
{
    if out.len() == 0 {
        0
    } else if std_path_order(x, out[0]) < 0 {
        0
    } else {
        1 + insert_position(out.drop_first(), x)
    }
}

/// `out` with `x` put in its place, unless a path equal to it is there
/// already.
pub open spec fn insert_unique(out: Seq<Seq<char>>, x: Seq<char>) -> Seq<Seq<char>> {
    if has_same_path(out, x) {
        out
    } else {
        out.insert(insert_position(out, x), x)
    }
}

/// `s` sorted as `Path`s with equal paths dropped after the first one
/// (a stable sort followed by removing repeats).
pub open spec fn sorted_unique(s: Seq<Seq<char>>) -> Seq<Seq<char>>
    decreases s.len(),
{
    if s.len() == 0 {
        seq![]
    } else {
        insert_unique(sorted_unique(s.drop_last()), s.last())
    }
}

/// The assets that deleting notes leaves unreferenced: those of the
/// deleted notes that no remaining note references, sorted, each once.
pub open spec fn orphans(deleting: Seq<Seq<char>>, retained: Seq<Seq<char>>) -> Seq<Seq<char>> {
    sorted_unique(not_retained(deleting, retained))
}

proof fn lemma_insert_position_bound(out: Seq<Seq<char>>, x: Seq<char>)
    ensures
        0 <= insert_position(out, x) <= out.len(),
    decreases out.len(),
{
    if out.len() > 0 {
        lemma_insert_position_bound(out.drop_first(), x);
    }
}

fn insert_sorted_unique(out: &mut Vec<String>, x: &String)
    ensures
        paths_view(final(out)@) == insert_unique(paths_view(old(out)@), x@),
{
    if contains_same_path(out.as_slice(), x.as_str()) {
        return;
    }
    let ghost ov = paths_view(out@);
    let mut i: usize = 0;
    assert(ov.skip(0) =~= ov);
    while i < out.len() && compare_std_paths(x.as_str(), out[i].as_str()) >= 0
        invariant
            i <= out.len(),
            ov == paths_view(out@),
            insert_position(ov, x@) == i + insert_position(ov.skip(i as int), x@),
        decreases out.len() - i,
    {
        assert(ov.skip(i as int)[0] == out@[i as int]@);
        assert(ov.skip(i as int).drop_first() =~= ov.skip(i + 1));
        i = i + 1;
    }
    if i < out.len() {
        assert(ov.skip(i as int)[0] == out@[i as int]@);
    } else {
        assert(ov.skip(i as int).len() == 0);
    }
    out.insert(i, x.clone());
    assert(paths_view(out@) =~= ov.insert(i as int, x@));
}

/// The assets to delete along with notes: `deleting` (the assets the
/// deleted notes reference) less those that `retained` (the assets the
/// remaining notes reference) holds, sorted as paths, each once.
pub fn orphaned_assets(deleting: &[String], retained: &[String]) -> (r: Vec<String>)
    ensures
        paths_view(r@) == orphans(paths_view(deleting@), paths_view(retained@)),
{
    let ghost dv = paths_view(deleting@);
    let ghost rv = paths_view(retained@);
    let mut out: Vec<String> = Vec::new();
    let mut i: usize = 0;
    while i < deleting.len()
        invariant
            i <= deleting.len(),
            dv == paths_view(deleting@),
            rv == paths_view(retained@),
            paths_view(out@) == sorted_unique(not_retained(dv.take(i as int), rv)),
        decreases deleting.len() - i,
    {
        assert(dv.take(i + 1).drop_last() =~= dv.take(i as int));
        assert(dv.take(i + 1).last() == deleting@[i as int]@);
        let asset = &deleting[i];
        if !contains_same_path(retained, asset.as_str()) {
            assert(not_retained(dv.take(i + 1), rv) == not_retained(dv.take(i as int), rv).push(asset@));
            assert(not_retained(dv.take(i + 1), rv).drop_last() =~= not_retained(dv.take(i as int), rv));
            insert_sorted_unique(&mut out, asset);
        }
        i = i + 1;
    }
    assert(dv.take(deleting.len() as int) =~= dv);
    out
}

// ---------------------------------------------------------------------
// What the orphan list holds
// ---------------------------------------------------------------------

proof fn lemma_not_retained_members(d: Seq<Seq<char>>, rt: Seq<Seq<char>>)
    ensures
        forall|i: int| 0 <= i < not_retained(d, rt).len() ==> !has_same_path(rt, #[trigger] not_retained(d, rt)[i])
            && exists|j: int| 0 <= j < d.len() && d[j] == not_retained(d, rt)[i],
        forall|j: int| 0 <= j < d.len() && !has_same_path(rt, #[trigger] d[j]) ==> exists|i: int|
            0 <= i < not_retained(d, rt).len() && not_retained(d, rt)[i] == d[j],
    decreases d.len(),
{
    if d.len() > 0 {
        let t = d.drop_last();
        lemma_not_retained_members(t, rt);
        let prev = not_retained(t, rt);
        let nr = not_retained(d, rt);
        assert forall|i: int| 0 <= i < nr.len() implies !has_same_path(rt, #[trigger] nr[i]) && exists|j: int|
            0 <= j < d.len() && d[j] == nr[i] by {
            if i < prev.len() {
                assert(nr[i] == prev[i]);
                let j = choose|j: int| 0 <= j < t.len() && t[j] == prev[i];
                assert(d[j] == t[j]);
            } else {
                assert(nr[i] == d[d.len() - 1]);
            }
        }
        assert forall|j: int| 0 <= j < d.len() && !has_same_path(rt, #[trigger] d[j]) implies exists|i: int|
            0 <= i < nr.len() && nr[i] == d[j] by {
            if j < d.len() - 1 {
                assert(t[j] == d[j]);
                let i = choose|i: int| 0 <= i < prev.len() && prev[i] == t[j];
                assert(nr[i] == prev[i]);
            } else {
                assert(nr[prev.len() as int] == d[j]);
            }
        }
    }
}

proof fn lemma_insert_unique_members(prev: Seq<Seq<char>>, x: Seq<char>)
    requires
        !has_same_path(prev, x),
    ensures
        forall|i: int| 0 <= i < prev.len() ==> exists|k: int|
            0 <= k < insert_unique(prev, x).len() && insert_unique(prev, x)[k] == #[trigger] prev[i],
        forall|k: int| 0 <= k < insert_unique(prev, x).len() ==> #[trigger] insert_unique(prev, x)[k] == x
            || exists|i: int| 0 <= i < prev.len() && prev[i] == insert_unique(prev, x)[k],
        exists|k: int| 0 <= k < insert_unique(prev, x).len() && insert_unique(prev, x)[k] == x,
{
    let p = insert_position(prev, x);
    lemma_insert_position_bound(prev, x);
    let r = insert_unique(prev, x);
    assert(r == prev.insert(p, x));
    assert(r.len() == prev.len() + 1);
    assert forall|i: int| 0 <= i < prev.len() implies exists|k: int| 0 <= k < r.len() && r[k] == #[trigger] prev[i] by {
        if i < p {
            assert(r[i] == prev[i]);
        } else {
            assert(r[i + 1] == prev[i]);
        }
    }
    assert forall|k: int| 0 <= k < r.len() implies #[trigger] r[k] == x || exists|i: int| 0 <= i < prev.len() && prev[i] == r[k] by {
        if k < p {
            assert(r[k] == prev[k]);
        } else if k > p {
            assert(r[k] == prev[k - 1]);
        }
    }
    assert(r[p] == x);
}

proof fn lemma_sorted_unique_from_input(s: Seq<Seq<char>>)
    ensures
        forall|i: int| 0 <= i < sorted_unique(s).len() ==> exists|j: int|
            0 <= j < s.len() && s[j] == #[trigger] sorted_unique(s)[i],
    decreases s.len(),
{
    if s.len() > 0 {
        let t = s.drop_last();
        let x = s.last();
        lemma_sorted_unique_from_input(t);
        let prev = sorted_unique(t);
        let r = sorted_unique(s);
        if !has_same_path(prev, x) {
            lemma_insert_unique_members(prev, x);
        }
        assert forall|i: int| 0 <= i < r.len() implies exists|j: int| 0 <= j < s.len() && s[j] == #[trigger] r[i] by {
            if r[i] == x {
                assert(s[s.len() - 1] == r[i]);
            } else {
                let pi = choose|pi: int| 0 <= pi < prev.len() && prev[pi] == r[i];
                let j = choose|j: int| 0 <= j < t.len() && t[j] == prev[pi];
                assert(s[j] == t[j]);
            }
        }
    }
}

proof fn lemma_sorted_unique_covers(s: Seq<Seq<char>>)
    ensures
        forall|j: int| 0 <= j < s.len() ==> has_same_path(sorted_unique(s), #[trigger] s[j]),
    decreases s.len(),
{
    if s.len() > 0 {
        let t = s.drop_last();
        let x = s.last();
        lemma_sorted_unique_covers(t);
        let prev = sorted_unique(t);
        let r = sorted_unique(s);
        if !has_same_path(prev, x) {
            lemma_insert_unique_members(prev, x);
        }
        assert forall|j: int| 0 <= j < s.len() implies has_same_path(r, #[trigger] s[j]) by {
            if j < s.len() - 1 {
                assert(t[j] == s[j]);
                assert(has_same_path(prev, t[j]));
                let i = choose|i: int| 0 <= i < prev.len() && same_path(prev[i], t[j]);
                if has_same_path(prev, x) {
                    assert(r == prev);
                } else {
                    let k = choose|k: int| 0 <= k < r.len() && r[k] == prev[i];
                    assert(same_path(r[k], s[j]));
                }
            } else if !has_same_path(prev, x) {
                let k = choose|k: int| 0 <= k < r.len() && r[k] == x;
                reveal(same_path);
                assert(same_path(r[k], s[j]));
            }
        }
    }
}

// ---------------------------------------------------------------------
// The orphan list is sorted
// ---------------------------------------------------------------------

proof fn lemma_insert_position_facts(out: Seq<Seq<char>>, x: Seq<char>)
    ensures
        forall|k: int| 0 <= k < insert_position(out, x) ==> std_path_order(x, #[trigger] out[k]) >= 0,
        insert_position(out, x) < out.len() ==> std_path_order(x, out[insert_position(out, x)]) < 0,
    decreases out.len(),
{
    lemma_insert_position_bound(out, x);
    if out.len() > 0 && std_path_order(x, out[0]) >= 0 {
        let t = out.drop_first();
        lemma_insert_position_facts(t, x);
        lemma_insert_position_bound(t, x);
        assert forall|k: int| 0 <= k < insert_position(out, x) implies std_path_order(x, #[trigger] out[k]) >= 0 by {
            if k > 0 {
                assert(out[k] == t[k - 1]);
            }
        }
        if insert_position(out, x) < out.len() {
            assert(out[insert_position(out, x)] == t[insert_position(t, x)]);
        }
    }
}

/// Paths strictly ascending as `Path`s (so no two are equal).
pub open spec fn strictly_sorted(s: Seq<Seq<char>>) -> bool {
    forall|i: int, j: int| 0 <= i < j < s.len() ==> std_path_order(#[trigger] s[i], #[trigger] s[j]) < 0
}

proof fn lemma_insert_unique_sorted(prev: Seq<Seq<char>>, x: Seq<char>)
    requires
        strictly_sorted(prev),
        !has_same_path(prev, x),
    ensures
        strictly_sorted(insert_unique(prev, x)),
{
    let p = insert_position(prev, x);
    lemma_insert_position_bound(prev, x);
    lemma_insert_position_facts(prev, x);
    let r = insert_unique(prev, x);
    assert(r == prev.insert(p, x));
    assert forall|k: int| 0 <= k < r.len() implies #[trigger] r[k] == (if k < p {
        prev[k]
    } else if k == p {
        x
    } else {
        prev[k - 1]
    }) by {}
    assert forall|k: int| 0 <= k < p implies std_path_order(#[trigger] prev[k], x) < 0 by {
        lemma_path_order_facts(x, prev[k]);
        assert(!same_path(prev[k], x));
        lemma_path_order_facts(prev[k], x);
    }
    assert forall|k: int| p <= k < prev.len() implies std_path_order(x, #[trigger] prev[k]) < 0 by {
        if k > p {
            lemma_components_order_trans(std_components(x), std_components(prev[p]), std_components(prev[k]));
        }
    }
    assert forall|i: int, j: int| 0 <= i < j < r.len() implies std_path_order(#[trigger] r[i], #[trigger] r[j]) < 0 by {
        if i < p && j == p {
        } else if i == p {
            assert(r[j] == prev[j - 1]);
        } else {
            let pi = if i < p { i } else { i - 1 };
            let pj = if j < p { j } else { j - 1 };
            assert(r[i] == prev[pi] && r[j] == prev[pj]);
            assert(pi < pj);
        }
    }
}

proof fn lemma_sorted_unique_sorted(s: Seq<Seq<char>>)
    ensures
        strictly_sorted(sorted_unique(s)),
    decreases s.len(),
{
    if s.len() > 0 {
        lemma_sorted_unique_sorted(s.drop_last());
        if !has_same_path(sorted_unique(s.drop_last()), s.last()) {
            lemma_insert_unique_sorted(sorted_unique(s.drop_last()), s.last());
        }
    }
}

/// The orphan list holds exactly the assets that a deleted note references
/// and no remaining note does: each such asset once (up to `Path`
/// equality), each taken from the deleted notes' list, in ascending
/// `Path` order.
pub proof fn orphans_are_the_unreferenced_assets(deleting: Seq<Seq<char>>, retained: Seq<Seq<char>>)
    ensures
        forall|i: int| 0 <= i < orphans(deleting, retained).len() ==> !has_same_path(
            retained,
            #[trigger] orphans(deleting, retained)[i],
        ) && exists|j: int| 0 <= j < deleting.len() && deleting[j] == orphans(deleting, retained)[i],
        forall|j: int| 0 <= j < deleting.len() && !has_same_path(retained, #[trigger] deleting[j]) ==> has_same_path(
            orphans(deleting, retained),
            deleting[j],
        ),
        strictly_sorted(orphans(deleting, retained)),
{
    let nr = not_retained(deleting, retained);
    let o = orphans(deleting, retained);
    lemma_not_retained_members(deleting, retained);
    lemma_sorted_unique_from_input(nr);
    lemma_sorted_unique_covers(nr);
    lemma_sorted_unique_sorted(nr);
    assert forall|i: int| 0 <= i < o.len() implies !has_same_path(retained, #[trigger] o[i]) && exists|j: int|
        0 <= j < deleting.len() && deleting[j] == o[i] by {
        let m = choose|m: int| 0 <= m < nr.len() && nr[m] == o[i];
        assert(!has_same_path(retained, nr[m]));
        let j = choose|j: int| 0 <= j < deleting.len() && deleting[j] == nr[m];
    }
    assert forall|j: int| 0 <= j < deleting.len() && !has_same_path(retained, #[trigger] deleting[j]) implies has_same_path(
        o,
        deleting[j],
    ) by {
        let m = choose|m: int| 0 <= m < nr.len() && nr[m] == deleting[j];
        assert(has_same_path(o, nr[m]));
    }
}

} // verus!
