//! Tags declared in a note's YAML front matter.
use vstd::prelude::*;
use yaml_rust::{Yaml, YamlLoader};
use crate::text::{
    chars_of, ends_with, find_first, first_occurrence, has_prefix, has_suffix, lowercase,
    lowercase_chars, slice_vec, starts_with, to_strings, trim, trimmed, chars_equal,
};

verus! {

broadcast use vstd::string::group_string_axioms;

// ---------------------------------------------------------------------
// The front matter block
// ---------------------------------------------------------------------

/// What follows the opening `---` line of a note, when it has one.
pub open spec fn after_opening(md: Seq<char>) -> Option<Seq<char>> {
    if !has_prefix(md, seq!['-', '-', '-']) {
        None
    } else {
        let b = md.skip(3);
        if has_prefix(b, seq!['\r', '\n']) {
            Some(b.skip(2))
        } else if has_prefix(b, seq!['\n']) {
            Some(b.skip(1))
        } else {
            None
        }
    }
}

/// Where the front matter ends in `body`: at the first `\n---\n`, else at
/// the first `\n---\r\n`, else before a final `\n---` or `\r\n---`.
pub open spec fn closing_index(body: Seq<char>) -> Option<int> {
    match first_occurrence(body, seq!['\n', '-', '-', '-', '\n']) {
        Some(e) => Some(e),
        None => match first_occurrence(body, seq!['\n', '-', '-', '-', '\r', '\n']) {
            Some(e) => Some(e),
            None => if has_suffix(body, seq!['\n', '-', '-', '-']) {
                Some(body.len() - 4)
            } else if has_suffix(body, seq!['\r', '\n', '-', '-', '-']) {
                Some(body.len() - 5)
            } else {
                None
            },
        },
    }
}

/// The YAML text between the `---` lines that open a note, when the note
/// starts with such a block.
pub open spec fn front_matter(md: Seq<char>) -> Option<Seq<char>> {
    match after_opening(md) {
        None => None,
        Some(body) => match closing_index(body) {
            Some(e) => Some(body.take(e)),
            None => None,
        },
    }
}

fn lit(s: &str) -> (r: Vec<char>)
    ensures
        r@ == s@,
{
    chars_of(s)
}

/// The YAML front matter of a note.
pub fn front_matter_block(markdown: &Vec<char>) -> (r: Option<Vec<char>>)
    ensures
        match r {
            Some(v) => front_matter(markdown@) == Some(v@),
            None => front_matter(markdown@) is None,
        },
{
    let dashes = lit("---");
    let crlf = lit("\r\n");
    let lf = lit("\n");
    proof {
        reveal_strlit("---");
        reveal_strlit("\r\n");
        reveal_strlit("\n");
        assert(dashes@ =~= seq!['-', '-', '-']);
        assert(crlf@ =~= seq!['\r', '\n']);
        assert(lf@ =~= seq!['\n']);
    }
    if !starts_with(markdown, &dashes) {
        return None;
    }
    let b = slice_vec(markdown, 3, markdown.len());
    assert(b@ =~= markdown@.skip(3));
    let body = if starts_with(&b, &crlf) {
        assert(b@.skip(2) =~= b@.subrange(2, b.len() as int));
        slice_vec(&b, 2, b.len())
    } else if starts_with(&b, &lf) {
        assert(b@.skip(1) =~= b@.subrange(1, b.len() as int));
        slice_vec(&b, 1, b.len())
    } else {
        return None;
    };
    assert(after_opening(markdown@) == Some(body@));
    let close1 = lit("\n---\n");
    let close2 = lit("\n---\r\n");
    let tail1 = lit("\n---");
    let tail2 = lit("\r\n---");
    proof {
        reveal_strlit("\n---\n");
        reveal_strlit("\n---\r\n");
        reveal_strlit("\n---");
        reveal_strlit("\r\n---");
        assert(close1@ =~= seq!['\n', '-', '-', '-', '\n']);
        assert(close2@ =~= seq!['\n', '-', '-', '-', '\r', '\n']);
        assert(tail1@ =~= seq!['\n', '-', '-', '-']);
        assert(tail2@ =~= seq!['\r', '\n', '-', '-', '-']);
    }
    let end = match find_first(&body, &close1) {
        Some(e) => e,
        None => match find_first(&body, &close2) {
            Some(e) => e,
            None => if ends_with(&body, &tail1) {
                body.len() - 4
            } else if ends_with(&body, &tail2) {
                body.len() - 5
            } else {
                return None;
            },
        },
    };
    assert(closing_index(body@) == Some(end as int));
    proof {
        crate::text::lemma_first_occurrence_bound(body@, close1@);
        crate::text::lemma_first_occurrence_bound(body@, close2@);
    }
    assert(body@.take(end as int) =~= body@.subrange(0, end as int));
    Some(slice_vec(&body, 0, end))
}

// ---------------------------------------------------------------------
// Inline tag lists
// ---------------------------------------------------------------------

/// Separators of an inline tag list.
pub open spec fn is_tag_separator(c: char) -> bool {
    c == ',' || c == ' '
}

/// Reading `s` from the left: the pieces completed so far, and the piece
/// being read.
pub open spec fn piece_state(s: Seq<char>) -> (Seq<Seq<char>>, Seq<char>)
    decreases s.len(),
{
    if s.len() == 0 {
        (seq![], seq![])
    } else {
        let prev = piece_state(s.drop_last());
        if is_tag_separator(s.last()) {
            (prev.0.push(prev.1), seq![])
        } else {
            (prev.0, prev.1.push(s.last()))
        }
    }
}

/// `s` split at every `,` and space, empty pieces included.
pub open spec fn tag_pieces(s: Seq<char>) -> Seq<Seq<char>> {
    let st = piece_state(s);
    st.0.push(st.1)
}

/// `s` without its leading `#` characters.
pub open spec fn strip_hashes(s: Seq<char>) -> Seq<char>
    decreases s.len(),
{
    if s.len() > 0 && s[0] == '#' {
        strip_hashes(s.drop_first())
    } else {
        s
    }
}

/// A tag name written as `value`: trimmed, leading `#`s removed, trimmed
/// again; none when nothing remains.
pub open spec fn normalized_tag(value: Seq<char>) -> Option<Seq<char>> {
    let n = trim(strip_hashes(trim(value)));
    if n.len() == 0 {
        None
    } else {
        Some(n)
    }
}

/// The tag names of `pieces`, in order, empty ones dropped.
pub open spec fn normalized_names(pieces: Seq<Seq<char>>) -> Seq<Seq<char>>
    decreases pieces.len(),
{
    if pieces.len() == 0 {
        seq![]
    } else {
        let prev = normalized_names(pieces.drop_last());
        match normalized_tag(pieces.last()) {
            Some(n) => prev.push(n),
            None => prev,
        }
    }
}

/// `tags` keeping only the first of the tags that are equal once
/// lowercased.
pub open spec fn dedupe(tags: Seq<Seq<char>>) -> Seq<Seq<char>>
    decreases tags.len(),
{
    if tags.len() == 0 {
        seq![]
    } else {
        let prev = dedupe(tags.drop_last());
        if exists|k: int| 0 <= k < tags.len() - 1 && lowercase(#[trigger] tags[k]) == lowercase(tags.last()) {
            prev
        } else {
            prev.push(tags.last())
        }
    }
}

/// The tags of an inline list such as `#rust, search notes`.
pub open spec fn inline_tags(value: Seq<char>) -> Seq<Seq<char>> {
    dedupe(normalized_names(tag_pieces(value)))
}

/// Every tag kept by `dedupe` is one of the given tags.
pub proof fn lemma_dedupe_members(tags: Seq<Seq<char>>)
    ensures
        dedupe(tags).len() <= tags.len(),
        forall|m: int| 0 <= m < dedupe(tags).len() ==> exists|k: int| 0 <= k < tags.len() && #[trigger] dedupe(tags)[m] == tags[k],
    decreases tags.len(),
{
    if tags.len() > 0 {
        let prev = tags.drop_last();
        lemma_dedupe_members(prev);
        assert forall|m: int| 0 <= m < dedupe(tags).len() implies exists|k: int| 0 <= k < tags.len() && #[trigger] dedupe(tags)[m] == tags[k] by {
            if m < dedupe(prev).len() {
                let k = choose|k: int| 0 <= k < prev.len() && dedupe(prev)[m] == prev[k];
                assert(tags[k] == prev[k]);
            } else {
                assert(dedupe(tags)[m] == tags[tags.len() - 1]);
            }
        }
    }
}

/// No two tags kept by `dedupe` are equal once lowercased.
pub proof fn dedupe_keeps_no_case_insensitive_repeats(tags: Seq<Seq<char>>)
    ensures
        forall|i: int, j: int|
            0 <= i < j < dedupe(tags).len() ==> lowercase(#[trigger] dedupe(tags)[i]) != lowercase(#[trigger] dedupe(tags)[j]),
    decreases tags.len(),
{
    if tags.len() > 0 {
        let prev = tags.drop_last();
        dedupe_keeps_no_case_insensitive_repeats(prev);
        lemma_dedupe_members(prev);
        let r = dedupe(tags);
        assert forall|i: int, j: int| 0 <= i < j < r.len() implies lowercase(#[trigger] r[i]) != lowercase(#[trigger] r[j]) by {
            if j >= dedupe(prev).len() {
                let k = choose|k: int| 0 <= k < prev.len() && dedupe(prev)[i] == prev[k];
                assert(tags[k] == prev[k]);
                assert(r[j] == tags.last());
                assert(!(lowercase(tags[k]) == lowercase(tags.last())));
            } else {
                assert(r[i] == dedupe(prev)[i]);
                assert(r[j] == dedupe(prev)[j]);
            }
        }
    }
}

/// Every given tag is represented, up to case, among the kept ones.
pub proof fn dedupe_keeps_every_tag_up_to_case(tags: Seq<Seq<char>>)
    ensures
        forall|k: int| 0 <= k < tags.len() ==> exists|m: int| 0 <= m < dedupe(tags).len() && lowercase(#[trigger] dedupe(tags)[m]) == lowercase(#[trigger] tags[k]),
    decreases tags.len(),
{
    if tags.len() > 0 {
        let prev = tags.drop_last();
        dedupe_keeps_every_tag_up_to_case(prev);
        let r = dedupe(tags);
        assert forall|k: int| 0 <= k < tags.len() implies exists|m: int| 0 <= m < r.len() && lowercase(#[trigger] r[m]) == lowercase(#[trigger] tags[k]) by {
            if k < tags.len() - 1 {
                assert(tags[k] == prev[k]);
                let m = choose|m: int| 0 <= m < dedupe(prev).len() && lowercase(#[trigger] dedupe(prev)[m]) == lowercase(prev[k]);
                assert(r[m] == dedupe(prev)[m]);
            } else if exists|k2: int| 0 <= k2 < tags.len() - 1 && lowercase(#[trigger] tags[k2]) == lowercase(tags.last()) {
                let k2 = choose|k2: int| 0 <= k2 < tags.len() - 1 && lowercase(#[trigger] tags[k2]) == lowercase(tags.last());
                assert(tags[k2] == prev[k2]);
                let m = choose|m: int| 0 <= m < dedupe(prev).len() && lowercase(#[trigger] dedupe(prev)[m]) == lowercase(prev[k2]);
                assert(r[m] == dedupe(prev)[m]);
            } else {
                assert(r[r.len() - 1] == tags.last());
            }
        }
    }
}

/// `value` split at `,` and spaces.
fn split_tag_pieces(value: &Vec<char>) -> (r: Vec<Vec<char>>)
    ensures
        r@.map_values(|w: Vec<char>| w@) == tag_pieces(value@),
{
    let mut done: Vec<Vec<char>> = Vec::new();
    let mut cur: Vec<char> = Vec::new();
    let mut i: usize = 0;
    while i < value.len()
        invariant
            i <= value.len(),
            done@.map_values(|w: Vec<char>| w@) == piece_state(value@.take(i as int)).0,
            cur@ == piece_state(value@.take(i as int)).1,
        decreases value.len() - i,
    {
        let c = value[i];
        assert(value@.take(i + 1).drop_last() =~= value@.take(i as int));
        if c == ',' || c == ' ' {
            let ghost old_done = done@;
            done.push(cur);
            cur = Vec::new();
            assert(done@.map_values(|w: Vec<char>| w@) =~= old_done.map_values(
                |w: Vec<char>| w@,
            ).push(piece_state(value@.take(i as int)).1));
        } else {
            cur.push(c);
        }
        i = i + 1;
    }
    assert(value@.take(value.len() as int) =~= value@);
    let ghost old_done = done@;
    done.push(cur);
    assert(done@.map_values(|w: Vec<char>| w@) =~= old_done.map_values(|w: Vec<char>| w@).push(
        piece_state(value@).1,
    ));
    done
}

/// `s` without its leading `#` characters.
pub fn without_leading_hashes(s: &Vec<char>) -> (r: Vec<char>)
    ensures
        r@ == strip_hashes(s@),
{
    let mut i: usize = 0;
    assert(s@.skip(0) =~= s@);
    while i < s.len() && s[i] == '#'
        invariant
            i <= s.len(),
            strip_hashes(s@) == strip_hashes(s@.skip(i as int)),
        decreases s.len() - i,
    {
        assert(s@.skip(i as int).drop_first() =~= s@.skip(i + 1));
        i = i + 1;
    }
    assert(s@.skip(i as int) =~= s@.subrange(i as int, s.len() as int));
    slice_vec(s, i, s.len())
}

/// The tag name written as `value`, if any.
pub fn normalize_tag_name(value: &Vec<char>) -> (r: Option<Vec<char>>)
    ensures
        match r {
            Some(n) => normalized_tag(value@) == Some(n@),
            None => normalized_tag(value@) is None,
        },
{
    let a = trimmed(value);
    let b = without_leading_hashes(&a);
    let n = trimmed(&b);
    if n.len() == 0 {
        None
    } else {
        Some(n)
    }
}

/// `tags` keeping only the first of the tags that are equal once
/// lowercased.
pub fn dedupe_tags(tags: Vec<Vec<char>>) -> (r: Vec<Vec<char>>)
    ensures
        r@.map_values(|w: Vec<char>| w@) == dedupe(tags@.map_values(|w: Vec<char>| w@)),
{
    let ghost tv = tags@.map_values(|w: Vec<char>| w@);
    let mut out: Vec<Vec<char>> = Vec::new();
    let mut seen: Vec<Vec<char>> = Vec::new();
    let mut i: usize = 0;
    while i < tags.len()
        invariant
            i <= tags.len(),
            tv == tags@.map_values(|w: Vec<char>| w@),
            seen.len() == i,
            forall|k: int| 0 <= k < i ==> #[trigger] seen@[k]@ == lowercase(tv[k]),
            out@.map_values(|w: Vec<char>| w@) == dedupe(tv.take(i as int)),
        decreases tags.len() - i,
    {
        let low = lowercase_chars(&tags[i]);
        let mut j: usize = 0;
        let mut found = false;
        while j < seen.len()
            invariant
                j <= seen.len(),
                seen.len() == i,
                found == exists|k: int| 0 <= k < j && seen@[k]@ == low@,
            decreases seen.len() - j,
        {
            if chars_equal(&seen[j], &low) {
                found = true;
            }
            j = j + 1;
        }
        let ghost tk = tv.take(i + 1);
        assert(tk.drop_last() =~= tv.take(i as int));
        assert(tk.last() == tv[i as int]);
        assert(found == exists|k: int| 0 <= k < tk.len() - 1 && lowercase(#[trigger] tk[k]) == lowercase(tk.last())) by {
            if found {
                let k = choose|k: int| 0 <= k < i && seen@[k]@ == low@;
                assert(tk[k] == tv[k]);
            }
            if exists|k: int| 0 <= k < tk.len() - 1 && lowercase(#[trigger] tk[k]) == lowercase(tk.last()) {
                let k = choose|k: int| 0 <= k < tk.len() - 1 && lowercase(#[trigger] tk[k]) == lowercase(tk.last());
                assert(tk[k] == tv[k]);
                assert(seen@[k]@ == low@);
            }
        }
        if !found {
            let ghost old_out = out@;
            out.push(tags[i].clone());
            assert(out@.map_values(|w: Vec<char>| w@) =~= old_out.map_values(|w: Vec<char>| w@).push(tv[i as int]));
        }
        seen.push(low);
        i = i + 1;
    }
    assert(tv.take(tags.len() as int) =~= tv);
    out
}

/// The tags of an inline list such as `#rust, search notes`.
pub fn parse_inline_tags(value: &Vec<char>) -> (r: Vec<Vec<char>>)
    ensures
        r@.map_values(|w: Vec<char>| w@) == inline_tags(value@),
        distinct_ignoring_case(r@.map_values(|w: Vec<char>| w@)),
{
    proof {
        inline_tags_distinct_ignoring_case(value@);
    }
    let pieces = split_tag_pieces(value);
    let ghost pv = pieces@.map_values(|w: Vec<char>| w@);
    let mut names: Vec<Vec<char>> = Vec::new();
    let mut i: usize = 0;
    while i < pieces.len()
        invariant
            i <= pieces.len(),
            pv == pieces@.map_values(|w: Vec<char>| w@),
            names@.map_values(|w: Vec<char>| w@) == normalized_names(pv.take(i as int)),
        decreases pieces.len() - i,
    {
        assert(pv.take(i + 1).drop_last() =~= pv.take(i as int));
        match normalize_tag_name(&pieces[i]) {
            Some(n) => {
                let ghost old = names@;
                names.push(n);
                assert(names@.map_values(|w: Vec<char>| w@) =~= old.map_values(|w: Vec<char>| w@).push(
                    normalized_tag(pv[i as int])->0,
                ));
            },
            None => {},
        }
        i = i + 1;
    }
    assert(pv.take(pieces.len() as int) =~= pv);
    dedupe_tags(names)
}


// ---------------------------------------------------------------------
// The `tags` entry of the YAML document
// ---------------------------------------------------------------------

/// What the first YAML document of a front matter holds under `tags`.
#[derive(Debug, PartialEq, Eq)]
pub enum YamlTags {
    /// No readable document, or `tags` is missing or neither a string nor
    /// a list.
    Absent,
    /// `tags` is a string.
    Text(String),
    /// `tags` is a list; string items are kept, other items are `None`.
    Items(Vec<Option<String>>),
}

/// A value of a YAML mapping, as far as tags are read from it.
#[derive(Debug, PartialEq, Eq)]
pub enum YamlValue {
    /// A string.
    Text(String),
    /// A list: string items are kept, other items are `None`.
    Items(Vec<Option<String>>),
    /// Anything else.
    Other,
}

/// A YAML document: a mapping, with its entries in order (the key when it
/// is a string), or anything else.
#[derive(Debug, PartialEq, Eq)]
pub enum YamlDocument {
    Mapping(Vec<(Option<String>, YamlValue)>),
    Other,
}

/// The documents `YamlLoader::load_from_str` reads from `text`, or none
/// when it reports an error.
pub uninterp spec fn yaml_documents(text: Seq<char>) -> Option<Seq<YamlDocument>>;

/// The deepest nesting of collections, by the bound below, that a front
/// matter may have for its tags to be read.
pub const MAX_YAML_NESTING: usize = 300;

/// A character that can begin a YAML collection: a block entry `-`, a
/// key `?`, a value `:`, or a flow bracket `[` or `{`.
pub open spec fn is_yaml_indicator(c: char) -> bool {
    c == '-' || c == '?' || c == ':' || c == '[' || c == '{'
}

/// How many characters of `s` can begin a YAML collection.
pub open spec fn yaml_indicator_count(s: Seq<char>) -> nat
    decreases s.len(),
{
    if s.len() == 0 {
        0
    } else {
        yaml_indicator_count(s.drop_last()) + if is_yaml_indicator(s.last()) {
            1nat
        } else {
            0nat
        }
    }
}

/// How many characters of `s` open a flow collection (`[` or `{`).
pub open spec fn flow_opening_count(s: Seq<char>) -> nat
    decreases s.len(),
{
    if s.len() == 0 {
        0
    } else {
        flow_opening_count(s.drop_last()) + if s.last() == '[' || s.last() == '{' {
            1nat
        } else {
            0nat
        }
    }
}

/// How many characters follow the last line feed of `s` (all of them
/// when it has none): the column of a character appended to `s`.
pub open spec fn end_column(s: Seq<char>) -> nat
    decreases s.len(),
{
    if s.len() == 0 {
        0
    } else if s.last() == '\n' {
        0
    } else {
        end_column(s.drop_last()) + 1
    }
}

/// One more than the largest column of a `-`, `?` or `:` in `s`, or 0
/// when it has none.
pub open spec fn block_indicator_reach(s: Seq<char>) -> nat
    decreases s.len(),
{
    if s.len() == 0 {
        0
    } else {
        let prev = block_indicator_reach(s.drop_last());
        let c = s.last();
        if (c == '-' || c == '?' || c == ':') && end_column(s.drop_last()) + 1 > prev {
            end_column(s.drop_last()) + 1
        } else {
            prev
        }
    }
}

/// A bound on how deep the collections that the YAML loader builds from
/// `s` nest, the trees that its aliases copy included.
///
/// - Every collection begins at an indicator of its own, so the count of
///   indicators bounds the depth, aliases included: a copied tree was
///   complete before the alias, so a path through it meets each
///   collection's beginning once.
/// - Without aliases (no `*`), the depth is at most the collections open
///   at once. Open block collections have strictly increasing indentation
///   columns, each at most the column of a `-`, `?` or `:` (a key lies
///   before its `:` on one line), and each block mapping holds at most one
///   sequence at its own indentation: at most twice the reach. Open flow
///   collections are each a bracket, or the single-pair mapping of an
///   entry of a flow sequence: at most twice the brackets.
pub open spec fn yaml_nesting_bound(s: Seq<char>) -> nat {
    let count = yaml_indicator_count(s);
    let shape = 2 * block_indicator_reach(s) + 2 * flow_opening_count(s);
    if !s.contains('*') && shape < count {
        shape
    } else {
        count
    }
}

/// Loads `text` with `yaml_rust::YamlLoader::load_from_str` and converts
/// each document: a `Yaml::Hash` becomes its entries (keys by
/// `Yaml::as_str`, `Yaml::String` values as text, `Yaml::Array` values
/// item by item by `Yaml::as_str`), anything else `Other`; a load error
/// gives `None`. The contract names the result `yaml_documents(text@)`
/// and states nothing more of it.
///
/// The loader recurses once per level of nesting (`Parser::load_node`,
/// `load_sequence`, `load_mapping`), and only flow nesting has a limit of
/// its own, so a text nested deeply enough in block style exhausts the
/// stack; so do the recursive clone and drop of deep trees. The `requires`
/// bounds the nesting (see `yaml_nesting_bound`) to what the stack of a
/// thread holds. Like every allocation, the copies that aliases make rest
/// on memory being available.
#[verifier::external_body]
fn load_yaml_documents(text: &str) -> (r: Option<Vec<YamlDocument>>)
    requires
        yaml_nesting_bound(text@) <= MAX_YAML_NESTING,
    ensures
        match r {
            Some(d) => yaml_documents(text@) == Some(d@),
            None => yaml_documents(text@) is None,
        },
{
    let value = |v: &Yaml| match v {
        Yaml::String(s) => YamlValue::Text(s.clone()),
        Yaml::Array(a) => YamlValue::Items(a.iter().map(|i| i.as_str().map(String::from)).collect()),
        _ => YamlValue::Other,
    };
    let docs = YamlLoader::load_from_str(text).ok()?;
    Some(docs.iter().map(|d| match d {
        Yaml::Hash(h) => YamlDocument::Mapping(h.iter().map(|(k, v)| (k.as_str().map(String::from), value(v))).collect()),
        _ => YamlDocument::Other,
    }).collect())
}

/// An entry key that is the string `tags`.
pub open spec fn is_tags_key(k: Option<String>) -> bool {
    match k {
        Some(s) => s@ == "tags"@,
        None => false,
    }
}

/// The position of the first `tags` entry, or -1.
pub open spec fn tags_index(entries: Seq<(Option<String>, YamlValue)>) -> int
    decreases entries.len(),
{
    if entries.len() == 0 {
        -1
    } else if is_tags_key(entries[0].0) {
        0
    } else if tags_index(entries.drop_first()) < 0 {
        -1
    } else {
        1 + tags_index(entries.drop_first())
    }
}

/// What the first document holds under `tags`: a string, a list, or
/// nothing (no document, no mapping, no `tags` entry, or another value).
pub open spec fn tags_entry(docs: Option<Seq<YamlDocument>>) -> YamlTags {
    match docs {
        Some(d) => if d.len() == 0 {
            YamlTags::Absent
        } else {
            match d[0] {
                YamlDocument::Mapping(entries) => if tags_index(entries@) < 0 {
                    YamlTags::Absent
                } else {
                    match entries@[tags_index(entries@)].1 {
                        YamlValue::Text(s) => YamlTags::Text(s),
                        YamlValue::Items(v) => YamlTags::Items(v),
                        YamlValue::Other => YamlTags::Absent,
                    }
                },
                YamlDocument::Other => YamlTags::Absent,
            }
        },
        None => YamlTags::Absent,
    }
}

fn is_tags(k: &Option<String>) -> (b: bool)
    ensures
        b == is_tags_key(*k),
{
    match k {
        Some(s) => {
            let b = chars_equal(&chars_of(s.as_str()), &chars_of("tags"));
            proof {
                reveal_strlit("tags");
            }
            b
        },
        None => false,
    }
}

proof fn lemma_tags_index_bound(entries: Seq<(Option<String>, YamlValue)>)
    ensures
        -1 <= tags_index(entries) < entries.len(),
    decreases entries.len(),
{
    if entries.len() > 0 {
        lemma_tags_index_bound(entries.drop_first());
    }
}

/// What the first of `docs` holds under `tags`.
pub fn yaml_tags_entry(docs: Option<Vec<YamlDocument>>) -> (r: YamlTags)
    ensures
        r == tags_entry(
            match docs {
                Some(d) => Some(d@),
                None => None,
            },
        ),
{
    match docs {
        None => YamlTags::Absent,
        Some(mut d) => {
            if d.len() == 0 {
                return YamlTags::Absent;
            }
            let first = d.remove(0);
            match first {
                YamlDocument::Other => YamlTags::Absent,
                YamlDocument::Mapping(mut entries) => {
                    let ghost ev = entries@;
                    let mut i: usize = 0;
                    assert(ev.skip(0) =~= ev);
                    while i < entries.len() && !is_tags(&entries[i].0)
                        invariant
                            i <= entries.len(),
                            ev == entries@,
                            tags_index(ev) == (if tags_index(ev.skip(i as int)) < 0 {
                                -1
                            } else {
                                i + tags_index(ev.skip(i as int))
                            }),
                        decreases entries.len() - i,
                    {
                        assert(ev.skip(i as int)[0] == ev[i as int]);
                        assert(ev.skip(i as int).drop_first() =~= ev.skip(i + 1));
                        i = i + 1;
                    }
                    if i == entries.len() {
                        assert(ev.skip(i as int).len() == 0);
                        return YamlTags::Absent;
                    }
                    assert(ev.skip(i as int)[0] == ev[i as int]);
                    let (_, value) = entries.remove(i);
                    match value {
                        YamlValue::Text(s) => YamlTags::Text(s),
                        YamlValue::Items(v) => YamlTags::Items(v),
                        YamlValue::Other => YamlTags::Absent,
                    }
                },
            }
        },
    }
}

proof fn lemma_push_has(s: Seq<char>, a: char, t: char)
    ensures
        s.push(a).contains(t) <==> (s.contains(t) || t == a),
{
    if s.contains(t) {
        let k = choose|k: int| 0 <= k < s.len() && s[k] == t;
        assert(s.push(a)[k] == t);
    }
    if t == a {
        assert(s.push(a)[s.len() as int] == a);
    }
    if s.push(a).contains(t) {
        let k = choose|k: int| 0 <= k < s.len() + 1 && s.push(a)[k] == t;
        if k < s.len() {
            assert(s[k] == t);
        }
    }
}

/// Whether the nesting of `s`, by `yaml_nesting_bound`, is at most
/// `MAX_YAML_NESTING`.
pub fn within_yaml_nesting_limit(s: &str) -> (b: bool)
    ensures
        b == (yaml_nesting_bound(s@) <= MAX_YAML_NESTING),
{
    let cs = chars_of(s);
    let ghost v = cs@;
    let mut count: usize = 0;
    let mut opens: usize = 0;
    let mut col: usize = 0;
    let mut reach: usize = 0;
    let mut star = false;
    let mut i: usize = 0;
    assert(v.take(0) =~= Seq::<char>::empty());
    while i < cs.len()
        invariant
            i <= cs.len(),
            v == cs@,
            v == s@,
            count == yaml_indicator_count(v.take(i as int)),
            opens == flow_opening_count(v.take(i as int)),
            col == end_column(v.take(i as int)),
            reach == block_indicator_reach(v.take(i as int)),
            star == v.take(i as int).contains('*'),
            count <= i,
            opens <= i,
            col <= i,
            reach <= i,
        decreases cs.len() - i,
    {
        let ghost p = v.take(i as int);
        assert(v.take(i + 1) =~= p.push(v[i as int]));
        assert(v.take(i + 1).drop_last() =~= p);
        let c = cs[i];
        proof {
            lemma_push_has(p, c, '*');
        }
        if c == '-' || c == '?' || c == ':' || c == '[' || c == '{' {
            count = count + 1;
        }
        if c == '[' || c == '{' {
            opens = opens + 1;
        }
        if (c == '-' || c == '?' || c == ':') && col + 1 > reach {
            reach = col + 1;
        }
        if c == '*' {
            star = true;
        }
        if c == '\n' {
            col = 0;
        } else {
            col = col + 1;
        }
        i = i + 1;
    }
    assert(v.take(cs.len() as int) =~= v);
    if count <= MAX_YAML_NESTING {
        true
    } else if star {
        false
    } else {
        reach <= MAX_YAML_NESTING / 2 && opens <= MAX_YAML_NESTING / 2 - reach
    }
}

/// What the first YAML document of a front matter holds under `tags`;
/// nothing when its nesting, by `yaml_nesting_bound`, exceeds
/// `MAX_YAML_NESTING`.
pub open spec fn front_matter_yaml_tags(front_matter: Seq<char>) -> YamlTags {
    if yaml_nesting_bound(front_matter) <= MAX_YAML_NESTING {
        tags_entry(yaml_documents(front_matter))
    } else {
        YamlTags::Absent
    }
}

/// What the first YAML document of `front_matter` holds under `tags`.
pub fn load_yaml_tags(front_matter: &str) -> (r: YamlTags)
    ensures
        r == front_matter_yaml_tags(front_matter@),
{
    if within_yaml_nesting_limit(front_matter) {
        yaml_tags_entry(load_yaml_documents(front_matter))
    } else {
        YamlTags::Absent
    }
}

/// The views of optional strings.
pub open spec fn option_views(v: Seq<Option<String>>) -> Seq<Option<Seq<char>>> {
    v.map_values(|o: Option<String>| match o {
        Some(s) => Some(s@),
        None => None,
    })
}

/// The inline tags of each string item, one list after the other.
pub open spec fn item_tags(items: Seq<Option<Seq<char>>>) -> Seq<Seq<char>>
    decreases items.len(),
{
    if items.len() == 0 {
        seq![]
    } else {
        let prev = item_tags(items.drop_last());
        match items.last() {
            Some(s) => prev + inline_tags(s),
            None => prev,
        }
    }
}

/// The tag names declared by a `tags` entry.
pub open spec fn tags_of(entry: YamlTags) -> Seq<Seq<char>> {
    match entry {
        YamlTags::Absent => seq![],
        YamlTags::Text(s) => inline_tags(s@),
        YamlTags::Items(v) => dedupe(item_tags(option_views(v@))),
    }
}

/// The tag names declared by a `tags` entry: the inline list of a string,
/// or the inline lists of the string items of a list, without repeats
/// that differ only in case.
pub fn tags_from_yaml(entry: &YamlTags) -> (r: Vec<String>)
    ensures
        r@.map_values(|s: String| s@) == tags_of(*entry),
        distinct_ignoring_case(r@.map_values(|s: String| s@)),
{
    proof {
        tags_distinct_ignoring_case(*entry);
    }
    match entry {
        YamlTags::Absent => Vec::new(),
        YamlTags::Text(s) => to_strings(&parse_inline_tags(&chars_of(s.as_str()))),
        YamlTags::Items(items) => {
            let ghost iv = option_views(items@);
            let mut all: Vec<Vec<char>> = Vec::new();
            let mut i: usize = 0;
            while i < items.len()
                invariant
                    i <= items.len(),
                    iv == option_views(items@),
                    all@.map_values(|w: Vec<char>| w@) == item_tags(iv.take(i as int)),
                decreases items.len() - i,
            {
                assert(iv.take(i + 1).drop_last() =~= iv.take(i as int));
                match &items[i] {
                    Some(s) => {
                        let more = parse_inline_tags(&chars_of(s.as_str()));
                        let ghost old = all@;
                        let mut j: usize = 0;
                        while j < more.len()
                            invariant
                                j <= more.len(),
                                all.len() == old.len() + j,
                                forall|k: int| 0 <= k < old.len() ==> #[trigger] all@[k]@ == old[k]@,
                                forall|k: int| 0 <= k < j ==> #[trigger] all@[old.len() + k]@ == more@[k]@,
                            decreases more.len() - j,
                        {
                            let w = more[j].clone();
                            assert(w@ == more@[j as int]@);
                            all.push(w);
                            j = j + 1;
                        }
                        let ghost lhs = all@.map_values(|w: Vec<char>| w@);
                        let ghost rhs = old.map_values(|w: Vec<char>| w@) + more@.map_values(
                            |w: Vec<char>| w@,
                        );
                        assert forall|k: int| 0 <= k < lhs.len() implies lhs[k] == rhs[k] by {
                            if k >= old.len() {
                                assert(all@[old.len() + (k - old.len())]@ == more@[k - old.len()]@);
                            } else {
                                assert(all@[k]@ == old[k]@);
                            }
                        }
                        assert(lhs =~= rhs);
                    },
                    None => {},
                }
                i = i + 1;
            }
            assert(iv.take(items.len() as int) =~= iv);
            to_strings(&dedupe_tags(all))
        },
    }
}

/// No two of `tags` are equal once lowercased.
pub open spec fn distinct_ignoring_case(tags: Seq<Seq<char>>) -> bool {
    forall|i: int, j: int| 0 <= i < j < tags.len() ==> lowercase(#[trigger] tags[i]) != lowercase(#[trigger] tags[j])
}

/// The tags of an inline list hold no two names equal once lowercased,
/// and every name the list writes (split at `,` and spaces, trimmed, its
/// leading `#`s removed) is among them up to case.
pub proof fn inline_tags_distinct_ignoring_case(value: Seq<char>)
    ensures
        distinct_ignoring_case(inline_tags(value)),
        forall|k: int|
            0 <= k < normalized_names(tag_pieces(value)).len() ==> exists|m: int|
                0 <= m < inline_tags(value).len() && lowercase(#[trigger] inline_tags(value)[m]) == lowercase(
                    #[trigger] normalized_names(tag_pieces(value))[k],
                ),
{
    let names = normalized_names(tag_pieces(value));
    let kept = inline_tags(value);
    assert(kept == dedupe(names));
    dedupe_keeps_no_case_insensitive_repeats(names);
    dedupe_keeps_every_tag_up_to_case(names);
    assert forall|k: int| 0 <= k < names.len() implies exists|m: int|
        0 <= m < kept.len() && lowercase(#[trigger] kept[m]) == lowercase(#[trigger] names[k]) by {
        let m = choose|m: int| 0 <= m < dedupe(names).len() && lowercase(#[trigger] dedupe(names)[m]) == lowercase(names[k]);
        assert(kept[m] == dedupe(names)[m]);
    }
}

/// The tags that any `tags` entry declares, as a string or as a list,
/// hold no two names equal once lowercased.
pub proof fn tags_distinct_ignoring_case(entry: YamlTags)
    ensures
        distinct_ignoring_case(tags_of(entry)),
{
    match entry {
        YamlTags::Absent => {},
        YamlTags::Text(s) => inline_tags_distinct_ignoring_case(s@),
        YamlTags::Items(v) => dedupe_keeps_no_case_insensitive_repeats(item_tags(option_views(v@))),
    }
}

/// Every name that the string items of a list entry write (each an
/// inline list) is among the entry's tags, up to case.
pub proof fn list_tags_keep_every_name(entry: YamlTags)
    ensures
        entry matches YamlTags::Items(v) ==> forall|k: int|
            0 <= k < item_tags(option_views(v@)).len() ==> exists|m: int|
                0 <= m < tags_of(entry).len() && lowercase(#[trigger] tags_of(entry)[m]) == lowercase(
                    #[trigger] item_tags(option_views(v@))[k],
                ),
{
    match entry {
        YamlTags::Items(v) => {
            let names = item_tags(option_views(v@));
            let kept = tags_of(entry);
            assert(kept == dedupe(names));
            dedupe_keeps_every_tag_up_to_case(names);
            assert forall|k: int| 0 <= k < names.len() implies exists|m: int|
                0 <= m < kept.len() && lowercase(#[trigger] kept[m]) == lowercase(#[trigger] names[k]) by {
                let m = choose|m: int|
                    0 <= m < dedupe(names).len() && lowercase(#[trigger] dedupe(names)[m]) == lowercase(names[k]);
                assert(kept[m] == dedupe(names)[m]);
            }
        },
        _ => {},
    }
}

/// The tags of a note's front matter hold no two names equal once
/// lowercased.
pub proof fn front_matter_tags_distinct_ignoring_case(markdown: Seq<char>)
    ensures
        distinct_ignoring_case(front_matter_tags(markdown)),
{
    match front_matter(markdown) {
        Some(fm) => tags_distinct_ignoring_case(front_matter_yaml_tags(fm)),
        None => {},
    }
}

/// The tags of a note as its front matter gives them.
pub open spec fn front_matter_tags(markdown: Seq<char>) -> Seq<Seq<char>> {
    match front_matter(markdown) {
        Some(fm) => tags_of(front_matter_yaml_tags(fm)),
        None => seq![],
    }
}

/// The tags that a note's YAML front matter declares under `tags`.
pub fn extract_front_matter_tags(markdown: &str) -> (r: Vec<String>)
    ensures
        r@.map_values(|s: String| s@) == front_matter_tags(markdown@),
        distinct_ignoring_case(r@.map_values(|s: String| s@)),
{
    proof {
        front_matter_tags_distinct_ignoring_case(markdown@);
    }
    let md = chars_of(markdown);
    match front_matter_block(&md) {
        None => Vec::new(),
        Some(fm) => {
            let text = crate::text::string_from(fm.as_slice());
            let entry = load_yaml_tags(text.as_str());
            tags_from_yaml(&entry)
        },
    }
}

} // verus!
