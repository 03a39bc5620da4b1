//! Note files: titles, word counts, safe file names and free paths for
//! new, renamed, moved and restored notes and folders.
use vstd::prelude::*;
use crate::paths::{
    extension, file_name, file_stem, join, parent, path_exists, path_extension, path_file_name,
    path_file_stem, path_join, path_parent,
};
use crate::text::{
    chars_of, concat, decimal, decimal_chars, has_prefix, is_ws, lines, slice_vec, split_lines,
    split_words, starts_with, string_from, trim, trimmed, words,
};

verus! {

broadcast use vstd::string::group_string_axioms;

/// The title given by the first level-one heading of a note: the first
/// line whose trimmed text starts with `# ` and has a non-blank text
/// after it.
pub open spec fn heading_title(ls: Seq<Seq<char>>) -> Option<Seq<char>>
    decreases ls.len(),
{
    if ls.len() == 0 {
        None
    } else {
        let t = trim(ls[0]);
        if has_prefix(t, seq!['#', ' ']) && trim(t.skip(2)).len() > 0 {
            Some(trim(t.skip(2)))
        } else {
            heading_title(ls.drop_first())
        }
    }
}

/// The title of the note at `path` with text `content`: its first
/// level-one heading, else its file stem, else the empty string.
pub open spec fn note_title(path: Seq<char>, content: Seq<char>) -> Seq<char> {
    match heading_title(lines(content)) {
        Some(t) => t,
        None => match file_stem(path) {
            Some(s) => s,
            None => seq![],
        },
    }
}

/// The title of a note: the text of its first level-one heading (`# `
/// followed by non-blank text, wherever it stands, after front matter
/// too), else the file stem of its path.
pub fn extract_title(path: &str, content: &str) -> (title: String)
    ensures
        title@ == note_title(path@, content@),
{
    let text = chars_of(content);
    let ls = split_lines(&text);
    let ghost lsv = ls@.map_values(|w: Vec<char>| w@);
    let mut i: usize = 0;
    let mut hash: Vec<char> = Vec::new();
    hash.push('#');
    hash.push(' ');
    assert(hash@ =~= seq!['#', ' ']);
    assert(lsv.skip(0) =~= lsv);
    while i < ls.len()
        invariant
            i <= ls.len(),
            lsv == ls@.map_values(|w: Vec<char>| w@),
            lsv == lines(content@),
            hash@ == seq!['#', ' '],
            heading_title(lsv) == heading_title(lsv.skip(i as int)),
        decreases ls.len() - i,
    {
        let ghost rest = lsv.skip(i as int);
        assert(rest[0] == ls@[i as int]@);
        assert(rest.drop_first() =~= lsv.skip(i + 1));
        let t = trimmed(&ls[i]);
        if starts_with(&t, &hash) {
            let rest_t = slice_vec(&t, 2, t.len());
            assert(rest_t@ =~= t@.skip(2));
            let title = trimmed(&rest_t);
            if title.len() > 0 {
                return string_from(title.as_slice());
            }
        }
        i = i + 1;
    }
    assert(lsv.skip(i as int).len() == 0);
    let p = chars_of(path);
    match path_file_stem(&p) {
        Some(s) => string_from(s.as_slice()),
        None => String::new(),
    }
}

/// The number of whitespace-separated words of a note, as a `u32`.
pub fn count_words(content: &str) -> (n: u32)
    ensures
        n == words(content@).len() as u32,
{
    let text = chars_of(content);
    let ws = split_words(&text);
    assert(ws@.map_values(|w: Vec<char>| w@).len() == ws@.len());
    ws.len() as u32
}

/// Characters that are not allowed in file names.
pub open spec fn is_forbidden_name_char(c: char) -> bool {
    c == '\\' || c == '/' || c == ':' || c == '*' || c == '?' || c == '"' || c == '<' || c == '>'
        || c == '|'
}

/// A forbidden character becomes `_`.
pub open spec fn sanitize_char(c: char) -> char {
    if is_forbidden_name_char(c) {
        '_'
    } else {
        c
    }
}

/// A user-given name made safe for a file name: forbidden characters
/// replaced by `_`, then surrounding whitespace removed.
pub open spec fn sanitized(name: Seq<char>) -> Seq<char> {
    trim(name.map_values(|c: char| sanitize_char(c)))
}

/// A user-given name made safe for a file name.
pub fn sanitize_filename(name: &str) -> (r: String)
    ensures
        r@ == sanitized(name@),
{
    let cs = chars_of(name);
    let mut mapped: Vec<char> = Vec::new();
    let mut i: usize = 0;
    while i < cs.len()
        invariant
            i <= cs.len(),
            mapped@ == cs@.take(i as int).map_values(|c: char| sanitize_char(c)),
        decreases cs.len() - i,
    {
        let c = cs[i];
        let d = if c == '\\' || c == '/' || c == ':' || c == '*' || c == '?' || c == '"' || c
            == '<' || c == '>' || c == '|' {
            '_'
        } else {
            c
        };
        mapped.push(d);
        i = i + 1;
        assert(mapped@ =~= cs@.take(i as int).map_values(|c: char| sanitize_char(c)));
    }
    assert(cs@.take(cs.len() as int) =~= cs@);
    let t = trimmed(&mapped);
    string_from(t.as_slice())
}


/// Sanitizing a sanitized name changes nothing.
pub proof fn sanitize_filename_idempotent(name: Seq<char>)
    ensures
        sanitized(sanitized(name)) == sanitized(name),
{
    let m = name.map_values(|c: char| sanitize_char(c));
    let t = trim(m);
    crate::text::lemma_trim_chars_from(m);
    assert forall|i: int| 0 <= i < t.len() implies sanitize_char(#[trigger] t[i]) == t[i] by {
        let j = choose|j: int| 0 <= j < m.len() && m[j] == t[i];
        assert(!is_forbidden_name_char(m[j]));
    }
    assert(t.map_values(|c: char| sanitize_char(c)) =~= t);
    crate::text::lemma_trim_idempotent(m);
}

/// `stem (i)`: a name numbered to avoid a clash.
pub open spec fn numbered(stem: Seq<char>, i: nat) -> Seq<char> {
    stem + seq![' ', '('] + decimal(i) + seq![')']
}

/// The `i`-th path tried for a note `stem.ext` in `dir`: `dir/stem.ext`
/// first, then `dir/stem (i).ext`.
pub open spec fn note_path_candidate(dir: Seq<char>, stem: Seq<char>, ext: Seq<char>, i: nat) -> Seq<char> {
    if i == 0 {
        join(dir, stem + seq!['.'] + ext)
    } else {
        join(dir, numbered(stem, i) + seq!['.'] + ext)
    }
}

/// The `i`-th path tried for a folder `name` in `parent`.
pub open spec fn folder_path_candidate(parent_dir: Seq<char>, name: Seq<char>, i: nat) -> Seq<char> {
    if i == 0 {
        join(parent_dir, name)
    } else {
        join(parent_dir, numbered(name, i))
    }
}

/// The characters of `stem (i)`.
fn numbered_chars(stem: &Vec<char>, i: u64) -> (r: Vec<char>)
    ensures
        r@ == numbered(stem@, i as nat),
{
    let mut open: Vec<char> = Vec::new();
    open.push(' ');
    open.push('(');
    let mut close: Vec<char> = Vec::new();
    close.push(')');
    assert(open@ =~= seq![' ', '(']);
    assert(close@ =~= seq![')']);
    let a = concat(stem, &open);
    let b = concat(&a, &decimal_chars(i));
    concat(&b, &close)
}

/// The characters of `name.ext`.
fn with_extension(name: &Vec<char>, ext: &Vec<char>) -> (r: Vec<char>)
    ensures
        r@ == name@ + seq!['.'] + ext@,
{
    let mut dot: Vec<char> = Vec::new();
    dot.push('.');
    assert(dot@ =~= seq!['.']);
    let a = concat(name, &dot);
    concat(&a, ext)
}

/// `is_taken` can answer `b` when asked whether something is at `p`.
pub open spec fn answers<F: Fn(&str) -> bool>(is_taken: F, p: Seq<char>, b: bool) -> bool {
    exists|s: &str| s@ == p && call_ensures(is_taken, (s,), b)
}

/// `r` is the path a search for a free note path gives, asking `is_taken`:
/// the first of the candidates `0..=999` found free, every earlier one
/// found taken; candidate 0 when all are taken.
pub open spec fn first_free_note<F: Fn(&str) -> bool>(
    is_taken: F,
    dir: Seq<char>,
    stem: Seq<char>,
    ext: Seq<char>,
    r: Seq<char>,
) -> bool {
    ||| exists|k: nat|
        #![trigger note_path_candidate(dir, stem, ext, k)]
        k <= 999 && r == note_path_candidate(dir, stem, ext, k) && answers(
            is_taken,
            note_path_candidate(dir, stem, ext, k),
            false,
        ) && forall|j: nat| j < k ==> answers(is_taken, #[trigger] note_path_candidate(dir, stem, ext, j), true)
    ||| r == note_path_candidate(dir, stem, ext, 0) && forall|j: nat|
        j <= 999 ==> answers(is_taken, #[trigger] note_path_candidate(dir, stem, ext, j), true)
}

/// `r` is the path a search for a free folder path gives, asking `is_taken`.
pub open spec fn first_free_folder<F: Fn(&str) -> bool>(
    is_taken: F,
    parent_dir: Seq<char>,
    name: Seq<char>,
    r: Seq<char>,
) -> bool {
    ||| exists|k: nat|
        #![trigger folder_path_candidate(parent_dir, name, k)]
        k <= 999 && r == folder_path_candidate(parent_dir, name, k) && answers(
            is_taken,
            folder_path_candidate(parent_dir, name, k),
            false,
        ) && forall|j: nat| j < k ==> answers(is_taken, #[trigger] folder_path_candidate(parent_dir, name, j), true)
    ||| r == folder_path_candidate(parent_dir, name, 0) && forall|j: nat|
        j <= 999 ==> answers(is_taken, #[trigger] folder_path_candidate(parent_dir, name, j), true)
}

/// A path for a new note `stem.ext` in `dir`, asking `is_taken` whether each
/// candidate is taken: `dir/stem.ext`, else the first free `dir/stem (i).ext`
/// for `i` from 1 to 999, else `dir/stem.ext` again.
pub fn unique_path_with<F: Fn(&str) -> bool>(dir: &str, stem: &str, ext: &str, is_taken: F) -> (r: String)
    requires
        forall|s: &str| call_requires(is_taken, (s,)),
    ensures
        first_free_note(is_taken, dir@, stem@, ext@, r@),
        exists|i: nat| i <= 999 && r@ == #[trigger] note_path_candidate(dir@, stem@, ext@, i),
{
    let d = chars_of(dir);
    let s = chars_of(stem);
    let e = chars_of(ext);
    let first = string_from(path_join(&d, &with_extension(&s, &e)).as_slice());
    assert(first@ == note_path_candidate(dir@, stem@, ext@, 0));
    let mut i: u64 = 0;
    let mut candidate = first.clone();
    assert(candidate@ == first@);
    loop
        invariant
            i <= 999,
            d@ == dir@,
            s@ == stem@,
            e@ == ext@,
            first@ == note_path_candidate(dir@, stem@, ext@, 0),
            candidate@ == note_path_candidate(dir@, stem@, ext@, i as nat),
            forall|s: &str| call_requires(is_taken, (s,)),
            forall|j: nat| j < i ==> answers(is_taken, #[trigger] note_path_candidate(dir@, stem@, ext@, j), true),
        decreases 999 - i,
    {
        let asked = candidate.as_str();
        let taken = is_taken(asked);
        assert(call_ensures(is_taken, (asked,), taken));
        if !taken {
            assert(answers(is_taken, note_path_candidate(dir@, stem@, ext@, i as nat), false));
            return candidate;
        }
        assert(answers(is_taken, note_path_candidate(dir@, stem@, ext@, i as nat), true));
        if i == 999 {
            return first;
        }
        i = i + 1;
        candidate = string_from(path_join(&d, &with_extension(&numbered_chars(&s, i), &e)).as_slice());
    }
}

/// A path for a new note `stem.ext` in `dir` that no file takes yet:
/// `dir/stem.ext`, else the first free `dir/stem (i).ext` for `i` from 1
/// to 999, else `dir/stem.ext` again. Which one depends on the disk at
/// the moment of the call; `unique_path_with` states the choice.
pub fn unique_path(dir: &str, stem: &str, ext: &str) -> (r: String)
    ensures
        exists|i: nat| i <= 999 && r@ == #[trigger] note_path_candidate(dir@, stem@, ext@, i),
{
    unique_path_with(dir, stem, ext, |p: &str| path_exists(p))
}

/// A path for a new folder `name` in `parent_dir`, asking `is_taken` whether
/// each candidate is taken: `parent_dir/name`, else the first free
/// `parent_dir/name (i)` for `i` from 1 to 999, else `parent_dir/name`.
pub fn unique_folder_path_with<F: Fn(&str) -> bool>(parent_dir: &str, name: &str, is_taken: F) -> (r: String)
    requires
        forall|s: &str| call_requires(is_taken, (s,)),
    ensures
        first_free_folder(is_taken, parent_dir@, name@, r@),
        exists|i: nat| i <= 999 && r@ == #[trigger] folder_path_candidate(parent_dir@, name@, i),
{
    let d = chars_of(parent_dir);
    let n = chars_of(name);
    let first = string_from(path_join(&d, &n).as_slice());
    assert(first@ == folder_path_candidate(parent_dir@, name@, 0));
    let mut i: u64 = 0;
    let mut candidate = first.clone();
    loop
        invariant
            i <= 999,
            d@ == parent_dir@,
            n@ == name@,
            first@ == folder_path_candidate(parent_dir@, name@, 0),
            candidate@ == folder_path_candidate(parent_dir@, name@, i as nat),
            forall|s: &str| call_requires(is_taken, (s,)),
            forall|j: nat| j < i ==> answers(is_taken, #[trigger] folder_path_candidate(parent_dir@, name@, j), true),
        decreases 999 - i,
    {
        let asked = candidate.as_str();
        let taken = is_taken(asked);
        assert(call_ensures(is_taken, (asked,), taken));
        if !taken {
            assert(answers(is_taken, folder_path_candidate(parent_dir@, name@, i as nat), false));
            return candidate;
        }
        assert(answers(is_taken, folder_path_candidate(parent_dir@, name@, i as nat), true));
        if i == 999 {
            return first;
        }
        i = i + 1;
        candidate = string_from(path_join(&d, &numbered_chars(&n, i)).as_slice());
    }
}

/// A path for a new folder `name` in `parent_dir` that nothing takes yet:
/// `parent_dir/name`, else the first free `parent_dir/name (i)` for `i`
/// from 1 to 999, else `parent_dir/name` again. Which one depends on the
/// disk at the moment of the call; `unique_folder_path_with` states the
/// choice.
pub fn unique_folder_path(parent_dir: &str, name: &str) -> (r: String)
    ensures
        exists|i: nat| i <= 999 && r@ == #[trigger] folder_path_candidate(parent_dir@, name@, i),
{
    unique_folder_path_with(parent_dir, name, |p: &str| path_exists(p))
}

/// The value of an optional path part, or `default`.
pub open spec fn or_default(o: Option<Seq<char>>, default: Seq<char>) -> Seq<char> {
    match o {
        Some(v) => v,
        None => default,
    }
}

fn unwrap_chars_or(o: Option<Vec<char>>, default: &str) -> (r: Vec<char>)
    ensures
        r@ == or_default(
            match o {
                Some(v) => Some(v@),
                None => None,
            },
            default@,
        ),
{
    match o {
        Some(v) => v,
        None => chars_of(default),
    }
}

/// Where a new note named `name` goes in `dir` (the path `create_note`
/// writes): the sanitized name with extension `md`, made unique.
/// `is_taken` tells whether something is at a path; the first candidate
/// it finds free is taken.
pub fn new_note_path<F: Fn(&str) -> bool>(dir: &str, name: &str, is_taken: F) -> (r: String)
    requires
        forall|s: &str| call_requires(is_taken, (s,)),
    ensures
        first_free_note(is_taken, dir@, sanitized(name@), "md"@, r@),
        exists|i: nat| i <= 999 && r@ == #[trigger] note_path_candidate(dir@, sanitized(name@), "md"@, i),
{
    let stem = sanitize_filename(name);
    unique_path_with(dir, stem.as_str(), "md", is_taken)
}

/// The text of a new note at `path`: a heading with its file stem, then an
/// empty line.
pub open spec fn new_note_text(path: Seq<char>) -> Seq<char> {
    seq!['#', ' '] + or_default(file_stem(path), seq![]) + seq!['\n', '\n']
}

/// The text written into a new note at `path`.
pub fn new_note_content(path: &str) -> (r: String)
    ensures
        r@ == new_note_text(path@),
{
    let p = chars_of(path);
    let stem = unwrap_chars_or(path_file_stem(&p), "");
    let mut head: Vec<char> = Vec::new();
    head.push('#');
    head.push(' ');
    let mut tail: Vec<char> = Vec::new();
    tail.push('\n');
    tail.push('\n');
    assert(head@ =~= seq!['#', ' ']);
    assert(tail@ =~= seq!['\n', '\n']);
    assert(""@ =~= Seq::<char>::empty()) by {
        reveal_strlit("");
    }
    let a = concat(&head, &stem);
    string_from(concat(&a, &tail).as_slice())
}

/// Where a new folder named `name` goes in `parent_dir`.
/// `is_taken` tells whether something is at a path; the first candidate
/// it finds free is taken.
pub fn new_folder_path<F: Fn(&str) -> bool>(parent_dir: &str, name: &str, is_taken: F) -> (r: String)
    requires
        forall|s: &str| call_requires(is_taken, (s,)),
    ensures
        first_free_folder(is_taken, parent_dir@, sanitized(name@), r@),
        exists|i: nat| i <= 999 && r@ == #[trigger] folder_path_candidate(parent_dir@, sanitized(name@), i),
{
    let clean = sanitize_filename(name);
    unique_folder_path_with(parent_dir, clean.as_str(), is_taken)
}

/// Where the note at `path` goes when renamed to `new_name`: beside it
/// (or in `.` when it has no parent), under the sanitized name, unique.
/// `is_taken` tells whether something is at a path; the first candidate
/// it finds free is taken.
pub fn renamed_note_path<F: Fn(&str) -> bool>(path: &str, new_name: &str, is_taken: F) -> (r: String)
    requires
        forall|s: &str| call_requires(is_taken, (s,)),
    ensures
        first_free_note(is_taken, or_default(parent(path@), "."@), sanitized(new_name@), "md"@, r@),
        exists|i: nat| i <= 999 && r@ == #[trigger] note_path_candidate(
            or_default(parent(path@), "."@),
            sanitized(new_name@),
            "md"@,
            i,
        ),
{
    let p = chars_of(path);
    let dir = string_from(unwrap_chars_or(path_parent(&p), ".").as_slice());
    let stem = sanitize_filename(new_name);
    unique_path_with(dir.as_str(), stem.as_str(), "md", is_taken)
}

/// Where the folder at `path` goes when renamed to `new_name`.
/// `is_taken` tells whether something is at a path; the first candidate
/// it finds free is taken.
pub fn renamed_folder_path<F: Fn(&str) -> bool>(path: &str, new_name: &str, is_taken: F) -> (r: String)
    requires
        forall|s: &str| call_requires(is_taken, (s,)),
    ensures
        first_free_folder(is_taken, or_default(parent(path@), "."@), sanitized(new_name@), r@),
        exists|i: nat| i <= 999 && r@ == #[trigger] folder_path_candidate(
            or_default(parent(path@), "."@),
            sanitized(new_name@),
            i,
        ),
{
    let p = chars_of(path);
    let dir = string_from(unwrap_chars_or(path_parent(&p), ".").as_slice());
    let name = sanitize_filename(new_name);
    unique_folder_path_with(dir.as_str(), name.as_str(), is_taken)
}

/// Where the note at `path` goes when moved into `target_dir`: its stem
/// (or `Untitled`) with extension `md`, unique there.
/// `is_taken` tells whether something is at a path; the first candidate
/// it finds free is taken.
pub fn moved_note_path<F: Fn(&str) -> bool>(path: &str, target_dir: &str, is_taken: F) -> (r: String)
    requires
        forall|s: &str| call_requires(is_taken, (s,)),
    ensures
        first_free_note(is_taken, target_dir@, or_default(file_stem(path@), "Untitled"@), "md"@, r@),
        exists|i: nat| i <= 999 && r@ == #[trigger] note_path_candidate(
            target_dir@,
            or_default(file_stem(path@), "Untitled"@),
            "md"@,
            i,
        ),
{
    let p = chars_of(path);
    let stem = string_from(unwrap_chars_or(path_file_stem(&p), "Untitled").as_slice());
    unique_path_with(target_dir, stem.as_str(), "md", is_taken)
}

/// Where the folder at `path` goes when moved into `target_dir`: its name
/// (or `Folder`), unique there.
/// `is_taken` tells whether something is at a path; the first candidate
/// it finds free is taken.
pub fn moved_folder_path<F: Fn(&str) -> bool>(path: &str, target_dir: &str, is_taken: F) -> (r: String)
    requires
        forall|s: &str| call_requires(is_taken, (s,)),
    ensures
        first_free_folder(is_taken, target_dir@, or_default(file_name(path@), "Folder"@), r@),
        exists|i: nat| i <= 999 && r@ == #[trigger] folder_path_candidate(
            target_dir@,
            or_default(file_name(path@), "Folder"@),
            i,
        ),
{
    let p = chars_of(path);
    let name = string_from(unwrap_chars_or(path_file_name(&p), "Folder").as_slice());
    unique_folder_path_with(target_dir, name.as_str(), is_taken)
}

/// The `i`-th path tried when restoring a trashed note to `path`, which is
/// taken: `stem (i).ext` (or `stem (i)`) beside it, the stem defaulting to
/// `restored`.
pub open spec fn restore_candidate(path: Seq<char>, i: nat) -> Seq<char> {
    let dir = or_default(parent(path), seq![]);
    let stem = or_default(file_stem(path), "restored"@);
    match extension(path) {
        Some(e) => join(dir, numbered(stem, i) + seq!['.'] + e),
        None => join(dir, numbered(stem, i)),
    }
}

/// `r` is where a search for a free restore path gives, asking
/// `is_taken`: `path` when found free; else the first of the candidates
/// `1..=999` found free, every earlier one found taken; else `path`.
pub open spec fn first_free_restore<F: Fn(&str) -> bool>(is_taken: F, path: Seq<char>, r: Seq<char>) -> bool {
    ||| answers(is_taken, path, false) && r == path
    ||| answers(is_taken, path, true) && exists|k: nat|
        #![trigger restore_candidate(path, k)]
        1 <= k <= 999 && r == restore_candidate(path, k) && answers(is_taken, restore_candidate(path, k), false)
            && forall|j: nat| 1 <= j < k ==> answers(is_taken, #[trigger] restore_candidate(path, j), true)
    ||| answers(is_taken, path, true) && r == path && forall|j: nat|
        1 <= j <= 999 ==> answers(is_taken, #[trigger] restore_candidate(path, j), true)
}

/// Where a trashed note whose original place is `path` is restored,
/// asking `is_taken` whether each candidate is taken: `path` when free,
/// else the first free `restore_candidate` for `i` from 1 to 999, else
/// `path`.
pub fn unique_restore_path_with<F: Fn(&str) -> bool>(path: &str, is_taken: F) -> (r: String)
    requires
        forall|s: &str| call_requires(is_taken, (s,)),
    ensures
        first_free_restore(is_taken, path@, r@),
        r@ == path@ || exists|i: nat| 1 <= i <= 999 && r@ == #[trigger] restore_candidate(path@, i),
{
    let taken = is_taken(path);
    assert(call_ensures(is_taken, (path,), taken));
    if !taken {
        assert(answers(is_taken, path@, false));
        return path.to_owned();
    }
    assert(answers(is_taken, path@, true));
    let p = chars_of(path);
    let dir = unwrap_chars_or(path_parent(&p), "");
    assert(""@ =~= Seq::<char>::empty()) by {
        reveal_strlit("");
    }
    let stem = unwrap_chars_or(path_file_stem(&p), "restored");
    let ext = path_extension(&p);
    let mut i: u64 = 1;
    while i <= 999
        invariant
            1 <= i <= 1000,
            p@ == path@,
            answers(is_taken, path@, true),
            forall|s: &str| call_requires(is_taken, (s,)),
            dir@ == or_default(parent(path@), seq![]),
            stem@ == or_default(file_stem(path@), "restored"@),
            match ext {
                Some(e) => extension(path@) == Some(e@),
                None => extension(path@) is None,
            },
            forall|j: nat| 1 <= j < i ==> answers(is_taken, #[trigger] restore_candidate(path@, j), true),
        decreases 1000 - i,
    {
        let name = numbered_chars(&stem, i);
        let file = match &ext {
            Some(e) => with_extension(&name, e),
            None => name,
        };
        let candidate = string_from(path_join(&dir, &file).as_slice());
        assert(candidate@ == restore_candidate(path@, i as nat));
        let asked = candidate.as_str();
        let found = is_taken(asked);
        assert(call_ensures(is_taken, (asked,), found));
        if !found {
            assert(answers(is_taken, restore_candidate(path@, i as nat), false));
            return candidate;
        }
        assert(answers(is_taken, restore_candidate(path@, i as nat), true));
        i = i + 1;
    }
    path.to_owned()
}

/// Where a trashed note whose original place is `path` is restored:
/// `path` when free, else the first free `restore_candidate` for `i` from
/// 1 to 999, else `path`. Which one depends on the disk at the moment of
/// the call; `unique_restore_path_with` states the choice.
pub fn unique_restore_path(path: &str) -> (r: String)
    ensures
        r@ == path@ || exists|i: nat| 1 <= i <= 999 && r@ == #[trigger] restore_candidate(path@, i),
{
    unique_restore_path_with(path, |p: &str| path_exists(p))
}

} // verus!
