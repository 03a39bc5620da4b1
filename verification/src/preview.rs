//! The preview pane's local image links and its notices.
use vstd::prelude::*;
use crate::models::{text, tr, AppLanguage};
use crate::primitives::InlineAlertTone;
use crate::paths::{
    append_pieces, component_state, components, cur_dir, is_prefix_of, is_rooted, joined_parts,
    named_parts, named_pieces, parent_dir, parts_view, path_components, path_starts_with, path_text,
    path_text_chars, pieces_prefix, resolve_parts, resolve_pieces,
};
use crate::text::{chars_equal, chars_of, concat, slice_vec, string_from, trim, trimmed};

verus! {

broadcast use vstd::string::group_string_axioms;

// ---------------------------------------------------------------------
// Splitting a link target
// ---------------------------------------------------------------------

/// A character that starts the query or the fragment of a URL.
pub open spec fn is_url_mark(c: char) -> bool {
    c == '?' || c == '#'
}

/// The length of the path part of a link target: everything before its
/// first `?` or `#`.
pub open spec fn url_path_len(s: Seq<char>) -> nat
    decreases s.len(),
{
    if s.len() == 0 || is_url_mark(s[0]) {
        0
    } else {
        1 + url_path_len(s.drop_first())
    }
}

/// A character that ends the first segment of a link target.
pub open spec fn is_segment_end(c: char) -> bool {
    c == '/' || c == '\\' || is_url_mark(c)
}

/// The length of the first segment of a link target.
pub open spec fn first_segment_len(s: Seq<char>) -> nat
    decreases s.len(),
{
    if s.len() == 0 || is_segment_end(s[0]) {
        0
    } else {
        1 + first_segment_len(s.drop_first())
    }
}

/// Both lengths are lengths of prefixes.
pub proof fn lemma_prefix_lengths(s: Seq<char>)
    ensures
        url_path_len(s) <= s.len(),
        first_segment_len(s) <= s.len(),
        first_segment_len(s) <= url_path_len(s),
    decreases s.len(),
{
    if s.len() > 0 {
        lemma_prefix_lengths(s.drop_first());
    }
}

/// The index of the first `?` or `#` of `s`, or its length.
fn url_path_end(s: &Vec<char>) -> (i: usize)
    ensures
        i == url_path_len(s@),
{
    let mut i: usize = 0;
    assert(s@.skip(0) =~= s@);
    while i < s.len() && s[i] != '?' && s[i] != '#'
        invariant
            i <= s.len(),
            url_path_len(s@) == i + url_path_len(s@.skip(i as int)),
        decreases s.len() - i,
    {
        assert(s@.skip(i as int).drop_first() =~= s@.skip(i + 1));
        i = i + 1;
    }
    if i < s.len() {
        assert(s@.skip(i as int)[0] == s@[i as int]);
    } else {
        assert(s@.skip(i as int).len() == 0);
    }
    i
}

/// The index where the first segment of `s` ends.
fn first_segment_end(s: &Vec<char>) -> (i: usize)
    ensures
        i == first_segment_len(s@),
{
    let mut i: usize = 0;
    assert(s@.skip(0) =~= s@);
    while i < s.len() && s[i] != '/' && s[i] != '\\' && s[i] != '?' && s[i] != '#'
        invariant
            i <= s.len(),
            first_segment_len(s@) == i + first_segment_len(s@.skip(i as int)),
        decreases s.len() - i,
    {
        assert(s@.skip(i as int).drop_first() =~= s@.skip(i + 1));
        i = i + 1;
    }
    if i < s.len() {
        assert(s@.skip(i as int)[0] == s@[i as int]);
    } else {
        assert(s@.skip(i as int).len() == 0);
    }
    i
}

/// Splits a link target into its path part and the query or fragment
/// that follows it (which starts with `?` or `#`, or is empty).
pub fn split_url_path_suffix(target: &str) -> (r: (String, String))
    ensures
        r.0@ == target@.take(url_path_len(target@) as int),
        r.1@ == target@.skip(url_path_len(target@) as int),
{
    let chars = chars_of(target);
    let end = url_path_end(&chars);
    proof {
        lemma_prefix_lengths(target@);
    }
    let head = slice_vec(&chars, 0, end);
    let tail = slice_vec(&chars, end, chars.len());
    assert(head@ =~= target@.take(end as int));
    assert(tail@ =~= target@.skip(end as int));
    (string_from(head.as_slice()), string_from(tail.as_slice()))
}

/// A link target that names a file relative to the note: not empty, not
/// starting with `/` or `#`, and with no `:` (a scheme) in its first
/// segment.
pub open spec fn rewritable_relative_url(t: Seq<char>) -> bool {
    &&& t.len() > 0
    &&& t[0] != '/'
    &&& t[0] != '#'
    &&& !t.take(first_segment_len(t) as int).contains(':')
}

fn rewritable_chars(t: &Vec<char>) -> (b: bool)
    ensures
        b == rewritable_relative_url(t@),
{
    if t.len() == 0 || t[0] == '/' || t[0] == '#' {
        return false;
    }
    let end = first_segment_end(t);
    proof {
        lemma_prefix_lengths(t@);
    }
    let mut k: usize = 0;
    while k < end
        invariant
            end == first_segment_len(t@),
            end <= t.len(),
            k <= end,
            forall|j: int| 0 <= j < k ==> t@[j] != ':',
        decreases end - k,
    {
        if t[k] == ':' {
            assert(t@.take(end as int)[k as int] == ':');
            return false;
        }
        k = k + 1;
    }
    assert(!t@.take(end as int).contains(':')) by {
        if t@.take(end as int).contains(':') {
            let j = choose|j: int| 0 <= j < end && t@.take(end as int)[j] == ':';
            assert(t@[j] == ':');
        }
    }
    true
}

/// Whether a link target names a file relative to the note.
pub fn is_rewritable_relative_url(target: &str) -> (b: bool)
    ensures
        b == rewritable_relative_url(target@),
{
    rewritable_chars(&chars_of(target))
}

// ---------------------------------------------------------------------
// File URLs
// ---------------------------------------------------------------------

/// How one character of a path is written in a `file://` URL.
pub open spec fn encoded_char(c: char) -> Seq<char> {
    if c == ' ' {
        seq!['%', '2', '0']
    } else if c == '"' {
        seq!['%', '2', '2']
    } else if c == '#' {
        seq!['%', '2', '3']
    } else if c == '%' {
        seq!['%', '2', '5']
    } else if c == '?' {
        seq!['%', '3', 'F']
    } else if c == '<' {
        seq!['%', '3', 'C']
    } else if c == '>' {
        seq!['%', '3', 'E']
    } else {
        seq![c]
    }
}

/// A path as it is written in a `file://` URL.
pub open spec fn encoded_path(s: Seq<char>) -> Seq<char>
    decreases s.len(),
{
    if s.len() == 0 {
        seq![]
    } else {
        encoded_path(s.drop_last()) + encoded_char(s.last())
    }
}

/// `s` with every backslash replaced by `/`.
pub open spec fn forward_slashed(s: Seq<char>) -> Seq<char> {
    s.map_values(|c: char| if c == '\\' { '/' } else { c })
}

/// The `file://` URL of a path.
pub open spec fn file_url_for(path: Seq<char>) -> Seq<char> {
    seq!['f', 'i', 'l', 'e', ':', '/', '/'] + encoded_path(forward_slashed(path))
}

/// Percent-encodes the characters of a path that a `file://` URL cannot
/// hold as they are.
pub fn encode_file_url_path(path: &str) -> (r: String)
    ensures
        r@ == encoded_path(path@),
{
    let chars = chars_of(path);
    let mut out: Vec<char> = Vec::new();
    let mut i: usize = 0;
    while i < chars.len()
        invariant
            i <= chars.len(),
            chars@ == path@,
            out@ == encoded_path(chars@.take(i as int)),
        decreases chars.len() - i,
    {
        let c = chars[i];
        let ghost before = out@;
        assert(chars@.take(i + 1).drop_last() =~= chars@.take(i as int));
        assert(chars@.take(i + 1).last() == c);
        if c == ' ' {
            out.push('%');
            out.push('2');
            out.push('0');
        } else if c == '"' {
            out.push('%');
            out.push('2');
            out.push('2');
        } else if c == '#' {
            out.push('%');
            out.push('2');
            out.push('3');
        } else if c == '%' {
            out.push('%');
            out.push('2');
            out.push('5');
        } else if c == '?' {
            out.push('%');
            out.push('3');
            out.push('F');
        } else if c == '<' {
            out.push('%');
            out.push('3');
            out.push('C');
        } else if c == '>' {
            out.push('%');
            out.push('3');
            out.push('E');
        } else {
            out.push(c);
        }
        assert(out@ =~= before + encoded_char(c));
        i = i + 1;
    }
    assert(chars@.take(chars.len() as int) =~= chars@);
    string_from(out.as_slice())
}

/// The `file://` URL of a path: backslashes become `/` and the
/// characters a URL cannot hold are percent-encoded.
pub fn file_url(path: &str) -> (r: String)
    ensures
        r@ == file_url_for(path@),
{
    let text = chars_of(path);
    let mut slashed: Vec<char> = Vec::new();
    let mut i: usize = 0;
    while i < text.len()
        invariant
            i <= text.len(),
            text@ == path@,
            slashed@ == forward_slashed(text@).take(i as int),
        decreases text.len() - i,
    {
        if text[i] == '\\' {
            slashed.push('/');
        } else {
            slashed.push(text[i]);
        }
        assert(slashed@ =~= forward_slashed(text@).take(i + 1));
        i = i + 1;
    }
    assert(forward_slashed(text@).take(text.len() as int) =~= forward_slashed(text@));
    let encoded = encode_file_url_path(string_from(slashed.as_slice()).as_str());
    let mut scheme: Vec<char> = Vec::new();
    scheme.push('f');
    scheme.push('i');
    scheme.push('l');
    scheme.push('e');
    scheme.push(':');
    scheme.push('/');
    scheme.push('/');
    assert(scheme@ =~= seq!['f', 'i', 'l', 'e', ':', '/', '/']);
    let out = concat(&scheme, &chars_of(encoded.as_str()));
    string_from(out.as_slice())
}

/// A path with `.` components removed and each `..` applied to the
/// component before it, without looking at the disk.
pub open spec fn normalized_path(p: Seq<char>) -> Seq<char> {
    path_text(is_rooted(p), resolve_parts(components(p)))
}

/// Resolves `.` and `..` in a path lexically.
pub fn normalize_lexical(path: &str) -> (r: String)
    ensures
        r@ == normalized_path(path@),
{
    let p = chars_of(path);
    let parts = resolve_pieces(&path_components(&p));
    let rooted = p.len() > 0 && p[0] == '/';
    string_from(path_text_chars(rooted, &parts).as_slice())
}

/// Where a link target of a note points, as a `file://` URL, when it is a
/// relative path that stays inside the workspace; `None` otherwise.
///
/// The target is trimmed; its query or fragment is ignored; it is joined
/// to the note's directory and resolved lexically, and the result must
/// start with the lexically resolved workspace path.
pub open spec fn preview_image_url(url: Seq<char>, workspace: Seq<char>, note: Seq<char>) -> Option<Seq<char>> {
    let target = trim(url);
    let path_part = target.take(url_path_len(target) as int);
    let named = named_parts(components(note));
    let dir_rooted = is_rooted(note) && named.len() > 0;
    let dir_parts = if named.len() > 0 {
        named.drop_last()
    } else {
        named
    };
    let parts = resolve_parts(dir_parts + components(path_part));
    if !rewritable_relative_url(target) || path_part.len() == 0 {
        None
    } else if !path_starts_with(dir_rooted, parts, is_rooted(workspace), resolve_parts(components(workspace))) {
        None
    } else {
        Some(file_url_for(path_text(dir_rooted, parts)))
    }
}

/// The `file://` URL that the preview shows for an image link of a note,
/// when the link is a relative path inside the workspace.
pub fn local_preview_image_url(url: &str, workspace_path: &str, note_path: &str) -> (r: Option<String>)
    ensures
        match r {
            Some(u) => preview_image_url(url@, workspace_path@, note_path@) == Some(u@),
            None => preview_image_url(url@, workspace_path@, note_path@) is None,
        },
{
    let target = trimmed(&chars_of(url));
    if !rewritable_chars(&target) {
        return None;
    }
    let end = url_path_end(&target);
    proof {
        lemma_prefix_lengths(target@);
    }
    if end == 0 {
        return None;
    }
    let path_part = slice_vec(&target, 0, end);
    assert(path_part@ =~= target@.take(end as int));
    let note = chars_of(note_path);
    let named = named_pieces(&path_components(&note));
    let dir_rooted = note.len() > 0 && note[0] == '/' && named.len() > 0;
    let mut dir = named;
    if dir.len() > 0 {
        let ghost before = dir@;
        dir.pop();
        assert(parts_view(dir@) =~= parts_view(before).drop_last());
    }
    let parts = resolve_pieces(&append_pieces(&dir, &path_components(&path_part)));
    let ws = chars_of(workspace_path);
    let ws_parts = resolve_pieces(&path_components(&ws));
    let ws_rooted = ws.len() > 0 && ws[0] == '/';
    let inside = if ws_rooted {
        dir_rooted && pieces_prefix(&ws_parts, &parts)
    } else if ws_parts.len() == 0 {
        true
    } else {
        !dir_rooted && pieces_prefix(&ws_parts, &parts)
    };
    if !inside {
        return None;
    }
    let text = string_from(path_text_chars(dir_rooted, &parts).as_slice());
    Some(file_url(text.as_str()))
}

// ---------------------------------------------------------------------
// Normalizing twice
// ---------------------------------------------------------------------

/// A component as `components` yields it: not empty, and without `/`.
pub open spec fn good_part(w: Seq<char>) -> bool {
    w.len() > 0 && !w.contains('/')
}

/// A component that lexical resolution keeps as it is.
pub open spec fn plain_part(w: Seq<char>) -> bool {
    good_part(w) && w != cur_dir() && w != parent_dir()
}

proof fn lemma_component_state_good(p: Seq<char>)
    ensures
        forall|i: int| 0 <= i < component_state(p).0.len() ==> good_part(#[trigger] component_state(p).0[i]),
        !component_state(p).1.contains('/'),
    decreases p.len(),
{
    if p.len() > 0 {
        lemma_component_state_good(p.drop_last());
        let prev = component_state(p.drop_last());
        if p.last() != '/' {
            assert forall|k: int| 0 <= k < prev.1.push(p.last()).len() implies prev.1.push(p.last())[k] != '/' by {
                if k < prev.1.len() {
                    assert(prev.1[k] != '/');
                }
            }
        }
    }
}

proof fn lemma_components_good(p: Seq<char>)
    ensures
        forall|i: int| 0 <= i < components(p).len() ==> good_part(#[trigger] components(p)[i]),
{
    lemma_component_state_good(p);
}

proof fn lemma_resolve_plain(x: Seq<Seq<char>>)
    requires
        forall|i: int| 0 <= i < x.len() ==> good_part(#[trigger] x[i]),
    ensures
        forall|i: int| 0 <= i < resolve_parts(x).len() ==> plain_part(#[trigger] resolve_parts(x)[i]),
    decreases x.len(),
{
    if x.len() > 0 {
        assert(forall|i: int| 0 <= i < x.drop_last().len() ==> x.drop_last()[i] == x[i]);
        lemma_resolve_plain(x.drop_last());
        assert(good_part(x[x.len() - 1]));
        let prev = resolve_parts(x.drop_last());
        let r = resolve_parts(x);
        if x.last() == cur_dir() {
        } else if x.last() == parent_dir() {
            if prev.len() > 0 {
                assert(forall|i: int| 0 <= i < r.len() ==> r[i] == prev[i]);
            }
        } else {
            assert(forall|i: int| 0 <= i < prev.len() ==> r[i] == prev[i]);
            assert(r[prev.len() as int] == x.last());
        }
    }
}

proof fn lemma_resolve_of_plain(s: Seq<Seq<char>>)
    requires
        forall|i: int| 0 <= i < s.len() ==> plain_part(#[trigger] s[i]),
    ensures
        resolve_parts(s) == s,
    decreases s.len(),
{
    if s.len() > 0 {
        assert(forall|i: int| 0 <= i < s.drop_last().len() ==> s.drop_last()[i] == s[i]);
        lemma_resolve_of_plain(s.drop_last());
        assert(plain_part(s[s.len() - 1]));
        assert(s.drop_last().push(s.last()) =~= s);
    }
}

proof fn lemma_state_after_slash(a: Seq<char>)
    ensures
        component_state(a.push('/')) == (components(a), Seq::<char>::empty()),
{
    assert(a.push('/').drop_last() =~= a);
    let prev = component_state(a);
    if prev.1.len() == 0 {
        assert(prev.1 =~= Seq::<char>::empty());
    }
}

proof fn lemma_state_word(x: Seq<char>, w: Seq<char>)
    requires
        !w.contains('/'),
    ensures
        component_state(x + w) == (component_state(x).0, component_state(x).1 + w),
    decreases w.len(),
{
    if w.len() == 0 {
        assert(x + w =~= x);
        assert(component_state(x).1 + w =~= component_state(x).1);
    } else {
        assert(!w.drop_last().contains('/')) by {
            if w.drop_last().contains('/') {
                let k = choose|k: int| 0 <= k < w.drop_last().len() && w.drop_last()[k] == '/';
                assert(w[k] == '/');
            }
        }
        lemma_state_word(x, w.drop_last());
        assert((x + w).drop_last() =~= x + w.drop_last());
        assert((x + w).last() == w[w.len() - 1]);
        assert(w[w.len() - 1] != '/');
        assert(component_state(x).1 + w.drop_last() + seq![w.last()] =~= component_state(x).1 + w);
    }
}

proof fn lemma_components_of_joined(parts: Seq<Seq<char>>)
    requires
        forall|i: int| 0 <= i < parts.len() ==> good_part(#[trigger] parts[i]),
    ensures
        components(joined_parts(parts)) == parts,
        components(seq!['/'] + joined_parts(parts)) == parts,
    decreases parts.len(),
{
    let slash: Seq<char> = seq!['/'];
    if parts.len() == 0 {
        assert(slash + joined_parts(parts) =~= Seq::<char>::empty().push('/'));
        lemma_state_after_slash(Seq::<char>::empty());
        assert(components(Seq::<char>::empty()) =~= Seq::<Seq<char>>::empty());
        assert(component_state(Seq::<char>::empty()).1.len() == 0);
    } else {
        let w = parts.last();
        assert(good_part(parts[parts.len() - 1]));
        if parts.len() == 1 {
            lemma_state_word(Seq::<char>::empty(), w);
            assert(Seq::<char>::empty() + w =~= w);
            assert(seq![w] =~= parts);
            assert(Seq::<Seq<char>>::empty().push(w) =~= parts);
            lemma_state_after_slash(Seq::<char>::empty());
            assert(Seq::<char>::empty().push('/') =~= slash);
            assert(components(Seq::<char>::empty()) =~= Seq::<Seq<char>>::empty());
            lemma_state_word(slash, w);
        } else {
            let rest = parts.drop_last();
            assert(forall|i: int| 0 <= i < rest.len() ==> rest[i] == parts[i]);
            lemma_components_of_joined(rest);
            let j = joined_parts(rest);
            lemma_state_after_slash(j);
            lemma_state_word(j.push('/'), w);
            assert(j + seq!['/'] + w =~= j.push('/') + w);
            assert(rest.push(w) =~= parts);
            lemma_state_after_slash(slash + j);
            lemma_state_word((slash + j).push('/'), w);
            assert(slash + (j + seq!['/'] + w) =~= (slash + j).push('/') + w);
        }
    }
}

/// Normalizing a path a second time changes nothing.
pub proof fn normalize_lexical_idempotent(p: Seq<char>)
    ensures
        normalized_path(normalized_path(p)) == normalized_path(p),
{
    let parts = resolve_parts(components(p));
    lemma_components_good(p);
    lemma_resolve_plain(components(p));
    assert(forall|i: int| 0 <= i < parts.len() ==> good_part(#[trigger] parts[i]));
    lemma_components_of_joined(parts);
    lemma_resolve_of_plain(parts);
    let q = normalized_path(p);
    if is_rooted(p) {
        assert(is_rooted(q));
    } else {
        if parts.len() > 0 {
            assert(good_part(parts[0]));
            lemma_joined_starts(parts);
        }
        assert(!is_rooted(q));
    }
}

proof fn lemma_joined_starts(parts: Seq<Seq<char>>)
    requires
        parts.len() > 0,
        forall|i: int| 0 <= i < parts.len() ==> good_part(#[trigger] parts[i]),
    ensures
        joined_parts(parts).len() > 0,
        joined_parts(parts)[0] == parts[0][0],
    decreases parts.len(),
{
    assert(good_part(parts[0]));
    if parts.len() > 1 {
        let rest = parts.drop_last();
        assert(forall|i: int| 0 <= i < rest.len() ==> rest[i] == parts[i]);
        lemma_joined_starts(rest);
    }
}

// ---------------------------------------------------------------------
// Notices
// ---------------------------------------------------------------------

/// Where the rendering of a preview stands.
#[derive(Debug, Clone, Copy, PartialEq, Eq, Structural)]
pub enum CachedPreviewStatus {
    Pending,
    Ready,
    Failed,
}

/// What the preview does for a document of a given size.
#[derive(Debug, Clone, Copy, PartialEq, Eq, Structural)]
pub struct PreviewPolicy {
    pub byte_len: usize,
    pub code_highlighting_enabled: bool,
    pub live_preview_enabled: bool,
}

/// A rendered (or pending, or failed) preview of a document.
#[derive(Debug, Clone)]
pub struct CachedPreview {
    pub html: String,
    pub policy: PreviewPolicy,
    pub status: CachedPreviewStatus,
}

/// The notice shown above a preview, if any.
pub open spec fn notice_text(language: AppLanguage, status: CachedPreviewStatus, policy: PreviewPolicy) -> Option<Seq<char>> {
    match status {
        CachedPreviewStatus::Pending => Some(tr(language, "Rendering preview..."@, "正在渲染预览..."@)),
        CachedPreviewStatus::Failed => Some(tr(language, "Preview could not be rendered."@, "无法渲染预览。"@)),
        CachedPreviewStatus::Ready => if !policy.live_preview_enabled {
            Some(tr(
                language,
                "Large document mode keeps editing responsive by pausing live preview."@,
                "大文档模式会暂停实时预览，以保持编辑流畅。"@,
            ))
        } else if !policy.code_highlighting_enabled {
            Some(tr(
                language,
                "Large document mode keeps editing responsive by disabling code highlighting."@,
                "大文档模式会关闭代码高亮，以保持编辑流畅。"@,
            ))
        } else {
            None
        },
    }
}

/// The notice shown above a preview: while it renders, when it failed,
/// and when a large document pauses the live preview or code highlighting.
pub fn preview_notice(language: AppLanguage, preview: &CachedPreview) -> (r: Option<&'static str>)
    ensures
        match r {
            Some(t) => notice_text(language, preview.status, preview.policy) == Some(t@),
            None => notice_text(language, preview.status, preview.policy) is None,
        },
{
    match preview.status {
        CachedPreviewStatus::Pending => Some(text(language, "Rendering preview...", "正在渲染预览...")),
        CachedPreviewStatus::Failed => Some(text(language, "Preview could not be rendered.", "无法渲染预览。")),
        CachedPreviewStatus::Ready => if !preview.policy.live_preview_enabled {
            Some(
                text(
                    language,
                    "Large document mode keeps editing responsive by pausing live preview.",
                    "大文档模式会暂停实时预览，以保持编辑流畅。",
                ),
            )
        } else if !preview.policy.code_highlighting_enabled {
            Some(
                text(
                    language,
                    "Large document mode keeps editing responsive by disabling code highlighting.",
                    "大文档模式会关闭代码高亮，以保持编辑流畅。",
                ),
            )
        } else {
            None
        },
    }
}

/// The tone of a preview's notice.
pub open spec fn notice_tone(status: CachedPreviewStatus) -> InlineAlertTone {
    match status {
        CachedPreviewStatus::Failed => InlineAlertTone::Danger,
        CachedPreviewStatus::Pending => InlineAlertTone::Neutral,
        CachedPreviewStatus::Ready => InlineAlertTone::Attention,
    }
}

/// The tone of a preview's notice.
pub fn preview_notice_tone(preview: &CachedPreview) -> (r: InlineAlertTone)
    ensures
        r == notice_tone(preview.status),
{
    match preview.status {
        CachedPreviewStatus::Failed => InlineAlertTone::Danger,
        CachedPreviewStatus::Pending => InlineAlertTone::Neutral,
        CachedPreviewStatus::Ready => InlineAlertTone::Attention,
    }
}

/// The preview shown while a document renders with `policy`.
pub fn preview_pending(policy: PreviewPolicy) -> (r: CachedPreview)
    ensures
        r.html@ == Seq::<char>::empty(),
        r.policy == policy,
        r.status == CachedPreviewStatus::Pending,
{
    CachedPreview { html: String::new(), policy, status: CachedPreviewStatus::Pending }
}

/// The preview shown when rendering a document with `policy` failed.
pub fn preview_failed(policy: PreviewPolicy) -> (r: CachedPreview)
    ensures
        r.html@ == Seq::<char>::empty(),
        r.policy == policy,
        r.status == CachedPreviewStatus::Failed,
{
    CachedPreview { html: String::new(), policy, status: CachedPreviewStatus::Failed }
}

} // verus!
