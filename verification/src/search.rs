//! Full-text search over the notes of a workspace: query tokens, match
//! highlights (as UTF-8 byte ranges) and per-note results.
use vstd::prelude::*;
use crate::paths::{compare_std_paths, lemma_path_order_facts, lemma_path_order_le_trans, std_path_order};
use crate::text::{
    byte_len, byte_offset, chars_of, concat, contains_chars, contains_seq, find_first,
    first_occurrence, lines, lowercase, lowercase_chars, split_lines, split_words, string_from,
    words, compare_text, text_order,
};

verus! {

broadcast use vstd::string::group_string_axioms;

/// A matched byte range `start..end` of a searched text.
#[derive(Debug, Clone, Copy, PartialEq, Eq, Structural)]
pub struct SearchHighlight {
    pub start: usize,
    pub end: usize,
}

/// Where a match was found.
#[derive(Debug, Clone, Copy, PartialEq, Eq, Structural)]
pub enum SearchField {
    Title,
    Path,
    Body,
}

/// One matched field of a note.
#[derive(Debug, Clone, PartialEq, Eq)]
pub struct SearchMatch {
    pub field: SearchField,
    /// The 1-based line number, for body matches.
    pub line: Option<usize>,
    pub snippet: String,
    pub highlights: Vec<SearchHighlight>,
}

impl View for SearchMatch {
    type V = (SearchField, Option<usize>, Seq<char>, Seq<SearchHighlight>);

    open spec fn view(&self) -> Self::V {
        (self.field, self.line, self.snippet@, self.highlights@)
    }
}

/// A note that matches a query.
#[derive(Debug, Clone, PartialEq, Eq)]
pub struct SearchResult {
    pub title: String,
    pub path: String,
    pub relative_path: String,
    pub matches: Vec<SearchMatch>,
}

/// The number of bytes of the UTF-8 encoding of `s`.
pub fn str_byte_len(s: &str) -> (n: usize)
    ensures
        n == byte_len(s@),
{
    proof {
        crate::text::lemma_encode_utf8_len(s@);
    }
    s.as_bytes().len()
}

// ---------------------------------------------------------------------
// Query tokens
// ---------------------------------------------------------------------

/// The non-empty strings of `s`, in order.
pub open spec fn non_empty(s: Seq<Seq<char>>) -> Seq<Seq<char>>
    decreases s.len(),
{
    if s.len() == 0 {
        seq![]
    } else if s.last().len() == 0 {
        non_empty(s.drop_last())
    } else {
        non_empty(s.drop_last()).push(s.last())
    }
}

/// The tokens of a query: its words, lowercased, empty ones dropped.
pub open spec fn query_token_list(query: Seq<char>) -> Seq<Seq<char>> {
    non_empty(words(query).map_values(|w: Seq<char>| lowercase(w)))
}

/// The lowercased words of `query`, as characters.
pub fn query_token_chars(query: &str) -> (r: Vec<Vec<char>>)
    ensures
        r@.map_values(|w: Vec<char>| w@) == query_token_list(query@),
{
    let q = chars_of(query);
    let ws = split_words(&q);
    let ghost wv = ws@.map_values(|w: Vec<char>| w@);
    let ghost lw = wv.map_values(|w: Seq<char>| lowercase(w));
    let mut r: Vec<Vec<char>> = Vec::new();
    let mut i: usize = 0;
    while i < ws.len()
        invariant
            i <= ws.len(),
            wv == ws@.map_values(|w: Vec<char>| w@),
            lw == wv.map_values(|w: Seq<char>| lowercase(w)),
            r@.map_values(|w: Vec<char>| w@) == non_empty(lw.take(i as int)),
        decreases ws.len() - i,
    {
        assert(lw.take(i + 1).drop_last() =~= lw.take(i as int));
        let low = lowercase_chars(&ws[i]);
        if low.len() > 0 {
            let ghost old = r@;
            r.push(low);
            assert(r@.map_values(|w: Vec<char>| w@) =~= old.map_values(|w: Vec<char>| w@).push(lw[i as int]));
        }
        i = i + 1;
    }
    assert(lw.take(ws.len() as int) =~= lw);
    r
}

/// The tokens of a search query.
pub fn query_tokens(query: &str) -> (r: Vec<String>)
    ensures
        r@.map_values(|s: String| s@) == query_token_list(query@),
{
    crate::text::to_strings(&query_token_chars(query))
}

/// Every token occurs in `haystack`.
pub open spec fn all_tokens_in(haystack: Seq<char>, tokens: Seq<Seq<char>>) -> bool {
    forall|i: int| 0 <= i < tokens.len() ==> contains_seq(haystack, #[trigger] tokens[i])
}

/// Whether every token occurs in `haystack`.
pub fn all_tokens_found(haystack: &Vec<char>, tokens: &Vec<Vec<char>>) -> (b: bool)
    ensures
        b == all_tokens_in(haystack@, tokens@.map_values(|w: Vec<char>| w@)),
{
    let mut i: usize = 0;
    while i < tokens.len()
        invariant
            i <= tokens.len(),
            forall|k: int| 0 <= k < i ==> contains_seq(haystack@, #[trigger] tokens@[k]@),
        decreases tokens.len() - i,
    {
        if !contains_chars(haystack, &tokens[i]) {
            assert(!contains_seq(haystack@, tokens@.map_values(|w: Vec<char>| w@)[i as int]));
            return false;
        }
        i = i + 1;
    }
    true
}

/// The text searched as a whole: `title path content`, lowercased.
pub open spec fn document_haystack(title: Seq<char>, path: Seq<char>, content: Seq<char>) -> Seq<char> {
    lowercase(title + seq![' '] + path + seq![' '] + content)
}

/// Whether a note mentions every token in its title, path or text
/// (ignoring case).
pub fn document_matches_all_tokens(title: &str, path: &str, content: &str, tokens: &Vec<Vec<char>>) -> (b: bool)
    ensures
        b == all_tokens_in(document_haystack(title@, path@, content@), tokens@.map_values(|w: Vec<char>| w@)),
{
    let mut sp: Vec<char> = Vec::new();
    sp.push(' ');
    assert(sp@ =~= seq![' ']);
    let a = concat(&chars_of(title), &sp);
    let b = concat(&a, &chars_of(path));
    let c = concat(&b, &sp);
    let d = concat(&c, &chars_of(content));
    let hay = lowercase_chars(&d);
    all_tokens_found(&hay, tokens)
}

// ---------------------------------------------------------------------
// Highlights
// ---------------------------------------------------------------------

/// `s` with `x` inserted after the entries whose start is at most
/// `x.start` at its end (one step of a stable sort by start).
pub open spec fn insert_by_start(s: Seq<SearchHighlight>, x: SearchHighlight) -> Seq<SearchHighlight>
    decreases s.len(),
{
    if s.len() == 0 {
        seq![x]
    } else if s.last().start <= x.start {
        s.push(x)
    } else {
        insert_by_start(s.drop_last(), x).push(s.last())
    }
}

/// `s` stably sorted by start.
pub open spec fn sort_by_start(s: Seq<SearchHighlight>) -> Seq<SearchHighlight>
    decreases s.len(),
{
    if s.len() == 0 {
        seq![]
    } else {
        insert_by_start(sort_by_start(s.drop_last()), s.last())
    }
}

/// The entries of `s` in order of their start, equal starts kept in
/// their order.
pub fn sort_highlights(s: &Vec<SearchHighlight>) -> (r: Vec<SearchHighlight>)
    ensures
        r@ == sort_by_start(s@),
{
    let mut out: Vec<SearchHighlight> = Vec::new();
    let mut i: usize = 0;
    while i < s.len()
        invariant
            i <= s.len(),
            out@ == sort_by_start(s@.take(i as int)),
        decreases s.len() - i,
    {
        let x = s[i];
        assert(s@.take(i + 1).drop_last() =~= s@.take(i as int));
        let mut j: usize = out.len();
        assert(out@.take(j as int) =~= out@);
        assert(out@.skip(j as int) =~= Seq::<SearchHighlight>::empty());
        while j > 0 && out[j - 1].start > x.start
            invariant
                j <= out.len(),
                insert_by_start(out@, x) == insert_by_start(out@.take(j as int), x) + out@.skip(j as int),
            decreases j,
        {
            assert(out@.take(j as int).drop_last() =~= out@.take(j - 1));
            assert(out@.skip(j - 1) =~= seq![out@[j - 1]] + out@.skip(j as int));
            assert(insert_by_start(out@.take(j as int), x) == insert_by_start(out@.take(j - 1), x).push(out@[j - 1]));
            assert(insert_by_start(out@.take(j - 1), x).push(out@[j - 1]) + out@.skip(j as int) =~= insert_by_start(out@.take(j - 1), x) + out@.skip(j - 1));
            j = j - 1;
        }
        let ghost before = out@;
        proof {
            if j > 0 {
                assert(out@.take(j as int).last() == out@[j - 1]);
            } else {
                assert(out@.take(0) =~= Seq::<SearchHighlight>::empty());
            }
        }
        assert(insert_by_start(before.take(j as int), x) =~= before.take(j as int).push(x));
        out.insert(j, x);
        assert(out@ =~= before.take(j as int).push(x) + before.skip(j as int));
        i = i + 1;
    }
    assert(s@.take(s.len() as int) =~= s@);
    out
}

/// The highlight of the first occurrence of each token in `lower` that
/// occurs there, in token order (byte offsets).
pub open spec fn token_highlights(lower: Seq<char>, tokens: Seq<Seq<char>>) -> Seq<SearchHighlight>
    decreases tokens.len(),
{
    if tokens.len() == 0 {
        seq![]
    } else {
        let prev = token_highlights(lower, tokens.drop_last());
        match first_occurrence(lower, tokens.last()) {
            Some(i) => prev.push(
                SearchHighlight {
                    start: byte_len(lower.take(i)) as usize,
                    end: (byte_len(lower.take(i)) + byte_len(tokens.last())) as usize,
                },
            ),
            None => prev,
        }
    }
}

/// The highlights of `value` for `tokens`: where each token first occurs
/// in the lowercased value, sorted by start; none when no token occurs.
pub open spec fn highlights_for(value: Seq<char>, tokens: Seq<Seq<char>>) -> Option<Seq<SearchHighlight>> {
    let h = token_highlights(lowercase(value), tokens);
    if h.len() == 0 {
        None
    } else {
        Some(sort_by_start(h))
    }
}

/// The highlights of `value` for `tokens`.
pub fn search_highlights(value: &str, tokens: &Vec<Vec<char>>) -> (r: Option<Vec<SearchHighlight>>)
    ensures
        match r {
            Some(h) => highlights_for(value@, tokens@.map_values(|w: Vec<char>| w@)) == Some(h@),
            None => highlights_for(value@, tokens@.map_values(|w: Vec<char>| w@)) is None,
        },
{
    let ghost tv = tokens@.map_values(|w: Vec<char>| w@);
    let lower_s = crate::text::to_lowercase(value);
    let total = str_byte_len(lower_s.as_str());
    let lower = chars_of(lower_s.as_str());
    let mut hs: Vec<SearchHighlight> = Vec::new();
    let mut i: usize = 0;
    while i < tokens.len()
        invariant
            i <= tokens.len(),
            tv == tokens@.map_values(|w: Vec<char>| w@),
            lower@ == lowercase(value@),
            total == byte_len(lower@),
            hs@ == token_highlights(lower@, tv.take(i as int)),
        decreases tokens.len() - i,
    {
        assert(tv.take(i + 1).drop_last() =~= tv.take(i as int));
        assert(tv.take(i + 1).last() == tokens@[i as int]@);
        match find_first(&lower, &tokens[i]) {
            Some(k) => {
                proof {
                    crate::text::lemma_first_occurrence_bound(lower@, tokens@[i as int]@);
                    assert(lower@.subrange(k as int, k + tokens@[i as int]@.len()) == tokens@[i as int]@);
                    crate::search::lemma_byte_len_split(lower@, k as int, k + tokens@[i as int]@.len());
                }
                let start = byte_offset(&lower, k);
                let stop = byte_offset(&lower, k + tokens[i].len());
                let h = SearchHighlight { start: start, end: stop };
                hs.push(h);
            },
            None => {},
        }
        i = i + 1;
    }
    assert(tv.take(tokens.len() as int) =~= tv);
    if hs.len() == 0 {
        None
    } else {
        Some(sort_highlights(&hs))
    }
}

/// The bytes of a prefix of `s` add up with those of the next piece.
pub proof fn lemma_byte_len_split(s: Seq<char>, i: int, j: int)
    requires
        0 <= i <= j <= s.len(),
    ensures
        byte_len(s.take(j)) == byte_len(s.take(i)) + byte_len(s.subrange(i, j)),
        byte_len(s.take(j)) <= byte_len(s),
    decreases j - i,
{
    crate::text::lemma_byte_len_take_mono(s, j, s.len() as int);
    assert(s.take(s.len() as int) =~= s);
    if i == j {
        assert(s.subrange(i, j) =~= Seq::<char>::empty());
    } else {
        lemma_byte_len_split(s, i, j - 1);
        assert(s.take(j).drop_last() =~= s.take(j - 1));
        assert(s.subrange(i, j).drop_last() =~= s.subrange(i, j - 1));
    }
}


// ---------------------------------------------------------------------
// Matches of one note
// ---------------------------------------------------------------------

/// The match of one field, when some token occurs in it.
pub open spec fn field_match(
    field: SearchField,
    line: Option<usize>,
    value: Seq<char>,
    tokens: Seq<Seq<char>>,
) -> Seq<(SearchField, Option<usize>, Seq<char>, Seq<SearchHighlight>)> {
    match highlights_for(value, tokens) {
        Some(h) => seq![(field, line, value, h)],
        None => seq![],
    }
}

/// The views of a list of matches.
pub open spec fn match_views(ms: Seq<SearchMatch>) -> Seq<(SearchField, Option<usize>, Seq<char>, Seq<SearchHighlight>)> {
    ms.map_values(|m: SearchMatch| m@)
}

/// Adds the match of `value` as `field` (on `line`) when a token occurs
/// in it.
pub fn collect_field_match(
    field: SearchField,
    line: Option<usize>,
    value: &str,
    tokens: &Vec<Vec<char>>,
    matches: &mut Vec<SearchMatch>,
)
    ensures
        match_views(final(matches)@) == match_views(old(matches)@) + field_match(
            field,
            line,
            value@,
            tokens@.map_values(|w: Vec<char>| w@),
        ),
{
    match search_highlights(value, tokens) {
        Some(h) => {
            let ghost before = matches@;
            let m = SearchMatch { field, line, snippet: value.to_owned(), highlights: h };
            matches.push(m);
            assert(match_views(matches@) =~= match_views(before) + field_match(
                field,
                line,
                value@,
                tokens@.map_values(|w: Vec<char>| w@),
            ));
        },
        None => {
            assert(match_views(matches@) =~= match_views(old(matches)@) + field_match(
                field,
                line,
                value@,
                tokens@.map_values(|w: Vec<char>| w@),
            ));
        },
    }
}

/// The number of body matches in `ms`.
pub open spec fn body_count(ms: Seq<(SearchField, Option<usize>, Seq<char>, Seq<SearchHighlight>)>) -> nat
    decreases ms.len(),
{
    if ms.len() == 0 {
        0
    } else {
        body_count(ms.drop_last()) + if ms.last().0 == SearchField::Body {
            1nat
        } else {
            0nat
        }
    }
}

/// Matches of the lines `ls[i..]` appended to `acc`, one line after the
/// other, stopping once three body matches are collected.
pub open spec fn body_scan(
    acc: Seq<(SearchField, Option<usize>, Seq<char>, Seq<SearchHighlight>)>,
    ls: Seq<Seq<char>>,
    tokens: Seq<Seq<char>>,
    i: int,
) -> Seq<(SearchField, Option<usize>, Seq<char>, Seq<SearchHighlight>)>
    decreases ls.len() - i,
{
    if i < 0 || i >= ls.len() {
        acc
    } else {
        let acc2 = acc + field_match(SearchField::Body, Some((i + 1) as usize), ls[i], tokens);
        if body_count(acc2) >= 3 {
            acc2
        } else {
            body_scan(acc2, ls, tokens, i + 1)
        }
    }
}

/// Counts the body matches of `ms`.
fn count_body_matches(ms: &Vec<SearchMatch>) -> (n: usize)
    ensures
        n == body_count(match_views(ms@)),
{
    let mut n: usize = 0;
    let mut i: usize = 0;
    while i < ms.len()
        invariant
            i <= ms.len(),
            n <= i,
            n == body_count(match_views(ms@.take(i as int))),
        decreases ms.len() - i,
    {
        assert(match_views(ms@.take(i + 1)).drop_last() =~= match_views(ms@.take(i as int)));
        if ms[i].field == SearchField::Body {
            n = n + 1;
        }
        i = i + 1;
    }
    assert(ms@.take(ms.len() as int) =~= ms@);
    n
}

/// Adds the matches of the lines of `content`, stopping once `matches`
/// holds three body matches.
pub fn collect_body_matches(content: &str, tokens: &Vec<Vec<char>>, matches: &mut Vec<SearchMatch>)
    ensures
        match_views(final(matches)@) == body_scan(
            match_views(old(matches)@),
            lines(content@),
            tokens@.map_values(|w: Vec<char>| w@),
            0,
        ),
{
    let ghost tv = tokens@.map_values(|w: Vec<char>| w@);
    let text = chars_of(content);
    let ls = split_lines(&text);
    let ghost lv = ls@.map_values(|w: Vec<char>| w@);
    assert(lv.len() <= text.len()) by {
        crate::search::lemma_lines_len(text@);
    }
    let mut i: usize = 0;
    while i < ls.len()
        invariant_except_break
            body_scan(match_views(old(matches)@), lv, tv, 0) == body_scan(
                match_views(matches@),
                lv,
                tv,
                i as int,
            ),
        invariant
            i <= ls.len(),
            ls.len() <= text.len(),
            tv == tokens@.map_values(|w: Vec<char>| w@),
            lv == ls@.map_values(|w: Vec<char>| w@),
            lv == lines(content@),
        ensures
            body_scan(match_views(old(matches)@), lv, tv, 0) == match_views(matches@),
        decreases ls.len() - i,
    {
        let ghost before = match_views(matches@);
        let line = string_from(ls[i].as_slice());
        collect_field_match(SearchField::Body, Some(i + 1), line.as_str(), tokens, matches);
        assert(match_views(matches@) == before + field_match(SearchField::Body, Some((i + 1) as usize), lv[i as int], tv));
        if count_body_matches(matches) >= 3 {
            assert(body_scan(before, lv, tv, i as int) == match_views(matches@));
            break;
        }
        i = i + 1;
    }
}

/// `s` with every `\` replaced by `/`.
pub open spec fn forward_slashes(s: Seq<char>) -> Seq<char> {
    s.map_values(|c: char| if c == '\\' { '/' } else { c })
}

/// What the search of one note gives: its title and its matches (title,
/// then path, then up to three body lines), when it mentions every token
/// and some field matches.
pub open spec fn note_search(
    note_path: Seq<char>,
    relative_path: Seq<char>,
    content: Seq<char>,
    tokens: Seq<Seq<char>>,
) -> Option<(Seq<char>, Seq<(SearchField, Option<usize>, Seq<char>, Seq<SearchHighlight>)>)> {
    let title = crate::file_ops::note_title(note_path, content);
    let path = forward_slashes(relative_path);
    if !all_tokens_in(document_haystack(title, path, content), tokens) {
        None
    } else {
        let ms = body_scan(
            field_match(SearchField::Title, None, title, tokens) + field_match(SearchField::Path, None, path, tokens),
            lines(content),
            tokens,
            0,
        );
        if ms.len() == 0 {
            None
        } else {
            Some((title, ms))
        }
    }
}

/// Searches one note at `note_path` (whose path in the workspace is
/// `relative_path`) with text `content` for the query `tokens`.
pub fn search_note(note_path: &str, relative_path: &str, content: &str, tokens: &Vec<Vec<char>>) -> (r: Option<SearchResult>)
    ensures
        match r {
            Some(res) => note_search(note_path@, relative_path@, content@, tokens@.map_values(|w: Vec<char>| w@))
                == Some((res.title@, match_views(res.matches@))) && res.path@ == note_path@
                && res.relative_path@ == relative_path@,
            None => note_search(note_path@, relative_path@, content@, tokens@.map_values(|w: Vec<char>| w@)) is None,
        },
        r matches Some(res) ==> forall|i: int|
            0 <= i < tokens.len() ==> contains_seq(
                lowercase(res.title@ + seq![' '] + forward_slashes(relative_path@) + seq![' '] + content@),
                #[trigger] tokens@[i]@,
            ),
{
    proof {
        note_search_mentions_every_token(note_path@, relative_path@, content@, tokens@.map_values(|w: Vec<char>| w@));
    }
    let title = crate::file_ops::extract_title(note_path, content);
    let rel = chars_of(relative_path);
    let mut fwd: Vec<char> = Vec::new();
    let mut i: usize = 0;
    while i < rel.len()
        invariant
            i <= rel.len(),
            fwd@ == forward_slashes(rel@.take(i as int)),
        decreases rel.len() - i,
    {
        let c = rel[i];
        fwd.push(if c == '\\' { '/' } else { c });
        i = i + 1;
        assert(fwd@ =~= forward_slashes(rel@.take(i as int)));
    }
    assert(rel@.take(rel.len() as int) =~= rel@);
    let path = string_from(fwd.as_slice());
    if !document_matches_all_tokens(title.as_str(), path.as_str(), content, tokens) {
        return None;
    }
    let mut matches: Vec<SearchMatch> = Vec::new();
    assert(match_views(matches@) =~= Seq::empty());
    collect_field_match(SearchField::Title, None, title.as_str(), tokens, &mut matches);
    collect_field_match(SearchField::Path, None, path.as_str(), tokens, &mut matches);
    collect_body_matches(content, tokens, &mut matches);
    if matches.len() == 0 {
        return None;
    }
    proof {
        let tv = tokens@.map_values(|w: Vec<char>| w@);
        assert(note_search(note_path@, relative_path@, content@, tv) == Some((title@, match_views(matches@))));
        assert forall|i: int| 0 <= i < tokens.len() implies contains_seq(
            lowercase(title@ + seq![' '] + forward_slashes(relative_path@) + seq![' '] + content@),
            #[trigger] tokens@[i]@,
        ) by {
            assert(tv[i] == tokens@[i]@);
        }
    }
    Some(SearchResult {
        title,
        path: note_path.to_owned(),
        relative_path: relative_path.to_owned(),
        matches,
    })
}

/// A text has at most as many lines as characters.
pub proof fn lemma_lines_len(s: Seq<char>)
    ensures
        lines(s).len() <= s.len(),
{
    lemma_line_state_len(s);
}

proof fn lemma_line_state_len(s: Seq<char>)
    ensures
        crate::text::line_state(s).0.len() + (if crate::text::line_state(s).1.len() > 0 { 1int } else { 0int }) <= s.len(),
    decreases s.len(),
{
    if s.len() > 0 {
        lemma_line_state_len(s.drop_last());
    }
}


// ---------------------------------------------------------------------
// Ordering results by path
// ---------------------------------------------------------------------

/// `rs` with `x` inserted after the results at its end whose relative
/// path does not come after that of `x` (one step of a stable sort).
pub open spec fn insert_by_path(rs: Seq<SearchResult>, x: SearchResult) -> Seq<SearchResult>
    decreases rs.len(),
{
    if rs.len() == 0 {
        seq![x]
    } else if std_path_order(rs.last().relative_path@, x.relative_path@) <= 0 {
        rs.push(x)
    } else {
        insert_by_path(rs.drop_last(), x).push(rs.last())
    }
}

/// `rs` stably sorted by relative path.
pub open spec fn sort_by_path(rs: Seq<SearchResult>) -> Seq<SearchResult>
    decreases rs.len(),
{
    if rs.len() == 0 {
        seq![]
    } else {
        insert_by_path(sort_by_path(rs.drop_last()), rs.last())
    }
}

/// Search results ordered by their relative path.
pub fn sort_search_results(results: Vec<SearchResult>) -> (r: Vec<SearchResult>)
    ensures
        r@ == sort_by_path(results@),
{
    let ghost input = results@;
    let mut rest = results;
    let mut taken: Vec<SearchResult> = Vec::new();
    let mut out: Vec<SearchResult> = Vec::new();
    let mut i: usize = 0;
    let n = rest.len();
    while i < n
        invariant
            i <= n,
            n == input.len(),
            rest@ == input.skip(i as int),
            out@ == sort_by_path(input.take(i as int)),
        decreases n - i,
    {
        let x = rest.remove(0);
        assert(x == input[i as int]);
        assert(rest@ =~= input.skip(i + 1));
        assert(input.take(i + 1).drop_last() =~= input.take(i as int));
        let mut j: usize = out.len();
        assert(out@.take(j as int) =~= out@);
        assert(out@.skip(j as int) =~= Seq::<SearchResult>::empty());
        while j > 0 && compare_std_paths(out[j - 1].relative_path.as_str(), x.relative_path.as_str()) > 0
            invariant
                j <= out.len(),
                insert_by_path(out@, x) == insert_by_path(out@.take(j as int), x) + out@.skip(j as int),
            decreases j,
        {
            assert(out@.take(j as int).drop_last() =~= out@.take(j - 1));
            assert(out@.skip(j - 1) =~= seq![out@[j - 1]] + out@.skip(j as int));
            assert(insert_by_path(out@.take(j as int), x) == insert_by_path(out@.take(j - 1), x).push(out@[j - 1]));
            assert(insert_by_path(out@.take(j - 1), x).push(out@[j - 1]) + out@.skip(j as int) =~= insert_by_path(out@.take(j - 1), x) + out@.skip(j - 1));
            j = j - 1;
        }
        let ghost before = out@;
        proof {
            if j > 0 {
                assert(out@.take(j as int).last() == out@[j - 1]);
            } else {
                assert(out@.take(0) =~= Seq::<SearchResult>::empty());
            }
        }
        assert(insert_by_path(before.take(j as int), x) =~= before.take(j as int).push(x));
        out.insert(j, x);
        assert(out@ =~= before.take(j as int).push(x) + before.skip(j as int));
        i = i + 1;
    }
    assert(input.take(n as int) =~= input);
    out
}

// ---------------------------------------------------------------------
// Searching a workspace
// ---------------------------------------------------------------------

/// A note of a workspace and its text.
#[derive(Debug, Clone, PartialEq, Eq)]
pub struct NoteText {
    pub path: String,
    pub relative_path: String,
    pub content: String,
}

/// The view of a note: path, relative path and text.
pub open spec fn note_text_view(n: NoteText) -> (Seq<char>, Seq<char>, Seq<char>) {
    (n.path@, n.relative_path@, n.content@)
}

/// The views of a list of notes.
pub open spec fn note_texts_view(s: Seq<NoteText>) -> Seq<(Seq<char>, Seq<char>, Seq<char>)> {
    s.map_values(|n: NoteText| note_text_view(n))
}

/// A search result as plain values: title, path, relative path, matches.
pub type ResultView = (Seq<char>, Seq<char>, Seq<char>, Seq<(SearchField, Option<usize>, Seq<char>, Seq<SearchHighlight>)>);

/// The view of a search result.
pub open spec fn result_view(r: SearchResult) -> ResultView {
    (r.title@, r.path@, r.relative_path@, match_views(r.matches@))
}

/// The views of a list of results.
pub open spec fn results_view(s: Seq<SearchResult>) -> Seq<ResultView> {
    s.map_values(|r: SearchResult| result_view(r))
}

/// The results found in `notes`, in their order, until `limit` results
/// are found.
pub open spec fn found_results(
    notes: Seq<(Seq<char>, Seq<char>, Seq<char>)>,
    tokens: Seq<Seq<char>>,
    limit: nat,
) -> Seq<ResultView>
    decreases notes.len(),
{
    if notes.len() == 0 {
        Seq::empty()
    } else {
        let prev = found_results(notes.drop_last(), tokens, limit);
        let n = notes.last();
        if prev.len() >= limit {
            prev
        } else {
            match note_search(n.0, n.1, n.2, tokens) {
                Some((title, ms)) => prev.push((title, n.0, n.1, ms)),
                None => prev,
            }
        }
    }
}

/// One step of the stable sort of result views by relative path.
pub open spec fn insert_view_by_path(rs: Seq<ResultView>, x: ResultView) -> Seq<ResultView>
    decreases rs.len(),
{
    if rs.len() == 0 {
        seq![x]
    } else if std_path_order(rs.last().2, x.2) <= 0 {
        rs.push(x)
    } else {
        insert_view_by_path(rs.drop_last(), x).push(rs.last())
    }
}

/// Result views stably sorted by relative path.
pub open spec fn sort_views_by_path(rs: Seq<ResultView>) -> Seq<ResultView>
    decreases rs.len(),
{
    if rs.len() == 0 {
        seq![]
    } else {
        insert_view_by_path(sort_views_by_path(rs.drop_last()), rs.last())
    }
}

proof fn lemma_results_view_push(s: Seq<SearchResult>, x: SearchResult)
    ensures
        results_view(s.push(x)) == results_view(s).push(result_view(x)),
{
    assert(results_view(s.push(x)) =~= results_view(s).push(result_view(x)));
}

proof fn lemma_insert_by_path_view(rs: Seq<SearchResult>, x: SearchResult)
    ensures
        results_view(insert_by_path(rs, x)) == insert_view_by_path(results_view(rs), result_view(x)),
    decreases rs.len(),
{
    if rs.len() == 0 {
        assert(results_view(seq![x]) =~= seq![result_view(x)]);
    } else {
        let t = rs.drop_last();
        assert(rs =~= t.push(rs.last()));
        lemma_results_view_push(t, rs.last());
        let vs = results_view(rs);
        assert(vs.drop_last() =~= results_view(t));
        assert(vs.last() == result_view(rs.last()));
        if std_path_order(rs.last().relative_path@, x.relative_path@) <= 0 {
            lemma_results_view_push(rs, x);
        } else {
            lemma_insert_by_path_view(t, x);
            lemma_results_view_push(insert_by_path(t, x), rs.last());
        }
    }
}

proof fn lemma_sort_by_path_view(rs: Seq<SearchResult>)
    ensures
        results_view(sort_by_path(rs)) == sort_views_by_path(results_view(rs)),
    decreases rs.len(),
{
    if rs.len() > 0 {
        let t = rs.drop_last();
        assert(rs =~= t.push(rs.last()));
        lemma_results_view_push(t, rs.last());
        let vs = results_view(rs);
        assert(vs.drop_last() =~= results_view(t));
        assert(vs.last() == result_view(rs.last()));
        lemma_sort_by_path_view(t);
        lemma_insert_by_path_view(sort_by_path(t), rs.last());
    } else {
        assert(results_view(rs) =~= Seq::<ResultView>::empty());
        assert(results_view(sort_by_path(rs)) =~= Seq::<ResultView>::empty());
    }
}

/// Searches the notes of a workspace for `query`: the notes that match,
/// taken in order until `limit` are found, then ordered by relative path.
pub fn search_workspace_notes(notes: &[NoteText], query: &str, limit: usize) -> (r: Vec<SearchResult>)
    ensures
        results_view(r@) == sort_views_by_path(
            found_results(note_texts_view(notes@), query_token_list(query@), limit as nat),
        ),
        r.len() <= limit,
{
    proof {
        workspace_search_finds(note_texts_view(notes@), query_token_list(query@), limit as nat);
    }
    let tokens = query_token_chars(query);
    let ghost tv = tokens@.map_values(|w: Vec<char>| w@);
    let ghost nv = note_texts_view(notes@);
    let mut results: Vec<SearchResult> = Vec::new();
    let mut i: usize = 0;
    assert(results_view(results@) =~= found_results(nv.take(0), tv, limit as nat)) by {
        assert(nv.take(0).len() == 0);
    }
    while i < notes.len()
        invariant
            i <= notes.len(),
            tv == tokens@.map_values(|w: Vec<char>| w@),
            tv == query_token_list(query@),
            nv == note_texts_view(notes@),
            results_view(results@) == found_results(nv.take(i as int), tv, limit as nat),
        decreases notes.len() - i,
    {
        proof {
            assert(nv.take(i + 1).drop_last() =~= nv.take(i as int));
            assert(nv.take(i + 1).last() == note_text_view(notes@[i as int]));
        }
        if results.len() < limit {
            let note = &notes[i];
            match search_note(note.path.as_str(), note.relative_path.as_str(), note.content.as_str(), &tokens) {
                Some(result) => {
                    proof {
                        lemma_results_view_push(results@, result);
                    }
                    results.push(result);
                },
                None => {},
            }
        }
        i = i + 1;
    }
    assert(nv.take(notes.len() as int) =~= nv);
    let ghost found = results@;
    let sorted = sort_search_results(results);
    proof {
        lemma_sort_by_path_view(found);
    }
    sorted
}

// ---------------------------------------------------------------------
// Results come in path order
// ---------------------------------------------------------------------

/// Each result's relative path comes no later than the next ones', as
/// `Path`s are ordered.
pub open spec fn views_in_path_order(s: Seq<ResultView>) -> bool {
    forall|i: int, j: int| 0 <= i < j < s.len() ==> std_path_order(#[trigger] s[i].2, #[trigger] s[j].2) <= 0
}

proof fn lemma_insert_view_sorted(rs: Seq<ResultView>, x: ResultView)
    requires
        views_in_path_order(rs),
    ensures
        views_in_path_order(insert_view_by_path(rs, x)),
        insert_view_by_path(rs, x).to_multiset() == rs.to_multiset().insert(x),
        forall|k: int| 0 <= k < insert_view_by_path(rs, x).len() ==> #[trigger] insert_view_by_path(rs, x)[k] == x
            || rs.contains(insert_view_by_path(rs, x)[k]),
    decreases rs.len(),
{
    broadcast use vstd::seq_lib::group_to_multiset_ensures;
    let r = insert_view_by_path(rs, x);
    if rs.len() == 0 {
        assert(r =~= Seq::<ResultView>::empty().push(x));
    } else {
        let t = rs.drop_last();
        let last = rs.last();
        assert(rs =~= t.push(last));
        if std_path_order(last.2, x.2) <= 0 {
            assert forall|i: int, j: int| 0 <= i < j < r.len() implies std_path_order(#[trigger] r[i].2, #[trigger] r[j].2)
                <= 0 by {
                if j == r.len() - 1 && i < rs.len() - 1 {
                    lemma_path_order_le_trans(rs[i].2, last.2, x.2);
                }
            }
        } else {
            assert(views_in_path_order(t));
            lemma_insert_view_sorted(t, x);
            let r2 = insert_view_by_path(t, x);
            assert(r =~= r2.push(last));
            lemma_path_order_facts(last.2, x.2);
            assert forall|i: int, j: int| 0 <= i < j < r.len() implies std_path_order(#[trigger] r[i].2, #[trigger] r[j].2)
                <= 0 by {
                if j == r.len() - 1 {
                    assert(r[j] == last);
                    assert(r[i] == r2[i]);
                    if r2[i] != x {
                        assert(t.contains(r2[i]));
                        let m = choose|m: int| 0 <= m < t.len() && t[m] == r2[i];
                        assert(rs[m] == t[m]);
                        assert(rs[rs.len() - 1] == last);
                    }
                } else {
                    assert(r[i] == r2[i] && r[j] == r2[j]);
                }
            }
            assert forall|k: int| 0 <= k < r.len() implies #[trigger] r[k] == x || rs.contains(r[k]) by {
                if k < r.len() - 1 {
                    assert(r[k] == r2[k]);
                    if r2[k] != x {
                        let m = choose|m: int| 0 <= m < t.len() && t[m] == r2[k];
                        assert(rs[m] == t[m]);
                    }
                } else {
                    assert(rs[rs.len() - 1] == last);
                }
            }
        }
    }
}

/// The results of a search come in the order of their relative paths, as
/// `Path`s are ordered, and are exactly the results found (rearranged).
pub proof fn search_results_in_path_order(rs: Seq<ResultView>)
    ensures
        views_in_path_order(sort_views_by_path(rs)),
        sort_views_by_path(rs).to_multiset() == rs.to_multiset(),
    decreases rs.len(),
{
    broadcast use vstd::seq_lib::group_to_multiset_ensures;
    if rs.len() == 0 {
        assert(sort_views_by_path(rs) =~= rs);
    } else {
        search_results_in_path_order(rs.drop_last());
        lemma_insert_view_sorted(sort_views_by_path(rs.drop_last()), rs.last());
        assert(rs =~= rs.drop_last().push(rs.last()));
    }
}


// ---------------------------------------------------------------------
// What a search finds
// ---------------------------------------------------------------------

/// A note found by the search of one note mentions every query token,
/// ignoring case, in the text `title path content`, where the title is
/// the note's title and the path its relative path with `/` separators.
pub proof fn note_search_mentions_every_token(
    note_path: Seq<char>,
    relative_path: Seq<char>,
    content: Seq<char>,
    tokens: Seq<Seq<char>>,
)
    ensures
        note_search(note_path, relative_path, content, tokens) is Some ==> {
            let title = (note_search(note_path, relative_path, content, tokens)->0).0;
            &&& title == crate::file_ops::note_title(note_path, content)
            &&& forall|i: int|
                0 <= i < tokens.len() ==> contains_seq(
                    lowercase(title + seq![' '] + forward_slashes(relative_path) + seq![' '] + content),
                    #[trigger] tokens[i],
                )
        },
{
}

/// The result that searching the note `n` (path, relative path, text)
/// gives, if any.
pub open spec fn result_of(n: (Seq<char>, Seq<char>, Seq<char>), tokens: Seq<Seq<char>>) -> Option<ResultView> {
    match note_search(n.0, n.1, n.2, tokens) {
        Some((title, ms)) => Some((title, n.0, n.1, ms)),
        None => None,
    }
}

/// How many of `notes` the search of one note finds something in.
pub open spec fn matching_count(notes: Seq<(Seq<char>, Seq<char>, Seq<char>)>, tokens: Seq<Seq<char>>) -> nat
    decreases notes.len(),
{
    if notes.len() == 0 {
        0
    } else {
        matching_count(notes.drop_last(), tokens) + if result_of(notes.last(), tokens) is Some {
            1nat
        } else {
            0nat
        }
    }
}

proof fn lemma_found_results(notes: Seq<(Seq<char>, Seq<char>, Seq<char>)>, tokens: Seq<Seq<char>>, limit: nat)
    ensures
        found_results(notes, tokens, limit).len() == if matching_count(notes, tokens) < limit {
            matching_count(notes, tokens)
        } else {
            limit
        },
        forall|k: int|
            0 <= k < found_results(notes, tokens, limit).len() ==> exists|j: int|
                0 <= j < notes.len() && result_of(notes[j], tokens) == Some(
                    #[trigger] found_results(notes, tokens, limit)[k],
                ),
        forall|j: int|
            0 <= j < notes.len() && (#[trigger] result_of(notes[j], tokens)) is Some && matching_count(
                notes.take(j),
                tokens,
            ) < limit ==> found_results(notes, tokens, limit).contains(result_of(notes[j], tokens)->0),
    decreases notes.len(),
{
    if notes.len() > 0 {
        let t = notes.drop_last();
        let n = notes.last();
        lemma_found_results(t, tokens, limit);
        let prev = found_results(t, tokens, limit);
        let r = found_results(notes, tokens, limit);
        assert forall|k: int| 0 <= k < r.len() implies exists|j: int|
            0 <= j < notes.len() && result_of(notes[j], tokens) == Some(#[trigger] r[k]) by {
            if k < prev.len() {
                assert(r[k] == prev[k]);
                let j = choose|j: int| 0 <= j < t.len() && result_of(t[j], tokens) == Some(prev[k]);
                assert(notes[j] == t[j]);
            } else {
                assert(notes[notes.len() - 1] == n);
            }
        }
        assert forall|j: int|
            0 <= j < notes.len() && (#[trigger] result_of(notes[j], tokens)) is Some && matching_count(
                notes.take(j),
                tokens,
            ) < limit implies r.contains(result_of(notes[j], tokens)->0) by {
            if j < notes.len() - 1 {
                assert(notes[j] == t[j]);
                assert(notes.take(j) =~= t.take(j));
                assert(prev.contains(result_of(t[j], tokens)->0));
                let m = choose|m: int| 0 <= m < prev.len() && prev[m] == result_of(t[j], tokens)->0;
                assert(r[m] == prev[m]);
            } else {
                assert(notes[j] == n);
                assert(notes.take(j) =~= t);
                assert(r[r.len() - 1] == result_of(n, tokens)->0);
            }
        }
    }
}

/// A workspace search gives as many results as there are notes whose
/// search finds something, but at most `limit`; each result is the result
/// of searching one of the notes; and every note whose search finds
/// something is among them when fewer than `limit` notes before it do.
pub proof fn workspace_search_finds(notes: Seq<(Seq<char>, Seq<char>, Seq<char>)>, tokens: Seq<Seq<char>>, limit: nat)
    ensures
        sort_views_by_path(found_results(notes, tokens, limit)).len() == if matching_count(notes, tokens) < limit {
            matching_count(notes, tokens)
        } else {
            limit
        },
        forall|k: int|
            0 <= k < sort_views_by_path(found_results(notes, tokens, limit)).len() ==> exists|j: int|
                0 <= j < notes.len() && result_of(notes[j], tokens) == Some(
                    #[trigger] sort_views_by_path(found_results(notes, tokens, limit))[k],
                ),
        forall|j: int|
            0 <= j < notes.len() && (#[trigger] result_of(notes[j], tokens)) is Some && matching_count(
                notes.take(j),
                tokens,
            ) < limit ==> sort_views_by_path(found_results(notes, tokens, limit)).contains(
                result_of(notes[j], tokens)->0,
            ),
{
    broadcast use vstd::seq_lib::group_to_multiset_ensures;
    let f = found_results(notes, tokens, limit);
    let r = sort_views_by_path(f);
    lemma_found_results(notes, tokens, limit);
    search_results_in_path_order(f);
    assert(r.len() == f.len()) by {
        assert(r.to_multiset().len() == f.to_multiset().len());
    }
    assert forall|k: int| 0 <= k < r.len() implies exists|j: int|
        0 <= j < notes.len() && result_of(notes[j], tokens) == Some(#[trigger] r[k]) by {
        assert(r.contains(r[k]));
        assert(r.to_multiset().count(r[k]) > 0);
        assert(f.contains(r[k]));
        let m = choose|m: int| 0 <= m < f.len() && f[m] == r[k];
        assert(f[m] == r[k]);
    }
    assert forall|j: int|
        0 <= j < notes.len() && (#[trigger] result_of(notes[j], tokens)) is Some && matching_count(
            notes.take(j),
            tokens,
        ) < limit implies r.contains(result_of(notes[j], tokens)->0) by {
        let x = result_of(notes[j], tokens)->0;
        assert(f.contains(x));
        assert(f.to_multiset().count(x) > 0);
    }
}

} // verus!
