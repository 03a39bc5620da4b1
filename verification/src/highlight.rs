//! Splitting a text into plain and highlighted segments for display, from
//! match ranges given as UTF-8 byte offsets.
//!
//! Ranges that are empty, reach past the end of the text or cut a
//! character are ignored; the others are ordered by start and overlapping
//! or touching ones are merged.
use vstd::prelude::*;
use crate::search::{sort_by_start, sort_highlights, str_byte_len, SearchHighlight};
use crate::text::{byte_len, char_width, chars_of, slice_vec, string_from, utf8_width};

verus! {

broadcast use vstd::string::group_string_axioms;

/// A piece of a displayed text, highlighted or not.
#[derive(Debug, Clone, PartialEq, Eq)]
pub struct HighlightSegment {
    pub text: String,
    pub is_match: bool,
}

/// A segment as its characters and whether it is highlighted.
pub open spec fn segment_view(s: HighlightSegment) -> (Seq<char>, bool) {
    (s.text@, s.is_match)
}

/// The views of a list of segments.
pub open spec fn segments_view(s: Seq<HighlightSegment>) -> Seq<(Seq<char>, bool)> {
    s.map_values(|x: HighlightSegment| segment_view(x))
}

// ---------------------------------------------------------------------
// Byte offsets and character positions
// ---------------------------------------------------------------------

/// Byte offset `b` of `value` falls between two characters.
pub open spec fn is_boundary(value: Seq<char>, b: int) -> bool {
    exists|k: int| 0 <= k <= value.len() && byte_len(value.take(k)) == b
}

/// The character position at byte offset `b` (meaningful when `b` is a
/// boundary).
pub open spec fn char_at(value: Seq<char>, b: int) -> int {
    choose|k: int| 0 <= k <= value.len() && byte_len(value.take(k)) == b
}

/// Longer prefixes have strictly more bytes.
pub proof fn lemma_byte_len_take_strict(s: Seq<char>, i: int, j: int)
    requires
        0 <= i < j <= s.len(),
    ensures
        byte_len(s.take(i)) < byte_len(s.take(j)),
    decreases j - i,
{
    assert(s.take(j).drop_last() =~= s.take(j - 1));
    if i < j - 1 {
        lemma_byte_len_take_strict(s, i, j - 1);
    }
}

/// At a boundary, `char_at` is the only position with that many bytes
/// before it.
pub proof fn lemma_char_at(value: Seq<char>, b: int, k: int)
    requires
        0 <= k <= value.len(),
        byte_len(value.take(k)) == b,
    ensures
        is_boundary(value, b),
        char_at(value, b) == k,
{
    let c = char_at(value, b);
    assert(0 <= c <= value.len() && byte_len(value.take(c)) == b);
    if c < k {
        lemma_byte_len_take_strict(value, c, k);
    } else if k < c {
        lemma_byte_len_take_strict(value, k, c);
    }
}

/// The character position at byte offset `b` of `v`, if `b` falls
/// between two characters.
fn char_index_at(v: &Vec<char>, b: usize) -> (r: Option<usize>)
    ensures
        match r {
            Some(k) => k <= v.len() && byte_len(v@.take(k as int)) == b && char_at(v@, b as int)
                == k,
            None => !is_boundary(v@, b as int),
        },
{
    let mut k: usize = 0;
    let mut off: usize = 0;
    assert(v@.take(0) =~= Seq::<char>::empty());
    while k < v.len() && off < b
        invariant
            k <= v.len(),
            off == byte_len(v@.take(k as int)),
            off <= b,
        decreases v.len() - k,
    {
        assert(v@.take(k + 1).drop_last() =~= v@.take(k as int));
        let w = utf8_width(v[k]);
        if b - off < w {
            proof {
                assert(off + char_width(v@[k as int]) > b);
                assert forall|j: int| 0 <= j <= v.len() implies byte_len(v@.take(j)) != b by {
                    if j <= k {
                        if j < k {
                            lemma_byte_len_take_strict(v@, j, k as int);
                        }
                    } else {
                        crate::text::lemma_byte_len_take_mono(v@, k + 1, j);
                    }
                }
            }
            return None;
        }
        off = off + w;
        k = k + 1;
    }
    if off == b {
        proof {
            lemma_char_at(v@, b as int, k as int);
        }
        Some(k)
    } else {
        proof {
            assert(k == v.len());
            assert forall|j: int| 0 <= j <= v.len() implies byte_len(v@.take(j)) != b by {
                if j < k {
                    lemma_byte_len_take_strict(v@, j, k as int);
                }
            }
        }
        None
    }
}

// ---------------------------------------------------------------------
// Valid and merged ranges
// ---------------------------------------------------------------------

/// A range is kept when it is not empty, ends within `value` and both of
/// its ends fall between characters.
pub open spec fn valid_range(value: Seq<char>, h: SearchHighlight) -> bool {
    &&& h.start < h.end
    &&& h.end <= byte_len(value)
    &&& is_boundary(value, h.start as int)
    &&& is_boundary(value, h.end as int)
}

/// The kept ranges of `hs`, in order.
pub open spec fn valid_ranges(value: Seq<char>, hs: Seq<SearchHighlight>) -> Seq<SearchHighlight>
    decreases hs.len(),
{
    if hs.len() == 0 {
        Seq::empty()
    } else {
        let rest = valid_ranges(value, hs.drop_last());
        if valid_range(value, hs.last()) {
            rest.push(hs.last())
        } else {
            rest
        }
    }
}

/// Ranges taken in order, each one that starts at or before the end of
/// the last merged range extending it.
pub open spec fn merge_ranges(s: Seq<SearchHighlight>) -> Seq<SearchHighlight>
    decreases s.len(),
{
    if s.len() == 0 {
        Seq::empty()
    } else {
        let m = merge_ranges(s.drop_last());
        let h = s.last();
        if m.len() > 0 && h.start <= m.last().end {
            m.update(
                m.len() - 1,
                SearchHighlight {
                    start: m.last().start,
                    end: if h.end > m.last().end {
                        h.end
                    } else {
                        m.last().end
                    },
                },
            )
        } else {
            m.push(h)
        }
    }
}

/// The ranges shown highlighted in `value`.
pub open spec fn shown_ranges(value: Seq<char>, hs: Seq<SearchHighlight>) -> Seq<SearchHighlight> {
    merge_ranges(sort_by_start(valid_ranges(value, hs)))
}

/// Every range of `s` is kept for `value`.
pub open spec fn all_valid(value: Seq<char>, s: Seq<SearchHighlight>) -> bool {
    forall|i: int| 0 <= i < s.len() ==> valid_range(value, #[trigger] s[i])
}

/// Consecutive ranges of `s` are apart: each ends before the next starts.
pub open spec fn apart(s: Seq<SearchHighlight>) -> bool {
    forall|i: int| 0 <= i < s.len() - 1 ==> (#[trigger] s[i]).end < s[i + 1].start
}

proof fn lemma_valid_ranges_valid(value: Seq<char>, hs: Seq<SearchHighlight>)
    ensures
        all_valid(value, valid_ranges(value, hs)),
    decreases hs.len(),
{
    if hs.len() > 0 {
        lemma_valid_ranges_valid(value, hs.drop_last());
    }
}

proof fn lemma_insert_valid(value: Seq<char>, s: Seq<SearchHighlight>, x: SearchHighlight)
    requires
        all_valid(value, s),
        valid_range(value, x),
    ensures
        all_valid(value, crate::search::insert_by_start(s, x)),
    decreases s.len(),
{
    if s.len() > 0 && s.last().start > x.start {
        lemma_insert_valid(value, s.drop_last(), x);
        let t = crate::search::insert_by_start(s.drop_last(), x);
        assert(valid_range(value, s[s.len() - 1]));
        assert forall|i: int| 0 <= i < t.push(s.last()).len() implies valid_range(
            value,
            #[trigger] t.push(s.last())[i],
        ) by {
            if i < t.len() {
                assert(t.push(s.last())[i] == t[i]);
            }
        }
    }
}

proof fn lemma_sort_valid(value: Seq<char>, s: Seq<SearchHighlight>)
    requires
        all_valid(value, s),
    ensures
        all_valid(value, sort_by_start(s)),
    decreases s.len(),
{
    if s.len() > 0 {
        assert(valid_range(value, s[s.len() - 1]));
        lemma_sort_valid(value, s.drop_last());
        lemma_insert_valid(value, sort_by_start(s.drop_last()), s.last());
    }
}

/// Merging kept ranges gives kept ranges that are apart.
pub proof fn lemma_merge_valid(value: Seq<char>, s: Seq<SearchHighlight>)
    requires
        all_valid(value, s),
    ensures
        all_valid(value, merge_ranges(s)),
        apart(merge_ranges(s)),
    decreases s.len(),
{
    if s.len() > 0 {
        let t = s.drop_last();
        assert(all_valid(value, t));
        lemma_merge_valid(value, t);
        let m = merge_ranges(t);
        let h = s.last();
        assert(valid_range(value, s[s.len() - 1]));
        if m.len() > 0 && h.start <= m.last().end {
            assert(valid_range(value, m[m.len() - 1]));
        }
    }
}

/// The character position at a byte offset known to fall between
/// characters.
fn char_index_of(v: &Vec<char>, b: usize) -> (k: usize)
    requires
        is_boundary(v@, b as int),
    ensures
        k <= v.len(),
        byte_len(v@.take(k as int)) == b,
        k == char_at(v@, b as int),
{
    match char_index_at(v, b) {
        Some(k) => k,
        None => {
            assert(false);
            0
        },
    }
}

// ---------------------------------------------------------------------
// Segments
// ---------------------------------------------------------------------

/// The segments for ranges `m` (apart, in order) up to the end of the last
/// one: the plain text before each range, when there is any, then the
/// range.
pub open spec fn pieces(value: Seq<char>, m: Seq<SearchHighlight>) -> Seq<(Seq<char>, bool)>
    decreases m.len(),
{
    if m.len() == 0 {
        Seq::empty()
    } else {
        let cursor: int = if m.len() > 1 {
            m.drop_last().last().end as int
        } else {
            0
        };
        let h = m.last();
        pieces(value, m.drop_last()) + (if cursor < h.start {
            seq![(value.subrange(char_at(value, cursor), char_at(value, h.start as int)), false)]
        } else {
            Seq::empty()
        }) + seq![(value.subrange(char_at(value, h.start as int), char_at(value, h.end as int)), true)]
    }
}

/// The segments of `value` for the match ranges `hs`: the whole text
/// plain when no range is shown; else the pieces for the shown ranges and
/// the plain text after the last one, when there is any.
pub open spec fn highlighted(value: Seq<char>, hs: Seq<SearchHighlight>) -> Seq<(Seq<char>, bool)> {
    let m = shown_ranges(value, hs);
    if m.len() == 0 {
        seq![(value, false)]
    } else {
        pieces(value, m) + (if m.last().end < byte_len(value) {
            seq![(value.skip(char_at(value, m.last().end as int)), false)]
        } else {
            Seq::empty()
        })
    }
}

/// The kept ranges of `highlights`.
fn keep_valid(v: &Vec<char>, n: usize, highlights: &[SearchHighlight]) -> (r: Vec<SearchHighlight>)
    requires
        n == byte_len(v@),
    ensures
        r@ == valid_ranges(v@, highlights@),
{
    let mut valid: Vec<SearchHighlight> = Vec::new();
    let mut i: usize = 0;
    while i < highlights.len()
        invariant
            i <= highlights.len(),
            n == byte_len(v@),
            valid@ == valid_ranges(v@, highlights@.take(i as int)),
        decreases highlights.len() - i,
    {
        assert(highlights@.take(i + 1).drop_last() =~= highlights@.take(i as int));
        let h = highlights[i];
        if h.start < h.end && h.end <= n {
            let a = char_index_at(v, h.start);
            let b = char_index_at(v, h.end);
            if a.is_some() && b.is_some() {
                valid.push(h);
            }
        }
        i = i + 1;
    }
    assert(highlights@.take(highlights.len() as int) =~= highlights@);
    valid
}

/// The ranges of `sorted` merged.
fn merge(sorted: &Vec<SearchHighlight>) -> (r: Vec<SearchHighlight>)
    ensures
        r@ == merge_ranges(sorted@),
{
    let mut merged: Vec<SearchHighlight> = Vec::new();
    let mut j: usize = 0;
    while j < sorted.len()
        invariant
            j <= sorted.len(),
            merged@ == merge_ranges(sorted@.take(j as int)),
        decreases sorted.len() - j,
    {
        assert(sorted@.take(j + 1).drop_last() =~= sorted@.take(j as int));
        let h = sorted[j];
        let len = merged.len();
        if len > 0 && h.start <= merged[len - 1].end {
            let last = merged[len - 1];
            let end = if h.end > last.end {
                h.end
            } else {
                last.end
            };
            merged.set(len - 1, SearchHighlight { start: last.start, end: end });
        } else {
            merged.push(h);
        }
        j = j + 1;
    }
    assert(sorted@.take(sorted.len() as int) =~= sorted@);
    merged
}

/// The characters of `v` from position `lo` to position `hi`, as a string.
fn piece(v: &Vec<char>, lo: usize, hi: usize) -> (r: String)
    requires
        lo <= hi <= v.len(),
    ensures
        r@ == v@.subrange(lo as int, hi as int),
{
    string_from(slice_vec(v, lo, hi).as_slice())
}

/// The segments for the kept, merged ranges `merged` (at least one).
fn build_segments(v: &Vec<char>, n: usize, merged: &Vec<SearchHighlight>) -> (r: Vec<HighlightSegment>)
    requires
        n == byte_len(v@),
        merged.len() > 0,
        all_valid(v@, merged@),
    ensures
        segments_view(r@) == pieces(v@, merged@) + (if merged@.last().end < byte_len(v@) {
            seq![(v@.skip(char_at(v@, merged@.last().end as int)), false)]
        } else {
            Seq::empty()
        }),
{
    let mut segments: Vec<HighlightSegment> = Vec::new();
    let mut cursor: usize = 0;
    let mut k: usize = 0;
    proof {
        assert(v@.take(0) =~= Seq::<char>::empty());
        lemma_char_at(v@, 0, 0);
    }
    while k < merged.len()
        invariant
            k <= merged.len(),
            n == byte_len(v@),
            all_valid(v@, merged@),
            cursor == (if k > 0 {
                merged@[k - 1].end as int
            } else {
                0
            }),
            is_boundary(v@, cursor as int),
            segments_view(segments@) == pieces(v@, merged@.take(k as int)),
        decreases merged.len() - k,
    {
        let h = merged[k];
        assert(valid_range(v@, merged@[k as int]));
        let ghost mk = merged@.take(k + 1);
        assert(mk.drop_last() =~= merged@.take(k as int));
        assert(mk.last() == h);
        if k > 0 {
            assert(mk.drop_last().last() == merged@[k - 1]);
        }
        let ks = char_index_of(v, h.start);
        let ke = char_index_of(v, h.end);
        proof {
            if ke <= ks {
                crate::text::lemma_byte_len_take_mono(v@, ke as int, ks as int);
            }
        }
        if cursor < h.start {
            let kc = char_index_of(v, cursor);
            proof {
                if ks <= kc {
                    crate::text::lemma_byte_len_take_mono(v@, ks as int, kc as int);
                }
            }
            let plain = piece(v, kc, ks);
            segments.push(HighlightSegment { text: plain, is_match: false });
        }
        let matched = piece(v, ks, ke);
        segments.push(HighlightSegment { text: matched, is_match: true });
        assert(segments_view(segments@) =~= pieces(v@, mk));
        cursor = h.end;
        k = k + 1;
    }
    assert(merged@.take(merged.len() as int) =~= merged@);
    if cursor < n {
        let kc = char_index_of(v, cursor);
        let ghost before = segments_view(segments@);
        let tail = piece(v, kc, v.len());
        segments.push(HighlightSegment { text: tail, is_match: false });
        assert(v@.subrange(kc as int, v.len() as int) =~= v@.skip(kc as int));
        assert(segments_view(segments@) =~= before + seq![(v@.skip(kc as int), false)]);
    } else {
        assert(segments_view(segments@) =~= segments_view(segments@) + Seq::<(Seq<char>, bool)>::empty());
    }
    segments
}

/// The plain and highlighted segments of `value` for the match ranges
/// `highlights`.
pub fn highlighted_segments(value: &str, highlights: &[SearchHighlight]) -> (r: Vec<HighlightSegment>)
    ensures
        segments_view(r@) == highlighted(value@, highlights@),
{
    let v = chars_of(value);
    let n = str_byte_len(value);
    let valid = keep_valid(&v, n, highlights);
    let sorted = sort_highlights(&valid);
    let merged = merge(&sorted);
    proof {
        lemma_valid_ranges_valid(value@, highlights@);
        lemma_sort_valid(value@, valid@);
        lemma_merge_valid(value@, sorted@);
    }
    if merged.len() == 0 {
        let mut segments: Vec<HighlightSegment> = Vec::new();
        segments.push(HighlightSegment { text: value.to_owned(), is_match: false });
        assert(segments_view(segments@) =~= seq![(value@, false)]);
        return segments;
    }
    build_segments(&v, n, &merged)
}

// ---------------------------------------------------------------------
// What the segments add up to
// ---------------------------------------------------------------------

/// The texts of `segs` one after the other.
pub open spec fn joined_text(segs: Seq<(Seq<char>, bool)>) -> Seq<char>
    decreases segs.len(),
{
    if segs.len() == 0 {
        Seq::empty()
    } else {
        joined_text(segs.drop_last()) + segs.last().0
    }
}

/// Consecutive segments of `segs` differ in being highlighted.
pub open spec fn alternates(segs: Seq<(Seq<char>, bool)>) -> bool {
    forall|i: int| 0 <= i < segs.len() - 1 ==> (#[trigger] segs[i]).1 != segs[i + 1].1
}

/// No segment of `segs` is empty.
pub open spec fn all_nonempty(segs: Seq<(Seq<char>, bool)>) -> bool {
    forall|i: int| 0 <= i < segs.len() ==> (#[trigger] segs[i]).0.len() > 0
}

proof fn lemma_joined_concat(a: Seq<(Seq<char>, bool)>, b: Seq<(Seq<char>, bool)>)
    ensures
        joined_text(a + b) == joined_text(a) + joined_text(b),
    decreases b.len(),
{
    if b.len() == 0 {
        assert(a + b =~= a);
    } else {
        lemma_joined_concat(a, b.drop_last());
        assert((a + b).drop_last() =~= a + b.drop_last());
    }
}

proof fn lemma_joined_single(x: (Seq<char>, bool))
    ensures
        joined_text(seq![x]) == x.0,
{
    assert(seq![x].drop_last() =~= Seq::<(Seq<char>, bool)>::empty());
    assert(joined_text(Seq::<(Seq<char>, bool)>::empty()) == Seq::<char>::empty());
    assert(Seq::<char>::empty() + x.0 =~= x.0);
}

/// The shown ranges are kept ranges, apart from each other.
proof fn lemma_shown_ranges(value: Seq<char>, hs: Seq<SearchHighlight>)
    ensures
        all_valid(value, shown_ranges(value, hs)),
        apart(shown_ranges(value, hs)),
{
    lemma_valid_ranges_valid(value, hs);
    lemma_sort_valid(value, valid_ranges(value, hs));
    lemma_merge_valid(value, sort_by_start(valid_ranges(value, hs)));
}

proof fn lemma_concat_props(a: Seq<(Seq<char>, bool)>, b: Seq<(Seq<char>, bool)>)
    requires
        alternates(a),
        alternates(b),
        all_nonempty(a),
        all_nonempty(b),
        a.len() > 0 && b.len() > 0 ==> a.last().1 != b[0].1,
    ensures
        alternates(a + b),
        all_nonempty(a + b),
{
    let c = a + b;
    assert forall|i: int| 0 <= i < c.len() - 1 implies (#[trigger] c[i]).1 != c[i + 1].1 by {
        if i + 1 < a.len() {
            assert(a[i].1 != a[i + 1].1);
        } else if i + 1 == a.len() {
        } else {
            assert(b[i - a.len()].1 != b[i - a.len() + 1].1);
        }
    }
    assert forall|i: int| 0 <= i < c.len() implies (#[trigger] c[i]).0.len() > 0 by {
        if i < a.len() {
            assert(a[i].0.len() > 0);
        } else {
            assert(b[i - a.len()].0.len() > 0);
        }
    }
}

/// Boundaries in order have character positions in order.
proof fn lemma_char_at_order(value: Seq<char>, b1: int, b2: int)
    requires
        is_boundary(value, b1),
        is_boundary(value, b2),
        b1 <= b2,
    ensures
        0 <= char_at(value, b1) <= char_at(value, b2) <= value.len(),
{
    let k1 = char_at(value, b1);
    let k2 = char_at(value, b2);
    if k2 < k1 {
        lemma_byte_len_take_strict(value, k2, k1);
    }
}

proof fn lemma_pieces(value: Seq<char>, m: Seq<SearchHighlight>)
    requires
        m.len() > 0,
        all_valid(value, m),
        apart(m),
    ensures
        joined_text(pieces(value, m)) == value.take(char_at(value, m.last().end as int)),
        alternates(pieces(value, m)),
        all_nonempty(pieces(value, m)),
        pieces(value, m).len() > 0,
        pieces(value, m).last().1,
    decreases m.len(),
{
    let t = m.drop_last();
    let h = m.last();
    assert(valid_range(value, m[m.len() - 1]));
    assert(value.take(0) =~= Seq::<char>::empty());
    lemma_char_at(value, 0, 0);
    let cursor: int = if m.len() > 1 {
        t.last().end as int
    } else {
        0
    };
    let prev = pieces(value, t);
    if m.len() > 1 {
        assert(all_valid(value, t));
        assert forall|i: int| 0 <= i < t.len() - 1 implies (#[trigger] t[i]).end < t[i + 1].start by {
            assert(m[i].end < m[i + 1].start);
        }
        lemma_pieces(value, t);
        assert(valid_range(value, m[m.len() - 2]));
        assert(m[m.len() - 2].end < m[m.len() - 1].start);
    } else {
        assert(prev =~= Seq::<(Seq<char>, bool)>::empty());
    }
    let kc = char_at(value, cursor);
    let ks = char_at(value, h.start as int);
    let ke = char_at(value, h.end as int);
    lemma_char_at_order(value, cursor, h.start as int);
    lemma_char_at_order(value, h.start as int, h.end as int);
    assert(ks < ke) by {
        if ke <= ks {
            crate::text::lemma_byte_len_take_mono(value, ke, ks);
        }
    }
    let plain: Seq<(Seq<char>, bool)> = if cursor < h.start {
        seq![(value.subrange(kc, ks), false)]
    } else {
        Seq::empty()
    };
    let matched = seq![(value.subrange(ks, ke), true)];
    assert(pieces(value, m) == prev + plain + matched);
    if cursor < h.start {
        assert(kc < ks) by {
            if ks <= kc {
                crate::text::lemma_byte_len_take_mono(value, ks, kc);
            }
        }
    } else {
        assert(m.len() == 1);
        assert(h.start == 0);
    }
    lemma_joined_concat(prev, plain);
    lemma_joined_concat(prev + plain, matched);
    if cursor < h.start {
        lemma_joined_single((value.subrange(kc, ks), false));
    } else {
        assert(joined_text(plain) == Seq::<char>::empty());
    }
    lemma_joined_single((value.subrange(ks, ke), true));
    if cursor < h.start {
        assert(value.take(kc) + value.subrange(kc, ks) + value.subrange(ks, ke) =~= value.take(ke));
    } else {
        assert(kc == ks);
        assert(value.take(kc) + value.subrange(ks, ke) =~= value.take(ke));
    }
    assert(alternates(plain) && all_nonempty(plain));
    assert(alternates(matched) && all_nonempty(matched));
    lemma_concat_props(prev, plain);
    lemma_concat_props(prev + plain, matched);
}

/// The segments of a text spell out the text, in order.
pub proof fn segments_spell_value(value: Seq<char>, hs: Seq<SearchHighlight>)
    ensures
        joined_text(highlighted(value, hs)) == value,
{
    let m = shown_ranges(value, hs);
    lemma_shown_ranges(value, hs);
    if m.len() == 0 {
        lemma_joined_single((value, false));
    } else {
        lemma_pieces(value, m);
        let last = m.last();
        assert(valid_range(value, m[m.len() - 1]));
        let ke = char_at(value, last.end as int);
        lemma_char_at_order(value, last.end as int, last.end as int);
        let tail: Seq<(Seq<char>, bool)> = if last.end < byte_len(value) {
            seq![(value.skip(ke), false)]
        } else {
            Seq::empty()
        };
        lemma_joined_concat(pieces(value, m), tail);
        if last.end < byte_len(value) {
            lemma_joined_single((value.skip(ke), false));
            assert(value.take(ke) + value.skip(ke) =~= value);
        } else {
            assert(value.take(value.len() as int) =~= value);
            lemma_char_at(value, byte_len(value) as int, value.len() as int);
            assert(value.take(ke) =~= value);
            assert(joined_text(tail) == Seq::<char>::empty());
        }
    }
}

/// Plain and highlighted segments take turns, and when there is more than
/// one segment none of them is empty.
pub proof fn segments_alternate(value: Seq<char>, hs: Seq<SearchHighlight>)
    ensures
        alternates(highlighted(value, hs)),
        highlighted(value, hs).len() > 1 ==> all_nonempty(highlighted(value, hs)),
{
    let m = shown_ranges(value, hs);
    lemma_shown_ranges(value, hs);
    if m.len() > 0 {
        lemma_pieces(value, m);
        let last = m.last();
        assert(valid_range(value, m[m.len() - 1]));
        let ke = char_at(value, last.end as int);
        lemma_char_at_order(value, last.end as int, last.end as int);
        let tail: Seq<(Seq<char>, bool)> = if last.end < byte_len(value) {
            seq![(value.skip(ke), false)]
        } else {
            Seq::empty()
        };
        if last.end < byte_len(value) {
            assert(ke < value.len()) by {
                if ke >= value.len() {
                    assert(value.take(ke) =~= value.take(value.len() as int));
                    assert(value.take(value.len() as int) =~= value);
                }
            }
        }
        assert(alternates(tail) && all_nonempty(tail));
        lemma_concat_props(pieces(value, m), tail);
    }
}

} // verus!
