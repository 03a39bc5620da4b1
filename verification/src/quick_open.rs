//! Quick open: narrowing the notes of a workspace by the tokens of a
//! query matched against their titles and paths.
use vstd::prelude::*;
use crate::search::{all_tokens_found, all_tokens_in, query_token_chars, query_token_list};
use crate::text::{chars_of, concat, lowercase, lowercase_chars};

verus! {

broadcast use vstd::string::group_string_axioms;

/// At most this many notes are listed for a query.
pub const QUICK_OPEN_LIMIT: usize = 24;

/// A note offered by quick open.
#[derive(Debug, Clone, PartialEq, Eq)]
pub struct QuickOpenItemViewModel {
    pub path: String,
    pub title: String,
    pub path_label: String,
}

/// A quick open item, with its strings as characters: path, title and
/// path label.
pub open spec fn item_view(item: QuickOpenItemViewModel) -> (Seq<char>, Seq<char>, Seq<char>) {
    (item.path@, item.title@, item.path_label@)
}

/// The views of a list of items.
pub open spec fn items_view(s: Seq<QuickOpenItemViewModel>) -> Seq<(Seq<char>, Seq<char>, Seq<char>)> {
    s.map_values(|i: QuickOpenItemViewModel| item_view(i))
}

/// The text a query is matched against: title and path label separated by
/// a space, lowercased.
pub open spec fn item_haystack(item: (Seq<char>, Seq<char>, Seq<char>)) -> Seq<char> {
    lowercase(item.1 + seq![' '] + item.2)
}

/// Whether an item matches every token.
pub open spec fn item_matches(tokens: Seq<Seq<char>>) -> spec_fn((Seq<char>, Seq<char>, Seq<char>)) -> bool {
    |item: (Seq<char>, Seq<char>, Seq<char>)| all_tokens_in(item_haystack(item), tokens)
}

/// At most `QUICK_OPEN_LIMIT` of `s`, from the front.
pub open spec fn limited_items(s: Seq<(Seq<char>, Seq<char>, Seq<char>)>) -> Seq<(Seq<char>, Seq<char>, Seq<char>)> {
    if s.len() <= QUICK_OPEN_LIMIT {
        s
    } else {
        s.take(QUICK_OPEN_LIMIT as int)
    }
}

/// The items that match every token of `query` (all of them for a query
/// without tokens), in order, at most `QUICK_OPEN_LIMIT`.
pub open spec fn quick_open_matches(items: Seq<(Seq<char>, Seq<char>, Seq<char>)>, query: Seq<char>) -> Seq<
    (Seq<char>, Seq<char>, Seq<char>),
> {
    limited_items(items.filter(item_matches(query_token_list(query))))
}

fn copy_item(item: &QuickOpenItemViewModel) -> (r: QuickOpenItemViewModel)
    ensures
        item_view(r) == item_view(*item),
{
    QuickOpenItemViewModel {
        path: item.path.clone(),
        title: item.title.clone(),
        path_label: item.path_label.clone(),
    }
}

/// The items that match `query`.
pub fn filter_quick_open_items(items: &[QuickOpenItemViewModel], query: &str) -> (r: Vec<
    QuickOpenItemViewModel,
>)
    ensures
        items_view(r@) == quick_open_matches(items_view(items@), query@),
{
    let tokens = query_token_chars(query);
    let ghost tv = tokens@.map_values(|w: Vec<char>| w@);
    let ghost p = item_matches(query_token_list(query@));
    let ghost all = items_view(items@);
    let mut r: Vec<QuickOpenItemViewModel> = Vec::new();
    let mut i: usize = 0;
    proof {
        reveal(Seq::filter);
        assert(all.take(0).filter(p) =~= Seq::<(Seq<char>, Seq<char>, Seq<char>)>::empty());
        assert(items_view(r@) =~= Seq::<(Seq<char>, Seq<char>, Seq<char>)>::empty());
    }
    while i < items.len()
        invariant
            i <= items.len(),
            tv == tokens@.map_values(|w: Vec<char>| w@),
            tv == query_token_list(query@),
            p == item_matches(query_token_list(query@)),
            all == items_view(items@),
            items_view(r@) == limited_items(all.take(i as int).filter(p)),
        decreases items.len() - i,
    {
        let ghost f = all.take(i as int).filter(p);
        proof {
            assert(all.take(i + 1) =~= all.take(i as int).push(all[i as int]));
            all.take(i as int).lemma_filter_push(all[i as int], p);
        }
        let mut hay = chars_of(items[i].title.as_str());
        hay.push(' ');
        let hay = concat(&hay, &chars_of(items[i].path_label.as_str()));
        assert(hay@ =~= items@[i as int].title@ + seq![' '] + items@[i as int].path_label@);
        let hay = lowercase_chars(&hay);
        if all_tokens_found(&hay, &tokens) {
            if r.len() < QUICK_OPEN_LIMIT {
                let item = copy_item(&items[i]);
                let ghost before = r@;
                r.push(item);
                assert(items_view(r@) =~= items_view(before).push(item_view(item)));
                assert(limited_items(f.push(all[i as int])) =~= limited_items(f).push(all[i as int]));
            } else {
                assert(limited_items(f.push(all[i as int])) =~= limited_items(f));
            }
        }
        i = i + 1;
    }
    assert(all.take(items.len() as int) =~= all);
    r
}

// ---------------------------------------------------------------------
// The highlighted row of a result list
// ---------------------------------------------------------------------

/// The keys a result list (command palette, quick open) reacts to.
#[derive(Debug, Clone, Copy, PartialEq, Eq, Structural)]
pub enum ResultListKey {
    Escape,
    ArrowDown,
    ArrowUp,
    Enter,
    Other,
}

/// What a key does in a result list.
#[derive(Debug, Clone, Copy, PartialEq, Eq, Structural)]
pub enum ResultListAction {
    /// Close the list.
    Close,
    /// Highlight the row with this stored index.
    Highlight(usize),
    /// Run the row at this index.
    Choose(usize),
    /// Nothing.
    Nothing,
}

/// The row shown highlighted: the stored index, kept inside the list (0
/// for an empty list).
pub open spec fn active_row(stored: int, len: int) -> int {
    if len == 0 {
        0
    } else if stored < len - 1 {
        stored
    } else {
        len - 1
    }
}

/// The row shown highlighted in a list of `len` rows.
pub fn active_result_index(stored: usize, len: usize) -> (r: usize)
    ensures
        r == active_row(stored as int, len as int),
{
    if len == 0 {
        0
    } else if stored < len - 1 {
        stored
    } else {
        len - 1
    }
}

/// What `key` does in a list of `len` rows whose stored highlighted index
/// is `stored`: Escape closes; the down arrow highlights the next row (the
/// last row at most; nothing in an empty list); the up arrow the previous
/// one (the first at least); Enter runs the highlighted row when there is
/// one.
pub open spec fn result_list_action(stored: int, len: int, key: ResultListKey) -> ResultListAction {
    match key {
        ResultListKey::Escape => ResultListAction::Close,
        ResultListKey::ArrowDown => if len == 0 {
            ResultListAction::Nothing
        } else if stored + 1 < len - 1 {
            ResultListAction::Highlight((stored + 1) as usize)
        } else {
            ResultListAction::Highlight((len - 1) as usize)
        },
        ResultListKey::ArrowUp => if stored > 0 {
            ResultListAction::Highlight((stored - 1) as usize)
        } else {
            ResultListAction::Highlight(0)
        },
        ResultListKey::Enter => if active_row(stored, len) < len {
            ResultListAction::Choose(active_row(stored, len) as usize)
        } else {
            ResultListAction::Nothing
        },
        ResultListKey::Other => ResultListAction::Nothing,
    }
}

/// What `key` does in a result list.
pub fn result_list_key(stored: usize, len: usize, key: ResultListKey) -> (r: ResultListAction)
    ensures
        r == result_list_action(stored as int, len as int, key),
{
    match key {
        ResultListKey::Escape => ResultListAction::Close,
        ResultListKey::ArrowDown => if len == 0 {
            ResultListAction::Nothing
        } else if stored < len - 1 && stored + 1 < len - 1 {
            ResultListAction::Highlight(stored + 1)
        } else {
            ResultListAction::Highlight(len - 1)
        },
        ResultListKey::ArrowUp => if stored > 0 {
            ResultListAction::Highlight(stored - 1)
        } else {
            ResultListAction::Highlight(0)
        },
        ResultListKey::Enter => {
            let active = active_result_index(stored, len);
            if active < len {
                ResultListAction::Choose(active)
            } else {
                ResultListAction::Nothing
            }
        },
        ResultListKey::Other => ResultListAction::Nothing,
    }
}

} // verus!
