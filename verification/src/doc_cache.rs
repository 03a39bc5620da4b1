//! A bounded cache of what is derived from a document (its preview, its
//! outline), keyed by tab and revision.
use vstd::prelude::*;
use crate::text::{chars_equal, chars_of};

verus! {

broadcast use vstd::string::group_string_axioms;

/// At most this many documents are cached.
pub const MAX_CACHE_ENTRIES: usize = 24;

/// A document: its tab and the revision of its content.
#[derive(Debug, Clone, PartialEq, Eq)]
pub struct DocumentCacheKey {
    pub tab_id: String,
    pub revision: u64,
}

/// The view of a key.
pub open spec fn key_view(k: DocumentCacheKey) -> (Seq<char>, u64) {
    (k.tab_id@, k.revision)
}

impl DocumentCacheKey {
    /// The key of revision `revision` of the tab `tab_id`.
    pub fn new(tab_id: &str, revision: u64) -> (k: Self)
        ensures
            key_view(k) == (tab_id@, revision),
    {
        DocumentCacheKey { tab_id: tab_id.to_owned(), revision }
    }

    /// Whether two keys name the same document revision.
    pub fn same_as(&self, other: &DocumentCacheKey) -> (b: bool)
        ensures
            b == (key_view(*self) == key_view(*other)),
    {
        self.revision == other.revision && chars_equal(
            &chars_of(self.tab_id.as_str()),
            &chars_of(other.tab_id.as_str()),
        )
    }
}

/// The map of entries `s`, later entries winning.
pub open spec fn entries_map<T>(s: Seq<(DocumentCacheKey, T)>) -> Map<(Seq<char>, u64), T>
    decreases s.len(),
{
    if s.len() == 0 {
        Map::empty()
    } else {
        entries_map(s.drop_last()).insert(key_view(s.last().0), s.last().1)
    }
}

/// No two entries of `s` have the same key.
pub open spec fn distinct_keys<T>(s: Seq<(DocumentCacheKey, T)>) -> bool {
    forall|i: int, j: int|
        0 <= i < j < s.len() ==> key_view(#[trigger] s[i].0) != key_view(#[trigger] s[j].0)
}

/// Derived values of at most `MAX_CACHE_ENTRIES` documents.
pub struct DocumentCache<T> {
    entries: Vec<(DocumentCacheKey, T)>,
}

proof fn lemma_map_domain<T>(s: Seq<(DocumentCacheKey, T)>)
    requires
        distinct_keys(s),
    ensures
        entries_map(s).dom().finite(),
        entries_map(s).dom().len() == s.len(),
        forall|k: (Seq<char>, u64)|
            entries_map(s).contains_key(k) <==> exists|i: int| 0 <= i < s.len() && key_view(s[i].0) == k,
        forall|i: int| 0 <= i < s.len() ==> #[trigger] entries_map(s)[key_view(s[i].0)] == s[i].1,
    decreases s.len(),
{
    if s.len() > 0 {
        let t = s.drop_last();
        assert(distinct_keys(t)) by {
            assert forall|i: int, j: int| 0 <= i < j < t.len() implies key_view(#[trigger] t[i].0)
                != key_view(#[trigger] t[j].0) by {
                assert(t[i] == s[i] && t[j] == s[j]);
            }
        }
        lemma_map_domain(t);
        let k = key_view(s.last().0);
        assert(!entries_map(t).contains_key(k)) by {
            if entries_map(t).contains_key(k) {
                let i = choose|i: int| 0 <= i < t.len() && key_view(t[i].0) == k;
                assert(s[i] == t[i]);
                assert(key_view(s[i].0) != key_view(s[s.len() - 1].0));
            }
        }
        assert forall|k2: (Seq<char>, u64)|
            entries_map(s).contains_key(k2) <==> exists|i: int| 0 <= i < s.len() && key_view(s[i].0) == k2 by {
            if entries_map(s).contains_key(k2) && k2 != k {
                let i = choose|i: int| 0 <= i < t.len() && key_view(t[i].0) == k2;
                assert(s[i] == t[i]);
            }
            if exists|i: int| 0 <= i < s.len() && key_view(s[i].0) == k2 {
                let i = choose|i: int| 0 <= i < s.len() && key_view(s[i].0) == k2;
                if i < s.len() - 1 {
                    assert(t[i] == s[i]);
                }
            }
        }
        assert forall|i: int| 0 <= i < s.len() implies #[trigger] entries_map(s)[key_view(s[i].0)]
            == s[i].1 by {
            if i < s.len() - 1 {
                assert(t[i] == s[i]);
                assert(key_view(s[i].0) != k);
                assert(entries_map(t)[key_view(t[i].0)] == t[i].1);
            }
        }
    } else {
        assert(entries_map(s).dom() =~= Set::<(Seq<char>, u64)>::empty());
    }
}

impl<T> DocumentCache<T> {
    /// The cached values by document.
    pub closed spec fn view(&self) -> Map<(Seq<char>, u64), T> {
        entries_map(self.entries@)
    }

    #[verifier::type_invariant]
    closed spec fn bounded(self) -> bool {
        &&& self.entries.len() <= MAX_CACHE_ENTRIES
        &&& distinct_keys(self.entries@)
    }

    /// An empty cache.
    pub fn new() -> (c: Self)
        ensures
            c.view() == Map::<(Seq<char>, u64), T>::empty(),
    {
        let c = DocumentCache { entries: Vec::new() };
        assert(c.view() =~= Map::<(Seq<char>, u64), T>::empty());
        c
    }

    /// The number of documents cached, never more than
    /// `MAX_CACHE_ENTRIES`.
    pub fn len(&self) -> (n: usize)
        ensures
            self.view().dom().finite(),
            n == self.view().dom().len(),
            n <= MAX_CACHE_ENTRIES,
    {
        proof {
            use_type_invariant(self);
            lemma_map_domain(self.entries@);
        }
        self.entries.len()
    }

    fn find(&self, key: &DocumentCacheKey) -> (r: Option<usize>)
        ensures
            match r {
                Some(i) => i < self.entries.len() && key_view(self.entries@[i as int].0) == key_view(*key),
                None => forall|i: int|
                    0 <= i < self.entries.len() ==> key_view(self.entries@[i].0) != key_view(*key),
            },
    {
        let mut i: usize = 0;
        while i < self.entries.len()
            invariant
                i <= self.entries.len(),
                forall|j: int| 0 <= j < i ==> key_view(self.entries@[j].0) != key_view(*key),
            decreases self.entries.len() - i,
        {
            if self.entries[i].0.same_as(key) {
                return Some(i);
            }
            i = i + 1;
        }
        None
    }

    /// The value cached for `key`, if any.
    pub fn get(&self, key: &DocumentCacheKey) -> (r: Option<&T>)
        ensures
            match r {
                Some(v) => self.view().contains_key(key_view(*key)) && self.view()[key_view(*key)] == *v,
                None => !self.view().contains_key(key_view(*key)),
            },
    {
        proof {
            use_type_invariant(self);
            lemma_map_domain(self.entries@);
        }
        match self.find(key) {
            Some(i) => Some(&self.entries[i].1),
            None => None,
        }
    }

    /// Caches `value` for `key`. When `key` is new and the cache is full, one
    /// other document is dropped first (the one cached longest ago).
    pub fn insert_bounded(&mut self, key: DocumentCacheKey, value: T)
        ensures
            old(self).view().contains_key(key_view(key)) || old(self).view().dom().len()
                < MAX_CACHE_ENTRIES ==> final(self).view() == old(self).view().insert(key_view(key), value),
            !old(self).view().contains_key(key_view(key)) && old(self).view().dom().len()
                >= MAX_CACHE_ENTRIES ==> exists|evicted: (Seq<char>, u64)|
                old(self).view().contains_key(evicted) && final(self).view() == old(
                    self,
                ).view().remove(evicted).insert(key_view(key), value),
            final(self).view().contains_key(key_view(key)),
            final(self).view()[key_view(key)] == value,
    {
        proof {
            use_type_invariant(&*self);
            lemma_map_domain(self.entries@);
        }
        let ghost old_entries = self.entries@;
        let ghost old_map = entries_map(old_entries);
        let ghost k = key_view(key);
        match self.find(&key) {
            Some(i) => {
                let mut entries: Vec<(DocumentCacheKey, T)> = Vec::new();
                std::mem::swap(&mut entries, &mut self.entries);
                entries.set(i, (key, value));
                proof {
                    let s = entries@;
                    assert(s =~= old_entries.update(i as int, s[i as int]));
                    assert(distinct_keys(s)) by {
                        assert forall|a: int, b: int| 0 <= a < b < s.len() implies key_view(
                            #[trigger] s[a].0,
                        ) != key_view(#[trigger] s[b].0) by {
                            assert(key_view(s[a].0) == key_view(old_entries[a].0));
                            assert(key_view(s[b].0) == key_view(old_entries[b].0));
                        }
                    }
                    lemma_map_domain(s);
                    assert(entries_map(s) =~= old_map.insert(k, value)) by {
                        assert forall|k2: (Seq<char>, u64)| #[trigger]
                            entries_map(s).contains_key(k2) <==> old_map.insert(k, value).contains_key(k2) by {
                            if exists|j: int| 0 <= j < s.len() && key_view(s[j].0) == k2 {
                                let j = choose|j: int| 0 <= j < s.len() && key_view(s[j].0) == k2;
                                assert(key_view(old_entries[j].0) == k2);
                            }
                            if exists|j: int| 0 <= j < old_entries.len() && key_view(old_entries[j].0) == k2 {
                                let j = choose|j: int| 0 <= j < old_entries.len() && key_view(old_entries[j].0) == k2;
                                assert(key_view(s[j].0) == k2);
                            }
                        }
                        assert forall|k2: (Seq<char>, u64)| #[trigger]
                            entries_map(s).contains_key(k2) implies entries_map(s)[k2] == old_map.insert(k, value)[k2] by {
                            let j = choose|j: int| 0 <= j < s.len() && key_view(s[j].0) == k2;
                            assert(entries_map(s)[key_view(s[j].0)] == s[j].1);
                            if j != i {
                                assert(old_map[key_view(old_entries[j].0)] == old_entries[j].1);
                            }
                        }
                    }
                }
                self.entries = entries;
            },
            None => {
                let mut entries: Vec<(DocumentCacheKey, T)> = Vec::new();
                std::mem::swap(&mut entries, &mut self.entries);
                let ghost evicted_key = key_view(old_entries[0].0);
                if entries.len() >= MAX_CACHE_ENTRIES {
                    entries.remove(0);
                    proof {
                        let s = entries@;
                        assert(s =~= old_entries.subrange(1, old_entries.len() as int));
                        assert(distinct_keys(s)) by {
                            assert forall|a: int, b: int| 0 <= a < b < s.len() implies key_view(
                                #[trigger] s[a].0,
                            ) != key_view(#[trigger] s[b].0) by {
                                assert(s[a] == old_entries[a + 1] && s[b] == old_entries[b + 1]);
                            }
                        }
                        lemma_map_domain(s);
                        assert(entries_map(s) =~= old_map.remove(evicted_key)) by {
                            assert forall|k2: (Seq<char>, u64)| #[trigger]
                                entries_map(s).contains_key(k2) <==> old_map.remove(evicted_key).contains_key(k2) by {
                                if exists|j: int| 0 <= j < s.len() && key_view(s[j].0) == k2 {
                                    let j = choose|j: int| 0 <= j < s.len() && key_view(s[j].0) == k2;
                                    assert(s[j] == old_entries[j + 1]);
                                    assert(key_view(old_entries[0].0) != key_view(old_entries[j + 1].0));
                                }
                                if old_map.remove(evicted_key).contains_key(k2) {
                                    let j = choose|j: int| 0 <= j < old_entries.len() && key_view(old_entries[j].0) == k2;
                                    assert(j != 0);
                                    assert(s[j - 1] == old_entries[j]);
                                }
                            }
                            assert forall|k2: (Seq<char>, u64)| #[trigger]
                                entries_map(s).contains_key(k2) implies entries_map(s)[k2] == old_map.remove(evicted_key)[k2] by {
                                let j = choose|j: int| 0 <= j < s.len() && key_view(s[j].0) == k2;
                                assert(s[j] == old_entries[j + 1]);
                                assert(entries_map(s)[key_view(s[j].0)] == s[j].1);
                                assert(old_map[key_view(old_entries[j + 1].0)] == old_entries[j + 1].1);
                            }
                        }
                    }
                }
                let ghost before_push = entries@;
                entries.push((key, value));
                proof {
                    let s = entries@;
                    assert(s.drop_last() =~= before_push);
                    assert(forall|j: int| 0 <= j < before_push.len() ==> key_view(#[trigger] before_push[j].0) != k) by {
                        assert forall|j: int| 0 <= j < before_push.len() implies key_view(#[trigger] before_push[j].0) != k by {
                            if old_entries.len() >= MAX_CACHE_ENTRIES {
                                assert(before_push[j] == old_entries[j + 1]);
                            } else {
                                assert(before_push[j] == old_entries[j]);
                            }
                        }
                    }
                    assert(distinct_keys(s)) by {
                        assert forall|a: int, b: int| 0 <= a < b < s.len() implies key_view(
                            #[trigger] s[a].0,
                        ) != key_view(#[trigger] s[b].0) by {
                            if b < s.len() - 1 {
                                assert(s[a] == before_push[a] && s[b] == before_push[b]);
                            } else {
                                assert(s[a] == before_push[a]);
                            }
                        }
                    }
                    if old_entries.len() >= MAX_CACHE_ENTRIES {
                        assert(old_map.contains_key(evicted_key));
                        assert(entries_map(s) == old_map.remove(evicted_key).insert(k, value));
                    } else {
                        assert(before_push == old_entries);
                    }
                }
                self.entries = entries;
            },
        }
    }
}

/// A value derived from a document in the background, with the document
/// it was derived from.
pub struct DerivedState<T> {
    pub key: Option<DocumentCacheKey>,
    pub value: T,
}

/// The view of an optional key.
pub open spec fn opt_key_view(k: Option<DocumentCacheKey>) -> Option<(Seq<char>, u64)> {
    match k {
        Some(k) => Some(key_view(k)),
        None => None,
    }
}

/// The view of an optional borrowed key.
pub open spec fn ref_key_view(k: Option<&DocumentCacheKey>) -> Option<(Seq<char>, u64)> {
    match k {
        Some(k) => Some(key_view(*k)),
        None => None,
    }
}

/// What is shown for the document `key`: its cached value, else the
/// background result when it was derived from that same document, else
/// nothing (a result of another revision is stale).
pub open spec fn derived_value<T>(
    cache: Map<(Seq<char>, u64), T>,
    key: Option<(Seq<char>, u64)>,
    state: Option<(Option<(Seq<char>, u64)>, T)>,
) -> Option<T> {
    match (key, state) {
        (Some(k), _) if cache.contains_key(k) => Some(cache[k]),
        (_, Some((state_key, value))) if state_key == key => Some(value),
        _ => None,
    }
}

/// The view of an optional background result.
pub open spec fn state_view<T>(state: Option<&DerivedState<T>>) -> Option<(Option<(Seq<char>, u64)>, T)> {
    match state {
        Some(s) => Some((opt_key_view(s.key), s.value)),
        None => None,
    }
}

fn same_opt_key(a: Option<&DocumentCacheKey>, b: Option<&DocumentCacheKey>) -> (r: bool)
    ensures
        r == (match (a, b) {
            (Some(x), Some(y)) => key_view(*x) == key_view(*y),
            (None, None) => true,
            _ => false,
        }),
{
    match (a, b) {
        (Some(x), Some(y)) => x.same_as(y),
        (None, None) => true,
        _ => false,
    }
}

/// The value shown for the document `key`: the cached one, else the
/// background result if it belongs to that document.
pub fn resolve_derived<'a, T>(
    cache: &'a DocumentCache<T>,
    key: Option<&DocumentCacheKey>,
    state: Option<&'a DerivedState<T>>,
) -> (r: Option<&'a T>)
    ensures
        match r {
            Some(v) => derived_value(cache.view(), ref_key_view(key), state_view(state)) == Some(*v),
            None => derived_value(cache.view(), ref_key_view(key), state_view(state)) is None,
        },
{
    if let Some(k) = key {
        if let Some(v) = cache.get(k) {
            return Some(v);
        }
    }
    match state {
        Some(s) => {
            if same_opt_key(s.key.as_ref(), key) {
                Some(&s.value)
            } else {
                None
            }
        },
        None => None,
    }
}

/// Whether a background result was derived from the document `key` (a
/// result of another revision is stale).
pub fn derived_state_matches<T>(state: Option<&DerivedState<T>>, key: &DocumentCacheKey) -> (b: bool)
    ensures
        b == (match state {
            Some(s) => opt_key_view(s.key) == Some(key_view(*key)),
            None => false,
        }),
{
    match state {
        Some(s) => match &s.key {
            Some(k) => k.same_as(key),
            None => false,
        },
        None => false,
    }
}

} // verus!
