//! The editor pane's bookkeeping: which editor hosts appeared, were hidden,
//! shown again or dropped between two renders, and the labels of its tools.
use vstd::prelude::*;
use crate::models::ViewMode;

verus! {

broadcast use vstd::string::group_string_axioms;

// ---------------------------------------------------------------------
// Small labels
// ---------------------------------------------------------------------

/// The English name of a view mode.
pub open spec fn view_mode_name_en(mode: ViewMode) -> Seq<char> {
    match mode {
        ViewMode::Source => "Source"@,
        ViewMode::Hybrid => "Hybrid"@,
        ViewMode::Preview => "Preview"@,
    }
}

/// The label of a view mode's button.
pub fn view_mode_label(mode: &ViewMode) -> (r: &'static str)
    ensures
        r@ == view_mode_name_en(*mode),
{
    match mode {
        ViewMode::Source => "Source",
        ViewMode::Hybrid => "Hybrid",
        ViewMode::Preview => "Preview",
    }
}

/// The classes of a view mode's button, marked active for the current mode.
pub fn view_mode_option_class(current: &ViewMode, mode: &ViewMode) -> (r: &'static str)
    ensures
        r@ == (if *current == *mode {
            "mn-view-mode-option active"@
        } else {
            "mn-view-mode-option"@
        }),
{
    if *current == *mode {
        "mn-view-mode-option active"
    } else {
        "mn-view-mode-option"
    }
}

/// The tooltip of the sidebar toggle.
pub fn sidebar_toggle_label(collapsed: bool) -> (r: &'static str)
    ensures
        r@ == (if collapsed {
            "Show sidebar (Ctrl+\\)"@
        } else {
            "Hide sidebar (Ctrl+\\)"@
        }),
{
    if collapsed {
        "Show sidebar (Ctrl+\\)"
    } else {
        "Hide sidebar (Ctrl+\\)"
    }
}

/// The icon classes of the sidebar toggle.
pub fn sidebar_toggle_icon_class(collapsed: bool) -> (r: &'static str)
    ensures
        r@ == (if collapsed {
            "mn-tool-icon sidebar-closed"@
        } else {
            "mn-tool-icon sidebar-open"@
        }),
{
    if collapsed {
        "mn-tool-icon sidebar-closed"
    } else {
        "mn-tool-icon sidebar-open"
    }
}

/// The classes of the outline tool, marked active while the outline shows.
pub fn outline_tool_class(visible: bool) -> (r: &'static str)
    ensures
        r@ == (if visible {
            "mn-editor-tool icon-only active"@
        } else {
            "mn-editor-tool icon-only"@
        }),
{
    if visible {
        "mn-editor-tool icon-only active"
    } else {
        "mn-editor-tool icon-only"
    }
}

/// The view mode a host runs in: hidden hosts stay in source mode.
pub fn host_runtime_view_mode(is_active: bool, view_mode: &ViewMode) -> (r: ViewMode)
    ensures
        r == (if is_active {
            *view_mode
        } else {
            ViewMode::Source
        }),
{
    if is_active {
        *view_mode
    } else {
        ViewMode::Source
    }
}

/// Whether a host turns pasted links into Markdown links: only the shown
/// host follows the preference.
pub fn host_runtime_auto_link_paste(is_active: bool, auto_link_paste: bool) -> (r: bool)
    ensures
        r == (is_active && auto_link_paste),
{
    is_active && auto_link_paste
}

/// The block hints a host receives: only the shown host gets them.
pub fn block_hints_for_host<'a, T>(is_active: bool, block_hints: Option<&'a T>) -> (r: Option<&'a T>)
    ensures
        r == (if is_active {
            block_hints
        } else {
            None
        }),
{
    if is_active {
        block_hints
    } else {
        None
    }
}

/// The workspace path the preview resolves links against: only the
/// preview mode needs it.
pub fn preview_workspace_path(view_mode: ViewMode, workspace_path: Option<String>) -> (r: Option<String>)
    ensures
        r == (if view_mode is Preview {
            workspace_path
        } else {
            None
        }),
{
    match view_mode {
        ViewMode::Preview => workspace_path,
        _ => None,
    }
}

/// Where one editor host stands in the pane, and what it is given.
#[derive(Debug, Clone, PartialEq, Eq)]
pub struct HostSlot {
    /// The tab the host edits.
    pub tab_id: String,
    /// Whether its slot is hidden.
    pub hidden: bool,
    /// Whether the host is shown for editing.
    pub is_visible: bool,
    /// The view mode its runtime runs in.
    pub view_mode: ViewMode,
    /// Whether it turns pasted links into Markdown links.
    pub auto_link_paste: bool,
    /// Whether it receives the document's block hints.
    pub receives_block_hints: bool,
}

/// What the editor pane shows: the document (its edit area, the preview
/// and the outline) when a tab is active, else the empty state; and a slot
/// for each host, in order.
#[derive(Debug, Clone, PartialEq, Eq)]
pub struct PaneLayout {
    pub shows_document: bool,
    pub edit_area_hidden: bool,
    pub shows_preview: bool,
    pub shows_outline: bool,
    pub shows_empty_state: bool,
    pub hosts: Vec<HostSlot>,
}

/// The slot of host `h`: only the active host of a pane that shows a
/// document is shown; it edits unless the mode is the preview, and alone
/// follows the view mode, the paste preference and the block hints.
pub open spec fn slot_of(
    s: HostSlot,
    h: EditorHostItemViewModel,
    has_active_tab: bool,
    view_mode: ViewMode,
    auto_link_paste: bool,
) -> bool {
    let shown = has_active_tab && h.is_active;
    &&& s.tab_id@ == h.tab_id@
    &&& s.hidden == !shown
    &&& s.is_visible == (shown && view_mode.spec_is_editable())
    &&& s.view_mode == (if shown {
        view_mode
    } else {
        ViewMode::Source
    })
    &&& s.auto_link_paste == (shown && auto_link_paste)
    &&& s.receives_block_hints == shown
}

/// What the editor pane shows, and how each of its hosts is placed.
pub fn editor_pane_layout(
    has_active_tab: bool,
    view_mode: ViewMode,
    outline_visible: bool,
    auto_link_paste: bool,
    hosts: &[EditorHostItemViewModel],
) -> (r: PaneLayout)
    ensures
        r.shows_document == has_active_tab,
        r.shows_empty_state == !has_active_tab,
        r.edit_area_hidden == (view_mode is Preview),
        r.shows_preview == (has_active_tab && view_mode is Preview),
        r.shows_outline == (has_active_tab && outline_visible),
        r.hosts.len() == hosts.len(),
        forall|i: int|
            0 <= i < hosts.len() ==> slot_of(
                #[trigger] r.hosts@[i],
                hosts@[i],
                has_active_tab,
                view_mode,
                auto_link_paste,
            ),
{
    let is_preview = match view_mode {
        ViewMode::Preview => true,
        _ => false,
    };
    let mut slots: Vec<HostSlot> = Vec::new();
    let mut i: usize = 0;
    while i < hosts.len()
        invariant
            i <= hosts.len(),
            slots.len() == i,
            forall|k: int|
                0 <= k < i ==> slot_of(
                    #[trigger] slots@[k],
                    hosts@[k],
                    has_active_tab,
                    view_mode,
                    auto_link_paste,
                ),
        decreases hosts.len() - i,
    {
        let shown = has_active_tab && hosts[i].is_active;
        slots.push(
            HostSlot {
                tab_id: hosts[i].tab_id.clone(),
                hidden: !shown,
                is_visible: shown && view_mode.is_editable(),
                view_mode: host_runtime_view_mode(shown, &view_mode),
                auto_link_paste: host_runtime_auto_link_paste(shown, auto_link_paste),
                receives_block_hints: shown,
            },
        );
        i = i + 1;
    }
    PaneLayout {
        shows_document: has_active_tab,
        edit_area_hidden: is_preview,
        shows_preview: has_active_tab && is_preview,
        shows_outline: has_active_tab && outline_visible,
        shows_empty_state: !has_active_tab,
        hosts: slots,
    }
}

// ---------------------------------------------------------------------
// Tab id -> shown, in the order the tabs were first recorded
// ---------------------------------------------------------------------

/// The position of the entry for tab `k`, or -1.
pub open spec fn key_index(s: Seq<(Seq<char>, bool)>, k: Seq<char>) -> int
    decreases s.len(),
{
    if s.len() == 0 {
        -1
    } else if s.last().0 == k {
        s.len() - 1
    } else {
        key_index(s.drop_last(), k)
    }
}

/// Whether the host of tab `k` was shown, if it is recorded.
pub open spec fn lookup(s: Seq<(Seq<char>, bool)>, k: Seq<char>) -> Option<bool> {
    if key_index(s, k) >= 0 {
        Some(s[key_index(s, k)].1)
    } else {
        None
    }
}

/// `s` with tab `k` recorded as `v`: its entry is updated in place, or a
/// new entry is appended.
pub open spec fn with_entry(s: Seq<(Seq<char>, bool)>, k: Seq<char>, v: bool) -> Seq<(Seq<char>, bool)> {
    if key_index(s, k) >= 0 {
        s.update(key_index(s, k), (k, v))
    } else {
        s.push((k, v))
    }
}

/// No tab is recorded twice.
pub open spec fn distinct_tabs(s: Seq<(Seq<char>, bool)>) -> bool {
    forall|i: int, j: int| 0 <= i < j < s.len() ==> #[trigger] s[i].0 != #[trigger] s[j].0
}

proof fn lemma_key_index(s: Seq<(Seq<char>, bool)>, k: Seq<char>)
    ensures
        -1 <= key_index(s, k) < s.len(),
        key_index(s, k) >= 0 ==> s[key_index(s, k)].0 == k,
        key_index(s, k) == -1 ==> forall|i: int| 0 <= i < s.len() ==> s[i].0 != k,
    decreases s.len(),
{
    if s.len() > 0 {
        lemma_key_index(s.drop_last(), k);
        if s.last().0 != k {
            assert(forall|i: int| 0 <= i < s.len() - 1 ==> s.drop_last()[i] == s[i]);
        }
    }
}

proof fn lemma_key_index_same_tabs(s: Seq<(Seq<char>, bool)>, t: Seq<(Seq<char>, bool)>, k: Seq<char>)
    requires
        s.len() == t.len(),
        forall|i: int| 0 <= i < s.len() ==> s[i].0 == t[i].0,
    ensures
        key_index(s, k) == key_index(t, k),
    decreases s.len(),
{
    if s.len() > 0 {
        assert(forall|i: int| 0 <= i < s.len() - 1 ==> s.drop_last()[i] == s[i] && t.drop_last()[i] == t[i]);
        lemma_key_index_same_tabs(s.drop_last(), t.drop_last(), k);
    }
}

/// What recording a tab does to the lookup of every tab.
pub proof fn lemma_lookup_with_entry(s: Seq<(Seq<char>, bool)>, k: Seq<char>, v: bool, q: Seq<char>)
    ensures
        lookup(with_entry(s, k, v), q) == (if q == k {
            Some(v)
        } else {
            lookup(s, q)
        }),
{
    lemma_key_index(s, k);
    lemma_key_index(s, q);
    let t = with_entry(s, k, v);
    if key_index(s, k) >= 0 {
        lemma_key_index_same_tabs(s, t, q);
        if q == k {
        } else {
            lemma_key_index(t, q);
        }
    } else {
        assert(t.drop_last() =~= s);
    }
}

/// For each shown tab, whether its host was active, as a table.
pub struct HostLifecycleMap {
    entries: Vec<(String, bool)>,
}

impl HostLifecycleMap {
    /// The recorded tabs, in the order they were first recorded.
    pub closed spec fn view(&self) -> Seq<(Seq<char>, bool)> {
        self.entries@.map_values(|e: (String, bool)| (e.0@, e.1))
    }

    #[verifier::type_invariant]
    closed spec fn tabs_distinct(self) -> bool {
        distinct_tabs(self.view())
    }

    /// An empty table.
    pub fn new() -> (m: Self)
        ensures
            m@ == Seq::<(Seq<char>, bool)>::empty(),
    {
        let m = HostLifecycleMap { entries: Vec::new() };
        assert(m@ =~= Seq::<(Seq<char>, bool)>::empty());
        m
    }

    /// The number of recorded tabs.
    pub fn len(&self) -> (n: usize)
        ensures
            n == self@.len(),
    {
        self.entries.len()
    }

    fn find(&self, tab_id: &String) -> (r: Option<usize>)
        ensures
            match r {
                Some(i) => i == key_index(self@, tab_id@),
                None => key_index(self@, tab_id@) == -1,
            },
    {
        let mut i = self.entries.len();
        assert(self@.take(i as int) =~= self@);
        while i > 0
            invariant
                i <= self.entries.len(),
                key_index(self@, tab_id@) == key_index(self@.take(i as int), tab_id@),
            decreases i,
        {
            assert(self@.take(i as int).last() == self@[i - 1]);
            if self.entries[i - 1].0 == *tab_id {
                return Some(i - 1);
            }
            assert(self@.take(i as int).drop_last() =~= self@.take(i - 1));
            i = i - 1;
        }
        None
    }

    /// Whether the host of `tab_id` was shown, if the tab is recorded.
    pub fn get(&self, tab_id: &String) -> (r: Option<bool>)
        ensures
            r == lookup(self@, tab_id@),
    {
        proof {
            lemma_key_index(self@, tab_id@);
        }
        match self.find(tab_id) {
            Some(i) => Some(self.entries[i].1),
            None => None,
        }
    }

    /// Whether the tab is recorded.
    pub fn contains_key(&self, tab_id: &String) -> (b: bool)
        ensures
            b == lookup(self@, tab_id@) is Some,
    {
        self.find(tab_id).is_some()
    }

    /// Records whether the host of `tab_id` is shown.
    pub fn insert(&mut self, tab_id: String, is_active: bool)
        ensures
            final(self)@ == with_entry(old(self)@, tab_id@, is_active),
    {
        proof {
            use_type_invariant(&*self);
            lemma_key_index(self@, tab_id@);
        }
        let ghost before = self@;
        let ghost k = tab_id@;
        let found = self.find(&tab_id);
        let mut entries: Vec<(String, bool)> = Vec::new();
        std::mem::swap(&mut entries, &mut self.entries);
        match found {
            Some(i) => {
                entries.set(i, (tab_id, is_active));
                proof {
                    let after = entries@.map_values(|e: (String, bool)| (e.0@, e.1));
                    assert(after =~= before.update(i as int, (k, is_active)));
                    assert(distinct_tabs(after)) by {
                        assert forall|a: int, b: int| 0 <= a < b < after.len() implies #[trigger] after[a].0
                            != #[trigger] after[b].0 by {
                            assert(after[a].0 == before[a].0);
                            assert(after[b].0 == before[b].0);
                        }
                    }
                }
            },
            None => {
                entries.push((tab_id, is_active));
                proof {
                    let after = entries@.map_values(|e: (String, bool)| (e.0@, e.1));
                    assert(after =~= before.push((k, is_active)));
                    assert(distinct_tabs(after)) by {
                        assert forall|a: int, b: int| 0 <= a < b < after.len() implies #[trigger] after[a].0
                            != #[trigger] after[b].0 by {
                            if b == after.len() - 1 {
                                assert(before[a].0 != k);
                            } else {
                                assert(after[a] == before[a] && after[b] == before[b]);
                            }
                        }
                    }
                }
            },
        }
        self.entries = entries;
    }
}

// ---------------------------------------------------------------------
// Host lifecycle
// ---------------------------------------------------------------------

/// One editor host of the pane: the tab it edits and whether it is shown.
#[derive(Debug, Clone)]
pub struct EditorHostItemViewModel {
    pub tab_id: String,
    pub is_active: bool,
    pub initial_content: String,
}

/// A host as its tab id and whether it is shown.
pub open spec fn hosts_view(hs: Seq<EditorHostItemViewModel>) -> Seq<(Seq<char>, bool)> {
    hs.map_values(|h: EditorHostItemViewModel| (h.tab_id@, h.is_active))
}

/// The table recorded from a list of hosts, in order (a later host of the
/// same tab wins).
pub open spec fn hosts_entries(hs: Seq<(Seq<char>, bool)>) -> Seq<(Seq<char>, bool)>
    decreases hs.len(),
{
    if hs.len() == 0 {
        seq![]
    } else {
        with_entry(hosts_entries(hs.drop_last()), hs.last().0, hs.last().1)
    }
}

/// Some host edits tab `k`.
pub open spec fn has_tab(hs: Seq<(Seq<char>, bool)>, k: Seq<char>) -> bool {
    exists|i: int| 0 <= i < hs.len() && hs[i].0 == k
}

/// Records, for each host, whether it is shown.
pub fn host_lifecycle_map(current: &[EditorHostItemViewModel]) -> (m: HostLifecycleMap)
    ensures
        m@ == hosts_entries(hosts_view(current@)),
{
    let mut m = HostLifecycleMap::new();
    let mut i: usize = 0;
    while i < current.len()
        invariant
            i <= current.len(),
            m@ == hosts_entries(hosts_view(current@).take(i as int)),
        decreases current.len() - i,
    {
        let ghost hv = hosts_view(current@);
        assert(hv.take(i + 1).drop_last() =~= hv.take(i as int));
        assert(hv.take(i + 1).last() == (current@[i as int].tab_id@, current@[i as int].is_active));
        m.insert(current[i].tab_id.clone(), current[i].is_active);
        i = i + 1;
    }
    assert(hosts_view(current@).take(current.len() as int) =~= hosts_view(current@));
    m
}

/// The tabs of the entries of `hs` that `keep` selects, in order.
pub open spec fn ids_where(hs: Seq<(Seq<char>, bool)>, keep: spec_fn((Seq<char>, bool)) -> bool) -> Seq<Seq<char>>
    decreases hs.len(),
{
    if hs.len() == 0 {
        seq![]
    } else if keep(hs.last()) {
        ids_where(hs.drop_last(), keep).push(hs.last().0)
    } else {
        ids_where(hs.drop_last(), keep)
    }
}

/// Hosts whose tab was not recorded before.
pub open spec fn created_ids(previous: Seq<(Seq<char>, bool)>, hs: Seq<(Seq<char>, bool)>) -> Seq<Seq<char>> {
    ids_where(hs, |h: (Seq<char>, bool)| lookup(previous, h.0) is None)
}

/// Hosts that were shown and are now hidden.
pub open spec fn hidden_ids(previous: Seq<(Seq<char>, bool)>, hs: Seq<(Seq<char>, bool)>) -> Seq<Seq<char>> {
    ids_where(hs, |h: (Seq<char>, bool)| lookup(previous, h.0) == Some(true) && !h.1)
}

/// Hosts that were hidden and are now shown.
pub open spec fn restored_ids(previous: Seq<(Seq<char>, bool)>, hs: Seq<(Seq<char>, bool)>) -> Seq<Seq<char>> {
    ids_where(hs, |h: (Seq<char>, bool)| lookup(previous, h.0) == Some(false) && h.1)
}

/// Recorded tabs that no host edits any more, in the order they were
/// recorded.
pub open spec fn retired_ids(previous: Seq<(Seq<char>, bool)>, hs: Seq<(Seq<char>, bool)>) -> Seq<Seq<char>> {
    ids_where(previous, |e: (Seq<char>, bool)| !has_tab(hs, e.0))
}

/// The tab of the first shown host.
pub open spec fn first_active(hs: Seq<(Seq<char>, bool)>) -> Option<Seq<char>>
    decreases hs.len(),
{
    if hs.len() == 0 {
        None
    } else if hs[0].1 {
        Some(hs[0].0)
    } else {
        first_active(hs.drop_first())
    }
}

/// What changed in the pool of editor hosts between two renders.
#[derive(Debug, Default, Clone)]
pub struct HostLifecycleChange {
    pub active_tab_id: Option<String>,
    pub host_count: usize,
    pub created: Vec<String>,
    pub restored: Vec<String>,
    pub hidden: Vec<String>,
    pub retired: Vec<String>,
}

/// The view of a list of strings.
pub open spec fn strings_view(v: Seq<String>) -> Seq<Seq<char>> {
    v.map_values(|s: String| s@)
}

impl HostLifecycleChange {
    /// Whether any host was created, restored, hidden or retired.
    pub fn has_changes(&self) -> (b: bool)
        ensures
            b == (self.created.len() > 0 || self.restored.len() > 0 || self.hidden.len() > 0
                || self.retired.len() > 0),
    {
        !self.created.is_empty() || !self.restored.is_empty() || !self.hidden.is_empty()
            || !self.retired.is_empty()
    }
}

/// Registering every host adds exactly their tabs.
pub proof fn lemma_hosts_entries_tabs(hs: Seq<(Seq<char>, bool)>, k: Seq<char>)
    ensures
        (lookup(hosts_entries(hs), k) is Some) == has_tab(hs, k),
    decreases hs.len(),
{
    if hs.len() > 0 {
        let rest = hs.drop_last();
        lemma_hosts_entries_tabs(rest, k);
        lemma_lookup_with_entry(hosts_entries(rest), hs.last().0, hs.last().1, k);
        if has_tab(rest, k) {
            let i = choose|i: int| 0 <= i < rest.len() && rest[i].0 == k;
            assert(hs[i] == rest[i]);
        }
        if has_tab(hs, k) && hs.last().0 != k {
            let i = choose|i: int| 0 <= i < hs.len() && hs[i].0 == k;
            assert(rest[i] == hs[i]);
        }
    }
}

fn first_active_host(current: &[EditorHostItemViewModel]) -> (r: Option<String>)
    ensures
        match r {
            Some(t) => first_active(hosts_view(current@)) == Some(t@),
            None => first_active(hosts_view(current@)) is None,
        },
{
    let ghost hv = hosts_view(current@);
    let mut i: usize = 0;
    assert(hv.skip(0) =~= hv);
    while i < current.len()
        invariant
            i <= current.len(),
            hv == hosts_view(current@),
            first_active(hv) == first_active(hv.skip(i as int)),
        decreases current.len() - i,
    {
        assert(hv.skip(i as int)[0] == hv[i as int]);
        if current[i].is_active {
            return Some(current[i].tab_id.clone());
        }
        assert(hv.skip(i as int).drop_first() =~= hv.skip(i + 1));
        i = i + 1;
    }
    assert(hv.skip(i as int).len() == 0);
    None
}

/// Compares the hosts recorded at the last render with the current ones:
/// hosts of new tabs are created, hosts that were shown and are not are
/// hidden, hosts that were hidden and are shown are restored, and tabs
/// that no current host edits are retired.
pub fn host_lifecycle_change(previous: &HostLifecycleMap, current: &[EditorHostItemViewModel]) -> (r: HostLifecycleChange)
    ensures
        match r.active_tab_id {
            Some(t) => first_active(hosts_view(current@)) == Some(t@),
            None => first_active(hosts_view(current@)) is None,
        },
        r.host_count == current.len(),
        strings_view(r.created@) == created_ids(previous@, hosts_view(current@)),
        strings_view(r.hidden@) == hidden_ids(previous@, hosts_view(current@)),
        strings_view(r.restored@) == restored_ids(previous@, hosts_view(current@)),
        strings_view(r.retired@) == retired_ids(previous@, hosts_view(current@)),
{
    let ghost hv = hosts_view(current@);
    let ghost pv = previous@;
    let current_map = host_lifecycle_map(current);
    let mut created: Vec<String> = Vec::new();
    let mut hidden: Vec<String> = Vec::new();
    let mut restored: Vec<String> = Vec::new();
    let mut i: usize = 0;
    while i < current.len()
        invariant
            i <= current.len(),
            hv == hosts_view(current@),
            pv == previous@,
            strings_view(created@) == created_ids(pv, hv.take(i as int)),
            strings_view(hidden@) == hidden_ids(pv, hv.take(i as int)),
            strings_view(restored@) == restored_ids(pv, hv.take(i as int)),
        decreases current.len() - i,
    {
        let ghost t = hv.take(i + 1);
        assert(t.drop_last() =~= hv.take(i as int));
        assert(t.last() == (current@[i as int].tab_id@, current@[i as int].is_active));
        let host = &current[i];
        match previous.get(&host.tab_id) {
            None => {
                let ghost before = created@;
                created.push(host.tab_id.clone());
                assert(strings_view(created@) =~= strings_view(before).push(host.tab_id@));
            },
            Some(was_active) => {
                if was_active && !host.is_active {
                    let ghost before = hidden@;
                    hidden.push(host.tab_id.clone());
                    assert(strings_view(hidden@) =~= strings_view(before).push(host.tab_id@));
                } else if !was_active && host.is_active {
                    let ghost before = restored@;
                    restored.push(host.tab_id.clone());
                    assert(strings_view(restored@) =~= strings_view(before).push(host.tab_id@));
                }
            },
        }
        i = i + 1;
    }
    assert(hv.take(current.len() as int) =~= hv);
    let mut retired: Vec<String> = Vec::new();
    let mut j: usize = 0;
    while j < previous.len()
        invariant
            j <= pv.len(),
            pv == previous@,
            hv == hosts_view(current@),
            current_map@ == hosts_entries(hv),
            strings_view(retired@) == retired_ids(pv.take(j as int), hv),
        decreases pv.len() - j,
    {
        let ghost t = pv.take(j + 1);
        assert(t.drop_last() =~= pv.take(j as int));
        let tab_id = previous.tab_at(j);
        assert(t.last() == pv[j as int]);
        proof {
            lemma_hosts_entries_tabs(hv, tab_id@);
        }
        if !current_map.contains_key(&tab_id) {
            let ghost before = retired@;
            retired.push(tab_id);
            assert(strings_view(retired@) =~= strings_view(before).push(pv[j as int].0));
        }
        j = j + 1;
    }
    assert(pv.take(pv.len() as int) =~= pv);
    HostLifecycleChange {
        active_tab_id: first_active_host(current),
        host_count: current.len(),
        created,
        restored,
        hidden,
        retired,
    }
}

impl HostLifecycleMap {
    /// The tab of the `i`-th entry.
    pub fn tab_at(&self, i: usize) -> (t: String)
        requires
            i < self@.len(),
        ensures
            t@ == self@[i as int].0,
    {
        self.entries[i].0.clone()
    }
}

/// The bridges of `bridge_ids` whose tab no host edits, in order.
pub open spec fn stale_ids(bridge_ids: Seq<Seq<char>>, hs: Seq<(Seq<char>, bool)>) -> Seq<Seq<char>>
    decreases bridge_ids.len(),
{
    if bridge_ids.len() == 0 {
        seq![]
    } else if has_tab(hs, bridge_ids.last()) {
        stale_ids(bridge_ids.drop_last(), hs)
    } else {
        stale_ids(bridge_ids.drop_last(), hs).push(bridge_ids.last())
    }
}

/// The editor bridges to destroy: those whose tab no current host edits.
pub fn stale_bridge_ids(bridge_ids: &[String], current: &[EditorHostItemViewModel]) -> (r: Vec<String>)
    ensures
        strings_view(r@) == stale_ids(strings_view(bridge_ids@), hosts_view(current@)),
{
    let ghost bv = strings_view(bridge_ids@);
    let ghost hv = hosts_view(current@);
    let valid = host_lifecycle_map(current);
    let mut stale: Vec<String> = Vec::new();
    let mut i: usize = 0;
    while i < bridge_ids.len()
        invariant
            i <= bridge_ids.len(),
            bv == strings_view(bridge_ids@),
            hv == hosts_view(current@),
            valid@ == hosts_entries(hv),
            strings_view(stale@) == stale_ids(bv.take(i as int), hv),
        decreases bridge_ids.len() - i,
    {
        assert(bv.take(i + 1).drop_last() =~= bv.take(i as int));
        assert(bv.take(i + 1).last() == bridge_ids@[i as int]@);
        proof {
            lemma_hosts_entries_tabs(hv, bridge_ids@[i as int]@);
        }
        if !valid.contains_key(&bridge_ids[i]) {
            let ghost before = stale@;
            stale.push(bridge_ids[i].clone());
            assert(strings_view(stale@) =~= strings_view(before).push(bridge_ids@[i as int]@));
        }
        i = i + 1;
    }
    assert(bv.take(bridge_ids.len() as int) =~= bv);
    stale
}

proof fn lemma_ids_where_none(hs: Seq<(Seq<char>, bool)>, keep: spec_fn((Seq<char>, bool)) -> bool)
    requires
        forall|i: int| 0 <= i < hs.len() ==> !keep(#[trigger] hs[i]),
    ensures
        ids_where(hs, keep) == Seq::<Seq<char>>::empty(),
    decreases hs.len(),
{
    if hs.len() > 0 {
        assert(forall|i: int| 0 <= i < hs.len() - 1 ==> hs.drop_last()[i] == hs[i]);
        lemma_ids_where_none(hs.drop_last(), keep);
        assert(!keep(hs[hs.len() - 1]));
    }
}

proof fn lemma_hosts_entries_lookup(hs: Seq<(Seq<char>, bool)>)
    requires
        distinct_tabs(hs),
    ensures
        forall|i: int| 0 <= i < hs.len() ==> lookup(hosts_entries(hs), #[trigger] hs[i].0) == Some(hs[i].1),
    decreases hs.len(),
{
    if hs.len() > 0 {
        let rest = hs.drop_last();
        assert(forall|i: int| 0 <= i < rest.len() ==> rest[i] == hs[i]);
        lemma_hosts_entries_lookup(rest);
        assert forall|i: int| 0 <= i < hs.len() implies lookup(hosts_entries(hs), #[trigger] hs[i].0) == Some(hs[i].1) by {
            lemma_lookup_with_entry(hosts_entries(rest), hs.last().0, hs.last().1, hs[i].0);
            if i < hs.len() - 1 {
                assert(rest[i] == hs[i]);
            }
        }
    }
}

proof fn lemma_hosts_entries_keys(hs: Seq<(Seq<char>, bool)>)
    ensures
        forall|i: int| 0 <= i < hosts_entries(hs).len() ==> has_tab(hs, #[trigger] hosts_entries(hs)[i].0),
    decreases hs.len(),
{
    if hs.len() > 0 {
        let rest = hs.drop_last();
        lemma_hosts_entries_keys(rest);
        let prev = hosts_entries(rest);
        let k = hs.last().0;
        lemma_key_index(prev, k);
        assert forall|i: int| 0 <= i < hosts_entries(hs).len() implies has_tab(hs, #[trigger] hosts_entries(hs)[i].0) by {
            if i < prev.len() && (key_index(prev, k) < 0 || i != key_index(prev, k)) {
                assert(hosts_entries(hs)[i] == prev[i]);
                assert(has_tab(rest, prev[i].0));
                let j = choose|j: int| 0 <= j < rest.len() && rest[j].0 == prev[i].0;
                assert(hs[j] == rest[j]);
            } else {
                assert(hosts_entries(hs)[i].0 == k);
                assert(hs[hs.len() - 1].0 == k);
            }
        }
    }
}

/// Comparing hosts with the table recorded from those same hosts finds
/// nothing created, hidden, restored or retired (when no two hosts edit
/// the same tab).
pub proof fn stable_pool_has_no_changes(hs: Seq<(Seq<char>, bool)>)
    requires
        distinct_tabs(hs),
    ensures
        created_ids(hosts_entries(hs), hs) == Seq::<Seq<char>>::empty(),
        hidden_ids(hosts_entries(hs), hs) == Seq::<Seq<char>>::empty(),
        restored_ids(hosts_entries(hs), hs) == Seq::<Seq<char>>::empty(),
        retired_ids(hosts_entries(hs), hs) == Seq::<Seq<char>>::empty(),
{
    let prev = hosts_entries(hs);
    lemma_hosts_entries_lookup(hs);
    lemma_hosts_entries_keys(hs);
    lemma_ids_where_none(hs, |h: (Seq<char>, bool)| lookup(prev, h.0) is None);
    lemma_ids_where_none(hs, |h: (Seq<char>, bool)| lookup(prev, h.0) == Some(true) && !h.1);
    lemma_ids_where_none(hs, |h: (Seq<char>, bool)| lookup(prev, h.0) == Some(false) && h.1);
    lemma_ids_where_none(prev, |e: (Seq<char>, bool)| !has_tab(hs, e.0));
}


// ---------------------------------------------------------------------
// The runtime bridges of the pane's hosts
// ---------------------------------------------------------------------

proof fn lemma_push_contains(s: Seq<Seq<char>>, a: Seq<char>, t: Seq<char>)
    ensures
        s.push(a).contains(t) <==> (s.contains(t) || t == a),
{
    if s.contains(t) {
        let k = choose|k: int| 0 <= k < s.len() && s[k] == t;
        assert(s.push(a)[k] == t);
    }
    if t == a {
        assert(s.push(a)[s.len() as int] == a);
    }
    if s.push(a).contains(t) {
        let k = choose|k: int| 0 <= k < s.len() + 1 && s.push(a)[k] == t;
        if k < s.len() {
            assert(s[k] == t);
        }
    }
}

/// The tabs whose editor runtimes have a bridge, each once.
pub struct EditorBridges {
    ids: Vec<String>,
}

impl EditorBridges {
    /// The tabs with a bridge.
    pub closed spec fn view(&self) -> Set<Seq<char>> {
        strings_view(self.ids@).to_set()
    }

    /// No bridge.
    pub fn new() -> (r: Self)
        ensures
            r@ == Set::<Seq<char>>::empty(),
    {
        let r = EditorBridges { ids: Vec::new() };
        assert(r@ =~= Set::<Seq<char>>::empty());
        r
    }

    /// Whether the runtime of `tab_id` has a bridge.
    pub fn contains(&self, tab_id: &String) -> (b: bool)
        ensures
            b == self@.contains(tab_id@),
    {
        let ghost v = strings_view(self.ids@);
        let mut i: usize = 0;
        while i < self.ids.len()
            invariant
                i <= self.ids.len(),
                v == strings_view(self.ids@),
                forall|k: int| 0 <= k < i ==> v[k] != tab_id@,
            decreases self.ids.len() - i,
        {
            if self.ids[i] == *tab_id {
                assert(v[i as int] == tab_id@);
                return true;
            }
            i = i + 1;
        }
        false
    }

    /// Records the bridge of `tab_id`'s runtime, which replaces any earlier
    /// one.
    pub fn register(&mut self, tab_id: String)
        ensures
            final(self)@ == old(self)@.insert(tab_id@),
    {
        if !self.contains(&tab_id) {
            let ghost before = strings_view(self.ids@);
            let ghost t = tab_id@;
            self.ids.push(tab_id);
            proof {
                assert(strings_view(self.ids@) =~= before.push(t));
                assert forall|x: Seq<char>| #[trigger] self@.contains(x) == old(self)@.insert(t).contains(x) by {
                    lemma_push_contains(before, t, x);
                }
            }
            assert(self@ =~= old(self)@.insert(t));
        } else {
            assert(self@ =~= old(self)@.insert(tab_id@));
        }
    }

    /// The bridges of `ids` that stay (see `bridge_kept`), and the others.
    fn split(ids: &Vec<String>, keep_tab: &String, current: Option<&[EditorHostItemViewModel]>) -> (r: (
        Vec<String>,
        Vec<String>,
    ))
        ensures
            forall|t: Seq<char>|
                #[trigger] strings_view(r.0@).contains(t) <==> (strings_view(ids@).contains(t)
                    && bridge_kept(t, keep_tab@, current)),
            forall|t: Seq<char>|
                #[trigger] strings_view(r.1@).contains(t) <==> (strings_view(ids@).contains(t)
                    && !bridge_kept(t, keep_tab@, current)),
    {
        let ghost v = strings_view(ids@);
        let valid = match current {
            Some(c) => host_lifecycle_map(c),
            None => HostLifecycleMap::new(),
        };
        let mut kept: Vec<String> = Vec::new();
        let mut gone: Vec<String> = Vec::new();
        let mut i: usize = 0;
        assert(v.take(0) =~= Seq::<Seq<char>>::empty());
        while i < ids.len()
            invariant
                i <= ids.len(),
                v == strings_view(ids@),
                current matches Some(c) ==> valid@ == hosts_entries(hosts_view(c@)),
                forall|t: Seq<char>|
                    #[trigger] strings_view(kept@).contains(t) <==> (v.take(i as int).contains(t)
                        && bridge_kept(t, keep_tab@, current)),
                forall|t: Seq<char>|
                    #[trigger] strings_view(gone@).contains(t) <==> (v.take(i as int).contains(t)
                        && !bridge_kept(t, keep_tab@, current)),
            decreases ids.len() - i,
        {
            let ghost t = v[i as int];
            assert(v.take(i + 1) =~= v.take(i as int).push(t));
            let keep = match current {
                Some(c) => {
                    proof {
                        lemma_hosts_entries_tabs(hosts_view(c@), t);
                    }
                    valid.contains_key(&ids[i])
                },
                None => ids[i] != *keep_tab,
            };
            assert(keep == bridge_kept(t, keep_tab@, current));
            let ghost k0 = strings_view(kept@);
            let ghost g0 = strings_view(gone@);
            if keep {
                kept.push(ids[i].clone());
                assert(strings_view(kept@) =~= k0.push(t));
            } else {
                gone.push(ids[i].clone());
                assert(strings_view(gone@) =~= g0.push(t));
            }
            proof {
                assert forall|x: Seq<char>| #[trigger] strings_view(kept@).contains(x) <==> (v.take(i + 1).contains(x)
                    && bridge_kept(x, keep_tab@, current)) by {
                    lemma_push_contains(v.take(i as int), t, x);
                    lemma_push_contains(k0, t, x);
                }
                assert forall|x: Seq<char>| #[trigger] strings_view(gone@).contains(x) <==> (v.take(i + 1).contains(x)
                    && !bridge_kept(x, keep_tab@, current)) by {
                    lemma_push_contains(v.take(i as int), t, x);
                    lemma_push_contains(g0, t, x);
                }
            }
            i = i + 1;
        }
        assert(v.take(ids.len() as int) =~= v);
        (kept, gone)
    }

    /// Forgets the bridge of a host that goes away: whether it had one, in
    /// which case its runtime is told to destroy itself.
    pub fn drop_host(&mut self, tab_id: &String) -> (destroy: bool)
        ensures
            destroy == old(self)@.contains(tab_id@),
            final(self)@ == old(self)@.remove(tab_id@),
    {
        let (kept, gone) = Self::split(&self.ids, tab_id, None);
        let destroy = gone.len() > 0;
        proof {
            if destroy {
                assert(strings_view(gone@).contains(strings_view(gone@)[0]));
            }
            if old(self)@.contains(tab_id@) {
                assert(strings_view(gone@).contains(tab_id@));
            }
        }
        self.ids = kept;
        assert(self@ =~= old(self)@.remove(tab_id@));
        destroy
    }

    /// Forgets the bridges whose tab no current host edits, and gives
    /// them: their runtimes are told to destroy themselves.
    pub fn retire_stale(&mut self, current: &[EditorHostItemViewModel]) -> (stale: Vec<String>)
        ensures
            forall|t: Seq<char>|
                #[trigger] strings_view(stale@).contains(t) <==> (old(self)@.contains(t) && !has_tab(
                    hosts_view(current@),
                    t,
                )),
            final(self)@ == old(self)@.filter(|t: Seq<char>| has_tab(hosts_view(current@), t)),
    {
        let empty = String::new();
        let (kept, gone) = Self::split(&self.ids, &empty, Some(current));
        self.ids = kept;
        assert(self@ =~= old(self)@.filter(|t: Seq<char>| has_tab(hosts_view(current@), t)));
        gone
    }
}

/// Whether a bridge stays: with current hosts, when one edits its tab;
/// else unless it is the tab that goes away.
pub open spec fn bridge_kept(
    t: Seq<char>,
    dropped: Seq<char>,
    current: Option<&[EditorHostItemViewModel]>,
) -> bool {
    match current {
        Some(c) => has_tab(hosts_view(c@), t),
        None => t != dropped,
    }
}

} // verus!
