//! Commands queued for the editor runtime of a tab, and the plain request
//! values that user interface events carry.
use vstd::prelude::*;
use vstd::multiset::Multiset;
use crate::text::{chars_equal, chars_of};

verus! {

broadcast use vstd::string::group_string_axioms;

/// A command for the editor runtime of one tab.
#[derive(Debug, Clone, PartialEq, Eq)]
pub enum EditorRuntimeCommand {
    InsertMarkdown { tab_id: String, markdown: String },
}

/// The tab a command is meant for.
pub open spec fn command_tab(c: EditorRuntimeCommand) -> Seq<char> {
    match c {
        EditorRuntimeCommand::InsertMarkdown { tab_id, .. } => tab_id@,
    }
}

/// The commands of `s` meant for the tab `tab`, in order.
pub open spec fn commands_for(s: Seq<EditorRuntimeCommand>, tab: Seq<char>) -> Seq<EditorRuntimeCommand> {
    s.filter(for_tab(tab))
}

/// Whether a command is meant for `tab`.
pub open spec fn for_tab(tab: Seq<char>) -> spec_fn(EditorRuntimeCommand) -> bool {
    |c: EditorRuntimeCommand| command_tab(c) == tab
}

/// Whether a command is meant for another tab than `tab`.
pub open spec fn not_for_tab(tab: Seq<char>) -> spec_fn(EditorRuntimeCommand) -> bool {
    |c: EditorRuntimeCommand| command_tab(c) != tab
}

/// The commands of `s` meant for other tabs than `tab`, in order.
pub open spec fn commands_not_for(s: Seq<EditorRuntimeCommand>, tab: Seq<char>) -> Seq<
    EditorRuntimeCommand,
> {
    s.filter(not_for_tab(tab))
}

/// How splitting by tab extends when one command is queued.
proof fn lemma_split_push(s: Seq<EditorRuntimeCommand>, c: EditorRuntimeCommand, tab: Seq<char>)
    ensures
        commands_for(s.push(c), tab) == (if command_tab(c) == tab {
            commands_for(s, tab).push(c)
        } else {
            commands_for(s, tab)
        }),
        commands_not_for(s.push(c), tab) == (if command_tab(c) != tab {
            commands_not_for(s, tab).push(c)
        } else {
            commands_not_for(s, tab)
        }),
{
    s.lemma_filter_push(c, for_tab(tab));
    s.lemma_filter_push(c, not_for_tab(tab));
}

/// Nothing is split out of no commands.
proof fn lemma_split_empty(s: Seq<EditorRuntimeCommand>, tab: Seq<char>)
    requires
        s.len() == 0,
    ensures
        commands_for(s, tab) == s,
        commands_not_for(s, tab) == s,
{
    reveal(Seq::filter);
}

/// Some command of `s` is meant for `tab`.
pub open spec fn any_for(s: Seq<EditorRuntimeCommand>, tab: Seq<char>) -> bool {
    exists|i: int| 0 <= i < s.len() && command_tab(#[trigger] s[i]) == tab
}

impl EditorRuntimeCommand {
    /// The tab this command is meant for.
    pub fn tab_id(&self) -> (r: &str)
        ensures
            r@ == command_tab(*self),
    {
        match self {
            EditorRuntimeCommand::InsertMarkdown { tab_id, .. } => tab_id.as_str(),
        }
    }

    fn is_for(&self, tab: &Vec<char>) -> (b: bool)
        ensures
            b == (command_tab(*self) == tab@),
    {
        chars_equal(&chars_of(self.tab_id()), tab)
    }
}

/// Commands waiting for the editor runtimes, with a revision counter that
/// grows (saturating) with each queued command.
pub struct EditorRuntimeCommandQueue {
    revision: u64,
    pending: Vec<EditorRuntimeCommand>,
}

impl View for EditorRuntimeCommandQueue {
    type V = (u64, Seq<EditorRuntimeCommand>);

    closed spec fn view(&self) -> (u64, Seq<EditorRuntimeCommand>) {
        (self.revision, self.pending@)
    }
}

impl Default for EditorRuntimeCommandQueue {
    fn default() -> (q: Self)
        ensures
            q@ == (0u64, Seq::<EditorRuntimeCommand>::empty()),
    {
        let q = EditorRuntimeCommandQueue { revision: 0, pending: Vec::new() };
        assert(q@ =~= (0u64, Seq::<EditorRuntimeCommand>::empty()));
        q
    }
}

/// Splitting a list of commands by tab loses none and adds none.
pub proof fn commands_split_by_tab(s: Seq<EditorRuntimeCommand>, tab: Seq<char>)
    ensures
        commands_for(s, tab).len() + commands_not_for(s, tab).len() == s.len(),
        commands_for(s, tab).to_multiset().add(commands_not_for(s, tab).to_multiset())
            == s.to_multiset(),
    decreases s.len(),
{
    broadcast use vstd::seq_lib::group_to_multiset_ensures;

    if s.len() > 0 {
        let t = s.drop_last();
        commands_split_by_tab(t, tab);
        assert(s =~= t.push(s.last()));
        lemma_split_push(t, s.last(), tab);
        assert(commands_for(s, tab).to_multiset().add(commands_not_for(s, tab).to_multiset())
            =~= s.to_multiset());
    } else {
        lemma_split_empty(s, tab);
        assert(s.to_multiset() =~= Multiset::empty());
        assert(commands_for(s, tab).to_multiset().add(commands_not_for(s, tab).to_multiset())
            =~= s.to_multiset());
    }
}

/// Every command kept for other tabs is indeed for another tab, and every
/// command taken for `tab` is for `tab`.
pub proof fn commands_split_by_tab_is_exact(s: Seq<EditorRuntimeCommand>, tab: Seq<char>)
    ensures
        !any_for(commands_not_for(s, tab), tab),
        forall|i: int|
            0 <= i < commands_for(s, tab).len() ==> command_tab(#[trigger] commands_for(s, tab)[i])
                == tab,
        any_for(s, tab) <==> commands_for(s, tab).len() > 0,
    decreases s.len(),
{
    if s.len() > 0 {
        let t = s.drop_last();
        commands_split_by_tab_is_exact(t, tab);
        assert(s =~= t.push(s.last()));
        lemma_split_push(t, s.last(), tab);
        if any_for(s, tab) {
            let i = choose|i: int| 0 <= i < s.len() && command_tab(#[trigger] s[i]) == tab;
            if i < s.len() - 1 {
                assert(t[i] == s[i]);
                assert(any_for(t, tab));
            }
        }
        if any_for(t, tab) {
            let i = choose|i: int| 0 <= i < t.len() && command_tab(#[trigger] t[i]) == tab;
            assert(s[i] == t[i]);
        }
        let f = commands_for(s, tab);
        assert forall|i: int| 0 <= i < f.len() implies command_tab(#[trigger] f[i]) == tab by {
            s.lemma_filter_pred(for_tab(tab), i);
        }
        let g = commands_not_for(s, tab);
        assert forall|i: int| 0 <= i < g.len() implies command_tab(#[trigger] g[i]) != tab by {
            s.lemma_filter_pred(not_for_tab(tab), i);
        }
    } else {
        lemma_split_empty(s, tab);
    }
}

impl EditorRuntimeCommandQueue {
    /// The revision counter.
    pub fn revision(&self) -> (r: u64)
        ensures
            r == self@.0,
    {
        self.revision
    }

    /// Queues the insertion of `markdown` into the tab `tab_id`.
    pub fn push_insert_markdown(&mut self, tab_id: String, markdown: String)
        ensures
            final(self)@.0 == (if old(self)@.0 == u64::MAX {
                u64::MAX as int
            } else {
                old(self)@.0 + 1
            }),
            final(self)@.1 == old(self)@.1.push(
                EditorRuntimeCommand::InsertMarkdown { tab_id, markdown },
            ),
    {
        self.revision = self.revision.saturating_add(1);
        self.pending.push(EditorRuntimeCommand::InsertMarkdown { tab_id, markdown });
    }

    /// Whether a command waits for the tab `tab_id`.
    pub fn has_pending_for_tab(&self, tab_id: &str) -> (b: bool)
        ensures
            b == any_for(self@.1, tab_id@),
    {
        let tab = chars_of(tab_id);
        let mut i: usize = 0;
        while i < self.pending.len()
            invariant
                i <= self.pending.len(),
                tab@ == tab_id@,
                forall|k: int| 0 <= k < i ==> command_tab(#[trigger] self.pending@[k]) != tab_id@,
            decreases self.pending.len() - i,
        {
            if self.pending[i].is_for(&tab) {
                return true;
            }
            i = i + 1;
        }
        false
    }

    /// Takes out the commands waiting for the tab `tab_id`, in the order
    /// they were queued; the others stay, in their order.
    pub fn drain_for_tab(&mut self, tab_id: &str) -> (drained: Vec<EditorRuntimeCommand>)
        ensures
            drained@ == commands_for(old(self)@.1, tab_id@),
            final(self)@.1 == commands_not_for(old(self)@.1, tab_id@),
            final(self)@.0 == old(self)@.0,
    {
        let tab = chars_of(tab_id);
        let mut old_pending: Vec<EditorRuntimeCommand> = Vec::new();
        std::mem::swap(&mut old_pending, &mut self.pending);
        let ghost s = old_pending@;
        let n = old_pending.len();
        let mut rev: Vec<EditorRuntimeCommand> = Vec::new();
        while old_pending.len() > 0
            invariant
                n == s.len(),
                old_pending@ == s.take(old_pending.len() as int),
                rev.len() + old_pending.len() == n,
                forall|i: int| 0 <= i < rev.len() ==> #[trigger] rev@[i] == s[n - 1 - i],
            decreases old_pending.len(),
        {
            let ghost before = old_pending@;
            match old_pending.pop() {
                Some(command) => {
                    assert(command == s[old_pending.len() as int]);
                    rev.push(command);
                    assert(old_pending@ =~= s.take(old_pending.len() as int));
                },
                None => {},
            }
        }
        let mut drained: Vec<EditorRuntimeCommand> = Vec::new();
        let mut pending: Vec<EditorRuntimeCommand> = Vec::new();
        proof {
            lemma_split_empty(s.take(0), tab_id@);
        }
        while rev.len() > 0
            invariant
                n == s.len(),
                rev.len() <= n,
                tab@ == tab_id@,
                forall|i: int| 0 <= i < rev.len() ==> #[trigger] rev@[i] == s[n - 1 - i],
                drained@ == commands_for(s.take(n - rev.len()), tab_id@),
                pending@ == commands_not_for(s.take(n - rev.len()), tab_id@),
            decreases rev.len(),
        {
            let ghost k: int = n - rev.len();
            match rev.pop() {
                Some(command) => {
                    proof {
                        assert(command == s[k]);
                        assert(s.take(k + 1) =~= s.take(k).push(s[k]));
                        lemma_split_push(s.take(k), s[k], tab_id@);
                    }
                    if command.is_for(&tab) {
                        drained.push(command);
                    } else {
                        pending.push(command);
                    }
                },
                None => {},
            }
        }
        assert(s.take(n as int) =~= s);
        self.pending = pending;
        drained
    }

    /// Drops the commands waiting for the tab `tab_id`; the others stay,
    /// in their order.
    pub fn discard_for_tab(&mut self, tab_id: &str)
        ensures
            final(self)@.1 == commands_not_for(old(self)@.1, tab_id@),
            final(self)@.0 == old(self)@.0,
    {
        let _ = self.drain_for_tab(tab_id);
    }
}

// ---------------------------------------------------------------------
// Requests carried by interface events
// ---------------------------------------------------------------------

/// New content typed into a tab, with what the hybrid editor reported.
#[derive(Debug, Clone, PartialEq, Eq)]
pub struct ContentChange {
    pub tab_id: String,
    pub content: String,
    pub hybrid_block_kind: Option<String>,
    pub hybrid_block_state: Option<String>,
    pub hybrid_block_tier: Option<String>,
    pub hybrid_fallback_reason: Option<String>,
}

/// An image pasted into a tab, base64-encoded.
#[derive(Debug, Clone, PartialEq, Eq)]
pub struct PasteImageRequest {
    pub tab_id: String,
    pub mime_type: String,
    pub data: String,
}

/// A file or folder to show in the system file browser.
#[derive(Debug, Clone, PartialEq, Eq)]
pub struct FileTarget {
    pub path: String,
    pub name: String,
}

/// A trashed note to put back.
#[derive(Debug, Clone, PartialEq, Eq)]
pub struct RestoreTrashedNoteTarget {
    pub note_id: String,
}

/// A tag to create or update.
#[derive(Debug, Clone, PartialEq, Eq)]
pub struct UpsertTagRequest {
    pub name: String,
    pub color: String,
}

/// A new name for a tag.
#[derive(Debug, Clone, PartialEq, Eq)]
pub struct RenameTagRequest {
    pub id: String,
    pub name: String,
}

/// A new color for a tag.
#[derive(Debug, Clone, PartialEq, Eq)]
pub struct SetTagColorRequest {
    pub id: String,
    pub color: String,
}

/// A tag to delete.
#[derive(Debug, Clone, PartialEq, Eq)]
pub struct DeleteTagRequest {
    pub id: String,
}

/// What part of the interface asked for a change of the window chrome.
#[derive(Debug, Clone, PartialEq, Eq)]
pub struct ChromeTrigger {
    pub trigger: String,
}

impl ChromeTrigger {
    /// The trigger named `trigger`.
    pub fn new(trigger: &str) -> (r: Self)
        ensures
            r.trigger@ == trigger@,
    {
        ChromeTrigger { trigger: trigger.to_owned() }
    }
}

/// A request to switch the editor to `mode`, and what asked for it.
#[derive(Debug, Clone, PartialEq, Eq)]
pub struct SetViewModeRequest {
    pub mode: crate::models::ViewMode,
    pub trigger: String,
}

impl SetViewModeRequest {
    /// The request to switch to `mode`, asked for by `trigger`.
    pub fn new(mode: crate::models::ViewMode, trigger: &str) -> (r: Self)
        ensures
            r.mode == mode,
            r.trigger@ == trigger@,
    {
        SetViewModeRequest { mode, trigger: trigger.to_owned() }
    }
}

} // verus!
