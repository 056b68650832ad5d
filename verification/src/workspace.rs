//! Spaces, their tabs and panes, and the terminals behind them.

use std::collections::HashMap;

use vstd::prelude::*;

use crate::metadata::TokenMap;
use crate::text;
use crate::text::push_dec;
use crate::views;

verus! {

/// What an agent is doing.
#[derive(Clone, Copy, Debug, PartialEq, Eq, Structural)]
pub enum AgentState {
    Idle,
    Working,
    Blocked,
    Unknown,
}

/// The agents that are told apart.
#[derive(Clone, Copy, Debug, PartialEq, Eq, Structural)]
pub enum Agent {
    Claude,
    Codex,
    Pi,
}

/// The identity of a pane.
#[derive(Clone, Copy, Debug, PartialEq, Eq, Structural)]
pub struct PaneId(pub u64);

/// A pane of a tab.
#[derive(Debug)]
pub struct Pane {
    pub id: PaneId,
    pub attached_terminal_id: u64,
    /// Whether the user has looked at the pane since its agent went idle.
    pub seen: bool,
    pub label: Option<String>,
}

/// The session that an agent in a terminal is in.
#[derive(Debug)]
pub struct AgentSession {
    pub agent: String,
    pub value: String,
}

/// What is known of a terminal.
#[derive(Debug)]
pub struct TerminalState {
    pub state: AgentState,
    pub detected_agent: Option<Agent>,
    /// What the detected kind of agent is called.
    pub agent_kind_label: Option<String>,
    /// The name that the agent was given.
    pub agent_name: Option<String>,
    pub last_agent_state_change_at: Option<u64>,
    pub last_agent_state_change_seq: Option<u64>,
    pub terminal_title: Option<String>,
    pub terminal_title_stripped: Option<String>,
    pub state_labels: TokenMap,
    pub metadata_tokens: TokenMap,
    pub persisted_agent_session: Option<AgentSession>,
}

impl TerminalState {
    /// A terminal in which no agent was found.
    pub fn new() -> (out: TerminalState)
        ensures
            out.state is Unknown,
            out.detected_agent is None,
            out.agent_kind_label is None,
            out.agent_name is None,
            out.last_agent_state_change_at is None,
            out.last_agent_state_change_seq is None,
            out.terminal_title is None,
            out.terminal_title_stripped is None,
            out.state_labels@ == Map::<Seq<char>, Seq<char>>::empty(),
            out.metadata_tokens@ == Map::<Seq<char>, Seq<char>>::empty(),
            out.persisted_agent_session is None,
    {
        TerminalState {
            state: AgentState::Unknown,
            detected_agent: None,
            agent_kind_label: None,
            agent_name: None,
            last_agent_state_change_at: None,
            last_agent_state_change_seq: None,
            terminal_title: None,
            terminal_title_stripped: None,
            state_labels: TokenMap::new(),
            metadata_tokens: TokenMap::new(),
            persisted_agent_session: None,
        }
    }

    /// An agent runs in the terminal.
    pub open spec fn has_agent(self) -> bool {
        self.agent_name is Some || self.detected_agent is Some
    }

    /// The name of the agent: the one that it was given, else that of its kind.
    pub open spec fn agent_label(self) -> Seq<char> {
        match (self.agent_name, self.agent_kind_label) {
            (Some(name), _) => name@,
            (None, Some(kind)) => kind@,
            (None, None) => Seq::empty(),
        }
    }
}

/// A tab of a space.
#[derive(Debug)]
pub struct Tab {
    pub custom_name: Option<String>,
    /// The panes, in the order in which they are gone through.
    pub panes: Vec<Pane>,
    pub metadata_tokens: TokenMap,
}

impl Tab {
    /// The tab goes by its number.
    pub fn is_auto_named(&self) -> (out: bool)
        ensures
            out == (self.custom_name is None),
    {
        self.custom_name.is_none()
    }
}

/// That a space is one of several checkouts of a repository.
#[derive(Debug)]
pub struct WorktreeSpaceMembership {
    pub key: String,
    pub label: String,
    pub repo_root: String,
    pub checkout_path: String,
    pub is_linked_worktree: bool,
}

/// The repository that a space's directory lies in.
#[derive(Debug)]
pub struct GitSpaceMetadata {
    pub key: String,
    pub checkout_key: String,
    pub label: String,
    pub repo_root: String,
    pub is_linked_worktree: bool,
}

/// A space.
#[derive(Debug)]
pub struct Workspace {
    pub custom_name: Option<String>,
    /// The name that the space has from its directory.
    pub identity_name: String,
    /// The terminal of the space's first pane.
    pub root_terminal: Option<u64>,
    pub tabs: Vec<Tab>,
    pub active_tab: usize,
    pub focused_pane: Option<PaneId>,
    pub metadata_tokens: TokenMap,
    pub worktree_space: Option<WorktreeSpaceMembership>,
    pub cached_git_space: Option<GitSpaceMetadata>,
    pub cached_git_branch: Option<String>,
}

/// The names that running terminals give to the spaces that they root.
#[derive(Debug)]
pub struct TerminalRuntimeRegistry {
    pub names: HashMap<u64, String>,
}

impl TerminalRuntimeRegistry {
    /// No running terminal.
    pub fn new() -> (out: TerminalRuntimeRegistry)
        ensures
            out.names@ == Map::<u64, String>::empty(),
    {
        broadcast use vstd::std_specs::hash::group_hash_axioms;

        TerminalRuntimeRegistry { names: HashMap::new() }
    }
}

/// The name of space `ws`: its own, else what its running root terminal says by
/// `names`, else the one from its directory.
pub open spec fn display_name(ws: Workspace, names: Map<u64, String>) -> Seq<char> {
    match ws.custom_name {
        Some(name) => name@,
        None => match ws.root_terminal {
            Some(id) => if names.contains_key(id) {
                names[id]@
            } else {
                ws.identity_name@
            },
            None => ws.identity_name@,
        },
    }
}

/// The name of tab `idx`: its own, else its number counted from one.
pub open spec fn tab_name(tab: Tab, idx: int) -> Seq<char> {
    match tab.custom_name {
        Some(name) => name@,
        None => text::dec((idx + 1) as nat),
    }
}

/// The panes of the first `n` tabs, each with the number of its tab.
pub open spec fn panes_of(tabs: Seq<Tab>, n: nat) -> Seq<(int, Pane)>
    decreases n,
{
    if n == 0 {
        Seq::empty()
    } else {
        panes_of(tabs, (n - 1) as nat) + tab_panes(tabs[n - 1], n - 1)
    }
}

/// The panes of `tab`, each with the number `idx` of the tab.
pub open spec fn tab_panes(tab: Tab, idx: int) -> Seq<(int, Pane)> {
    tab.panes@.map_values(|pane: Pane| (idx, pane))
}

/// The terminal of the pane `id` among `panes`.
pub open spec fn terminal_of(panes: Seq<(int, Pane)>, id: PaneId) -> Option<u64>
    decreases panes.len(),
{
    if panes.len() == 0 {
        None
    } else if panes[0].1.id == id {
        Some(panes[0].1.attached_terminal_id)
    } else {
        terminal_of(panes.drop_first(), id)
    }
}

/// A pane in which an agent runs, as the agent panel sees it.
pub struct PaneDetail {
    pub tab_idx: usize,
    pub tab_label: String,
    pub pane_id: PaneId,
    pub pane_label: Option<String>,
    pub terminal_title: Option<String>,
    pub terminal_title_stripped: Option<String>,
    pub agent_label: String,
    pub agent_kind_label: Option<String>,
    pub agent: Option<Agent>,
    pub state: AgentState,
    pub seen: bool,
    pub last_agent_state_change_seq: Option<u64>,
    pub state_labels: TokenMap,
    pub tokens: TokenMap,
}

/// A [`PaneDetail`] by its texts.
pub struct PaneDetailView {
    pub tab_idx: int,
    pub tab_label: Seq<char>,
    pub pane_id: PaneId,
    pub pane_label: Option<Seq<char>>,
    pub terminal_title: Option<Seq<char>>,
    pub terminal_title_stripped: Option<Seq<char>>,
    pub agent_label: Seq<char>,
    pub agent_kind_label: Option<Seq<char>>,
    pub agent: Option<Agent>,
    pub state: AgentState,
    pub seen: bool,
    pub last_agent_state_change_seq: Option<u64>,
    pub state_labels: Map<Seq<char>, Seq<char>>,
    pub tokens: Map<Seq<char>, Seq<char>>,
}

impl View for PaneDetail {
    type V = PaneDetailView;

    open spec fn view(&self) -> PaneDetailView {
        PaneDetailView {
            tab_idx: self.tab_idx as int,
            tab_label: self.tab_label@,
            pane_id: self.pane_id,
            pane_label: views::text(self.pane_label),
            terminal_title: views::text(self.terminal_title),
            terminal_title_stripped: views::text(self.terminal_title_stripped),
            agent_label: self.agent_label@,
            agent_kind_label: views::text(self.agent_kind_label),
            agent: self.agent,
            state: self.state,
            seen: self.seen,
            last_agent_state_change_seq: self.last_agent_state_change_seq,
            state_labels: self.state_labels@,
            tokens: self.tokens@,
        }
    }
}

/// What the agent panel sees of `pane` in tab `tab_idx`.
pub open spec fn pane_detail(
    tab: Tab,
    tab_idx: int,
    pane: Pane,
    terminal: TerminalState,
) -> PaneDetailView {
    PaneDetailView {
        tab_idx,
        tab_label: tab_name(tab, tab_idx),
        pane_id: pane.id,
        pane_label: views::text(pane.label),
        terminal_title: views::text(terminal.terminal_title),
        terminal_title_stripped: views::text(terminal.terminal_title_stripped),
        agent_label: terminal.agent_label(),
        agent_kind_label: views::text(terminal.agent_kind_label),
        agent: terminal.detected_agent,
        state: terminal.state,
        seen: pane.seen,
        last_agent_state_change_seq: terminal.last_agent_state_change_seq,
        state_labels: terminal.state_labels@,
        tokens: terminal.metadata_tokens@,
    }
}

/// The details of those of `panes` in which an agent runs.
pub open spec fn details_of(
    tabs: Seq<Tab>,
    panes: Seq<(int, Pane)>,
    terminals: Map<u64, TerminalState>,
) -> Seq<PaneDetailView>
    decreases panes.len(),
{
    if panes.len() == 0 {
        Seq::empty()
    } else {
        let before = details_of(tabs, panes.drop_last(), terminals);
        let (tab_idx, pane) = panes.last();
        let id = pane.attached_terminal_id;
        if terminals.contains_key(id) && terminals[id].has_agent() {
            before.push(pane_detail(tabs[tab_idx], tab_idx, pane, terminals[id]))
        } else {
            before
        }
    }
}

/// A copy of a text that may be absent.
pub fn copy_text(text: &Option<String>) -> (out: Option<String>)
    ensures
        views::text(out) == views::text(*text),
{
    match text {
        Some(text) => Some(text.clone()),
        None => None,
    }
}

fn tab_label(tab: &Tab, tab_idx: usize) -> (out: String)
    requires
        tab_idx < usize::MAX,
    ensures
        out@ == tab_name(*tab, tab_idx as int),
{
    match &tab.custom_name {
        Some(name) => name.clone(),
        None => {
            let mut out: String = String::new();
            push_dec(&mut out, (tab_idx + 1) as u64);
            assert(out@ =~= tab_name(*tab, tab_idx as int));
            out
        },
    }
}

proof fn lemma_terminal_of_skip(panes: Seq<(int, Pane)>, id: PaneId, n: int)
    requires
        0 <= n <= panes.len(),
        forall|i: int| 0 <= i < n ==> (#[trigger] panes[i]).1.id != id,
    ensures
        terminal_of(panes, id) == terminal_of(panes.skip(n), id),
    decreases n,
{
    if n > 0 {
        let rest = panes.drop_first();
        assert forall|i: int| 0 <= i < n - 1 implies (#[trigger] rest[i]).1.id != id by {
            assert(rest[i] == panes[i + 1]);
        }
        lemma_terminal_of_skip(rest, id, n - 1);
        assert(rest.skip(n - 1) =~= panes.skip(n));
    } else {
        assert(panes.skip(0) =~= panes);
    }
}

/// The panes of a tab stand in the list of all panes behind those of the tabs before it.
pub proof fn lemma_panes_at(tabs: Seq<Tab>, t: nat, k: int, n: nat)
    requires
        t < n <= tabs.len(),
        0 <= k < tabs[t as int].panes@.len(),
    ensures
        panes_of(tabs, t).len() + k < panes_of(tabs, n).len(),
        panes_of(tabs, n)[panes_of(tabs, t).len() + k] == (t as int, tabs[t as int].panes@[k]),
    decreases n,
{
    if t < n - 1 {
        lemma_panes_at(tabs, t, k, (n - 1) as nat);
    }
}

/// The panes of the first tabs are the first panes.
pub proof fn lemma_panes_prefix(tabs: Seq<Tab>, t: nat, n: nat)
    requires
        t <= n <= tabs.len(),
    ensures
        panes_of(tabs, t).len() <= panes_of(tabs, n).len(),
        panes_of(tabs, n).take(panes_of(tabs, t).len() as int) == panes_of(tabs, t),
    decreases n,
{
    if t < n {
        lemma_panes_prefix(tabs, t, (n - 1) as nat);
        let a = panes_of(tabs, (n - 1) as nat);
        assert(panes_of(tabs, n).take(panes_of(tabs, t).len() as int) =~= a.take(
            panes_of(tabs, t).len() as int,
        ));
    } else {
        assert(panes_of(tabs, n).take(panes_of(tabs, t).len() as int) =~= panes_of(tabs, t));
    }
}

impl Workspace {
    /// The worktree membership of the space.
    pub fn worktree_space(&self) -> (out: Option<&WorktreeSpaceMembership>)
        ensures
            match out {
                Some(space) => self.worktree_space == Some(*space),
                None => self.worktree_space is None,
            },
    {
        self.worktree_space.as_ref()
    }

    /// The name of the space.
    pub fn display_name_from(&self, runtimes: &TerminalRuntimeRegistry) -> (out: String)
        ensures
            out@ == display_name(*self, runtimes.names@),
    {
        broadcast use vstd::std_specs::hash::group_hash_axioms;

        if let Some(name) = &self.custom_name {
            return name.clone();
        }
        if let Some(id) = self.root_terminal {
            if let Some(name) = runtimes.names.get(&id) {
                return name.clone();
            }
        }
        self.identity_name.clone()
    }

    /// The name of the tab `tab_idx`, if there is such a tab.
    pub fn tab_display_name(&self, tab_idx: usize) -> (out: Option<String>)
        ensures
            match out {
                Some(name) => tab_idx < self.tabs@.len() && name@ == tab_name(
                    self.tabs@[tab_idx as int],
                    tab_idx as int,
                ),
                None => tab_idx >= self.tabs@.len(),
            },
    {
        if tab_idx < self.tabs.len() {
            Some(tab_label(&self.tabs[tab_idx], tab_idx))
        } else {
            None
        }
    }

    /// The terminal of the pane `id`, if the space has such a pane.
    pub fn terminal_id(&self, id: PaneId) -> (out: Option<u64>)
        ensures
            out == terminal_of(panes_of(self.tabs@, self.tabs@.len()), id),
    {
        let ghost all = panes_of(self.tabs@, self.tabs@.len());
        let mut t: usize = 0;
        while t < self.tabs.len()
            invariant
                t <= self.tabs@.len(),
                all == panes_of(self.tabs@, self.tabs@.len()),
                forall|i: int|
                    0 <= i < panes_of(self.tabs@, t as nat).len() ==> (#[trigger] panes_of(
                        self.tabs@,
                        t as nat,
                    )[i]).1.id != id,
            decreases self.tabs@.len() - t,
        {
            let ghost before = panes_of(self.tabs@, t as nat);
            let mut k: usize = 0;
            while k < self.tabs[t].panes.len()
                invariant
                    t < self.tabs.len(),
                    k <= self.tabs@[t as int].panes@.len(),
                    all == panes_of(self.tabs@, self.tabs@.len()),
                    before == panes_of(self.tabs@, t as nat),
                    forall|i: int| 0 <= i < before.len() ==> (#[trigger] before[i]).1.id != id,
                    forall|i: int|
                        0 <= i < k ==> (#[trigger] self.tabs@[t as int].panes@[i]).id != id,
                decreases self.tabs@[t as int].panes@.len() - k,
            {
                if self.tabs[t].panes[k].id == id {
                    proof {
                        let n = before.len() + k;
                        lemma_panes_prefix(self.tabs@, t as nat, self.tabs@.len());
                        lemma_panes_at(self.tabs@, t as nat, k as int, self.tabs@.len());
                        assert forall|i: int| 0 <= i < n implies (#[trigger] all[i]).1.id != id by {
                            if i < before.len() {
                                assert(all[i] == all.take(before.len() as int)[i]);
                            } else {
                                lemma_panes_at(
                                    self.tabs@,
                                    t as nat,
                                    i - before.len(),
                                    self.tabs@.len(),
                                );
                            }
                        }
                        lemma_terminal_of_skip(all, id, n as int);
                        assert(all.skip(n as int)[0] == all[n as int]);
                    }
                    return Some(self.tabs[t].panes[k].attached_terminal_id);
                }
                k = k + 1;
            }
            t = t + 1;
            proof {
                let now = panes_of(self.tabs@, t as nat);
                assert forall|i: int| 0 <= i < now.len() implies (#[trigger] now[i]).1.id != id by {
                    if i >= before.len() {
                        assert(now[i].1 == self.tabs@[t - 1].panes@[i - before.len()]);
                    } else {
                        assert(now[i] == before[i]);
                    }
                }
            }
        }
        proof {
            lemma_terminal_of_skip(all, id, all.len() as int);
        }
        None
    }

    /// The panes of the space in which an agent runs.
    pub fn pane_details(&self, terminals: &HashMap<u64, TerminalState>) -> (out: Vec<PaneDetail>)
        ensures
            views::of(out@) == details_of(
                self.tabs@,
                panes_of(self.tabs@, self.tabs@.len()),
                terminals@,
            ),
    {
        broadcast use {vstd::std_specs::hash::group_hash_axioms, views::group_views};

        let mut out: Vec<PaneDetail> = Vec::new();
        let mut t: usize = 0;
        while t < self.tabs.len()
            invariant
                t <= self.tabs@.len(),
                views::of(out@) == details_of(
                    self.tabs@,
                    panes_of(self.tabs@, t as nat),
                    terminals@,
                ),
            decreases self.tabs@.len() - t,
        {
            let ghost before = panes_of(self.tabs@, t as nat);
            let ghost mine = tab_panes(self.tabs@[t as int], t as int);
            let mut k: usize = 0;
            assert(before + mine.take(0) =~= before);
            while k < self.tabs[t].panes.len()
                invariant
                    t < self.tabs.len(),
                    k <= self.tabs@[t as int].panes@.len(),
                    mine == tab_panes(self.tabs@[t as int], t as int),
                    views::of(out@) == details_of(
                        self.tabs@,
                        before + mine.take(k as int),
                        terminals@,
                    ),
                decreases self.tabs@[t as int].panes@.len() - k,
            {
                let tab: &Tab = &self.tabs[t];
                let pane: &Pane = &tab.panes[k];
                proof {
                    let now = before + mine.take(k + 1);
                    assert(now.drop_last() =~= before + mine.take(k as int));
                    assert(now.last() == (t as int, *pane));
                }
                if let Some(terminal) = terminals.get(&pane.attached_terminal_id) {
                    if terminal.agent_name.is_some() || terminal.detected_agent.is_some() {
                        out.push(make_detail(tab, t, pane, terminal));
                    }
                }
                k = k + 1;
            }
            assert(before + mine.take(mine.len() as int) =~= panes_of(
                self.tabs@,
                (t + 1) as nat,
            ));
            t = t + 1;
        }
        out
    }
}

fn make_detail(tab: &Tab, tab_idx: usize, pane: &Pane, terminal: &TerminalState) -> (out:
    PaneDetail)
    requires
        tab_idx < usize::MAX,
        terminal.has_agent(),
    ensures
        out@ == pane_detail(*tab, tab_idx as int, *pane, *terminal),
{
    let name: String = match &terminal.agent_name {
        Some(name) => name.clone(),
        None => match &terminal.agent_kind_label {
            Some(kind) => kind.clone(),
            None => String::new(),
        },
    };
    PaneDetail {
        tab_idx,
        tab_label: tab_label(tab, tab_idx),
        pane_id: pane.id,
        pane_label: copy_text(&pane.label),
        terminal_title: copy_text(&terminal.terminal_title),
        terminal_title_stripped: copy_text(&terminal.terminal_title_stripped),
        agent_label: name,
        agent_kind_label: copy_text(&terminal.agent_kind_label),
        agent: terminal.detected_agent,
        state: terminal.state,
        seen: pane.seen,
        last_agent_state_change_seq: terminal.last_agent_state_change_seq,
        state_labels: terminal.state_labels.copy(),
        tokens: terminal.metadata_tokens.copy(),
    }
}

/// A space is called by its own name, else by the one that its running root
/// terminal gives it, else by the one from its directory. A tab is called by its
/// own name, else by its number, counted from one. An agent runs in a terminal
/// that names one or in which one was detected, and it is called by the name
/// that it was given, else by that of its kind.
pub proof fn law_names_that_were_given_come_first(
    ws: Workspace,
    names: Map<u64, String>,
    tab: Tab,
    idx: int,
    terminal: TerminalState,
)
    ensures
        ws.custom_name matches Some(name) ==> display_name(ws, names) == name@,
        ws.custom_name is None ==> {
            &&& ws.root_terminal is None ==> display_name(ws, names) == ws.identity_name@
            &&& ws.root_terminal matches Some(id) ==> {
                &&& names.contains_key(id) ==> display_name(ws, names) == names[id]@
                &&& !names.contains_key(id) ==> display_name(ws, names) == ws.identity_name@
            }
        },
        tab.custom_name matches Some(name) ==> tab_name(tab, idx) == name@,
        tab.custom_name is None ==> tab_name(tab, idx) == text::dec((idx + 1) as nat),
        terminal.has_agent() <==> terminal.agent_name is Some || terminal.detected_agent is Some,
        terminal.agent_name matches Some(name) ==> terminal.agent_label() == name@,
        terminal.agent_name is None ==> {
            &&& terminal.agent_kind_label matches Some(kind) ==> terminal.agent_label() == kind@
            &&& terminal.agent_kind_label is None ==> terminal.agent_label().len() == 0
        },
{
}

/// How many panes the first `n` tabs have.
pub open spec fn panes_before(tabs: Seq<Tab>, n: nat) -> nat
    decreases n,
{
    if n == 0 {
        0
    } else {
        panes_before(tabs, (n - 1) as nat) + tabs[n - 1].panes@.len()
    }
}

/// An agent runs in `pane`.
pub open spec fn runs_agent(terminals: Map<u64, TerminalState>, pane: Pane) -> bool {
    terminals.contains_key(pane.attached_terminal_id)
        && terminals[pane.attached_terminal_id].has_agent()
}

/// In how many of the first `n` of `panes` an agent runs.
pub open spec fn agents_before(
    panes: Seq<(int, Pane)>,
    terminals: Map<u64, TerminalState>,
    n: nat,
) -> nat
    decreases n,
{
    if n == 0 {
        0
    } else {
        agents_before(panes, terminals, (n - 1) as nat) + if runs_agent(
            terminals,
            panes[n - 1].1,
        ) {
            1nat
        } else {
            0
        }
    }
}

proof fn lemma_pane_place(tabs: Seq<Tab>, n: nat, t: int, p: int)
    requires
        0 <= t < n <= tabs.len(),
        0 <= p < tabs[t].panes@.len(),
    ensures
        panes_of(tabs, n).len() == panes_before(tabs, n),
        panes_before(tabs, t as nat) + p < panes_of(tabs, n).len(),
        panes_of(tabs, n)[panes_before(tabs, t as nat) + p] == (t, tabs[t].panes@[p]),
    decreases n,
{
    lemma_panes_count(tabs, (n - 1) as nat);
    let before = panes_of(tabs, (n - 1) as nat);
    let mine = tab_panes(tabs[n - 1], n - 1);
    if t < n - 1 {
        lemma_pane_place(tabs, (n - 1) as nat, t, p);
    } else {
        assert(panes_of(tabs, n)[before.len() + p] == mine[p]);
    }
}

proof fn lemma_panes_count(tabs: Seq<Tab>, n: nat)
    requires
        n <= tabs.len(),
    ensures
        panes_of(tabs, n).len() == panes_before(tabs, n),
    decreases n,
{
    if n > 0 {
        lemma_panes_count(tabs, (n - 1) as nat);
    }
}

proof fn lemma_agents_before_prefix(
    panes: Seq<(int, Pane)>,
    terminals: Map<u64, TerminalState>,
    n: nat,
)
    requires
        n < panes.len(),
    ensures
        agents_before(panes.drop_last(), terminals, n) == agents_before(panes, terminals, n),
    decreases n,
{
    if n > 0 {
        lemma_agents_before_prefix(panes, terminals, (n - 1) as nat);
    }
}

proof fn lemma_detail_place(
    tabs: Seq<Tab>,
    panes: Seq<(int, Pane)>,
    terminals: Map<u64, TerminalState>,
    q: int,
)
    ensures
        details_of(tabs, panes, terminals).len() == agents_before(panes, terminals, panes.len()),
        0 <= q < panes.len() && runs_agent(terminals, panes[q].1) ==> {
            let at = agents_before(panes, terminals, q as nat) as int;
            &&& at < details_of(tabs, panes, terminals).len()
            &&& details_of(tabs, panes, terminals)[at] == pane_detail(
                tabs[panes[q].0],
                panes[q].0,
                panes[q].1,
                terminals[panes[q].1.attached_terminal_id],
            )
        },
    decreases panes.len(),
{
    if panes.len() > 0 {
        let rest = panes.drop_last();
        lemma_detail_place(tabs, rest, terminals, q);
        lemma_agents_before_prefix(panes, terminals, rest.len());
        if 0 <= q < rest.len() {
            lemma_agents_before_prefix(panes, terminals, q as nat);
        }
    }
}

/// The agents of a space are listed tab by tab and pane by pane: each stands
/// behind those of the panes before its own, and tells of its own tab, pane and
/// terminal.
pub proof fn law_agents_are_listed_by_tab_and_pane(
    tabs: Seq<Tab>,
    terminals: Map<u64, TerminalState>,
    t: int,
    p: int,
)
    requires
        0 <= t < tabs.len(),
        0 <= p < tabs[t].panes@.len(),
    ensures
        ({
            let panes = panes_of(tabs, tabs.len());
            let q = panes_before(tabs, t as nat) + p;
            let all = details_of(tabs, panes, terminals);
            let pane = tabs[t].panes@[p];
            let terminal = terminals[pane.attached_terminal_id];
            &&& panes.len() == panes_before(tabs, tabs.len())
            &&& panes[q] == (t, pane)
            &&& all.len() == agents_before(panes, terminals, panes.len())
            &&& runs_agent(terminals, pane) ==> {
                let d = all[agents_before(panes, terminals, q as nat) as int];
                &&& d.tab_idx == t
                &&& d.pane_id == pane.id
                &&& d.tab_label == tab_name(tabs[t], t)
                &&& d.pane_label == views::text(pane.label)
                &&& d.seen == pane.seen
                &&& d.state == terminal.state
                &&& d.agent == terminal.detected_agent
                &&& d.agent_label == terminal.agent_label()
                &&& d.agent_kind_label == views::text(terminal.agent_kind_label)
                &&& d.terminal_title == views::text(terminal.terminal_title)
                &&& d.terminal_title_stripped == views::text(terminal.terminal_title_stripped)
                &&& d.last_agent_state_change_seq == terminal.last_agent_state_change_seq
                &&& d.state_labels == terminal.state_labels@
                &&& d.tokens == terminal.metadata_tokens@
            }
        }),
{
    lemma_pane_place(tabs, tabs.len(), t, p);
    lemma_detail_place(
        tabs,
        panes_of(tabs, tabs.len()),
        terminals,
        panes_before(tabs, t as nat) + p,
    );
}

/// The terminal of a pane is that of the first pane with its number.
pub proof fn law_a_pane_is_found_by_its_number(panes: Seq<(int, Pane)>, id: PaneId)
    ensures
        match terminal_of(panes, id) {
            Some(terminal) => exists|i: int|
                0 <= i < panes.len() && (#[trigger] panes[i]).1.id == id
                    && panes[i].1.attached_terminal_id == terminal && forall|j: int|
                    0 <= j < i ==> (#[trigger] panes[j]).1.id != id,
            None => forall|i: int| 0 <= i < panes.len() ==> (#[trigger] panes[i]).1.id != id,
        },
    decreases panes.len(),
{
    if panes.len() > 0 {
        if panes[0].1.id == id {
            assert(panes[0].1.id == id);
        } else {
            let rest = panes.drop_first();
            law_a_pane_is_found_by_its_number(rest, id);
            match terminal_of(panes, id) {
                Some(terminal) => {
                    let i = choose|i: int|
                        0 <= i < rest.len() && (#[trigger] rest[i]).1.id == id
                            && rest[i].1.attached_terminal_id == terminal && forall|j: int|
                            0 <= j < i ==> (#[trigger] rest[j]).1.id != id;
                    assert(panes[i + 1].1.id == id);
                    assert forall|j: int| 0 <= j < i + 1 implies (#[trigger] panes[j]).1.id
                        != id by {
                        if j > 0 {
                            assert(panes[j] == rest[j - 1]);
                        }
                    }
                },
                None => {
                    assert forall|i: int| 0 <= i < panes.len() implies (#[trigger] panes[i]).1.id
                        != id by {
                        if i > 0 {
                            assert(panes[i] == rest[i - 1]);
                        }
                    }
                },
            }
        }
    }
}

} // verus!
