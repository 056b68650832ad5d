//! Which of several agents needs the user's attention most.

use std::collections::HashMap;

use vstd::prelude::*;

use crate::app::state::AppState;
use crate::text::str_eq;
use crate::ui::sidebar::entries;
use crate::workspace::{AgentState, Pane, Tab, TerminalState, Workspace};

verus! {

/// How much attention a state calls for.
pub open spec fn priority(state: AgentState, seen: bool) -> int {
    match (state, seen) {
        (AgentState::Blocked, _) => 4,
        (AgentState::Idle, false) => 3,
        (AgentState::Working, _) => 2,
        (AgentState::Idle, true) => 1,
        (AgentState::Unknown, _) => 0,
    }
}

/// How much attention a state calls for.
pub fn workspace_attention_priority(state: AgentState, seen: bool) -> (out: u8)
    ensures
        out == priority(state, seen),
{
    match (state, seen) {
        (AgentState::Blocked, _) => 4,
        (AgentState::Idle, false) => 3,
        (AgentState::Working, _) => 2,
        (AgentState::Idle, true) => 1,
        (AgentState::Unknown, _) => 0,
    }
}

/// The state of an agent, whether the user has seen it, and since when it holds.
pub type Mark = (AgentState, bool, Option<u64>);

/// What there is to say where no agent is.
pub open spec fn no_mark() -> Mark {
    (AgentState::Unknown, true, None)
}

/// How much attention `mark` calls for.
pub open spec fn urgency(mark: Mark) -> int {
    priority(mark.0, mark.1)
}

/// The mark of `pane`, where its terminal is known.
pub open spec fn pane_mark(terminals: Map<u64, TerminalState>, pane: Pane) -> Option<Mark> {
    let id = pane.attached_terminal_id;
    if terminals.contains_key(id) {
        Some((terminals[id].state, pane.seen, terminals[id].last_agent_state_change_at))
    } else {
        None
    }
}

/// The more urgent of two marks, the later one of equals.
pub open spec fn later_if_urgent(best: Option<Mark>, mark: Mark) -> Option<Mark> {
    match best {
        Some(best) => if urgency(mark) >= urgency(best) {
            Some(mark)
        } else {
            Some(best)
        },
        None => Some(mark),
    }
}

/// The most urgent mark of the first `n` of `panes`, the last one of equals.
pub open spec fn most_urgent(
    terminals: Map<u64, TerminalState>,
    panes: Seq<Pane>,
    n: nat,
) -> Option<Mark>
    decreases n,
{
    if n == 0 {
        None
    } else {
        let best = most_urgent(terminals, panes, (n - 1) as nat);
        match pane_mark(terminals, panes[n - 1]) {
            Some(mark) => later_if_urgent(best, mark),
            None => best,
        }
    }
}

/// The mark of a tab: that of its most urgent pane.
pub open spec fn tab_mark(terminals: Map<u64, TerminalState>, tab: Tab) -> Mark {
    match most_urgent(terminals, tab.panes@, tab.panes@.len()) {
        Some(mark) => mark,
        None => no_mark(),
    }
}

fn urgent_pane(terminals: &HashMap<u64, TerminalState>, panes: &Vec<Pane>) -> (out: Option<Mark>)
    ensures
        out == most_urgent(terminals@, panes@, panes@.len()),
{
    broadcast use vstd::std_specs::hash::group_hash_axioms;

    let mut best: Option<Mark> = None;
    let mut i: usize = 0;
    while i < panes.len()
        invariant
            i <= panes@.len(),
            best == most_urgent(terminals@, panes@, i as nat),
        decreases panes@.len() - i,
    {
        let pane: &Pane = &panes[i];
        if let Some(terminal) = terminals.get(&pane.attached_terminal_id) {
            let mark: Mark = (terminal.state, pane.seen, terminal.last_agent_state_change_at);
            best = keep_urgent(best, mark);
        }
        i = i + 1;
    }
    best
}

fn keep_urgent(best: Option<Mark>, mark: Mark) -> (out: Option<Mark>)
    ensures
        out == later_if_urgent(best, mark),
{
    match best {
        Some(other) => if workspace_attention_priority(mark.0, mark.1)
            >= workspace_attention_priority(other.0, other.1) {
            Some(mark)
        } else {
            Some(other)
        },
        None => Some(mark),
    }
}

/// The state of a tab: that of its most urgent pane, and since when it holds.
pub fn tab_attention(app: &AppState, tab: &Tab) -> (out: Mark)
    ensures
        out == tab_mark(app.terminals@, *tab),
{
    match urgent_pane(&app.terminals, &tab.panes) {
        Some(mark) => mark,
        None => (AgentState::Unknown, true, None),
    }
}

/// The most urgent mark of the first `n` of `tabs`, the last one of equals;
/// a tab without an agent has none.
pub open spec fn most_urgent_tab(
    terminals: Map<u64, TerminalState>,
    tabs: Seq<Tab>,
    n: nat,
) -> Option<Mark>
    decreases n,
{
    if n == 0 {
        None
    } else {
        let best = most_urgent_tab(terminals, tabs, (n - 1) as nat);
        match most_urgent(terminals, tabs[n - 1].panes@, tabs[n - 1].panes@.len()) {
            Some(mark) => later_if_urgent(best, mark),
            None => best,
        }
    }
}

/// The state of a space: that of its most urgent pane.
pub open spec fn space_state(terminals: Map<u64, TerminalState>, ws: Workspace) -> (
    AgentState,
    bool,
) {
    match most_urgent_tab(terminals, ws.tabs@, ws.tabs@.len()) {
        Some(mark) => (mark.0, mark.1),
        None => (AgentState::Unknown, true),
    }
}

impl Workspace {
    /// The state of the space: that of its most urgent pane.
    pub fn aggregate_state(&self, terminals: &HashMap<u64, TerminalState>) -> (out: (
        AgentState,
        bool,
    ))
        ensures
            out == space_state(terminals@, *self),
    {
        let mut best: Option<Mark> = None;
        let mut i: usize = 0;
        while i < self.tabs.len()
            invariant
                i <= self.tabs@.len(),
                best == most_urgent_tab(terminals@, self.tabs@, i as nat),
            decreases self.tabs@.len() - i,
        {
            if let Some(mark) = urgent_pane(terminals, &self.tabs[i].panes) {
                best = keep_urgent(best, mark);
            }
            i = i + 1;
        }
        match best {
            Some(mark) => (mark.0, mark.1),
            None => (AgentState::Unknown, true),
        }
    }
}

/// The most urgent state of those of the first `n` spaces that are checkouts of
/// `key`, the last one of equals.
pub open spec fn group_state(app: AppState, key: Seq<char>, n: nat) -> Option<(AgentState, bool)>
    decreases n,
{
    if n == 0 {
        None
    } else {
        let best = group_state(app, key, (n - 1) as nat);
        if entries::in_space(entries::members_of(app.workspaces@), n - 1, key) {
            let here = space_state(app.terminals@, app.workspaces@[n - 1]);
            match best {
                Some(other) => if priority(here.0, here.1) >= priority(other.0, other.1) {
                    Some(here)
                } else {
                    best
                },
                None => Some(here),
            }
        } else {
            best
        }
    }
}

/// The state of the group of `key`: that of its most urgent space.
pub open spec fn state_of_group(app: AppState, key: Seq<char>) -> (AgentState, bool) {
    match group_state(app, key, app.workspaces@.len()) {
        Some(state) => state,
        None => (AgentState::Unknown, true),
    }
}

/// The state of the group of `key`: that of its most urgent space.
pub fn space_aggregate_state(app: &AppState, key: &str) -> (out: (AgentState, bool))
    ensures
        out == state_of_group(*app, key@),
        out == match group_state(*app, key@, app.workspaces@.len()) {
            Some(state) => state,
            None => (AgentState::Unknown, true),
        },
{
    let mut best: Option<(AgentState, bool)> = None;
    let mut i: usize = 0;
    while i < app.workspaces.len()
        invariant
            i <= app.workspaces@.len(),
            best == group_state(*app, key@, i as nat),
        decreases app.workspaces@.len() - i,
    {
        let ws: &Workspace = &app.workspaces[i];
        let member: bool = match ws.worktree_space() {
            Some(space) => str_eq(space.key.as_str(), key),
            None => false,
        };
        if member {
            let here: (AgentState, bool) = ws.aggregate_state(&app.terminals);
            best = match best {
                Some(other) => if workspace_attention_priority(here.0, here.1)
                    >= workspace_attention_priority(other.0, other.1) {
                    Some(here)
                } else {
                    Some(other)
                },
                None => Some(here),
            };
        }
        i = i + 1;
    }
    match best {
        Some(state) => state,
        None => (AgentState::Unknown, true),
    }
}

/// The mark of a tab is that of one of its panes, and no pane of the tab is
/// more urgent; behind that pane no other is as urgent.
pub proof fn law_a_tab_shows_its_most_urgent_pane(
    terminals: Map<u64, TerminalState>,
    tab: Tab,
    i: int,
)
    requires
        0 <= i < tab.panes@.len(),
        pane_mark(terminals, tab.panes@[i]) is Some,
    ensures
        urgency(pane_mark(terminals, tab.panes@[i])->0) <= urgency(tab_mark(terminals, tab)),
        exists|k: int|
            0 <= k < tab.panes@.len() && #[trigger] pane_mark(terminals, tab.panes@[k]) == Some(
                tab_mark(terminals, tab),
            ) && (i > k ==> urgency(pane_mark(terminals, tab.panes@[i])->0) < urgency(
                tab_mark(terminals, tab),
            )),
{
    let k = lemma_most_urgent(terminals, tab.panes@, tab.panes@.len(), i);
    assert(pane_mark(terminals, tab.panes@[k]) == Some(tab_mark(terminals, tab)));
}

proof fn lemma_most_urgent(
    terminals: Map<u64, TerminalState>,
    panes: Seq<Pane>,
    n: nat,
    i: int,
) -> (k: int)
    requires
        n <= panes.len(),
        0 <= i < n,
        pane_mark(terminals, panes[i]) is Some,
    ensures
        0 <= k < n,
        most_urgent(terminals, panes, n) is Some,
        pane_mark(terminals, panes[k]) == most_urgent(terminals, panes, n),
        urgency(pane_mark(terminals, panes[i])->0) <= urgency(most_urgent(terminals, panes, n)->0),
        i > k ==> urgency(pane_mark(terminals, panes[i])->0) < urgency(
            most_urgent(terminals, panes, n)->0,
        ),
    decreases n,
{
    if i < n - 1 {
        let k = lemma_most_urgent(terminals, panes, (n - 1) as nat, i);
        match pane_mark(terminals, panes[n - 1]) {
            Some(mark) => {
                if most_urgent(terminals, panes, n) == Some(mark) && urgency(mark) >= urgency(
                    most_urgent(terminals, panes, (n - 1) as nat)->0,
                ) {
                    n - 1
                } else {
                    k
                }
            },
            None => k,
        }
    } else {
        let mark = pane_mark(terminals, panes[i])->0;
        if most_urgent(terminals, panes, (n - 1) as nat) is Some && urgency(mark) < urgency(
            most_urgent(terminals, panes, (n - 1) as nat)->0,
        ) {
            lemma_most_urgent_is_one(terminals, panes, (n - 1) as nat)
        } else {
            n - 1
        }
    }
}

proof fn lemma_most_urgent_is_one(
    terminals: Map<u64, TerminalState>,
    panes: Seq<Pane>,
    n: nat,
) -> (k: int)
    requires
        n <= panes.len(),
        most_urgent(terminals, panes, n) is Some,
    ensures
        0 <= k < n,
        pane_mark(terminals, panes[k]) == most_urgent(terminals, panes, n),
    decreases n,
{
    if pane_mark(terminals, panes[n - 1]) == most_urgent(terminals, panes, n) {
        n - 1
    } else {
        lemma_most_urgent_is_one(terminals, panes, (n - 1) as nat)
    }
}

/// A blocked agent calls for the most attention, then one that is done and has
/// not been seen, then one at work, then one that has been seen, and least of
/// all one of which nothing is known. Only of an idle agent it matters whether
/// it has been seen.
pub proof fn law_blocked_agents_come_first(seen: bool, other: bool)
    ensures
        priority(AgentState::Blocked, seen) > priority(AgentState::Idle, false),
        priority(AgentState::Idle, false) > priority(AgentState::Working, seen),
        priority(AgentState::Working, seen) > priority(AgentState::Idle, true),
        priority(AgentState::Idle, true) > priority(AgentState::Unknown, seen),
        priority(AgentState::Blocked, seen) == priority(AgentState::Blocked, other),
        priority(AgentState::Working, seen) == priority(AgentState::Working, other),
        priority(AgentState::Unknown, seen) == priority(AgentState::Unknown, other),
{
}

proof fn lemma_most_urgent_none(terminals: Map<u64, TerminalState>, panes: Seq<Pane>, n: nat)
    requires
        n <= panes.len(),
    ensures
        most_urgent(terminals, panes, n) is None <==> forall|i: int|
            0 <= i < n ==> !terminals.contains_key((#[trigger] panes[i]).attached_terminal_id),
    decreases n,
{
    if n > 0 {
        lemma_most_urgent_none(terminals, panes, (n - 1) as nat);
        if terminals.contains_key(panes[n - 1].attached_terminal_id) {
            assert(most_urgent(terminals, panes, n) is Some);
        }
    }
}

/// The mark of a pane says what its terminal and the pane say. Where no terminal
/// of a tab is known, nothing is, and there is nothing to see.
pub proof fn law_marks_are_those_of_the_terminals(
    terminals: Map<u64, TerminalState>,
    tab: Tab,
    pane: Pane,
)
    ensures
        ({
            let id = pane.attached_terminal_id;
            &&& terminals.contains_key(id) ==> pane_mark(terminals, pane) == Some(
                (terminals[id].state, pane.seen, terminals[id].last_agent_state_change_at),
            )
            &&& !terminals.contains_key(id) ==> pane_mark(terminals, pane) is None
        }),
        (forall|i: int|
            0 <= i < tab.panes@.len() ==> !terminals.contains_key(
                (#[trigger] tab.panes@[i]).attached_terminal_id,
            )) ==> tab_mark(terminals, tab) == (AgentState::Unknown, true, None::<u64>),
{
    lemma_most_urgent_none(terminals, tab.panes@, tab.panes@.len());
}

proof fn lemma_most_urgent_tab(
    terminals: Map<u64, TerminalState>,
    tabs: Seq<Tab>,
    n: nat,
    t: int,
    i: int,
)
    requires
        0 <= t < n <= tabs.len(),
        0 <= i < tabs[t].panes@.len(),
        pane_mark(terminals, tabs[t].panes@[i]) is Some,
    ensures
        most_urgent_tab(terminals, tabs, n) is Some,
        urgency(pane_mark(terminals, tabs[t].panes@[i])->0) <= urgency(
            most_urgent_tab(terminals, tabs, n)->0,
        ),
    decreases n,
{
    if t < n - 1 {
        lemma_most_urgent_tab(terminals, tabs, (n - 1) as nat, t, i);
    } else {
        let k = lemma_most_urgent(terminals, tabs[t].panes@, tabs[t].panes@.len(), i);
    }
}

proof fn lemma_most_urgent_tab_is_one(
    terminals: Map<u64, TerminalState>,
    tabs: Seq<Tab>,
    n: nat,
) -> (at: (int, int))
    requires
        n <= tabs.len(),
        most_urgent_tab(terminals, tabs, n) is Some,
    ensures
        0 <= at.0 < n,
        0 <= at.1 < tabs[at.0].panes@.len(),
        pane_mark(terminals, tabs[at.0].panes@[at.1]) == most_urgent_tab(terminals, tabs, n),
    decreases n,
{
    let panes = tabs[n - 1].panes@;
    if most_urgent(terminals, panes, panes.len()) is Some && most_urgent_tab(terminals, tabs, n)
        == most_urgent(terminals, panes, panes.len()) {
        (n - 1, lemma_most_urgent_is_one(terminals, panes, panes.len()))
    } else {
        lemma_most_urgent_tab_is_one(terminals, tabs, (n - 1) as nat)
    }
}

/// Tab `t` and its pane `i` are those whose state `state` is.
pub open spec fn is_state_of(
    terminals: Map<u64, TerminalState>,
    ws: Workspace,
    t: int,
    i: int,
    state: (AgentState, bool),
) -> bool {
    &&& 0 <= t < ws.tabs@.len()
    &&& 0 <= i < ws.tabs@[t].panes@.len()
    &&& pane_mark(terminals, ws.tabs@[t].panes@[i]) matches Some(mark) && (mark.0, mark.1) == state
}

/// The state of a space is that of one of its panes, and no pane of it is more
/// urgent.
pub proof fn law_a_space_shows_its_most_urgent_pane(
    terminals: Map<u64, TerminalState>,
    ws: Workspace,
    t: int,
    i: int,
)
    requires
        0 <= t < ws.tabs@.len(),
        0 <= i < ws.tabs@[t].panes@.len(),
        pane_mark(terminals, ws.tabs@[t].panes@[i]) is Some,
    ensures
        urgency(pane_mark(terminals, ws.tabs@[t].panes@[i])->0) <= priority(
            space_state(terminals, ws).0,
            space_state(terminals, ws).1,
        ),
        exists|u: int, k: int| is_state_of(terminals, ws, u, k, space_state(terminals, ws)),
{
    lemma_most_urgent_tab(terminals, ws.tabs@, ws.tabs@.len(), t, i);
    let at = lemma_most_urgent_tab_is_one(terminals, ws.tabs@, ws.tabs@.len());
    assert(is_state_of(terminals, ws, at.0, at.1, space_state(terminals, ws)));
}

proof fn lemma_group_state(app: AppState, key: Seq<char>, n: nat, i: int) -> (k: int)
    requires
        0 <= i < n <= app.workspaces@.len(),
        entries::in_space(entries::members_of(app.workspaces@), i, key),
    ensures
        0 <= k < n,
        entries::in_space(entries::members_of(app.workspaces@), k, key),
        group_state(app, key, n) == Some(space_state(app.terminals@, app.workspaces@[k])),
        ({
            let here = space_state(app.terminals@, app.workspaces@[i]);
            let most = space_state(app.terminals@, app.workspaces@[k]);
            &&& priority(here.0, here.1) <= priority(most.0, most.1)
            &&& i > k ==> priority(here.0, here.1) < priority(most.0, most.1)
        }),
    decreases n,
{
    let m = entries::members_of(app.workspaces@);
    let last = space_state(app.terminals@, app.workspaces@[n - 1]);
    if i < n - 1 {
        let k = lemma_group_state(app, key, (n - 1) as nat, i);
        let most = space_state(app.terminals@, app.workspaces@[k]);
        if entries::in_space(m, n - 1, key) && priority(last.0, last.1) >= priority(
            most.0,
            most.1,
        ) {
            n - 1
        } else {
            k
        }
    } else if group_state(app, key, (n - 1) as nat) is Some {
        let before = group_state(app, key, (n - 1) as nat)->0;
        if priority(last.0, last.1) >= priority(before.0, before.1) {
            n - 1
        } else {
            lemma_group_state_is_one(app, key, (n - 1) as nat)
        }
    } else {
        n - 1
    }
}

proof fn lemma_group_state_is_one(app: AppState, key: Seq<char>, n: nat) -> (k: int)
    requires
        n <= app.workspaces@.len(),
        group_state(app, key, n) is Some,
    ensures
        0 <= k < n,
        entries::in_space(entries::members_of(app.workspaces@), k, key),
        group_state(app, key, n) == Some(space_state(app.terminals@, app.workspaces@[k])),
    decreases n,
{
    let m = entries::members_of(app.workspaces@);
    if entries::in_space(m, n - 1, key) && group_state(app, key, n) == Some(
        space_state(app.terminals@, app.workspaces@[n - 1]),
    ) {
        n - 1
    } else {
        lemma_group_state_is_one(app, key, (n - 1) as nat)
    }
}

/// The state of a group is that of one of its spaces; no space of the group is
/// more urgent, and none behind that one as urgent.
pub proof fn law_a_group_shows_its_most_urgent_space(app: AppState, key: Seq<char>, i: int)
    requires
        0 <= i < app.workspaces@.len(),
        app.workspaces@[i].worktree_space matches Some(space) && space.key@ == key,
    ensures
        exists|k: int|
            0 <= k < app.workspaces@.len() && state_of_group(app, key) == (#[trigger] space_state(
                app.terminals@,
                app.workspaces@[k],
            )) && (app.workspaces@[k].worktree_space matches Some(space) && space.key@ == key) && {
                let here = space_state(app.terminals@, app.workspaces@[i]);
                let most = space_state(app.terminals@, app.workspaces@[k]);
                &&& priority(here.0, here.1) <= priority(most.0, most.1)
                &&& i > k ==> priority(here.0, here.1) < priority(most.0, most.1)
            },
{
    let m = entries::members_of(app.workspaces@);
    assert(entries::in_space(m, i, key));
    let k = lemma_group_state(app, key, app.workspaces@.len(), i);
    assert(state_of_group(app, key) == space_state(app.terminals@, app.workspaces@[k]));
}

/// A group of no space has no state to tell.
pub proof fn law_a_group_of_no_space_is_unknown(app: AppState, key: Seq<char>)
    requires
        forall|i: int|
            0 <= i < app.workspaces@.len() ==> !((
            #[trigger] app.workspaces@[i]).worktree_space matches Some(space) && space.key@ == key),
    ensures
        state_of_group(app, key) == (AgentState::Unknown, true),
{
    lemma_no_group_state(app, key, app.workspaces@.len());
}

proof fn lemma_no_group_state(app: AppState, key: Seq<char>, n: nat)
    requires
        n <= app.workspaces@.len(),
        forall|i: int|
            0 <= i < app.workspaces@.len() ==> !((
            #[trigger] app.workspaces@[i]).worktree_space matches Some(space) && space.key@ == key),
    ensures
        group_state(app, key, n) is None,
    decreases n,
{
    if n > 0 {
        lemma_no_group_state(app, key, (n - 1) as nat);
        assert(!(app.workspaces@[n - 1].worktree_space matches Some(space) && space.key@ == key));
    }
}

} // verus!
