//! The order and the selection of the agent panel.

use vstd::prelude::*;

use crate::app::state::{AgentPanelSort, AppState};
use crate::seqs;
use crate::ui::sidebar::agents::{AgentEntry, AgentPanelEntry};
use crate::ui::sidebar::attention;
use crate::ui::sidebar::attention::workspace_attention_priority;
use crate::views;
use crate::workspace::PaneId;

verus! {

/// The entries that call for just so much attention.
pub open spec fn has_priority(level: int) -> spec_fn(AgentEntry) -> bool {
    |entry: AgentEntry| attention::priority(entry.state, entry.seen) == level
}

/// The entries that call for less attention.
pub open spec fn is_below(level: int) -> spec_fn(AgentEntry) -> bool {
    |entry: AgentEntry| attention::priority(entry.state, entry.seen) < level
}

/// The entries below `level`, those that need attention most first and as they
/// stood among equals.
pub open spec fn by_priority(entries: Seq<AgentEntry>, level: nat) -> Seq<AgentEntry>
    decreases level,
{
    if level == 0 {
        Seq::empty()
    } else {
        seqs::picked(entries, has_priority(level - 1)) + by_priority(entries, (level - 1) as nat)
    }
}

/// One more than the highest priority.
pub const PRIORITY_LEVELS: u8 = 5;

/// The entries whose pane is one of `panes`.
pub open spec fn is_among(panes: Seq<PaneId>) -> spec_fn(AgentEntry) -> bool {
    |entry: AgentEntry| panes.contains(entry.pane_id)
}

/// The entries that the panel shows: those that its view selects, in its order.
pub open spec fn viewed(app: AppState, entries: Seq<AgentEntry>) -> Seq<AgentEntry> {
    let selected = match app.agent_view_override {
        Some(view) => seqs::picked(entries, is_among(view.panes@)),
        None => entries,
    };
    match app.agent_panel_sort {
        AgentPanelSort::Spaces => selected,
        AgentPanelSort::Priority => by_priority(selected, PRIORITY_LEVELS as nat),
    }
}

fn holds_pane(panes: &Vec<PaneId>, id: PaneId) -> (out: bool)
    ensures
        out == panes@.contains(id),
{
    let mut i: usize = 0;
    while i < panes.len()
        invariant
            i <= panes@.len(),
            forall|j: int| 0 <= j < i ==> panes@[j] != id,
        decreases panes@.len() - i,
    {
        if panes[i] == id {
            return true;
        }
        i = i + 1;
    }
    false
}

fn select(entries: Vec<AgentPanelEntry>, panes: &Vec<PaneId>) -> (out: Vec<AgentPanelEntry>)
    ensures
        views::of(out@) == seqs::picked(views::of(entries@), is_among(panes@)),
{
    broadcast use views::group_views;

    let ghost items = entries@;
    let ghost all = views::of(entries@);
    let ghost wanted = is_among(panes@);
    let mut out: Vec<AgentPanelEntry> = Vec::new();
    assert(views::of(out@) =~= seqs::picked(all.take(0), wanted));
    for entry in it: entries
        invariant
            it.seq() == items,
            all == views::of(items),
            wanted == is_among(panes@),
            views::of(out@) == seqs::picked(all.take(it.index() as int), wanted),
    {
        let ghost n = it.index() as int;
        proof {
            assert(all[n] == entry@);
            assert(all.take(n + 1) =~= all.take(n).push(all[n]));
            seqs::lemma_picked_push(all.take(n), wanted, all[n]);
        }
        if holds_pane(panes, entry.pane_id) {
            out.push(entry);
        }
    }
    assert(all.take(all.len() as int) =~= all);
    out
}

/// Parts the entries of one priority from the rest.
fn part(entries: Vec<AgentPanelEntry>, level: u8) -> (out: (
    Vec<AgentPanelEntry>,
    Vec<AgentPanelEntry>,
))
    requires
        forall|i: int|
            0 <= i < entries@.len() ==> attention::priority(
                (#[trigger] entries@[i]).state,
                entries@[i].seen,
            ) <= level,
    ensures
        views::of(out.0@) == seqs::picked(views::of(entries@), has_priority(level as int)),
        views::of(out.1@) == seqs::picked(views::of(entries@), is_below(level as int)),
{
    broadcast use views::group_views;

    let ghost items = entries@;
    let ghost all = views::of(entries@);
    let ghost here = has_priority(level as int);
    let ghost below = is_below(level as int);
    let mut mine: Vec<AgentPanelEntry> = Vec::new();
    let mut rest: Vec<AgentPanelEntry> = Vec::new();
    assert(views::of(mine@) =~= seqs::picked(all.take(0), here));
    assert(views::of(rest@) =~= seqs::picked(all.take(0), below));
    for entry in it: entries
        invariant
            it.seq() == items,
            all == views::of(items),
            here == has_priority(level as int),
            below == is_below(level as int),
            forall|i: int|
                0 <= i < items.len() ==> attention::priority(
                    (#[trigger] items[i]).state,
                    items[i].seen,
                ) <= level,
            views::of(mine@) == seqs::picked(all.take(it.index() as int), here),
            views::of(rest@) == seqs::picked(all.take(it.index() as int), below),
    {
        let ghost n = it.index() as int;
        proof {
            assert(all[n] == entry@);
            assert(items[n] == entry);
            assert(all.take(n + 1) =~= all.take(n).push(all[n]));
            seqs::lemma_picked_push(all.take(n), here, all[n]);
            seqs::lemma_picked_push(all.take(n), below, all[n]);
        }
        if workspace_attention_priority(entry.state, entry.seen) == level {
            mine.push(entry);
        } else {
            rest.push(entry);
        }
    }
    assert(all.take(all.len() as int) =~= all);
    (mine, rest)
}

proof fn lemma_below(entries: Seq<AgentEntry>, level: nat, upto: nat)
    requires
        upto <= level,
    ensures
        by_priority(seqs::picked(entries, is_below(level as int)), upto) == by_priority(
            entries,
            upto,
        ),
    decreases upto,
{
    if upto > 0 {
        lemma_below(entries, level, (upto - 1) as nat);
        seqs::lemma_picked_twice(entries, is_below(level as int), has_priority(upto - 1));
    }
}

fn sort_by_priority(entries: Vec<AgentPanelEntry>) -> (out: Vec<AgentPanelEntry>)
    ensures
        views::of(out@) == by_priority(views::of(entries@), PRIORITY_LEVELS as nat),
{
    broadcast use views::group_views;

    let ghost all = views::of(entries@);
    let ghost goal = by_priority(all, PRIORITY_LEVELS as nat);
    let mut out: Vec<AgentPanelEntry> = Vec::new();
    let mut rest: Vec<AgentPanelEntry> = entries;
    let mut level: u8 = PRIORITY_LEVELS;
    assert(goal =~= views::of(out@) + by_priority(views::of(rest@), level as nat));
    while level > 0
        invariant
            level <= PRIORITY_LEVELS,
            goal == views::of(out@) + by_priority(views::of(rest@), level as nat),
            forall|i: int|
                0 <= i < rest@.len() ==> attention::priority(
                    (#[trigger] rest@[i]).state,
                    rest@[i].seen,
                ) < level,
        decreases level,
    {
        let ghost before = views::of(rest@);
        let ghost placed = views::of(out@);
        let (mine, below) = part(rest, level - 1);
        let mut mine = mine;
        proof {
            lemma_below(before, (level - 1) as nat, (level - 1) as nat);
            seqs::lemma_picked_holds(before, is_below(level - 1));
            assert forall|i: int| 0 <= i < below@.len() implies attention::priority(
                (#[trigger] below@[i]).state,
                below@[i].seen,
            ) < level - 1 by {
                assert(views::of(below@)[i] == below@[i]@);
                assert(is_below(level - 1)(views::of(below@)[i]));
            }
        }
        out.append(&mut mine);
        rest = below;
        level = level - 1;
        assert(goal =~= views::of(out@) + by_priority(views::of(rest@), level as nat));
    }
    assert(goal =~= views::of(out@));
    out
}

/// The entries that the panel shows: those that its view selects, in its order.
pub fn apply_agent_view(app: &AppState, entries: Vec<AgentPanelEntry>) -> (out: Vec<
    AgentPanelEntry,
>)
    ensures
        views::of(out@) == viewed(*app, views::of(entries@)),
{
    let selected: Vec<AgentPanelEntry> = match &app.agent_view_override {
        Some(view) => select(entries, &view.panes),
        None => entries,
    };
    match app.agent_panel_sort {
        AgentPanelSort::Spaces => selected,
        AgentPanelSort::Priority => sort_by_priority(selected),
    }
}

proof fn lemma_by_priority(entries: Seq<AgentEntry>, level: nat, k: int)
    requires
        0 <= k,
    ensures
        forall|i: int|
            0 <= i < by_priority(entries, level).len() ==> attention::priority(
                (#[trigger] by_priority(entries, level)[i]).state,
                by_priority(entries, level)[i].seen,
            ) < level,
        forall|i: int, j: int|
            0 <= i < j < by_priority(entries, level).len() ==> attention::priority(
                (#[trigger] by_priority(entries, level)[i]).state,
                by_priority(entries, level)[i].seen,
            ) >= attention::priority(
                (#[trigger] by_priority(entries, level)[j]).state,
                by_priority(entries, level)[j].seen,
            ),
        seqs::picked(by_priority(entries, level), has_priority(k)) == if k < level {
            seqs::picked(entries, has_priority(k))
        } else {
            Seq::empty()
        },
    decreases level,
{
    if level > 0 {
        let top = seqs::picked(entries, has_priority(level - 1));
        let rest = by_priority(entries, (level - 1) as nat);
        lemma_by_priority(entries, (level - 1) as nat, k);
        seqs::lemma_picked_holds(entries, has_priority(level - 1));
        seqs::lemma_picked_concat(top, rest, has_priority(k));
        seqs::lemma_picked_twice(entries, has_priority(level - 1), has_priority(k));
        assert forall|i: int| 0 <= i < top.len() implies attention::priority(
            (#[trigger] top[i]).state,
            top[i].seen,
        ) == level - 1 by {
            assert(has_priority(level - 1)(top[i]));
        }
        assert(top + Seq::<AgentEntry>::empty() =~= top);
        assert(Seq::<AgentEntry>::empty() + seqs::picked(entries, has_priority(k)) =~= seqs::picked(
            entries,
            has_priority(k),
        ));
    }
}

/// By priority the agents that need attention most come first, and those that
/// need it equally stand as the spaces do; none is lost and none is added.
pub proof fn law_priority_is_attention_then_space_order(entries: Seq<AgentEntry>, k: int)
    requires
        0 <= k < PRIORITY_LEVELS,
    ensures
        ({
            let sorted = by_priority(entries, PRIORITY_LEVELS as nat);
            &&& forall|i: int, j: int|
                0 <= i < j < sorted.len() ==> attention::priority(
                    (#[trigger] sorted[i]).state,
                    sorted[i].seen,
                ) >= attention::priority((#[trigger] sorted[j]).state, sorted[j].seen)
            &&& seqs::picked(sorted, has_priority(k)) == seqs::picked(entries, has_priority(k))
            &&& sorted.to_multiset() == entries.to_multiset()
        }),
{
    lemma_by_priority(entries, PRIORITY_LEVELS as nat, k);
    lemma_by_priority_keeps(entries, PRIORITY_LEVELS as nat);
    seqs::lemma_picked_all(entries, is_below(PRIORITY_LEVELS as int));
}

proof fn lemma_by_priority_keeps(entries: Seq<AgentEntry>, level: nat)
    ensures
        by_priority(entries, level).to_multiset() == seqs::picked(
            entries,
            is_below(level as int),
        ).to_multiset(),
    decreases level,
{
    if level > 0 {
        let top = seqs::picked(entries, has_priority(level - 1));
        let rest = by_priority(entries, (level - 1) as nat);
        lemma_by_priority_keeps(entries, (level - 1) as nat);
        vstd::seq_lib::lemma_multiset_commutative(top, rest);
        seqs::lemma_picked_parts(
            entries,
            has_priority(level - 1),
            is_below(level - 1),
            is_below(level as int),
        );
    } else {
        seqs::lemma_picked_holds(entries, is_below(0));
        let none = seqs::picked(entries, is_below(0));
        if none.len() > 0 {
            assert(is_below(0)(none[0]));
        }
        assert(none =~= by_priority(entries, level));
    }
}

/// A view that selects panes shows agents in those panes only.
pub proof fn law_a_view_shows_its_panes_only(app: AppState, entries: Seq<AgentEntry>, i: int)
    requires
        app.agent_view_override is Some,
        0 <= i < viewed(app, entries).len(),
    ensures
        app.agent_view_override->0.panes@.contains(viewed(app, entries)[i].pane_id),
{
    let wanted = is_among(app.agent_view_override->0.panes@);
    let selected = seqs::picked(entries, wanted);
    seqs::lemma_picked_holds(entries, wanted);
    if app.agent_panel_sort is Priority {
        lemma_by_priority_members(selected, PRIORITY_LEVELS as nat, i);
        let x = viewed(app, entries)[i];
        let k = choose|k: int| 0 <= k < selected.len() && selected[k] == x;
        assert(wanted(selected[k]));
    } else {
        assert(wanted(selected[i]));
    }
}

proof fn lemma_by_priority_members(entries: Seq<AgentEntry>, level: nat, i: int)
    requires
        0 <= i < by_priority(entries, level).len(),
    ensures
        entries.contains(by_priority(entries, level)[i]),
    decreases level,
{
    let top = seqs::picked(entries, has_priority(level - 1));
    seqs::lemma_picked_holds(entries, has_priority(level - 1));
    if i < top.len() {
        assert(entries.contains(top[i]));
    } else {
        lemma_by_priority_members(entries, (level - 1) as nat, i - top.len());
    }
}

/// Without a selection and by spaces the panel shows all agents as they stand.
/// With a selection it shows every agent in a pane of the selection, however it
/// orders them.
pub proof fn law_a_view_loses_no_agent(app: AppState, entries: Seq<AgentEntry>, i: int)
    requires
        0 <= i < entries.len(),
        app.agent_view_override matches Some(view) ==> view.panes@.contains(entries[i].pane_id),
    ensures
        viewed(app, entries).contains(entries[i]),
        app.agent_view_override is None && app.agent_panel_sort is Spaces ==> viewed(app, entries)
            == entries,
{
    broadcast use vstd::seq_lib::group_to_multiset_ensures;

    let selected = match app.agent_view_override {
        Some(view) => seqs::picked(entries, is_among(view.panes@)),
        None => entries,
    };
    if let Some(view) = app.agent_view_override {
        seqs::lemma_picked_keeps(entries, is_among(view.panes@), i);
    }
    assert(selected.contains(entries[i]));
    if app.agent_panel_sort is Priority {
        law_priority_is_attention_then_space_order(selected, 0);
        let sorted = viewed(app, entries);
        assert(selected.to_multiset().count(entries[i]) > 0);
        assert(sorted.to_multiset().count(entries[i]) > 0);
        assert(sorted.contains(entries[i]));
    }
}

/// By priority the panel shows those that need attention most first, whatever
/// it selects.
pub proof fn law_the_panel_is_ordered_by_attention(app: AppState, entries: Seq<AgentEntry>)
    requires
        app.agent_panel_sort is Priority,
    ensures
        forall|i: int, j: int|
            0 <= i < j < viewed(app, entries).len() ==> attention::priority(
                (#[trigger] viewed(app, entries)[i]).state,
                viewed(app, entries)[i].seen,
            ) >= attention::priority(
                (#[trigger] viewed(app, entries)[j]).state,
                viewed(app, entries)[j].seen,
            ),
{
    let selected = match app.agent_view_override {
        Some(view) => seqs::picked(entries, is_among(view.panes@)),
        None => entries,
    };
    law_priority_is_attention_then_space_order(selected, 0);
}

} // verus!
