//! The focused tab's task timeline for the right-side panel, read from the
//! summarizer's per-session state file.

use vstd::prelude::*;

use crate::app::state::AppState;
use crate::seconds;
use crate::seconds::Seconds;
use crate::seqs;
use crate::text;
use crate::text::{str_eq, str_has_char, str_has_part};
use crate::workspace;
use crate::workspace::AgentSession;

verus! {

/// Nanoseconds of a clock that never runs back.
pub type Ticks = u64;

/// How long a timeline is shown before its file is looked at again.
pub const REFRESH_INTERVAL: Ticks = 2_000_000_000;

/// How long the viewer dwells on one exchange.
pub const CYCLE_DWELL: Ticks = 6_000_000_000;

/// One task of the timeline.
#[derive(Debug)]
pub struct TimelineItem {
    pub u: String,
    pub label: String,
    pub head: String,
    pub ts: Seconds,
    pub secs: Option<Seconds>,
    pub off: u64,
}

/// A subagent of the session.
#[derive(Debug)]
pub struct SubLane {
    pub label: String,
    pub status: String,
    pub started: Seconds,
    pub ended: Seconds,
    pub path: String,
    pub events: Vec<String>,
}

/// What the summarizer writes of an exchange besides its task.
#[derive(Debug)]
pub struct Exchange {
    pub u: String,
    pub ts: Seconds,
    pub last_ts: Seconds,
    pub head: String,
    pub rhead: String,
    pub label: String,
    pub ylabel: String,
}

/// The tasks of a session.
#[derive(Debug)]
pub struct Timeline {
    pub status: String,
    pub total_secs: Seconds,
    pub out_tokens: u64,
    pub done: Vec<TimelineItem>,
    pub current: Vec<TimelineItem>,
    pub next: Vec<String>,
    pub subs: Vec<SubLane>,
    pub exch: Vec<Exchange>,
}

/// The timeline of the focused tab, and when and from what it was read.
#[derive(Debug)]
pub struct DetailPanelCache {
    pub session_key: String,
    pub agent: String,
    pub timeline: Option<Timeline>,
    pub checked_at: Ticks,
    pub timeline_sig: (u64, u64),
}

/// One exchange as the prompt viewer shows it.
#[derive(Debug)]
pub struct ExchangeView {
    pub u: String,
    pub label: String,
    pub head: String,
    pub rhead: String,
    pub ts: Seconds,
    pub secs: Option<Seconds>,
    pub done: bool,
}

/// An [`ExchangeView`] by its texts.
pub struct ShownExchange {
    pub u: Seq<char>,
    pub label: Seq<char>,
    pub head: Seq<char>,
    pub rhead: Seq<char>,
    pub ts: int,
    pub secs: Option<int>,
    pub done: bool,
}

impl View for ExchangeView {
    type V = ShownExchange;

    open spec fn view(&self) -> ShownExchange {
        ShownExchange {
            u: self.u@,
            label: self.label@,
            head: self.head@,
            rhead: self.rhead@,
            ts: self.ts@,
            secs: match self.secs {
                Some(secs) => Some(secs@),
                None => None,
            },
            done: self.done,
        }
    }
}

/// The exchanges about `u`.
pub open spec fn about(u: Seq<char>) -> spec_fn(Exchange) -> bool {
    |e: Exchange| e.u@ == u
}

/// The first exchange about `u`.
pub open spec fn exchange_about(exch: Seq<Exchange>, u: Seq<char>) -> Option<Exchange> {
    match seqs::first_where(exch, about(u)) {
        Some(i) => Some(exch[i]),
        None => None,
    }
}

/// `a`, or `b` where `a` is empty.
pub open spec fn first_text(a: Seq<char>, b: Seq<char>) -> Seq<char> {
    if a.len() == 0 {
        b
    } else {
        a
    }
}

/// How the viewer shows the task `item`. The label is that of the task's row;
/// the prompt is the longer text of its exchange, where there is one.
pub open spec fn shown_exchange(tl: Timeline, item: TimelineItem, done: bool) -> ShownExchange {
    let exch = exchange_about(tl.exch@, item.u@);
    let nothing = Seq::<char>::empty();
    ShownExchange {
        u: item.u@,
        label: first_text(
            item.label@,
            match exch {
                Some(e) => first_text(e.ylabel@, e.label@),
                None => nothing,
            },
        ),
        head: first_text(
            match exch {
                Some(e) => e.head@,
                None => nothing,
            },
            item.head@,
        ),
        rhead: match exch {
            Some(e) => e.rhead@,
            None => nothing,
        },
        ts: match exch {
            Some(e) => if e.ts@ > 0 {
                e.ts@
            } else {
                item.ts@
            },
            None => item.ts@,
        },
        secs: if !done {
            None
        } else {
            match (item.secs, exch) {
                (Some(secs), _) => Some(secs@),
                (None, Some(e)) => if e.ts@ > 0 && e.last_ts@ > e.ts@ {
                    Some(seconds::difference(e.last_ts@, e.ts@))
                } else {
                    None
                },
                (None, None) => None,
            }
        },
        done,
    }
}

/// Every exchange as the viewer shows it: the done tasks, then the current ones.
pub open spec fn shown_exchanges(tl: Timeline) -> Seq<ShownExchange> {
    tl.done@.map_values(|item: TimelineItem| shown_exchange(tl, item, true))
        + tl.current@.map_values(|item: TimelineItem| shown_exchange(tl, item, false))
}

fn text_or(a: &str, b: &str) -> (out: String)
    ensures
        out@ == first_text(a@, b@),
{
    if a.is_empty() {
        b.to_string()
    } else {
        a.to_string()
    }
}

impl Timeline {
    /// The first exchange about `u`.
    pub fn exchange(&self, u: &str) -> (out: Option<&Exchange>)
        ensures
            match out {
                Some(e) => exchange_about(self.exch@, u@) == Some(*e),
                None => exchange_about(self.exch@, u@) is None,
            },
    {
        let mut i: usize = 0;
        while i < self.exch.len()
            invariant
                i <= self.exch@.len(),
                forall|j: int| 0 <= j < i ==> !about(u@)(#[trigger] self.exch@[j]),
            decreases self.exch@.len() - i,
        {
            if str_eq(self.exch[i].u.as_str(), u) {
                proof {
                    seqs::lemma_first_is(self.exch@, about(u@), i as int);
                }
                return Some(&self.exch[i]);
            }
            i = i + 1;
        }
        proof {
            seqs::lemma_first_none(self.exch@, about(u@));
        }
        None
    }

    fn exchange_view(&self, item: &TimelineItem, done: bool) -> (out: ExchangeView)
        ensures
            out@ == shown_exchange(*self, *item, done),
    {
        let exch: Option<&Exchange> = self.exchange(item.u.as_str());
        let label: String = match exch {
            Some(e) => {
                let other: String = text_or(e.ylabel.as_str(), e.label.as_str());
                text_or(item.label.as_str(), other.as_str())
            },
            None => text_or(item.label.as_str(), String::new().as_str()),
        };
        let head: String = match exch {
            Some(e) => text_or(e.head.as_str(), item.head.as_str()),
            None => item.head.clone(),
        };
        let rhead: String = match exch {
            Some(e) => e.rhead.clone(),
            None => String::new(),
        };
        let ts: Seconds = match exch {
            Some(e) => if e.ts.is_positive() {
                e.ts
            } else {
                item.ts
            },
            None => item.ts,
        };
        let secs: Option<Seconds> = if !done {
            None
        } else if item.secs.is_some() {
            item.secs
        } else {
            match exch {
                Some(e) => if e.ts.is_positive() && e.last_ts.exceeds(e.ts) {
                    Some(e.last_ts.minus(e.ts))
                } else {
                    None
                },
                None => None,
            }
        };
        ExchangeView { u: item.u.clone(), label, head, rhead, ts, secs, done }
    }

    /// Every exchange in the order of time, the done tasks and then the current ones.
    pub fn exchange_views(&self) -> (out: Vec<ExchangeView>)
        ensures
            crate::views::of(out@) == shown_exchanges(*self),
    {
        broadcast use crate::views::group_views;

        let mut out: Vec<ExchangeView> = Vec::new();
        let ghost all = shown_exchanges(*self);
        let mut i: usize = 0;
        assert(all.take(0) =~= Seq::<ShownExchange>::empty());
        while i < self.done.len()
            invariant
                i <= self.done@.len(),
                all == shown_exchanges(*self),
                crate::views::of(out@) == all.take(i as int),
            decreases self.done@.len() - i,
        {
            out.push(self.exchange_view(&self.done[i], true));
            assert(all.take(i + 1) =~= all.take(i as int).push(all[i as int]));
            i = i + 1;
        }
        let mut k: usize = 0;
        while k < self.current.len()
            invariant
                k <= self.current@.len(),
                all == shown_exchanges(*self),
                crate::views::of(out@) == all.take(self.done@.len() + k),
            decreases self.current@.len() - k,
        {
            out.push(self.exchange_view(&self.current[k], false));
            assert(all.take(self.done@.len() + k + 1) =~= all.take(self.done@.len() + k).push(
                all[self.done@.len() + k],
            ));
            k = k + 1;
        }
        assert(all.take(all.len() as int) =~= all);
        out
    }
}

/// The state file of the session, below the user's home directory; none for an
/// id that would lead out of the directory of these files.
pub open spec fn timeline_file(session_id: Seq<char>) -> Option<Seq<char>> {
    if session_id.contains('/') || text::has_part(session_id, ".."@) {
        None
    } else {
        Some(".local/state/herdr-detail/"@ + session_id + ".json"@)
    }
}

/// The state file of the session `session_id`, below the user's home directory.
pub fn timeline_path(session_id: &str) -> (out: Option<String>)
    ensures
        crate::views::text(out) == timeline_file(session_id@),
{
    if str_has_char(session_id, '/') || str_has_part(session_id, "..") {
        return None;
    }
    let mut path: String = ".local/state/herdr-detail/".to_string();
    path.append(session_id);
    path.append(".json");
    Some(path)
}

/// The timeline has a task with the id `u`.
pub open spec fn has_item(tl: Timeline, u: Seq<char>) -> bool {
    ||| exists|i: int| 0 <= i < tl.done@.len() && (#[trigger] tl.done@[i]).u@ == u
    ||| exists|i: int| 0 <= i < tl.current@.len() && (#[trigger] tl.current@[i]).u@ == u
}

fn any_item_is(items: &Vec<TimelineItem>, u: &str) -> (found: bool)
    ensures
        found == exists|i: int| 0 <= i < items@.len() && (#[trigger] items@[i]).u@ == u@,
{
    let mut i: usize = 0;
    while i < items.len()
        invariant
            i <= items@.len(),
            forall|j: int| 0 <= j < i ==> (#[trigger] items@[j]).u@ != u@,
        decreases items@.len() - i,
    {
        if str_eq(items[i].u.as_str(), u) {
            assert(items@[i as int].u@ == u@);
            return true;
        }
        i = i + 1;
    }
    false
}

/// The pin names a task of the timeline that is shown.
pub open spec fn pin_resolves(app: AppState) -> bool {
    &&& app.detail_panel_pinned is Some
    &&& app.detail_panel is Some
    &&& app.detail_panel->0.timeline is Some
    &&& has_item(app.detail_panel->0.timeline->0, app.detail_panel_pinned->0@)
}

/// `app` with the pin dropped that its timeline cannot resolve.
pub open spec fn without_lost_pin(app: AppState) -> AppState {
    if pin_resolves(app) {
        app
    } else {
        AppState { detail_panel_pinned: None, ..app }
    }
}

/// The session of the agent in the focused pane.
pub open spec fn focused_session_of(app: AppState) -> Option<AgentSession> {
    if app.active is Some && app.active->0 < app.workspaces@.len() {
        let ws = app.workspaces@[app.active->0 as int];
        if ws.focused_pane is Some {
            match workspace::terminal_of(
                workspace::panes_of(ws.tabs@, ws.tabs@.len()),
                ws.focused_pane->0,
            ) {
                Some(id) => if app.terminals@.contains_key(id) {
                    app.terminals@[id].persisted_agent_session
                } else {
                    None
                },
                None => None,
            }
        } else {
            None
        }
    } else {
        None
    }
}

/// What happened since the panel asked for something.
pub enum RefreshEvent {
    /// Time has passed.
    Tick,
    /// The state file of `session` has this size and time of change.
    Signature { session: AgentSession, signature: (u64, u64) },
    /// The state file of `session` holds this timeline, or none that can be read.
    Loaded { session: AgentSession, signature: (u64, u64), timeline: Option<Timeline> },
}

/// What the panel asks for.
#[derive(Debug)]
pub enum RefreshAction {
    /// Nothing.
    Idle,
    /// The size and time of change of the file `path`.
    Stat { session: AgentSession, path: String },
    /// The timeline in the file `path`.
    Load { session: AgentSession, signature: (u64, u64), path: String },
}

/// The timeline that is shown was read for `session` from a file with this signature.
pub open spec fn is_current(app: AppState, session: AgentSession, signature: (u64, u64)) -> bool {
    &&& app.detail_panel is Some
    &&& app.detail_panel->0.session_key@ == session.value@
    &&& app.detail_panel->0.timeline_sig == signature
}

/// The timeline that is shown is that of `session`, looked at a moment ago.
pub open spec fn is_fresh(app: AppState, session: AgentSession, now: Ticks) -> bool {
    &&& app.detail_panel is Some
    &&& app.detail_panel->0.session_key@ == session.value@
    &&& now - app.detail_panel->0.checked_at < REFRESH_INTERVAL
}

/// `app` with its timeline marked as looked at.
pub open spec fn rechecked(app: AppState, now: Ticks) -> AppState {
    AppState {
        detail_panel: Some(DetailPanelCache { checked_at: now, ..app.detail_panel->0 }),
        ..app
    }
}

/// `app` with the timeline of `session` and without a pin that it cannot resolve.
pub open spec fn loaded(
    app: AppState,
    session: AgentSession,
    signature: (u64, u64),
    timeline: Option<Timeline>,
    now: Ticks,
) -> AppState {
    without_lost_pin(
        AppState {
            detail_panel: Some(
                DetailPanelCache {
                    session_key: session.value,
                    agent: session.agent,
                    timeline,
                    checked_at: now,
                    timeline_sig: signature,
                },
            ),
            ..app
        },
    )
}

/// The viewer has dwelt on its exchange long enough.
pub open spec fn is_due(app: AppState, now: Ticks) -> bool {
    app.detail_panel_cycle_at is Some && now - app.detail_panel_cycle_at->0 >= CYCLE_DWELL
}

/// `app` after a tick of the viewer's clock at `now`.
pub open spec fn ticked(app: AppState, now: Ticks) -> AppState {
    if app.detail_panel_pinned is Some || app.detail_panel_cycle_at is None {
        AppState { detail_panel_cycle_at: Some(now), ..app }
    } else if is_due(app, now) {
        AppState {
            detail_panel_cycle: app.detail_panel_cycle.wrapping_add(1),
            detail_panel_cycle_at: Some(now),
            ..app
        }
    } else {
        app
    }
}

/// A [`RefreshAction`] by its path.
pub enum Wish {
    Nothing,
    Signature { session: AgentSession, path: Seq<char> },
    Timeline { session: AgentSession, signature: (u64, u64), path: Seq<char> },
}

impl View for RefreshAction {
    type V = Wish;

    open spec fn view(&self) -> Wish {
        match self {
            RefreshAction::Idle => Wish::Nothing,
            RefreshAction::Stat { session, path } => Wish::Signature {
                session: *session,
                path: path@,
            },
            RefreshAction::Load { session, signature, path } => Wish::Timeline {
                session: *session,
                signature: *signature,
                path: path@,
            },
        }
    }
}

/// `app` once the state file of `session` is known to have this signature, and
/// what the panel then asks for.
pub open spec fn noted(app: AppState, session: AgentSession, signature: (u64, u64), now: Ticks) -> (
    AppState,
    Wish,
) {
    if is_current(app, session, signature) {
        (rechecked(app, now), Wish::Nothing)
    } else {
        match timeline_file(session.value@) {
            Some(path) => (app, Wish::Timeline { session, signature, path }),
            None => (loaded(app, session, signature, None, now), Wish::Nothing),
        }
    }
}

/// `app` after `event`, and what the panel then asks for.
pub open spec fn refreshed(app: AppState, event: RefreshEvent, now: Ticks) -> (AppState, Wish) {
    match event {
        RefreshEvent::Tick => match focused_session_of(app) {
            None => (
                AppState { detail_panel: None, detail_panel_pinned: None, ..app },
                Wish::Nothing,
            ),
            Some(session) => if is_fresh(app, session, now) {
                (app, Wish::Nothing)
            } else {
                match timeline_file(session.value@) {
                    Some(path) => (app, Wish::Signature { session, path }),
                    None => noted(app, session, (0, 0), now),
                }
            },
        },
        RefreshEvent::Signature { session, signature } => noted(app, session, signature, now),
        RefreshEvent::Loaded { session, signature, timeline } => (
            loaded(app, session, signature, timeline, now),
            Wish::Nothing,
        ),
    }
}

impl AppState {
    /// Moves the prompt viewer on once it has dwelt on an exchange; a pin holds it.
    pub fn tick_detail_cycler(&mut self, now: Ticks)
        ensures
            *final(self) == ticked(*old(self), now),
    {
        if self.detail_panel_pinned.is_some() {
            self.detail_panel_cycle_at = Some(now);
            return;
        }
        match self.detail_panel_cycle_at {
            Some(at) => {
                if now.saturating_sub(at) >= CYCLE_DWELL {
                    self.detail_panel_cycle = self.detail_panel_cycle.wrapping_add(1);
                    self.detail_panel_cycle_at = Some(now);
                }
            },
            None => {
                self.detail_panel_cycle_at = Some(now);
            },
        }
    }

    /// Drops a pin that the timeline cannot resolve: it would freeze the viewer.
    pub fn drop_unresolved_pin(&mut self)
        ensures
            *final(self) == without_lost_pin(*old(self)),
    {
        let resolves = match (&self.detail_panel_pinned, &self.detail_panel) {
            (Some(u), Some(cache)) => match &cache.timeline {
                Some(tl) => any_item_is(&tl.done, u.as_str()) || any_item_is(
                    &tl.current,
                    u.as_str(),
                ),
                None => false,
            },
            _ => false,
        };
        if !resolves {
            self.detail_panel_pinned = None;
        }
    }

    /// The session of the agent in the focused pane.
    pub fn focused_session(&self) -> (out: Option<AgentSession>)
        ensures
            out == focused_session_of(*self),
    {
        broadcast use vstd::std_specs::hash::group_hash_axioms;

        if let Some(i) = self.active {
            if i < self.workspaces.len() {
                let ws = &self.workspaces[i];
                if let Some(pane) = ws.focused_pane {
                    if let Some(id) = ws.terminal_id(pane) {
                        if let Some(terminal) = self.terminals.get(&id) {
                            return match &terminal.persisted_agent_session {
                                Some(session) => Some(
                                    AgentSession {
                                        agent: session.agent.clone(),
                                        value: session.value.clone(),
                                    },
                                ),
                                None => None,
                            };
                        }
                    }
                }
            }
        }
        None
    }

    fn note_signature(&mut self, session: AgentSession, signature: (u64, u64), now: Ticks) -> (out:
        RefreshAction)
        ensures
            if is_current(*old(self), session, signature) {
                *final(self) == rechecked(*old(self), now) && out is Idle
            } else {
                match timeline_file(session.value@) {
                    Some(path) => {
                        &&& *final(self) == *old(self)
                        &&& out is Load
                        &&& out->Load_session == session
                        &&& out->Load_signature == signature
                        &&& out->Load_path@ == path
                    },
                    None => {
                        &&& *final(self) == loaded(*old(self), session, signature, None, now)
                        &&& out is Idle
                    },
                }
            },
    {
        if let Some(cache) = &mut self.detail_panel {
            if str_eq(cache.session_key.as_str(), session.value.as_str()) && cache.timeline_sig.0
                == signature.0 && cache.timeline_sig.1 == signature.1 {
                cache.checked_at = now;
                return RefreshAction::Idle;
            }
        }
        match timeline_path(session.value.as_str()) {
            Some(path) => RefreshAction::Load { session, signature, path },
            None => {
                self.install_timeline(session, signature, None, now);
                RefreshAction::Idle
            },
        }
    }

    fn install_timeline(
        &mut self,
        session: AgentSession,
        signature: (u64, u64),
        timeline: Option<Timeline>,
        now: Ticks,
    )
        ensures
            *final(self) == loaded(*old(self), session, signature, timeline, now),
    {
        self.detail_panel = Some(
            DetailPanelCache {
                session_key: session.value,
                agent: session.agent,
                timeline,
                checked_at: now,
                timeline_sig: signature,
            },
        );
        self.drop_unresolved_pin();
    }

    /// Keeps the panel on the focused tab's session: says what to look up next,
    /// and takes in what was found.
    pub fn refresh_detail_panel(&mut self, event: RefreshEvent, now: Ticks) -> (out: RefreshAction)
        ensures
            (*final(self), out@) == refreshed(*old(self), event, now),
            match event {
                RefreshEvent::Tick => match focused_session_of(*old(self)) {
                    None => {
                        &&& *final(self) == AppState {
                            detail_panel: None,
                            detail_panel_pinned: None,
                            ..*old(self)
                        }
                        &&& out is Idle
                    },
                    Some(session) => if is_fresh(*old(self), session, now) {
                        *final(self) == *old(self) && out is Idle
                    } else {
                        match timeline_file(session.value@) {
                            Some(path) => {
                                &&& *final(self) == *old(self)
                                &&& out is Stat
                                &&& out->Stat_session == session
                                &&& out->Stat_path@ == path
                            },
                            None => {
                                &&& *final(self) == if is_current(*old(self), session, (0, 0)) {
                                    rechecked(*old(self), now)
                                } else {
                                    loaded(*old(self), session, (0, 0), None, now)
                                }
                                &&& out is Idle
                            },
                        }
                    },
                },
                RefreshEvent::Signature { session, signature } => if is_current(
                    *old(self),
                    session,
                    signature,
                ) {
                    *final(self) == rechecked(*old(self), now) && out is Idle
                } else {
                    match timeline_file(session.value@) {
                        Some(path) => {
                            &&& *final(self) == *old(self)
                            &&& out is Load
                            &&& out->Load_session == session
                            &&& out->Load_signature == signature
                            &&& out->Load_path@ == path
                        },
                        None => {
                            &&& *final(self) == loaded(*old(self), session, signature, None, now)
                            &&& out is Idle
                        },
                    }
                },
                RefreshEvent::Loaded { session, signature, timeline } => {
                    &&& *final(self) == loaded(*old(self), session, signature, timeline, now)
                    &&& out is Idle
                },
            },
    {
        match event {
            RefreshEvent::Tick => {
                let session: AgentSession = match self.focused_session() {
                    Some(session) => session,
                    None => {
                        self.detail_panel = None;
                        self.detail_panel_pinned = None;
                        return RefreshAction::Idle;
                    },
                };
                if let Some(cache) = &self.detail_panel {
                    if str_eq(cache.session_key.as_str(), session.value.as_str())
                        && now.saturating_sub(cache.checked_at) < REFRESH_INTERVAL {
                        return RefreshAction::Idle;
                    }
                }
                match timeline_path(session.value.as_str()) {
                    Some(path) => RefreshAction::Stat { session, path },
                    None => self.note_signature(session, (0, 0), now),
                }
            },
            RefreshEvent::Signature { session, signature } => self.note_signature(
                session,
                signature,
                now,
            ),
            RefreshEvent::Loaded { session, signature, timeline } => {
                self.install_timeline(session, signature, timeline, now);
                RefreshAction::Idle
            },
        }
    }
}

/// The viewer moves on once per dwell: from one tick to the next that comes
/// before the dwell is over it moves on at most once, and not at all behind a
/// tick that moved it on.
pub proof fn law_one_step_per_dwell(app: AppState, now: Ticks, later: Ticks)
    requires
        now <= later,
        later - now < CYCLE_DWELL,
    ensures
        ({
            let one = ticked(app, now);
            let two = ticked(one, later);
            &&& one.detail_panel_cycle != app.detail_panel_cycle ==> two.detail_panel_cycle
                == one.detail_panel_cycle
            &&& two.detail_panel_cycle == app.detail_panel_cycle || two.detail_panel_cycle
                == app.detail_panel_cycle.wrapping_add(1)
            &&& one.detail_panel_cycle_at is Some
        }),
{
}

/// A pin holds the viewer, and unpinning restarts the dwell from the last tick
/// of the pinned stretch.
pub proof fn law_a_pin_holds_the_viewer(app: AppState, now: Ticks, later: Ticks)
    requires
        app.detail_panel_pinned is Some,
    ensures
        ({
            let held = ticked(app, now);
            let unpinned = AppState { detail_panel_pinned: None, ..held };
            &&& held.detail_panel_cycle == app.detail_panel_cycle
            &&& ticked(unpinned, later).detail_panel_cycle == if later - now >= CYCLE_DWELL {
                app.detail_panel_cycle.wrapping_add(1)
            } else {
                app.detail_panel_cycle
            }
        }),
{
}

/// Dropping a lost pin leaves a pin that resolves or none, and doing it again
/// changes nothing.
pub proof fn law_kept_pins_resolve(app: AppState)
    ensures
        without_lost_pin(app).detail_panel_pinned is Some ==> pin_resolves(without_lost_pin(app)),
        without_lost_pin(without_lost_pin(app)) == without_lost_pin(app),
{
}

/// A timeline that was just taken in is fresh for its session until the refresh
/// interval is over, and current for the signature that it was read with.
pub proof fn law_loaded_timelines_are_fresh(
    app: AppState,
    session: AgentSession,
    signature: (u64, u64),
    timeline: Option<Timeline>,
    now: Ticks,
    later: Ticks,
)
    ensures
        is_fresh(loaded(app, session, signature, timeline, now), session, later) <==> later - now
            < REFRESH_INTERVAL,
        is_current(loaded(app, session, signature, timeline, now), session, signature),
{
}

/// A timeline whose file has not changed is fresh again once its file was looked
/// at, and otherwise stays as it was, with the pin that it resolves.
pub proof fn law_unchanged_files_keep_the_timeline(
    app: AppState,
    session: AgentSession,
    signature: (u64, u64),
    now: Ticks,
    later: Ticks,
)
    requires
        is_current(app, session, signature),
    ensures
        is_fresh(rechecked(app, now), session, later) <==> later - now < REFRESH_INTERVAL,
        is_current(rechecked(app, now), session, signature),
        rechecked(app, now).detail_panel->0.timeline == app.detail_panel->0.timeline,
        pin_resolves(rechecked(app, now)) == pin_resolves(app),
        rechecked(app, now).detail_panel_pinned == app.detail_panel_pinned,
{
}

/// The state file of a session lies in the directory of these files: its path is
/// that directory and a file name without a slash.
pub proof fn law_timeline_files_stay_in_their_directory(session_id: Seq<char>)
    ensures
        timeline_file(session_id) is Some <==> !session_id.contains('/') && !text::has_part(
            session_id,
            ".."@,
        ),
        timeline_file(session_id) matches Some(path) ==> {
            &&& path.take(".local/state/herdr-detail/"@.len() as int)
                == ".local/state/herdr-detail/"@
            &&& !path.skip(".local/state/herdr-detail/"@.len() as int).contains('/')
        },
{
    if let Some(path) = timeline_file(session_id) {
        let dir = ".local/state/herdr-detail/"@;
        reveal_strlit(".json");
        assert(path.take(dir.len() as int) =~= dir);
        assert(path.skip(dir.len() as int) =~= session_id + ".json"@);
        let file = session_id + ".json"@;
        if file.contains('/') {
            let i = choose|i: int| 0 <= i < file.len() && file[i] == '/';
            if i < session_id.len() {
                assert(session_id[i] == '/');
            } else {
                assert(".json"@[i - session_id.len()] == '/');
            }
        }
    }
}

/// The `i`-th task of the timeline, the done ones first.
pub open spec fn task_at(tl: Timeline, i: int) -> TimelineItem {
    if i < tl.done@.len() {
        tl.done@[i]
    } else {
        tl.current@[i - tl.done@.len()]
    }
}

/// `k` is the first exchange of the timeline about the task `item`.
pub open spec fn is_exchange_of(tl: Timeline, item: TimelineItem, k: int) -> bool {
    &&& 0 <= k < tl.exch@.len()
    &&& tl.exch@[k].u@ == item.u@
    &&& forall|j: int| 0 <= j < k ==> (#[trigger] tl.exch@[j]).u@ != item.u@
}

/// The viewer has one exchange for each task, in their order, and calls it as its
/// task's row does: by the label that the task has. Only a task without a label
/// gets that of its exchange.
pub proof fn law_the_viewer_calls_a_task_as_its_row_does(tl: Timeline, i: int, k: int)
    requires
        0 <= i < tl.done@.len() + tl.current@.len(),
    ensures
        shown_exchanges(tl).len() == tl.done@.len() + tl.current@.len(),
        ({
            let item = task_at(tl, i);
            let shown = shown_exchanges(tl)[i];
            let e = tl.exch@[k];
            &&& shown.u == item.u@
            &&& shown.done == (i < tl.done@.len())
            &&& item.label@.len() > 0 ==> shown.label == item.label@
            &&& item.label@.len() == 0 && is_exchange_of(tl, item, k) ==> shown.label
                == if e.ylabel@.len() > 0 {
                e.ylabel@
            } else {
                e.label@
            }
            &&& item.label@.len() == 0 && (forall|j: int|
                0 <= j < tl.exch@.len() ==> (#[trigger] tl.exch@[j]).u@ != item.u@)
                ==> shown.label.len() == 0
        }),
{
    let item = task_at(tl, i);
    lemma_exchange_of(tl, item, k);
}

proof fn lemma_exchange_of(tl: Timeline, item: TimelineItem, k: int)
    ensures
        is_exchange_of(tl, item, k) ==> exchange_about(tl.exch@, item.u@) == Some(tl.exch@[k]),
        (forall|j: int| 0 <= j < tl.exch@.len() ==> (#[trigger] tl.exch@[j]).u@ != item.u@)
            ==> exchange_about(tl.exch@, item.u@) is None,
{
    if is_exchange_of(tl, item, k) {
        seqs::lemma_first_is(tl.exch@, about(item.u@), k);
    }
    if forall|j: int| 0 <= j < tl.exch@.len() ==> (#[trigger] tl.exch@[j]).u@ != item.u@ {
        seqs::lemma_first_none(tl.exch@, about(item.u@));
    }
}

/// The viewer shows the prompt of a task's exchange rather than the task's
/// clipped copy, its reply, and its start; what is missing there comes from the
/// task.
pub proof fn law_the_viewer_shows_the_longer_prompt(tl: Timeline, i: int, k: int)
    requires
        0 <= i < tl.done@.len() + tl.current@.len(),
    ensures
        ({
            let item = task_at(tl, i);
            let shown = shown_exchanges(tl)[i];
            let e = tl.exch@[k];
            &&& is_exchange_of(tl, item, k) ==> {
                &&& e.head@.len() > 0 ==> shown.head == e.head@
                &&& e.head@.len() == 0 ==> shown.head == item.head@
                &&& shown.rhead == e.rhead@
                &&& e.ts@ > 0 ==> shown.ts == e.ts@
                &&& e.ts@ <= 0 ==> shown.ts == item.ts@
            }
            &&& (forall|j: int|
                0 <= j < tl.exch@.len() ==> (#[trigger] tl.exch@[j]).u@ != item.u@) ==> {
                &&& shown.head == item.head@
                &&& shown.rhead.len() == 0
                &&& shown.ts == item.ts@
            }
        }),
{
    lemma_exchange_of(tl, task_at(tl, i), k);
}

/// A done task took the time that it says; one that says none took that of its
/// exchange, from its start to its last word, where both are known. A task in
/// flight has taken no time yet.
pub proof fn law_only_done_tasks_took_time(tl: Timeline, i: int, k: int)
    requires
        0 <= i < tl.done@.len() + tl.current@.len(),
    ensures
        ({
            let item = task_at(tl, i);
            let shown = shown_exchanges(tl)[i];
            let e = tl.exch@[k];
            &&& i >= tl.done@.len() ==> shown.secs is None
            &&& i < tl.done@.len() && item.secs is Some ==> shown.secs == Some(item.secs->0@)
            &&& i < tl.done@.len() && item.secs is None && is_exchange_of(tl, item, k)
                ==> shown.secs == if 0 < e.ts@ < e.last_ts@ {
                Some(seconds::difference(e.last_ts@, e.ts@))
            } else {
                None
            }
            &&& item.secs is None && (forall|j: int|
                0 <= j < tl.exch@.len() ==> (#[trigger] tl.exch@[j]).u@ != item.u@)
                ==> shown.secs is None
        }),
{
    lemma_exchange_of(tl, task_at(tl, i), k);
}

/// The panel is of the session of the agent in the focused pane of the space
/// that the user is in, and of none where there is no such agent.
pub proof fn law_the_panel_follows_the_focused_pane(app: AppState, i: int, q: int)
    requires
        app.active matches Some(active) && active == i,
        0 <= i < app.workspaces@.len(),
        app.workspaces@[i].focused_pane is Some,
        ({
            let ws = app.workspaces@[i];
            let panes = workspace::panes_of(ws.tabs@, ws.tabs@.len());
            &&& 0 <= q < panes.len()
            &&& panes[q].1.id == ws.focused_pane->0
            &&& forall|j: int| 0 <= j < q ==> (#[trigger] panes[j]).1.id != ws.focused_pane->0
        }),
    ensures
        ({
            let ws = app.workspaces@[i];
            let id = workspace::panes_of(ws.tabs@, ws.tabs@.len())[q].1.attached_terminal_id;
            &&& app.terminals@.contains_key(id) ==> focused_session_of(app)
                == app.terminals@[id].persisted_agent_session
            &&& !app.terminals@.contains_key(id) ==> focused_session_of(app) is None
        }),
{
    let ws = app.workspaces@[i];
    let panes = workspace::panes_of(ws.tabs@, ws.tabs@.len());
    let pane = ws.focused_pane->0;
    workspace::law_a_pane_is_found_by_its_number(panes, pane);
    match workspace::terminal_of(panes, pane) {
        Some(terminal) => {
            let k = choose|k: int|
                0 <= k < panes.len() && (#[trigger] panes[k]).1.id == pane
                    && panes[k].1.attached_terminal_id == terminal && forall|j: int|
                    0 <= j < k ==> (#[trigger] panes[j]).1.id != pane;
            assert(panes[q].1.id == pane);
            assert(k == q);
        },
        None => {
            assert(panes[q].1.id == pane);
        },
    }
}

/// Without a space that the user is in, or a pane that is focused in it, the
/// panel is of no session, and shows nothing and is pinned to nothing.
pub proof fn law_without_a_session_the_panel_is_empty(app: AppState, now: Ticks)
    ensures
        app.active is None ==> focused_session_of(app) is None,
        app.active matches Some(i) ==> (i >= app.workspaces@.len() || app.workspaces@[i as int].focused_pane is None
            ==> focused_session_of(app) is None),
        focused_session_of(app) is None ==> {
            let (after, wish) = refreshed(app, RefreshEvent::Tick, now);
            &&& after.detail_panel is None && after.detail_panel_pinned is None
            &&& after == (AppState { detail_panel: None, detail_panel_pinned: None, ..app })
            &&& wish is Nothing
        },
{
}

/// The state file of a session that has one is asked for by the session's name
/// once two seconds have passed, or at once where the panel shows another one;
/// till then nothing changes. Its timeline is asked for where the file has
/// changed or is that of another session, and only then.
pub proof fn law_files_are_looked_at_when_they_may_have_changed(
    app: AppState,
    session: AgentSession,
    signature: (u64, u64),
    now: Ticks,
)
    requires
        focused_session_of(app) == Some(session),
        timeline_file(session.value@) is Some,
    ensures
        ({
            let path = ".local/state/herdr-detail/"@ + session.value@ + ".json"@;
            let same = app.detail_panel matches Some(cache) && cache.session_key@
                == session.value@;
            let cache = app.detail_panel->0;
            let young = same && now < cache.checked_at + 2_000_000_000;
            let unchanged = same && cache.timeline_sig == signature;
            let (ticked, wish) = refreshed(app, RefreshEvent::Tick, now);
            let (noted, then) = refreshed(app, RefreshEvent::Signature { session, signature }, now);
            &&& ticked == app
            &&& young ==> wish is Nothing
            &&& !young ==> wish == (Wish::Signature { session, path })
            &&& unchanged ==> then is Nothing && noted.detail_panel == Some(
                DetailPanelCache { checked_at: now, ..cache },
            ) && noted.detail_panel_pinned == app.detail_panel_pinned
            &&& !unchanged ==> noted == app && then == (Wish::Timeline { session, signature, path })
        }),
{
}

/// A timeline that was asked for is taken in with its session, its signature and
/// the time; the pin is kept where the timeline has a task for it. Nothing more
/// is asked for, neither then nor within the next two seconds.
pub proof fn law_what_was_asked_for_is_shown(
    app: AppState,
    session: AgentSession,
    signature: (u64, u64),
    timeline: Option<Timeline>,
    now: Ticks,
    later: Ticks,
)
    requires
        now <= later,
    ensures
        ({
            let event = RefreshEvent::Loaded { session, signature, timeline };
            let (after, wish) = refreshed(app, event, now);
            let kept = app.detail_panel_pinned matches Some(u) && (timeline matches Some(tl) && (
            exists|i: int|
                0 <= i < tl.done@.len() + tl.current@.len() && #[trigger] task_at(tl, i).u@ == u@));
            &&& wish is Nothing
            &&& after.detail_panel == Some(
                DetailPanelCache {
                    session_key: session.value,
                    agent: session.agent,
                    timeline,
                    checked_at: now,
                    timeline_sig: signature,
                },
            )
            &&& kept ==> after.detail_panel_pinned == app.detail_panel_pinned
            &&& !kept ==> after.detail_panel_pinned is None
            &&& after.detail_panel_cycle == app.detail_panel_cycle
            &&& focused_session_of(after) == focused_session_of(app)
            &&& focused_session_of(app) == Some(session) && later < now + 2_000_000_000
                ==> refreshed(after, RefreshEvent::Tick, later) == (after, Wish::Nothing)
        }),
{
    if let (Some(u), Some(tl)) = (app.detail_panel_pinned, timeline) {
        if has_item(tl, u@) {
            if exists|i: int| 0 <= i < tl.done@.len() && (#[trigger] tl.done@[i]).u@ == u@ {
                let i = choose|i: int| 0 <= i < tl.done@.len() && (#[trigger] tl.done@[i]).u@ == u@;
                assert(task_at(tl, i).u@ == u@);
            } else {
                let i = choose|i: int|
                    0 <= i < tl.current@.len() && (#[trigger] tl.current@[i]).u@ == u@;
                assert(task_at(tl, tl.done@.len() + i).u@ == u@);
            }
        }
        if exists|i: int|
            0 <= i < tl.done@.len() + tl.current@.len() && #[trigger] task_at(tl, i).u@ == u@ {
            let i = choose|i: int|
                0 <= i < tl.done@.len() + tl.current@.len() && #[trigger] task_at(tl, i).u@ == u@;
            if i < tl.done@.len() {
                assert(tl.done@[i].u@ == u@);
            } else {
                assert(tl.current@[i - tl.done@.len()].u@ == u@);
            }
        }
    }
}

/// A tick starts the dwell of a viewer that has none, moves one that has dwelt
/// for six seconds on by one exchange and starts its next dwell, and leaves any
/// other as it is. A pinned one only starts its dwell again.
pub proof fn law_the_viewer_dwells_for_six_seconds(app: AppState, now: Ticks)
    ensures
        ({
            let after = ticked(app, now);
            let over = app.detail_panel_cycle_at matches Some(at) && now >= at + 6_000_000_000;
            &&& app.detail_panel_pinned is Some || app.detail_panel_cycle_at is None ==> {
                &&& after.detail_panel_cycle_at == Some(now)
                &&& after.detail_panel_cycle == app.detail_panel_cycle
            }
            &&& app.detail_panel_pinned is None && over ==> {
                &&& after.detail_panel_cycle_at == Some(now)
                &&& app.detail_panel_cycle < usize::MAX ==> after.detail_panel_cycle
                    == app.detail_panel_cycle + 1
                &&& app.detail_panel_cycle == usize::MAX ==> after.detail_panel_cycle == 0
            }
            &&& app.detail_panel_pinned is None && app.detail_panel_cycle_at is Some && !over
                ==> after == app
            &&& after.detail_panel_pinned == app.detail_panel_pinned
            &&& after.detail_panel == app.detail_panel
        }),
{
}

} // verus!
