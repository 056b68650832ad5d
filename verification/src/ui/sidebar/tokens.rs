//! The pieces that sidebar rows are made of.

use vstd::prelude::*;

use crate::seqs;
use crate::style::Color;
use crate::ui::sidebar::agents::{AgentEntry, AgentPanelEntry};
use crate::ui::sidebar::dash;
use crate::views;
use crate::workspace::Agent;

verus! {

/// What the configuration changes of a token's style.
#[derive(Clone, Copy, Debug, PartialEq, Eq)]
pub struct SidebarTokenStyle {
    pub fg: Option<Color>,
    pub bold: Option<bool>,
    pub dim: Option<bool>,
}

/// What a token shows.
#[derive(Debug)]
pub enum ResolvedTokenKind {
    StateIcon,
    StateText(String),
    Workspace(String),
    Tab(String),
    Pane(String),
    Agent(String),
    TerminalTitle(String),
    Branch(String),
    /// Commits that the branch has before the remote one, and the other way round.
    GitStatus { ahead: u64, behind: u64 },
    Custom(String),
}

/// A [`ResolvedTokenKind`] by its text.
pub enum TokenKind {
    StateIcon,
    StateText(Seq<char>),
    Workspace(Seq<char>),
    Tab(Seq<char>),
    Pane(Seq<char>),
    Agent(Seq<char>),
    TerminalTitle(Seq<char>),
    Branch(Seq<char>),
    GitStatus { ahead: u64, behind: u64 },
    Custom(Seq<char>),
}

impl TokenKind {
    /// The text of the token, which can be cut.
    pub open spec fn text(self) -> Option<Seq<char>> {
        match self {
            TokenKind::StateIcon => None,
            TokenKind::StateText(text) => Some(text),
            TokenKind::Workspace(text) => Some(text),
            TokenKind::Tab(text) => Some(text),
            TokenKind::Pane(text) => Some(text),
            TokenKind::Agent(text) => Some(text),
            TokenKind::TerminalTitle(text) => Some(text),
            TokenKind::Branch(text) => Some(text),
            TokenKind::GitStatus { .. } => None,
            TokenKind::Custom(text) => Some(text),
        }
    }
}

impl View for ResolvedTokenKind {
    type V = TokenKind;

    open spec fn view(&self) -> TokenKind {
        match self {
            ResolvedTokenKind::StateIcon => TokenKind::StateIcon,
            ResolvedTokenKind::StateText(text) => TokenKind::StateText(text@),
            ResolvedTokenKind::Workspace(text) => TokenKind::Workspace(text@),
            ResolvedTokenKind::Tab(text) => TokenKind::Tab(text@),
            ResolvedTokenKind::Pane(text) => TokenKind::Pane(text@),
            ResolvedTokenKind::Agent(text) => TokenKind::Agent(text@),
            ResolvedTokenKind::TerminalTitle(text) => TokenKind::TerminalTitle(text@),
            ResolvedTokenKind::Branch(text) => TokenKind::Branch(text@),
            ResolvedTokenKind::GitStatus { ahead, behind } => TokenKind::GitStatus {
                ahead: *ahead,
                behind: *behind,
            },
            ResolvedTokenKind::Custom(text) => TokenKind::Custom(text@),
        }
    }
}

/// A token of a row, with what the configuration changes of its style.
#[derive(Debug)]
pub struct ResolvedToken {
    pub kind: ResolvedTokenKind,
    pub style: SidebarTokenStyle,
}

/// A [`ResolvedToken`] by its text.
pub struct TokenView {
    pub kind: TokenKind,
    pub style: SidebarTokenStyle,
}

impl View for ResolvedToken {
    type V = TokenView;

    open spec fn view(&self) -> TokenView {
        TokenView { kind: self.kind@, style: self.style }
    }
}

/// No change of a style.
pub open spec fn unchanged() -> SidebarTokenStyle {
    SidebarTokenStyle { fg: None, bold: None, dim: None }
}

impl ResolvedToken {
    /// A token in its usual style.
    pub fn unstyled(kind: ResolvedTokenKind) -> (out: ResolvedToken)
        ensures
            out@ == (TokenView { kind: kind@, style: unchanged() }),
    {
        ResolvedToken { kind, style: SidebarTokenStyle { fg: None, bold: None, dim: None } }
    }

    /// The text of the token, which can be cut.
    pub fn text(&self) -> (out: Option<&str>)
        ensures
            match out {
                Some(text) => self@.kind.text() == Some(text@),
                None => self@.kind.text() is None,
            },
    {
        match &self.kind {
            ResolvedTokenKind::StateIcon => None,
            ResolvedTokenKind::StateText(text) => Some(text.as_str()),
            ResolvedTokenKind::Workspace(text) => Some(text.as_str()),
            ResolvedTokenKind::Tab(text) => Some(text.as_str()),
            ResolvedTokenKind::Pane(text) => Some(text.as_str()),
            ResolvedTokenKind::Agent(text) => Some(text.as_str()),
            ResolvedTokenKind::TerminalTitle(text) => Some(text.as_str()),
            ResolvedTokenKind::Branch(text) => Some(text.as_str()),
            ResolvedTokenKind::GitStatus { .. } => None,
            ResolvedTokenKind::Custom(text) => Some(text.as_str()),
        }
    }
}

/// What stands between two tokens: a blank behind the icon, else a dot.
pub open spec fn between(a: TokenView, b: TokenView) -> Seq<char> {
    if a.kind is StateIcon {
        " "@
    } else {
        " · "@
    }
}

/// What stands between two tokens.
pub fn separator(a: &ResolvedToken, b: &ResolvedToken) -> (out: &'static str)
    ensures
        out@ == between(a@, b@),
{
    match &a.kind {
        ResolvedTokenKind::StateIcon => " ",
        _ => " · ",
    }
}

/// A token that the configuration puts into a row of the agent panel.
#[derive(Clone, Debug)]
pub enum AgentSidebarToken {
    StateIcon,
    StateText,
    Workspace,
    Tab,
    Pane,
    Agent,
    TerminalTitle,
    /// The text that plugins gave this name.
    Custom(String),
}

/// The rows of the agents of one kind.
#[derive(Debug)]
pub struct AgentRows {
    pub agent: Agent,
    pub rows: Vec<Vec<AgentSidebarToken>>,
}

/// How the agent panel is laid out.
#[derive(Debug)]
pub struct SidebarAgents {
    /// Empty rows between agents.
    pub row_gap: u16,
    pub rows: Vec<Vec<AgentSidebarToken>>,
    /// The rows of agents that have their own.
    pub rows_by_agent: Vec<AgentRows>,
}

impl SidebarAgents {
    /// One row for each agent, which shows its name.
    pub fn new() -> (out: SidebarAgents)
        ensures
            out.row_gap == 0,
            out.rows@.len() == 1,
            out.rows@[0]@ == seq![AgentSidebarToken::Agent],
            out.rows_by_agent@.len() == 0,
    {
        let mut row: Vec<AgentSidebarToken> = Vec::new();
        row.push(AgentSidebarToken::Agent);
        let mut rows: Vec<Vec<AgentSidebarToken>> = Vec::new();
        assert(row@ =~= seq![AgentSidebarToken::Agent]);
        rows.push(row);
        SidebarAgents { row_gap: 0, rows, rows_by_agent: Vec::new() }
    }
}

/// The rows of agents of the kind `agent`.
pub open spec fn is_for(agent: Agent) -> spec_fn(AgentRows) -> bool {
    |rows: AgentRows| rows.agent == agent
}

/// The rows that the configuration has for an agent.
pub open spec fn rows_for(agents: SidebarAgents, agent: Option<Agent>) -> Seq<
    Vec<AgentSidebarToken>,
> {
    match agent {
        Some(agent) => match seqs::first_where(agents.rows_by_agent@, is_for(agent)) {
            Some(i) => agents.rows_by_agent@[i].rows@,
            None => agents.rows@,
        },
        None => agents.rows@,
    }
}

/// What a token shows of an agent whose state is called `label`; a token
/// without a text shows nothing.
pub open spec fn resolved_kind(
    token: AgentSidebarToken,
    entry: AgentEntry,
    label: Seq<char>,
) -> Option<TokenKind> {
    match token {
        AgentSidebarToken::StateIcon => Some(TokenKind::StateIcon),
        AgentSidebarToken::StateText => Some(TokenKind::StateText(label)),
        AgentSidebarToken::Workspace => Some(TokenKind::Workspace(entry.primary_label)),
        AgentSidebarToken::Tab => match dash::some_text(entry.primary_tab_label) {
            Some(text) => Some(TokenKind::Tab(text)),
            None => None,
        },
        AgentSidebarToken::Pane => match dash::some_text(entry.pane_label) {
            Some(text) => Some(TokenKind::Pane(text)),
            None => None,
        },
        AgentSidebarToken::Agent => match dash::some_text(entry.agent_label) {
            Some(text) => Some(TokenKind::Agent(text)),
            None => None,
        },
        AgentSidebarToken::TerminalTitle => match dash::some_text(entry.terminal_title_stripped) {
            Some(text) => Some(TokenKind::TerminalTitle(text)),
            None => None,
        },
        AgentSidebarToken::Custom(name) => if entry.tokens.contains_key(name@)
            && entry.tokens[name@].len() > 0 {
            Some(TokenKind::Custom(entry.tokens[name@]))
        } else {
            None
        },
    }
}

/// What the first `n` tokens of a row show.
pub open spec fn resolved_row(
    row: Seq<AgentSidebarToken>,
    entry: AgentEntry,
    label: Seq<char>,
    n: nat,
) -> Seq<TokenView>
    decreases n,
{
    if n == 0 {
        Seq::empty()
    } else {
        let before = resolved_row(row, entry, label, (n - 1) as nat);
        match resolved_kind(row[n - 1], entry, label) {
            Some(kind) => before.push(TokenView { kind, style: unchanged() }),
            None => before,
        }
    }
}

/// What the first `n` rows show; a row that shows nothing is left out.
pub open spec fn resolved_rows(
    rows: Seq<Vec<AgentSidebarToken>>,
    entry: AgentEntry,
    label: Seq<char>,
    n: nat,
) -> Seq<Seq<TokenView>>
    decreases n,
{
    if n == 0 {
        Seq::empty()
    } else {
        let before = resolved_rows(rows, entry, label, (n - 1) as nat);
        let row = resolved_row(rows[n - 1]@, entry, label, rows[n - 1]@.len());
        if row.len() > 0 {
            before.push(row)
        } else {
            before
        }
    }
}

/// The rows that the agent panel shows of an agent.
pub open spec fn entry_rows(agents: SidebarAgents, entry: AgentEntry, label: Seq<char>) -> Seq<
    Seq<TokenView>,
> {
    let rows = rows_for(agents, entry.agent);
    resolved_rows(rows, entry, label, rows.len())
}

/// Rows of tokens by their texts.
pub open spec fn rows_view(rows: Seq<Vec<ResolvedToken>>) -> Seq<Seq<TokenView>> {
    rows.map_values(|row: Vec<ResolvedToken>| views::of(row@))
}

fn filled_text(text: &Option<String>) -> (out: Option<String>)
    ensures
        views::text(out) == dash::some_text(views::text(*text)),
{
    match text {
        Some(t) => if t.as_str().is_empty() {
            None
        } else {
            Some(t.clone())
        },
        None => None,
    }
}

fn resolve(token: &AgentSidebarToken, entry: &AgentPanelEntry, label: &str) -> (out: Option<
    ResolvedTokenKind,
>)
    ensures
        match out {
            Some(kind) => resolved_kind(*token, entry@, label@) == Some(kind@),
            None => resolved_kind(*token, entry@, label@) is None,
        },
{
    match token {
        AgentSidebarToken::StateIcon => Some(ResolvedTokenKind::StateIcon),
        AgentSidebarToken::StateText => Some(ResolvedTokenKind::StateText(label.to_string())),
        AgentSidebarToken::Workspace => Some(
            ResolvedTokenKind::Workspace(entry.primary_label.clone()),
        ),
        AgentSidebarToken::Tab => match filled_text(&entry.primary_tab_label) {
            Some(text) => Some(ResolvedTokenKind::Tab(text)),
            None => None,
        },
        AgentSidebarToken::Pane => match filled_text(&entry.pane_label) {
            Some(text) => Some(ResolvedTokenKind::Pane(text)),
            None => None,
        },
        AgentSidebarToken::Agent => match filled_text(&entry.agent_label) {
            Some(text) => Some(ResolvedTokenKind::Agent(text)),
            None => None,
        },
        AgentSidebarToken::TerminalTitle => match filled_text(&entry.terminal_title_stripped) {
            Some(text) => Some(ResolvedTokenKind::TerminalTitle(text)),
            None => None,
        },
        AgentSidebarToken::Custom(name) => match entry.tokens.get(name.as_str()) {
            Some(text) => if text.as_str().is_empty() {
                None
            } else {
                Some(ResolvedTokenKind::Custom(text.clone()))
            },
            None => None,
        },
    }
}

fn resolve_row(row: &Vec<AgentSidebarToken>, entry: &AgentPanelEntry, label: &str) -> (out: Vec<
    ResolvedToken,
>)
    ensures
        views::of(out@) == resolved_row(row@, entry@, label@, row@.len()),
{
    broadcast use views::group_views;

    let mut out: Vec<ResolvedToken> = Vec::new();
    let mut i: usize = 0;
    while i < row.len()
        invariant
            i <= row@.len(),
            views::of(out@) == resolved_row(row@, entry@, label@, i as nat),
        decreases row@.len() - i,
    {
        if let Some(kind) = resolve(&row[i], entry, label) {
            out.push(ResolvedToken::unstyled(kind));
        }
        i = i + 1;
    }
    out
}

fn configured_rows<'a>(agents: &'a SidebarAgents, agent: Option<Agent>) -> (out: &'a Vec<
    Vec<AgentSidebarToken>,
>)
    ensures
        out@ == rows_for(*agents, agent),
{
    if let Some(kind) = agent {
        let ghost wanted = is_for(kind);
        let mut i: usize = 0;
        while i < agents.rows_by_agent.len()
            invariant
                i <= agents.rows_by_agent@.len(),
                agent == Some(kind),
                wanted == is_for(kind),
                forall|j: int| 0 <= j < i ==> !wanted(#[trigger] agents.rows_by_agent@[j]),
            decreases agents.rows_by_agent@.len() - i,
        {
            if agents.rows_by_agent[i].agent == kind {
                proof {
                    seqs::lemma_first_is(agents.rows_by_agent@, wanted, i as int);
                }
                return &agents.rows_by_agent[i].rows;
            }
            i = i + 1;
        }
        proof {
            seqs::lemma_first_none(agents.rows_by_agent@, wanted);
        }
    }
    &agents.rows
}

/// The rows that the agent panel shows of an agent whose state is called `label`.
pub fn agent_rows(agents: &SidebarAgents, entry: &AgentPanelEntry, label: &str) -> (out: Vec<
    Vec<ResolvedToken>,
>)
    ensures
        rows_view(out@) == entry_rows(*agents, entry@, label@),
{
    let rows: &Vec<Vec<AgentSidebarToken>> = configured_rows(agents, entry.agent);
    let mut out: Vec<Vec<ResolvedToken>> = Vec::new();
    let mut i: usize = 0;
    assert(rows_view(out@) =~= resolved_rows(rows@, entry@, label@, 0));
    while i < rows.len()
        invariant
            i <= rows@.len(),
            rows_view(out@) == resolved_rows(rows@, entry@, label@, i as nat),
        decreases rows@.len() - i,
    {
        let row: Vec<ResolvedToken> = resolve_row(&rows[i], entry, label);
        let ghost before = out@;
        assert(views::of(row@).len() == row@.len());
        if row.len() > 0 {
            out.push(row);
            assert(rows_view(out@) =~= rows_view(before).push(views::of(row@)));
        }
        i = i + 1;
    }
    out
}

/// An agent of a kind that the configuration has rows for is shown with those,
/// any other with the usual ones.
pub proof fn law_agents_are_shown_with_the_rows_of_their_kind(
    agents: SidebarAgents,
    agent: Option<Agent>,
)
    ensures
        ({
            let rows = rows_for(agents, agent);
            let own = |i: int|
                agent is Some && 0 <= i < agents.rows_by_agent@.len()
                    && agents.rows_by_agent@[i].agent == agent->0;
            &&& (exists|i: int| #[trigger] own(i)) ==> exists|i: int| #[trigger] own(i) && rows
                == agents.rows_by_agent@[i].rows@ && forall|j: int|
                0 <= j < i ==> !#[trigger] own(j)
            &&& (forall|i: int| !#[trigger] own(i)) ==> rows == agents.rows@
        }),
{
    let own = |i: int|
        agent is Some && 0 <= i < agents.rows_by_agent@.len() && agents.rows_by_agent@[i].agent
            == agent->0;
    if let Some(kind) = agent {
        let all = agents.rows_by_agent@;
        seqs::lemma_first_where(all, is_for(kind));
        assert forall|i: int| 0 <= i < all.len() implies (#[trigger] own(i) <==> is_for(kind)(
            all[i],
        )) by {}
        match seqs::first_where(all, is_for(kind)) {
            Some(i) => {
                assert(own(i));
                assert forall|j: int| 0 <= j < i implies !#[trigger] own(j) by {}
            },
            None => {
                assert forall|i: int| !#[trigger] own(i) by {
                    if 0 <= i < all.len() {
                        assert(!is_for(kind)(all[i]));
                    }
                }
            },
        }
    } else {
        assert forall|i: int| !#[trigger] own(i) by {}
    }
}

/// A token shows what it is called after: the space, the tab, the pane, the
/// agent, the title without its decoration, or the text that plugins gave its
/// name. The icon, the state and the space are always there; any other token
/// shows nothing where there is no text.
pub proof fn law_tokens_show_what_they_are_called_after(
    token: AgentSidebarToken,
    entry: AgentEntry,
    label: Seq<char>,
)
    ensures
        ({
            let out = resolved_kind(token, entry, label);
            let given = |text: Option<Seq<char>>| text is Some && text->0.len() > 0;
            match token {
                AgentSidebarToken::StateIcon => out == Some(TokenKind::StateIcon),
                AgentSidebarToken::StateText => out == Some(TokenKind::StateText(label)),
                AgentSidebarToken::Workspace => out == Some(
                    TokenKind::Workspace(entry.primary_label),
                ),
                AgentSidebarToken::Tab => if given(entry.primary_tab_label) {
                    out == Some(TokenKind::Tab(entry.primary_tab_label->0))
                } else {
                    out is None
                },
                AgentSidebarToken::Pane => if given(entry.pane_label) {
                    out == Some(TokenKind::Pane(entry.pane_label->0))
                } else {
                    out is None
                },
                AgentSidebarToken::Agent => if given(entry.agent_label) {
                    out == Some(TokenKind::Agent(entry.agent_label->0))
                } else {
                    out is None
                },
                AgentSidebarToken::TerminalTitle => if given(entry.terminal_title_stripped) {
                    out == Some(TokenKind::TerminalTitle(entry.terminal_title_stripped->0))
                } else {
                    out is None
                },
                AgentSidebarToken::Custom(name) => if entry.tokens.contains_key(name@)
                    && entry.tokens[name@].len() > 0 {
                    out == Some(TokenKind::Custom(entry.tokens[name@]))
                } else {
                    out is None
                },
            }
        }),
{
}

/// How many of the first `n` tokens of a row show something.
pub open spec fn shown_tokens(
    row: Seq<AgentSidebarToken>,
    entry: AgentEntry,
    label: Seq<char>,
    n: nat,
) -> nat
    decreases n,
{
    if n == 0 {
        0
    } else {
        shown_tokens(row, entry, label, (n - 1) as nat) + if resolved_kind(
            row[n - 1],
            entry,
            label,
        ) is Some {
            1nat
        } else {
            0
        }
    }
}

proof fn lemma_token_place(
    row: Seq<AgentSidebarToken>,
    entry: AgentEntry,
    label: Seq<char>,
    n: nat,
    k: int,
)
    requires
        n <= row.len(),
    ensures
        resolved_row(row, entry, label, n).len() == shown_tokens(row, entry, label, n),
        0 <= k < n && resolved_kind(row[k], entry, label) is Some ==> {
            let at = shown_tokens(row, entry, label, k as nat) as int;
            &&& at < resolved_row(row, entry, label, n).len()
            &&& resolved_row(row, entry, label, n)[at] == (TokenView {
                kind: resolved_kind(row[k], entry, label)->0,
                style: unchanged(),
            })
        },
    decreases n,
{
    if n > 0 {
        lemma_token_place(row, entry, label, (n - 1) as nat, k);
    }
}

/// How many of the first `n` rows show something.
pub open spec fn shown_rows(
    rows: Seq<Vec<AgentSidebarToken>>,
    entry: AgentEntry,
    label: Seq<char>,
    n: nat,
) -> nat
    decreases n,
{
    if n == 0 {
        0
    } else {
        shown_rows(rows, entry, label, (n - 1) as nat) + if shown_tokens(
            rows[n - 1]@,
            entry,
            label,
            rows[n - 1]@.len(),
        ) > 0 {
            1nat
        } else {
            0
        }
    }
}

proof fn lemma_row_place(
    rows: Seq<Vec<AgentSidebarToken>>,
    entry: AgentEntry,
    label: Seq<char>,
    n: nat,
    r: int,
)
    requires
        n <= rows.len(),
    ensures
        resolved_rows(rows, entry, label, n).len() == shown_rows(rows, entry, label, n),
        0 <= r < n && shown_tokens(rows[r]@, entry, label, rows[r]@.len()) > 0 ==> {
            let at = shown_rows(rows, entry, label, r as nat) as int;
            &&& at < resolved_rows(rows, entry, label, n).len()
            &&& resolved_rows(rows, entry, label, n)[at] == resolved_row(
                rows[r]@,
                entry,
                label,
                rows[r]@.len(),
            )
        },
    decreases n,
{
    if n > 0 {
        lemma_row_place(rows, entry, label, (n - 1) as nat, r);
        let last = rows[n - 1]@;
        lemma_token_place(last, entry, label, last.len(), 0);
    }
}

/// The rows of an agent show their tokens in order, without those that show
/// nothing; a row of which nothing is left is not there.
pub proof fn law_rows_keep_the_order_of_their_tokens(
    agents: SidebarAgents,
    entry: AgentEntry,
    label: Seq<char>,
    r: int,
    k: int,
)
    requires
        ({
            let rows = rows_for(agents, entry.agent);
            &&& 0 <= r < rows.len()
            &&& 0 <= k < rows[r]@.len()
            &&& resolved_kind(rows[r]@[k], entry, label) is Some
        }),
    ensures
        ({
            let rows = rows_for(agents, entry.agent);
            let out = entry_rows(agents, entry, label);
            let at = shown_rows(rows, entry, label, r as nat) as int;
            let place = shown_tokens(rows[r]@, entry, label, k as nat) as int;
            &&& out.len() == shown_rows(rows, entry, label, rows.len())
            &&& at < out.len() && place < out[at].len()
            &&& out[at].len() == shown_tokens(rows[r]@, entry, label, rows[r]@.len())
            &&& out[at][place].kind == resolved_kind(rows[r]@[k], entry, label)->0
            &&& out[at][place].style == (SidebarTokenStyle { fg: None, bold: None, dim: None })
        }),
{
    let rows = rows_for(agents, entry.agent);
    lemma_token_place(rows[r]@, entry, label, rows[r]@.len(), k);
    lemma_row_place(rows, entry, label, rows.len(), r);
}

} // verus!
