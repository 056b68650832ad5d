//! What the sidebar says of a tab, row by row.

use vstd::prelude::*;
use vstd::utf8::*;

use crate::app::state::AppState;
use crate::geometry;
use crate::metadata::TokenMap;
use crate::seqs;
use crate::text;
use crate::text::{str_byte_len, str_chars, str_has_part, str_trim};
use crate::ui::sidebar::attention;
use crate::ui::sidebar::attention::{tab_attention, Mark};
use crate::ui::wrap;
use crate::ui::wrap::{line_tint_at, wrap_prose, ProseLine, WrappedLine};
use crate::views;
use crate::workspace;
use crate::workspace::{AgentState, Pane, Tab, TerminalState, Workspace};

verus! {

/// Cells at the right of the title row that are held clear for the elapsed
/// time and the dot.
pub const TITLE_STATUS_RESERVE: u16 = 8;

/// The rail, the borders of the box, and one cell of padding on each side.
pub const TAB_BOX_CHROME: u16 = 5;

/// The most lines that a title takes.
pub const TAB_TITLE_MAX_LINES: usize = 3;

/// One row of a tab's block. `tint_at` is the byte at which the phase at the
/// end of the title starts, which is tinted like the dot.
#[derive(Debug)]
#[allow(inconsistent_fields)]
pub enum TabDashRow {
    Title { text: String, tint_at: Option<usize>, since_ms: Option<u64> },
    TitleCont { text: String, tint_at: Option<usize> },
    Counts(String),
    Lane(String),
}

/// A [`TabDashRow`] by its text.
#[allow(inconsistent_fields)]
pub enum DashRow {
    Title { text: Seq<char>, tint_at: Option<usize>, since_ms: Option<u64> },
    TitleCont { text: Seq<char>, tint_at: Option<usize> },
    Counts(Seq<char>),
    Lane(Seq<char>),
}

impl View for TabDashRow {
    type V = DashRow;

    open spec fn view(&self) -> DashRow {
        match self {
            TabDashRow::Title { text, tint_at, since_ms } => DashRow::Title {
                text: text@,
                tint_at: *tint_at,
                since_ms: *since_ms,
            },
            TabDashRow::TitleCont { text, tint_at } => DashRow::TitleCont {
                text: text@,
                tint_at: *tint_at,
            },
            TabDashRow::Counts(text) => DashRow::Counts(text@),
            TabDashRow::Lane(text) => DashRow::Lane(text@),
        }
    }
}

/// What the sidebar says of a tab.
#[derive(Debug)]
pub struct TabDash {
    pub tab_idx: usize,
    pub state: AgentState,
    pub seen: bool,
    /// Subagents are at work under the tab: the dot gets a ring while the
    /// parent works, so that waiting for them is visible.
    pub subs_live: bool,
    pub rows: Vec<TabDashRow>,
}

/// A [`TabDash`] by its texts.
pub struct Dash {
    pub tab_idx: int,
    pub state: AgentState,
    pub seen: bool,
    pub subs_live: bool,
    pub rows: Seq<DashRow>,
}

impl View for TabDash {
    type V = Dash;

    open spec fn view(&self) -> Dash {
        Dash {
            tab_idx: self.tab_idx as int,
            state: self.state,
            seen: self.seen,
            subs_live: self.subs_live,
            rows: views::of(self.rows@),
        }
    }
}

/// `text`, if there is one and it is not empty.
pub open spec fn some_text(text: Option<Seq<char>>) -> Option<Seq<char>> {
    match text {
        Some(t) => if t.len() > 0 {
            Some(t)
        } else {
            None
        },
        None => None,
    }
}

/// Every character is a decimal digit.
pub open spec fn all_digits(text: Seq<char>) -> bool {
    forall|i: int| 0 <= i < text.len() ==> '0' <= #[trigger] text[i] <= '9'
}

/// The panes whose terminal has a title to go by.
pub open spec fn is_titled(terminals: Map<u64, TerminalState>) -> spec_fn(Pane) -> bool {
    |pane: Pane|
        terminals.contains_key(pane.attached_terminal_id) && some_text(
            views::text(terminals[pane.attached_terminal_id].terminal_title_stripped),
        ) is Some
}

/// The title of the first terminal of `panes` that has one.
pub open spec fn pane_title(terminals: Map<u64, TerminalState>, panes: Seq<Pane>) -> Option<
    Seq<char>,
> {
    match seqs::first_where(panes, is_titled(terminals)) {
        Some(i) => views::text(terminals[panes[i].attached_terminal_id].terminal_title_stripped),
        None => None,
    }
}

/// The title that plugins gave to a tab.
pub open spec fn given_title(toks: TokenMap) -> Option<Seq<char>> {
    some_text(
        match toks.text_of("t"@) {
            Some(title) => Some(title),
            None => toks.text_of("sh"@),
        },
    )
}

/// The title of a tab: the one that it was given, else its name unless that is
/// a number, else that of a terminal, else "shell".
pub open spec fn title_of(terminals: Map<u64, TerminalState>, tab: Tab, tab_idx: int) -> Seq<
    char,
> {
    let name = workspace::tab_name(tab, tab_idx);
    match given_title(tab.metadata_tokens) {
        Some(title) => title,
        None => if !all_digits(name) {
            name
        } else {
            match pane_title(terminals, tab.panes@) {
                Some(title) => title,
                None => "shell"@,
            }
        },
    }
}

/// The phase that plugins gave to a tab.
pub open spec fn phase_of(toks: TokenMap) -> Seq<char> {
    match toks.text_of("ph"@) {
        Some(phase) => text::trim(phase),
        None => Seq::empty(),
    }
}

/// The title with the phase behind it.
pub open spec fn full_title(title: Seq<char>, phase: Seq<char>) -> Seq<char> {
    if phase.len() == 0 {
        title
    } else {
        title + ", "@ + phase
    }
}

/// The byte at which the phase starts in the full title.
pub open spec fn tint_start(title: Seq<char>, phase: Seq<char>) -> Option<usize> {
    if phase.len() == 0 {
        None
    } else {
        Some(text::byte_len(title + ", "@) as usize)
    }
}

/// The cells that a tab's box has inside for text.
pub open spec fn inner_cells(width: int) -> int {
    geometry::max(geometry::less(width, TAB_BOX_CHROME as int), 8)
}

/// The lines of a title in a box of `width` cells.
pub open spec fn title_lines(full: Seq<char>, width: int) -> Seq<ProseLine> {
    let inner = inner_cells(width);
    let first = geometry::max(geometry::less(inner, TITLE_STATUS_RESERVE as int), 8);
    wrap::wrapped_prose(full, first as nat, inner as nat, TAB_TITLE_MAX_LINES as nat)
}

/// The row of the `i`-th line of a title.
pub open spec fn title_row(
    line: ProseLine,
    i: int,
    tint: Option<usize>,
    since_ms: Option<u64>,
) -> DashRow {
    let tint_at = wrap::tint_in(line, tint);
    if i == 0 {
        DashRow::Title { text: line.text, tint_at, since_ms }
    } else {
        DashRow::TitleCont { text: line.text, tint_at }
    }
}

/// The rows of a title.
pub open spec fn title_rows(
    lines: Seq<ProseLine>,
    tint: Option<usize>,
    since_ms: Option<u64>,
) -> Seq<DashRow> {
    lines.map(|i: int, line: ProseLine| title_row(line, i, tint, since_ms))
}

/// The names of the lanes, in the order in which they are shown.
pub open spec fn lane_keys() -> Seq<Seq<char>> {
    seq!["l1"@, "l2"@, "l3"@, "l4"@, "l5"@, "l6"@, "lmore"@]
}

/// The rows of the first `n` lanes; an absent or empty lane has none.
pub open spec fn lane_rows(toks: TokenMap, n: nat) -> Seq<DashRow>
    decreases n,
{
    if n == 0 {
        Seq::empty()
    } else {
        let before = lane_rows(toks, (n - 1) as nat);
        match some_text(toks.text_of(lane_keys()[n - 1])) {
            Some(lane) => before.push(DashRow::Lane(lane)),
            None => before,
        }
    }
}

/// The row of the counts, where there are any.
pub open spec fn count_rows(toks: TokenMap) -> Seq<DashRow> {
    match some_text(toks.text_of("hdr"@)) {
        Some(counts) => seq![DashRow::Counts(counts)],
        None => Seq::empty(),
    }
}

/// The rows of a tab: the title with the phase, the counts, the lanes.
pub open spec fn dash_rows(
    terminals: Map<u64, TerminalState>,
    tab: Tab,
    tab_idx: int,
    width: int,
) -> Seq<DashRow> {
    let toks = tab.metadata_tokens;
    let title = title_of(terminals, tab, tab_idx);
    let phase = phase_of(toks);
    let since_ms = attention::tab_mark(terminals, tab).2;
    title_rows(
        title_lines(full_title(title, phase), width),
        tint_start(title, phase),
        since_ms,
    ) + count_rows(toks) + lane_rows(toks, lane_keys().len())
}

/// Subagents are at work under the tab.
pub open spec fn has_live_subs(toks: TokenMap) -> bool {
    match toks.text_of("hdr"@) {
        Some(counts) => text::has_part(counts, " sub"@),
        None => false,
    }
}

/// What the sidebar says of a tab.
pub open spec fn dash_of(
    terminals: Map<u64, TerminalState>,
    tab: Tab,
    tab_idx: int,
    width: int,
) -> Dash {
    let mark = attention::tab_mark(terminals, tab);
    Dash {
        tab_idx,
        state: mark.0,
        seen: mark.1,
        subs_live: has_live_subs(tab.metadata_tokens),
        rows: dash_rows(terminals, tab, tab_idx, width),
    }
}

/// What the sidebar says of the tabs of a space.
pub open spec fn dashes_of(
    terminals: Map<u64, TerminalState>,
    ws: Workspace,
    width: int,
) -> Seq<Dash> {
    ws.tabs@.map(|i: int, tab: Tab| dash_of(terminals, tab, i, width))
}

/// A tab has a row of title and a bounded number of rows.
pub proof fn lemma_dash_rows_len(
    terminals: Map<u64, TerminalState>,
    tab: Tab,
    tab_idx: int,
    width: int,
)
    ensures
        1 <= dash_rows(terminals, tab, tab_idx, width).len() <= 11,
{
    let full = full_title(title_of(terminals, tab, tab_idx), phase_of(tab.metadata_tokens));
    let inner = inner_cells(width);
    let first = geometry::max(geometry::less(inner, TITLE_STATUS_RESERVE as int), 8);
    wrap::law_prose_lines_fit_and_follow(full, first as nat, inner as nat, TAB_TITLE_MAX_LINES as nat);
    lemma_lane_rows_len(tab.metadata_tokens, lane_keys().len());
}

proof fn lemma_lane_rows_len(toks: TokenMap, n: nat)
    ensures
        lane_rows(toks, n).len() <= n,
    decreases n,
{
    if n > 0 {
        lemma_lane_rows_len(toks, (n - 1) as nat);
    }
}

fn digits_only(text: &str) -> (out: bool)
    ensures
        out == all_digits(text@),
{
    let chars: Vec<char> = str_chars(text);
    let mut i: usize = 0;
    while i < chars.len()
        invariant
            i <= chars@.len(),
            chars@ == text@,
            forall|j: int| 0 <= j < i ==> '0' <= #[trigger] text@[j] <= '9',
        decreases chars@.len() - i,
    {
        let c: char = chars[i];
        if c < '0' || c > '9' {
            assert(!('0' <= text@[i as int] <= '9'));
            return false;
        }
        i = i + 1;
    }
    true
}

fn token_text(toks: &TokenMap, name: &str) -> (out: Option<String>)
    ensures
        views::text(out) == some_text(toks.text_of(name@)),
{
    match toks.get(name) {
        Some(t) => if t.as_str().is_empty() {
            None
        } else {
            Some(t.clone())
        },
        None => None,
    }
}

fn find_title(app: &AppState, panes: &Vec<Pane>) -> (out: Option<String>)
    ensures
        views::text(out) == pane_title(app.terminals@, panes@),
{
    broadcast use vstd::std_specs::hash::group_hash_axioms;

    let ghost titled = is_titled(app.terminals@);
    let mut i: usize = 0;
    while i < panes.len()
        invariant
            i <= panes@.len(),
            titled == is_titled(app.terminals@),
            forall|j: int| 0 <= j < i ==> !titled(#[trigger] panes@[j]),
        decreases panes@.len() - i,
    {
        if let Some(terminal) = app.terminals.get(&panes[i].attached_terminal_id) {
            if let Some(title) = &terminal.terminal_title_stripped {
                if !title.as_str().is_empty() {
                    proof {
                        seqs::lemma_first_is(panes@, titled, i as int);
                    }
                    return Some(title.clone());
                }
            }
        }
        i = i + 1;
    }
    proof {
        seqs::lemma_first_none(panes@, titled);
    }
    None
}

fn tab_title(app: &AppState, ws: &Workspace, tab_idx: usize) -> (out: String)
    requires
        tab_idx < ws.tabs@.len(),
    ensures
        out@ == title_of(app.terminals@, ws.tabs@[tab_idx as int], tab_idx as int),
{
    let tab: &Tab = &ws.tabs[tab_idx];
    let given: Option<String> = match tab.metadata_tokens.get("t") {
        Some(title) => if title.as_str().is_empty() {
            None
        } else {
            Some(title.clone())
        },
        None => token_text(&tab.metadata_tokens, "sh"),
    };
    if let Some(title) = given {
        return title;
    }
    if let Some(name) = ws.tab_display_name(tab_idx) {
        if !digits_only(name.as_str()) {
            return name;
        }
    }
    match find_title(app, &tab.panes) {
        Some(title) => title,
        None => "shell".to_string(),
    }
}

fn lane_key(i: usize) -> (out: &'static str)
    requires
        i < 7,
    ensures
        out@ == lane_keys()[i as int],
{
    match i {
        0 => "l1",
        1 => "l2",
        2 => "l3",
        3 => "l4",
        4 => "l5",
        5 => "l6",
        _ => "lmore",
    }
}

fn tab_rows(app: &AppState, ws: &Workspace, tab_idx: usize, width: u16, since_ms: Option<u64>) -> (
    out: Vec<TabDashRow>)
    requires
        tab_idx < ws.tabs@.len(),
        since_ms == attention::tab_mark(app.terminals@, ws.tabs@[tab_idx as int]).2,
    ensures
        views::of(out@) == dash_rows(
            app.terminals@,
            ws.tabs@[tab_idx as int],
            tab_idx as int,
            width as int,
        ),
{
    broadcast use views::group_views;

    let toks: &TokenMap = &ws.tabs[tab_idx].metadata_tokens;
    let title: String = tab_title(app, ws, tab_idx);
    let phase: String = match toks.get("ph") {
        Some(phase) => str_trim(phase.as_str()),
        None => String::new(),
    };
    assert(phase@ =~= phase_of(*toks));
    let ghost first_part = title@ + ", "@;
    let mut full: String = title.clone();
    let mut tint: Option<usize> = None;
    if !phase.as_str().is_empty() {
        full.append(", ");
        full.append(phase.as_str());
        proof {
            text::lemma_encode_concat(first_part, phase@);
        }
        tint = Some(str_byte_len(full.as_str()) - str_byte_len(phase.as_str()));
    }
    assert(full@ =~= full_title(title@, phase@));
    assert(tint == tint_start(title@, phase@));
    let narrow: usize = width.saturating_sub(TAB_BOX_CHROME) as usize;
    let inner: usize = if narrow < 8 {
        8
    } else {
        narrow
    };
    let beside: usize = inner.saturating_sub(TITLE_STATUS_RESERVE as usize);
    let first: usize = if beside < 8 {
        8
    } else {
        beside
    };
    let lines: Vec<WrappedLine> = wrap_prose(full.as_str(), first, inner, TAB_TITLE_MAX_LINES);
    let ghost titles = title_rows(title_lines(full@, width as int), tint, since_ms);
    let mut rows: Vec<TabDashRow> = Vec::new();
    let mut i: usize = 0;
    assert(views::of(rows@) =~= titles.take(0));
    while i < lines.len()
        invariant
            i <= lines@.len(),
            titles == title_rows(views::of(lines@), tint, since_ms),
            views::of(rows@) == titles.take(i as int),
        decreases lines@.len() - i,
    {
        let line: &WrappedLine = &lines[i];
        let tint_at: Option<usize> = line_tint_at(line, tint);
        assert(views::of(lines@)[i as int] == line@);
        if i == 0 {
            rows.push(TabDashRow::Title { text: line.text.clone(), tint_at, since_ms });
        } else {
            rows.push(TabDashRow::TitleCont { text: line.text.clone(), tint_at });
        }
        assert(titles.take(i + 1) =~= titles.take(i as int).push(titles[i as int]));
        i = i + 1;
    }
    assert(titles.take(titles.len() as int) =~= titles);
    if let Some(counts) = token_text(toks, "hdr") {
        rows.push(TabDashRow::Counts(counts));
    }
    let ghost start = views::of(rows@);
    assert(start =~= titles + count_rows(*toks));
    let mut k: usize = 0;
    assert(start + lane_rows(*toks, 0) =~= start);
    while k < 7
        invariant
            k <= 7,
            views::of(rows@) == start + lane_rows(*toks, k as nat),
        decreases 7 - k,
    {
        let key: &'static str = lane_key(k);
        let ghost before = rows@;
        if let Some(lane) = token_text(toks, key) {
            rows.push(TabDashRow::Lane(lane));
            assert(views::of(rows@) == views::of(before).push(DashRow::Lane(lane@)));
        }
        k = k + 1;
        assert(some_text(toks.text_of(key@)) == some_text(toks.text_of(lane_keys()[k - 1])));
        assert(views::of(rows@) =~= start + lane_rows(*toks, k as nat));
    }
    rows
}

/// What the sidebar says of the tabs of a space in a column of `width` cells.
pub fn tab_dashboards(app: &AppState, ws: &Workspace, width: u16) -> (out: Vec<TabDash>)
    ensures
        views::of(out@) == dashes_of(app.terminals@, *ws, width as int),
{
    broadcast use views::group_views;

    let ghost all = dashes_of(app.terminals@, *ws, width as int);
    let mut out: Vec<TabDash> = Vec::new();
    let mut i: usize = 0;
    assert(views::of(out@) =~= all.take(0));
    while i < ws.tabs.len()
        invariant
            i <= ws.tabs@.len(),
            all == dashes_of(app.terminals@, *ws, width as int),
            views::of(out@) == all.take(i as int),
        decreases ws.tabs@.len() - i,
    {
        let tab: &Tab = &ws.tabs[i];
        let (state, seen, since_ms): Mark = tab_attention(app, tab);
        let subs_live: bool = match tab.metadata_tokens.get("hdr") {
            Some(counts) => str_has_part(counts.as_str(), " sub"),
            None => false,
        };
        let rows: Vec<TabDashRow> = tab_rows(app, ws, i, width, since_ms);
        assert(views::of(out@).len() == out@.len());
        out.push(TabDash { tab_idx: i, state, seen, subs_live, rows });
        assert(all[i as int] == out@[i as int]@);
        assert(all.take(i + 1) =~= all.take(i as int).push(all[i as int]));
        i = i + 1;
    }
    assert(all.take(all.len() as int) =~= all);
    out
}

/// Every tab has a title, and its block starts with a row of the title, which
/// knows since when the tab's state holds.
pub proof fn law_every_tab_has_a_title(
    terminals: Map<u64, TerminalState>,
    tab: Tab,
    tab_idx: int,
    width: int,
)
    ensures
        title_of(terminals, tab, tab_idx).len() > 0,
        dash_rows(terminals, tab, tab_idx, width).len() > 0,
        dash_rows(terminals, tab, tab_idx, width)[0] is Title,
        dash_rows(terminals, tab, tab_idx, width)[0]->since_ms == attention::tab_mark(
            terminals,
            tab,
        ).2,
{
    seqs::lemma_first_where(tab.panes@, is_titled(terminals));
    reveal_strlit("shell");
    lemma_dash_rows_len(terminals, tab, tab_idx, width);
    let full = full_title(title_of(terminals, tab, tab_idx), phase_of(tab.metadata_tokens));
    let inner = inner_cells(width);
    let first = geometry::max(geometry::less(inner, TITLE_STATUS_RESERVE as int), 8);
    wrap::law_prose_lines_fit_and_follow(full, first as nat, inner as nat, TAB_TITLE_MAX_LINES as nat);
}

/// A tab is called by the title that plugins gave it, the short one only where
/// there is no other; one that they left empty counts for nothing. Else it is
/// called by its name, unless that is a number, else by the first title that one
/// of its terminals has, and a shell where there is none.
pub proof fn law_a_tab_is_called_by_the_first_that_names_it(
    terminals: Map<u64, TerminalState>,
    tab: Tab,
    tab_idx: int,
)
    ensures
        ({
            let title = title_of(terminals, tab, tab_idx);
            let given = tab.metadata_tokens.text_of("t"@);
            let short = tab.metadata_tokens.text_of("sh"@);
            let name = workspace::tab_name(tab, tab_idx);
            let unnamed = (given is None ==> short is None || short->0.len() == 0) && (given is Some
                ==> given->0.len() == 0);
            let counted = forall|i: int| 0 <= i < name.len() ==> '0' <= #[trigger] name[i] <= '9';
            let told = |i: int|
                0 <= i < tab.panes@.len() && terminals.contains_key(
                    tab.panes@[i].attached_terminal_id,
                ) && (terminals[tab.panes@[i].attached_terminal_id].terminal_title_stripped matches Some(
                    text,
                ) && text@.len() > 0);
            &&& given matches Some(text) ==> (text.len() > 0 ==> title == text)
            &&& given is None ==> (short matches Some(text) ==> (text.len() > 0 ==> title == text))
            &&& unnamed && !counted ==> title == name
            &&& unnamed && counted && (exists|i: int| #[trigger] told(i)) ==> exists|i: int|
                #[trigger] told(i) && title == terminals[tab.panes@[i].attached_terminal_id].terminal_title_stripped->0@
                    && forall|j: int| 0 <= j < i ==> !#[trigger] told(j)
            &&& unnamed && counted && (forall|i: int| !#[trigger] told(i)) ==> title == "shell"@
        }),
{
    let panes = tab.panes@;
    let told = |i: int|
        0 <= i < panes.len() && terminals.contains_key(panes[i].attached_terminal_id) && (
        terminals[panes[i].attached_terminal_id].terminal_title_stripped matches Some(text)
            && text@.len() > 0);
    seqs::lemma_first_where(panes, is_titled(terminals));
    assert forall|i: int| 0 <= i < panes.len() implies (#[trigger] told(i) <==> is_titled(
        terminals,
    )(panes[i])) by {}
    match seqs::first_where(panes, is_titled(terminals)) {
        Some(i) => {
            assert(told(i));
            assert forall|j: int| 0 <= j < i implies !#[trigger] told(j) by {}
        },
        None => {
            assert forall|i: int| !#[trigger] told(i) by {
                if 0 <= i < panes.len() {
                    assert(!is_titled(terminals)(panes[i]));
                }
            }
        },
    }
}

/// The phase stands behind the title, a comma and a blank between them, and the
/// tint begins with it. A phase of nothing but white space is none.
pub proof fn law_the_phase_follows_the_title(title: Seq<char>, toks: TokenMap)
    requires
        text::byte_len(title + ", "@) <= usize::MAX,
    ensures
        ({
            let phase = phase_of(toks);
            let full = full_title(title, phase);
            &&& toks.text_of("ph"@) is None ==> phase.len() == 0
            &&& toks.text_of("ph"@) matches Some(text) ==> phase == text::trim(text)
            &&& phase.len() == 0 ==> full == title && tint_start(title, phase) is None
            &&& phase.len() > 0 ==> {
                &&& full == title + seq![',', ' '] + phase
                &&& tint_start(title, phase) == Some(
                    (text::byte_len(full) - text::byte_len(phase)) as usize,
                )
            }
        }),
{
    let phase = phase_of(toks);
    reveal_strlit(", ");
    assert(", "@ =~= seq![',', ' ']);
    text::lemma_encode_concat(title + ", "@, phase);
}

/// How many of the first `n` lanes are not empty.
pub open spec fn lane_count(toks: TokenMap, n: nat) -> nat
    decreases n,
{
    if n == 0 {
        0
    } else {
        lane_count(toks, (n - 1) as nat) + if toks.text_of(lane_keys()[n - 1]) is Some
            && toks.text_of(lane_keys()[n - 1])->0.len() > 0 {
            1nat
        } else {
            0
        }
    }
}

proof fn lemma_lane(toks: TokenMap, n: nat, k: int)
    requires
        n <= 7,
    ensures
        lane_rows(toks, n).len() == lane_count(toks, n),
        0 <= k < n && toks.text_of(lane_keys()[k]) is Some && toks.text_of(lane_keys()[k])->0.len()
            > 0 ==> lane_count(toks, k as nat) < lane_count(toks, n) && lane_rows(
            toks,
            n,
        )[lane_count(toks, k as nat) as int] == DashRow::Lane(toks.text_of(lane_keys()[k])->0),
    decreases n,
{
    if n > 0 {
        lemma_lane(toks, (n - 1) as nat, k);
    }
}

/// Behind the rows of its title, at most three, a tab shows its counts, and then
/// those of its seven lanes that are not empty, in order.
#[verifier::spinoff_prover]
pub proof fn law_counts_and_lanes_follow_the_title(
    terminals: Map<u64, TerminalState>,
    tab: Tab,
    tab_idx: int,
    width: int,
    k: int,
)
    requires
        0 <= k < 7,
    ensures
        ({
            let toks = tab.metadata_tokens;
            let rows = dash_rows(terminals, tab, tab_idx, width);
            let counts = toks.text_of("hdr"@);
            let key = seq!["l1"@, "l2"@, "l3"@, "l4"@, "l5"@, "l6"@, "lmore"@][k];
            let counted: int = if counts is Some && counts->0.len() > 0 {
                1
            } else {
                0
            };
            let titled = rows.len() - counted - lane_count(toks, 7);
            &&& 1 <= titled <= 3
            &&& rows[0] is Title
            &&& forall|i: int| 1 <= i < titled ==> (#[trigger] rows[i]) is TitleCont
            &&& counted > 0 ==> rows[titled] == DashRow::Counts(counts->0)
            &&& toks.text_of(key) matches Some(lane) ==> (lane.len() > 0 ==> rows[titled + counted
                + lane_count(toks, k as nat)] == DashRow::Lane(lane))
        }),
{
    let toks = tab.metadata_tokens;
    let full = full_title(title_of(terminals, tab, tab_idx), phase_of(toks));
    let inner = inner_cells(width);
    let first = geometry::max(geometry::less(inner, TITLE_STATUS_RESERVE as int), 8);
    wrap::law_prose_lines_fit_and_follow(full, first as nat, inner as nat, 3);
    lemma_lane(toks, 7, k);
    assert(lane_keys().len() == 7);
    let rows = dash_rows(terminals, tab, tab_idx, width);
    let titles = title_rows(
        title_lines(full, width),
        tint_start(title_of(terminals, tab, tab_idx), phase_of(toks)),
        attention::tab_mark(terminals, tab).2,
    );
    assert forall|i: int| 0 <= i < titles.len() implies rows[i] == #[trigger] titles[i] by {}
}

/// The title of a tab is broken to the inside of its box: five cells fewer than
/// the box has and at least eight, and in its first row another eight fewer, for
/// the state, and at least eight.
pub proof fn law_titles_are_broken_to_their_box(
    terminals: Map<u64, TerminalState>,
    tab: Tab,
    tab_idx: int,
    width: int,
    i: int,
)
    requires
        0 <= width,
        0 <= i < dash_rows(terminals, tab, tab_idx, width).len(),
    ensures
        ({
            let toks = tab.metadata_tokens;
            let title = title_of(terminals, tab, tab_idx);
            let full = full_title(title, phase_of(toks));
            let inner = geometry::max(width - 5, 8);
            let first = geometry::max(inner - 8, 8);
            let lines = wrap::wrapped_prose(full, first as nat, inner as nat, 3);
            let row = dash_rows(terminals, tab, tab_idx, width)[i];
            &&& row is Title || row is TitleCont ==> i < lines.len()
            &&& row is Title ==> row->Title_text == lines[i].text && row->Title_tint_at
                == wrap::tint_in(lines[i], tint_start(title, phase_of(toks)))
            &&& row is TitleCont ==> row->TitleCont_text == lines[i].text
                && row->TitleCont_tint_at == wrap::tint_in(
                lines[i],
                tint_start(title, phase_of(toks)),
            )
        }),
{
    let toks = tab.metadata_tokens;
    let full = full_title(title_of(terminals, tab, tab_idx), phase_of(toks));
    let titles = title_rows(
        title_lines(full, width),
        tint_start(title_of(terminals, tab, tab_idx), phase_of(toks)),
        attention::tab_mark(terminals, tab).2,
    );
    let rows = dash_rows(terminals, tab, tab_idx, width);
    if i < titles.len() {
        assert(rows[i] == titles[i]);
    } else {
        lemma_lanes_are_lanes(toks, lane_keys().len());
        let tail = count_rows(toks) + lane_rows(toks, lane_keys().len());
        assert(rows[i] == tail[i - titles.len()]);
    }
}

proof fn lemma_lanes_are_lanes(toks: TokenMap, n: nat)
    ensures
        forall|i: int|
            0 <= i < lane_rows(toks, n).len() ==> (#[trigger] lane_rows(toks, n)[i]) is Lane,
    decreases n,
{
    if n > 0 {
        lemma_lanes_are_lanes(toks, (n - 1) as nat);
    }
}

/// The sidebar says of each tab what its panes and its texts say: the mark of
/// its most urgent pane, and that subagents are at work where its counts tell of
/// some.
pub proof fn law_a_dashboard_is_of_its_tab(
    terminals: Map<u64, TerminalState>,
    ws: Workspace,
    width: int,
    t: int,
)
    requires
        0 <= t < ws.tabs@.len(),
    ensures
        ({
            let dashes = dashes_of(terminals, ws, width);
            let tab = ws.tabs@[t];
            let mark = attention::tab_mark(terminals, tab);
            let counts = tab.metadata_tokens.text_of("hdr"@);
            &&& dashes.len() == ws.tabs@.len()
            &&& dashes[t].tab_idx == t
            &&& dashes[t].state == mark.0 && dashes[t].seen == mark.1
            &&& dashes[t].subs_live <==> (counts matches Some(text) && exists|at: int|
                0 <= at && at + 4 <= text.len() && #[trigger] text[at] == ' ' && text[at + 1] == 's'
                    && text[at + 2] == 'u' && text[at + 3] == 'b')
            &&& dashes[t].rows == dash_rows(terminals, tab, t, width)
        }),
{
    let tab = ws.tabs@[t];
    reveal_strlit(" sub");
    let part = " sub"@;
    assert(part =~= seq![' ', 's', 'u', 'b']);
    if let Some(text) = tab.metadata_tokens.text_of("hdr"@) {
        if text::has_part(text, part) {
            let at = choose|at: int| text::stands_at(text, part, at);
            let here = text.subrange(at, at + 4);
            assert(here[0] == text[at] && here[1] == text[at + 1] && here[2] == text[at + 2]
                && here[3] == text[at + 3]);
        }
        if exists|at: int|
            0 <= at && at + 4 <= text.len() && #[trigger] text[at] == ' ' && text[at + 1] == 's'
                && text[at + 2] == 'u' && text[at + 3] == 'b' {
            let at = choose|at: int|
                0 <= at && at + 4 <= text.len() && #[trigger] text[at] == ' ' && text[at + 1]
                    == 's' && text[at + 2] == 'u' && text[at + 3] == 'b';
            assert(text.subrange(at, at + 4) =~= part);
            assert(text::stands_at(text, part, at));
        }
    }
}

} // verus!
