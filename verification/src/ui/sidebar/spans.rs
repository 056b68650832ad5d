//! A sidebar row of tokens, fitted into the cells that it has.

use vstd::prelude::*;

use crate::geometry;
use crate::style;
use crate::style::{Palette, Span, SpanView, Style};
use crate::text;
use crate::text::{display_width, push_dec, truncate_end};
use crate::ui::sidebar::tokens;
use crate::ui::sidebar::tokens::{
    separator, ResolvedToken, ResolvedTokenKind, SidebarTokenStyle, TokenKind, TokenView,
};
use crate::views;

verus! {

/// What a token shows of commits that are not yet exchanged, one way.
pub open spec fn count_text(sign: Seq<char>, n: u64) -> Seq<char> {
    sign + text::dec(n as nat)
}

/// The cells of a count, which is shown where there is something to count.
pub open spec fn count_cells(sign: Seq<char>, n: u64) -> int {
    if n > 0 {
        text::text_width(count_text(sign, n)) as int
    } else {
        0
    }
}

/// The cells that a token takes in any case.
pub open spec fn fixed_cells(token: TokenView, icon: Seq<char>) -> int {
    match token.kind {
        TokenKind::StateIcon => text::text_width(icon) as int,
        TokenKind::GitStatus { ahead, behind } => count_cells("↑"@, ahead) + count_cells("↓"@, behind)
            + if ahead > 0 && behind > 0 {
            1int
        } else {
            0
        },
        _ => 0,
    }
}

/// The cells that a token's text takes when none of it is cut.
pub open spec fn text_cells(token: TokenView) -> int {
    match token.kind.text() {
        Some(content) => text::text_width(content) as int,
        None => 0,
    }
}

/// One cell for every token whose text can be cut, none for the others.
pub open spec fn least_budgets(row: Seq<TokenView>) -> Seq<int> {
    row.map_values(
        |token: TokenView|
            if text_cells(token) > 0 {
                1int
            } else {
                0
            },
    )
}

/// The last token before the `n`-th that is shown.
pub open spec fn shown_before(active: Seq<bool>, n: int) -> Option<int>
    decreases n,
{
    if n <= 0 {
        None
    } else if active[n - 1] {
        Some(n - 1)
    } else {
        shown_before(active, n - 1)
    }
}

/// The cells that the first `n` tokens take, where those of `active` are shown
/// and their texts get `budgets` cells, with what separates them.
pub open spec fn row_cells(
    row: Seq<TokenView>,
    icon: Seq<char>,
    active: Seq<bool>,
    budgets: Seq<int>,
    n: int,
) -> int
    decreases n,
{
    if n <= 0 {
        0
    } else {
        let before = row_cells(row, icon, active, budgets, n - 1);
        if active[n - 1] {
            before + fixed_cells(row[n - 1], icon) + budgets[n - 1] + match shown_before(
                active,
                n - 1,
            ) {
                Some(k) => text::text_width(tokens::between(row[k], row[n - 1])) as int,
                None => 0,
            }
        } else {
            before
        }
    }
}

/// The row fits into `max` cells when its texts are cut to one cell each.
pub open spec fn fits(row: Seq<TokenView>, icon: Seq<char>, active: Seq<bool>, max: int) -> bool {
    row_cells(row, icon, active, least_budgets(row), row.len() as int) <= max
}

/// Only the tokens whose text cannot be cut are shown.
pub open spec fn uncut_only(row: Seq<TokenView>) -> Seq<bool> {
    row.map_values(|token: TokenView| text_cells(token) == 0)
}

/// The tokens that are shown, besides those that cannot be cut: from the last
/// one down to the `k`-th, each for which there still is a cell.
pub open spec fn chosen_from(
    row: Seq<TokenView>,
    icon: Seq<char>,
    max: int,
    k: int,
) -> Seq<bool>
    decreases row.len() - k,
{
    if k < 0 || k >= row.len() {
        uncut_only(row)
    } else {
        let behind = chosen_from(row, icon, max, k + 1);
        if text_cells(row[k]) > 0 && fits(row, icon, behind.update(k, true), max) {
            behind.update(k, true)
        } else {
            behind
        }
    }
}

/// The tokens that are shown: all of them where there is a cell for each.
pub open spec fn chosen(row: Seq<TokenView>, icon: Seq<char>, max: int) -> Seq<bool> {
    let all = row.map_values(|token: TokenView| true);
    if fits(row, icon, all, max) {
        all
    } else {
        chosen_from(row, icon, max, 0)
    }
}

/// The texts that are shown start with one cell each.
pub open spec fn first_budgets(row: Seq<TokenView>, active: Seq<bool>) -> Seq<int> {
    Seq::new(
        row.len(),
        |i: int|
            if active[i] {
                least_budgets(row)[i]
            } else {
                0
            },
    )
}

/// One round from the `i`-th token on: each text that is shown and still cut
/// gets one of `left` cells, as long as there are any.
pub open spec fn round(row: Seq<TokenView>, budgets: Seq<int>, left: int, i: int) -> (
    Seq<int>,
    int,
)
    decreases row.len() - i,
{
    if i < 0 || i >= row.len() || left <= 0 {
        (budgets, left)
    } else if 0 < budgets[i] < text_cells(row[i]) {
        round(row, budgets.update(i, budgets[i] + 1), left - 1, i + 1)
    } else {
        round(row, budgets, left, i + 1)
    }
}

/// The cells that the texts get when `left` more are given away in rounds.
pub open spec fn grown(row: Seq<TokenView>, budgets: Seq<int>, left: int) -> Seq<int>
    decreases left,
{
    let (next, rest) = round(row, budgets, left, 0);
    if left <= 0 || rest < 0 || rest >= left {
        budgets
    } else {
        grown(row, next, rest)
    }
}

/// The cells that the texts of a row of `max` cells get.
pub open spec fn final_budgets(row: Seq<TokenView>, icon: Seq<char>, max: int) -> Seq<int> {
    let active = chosen(row, icon, max);
    let first = first_budgets(row, active);
    let left = geometry::less(max, row_cells(row, icon, active, first, row.len() as int));
    grown(row, first, left)
}

/// `style` with what the configuration changes of it.
pub open spec fn patched(style: Style, patch: SidebarTokenStyle) -> Style {
    let colored = match patch.fg {
        Some(fg) => style.fg(fg),
        None => style,
    };
    let weighed = match patch.bold {
        Some(bold) => colored.bold(bold),
        None => colored,
    };
    match patch.dim {
        Some(dim) => weighed.dim(dim),
        None => weighed,
    }
}

/// `style` with what the configuration changes of it.
pub fn apply_token_style(style: Style, patch: SidebarTokenStyle) -> (out: Style)
    ensures
        out == patched(style, patch),
{
    let mut out: Style = style;
    if let Some(fg) = patch.fg {
        out = out.fg(fg);
    }
    if let Some(bold) = patch.bold {
        out = out.bold(bold);
    }
    if let Some(dim) = patch.dim {
        out = out.dim(dim);
    }
    out
}

/// The styles that a row is drawn in.
#[derive(Clone, Copy, Debug)]
pub struct RowStyles {
    pub state_icon: Style,
    pub state_text: Style,
    pub workspace: Style,
    pub secondary: Style,
    pub custom: Style,
}

/// The style of a token's text.
pub open spec fn text_style(kind: TokenKind, styles: RowStyles) -> Style {
    match kind {
        TokenKind::StateText(_) => styles.state_text,
        TokenKind::Workspace(_) => styles.workspace,
        TokenKind::TerminalTitle(_) | TokenKind::Custom(_) => styles.custom,
        _ => styles.secondary,
    }
}

/// What a token shows, where its text gets `budget` cells.
pub open spec fn token_spans(
    token: TokenView,
    icon: Seq<char>,
    budget: int,
    styles: RowStyles,
    p: Palette,
) -> Seq<SpanView> {
    let patch = token.style;
    match token.kind {
        TokenKind::StateIcon => seq![style::span(icon, patched(styles.state_icon, patch))],
        TokenKind::GitStatus { ahead, behind } => {
            let up = seq![
                style::span(count_text("↑"@, ahead), patched(Style::plain().fg(p.green), patch)),
            ];
            let blank = seq![style::span(" "@, patched(Style::plain(), patch))];
            let down = seq![
                style::span(count_text("↓"@, behind), patched(Style::plain().fg(p.red), patch)),
            ];
            if ahead > 0 && behind > 0 {
                up + blank + down
            } else if ahead > 0 {
                up
            } else if behind > 0 {
                down
            } else {
                Seq::empty()
            }
        },
        kind => seq![
            style::span(
                text::truncated(kind.text()->0, budget as nat),
                patched(text_style(kind, styles), patch),
            ),
        ],
    }
}

/// What stands between two tokens.
pub open spec fn separator_span(a: TokenView, b: TokenView, p: Palette) -> SpanView {
    style::span(tokens::between(a, b), Style::plain().fg(p.overlay0).dim(true))
}

/// What the first `n` tokens show.
pub open spec fn spans_to(
    row: Seq<TokenView>,
    icon: Seq<char>,
    active: Seq<bool>,
    budgets: Seq<int>,
    styles: RowStyles,
    p: Palette,
    n: int,
) -> Seq<SpanView>
    decreases n,
{
    if n <= 0 {
        Seq::empty()
    } else {
        let before = spans_to(row, icon, active, budgets, styles, p, n - 1);
        if active[n - 1] {
            let parted = match shown_before(active, n - 1) {
                Some(k) => before.push(separator_span(row[k], row[n - 1], p)),
                None => before,
            };
            parted + token_spans(row[n - 1], icon, budgets[n - 1], styles, p)
        } else {
            before
        }
    }
}

/// What a row of `max` cells shows of its tokens.
pub open spec fn row_spans(
    row: Seq<TokenView>,
    icon: Seq<char>,
    styles: RowStyles,
    p: Palette,
    max: int,
) -> Seq<SpanView> {
    spans_to(
        row,
        icon,
        chosen(row, icon, max),
        final_budgets(row, icon, max),
        styles,
        p,
        row.len() as int,
    )
}

/// The cells that `spans` take.
pub open spec fn spans_cells(spans: Seq<SpanView>) -> int
    decreases spans.len(),
{
    if spans.len() == 0 {
        0
    } else {
        spans_cells(spans.drop_last()) + text::text_width(spans.last().content)
    }
}

proof fn lemma_spans_push(spans: Seq<SpanView>, span: SpanView)
    ensures
        spans_cells(spans.push(span)) == spans_cells(spans) + text::text_width(span.content),
{
    assert(spans.push(span).drop_last() =~= spans);
}

fn fmt_count(sign: &str, n: u64) -> (out: String)
    ensures
        out@ == count_text(sign@, n),
{
    let mut out: String = sign.to_string();
    push_dec(&mut out, n);
    out
}

/// `left` without `cells`, if that is something.
fn take_cells(left: Option<usize>, cells: usize) -> (out: Option<usize>)
    ensures
        match left {
            Some(n) => out == if n >= cells {
                Some((n - cells) as usize)
            } else {
                None
            },
            None => out is None,
        },
{
    match left {
        Some(n) => if n >= cells {
            Some(n - cells)
        } else {
            None
        },
        None => None,
    }
}

/// What `max` cells leave over when `spent` are taken.
pub open spec fn left_of(max: int, spent: int) -> Option<usize> {
    if spent <= max {
        Some((max - spent) as usize)
    } else {
        None
    }
}

fn take_fixed(left: Option<usize>, token: &ResolvedToken, icon: &str) -> (out: Option<usize>)
    ensures
        match left {
            Some(n) => out == left_of(n as int, fixed_cells(token@, icon@)),
            None => out is None,
        },
{
    match &token.kind {
        ResolvedTokenKind::StateIcon => take_cells(left, display_width(icon)),
        ResolvedTokenKind::GitStatus { ahead, behind } => {
            let mut rest: Option<usize> = left;
            if *ahead > 0 {
                rest = take_cells(rest, display_width(fmt_count("↑", *ahead).as_str()));
            }
            if *behind > 0 {
                rest = take_cells(rest, display_width(fmt_count("↓", *behind).as_str()));
            }
            if *ahead > 0 && *behind > 0 {
                rest = take_cells(rest, 1);
            }
            rest
        },
        _ => take_cells(left, 0),
    }
}

fn token_text_cells(token: &ResolvedToken) -> (out: usize)
    ensures
        out == text_cells(token@),
{
    match token.text() {
        Some(content) => display_width(content),
        None => 0,
    }
}

/// The cells that texts get, as numbers of the mathematical kind.
pub open spec fn ints(budgets: Seq<usize>) -> Seq<int> {
    budgets.map_values(|b: usize| b as int)
}

/// What the row leaves over of `max` cells.
fn slack(
    row: &Vec<ResolvedToken>,
    icon: &str,
    active: &Vec<bool>,
    budgets: &Vec<usize>,
    max: usize,
) -> (out: Option<usize>)
    requires
        active@.len() == row@.len(),
        budgets@.len() == row@.len(),
    ensures
        out == left_of(
            max as int,
            row_cells(views::of(row@), icon@, active@, ints(budgets@), row@.len() as int),
        ),
{
    broadcast use views::group_views;

    let ghost all = views::of(row@);
    let mut left: Option<usize> = Some(max);
    let mut last: Option<usize> = None;
    let mut i: usize = 0;
    while i < row.len()
        invariant
            i <= row@.len(),
            all == views::of(row@),
            active@.len() == row@.len(),
            budgets@.len() == row@.len(),
            row_cells(all, icon@, active@, ints(budgets@), i as int) >= 0,
            left == left_of(
                max as int,
                row_cells(all, icon@, active@, ints(budgets@), i as int),
            ),
            match last {
                Some(k) => k < i && shown_before(active@, i as int) == Some(k as int),
                None => shown_before(active@, i as int) is None,
            },
        decreases row@.len() - i,
    {
        assert(all[i as int] == row@[i as int]@);
        assert(ints(budgets@)[i as int] == budgets@[i as int]);
        assert(fixed_cells(all[i as int], icon@) >= 0);
        if active[i] {
            if let Some(k) = last {
                assert(all[k as int] == row@[k as int]@);
                left = take_cells(left, display_width(separator(&row[k], &row[i])));
            }
            left = take_fixed(left, &row[i], icon);
            left = take_cells(left, budgets[i]);
            last = Some(i);
        }
        i = i + 1;
    }
    left
}

proof fn lemma_chosen_from(row: Seq<TokenView>, icon: Seq<char>, max: int, k: int)
    requires
        0 <= k <= row.len(),
    ensures
        chosen_from(row, icon, max, k).len() == row.len(),
        forall|j: int|
            0 <= j < k ==> #[trigger] chosen_from(row, icon, max, k)[j] == uncut_only(row)[j],
        fits(row, icon, uncut_only(row), max) ==> fits(
            row,
            icon,
            chosen_from(row, icon, max, k),
            max,
        ),
    decreases row.len() - k,
{
    if k < row.len() {
        lemma_chosen_from(row, icon, max, k + 1);
    }
}

fn choose_active(
    row: &Vec<ResolvedToken>,
    icon: &str,
    cells: &Vec<usize>,
    least: &Vec<usize>,
    max: usize,
) -> (out: Vec<bool>)
    requires
        cells@.len() == row@.len(),
        forall|i: int| 0 <= i < row@.len() ==> #[trigger] cells@[i] == text_cells(row@[i]@),
        ints(least@) == least_budgets(views::of(row@)),
    ensures
        out@ == chosen(views::of(row@), icon@, max as int),
        out@.len() == row@.len(),
{
    broadcast use views::group_views;

    let ghost all = views::of(row@);
    let ghost every = all.map_values(|token: TokenView| true);
    let mut active: Vec<bool> = Vec::new();
    let mut i: usize = 0;
    while i < row.len()
        invariant
            i <= row@.len(),
            active@.len() == i,
            forall|j: int| 0 <= j < i ==> active@[j],
        decreases row@.len() - i,
    {
        active.push(true);
        i = i + 1;
    }
    assert(active@ =~= every);
    assert(least@.len() == row@.len()) by {
        assert(ints(least@).len() == least@.len());
    }
    if slack(row, icon, &active, least, max).is_some() {
        return active;
    }
    let mut uncut: Vec<bool> = Vec::new();
    let mut j: usize = 0;
    while j < row.len()
        invariant
            j <= row@.len(),
            cells@.len() == row@.len(),
            forall|i: int| 0 <= i < row@.len() ==> #[trigger] cells@[i] == text_cells(row@[i]@),
            all == views::of(row@),
            uncut@.len() == j,
            forall|i: int| 0 <= i < j ==> uncut@[i] == (text_cells(#[trigger] row@[i]@) == 0),
        decreases row@.len() - j,
    {
        uncut.push(cells[j] == 0);
        j = j + 1;
    }
    assert(uncut@ =~= uncut_only(all));
    let mut k: usize = row.len();
    while k > 0
        invariant
            k <= row@.len(),
            cells@.len() == row@.len(),
            least@.len() == row@.len(),
            uncut@.len() == row@.len(),
            forall|i: int| 0 <= i < row@.len() ==> #[trigger] cells@[i] == text_cells(row@[i]@),
            all == views::of(row@),
            ints(least@) == least_budgets(all),
            uncut@ == chosen_from(all, icon@, max as int, k as int),
        decreases k,
    {
        let ghost behind = uncut@;
        proof {
            lemma_chosen_from(all, icon@, max as int, k as int);
            assert(all[k - 1] == row@[k - 1]@);
        }
        if cells[k - 1] > 0 {
            uncut.set(k - 1, true);
            if slack(row, icon, &uncut, least, max).is_none() {
                uncut.set(k - 1, false);
                assert(uncut@ =~= behind);
            }
        }
        k = k - 1;
    }
    uncut
}

proof fn lemma_row_cells_update(
    row: Seq<TokenView>,
    icon: Seq<char>,
    active: Seq<bool>,
    budgets: Seq<int>,
    i: int,
    n: int,
)
    requires
        0 <= i < budgets.len(),
        0 <= n <= budgets.len(),
    ensures
        row_cells(row, icon, active, budgets.update(i, budgets[i] + 1), n) == row_cells(
            row,
            icon,
            active,
            budgets,
            n,
        ) + if i < n && active[i] {
            1int
        } else {
            0
        },
    decreases n,
{
    if n > 0 {
        lemma_row_cells_update(row, icon, active, budgets, i, n - 1);
    }
}

/// Only texts that are shown have cells.
pub open spec fn only_shown(active: Seq<bool>, budgets: Seq<int>) -> bool {
    forall|i: int| 0 <= i < budgets.len() ==> (#[trigger] budgets[i] > 0 ==> active[i])
}

proof fn lemma_round(
    row: Seq<TokenView>,
    icon: Seq<char>,
    active: Seq<bool>,
    budgets: Seq<int>,
    left: int,
    i: int,
)
    requires
        budgets.len() == row.len(),
        only_shown(active, budgets),
        0 <= i <= row.len(),
        left >= 0,
    ensures
        ({
            let (next, rest) = round(row, budgets, left, i);
            &&& next.len() == row.len()
            &&& only_shown(active, next)
            &&& 0 <= rest <= left
            &&& row_cells(row, icon, active, next, row.len() as int) + rest == row_cells(
                row,
                icon,
                active,
                budgets,
                row.len() as int,
            ) + left
        }),
    decreases row.len() - i,
{
    if i < row.len() && left > 0 {
        if 0 < budgets[i] < text_cells(row[i]) {
            let more = budgets.update(i, budgets[i] + 1);
            lemma_row_cells_update(row, icon, active, budgets, i, row.len() as int);
            lemma_round(row, icon, active, more, left - 1, i + 1);
        } else {
            lemma_round(row, icon, active, budgets, left, i + 1);
        }
    }
}

proof fn lemma_grown(
    row: Seq<TokenView>,
    icon: Seq<char>,
    active: Seq<bool>,
    budgets: Seq<int>,
    left: int,
)
    requires
        budgets.len() == row.len(),
        only_shown(active, budgets),
        left >= 0,
    ensures
        grown(row, budgets, left).len() == row.len(),
        row_cells(row, icon, active, grown(row, budgets, left), row.len() as int) <= row_cells(
            row,
            icon,
            active,
            budgets,
            row.len() as int,
        ) + left,
    decreases left,
{
    let (next, rest) = round(row, budgets, left, 0);
    lemma_round(row, icon, active, budgets, left, 0);
    if left > 0 && rest < left {
        lemma_grown(row, icon, active, next, rest);
    }
}

proof fn lemma_first_budgets(
    row: Seq<TokenView>,
    icon: Seq<char>,
    active: Seq<bool>,
    n: int,
)
    requires
        0 <= n <= row.len(),
        active.len() == row.len(),
    ensures
        row_cells(row, icon, active, first_budgets(row, active), n) == row_cells(
            row,
            icon,
            active,
            least_budgets(row),
            n,
        ),
        row_cells(row, icon, active, first_budgets(row, active), n) >= 0,
    decreases n,
{
    if n > 0 {
        lemma_first_budgets(row, icon, active, n - 1);
    }
}

fn grow(row: &Vec<ResolvedToken>, cells: &Vec<usize>, budgets: Vec<usize>, left: usize) -> (out:
    Vec<usize>)
    requires
        cells@.len() == row@.len(),
        budgets@.len() == row@.len(),
        forall|i: int| 0 <= i < row@.len() ==> #[trigger] cells@[i] == text_cells(row@[i]@),
    ensures
        ints(out@) == grown(views::of(row@), ints(budgets@), left as int),
        out@.len() == row@.len(),
{
    broadcast use views::group_views;

    let ghost all = views::of(row@);
    let ghost goal = grown(all, ints(budgets@), left as int);
    let mut budgets: Vec<usize> = budgets;
    let mut left: usize = left;
    while left > 0
        invariant_except_break
            goal == grown(all, ints(budgets@), left as int),
        invariant
            all == views::of(row@),
            cells@.len() == row@.len(),
            budgets@.len() == row@.len(),
            forall|i: int| 0 <= i < row@.len() ==> #[trigger] cells@[i] == text_cells(row@[i]@),
        ensures
            goal == ints(budgets@),
        decreases left,
    {
        let before: usize = left;
        let ghost start = ints(budgets@);
        let ghost done = round(all, start, left as int, 0);
        let mut i: usize = 0;
        while i < row.len() && left > 0
            invariant
                i <= row@.len(),
                left <= before,
                all == views::of(row@),
                cells@.len() == row@.len(),
                budgets@.len() == row@.len(),
                forall|i: int| 0 <= i < row@.len() ==> #[trigger] cells@[i] == text_cells(row@[i]@),
                done == round(all, ints(budgets@), left as int, i as int),
                left == before ==> ints(budgets@) == start,
            decreases row@.len() - i,
        {
            assert(all[i as int] == row@[i as int]@);
            assert(ints(budgets@)[i as int] == budgets@[i as int]);
            if budgets[i] > 0 && budgets[i] < cells[i] {
                let ghost now = ints(budgets@);
                budgets.set(i, budgets[i] + 1);
                left = left - 1;
                assert(ints(budgets@) =~= now.update(i as int, now[i as int] + 1));
            }
            i = i + 1;
        }
        assert(done == (ints(budgets@), left as int));
        if left == before {
            assert(goal == ints(budgets@));
            break;
        }
    }
    budgets
}

fn put_span(spans: &mut Vec<Span>, content: String, style: Style)
    ensures
        views::of(final(spans)@) == views::of(old(spans)@).push(style::span(content@, style)),
        spans_cells(views::of(final(spans)@)) == spans_cells(views::of(old(spans)@))
            + text::text_width(content@),
{
    broadcast use views::group_views;

    proof {
        lemma_spans_push(views::of(spans@), style::span(content@, style));
    }
    spans.push(Span::styled(content, style));
}

fn put_token(
    spans: &mut Vec<Span>,
    token: &ResolvedToken,
    icon: &str,
    budget: usize,
    styles: RowStyles,
    p: &Palette,
)
    ensures
        views::of(final(spans)@) == views::of(old(spans)@) + token_spans(
            token@,
            icon@,
            budget as int,
            styles,
            *p,
        ),
        spans_cells(views::of(final(spans)@)) <= spans_cells(views::of(old(spans)@)) + fixed_cells(
            token@,
            icon@,
        ) + budget,
{
    let ghost start = views::of(spans@);
    let ghost goal = start + token_spans(token@, icon@, budget as int, styles, *p);
    let patch: SidebarTokenStyle = token.style;
    match &token.kind {
        ResolvedTokenKind::StateIcon => {
            put_span(spans, icon.to_string(), apply_token_style(styles.state_icon, patch));
        },
        ResolvedTokenKind::GitStatus { ahead, behind } => {
            if *ahead > 0 {
                put_span(
                    spans,
                    fmt_count("↑", *ahead),
                    apply_token_style(Style::plain().fg(p.green), patch),
                );
            }
            if *ahead > 0 && *behind > 0 {
                let blank: &str = " ";
                let cells: usize = display_width(blank);
                proof {
                    reveal_strlit(" ");
                    assert(text::is_plain(blank@));
                    assert(cells == 1);
                }
                put_span(spans, blank.to_string(), apply_token_style(Style::plain(), patch));
            }
            if *behind > 0 {
                put_span(
                    spans,
                    fmt_count("↓", *behind),
                    apply_token_style(Style::plain().fg(p.red), patch),
                );
            }
        },
        ResolvedTokenKind::StateText(content) => {
            put_span(
                spans,
                truncate_end(content.as_str(), budget),
                apply_token_style(styles.state_text, patch),
            );
        },
        ResolvedTokenKind::Workspace(content) => {
            put_span(
                spans,
                truncate_end(content.as_str(), budget),
                apply_token_style(styles.workspace, patch),
            );
        },
        ResolvedTokenKind::Tab(content) | ResolvedTokenKind::Pane(content)
        | ResolvedTokenKind::Agent(content) | ResolvedTokenKind::Branch(content) => {
            put_span(
                spans,
                truncate_end(content.as_str(), budget),
                apply_token_style(styles.secondary, patch),
            );
        },
        ResolvedTokenKind::TerminalTitle(content) | ResolvedTokenKind::Custom(content) => {
            put_span(
                spans,
                truncate_end(content.as_str(), budget),
                apply_token_style(styles.custom, patch),
            );
        },
    }
    assert(views::of(spans@) =~= goal);
}

/// What a row shows of its tokens. Where a cell for each is too much, tokens
/// whose text can be cut give way, the first ones first; the cells that are
/// left go to the texts in turn. As long as the tokens that cannot be cut fit,
/// the row takes no more than `max_width` cells.
pub fn resolved_token_spans(
    resolved: &Vec<ResolvedToken>,
    state_icon: (&str, Style),
    state_text_style: Style,
    workspace_style: Style,
    secondary_style: Style,
    custom_style: Style,
    p: &Palette,
    max_width: usize,
) -> (out: Vec<Span>)
    ensures
        views::of(out@) == row_spans(
            views::of(resolved@),
            state_icon.0@,
            (RowStyles {
                state_icon: state_icon.1,
                state_text: state_text_style,
                workspace: workspace_style,
                secondary: secondary_style,
                custom: custom_style,
            }),
            *p,
            max_width as int,
        ),
        fits(
            views::of(resolved@),
            state_icon.0@,
            uncut_only(views::of(resolved@)),
            max_width as int,
        ) ==> spans_cells(views::of(out@)) <= max_width,
{
    broadcast use views::group_views;

    let icon: &str = state_icon.0;
    let styles: RowStyles = RowStyles {
        state_icon: state_icon.1,
        state_text: state_text_style,
        workspace: workspace_style,
        secondary: secondary_style,
        custom: custom_style,
    };
    let ghost row = views::of(resolved@);
    let mut cells: Vec<usize> = Vec::new();
    let mut least: Vec<usize> = Vec::new();
    let mut i: usize = 0;
    while i < resolved.len()
        invariant
            i <= resolved@.len(),
            row == views::of(resolved@),
            cells@.len() == i,
            least@.len() == i,
            forall|j: int| 0 <= j < i ==> #[trigger] cells@[j] == text_cells(resolved@[j]@),
            forall|j: int| 0 <= j < i ==> #[trigger] least@[j] == least_budgets(row)[j],
        decreases resolved@.len() - i,
    {
        let width: usize = token_text_cells(&resolved[i]);
        assert(row[i as int] == resolved@[i as int]@);
        cells.push(width);
        least.push(
            if width > 0 {
                1
            } else {
                0
            },
        );
        i = i + 1;
    }
    assert(ints(least@) =~= least_budgets(row));
    let active: Vec<bool> = choose_active(resolved, icon, &cells, &least, max_width);
    let mut first: Vec<usize> = Vec::new();
    let mut j: usize = 0;
    while j < resolved.len()
        invariant
            j <= resolved@.len(),
            row == views::of(resolved@),
            active@.len() == resolved@.len(),
            least@.len() == resolved@.len(),
            ints(least@) == least_budgets(row),
            first@.len() == j,
            forall|k: int| 0 <= k < j ==> #[trigger] first@[k] == first_budgets(row, active@)[k],
        decreases resolved@.len() - j,
    {
        assert(ints(least@)[j as int] == least@[j as int]);
        first.push(
            if active[j] {
                least[j]
            } else {
                0
            },
        );
        j = j + 1;
    }
    assert(ints(first@) =~= first_budgets(row, active@));
    let left: usize = match slack(resolved, icon, &active, &first, max_width) {
        Some(left) => left,
        None => 0,
    };
    let ghost firsts = ints(first@);
    let ghost len = resolved@.len() as int;
    proof {
        lemma_first_budgets(row, icon@, active@, len);
        assert(left == geometry::less(
            max_width as int,
            row_cells(row, icon@, active@, firsts, len),
        ));
    }
    let budgets: Vec<usize> = grow(resolved, &cells, first, left);
    let ghost finals = ints(budgets@);
    proof {
        lemma_grown(row, icon@, active@, firsts, left as int);
        lemma_chosen_from(row, icon@, max_width as int, 0);
        assert(fits(row, icon@, uncut_only(row), max_width as int) ==> row_cells(
            row,
            icon@,
            active@,
            finals,
            len,
        ) <= max_width);
    }
    let mut spans: Vec<Span> = Vec::new();
    let mut last: Option<usize> = None;
    let mut k: usize = 0;
    while k < resolved.len()
        invariant
            k <= resolved@.len(),
            row == views::of(resolved@),
            active@.len() == resolved@.len(),
            budgets@.len() == resolved@.len(),
            finals == ints(budgets@),
            views::of(spans@) == spans_to(row, icon@, active@, finals, styles, *p, k as int),
            spans_cells(views::of(spans@)) <= row_cells(row, icon@, active@, finals, k as int),
            match last {
                Some(q) => q < k && shown_before(active@, k as int) == Some(q as int),
                None => shown_before(active@, k as int) is None,
            },
        decreases resolved@.len() - k,
    {
        assert(row[k as int] == resolved@[k as int]@);
        assert(finals[k as int] == budgets@[k as int]);
        if active[k] {
            if let Some(q) = last {
                assert(row[q as int] == resolved@[q as int]@);
                put_span(
                    &mut spans,
                    separator(&resolved[q], &resolved[k]).to_string(),
                    Style::plain().fg(p.overlay0).dim(true),
                );
            }
            put_token(&mut spans, &resolved[k], icon, budgets[k], styles, p);
            last = Some(k);
        }
        k = k + 1;
    }
    spans
}

/// The cells of two texts that are shown differ by no more than one, unless one
/// of the texts is shown in full: the cells that are left go round evenly.
pub proof fn law_texts_share_the_cells_evenly(
    row: Seq<TokenView>,
    icon: Seq<char>,
    max: int,
    i: int,
    j: int,
)
    requires
        0 <= i < row.len(),
        0 <= j < row.len(),
        chosen(row, icon, max)[i],
        chosen(row, icon, max)[j],
        text_cells(row[i]) > 0,
        text_cells(row[j]) > 0,
    ensures
        ({
            let budgets = final_budgets(row, icon, max);
            &&& 1 <= budgets[j] <= text_cells(row[j])
            &&& budgets[j] < text_cells(row[j]) ==> budgets[i] <= budgets[j] + 1
        }),
{
    let active = chosen(row, icon, max);
    let first = first_budgets(row, active);
    let left = geometry::less(max, row_cells(row, icon, active, first, row.len() as int));
    lemma_grown_even(row, first, left, 1);
}

/// Every text that is shown has `level` cells, or all that it needs.
pub open spec fn is_level(row: Seq<TokenView>, budgets: Seq<int>, level: int) -> bool {
    &&& budgets.len() == row.len()
    &&& forall|i: int|
        0 <= i < row.len() ==> (#[trigger] budgets[i] == 0 || (text_cells(row[i]) > 0 && budgets[i]
            == geometry::min(text_cells(row[i]), level)))
}

/// The texts before the `i`-th have up to `level + 1` cells, the others up to
/// `level`.
pub open spec fn is_level_from(row: Seq<TokenView>, budgets: Seq<int>, level: int, i: int) -> bool {
    &&& budgets.len() == row.len()
    &&& forall|k: int|
        0 <= k < row.len() ==> (#[trigger] budgets[k] == 0 || (text_cells(row[k]) > 0 && budgets[k]
            == geometry::min(
            text_cells(row[k]),
            if k < i {
                level + 1
            } else {
                level
            },
        )))
}

/// `budgets` and `other` give cells to the same texts.
pub open spec fn same_texts(budgets: Seq<int>, other: Seq<int>) -> bool {
    budgets.len() == other.len() && forall|i: int|
        0 <= i < budgets.len() ==> (#[trigger] budgets[i] == 0 <==> other[i] == 0)
}

proof fn lemma_round_even(
    row: Seq<TokenView>,
    budgets: Seq<int>,
    left: int,
    level: int,
    i: int,
) -> (end: int)
    requires
        0 <= i <= row.len(),
        left >= 0,
        level >= 1,
        is_level_from(row, budgets, level, i),
    ensures
        i <= end <= row.len(),
        is_level_from(row, round(row, budgets, left, i).0, level, end),
        same_texts(round(row, budgets, left, i).0, budgets),
        round(row, budgets, left, i).1 > 0 ==> end == row.len(),
        0 <= round(row, budgets, left, i).1 <= left,
    decreases row.len() - i,
{
    if i >= row.len() || left <= 0 {
        i
    } else if 0 < budgets[i] < text_cells(row[i]) {
        let more = budgets.update(i, budgets[i] + 1);
        assert(is_level_from(row, more, level, i + 1));
        let end = lemma_round_even(row, more, left - 1, level, i + 1);
        let out = round(row, budgets, left, i).0;
        assert(same_texts(out, more));
        assert forall|k: int| 0 <= k < budgets.len() implies (#[trigger] out[k] == 0 <==> budgets[k]
            == 0) by {
            assert(out[k] == 0 <==> more[k] == 0);
        }
        end
    } else {
        assert(is_level_from(row, budgets, level, i + 1));
        lemma_round_even(row, budgets, left, level, i + 1)
    }
}

proof fn lemma_grown_even(row: Seq<TokenView>, budgets: Seq<int>, left: int, level: int)
    requires
        level >= 1,
        left >= 0,
        is_level(row, budgets, level),
    ensures
        same_texts(grown(row, budgets, left), budgets),
        exists|high: int, end: int|
            high >= 1 && 0 <= end <= row.len() && #[trigger] is_level_from(
                row,
                grown(row, budgets, left),
                high,
                end,
            ),
    decreases left,
{
    let (next, rest) = round(row, budgets, left, 0);
    assert(is_level_from(row, budgets, level, 0));
    let end = lemma_round_even(row, budgets, left, level, 0);
    if left > 0 && rest < left {
        if rest > 0 {
            assert(is_level(row, next, level + 1));
            lemma_grown_even(row, next, rest, level + 1);
            let out = grown(row, budgets, left);
            assert(out == grown(row, next, rest));
            assert forall|k: int| 0 <= k < budgets.len() implies (#[trigger] out[k] == 0
                <==> budgets[k] == 0) by {
                assert(out[k] == 0 <==> next[k] == 0);
            }
        } else {
            assert(grown(row, next, rest) == next);
            assert(is_level_from(row, grown(row, budgets, left), level, end));
        }
    } else {
        assert(is_level_from(row, grown(row, budgets, left), level, 0));
    }
}

/// The cells of every text in full.
pub open spec fn full_budgets(row: Seq<TokenView>) -> Seq<int> {
    row.map_values(|token: TokenView| text_cells(token))
}

/// Every token is shown.
pub open spec fn every(row: Seq<TokenView>) -> Seq<bool> {
    row.map_values(|token: TokenView| true)
}

/// Every text has a cell, and none has more than it needs.
pub open spec fn within(row: Seq<TokenView>, budgets: Seq<int>) -> bool {
    &&& budgets.len() == row.len()
    &&& forall|i: int|
        0 <= i < row.len() ==> 0 <= #[trigger] budgets[i] <= text_cells(row[i]) && (budgets[i] == 0
            <==> text_cells(row[i]) == 0)
}

proof fn lemma_row_cells_within(row: Seq<TokenView>, icon: Seq<char>, budgets: Seq<int>, n: int)
    requires
        within(row, budgets),
        0 <= n <= row.len(),
    ensures
        ({
            let cells = row_cells(row, icon, every(row), budgets, n);
            let full = row_cells(row, icon, every(row), full_budgets(row), n);
            &&& cells <= full
            &&& cells == full ==> forall|i: int|
                0 <= i < n ==> #[trigger] budgets[i] == text_cells(row[i])
        }),
    decreases n,
{
    if n > 0 {
        lemma_row_cells_within(row, icon, budgets, n - 1);
        assert(budgets[n - 1] <= text_cells(row[n - 1]));
        assert(full_budgets(row)[n - 1] == text_cells(row[n - 1]));
    }
}

proof fn lemma_round_within(row: Seq<TokenView>, budgets: Seq<int>, left: int, i: int)
    requires
        within(row, budgets),
        0 <= i <= row.len(),
        left >= 0,
    ensures
        within(row, round(row, budgets, left, i).0),
        round(row, budgets, left, i).1 <= left,
        left > 0 && round(row, budgets, left, i).1 == left ==> forall|k: int|
            i <= k < row.len() ==> #[trigger] budgets[k] == text_cells(row[k]),
    decreases row.len() - i,
{
    if i < row.len() && left > 0 {
        assert(0 <= budgets[i] <= text_cells(row[i]));
        if 0 < budgets[i] < text_cells(row[i]) {
            lemma_round_within(row, budgets.update(i, budgets[i] + 1), left - 1, i + 1);
        } else {
            lemma_round_within(row, budgets, left, i + 1);
        }
    }
}

proof fn lemma_grown_in_full(row: Seq<TokenView>, icon: Seq<char>, budgets: Seq<int>, left: int)
    requires
        within(row, budgets),
        left >= 0,
        row_cells(row, icon, every(row), full_budgets(row), row.len() as int) <= row_cells(
            row,
            icon,
            every(row),
            budgets,
            row.len() as int,
        ) + left,
    ensures
        grown(row, budgets, left) == full_budgets(row),
    decreases left,
{
    let (next, rest) = round(row, budgets, left, 0);
    lemma_row_cells_within(row, icon, budgets, row.len() as int);
    lemma_round(row, icon, every(row), budgets, left, 0);
    lemma_round_within(row, budgets, left, 0);
    if left > 0 && rest < left {
        lemma_grown_in_full(row, icon, next, rest);
    } else {
        assert(budgets =~= full_budgets(row));
    }
}

/// Where there are cells for every token with its text in full, every token is
/// shown and no text is cut.
pub proof fn law_texts_that_fit_are_shown_in_full(
    row: Seq<TokenView>,
    icon: Seq<char>,
    max: int,
)
    requires
        row_cells(row, icon, every(row), full_budgets(row), row.len() as int) <= max,
    ensures
        chosen(row, icon, max) == every(row),
        final_budgets(row, icon, max) == full_budgets(row),
        forall|i: int|
            0 <= i < row.len() && (#[trigger] row[i]).kind.text() is Some ==> text::truncated(
                row[i].kind.text()->0,
                final_budgets(row, icon, max)[i] as nat,
            ) == row[i].kind.text()->0,
{
    let all = every(row);
    let n = row.len() as int;
    lemma_row_cells_within(row, icon, least_budgets(row), n);
    lemma_first_budgets(row, icon, all, n);
    let first = first_budgets(row, all);
    assert(first =~= least_budgets(row));
    lemma_grown_in_full(
        row,
        icon,
        first,
        geometry::less(max, row_cells(row, icon, all, first, n)),
    );
}

/// Of two texts that share the cells, the first is never cut shorter than the
/// second, unless it is shown in full.
pub proof fn law_the_first_texts_get_the_odd_cells(
    row: Seq<TokenView>,
    icon: Seq<char>,
    max: int,
    i: int,
    j: int,
)
    requires
        0 <= i < j < row.len(),
        chosen(row, icon, max)[i],
        chosen(row, icon, max)[j],
        text_cells(row[i]) > 0,
        text_cells(row[j]) > 0,
        final_budgets(row, icon, max)[i] < text_cells(row[i]),
    ensures
        final_budgets(row, icon, max)[j] <= final_budgets(row, icon, max)[i],
{
    let active = chosen(row, icon, max);
    let first = first_budgets(row, active);
    let left = geometry::less(max, row_cells(row, icon, active, first, row.len() as int));
    lemma_grown_even(row, first, left, 1);
    assert(first[i] == 1 && first[j] == 1);
}

#[verifier::spinoff_prover]
proof fn lemma_round_stuck(row: Seq<TokenView>, budgets: Seq<int>, left: int, i: int)
    requires
        budgets.len() == row.len(),
        0 <= i <= row.len(),
        left > 0,
    ensures
        round(row, budgets, left, i).1 <= left,
        round(row, budgets, left, i).1 == left ==> forall|k: int|
            i <= k < row.len() ==> !(0 < #[trigger] budgets[k] < text_cells(row[k])),
    decreases row.len() - i,
{
    if i < row.len() {
        if 0 < budgets[i] < text_cells(row[i]) {
            let more = budgets.update(i, budgets[i] + 1);
            assert(round(row, budgets, left, i) == round(row, more, left - 1, i + 1));
            if left > 1 {
                lemma_round_stuck(row, more, left - 1, i + 1);
            } else {
                assert(round(row, more, 0, i + 1) == (more, 0int));
            }
        } else {
            lemma_round_stuck(row, budgets, left, i + 1);
            assert(round(row, budgets, left, i) == round(row, budgets, left, i + 1));
        }
    }
}

proof fn lemma_grown_spends(
    row: Seq<TokenView>,
    icon: Seq<char>,
    active: Seq<bool>,
    budgets: Seq<int>,
    left: int,
)
    requires
        budgets.len() == row.len(),
        only_shown(active, budgets),
        left >= 0,
    ensures
        ({
            let out = grown(row, budgets, left);
            let n = row.len() as int;
            ||| row_cells(row, icon, active, out, n) == row_cells(row, icon, active, budgets, n)
                + left
            ||| forall|k: int| 0 <= k < n ==> !(0 < #[trigger] out[k] < text_cells(row[k]))
        }),
    decreases left,
{
    let (next, rest) = round(row, budgets, left, 0);
    lemma_round(row, icon, active, budgets, left, 0);
    if left > 0 {
        lemma_round_stuck(row, budgets, left, 0);
        if rest < left {
            lemma_grown_spends(row, icon, active, next, rest);
        }
    }
}

/// Where a text is cut, the row uses all of its cells: none is left over while
/// a text could use it.
pub proof fn law_no_cell_is_left_to_a_cut_text(
    row: Seq<TokenView>,
    icon: Seq<char>,
    max: int,
    i: int,
)
    requires
        0 <= max,
        0 <= i < row.len(),
        chosen(row, icon, max)[i],
        text_cells(row[i]) > 0,
        final_budgets(row, icon, max)[i] < text_cells(row[i]),
        fits(row, icon, chosen(row, icon, max), max),
    ensures
        row_cells(
            row,
            icon,
            chosen(row, icon, max),
            final_budgets(row, icon, max),
            row.len() as int,
        ) == max,
{
    let active = chosen(row, icon, max);
    let n = row.len() as int;
    lemma_chosen_from(row, icon, max, 0);
    let first = first_budgets(row, active);
    lemma_first_budgets(row, icon, active, n);
    let left = geometry::less(max, row_cells(row, icon, active, first, n));
    assert(first.len() == row.len());
    assert(only_shown(active, first));
    lemma_grown_spends(row, icon, active, first, left);
    law_texts_share_the_cells_evenly(row, icon, max, i, i);
}

/// `active`, without the tokens before the `k`-th whose text can be cut, and
/// with the `k`-th.
pub open spec fn with_those_behind(row: Seq<TokenView>, active: Seq<bool>, k: int) -> Seq<bool> {
    Seq::new(row.len(), |i: int| text_cells(row[i]) == 0 || i == k || (i > k && active[i]))
}

proof fn lemma_chosen_behind(row: Seq<TokenView>, icon: Seq<char>, max: int, k: int, j: int)
    requires
        0 <= k <= j <= row.len(),
    ensures
        chosen_from(row, icon, max, k).len() == row.len(),
        forall|i: int|
            0 <= i < row.len() && (i >= j || text_cells(row[i]) == 0) ==> chosen_from(
                row,
                icon,
                max,
                k,
            )[i] == #[trigger] chosen_from(row, icon, max, j)[i],
        forall|i: int|
            0 <= i < k && text_cells(row[i]) > 0 ==> !#[trigger] chosen_from(row, icon, max, k)[i],
        forall|i: int|
            0 <= i < row.len() && text_cells(row[i]) == 0 ==> #[trigger] chosen_from(
                row,
                icon,
                max,
                k,
            )[i],
    decreases row.len() - k,
{
    if k < row.len() {
        lemma_chosen_behind(row, icon, max, k + 1, if j > k {
            j
        } else {
            k + 1
        });
    }
}

/// Where there is not a cell for every text, what cannot be cut is shown, and a
/// text is shown if there is a cell for it beside that and the texts behind it
/// that are shown: the later of two texts wins.
pub proof fn law_the_later_texts_are_shown(
    row: Seq<TokenView>,
    icon: Seq<char>,
    max: int,
    k: int,
)
    requires
        0 <= k < row.len(),
    ensures
        fits(row, icon, every(row), max) ==> chosen(row, icon, max)[k],
        !fits(row, icon, every(row), max) ==> {
            let active = chosen(row, icon, max);
            &&& text_cells(row[k]) == 0 ==> active[k]
            &&& text_cells(row[k]) > 0 ==> (active[k] <==> fits(
                row,
                icon,
                with_those_behind(row, active, k),
                max,
            ))
        },
{
    if !fits(row, icon, every(row), max) {
        let active = chosen(row, icon, max);
        let behind = chosen_from(row, icon, max, k + 1);
        lemma_chosen_behind(row, icon, max, 0, k);
        lemma_chosen_behind(row, icon, max, 0, k + 1);
        lemma_chosen_behind(row, icon, max, k + 1, k + 1);
        lemma_chosen_behind(row, icon, max, k, k);
        assert(behind.update(k, true) =~= with_those_behind(row, active, k)) by {
            assert forall|i: int| 0 <= i < row.len() implies behind.update(k, true)[i]
                == with_those_behind(row, active, k)[i] by {
                if i > k {
                    assert(chosen_from(row, icon, max, 0)[i] == chosen_from(
                        row,
                        icon,
                        max,
                        k + 1,
                    )[i]);
                }
            }
        }
        assert(active[k] == chosen_from(row, icon, max, k)[k]);
    }
}

proof fn lemma_shown_before(active: Seq<bool>, n: int, j: int)
    requires
        0 <= j < n <= active.len(),
        active[j],
        forall|i: int| j < i < n ==> !active[i],
    ensures
        shown_before(active, n) == Some(j),
    decreases n,
{
    if j < n - 1 {
        lemma_shown_before(active, n - 1, j);
    }
}

proof fn lemma_hidden_tokens(
    row: Seq<TokenView>,
    icon: Seq<char>,
    active: Seq<bool>,
    budgets: Seq<int>,
    styles: RowStyles,
    p: Palette,
    from: int,
    to: int,
)
    requires
        0 <= from <= to <= active.len(),
        forall|i: int| from <= i < to ==> !active[i],
    ensures
        spans_to(row, icon, active, budgets, styles, p, to) == spans_to(
            row,
            icon,
            active,
            budgets,
            styles,
            p,
            from,
        ),
    decreases to - from,
{
    if from < to {
        lemma_hidden_tokens(row, icon, active, budgets, styles, p, from, to - 1);
    }
}

/// What is shown of a row is what its tokens show, one behind the other, and
/// between two of them what separates those two.
pub proof fn law_shown_tokens_follow_each_other(
    row: Seq<TokenView>,
    icon: Seq<char>,
    active: Seq<bool>,
    budgets: Seq<int>,
    styles: RowStyles,
    p: Palette,
    j: int,
    k: int,
)
    requires
        active.len() == row.len(),
        -1 <= j < k < row.len(),
        active[k],
        j >= 0 ==> active[j],
        forall|i: int| j < i < k ==> !active[i],
    ensures
        ({
            let here = token_spans(row[k], icon, budgets[k], styles, p);
            let up_to = |n: int| spans_to(row, icon, active, budgets, styles, p, n);
            &&& j < 0 ==> up_to(k + 1) == here
            &&& j >= 0 ==> up_to(k + 1) == up_to(j + 1) + seq![
                style::span(
                    if row[j].kind is StateIcon {
                        seq![' ']
                    } else {
                        seq![' ', '·', ' ']
                    },
                    Style { fg: Some(p.overlay0), bg: None, bold: None, dim: Some(true) },
                ),
            ] + here
            &&& (forall|i: int| k < i < row.len() ==> !active[i]) ==> up_to(row.len() as int)
                == up_to(k + 1)
        }),
{
    reveal_strlit(" ");
    reveal_strlit(" · ");
    assert(" "@ =~= seq![' ']);
    assert(" · "@ =~= seq![' ', '·', ' ']);
    lemma_hidden_tokens(row, icon, active, budgets, styles, p, j + 1, k);
    let before = spans_to(row, icon, active, budgets, styles, p, k);
    let here = token_spans(row[k], icon, budgets[k], styles, p);
    if j >= 0 {
        lemma_shown_before(active, k, j);
        assert(before.push(separator_span(row[j], row[k], p)) + here =~= before + seq![
            separator_span(row[j], row[k], p),
        ] + here);
    } else {
        lemma_none_shown(active, k);
        assert(before =~= Seq::<SpanView>::empty());
        assert(before + here =~= here);
    }
    if forall|i: int| k < i < row.len() ==> !active[i] {
        lemma_hidden_tokens(row, icon, active, budgets, styles, p, k + 1, row.len() as int);
    }
}

proof fn lemma_none_shown(active: Seq<bool>, n: int)
    requires
        0 <= n <= active.len(),
        forall|i: int| 0 <= i < n ==> !active[i],
    ensures
        shown_before(active, n) is None,
    decreases n,
{
    if n > 0 {
        lemma_none_shown(active, n - 1);
    }
}

/// A token shows its icon, its text in the style of its kind, cut to its cells,
/// or the commits that are ahead in green and those behind in red, each where
/// there are some. Whatever the configuration changes of a style is changed of
/// each of them.
pub proof fn law_tokens_show_what_they_are(
    token: TokenView,
    icon: Seq<char>,
    budget: int,
    styles: RowStyles,
    p: Palette,
)
    requires
        0 <= budget,
    ensures
        ({
            let spans = token_spans(token, icon, budget, styles, p);
            let patch = token.style;
            let text_of = |style: Style| {
                seq![
                    style::span(
                        text::truncated(token.kind.text()->0, budget as nat),
                        patched(style, patch),
                    ),
                ]
            };
            match token.kind {
                TokenKind::StateIcon => spans == seq![
                    style::span(icon, patched(styles.state_icon, patch)),
                ],
                TokenKind::StateText(_) => spans == text_of(styles.state_text),
                TokenKind::Workspace(_) => spans == text_of(styles.workspace),
                TokenKind::TerminalTitle(_) | TokenKind::Custom(_) => spans == text_of(
                    styles.custom,
                ),
                TokenKind::Tab(_) | TokenKind::Pane(_) | TokenKind::Agent(_) | TokenKind::Branch(
                    _,
                ) => spans == text_of(styles.secondary),
                TokenKind::GitStatus { ahead, behind } => {
                    let up = style::span(
                        seq!['↑'] + text::dec(ahead as nat),
                        patched(Style::plain().fg(p.green), patch),
                    );
                    let down = style::span(
                        seq!['↓'] + text::dec(behind as nat),
                        patched(Style::plain().fg(p.red), patch),
                    );
                    &&& ahead == 0 && behind == 0 ==> spans.len() == 0
                    &&& ahead > 0 && behind == 0 ==> spans == seq![up]
                    &&& ahead == 0 && behind > 0 ==> spans == seq![down]
                    &&& ahead > 0 && behind > 0 ==> {
                        &&& spans.len() == 3
                        &&& spans[0] == up && spans[2] == down
                        &&& spans[1].content == seq![' ']
                    }
                },
            }
        }),
{
    reveal_strlit("↑");
    reveal_strlit("↓");
    reveal_strlit(" ");
    assert("↑"@ =~= seq!['↑']);
    assert("↓"@ =~= seq!['↓']);
    assert(" "@ =~= seq![' ']);
}

/// A configured style changes what it names, and nothing else.
pub proof fn law_a_configured_style_changes_what_it_names(style: Style, patch: SidebarTokenStyle)
    ensures
        ({
            let out = patched(style, patch);
            &&& out.fg == if patch.fg is Some {
                patch.fg
            } else {
                style.fg
            }
            &&& out.bold == if patch.bold is Some {
                patch.bold
            } else {
                style.bold
            }
            &&& out.dim == if patch.dim is Some {
                patch.dim
            } else {
                style.dim
            }
            &&& out.bg == style.bg
        }),
{
}

/// The icon and the counts take the cells that are set aside for them.
pub proof fn law_what_cannot_be_cut_has_its_cells(
    token: TokenView,
    icon: Seq<char>,
    budget: int,
    styles: RowStyles,
    p: Palette,
)
    requires
        text::text_width(" "@) == 1,
        token.kind.text() is None,
    ensures
        spans_cells(token_spans(token, icon, budget, styles, p)) == fixed_cells(token, icon),
{
    reveal_with_fuel(spans_cells, 5);
    let spans = token_spans(token, icon, budget, styles, p);
    if spans.len() == 3 {
        assert(spans.drop_last().len() == 2 && spans.drop_last().drop_last().len() == 1);
        assert(spans.drop_last().last() == spans[1]);
        assert(spans.drop_last().drop_last().last() == spans[0]);
    }
}

} // verus!
