//! Which spaces the sidebar lists, and in what order.

use vstd::prelude::*;

use crate::app::state::{AppState, Mode};
use crate::text;
use crate::text::{any_is, str_eq};
use crate::workspace::Workspace;

verus! {

/// A row group of the space list.
#[derive(Clone, Copy, Debug, PartialEq, Eq, Structural)]
pub enum WorkspaceListEntry {
    /// The space at `ws_idx`; `indented` below the parent of its group.
    Workspace { ws_idx: usize, indented: bool },
}

impl WorkspaceListEntry {
    /// The space that the entry lists.
    pub open spec fn idx(self) -> int {
        self->ws_idx as int
    }
}

/// What grouping reads of a space: the repository that it is a checkout of, and
/// whether it is a linked worktree.
pub struct Member {
    pub key: Seq<char>,
    pub linked: bool,
}

/// What grouping reads of a space, if it is a checkout at all.
pub open spec fn member_of(ws: Workspace) -> Option<Member> {
    match ws.worktree_space {
        Some(space) => Some(Member { key: space.key@, linked: space.is_linked_worktree }),
        None => None,
    }
}

/// What grouping reads of the spaces.
pub open spec fn members_of(workspaces: Seq<Workspace>) -> Seq<Option<Member>> {
    workspaces.map_values(|ws: Workspace| member_of(ws))
}

/// Space `i` is a checkout of `key`.
pub open spec fn in_space(m: Seq<Option<Member>>, i: int, key: Seq<char>) -> bool {
    0 <= i < m.len() && m[i] is Some && m[i]->0.key == key
}

/// Space `i` is a checkout of `key` that can head a group.
pub open spec fn can_head(m: Seq<Option<Member>>, i: int, key: Seq<char>) -> bool {
    in_space(m, i, key) && !m[i]->0.linked
}

/// The checkouts of `key` among the first `n` spaces, in order.
pub open spec fn space_members(m: Seq<Option<Member>>, key: Seq<char>, n: nat) -> Seq<int>
    decreases n,
{
    if n == 0 {
        Seq::empty()
    } else {
        let before = space_members(m, key, (n - 1) as nat);
        if in_space(m, n - 1, key) {
            before.push(n - 1)
        } else {
            before
        }
    }
}

/// The first of the first `n` spaces that can head the group of `key`.
pub open spec fn space_parent(m: Seq<Option<Member>>, key: Seq<char>, n: nat) -> Option<int>
    decreases n,
{
    if n == 0 {
        None
    } else {
        let before = space_parent(m, key, (n - 1) as nat);
        if before is Some {
            before
        } else if can_head(m, n - 1, key) {
            Some(n - 1)
        } else {
            None
        }
    }
}

/// The checkouts of `key` form a group: there are two of them, and one can head it.
pub open spec fn is_grouped(m: Seq<Option<Member>>, key: Seq<char>) -> bool {
    space_members(m, key, m.len()).len() >= 2 && space_parent(m, key, m.len()) is Some
}

/// Space `i` is a checkout that belongs to a group.
pub open spec fn in_group(m: Seq<Option<Member>>, i: int) -> bool {
    0 <= i < m.len() && m[i] is Some && is_grouped(m, m[i]->0.key)
}

/// No space before `i` is a checkout of the same repository.
pub open spec fn is_first(m: Seq<Option<Member>>, i: int) -> bool {
    forall|j: int| 0 <= j < i ==> !#[trigger] in_space(m, j, m[i]->0.key)
}

/// The entry of space `i`.
pub open spec fn entry(i: int, indented: bool) -> WorkspaceListEntry {
    WorkspaceListEntry::Workspace { ws_idx: i as usize, indented }
}

/// The indented entries of `spaces`, leaving out `parent`.
pub open spec fn children(spaces: Seq<int>, parent: int) -> Seq<WorkspaceListEntry>
    decreases spaces.len(),
{
    if spaces.len() == 0 {
        Seq::empty()
    } else if spaces.last() == parent {
        children(spaces.drop_last(), parent)
    } else {
        children(spaces.drop_last(), parent).push(entry(spaces.last(), true))
    }
}

/// The entries of the group of `key`: its parent, then the others; of a
/// collapsed group only the space `shown`, if it is one of the others.
pub open spec fn group_entries(
    m: Seq<Option<Member>>,
    key: Seq<char>,
    collapsed: bool,
    shown: Option<usize>,
) -> Seq<WorkspaceListEntry> {
    let parent = space_parent(m, key, m.len())->0;
    let head = seq![entry(parent, false)];
    if !collapsed {
        head + children(space_members(m, key, m.len()), parent)
    } else if shown is Some && shown->0 != parent && in_space(m, shown->0 as int, key) {
        head.push(entry(shown->0 as int, true))
    } else {
        head
    }
}

/// The entries that stand where space `i` stands: itself, or its group where it
/// is the first of it.
pub open spec fn entries_at(
    m: Seq<Option<Member>>,
    i: int,
    collapsed: Set<Seq<char>>,
    shown: Option<usize>,
) -> Seq<WorkspaceListEntry> {
    if !in_group(m, i) {
        seq![entry(i, false)]
    } else if is_first(m, i) {
        group_entries(m, m[i]->0.key, collapsed.contains(m[i]->0.key), shown)
    } else {
        Seq::empty()
    }
}

/// The entries of the first `n` spaces.
pub open spec fn list_entries(
    m: Seq<Option<Member>>,
    n: nat,
    collapsed: Set<Seq<char>>,
    shown: Option<usize>,
) -> Seq<WorkspaceListEntry>
    decreases n,
{
    if n == 0 {
        Seq::empty()
    } else {
        list_entries(m, (n - 1) as nat, collapsed, shown) + entries_at(m, n - 1, collapsed, shown)
    }
}

/// The repositories whose groups are collapsed.
pub open spec fn collapsed_keys(keys: Seq<String>) -> Set<Seq<char>> {
    Set::new(|key: Seq<char>| text::holds_text(keys, key))
}

/// The space that stays visible in a collapsed group: the selected one while
/// navigating, else the active one.
pub open spec fn shown_space(app: AppState) -> Option<usize> {
    if app.mode is Navigate {
        Some(app.selected)
    } else {
        app.active
    }
}

/// The entries of the space list; `expanded` opens every group.
pub open spec fn workspace_entries(app: AppState, expanded: bool) -> Seq<WorkspaceListEntry> {
    let m = members_of(app.workspaces@);
    list_entries(
        m,
        m.len(),
        if expanded {
            Set::empty()
        } else {
            collapsed_keys(app.collapsed_space_keys@)
        },
        shown_space(app),
    )
}

/// The positions in `indices` as numbers.
pub open spec fn ints(indices: Seq<usize>) -> Seq<int> {
    indices.map_values(|i: usize| i as int)
}

fn workspace_in_space(ws: &Workspace, key: &str) -> (found: bool)
    ensures
        found == (member_of(*ws) is Some && member_of(*ws)->0.key == key@),
{
    match &ws.worktree_space {
        Some(space) => str_eq(space.key.as_str(), key),
        None => false,
    }
}

fn space_member_indices(workspaces: &Vec<Workspace>, key: &str) -> (out: Vec<usize>)
    ensures
        ints(out@) == space_members(members_of(workspaces@), key@, workspaces@.len()),
{
    let ghost m = members_of(workspaces@);
    let mut out: Vec<usize> = Vec::new();
    let mut i: usize = 0;
    assert(ints(out@) =~= space_members(m, key@, 0));
    while i < workspaces.len()
        invariant
            i <= workspaces@.len(),
            m == members_of(workspaces@),
            ints(out@) == space_members(m, key@, i as nat),
        decreases workspaces@.len() - i,
    {
        if workspace_in_space(&workspaces[i], key) {
            out.push(i);
        }
        i = i + 1;
        assert(ints(out@) =~= space_members(m, key@, i as nat));
    }
    out
}

fn space_parent_index(workspaces: &Vec<Workspace>, key: &str) -> (out: Option<usize>)
    ensures
        match out {
            Some(i) => space_parent(members_of(workspaces@), key@, workspaces@.len()) == Some(
                i as int,
            ) && i < workspaces@.len(),
            None => space_parent(members_of(workspaces@), key@, workspaces@.len()) is None,
        },
{
    let ghost m = members_of(workspaces@);
    let mut i: usize = 0;
    while i < workspaces.len()
        invariant
            i <= workspaces@.len(),
            m == members_of(workspaces@),
            space_parent(m, key@, i as nat) is None,
        decreases workspaces@.len() - i,
    {
        let found = match &workspaces[i].worktree_space {
            Some(space) => !space.is_linked_worktree && str_eq(space.key.as_str(), key),
            None => false,
        };
        if found {
            proof {
                lemma_parent_stays(m, key@, (i + 1) as nat, m.len());
            }
            return Some(i);
        }
        i = i + 1;
    }
    None
}

proof fn lemma_parent_stays(m: Seq<Option<Member>>, key: Seq<char>, n: nat, k: nat)
    requires
        n <= k,
        space_parent(m, key, n) is Some,
    ensures
        space_parent(m, key, k) == space_parent(m, key, n),
    decreases k - n,
{
    if n < k {
        lemma_parent_stays(m, key, n, (k - 1) as nat);
    }
}

/// The entries of the space list, with groups collapsed as the user left them.
pub fn workspace_list_entries(app: &AppState) -> (out: Vec<WorkspaceListEntry>)
    ensures
        out@ == workspace_entries(*app, false),
{
    workspace_list_entries_inner(app, false)
}

/// Like [`workspace_list_entries`], but with every group open. The mobile
/// switcher cannot collapse a group and always shows the full tree.
pub fn workspace_list_entries_expanded(app: &AppState) -> (out: Vec<WorkspaceListEntry>)
    ensures
        out@ == workspace_entries(*app, true),
{
    workspace_list_entries_inner(app, true)
}

fn push_group(
    entries: &mut Vec<WorkspaceListEntry>,
    workspaces: &Vec<Workspace>,
    key: &str,
    members: &Vec<usize>,
    parent: usize,
    collapsed: bool,
    shown: Option<usize>,
)
    requires
        ints(members@) == space_members(members_of(workspaces@), key@, workspaces@.len()),
        space_parent(members_of(workspaces@), key@, workspaces@.len()) == Some(parent as int),
    ensures
        final(entries)@ == old(entries)@ + group_entries(
            members_of(workspaces@),
            key@,
            collapsed,
            shown,
        ),
{
    let ghost m = members_of(workspaces@);
    let ghost before = entries@;
    entries.push(WorkspaceListEntry::Workspace { ws_idx: parent, indented: false });
    if collapsed {
        if let Some(idx) = shown {
            if idx != parent && idx < workspaces.len() && workspace_in_space(
                &workspaces[idx],
                key,
            ) {
                entries.push(WorkspaceListEntry::Workspace { ws_idx: idx, indented: true });
            }
        }
    } else {
        let ghost head = entries@;
        let mut k: usize = 0;
        assert(ints(members@).take(0) =~= Seq::<int>::empty());
        assert(entries@ =~= head + children(ints(members@).take(0), parent as int));
        while k < members.len()
            invariant
                k <= members@.len(),
                entries@ == head + children(ints(members@).take(k as int), parent as int),
            decreases members@.len() - k,
        {
            let idx: usize = members[k];
            if idx != parent {
                entries.push(WorkspaceListEntry::Workspace { ws_idx: idx, indented: true });
            }
            proof {
                let now = ints(members@).take(k + 1);
                assert(now.drop_last() =~= ints(members@).take(k as int));
                assert(now.last() == idx as int);
            }
            k = k + 1;
            assert(entries@ =~= head + children(ints(members@).take(k as int), parent as int));
        }
        assert(ints(members@).take(members@.len() as int) =~= ints(members@));
    }
    assert(entries@ =~= before + group_entries(m, key@, collapsed, shown));
}

fn workspace_list_entries_inner(app: &AppState, force_expanded: bool) -> (out: Vec<
    WorkspaceListEntry,
>)
    ensures
        out@ == workspace_entries(*app, force_expanded),
{
    let shown: Option<usize> = match app.mode {
        Mode::Navigate => Some(app.selected),
        _ => app.active,
    };
    let ghost m = members_of(app.workspaces@);
    let ghost collapsed = if force_expanded {
        Set::empty()
    } else {
        collapsed_keys(app.collapsed_space_keys@)
    };
    let mut entries: Vec<WorkspaceListEntry> = Vec::new();
    let mut i: usize = 0;
    while i < app.workspaces.len()
        invariant
            i <= app.workspaces@.len(),
            m == members_of(app.workspaces@),
            shown == shown_space(*app),
            collapsed == if force_expanded {
                Set::empty()
            } else {
                collapsed_keys(app.collapsed_space_keys@)
            },
            entries@ == list_entries(m, i as nat, collapsed, shown),
        decreases app.workspaces@.len() - i,
    {
        let ghost before = entries@;
        let mut listed = false;
        if let Some(space) = &app.workspaces[i].worktree_space {
            let key: &str = space.key.as_str();
            let members: Vec<usize> = space_member_indices(&app.workspaces, key);
            proof {
                lemma_first_member(m, key@, i as int);
                assert(ints(members@).len() == members@.len());
            }
            if members.len() >= 2 {
                if let Some(parent) = space_parent_index(&app.workspaces, key) {
                    listed = true;
                    assert(ints(members@)[0] == members@[0] as int);
                    if members[0] == i {
                        let hidden = !force_expanded && any_is(&app.collapsed_space_keys, key);
                        push_group(
                            &mut entries,
                            &app.workspaces,
                            key,
                            &members,
                            parent,
                            hidden,
                            shown,
                        );
                    }
                }
            }
        }
        if !listed {
            entries.push(WorkspaceListEntry::Workspace { ws_idx: i, indented: false });
        }
        assert(entries@ =~= before + entries_at(m, i as int, collapsed, shown));
        i = i + 1;
    }
    entries
}

/// The members of a group are its spaces, in order; the first of them is the
/// one that no other comes before.
proof fn lemma_members(m: Seq<Option<Member>>, key: Seq<char>, n: nat)
    requires
        n <= m.len(),
    ensures
        forall|k: int|
            0 <= k < space_members(m, key, n).len() ==> in_space(
                m,
                #[trigger] space_members(m, key, n)[k],
                key,
            ) && space_members(m, key, n)[k] < n,
        forall|j: int, k: int|
            0 <= j < k < space_members(m, key, n).len() ==> #[trigger] space_members(m, key, n)[j]
                < #[trigger] space_members(m, key, n)[k],
        forall|i: int|
            0 <= i < n && in_space(m, i, key) ==> #[trigger] space_members(m, key, n).contains(i),
    decreases n,
{
    if n > 0 {
        let before = space_members(m, key, (n - 1) as nat);
        let now = space_members(m, key, n);
        lemma_members(m, key, (n - 1) as nat);
        assert forall|i: int| 0 <= i < n && in_space(m, i, key) implies #[trigger] now.contains(
            i,
        ) by {
            if i == n - 1 {
                assert(now[now.len() - 1] == i);
            } else {
                assert(before.contains(i));
                let k = choose|k: int| 0 <= k < before.len() && before[k] == i;
                assert(now[k] == i);
            }
        }
    }
}

proof fn lemma_first_member(m: Seq<Option<Member>>, key: Seq<char>, i: int)
    requires
        in_space(m, i, key),
    ensures
        space_members(m, key, m.len()).len() > 0,
        is_first(m, i) <==> space_members(m, key, m.len())[0] == i,
{
    let all = space_members(m, key, m.len());
    lemma_members(m, key, m.len());
    assert(all.contains(i));
    if is_first(m, i) {
        assert(in_space(m, all[0], key));
    }
    if all[0] == i {
        assert forall|j: int| 0 <= j < i implies !#[trigger] in_space(m, j, m[i]->0.key) by {
            if in_space(m, j, key) {
                assert(all.contains(j));
            }
        }
    }
}

/// The first space of the group of space `i`; `i` itself where it has no group.
spec fn lead(m: Seq<Option<Member>>, i: int) -> int {
    if in_group(m, i) {
        space_members(m, m[i]->0.key, m.len())[0]
    } else {
        i
    }
}

spec fn increasing(spaces: Seq<int>) -> bool {
    &&& forall|j: int, k: int| 0 <= j < k < spaces.len() ==> spaces[j] < spaces[k]
    &&& forall|k: int| 0 <= k < spaces.len() ==> 0 <= #[trigger] spaces[k] <= usize::MAX
}

proof fn lemma_children(spaces: Seq<int>, parent: int)
    requires
        increasing(spaces),
    ensures
        forall|a: int|
            0 <= a < children(spaces, parent).len() ==> spaces.contains(
                (#[trigger] children(spaces, parent)[a]).idx(),
            ) && children(spaces, parent)[a].idx() != parent && children(
                spaces,
                parent,
            )[a]->indented,
        forall|a: int, b: int|
            0 <= a < b < children(spaces, parent).len() ==> (#[trigger] children(
                spaces,
                parent,
            )[a]).idx() < (#[trigger] children(spaces, parent)[b]).idx(),
        forall|k: int|
            0 <= k < spaces.len() && #[trigger] spaces[k] != parent ==> lists(
                children(spaces, parent),
                spaces[k],
            ),
    decreases spaces.len(),
{
    if spaces.len() > 0 {
        let rest = spaces.drop_last();
        let before = children(rest, parent);
        let now = children(spaces, parent);
        assert(increasing(rest)) by {
            assert forall|k: int| 0 <= k < rest.len() implies 0 <= #[trigger] rest[k]
                <= usize::MAX by {
                assert(rest[k] == spaces[k]);
            }
        }
        lemma_children(rest, parent);
        assert forall|a: int| 0 <= a < now.len() implies spaces.contains((#[trigger] now[a]).idx())
            && now[a].idx() != parent && now[a]->indented by {
            if a < before.len() {
                assert(now[a] == before[a]);
                let k = choose|k: int| 0 <= k < rest.len() && rest[k] == before[a].idx();
                assert(spaces[k] == before[a].idx());
            } else {
                assert(spaces[spaces.len() - 1] == now[a].idx());
            }
        }
        assert forall|a: int, b: int| 0 <= a < b < now.len() implies (#[trigger] now[a]).idx() < (
        #[trigger] now[b]).idx() by {
            if b < before.len() {
                assert(before[a].idx() < before[b].idx());
            } else {
                assert(rest.contains(before[a].idx()));
                let k = choose|k: int| 0 <= k < rest.len() && rest[k] == before[a].idx();
                assert(spaces[k] < spaces[spaces.len() - 1]);
            }
        }
        assert forall|k: int| 0 <= k < spaces.len() && #[trigger] spaces[k] != parent implies lists(
            now,
            spaces[k],
        ) by {
            if k < rest.len() {
                assert(rest[k] == spaces[k]);
                let a = choose|a: int| 0 <= a < before.len() && (#[trigger] before[a]).idx()
                    == rest[k];
                assert(now[a].idx() == spaces[k]);
            } else {
                assert(now[now.len() - 1].idx() == spaces[k]);
            }
        }
    }
}

/// `entries` lists space `i`.
pub open spec fn lists(entries: Seq<WorkspaceListEntry>, i: int) -> bool {
    exists|a: int| 0 <= a < entries.len() && (#[trigger] entries[a]).idx() == i
}

/// No space occurs in two entries.
pub open spec fn lists_once(entries: Seq<WorkspaceListEntry>) -> bool {
    forall|a: int, b: int|
        0 <= a < b < entries.len() ==> (#[trigger] entries[a]).idx() != (
        #[trigger] entries[b]).idx()
}

proof fn lemma_space_parent(m: Seq<Option<Member>>, key: Seq<char>, n: nat)
    requires
        n <= m.len(),
    ensures
        match space_parent(m, key, n) {
            Some(p) => 0 <= p < n && can_head(m, p, key) && forall|j: int|
                0 <= j < p ==> !#[trigger] can_head(m, j, key),
            None => forall|j: int| 0 <= j < n ==> !#[trigger] can_head(m, j, key),
        },
    decreases n,
{
    if n > 0 {
        lemma_space_parent(m, key, (n - 1) as nat);
    }
}

proof fn lemma_entries_at(
    m: Seq<Option<Member>>,
    i: int,
    collapsed: Set<Seq<char>>,
    shown: Option<usize>,
)
    requires
        0 <= i < m.len() <= usize::MAX,
    ensures
        forall|a: int|
            0 <= a < entries_at(m, i, collapsed, shown).len() ==> 0 <= (#[trigger] entries_at(
                m,
                i,
                collapsed,
                shown,
            )[a]).idx() < m.len() && lead(m, entries_at(m, i, collapsed, shown)[a].idx()) == i,
        lists_once(entries_at(m, i, collapsed, shown)),
{
    let block = entries_at(m, i, collapsed, shown);
    if in_group(m, i) {
        let key = m[i]->0.key;
        let all = space_members(m, key, m.len());
        let parent = space_parent(m, key, m.len())->0;
        lemma_members(m, key, m.len());
        lemma_space_parent(m, key, m.len());
        lemma_first_member(m, key, i);
        assert(increasing(all)) by {
            assert forall|k: int| 0 <= k < all.len() implies 0 <= #[trigger] all[k]
                <= usize::MAX by {
                assert(in_space(m, all[k], key));
            }
        }
        if is_first(m, i) {
            lemma_children(all, parent);
            let kids = children(all, parent);
            assert forall|a: int| 0 <= a < block.len() implies 0 <= (#[trigger] block[a]).idx()
                < m.len() && lead(m, block[a].idx()) == i by {
                if a > 0 && !collapsed.contains(key) {
                    assert(block[a] == kids[a - 1]);
                    assert(all.contains(kids[a - 1].idx()));
                    let k = choose|k: int| 0 <= k < all.len() && all[k] == kids[a - 1].idx();
                    assert(in_space(m, all[k], key));
                }
                assert(in_space(m, block[a].idx(), key));
            }
            assert forall|a: int, b: int| 0 <= a < b < block.len() implies (
            #[trigger] block[a]).idx() != (#[trigger] block[b]).idx() by {
                if !collapsed.contains(key) {
                    assert(block[b] == kids[b - 1]);
                    if a > 0 {
                        assert(block[a] == kids[a - 1]);
                    }
                }
            }
        }
    }
}

proof fn lemma_list_entries(
    m: Seq<Option<Member>>,
    n: nat,
    collapsed: Set<Seq<char>>,
    shown: Option<usize>,
)
    requires
        n <= m.len() <= usize::MAX,
    ensures
        forall|a: int|
            0 <= a < list_entries(m, n, collapsed, shown).len() ==> 0 <= (#[trigger] list_entries(
                m,
                n,
                collapsed,
                shown,
            )[a]).idx() < m.len() && lead(m, list_entries(m, n, collapsed, shown)[a].idx()) < n,
        lists_once(list_entries(m, n, collapsed, shown)),
    decreases n,
{
    if n > 0 {
        lemma_list_entries(m, (n - 1) as nat, collapsed, shown);
        lemma_entries_at(m, n - 1, collapsed, shown);
        let before = list_entries(m, (n - 1) as nat, collapsed, shown);
        let block = entries_at(m, n - 1, collapsed, shown);
        let now = list_entries(m, n, collapsed, shown);
        assert forall|a: int| 0 <= a < now.len() implies 0 <= (#[trigger] now[a]).idx() < m.len()
            && lead(m, now[a].idx()) < n by {
            if a < before.len() {
                assert(now[a] == before[a]);
            } else {
                assert(now[a] == block[a - before.len()]);
            }
        }
        assert forall|a: int, b: int| 0 <= a < b < now.len() implies (#[trigger] now[a]).idx() != (
        #[trigger] now[b]).idx() by {
            if b < before.len() {
                assert(now[a] == before[a] && now[b] == before[b]);
            } else if a < before.len() {
                assert(now[a] == before[a] && now[b] == block[b - before.len()]);
            } else {
                assert(now[a] == block[a - before.len()] && now[b] == block[b - before.len()]);
            }
        }
    }
}

proof fn lemma_block_listed(
    m: Seq<Option<Member>>,
    n: nat,
    collapsed: Set<Seq<char>>,
    shown: Option<usize>,
    i: int,
    idx: int,
)
    requires
        0 <= i < n,
        lists(entries_at(m, i, collapsed, shown), idx),
    ensures
        lists(list_entries(m, n, collapsed, shown), idx),
    decreases n,
{
    let before = list_entries(m, (n - 1) as nat, collapsed, shown);
    let block = entries_at(m, n - 1, collapsed, shown);
    let now = list_entries(m, n, collapsed, shown);
    if i == n - 1 {
        let a = choose|a: int| 0 <= a < block.len() && (#[trigger] block[a]).idx() == idx;
        assert(now[before.len() + a].idx() == idx);
    } else {
        lemma_block_listed(m, (n - 1) as nat, collapsed, shown, i, idx);
        let a = choose|a: int| 0 <= a < before.len() && (#[trigger] before[a]).idx() == idx;
        assert(now[a].idx() == idx);
    }
}

/// The list shows no space twice, and nothing that is no space.
pub proof fn law_no_space_is_listed_twice(app: AppState, expanded: bool)
    ensures
        lists_once(workspace_entries(app, expanded)),
        forall|a: int|
            0 <= a < workspace_entries(app, expanded).len() ==> 0 <= (#[trigger] workspace_entries(
                app,
                expanded,
            )[a]).idx() < app.workspaces@.len(),
{
    let m = members_of(app.workspaces@);
    assert(app.workspaces.len() == app.workspaces@.len());
    lemma_list_entries(
        m,
        m.len(),
        if expanded {
            Set::empty()
        } else {
            collapsed_keys(app.collapsed_space_keys@)
        },
        shown_space(app),
    );
}

/// Only a collapsed group hides a space: every other space is listed.
pub proof fn law_only_collapsed_groups_hide_spaces(app: AppState, i: int)
    requires
        0 <= i < app.workspaces@.len(),
        in_group(members_of(app.workspaces@), i) ==> !collapsed_keys(
            app.collapsed_space_keys@,
        ).contains(members_of(app.workspaces@)[i]->0.key),
    ensures
        lists(workspace_entries(app, false), i),
{
    assert(app.workspaces.len() == app.workspaces@.len());
    lemma_open_listed(
        members_of(app.workspaces@),
        collapsed_keys(app.collapsed_space_keys@),
        shown_space(app),
        i,
    );
}

/// The expanded list shows every space, whatever is collapsed.
pub proof fn law_expanded_list_shows_every_space(app: AppState, i: int)
    requires
        0 <= i < app.workspaces@.len(),
    ensures
        lists(workspace_entries(app, true), i),
{
    assert(app.workspaces.len() == app.workspaces@.len());
    lemma_open_listed(members_of(app.workspaces@), Set::empty(), shown_space(app), i);
}

/// A collapsed group still lists its parent and the space that stays visible.
pub proof fn law_collapsed_group_keeps_parent_and_shown(app: AppState, i: int)
    requires
        in_group(members_of(app.workspaces@), i),
        ({
            let m = members_of(app.workspaces@);
            ||| space_parent(m, m[i]->0.key, m.len()) == Some(i)
            ||| shown_space(app) is Some && shown_space(app)->0 == i
        }),
    ensures
        lists(workspace_entries(app, false), i),
{
    let m = members_of(app.workspaces@);
    let key = m[i]->0.key;
    let collapsed = collapsed_keys(app.collapsed_space_keys@);
    assert(app.workspaces.len() == app.workspaces@.len());
    if !collapsed.contains(key) {
        law_only_collapsed_groups_hide_spaces(app, i);
    } else {
        let all = space_members(m, key, m.len());
        lemma_members(m, key, m.len());
        let first = all[0];
        assert(in_space(m, first, key));
        lemma_first_member(m, key, first);
        let block = entries_at(m, first, collapsed, shown_space(app));
        if space_parent(m, key, m.len()) == Some(i) {
            assert(block[0].idx() == i);
        } else {
            assert(block[1].idx() == i);
        }
        lemma_block_listed(m, m.len(), collapsed, shown_space(app), first, i);
    }
}

proof fn lemma_open_listed(
    m: Seq<Option<Member>>,
    collapsed: Set<Seq<char>>,
    shown: Option<usize>,
    i: int,
)
    requires
        0 <= i < m.len() <= usize::MAX,
        in_group(m, i) ==> !collapsed.contains(m[i]->0.key),
    ensures
        lists(list_entries(m, m.len(), collapsed, shown), i),
{
    if in_group(m, i) {
        let key = m[i]->0.key;
        let all = space_members(m, key, m.len());
        let parent = space_parent(m, key, m.len())->0;
        lemma_members(m, key, m.len());
        assert(all.contains(i));
        let first = all[0];
        assert(in_space(m, first, key));
        lemma_first_member(m, key, first);
        assert(increasing(all)) by {
            assert forall|k: int| 0 <= k < all.len() implies 0 <= #[trigger] all[k]
                <= usize::MAX by {
                assert(in_space(m, all[k], key));
            }
        }
        lemma_children(all, parent);
        let block = entries_at(m, first, collapsed, shown);
        let kids = children(all, parent);
        if i == parent {
            assert(block[0].idx() == i);
        } else {
            let k = choose|k: int| 0 <= k < all.len() && all[k] == i;
            assert(lists(kids, all[k]));
            let a = choose|a: int| 0 <= a < kids.len() && (#[trigger] kids[a]).idx() == i;
            assert(block[a + 1].idx() == i);
        }
        lemma_block_listed(m, m.len(), collapsed, shown, first, i);
    } else {
        assert(entries_at(m, i, collapsed, shown)[0].idx() == i);
        lemma_block_listed(m, m.len(), collapsed, shown, i, i);
    }
}

/// The entries from `p` to `k` are one group: the space that heads it, then
/// indented spaces of the same repository.
pub open spec fn heads(
    m: Seq<Option<Member>>,
    entries: Seq<WorkspaceListEntry>,
    p: int,
    k: int,
) -> bool {
    &&& 0 <= p < k < entries.len()
    &&& m[entries[p].idx()] is Some
    &&& can_head(m, entries[p].idx(), m[entries[p].idx()]->0.key)
    &&& !entries[p]->indented
    &&& forall|q: int|
        p < q <= k ==> (#[trigger] entries[q])->indented && in_space(
            m,
            entries[q].idx(),
            m[entries[p].idx()]->0.key,
        )
}

proof fn lemma_heads(
    m: Seq<Option<Member>>,
    n: nat,
    collapsed: Set<Seq<char>>,
    shown: Option<usize>,
    k: int,
)
    requires
        n <= m.len() <= usize::MAX,
        0 <= k < list_entries(m, n, collapsed, shown).len(),
        list_entries(m, n, collapsed, shown)[k]->indented,
    ensures
        exists|p: int| heads(m, list_entries(m, n, collapsed, shown), p, k),
    decreases n,
{
    let before = list_entries(m, (n - 1) as nat, collapsed, shown);
    let block = entries_at(m, n - 1, collapsed, shown);
    let now = list_entries(m, n, collapsed, shown);
    if k < before.len() {
        assert(now[k] == before[k]);
        lemma_heads(m, (n - 1) as nat, collapsed, shown, k);
        let p = choose|p: int| heads(m, before, p, k);
        assert(now[p] == before[p]);
        assert forall|q: int| p < q <= k implies (#[trigger] now[q])->indented && in_space(
            m,
            now[q].idx(),
            m[now[p].idx()]->0.key,
        ) by {
            assert(now[q] == before[q]);
        }
        assert(heads(m, now, p, k));
    } else {
        let p = before.len() as int;
        let i = n - 1;
        let key = m[i]->0.key;
        let all = space_members(m, key, m.len());
        let parent = space_parent(m, key, m.len())->0;
        let kids = children(all, parent);
        assert(now[k] == block[k - p]);
        lemma_members(m, key, m.len());
        lemma_space_parent(m, key, m.len());
        assert(increasing(all)) by {
            assert forall|j: int| 0 <= j < all.len() implies 0 <= #[trigger] all[j]
                <= usize::MAX by {
                assert(in_space(m, all[j], key));
            }
        }
        lemma_children(all, parent);
        assert(now[p] == block[0]);
        assert forall|q: int| p < q <= k implies (#[trigger] now[q])->indented && in_space(
            m,
            now[q].idx(),
            key,
        ) by {
            assert(now[q] == block[q - p]);
            if !collapsed.contains(key) {
                assert(block[q - p] == kids[q - p - 1]);
                assert(all.contains(kids[q - p - 1].idx()));
                let j = choose|j: int| 0 <= j < all.len() && all[j] == kids[q - p - 1].idx();
                assert(in_space(m, all[j], key));
            }
        }
        assert(heads(m, now, p, k));
    }
}

/// An indented entry stands below the parent of its group, with nothing but
/// spaces of that group between them.
pub proof fn law_indented_entries_follow_their_parent(app: AppState, expanded: bool, k: int)
    requires
        0 <= k < workspace_entries(app, expanded).len(),
        workspace_entries(app, expanded)[k]->indented,
    ensures
        exists|p: int| heads(members_of(app.workspaces@), workspace_entries(app, expanded), p, k),
{
    let m = members_of(app.workspaces@);
    assert(app.workspaces.len() == app.workspaces@.len());
    lemma_heads(
        m,
        m.len(),
        if expanded {
            Set::empty()
        } else {
            collapsed_keys(app.collapsed_space_keys@)
        },
        shown_space(app),
        k,
    );
}

proof fn lemma_open_ignores_shown(
    m: Seq<Option<Member>>,
    n: nat,
    one: Option<usize>,
    other: Option<usize>,
)
    ensures
        list_entries(m, n, Set::empty(), one) == list_entries(m, n, Set::empty(), other),
    decreases n,
{
    if n > 0 {
        lemma_open_ignores_shown(m, (n - 1) as nat, one, other);
    }
}

/// The expanded list depends on the spaces alone: neither the mode, the selected
/// or active space, nor what is collapsed changes it.
pub proof fn law_the_expanded_list_depends_on_the_spaces_alone(app: AppState, other: AppState)
    requires
        app.workspaces == other.workspaces,
    ensures
        workspace_entries(app, true) == workspace_entries(other, true),
{
    let m = members_of(app.workspaces@);
    lemma_open_ignores_shown(m, m.len(), shown_space(app), shown_space(other));
}

/// A space has a second checkout beside it where there are two of its key.
pub proof fn lemma_members_of_key(m: Seq<Option<Member>>, key: Seq<char>, n: nat, i: int)
    requires
        0 <= i < n <= m.len(),
        in_space(m, i, key),
    ensures
        space_members(m, key, n).len() >= 2 <==> exists|j: int|
            0 <= j < n && j != i && (#[trigger] m[j]) is Some && m[j]->0.key == key,
{
    lemma_members(m, key, n);
    let all = space_members(m, key, n);
    assert(all.contains(i));
    let at = choose|at: int| 0 <= at < all.len() && all[at] == i;
    if all.len() >= 2 {
        let other: int = if at == 0 {
            1
        } else {
            0
        };
        let j = all[other];
        assert(in_space(m, j, key));
        assert(m[j] is Some && m[j]->0.key == key);
    }
    if exists|j: int| 0 <= j < n && j != i && (#[trigger] m[j]) is Some && m[j]->0.key == key {
        let j = choose|j: int|
            0 <= j < n && j != i && (#[trigger] m[j]) is Some && m[j]->0.key == key;
        assert(in_space(m, j, key));
        assert(all.contains(j));
        let there = choose|there: int| 0 <= there < all.len() && all[there] == j;
        assert(there != at);
    }
}

/// Spaces `i` and `j` are listed together: they are the same, or of one group.
pub open spec fn together(m: Seq<Option<Member>>, i: int, j: int) -> bool {
    i == j || (in_group(m, i) && in_group(m, j) && m[i]->0.key == m[j]->0.key)
}

/// The entry says how its space is listed: indented below the parent of its
/// group, and of a collapsed group only as the space that stays visible.
pub open spec fn is_listed_right(
    m: Seq<Option<Member>>,
    collapsed: Set<Seq<char>>,
    shown: Option<usize>,
    e: WorkspaceListEntry,
) -> bool {
    let i = e.idx();
    &&& !in_group(m, i) ==> !e->indented
    &&& in_group(m, i) ==> {
        let key = m[i]->0.key;
        &&& !e->indented <==> can_head(m, i, key) && forall|j: int|
            0 <= j < i ==> !#[trigger] can_head(m, j, key)
        &&& e->indented && collapsed.contains(key) ==> shown == Some(e->ws_idx)
    }
}

proof fn lemma_block(
    m: Seq<Option<Member>>,
    i: int,
    collapsed: Set<Seq<char>>,
    shown: Option<usize>,
)
    requires
        0 <= i < m.len() <= usize::MAX,
    ensures
        forall|a: int|
            0 <= a < entries_at(m, i, collapsed, shown).len() ==> is_listed_right(
                m,
                collapsed,
                shown,
                #[trigger] entries_at(m, i, collapsed, shown)[a],
            ) && (a > 0 <==> entries_at(m, i, collapsed, shown)[a]->indented),
        forall|a: int, b: int|
            0 < a < b < entries_at(m, i, collapsed, shown).len() ==> (#[trigger] entries_at(
                m,
                i,
                collapsed,
                shown,
            )[a]).idx() < (#[trigger] entries_at(m, i, collapsed, shown)[b]).idx(),
{
    let block = entries_at(m, i, collapsed, shown);
    if in_group(m, i) {
        let key = m[i]->0.key;
        let all = space_members(m, key, m.len());
        let parent = space_parent(m, key, m.len())->0;
        lemma_members(m, key, m.len());
        lemma_space_parent(m, key, m.len());
        assert(increasing(all)) by {
            assert forall|k: int| 0 <= k < all.len() implies 0 <= #[trigger] all[k]
                <= usize::MAX by {
                assert(in_space(m, all[k], key));
            }
        }
        lemma_children(all, parent);
        let kids = children(all, parent);
        if is_first(m, i) {
            assert forall|a: int| 0 <= a < block.len() implies is_listed_right(
                m,
                collapsed,
                shown,
                #[trigger] block[a],
            ) && (a > 0 <==> block[a]->indented) by {
                if a > 0 && !collapsed.contains(key) {
                    assert(block[a] == kids[a - 1]);
                    assert(all.contains(kids[a - 1].idx()));
                    let k = choose|k: int| 0 <= k < all.len() && all[k] == kids[a - 1].idx();
                    assert(in_space(m, all[k], key));
                }
                assert(in_space(m, block[a].idx(), key));
                if a > 0 {
                    assert(block[a].idx() != parent);
                    if can_head(m, block[a].idx(), key) {
                        assert(can_head(m, parent, key));
                        assert(parent < block[a].idx());
                    }
                }
            }
            assert forall|a: int, b: int| 0 < a < b < block.len() implies (
            #[trigger] block[a]).idx() < (#[trigger] block[b]).idx() by {
                assert(!collapsed.contains(key));
                assert(block[a] == kids[a - 1] && block[b] == kids[b - 1]);
            }
        }
    }
}

proof fn lemma_lead(m: Seq<Option<Member>>, i: int)
    requires
        0 <= i < m.len(),
    ensures
        together(m, i, lead(m, i)),
        forall|k: int| #[trigger] together(m, i, k) ==> lead(m, i) <= k && lead(m, k) == lead(m, i),
{
    if in_group(m, i) {
        let key = m[i]->0.key;
        let all = space_members(m, key, m.len());
        lemma_members(m, key, m.len());
        assert(all.contains(i));
        assert(in_space(m, all[0], key));
        assert forall|k: int| #[trigger] together(m, i, k) implies lead(m, i) <= k && lead(m, k)
            == lead(m, i) by {
            assert(in_space(m, k, key));
            assert(all.contains(k));
            let at = choose|at: int| 0 <= at < all.len() && all[at] == k;
            if at > 0 {
                assert(all[0] < all[at]);
            }
        }
    }
}

#[verifier::spinoff_prover]
#[verifier::rlimit(30)]
proof fn lemma_order(
    m: Seq<Option<Member>>,
    n: nat,
    collapsed: Set<Seq<char>>,
    shown: Option<usize>,
)
    requires
        n <= m.len() <= usize::MAX,
    ensures
        ({
            let list = list_entries(m, n, collapsed, shown);
            &&& forall|a: int|
                0 <= a < list.len() ==> is_listed_right(m, collapsed, shown, #[trigger] list[a])
            &&& forall|a: int, b: int|
                0 <= a < b < list.len() ==> {
                    let (one, other) = (#[trigger] list[a], #[trigger] list[b]);
                    &&& lead(m, one.idx()) <= lead(m, other.idx())
                    &&& lead(m, one.idx()) == lead(m, other.idx()) ==> other->indented && (
                    one->indented ==> one.idx() < other.idx())
                }
        }),
    decreases n,
{
    if n > 0 {
        lemma_order(m, (n - 1) as nat, collapsed, shown);
        lemma_list_entries(m, (n - 1) as nat, collapsed, shown);
        lemma_entries_at(m, n - 1, collapsed, shown);
        lemma_block(m, n - 1, collapsed, shown);
        let before = list_entries(m, (n - 1) as nat, collapsed, shown);
        let block = entries_at(m, n - 1, collapsed, shown);
        let list = list_entries(m, n, collapsed, shown);
        assert forall|a: int| 0 <= a < list.len() implies is_listed_right(
            m,
            collapsed,
            shown,
            #[trigger] list[a],
        ) by {
            if a < before.len() {
                assert(list[a] == before[a]);
            } else {
                assert(list[a] == block[a - before.len()]);
            }
        }
        assert forall|a: int, b: int| 0 <= a < b < list.len() implies {
            let (one, other) = (#[trigger] list[a], #[trigger] list[b]);
            &&& lead(m, one.idx()) <= lead(m, other.idx())
            &&& lead(m, one.idx()) == lead(m, other.idx()) ==> other->indented && (one->indented
                ==> one.idx() < other.idx())
        } by {
            if b < before.len() {
                assert(list[a] == before[a] && list[b] == before[b]);
            } else if a < before.len() {
                assert(list[a] == before[a] && list[b] == block[b - before.len()]);
            } else {
                assert(list[a] == block[a - before.len()] && list[b] == block[b - before.len()]);
            }
        }
    }
}

/// The spaces are listed in their order. A group stands where the first of its
/// spaces would: its parent, and then the others in their order.
pub proof fn law_the_list_keeps_the_order_of_the_spaces(
    app: AppState,
    expanded: bool,
    a: int,
    b: int,
)
    requires
        0 <= a < b < workspace_entries(app, expanded).len(),
    ensures
        ({
            let m = members_of(app.workspaces@);
            let one = workspace_entries(app, expanded)[a];
            let other = workspace_entries(app, expanded)[b];
            &&& together(m, one.idx(), other.idx()) ==> other->indented && (one->indented
                ==> one.idx() < other.idx())
            &&& !together(m, one.idx(), other.idx()) ==> exists|j: int| #[trigger]
                together(m, one.idx(), j) && forall|k: int| #[trigger]
                    together(m, other.idx(), k) ==> j < k
        }),
{
    let m = members_of(app.workspaces@);
    let collapsed = if expanded {
        Set::empty()
    } else {
        collapsed_keys(app.collapsed_space_keys@)
    };
    assert(app.workspaces.len() == app.workspaces@.len());
    let list = workspace_entries(app, expanded);
    lemma_order(m, m.len(), collapsed, shown_space(app));
    lemma_list_entries(m, m.len(), collapsed, shown_space(app));
    let one = list[a];
    let other = list[b];
    lemma_lead(m, one.idx());
    lemma_lead(m, other.idx());
    if !together(m, one.idx(), other.idx()) {
        let j = lead(m, one.idx());
        if lead(m, other.idx()) == j {
            assert(together(m, one.idx(), j) && together(m, other.idx(), j));
        }
        assert(together(m, one.idx(), j));
    }
}

/// A space is indented where it has a group and is not the first of it that can
/// head it. Of a collapsed group only the space that stays visible is indented:
/// the selected one in navigation, else the one that the user is in.
#[verifier::spinoff_prover]
#[verifier::rlimit(30)]
pub proof fn law_entries_say_how_their_space_is_listed(app: AppState, expanded: bool, a: int)
    requires
        0 <= a < workspace_entries(app, expanded).len(),
    ensures
        ({
            let m = members_of(app.workspaces@);
            let e = workspace_entries(app, expanded)[a];
            let i = e.idx();
            let grouped = m[i] matches Some(me) && (exists|j: int|
                0 <= j < m.len() && j != i && (#[trigger] m[j]) is Some && m[j]->0.key == me.key)
                && (exists|j: int|
                0 <= j < m.len() && (#[trigger] m[j]) is Some && m[j]->0.key == me.key
                    && !m[j]->0.linked);
            let leads = !m[i]->0.linked && forall|j: int|
                0 <= j < i && (#[trigger] m[j]) is Some && m[j]->0.key == m[i]->0.key
                    ==> m[j]->0.linked;
            &&& 0 <= i < m.len()
            &&& e->indented <==> grouped && !leads
            &&& e->indented && !expanded && text::holds_text(
                app.collapsed_space_keys@,
                m[i]->0.key,
            ) ==> {
                &&& app.mode is Navigate ==> app.selected == i
                &&& !(app.mode is Navigate) ==> app.active == Some(e->ws_idx)
            }
        }),
{
    let m = members_of(app.workspaces@);
    let collapsed = if expanded {
        Set::empty()
    } else {
        collapsed_keys(app.collapsed_space_keys@)
    };
    assert(app.workspaces.len() == app.workspaces@.len());
    let list = workspace_entries(app, expanded);
    lemma_order(m, m.len(), collapsed, shown_space(app));
    lemma_list_entries(m, m.len(), collapsed, shown_space(app));
    let e = list[a];
    let i = e.idx();
    if m[i] is Some {
        let key = m[i]->0.key;
        lemma_members_of_key(m, key, m.len(), i);
        lemma_space_parent(m, key, m.len());
        if space_parent(m, key, m.len()) is Some {
            let p = space_parent(m, key, m.len())->0;
            assert(m[p] is Some);
        } else {
            assert forall|j: int|
                0 <= j < m.len() && (#[trigger] m[j]) is Some && m[j]->0.key == key implies
                m[j]->0.linked by {
                assert(!can_head(m, j, key));
            }
        }
        if in_group(m, i) {
            if !e->indented {
                assert forall|j: int|
                    0 <= j < i && (#[trigger] m[j]) is Some && m[j]->0.key == key implies
                    m[j]->0.linked by {
                    assert(!can_head(m, j, key));
                }
            } else {
                if can_head(m, i, key) {
                    let j = choose|j: int| 0 <= j < i && #[trigger] can_head(m, j, key);
                    assert(m[j] is Some && !m[j]->0.linked);
                }
            }
        }
    }
}

proof fn lemma_entries_count(
    m: Seq<Option<Member>>,
    n: nat,
    collapsed: Set<Seq<char>>,
    shown: Option<usize>,
)
    requires
        n <= m.len() <= usize::MAX,
    ensures
        list_entries(m, n, collapsed, shown).len() <= m.len(),
{
    lemma_list_entries(m, n, collapsed, shown);
    let list = list_entries(m, n, collapsed, shown);
    let spaces = list.map_values(|e: WorkspaceListEntry| e.idx());
    assert(spaces.no_duplicates());
    let all = vstd::set_lib::set_int_range(0, m.len() as int);
    vstd::set_lib::lemma_int_range(0, m.len() as int);
    assert(spaces.to_set().subset_of(all)) by {
        assert forall|i: int| spaces.to_set().contains(i) implies all.contains(i) by {
            let a = choose|a: int| 0 <= a < spaces.len() && spaces[a] == i;
            assert(list[a].idx() == i);
        }
    }
    spaces.unique_seq_to_set();
    vstd::set_lib::lemma_len_subset(spaces.to_set(), all);
}

/// The list has no more entries than there are spaces.
pub proof fn lemma_entries_are_few(app: AppState, expanded: bool)
    ensures
        workspace_entries(app, expanded).len() <= app.workspaces@.len() <= usize::MAX,
{
    let m = members_of(app.workspaces@);
    assert(app.workspaces.len() == app.workspaces@.len());
    lemma_entries_count(
        m,
        m.len(),
        if expanded {
            Set::empty()
        } else {
            collapsed_keys(app.collapsed_space_keys@)
        },
        shown_space(app),
    );
}

} // verus!
