//! Rows of unequal height, packed into a body that scrolls by whole items.

use vstd::prelude::*;

use crate::app::state::ScrollMetrics;
use crate::geometry;

verus! {

/// The rows that an item takes, and the empty rows behind it.
#[derive(Clone, Copy, Debug, PartialEq, Eq, Structural)]
pub struct Slot {
    pub height: u16,
    pub gap: u16,
}

/// How many items, from the `from`-th on, fit into `room` rows of which `used`
/// are taken.
pub open spec fn visible_from(slots: Seq<Slot>, room: int, from: int, used: int) -> int
    decreases slots.len() - from,
{
    if from < 0 || from >= slots.len() || used + slots[from].height > room {
        0
    } else {
        1 + visible_from(
            slots,
            room,
            from + 1,
            geometry::min(used + slots[from].height + slots[from].gap, room),
        )
    }
}

/// How many items are shown in `room` rows, scrolled by `scroll` items.
pub open spec fn visible_count(slots: Seq<Slot>, room: int, scroll: int) -> int {
    visible_from(slots, room, scroll, 0)
}

/// The first item of those that fit into `room` rows at the end, looking at the
/// items before the `n`-th with `used` rows taken.
pub open spec fn first_at_end(slots: Seq<Slot>, room: int, n: int, used: int) -> int
    decreases n,
{
    if n <= 0 {
        n
    } else {
        let slot = slots[n - 1];
        if used + slot.height + slot.gap > room {
            n
        } else {
            first_at_end(slots, room, n - 1, used + slot.height + slot.gap)
        }
    }
}

/// The item that is first when the list is scrolled to its end.
pub open spec fn bottom_start(slots: Seq<Slot>, room: int) -> int {
    geometry::min(
        first_at_end(slots, room, slots.len() as int, 0),
        geometry::less(slots.len() as int, 1),
    )
}

/// How many items are shown in `room` rows, scrolled by `scroll` items.
pub fn count_visible(slots: &Vec<Slot>, room: u16, scroll: usize) -> (out: usize)
    requires
        room < u16::MAX,
    ensures
        out == visible_count(slots@, room as int, scroll as int),
        out == 0 || scroll + out <= slots.len(),
{
    let mut used: u16 = 0;
    let mut visible: usize = 0;
    let mut at: usize = scroll;
    let ghost all = visible_count(slots@, room as int, scroll as int);
    while at < slots.len()
        invariant
            scroll <= at,
            at <= slots.len() || at == scroll,
            visible == at - scroll,
            used <= room < u16::MAX,
            visible + visible_from(slots@, room as int, at as int, used as int) == all,
            all == visible_count(slots@, room as int, scroll as int),
        decreases slots.len() - at,
    {
        let slot: Slot = slots[at];
        if used.saturating_add(slot.height) > room {
            assert(visible_from(slots@, room as int, at as int, used as int) == 0);
            return visible;
        }
        used = used.saturating_add(slot.height);
        visible = visible + 1;
        let below: u16 = used.saturating_add(slot.gap);
        used = if below < room {
            below
        } else {
            room
        };
        at = at + 1;
    }
    visible
}

/// The item that is first when the list is scrolled to its end.
pub fn find_bottom_start(slots: &Vec<Slot>, room: u16) -> (out: usize)
    requires
        room < u16::MAX,
    ensures
        out == bottom_start(slots@, room as int),
{
    let mut used: u16 = 0;
    let mut start: usize = slots.len();
    let ghost all = first_at_end(slots@, room as int, slots@.len() as int, 0);
    while start > 0
        invariant_except_break
            first_at_end(slots@, room as int, start as int, used as int) == all,
        invariant
            start <= slots@.len(),
            used <= room < u16::MAX,
        ensures
            start == all,
        decreases start,
    {
        let slot: Slot = slots[start - 1];
        let needed: u16 = slot.height.saturating_add(slot.gap);
        if used.saturating_add(needed) > room {
            break;
        }
        used = used.saturating_add(needed);
        start = start - 1;
    }
    let most: usize = slots.len().saturating_sub(1);
    if start < most {
        start
    } else {
        most
    }
}

/// The scroll that shows item `target`: as near to `scroll` as it can be.
pub open spec fn scroll_toward(slots: Seq<Slot>, room: int, scroll: int, target: int) -> int
    decreases target - scroll,
{
    if scroll >= target {
        scroll
    } else {
        let visible = visible_count(slots, room, scroll);
        if visible > 0 && target < scroll + visible {
            scroll
        } else {
            scroll_toward(slots, room, scroll + 1, target)
        }
    }
}

/// The scroll that reveals item `target` in a list that is scrolled by `current`.
pub open spec fn revealing_scroll(slots: Seq<Slot>, room: int, current: int, target: int) -> int {
    let most = bottom_start(slots, room);
    if target < current {
        geometry::min(target, most)
    } else {
        geometry::min(scroll_toward(slots, room, geometry::min(current, most), target), most)
    }
}

/// The scroll that reveals item `target` in a list that is scrolled by `current`.
pub fn scroll_to_reveal(slots: &Vec<Slot>, room: u16, current: usize, target: usize) -> (out: usize)
    requires
        room < u16::MAX,
    ensures
        out == revealing_scroll(slots@, room as int, current as int, target as int),
{
    let most: usize = find_bottom_start(slots, room);
    if target < current {
        return if target < most {
            target
        } else {
            most
        };
    }
    let mut scroll: usize = if current < most {
        current
    } else {
        most
    };
    let ghost all = scroll_toward(slots@, room as int, scroll as int, target as int);
    while scroll < target
        invariant_except_break
            scroll_toward(slots@, room as int, scroll as int, target as int) == all,
        invariant
            room < u16::MAX,
        ensures
            scroll == all,
        decreases target - scroll,
    {
        let visible: usize = count_visible(slots, room, scroll);
        if visible > 0 && target < scroll.saturating_add(visible) {
            break;
        }
        scroll = scroll + 1;
    }
    if scroll < most {
        scroll
    } else {
        most
    }
}

/// The scroll state of a list that is scrolled by `scroll`.
pub open spec fn metrics(slots: Seq<Slot>, room: int, viewport: int, scroll: int) -> ScrollMetrics {
    let most = bottom_start(slots, room);
    ScrollMetrics {
        offset_from_bottom: (most - geometry::min(scroll, most)) as usize,
        max_offset_from_bottom: most as usize,
        viewport_rows: viewport as usize,
    }
}

/// The rows that the items from `from` up to `to` take with their gaps.
pub open spec fn rows_between(slots: Seq<Slot>, from: int, to: int) -> int
    decreases to - from,
{
    if from >= to {
        0
    } else {
        slots[from].height + slots[from].gap + rows_between(slots, from + 1, to)
    }
}

proof fn lemma_rows_nonneg(slots: Seq<Slot>, from: int, to: int)
    ensures
        rows_between(slots, from, to) >= 0,
    decreases to - from,
{
    if from < to {
        lemma_rows_nonneg(slots, from + 1, to);
    }
}

/// What is first at the end takes no more than the room, and one item more
/// would take more.
proof fn lemma_first_at_end(slots: Seq<Slot>, room: int, n: int)
    requires
        0 <= n <= slots.len(),
        rows_between(slots, n, slots.len() as int) <= room,
    ensures
        ({
            let start = first_at_end(
                slots,
                room,
                n,
                rows_between(slots, n, slots.len() as int),
            );
            &&& 0 <= start <= n
            &&& rows_between(slots, start, slots.len() as int) <= room
            &&& start > 0 ==> rows_between(slots, start - 1, slots.len() as int) > room
        }),
    decreases n,
{
    if n > 0 {
        let used = rows_between(slots, n, slots.len() as int);
        assert(rows_between(slots, n - 1, slots.len() as int) == slots[n - 1].height + slots[n
            - 1].gap + used);
        if used + slots[n - 1].height + slots[n - 1].gap <= room {
            lemma_first_at_end(slots, room, n - 1);
        }
    }
}

/// Where the rest of the list fits, all of it is visible.
proof fn lemma_rest_is_visible(slots: Seq<Slot>, room: int, from: int, used: int)
    requires
        0 <= from <= slots.len(),
        used + rows_between(slots, from, slots.len() as int) <= room,
    ensures
        visible_from(slots, room, from, used) == slots.len() - from,
    decreases slots.len() - from,
{
    if from < slots.len() {
        lemma_rows_nonneg(slots, from + 1, slots.len() as int);
        lemma_rest_is_visible(
            slots,
            room,
            from + 1,
            used + slots[from].height + slots[from].gap,
        );
    }
}

/// No item is higher than the room, and behind the last there is no gap.
pub open spec fn all_fit(slots: Seq<Slot>, room: int) -> bool {
    &&& room >= 0
    &&& forall|i: int| 0 <= i < slots.len() ==> (#[trigger] slots[i]).height <= room
    &&& slots.len() > 0 ==> slots.last().gap == 0
}

/// Scrolled to its end a list shows its last item, and as many before it as fit
/// together with their gaps.
pub proof fn law_the_end_is_packed(slots: Seq<Slot>, room: int)
    requires
        all_fit(slots, room),
        slots.len() > 0,
    ensures
        ({
            let start = bottom_start(slots, room);
            &&& 0 <= start < slots.len()
            &&& start + visible_count(slots, room, start) == slots.len()
            &&& start > 0 ==> rows_between(slots, start - 1, slots.len() as int) > room
        }),
{
    let len = slots.len() as int;
    assert(rows_between(slots, len, len) == 0);
    lemma_first_at_end(slots, room, len);
    assert(rows_between(slots, len - 1, len) == slots[len - 1].height + slots[len - 1].gap
        + rows_between(slots, len, len));
    assert(slots[len - 1].height <= room);
    let start = first_at_end(slots, room, len, 0);
    assert(start < len);
    lemma_rest_is_visible(slots, room, start, 0);
}

/// Scrolled anywhere, a list shows the item that it is scrolled to.
pub proof fn law_the_first_item_is_visible(slots: Seq<Slot>, room: int, scroll: int)
    requires
        all_fit(slots, room),
        0 <= scroll < slots.len(),
    ensures
        1 <= visible_count(slots, room, scroll) <= slots.len() - scroll,
{
    assert(slots[scroll].height <= room);
    lemma_visible_bounds(
        slots,
        room,
        scroll + 1,
        geometry::min(slots[scroll].height + slots[scroll].gap, room),
    );
}

proof fn lemma_visible_bounds(slots: Seq<Slot>, room: int, from: int, used: int)
    requires
        0 <= from <= slots.len(),
    ensures
        0 <= visible_from(slots, room, from, used) <= slots.len() - from,
    decreases slots.len() - from,
{
    if from < slots.len() && used + slots[from].height <= room {
        lemma_visible_bounds(
            slots,
            room,
            from + 1,
            geometry::min(used + slots[from].height + slots[from].gap, room),
        );
    }
}

proof fn lemma_scroll_toward(slots: Seq<Slot>, room: int, scroll: int, target: int)
    requires
        all_fit(slots, room),
        0 <= scroll <= target < slots.len(),
    ensures
        ({
            let out = scroll_toward(slots, room, scroll, target);
            &&& scroll <= out <= target
            &&& target < out + visible_count(slots, room, out)
        }),
    decreases target - scroll,
{
    if scroll < target {
        let visible = visible_count(slots, room, scroll);
        if !(visible > 0 && target < scroll + visible) {
            lemma_scroll_toward(slots, room, scroll + 1, target);
        }
    } else {
        law_the_first_item_is_visible(slots, room, target);
    }
}

/// A list that is scrolled to reveal an item shows it, and is not scrolled past
/// its end.
pub proof fn law_revealing_shows_the_target(
    slots: Seq<Slot>,
    room: int,
    current: int,
    target: int,
)
    requires
        all_fit(slots, room),
        0 <= current,
        0 <= target < slots.len(),
    ensures
        ({
            let scroll = revealing_scroll(slots, room, current, target);
            &&& 0 <= scroll <= bottom_start(slots, room)
            &&& scroll <= target < scroll + visible_count(slots, room, scroll)
        }),
{
    let most = bottom_start(slots, room);
    law_the_end_is_packed(slots, room);
    if target < current {
        if target < most {
            law_the_first_item_is_visible(slots, room, target);
        }
    } else {
        lemma_scroll_toward(slots, room, geometry::min(current, most), target);
    }
}

/// A list that is already showing an item stays where it is when that item is
/// to be revealed.
pub proof fn law_revealing_moves_no_further_than_needed(
    slots: Seq<Slot>,
    room: int,
    current: int,
    target: int,
)
    requires
        all_fit(slots, room),
        0 <= current <= bottom_start(slots, room),
        current <= target < current + visible_count(slots, room, current),
    ensures
        revealing_scroll(slots, room, current, target) == current,
{
}

proof fn lemma_later_takes_less(slots: Seq<Slot>, from: int, later: int, to: int)
    requires
        from <= later,
    ensures
        rows_between(slots, later, to) <= rows_between(slots, from, to),
    decreases later - from,
{
    lemma_rows_nonneg(slots, from, to);
    if from < later {
        lemma_later_takes_less(slots, from + 1, later, to);
        lemma_rows_nonneg(slots, from + 1, to);
    }
}

/// The end of a list is the first item from which the rest of it fits, with the
/// gaps between: from every later item it fits too, from no earlier one.
pub proof fn law_the_end_is_the_first_start_that_fits(slots: Seq<Slot>, room: int, start: int)
    requires
        all_fit(slots, room),
        0 <= start < slots.len(),
    ensures
        bottom_start(slots, room) <= start <==> rows_between(slots, start, slots.len() as int)
            <= room,
{
    let len = slots.len() as int;
    let most = bottom_start(slots, room);
    law_the_end_is_packed(slots, room);
    assert(rows_between(slots, len, len) == 0);
    lemma_first_at_end(slots, room, len);
    lemma_later_takes_less(slots, first_at_end(slots, room, len, 0), most, len);
    if most <= start {
        lemma_later_takes_less(slots, most, start, len);
    } else {
        lemma_later_takes_less(slots, start, most - 1, len);
    }
}

proof fn lemma_shown_fit(slots: Seq<Slot>, room: int, from: int, taken: int)
    requires
        0 <= from <= slots.len(),
        0 <= taken,
        room >= 0,
        forall|i: int| 0 <= i < slots.len() ==> (#[trigger] slots[i]).height > 0,
    ensures
        ({
            let n = visible_from(slots, room, from, geometry::min(taken, room));
            &&& 0 <= n <= slots.len() - from
            &&& n > 0 ==> taken + rows_between(slots, from, from + n - 1) + slots[from + n
                - 1].height <= room
            &&& from + n < slots.len() ==> taken + rows_between(slots, from, from + n)
                + slots[from + n].height > room
        }),
    decreases slots.len() - from,
{
    let used = geometry::min(taken, room);
    if from < slots.len() {
        assert(slots[from].height > 0);
        if used + slots[from].height <= room {
            let next = taken + slots[from].height + slots[from].gap;
            lemma_shown_fit(slots, room, from + 1, next);
            let n = visible_from(slots, room, from, used);
            if n > 1 {
                assert(rows_between(slots, from, from + n - 1) == slots[from].height
                    + slots[from].gap + rows_between(slots, from + 1, from + n - 1));
            } else {
                assert(rows_between(slots, from, from) == 0);
            }
            assert(rows_between(slots, from, from + n) == slots[from].height + slots[from].gap
                + rows_between(slots, from + 1, from + n));
        } else {
            assert(rows_between(slots, from, from) == 0);
        }
    }
}

/// Items are shown from the one that a list is scrolled to on, as many as fit
/// with the gaps between them; one more would not fit.
pub proof fn law_items_are_shown_as_long_as_they_fit(slots: Seq<Slot>, room: int, scroll: int)
    requires
        0 <= scroll <= slots.len(),
        room >= 0,
        forall|i: int| 0 <= i < slots.len() ==> (#[trigger] slots[i]).height > 0,
    ensures
        ({
            let end = scroll + visible_count(slots, room, scroll);
            &&& scroll <= end <= slots.len()
            &&& end > scroll ==> rows_between(slots, scroll, end - 1) + slots[end - 1].height
                <= room
            &&& end < slots.len() ==> rows_between(slots, scroll, end) + slots[end].height > room
        }),
{
    lemma_shown_fit(slots, room, scroll, 0);
}

proof fn lemma_scroll_toward_least(slots: Seq<Slot>, room: int, scroll: int, target: int, s: int)
    requires
        0 <= scroll <= s < scroll_toward(slots, room, scroll, target),
    ensures
        s < target && s + visible_count(slots, room, s) <= target || visible_count(slots, room, s)
            <= 0,
    decreases target - scroll,
{
    if scroll < target && scroll < s {
        lemma_scroll_toward_least(slots, room, scroll + 1, target, s);
    }
}

/// An item above the first shown becomes the first, as far as the list scrolls.
/// For one further down the list moves to the first place at which the item is
/// shown, and no further.
pub proof fn law_revealing_takes_the_nearest_place(
    slots: Seq<Slot>,
    room: int,
    current: int,
    target: int,
    s: int,
)
    requires
        all_fit(slots, room),
        0 <= current,
        0 <= target < slots.len(),
    ensures
        target < current ==> revealing_scroll(slots, room, current, target) == geometry::min(
            target,
            bottom_start(slots, room),
        ),
        current <= target && current <= bottom_start(slots, room) ==> current <= revealing_scroll(
            slots,
            room,
            current,
            target,
        ),
        current <= target && current <= s < revealing_scroll(slots, room, current, target) ==> s
            + visible_count(slots, room, s) <= target,
{
    let most = bottom_start(slots, room);
    law_the_end_is_packed(slots, room);
    if current <= target {
        let from = geometry::min(current, most);
        lemma_scroll_toward(slots, room, from, target);
        if current <= s < revealing_scroll(slots, room, current, target) {
            lemma_scroll_toward_least(slots, room, from, target, s);
            law_the_first_item_is_visible(slots, room, s);
        }
    }
}

/// The scroll state counts from the end: what a list is scrolled by and what it
/// is short of its end are as far as it scrolls.
pub proof fn law_the_scroll_state_counts_from_the_end(
    slots: Seq<Slot>,
    room: int,
    viewport: int,
    scroll: int,
)
    requires
        all_fit(slots, room),
        0 <= scroll,
        0 <= viewport <= usize::MAX,
        slots.len() <= usize::MAX,
    ensures
        ({
            let most = bottom_start(slots, room);
            let out = metrics(slots, room, viewport, scroll);
            &&& out.max_offset_from_bottom == most
            &&& scroll <= most ==> out.offset_from_bottom + scroll == most
            &&& scroll > most ==> out.offset_from_bottom == 0
            &&& out.viewport_rows == viewport
        }),
{
    if slots.len() > 0 {
        law_the_end_is_packed(slots, room);
    } else {
        assert(first_at_end(slots, room, 0, 0) == 0);
    }
}

} // verus!
