//! The tab bar's logic: which items (tabs, group labels, collapsed group
//! chips) it shows, where they go when the tabs overflow, what a click or a
//! drag hits, and what a drop does.

use vstd::prelude::*;

verus! {

/// Height of the tab bar in pixels.
pub const TAB_BAR_HEIGHT: i32 = 32;
pub const MIN_TAB_WIDTH: i32 = 60;
pub const MAX_TAB_WIDTH: i32 = 200;
pub const CLOSE_BTN_SIZE: i32 = 14;
pub const CLOSE_BTN_MARGIN: i32 = 6;
pub const TAB_GAP: i32 = 1;
pub const PLUS_BTN_WIDTH: i32 = 28;
pub const PLUS_BTN_MARGIN: i32 = 4;
pub const SCROLL_ARROW_WIDTH: i32 = 24;
pub const SCROLL_ARROW_MARGIN: i32 = 6;
pub const GROUP_LABEL_GAP: i32 = 4;

/// Identifies a document (tab).
pub type DocumentId = u64;

/// Identifies a tab group.
pub type GroupId = u64;

/// What the tab bar knows of a tab.
pub struct TabInfo {
    pub id: DocumentId,
    pub display_name: String,
    pub is_dirty: bool,
    pub is_active: bool,
    pub group_id: Option<GroupId>,
}

/// What the tab bar knows of a tab group.
pub struct GroupInfo {
    pub id: GroupId,
    pub name: String,
    pub collapsed: bool,
}

/// A positioned element of the tab bar.
#[derive(Debug, Clone, Copy, PartialEq, Eq, Structural)]
pub enum LayoutItem {
    Tab { index: usize, x: i32, width: i32 },
    GroupLabel { group_id: GroupId, x: i32, width: i32 },
    CollapsedChip { group_id: GroupId, x: i32, width: i32, count: usize },
    PlusButton { x: i32 },
    ScrollLeft { x: i32, enabled: bool },
    ScrollRight { x: i32, enabled: bool },
}

/// A scrollable unit of the bar: a tab (preceded by its group's label when
/// it opens an expanded group) or the chip of a collapsed group.
#[derive(Debug, Clone, Copy, PartialEq, Eq, Structural)]
pub enum ItemKind {
    Tab { index: usize },
    Chip { group_id: GroupId, count: usize },
}

/// A scrollable unit with its measured widths: `width` is the chip's width
/// (unused for tabs, whose width the layout decides); `label` is the group
/// whose label precedes the tab, and `label_width` that label's width.
#[derive(Debug, Clone, Copy, PartialEq, Eq, Structural)]
pub struct ScrollableItem {
    pub kind: ItemKind,
    pub width: i32,
    pub label: Option<GroupId>,
    pub label_width: i32,
}

// ---------------------------------------------------------------------------
// Grouping tabs into scrollable items
// ---------------------------------------------------------------------------

/// The group with the given id, if the bar knows it.
pub open spec fn find_group(groups: Seq<GroupInfo>, gid: GroupId) -> Option<int> {
    if exists|k: int| 0 <= k < groups.len() && groups[k].id == gid {
        Some(choose|k: int| 0 <= k < groups.len() && groups[k].id == gid && forall|j: int| 0 <= j < k ==> groups[j].id != gid)
    } else {
        None
    }
}

/// Number of consecutive tabs from `i` on that belong to group `gid`.
pub open spec fn run_len(tabs: Seq<TabInfo>, i: int, gid: GroupId) -> nat
    decreases tabs.len() - i,
{
    if 0 <= i < tabs.len() && tabs[i].group_id == Some(gid) {
        1 + run_len(tabs, i + 1, gid)
    } else {
        0
    }
}

/// Whether tab `i` starts a collapsed group (its group differs from the
/// previous tab's, `current`, and the bar knows it as collapsed).
pub open spec fn opens_collapsed(tabs: Seq<TabInfo>, groups: Seq<GroupInfo>, i: int, current: Option<GroupId>) -> bool {
    let g = tabs[i].group_id;
    g != current && g is Some && find_group(groups, g->0) is Some && groups[find_group(groups, g->0)->0].collapsed
}

/// The scrollable items for the tabs from `i` on, `current` being the group
/// of the previous tab. Where the group changes: a collapsed group's whole
/// run of tabs becomes one chip; the first tab of an expanded group carries
/// the group's label. Widths are left at zero, to be measured.
#[verifier::opaque]
pub open spec fn items_from(
    tabs: Seq<TabInfo>,
    groups: Seq<GroupInfo>,
    i: int,
    current: Option<GroupId>,
) -> Seq<ScrollableItem>
    decreases tabs.len() - i,
{
    if i < 0 || i >= tabs.len() {
        Seq::empty()
    } else {
        let g = tabs[i].group_id;
        if g != current && g is Some && find_group(groups, g->0) is Some && groups[find_group(
            groups,
            g->0,
        )->0].collapsed {
            let gid = g->0;
            let count = run_len(tabs, i, gid);
            proof {
                lemma_run_len_bound(tabs, i, gid);
            }
            seq![ScrollableItem { kind: ItemKind::Chip { group_id: gid, count: count as usize }, width: 0, label: None, label_width: 0 }]
                + items_from(tabs, groups, i + count, g)
        } else {
            let label = if g != current && g is Some && find_group(groups, g->0) is Some {
                g
            } else {
                None
            };
            let next_current = if g != current {
                g
            } else {
                current
            };
            seq![ScrollableItem { kind: ItemKind::Tab { index: i as usize }, width: 0, label, label_width: 0 }]
                + items_from(tabs, groups, i + 1, next_current)
        }
    }
}

/// A run of tabs of one group stays within the tabs, and ends at a tab of
/// another group or at the end.
pub proof fn lemma_run_len_bound(tabs: Seq<TabInfo>, i: int, gid: GroupId)
    requires
        0 <= i <= tabs.len(),
    ensures
        i + run_len(tabs, i, gid) <= tabs.len(),
        forall|k: int| i <= k < i + run_len(tabs, i, gid) ==> tabs[k].group_id == Some(gid),
        i + run_len(tabs, i, gid) < tabs.len() ==> tabs[i + run_len(tabs, i, gid)].group_id != Some(gid),
    decreases tabs.len() - i,
{
    if i < tabs.len() && tabs[i].group_id == Some(gid) {
        lemma_run_len_bound(tabs, i + 1, gid);
    }
}

/// Finds the group with id `gid`.
fn find_group_index(groups: &[GroupInfo], gid: GroupId) -> (r: Option<usize>)
    ensures
        r matches Some(k) ==> k < groups@.len() && find_group(groups@, gid) == Some(k as int),
        r is None ==> find_group(groups@, gid) is None,
{
    let mut k: usize = 0;
    while k < groups.len()
        invariant
            k <= groups.len(),
            forall|j: int| 0 <= j < k ==> groups@[j].id != gid,
        decreases groups.len() - k,
    {
        if groups[k].id == gid {
            proof {
                let c = choose|c: int| 0 <= c < groups@.len() && groups@[c].id == gid && forall|j: int| 0 <= j < c ==> groups@[j].id != gid;
                assert(0 <= k < groups@.len() && groups@[k as int].id == gid && forall|j: int| 0 <= j < k ==> groups@[j].id != gid);
                assert(c == k as int) by {
                    if c < k {
                    } else if c > k {
                        assert(groups@[k as int].id != gid);
                    }
                }
            }
            return Some(k);
        }
        k += 1;
    }
    None
}

/// One step of `build_scrollable_items`: the item that starts at tab `i`,
/// and where the next one starts.
fn next_item(tabs: &[TabInfo], groups: &[GroupInfo], i: usize, current: Option<GroupId>) -> (r: (
    ScrollableItem,
    usize,
    Option<GroupId>,
))
    requires
        i < tabs.len(),
    ensures
        i < r.1 <= tabs.len(),
        opens_collapsed(tabs@, groups@, i as int, current) ==> r.0.kind is Chip && r.1 == i + run_len(
            tabs@,
            i as int,
            tabs@[i as int].group_id->0,
        ) && r.2 == tabs@[i as int].group_id,
        !opens_collapsed(tabs@, groups@, i as int, current) ==> r.0.kind is Tab && r.1 == i + 1 && r.2 == (
        if tabs@[i as int].group_id != current {
            tabs@[i as int].group_id
        } else {
            current
        }),
        items_from(tabs@, groups@, i as int, current) == seq![r.0] + items_from(
            tabs@,
            groups@,
            r.1 as int,
            r.2,
        ),
{
    reveal(items_from);
    let g = tabs[i].group_id;
    let mut chip = false;
    let mut label: Option<GroupId> = None;
    if g != current {
        if let Some(gid) = g {
            if let Some(k) = find_group_index(groups, gid) {
                if groups[k].collapsed {
                    chip = true;
                } else {
                    label = g;
                }
            }
        }
    }
    if chip {
        let gid = g.unwrap();
        let mut count: usize = 0;
        while i + count < tabs.len() && tabs[i + count].group_id == Some(gid)
            invariant
                i + count <= tabs.len(),
                run_len(tabs@, i as int, gid) == count + run_len(tabs@, (i + count) as int, gid),
            decreases tabs.len() - (i + count),
        {
            count += 1;
        }
        assert(run_len(tabs@, (i + count) as int, gid) == 0);
        let item = ScrollableItem { kind: ItemKind::Chip { group_id: gid, count }, width: 0, label: None, label_width: 0 };
        (item, i + count, g)
    } else {
        let item = ScrollableItem { kind: ItemKind::Tab { index: i }, width: 0, label, label_width: 0 };
        let next = if g != current {
            g
        } else {
            current
        };
        (item, i + 1, next)
    }
}

/// Groups the tabs into scrollable items (see `items_from`): a collapsed
/// group's tabs become one chip, and the first tab of an expanded group
/// carries its group's label. Widths are zero: the caller measures the
/// chips and labels before the layout is computed.
pub fn build_scrollable_items(tabs: &[TabInfo], groups: &[GroupInfo]) -> (r: Vec<ScrollableItem>)
    ensures
        r@ == items_from(tabs@, groups@, 0, None),
{
    let mut r: Vec<ScrollableItem> = Vec::new();
    let mut current: Option<GroupId> = None;
    let mut i: usize = 0;
    assert(r@ + items_from(tabs@, groups@, 0, None) =~= items_from(tabs@, groups@, 0, None));
    while i < tabs.len()
        invariant
            i <= tabs.len(),
            r@ + items_from(tabs@, groups@, i as int, current) == items_from(tabs@, groups@, 0, None),
        decreases tabs.len() - i,
    {
        let ghost before = r@;
        let (item, next, cur) = next_item(tabs, groups, i, current);
        r.push(item);
        proof {
            let rest = items_from(tabs@, groups@, next as int, cur);
            assert(r@ =~= before + seq![item]);
            vstd::seq_lib::lemma_concat_associative(before, seq![item], rest);
        }
        i = next;
        current = cur;
    }
    assert(items_from(tabs@, groups@, i as int, current) =~= Seq::empty()) by {
        reveal(items_from);
    }
    assert(r@ + items_from(tabs@, groups@, i as int, current) =~= r@);
    r
}

// ---------------------------------------------------------------------------
// Layout arithmetic
// ---------------------------------------------------------------------------

/// Space reserved for the plus button (its width and margins).
pub open spec fn plus_space() -> int {
    (PLUS_BTN_WIDTH + PLUS_BTN_MARGIN * 2) as int
}

/// Space reserved for the two scroll arrows (width and margins each).
pub open spec fn arrow_space() -> int {
    ((SCROLL_ARROW_MARGIN + SCROLL_ARROW_WIDTH + SCROLL_ARROW_MARGIN) * 2) as int
}

/// Where the first item goes when the arrows are shown.
pub open spec fn scrolled_start() -> int {
    (SCROLL_ARROW_MARGIN + SCROLL_ARROW_WIDTH + SCROLL_ARROW_MARGIN) as int
}

pub open spec fn is_tab(it: ScrollableItem) -> bool {
    it.kind is Tab
}

/// Width taken by an item's group label and the gap after it.
pub open spec fn label_space(it: ScrollableItem) -> int {
    if it.label is Some {
        it.label_width + GROUP_LABEL_GAP
    } else {
        0
    }
}

/// Width of an item's tab or chip and the gap after it, when tabs are
/// `tw` wide.
pub open spec fn body_width(it: ScrollableItem, tw: int) -> int {
    if is_tab(it) {
        tw + TAB_GAP
    } else {
        it.width + TAB_GAP
    }
}

/// Width of an item when tabs are `tw` wide (a chip's label, which the
/// bar never sets, is not counted).
pub open spec fn item_width(it: ScrollableItem, tw: int) -> int {
    if is_tab(it) {
        label_space(it) + tw + TAB_GAP
    } else {
        it.width + TAB_GAP
    }
}

/// The quantities summed over items when laying out the bar.
#[derive(Debug, Clone, Copy, PartialEq, Eq, Structural)]
pub enum Measure {
    /// Width when tabs are at their narrowest.
    Narrowest,
    /// Width besides the tab body, when everything fits.
    Fixed,
    /// Width besides the tab body and its gap, when scrolling.
    FixedScrolled,
    /// 1 for a tab, 0 for a chip.
    TabUnit,
    /// An upper bound of the width, whatever the tab width.
    Extent,
}

pub open spec fn measure(it: ScrollableItem, m: Measure) -> int {
    match m {
        Measure::Narrowest => item_width(it, MIN_TAB_WIDTH as int),
        Measure::Fixed => if is_tab(it) {
            label_space(it) + TAB_GAP
        } else {
            it.width + TAB_GAP
        },
        Measure::FixedScrolled => if is_tab(it) {
            label_space(it)
        } else {
            it.width + TAB_GAP
        },
        Measure::TabUnit => if is_tab(it) {
            1
        } else {
            0
        },
        Measure::Extent => label_space(it) + (if it.width > MAX_TAB_WIDTH {
            it.width as int
        } else {
            MAX_TAB_WIDTH as int
        }) + TAB_GAP,
    }
}

/// The sum of a measure over the items.
pub open spec fn sum_by(s: Seq<ScrollableItem>, m: Measure) -> int
    decreases s.len(),
{
    if s.len() == 0 {
        0
    } else {
        measure(s[0], m) + sum_by(s.drop_first(), m)
    }
}

/// Measured widths are never negative.
pub open spec fn items_ok(s: Seq<ScrollableItem>) -> bool {
    forall|i: int| 0 <= i < s.len() ==> (#[trigger] s[i]).width >= 0 && s[i].label_width >= 0
}

/// The bar can be laid out in `i32` coordinates: widths are not negative
/// and every position stays below `i32::MAX`.
pub open spec fn layout_input_ok(items: Seq<ScrollableItem>, widget_w: int) -> bool {
    &&& items_ok(items)
    &&& 0 <= widget_w <= i32::MAX
    &&& sum_by(items, Measure::Extent) + arrow_space() + plus_space() <= i32::MAX
}

/// The tab width that shares `room` among `n` tabs, within the allowed
/// range; the largest width when there are no tabs.
pub open spec fn share_width(room: int, n: int) -> int {
    if n <= 0 {
        MAX_TAB_WIDTH as int
    } else if room <= 0 {
        MIN_TAB_WIDTH as int
    } else if room / n < MIN_TAB_WIDTH {
        MIN_TAB_WIDTH as int
    } else if room / n > MAX_TAB_WIDTH {
        MAX_TAB_WIDTH as int
    } else {
        room / n
    }
}

/// How many items fit from the start of `s` into `avail`, taking items
/// while they fit but always at least one.
pub open spec fn greedy_count(s: Seq<ScrollableItem>, tw: int, avail: int, used: int, count: nat) -> nat
    decreases s.len(),
{
    if s.len() == 0 {
        count
    } else if used + item_width(s[0], tw) > avail && count > 0 {
        count
    } else {
        greedy_count(s.drop_first(), tw, avail, used + item_width(s[0], tw), count + 1)
    }
}

/// The positioned items for `s`, placed from `cursor` on: each tab's group
/// label (if any) then the tab or chip, each followed by its gap.
pub open spec fn place(s: Seq<ScrollableItem>, cursor: int, tw: int) -> Seq<LayoutItem>
    decreases s.len(),
{
    if s.len() == 0 {
        Seq::empty()
    } else {
        let it = s[0];
        let c1 = cursor + label_space(it);
        let lab = match it.label {
            Some(gid) => seq![LayoutItem::GroupLabel { group_id: gid, x: cursor as i32, width: it.label_width }],
            None => Seq::empty(),
        };
        let main = match it.kind {
            ItemKind::Tab { index } => LayoutItem::Tab { index, x: c1 as i32, width: tw as i32 },
            ItemKind::Chip { group_id, count } => LayoutItem::CollapsedChip { group_id, x: c1 as i32, width: it.width, count },
        };
        lab + seq![main] + place(s.drop_first(), c1 + body_width(it, tw), tw)
    }
}

/// The outcome of laying out the tab bar.
#[derive(Debug, Clone, PartialEq, Eq)]
pub struct TabLayout {
    pub layout: Vec<LayoutItem>,
    pub total_items: usize,
    pub visible_items: usize,
    pub scroll_offset: usize,
}

/// Whether the items need scroll arrows in a bar `widget_w` wide.
pub open spec fn needs_scroll(items: Seq<ScrollableItem>, widget_w: int) -> bool {
    sum_by(items, Measure::Narrowest) + plus_space() > widget_w
}

/// The scroll offset after clamping: 0 when everything fits, else at most
/// the last item.
pub open spec fn clamped_offset(items: Seq<ScrollableItem>, widget_w: int, offset: int) -> int {
    if !needs_scroll(items, widget_w) {
        0
    } else if offset >= items.len() {
        items.len() - 1
    } else {
        offset
    }
}

/// Width available for items (without arrows and plus button).
pub open spec fn available_width(items: Seq<ScrollableItem>, widget_w: int) -> int {
    widget_w - (if needs_scroll(items, widget_w) {
        arrow_space()
    } else {
        0
    }) - plus_space()
}

/// The width every tab gets.
pub open spec fn layout_tab_width(items: Seq<ScrollableItem>, widget_w: int, offset: int) -> int {
    let avail = available_width(items, widget_w);
    if !needs_scroll(items, widget_w) {
        share_width(avail - sum_by(items, Measure::Fixed), sum_by(items, Measure::TabUnit))
    } else {
        let rest = items.skip(clamped_offset(items, widget_w, offset));
        let n = sum_by(rest, Measure::TabUnit);
        share_width(
            avail - sum_by(rest, Measure::FixedScrolled) - (if n > 1 {
                n - 1
            } else {
                0
            }) * TAB_GAP,
            n,
        )
    }
}

/// How many items are shown.
pub open spec fn layout_visible(items: Seq<ScrollableItem>, widget_w: int, offset: int) -> nat {
    if !needs_scroll(items, widget_w) {
        items.len()
    } else {
        greedy_count(
            items.skip(clamped_offset(items, widget_w, offset)),
            layout_tab_width(items, widget_w, offset),
            available_width(items, widget_w),
            0,
            0,
        )
    }
}

/// The tab-bar layout for the items in a bar `widget_w` wide, scrolled to
/// `offset`: without items only the plus button; otherwise, when the items
/// do not fit at the narrowest tab width, scroll arrows at both ends and as
/// many items from the (clamped) offset as fit; tabs share the remaining
/// width within the allowed range; the plus button at the right edge.
/// The result: the positioned items, the number of items, how many are
/// shown, and the offset of the first one shown.
pub open spec fn layout_spec(items: Seq<ScrollableItem>, widget_w: int, offset: int) -> (
    Seq<LayoutItem>,
    nat,
    nat,
    nat,
) {
    if items.len() == 0 {
        (seq![LayoutItem::PlusButton { x: PLUS_BTN_MARGIN }], 0, 0, 0)
    } else {
        let scroll = needs_scroll(items, widget_w);
        let off = clamped_offset(items, widget_w, offset);
        let tw = layout_tab_width(items, widget_w, offset);
        let vis = layout_visible(items, widget_w, offset);
        let left = if scroll {
            seq![LayoutItem::ScrollLeft { x: SCROLL_ARROW_MARGIN, enabled: off > 0 }]
        } else {
            Seq::empty()
        };
        let start = if scroll {
            scrolled_start()
        } else {
            0
        };
        let right = if scroll {
            seq![LayoutItem::ScrollRight { x: (widget_w - plus_space() - SCROLL_ARROW_WIDTH - SCROLL_ARROW_MARGIN) as i32, enabled: off + vis < items.len() }]
        } else {
            Seq::empty()
        };
        (
            left + place(items.subrange(off, off + vis), start, tw) + right + seq![LayoutItem::PlusButton { x: (widget_w - PLUS_BTN_WIDTH - PLUS_BTN_MARGIN) as i32 }],
            items.len(),
            vis,
            off as nat,
        )
    }
}

// ---------------------------------------------------------------------------
// Lemmas on sums
// ---------------------------------------------------------------------------

proof fn lemma_skip_first(s: Seq<ScrollableItem>, k: int)
    requires
        0 <= k < s.len(),
    ensures
        s.skip(k).len() > 0,
        s.skip(k)[0] == s[k],
        s.skip(k).drop_first() == s.skip(k + 1),
{
    assert(s.skip(k).drop_first() =~= s.skip(k + 1));
}

proof fn lemma_measure_bounds(it: ScrollableItem, m: Measure, tw: int)
    requires
        it.width >= 0,
        it.label_width >= 0,
        MIN_TAB_WIDTH <= tw <= MAX_TAB_WIDTH,
    ensures
        0 <= measure(it, m) <= measure(it, Measure::Extent),
        0 <= item_width(it, tw) <= measure(it, Measure::Extent),
        0 <= label_space(it) + body_width(it, tw) <= measure(it, Measure::Extent),
{
}

proof fn lemma_sum_bounds(s: Seq<ScrollableItem>, m: Measure)
    requires
        items_ok(s),
    ensures
        0 <= sum_by(s, m) <= sum_by(s, Measure::Extent),
    decreases s.len(),
{
    if s.len() > 0 {
        lemma_measure_bounds(s[0], m, MIN_TAB_WIDTH as int);
        lemma_items_ok_skip(s, 1);
        assert(s.skip(1) =~= s.drop_first());
        lemma_sum_bounds(s.drop_first(), m);
    }
}

proof fn lemma_items_ok_skip(s: Seq<ScrollableItem>, k: int)
    requires
        items_ok(s),
        0 <= k <= s.len(),
    ensures
        items_ok(s.skip(k)),
{
    assert forall|i: int| 0 <= i < s.skip(k).len() implies (#[trigger] s.skip(k)[i]).width >= 0
        && s.skip(k)[i].label_width >= 0 by {
        assert(s.skip(k)[i] == s[k + i]);
    }
}

proof fn lemma_skip_sum_le(s: Seq<ScrollableItem>, k: int)
    requires
        items_ok(s),
        0 <= k <= s.len(),
    ensures
        sum_by(s.skip(k), Measure::Extent) <= sum_by(s, Measure::Extent),
    decreases k,
{
    if k == 0 {
        assert(s.skip(0) =~= s);
    } else {
        lemma_skip_sum_le(s, k - 1);
        lemma_skip_first(s, k - 1);
        lemma_measure_bounds(s[k - 1], Measure::Extent, MIN_TAB_WIDTH as int);
    }
}

proof fn lemma_share_width_range(room: int, n: int)
    ensures
        MIN_TAB_WIDTH <= share_width(room, n) <= MAX_TAB_WIDTH,
{
}

// ---------------------------------------------------------------------------
// Computing the layout
// ---------------------------------------------------------------------------

fn measure_of(it: &ScrollableItem, m: Measure) -> (r: i64)
    requires
        it.width >= 0,
        it.label_width >= 0,
    ensures
        r == measure(*it, m),
{
    let lab: i64 = match it.label {
        Some(_) => it.label_width as i64 + GROUP_LABEL_GAP as i64,
        None => 0,
    };
    let tab = match it.kind {
        ItemKind::Tab { .. } => true,
        ItemKind::Chip { .. } => false,
    };
    match m {
        Measure::Narrowest => if tab {
            lab + MIN_TAB_WIDTH as i64 + TAB_GAP as i64
        } else {
            it.width as i64 + TAB_GAP as i64
        },
        Measure::Fixed => if tab {
            lab + TAB_GAP as i64
        } else {
            it.width as i64 + TAB_GAP as i64
        },
        Measure::FixedScrolled => if tab {
            lab
        } else {
            it.width as i64 + TAB_GAP as i64
        },
        Measure::TabUnit => if tab {
            1
        } else {
            0
        },
        Measure::Extent => {
            let body: i64 = if it.width > MAX_TAB_WIDTH {
                it.width as i64
            } else {
                MAX_TAB_WIDTH as i64
            };
            lab + body + TAB_GAP as i64
        },
    }
}

/// The sum of a measure over the items from `from` on.
fn sum_from(items: &[ScrollableItem], from: usize, m: Measure) -> (r: i64)
    requires
        from <= items@.len(),
        items_ok(items@),
        sum_by(items@, Measure::Extent) <= i32::MAX,
    ensures
        r == sum_by(items@.skip(from as int), m),
{
    let mut acc: i64 = 0;
    let mut j: usize = items.len();
    assert(items@.skip(j as int) =~= Seq::<ScrollableItem>::empty());
    while j > from
        invariant
            from <= j <= items@.len(),
            items_ok(items@),
            sum_by(items@, Measure::Extent) <= i32::MAX,
            acc == sum_by(items@.skip(j as int), m),
        decreases j,
    {
        j -= 1;
        proof {
            lemma_skip_first(items@, j as int);
            lemma_sum_bounds(items@.skip(j as int), m);
            lemma_skip_sum_le(items@, j as int);
            lemma_items_ok_skip(items@, j as int);
            lemma_sum_bounds(items@.skip(j as int), Measure::Extent);
        }
        let v = measure_of(&items[j], m);
        acc = acc + v;
    }
    acc
}

/// `share_width` in machine integers.
fn share_width_exec(room: i64, n: i64) -> (r: i32)
    ensures
        r == share_width(room as int, n as int),
{
    if n <= 0 {
        MAX_TAB_WIDTH
    } else if room <= 0 {
        MIN_TAB_WIDTH
    } else {
        let q: u64 = (room as u64) / (n as u64);
        assert(q == room / n);
        if q < MIN_TAB_WIDTH as u64 {
            MIN_TAB_WIDTH
        } else if q > MAX_TAB_WIDTH as u64 {
            MAX_TAB_WIDTH
        } else {
            q as i32
        }
    }
}

/// How many items from `off` on fit into `avail` with tabs `tw` wide
/// (at least one).
fn count_fitting(items: &[ScrollableItem], off: usize, tw: i32, avail: i64) -> (r: usize)
    requires
        off < items@.len(),
        items_ok(items@),
        sum_by(items@, Measure::Extent) <= i32::MAX,
        MIN_TAB_WIDTH <= tw <= MAX_TAB_WIDTH,
    ensures
        r == greedy_count(items@.skip(off as int), tw as int, avail as int, 0, 0),
        1 <= r <= items@.len() - off,
{
    let mut count: usize = 0;
    let mut used: i64 = 0;
    let mut k: usize = off;
    while k < items.len()
        invariant_except_break
            off < items@.len(),
            off <= k <= items@.len(),
            count == k - off,
            items_ok(items@),
            sum_by(items@, Measure::Extent) <= i32::MAX,
            MIN_TAB_WIDTH <= tw <= MAX_TAB_WIDTH,
            0 <= used,
            used + sum_by(items@.skip(k as int), Measure::Extent) <= sum_by(items@.skip(off as int), Measure::Extent),
            greedy_count(items@.skip(off as int), tw as int, avail as int, 0, 0) == greedy_count(
                items@.skip(k as int),
                tw as int,
                avail as int,
                used as int,
                count as nat,
            ),
        ensures
            count == greedy_count(items@.skip(off as int), tw as int, avail as int, 0, 0),
            1 <= count <= items@.len() - off,
        decreases items@.len() - k,
    {
        proof {
            lemma_skip_first(items@, k as int);
            lemma_measure_bounds(items@[k as int], Measure::Extent, tw as int);
            lemma_skip_sum_le(items@, off as int);
            lemma_items_ok_skip(items@, k as int + 1);
            lemma_sum_bounds(items@.skip(k as int + 1), Measure::Extent);
        }
        let it = &items[k];
        let w: i64 = if matches!(it.kind, ItemKind::Tab { .. }) {
            let lab: i64 = match it.label {
                Some(_) => it.label_width as i64 + GROUP_LABEL_GAP as i64,
                None => 0,
            };
            lab + tw as i64 + TAB_GAP as i64
        } else {
            it.width as i64 + TAB_GAP as i64
        };
        assert(w == item_width(items@[k as int], tw as int));
        if used + w > avail && count > 0 {
            break;
        }
        used = used + w;
        count = count + 1;
        k = k + 1;
    }
    proof {
        if k == items@.len() {
            assert(items@.skip(k as int) =~= Seq::<ScrollableItem>::empty());
        }
    }
    count
}

/// The group label (if any) and the item itself, placed at `cursor`;
/// returns the cursor after the item.
fn place_item(out: &mut Vec<LayoutItem>, it: &ScrollableItem, cursor: i64, tw: i32) -> (next: i64)
    requires
        it.width >= 0,
        it.label_width >= 0,
        0 <= cursor,
        cursor + measure(*it, Measure::Extent) <= i32::MAX,
        MIN_TAB_WIDTH <= tw <= MAX_TAB_WIDTH,
    ensures
        next == cursor + label_space(*it) + body_width(*it, tw as int),
        final(out)@ == old(out)@ + place(seq![*it], cursor as int, tw as int),
{
    proof {
        lemma_measure_bounds(*it, Measure::Extent, tw as int);
        reveal_with_fuel(place, 2);
        assert(seq![*it].drop_first() =~= Seq::<ScrollableItem>::empty());
    }
    let ghost before = out@;
    let mut c = cursor;
    if let Some(gid) = it.label {
        out.push(LayoutItem::GroupLabel { group_id: gid, x: c as i32, width: it.label_width });
        c = c + it.label_width as i64 + GROUP_LABEL_GAP as i64;
    }
    let ghost mid = out@;
    match it.kind {
        ItemKind::Tab { index } => {
            out.push(LayoutItem::Tab { index, x: c as i32, width: tw });
            c = c + tw as i64 + TAB_GAP as i64;
        },
        ItemKind::Chip { group_id, count } => {
            out.push(LayoutItem::CollapsedChip { group_id, x: c as i32, width: it.width, count });
            c = c + it.width as i64 + TAB_GAP as i64;
        },
    }
    proof {
        let p = place(seq![*it], cursor as int, tw as int);
        assert(out@ =~= before + p);
    }
    c
}

/// Lays out the tab bar (see `layout_spec`): `items` are the scrollable
/// items with their measured widths, `widget_w` the bar's width and
/// `scroll_offset` the index of the first item to show.
pub fn compute_layout(items: &[ScrollableItem], widget_w: i32, scroll_offset: usize) -> (r: TabLayout)
    requires
        layout_input_ok(items@, widget_w as int),
    ensures
        (r.layout@, r.total_items as nat, r.visible_items as nat, r.scroll_offset as nat)
            == layout_spec(items@, widget_w as int, scroll_offset as int),
{
    let mut layout: Vec<LayoutItem> = Vec::new();
    if items.len() == 0 {
        layout.push(LayoutItem::PlusButton { x: PLUS_BTN_MARGIN });
        return TabLayout { layout, total_items: 0, visible_items: 0, scroll_offset: 0 };
    }
    let ghost s = items@;
    proof {
        assert(s.skip(0) =~= s);
        lemma_sum_bounds(s, Measure::Narrowest);
    }
    let plus_btn_space: i64 = PLUS_BTN_WIDTH as i64 + PLUS_BTN_MARGIN as i64 * 2;
    let min_total: i64 = sum_from(items, 0, Measure::Narrowest) + plus_btn_space;
    let needs_scroll: bool = min_total > widget_w as i64;
    let arrow: i64 = if needs_scroll {
        (SCROLL_ARROW_MARGIN as i64 + SCROLL_ARROW_WIDTH as i64 + SCROLL_ARROW_MARGIN as i64) * 2
    } else {
        0
    };
    let off: usize = if !needs_scroll {
        0
    } else if scroll_offset >= items.len() {
        items.len() - 1
    } else {
        scroll_offset
    };
    assert(off == clamped_offset(s, widget_w as int, scroll_offset as int));
    let avail: i64 = widget_w as i64 - arrow - plus_btn_space;
    assert(avail == available_width(s, widget_w as int));
    let tw: i32;
    let vis: usize;
    if !needs_scroll {
        let n = sum_from(items, 0, Measure::TabUnit);
        let fixed = sum_from(items, 0, Measure::Fixed);
        proof {
            lemma_sum_bounds(s, Measure::Fixed);
            lemma_sum_bounds(s, Measure::TabUnit);
        }
        tw = share_width_exec(avail - fixed, n);
        vis = items.len();
    } else {
        let n = sum_from(items, off, Measure::TabUnit);
        let fixed = sum_from(items, off, Measure::FixedScrolled);
        proof {
            lemma_skip_sum_le(s, off as int);
            lemma_items_ok_skip(s, off as int);
            lemma_sum_bounds(s.skip(off as int), Measure::FixedScrolled);
            lemma_sum_bounds(s.skip(off as int), Measure::TabUnit);
        }
        let gaps: i64 = if n > 1 {
            n - 1
        } else {
            0
        };
        tw = share_width_exec(avail - fixed - gaps * TAB_GAP as i64, n);
        proof {
            lemma_share_width_range(avail - fixed - gaps * TAB_GAP, n as int);
        }
        vis = count_fitting(items, off, tw, avail);
    }
    proof {
        lemma_share_width_range(0, 0);
        assert(tw == layout_tab_width(s, widget_w as int, scroll_offset as int));
        assert(vis == layout_visible(s, widget_w as int, scroll_offset as int));
        assert(MIN_TAB_WIDTH <= tw <= MAX_TAB_WIDTH) by {
            if !needs_scroll {
                lemma_share_width_range(
                    available_width(s, widget_w as int) - sum_by(s, Measure::Fixed),
                    sum_by(s, Measure::TabUnit),
                );
            }
        }
    }
    let start: i64 = if needs_scroll {
        SCROLL_ARROW_MARGIN as i64 + SCROLL_ARROW_WIDTH as i64 + SCROLL_ARROW_MARGIN as i64
    } else {
        0
    };
    if needs_scroll {
        layout.push(LayoutItem::ScrollLeft { x: SCROLL_ARROW_MARGIN, enabled: off > 0 });
    }
    let ghost prefix = layout@;
    let end: usize = off + vis;
    let ghost whole = place(s.subrange(off as int, end as int), start as int, tw as int);
    let mut cursor: i64 = start;
    let mut k: usize = off;
    proof {
        lemma_skip_sum_le(s, off as int);
    }
    while k < end
        invariant
            off <= k <= end <= s.len(),
            s == items@,
            items_ok(s),
            sum_by(s, Measure::Extent) + arrow_space() + plus_space() <= i32::MAX,
            MIN_TAB_WIDTH <= tw <= MAX_TAB_WIDTH,
            0 <= start <= cursor,
            start <= scrolled_start(),
            cursor + sum_by(s.skip(k as int), Measure::Extent) <= start + sum_by(s.skip(off as int), Measure::Extent),
            sum_by(s.skip(off as int), Measure::Extent) <= sum_by(s, Measure::Extent),
            layout@ + place(s.subrange(k as int, end as int), cursor as int, tw as int) == prefix + whole,
        decreases end - k,
    {
        proof {
            lemma_skip_first(s, k as int);
            lemma_items_ok_skip(s, k as int + 1);
            lemma_sum_bounds(s.skip(k as int + 1), Measure::Extent);
            lemma_measure_bounds(s[k as int], Measure::Extent, tw as int);
        }
        let ghost before = layout@;
        let ghost sub = s.subrange(k as int, end as int);
        let ghost old_cursor = cursor;
        cursor = place_item(&mut layout, &items[k], cursor, tw);
        proof {
            assert(sub.drop_first() =~= s.subrange(k as int + 1, end as int));
            assert(sub[0] == s[k as int]);
            let one = place(seq![s[k as int]], old_cursor as int, tw as int);
            assert(one =~= place(sub, old_cursor as int, tw as int).subrange(0, one.len() as int)) by {
                reveal_with_fuel(place, 2);
                assert(seq![s[k as int]].drop_first() =~= Seq::<ScrollableItem>::empty());
            }
            assert(place(sub, old_cursor as int, tw as int) =~= one + place(
                s.subrange(k as int + 1, end as int),
                cursor as int,
                tw as int,
            )) by {
                reveal_with_fuel(place, 2);
                assert(seq![s[k as int]].drop_first() =~= Seq::<ScrollableItem>::empty());
            }
            vstd::seq_lib::lemma_concat_associative(
                before,
                one,
                place(s.subrange(k as int + 1, end as int), cursor as int, tw as int),
            );
        }
        k = k + 1;
    }
    proof {
        assert(s.subrange(k as int, end as int) =~= Seq::<ScrollableItem>::empty());
        assert(layout@ =~= prefix + whole);
    }
    if needs_scroll {
        let right_x: i32 = widget_w - (PLUS_BTN_WIDTH + PLUS_BTN_MARGIN * 2) - SCROLL_ARROW_WIDTH - SCROLL_ARROW_MARGIN;
        layout.push(LayoutItem::ScrollRight { x: right_x, enabled: off + vis < items.len() });
    }
    layout.push(LayoutItem::PlusButton { x: widget_w - PLUS_BTN_WIDTH - PLUS_BTN_MARGIN });
    proof {
        let (l, t, v, o) = layout_spec(s, widget_w as int, scroll_offset as int);
        assert(layout@ =~= l);
    }
    TabLayout { layout, total_items: items.len(), visible_items: vis, scroll_offset: off }
}


// ---------------------------------------------------------------------------
// Hit-testing
// ---------------------------------------------------------------------------

/// What a point of the bar hits.
#[derive(Debug, Clone, Copy, PartialEq, Eq, Structural)]
pub enum HitResult {
    Tab { index: usize, is_close: bool },
    GroupLabel(GroupId),
    CollapsedChip(GroupId),
    PlusButton,
    ScrollLeft,
    ScrollRight,
    Miss,
}

/// Whether `(mx, my)` is on the close button of a tab at `x`, `width` wide,
/// in a bar whose top is at `wy`.
pub open spec fn on_close_button(x: int, width: int, wy: int, mx: int, my: int) -> bool {
    let close_x = x + width - CLOSE_BTN_MARGIN - CLOSE_BTN_SIZE;
    let close_y = wy + (TAB_BAR_HEIGHT - CLOSE_BTN_SIZE) / 2;
    close_x <= mx <= close_x + CLOSE_BTN_SIZE && close_y <= my <= close_y + CLOSE_BTN_SIZE
}

/// What `(mx, my)` hits of one item, if it is within the item's span.
pub open spec fn item_hit(it: LayoutItem, wy: int, mx: int, my: int) -> Option<HitResult> {
    match it {
        LayoutItem::Tab { index, x, width } => if x <= mx < x + width {
            Some(HitResult::Tab { index, is_close: on_close_button(x as int, width as int, wy, mx, my) })
        } else {
            None
        },
        LayoutItem::GroupLabel { group_id, x, width } => if x <= mx < x + width {
            Some(HitResult::GroupLabel(group_id))
        } else {
            None
        },
        LayoutItem::CollapsedChip { group_id, x, width, .. } => if x <= mx < x + width {
            Some(HitResult::CollapsedChip(group_id))
        } else {
            None
        },
        LayoutItem::PlusButton { x } => if x <= mx < x + PLUS_BTN_WIDTH {
            Some(HitResult::PlusButton)
        } else {
            None
        },
        LayoutItem::ScrollLeft { x, .. } => if x <= mx < x + SCROLL_ARROW_WIDTH {
            Some(HitResult::ScrollLeft)
        } else {
            None
        },
        LayoutItem::ScrollRight { x, .. } => if x <= mx < x + SCROLL_ARROW_WIDTH {
            Some(HitResult::ScrollRight)
        } else {
            None
        },
    }
}

/// The hit of the first item, in layout order, whose span holds `mx`.
pub open spec fn first_hit(items: Seq<LayoutItem>, wy: int, mx: int, my: int) -> HitResult
    decreases items.len(),
{
    if items.len() == 0 {
        HitResult::Miss
    } else {
        match item_hit(items[0], wy, mx, my) {
            Some(h) => h,
            None => first_hit(items.drop_first(), wy, mx, my),
        }
    }
}

/// What `(mx, my)` hits in a bar whose top is at `wy`: nothing outside the
/// bar's height, else the first item whose span holds `mx`.
pub open spec fn hit_spec(items: Seq<LayoutItem>, wy: int, mx: int, my: int) -> HitResult {
    if my < wy || my >= wy + TAB_BAR_HEIGHT {
        HitResult::Miss
    } else {
        first_hit(items, wy, mx, my)
    }
}

fn item_hit_exec(it: &LayoutItem, wy: i32, mx: i32, my: i32) -> (r: Option<HitResult>)
    ensures
        r == item_hit(*it, wy as int, mx as int, my as int),
{
    let mx = mx as i64;
    match *it {
        LayoutItem::Tab { index, x, width } => {
            if mx >= x as i64 && mx < x as i64 + width as i64 {
                let close_x: i64 = x as i64 + width as i64 - CLOSE_BTN_MARGIN as i64 - CLOSE_BTN_SIZE as i64;
                let close_y: i64 = wy as i64 + (TAB_BAR_HEIGHT - CLOSE_BTN_SIZE) as i64 / 2;
                let my = my as i64;
                let is_close = mx >= close_x && mx <= close_x + CLOSE_BTN_SIZE as i64 && my >= close_y && my
                    <= close_y + CLOSE_BTN_SIZE as i64;
                Some(HitResult::Tab { index, is_close })
            } else {
                None
            }
        },
        LayoutItem::GroupLabel { group_id, x, width } => {
            if mx >= x as i64 && mx < x as i64 + width as i64 {
                Some(HitResult::GroupLabel(group_id))
            } else {
                None
            }
        },
        LayoutItem::CollapsedChip { group_id, x, width, .. } => {
            if mx >= x as i64 && mx < x as i64 + width as i64 {
                Some(HitResult::CollapsedChip(group_id))
            } else {
                None
            }
        },
        LayoutItem::PlusButton { x } => {
            if mx >= x as i64 && mx < x as i64 + PLUS_BTN_WIDTH as i64 {
                Some(HitResult::PlusButton)
            } else {
                None
            }
        },
        LayoutItem::ScrollLeft { x, .. } => {
            if mx >= x as i64 && mx < x as i64 + SCROLL_ARROW_WIDTH as i64 {
                Some(HitResult::ScrollLeft)
            } else {
                None
            }
        },
        LayoutItem::ScrollRight { x, .. } => {
            if mx >= x as i64 && mx < x as i64 + SCROLL_ARROW_WIDTH as i64 {
                Some(HitResult::ScrollRight)
            } else {
                None
            }
        },
    }
}

/// What the point `(mx, my)` hits in the bar laid out as `items`, the bar's
/// top being at `wy` (see `hit_spec`).
pub fn hit_test_layout(items: &[LayoutItem], wy: i32, mx: i32, my: i32) -> (r: HitResult)
    ensures
        r == hit_spec(items@, wy as int, mx as int, my as int),
{
    assert(items@.skip(0) =~= items@);
    if (my as i64) < wy as i64 || my as i64 >= wy as i64 + TAB_BAR_HEIGHT as i64 {
        return HitResult::Miss;
    }
    let mut k: usize = 0;
    while k < items.len()
        invariant
            k <= items@.len(),
            wy <= my < wy + TAB_BAR_HEIGHT,
            first_hit(items@, wy as int, mx as int, my as int) == first_hit(
                items@.skip(k as int),
                wy as int,
                mx as int,
                my as int,
            ),
        decreases items@.len() - k,
    {
        proof {
            assert(items@.skip(k as int).drop_first() =~= items@.skip(k as int + 1));
        }
        if let Some(h) = item_hit_exec(&items[k], wy, mx, my) {
            assert(items@.skip(k as int)[0] == items@[k as int]);
            assert(first_hit(items@.skip(k as int), wy as int, mx as int, my as int) == h);
            return h;
        }
        k += 1;
    }
    proof {
        assert(items@.skip(k as int) =~= Seq::<LayoutItem>::empty());
    }
    HitResult::Miss
}


// ---------------------------------------------------------------------------
// What the layout shows is what a click hits
// ---------------------------------------------------------------------------

/// Where an element of the bar begins.
pub open spec fn span_start(it: LayoutItem) -> int {
    match it {
        LayoutItem::Tab { x, .. } => x as int,
        LayoutItem::GroupLabel { x, .. } => x as int,
        LayoutItem::CollapsedChip { x, .. } => x as int,
        LayoutItem::PlusButton { x } => x as int,
        LayoutItem::ScrollLeft { x, .. } => x as int,
        LayoutItem::ScrollRight { x, .. } => x as int,
    }
}

/// Where an element of the bar ends (exclusive).
pub open spec fn span_end(it: LayoutItem) -> int {
    match it {
        LayoutItem::Tab { x, width, .. } => x + width,
        LayoutItem::GroupLabel { x, width, .. } => x + width,
        LayoutItem::CollapsedChip { x, width, .. } => x + width,
        LayoutItem::PlusButton { x } => x + PLUS_BTN_WIDTH,
        LayoutItem::ScrollLeft { x, .. } => x + SCROLL_ARROW_WIDTH,
        LayoutItem::ScrollRight { x, .. } => x + SCROLL_ARROW_WIDTH,
    }
}

/// Whether an element is one of the scrollable items (a tab, a group label
/// or a collapsed chip).
pub open spec fn is_scrollable_element(it: LayoutItem) -> bool {
    it is Tab || it is GroupLabel || it is CollapsedChip
}

/// An element is hit exactly where its span is.
proof fn lemma_item_hit_span(it: LayoutItem, wy: int, mx: int, my: int)
    ensures
        item_hit(it, wy, mx, my) is Some <==> span_start(it) <= mx < span_end(it),
{
}

/// The sum of a measure over a prefix is at most the sum over the whole.
proof fn lemma_take_sum_le(s: Seq<ScrollableItem>, n: int)
    requires
        items_ok(s),
        0 <= n <= s.len(),
    ensures
        sum_by(s.take(n), Measure::Extent) <= sum_by(s, Measure::Extent),
        items_ok(s.take(n)),
    decreases n,
{
    if n > 0 {
        let t = s.take(n);
        assert(t[0] == s[0]);
        assert(t.drop_first() =~= s.drop_first().take(n - 1));
        lemma_items_ok_skip(s, 1);
        assert(s.skip(1) =~= s.drop_first());
        lemma_take_sum_le(s.drop_first(), n - 1);
    } else {
        lemma_sum_bounds(s, Measure::Extent);
        assert(s.take(n) =~= Seq::<ScrollableItem>::empty());
    }
    assert forall|i: int| 0 <= i < s.take(n).len() implies (#[trigger] s.take(n)[i]).width >= 0
        && s.take(n)[i].label_width >= 0 by {
        assert(s.take(n)[i] == s[i]);
    }
}

/// `greedy_count` takes at least one item (when there is one and none was
/// taken yet) and no more than there are.
proof fn lemma_greedy_count_bounds(s: Seq<ScrollableItem>, tw: int, avail: int, used: int, count: nat)
    ensures
        count <= greedy_count(s, tw, avail, used, count) <= count + s.len(),
        s.len() > 0 && count == 0 ==> greedy_count(s, tw, avail, used, count) >= 1,
    decreases s.len(),
{
    if s.len() > 0 {
        lemma_greedy_count_bounds(s.drop_first(), tw, avail, used + item_width(s[0], tw), count + 1);
    }
}

/// The elements that `place` lays out lie within `[cursor, cursor +
/// extent)`, each one ending before the next begins.
proof fn lemma_place_ordered(s: Seq<ScrollableItem>, cursor: int, tw: int)
    requires
        items_ok(s),
        MIN_TAB_WIDTH <= tw <= MAX_TAB_WIDTH,
        0 <= cursor,
        cursor + sum_by(s, Measure::Extent) <= i32::MAX,
    ensures
        forall|i: int|
            0 <= i < place(s, cursor, tw).len() ==> {
                &&& cursor <= span_start(#[trigger] place(s, cursor, tw)[i])
                &&& span_start(place(s, cursor, tw)[i]) <= span_end(place(s, cursor, tw)[i])
                &&& span_end(place(s, cursor, tw)[i]) <= cursor + sum_by(s, Measure::Extent)
                &&& is_scrollable_element(place(s, cursor, tw)[i])
            },
        forall|i: int, j: int|
            0 <= i < j < place(s, cursor, tw).len() ==> span_end(#[trigger] place(s, cursor, tw)[i])
                <= span_start(#[trigger] place(s, cursor, tw)[j]),
    decreases s.len(),
{
    let p = place(s, cursor, tw);
    if s.len() > 0 {
        let it = s[0];
        lemma_measure_bounds(it, Measure::Extent, tw);
        lemma_items_ok_skip(s, 1);
        assert(s.skip(1) =~= s.drop_first());
        lemma_sum_bounds(s.drop_first(), Measure::Extent);
        let c1 = cursor + label_space(it);
        let c2 = c1 + body_width(it, tw);
        let rest = s.drop_first();
        lemma_place_ordered(rest, c2, tw);
        let pr = place(rest, c2, tw);
        let lab = match it.label {
            Some(gid) => seq![LayoutItem::GroupLabel { group_id: gid, x: cursor as i32, width: it.label_width }],
            None => Seq::<LayoutItem>::empty(),
        };
        let main = match it.kind {
            ItemKind::Tab { index } => LayoutItem::Tab { index, x: c1 as i32, width: tw as i32 },
            ItemKind::Chip { group_id, count } => LayoutItem::CollapsedChip {
                group_id,
                x: c1 as i32,
                width: it.width,
                count,
            },
        };
        let head = lab + seq![main];
        assert(p =~= head + pr);
        let total = cursor + sum_by(s, Measure::Extent);
        assert(forall|i: int| 0 <= i < head.len() ==> {
            &&& cursor <= span_start(#[trigger] head[i])
            &&& span_start(head[i]) <= span_end(head[i])
            &&& span_end(head[i]) <= c2
            &&& is_scrollable_element(head[i])
        });
        assert(forall|i: int, j: int|
            0 <= i < j < head.len() ==> span_end(#[trigger] head[i]) <= span_start(#[trigger] head[j]));
        assert forall|i: int| 0 <= i < p.len() implies {
            &&& cursor <= span_start(#[trigger] p[i])
            &&& span_start(p[i]) <= span_end(p[i])
            &&& span_end(p[i]) <= total
            &&& is_scrollable_element(p[i])
        } by {
            if i >= head.len() {
                assert(p[i] == pr[i - head.len()]);
            } else {
                assert(p[i] == head[i]);
            }
        }
        assert forall|i: int, j: int| 0 <= i < j < p.len() implies span_end(#[trigger] p[i]) <= span_start(
            #[trigger] p[j],
        ) by {
            if j < head.len() {
                assert(p[i] == head[i] && p[j] == head[j]);
            } else if i >= head.len() {
                assert(p[i] == pr[i - head.len()] && p[j] == pr[j - head.len()]);
            } else {
                assert(p[i] == head[i] && p[j] == pr[j - head.len()]);
                assert(span_start(pr[j - head.len()]) >= c2);
            }
        }
    }
}

/// The first element whose span holds `mx` is the one hit: when every
/// element before the `k`-th ends before it begins, a point within the
/// `k`-th hits the `k`-th.
proof fn lemma_first_hit_ordered(p: Seq<LayoutItem>, k: int, wy: int, mx: int, my: int)
    requires
        0 <= k < p.len(),
        forall|i: int| 0 <= i < k ==> span_end(#[trigger] p[i]) <= span_start(p[k]),
        span_start(p[k]) <= mx < span_end(p[k]),
    ensures
        first_hit(p, wy, mx, my) == item_hit(p[k], wy, mx, my)->0,
    decreases k,
{
    lemma_item_hit_span(p[0], wy, mx, my);
    if k > 0 {
        let q = p.drop_first();
        assert(forall|i: int| 0 <= i < k - 1 ==> q[i] == p[i + 1]);
        assert(q[k - 1] == p[k]);
        assert(span_end(p[0]) <= span_start(p[k]));
        lemma_first_hit_ordered(q, k - 1, wy, mx, my);
    } else {
        lemma_item_hit_span(p[k], wy, mx, my);
    }
}

/// The window of items the layout shows: the offset is at most the last
/// item, at least one item is shown when there is one, the shown items
/// run to at most the last one, and when everything fits, everything is
/// shown from the first item on. Tabs are between the narrowest and the
/// widest tab width.
pub proof fn lemma_layout_window(items: Seq<ScrollableItem>, widget_w: int, offset: nat)
    requires
        layout_input_ok(items, widget_w),
    ensures
        ({
            let (layout, total, visible, off) = layout_spec(items, widget_w, offset as int);
            &&& total == items.len()
            &&& items.len() > 0 ==> 1 <= visible && off + visible <= total
            &&& !needs_scroll(items, widget_w) ==> off == 0 && visible == total
            &&& MIN_TAB_WIDTH <= layout_tab_width(items, widget_w, offset as int) <= MAX_TAB_WIDTH
        }),
{
    let off = clamped_offset(items, widget_w, offset as int);
    let tw = layout_tab_width(items, widget_w, offset as int);
    if !needs_scroll(items, widget_w) {
        lemma_share_width_range(
            available_width(items, widget_w) - sum_by(items, Measure::Fixed),
            sum_by(items, Measure::TabUnit),
        );
    } else {
        let rest = items.skip(off);
        let n = sum_by(rest, Measure::TabUnit);
        lemma_share_width_range(
            available_width(items, widget_w) - sum_by(rest, Measure::FixedScrolled) - (if n > 1 {
                n - 1
            } else {
                0
            }) * TAB_GAP,
            n,
        );
        if items.len() > 0 {
            lemma_greedy_count_bounds(rest, tw, available_width(items, widget_w), 0, 0);
        }
    }
}

/// A tab width among the allowed ones.
pub open spec fn tab_width_ok(it: LayoutItem) -> bool {
    it matches LayoutItem::Tab { width, .. } ==> MIN_TAB_WIDTH <= width <= MAX_TAB_WIDTH
}

/// Every tab that `place` lays out is `tw` wide.
proof fn lemma_place_tab_widths(s: Seq<ScrollableItem>, cursor: int, tw: int)
    requires
        MIN_TAB_WIDTH <= tw <= MAX_TAB_WIDTH,
    ensures
        forall|i: int| 0 <= i < place(s, cursor, tw).len() ==> tab_width_ok(#[trigger] place(s, cursor, tw)[i]),
    decreases s.len(),
{
    if s.len() > 0 {
        let it = s[0];
        let c1 = cursor + label_space(it);
        let c2 = c1 + body_width(it, tw);
        let rest = s.drop_first();
        lemma_place_tab_widths(rest, c2, tw);
        let pr = place(rest, c2, tw);
        let lab = match it.label {
            Some(gid) => seq![LayoutItem::GroupLabel { group_id: gid, x: cursor as i32, width: it.label_width }],
            None => Seq::<LayoutItem>::empty(),
        };
        let main = match it.kind {
            ItemKind::Tab { index } => LayoutItem::Tab { index, x: c1 as i32, width: tw as i32 },
            ItemKind::Chip { group_id, count } => LayoutItem::CollapsedChip {
                group_id,
                x: c1 as i32,
                width: it.width,
                count,
            },
        };
        let head = lab + seq![main];
        let p = place(s, cursor, tw);
        assert(p =~= head + pr);
        assert forall|i: int| 0 <= i < p.len() implies tab_width_ok(#[trigger] p[i]) by {
            if i >= head.len() {
                assert(p[i] == pr[i - head.len()]);
            } else {
                assert(p[i] == head[i]);
            }
        }
    }
}

/// The shape of the tab-bar layout: the plus button comes last (at the
/// left margin when there are no tabs, else at the right edge); without
/// items the layout is the plus button alone and nothing is counted; no
/// more items are shown than there are; when everything fits, all are
/// shown from the first; when scrolling, the offset is an item's, the
/// left arrow comes first and is enabled when items lie before the
/// offset, the right arrow comes just before the plus button and is
/// enabled when items lie after those shown; every tab is between the
/// narrowest and the widest tab width.
pub proof fn lemma_layout_shape(items: Seq<ScrollableItem>, widget_w: int, offset: nat)
    ensures
        ({
            let (layout, total, visible, off) = layout_spec(items, widget_w, offset as int);
            &&& layout.len() > 0
            &&& layout.last() == LayoutItem::PlusButton {
                x: if items.len() == 0 {
                    PLUS_BTN_MARGIN
                } else {
                    (widget_w - PLUS_BTN_WIDTH - PLUS_BTN_MARGIN) as i32
                },
            }
            &&& items.len() == 0 ==> layout == seq![LayoutItem::PlusButton { x: PLUS_BTN_MARGIN }] && total == 0
                && visible == 0 && off == 0
            &&& visible <= total
            &&& items.len() > 0 && !needs_scroll(items, widget_w) ==> off == 0 && visible == total
            &&& items.len() > 0 && needs_scroll(items, widget_w) ==> {
                &&& off < total
                &&& layout.len() >= 3
                &&& layout[0] == LayoutItem::ScrollLeft { x: SCROLL_ARROW_MARGIN, enabled: off > 0 }
                &&& layout[layout.len() - 2] matches LayoutItem::ScrollRight { enabled, .. }
                &&& layout[layout.len() - 2]->ScrollRight_enabled == (off + visible < total)
            }
            &&& forall|i: int| 0 <= i < layout.len() ==> tab_width_ok(#[trigger] layout[i])
        }),
{
    let (layout, total, visible, off) = layout_spec(items, widget_w, offset as int);
    if items.len() == 0 {
        return;
    }
    let scroll = needs_scroll(items, widget_w);
    let o = clamped_offset(items, widget_w, offset as int);
    let tw = layout_tab_width(items, widget_w, offset as int);
    let rest = items.skip(o);
    if !scroll {
        lemma_share_width_range(
            available_width(items, widget_w) - sum_by(items, Measure::Fixed),
            sum_by(items, Measure::TabUnit),
        );
    } else {
        let n = sum_by(rest, Measure::TabUnit);
        lemma_share_width_range(
            available_width(items, widget_w) - sum_by(rest, Measure::FixedScrolled) - (if n > 1 {
                n - 1
            } else {
                0
            }) * TAB_GAP,
            n,
        );
        lemma_greedy_count_bounds(rest, tw, available_width(items, widget_w), 0, 0);
    }
    let vis = layout_visible(items, widget_w, offset as int);
    let left = if scroll {
        seq![LayoutItem::ScrollLeft { x: SCROLL_ARROW_MARGIN, enabled: o > 0 }]
    } else {
        Seq::<LayoutItem>::empty()
    };
    let start = if scroll {
        scrolled_start()
    } else {
        0
    };
    let right = if scroll {
        seq![LayoutItem::ScrollRight { x: (widget_w - plus_space() - SCROLL_ARROW_WIDTH - SCROLL_ARROW_MARGIN) as i32, enabled: o + vis < items.len() }]
    } else {
        Seq::<LayoutItem>::empty()
    };
    let mid = place(items.subrange(o, o + vis), start, tw);
    let plus = seq![LayoutItem::PlusButton { x: (widget_w - PLUS_BTN_WIDTH - PLUS_BTN_MARGIN) as i32 }];
    assert(layout == left + mid + right + plus);
    lemma_place_tab_widths(items.subrange(o, o + vis), start, tw);
    assert forall|i: int| 0 <= i < layout.len() implies tab_width_ok(#[trigger] layout[i]) by {
        if i < left.len() {
            assert(layout[i] == left[i]);
        } else if i < left.len() + mid.len() {
            assert(layout[i] == mid[i - left.len()]);
        } else if i < left.len() + mid.len() + right.len() {
            assert(layout[i] == right[i - left.len() - mid.len()]);
        } else {
            assert(layout[i] == plus[i - left.len() - mid.len() - right.len()]);
        }
    }
    if scroll {
        assert(layout[0] == left[0]);
        assert(layout[layout.len() - 2] == right[0]);
    }
}

/// What the bar shows is what a click selects: a point of the bar within
/// a tab, a group label or a collapsed chip of the computed layout hits
/// that element. Shown items never overlap one another, and the left
/// scroll arrow lies before them.
pub proof fn lemma_layout_click_hits_item(
    items: Seq<ScrollableItem>,
    widget_w: int,
    offset: nat,
    k: int,
    wy: int,
    mx: int,
    my: int,
)
    requires
        layout_input_ok(items, widget_w),
        0 <= k < layout_spec(items, widget_w, offset as int).0.len(),
        is_scrollable_element(layout_spec(items, widget_w, offset as int).0[k]),
        span_start(layout_spec(items, widget_w, offset as int).0[k]) <= mx < span_end(
            layout_spec(items, widget_w, offset as int).0[k],
        ),
        wy <= my < wy + TAB_BAR_HEIGHT,
    ensures
        hit_spec(layout_spec(items, widget_w, offset as int).0, wy, mx, my) == item_hit(
            layout_spec(items, widget_w, offset as int).0[k],
            wy,
            mx,
            my,
        )->0,
{
    let layout = layout_spec(items, widget_w, offset as int).0;
    if items.len() == 0 {
        assert(layout[k] is PlusButton);
        return;
    }
    lemma_layout_window(items, widget_w, offset);
    let scroll = needs_scroll(items, widget_w);
    let off = clamped_offset(items, widget_w, offset as int);
    let tw = layout_tab_width(items, widget_w, offset as int);
    let vis = layout_visible(items, widget_w, offset as int) as int;
    let left = if scroll {
        seq![LayoutItem::ScrollLeft { x: SCROLL_ARROW_MARGIN, enabled: off > 0 }]
    } else {
        Seq::<LayoutItem>::empty()
    };
    let start = if scroll { scrolled_start() } else { 0 };
    let right = if scroll {
        seq![LayoutItem::ScrollRight { x: (widget_w - plus_space() - SCROLL_ARROW_WIDTH - SCROLL_ARROW_MARGIN) as i32, enabled: off + vis < items.len() }]
    } else {
        Seq::<LayoutItem>::empty()
    };
    let plus = seq![LayoutItem::PlusButton { x: (widget_w - PLUS_BTN_WIDTH - PLUS_BTN_MARGIN) as i32 }];
    let sub = items.subrange(off, off + vis);
    let p = place(sub, start, tw);
    assert(layout =~= left + p + right + plus);
    // The shown items fit the coordinates.
    lemma_items_ok_skip(items, off);
    lemma_skip_sum_le(items, off);
    assert(sub =~= items.skip(off).take(vis));
    lemma_take_sum_le(items.skip(off), vis);
    lemma_sum_bounds(items, Measure::Extent);
    lemma_place_ordered(sub, start, tw);
    // The element clicked is one of the placed ones.
    let a = left.len() as int;
    assert(k >= a) by {
        if k < a {
            assert(layout[k] == left[k]);
        }
    }
    assert(k < a + p.len()) by {
        if k >= a + p.len() {
            if k < a + p.len() + right.len() {
                assert(layout[k] == right[k - a - p.len()]);
            } else {
                assert(layout[k] == plus[k - a - p.len() - right.len()]);
            }
        }
    }
    assert(layout[k] == p[k - a]);
    assert forall|i: int| 0 <= i < k implies span_end(#[trigger] layout[i]) <= span_start(layout[k]) by {
        if i < a {
            assert(layout[i] == left[i]);
            assert(span_start(p[k - a]) >= start);
        } else {
            assert(layout[i] == p[i - a]);
            assert(span_end(p[i - a]) <= span_start(p[k - a]));
        }
    }
    lemma_first_hit_ordered(layout, k, wy, mx, my);
}

// ---------------------------------------------------------------------------
// Dragging
// ---------------------------------------------------------------------------

/// What is being dragged.
#[derive(Debug, Clone, Copy, PartialEq, Eq, Structural)]
pub enum DragSource {
    /// A single tab, by index.
    Tab(usize),
    /// A collapsed group, by its chip.
    Group(GroupId),
}

/// Where a drop would go.
#[derive(Debug, Clone, Copy, PartialEq, Eq, Structural)]
pub enum DragTarget {
    /// The middle of a tab: the two tabs are grouped.
    OnTab(usize),
    /// The edge of a tab: reorder, inserting at this index.
    InsertAt(usize),
    /// A collapsed group's chip: the tab joins that group.
    OnCollapsedGroup(GroupId),
}

/// Integer division rounding toward zero, as machine division does.
pub open spec fn div_toward_zero(a: int, b: int) -> int {
    if a >= 0 {
        a / b
    } else {
        -((-a) / b)
    }
}

fn div_toward_zero_exec(a: i64, b: i64) -> (r: i64)
    requires
        b > 0,
        a > i64::MIN,
    ensures
        r == div_toward_zero(a as int, b as int),
{
    if a >= 0 {
        ((a as u64) / (b as u64)) as i64
    } else {
        let q: u64 = ((-a) as u64) / (b as u64);
        assert(q <= (-a) as u64) by (nonlinear_arith)
            requires
                q == ((-a) as u64) / (b as u64),
                b > 0,
        ;
        -(q as i64)
    }
}

/// The position and width of the first tab item with this index.
pub open spec fn tab_span(layout: Seq<LayoutItem>, index: usize) -> Option<(i32, i32)>
    decreases layout.len(),
{
    if layout.len() == 0 {
        None
    } else {
        match layout[0] {
            LayoutItem::Tab { index: i, x, width } => if i == index {
                Some((x, width))
            } else {
                tab_span(layout.drop_first(), index)
            },
            _ => tab_span(layout.drop_first(), index),
        }
    }
}

/// The position and width of the first chip of this group.
pub open spec fn chip_span(layout: Seq<LayoutItem>, gid: GroupId) -> Option<(i32, i32)>
    decreases layout.len(),
{
    if layout.len() == 0 {
        None
    } else {
        match layout[0] {
            LayoutItem::CollapsedChip { group_id, x, width, .. } => if group_id == gid {
                Some((x, width))
            } else {
                chip_span(layout.drop_first(), gid)
            },
            _ => chip_span(layout.drop_first(), gid),
        }
    }
}

fn tab_span_exec(layout: &[LayoutItem], index: usize) -> (r: Option<(i32, i32)>)
    ensures
        r == tab_span(layout@, index),
{
    let mut k: usize = 0;
    assert(layout@.skip(0) =~= layout@);
    while k < layout.len()
        invariant
            k <= layout@.len(),
            tab_span(layout@, index) == tab_span(layout@.skip(k as int), index),
        decreases layout@.len() - k,
    {
        assert(layout@.skip(k as int).drop_first() =~= layout@.skip(k as int + 1));
        if let LayoutItem::Tab { index: i, x, width } = layout[k] {
            if i == index {
                return Some((x, width));
            }
        }
        k += 1;
    }
    assert(layout@.skip(k as int) =~= Seq::<LayoutItem>::empty());
    None
}

fn chip_span_exec(layout: &[LayoutItem], gid: GroupId) -> (r: Option<(i32, i32)>)
    ensures
        r == chip_span(layout@, gid),
{
    let mut k: usize = 0;
    assert(layout@.skip(0) =~= layout@);
    while k < layout.len()
        invariant
            k <= layout@.len(),
            chip_span(layout@, gid) == chip_span(layout@.skip(k as int), gid),
        decreases layout@.len() - k,
    {
        assert(layout@.skip(k as int).drop_first() =~= layout@.skip(k as int + 1));
        if let LayoutItem::CollapsedChip { group_id, x, width, .. } = layout[k] {
            if group_id == gid {
                return Some((x, width));
            }
        }
        k += 1;
    }
    assert(layout@.skip(k as int) =~= Seq::<LayoutItem>::empty());
    None
}

/// The group of tab `i`, if there is such a tab and it is grouped.
pub open spec fn group_of(tabs: Seq<TabInfo>, i: int) -> Option<GroupId> {
    if 0 <= i < tabs.len() {
        tabs[i].group_id
    } else {
        None
    }
}

/// The first tab of group `gid`.
#[verifier::opaque]
pub open spec fn first_in_group(tabs: Seq<TabInfo>, gid: GroupId) -> Option<int> {
    if exists|i: int| 0 <= i < tabs.len() && tabs[i].group_id == Some(gid) {
        Some(choose|i: int| 0 <= i < tabs.len() && tabs[i].group_id == Some(gid) && forall|j: int| 0 <= j < i ==> tabs[j].group_id != Some(gid))
    } else {
        None
    }
}

/// The last tab of group `gid`.
#[verifier::opaque]
pub open spec fn last_in_group(tabs: Seq<TabInfo>, gid: GroupId) -> Option<int> {
    if exists|i: int| 0 <= i < tabs.len() && tabs[i].group_id == Some(gid) {
        Some(choose|i: int| 0 <= i < tabs.len() && tabs[i].group_id == Some(gid) && forall|j: int| i < j < tabs.len() ==> tabs[j].group_id != Some(gid))
    } else {
        None
    }
}

fn first_in_group_exec(tabs: &[TabInfo], gid: GroupId) -> (r: Option<usize>)
    ensures
        r matches Some(i) ==> i < tabs@.len() && first_in_group(tabs@, gid) == Some(i as int)
            && tabs@[i as int].group_id == Some(gid),
        r is None ==> first_in_group(tabs@, gid) is None,
{
    let mut k: usize = 0;
    while k < tabs.len()
        invariant
            k <= tabs@.len(),
            forall|j: int| 0 <= j < k ==> tabs@[j].group_id != Some(gid),
        decreases tabs@.len() - k,
    {
        if tabs[k].group_id == Some(gid) {
            proof {
                reveal(first_in_group);
                let c = choose|i: int| 0 <= i < tabs@.len() && tabs@[i].group_id == Some(gid) && forall|j: int| 0 <= j < i ==> tabs@[j].group_id != Some(gid);
                assert(0 <= k < tabs@.len() && tabs@[k as int].group_id == Some(gid) && forall|j: int| 0 <= j < k ==> tabs@[j].group_id != Some(gid));
                assert(c == k as int) by {
                    if c < k {
                    } else if c > k {
                        assert(tabs@[k as int].group_id != Some(gid));
                    }
                }
            }
            return Some(k);
        }
        k += 1;
    }
    proof {
        reveal(first_in_group);
    }
    None
}

fn last_in_group_exec(tabs: &[TabInfo], gid: GroupId) -> (r: Option<usize>)
    ensures
        r matches Some(i) ==> i < tabs@.len() && last_in_group(tabs@, gid) == Some(i as int),
        r is None ==> last_in_group(tabs@, gid) is None,
        r is None ==> forall|j: int| 0 <= j < tabs@.len() ==> tabs@[j].group_id != Some(gid),
{
    let mut k: usize = tabs.len();
    while k > 0
        invariant
            k <= tabs@.len(),
            forall|j: int| k <= j < tabs@.len() ==> tabs@[j].group_id != Some(gid),
        decreases k,
    {
        k -= 1;
        if tabs[k].group_id == Some(gid) {
            proof {
                reveal(last_in_group);
                let c = choose|i: int| 0 <= i < tabs@.len() && tabs@[i].group_id == Some(gid) && forall|j: int| i < j < tabs@.len() ==> tabs@[j].group_id != Some(gid);
                assert(0 <= k < tabs@.len() && tabs@[k as int].group_id == Some(gid) && forall|j: int| k < j < tabs@.len() ==> tabs@[j].group_id != Some(gid));
                assert(c == k as int) by {
                    if c > k {
                    } else if c < k {
                        assert(tabs@[k as int].group_id != Some(gid));
                    }
                }
            }
            return Some(k);
        }
    }
    proof {
        reveal(last_in_group);
    }
    None
}

/// Tab indices in the layout leave room for the index after them.
pub open spec fn tab_indices_bounded(layout: Seq<LayoutItem>) -> bool {
    forall|k: int| 0 <= k < layout.len() ==> (#[trigger] layout[k] matches LayoutItem::Tab { index, .. } ==> index
        < usize::MAX)
}

/// Where dragging `source` to `(mx, my)` would drop it. A dragged tab:
/// over another tab, its left quarter inserts before it, its right quarter
/// after it, and the middle groups the two; over the chip of a group it is
/// not in, it joins that group. A dragged group: over a tab outside it,
/// the left half inserts before the tab and the right half after it; over
/// another group's chip, the left half inserts before that group's first
/// tab and the right half after its last tab. Anywhere else: no target.
pub open spec fn drag_target_spec(
    layout: Seq<LayoutItem>,
    tabs: Seq<TabInfo>,
    source: DragSource,
    wy: int,
    mx: int,
    my: int,
) -> Option<DragTarget> {
    let hit = hit_spec(layout, wy, mx, my);
    match source {
        DragSource::Tab(src) => tab_drag_target(layout, tabs, src, hit, mx),
        DragSource::Group(src_gid) => group_drag_target(layout, tabs, src_gid, hit, mx),
    }
}

/// Where a dragged tab would drop, given what the pointer hits.
pub open spec fn tab_drag_target(
    layout: Seq<LayoutItem>,
    tabs: Seq<TabInfo>,
    src: usize,
    hit: HitResult,
    mx: int,
) -> Option<DragTarget> {
    match hit {
        HitResult::Tab { index, .. } => if index == src {
            None
        } else {
            match tab_span(layout, index) {
                Some((x, w)) => {
                    let rel = mx - x;
                    if rel < div_toward_zero(w * 25, 100) {
                        Some(DragTarget::InsertAt(index))
                    } else if rel > div_toward_zero(w * 75, 100) {
                        Some(DragTarget::InsertAt((index + 1) as usize))
                    } else {
                        Some(DragTarget::OnTab(index))
                    }
                },
                None => None,
            }
        },
        HitResult::CollapsedChip(gid) => if group_of(tabs, src as int) != Some(gid) {
            Some(DragTarget::OnCollapsedGroup(gid))
        } else {
            None
        },
        _ => None,
    }
}

/// Where a dragged group would drop, given what the pointer hits.
pub open spec fn group_drag_target(
    layout: Seq<LayoutItem>,
    tabs: Seq<TabInfo>,
    src_gid: GroupId,
    hit: HitResult,
    mx: int,
) -> Option<DragTarget> {
    match hit {
        HitResult::Tab { index, .. } => if group_of(tabs, index as int) == Some(src_gid) {
            None
        } else {
            match tab_span(layout, index) {
                Some((x, w)) => if mx - x < div_toward_zero(w as int, 2) {
                    Some(DragTarget::InsertAt(index))
                } else {
                    Some(DragTarget::InsertAt((index + 1) as usize))
                },
                None => None,
            }
        },
        HitResult::CollapsedChip(gid) => if gid == src_gid {
            None
        } else {
            group_insert_target(layout, tabs, gid, mx)
        },
        _ => None,
    }
}

/// Where a dragged group lands over the chip of group `gid`: before that
/// group's first tab (left half) or after its last tab (right half).
pub open spec fn group_insert_target(layout: Seq<LayoutItem>, tabs: Seq<TabInfo>, gid: GroupId, mx: int) -> Option<
    DragTarget,
> {
    match first_in_group(tabs, gid) {
        Some(first) => match chip_span(layout, gid) {
            Some((x, w)) => if mx - x < div_toward_zero(w as int, 2) {
                Some(DragTarget::InsertAt(first as usize))
            } else {
                Some(DragTarget::InsertAt((last_in_group(tabs, gid)->0 + 1) as usize))
            },
            None => None,
        },
        None => None,
    }
}

fn group_of_exec(tabs: &[TabInfo], i: usize) -> (r: Option<GroupId>)
    ensures
        r == group_of(tabs@, i as int),
{
    if i < tabs.len() {
        tabs[i].group_id
    } else {
        None
    }
}

fn tab_drag_target_exec(layout: &[LayoutItem], tabs: &[TabInfo], src: usize, hit: HitResult, mx: i32) -> (r:
    Option<DragTarget>)
    requires
        hit matches HitResult::Tab { index, .. } ==> index < usize::MAX,
    ensures
        r == tab_drag_target(layout@, tabs@, src, hit, mx as int),
{
    match hit {
        HitResult::Tab { index, .. } => {
            if index == src {
                None
            } else {
                match tab_span_exec(layout, index) {
                    Some((x, w)) => {
                        let rel: i64 = mx as i64 - x as i64;
                        if rel < div_toward_zero_exec(w as i64 * 25, 100) {
                            Some(DragTarget::InsertAt(index))
                        } else if rel > div_toward_zero_exec(w as i64 * 75, 100) {
                            Some(DragTarget::InsertAt(index + 1))
                        } else {
                            Some(DragTarget::OnTab(index))
                        }
                    },
                    None => None,
                }
            }
        },
        HitResult::CollapsedChip(gid) => {
            if group_of_exec(tabs, src) != Some(gid) {
                Some(DragTarget::OnCollapsedGroup(gid))
            } else {
                None
            }
        },
        _ => None,
    }
}

fn group_drag_target_exec(
    layout: &[LayoutItem],
    tabs: &[TabInfo],
    src_gid: GroupId,
    hit: HitResult,
    mx: i32,
) -> (r: Option<DragTarget>)
    requires
        hit matches HitResult::Tab { index, .. } ==> index < usize::MAX,
    ensures
        r == group_drag_target(layout@, tabs@, src_gid, hit, mx as int),
{
    match hit {
        HitResult::Tab { index, .. } => {
            if group_of_exec(tabs, index) == Some(src_gid) {
                None
            } else {
                match tab_span_exec(layout, index) {
                    Some((x, w)) => {
                        if (mx as i64 - x as i64) < div_toward_zero_exec(w as i64, 2) {
                            Some(DragTarget::InsertAt(index))
                        } else {
                            Some(DragTarget::InsertAt(index + 1))
                        }
                    },
                    None => None,
                }
            }
        },
        HitResult::CollapsedChip(gid) => {
            if gid == src_gid {
                None
            } else {
                group_insert_target_exec(layout, tabs, gid, mx)
            }
        },
        _ => None,
    }
}

fn group_insert_target_exec(layout: &[LayoutItem], tabs: &[TabInfo], gid: GroupId, mx: i32) -> (r: Option<
    DragTarget,
>)
    ensures
        r == group_insert_target(layout@, tabs@, gid, mx as int),
{
    match first_in_group_exec(tabs, gid) {
        Some(first) => match chip_span_exec(layout, gid) {
            Some((x, w)) => {
                if (mx as i64 - x as i64) < div_toward_zero_exec(w as i64, 2) {
                    Some(DragTarget::InsertAt(first))
                } else {
                    let n: usize = tabs.len();
                    let last = last_in_group_exec(tabs, gid);
                    let last = match last {
                        Some(l) => l,
                        None => first,
                    };
                    Some(DragTarget::InsertAt(last + 1))
                }
            },
            None => None,
        },
        None => None,
    }
}

/// Where dragging `source` to `(mx, my)` would drop it (see
/// `drag_target_spec`); the bar's top is at `wy`.
pub fn drag_target(
    layout: &[LayoutItem],
    tabs: &[TabInfo],
    source: DragSource,
    wy: i32,
    mx: i32,
    my: i32,
) -> (r: Option<DragTarget>)
    requires
        tab_indices_bounded(layout@),
    ensures
        r == drag_target_spec(layout@, tabs@, source, wy as int, mx as int, my as int),
{
    let hit = hit_test_layout(layout, wy, mx, my);
    proof {
        lemma_first_hit_tab_in_layout(layout@, wy as int, mx as int, my as int);
    }
    match source {
        DragSource::Tab(src) => tab_drag_target_exec(layout, tabs, src, hit, mx),
        DragSource::Group(src_gid) => group_drag_target_exec(layout, tabs, src_gid, hit, mx),
    }
}

/// A tab hit always comes from a tab item of the layout.
proof fn lemma_first_hit_tab_in_layout(layout: Seq<LayoutItem>, wy: int, mx: int, my: int)
    ensures
        first_hit(layout, wy, mx, my) matches HitResult::Tab { index, .. } ==> exists|k: int|
            0 <= k < layout.len() && (#[trigger] layout[k] matches LayoutItem::Tab { index: i, .. } && i == index),
    decreases layout.len(),
{
    if layout.len() > 0 {
        lemma_first_hit_tab_in_layout(layout.drop_first(), wy, mx, my);
        if first_hit(layout, wy, mx, my) is Tab && item_hit(layout[0], wy, mx, my) is None {
            let k = choose|k: int| 0 <= k < layout.drop_first().len() && (#[trigger] layout.drop_first()[k] matches LayoutItem::Tab { index: i, .. } && i == first_hit(layout, wy, mx, my)->index);
            assert(layout[k + 1] == layout.drop_first()[k]);
        }
    }
}


// ---------------------------------------------------------------------------
// Decisions on pointer events
// ---------------------------------------------------------------------------

/// What the bar asks the application to do.
#[derive(Debug, Clone, Copy, PartialEq, Eq, Structural)]
pub enum TabAction {
    /// Open a new document.
    FileNew,
    /// Close the document.
    TabClose(DocumentId),
    /// Make the document the active one.
    TabSwitch(DocumentId),
    /// Group the first document with the second.
    TabGroupByDrag(DocumentId, DocumentId),
    /// Move the tab at the first index to the second.
    TabMove(usize, usize),
    /// Move the document to the index and put it in the group (or in none).
    TabMoveToGroup(DocumentId, usize, Option<GroupId>),
    /// Move the group's tabs to the index.
    TabGroupMove(GroupId, usize),
    /// Collapse or expand the group.
    TabGroupToggle(GroupId),
}

/// The group of the tab before insertion point `to`, the dragged tab `from`
/// left out.
pub open spec fn group_before(tabs: Seq<TabInfo>, from: int, to: int) -> Option<GroupId> {
    if to > 0 && to - 1 != from {
        group_of(tabs, to - 1)
    } else if to > 1 && to - 1 == from {
        group_of(tabs, to - 2)
    } else {
        None
    }
}

/// The group of the tab after insertion point `to`, the dragged tab `from`
/// left out.
pub open spec fn group_after(tabs: Seq<TabInfo>, from: int, to: int) -> Option<GroupId> {
    if to < tabs.len() && to != from {
        group_of(tabs, to)
    } else if to + 1 < tabs.len() && to == from {
        group_of(tabs, to + 1)
    } else {
        None
    }
}

/// What dropping the tab at `from` at insertion point `to` asks for: a tab
/// joins a group only when dropped between two tabs of that group, and
/// leaves its group when dropped anywhere else; dropping it where it is
/// asks for nothing.
pub open spec fn insert_action(tabs: Seq<TabInfo>, from: usize, to: usize) -> Option<TabAction> {
    let source = tabs[from as int];
    let gb = group_before(tabs, from as int, to as int);
    let ga = group_after(tabs, from as int, to as int);
    let target_group = if gb is Some && gb == ga {
        gb
    } else {
        None
    };
    if from == to {
        None
    } else if target_group is Some {
        if source.group_id != target_group {
            Some(TabAction::TabMoveToGroup(source.id, to, target_group))
        } else {
            Some(TabAction::TabMove(from, to))
        }
    } else if source.group_id is Some {
        Some(TabAction::TabMoveToGroup(source.id, to, None))
    } else {
        Some(TabAction::TabMove(from, to))
    }
}

/// A tab dropped at an insertion point joins a group only when dropped
/// between two tabs of that group (its neighbours there, itself left
/// aside), never at a group's edge; it leaves its group only when it is
/// in one and is not dropped between tabs of the same group; and a drop
/// where it already is asks for nothing.
pub proof fn lemma_drop_joins_group_only_between_members(tabs: Seq<TabInfo>, from: usize, to: usize)
    ensures
        from == to ==> insert_action(tabs, from, to) is None,
        forall|id: DocumentId, pos: usize, g: GroupId|
            insert_action(tabs, from, to) == Some(TabAction::TabMoveToGroup(id, pos, Some(g))) ==> group_before(
                tabs,
                from as int,
                to as int,
            ) == Some(g) && group_after(tabs, from as int, to as int) == Some(g) && tabs[from as int].group_id
                != Some(g),
        forall|id: DocumentId, pos: usize|
            insert_action(tabs, from, to) == Some(TabAction::TabMoveToGroup(id, pos, None))
                ==> tabs[from as int].group_id is Some && !(group_before(tabs, from as int, to as int) is Some
                && group_before(tabs, from as int, to as int) == group_after(tabs, from as int, to as int)),
{
}

/// The drag's source and target refer to tabs that exist.
pub open spec fn release_ok(tabs: Seq<TabInfo>, source: Option<DragSource>, target: Option<DragTarget>) -> bool {
    match (source, target) {
        (Some(DragSource::Tab(from)), Some(t)) => from < tabs.len() && (t matches DragTarget::OnTab(i) ==> i
            < tabs.len()),
        _ => true,
    }
}

/// What releasing the pointer asks for, given what was dragged and where it
/// would drop: a tab on a tab groups them; a tab at an insertion point moves
/// (see `insert_action`); a tab on a collapsed group joins it after its last
/// tab (or stays where it is if the group has no tab); a group at an
/// insertion point moves there; a group chip released without a target
/// toggles the group. Anything else asks for nothing.
pub open spec fn release_spec(tabs: Seq<TabInfo>, source: Option<DragSource>, target: Option<DragTarget>) -> Option<
    TabAction,
> {
    match (source, target) {
        (Some(DragSource::Tab(from)), Some(DragTarget::OnTab(t))) => Some(
            TabAction::TabGroupByDrag(tabs[from as int].id, tabs[t as int].id),
        ),
        (Some(DragSource::Tab(from)), Some(DragTarget::InsertAt(to))) => insert_action(tabs, from, to),
        (Some(DragSource::Tab(from)), Some(DragTarget::OnCollapsedGroup(gid))) => {
            let pos = match last_in_group(tabs, gid) {
                Some(last) => (last + 1) as usize,
                None => from,
            };
            Some(TabAction::TabMoveToGroup(tabs[from as int].id, pos, Some(gid)))
        },
        (Some(DragSource::Group(gid)), Some(DragTarget::InsertAt(to))) => Some(TabAction::TabGroupMove(gid, to)),
        (Some(DragSource::Group(gid)), None) => Some(TabAction::TabGroupToggle(gid)),
        _ => None,
    }
}

fn insert_action_exec(tabs: &[TabInfo], from: usize, to: usize) -> (r: Option<TabAction>)
    requires
        from < tabs@.len(),
    ensures
        r == insert_action(tabs@, from, to),
{
    let n: usize = tabs.len();
    let source_id = tabs[from].id;
    let source_group = tabs[from].group_id;
    let gb = if to > 0 && to - 1 != from {
        group_of_exec(tabs, to - 1)
    } else if to > 1 && to - 1 == from {
        group_of_exec(tabs, to - 2)
    } else {
        None
    };
    let ga = if to < n && to != from {
        group_of_exec(tabs, to)
    } else if to < n && to + 1 < n && to == from {
        group_of_exec(tabs, to + 1)
    } else {
        None
    };
    let target_group = if gb.is_some() && gb == ga {
        gb
    } else {
        None
    };
    if from == to {
        None
    } else if target_group.is_some() {
        if source_group != target_group {
            Some(TabAction::TabMoveToGroup(source_id, to, target_group))
        } else {
            Some(TabAction::TabMove(from, to))
        }
    } else if source_group.is_some() {
        Some(TabAction::TabMoveToGroup(source_id, to, None))
    } else {
        Some(TabAction::TabMove(from, to))
    }
}

/// What releasing the pointer asks for (see `release_spec`).
pub fn release_action(tabs: &[TabInfo], source: Option<DragSource>, target: Option<DragTarget>) -> (r: Option<
    TabAction,
>)
    requires
        release_ok(tabs@, source, target),
    ensures
        r == release_spec(tabs@, source, target),
{
    match (source, target) {
        (Some(DragSource::Tab(from)), Some(DragTarget::OnTab(t))) => Some(
            TabAction::TabGroupByDrag(tabs[from].id, tabs[t].id),
        ),
        (Some(DragSource::Tab(from)), Some(DragTarget::InsertAt(to))) => insert_action_exec(tabs, from, to),
        (Some(DragSource::Tab(from)), Some(DragTarget::OnCollapsedGroup(gid))) => {
            let n: usize = tabs.len();
            let pos = match last_in_group_exec(tabs, gid) {
                Some(last) => last + 1,
                None => from,
            };
            Some(TabAction::TabMoveToGroup(tabs[from].id, pos, Some(gid)))
        },
        (Some(DragSource::Group(gid)), Some(DragTarget::InsertAt(to))) => Some(TabAction::TabGroupMove(gid, to)),
        (Some(DragSource::Group(gid)), None) => Some(TabAction::TabGroupToggle(gid)),
        _ => None,
    }
}

/// A press on a tab acts on that tab and no other: the middle button, or
/// the left one on its close button, closes it; the left one elsewhere
/// selects it; the right one opens its menu. The left button on the plus
/// button asks for a new file.
pub proof fn lemma_press_acts_on_hit_tab(tabs: Seq<TabInfo>, index: usize, is_close: bool, button: int)
    requires
        index < tabs.len(),
    ensures
        (button == 2 || (button == 1 && is_close)) ==> press_spec(tabs, (HitResult::Tab { index, is_close }), button)
            == PressAction::Send(TabAction::TabClose(tabs[index as int].id)),
        (button == 1 && !is_close) ==> press_spec(tabs, (HitResult::Tab { index, is_close }), button)
            == (PressAction::SelectTab { index, id: tabs[index as int].id }),
        button == 3 ==> press_spec(tabs, (HitResult::Tab { index, is_close }), button) == PressAction::TabMenu(index),
        press_spec(tabs, HitResult::PlusButton, 1) == PressAction::Send(TabAction::FileNew),
{
}

/// Only the scroll arrows scroll, each toward its own side: a left click
/// scrolls left exactly when it hits the left arrow and right exactly when
/// it hits the right arrow; no other button scrolls.
pub proof fn lemma_press_scrolls_toward_arrow(tabs: Seq<TabInfo>, hit: HitResult, button: int)
    ensures
        ((press_spec(tabs, hit, button) is ScrollLeft) <==> (hit is ScrollLeft && button == 1)),
        ((press_spec(tabs, hit, button) is ScrollRight) <==> (hit is ScrollRight && button == 1)),
{
}

/// What pressing a mouse button asks for.
#[derive(Debug, Clone, Copy, PartialEq, Eq, Structural)]
pub enum PressAction {
    /// Ask the application for something.
    Send(TabAction),
    /// Start dragging the tab and make it the active one.
    SelectTab { index: usize, id: DocumentId },
    /// Start dragging the collapsed group.
    GrabGroup(GroupId),
    /// Show the context menu of the tab.
    TabMenu(usize),
    /// Show the context menu of the group.
    GroupMenu(GroupId),
    /// Scroll one item to the left.
    ScrollLeft,
    /// Scroll one item to the right.
    ScrollRight,
    /// The press is taken, with nothing to do.
    Consumed,
    /// The press is not the bar's.
    Ignored,
}

/// What pressing `button` (1 left, 2 middle, 3 right) on `hit` asks for:
/// the left button opens a document on the plus button, closes a tab on its
/// close button, selects a tab elsewhere on it, toggles a group on its label,
/// grabs a collapsed group's chip and scrolls on the arrows; the middle
/// button closes a tab; the right button opens a context menu.
pub open spec fn press_spec(tabs: Seq<TabInfo>, hit: HitResult, button: int) -> PressAction {
    match hit {
        HitResult::PlusButton => if button == 1 {
            PressAction::Send(TabAction::FileNew)
        } else {
            PressAction::Ignored
        },
        HitResult::Tab { index, is_close } => {
            let id = tabs[index as int].id;
            if button == 3 {
                PressAction::TabMenu(index)
            } else if button == 2 {
                PressAction::Send(TabAction::TabClose(id))
            } else if button == 1 {
                if is_close {
                    PressAction::Send(TabAction::TabClose(id))
                } else {
                    PressAction::SelectTab { index, id }
                }
            } else {
                PressAction::Consumed
            }
        },
        HitResult::GroupLabel(gid) => if button == 1 {
            PressAction::Send(TabAction::TabGroupToggle(gid))
        } else if button == 3 {
            PressAction::GroupMenu(gid)
        } else {
            PressAction::Consumed
        },
        HitResult::CollapsedChip(gid) => if button == 1 {
            PressAction::GrabGroup(gid)
        } else if button == 3 {
            PressAction::GroupMenu(gid)
        } else {
            PressAction::Consumed
        },
        HitResult::ScrollLeft => if button == 1 {
            PressAction::ScrollLeft
        } else {
            PressAction::Ignored
        },
        HitResult::ScrollRight => if button == 1 {
            PressAction::ScrollRight
        } else {
            PressAction::Ignored
        },
        HitResult::Miss => PressAction::Ignored,
    }
}

/// What pressing `button` on `hit` asks for (see `press_spec`).
pub fn press_action(tabs: &[TabInfo], hit: HitResult, button: i32) -> (r: PressAction)
    requires
        hit matches HitResult::Tab { index, .. } ==> index < tabs@.len(),
    ensures
        r == press_spec(tabs@, hit, button as int),
        (r is ScrollLeft) <==> (hit is ScrollLeft && button == 1),
        (r is ScrollRight) <==> (hit is ScrollRight && button == 1),
{
    proof {
        lemma_press_scrolls_toward_arrow(tabs@, hit, button as int);
    }
    match hit {
        HitResult::PlusButton => if button == 1 {
            PressAction::Send(TabAction::FileNew)
        } else {
            PressAction::Ignored
        },
        HitResult::Tab { index, is_close } => {
            let id = tabs[index].id;
            if button == 3 {
                PressAction::TabMenu(index)
            } else if button == 2 {
                PressAction::Send(TabAction::TabClose(id))
            } else if button == 1 {
                if is_close {
                    PressAction::Send(TabAction::TabClose(id))
                } else {
                    PressAction::SelectTab { index, id }
                }
            } else {
                PressAction::Consumed
            }
        },
        HitResult::GroupLabel(gid) => if button == 1 {
            PressAction::Send(TabAction::TabGroupToggle(gid))
        } else if button == 3 {
            PressAction::GroupMenu(gid)
        } else {
            PressAction::Consumed
        },
        HitResult::CollapsedChip(gid) => if button == 1 {
            PressAction::GrabGroup(gid)
        } else if button == 3 {
            PressAction::GroupMenu(gid)
        } else {
            PressAction::Consumed
        },
        HitResult::ScrollLeft => if button == 1 {
            PressAction::ScrollLeft
        } else {
            PressAction::Ignored
        },
        HitResult::ScrollRight => if button == 1 {
            PressAction::ScrollRight
        } else {
            PressAction::Ignored
        },
        HitResult::Miss => PressAction::Ignored,
    }
}

// ---------------------------------------------------------------------------
// Scrolling
// ---------------------------------------------------------------------------

/// The offset after one step to the left: `None` when already at the start.
pub fn scroll_left_offset(offset: usize) -> (r: Option<usize>)
    ensures
        offset > 0 ==> r == Some((offset - 1) as usize),
        offset == 0 ==> r is None,
{
    if offset > 0 {
        Some(offset - 1)
    } else {
        None
    }
}

/// The offset after one step to the right: `None` when the last items are
/// already shown.
pub fn scroll_right_offset(offset: usize, total: usize, visible: usize) -> (r: Option<usize>)
    ensures
        offset + visible < total ==> r == Some((offset + 1) as usize),
        offset + visible >= total ==> r is None,
{
    let max_offset = if total > visible {
        total - visible
    } else {
        0
    };
    if offset < max_offset {
        Some(offset + 1)
    } else {
        None
    }
}

/// The offset kept when the bar is resized: at most the last item.
pub fn resize_offset(offset: usize, total: usize) -> (r: usize)
    ensures
        r == (if total == 0 {
            0
        } else if offset > total - 1 {
            (total - 1) as usize
        } else {
            offset
        }),
{
    let max_offset = if total > 0 {
        total - 1
    } else {
        0
    };
    if offset > max_offset {
        max_offset
    } else {
        offset
    }
}

/// The offset that brings item `idx` into view, `visible` items being
/// shown from `offset` on: unchanged if it is in view (or nothing is
/// shown), `idx` if it lies to the left, else the offset that shows it
/// last.
pub open spec fn reveal_spec(idx: int, offset: int, visible: int) -> int {
    if idx < offset {
        idx
    } else if idx >= offset + visible && visible > 0 {
        if idx >= visible - 1 {
            idx - (visible - 1)
        } else {
            0
        }
    } else {
        offset
    }
}

/// The offset that brings item `idx` into view (see `reveal_spec`).
pub fn reveal_offset(idx: usize, offset: usize, visible: usize) -> (r: usize)
    ensures
        r == reveal_spec(idx as int, offset as int, visible as int),
{
    if idx < offset {
        idx
    } else if visible > 0 && idx - offset >= visible {
        if idx >= visible - 1 {
            idx - (visible - 1)
        } else {
            0
        }
    } else {
        offset
    }
}

/// After revealing an item, it lies among the items shown: from the new
/// offset, `visible` items (at least one) include it.
pub proof fn lemma_reveal_shows_item(idx: int, offset: int, visible: int)
    requires
        0 <= idx,
        0 <= offset,
        visible > 0,
    ensures
        0 <= reveal_spec(idx, offset, visible) <= idx < reveal_spec(idx, offset, visible) + visible,
{
}

/// Revealing an item already in view keeps the offset.
pub proof fn lemma_reveal_keeps_visible_item(idx: int, offset: int, visible: int)
    requires
        offset <= idx < offset + visible,
    ensures
        reveal_spec(idx, offset, visible) == offset,
{
}

/// `o` moved `d` places on.
pub open spec fn shifted(o: Option<int>, d: int) -> Option<int> {
    match o {
        Some(n) => Some(n + d),
        None => None,
    }
}

/// The index, among the items `items_from(tabs, groups, i, current)`, of the
/// item that holds the first tab whose id is `active`.
#[verifier::opaque]
pub open spec fn item_index_from(
    tabs: Seq<TabInfo>,
    groups: Seq<GroupInfo>,
    i: int,
    current: Option<GroupId>,
    active: DocumentId,
) -> Option<int>
    decreases tabs.len() - i,
{
    if i < 0 || i >= tabs.len() {
        None
    } else {
        let g = tabs[i].group_id;
        if opens_collapsed(tabs, groups, i, current) {
            let count = run_len(tabs, i, g->0);
            proof {
                lemma_run_len_bound(tabs, i, g->0);
            }
            if exists|k: int| i <= k < i + count && tabs[k].id == active {
                Some(0)
            } else {
                shifted(item_index_from(tabs, groups, i + count, g, active), 1)
            }
        } else if tabs[i].id == active {
            Some(0)
        } else {
            shifted(
                item_index_from(
                    tabs,
                    groups,
                    i + 1,
                    if g != current {
                        g
                    } else {
                        current
                    },
                    active,
                ),
                1,
            )
        }
    }
}

proof fn lemma_index_step(
    tabs: Seq<TabInfo>,
    groups: Seq<GroupInfo>,
    i: int,
    current: Option<GroupId>,
    active: DocumentId,
    next: int,
    cur: Option<GroupId>,
    found: bool,
    idx: int,
)
    requires
        0 <= i < tabs.len(),
        opens_collapsed(tabs, groups, i, current) ==> next == i + run_len(tabs, i, tabs[i].group_id->0) && cur
            == tabs[i].group_id && found == exists|k: int| i <= k < next && tabs[k].id == active,
        !opens_collapsed(tabs, groups, i, current) ==> next == i + 1 && cur == (if tabs[i].group_id != current {
            tabs[i].group_id
        } else {
            current
        }) && found == (tabs[i].id == active),
    ensures
        found ==> item_index_from(tabs, groups, i, current, active) == Some(0int),
        !found ==> shifted(item_index_from(tabs, groups, i, current, active), idx) == shifted(
            item_index_from(tabs, groups, next, cur, active),
            idx + 1,
        ),
{
    reveal(item_index_from);
}

/// Whether a tab from `start` (inclusive) to `end` (exclusive) has id `active`.
fn any_tab_with_id(tabs: &[TabInfo], start: usize, end: usize, active: DocumentId) -> (r: bool)
    requires
        start <= end <= tabs@.len(),
    ensures
        r == exists|k: int| start <= k < end && tabs@[k].id == active,
{
    let mut k = start;
    while k < end
        invariant
            start <= k <= end <= tabs@.len(),
            forall|j: int| start <= j < k ==> tabs@[j].id != active,
        decreases end - k,
    {
        if tabs[k].id == active {
            return true;
        }
        k += 1;
    }
    false
}

/// The index of the scrollable item that holds the first tab whose id is
/// `active` (see `item_index_from`).
pub fn active_item_index(tabs: &[TabInfo], groups: &[GroupInfo], active: DocumentId) -> (r: Option<usize>)
    ensures
        r matches Some(k) ==> item_index_from(tabs@, groups@, 0, None, active) == Some(k as int),
        r is None ==> item_index_from(tabs@, groups@, 0, None, active) is None,
{
    let mut idx: usize = 0;
    let mut i: usize = 0;
    let mut current: Option<GroupId> = None;
    while i < tabs.len()
        invariant
            idx <= i <= tabs@.len(),
            item_index_from(tabs@, groups@, 0, None, active) == shifted(
                item_index_from(tabs@, groups@, i as int, current, active),
                idx as int,
            ),
        decreases tabs@.len() - i,
    {
        let (item, next, cur) = next_item(tabs, groups, i, current);
        proof {
            lemma_run_len_bound(tabs@, i as int, tabs@[i as int].group_id->0);
        }
        let found = match item.kind {
            ItemKind::Chip { .. } => any_tab_with_id(tabs, i, next, active),
            ItemKind::Tab { .. } => tabs[i].id == active,
        };
        proof {
            lemma_index_step(tabs@, groups@, i as int, current, active, next as int, cur, found, idx as int);
        }
        if found {
            return Some(idx);
        }
        i = next;
        current = cur;
        idx += 1;
    }
    proof {
        reveal(item_index_from);
    }
    None
}

/// The offset that shows the active tab's item (see `reveal_offset`), or
/// `None` when there is no active tab or no tab has its id.
pub fn ensure_active_visible(
    tabs: &[TabInfo],
    groups: &[GroupInfo],
    active_id: Option<DocumentId>,
    offset: usize,
    visible: usize,
) -> (r: Option<usize>)
    ensures
        active_id is None ==> r is None,
        active_id matches Some(a) ==> match item_index_from(tabs@, groups@, 0, None, a) {
            None => r is None,
            Some(k) => r matches Some(o) && o == reveal_spec(k, offset as int, visible as int),
        },
{
    match active_id {
        None => None,
        Some(a) => match active_item_index(tabs, groups, a) {
            None => None,
            Some(k) => Some(reveal_offset(k, offset, visible)),
        },
    }
}


// ---------------------------------------------------------------------------
// Labels and measured widths
// ---------------------------------------------------------------------------

/// Padding left and right of a tab's text.
pub const TAB_H_PADDING: i32 = 10;
/// Padding left and right of a group label's text.
pub const GROUP_LABEL_H_PAD: i32 = 8;
/// The narrowest a collapsed chip gets.
pub const COLLAPSED_CHIP_MIN_W: i32 = 50;
/// Radius of a group's color dot.
pub const GROUP_DOT_RADIUS: i32 = 5;

/// The text a tab shows before it is fitted: its name, after a dot and a
/// space when it has unsaved changes.
pub fn tab_label(display_name: &str, is_dirty: bool) -> (r: String)
    ensures
        r@ == (if is_dirty {
            seq!['\u{25cf}', ' '] + display_name@
        } else {
            display_name@
        }),
{
    let mut r = String::new();
    if is_dirty {
        crate::text::push_char(&mut r, '\u{25cf}');
        crate::text::push_char(&mut r, ' ');
    }
    crate::text::append_str(&mut r, display_name);
    r
}

/// The width a tab leaves for its text: the tab less its paddings and its
/// close button.
pub fn tab_text_width(tab_width: i32) -> (r: i32)
    requires
        MIN_TAB_WIDTH <= tab_width <= MAX_TAB_WIDTH,
    ensures
        r == tab_width - TAB_H_PADDING - CLOSE_BTN_MARGIN - CLOSE_BTN_SIZE - TAB_H_PADDING,
{
    tab_width - TAB_H_PADDING - CLOSE_BTN_MARGIN - CLOSE_BTN_SIZE - TAB_H_PADDING
}

/// Width of a group's label: a color dot alone for an unnamed group, else
/// the name's measured width `text_width`; with padding on both sides.
pub fn group_label_width(name: &str, text_width: i32) -> (r: i32)
    requires
        text_width <= i32::MAX - GROUP_LABEL_H_PAD * 2,
    ensures
        r == (if name@.len() == 0 {
            GROUP_DOT_RADIUS * 2 + GROUP_LABEL_H_PAD * 2
        } else {
            text_width + GROUP_LABEL_H_PAD * 2
        }),
{
    if name.is_empty() {
        GROUP_DOT_RADIUS * 2 + GROUP_LABEL_H_PAD * 2
    } else {
        text_width + GROUP_LABEL_H_PAD * 2
    }
}

/// The text of a collapsed group's chip: `name (count)`, or `(count)` for
/// an unnamed group.
pub fn chip_label(name: &str, count: usize) -> (r: String)
    ensures
        r@ == (if name@.len() == 0 {
            Seq::<char>::empty()
        } else {
            name@ + seq![' ']
        }) + seq!['('] + crate::text::decimal(count as nat) + seq![')'],
{
    let mut r = String::new();
    if !name.is_empty() {
        crate::text::append_str(&mut r, name);
        crate::text::push_char(&mut r, ' ');
    }
    crate::text::push_char(&mut r, '(');
    crate::text::push_decimal(&mut r, count);
    crate::text::push_char(&mut r, ')');
    r
}

/// Width of a collapsed chip whose label (see `chip_label`) measures
/// `text_width`: the text, paddings, dot and gap, and at least the
/// narrowest chip.
pub fn collapsed_chip_width(text_width: i32) -> (r: i32)
    requires
        text_width <= i32::MAX - (GROUP_LABEL_H_PAD * 2 + GROUP_DOT_RADIUS * 2 + 4),
    ensures
        r == (if text_width + GROUP_LABEL_H_PAD * 2 + GROUP_DOT_RADIUS * 2 + 4 > COLLAPSED_CHIP_MIN_W {
            text_width + GROUP_LABEL_H_PAD * 2 + GROUP_DOT_RADIUS * 2 + 4
        } else {
            COLLAPSED_CHIP_MIN_W as int
        }),
{
    let w = text_width + GROUP_LABEL_H_PAD * 2 + GROUP_DOT_RADIUS * 2 + 4;
    if w > COLLAPSED_CHIP_MIN_W {
        w
    } else {
        COLLAPSED_CHIP_MIN_W
    }
}

/// The longest cut, from `hi` down to 1 characters, whose measured width
/// with the ellipsis (`widths[len]`) fits in `max_width`.
pub open spec fn longest_fitting_cut(widths: Seq<i32>, max_width: int, hi: int) -> Option<int>
    decreases hi,
{
    if hi < 1 {
        None
    } else if widths[hi] <= max_width {
        Some(hi)
    } else {
        longest_fitting_cut(widths, max_width, hi - 1)
    }
}

/// The text a tab shows in `max_width`: nothing when there is no room;
/// the whole text when it fits; the ellipsis alone when even that does not
/// fit; else the longest cut of the text that fits with the ellipsis after
/// it, shortening down to one character, and the ellipsis alone when no
/// cut fits. `text_width` and `ellipsis_width` are the measured widths of
/// the text and of `...`, and `cut_widths[len]` that of the first `len`
/// characters followed by `...`.
pub open spec fn truncate_spec(
    text: Seq<char>,
    max_width: int,
    text_width: int,
    ellipsis_width: int,
    cut_widths: Seq<i32>,
) -> Seq<char> {
    if max_width <= 0 {
        Seq::empty()
    } else if text_width <= max_width {
        text
    } else if ellipsis_width >= max_width {
        seq!['.', '.', '.']
    } else {
        match longest_fitting_cut(cut_widths, max_width, text.len() - 1) {
            Some(len) => text.take(len) + seq!['.', '.', '.'],
            None => seq!['.', '.', '.'],
        }
    }
}

/// Fits a tab's text into `max_width` (see `truncate_spec`), given the
/// measured widths of the text, of the ellipsis and of each cut with the
/// ellipsis.
pub fn truncate_to_fit(
    text: &str,
    max_width: i32,
    text_width: i32,
    ellipsis_width: i32,
    cut_widths: &[i32],
) -> (r: String)
    requires
        cut_widths@.len() == text@.len(),
    ensures
        r@ == truncate_spec(text@, max_width as int, text_width as int, ellipsis_width as int, cut_widths@),
{
    if max_width <= 0 {
        return String::new();
    }
    if text_width <= max_width {
        return crate::text::string_of(text);
    }
    let mut dots = String::new();
    crate::text::push_char(&mut dots, '.');
    crate::text::push_char(&mut dots, '.');
    crate::text::push_char(&mut dots, '.');
    if ellipsis_width >= max_width {
        return dots;
    }
    let v = crate::text::chars_of(text);
    let n = v.len();
    if n == 0 {
        return dots;
    }
    let mut len: usize = n - 1;
    while len >= 1
        invariant
            len < n,
            n == v@.len() == cut_widths@.len(),
            v@ == text@,
            dots@ == seq!['.', '.', '.'],
            0 < max_width < text_width,
            ellipsis_width < max_width,
            longest_fitting_cut(cut_widths@, max_width as int, (n - 1) as int) == longest_fitting_cut(
                cut_widths@,
                max_width as int,
                len as int,
            ),
        decreases len,
    {
        if cut_widths[len] <= max_width {
            let mut r = crate::text::string_from_range(&v, 0, len);
            crate::text::append_str(&mut r, dots.as_str());
            assert(v@.subrange(0, len as int) =~= text@.take(len as int));
            return r;
        }
        len -= 1;
    }
    dots
}

// ---------------------------------------------------------------------------
// Theme colors
// ---------------------------------------------------------------------------

/// An RGB color of the theme.
#[derive(Debug, Clone, Copy, PartialEq, Eq, Structural)]
pub struct ThemeRgb {
    pub r: u8,
    pub g: u8,
    pub b: u8,
}

impl ThemeRgb {
    pub fn new(r: u8, g: u8, b: u8) -> (c: Self)
        ensures
            c == (ThemeRgb { r, g, b }),
    {
        ThemeRgb { r, g, b }
    }

    pub fn from_tuple(rgb: (u8, u8, u8)) -> (c: Self)
        ensures
            c == (ThemeRgb { r: rgb.0, g: rgb.1, b: rgb.2 }),
    {
        ThemeRgb { r: rgb.0, g: rgb.1, b: rgb.2 }
    }

    /// The mean of the three channels, rounded down (0 to 255).
    pub fn brightness(&self) -> (v: u8)
        ensures
            v == (self.r + self.g + self.b) / 3,
    {
        ((self.r as u32 + self.g as u32 + self.b as u32) / 3) as u8
    }

    /// Whether the color is a dark background (brightness below 128).
    pub fn is_dark(&self) -> (d: bool)
        ensures
            d == ((self.r + self.g + self.b) / 3 < 128),
    {
        self.brightness() < 128
    }
}

} // verus!
