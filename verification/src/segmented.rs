//! Presentation knobs of a segmented control and the selection rules that
//! keyboard and assistive-technology input follow.
use vstd::prelude::*;
use crate::overflow::{
    distributed_total, distributed_width, lemma_distribution_fits, lemma_forced_segment_visible, plan,
    plan_matches, planned_chevron, planned_space, planned_visible, units_sum, Plan,
};
use crate::segment_id::SegmentId;
use crate::split_button::LabelRole;

verus! {

/// What a segment paints: its icon, its label, or both. Applies to every
/// segment of a control.
#[derive(Debug, Clone, Copy, PartialEq, Eq, Structural)]
pub enum SegmentDisplay {
    /// Whatever the segment declares: icon and label when both are present,
    /// label alone otherwise. The default.
    Auto,
    /// Label only; a declared icon is suppressed.
    Text,
    /// Icon only, the label promoted to the tooltip. A segment with no icon
    /// falls back to its label.
    Icon,
    /// Icon and label.
    IconText,
}

/// How the visible segments divide the control's width.
#[derive(Debug, Clone, Copy, PartialEq, Eq, Structural)]
pub enum SegmentSizing {
    /// Every visible segment gets the width of the widest one. The default.
    Uniform,
    /// Every visible segment gets its own natural width; leftover space is
    /// shared equally.
    Fit,
}

/// What the control does when its segments do not fit.
#[derive(Debug, Clone, Copy, PartialEq, Eq, Structural)]
pub enum SegmentOverflow {
    /// Move the segments that do not fit into a trailing chevron menu. The
    /// default.
    Menu,
    /// Keep every segment on the strip and let them compress.
    Compress,
}

impl Default for SegmentDisplay {
    fn default() -> (d: Self)
        ensures
            d == SegmentDisplay::Auto,
    {
        SegmentDisplay::Auto
    }
}

impl Default for SegmentSizing {
    fn default() -> (d: Self)
        ensures
            d == SegmentSizing::Uniform,
    {
        SegmentSizing::Uniform
    }
}

impl Default for SegmentOverflow {
    fn default() -> (d: Self)
        ensures
            d == SegmentOverflow::Menu,
    {
        SegmentOverflow::Menu
    }
}

/// Whether a segment paints its icon: `Text` suppresses it; every other
/// mode shows it when one was declared.
pub open spec fn spec_shows_icon(display: SegmentDisplay, has_icon: bool) -> bool {
    has_icon && display != SegmentDisplay::Text
}

/// Whether a segment paints its label: `Icon` suppresses it, but only for
/// a segment that has an icon, so the mode never renders an empty cell.
pub open spec fn spec_shows_label(display: SegmentDisplay, has_icon: bool) -> bool {
    display != SegmentDisplay::Icon || !has_icon
}

/// Whether a segment with (or without) an icon paints it under `display`.
pub fn shows_icon(display: SegmentDisplay, has_icon: bool) -> (r: bool)
    ensures
        r == spec_shows_icon(display, has_icon),
{
    has_icon && display != SegmentDisplay::Text
}

/// Whether a segment with (or without) an icon paints its label under
/// `display`.
pub fn shows_label(display: SegmentDisplay, has_icon: bool) -> (r: bool)
    ensures
        r == spec_shows_label(display, has_icon),
{
    display != SegmentDisplay::Icon || !has_icon
}

/// Every segment shows something: its icon or its label.
pub proof fn lemma_cell_never_empty(display: SegmentDisplay, has_icon: bool)
    ensures
        spec_shows_icon(display, has_icon) || spec_shows_label(display, has_icon),
{
}

/// The tint of a cell's label and icon: `Disabled` when the cell is
/// disabled, `OnAccent` for the selected cell while the control has focus
/// (the chrome fills it with the accent), `Primary` otherwise.
pub fn cell_text_role(enabled: bool, selected: usize, cell: usize, focused: bool) -> (r: LabelRole)
    ensures
        r == (if !enabled {
            LabelRole::Disabled
        } else if selected == cell && focused {
            LabelRole::OnAccent
        } else {
            LabelRole::Primary
        }),
{
    if !enabled {
        LabelRole::Disabled
    } else if selected == cell && focused {
        LabelRole::OnAccent
    } else {
        LabelRole::Primary
    }
}

/// Which hover tooltip a cell attaches.
#[derive(Debug, Clone, Copy, PartialEq, Eq, Structural)]
pub enum CellTooltip {
    /// The segment's composite tooltip.
    Composite,
    /// The segment's rich tooltip.
    Rich,
    /// The segment's own plain tooltip text.
    Plain,
    /// The segment's label, which the cell does not paint.
    Label,
    /// No tooltip.
    NoTooltip,
}

/// The tooltip a cell attaches: composite over rich over plain; with none
/// of them, a cell that does not paint its label (icon-only display) shows
/// the label as its tooltip, so an icon-only segment still says what it is.
pub fn cell_tooltip(has_composite: bool, has_rich: bool, has_plain: bool, shows_label: bool) -> (r: CellTooltip)
    ensures
        r == (if has_composite {
            CellTooltip::Composite
        } else if has_rich {
            CellTooltip::Rich
        } else if has_plain {
            CellTooltip::Plain
        } else if !shows_label {
            CellTooltip::Label
        } else {
            CellTooltip::NoTooltip
        }),
{
    if has_composite {
        CellTooltip::Composite
    } else if has_rich {
        CellTooltip::Rich
    } else if has_plain {
        CellTooltip::Plain
    } else if !shows_label {
        CellTooltip::Label
    } else {
        CellTooltip::NoTooltip
    }
}

/// The first position of `id` in `ids` at or after `i`.
pub open spec fn position_from(ids: Seq<SegmentId>, id: SegmentId, i: int) -> Option<usize>
    decreases ids.len() - i,
{
    if i < 0 || i >= ids.len() {
        None
    } else if ids[i] == id {
        Some(i as usize)
    } else {
        position_from(ids, id, i + 1)
    }
}

/// The first position of `id` in `ids`.
pub open spec fn position_of(ids: Seq<SegmentId>, id: SegmentId) -> Option<usize> {
    position_from(ids, id, 0)
}

proof fn lemma_position_from(ids: Seq<SegmentId>, id: SegmentId, i: int)
    requires
        0 <= i <= ids.len(),
        ids.len() <= usize::MAX,
    ensures
        match position_from(ids, id, i) {
            Some(k) => i <= k < ids.len() && ids[k as int] == id && forall|t: int|
                i <= t < k ==> ids[t] != id,
            None => forall|t: int| i <= t < ids.len() ==> ids[t] != id,
        },
    decreases ids.len() - i,
{
    if i < ids.len() && ids[i] != id {
        lemma_position_from(ids, id, i + 1);
    }
}

/// Where `id` sits in `ids`, if anywhere.
pub fn find_position(ids: &Vec<SegmentId>, id: SegmentId) -> (r: Option<usize>)
    ensures
        r == position_of(ids@, id),
{
    let mut i: usize = 0;
    while i < ids.len()
        invariant
            i <= ids.len(),
            position_of(ids@, id) == position_from(ids@, id, i as int),
        decreases ids.len() - i,
    {
        if ids[i] == id {
            return Some(i);
        }
        i = i + 1;
    }
    None
}

/// Derive a positional index from a keyed selection: the position of the
/// selected id among `ids`; an unknown or absent id resolves to 0.
pub fn index_of_selection(selected: Option<SegmentId>, ids: &Vec<SegmentId>) -> (r: usize)
    ensures
        r == match selected {
            Some(id) => match position_of(ids@, id) {
                Some(k) => k,
                None => 0,
            },
            None => 0,
        },
{
    match selected {
        Some(id) => match find_position(ids, id) {
            Some(k) => k,
            None => 0,
        },
        None => 0,
    }
}

/// Distance from `current` to `j` walking forward (or backward) through
/// `n` slots with wrap-around, in `1 ..= n`.
pub open spec fn cyclic_distance(current: int, j: int, n: int, forward: bool) -> int {
    if forward {
        if j > current {
            j - current
        } else {
            j + n - current
        }
    } else {
        if j < current {
            current - j
        } else {
            current + n - j
        }
    }
}

/// Some segment of `disabled` is enabled.
pub open spec fn any_enabled(disabled: Seq<bool>) -> bool {
    exists|j: int| 0 <= j < disabled.len() && !disabled[j]
}

/// Next selectable index in `forward` direction from `current`, wrapping
/// and skipping disabled segments; `current` when no segment is enabled.
/// An index past the end is taken modulo the count before stepping. The
/// flags are read when the key is handled, so a flag flipped after the
/// control was built is honoured.
pub fn step_selection(current: usize, forward: bool, disabled: &Vec<bool>) -> (r: usize)
    ensures
        disabled.len() == 0 ==> r == current,
        disabled.len() > 0 && !any_enabled(disabled@) ==> r == current,
        disabled.len() > 0 && any_enabled(disabled@) ==> {
            let n = disabled.len() as int;
            let c = current as int % n;
            &&& r < disabled.len()
            &&& !disabled@[r as int]
            &&& forall|j: int|
                0 <= j < n && !disabled@[j] ==> cyclic_distance(c, r as int, n, forward)
                    <= cyclic_distance(c, j, n, forward)
        },
{
    let n = disabled.len();
    if n == 0 {
        return current;
    }
    let start = current % n;
    let mut i = start;
    let mut k: usize = 0;
    while k < n
        invariant
            n == disabled.len(),
            start < n,
            start as int == current as int % n as int,
            k <= n,
            i < n,
            k > 0 ==> cyclic_distance(start as int, i as int, n as int, forward) == k,
            k == 0 ==> i == start,
            forall|j: int|
                0 <= j < n && cyclic_distance(start as int, j, n as int, forward) <= k ==> disabled@[j],
        decreases n - k,
    {
        i = if forward {
            if i + 1 == n {
                0
            } else {
                i + 1
            }
        } else {
            if i == 0 {
                n - 1
            } else {
                i - 1
            }
        };
        k = k + 1;
        proof {
            assert(cyclic_distance(start as int, i as int, n as int, forward) == k);
        }
        if !disabled[i] {
            proof {
                assert forall|j: int|
                    0 <= j < n && !disabled@[j] implies cyclic_distance(start as int, i as int, n as int, forward)
                        <= cyclic_distance(start as int, j, n as int, forward) by {
                    if cyclic_distance(start as int, j, n as int, forward) < k {
                        assert(disabled@[j]);
                    }
                }
            }
            return i;
        }
    }
    proof {
        assert forall|j: int| 0 <= j < n implies disabled@[j] by {
            assert(cyclic_distance(start as int, j, n as int, forward) <= n);
        }
    }
    current
}

/// First (or, with `last`, final) enabled index, for Home / End; `current`
/// when no segment is enabled.
pub fn edge_selection(current: usize, last: bool, disabled: &Vec<bool>) -> (r: usize)
    ensures
        !any_enabled(disabled@) ==> r == current,
        any_enabled(disabled@) ==> {
            &&& r < disabled.len()
            &&& !disabled@[r as int]
            &&& last ==> forall|j: int| r < j < disabled.len() ==> disabled@[j]
            &&& !last ==> forall|j: int| 0 <= j < r ==> disabled@[j]
        },
{
    let n = disabled.len();
    if n == 0 {
        return current;
    }
    if last {
        let mut i = n;
        while i > 0
            invariant
                n == disabled.len(),
                last,
                i <= n,
                forall|j: int| i <= j < n ==> disabled@[j],
            decreases i,
        {
            if !disabled[i - 1] {
                proof {
                    assert(!disabled@[i - 1]);
                    assert(any_enabled(disabled@));
                }
                return i - 1;
            }
            i = i - 1;
        }
    } else {
        let mut i: usize = 0;
        while i < n
            invariant
                n == disabled.len(),
                !last,
                i <= n,
                forall|j: int| 0 <= j < i ==> disabled@[j],
            decreases n - i,
        {
            if !disabled[i] {
                proof {
                    assert(!disabled@[i as int]);
                    assert(any_enabled(disabled@));
                }
                return i;
            }
            i = i + 1;
        }
    }
    current
}

/// The declaration indices of the segments whose visible flag is set, in
/// declaration order.
pub fn live_indices(visible: &Vec<bool>) -> (live: Vec<usize>)
    ensures
        forall|j: int| 0 <= j < live@.len() ==> live@[j] < visible.len() && visible@[live@[j] as int],
        forall|a: int, b: int| 0 <= a < b < live@.len() ==> live@[a] < live@[b],
        forall|i: int| 0 <= i < visible.len() && visible@[i] ==> live@.contains(i as usize),
{
    let mut live: Vec<usize> = Vec::new();
    let mut i: usize = 0;
    while i < visible.len()
        invariant
            i <= visible.len(),
            forall|j: int| 0 <= j < live@.len() ==> live@[j] < i && visible@[live@[j] as int],
            forall|a: int, b: int| 0 <= a < b < live@.len() ==> live@[a] < live@[b],
            forall|t: int| 0 <= t < i && visible@[t] ==> live@.contains(t as usize),
        decreases visible.len() - i,
    {
        if visible[i] {
            let ghost before = live@;
            live.push(i);
            proof {
                assert forall|t: int| 0 <= t < i + 1 && visible@[t] implies live@.contains(t as usize) by {
                    if t < i {
                        let j = choose|j: int| 0 <= j < before.len() && before[j] == t as usize;
                        assert(live@[j] == t as usize);
                    } else {
                        assert(live@[live@.len() - 1] == t as usize);
                    }
                }
            }
        }
        i = i + 1;
    }
    live
}

/// The hovered segment after a plan is published: a segment that went to
/// the menu while hovered is no longer hovered.
pub fn settle_hover(hovered: Option<usize>, plan: &Plan) -> (r: Option<usize>)
    ensures
        r == match hovered {
            Some(h) => if plan.visible@.contains(h) {
                Some(h)
            } else {
                None
            },
            None => None,
        },
{
    match hovered {
        Some(h) => if plan.is_visible(h) {
            Some(h)
        } else {
            None
        },
        None => None,
    }
}

/// The live index the selection resolves to: the selected one, clamped to
/// the last live segment.
pub open spec fn clamped_selection(selected: usize, n: int) -> int {
    if selected < n {
        selected as int
    } else {
        n - 1
    }
}

/// The plan [`resolve_plan`] publishes and the promotion it keeps.
pub open spec fn resolved(
    p: Plan,
    promoted_after: Option<SegmentId>,
    promoted_before: Option<SegmentId>,
    live_ids: Seq<SegmentId>,
    selected: usize,
    inner_width: u32,
    natural: Seq<u32>,
    chevron: u32,
    sizing: SegmentSizing,
    mode: SegmentOverflow,
) -> bool {
    let n = natural.len() as int;
    let compress = mode == SegmentOverflow::Compress;
    let promoted_index = match promoted_before {
        Some(id) => position_of(live_ids, id),
        None => None,
    };
    let sel = clamped_selection(selected, n) as usize;
    let first = planned_visible(inner_width, natural, promoted_index, chevron, sizing, compress);
    let chev = planned_chevron(inner_width, natural, sizing, compress);
    if n == 0 {
        p.visible@.len() == 0 && p.widths@.len() == 0 && p.overflowed@.len() == 0 && !p.show_chevron
            && promoted_after == promoted_before
    } else if first.contains(sel) {
        plan_matches(p, inner_width, natural, promoted_index, chevron, sizing, compress)
            && promoted_after == (if chev {
            promoted_before
        } else {
            None
        })
    } else {
        plan_matches(p, inner_width, natural, Some(sel), chevron, sizing, compress)
            && promoted_after == (if chev {
            Some(live_ids[sel as int])
        } else {
            None
        })
    }
}

/// Run the overflow plan for `inner_width`, applying and maintaining the
/// sticky promotion: the selected segment is always on the strip; if the
/// plan would have hidden it, it is promoted into the last slot and stays
/// there until another segment is promoted, and the promotion is forgotten
/// once everything fits again.
pub fn resolve_plan(
    promoted: &mut Option<SegmentId>,
    live_ids: &Vec<SegmentId>,
    selected: usize,
    inner_width: u32,
    natural: &Vec<u32>,
    chevron: u32,
    sizing: SegmentSizing,
    mode: SegmentOverflow,
) -> (p: Plan)
    requires
        live_ids.len() == natural.len(),
    ensures
        resolved(p, *final(promoted), *old(promoted), live_ids@, selected, inner_width, natural@, chevron, sizing, mode),
        natural.len() > 0 ==> p.visible@.contains(clamped_selection(selected, natural.len() as int) as usize),
{
    let compress = mode == SegmentOverflow::Compress;
    let n = natural.len();
    if n == 0 {
        return Plan::empty();
    }
    let promoted_index = match *promoted {
        Some(id) => find_position(live_ids, id),
        None => None,
    };
    let mut p = plan(inner_width, natural, promoted_index, chevron, sizing, compress);
    let sel = if selected < n {
        selected
    } else {
        n - 1
    };
    if !p.is_visible(sel) {
        *promoted = Some(live_ids[sel]);
        p = plan(inner_width, natural, Some(sel), chevron, sizing, compress);
        proof {
            lemma_forced_segment_visible(inner_width, natural@, sel, chevron, sizing, compress);
        }
    }
    if !p.show_chevron {
        *promoted = None;
    }
    p
}

/// The last position of `id` in `ids` before `end`.
pub open spec fn last_position_before(ids: Seq<SegmentId>, id: SegmentId, end: int) -> Option<usize>
    decreases end,
{
    if end <= 0 || end > ids.len() {
        None
    } else if ids[end - 1] == id {
        Some((end - 1) as usize)
    } else {
        last_position_before(ids, id, end - 1)
    }
}

/// Where `id` sits among the live ids when they are looked up by id: the
/// later of two equal ids wins.
pub open spec fn live_position(ids: Seq<SegmentId>, id: SegmentId) -> Option<usize> {
    last_position_before(ids, id, ids.len() as int)
}

fn find_live_position(ids: &Vec<SegmentId>, id: SegmentId) -> (r: Option<usize>)
    ensures
        r == live_position(ids@, id),
{
    let mut end = ids.len();
    while end > 0
        invariant
            end <= ids.len(),
            live_position(ids@, id) == last_position_before(ids@, id, end as int),
        decreases end,
    {
        if ids[end - 1] == id {
            return Some(end - 1);
        }
        end = end - 1;
    }
    None
}

/// The keyed selection and the live index, reconciled when the control is
/// built: a selected id that is live moves the index onto it; a stale or
/// absent id keeps the previous position, clamped into range, and re-stamps
/// the id that now lives there; an empty control clears the selection.
pub open spec fn synced_selection(
    selected: Option<SegmentId>,
    index: usize,
    live_ids: Seq<SegmentId>,
) -> (Option<SegmentId>, usize) {
    let n = live_ids.len() as int;
    if n == 0 {
        (None, index)
    } else {
        match selected {
            Some(id) => match live_position(live_ids, id) {
                Some(k) => (selected, k),
                None => {
                    let c = clamped_selection(index, n);
                    (Some(live_ids[c]), c as usize)
                },
            },
            None => {
                let c = clamped_selection(index, n);
                (Some(live_ids[c]), c as usize)
            },
        }
    }
}

/// Reconcile the keyed selection with the live index; see
/// [`synced_selection`].
pub fn sync_selection(selected: &mut Option<SegmentId>, index: &mut usize, live_ids: &Vec<SegmentId>)
    ensures
        (*final(selected), *final(index)) == synced_selection(*old(selected), *old(index), live_ids@),
{
    let n = live_ids.len();
    if n == 0 {
        *selected = None;
        return;
    }
    let found = match *selected {
        Some(id) => find_live_position(live_ids, id),
        None => None,
    };
    match found {
        Some(k) => {
            *index = k;
        },
        None => {
            let c = if *index < n {
                *index
            } else {
                n - 1
            };
            *index = c;
            *selected = Some(live_ids[c]);
        },
    }
}

/// The single funnel every user-driven selection goes through: move the
/// live index to `target` and report the id to announce, or nothing when
/// the target is already selected.
pub fn select_live(index: &mut usize, target: usize, live_ids: &Vec<SegmentId>) -> (changed: Option<SegmentId>)
    ensures
        *old(index) == target ==> *final(index) == *old(index) && changed is None,
        *old(index) != target ==> *final(index) == target && changed == (if target < live_ids.len() {
            Some(live_ids@[target as int])
        } else {
            None
        }),
{
    if *index == target {
        return None;
    }
    *index = target;
    if target < live_ids.len() {
        Some(live_ids[target])
    } else {
        None
    }
}

/// The keyed selection a positional binding seeds: kept when it names a
/// declared segment, otherwise the id declared at `position`, if any.
pub fn seed_from_position(selected: Option<SegmentId>, declared: &Vec<SegmentId>, position: usize) -> (r: Option<SegmentId>)
    ensures
        r == match selected {
            Some(id) => if declared@.contains(id) {
                selected
            } else if position < declared.len() {
                Some(declared@[position as int])
            } else {
                None
            },
            None => if position < declared.len() {
                Some(declared@[position as int])
            } else {
                None
            },
        },
{
    let keep = match selected {
        Some(id) => match find_position(declared, id) {
            Some(_) => true,
            None => false,
        },
        None => false,
    };
    let count = declared.len();
    proof {
        assert(declared@.len() == count);
        if let Some(id) = selected {
            lemma_position_from(declared@, id, 0);
            if declared@.contains(id) {
                let j = choose|j: int| 0 <= j < declared@.len() && declared@[j] == id;
                assert(declared@[j] == id);
            }
        }
    }
    if keep {
        selected
    } else if position < declared.len() {
        Some(declared[position])
    } else {
        None
    }
}

/// The keys and assistive actions that move a segmented control's
/// selection.
#[derive(Debug, Clone, Copy, PartialEq, Eq, Structural)]
pub enum SelectionKey {
    ArrowLeft,
    ArrowRight,
    Home,
    End,
    /// Assistive `Increment`: the next segment in reading order.
    Increment,
    /// Assistive `Decrement`: the previous segment in reading order.
    Decrement,
}

/// Whether `key` moves forward in reading order; the arrows swap under a
/// right-to-left layout, resolved when the key arrives.
pub open spec fn key_forward(key: SelectionKey, rtl: bool) -> bool {
    match key {
        SelectionKey::ArrowRight => !rtl,
        SelectionKey::ArrowLeft => rtl,
        SelectionKey::Increment => true,
        _ => false,
    }
}

/// The live index a key moves the selection to, or `None` when the key is
/// ignored (an empty control). The arrows and the assistive actions step
/// with wrap-around past disabled segments; Home / End jump to the first /
/// last enabled one. `current` is the live index, clamped into range.
pub fn key_target(key: SelectionKey, rtl: bool, current: usize, disabled: &Vec<bool>) -> (r: Option<usize>)
    ensures
        disabled.len() == 0 <==> r is None,
        r matches Some(t) ==> ({
            let n = disabled.len() as int;
            let c = clamped_selection(current, n) as usize;
            &&& t < n
            &&& (t == c || !disabled@[t as int])
            &&& (any_enabled(disabled@) && key != SelectionKey::Home && key != SelectionKey::End) ==> forall|j: int|
                0 <= j < n && !disabled@[j] ==> cyclic_distance(c as int, t as int, n, key_forward(key, rtl))
                    <= cyclic_distance(c as int, j, n, key_forward(key, rtl))
            &&& (any_enabled(disabled@) && key == SelectionKey::Home) ==> !disabled@[t as int] && forall|j: int|
                0 <= j < t ==> disabled@[j]
            &&& (any_enabled(disabled@) && key == SelectionKey::End) ==> !disabled@[t as int] && forall|j: int|
                t < j < n ==> disabled@[j]
            &&& !any_enabled(disabled@) ==> t == c
        }),
{
    let n = disabled.len();
    if n == 0 {
        return None;
    }
    let c = if current < n {
        current
    } else {
        n - 1
    };
    proof {
        vstd::arithmetic::div_mod::lemma_small_mod(c as nat, n as nat);
    }
    let t = match key {
        SelectionKey::ArrowRight => step_selection(c, !rtl, disabled),
        SelectionKey::ArrowLeft => step_selection(c, rtl, disabled),
        SelectionKey::Increment => step_selection(c, true, disabled),
        SelectionKey::Decrement => step_selection(c, false, disabled),
        SelectionKey::Home => edge_selection(c, false, disabled),
        SelectionKey::End => edge_selection(c, true, disabled),
    };
    Some(t)
}

/// Under a right-to-left layout ArrowLeft advances in reading order.
pub proof fn lemma_rtl_swaps_the_arrows(rtl: bool)
    ensures
        key_forward(SelectionKey::ArrowRight, rtl) == !rtl,
        key_forward(SelectionKey::ArrowLeft, rtl) == rtl,
        key_forward(SelectionKey::ArrowRight, rtl) != key_forward(SelectionKey::ArrowLeft, rtl),
{
}

/// The natural width of the whole strip: the widest segment times the
/// count under `Uniform`, the sum under `Fit`.
pub fn content_width(natural: &Vec<u32>, sizing: SegmentSizing) -> (w: u128)
    ensures
        w as int == units_sum(natural@, sizing, natural.len() as int),
{
    let n = natural.len();
    let mut widest: u32 = 0;
    let mut i: usize = 0;
    while i < n
        invariant
            n == natural.len(),
            i <= n,
            widest as int == crate::overflow::widest(natural@.subrange(0, i as int)),
        decreases n - i,
    {
        proof {
            assert(natural@.subrange(0, i as int + 1).drop_last() =~= natural@.subrange(0, i as int));
        }
        if natural[i] > widest {
            widest = natural[i];
        }
        i = i + 1;
    }
    proof {
        assert(natural@.subrange(0, n as int) =~= natural@);
    }
    proof {
        assert(n as int <= 0xffff_ffff_ffff_ffff);
    }
    let mut total: u128 = 0;
    let mut k: usize = 0;
    while k < n
        invariant
            n == natural.len(),
            n as int <= 0xffff_ffff_ffff_ffff,
            k <= n,
            widest as int == crate::overflow::widest(natural@),
            total as int == units_sum(natural@, sizing, k as int),
            total as int <= k * 0xffff_ffff,
        decreases n - k,
    {
        let u: u128 = match sizing {
            SegmentSizing::Uniform => widest as u128,
            SegmentSizing::Fit => natural[k] as u128,
        };
        proof {
            lemma_widest_is_max(natural@);
            assert((k as int + 1) * 0xffff_ffff <= 0xffff_ffff_ffff_ffff * 0xffff_ffff);
        }
        total = total + u;
        k = k + 1;
    }
    total
}

proof fn lemma_widest_is_max(natural: Seq<u32>)
    ensures
        crate::overflow::widest(natural) <= 0xffff_ffff,
    decreases natural.len(),
{
    if natural.len() > 0 {
        lemma_widest_is_max(natural.drop_last());
    }
}

/// Where the slots sit on the strip: each slot's leading-edge offset from
/// the inner area's left edge, and the chevron's slot when it shows.
#[derive(Debug, Clone, PartialEq, Eq)]
pub struct SlotLayout {
    /// Left edge of each visible slot, parallel to the plan's widths.
    pub starts: Vec<i64>,
    /// Left edge and width of the chevron's slot, when it shows.
    pub chevron: Option<(i64, u64)>,
}

/// Total width of the first `k` slots.
pub open spec fn slots_before(widths: Seq<u64>, k: int) -> int
    decreases k,
{
    if k <= 0 {
        0
    } else {
        slots_before(widths, k - 1) + widths[k - 1] as int
    }
}

proof fn lemma_slots_before_monotone(widths: Seq<u64>, a: int, b: int)
    requires
        0 <= a <= b <= widths.len(),
    ensures
        slots_before(widths, a) <= slots_before(widths, b),
    decreases b - a,
{
    if a < b {
        lemma_slots_before_monotone(widths, a, b - 1);
    }
}

/// Left edge of a span `offset` into reading order, `width` wide: mirrored
/// from the right edge under a right-to-left layout, so "last slot" means
/// last in reading order, next to the chevron, in both directions.
pub open spec fn placed_start(inner: int, offset: int, width: int, rtl: bool) -> int {
    if rtl {
        inner - offset - width
    } else {
        offset
    }
}

/// Lay the plan's slots out in reading order across an inner area `inner`
/// wide, the chevron taking what is left after the last slot.
pub fn layout_slots(widths: &Vec<u64>, inner: u32, rtl: bool, show_chevron: bool) -> (l: SlotLayout)
    requires
        slots_before(widths@, widths.len() as int) <= u32::MAX,
    ensures
        l.starts@.len() == widths.len(),
        forall|j: int|
            0 <= j < widths.len() ==> l.starts@[j] as int == placed_start(
                inner as int,
                slots_before(widths@, j),
                widths@[j] as int,
                rtl,
            ),
        show_chevron ==> (l.chevron matches Some((start, width)) && width as int == (if inner as int
            > slots_before(widths@, widths.len() as int) {
            inner - slots_before(widths@, widths.len() as int)
        } else {
            0
        }) && start as int == placed_start(
            inner as int,
            slots_before(widths@, widths.len() as int),
            width as int,
            rtl,
        )),
        !show_chevron ==> l.chevron is None,
{
    let mut starts: Vec<i64> = Vec::new();
    let mut offset: u64 = 0;
    let mut i: usize = 0;
    while i < widths.len()
        invariant
            i <= widths.len(),
            slots_before(widths@, widths.len() as int) <= u32::MAX,
            offset as int == slots_before(widths@, i as int),
            starts@.len() == i,
            forall|j: int|
                0 <= j < i ==> starts@[j] as int == placed_start(
                    inner as int,
                    slots_before(widths@, j),
                    widths@[j] as int,
                    rtl,
                ),
        decreases widths.len() - i,
    {
        let w = widths[i];
        proof {
            lemma_slots_before_monotone(widths@, i as int + 1, widths.len() as int);
        }
        let start: i64 = if rtl {
            inner as i64 - offset as i64 - w as i64
        } else {
            offset as i64
        };
        starts.push(start);
        offset = offset + w;
        i = i + 1;
    }
    let chevron = if show_chevron {
        let width: u64 = if inner as u64 > offset {
            inner as u64 - offset
        } else {
            0
        };
        let start: i64 = if rtl {
            inner as i64 - offset as i64 - width as i64
        } else {
            offset as i64
        };
        Some((start, width))
    } else {
        None
    };
    SlotLayout { starts, chevron }
}

proof fn lemma_slots_match_distribution(
    widths: Seq<u64>,
    space: int,
    visible: Seq<usize>,
    natural: Seq<u32>,
    sizing: SegmentSizing,
    m: int,
)
    requires
        0 <= m <= widths.len(),
        widths.len() == visible.len(),
        forall|j: int|
            0 <= j < visible.len() ==> widths[j] as int == distributed_width(space, visible, natural, sizing, j),
    ensures
        slots_before(widths, m) == distributed_total(space, visible, natural, sizing, m),
    decreases m,
{
    if m > 0 {
        lemma_slots_match_distribution(widths, space, visible, natural, sizing, m - 1);
    }
}

/// A plan's slots fit in the width it was planned for, so its widths can
/// always be laid out with [`layout_slots`].
pub proof fn lemma_plan_slots_fit(
    p: Plan,
    available: u32,
    natural: Seq<u32>,
    must: Option<usize>,
    chevron: u32,
    sizing: SegmentSizing,
    compress: bool,
)
    requires
        plan_matches(p, available, natural, must, chevron, sizing, compress),
    ensures
        slots_before(p.widths@, p.widths@.len() as int) <= available,
{
    let chev = planned_chevron(available, natural, sizing, compress);
    let space = planned_space(available, chevron, chev);
    lemma_slots_match_distribution(p.widths@, space, p.visible@, natural, sizing, p.widths@.len() as int);
    lemma_distribution_fits(space, p.visible@, natural, sizing);
}

} // verus!
