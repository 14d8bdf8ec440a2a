//! A splitter divider's decisions between pane `i` and pane `i + 1`: which
//! pane a collapse gesture targets, where a keyboard or assistive resize
//! puts the boundary, and how a pointer drag snaps a pane shut past its
//! minimum and pulls a collapsed pane back open, with hysteresis.
//!
//! Sizes are whole size units (a thousandth of a dp), signed because a
//! drag can ask for a negative size. Halves and fractions of a size (the
//! middle of a pair, the restore and re-collapse travels) are rounded down
//! to a whole unit.
use vstd::prelude::*;

verus! {

/// Largest magnitude a size, step or pointer offset may take.
pub const SIZE_LIMIT: i64 = 0x100_0000_0000;

/// Floor of the travel that pulls a collapsed pane back open (12 dp).
pub const RESTORE_FLOOR: i64 = 12_000;

/// Floor of the shove that re-collapses a just-restored pane (4 dp).
pub const COLLAPSE_BACK_FLOOR: i64 = 4_000;

/// The two panes either side of a divider.
#[derive(Debug, Clone, Copy, PartialEq, Eq, Structural)]
pub enum Pane {
    /// Pane `i`, before the divider.
    Leading,
    /// Pane `i + 1`, after it.
    Trailing,
}

/// Main-axis sizes of the two panes either side of a divider.
#[derive(Debug, Clone, Copy, PartialEq, Eq, Structural)]
pub struct PairSizes {
    pub leading: i64,
    pub trailing: i64,
}

/// Collapse state of the two panes either side of a divider.
#[derive(Debug, Clone, Copy, PartialEq, Eq, Structural)]
pub struct PanePair {
    pub leading_collapsible: bool,
    pub leading_collapsed: bool,
    pub trailing_collapsible: bool,
    pub trailing_collapsed: bool,
}

pub open spec fn spec_collapse_target(p: PanePair) -> Option<Pane> {
    if p.leading_collapsed && p.leading_collapsible {
        Some(Pane::Leading)
    } else if p.trailing_collapsed && p.trailing_collapsible {
        Some(Pane::Trailing)
    } else if p.leading_collapsible {
        Some(Pane::Leading)
    } else if p.trailing_collapsible {
        Some(Pane::Trailing)
    } else {
        None
    }
}

/// The pane a collapse gesture (double-click, Enter, Collapse / Expand)
/// targets: restoring a collapsed collapsible neighbour comes first, else
/// collapsing a collapsible one, the leading pane preferred.
pub fn collapse_target(p: PanePair) -> (r: Option<Pane>)
    ensures
        r == spec_collapse_target(p),
{
    if p.leading_collapsed && p.leading_collapsible {
        Some(Pane::Leading)
    } else if p.trailing_collapsed && p.trailing_collapsible {
        Some(Pane::Trailing)
    } else if p.leading_collapsible {
        Some(Pane::Leading)
    } else if p.trailing_collapsible {
        Some(Pane::Trailing)
    } else {
        None
    }
}

/// The neighbour whose expanded state the divider announces, and whose
/// Collapse / Expand actions it offers: the leading pane when collapsible,
/// else the trailing one.
pub fn collapsible_neighbor(p: PanePair) -> (r: Option<Pane>)
    ensures
        r == (if p.leading_collapsible {
            Some(Pane::Leading)
        } else if p.trailing_collapsible {
            Some(Pane::Trailing)
        } else {
            None
        }),
{
    if p.leading_collapsible {
        Some(Pane::Leading)
    } else if p.trailing_collapsible {
        Some(Pane::Trailing)
    } else {
        None
    }
}

/// A collapse gesture only ever targets a collapsible pane, and it finds
/// one whenever either neighbour is collapsible.
pub proof fn lemma_collapse_targets_collapsible(p: PanePair)
    ensures
        spec_collapse_target(p) matches Some(Pane::Leading) ==> p.leading_collapsible,
        spec_collapse_target(p) matches Some(Pane::Trailing) ==> p.trailing_collapsible,
        (spec_collapse_target(p) is None) <==> (!p.leading_collapsible && !p.trailing_collapsible),
{
}

pub open spec fn clamp(v: int, lo: int, hi: int) -> int {
    if v < lo {
        lo
    } else if v > hi {
        hi
    } else {
        v
    }
}

/// The sizes a resize commits for the pair: pane `i` clamped into
/// `0 ..= pair`, pane `i + 1` the rest.
pub fn commit_sizes(new_i: i64, pair: i64) -> (r: (i64, i64))
    requires
        -SIZE_LIMIT <= new_i <= SIZE_LIMIT,
        0 <= pair <= SIZE_LIMIT,
    ensures
        r.0 == clamp(new_i as int, 0, pair as int),
        r.0 + r.1 == pair,
        0 <= r.0 <= pair,
        0 <= r.1 <= pair,
{
    let c = if new_i < 0 {
        0
    } else if new_i > pair {
        pair
    } else {
        new_i
    };
    (c, pair - c)
}

/// A resize requested from the keyboard or assistive technology.
#[derive(Debug, Clone, Copy, PartialEq, Eq, Structural)]
pub enum ResizeMove {
    /// Pane `i` takes one step from pane `i + 1`.
    Grow,
    /// Pane `i` gives one step to pane `i + 1`.
    Shrink,
    /// Pane `i` to its smallest size.
    ToMin,
    /// Pane `i` to its largest size.
    ToMax,
}

/// Smallest size pane `i` may take: 0 when collapsed, its minimum
/// otherwise.
pub open spec fn resize_lo(p: PanePair, min_i: int) -> int {
    if p.leading_collapsed {
        0
    } else {
        min_i
    }
}

/// Largest size pane `i` may take: the whole pair when pane `i + 1` is
/// collapsed, else what leaves pane `i + 1` its minimum.
pub open spec fn resize_hi(p: PanePair, pair: int, min_j: int) -> int {
    if p.trailing_collapsed {
        pair
    } else {
        pair - min_j
    }
}

pub open spec fn spec_resize_target(
    p: PanePair,
    size_i: int,
    pair: int,
    min_i: int,
    min_j: int,
    step: int,
    mv: ResizeMove,
) -> int {
    let lo = resize_lo(p, min_i);
    let hi = resize_hi(p, pair, min_j);
    match mv {
        ResizeMove::Grow => if lo > hi {
            pair / 2
        } else {
            clamp(size_i + step, lo, hi)
        },
        ResizeMove::Shrink => if lo > hi {
            pair / 2
        } else {
            clamp(size_i - step, lo, hi)
        },
        ResizeMove::ToMin => lo,
        ResizeMove::ToMax => hi,
    }
}

/// Where a keyboard or assistive resize puts pane `i`: one step either
/// way clamped between the two panes' limits (the middle of the pair when
/// the limits cross), or straight to a limit.
pub fn resize_target(
    p: PanePair,
    size_i: i64,
    pair: i64,
    min_i: i64,
    min_j: i64,
    step: i64,
    mv: ResizeMove,
) -> (r: i64)
    requires
        0 <= size_i <= SIZE_LIMIT,
        0 <= pair <= SIZE_LIMIT,
        0 <= min_i <= SIZE_LIMIT,
        0 <= min_j <= SIZE_LIMIT,
        0 <= step <= SIZE_LIMIT,
    ensures
        r == spec_resize_target(p, size_i as int, pair as int, min_i as int, min_j as int, step as int, mv),
        -SIZE_LIMIT <= r <= SIZE_LIMIT,
{
    let lo = if p.leading_collapsed {
        0
    } else {
        min_i
    };
    let hi = if p.trailing_collapsed {
        pair
    } else {
        pair - min_j
    };
    let clamp_to = |v: i64| -> (c: i64)
        requires
            lo <= hi,
        ensures
            c == clamp(v as int, lo as int, hi as int),
        {
            if v < lo {
                lo
            } else if v > hi {
                hi
            } else {
                v
            }
        };
    match mv {
        ResizeMove::Grow => if lo > hi {
            pair / 2
        } else {
            clamp_to(size_i + step)
        },
        ResizeMove::Shrink => if lo > hi {
            pair / 2
        } else {
            clamp_to(size_i - step)
        },
        ResizeMove::ToMin => lo,
        ResizeMove::ToMax => hi,
    }
}

/// A keyboard or assistive resize keeps pane `i` within both panes'
/// limits: at least its minimum (nothing when it is collapsed) and at most
/// what leaves pane `i + 1` its minimum (the whole pair when pane `i + 1`
/// is collapsed). A step moves by `step` unless a limit stops it, and
/// Home / End go straight to the limits.
pub proof fn lemma_resize_within_limits(
    p: PanePair,
    size_i: int,
    pair: int,
    min_i: int,
    min_j: int,
    step: int,
    mv: ResizeMove,
)
    ensures
        ({
            let lo = if p.leading_collapsed { 0 } else { min_i };
            let hi = if p.trailing_collapsed { pair } else { pair - min_j };
            let r = spec_resize_target(p, size_i, pair, min_i, min_j, step, mv);
            &&& lo <= hi ==> lo <= r <= hi
            &&& mv == ResizeMove::ToMax ==> r == hi
            &&& mv == ResizeMove::ToMin ==> r == lo
            &&& lo <= hi && mv == ResizeMove::Grow && lo <= size_i + step <= hi ==> r == size_i + step
            &&& lo <= hi && mv == ResizeMove::Shrink && lo <= size_i - step <= hi ==> r == size_i - step
            &&& p.trailing_collapsed && mv == ResizeMove::ToMax ==> r == pair
            &&& p.leading_collapsed && mv == ResizeMove::ToMin ==> r == 0
        }),
{
}

/// Per-drag hysteresis latches: set when a collapsed neighbour was pulled
/// back open during this drag.
#[derive(Debug, Clone, Copy, PartialEq, Eq, Structural)]
pub struct DragLatch {
    pub expanding_leading: bool,
    pub expanding_trailing: bool,
}

/// What one pointer move during a drag does to the model, in order: panes
/// pulled back open, then either a collapse (which ends the drag) or new
/// pair sizes.
#[derive(Debug, Clone, Copy, PartialEq, Eq, Structural)]
pub struct DragEffect {
    pub reopen_leading: bool,
    pub reopen_trailing: bool,
    /// Collapse this pane, give the whole pair to the other and end the
    /// drag.
    pub collapse: Option<Pane>,
    /// Set the pair's sizes to these.
    pub sizes: Option<PairSizes>,
}

/// Travel that pulls a collapsed pane open: 3/5 of the snap offset, at
/// least [`RESTORE_FLOOR`].
pub open spec fn restore_out(snap: int) -> int {
    if snap * 3 / 5 > RESTORE_FLOOR {
        snap * 3 / 5
    } else {
        RESTORE_FLOOR as int
    }
}

/// Shove that re-collapses a just-restored pane: 1/5 of the snap offset,
/// at least [`COLLAPSE_BACK_FLOOR`].
pub open spec fn collapse_back(snap: int) -> int {
    if snap / 5 > COLLAPSE_BACK_FLOOR {
        snap / 5
    } else {
        COLLAPSE_BACK_FLOOR as int
    }
}

/// The outcome of a pane's own rule: keep going (possibly having reopened
/// it, with its new latch), stop with the boundary held, or collapse it.
pub enum PaneRule {
    Continue { reopened: bool, expanding: bool },
    Hold,
    Collapse,
}

/// One pane's snap / restore rule for a desired size `raw`.
pub open spec fn pane_rule(
    collapsible: bool,
    collapsed: bool,
    expanding: bool,
    raw: int,
    min: int,
    snap: int,
) -> PaneRule {
    if !collapsible {
        PaneRule::Continue { reopened: false, expanding }
    } else if collapsed {
        if raw > restore_out(snap) {
            PaneRule::Continue { reopened: true, expanding: true }
        } else {
            PaneRule::Hold
        }
    } else if expanding {
        if raw >= min {
            PaneRule::Continue { reopened: false, expanding: false }
        } else if raw < collapse_back(snap) {
            PaneRule::Collapse
        } else {
            PaneRule::Continue { reopened: false, expanding: true }
        }
    } else if raw < min - snap {
        PaneRule::Collapse
    } else {
        PaneRule::Continue { reopened: false, expanding }
    }
}

/// One pointer move during a drag, pane `i`'s desired size being `raw_i`
/// and pane `i + 1`'s the rest of the pair. The leading pane's rule runs
/// first: a collapsed pane stays shut (and holds the boundary) until pulled
/// past the restore travel; a just-restored pane only re-collapses when
/// shoved nearly all the way back, and becomes a normal pane once it
/// reaches its minimum; an expanded pane snaps shut past its minimum minus
/// the snap offset. Then the trailing pane's, on `pair - raw_i`. If neither
/// stops the move, pane `i` takes `raw_i` clamped into the pair.
pub open spec fn spec_drag_step(
    p: PanePair,
    latch: DragLatch,
    raw_i: int,
    pair: int,
    min_i: int,
    min_j: int,
    snap: int,
) -> (DragLatch, DragEffect) {
    let raw_j = pair - raw_i;
    let none = DragEffect { reopen_leading: false, reopen_trailing: false, collapse: None, sizes: None };
    match pane_rule(p.leading_collapsible, p.leading_collapsed, latch.expanding_leading, raw_i, min_i, snap) {
        PaneRule::Hold => (latch, none),
        PaneRule::Collapse => (
            DragLatch { expanding_leading: false, ..latch },
            DragEffect { collapse: Some(Pane::Leading), sizes: Some(PairSizes { leading: 0, trailing: pair as i64 }), ..none },
        ),
        PaneRule::Continue { reopened: ri, expanding: ei } => {
            match pane_rule(
                p.trailing_collapsible,
                p.trailing_collapsed,
                latch.expanding_trailing,
                raw_j,
                min_j,
                snap,
            ) {
                PaneRule::Hold => (
                    DragLatch { expanding_leading: ei, ..latch },
                    DragEffect { reopen_leading: ri, ..none },
                ),
                PaneRule::Collapse => (
                    DragLatch { expanding_leading: ei, expanding_trailing: false },
                    DragEffect {
                        reopen_leading: ri,
                        collapse: Some(Pane::Trailing),
                        sizes: Some(PairSizes { leading: pair as i64, trailing: 0 }),
                        ..none
                    },
                ),
                PaneRule::Continue { reopened: rj, expanding: ej } => {
                    let new_i = clamp(raw_i, 0, pair);
                    (
                        DragLatch { expanding_leading: ei, expanding_trailing: ej },
                        DragEffect {
                            reopen_leading: ri,
                            reopen_trailing: rj,
                            collapse: None,
                            sizes: Some(PairSizes { leading: new_i as i64, trailing: (pair - new_i) as i64 }),
                        },
                    )
                },
            }
        },
    }
}

fn pane_rule_exec(
    collapsible: bool,
    collapsed: bool,
    expanding: bool,
    raw: i64,
    min: i64,
    snap: i64,
) -> (r: PaneRule)
    requires
        -2 * SIZE_LIMIT <= raw <= 2 * SIZE_LIMIT,
        0 <= min <= SIZE_LIMIT,
        0 <= snap <= SIZE_LIMIT,
    ensures
        r == pane_rule(collapsible, collapsed, expanding, raw as int, min as int, snap as int),
{
    let restore = if snap * 3 / 5 > RESTORE_FLOOR {
        snap * 3 / 5
    } else {
        RESTORE_FLOOR
    };
    let back = if snap / 5 > COLLAPSE_BACK_FLOOR {
        snap / 5
    } else {
        COLLAPSE_BACK_FLOOR
    };
    if !collapsible {
        PaneRule::Continue { reopened: false, expanding }
    } else if collapsed {
        if raw > restore {
            PaneRule::Continue { reopened: true, expanding: true }
        } else {
            PaneRule::Hold
        }
    } else if expanding {
        if raw >= min {
            PaneRule::Continue { reopened: false, expanding: false }
        } else if raw < back {
            PaneRule::Collapse
        } else {
            PaneRule::Continue { reopened: false, expanding: true }
        }
    } else if raw < min - snap {
        PaneRule::Collapse
    } else {
        PaneRule::Continue { reopened: false, expanding }
    }
}

/// Whether a pointer press on the divider starts a drag: the handle is
/// enabled, the press is of the primary button from the primary contact,
/// and no drag is under way. A second finger landing on the gutter
/// mid-resize is no second resize: it would re-capture the grab offset from
/// its own position and make the divider leap.
pub fn press_starts_drag(enabled: bool, primary_button: bool, primary_contact: bool, dragging: bool) -> (r: bool)
    ensures
        r == (enabled && primary_button && primary_contact && !dragging),
{
    enabled && primary_button && primary_contact && !dragging
}

/// Apply one pointer move of a drag; see [`spec_drag_step`]. The latches
/// are updated in place; the effect says what to do to the model and
/// whether the drag ends.
pub fn drag_step(
    p: PanePair,
    latch: &mut DragLatch,
    raw_i: i64,
    pair: i64,
    min_i: i64,
    min_j: i64,
    snap: i64,
) -> (effect: DragEffect)
    requires
        -SIZE_LIMIT <= raw_i <= SIZE_LIMIT,
        0 <= pair <= SIZE_LIMIT,
        0 <= min_i <= SIZE_LIMIT,
        0 <= min_j <= SIZE_LIMIT,
        0 <= snap <= SIZE_LIMIT,
    ensures
        (*final(latch), effect) == spec_drag_step(
            p,
            *old(latch),
            raw_i as int,
            pair as int,
            min_i as int,
            min_j as int,
            snap as int,
        ),
{
    let raw_j = pair - raw_i;
    let none = DragEffect { reopen_leading: false, reopen_trailing: false, collapse: None, sizes: None };
    match pane_rule_exec(p.leading_collapsible, p.leading_collapsed, latch.expanding_leading, raw_i, min_i, snap) {
        PaneRule::Hold => none,
        PaneRule::Collapse => {
            latch.expanding_leading = false;
            DragEffect { reopen_leading: false, reopen_trailing: false, collapse: Some(Pane::Leading), sizes: Some(PairSizes { leading: 0, trailing: pair }) }
        },
        PaneRule::Continue { reopened: ri, expanding: ei } => {
            match pane_rule_exec(
                p.trailing_collapsible,
                p.trailing_collapsed,
                latch.expanding_trailing,
                raw_j,
                min_j,
                snap,
            ) {
                PaneRule::Hold => {
                    latch.expanding_leading = ei;
                    DragEffect { reopen_leading: ri, reopen_trailing: false, collapse: None, sizes: None }
                },
                PaneRule::Collapse => {
                    latch.expanding_leading = ei;
                    latch.expanding_trailing = false;
                    DragEffect {
                        reopen_leading: ri,
                        reopen_trailing: false,
                        collapse: Some(Pane::Trailing),
                        sizes: Some(PairSizes { leading: pair, trailing: 0 }),
                    }
                },
                PaneRule::Continue { reopened: rj, expanding: ej } => {
                    latch.expanding_leading = ei;
                    latch.expanding_trailing = ej;
                    let (a, b) = commit_sizes(raw_i, pair);
                    DragEffect { reopen_leading: ri, reopen_trailing: rj, collapse: None, sizes: Some(PairSizes { leading: a, trailing: b }) }
                },
            }
        },
    }
}

/// Every drag move keeps the pair's total: whatever sizes it sets add up to
/// the pair, neither negative.
pub proof fn lemma_drag_keeps_the_pair(
    p: PanePair,
    latch: DragLatch,
    raw_i: int,
    pair: int,
    min_i: int,
    min_j: int,
    snap: int,
)
    requires
        0 <= pair <= SIZE_LIMIT,
    ensures
        spec_drag_step(p, latch, raw_i, pair, min_i, min_j, snap).1.sizes matches Some(z) ==> z.leading + z.trailing
            == pair && 0 <= z.leading && 0 <= z.trailing,
{
}

/// A collapsed pane is never shut again by the move that reopens it: the
/// restore travel is longer than the re-collapse shove, so a pane pulled
/// open stays open until shoved back past a strictly shorter distance.
pub proof fn lemma_restore_beyond_collapse_back(snap: int)
    requires
        0 <= snap,
    ensures
        collapse_back(snap) < restore_out(snap),
{
}

/// A collapsed leading pane pulled past the restore travel reopens and
/// latches as restoring for the rest of the drag.
pub proof fn lemma_leading_restore_latches(
    p: PanePair,
    latch: DragLatch,
    raw_i: int,
    pair: int,
    min_i: int,
    min_j: int,
    snap: int,
)
    requires
        p.leading_collapsible,
        p.leading_collapsed,
        raw_i > restore_out(snap),
    ensures
        spec_drag_step(p, latch, raw_i, pair, min_i, min_j, snap).0.expanding_leading,
        spec_drag_step(p, latch, raw_i, pair, min_i, min_j, snap).1.reopen_leading,
        spec_drag_step(p, latch, raw_i, pair, min_i, min_j, snap).1.collapse != Some(Pane::Leading),
{
}

/// A restoring leading pane stays open below its minimum and collapses
/// again only when shoved back under the re-collapse travel.
pub proof fn lemma_restoring_leading_pane_stays_open(
    p: PanePair,
    latch: DragLatch,
    raw_i: int,
    pair: int,
    min_i: int,
    min_j: int,
    snap: int,
)
    requires
        p.leading_collapsible,
        !p.leading_collapsed,
        latch.expanding_leading,
    ensures
        raw_i >= collapse_back(snap) ==> spec_drag_step(p, latch, raw_i, pair, min_i, min_j, snap).1.collapse
            != Some(Pane::Leading),
        raw_i < collapse_back(snap) && raw_i < min_i ==> spec_drag_step(p, latch, raw_i, pair, min_i, min_j, snap).1.collapse
            == Some(Pane::Leading),
{
}

/// A collapsed trailing pane pulled open past the restore travel (the
/// pointer leaves it more than that) reopens and latches as restoring, as
/// the leading pane does.
pub proof fn lemma_trailing_restore_latches(
    p: PanePair,
    latch: DragLatch,
    raw_i: int,
    pair: int,
    min_i: int,
    min_j: int,
    snap: int,
)
    requires
        !p.leading_collapsible,
        p.trailing_collapsible,
        p.trailing_collapsed,
        pair - raw_i > restore_out(snap),
    ensures
        spec_drag_step(p, latch, raw_i, pair, min_i, min_j, snap).0.expanding_trailing,
        spec_drag_step(p, latch, raw_i, pair, min_i, min_j, snap).1.reopen_trailing,
        spec_drag_step(p, latch, raw_i, pair, min_i, min_j, snap).1.collapse is None,
        spec_drag_step(p, latch, raw_i, pair, min_i, min_j, snap).1.sizes is Some,
{
}

/// A restoring trailing pane stays open below its minimum and collapses
/// again only when shoved back under the re-collapse travel, as the leading
/// pane does.
pub proof fn lemma_restoring_trailing_pane_stays_open(
    p: PanePair,
    latch: DragLatch,
    raw_i: int,
    pair: int,
    min_i: int,
    min_j: int,
    snap: int,
)
    requires
        !p.leading_collapsible,
        p.trailing_collapsible,
        !p.trailing_collapsed,
        latch.expanding_trailing,
    ensures
        pair - raw_i >= collapse_back(snap) ==> spec_drag_step(p, latch, raw_i, pair, min_i, min_j, snap).1.collapse
            is None,
        pair - raw_i >= collapse_back(snap) && pair - raw_i < min_j ==> spec_drag_step(
            p,
            latch,
            raw_i,
            pair,
            min_i,
            min_j,
            snap,
        ).0.expanding_trailing,
        pair - raw_i < collapse_back(snap) && pair - raw_i < min_j ==> spec_drag_step(
            p,
            latch,
            raw_i,
            pair,
            min_i,
            min_j,
            snap,
        ).1.collapse == Some(Pane::Trailing),
{
}

/// A pane that is not restoring snaps shut once dragged more than the snap
/// offset under its minimum; a pane that is not collapsible never does.
pub proof fn lemma_snap_rule(
    p: PanePair,
    latch: DragLatch,
    raw_i: int,
    pair: int,
    min_i: int,
    min_j: int,
    snap: int,
)
    ensures
        p.leading_collapsible && !p.leading_collapsed && !latch.expanding_leading && raw_i < min_i - snap
            ==> spec_drag_step(p, latch, raw_i, pair, min_i, min_j, snap).1.collapse == Some(Pane::Leading),
        !p.leading_collapsible && p.trailing_collapsible && !p.trailing_collapsed && !latch.expanding_trailing
            && pair - raw_i < min_j - snap ==> spec_drag_step(p, latch, raw_i, pair, min_i, min_j, snap).1.collapse
            == Some(Pane::Trailing),
        !p.leading_collapsible && !p.trailing_collapsible ==> spec_drag_step(
            p,
            latch,
            raw_i,
            pair,
            min_i,
            min_j,
            snap,
        ).1.collapse is None,
{
}

/// A collapsed leading pane not pulled past the restore travel holds the
/// boundary: nothing changes.
pub proof fn lemma_collapsed_pane_holds(
    p: PanePair,
    latch: DragLatch,
    raw_i: int,
    pair: int,
    min_i: int,
    min_j: int,
    snap: int,
)
    requires
        p.leading_collapsible,
        p.leading_collapsed,
        raw_i <= restore_out(snap),
    ensures
        spec_drag_step(p, latch, raw_i, pair, min_i, min_j, snap).0 == latch,
        spec_drag_step(p, latch, raw_i, pair, min_i, min_j, snap).1.sizes is None,
        spec_drag_step(p, latch, raw_i, pair, min_i, min_j, snap).1.collapse is None,
{
}

/// Sum of the first `k` entries.
pub open spec fn total_before(s: Seq<i64>, k: int) -> int
    decreases k,
{
    if k <= 0 {
        0
    } else {
        total_before(s, k - 1) + s[k - 1] as int
    }
}

/// Every entry within `0 ..= SIZE_LIMIT`, and the whole row too.
pub open spec fn row_bounded(s: Seq<i64>) -> bool {
    &&& forall|j: int| 0 <= j < s.len() ==> 0 <= #[trigger] s[j] <= SIZE_LIMIT
    &&& total_before(s, s.len() as int) <= SIZE_LIMIT
}

/// The geometry of divider `index`: where pane `index` starts (counting
/// the panes and the actual gutters before it, so a hidden pane before the
/// divider does not throw the offset off), the two panes' sizes and the
/// gutter between them.
#[derive(Debug, Clone, Copy, PartialEq, Eq, Structural)]
pub struct DividerGeometry {
    pub pre: i64,
    pub size_leading: i64,
    pub size_trailing: i64,
    pub gutter: i64,
}

proof fn lemma_total_before_monotone(s: Seq<i64>, a: int, b: int)
    requires
        0 <= a <= b <= s.len(),
        forall|j: int| 0 <= j < s.len() ==> 0 <= #[trigger] s[j],
    ensures
        0 <= total_before(s, a) <= total_before(s, b),
    decreases b - a,
{
    if a < b {
        lemma_total_before_monotone(s, a, b - 1);
    } else if a > 0 {
        lemma_total_before_nonneg(s, a);
    }
}

proof fn lemma_total_before_nonneg(s: Seq<i64>, a: int)
    requires
        0 <= a <= s.len(),
        forall|j: int| 0 <= j < s.len() ==> 0 <= #[trigger] s[j],
    ensures
        0 <= total_before(s, a),
    decreases a,
{
    if a > 0 {
        lemma_total_before_nonneg(s, a - 1);
    }
}

fn row_total(s: &Vec<i64>, k: usize) -> (t: i64)
    requires
        k <= s.len(),
        row_bounded(s@),
    ensures
        t as int == total_before(s@, k as int),
        0 <= t <= SIZE_LIMIT,
{
    proof {
        lemma_total_before_monotone(s@, k as int, s@.len() as int);
    }
    let mut t: i64 = 0;
    let mut i: usize = 0;
    while i < k
        invariant
            i <= k,
            k <= s.len(),
            row_bounded(s@),
            t as int == total_before(s@, i as int),
        decreases k - i,
    {
        proof {
            lemma_total_before_monotone(s@, i as int + 1, s@.len() as int);
        }
        t = t + s[i];
        i = i + 1;
    }
    t
}

/// The geometry of divider `index` from the latest pane sizes and gutter
/// widths, or `None` when there is no pane after it.
pub fn geometry(sizes: &Vec<i64>, gutters: &Vec<i64>, index: usize) -> (g: Option<DividerGeometry>)
    requires
        row_bounded(sizes@),
        row_bounded(gutters@),
    ensures
        index as int + 1 >= sizes.len() ==> g is None,
        index as int + 1 < sizes.len() ==> g == Some(
            DividerGeometry {
                pre: (total_before(sizes@, index as int) + total_before(
                    gutters@,
                    if index < gutters.len() {
                        index as int
                    } else {
                        gutters.len() as int
                    },
                )) as i64,
                size_leading: sizes@[index as int],
                size_trailing: sizes@[index as int + 1],
                gutter: if index < gutters.len() {
                    gutters@[index as int]
                } else {
                    0
                },
            },
        ),
{
    if index >= sizes.len() || index + 1 >= sizes.len() {
        return None;
    }
    let take = if index < gutters.len() {
        index
    } else {
        gutters.len()
    };
    let pre = row_total(sizes, index) + row_total(gutters, take);
    let gut = if index < gutters.len() {
        gutters[index]
    } else {
        0
    };
    Some(DividerGeometry { pre, size_leading: sizes[index], size_trailing: sizes[index + 1], gutter: gut })
}

/// A pointer's main-axis coordinate in the container's local space, 0 at
/// its leading edge: `local` is relative to the handle, which starts at
/// `handle_origin`; a right-to-left horizontal split measures from the
/// container's trailing edge so pane 0 is always the leading pane.
pub fn container_main(
    local: i64,
    handle_origin: i64,
    container_origin: i64,
    container_extent: i64,
    horizontal: bool,
    rtl: bool,
) -> (r: i64)
    requires
        -SIZE_LIMIT <= local <= SIZE_LIMIT,
        -SIZE_LIMIT <= handle_origin <= SIZE_LIMIT,
        -SIZE_LIMIT <= container_origin <= SIZE_LIMIT,
        0 <= container_extent <= SIZE_LIMIT,
    ensures
        r == (if horizontal && rtl {
            container_origin + container_extent - (local + handle_origin)
        } else {
            local + handle_origin - container_origin
        }),
{
    let window = local + handle_origin;
    if horizontal && rtl {
        container_origin + container_extent - window
    } else {
        window - container_origin
    }
}

/// Where the pointer grabbed the divider relative to its centre, captured
/// when a drag starts so the divider does not jump under the pointer.
pub fn grab_offset(pointer: i64, g: DividerGeometry) -> (r: i64)
    requires
        -SIZE_LIMIT <= pointer <= SIZE_LIMIT,
        0 <= g.pre <= SIZE_LIMIT,
        0 <= g.size_leading <= SIZE_LIMIT,
        0 <= g.gutter <= SIZE_LIMIT,
    ensures
        r == pointer - (g.pre + g.size_leading + g.gutter / 2),
{
    pointer - (g.pre + g.size_leading + g.gutter / 2)
}

/// The size the pointer asks of pane `i` during a drag, given the offset
/// captured at the start and the drag's starting geometry.
pub fn desired_leading_size(pointer: i64, offset: i64, gutter: i64, pre: i64) -> (r: i64)
    requires
        -SIZE_LIMIT <= pointer <= SIZE_LIMIT,
        -2 * SIZE_LIMIT <= offset <= 2 * SIZE_LIMIT,
        0 <= gutter <= SIZE_LIMIT,
        0 <= pre <= SIZE_LIMIT,
    ensures
        r == pointer - offset - gutter / 2 - pre,
{
    pointer - offset - gutter / 2 - pre
}

/// Anti-jump: a drag that has not moved asks for exactly the size pane `i`
/// had when it started.
pub proof fn lemma_grab_does_not_jump(pointer: int, pre: int, size_leading: int, gutter: int)
    ensures
        pointer - (pointer - (pre + size_leading + gutter / 2)) - gutter / 2 - pre == size_leading,
{
}

} // verus!
