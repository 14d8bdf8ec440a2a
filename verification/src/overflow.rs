//! Overflow planning for a segmented control.
//!
//! [`plan`] is a pure function of the available width, the live segments'
//! natural widths, the forced segment, the chevron's width, the sizing and
//! the overflow mode. Widths are whole width units (a thousandth of a dp);
//! shares are cut at whole units and add up to exactly the space they
//! share, so three equal slots of 1000 units get 333, 333 and 334.
//!
//! Declaration order is stable. Segments that do not fit move into a
//! trailing chevron menu, from the end. The one exception is the forced
//! segment: if it is not in the naturally fitting prefix it takes the last
//! visible slot, evicting as many trailing segments as it needs.
//!
//! The "does everything fit with no chevron?" test runs once, before any
//! chevron width is reserved; the moment it fails the chevron's width is
//! baked into the budget for the rest of the call, so the chevron decision
//! cannot flap at the boundary width.
use vstd::prelude::*;
use crate::segmented::SegmentSizing;

verus! {

/// Tolerance of the fit comparisons, in width units (half a dp).
pub const FIT_TOLERANCE: u64 = 500;

/// Largest width a single measurement may take.
pub open spec fn max_width() -> int {
    0xffff_ffff
}

/// The outcome of one overflow calculation. All indices address the live
/// segment list.
#[derive(Debug, Clone, PartialEq, Eq)]
pub struct Plan {
    /// Segments on the strip, in reading order. A forced segment, if it had
    /// to be promoted, is the last entry; everything before it is a
    /// declaration-order prefix.
    pub visible: Vec<usize>,
    /// Width of each entry of `visible`; same length.
    pub widths: Vec<u64>,
    /// Segments that did not fit, in declaration order.
    pub overflowed: Vec<usize>,
    /// Whether the trailing chevron is shown.
    pub show_chevron: bool,
}

// ───────────────────────────── the rule, as specs ─────────────────────────────

/// The widest natural width, 0 for no segments.
pub open spec fn widest(natural: Seq<u32>) -> int
    decreases natural.len(),
{
    if natural.len() == 0 {
        0
    } else {
        let rest = widest(natural.drop_last());
        if natural.last() as int > rest {
            natural.last() as int
        } else {
            rest
        }
    }
}

/// The width a segment is measured at: the widest one under `Uniform`, its
/// own under `Fit`.
pub open spec fn unit_width(natural: Seq<u32>, sizing: SegmentSizing, i: int) -> int {
    match sizing {
        SegmentSizing::Uniform => widest(natural),
        SegmentSizing::Fit => natural[i] as int,
    }
}

/// Measured width of the first `k` segments.
pub open spec fn units_sum(natural: Seq<u32>, sizing: SegmentSizing, k: int) -> int
    decreases k,
{
    if k <= 0 {
        0
    } else {
        units_sum(natural, sizing, k - 1) + unit_width(natural, sizing, k - 1)
    }
}

/// No segment goes to a menu: compress mode, or the whole strip fits.
pub open spec fn everything_fits(
    available: u32,
    natural: Seq<u32>,
    sizing: SegmentSizing,
    compress: bool,
) -> bool {
    compress || units_sum(natural, sizing, natural.len() as int) <= available + FIT_TOLERANCE
}

/// What is left for segments once the chevron's width is reserved.
pub open spec fn budget(available: u32, chevron: u32) -> int {
    if available >= chevron {
        available - chevron
    } else {
        0
    }
}

/// Length of the greedy declaration-order prefix that fits in `limit`,
/// scanning from segment `i`.
pub open spec fn prefix_len(natural: Seq<u32>, sizing: SegmentSizing, limit: int, i: int) -> int
    decreases natural.len() - i,
{
    if 0 <= i < natural.len() && units_sum(natural, sizing, i + 1) <= limit {
        prefix_len(natural, sizing, limit, i + 1)
    } else {
        i
    }
}

/// How much of a `q`-long prefix stays once a forced segment of width `mw`
/// has to fit after it: trailing entries are evicted one at a time.
pub open spec fn kept_len(
    natural: Seq<u32>,
    sizing: SegmentSizing,
    limit: int,
    mw: int,
    q: int,
) -> int
    decreases q,
{
    if q > 0 && units_sum(natural, sizing, q) + mw > limit {
        kept_len(natural, sizing, limit, mw, q - 1)
    } else {
        q
    }
}

/// The indices `0 .. k`.
pub open spec fn index_range(k: int) -> Seq<usize> {
    Seq::new(k as nat, |i: int| i as usize)
}

/// The segments on the strip.
pub open spec fn planned_visible(
    available: u32,
    natural: Seq<u32>,
    must: Option<usize>,
    chevron: u32,
    sizing: SegmentSizing,
    compress: bool,
) -> Seq<usize> {
    let n = natural.len() as int;
    if n == 0 {
        Seq::empty()
    } else if everything_fits(available, natural, sizing, compress) {
        index_range(n)
    } else {
        let limit = budget(available, chevron) + FIT_TOLERANCE;
        let p = prefix_len(natural, sizing, limit, 0);
        let base = match must {
            Some(m) => {
                if m < n && m >= p {
                    let q = kept_len(natural, sizing, limit, unit_width(natural, sizing, m as int), p);
                    index_range(q).push(m)
                } else {
                    index_range(p)
                }
            },
            None => index_range(p),
        };
        if base.len() == 0 {
            seq![
                match must {
                    Some(m) => if m < n {
                        m
                    } else {
                        0
                    },
                    None => 0,
                },
            ]
        } else {
            base
        }
    }
}

/// Whether the plan shows the chevron: some segment went to the menu, which
/// takes at least two segments and a strip that does not fit as a whole.
pub open spec fn planned_chevron(
    available: u32,
    natural: Seq<u32>,
    sizing: SegmentSizing,
    compress: bool,
) -> bool {
    natural.len() >= 2 && !everything_fits(available, natural, sizing, compress)
}

/// The space the visible segments share.
pub open spec fn planned_space(available: u32, chevron: u32, show_chevron: bool) -> int {
    if show_chevron {
        budget(available, chevron)
    } else {
        available as int
    }
}

/// Natural width of the first `k` visible entries.
pub open spec fn visible_natural_sum(visible: Seq<usize>, natural: Seq<u32>, k: int) -> int
    decreases k,
{
    if k <= 0 {
        0
    } else {
        visible_natural_sum(visible, natural, k - 1) + natural[visible[k - 1] as int] as int
    }
}

/// The first `m` of `k` near-equal shares of `total`, together. Each
/// boundary is rounded down, so the shares differ by at most one unit and
/// all `k` of them add up to exactly `total`.
pub open spec fn share_cut(total: int, m: int, k: int) -> int {
    m * total / k
}

/// The first `j` widths of a distribution, together (see
/// [`distributed_width`]).
pub open spec fn distributed_cut(
    space: int,
    visible: Seq<usize>,
    natural: Seq<u32>,
    sizing: SegmentSizing,
    j: int,
) -> int {
    let k = visible.len() as int;
    let natsum = visible_natural_sum(visible, natural, k);
    match sizing {
        SegmentSizing::Uniform => share_cut(space, j, k),
        SegmentSizing::Fit => {
            if natsum <= 0 {
                share_cut(space, j, k)
            } else if space >= natsum {
                visible_natural_sum(visible, natural, j) + share_cut(space - natsum, j, k)
            } else {
                visible_natural_sum(visible, natural, j) * space / natsum
            }
        },
    }
}

/// Width of visible entry `j` when `space` is shared out. `Uniform` splits
/// it into near-equal shares; `Fit` gives each entry its natural width plus
/// a near-equal share of the leftover, or scales the natural widths
/// proportionally when the space is short. Shares are cut at whole units
/// by rounding each running total down, so the widths add up to exactly
/// `space` (see [`lemma_distribution_fills`]).
pub open spec fn distributed_width(
    space: int,
    visible: Seq<usize>,
    natural: Seq<u32>,
    sizing: SegmentSizing,
    j: int,
) -> int {
    distributed_cut(space, visible, natural, sizing, j + 1) - distributed_cut(space, visible, natural, sizing, j)
}

/// All widths of a distribution.
pub open spec fn distributed(
    space: int,
    visible: Seq<usize>,
    natural: Seq<u32>,
    sizing: SegmentSizing,
) -> Seq<int> {
    Seq::new(visible.len(), |j: int| distributed_width(space, visible, natural, sizing, j))
}

/// A strictly increasing sequence of indices.
pub open spec fn strictly_increasing(s: Seq<usize>) -> bool {
    forall|a: int, b: int| 0 <= a < b < s.len() ==> s[a] < s[b]
}

/// `overflowed` lists, in declaration order, exactly the segments below `n`
/// that are not visible.
pub open spec fn is_complement(overflowed: Seq<usize>, visible: Seq<usize>, n: int) -> bool {
    &&& strictly_increasing(overflowed)
    &&& forall|j: int| 0 <= j < overflowed.len() ==> overflowed[j] < n
    &&& forall|i: usize| i < n ==> (overflowed.contains(i) <==> !visible.contains(i))
}

/// What [`plan`] returns.
pub open spec fn plan_matches(
    p: Plan,
    available: u32,
    natural: Seq<u32>,
    must: Option<usize>,
    chevron: u32,
    sizing: SegmentSizing,
    compress: bool,
) -> bool {
    let n = natural.len() as int;
    let visible = planned_visible(available, natural, must, chevron, sizing, compress);
    let chev = planned_chevron(available, natural, sizing, compress);
    &&& p.visible@ == visible
    &&& p.show_chevron == chev
    &&& is_complement(p.overflowed@, visible, n)
    &&& p.widths@.len() == visible.len()
    &&& forall|j: int|
        0 <= j < visible.len() ==> p.widths@[j] as int == distributed_width(
            planned_space(available, chevron, chev),
            visible,
            natural,
            sizing,
            j,
        )
}

impl Plan {
    /// The plan of a control with no live segments.
    pub fn empty() -> (p: Plan)
        ensures
            p.visible@.len() == 0,
            p.widths@.len() == 0,
            p.overflowed@.len() == 0,
            !p.show_chevron,
    {
        Plan { visible: Vec::new(), widths: Vec::new(), overflowed: Vec::new(), show_chevron: false }
    }

    /// `true` when `index` is on the strip.
    pub fn is_visible(&self, index: usize) -> (r: bool)
        ensures
            r == self.visible@.contains(index),
    {
        holds_index(&self.visible, index)
    }

    /// The slot `index` occupies on the strip, if any. Slots address
    /// `widths`; they are not segment indices once a segment was promoted.
    pub fn slot_of(&self, index: usize) -> (r: Option<usize>)
        ensures
            match r {
                Some(slot) => slot < self.visible@.len() && self.visible@[slot as int] == index
                    && forall|t: int| 0 <= t < slot ==> self.visible@[t] != index,
                None => !self.visible@.contains(index),
            },
    {
        let mut i: usize = 0;
        while i < self.visible.len()
            invariant
                i <= self.visible@.len(),
                forall|t: int| 0 <= t < i ==> self.visible@[t] != index,
            decreases self.visible@.len() - i,
        {
            if self.visible[i] == index {
                return Some(i);
            }
            i = i + 1;
        }
        None
    }

    /// Per-segment overflow flags for `n` live segments: `true` for the
    /// ones in the menu.
    pub fn overflow_flags(&self, n: usize) -> (flags: Vec<bool>)
        ensures
            flags@.len() == n,
            forall|i: int| 0 <= i < n ==> flags@[i] == self.overflowed@.contains(i as usize),
    {
        let mut flags: Vec<bool> = Vec::new();
        let mut i: usize = 0;
        while i < n
            invariant
                i <= n,
                flags@.len() == i,
                forall|t: int| 0 <= t < i ==> flags@[t] == self.overflowed@.contains(t as usize),
            decreases n - i,
        {
            flags.push(holds_index(&self.overflowed, i));
            i = i + 1;
        }
        flags
    }
}

// ───────────────────────────── lemmas ─────────────────────────────

proof fn lemma_widest_bounds(natural: Seq<u32>)
    ensures
        0 <= widest(natural) <= max_width(),
        forall|i: int| 0 <= i < natural.len() ==> natural[i] as int <= widest(natural),
    decreases natural.len(),
{
    if natural.len() > 0 {
        lemma_widest_bounds(natural.drop_last());
        assert forall|i: int| 0 <= i < natural.len() implies natural[i] as int <= widest(natural) by {
            if i < natural.len() - 1 {
                assert(natural.drop_last()[i] == natural[i]);
            }
        }
    }
}

proof fn lemma_unit_bounds(natural: Seq<u32>, sizing: SegmentSizing, i: int)
    requires
        0 <= i < natural.len(),
    ensures
        0 <= unit_width(natural, sizing, i) <= max_width(),
{
    lemma_widest_bounds(natural);
}

proof fn lemma_units_sum_bounds(natural: Seq<u32>, sizing: SegmentSizing, k: int)
    requires
        0 <= k <= natural.len(),
    ensures
        0 <= units_sum(natural, sizing, k) <= k * 0xffff_ffff,
    decreases k,
{
    if k > 0 {
        lemma_units_sum_bounds(natural, sizing, k - 1);
        lemma_unit_bounds(natural, sizing, k - 1);
    }
}

proof fn lemma_units_sum_monotone(natural: Seq<u32>, sizing: SegmentSizing, a: int, b: int)
    requires
        0 <= a <= b <= natural.len(),
    ensures
        units_sum(natural, sizing, a) <= units_sum(natural, sizing, b),
    decreases b - a,
{
    if a < b {
        lemma_units_sum_monotone(natural, sizing, a, b - 1);
        lemma_unit_bounds(natural, sizing, b - 1);
    }
}

proof fn lemma_prefix_len_facts(natural: Seq<u32>, sizing: SegmentSizing, limit: int, i: int)
    requires
        0 <= i <= natural.len(),
        units_sum(natural, sizing, i) <= limit,
    ensures
        i <= prefix_len(natural, sizing, limit, i) <= natural.len(),
        units_sum(natural, sizing, prefix_len(natural, sizing, limit, i)) <= limit,
        prefix_len(natural, sizing, limit, i) < natural.len() ==> units_sum(
            natural,
            sizing,
            prefix_len(natural, sizing, limit, i) + 1,
        ) > limit,
    decreases natural.len() - i,
{
    if 0 <= i < natural.len() && units_sum(natural, sizing, i + 1) <= limit {
        lemma_prefix_len_facts(natural, sizing, limit, i + 1);
    }
}

proof fn lemma_kept_len_facts(
    natural: Seq<u32>,
    sizing: SegmentSizing,
    limit: int,
    mw: int,
    q: int,
)
    requires
        0 <= q,
    ensures
        0 <= kept_len(natural, sizing, limit, mw, q) <= q,
    decreases q,
{
    if q > 0 && units_sum(natural, sizing, q) + mw > limit {
        lemma_kept_len_facts(natural, sizing, limit, mw, q - 1);
    }
}

proof fn lemma_visible_natural_sum_bounds(visible: Seq<usize>, natural: Seq<u32>, k: int)
    requires
        0 <= k <= visible.len(),
        forall|j: int| 0 <= j < visible.len() ==> visible[j] < natural.len(),
    ensures
        0 <= visible_natural_sum(visible, natural, k) <= k * 0xffff_ffff,
    decreases k,
{
    if k > 0 {
        lemma_visible_natural_sum_bounds(visible, natural, k - 1);
    }
}

// ───────────────────────────── executable ─────────────────────────────

fn widest_of(natural: &Vec<u32>) -> (w: u32)
    ensures
        w as int == widest(natural@),
{
    let mut w: u32 = 0;
    let mut i: usize = 0;
    while i < natural.len()
        invariant
            i <= natural.len(),
            w as int == widest(natural@.subrange(0, i as int)),
        decreases natural.len() - i,
    {
        proof {
            let s = natural@.subrange(0, i as int + 1);
            assert(s.drop_last() =~= natural@.subrange(0, i as int));
        }
        if natural[i] > w {
            w = natural[i];
        }
        i = i + 1;
    }
    proof {
        assert(natural@.subrange(0, natural.len() as int) =~= natural@);
    }
    w
}

fn unit_of(natural: &Vec<u32>, widest_w: u32, sizing: SegmentSizing, i: usize) -> (u: u64)
    requires
        i < natural.len(),
        widest_w as int == widest(natural@),
    ensures
        u as int == unit_width(natural@, sizing, i as int),
{
    match sizing {
        SegmentSizing::Uniform => widest_w as u64,
        SegmentSizing::Fit => natural[i] as u64,
    }
}

/// Whether `v` holds `x`.
pub fn holds_index(v: &Vec<usize>, x: usize) -> (r: bool)
    ensures
        r == v@.contains(x),
{
    let mut i: usize = 0;
    while i < v.len()
        invariant
            i <= v.len(),
            forall|j: int| 0 <= j < i ==> v@[j] != x,
        decreases v.len() - i,
    {
        if v[i] == x {
            return true;
        }
        i = i + 1;
    }
    false
}

/// Share `space` among the visible slots: `Uniform` splits it into
/// near-equal shares, `Fit` gives each slot its natural width plus a
/// near-equal share of any leftover, and scales proportionally when the
/// slots must compress. The widths add up to exactly `space`.
pub fn distribute(space: u32, visible: &Vec<usize>, natural: &Vec<u32>, sizing: SegmentSizing) -> (widths: Vec<u64>)
    requires
        forall|j: int| 0 <= j < visible.len() ==> visible@[j] < natural.len(),
    ensures
        widths@.len() == visible.len(),
        forall|j: int|
            0 <= j < visible.len() ==> widths@[j] as int == distributed_width(
                space as int,
                visible@,
                natural@,
                sizing,
                j,
            ),
{
    let k = visible.len();
    let mut out: Vec<u64> = Vec::new();
    if k == 0 {
        return out;
    }
    proof {
        assert(k as int <= 0xffff_ffff_ffff_ffff);
    }
    let mut natsum: u128 = 0;
    let mut i: usize = 0;
    while i < k
        invariant
            k == visible.len(),
            i <= k,
            forall|j: int| 0 <= j < visible.len() ==> visible@[j] < natural.len(),
            natsum as int == visible_natural_sum(visible@, natural@, i as int),
        decreases k - i,
    {
        proof {
            lemma_visible_natural_sum_bounds(visible@, natural@, i as int + 1);
            assert((i as int + 1) * 0xffff_ffff <= 0xffff_ffff_ffff_ffff * 0xffff_ffff);
        }
        natsum = natsum + natural[visible[i]] as u128;
        i = i + 1;
    }
    let kk = k as u128;
    let sp = space as u128;
    let fit = match sizing {
        SegmentSizing::Uniform => false,
        SegmentSizing::Fit => natsum > 0,
    };
    let scaled = fit && sp < natsum;
    let leftover = fit && sp >= natsum;
    let pool: u128 = if leftover {
        sp - natsum
    } else {
        sp
    };
    let ghost gspace = space as int;
    let ghost gnat = visible_natural_sum(visible@, natural@, k as int);
    let mut cum: u128 = 0;
    let mut j: usize = 0;
    while j < k
        invariant
            k == visible.len(),
            k > 0,
            kk == k,
            k as int <= 0xffff_ffff_ffff_ffff,
            j <= k,
            sp == space,
            gspace == space as int,
            natsum as int == gnat,
            gnat == visible_natural_sum(visible@, natural@, k as int),
            fit == (sizing == SegmentSizing::Fit && gnat > 0),
            scaled == (fit && gspace < gnat),
            leftover == (fit && gspace >= gnat),
            pool as int == (if leftover { gspace - gnat } else { gspace }),
            cum as int == visible_natural_sum(visible@, natural@, j as int),
            forall|x: int| 0 <= x < visible.len() ==> visible@[x] < natural.len(),
            out@.len() == j,
            forall|x: int|
                0 <= x < j ==> out@[x] as int == distributed_width(
                    space as int,
                    visible@,
                    natural@,
                    sizing,
                    x,
                ),
        decreases k - j,
    {
        proof {
            lemma_visible_natural_sum_bounds(visible@, natural@, j as int + 1);
            lemma_visible_natural_sum_monotone(visible@, natural@, j as int + 1, k as int);
        }
        let own = natural[visible[j]] as u128;
        let next_cum = cum + own;
        let w: u128 = if scaled {
            proof {
                assert(next_cum <= 0xffff_ffff_ffff_ffff * 0xffff_ffff);
                assert(next_cum * sp <= (0xffff_ffff_ffff_ffff * 0xffff_ffff) * 0xffff_ffff) by (nonlinear_arith)
                    requires
                        next_cum <= 0xffff_ffff_ffff_ffff * 0xffff_ffff,
                        sp <= 0xffff_ffff,
                ;
                assert(cum * sp <= next_cum * sp) by (nonlinear_arith)
                    requires
                        cum <= next_cum,
                ;
                lemma_share_cut_monotone(gspace, cum as int, next_cum as int, gnat);
                lemma_share_cut_monotone(gspace, next_cum as int, gnat, gnat);
                lemma_share_cut_full(gspace, gnat);
            }
            next_cum * sp / natsum - cum * sp / natsum
        } else {
            let jj = j as u128;
            proof {
                assert((jj + 1) * pool <= 0x1_0000_0000_0000_0000 * 0x1_0000_0000) by (nonlinear_arith)
                    requires
                        jj + 1 <= 0x1_0000_0000_0000_0000,
                        pool <= 0x1_0000_0000,
                ;
                assert(jj * pool <= (jj + 1) * pool) by (nonlinear_arith)
                    requires
                        pool >= 0,
                ;
                lemma_share_cut_monotone(pool as int, jj as int, jj as int + 1, k as int);
                lemma_share_cut_monotone(pool as int, jj as int + 1, k as int, k as int);
                lemma_share_cut_full(pool as int, k as int);
            }
            let part = (jj + 1) * pool / kk - jj * pool / kk;
            if leftover {
                own + part
            } else {
                part
            }
        };
        proof {
            assert(w as int == distributed_width(space as int, visible@, natural@, sizing, j as int));
        }
        out.push(w as u64);
        cum = next_cum;
        j = j + 1;
    }
    out
}

/// Plan the strip for one layout pass.
///
/// * `available` — inner width for the whole slot row, chevron included.
/// * `natural` — each live segment's measured natural width.
/// * `must` — the segment that must stay visible, if any.
/// * `chevron` — the overflow trigger's natural width.
pub fn plan(
    available: u32,
    natural: &Vec<u32>,
    must: Option<usize>,
    chevron: u32,
    sizing: SegmentSizing,
    compress: bool,
) -> (p: Plan)
    ensures
        plan_matches(p, available, natural@, must, chevron, sizing, compress),
{
    let n = natural.len();
    if n == 0 {
        let p = Plan { visible: Vec::new(), widths: Vec::new(), overflowed: Vec::new(), show_chevron: false };
        proof {
            assert(p.visible@ =~= planned_visible(available, natural@, must, chevron, sizing, compress));
        }
        return p;
    }
    let widest_w = widest_of(natural);
    proof {
        lemma_widest_bounds(natural@);
    }
    // The single up-front branch: does everything fit with no chevron?
    proof {
        assert(n as int <= 0xffff_ffff_ffff_ffff);
    }
    let mut total: u128 = 0;
    let mut i: usize = 0;
    while i < n
        invariant
            n == natural.len(),
            n as int <= 0xffff_ffff_ffff_ffff,
            i <= n,
            widest_w as int == widest(natural@),
            total as int == units_sum(natural@, sizing, i as int),
        decreases n - i,
    {
        proof {
            lemma_units_sum_bounds(natural@, sizing, i as int + 1);
            assert((i as int + 1) * 0xffff_ffff <= 0xffff_ffff_ffff_ffff * 0xffff_ffff);
        }
        total = total + unit_of(natural, widest_w, sizing, i) as u128;
        i = i + 1;
    }
    if compress || total <= available as u128 + FIT_TOLERANCE as u128 {
        let mut visible: Vec<usize> = Vec::new();
        let mut k: usize = 0;
        while k < n
            invariant
                n == natural.len(),
                k <= n,
                visible@ =~= index_range(k as int),
            decreases n - k,
        {
            visible.push(k);
            k = k + 1;
        }
        let widths = distribute(available, &visible, natural, sizing);
        let p = Plan { visible, widths, overflowed: Vec::new(), show_chevron: false };
        proof {
            assert(p.visible@ =~= planned_visible(available, natural@, must, chevron, sizing, compress));
            assert forall|x: usize| x < n implies (p.overflowed@.contains(x) <==> !p.visible@.contains(x)) by {
                assert(p.visible@[x as int] == x);
            }
        }
        return p;
    }
    let budget_w: u32 = if available >= chevron {
        available - chevron
    } else {
        0
    };
    let limit: u64 = budget_w as u64 + FIT_TOLERANCE;
    let ghost glimit = limit as int;
    proof {
        assert(glimit == budget(available, chevron) + FIT_TOLERANCE);
    }
    // Greedy declaration-order prefix.
    let mut prefix: Vec<usize> = Vec::new();
    let mut used: u64 = 0;
    let mut i: usize = 0;
    while i < n
        invariant_except_break
            prefix_len(natural@, sizing, glimit, 0) == prefix_len(natural@, sizing, glimit, i as int),
        invariant
            n == natural.len(),
            i <= n,
            limit as int == glimit,
            widest_w as int == widest(natural@),
            used as int == units_sum(natural@, sizing, i as int),
            used as int <= glimit,
            glimit <= 0xffff_ffff + FIT_TOLERANCE,
            prefix@ =~= index_range(i as int),
        ensures
            prefix_len(natural@, sizing, glimit, 0) == i as int,
        decreases n - i,
    {
        proof {
            lemma_unit_bounds(natural@, sizing, i as int);
        }
        let w = unit_of(natural, widest_w, sizing, i);
        if used + w <= limit {
            prefix.push(i);
            used = used + w;
            i = i + 1;
        } else {
            break;
        }
    }
    let p_len = prefix.len();
    proof {
        lemma_prefix_len_facts(natural@, sizing, glimit, 0);
    }
    // Force the promoted segment into the last slot, but only when it is
    // not already in the prefix.
    let mut forced = false;
    if let Some(m) = must {
        if m < n && m >= p_len {
            let mw = unit_of(natural, widest_w, sizing, m);
            let ghost gmw = mw as int;
            while prefix.len() > 0 && used + mw > limit
                invariant
                    n == natural.len(),
                    p_len <= n,
                    prefix.len() <= p_len,
                    limit as int == glimit,
                    gmw == mw as int,
                    mw <= 0xffff_ffff,
                    used as int == units_sum(natural@, sizing, prefix.len() as int),
                    prefix@ =~= index_range(prefix.len() as int),
                    widest_w as int == widest(natural@),
                    used as int <= glimit,
                    glimit <= 0xffff_ffff + FIT_TOLERANCE,
                    kept_len(natural@, sizing, glimit, gmw, p_len as int) == kept_len(
                        natural@,
                        sizing,
                        glimit,
                        gmw,
                        prefix.len() as int,
                    ),
                decreases prefix.len(),
            {
                let dropped = prefix.pop().unwrap();
                proof {
                    lemma_unit_bounds(natural@, sizing, dropped as int);
                    lemma_units_sum_bounds(natural@, sizing, prefix.len() as int);
                }
                used = used - unit_of(natural, widest_w, sizing, dropped);
            }
            proof {
                lemma_unit_bounds(natural@, sizing, m as int);
            }
            prefix.push(m);
            forced = true;
        }
    }
    let mut visible = prefix;
    proof {
        let base = match must {
            Some(m) => {
                if m < n && m >= p_len {
                    index_range(kept_len(natural@, sizing, glimit, unit_width(natural@, sizing, m as int), p_len as int)).push(m)
                } else {
                    index_range(p_len as int)
                }
            },
            None => index_range(p_len as int),
        };
        assert(visible@ =~= base);
    }
    // A control that shows nothing is useless: keep one segment even when
    // the chevron alone would fill the width.
    if visible.len() == 0 {
        let keep = match must {
            Some(m) => if m < n {
                m
            } else {
                0
            },
            None => 0,
        };
        visible.push(keep);
    }
    let ghost gvis = planned_visible(available, natural@, must, chevron, sizing, compress);
    proof {
        assert(visible@ =~= gvis);
    }
    let mut overflowed: Vec<usize> = Vec::new();
    let mut k: usize = 0;
    while k < n
        invariant
            n == natural.len(),
            k <= n,
            visible@ == gvis,
            strictly_increasing(overflowed@),
            forall|j: int| 0 <= j < overflowed.len() ==> overflowed@[j] < k,
            forall|x: usize| x < k ==> (overflowed@.contains(x) <==> !visible@.contains(x)),
        decreases n - k,
    {
        let ghost before = overflowed@;
        if !holds_index(&visible, k) {
            overflowed.push(k);
        }
        proof {
            assert forall|x: usize| x < k + 1 implies (overflowed@.contains(x) <==> !visible@.contains(x)) by {
                if x < k {
                    if overflowed@.contains(x) {
                        let j = choose|j: int| 0 <= j < overflowed@.len() && overflowed@[j] == x;
                        if j < before.len() {
                            assert(before[j] == x);
                        }
                    }
                    if before.contains(x) {
                        let j = choose|j: int| 0 <= j < before.len() && before[j] == x;
                        assert(overflowed@[j] == x);
                    }
                } else {
                    if overflowed@.contains(x) && overflowed@.len() == before.len() {
                        let j = choose|j: int| 0 <= j < overflowed@.len() && overflowed@[j] == x;
                        assert(before[j] < k);
                    }
                    if overflowed@.len() > before.len() {
                        assert(overflowed@[overflowed@.len() - 1] == x);
                    }
                }
            }
        }
        k = k + 1;
    }
    proof {
        lemma_chevron_iff_overflow(available, natural@, must, chevron, sizing, compress);
        lemma_visible_in_range(available, natural@, must, chevron, sizing, compress);
    }
    let show_chevron = overflowed.len() > 0;
    proof {
        if show_chevron {
            assert(overflowed@.contains(overflowed@[0]));
        } else {
            assert forall|x: usize| x < n implies visible@.contains(x) by {
                assert(!overflowed@.contains(x));
            }
        }
    }
    let seg_space: u32 = if show_chevron {
        budget_w
    } else {
        available
    };
    let widths = distribute(seg_space, &visible, natural, sizing);
    Plan { visible, widths, overflowed, show_chevron }
}

/// Every planned index addresses a live segment, and a non-empty control
/// always shows at least one segment.
pub proof fn lemma_visible_in_range(
    available: u32,
    natural: Seq<u32>,
    must: Option<usize>,
    chevron: u32,
    sizing: SegmentSizing,
    compress: bool,
)
    ensures
        ({
            let v = planned_visible(available, natural, must, chevron, sizing, compress);
            &&& forall|j: int| 0 <= j < v.len() ==> v[j] < natural.len()
            &&& natural.len() > 0 ==> v.len() >= 1
            &&& v.len() <= natural.len()
        }),
{
    let n = natural.len() as int;
    if n > 0 && !everything_fits(available, natural, sizing, compress) {
        let limit = budget(available, chevron) + FIT_TOLERANCE;
        lemma_prefix_len_facts(natural, sizing, limit, 0);
        let p = prefix_len(natural, sizing, limit, 0);
        lemma_no_full_prefix(available, natural, chevron, sizing, compress);
        if let Some(m) = must {
            if m < n && m >= p {
                lemma_kept_len_facts(natural, sizing, limit, unit_width(natural, sizing, m as int), p);
            }
        }
    }
}

/// When not everything fits, the greedy prefix stops short of the end.
proof fn lemma_no_full_prefix(
    available: u32,
    natural: Seq<u32>,
    chevron: u32,
    sizing: SegmentSizing,
    compress: bool,
)
    requires
        natural.len() > 0,
        !everything_fits(available, natural, sizing, compress),
    ensures
        prefix_len(natural, sizing, budget(available, chevron) + FIT_TOLERANCE, 0) < natural.len(),
{
    let limit = budget(available, chevron) + FIT_TOLERANCE;
    lemma_prefix_len_facts(natural, sizing, limit, 0);
}

/// The chevron shows exactly when some live segment is off the strip, and
/// that is exactly when there are at least two segments and the strip does
/// not fit as a whole (a lone segment that does not fit stays on the strip
/// and ellipsizes).
pub proof fn lemma_chevron_iff_overflow(
    available: u32,
    natural: Seq<u32>,
    must: Option<usize>,
    chevron: u32,
    sizing: SegmentSizing,
    compress: bool,
)
    requires
        natural.len() <= usize::MAX,
    ensures
        ({
            let v = planned_visible(available, natural, must, chevron, sizing, compress);
            (exists|i: usize| i < natural.len() && !v.contains(i)) <==> (natural.len() >= 2
                && !everything_fits(available, natural, sizing, compress))
        }),
{
    let n = natural.len() as int;
    let v = planned_visible(available, natural, must, chevron, sizing, compress);
    let limit = budget(available, chevron) + FIT_TOLERANCE;
    if n > 0 && everything_fits(available, natural, sizing, compress) {
        assert forall|i: usize| i < n implies v.contains(i) by {
            assert(v[i as int] == i);
        }
    }
    if n == 1 && !everything_fits(available, natural, sizing, compress) {
        lemma_visible_in_range(available, natural, must, chevron, sizing, compress);
        assert forall|i: usize| i < n implies v.contains(i) by {
            assert(v[0] == 0);
        }
    }
    if n >= 2 && !everything_fits(available, natural, sizing, compress) {
        lemma_prefix_len_facts(natural, sizing, limit, 0);
        let p = prefix_len(natural, sizing, limit, 0);
        lemma_no_full_prefix(available, natural, chevron, sizing, compress);
        let mut missing: usize = (n - 1) as usize;
        match must {
            Some(m) => {
                if m < n && m >= p {
                    let mw = unit_width(natural, sizing, m as int);
                    lemma_kept_len_facts(natural, sizing, limit, mw, p);
                    let q = kept_len(natural, sizing, limit, mw, p);
                    if m == n - 1 {
                        if q == p && p == m {
                            lemma_kept_equal(natural, sizing, limit, mw, p);
                            assert(false);
                        }
                        missing = q as usize;
                    }
                    assert(!v.contains(missing)) by {
                        if v.contains(missing) {
                            let j = choose|j: int| 0 <= j < v.len() && v[j] == missing;
                            if j < q {
                                assert(v[j] == j as usize);
                            }
                        }
                    }
                } else {
                    assert(!v.contains(missing)) by {
                        if v.contains(missing) {
                            let j = choose|j: int| 0 <= j < v.len() && v[j] == missing;
                            if p > 0 {
                                assert(v[j] == j as usize);
                            }
                        }
                    }
                }
            },
            None => {
                assert(!v.contains(missing)) by {
                    if v.contains(missing) {
                        let j = choose|j: int| 0 <= j < v.len() && v[j] == missing;
                        if p > 0 {
                            assert(v[j] == j as usize);
                        }
                    }
                }
            },
        }
        assert(missing < n && !v.contains(missing));
    }
}

proof fn lemma_kept_equal(natural: Seq<u32>, sizing: SegmentSizing, limit: int, mw: int, p: int)
    requires
        p >= 0,
        kept_len(natural, sizing, limit, mw, p) == p,
    ensures
        p > 0 ==> units_sum(natural, sizing, p) + mw <= limit,
{
    if p > 0 && units_sum(natural, sizing, p) + mw > limit {
        lemma_kept_len_facts(natural, sizing, limit, mw, p - 1);
    }
}

/// The forced segment is always on the strip: a selected segment is never
/// pushed into the menu.
pub proof fn lemma_forced_segment_visible(
    available: u32,
    natural: Seq<u32>,
    m: usize,
    chevron: u32,
    sizing: SegmentSizing,
    compress: bool,
)
    requires
        m < natural.len(),
    ensures
        planned_visible(available, natural, Some(m), chevron, sizing, compress).contains(m),
{
    let n = natural.len() as int;
    let v = planned_visible(available, natural, Some(m), chevron, sizing, compress);
    if everything_fits(available, natural, sizing, compress) {
        assert(v[m as int] == m);
    } else {
        let limit = budget(available, chevron) + FIT_TOLERANCE;
        let p = prefix_len(natural, sizing, limit, 0);
        lemma_prefix_from_grows(natural, sizing, limit, 0);
        if m >= p {
            let q = kept_len(natural, sizing, limit, unit_width(natural, sizing, m as int), p);
            lemma_kept_len_facts(natural, sizing, limit, unit_width(natural, sizing, m as int), p);
            assert(v[q] == m);
        } else {
            assert(v[m as int] == m);
        }
    }
}

/// Once everything fits, the strip is every segment in declaration order,
/// whatever segment is forced.
pub proof fn lemma_full_fit_in_declaration_order(
    available: u32,
    natural: Seq<u32>,
    must: Option<usize>,
    chevron: u32,
    sizing: SegmentSizing,
    compress: bool,
)
    requires
        everything_fits(available, natural, sizing, compress),
    ensures
        planned_visible(available, natural, must, chevron, sizing, compress) == index_range(
            natural.len() as int,
        ),
        !planned_chevron(available, natural, sizing, compress),
{
    if natural.len() == 0 {
        assert(planned_visible(available, natural, must, chevron, sizing, compress) =~= index_range(0));
    }
}

/// A forced segment that is on the strip anyway causes no reordering: the
/// plan is the one with nothing forced.
pub proof fn lemma_fitting_forced_segment_keeps_its_slot(
    available: u32,
    natural: Seq<u32>,
    m: usize,
    chevron: u32,
    sizing: SegmentSizing,
    compress: bool,
)
    requires
        planned_visible(available, natural, None, chevron, sizing, compress).contains(m),
    ensures
        planned_visible(available, natural, Some(m), chevron, sizing, compress) == planned_visible(
            available,
            natural,
            None,
            chevron,
            sizing,
            compress,
        ),
{
    let n = natural.len() as int;
    let v = planned_visible(available, natural, None, chevron, sizing, compress);
    if n > 0 && !everything_fits(available, natural, sizing, compress) {
        let limit = budget(available, chevron) + FIT_TOLERANCE;
        let p = prefix_len(natural, sizing, limit, 0);
        lemma_prefix_from_grows(natural, sizing, limit, 0);
        let j = choose|j: int| 0 <= j < v.len() && v[j] == m;
        if p > 0 {
            assert(v[j] == j as usize);
            assert(m < p);
        } else {
            assert(v =~= seq![0usize]);
            assert(m == 0);
            assert(kept_len(natural, sizing, limit, unit_width(natural, sizing, 0), 0) == 0);
            assert(planned_visible(available, natural, Some(m), chevron, sizing, compress) =~= v);
        }
    }
}

/// The chevron decision is monotonic in the width: once everything fits at
/// some width, the chevron never reappears at a wider one.
pub proof fn lemma_chevron_monotone_in_width(
    narrow: u32,
    wide: u32,
    natural: Seq<u32>,
    sizing: SegmentSizing,
    compress: bool,
)
    requires
        narrow <= wide,
        !planned_chevron(narrow, natural, sizing, compress),
    ensures
        !planned_chevron(wide, natural, sizing, compress),
{
}

proof fn lemma_prefix_len_monotone(natural: Seq<u32>, sizing: SegmentSizing, l1: int, l2: int, i: int)
    requires
        l1 <= l2,
        0 <= i <= natural.len(),
    ensures
        prefix_len(natural, sizing, l1, i) <= prefix_len(natural, sizing, l2, i),
    decreases natural.len() - i,
{
    if i < natural.len() {
        lemma_prefix_len_monotone(natural, sizing, l1, l2, i + 1);
        if units_sum(natural, sizing, i + 1) <= l2 {
            if units_sum(natural, sizing, i + 1) > l1 {
                lemma_prefix_from_grows(natural, sizing, l2, i + 1);
            }
        }
    }
}

proof fn lemma_prefix_from_grows(natural: Seq<u32>, sizing: SegmentSizing, limit: int, i: int)
    requires
        0 <= i <= natural.len(),
    ensures
        prefix_len(natural, sizing, limit, i) >= i,
    decreases natural.len() - i,
{
    if 0 <= i < natural.len() && units_sum(natural, sizing, i + 1) <= limit {
        lemma_prefix_from_grows(natural, sizing, limit, i + 1);
    }
}

/// With nothing forced, a narrower control never shows more segments than
/// a wider one.
pub proof fn lemma_visible_count_monotone_in_width(
    narrow: u32,
    wide: u32,
    natural: Seq<u32>,
    chevron: u32,
    sizing: SegmentSizing,
    compress: bool,
)
    requires
        narrow <= wide,
    ensures
        planned_visible(narrow, natural, None, chevron, sizing, compress).len() <= planned_visible(
            wide,
            natural,
            None,
            chevron,
            sizing,
            compress,
        ).len(),
{
    lemma_visible_in_range(narrow, natural, None, chevron, sizing, compress);
    lemma_visible_in_range(wide, natural, None, chevron, sizing, compress);
    if natural.len() > 0 && !everything_fits(wide, natural, sizing, compress) {
        let l1 = budget(narrow, chevron) + FIT_TOLERANCE;
        let l2 = budget(wide, chevron) + FIT_TOLERANCE;
        lemma_prefix_len_monotone(natural, sizing, l1, l2, 0);
        lemma_prefix_from_grows(natural, sizing, l1, 0);
        assert(!everything_fits(narrow, natural, sizing, compress));
        let p1 = prefix_len(natural, sizing, l1, 0);
        let p2 = prefix_len(natural, sizing, l2, 0);
        let v1 = planned_visible(narrow, natural, None, chevron, sizing, compress);
        let v2 = planned_visible(wide, natural, None, chevron, sizing, compress);
        assert(v1.len() == if p1 == 0 { 1 } else { p1 });
        assert(v2.len() == if p2 == 0 { 1 } else { p2 });
    }
}

/// Total width of the first `m` entries of a distribution.
pub open spec fn distributed_total(
    space: int,
    visible: Seq<usize>,
    natural: Seq<u32>,
    sizing: SegmentSizing,
    m: int,
) -> int
    decreases m,
{
    if m <= 0 {
        0
    } else {
        distributed_total(space, visible, natural, sizing, m - 1) + distributed_width(
            space,
            visible,
            natural,
            sizing,
            m - 1,
        )
    }
}

proof fn lemma_visible_natural_sum_nonneg(visible: Seq<usize>, natural: Seq<u32>, m: int)
    ensures
        visible_natural_sum(visible, natural, m) >= 0,
    decreases m,
{
    if m > 0 {
        lemma_visible_natural_sum_nonneg(visible, natural, m - 1);
    }
}

proof fn lemma_visible_natural_sum_monotone(visible: Seq<usize>, natural: Seq<u32>, a: int, b: int)
    requires
        0 <= a <= b,
    ensures
        0 <= visible_natural_sum(visible, natural, a) <= visible_natural_sum(visible, natural, b),
    decreases b - a,
{
    lemma_visible_natural_sum_nonneg(visible, natural, a);
    if a < b {
        lemma_visible_natural_sum_monotone(visible, natural, a, b - 1);
    }
}

proof fn lemma_share_cut_monotone(total: int, a: int, b: int, k: int)
    requires
        0 <= total,
        0 <= a <= b,
        k > 0,
    ensures
        0 <= share_cut(total, a, k) <= share_cut(total, b, k),
{
    assert(0 <= a * total <= b * total) by (nonlinear_arith)
        requires
            0 <= total,
            0 <= a <= b,
    ;
    vstd::arithmetic::div_mod::lemma_div_is_ordered(0, a * total, k);
    vstd::arithmetic::div_mod::lemma_div_is_ordered(a * total, b * total, k);
}

proof fn lemma_share_cut_full(total: int, k: int)
    requires
        k > 0,
    ensures
        share_cut(total, k, k) == total,
{
    vstd::arithmetic::div_mod::lemma_div_multiples_vanish(total, k);
}

proof fn lemma_total_is_cut(space: int, visible: Seq<usize>, natural: Seq<u32>, sizing: SegmentSizing, m: int)
    requires
        0 <= m,
    ensures
        distributed_total(space, visible, natural, sizing, m) == distributed_cut(space, visible, natural, sizing, m)
            - distributed_cut(space, visible, natural, sizing, 0),
    decreases m,
{
    if m > 0 {
        lemma_total_is_cut(space, visible, natural, sizing, m - 1);
    }
}

/// The widths a plan hands out add up to exactly the space they share.
pub proof fn lemma_distribution_fills(space: int, visible: Seq<usize>, natural: Seq<u32>, sizing: SegmentSizing)
    requires
        space >= 0,
        visible.len() > 0,
    ensures
        distributed_total(space, visible, natural, sizing, visible.len() as int) == space,
{
    let k = visible.len() as int;
    let natsum = visible_natural_sum(visible, natural, k);
    lemma_total_is_cut(space, visible, natural, sizing, k);
    assert(share_cut(space, 0, k) == 0);
    assert(share_cut(space - natsum, 0, k) == 0);
    lemma_share_cut_full(space, k);
    lemma_share_cut_full(space - natsum, k);
    if natsum > 0 {
        assert(0 * space / natsum == 0) by (nonlinear_arith)
            requires
                natsum != 0,
        ;
        vstd::arithmetic::div_mod::lemma_div_multiples_vanish(space, natsum);
    }
}

/// The widths a plan hands out never add up to more than the space they
/// share.
pub proof fn lemma_distribution_fits(space: int, visible: Seq<usize>, natural: Seq<u32>, sizing: SegmentSizing)
    requires
        space >= 0,
    ensures
        distributed_total(space, visible, natural, sizing, visible.len() as int) <= space,
{
    if visible.len() > 0 {
        lemma_distribution_fills(space, visible, natural, sizing);
    }
}

/// Measured width of the segments of a strip, in strip order.
pub open spec fn strip_units(natural: Seq<u32>, sizing: SegmentSizing, v: Seq<usize>) -> int
    decreases v.len(),
{
    if v.len() == 0 {
        0
    } else {
        strip_units(natural, sizing, v.drop_last()) + unit_width(natural, sizing, v.last() as int)
    }
}

proof fn lemma_strip_units_of_range(natural: Seq<u32>, sizing: SegmentSizing, k: int)
    requires
        0 <= k <= usize::MAX,
    ensures
        strip_units(natural, sizing, index_range(k)) == units_sum(natural, sizing, k),
    decreases k,
{
    if k > 0 {
        assert(index_range(k).drop_last() =~= index_range(k - 1));
        assert(index_range(k).last() as int == k - 1);
        lemma_strip_units_of_range(natural, sizing, k - 1);
    }
}

proof fn lemma_kept_len_fits(natural: Seq<u32>, sizing: SegmentSizing, limit: int, mw: int, q: int)
    requires
        0 <= q,
    ensures
        kept_len(natural, sizing, limit, mw, q) > 0 ==> units_sum(
            natural,
            sizing,
            kept_len(natural, sizing, limit, mw, q),
        ) + mw <= limit,
    decreases q,
{
    if q > 0 && units_sum(natural, sizing, q) + mw > limit {
        lemma_kept_len_fits(natural, sizing, limit, mw, q - 1);
    }
}

/// Every strip of two or more segments fits its width: once any segment is
/// in the menu, the strip's segments (a promoted one included) fit in what
/// is left after the chevron, and outside compress mode a strip with nothing
/// in the menu fits the whole width. Only a strip of a single segment may
/// be wider than its space (it ellipsizes).
pub proof fn lemma_strip_fits_its_width(
    available: u32,
    natural: Seq<u32>,
    must: Option<usize>,
    chevron: u32,
    sizing: SegmentSizing,
    compress: bool,
)
    requires
        natural.len() <= usize::MAX,
    ensures
        ({
            let v = planned_visible(available, natural, must, chevron, sizing, compress);
            let after_chevron = if available >= chevron { available - chevron } else { 0int };
            &&& v.len() >= 2 && (exists|i: usize| i < natural.len() && !v.contains(i)) ==> strip_units(
                natural,
                sizing,
                v,
            ) <= after_chevron + FIT_TOLERANCE
            &&& v.len() >= 2 && !compress ==> strip_units(natural, sizing, v) <= available + FIT_TOLERANCE
        }),
{
    let n = natural.len() as int;
    let v = planned_visible(available, natural, must, chevron, sizing, compress);
    if n == 0 {
        return;
    }
    if everything_fits(available, natural, sizing, compress) {
        lemma_strip_units_of_range(natural, sizing, n);
        assert forall|i: usize| i < n implies v.contains(i) by {
            assert(v[i as int] == i);
        }
        return;
    }
    let limit = budget(available, chevron) + FIT_TOLERANCE;
    lemma_prefix_len_facts(natural, sizing, limit, 0);
    let p = prefix_len(natural, sizing, limit, 0);
    match must {
        Some(m) => {
            if m < n && m >= p {
                let mw = unit_width(natural, sizing, m as int);
                lemma_kept_len_facts(natural, sizing, limit, mw, p);
                lemma_kept_len_fits(natural, sizing, limit, mw, p);
                let q = kept_len(natural, sizing, limit, mw, p);
                if q > 0 {
                    let base = index_range(q).push(m);
                    assert(base.drop_last() =~= index_range(q));
                    lemma_strip_units_of_range(natural, sizing, q);
                    assert(strip_units(natural, sizing, base) == units_sum(natural, sizing, q) + mw);
                }
            } else {
                lemma_strip_units_of_range(natural, sizing, p);
            }
        },
        None => {
            lemma_strip_units_of_range(natural, sizing, p);
        },
    }
}

} // verus!
