//! The stepper's navigation state: per-step statuses, visibility, the
//! visited / skipped flags, the back-stack and the active step.
//!
//! Every mutation that changes the structure bumps `version`, which a
//! stepper rebuild follows; the active step is `current`.
use vstd::prelude::*;

verus! {

/// The status of one step.
#[derive(Debug, Clone, Copy, PartialEq, Eq, Structural)]
pub enum StepStatus {
    /// Not reached yet. The default.
    Upcoming,
    /// The active step.
    Active,
    /// Done.
    Complete,
    /// Failed validation, or a finish attempt was refused.
    Error,
    /// Out of the flow: navigation steps over it.
    Disabled,
    /// Passed over via skip.
    Skipped,
    /// May be skipped.
    Optional,
}

impl Default for StepStatus {
    fn default() -> (s: Self)
        ensures
            s == StepStatus::Upcoming,
    {
        StepStatus::Upcoming
    }
}

/// The mathematical state of a [`StepperController`].
pub struct StepperModel {
    pub step_count: nat,
    pub statuses: Seq<StepStatus>,
    /// The statuses the stepper was declared with; `reset` restores them.
    pub initial_statuses: Seq<StepStatus>,
    pub visible: Seq<bool>,
    /// Previously visited steps, most recent last, not including the
    /// current one.
    pub history: Seq<usize>,
    pub visited: Seq<bool>,
    pub skipped: Seq<bool>,
    pub seeded: bool,
    pub current: usize,
    pub version: u64,
}

/// Shape of a well-formed model: every per-step sequence has one entry per
/// step, the active step exists (step 0 of an empty stepper) and the
/// back-stack only names existing steps.
pub open spec fn model_wf(m: StepperModel) -> bool {
    &&& m.step_count <= usize::MAX
    &&& m.statuses.len() == m.step_count
    &&& m.initial_statuses.len() == m.step_count
    &&& m.visible.len() == m.step_count
    &&& m.visited.len() == m.step_count
    &&& m.skipped.len() == m.step_count
    &&& (m.current < m.step_count || (m.step_count == 0 && m.current == 0))
    &&& history_bounded(m.history, m.step_count)
}

/// Every back-stack entry names an existing step.
pub open spec fn history_bounded(h: Seq<usize>, n: nat) -> bool {
    forall|j: int| 0 <= j < h.len() ==> h[j] < n
}

/// A step is reachable when it exists, is visible and is not `Disabled`.
pub open spec fn reachable(m: StepperModel, idx: int) -> bool {
    0 <= idx < m.step_count && m.visible[idx] && m.statuses[idx] != StepStatus::Disabled
}

/// The first reachable step at or after `i`.
pub open spec fn first_reachable_from(m: StepperModel, i: int) -> Option<usize>
    decreases m.step_count - i,
{
    if i < 0 || i >= m.step_count {
        None
    } else if reachable(m, i) {
        Some(i as usize)
    } else {
        first_reachable_from(m, i + 1)
    }
}

/// The version after one more structural change.
pub open spec fn bumped(v: u64) -> u64 {
    if v == u64::MAX {
        0
    } else {
        (v + 1) as u64
    }
}

/// Statuses once `idx` becomes active: a step left in `Active` becomes
/// `Complete`; `idx` becomes `Active` unless it is `Error` or `Disabled`.
pub open spec fn marked_active(s: Seq<StepStatus>, idx: int) -> Seq<StepStatus> {
    Seq::new(
        s.len(),
        |i: int|
            if i == idx {
                if s[i] == StepStatus::Error || s[i] == StepStatus::Disabled {
                    s[i]
                } else {
                    StepStatus::Active
                }
            } else if s[i] == StepStatus::Active {
                StepStatus::Complete
            } else {
                s[i]
            },
    )
}

/// `m` with `idx` marked active and the version bumped.
pub open spec fn with_active(m: StepperModel, idx: int) -> StepperModel {
    StepperModel { statuses: marked_active(m.statuses, idx), version: bumped(m.version), ..m }
}

/// Move to `dest`, recording the current step on the back-stack.
pub open spec fn moved_to(m: StepperModel, dest: usize) -> StepperModel {
    with_active(
        StepperModel {
            history: m.history.push(m.current),
            visited: if dest < m.visited.len() {
                m.visited.update(dest as int, true)
            } else {
                m.visited
            },
            current: dest,
            ..m
        },
        dest as int,
    )
}

/// `next`: advance to the next reachable step, or stay put when none
/// remains.
pub open spec fn spec_next(m: StepperModel) -> StepperModel {
    match first_reachable_from(m, m.current + 1) {
        Some(dest) => moved_to(m, dest),
        None => m,
    }
}

/// `skip`: mark the current step skipped, then advance like `next`.
pub open spec fn spec_skip(m: StepperModel) -> StepperModel {
    let c = m.current as int;
    spec_next(
        StepperModel {
            skipped: if c < m.skipped.len() {
                m.skipped.update(c, true)
            } else {
                m.skipped
            },
            statuses: if c < m.statuses.len() {
                m.statuses.update(c, StepStatus::Skipped)
            } else {
                m.statuses
            },
            ..m
        },
    )
}

/// The back-stack once unreachable entries are popped off its top, and the
/// reachable entry found there, if any (itself popped too).
pub open spec fn back_target(m: StepperModel, h: Seq<usize>) -> (Seq<usize>, Option<usize>)
    decreases h.len(),
{
    if h.len() == 0 {
        (h, None)
    } else if reachable(m, h.last() as int) {
        (h.drop_last(), Some(h.last()))
    } else {
        back_target(m, h.drop_last())
    }
}

/// `back`: return to the most recently visited reachable step.
pub open spec fn spec_back(m: StepperModel) -> StepperModel {
    let (h, dest) = back_target(m, m.history);
    match dest {
        Some(d) => with_active(StepperModel { history: h, current: d, ..m }, d as int),
        None => StepperModel { history: h, ..m },
    }
}

/// `go_to`: jump to `idx`, unless it is the current step or unreachable.
pub open spec fn spec_go_to(m: StepperModel, idx: usize) -> StepperModel {
    if idx == m.current || !reachable(m, idx as int) {
        m
    } else {
        moved_to(m, idx)
    }
}

/// The state `reset` restores before activating its destination.
pub open spec fn reset_base(m: StepperModel) -> StepperModel {
    StepperModel {
        statuses: m.initial_statuses,
        history: Seq::empty(),
        visited: Seq::new(m.step_count, |i: int| false),
        skipped: Seq::new(m.step_count, |i: int| false),
        ..m
    }
}

/// Where `reset` lands: the first reachable step under the restored
/// statuses, or step 0.
pub open spec fn reset_destination(m: StepperModel) -> usize {
    match first_reachable_from(reset_base(m), 0) {
        Some(d) => d,
        None => 0,
    }
}

/// `reset`: restore the declared statuses, clear the back-stack and the
/// visited / skipped flags, and go to the first reachable step.
pub open spec fn spec_reset(m: StepperModel) -> StepperModel {
    let b = reset_base(m);
    let d = reset_destination(m);
    with_active(
        StepperModel {
            visited: if d < b.visited.len() {
                b.visited.update(d as int, true)
            } else {
                b.visited
            },
            current: d,
            ..b
        },
        d as int,
    )
}

/// `set_status`: override one step's status (ignored out of range) and
/// bump the version.
pub open spec fn spec_set_status(m: StepperModel, idx: usize, status: StepStatus) -> StepperModel {
    StepperModel {
        statuses: if idx < m.statuses.len() {
            m.statuses.update(idx as int, status)
        } else {
            m.statuses
        },
        version: bumped(m.version),
        ..m
    }
}

/// `set_visible`: show or hide one step; a change bumps the version, no
/// change (or an out-of-range step) leaves everything as it was.
pub open spec fn spec_set_visible(m: StepperModel, idx: usize, visible: bool) -> StepperModel {
    if idx < m.visible.len() && m.visible[idx as int] != visible {
        StepperModel { visible: m.visible.update(idx as int, visible), version: bumped(m.version), ..m }
    } else {
        m
    }
}

/// `seed_statuses`: the first call installs the declared statuses (when
/// their count matches) and activates the current step; later calls change
/// nothing.
pub open spec fn spec_seed(m: StepperModel, statuses: Seq<StepStatus>) -> StepperModel {
    if m.seeded {
        m
    } else {
        let m1 = if statuses.len() == m.step_count {
            StepperModel { statuses: statuses, initial_statuses: statuses, ..m }
        } else {
            m
        };
        with_active(StepperModel { seeded: true, ..m1 }, m1.current as int)
    }
}

/// The status `status(idx)` reports: `Upcoming` out of range.
pub open spec fn status_at(m: StepperModel, idx: int) -> StepStatus {
    if 0 <= idx < m.statuses.len() {
        m.statuses[idx]
    } else {
        StepStatus::Upcoming
    }
}

/// A flag of a per-step sequence, `false` out of range.
pub open spec fn flag_at(s: Seq<bool>, idx: int) -> bool {
    0 <= idx < s.len() && s[idx]
}

/// Some entry of the back-stack is still reachable.
pub open spec fn spec_can_back(m: StepperModel) -> bool {
    exists|j: int| 0 <= j < m.history.len() && reachable(m, m.history[j] as int)
}

/// Handle controlling a stepper: the navigation state plus the active-step
/// index and a version counter bumped on every structural mutation.
pub struct StepperController {
    step_count: usize,
    statuses: Vec<StepStatus>,
    initial_statuses: Vec<StepStatus>,
    visible: Vec<bool>,
    visit_history: Vec<usize>,
    visited: Vec<bool>,
    skipped: Vec<bool>,
    seeded: bool,
    current: usize,
    version: u64,
}

impl View for StepperController {
    type V = StepperModel;

    closed spec fn view(&self) -> StepperModel {
        StepperModel {
            step_count: self.step_count as nat,
            statuses: self.statuses@,
            initial_statuses: self.initial_statuses@,
            visible: self.visible@,
            history: self.visit_history@,
            visited: self.visited@,
            skipped: self.skipped@,
            seeded: self.seeded,
            current: self.current,
            version: self.version,
        }
    }
}

fn filled_bools(n: usize, value: bool) -> (v: Vec<bool>)
    ensures
        v@ == Seq::new(n as nat, |i: int| value),
{
    let mut v: Vec<bool> = Vec::new();
    let mut i: usize = 0;
    while i < n
        invariant
            i <= n,
            v@ =~= Seq::new(i as nat, |j: int| value),
        decreases n - i,
    {
        v.push(value);
        i = i + 1;
    }
    v
}

fn filled_statuses(n: usize, value: StepStatus) -> (v: Vec<StepStatus>)
    ensures
        v@ == Seq::new(n as nat, |i: int| value),
{
    let mut v: Vec<StepStatus> = Vec::new();
    let mut i: usize = 0;
    while i < n
        invariant
            i <= n,
            v@ =~= Seq::new(i as nat, |j: int| value),
        decreases n - i,
    {
        v.push(value);
        i = i + 1;
    }
    v
}

fn copy_statuses(s: &Vec<StepStatus>) -> (v: Vec<StepStatus>)
    ensures
        v@ == s@,
{
    let mut v: Vec<StepStatus> = Vec::new();
    let mut i: usize = 0;
    while i < s.len()
        invariant
            i <= s.len(),
            v@ =~= s@.subrange(0, i as int),
        decreases s.len() - i,
    {
        v.push(s[i]);
        i = i + 1;
    }
    proof {
        assert(v@ =~= s@);
    }
    v
}

impl StepperController {
    /// Well-formedness of the handle's state: its model is well formed.
    /// Every constructor establishes it and every method keeps it.
    pub open spec fn wf(&self) -> bool {
        model_wf(self@)
    }

    /// A controller for a stepper with `step_count` steps, all `Upcoming`
    /// and visible, starting at step 0 (marked visited).
    pub fn new(step_count: usize) -> (c: Self)
        ensures
            c.wf(),
            c@.step_count == step_count,
            c@.statuses == Seq::new(step_count as nat, |i: int| StepStatus::Upcoming),
            c@.initial_statuses == Seq::new(step_count as nat, |i: int| StepStatus::Upcoming),
            c@.visible == Seq::new(step_count as nat, |i: int| true),
            c@.history.len() == 0,
            c@.visited == Seq::new(step_count as nat, |i: int| i == 0),
            c@.skipped == Seq::new(step_count as nat, |i: int| false),
            !c@.seeded,
            c@.current == 0,
            c@.version == 0,
    {
        let mut visited = filled_bools(step_count, false);
        if step_count > 0 {
            visited.set(0, true);
        }
        let c = StepperController {
            step_count,
            statuses: filled_statuses(step_count, StepStatus::Upcoming),
            initial_statuses: filled_statuses(step_count, StepStatus::Upcoming),
            visible: filled_bools(step_count, true),
            visit_history: Vec::new(),
            visited,
            skipped: filled_bools(step_count, false),
            seeded: false,
            current: 0,
            version: 0,
        };
        proof {
            assert(c@.visited =~= Seq::new(step_count as nat, |i: int| i == 0));
        }
        c
    }

    fn bump(&mut self)
        ensures
            final(self).step_count == old(self).step_count,
            final(self).statuses == old(self).statuses,
            final(self).initial_statuses == old(self).initial_statuses,
            final(self).visible == old(self).visible,
            final(self).visit_history == old(self).visit_history,
            final(self).visited == old(self).visited,
            final(self).skipped == old(self).skipped,
            final(self).seeded == old(self).seeded,
            final(self).current == old(self).current,
            final(self).version == bumped(old(self).version),
    {
        self.version = self.version.wrapping_add(1);
    }

    /// Set `idx` active and demote any other previously active step.
    fn mark_active(&mut self, idx: usize)
        requires
            old(self).wf(),
        ensures
            final(self).wf(),
            final(self)@ == with_active(old(self)@, idx as int),
    {
        let n = self.statuses.len();
        let ghost s0 = self.statuses@;
        let mut i: usize = 0;
        while i < n
            invariant
                n == self.statuses.len(),
                n == s0.len(),
                i <= n,
                self.step_count == old(self).step_count,
                self.initial_statuses == old(self).initial_statuses,
                self.visible == old(self).visible,
                self.visit_history == old(self).visit_history,
                self.visited == old(self).visited,
                self.skipped == old(self).skipped,
                self.seeded == old(self).seeded,
                self.current == old(self).current,
                self.version == old(self).version,
                s0 == old(self).statuses@,
                forall|j: int|
                    0 <= j < i ==> self.statuses@[j] == (if s0[j] == StepStatus::Active && j != idx {
                        StepStatus::Complete
                    } else {
                        s0[j]
                    }),
                forall|j: int| i <= j < n ==> self.statuses@[j] == s0[j],
            decreases n - i,
        {
            if self.statuses[i] == StepStatus::Active && i != idx {
                self.statuses.set(i, StepStatus::Complete);
            }
            i = i + 1;
        }
        if idx < n {
            let s = self.statuses[idx];
            if !(s == StepStatus::Error || s == StepStatus::Disabled) {
                self.statuses.set(idx, StepStatus::Active);
            }
        }
        self.bump();
        proof {
            assert(self.statuses@ =~= marked_active(s0, idx as int));
        }
    }

    fn is_reachable_index(&self, idx: usize) -> (r: bool)
        requires
            self.wf(),
        ensures
            r == reachable(self@, idx as int),
    {
        idx < self.step_count && self.visible[idx] && self.statuses[idx] != StepStatus::Disabled
    }

    fn first_reachable_at(&self, from: usize) -> (r: Option<usize>)
        requires
            self.wf(),
        ensures
            r == first_reachable_from(self@, from as int),
    {
        let mut i = from;
        while i < self.step_count
            invariant
                self.wf(),
                from <= i,
                first_reachable_from(self@, from as int) == first_reachable_from(self@, i as int),
            decreases self.step_count - i,
        {
            if self.is_reachable_index(i) {
                return Some(i);
            }
            i = i + 1;
        }
        None
    }

    /// Seed the per-step statuses from the declared step list and activate
    /// the current step. Only the first call has an effect, so a rebuild
    /// never wipes accumulated progress; statuses of the wrong count are
    /// not installed.
    pub fn seed_statuses(&mut self, statuses: Vec<StepStatus>)
        requires
            old(self).wf(),
        ensures
            final(self).wf(),
            final(self)@ == spec_seed(old(self)@, statuses@),
    {
        if self.seeded {
            return;
        }
        if statuses.len() == self.step_count {
            self.initial_statuses = copy_statuses(&statuses);
            self.statuses = statuses;
        }
        self.seeded = true;
        let cur = self.current;
        self.mark_active(cur);
    }

    /// Advance to the next reachable step, recording the current one on the
    /// back-stack. Invisible and `Disabled` steps are stepped over; nothing
    /// changes when none remains.
    pub fn next(&mut self)
        requires
            old(self).wf(),
        ensures
            final(self).wf(),
            final(self)@ == spec_next(old(self)@),
    {
        let cur = self.current;
        if cur == usize::MAX {
            proof {
                assert(first_reachable_from(self@, cur + 1) is None);
            }
            return;
        }
        let dest = match self.first_reachable_at(cur + 1) {
            Some(d) => d,
            None => return,
        };
        proof {
            lemma_first_reachable_from(self@, cur + 1);
        }
        self.visit_history.push(cur);
        self.visited.set(dest, true);
        self.current = dest;
        self.mark_active(dest);
    }

    /// Mark the current step skipped, then advance like [`next`](Self::next).
    pub fn skip(&mut self)
        requires
            old(self).wf(),
        ensures
            final(self).wf(),
            final(self)@ == spec_skip(old(self)@),
    {
        let cur = self.current;
        if cur < self.skipped.len() {
            self.skipped.set(cur, true);
        }
        if cur < self.statuses.len() {
            self.statuses.set(cur, StepStatus::Skipped);
        }
        self.next();
    }

    /// Return to the most recently visited reachable step. Entries that
    /// became unreachable meanwhile are popped and skipped; nothing else
    /// changes on an exhausted back-stack.
    pub fn back(&mut self)
        requires
            old(self).wf(),
        ensures
            final(self).wf(),
            final(self)@ == spec_back(old(self)@),
    {
        let ghost m0 = self@;
        let mut dest: Option<usize> = None;
        while self.visit_history.len() > 0
            invariant_except_break
                dest is None,
                back_target(m0, m0.history) == back_target(m0, self.visit_history@),
            invariant
                self.wf(),
                self.step_count == m0.step_count,
                self.statuses@ == m0.statuses,
                self.initial_statuses@ == m0.initial_statuses,
                self.visible@ == m0.visible,
                self.visited@ == m0.visited,
                self.skipped@ == m0.skipped,
                self.seeded == m0.seeded,
                self.current == m0.current,
                self.version == m0.version,
            ensures
                back_target(m0, m0.history) == (self.visit_history@, dest),
            decreases self.visit_history.len(),
        {
            let ghost h = self.visit_history@;
            let i = self.visit_history.pop().unwrap();
            proof {
                assert(h.drop_last() == self.visit_history@);
                assert forall|j: int| 0 <= j < self.visit_history@.len() implies self.visit_history@[j] < self.step_count by {
                    assert(self.visit_history@[j] == h[j]);
                }
                assert(history_bounded(self.visit_history@, self.step_count as nat));
                assert(i == h.last());
            }
            if self.is_reachable_index(i) {
                dest = Some(i);
                break;
            }
        }
        if let Some(d) = dest {
            proof {
                lemma_back_target_in_history(m0, m0.history);
            }
            self.current = d;
            self.mark_active(d);
        }
    }

    /// Jump to step `idx`, recording the current step on the back-stack.
    /// Nothing changes when `idx` is the current step, out of range or
    /// unreachable.
    pub fn go_to(&mut self, idx: usize)
        requires
            old(self).wf(),
        ensures
            final(self).wf(),
            final(self)@ == spec_go_to(old(self)@, idx),
    {
        let cur = self.current;
        if idx == cur || !self.is_reachable_index(idx) {
            return;
        }
        self.visit_history.push(cur);
        self.visited.set(idx, true);
        self.current = idx;
        self.mark_active(idx);
    }

    /// Reset to the first reachable step: restore the declared statuses,
    /// clear the back-stack and the visited / skipped flags, and mark the
    /// destination visited and active. Visibility is left untouched.
    pub fn reset(&mut self)
        requires
            old(self).wf(),
        ensures
            final(self).wf(),
            final(self)@ == spec_reset(old(self)@),
    {
        let ghost m0 = self@;
        let n = self.step_count;
        self.statuses = copy_statuses(&self.initial_statuses);
        self.visit_history = Vec::new();
        self.visited = filled_bools(n, false);
        self.skipped = filled_bools(n, false);
        proof {
            assert(self@ =~= reset_base(m0));
        }
        let dest = match self.first_reachable_at(0) {
            Some(d) => d,
            None => 0,
        };
        proof {
            lemma_first_reachable_from(self@, 0);
        }
        if dest < self.visited.len() {
            self.visited.set(dest, true);
        }
        self.current = dest;
        self.mark_active(dest);
    }

    /// Override a step's status (ignored out of range) and bump the
    /// version. Setting `Disabled` takes the step out of the flow but does
    /// not move off it if it is the active step.
    pub fn set_status(&mut self, idx: usize, status: StepStatus)
        requires
            old(self).wf(),
        ensures
            final(self).wf(),
            final(self)@ == spec_set_status(old(self)@, idx, status),
    {
        if idx < self.statuses.len() {
            self.statuses.set(idx, status);
        }
        self.bump();
    }

    /// Show or hide step `idx`. A hidden step is skipped by navigation;
    /// hiding the active step does not navigate away from it.
    pub fn set_visible(&mut self, idx: usize, visible: bool)
        requires
            old(self).wf(),
        ensures
            final(self).wf(),
            final(self)@ == spec_set_visible(old(self)@, idx, visible),
    {
        if idx < self.visible.len() && self.visible[idx] != visible {
            self.visible.set(idx, visible);
            self.bump();
        }
    }

    /// The active step.
    pub fn current(&self) -> (r: usize)
        ensures
            r == self@.current,
    {
        self.current
    }

    /// The version counter.
    pub fn version(&self) -> (r: u64)
        ensures
            r == self@.version,
    {
        self.version
    }

    /// The status of step `idx`; `Upcoming` out of range.
    pub fn status(&self, idx: usize) -> (r: StepStatus)
        ensures
            r == status_at(self@, idx as int),
    {
        if idx < self.statuses.len() {
            self.statuses[idx]
        } else {
            StepStatus::Upcoming
        }
    }

    /// `true` if step `idx` has ever been the active step.
    pub fn visited(&self, idx: usize) -> (r: bool)
        ensures
            r == flag_at(self@.visited, idx as int),
    {
        idx < self.visited.len() && self.visited[idx]
    }

    /// `true` if step `idx` was skipped.
    pub fn skipped(&self, idx: usize) -> (r: bool)
        ensures
            r == flag_at(self@.skipped, idx as int),
    {
        idx < self.skipped.len() && self.skipped[idx]
    }

    /// `true` if step `idx` is visible.
    pub fn is_visible(&self, idx: usize) -> (r: bool)
        ensures
            r == flag_at(self@.visible, idx as int),
    {
        idx < self.visible.len() && self.visible[idx]
    }

    /// `true` if step `idx` participates in the flow: visible and not
    /// `Disabled`.
    pub fn is_reachable(&self, idx: usize) -> (r: bool)
        requires
            self.wf(),
        ensures
            r == reachable(self@, idx as int),
    {
        self.is_reachable_index(idx)
    }

    /// The next reachable step after `from`, if any.
    pub fn next_reachable(&self, from: usize) -> (r: Option<usize>)
        requires
            self.wf(),
        ensures
            r == first_reachable_from(self@, from + 1),
    {
        if from == usize::MAX {
            return None;
        }
        self.first_reachable_at(from + 1)
    }

    /// `true` if [`next`](Self::next) would move: the active step is not the
    /// last reachable one.
    pub fn has_next(&self) -> (r: bool)
        requires
            self.wf(),
        ensures
            r == (first_reachable_from(self@, self@.current + 1) is Some),
    {
        self.next_reachable(self.current).is_some()
    }

    /// The number of steps.
    pub fn step_count(&self) -> (r: usize)
        ensures
            r == self@.step_count,
    {
        self.step_count
    }

    /// `true` if a previously visited step is still reachable.
    pub fn can_back(&self) -> (r: bool)
        requires
            self.wf(),
        ensures
            r == spec_can_back(self@),
    {
        let mut i: usize = 0;
        while i < self.visit_history.len()
            invariant
                self.wf(),
                i <= self.visit_history.len(),
                forall|j: int| 0 <= j < i ==> !reachable(self@, self@.history[j] as int),
            decreases self.visit_history.len() - i,
        {
            if self.is_reachable_index(self.visit_history[i]) {
                return true;
            }
            i = i + 1;
        }
        false
    }
}

/// The forward search finds the first reachable step at or after `i`, and
/// finds none exactly when no step from `i` on is reachable.
pub proof fn lemma_first_reachable_from(m: StepperModel, i: int)
    requires
        i >= 0,
        m.step_count <= usize::MAX,
    ensures
        match first_reachable_from(m, i) {
            Some(d) => i <= d < m.step_count && reachable(m, d as int) && forall|j: int|
                i <= j < d ==> !reachable(m, j),
            None => forall|j: int| i <= j < m.step_count ==> !reachable(m, j),
        },
    decreases m.step_count - i,
{
    if i < m.step_count && !reachable(m, i) {
        lemma_first_reachable_from(m, i + 1);
    }
}

proof fn lemma_back_target_in_history(m: StepperModel, h: Seq<usize>)
    ensures
        back_target(m, h).1 matches Some(d) ==> reachable(m, d as int),
        forall|j: int| 0 <= j < back_target(m, h).0.len() ==> back_target(m, h).0[j] == h[j],
        back_target(m, h).0.len() <= h.len(),
    decreases h.len(),
{
    if h.len() > 0 && !reachable(m, h.last() as int) {
        lemma_back_target_in_history(m, h.drop_last());
        let r = back_target(m, h.drop_last()).0;
        assert forall|j: int| 0 <= j < r.len() implies r[j] == h[j] by {
            assert(r[j] == h.drop_last()[j]);
        }
    }
}

/// After a step is made active, no other step is marked `Active`, and the
/// step itself is `Active` unless it is in `Error` or `Disabled`.
pub proof fn lemma_single_active(m: StepperModel, idx: int)
    requires
        model_wf(m),
        0 <= idx < m.step_count,
    ensures
        forall|i: int|
            0 <= i < m.step_count && i != idx ==> with_active(m, idx).statuses[i] != StepStatus::Active,
        m.statuses[idx] != StepStatus::Error && m.statuses[idx] != StepStatus::Disabled
            ==> with_active(m, idx).statuses[idx] == StepStatus::Active,
{
}

/// Marking a step active never takes another step out of the flow.
proof fn lemma_marking_keeps_reachability(m: StepperModel, idx: int, k: int)
    requires
        model_wf(m),
        reachable(m, k),
    ensures
        reachable(with_active(m, idx), k),
{
}

/// `back` right after a `go_to` returns to the step the jump left, with the
/// back-stack as it was, provided that step is still reachable.
pub proof fn lemma_back_undoes_go_to(m: StepperModel, idx: usize)
    requires
        model_wf(m),
        idx != m.current,
        reachable(m, idx as int),
        reachable(m, m.current as int),
    ensures
        spec_back(spec_go_to(m, idx)).current == m.current,
        spec_back(spec_go_to(m, idx)).history == m.history,
{
    let m2 = spec_go_to(m, idx);
    assert(m2.history.last() == m.current);
    assert(reachable(m2, m.current as int));
    assert(m2.history.drop_last() =~= m.history);
}

/// `back` right after a `next` that moved returns to the step it left.
pub proof fn lemma_back_undoes_next(m: StepperModel)
    requires
        model_wf(m),
        first_reachable_from(m, m.current + 1) is Some,
        reachable(m, m.current as int),
    ensures
        spec_back(spec_next(m)).current == m.current,
        spec_back(spec_next(m)).history == m.history,
{
    lemma_first_reachable_from(m, m.current + 1);
    let m2 = spec_next(m);
    assert(m2.history.last() == m.current);
    assert(reachable(m2, m.current as int));
    assert(m2.history.drop_last() =~= m.history);
}

/// `next` lands on the first reachable step after the current one, which
/// stays reachable once active, and every step it passes over is out of the
/// flow. When it does not move, no reachable step lies ahead.
pub proof fn lemma_next_lands_on_reachable(m: StepperModel)
    requires
        model_wf(m),
    ensures
        spec_next(m).current != m.current ==> {
            &&& m.current < spec_next(m).current < m.step_count
            &&& reachable(m, spec_next(m).current as int)
            &&& reachable(spec_next(m), spec_next(m).current as int)
            &&& forall|j: int| m.current < j < spec_next(m).current ==> !reachable(m, j)
            &&& spec_next(m).visited[spec_next(m).current as int]
        },
        spec_next(m).current == m.current ==> spec_next(m) == m && forall|j: int|
            m.current < j < m.step_count ==> !reachable(m, j),
{
    lemma_first_reachable_from(m, m.current + 1);
    if let Some(d) = first_reachable_from(m, m.current + 1) {
        lemma_marking_keeps_reachability(
            StepperModel {
                history: m.history.push(m.current),
                visited: m.visited.update(d as int, true),
                current: d,
                ..m
            },
            d as int,
            d as int,
        );
    }
}

/// [`has_next`](StepperController::has_next) holds exactly when `next`
/// would move.
pub proof fn lemma_has_next_iff_next_moves(m: StepperModel)
    requires
        model_wf(m),
    ensures
        (first_reachable_from(m, m.current + 1) is Some) <==> spec_next(m).current != m.current,
{
    lemma_first_reachable_from(m, m.current + 1);
}

proof fn lemma_back_target_found(m: StepperModel, h: Seq<usize>)
    ensures
        (back_target(m, h).1 is Some) <==> exists|j: int| 0 <= j < h.len() && reachable(m, h[j] as int),
    decreases h.len(),
{
    if h.len() > 0 {
        lemma_back_target_found(m, h.drop_last());
        if !reachable(m, h.last() as int) {
            if exists|j: int| 0 <= j < h.len() && reachable(m, h[j] as int) {
                let j = choose|j: int| 0 <= j < h.len() && reachable(m, h[j] as int);
                assert(h.drop_last()[j] == h[j]);
            }
            if exists|j: int| 0 <= j < h.drop_last().len() && reachable(m, h.drop_last()[j] as int) {
                let j = choose|j: int| 0 <= j < h.drop_last().len() && reachable(m, h.drop_last()[j] as int);
                assert(h[j] == h.drop_last()[j]);
            }
        } else {
            assert(reachable(m, h[h.len() - 1] as int));
        }
    }
}

/// [`can_back`](StepperController::can_back) holds exactly when `back`
/// would move to a previously visited step.
pub proof fn lemma_can_back_iff_back_moves(m: StepperModel)
    requires
        model_wf(m),
    ensures
        spec_can_back(m) <==> (back_target(m, m.history).1 is Some),
{
    lemma_back_target_found(m, m.history);
}

/// Seeding is idempotent: once seeded, further seeds change nothing.
pub proof fn lemma_seed_idempotent(m: StepperModel, first: Seq<StepStatus>, again: Seq<StepStatus>)
    ensures
        spec_seed(spec_seed(m, first), again) == spec_seed(m, first),
{
}

/// Changing a status or a step's visibility never navigates: the active
/// step and the back-stack stay where they are.
pub proof fn lemma_status_and_visibility_never_navigate(
    m: StepperModel,
    idx: usize,
    status: StepStatus,
    visible: bool,
)
    ensures
        spec_set_status(m, idx, status).current == m.current,
        spec_set_status(m, idx, status).history == m.history,
        spec_set_visible(m, idx, visible).current == m.current,
        spec_set_visible(m, idx, visible).history == m.history,
{
}

/// A step taken out of the flow (hidden or `Disabled`) is never the target
/// of a jump: `go_to` leaves the stepper unchanged.
pub proof fn lemma_go_to_refuses_unreachable(m: StepperModel, idx: usize)
    requires
        !reachable(m, idx as int),
    ensures
        spec_go_to(m, idx) == m,
{
}

/// `reset` lands on the first reachable step under the declared statuses
/// (step 0 when there is none), with an empty back-stack, only that step
/// visited, nothing skipped, and the declared statuses restored apart from
/// the activation of that step.
pub proof fn lemma_reset_restores(m: StepperModel)
    requires
        model_wf(m),
    ensures
        model_wf(spec_reset(m)),
        spec_reset(m).history.len() == 0,
        spec_reset(m).statuses == marked_active(m.initial_statuses, spec_reset(m).current as int),
        forall|i: int| 0 <= i < m.step_count ==> (spec_reset(m).visited[i] <==> i == spec_reset(m).current),
        forall|i: int| 0 <= i < m.step_count ==> !spec_reset(m).skipped[i],
        m.step_count > 0 ==> spec_reset(m).current < m.step_count,
        spec_reset(m).visible == m.visible,
{
    lemma_first_reachable_from(reset_base(m), 0);
}

/// `reset` lands on the first step that is visible and not `Disabled`
/// under the declared statuses: no earlier step is, and when no step is,
/// it lands on step 0.
pub proof fn lemma_reset_lands_on_first_declared_reachable(m: StepperModel)
    requires
        model_wf(m),
    ensures
        ({
            let d = spec_reset(m).current as int;
            let n = m.step_count as int;
            &&& (exists|j: int| 0 <= j < n && m.visible[j] && m.initial_statuses[j] != StepStatus::Disabled) ==> {
                &&& 0 <= d < n
                &&& m.visible[d]
                &&& m.initial_statuses[d] != StepStatus::Disabled
                &&& forall|j: int|
                    0 <= j < d ==> !(m.visible[j] && m.initial_statuses[j] != StepStatus::Disabled)
            }
            &&& !(exists|j: int| 0 <= j < n && m.visible[j] && m.initial_statuses[j] != StepStatus::Disabled)
                ==> d == 0
        }),
{
    let b = reset_base(m);
    let n = m.step_count as int;
    lemma_first_reachable_from(b, 0);
    assert(spec_reset(m).current == reset_destination(m));
    match first_reachable_from(b, 0) {
        Some(d) => {
            assert(reachable(b, d as int));
            assert(m.visible[d as int] && m.initial_statuses[d as int] != StepStatus::Disabled);
            assert forall|j: int| 0 <= j < d implies !(m.visible[j] && m.initial_statuses[j] != StepStatus::Disabled) by {
                assert(!reachable(b, j));
            }
        },
        None => {
            assert forall|j: int| 0 <= j < n implies !(m.visible[j] && m.initial_statuses[j] != StepStatus::Disabled) by {
                assert(!reachable(b, j));
            }
        },
    }
}

} // verus!
