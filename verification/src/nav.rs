//! Next / Finish semantics shared by a stepper's footer buttons and its
//! Enter-key shortcut, the finish-outcome contract that lets a finish
//! callback refuse to complete the flow, and the footer's button set.
//!
//! The per-step completion gate and validator, and the finish callback,
//! belong to the application. Both actions first ask [`step_to_validate`],
//! which reads the step's completion gate; only when it names a step does the application
//! run that step's validator and hand its outcome to [`advance`] or
//! [`finish_begin`]. The finish callback runs between [`finish_begin`] and
//! [`finish_end`].
use vstd::prelude::*;
use crate::stepper::{
    first_reachable_from, flag_at, lemma_first_reachable_from, model_wf, reachable, spec_can_back, spec_next,
    spec_set_status, StepStatus, StepperController, StepperModel,
};

verus! {

/// What a finish callback decided.
#[derive(Debug, Clone, Copy, PartialEq, Eq, Structural)]
pub enum FinishOutcome {
    /// The flow completed: the last step is marked `Complete`.
    Finished,
    /// The finish attempt failed: the stepper stays put and marks the step
    /// `Error`.
    Rejected,
}

/// Return-type bridge for finish callbacks, so one setter accepts a
/// callback that cannot fail and one that can: `()` finishes, `bool` maps
/// `true` to `Finished`, `Result` maps `Ok` to `Finished`, and a
/// [`FinishOutcome`] is itself.
pub trait IntoFinishOutcome {
    fn into_finish_outcome(self) -> FinishOutcome;
}

impl IntoFinishOutcome for () {
    fn into_finish_outcome(self) -> (r: FinishOutcome)
        ensures
            r == FinishOutcome::Finished,
    {
        FinishOutcome::Finished
    }
}

impl IntoFinishOutcome for bool {
    fn into_finish_outcome(self) -> (r: FinishOutcome)
        ensures
            r == (if self {
                FinishOutcome::Finished
            } else {
                FinishOutcome::Rejected
            }),
    {
        if self {
            FinishOutcome::Finished
        } else {
            FinishOutcome::Rejected
        }
    }
}

impl IntoFinishOutcome for FinishOutcome {
    fn into_finish_outcome(self) -> (r: FinishOutcome)
        ensures
            r == self,
    {
        self
    }
}

impl<T, E> IntoFinishOutcome for Result<T, E> {
    fn into_finish_outcome(self) -> (r: FinishOutcome)
        ensures
            r == (if self is Ok {
                FinishOutcome::Finished
            } else {
                FinishOutcome::Rejected
            }),
    {
        match self {
            Ok(_) => FinishOutcome::Finished,
            Err(_) => FinishOutcome::Rejected,
        }
    }
}

/// Whether nothing blocks leaving step `idx`: its completion gate, read
/// when asked; a step without a gate is always open.
pub open spec fn spec_gate_open(completion: Seq<Option<bool>>, idx: int) -> bool {
    if 0 <= idx < completion.len() {
        match completion[idx] {
            Some(open) => open,
            None => true,
        }
    } else {
        true
    }
}

/// The completion gate of step `idx`, given the gates' current values.
pub fn gate_open(completion: &Vec<Option<bool>>, idx: usize) -> (r: bool)
    ensures
        r == spec_gate_open(completion@, idx as int),
{
    if idx < completion.len() {
        match completion[idx] {
            Some(open) => open,
            None => true,
        }
    } else {
        true
    }
}

/// The step whose validator Next or Finish consults, asked before any
/// validator runs: the active step when its completion gate is open.
/// `None` when that completion gate is closed: the action is refused, no validator runs
/// and nothing changes (the controller is only read).
pub fn step_to_validate(controller: &StepperController, completion: &Vec<Option<bool>>) -> (step: Option<usize>)
    ensures
        step == (if spec_gate_open(completion@, controller@.current as int) {
            Some(controller@.current)
        } else {
            None
        }),
{
    let i = controller.current();
    if gate_open(completion, i) {
        Some(i)
    } else {
        None
    }
}

/// What Next does once its completion gate let `step` through: a failing validator
/// marks the step `Error` and refuses; otherwise the step is marked
/// `Complete` and the stepper advances.
pub open spec fn spec_advance(m: StepperModel, step: usize, validates: bool) -> (StepperModel, bool) {
    if !validates {
        (spec_set_status(m, step, StepStatus::Error), false)
    } else {
        (spec_next(spec_set_status(m, step, StepStatus::Complete)), true)
    }
}

/// Next, after [`step_to_validate`] named `step`: `validates` is that
/// step's validator outcome (`true` when it has none). The result says
/// whether the stepper moved on.
pub fn advance(controller: &mut StepperController, step: usize, validates: bool) -> (moved: bool)
    requires
        old(controller).wf(),
    ensures
        final(controller).wf(),
        (final(controller)@, moved) == spec_advance(old(controller)@, step, validates),
{
    if !validates {
        controller.set_status(step, StepStatus::Error);
        return false;
    }
    controller.set_status(step, StepStatus::Complete);
    controller.next();
    true
}

/// Finish, after [`step_to_validate`] named `step`: a failing validator
/// rejects the attempt and marks the step `Error`; when it passes, the
/// finish callback runs next and its outcome goes to [`finish_end`] with
/// the same step.
pub fn finish_begin(controller: &mut StepperController, step: usize, validates: bool) -> (proceed: bool)
    requires
        old(controller).wf(),
    ensures
        final(controller).wf(),
        proceed == validates,
        !validates ==> final(controller)@ == spec_set_status(old(controller)@, step, StepStatus::Error),
        validates ==> final(controller)@ == old(controller)@,
{
    if !validates {
        controller.set_status(step, StepStatus::Error);
        return false;
    }
    true
}

/// Second half of Finish: the callback's outcome (`Finished` when there is
/// no callback) lands `step`, the step [`finish_begin`] reported, on
/// `Complete` or `Error`, even if the callback navigated meanwhile; the
/// stepper does not move.
pub fn finish_end(controller: &mut StepperController, step: usize, outcome: FinishOutcome) -> (r: FinishOutcome)
    requires
        old(controller).wf(),
    ensures
        final(controller).wf(),
        r == outcome,
        final(controller)@ == spec_set_status(
            old(controller)@,
            step,
            match outcome {
                FinishOutcome::Finished => StepStatus::Complete,
                FinishOutcome::Rejected => StepStatus::Error,
            },
        ),
{
    match outcome {
        FinishOutcome::Finished => controller.set_status(step, StepStatus::Complete),
        FinishOutcome::Rejected => controller.set_status(step, StepStatus::Error),
    }
    outcome
}

/// Which primary button the footer shows, and the Enter key triggers.
#[derive(Debug, Clone, Copy, PartialEq, Eq, Structural)]
pub enum PrimaryAction {
    Next,
    Finish,
}

/// Next while a reachable step remains after the current one, Finish on
/// the last: reachability decides, not the step's position.
pub fn primary_action(controller: &StepperController) -> (a: PrimaryAction)
    requires
        controller.wf(),
    ensures
        a == (if first_reachable_from(controller@, controller@.current + 1) is Some {
            PrimaryAction::Next
        } else {
            PrimaryAction::Finish
        }),
{
    if controller.has_next() {
        PrimaryAction::Next
    } else {
        PrimaryAction::Finish
    }
}

/// Which footer buttons are visible.
#[derive(Debug, Clone, Copy, PartialEq, Eq, Structural)]
pub struct FooterButtons {
    pub back: bool,
    pub next: bool,
    pub finish: bool,
    pub skip: bool,
}

/// The footer's buttons for the current state: Back while a visited step
/// is still reachable, Next or Finish by reachability, Skip on an optional
/// step. No footer for a stepper without steps.
pub fn footer_buttons(controller: &StepperController, optional_flags: &Vec<bool>) -> (r: Option<FooterButtons>)
    requires
        controller.wf(),
    ensures
        optional_flags.len() == 0 <==> r is None,
        r matches Some(b) ==> {
            &&& b.back == spec_can_back(controller@)
            &&& b.next == (first_reachable_from(controller@, controller@.current + 1) is Some)
            &&& b.finish == !b.next
            &&& b.skip == flag_at(optional_flags@, controller@.current as int)
        },
{
    if optional_flags.len() == 0 {
        return None;
    }
    let cur = controller.current();
    let has_next = controller.has_next();
    Some(
        FooterButtons {
            back: controller.can_back(),
            next: has_next,
            finish: !has_next,
            skip: cur < optional_flags.len() && optional_flags[cur],
        },
    )
}

/// Next on the active step: a passing validator leaves the step it left
/// `Complete` and moves on exactly when a reachable step lies ahead; a
/// failing one leaves the stepper on the same step, marked `Error`.
pub proof fn lemma_advance_outcomes(m: StepperModel, validates: bool)
    requires
        model_wf(m),
        m.step_count > 0,
    ensures
        ({
            let (m1, moved) = spec_advance(m, m.current, validates);
            &&& moved == validates
            &&& validates ==> m1.statuses[m.current as int] == StepStatus::Complete
            &&& validates ==> (m1.current != m.current <==> first_reachable_from(m, m.current + 1) is Some)
            &&& !validates ==> m1.current == m.current && m1.statuses[m.current as int] == StepStatus::Error
        }),
{
    let m1 = spec_set_status(m, m.current, StepStatus::Complete);
    lemma_first_reachable_from(m1, m1.current + 1);
    lemma_first_reachable_from(m, m.current + 1);
    assert forall|j: int| m.current + 1 <= j < m.step_count implies reachable(m1, j) == reachable(m, j) by {}
}

} // verus!
