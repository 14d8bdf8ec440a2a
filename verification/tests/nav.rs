use std::cell::Cell;
use teksilo_widgets::nav::{
    advance, finish_begin, finish_end, footer_buttons, gate_open, primary_action, step_to_validate,
    PrimaryAction,
};
use teksilo_widgets::{FinishOutcome, IntoFinishOutcome, StepStatus, StepperController};

fn controller(n: usize) -> StepperController {
    let mut c = StepperController::new(n);
    c.seed_statuses(vec![StepStatus::Upcoming; n]);
    c
}

/// Next as an application drives it: completion gate first, the validator only
/// when that gate names a step.
fn next(c: &mut StepperController, gates: &Vec<Option<bool>>, validator: impl Fn() -> bool) -> bool {
    match step_to_validate(c, gates) {
        Some(step) => advance(c, step, validator()),
        None => false,
    }
}

/// Finish as an application drives it: gate, validator, callback.
fn finish(
    c: &mut StepperController,
    gates: &Vec<Option<bool>>,
    validator: impl Fn() -> bool,
    callback: impl FnOnce(&mut StepperController) -> FinishOutcome,
) -> FinishOutcome {
    let Some(step) = step_to_validate(c, gates) else {
        return FinishOutcome::Rejected;
    };
    if !finish_begin(c, step, validator()) {
        return FinishOutcome::Rejected;
    }
    let outcome = callback(c);
    finish_end(c, step, outcome)
}

#[test]
fn finish_outcomes_bridge_every_callback_shape() {
    assert_eq!(().into_finish_outcome(), FinishOutcome::Finished);
    assert_eq!(true.into_finish_outcome(), FinishOutcome::Finished);
    assert_eq!(false.into_finish_outcome(), FinishOutcome::Rejected);
    assert_eq!(FinishOutcome::Rejected.into_finish_outcome(), FinishOutcome::Rejected);
    assert_eq!(Ok::<u8, String>(3).into_finish_outcome(), FinishOutcome::Finished);
    assert_eq!(Err::<u8, String>("taken".into()).into_finish_outcome(), FinishOutcome::Rejected);
}

#[test]
fn a_step_without_a_gate_is_open() {
    let gates = vec![None, Some(false), Some(true)];
    assert!(gate_open(&gates, 0));
    assert!(!gate_open(&gates, 1));
    assert!(gate_open(&gates, 2));
    assert!(gate_open(&gates, 9));
}

#[test]
fn a_closed_gate_refuses_next_and_changes_nothing() {
    let mut c = controller(3);
    let v = c.version();
    let asked = Cell::new(0);
    assert!(!next(&mut c, &vec![Some(false)], || {
        asked.set(asked.get() + 1);
        true
    }));
    assert_eq!(asked.get(), 0, "a closed gate never consults the validator");
    assert_eq!(c.current(), 0);
    assert_eq!(c.version(), v);
    assert_eq!(c.status(0), StepStatus::Active);
}

#[test]
fn a_failing_validator_marks_the_step_error() {
    let mut c = controller(3);
    let asked = Cell::new(0);
    assert!(!next(&mut c, &vec![], || {
        asked.set(asked.get() + 1);
        false
    }));
    assert_eq!(asked.get(), 1);
    assert_eq!(c.current(), 0);
    assert_eq!(c.status(0), StepStatus::Error);
}

#[test]
fn next_clears_a_prior_error() {
    let mut c = controller(3);
    next(&mut c, &vec![], || false);
    assert!(next(&mut c, &vec![Some(true)], || true));
    assert_eq!(c.current(), 1);
    assert_eq!(c.status(0), StepStatus::Complete);
    assert_eq!(c.status(1), StepStatus::Active);
}

#[test]
fn a_rejected_finish_keeps_the_step_and_marks_it_error() {
    let mut c = controller(1);
    assert_eq!(primary_action(&c), PrimaryAction::Finish);
    assert_eq!(finish(&mut c, &vec![], || true, |_| false.into_finish_outcome()), FinishOutcome::Rejected);
    assert_eq!(c.current(), 0);
    assert_eq!(c.status(0), StepStatus::Error);
    assert_eq!(finish(&mut c, &vec![], || true, |_| FinishOutcome::Finished), FinishOutcome::Finished);
    assert_eq!(c.status(0), StepStatus::Complete);
}

#[test]
fn finish_stops_at_a_closed_gate_or_a_failing_validator() {
    let mut c = controller(1);
    let asked = Cell::new(0);
    let called = Cell::new(0);
    let outcome = finish(&mut c, &vec![Some(false)], || {
        asked.set(asked.get() + 1);
        true
    }, |_| {
        called.set(called.get() + 1);
        FinishOutcome::Finished
    });
    assert_eq!(outcome, FinishOutcome::Rejected);
    assert_eq!((asked.get(), called.get()), (0, 0), "a closed gate runs neither the validator nor the callback");
    assert_eq!(c.status(0), StepStatus::Active);
    let outcome = finish(&mut c, &vec![], || false, |_| {
        called.set(called.get() + 1);
        FinishOutcome::Finished
    });
    assert_eq!(outcome, FinishOutcome::Rejected);
    assert_eq!(called.get(), 0, "a failing validator never reaches the callback");
    assert_eq!(c.status(0), StepStatus::Error);
}

#[test]
fn the_primary_button_follows_reachability() {
    let mut c = controller(3);
    assert_eq!(primary_action(&c), PrimaryAction::Next);
    c.set_visible(1, false);
    c.set_status(2, StepStatus::Disabled);
    assert_eq!(primary_action(&c), PrimaryAction::Finish, "a trailing run of unreachable steps shows Finish");
}

#[test]
fn the_footer_shows_back_skip_and_exactly_one_primary() {
    let mut c = controller(3);
    let optional = vec![false, true, false];
    let b = footer_buttons(&c, &optional).unwrap();
    assert!(!b.back && b.next && !b.finish && !b.skip);
    c.next();
    let b = footer_buttons(&c, &optional).unwrap();
    assert!(b.back && b.next && !b.finish && b.skip);
    c.next();
    let b = footer_buttons(&c, &optional).unwrap();
    assert!(b.back && !b.next && b.finish && !b.skip);
    assert!(footer_buttons(&c, &vec![]).is_none());
}

#[test]
fn a_finish_callback_that_navigates_still_completes_the_step_it_started_on() {
    let mut c = controller(3);
    c.go_to(2);
    assert_eq!(step_to_validate(&c, &vec![]), Some(2));
    let outcome = finish(&mut c, &vec![], || true, |c| {
        // The callback jumps back to the first step before it reports.
        c.go_to(0);
        FinishOutcome::Finished
    });
    assert_eq!(outcome, FinishOutcome::Finished);
    assert_eq!(c.status(2), StepStatus::Complete);
    assert_eq!(c.status(0), StepStatus::Active);
    assert_eq!(c.current(), 0);
}
