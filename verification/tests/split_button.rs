use teksilo_widgets::split_button::{
    classify, initial_selection, label_index, resolve_text_role, split_step, ButtonVariant,
    InteractionState, LabelRole, SplitButtonEvent, SplitButtonFamily, SplitButtonState,
};

fn idle(selected: usize) -> SplitButtonState {
    SplitButtonState { interaction: InteractionState::Idle, selected, menu_open: false }
}

#[test]
fn variants_fold_into_three_families() {
    assert_eq!(classify(ButtonVariant::Filled), SplitButtonFamily::FilledLike);
    assert_eq!(classify(ButtonVariant::Destructive), SplitButtonFamily::FilledLike);
    assert_eq!(classify(ButtonVariant::Plain), SplitButtonFamily::PlainLike);
    assert_eq!(classify(ButtonVariant::Tinted), SplitButtonFamily::PlainLike);
    assert_eq!(classify(ButtonVariant::Outlined), SplitButtonFamily::PlainLike);
    assert_eq!(classify(ButtonVariant::Ghosted), SplitButtonFamily::GhostLike);
    assert_eq!(classify(ButtonVariant::Link), SplitButtonFamily::GhostLike);
}

#[test]
fn the_label_role_follows_family_and_state() {
    assert_eq!(resolve_text_role(ButtonVariant::Filled, InteractionState::Hovered), LabelRole::OnAccent);
    assert_eq!(resolve_text_role(ButtonVariant::Plain, InteractionState::Idle), LabelRole::Primary);
    assert_eq!(resolve_text_role(ButtonVariant::Filled, InteractionState::Disabled), LabelRole::Disabled);
}

#[test]
fn the_initial_default_is_clamped_to_the_items() {
    assert_eq!(initial_selection(2, 3), 2);
    assert_eq!(initial_selection(3, 3), 0);
    assert_eq!(initial_selection(1, 0), 0);
    assert_eq!(label_index(5, 3), Some(2));
    assert_eq!(label_index(1, 3), Some(1));
    assert_eq!(label_index(0, 0), None);
}

/// Enter on a focused button whose default is the second item fires that
/// item's action.
#[test]
fn enter_fires_current_default_action() {
    let actions = vec![true, true];
    let mut s = idle(initial_selection(1, 2));
    split_step(&mut s, SplitButtonEvent::Focus(true), &actions, true);
    let down = split_step(&mut s, SplitButtonEvent::ActivateKeyDown, &actions, true);
    assert!(down.handled && down.fire.is_none());
    let up = split_step(&mut s, SplitButtonEvent::ActivateKeyUp, &actions, true);
    assert_eq!(up.fire, Some(1), "Enter must fire the currently-selected item's action");
    assert_eq!(s.interaction, InteractionState::Focused);
}

/// An assistive click fires the current default action, exactly like Enter.
#[test]
fn access_click_fires_current_default_action() {
    let actions = vec![true, true];
    let mut s = idle(initial_selection(1, 2));
    let r = split_step(&mut s, SplitButtonEvent::AccessClick, &actions, true);
    assert_eq!(r.fire, Some(1), "AT click must fire the currently-selected item's action");
    assert!(r.handled);
}

#[test]
fn an_item_without_an_action_fires_nothing() {
    let actions = vec![false, true];
    let mut t = idle(0);
    assert_eq!(split_step(&mut t, SplitButtonEvent::AccessClick, &actions, true).fire, None);
    assert!(!split_step(&mut t, SplitButtonEvent::OtherAccessAction, &actions, true).handled);
}

/// A lone Enter key-up fires nothing; a full press and release does.
#[test]
fn lone_keyup_does_not_fire_default_action() {
    let actions = vec![true];
    let mut s = idle(0);
    split_step(&mut s, SplitButtonEvent::Focus(true), &actions, true);
    let focused = s;
    let mut fired = 0;
    let up = split_step(&mut s, SplitButtonEvent::ActivateKeyUp, &actions, true);
    if up.fire.is_some() {
        fired += 1;
    }
    assert_eq!(fired, 0, "lone KeyUp must not fire the default action");
    assert!(!up.handled);
    assert_eq!(s, focused);
    for event in [SplitButtonEvent::ActivateKeyDown, SplitButtonEvent::ActivateKeyUp] {
        if split_step(&mut s, event, &actions, true).fire.is_some() {
            fired += 1;
        }
    }
    assert_eq!(fired, 1, "full KeyDown+KeyUp fires the default action");
}

/// ArrowDown on a focused button opens the menu.
#[test]
fn arrow_down_opens_the_menu() {
    let actions = vec![true, true];
    let mut s = idle(0);
    split_step(&mut s, SplitButtonEvent::Focus(true), &actions, true);
    assert!(!s.menu_open);
    let r = split_step(&mut s, SplitButtonEvent::ArrowDown, &actions, true);
    assert!(r.open_menu && s.menu_open, "ArrowDown must open the dropdown menu overlay");
}

#[test]
fn a_pick_from_the_menu_becomes_the_default() {
    let actions = vec![true, true, true];
    let mut s = idle(0);
    split_step(&mut s, SplitButtonEvent::ArrowDown, &actions, true);
    let pick = split_step(&mut s, SplitButtonEvent::ItemChosen(2), &actions, true);
    assert_eq!(pick.fire, Some(2), "the picked item's own action runs once");
    split_step(&mut s, SplitButtonEvent::MenuDismissed, &actions, true);
    assert!(!s.menu_open);
    assert_eq!(split_step(&mut s, SplitButtonEvent::MainTap, &actions, true).fire, Some(2));
    let mut fixed = idle(0);
    let pick = split_step(&mut fixed, SplitButtonEvent::ItemChosen(2), &actions, false);
    assert_eq!(pick.fire, Some(2), "a static button still runs the picked item's action");
    assert_eq!(fixed.selected, 0, "a static button keeps its default");
    let mut bare = idle(0);
    assert_eq!(split_step(&mut bare, SplitButtonEvent::ItemChosen(1), &vec![true, false], true).fire, None);
}

#[test]
fn hover_only_toggles_the_ambient_pair() {
    let actions = vec![true];
    let mut s = idle(0);
    split_step(&mut s, SplitButtonEvent::Hover(true), &actions, true);
    assert_eq!(s.interaction, InteractionState::Hovered);
    split_step(&mut s, SplitButtonEvent::ChevronTap, &actions, true);
    assert_eq!(s.interaction, InteractionState::Pressed);
    split_step(&mut s, SplitButtonEvent::Hover(false), &actions, true);
    assert_eq!(s.interaction, InteractionState::Pressed, "hover never overrides a press");
    split_step(&mut s, SplitButtonEvent::Focus(false), &actions, true);
    assert_eq!(s.interaction, InteractionState::Idle);
    split_step(&mut s, SplitButtonEvent::Focus(true), &actions, true);
    assert_eq!(s.interaction, InteractionState::Focused);
}
