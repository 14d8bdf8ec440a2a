//! A split button's decisions: which paint family a variant belongs to,
//! which text role its label takes, and how its single interaction state,
//! its remembered default item and its menu react to input.
//!
//! The button is one focus stop. Space / Enter fire the current default
//! item on release (a release with no matching press fires nothing);
//! ArrowDown or the chevron opens the menu; picking an item from the menu
//! promotes it to the default for the session.
use vstd::prelude::*;

verus! {

/// The visual variants a button can take.
#[derive(Debug, Clone, Copy, PartialEq, Eq, Structural)]
pub enum ButtonVariant {
    Filled,
    Destructive,
    Plain,
    Tinted,
    Outlined,
    Ghosted,
    Link,
}

/// The three paint families a split button knows.
#[derive(Debug, Clone, Copy, PartialEq, Eq, Structural)]
pub enum SplitButtonFamily {
    FilledLike,
    PlainLike,
    GhostLike,
}

/// The transient interaction state; exactly one at a time.
#[derive(Debug, Clone, Copy, PartialEq, Eq, Structural)]
pub enum InteractionState {
    Idle,
    Hovered,
    Pressed,
    Focused,
    Disabled,
}

/// The text role the label, its icon and the chevron are tinted with.
#[derive(Debug, Clone, Copy, PartialEq, Eq, Structural)]
pub enum LabelRole {
    Primary,
    OnAccent,
    Disabled,
}

pub open spec fn spec_classify(variant: ButtonVariant) -> SplitButtonFamily {
    match variant {
        ButtonVariant::Filled | ButtonVariant::Destructive => SplitButtonFamily::FilledLike,
        ButtonVariant::Plain | ButtonVariant::Tinted | ButtonVariant::Outlined => SplitButtonFamily::PlainLike,
        ButtonVariant::Ghosted | ButtonVariant::Link => SplitButtonFamily::GhostLike,
    }
}

/// Normalise a variant to its family: Filled / Destructive, Plain / Tinted
/// / Outlined, Ghost / Link.
pub fn classify(variant: ButtonVariant) -> (f: SplitButtonFamily)
    ensures
        f == spec_classify(variant),
{
    match variant {
        ButtonVariant::Filled | ButtonVariant::Destructive => SplitButtonFamily::FilledLike,
        ButtonVariant::Plain | ButtonVariant::Tinted | ButtonVariant::Outlined => SplitButtonFamily::PlainLike,
        ButtonVariant::Ghosted | ButtonVariant::Link => SplitButtonFamily::GhostLike,
    }
}

/// The label's text role: `Disabled` when disabled, on-accent on the
/// filled family, primary otherwise.
pub fn resolve_text_role(variant: ButtonVariant, state: InteractionState) -> (r: LabelRole)
    ensures
        r == (if state == InteractionState::Disabled {
            LabelRole::Disabled
        } else if spec_classify(variant) == SplitButtonFamily::FilledLike {
            LabelRole::OnAccent
        } else {
            LabelRole::Primary
        }),
{
    if state == InteractionState::Disabled {
        return LabelRole::Disabled;
    }
    match classify(variant) {
        SplitButtonFamily::FilledLike => LabelRole::OnAccent,
        SplitButtonFamily::PlainLike | SplitButtonFamily::GhostLike => LabelRole::Primary,
    }
}

/// The default item a button starts with: the requested one when it
/// exists, item 0 otherwise.
pub fn initial_selection(requested: usize, item_count: usize) -> (r: usize)
    ensures
        r == (if item_count == 0 || requested >= item_count {
            0
        } else {
            requested
        }),
{
    if item_count == 0 || requested >= item_count {
        0
    } else {
        requested
    }
}

/// The label shown (and announced) for the default item: the selected one,
/// clamped to the last item; none without items.
pub fn label_index(selected: usize, label_count: usize) -> (r: Option<usize>)
    ensures
        label_count == 0 ==> r is None,
        label_count > 0 ==> r == Some(if selected < label_count {
            selected
        } else {
            (label_count - 1) as usize
        }),
{
    if label_count == 0 {
        None
    } else if selected < label_count {
        Some(selected)
    } else {
        Some(label_count - 1)
    }
}

/// Input a split button reacts to.
#[derive(Debug, Clone, Copy, PartialEq, Eq, Structural)]
pub enum SplitButtonEvent {
    /// The pointer entered (`true`) or left the button.
    Hover(bool),
    /// Space or Enter went down.
    ActivateKeyDown,
    /// Space or Enter came up.
    ActivateKeyUp,
    /// ArrowDown went down.
    ArrowDown,
    /// Any other key.
    OtherKey,
    /// Focus was gained (`true`) or lost.
    Focus(bool),
    /// The chevron region was tapped.
    ChevronTap,
    /// The main region was tapped.
    MainTap,
    /// Assistive technology asked for a click.
    AccessClick,
    /// Assistive technology asked for something else.
    OtherAccessAction,
    /// Item `i` was chosen from the menu.
    ItemChosen(usize),
    /// The menu was dismissed.
    MenuDismissed,
}

/// A split button's state.
#[derive(Debug, Clone, Copy, PartialEq, Eq, Structural)]
pub struct SplitButtonState {
    pub interaction: InteractionState,
    /// The default item: what the main region and Space / Enter fire.
    pub selected: usize,
    pub menu_open: bool,
}

/// What the application does in response to an event.
#[derive(Debug, Clone, Copy, PartialEq, Eq, Structural)]
pub struct SplitButtonResponse {
    /// Fire the action of this item.
    pub fire: Option<usize>,
    /// Show the menu overlay and hand it focus.
    pub open_menu: bool,
    /// The event was consumed.
    pub handled: bool,
}

/// The item the default action fires: the selected item, when it exists
/// and has an action.
pub open spec fn default_fire(selected: usize, has_action: Seq<bool>) -> Option<usize> {
    if selected < has_action.len() && has_action[selected as int] {
        Some(selected)
    } else {
        None
    }
}

/// The transition for one event. Hover only toggles the ambient
/// Idle / Hovered pair; a press is armed by the key going down and fires on
/// its release; focus gained from Idle shows Focused and focus lost returns
/// to Idle; choosing an item runs that item's own action and promotes it
/// when the button remembers the last pick.
pub open spec fn spec_split_step(
    s: SplitButtonState,
    event: SplitButtonEvent,
    has_action: Seq<bool>,
    promote_on_select: bool,
) -> (SplitButtonState, SplitButtonResponse) {
    let none = SplitButtonResponse { fire: None, open_menu: false, handled: false };
    match event {
        SplitButtonEvent::Hover(entered) => {
            let i = match s.interaction {
                InteractionState::Pressed | InteractionState::Focused | InteractionState::Disabled => s.interaction,
                _ => if entered {
                    InteractionState::Hovered
                } else {
                    InteractionState::Idle
                },
            };
            (SplitButtonState { interaction: i, ..s }, none)
        },
        SplitButtonEvent::ActivateKeyDown => (
            SplitButtonState { interaction: InteractionState::Pressed, ..s },
            SplitButtonResponse { handled: true, ..none },
        ),
        SplitButtonEvent::ActivateKeyUp => {
            if s.interaction != InteractionState::Pressed {
                (s, none)
            } else {
                (
                    SplitButtonState { interaction: InteractionState::Focused, ..s },
                    SplitButtonResponse { fire: default_fire(s.selected, has_action), handled: true, ..none },
                )
            }
        },
        SplitButtonEvent::ArrowDown => (
            SplitButtonState { menu_open: true, ..s },
            SplitButtonResponse { open_menu: true, handled: true, ..none },
        ),
        SplitButtonEvent::OtherKey => (s, none),
        SplitButtonEvent::Focus(gained) => {
            if gained {
                if s.interaction == InteractionState::Idle {
                    (SplitButtonState { interaction: InteractionState::Focused, ..s }, none)
                } else {
                    (s, none)
                }
            } else {
                (SplitButtonState { interaction: InteractionState::Idle, ..s }, none)
            }
        },
        SplitButtonEvent::ChevronTap => (
            SplitButtonState { interaction: InteractionState::Pressed, menu_open: true, ..s },
            SplitButtonResponse { open_menu: true, handled: true, ..none },
        ),
        SplitButtonEvent::MainTap => (
            s,
            SplitButtonResponse { fire: default_fire(s.selected, has_action), handled: true, ..none },
        ),
        SplitButtonEvent::AccessClick => (
            s,
            SplitButtonResponse { fire: default_fire(s.selected, has_action), handled: true, ..none },
        ),
        SplitButtonEvent::OtherAccessAction => (s, none),
        SplitButtonEvent::ItemChosen(i) => {
            let picked = SplitButtonResponse { fire: default_fire(i, has_action), handled: true, ..none };
            if promote_on_select {
                (SplitButtonState { selected: i, ..s }, picked)
            } else {
                (s, picked)
            }
        },
        SplitButtonEvent::MenuDismissed => (SplitButtonState { menu_open: false, ..s }, none),
    }
}

fn default_fire_of(selected: usize, has_action: &Vec<bool>) -> (r: Option<usize>)
    ensures
        r == default_fire(selected, has_action@),
{
    if selected < has_action.len() && has_action[selected] {
        Some(selected)
    } else {
        None
    }
}

/// Apply one event. `has_action[i]` says whether item `i` carries an
/// action; `promote_on_select` whether a menu pick becomes the default.
pub fn split_step(
    state: &mut SplitButtonState,
    event: SplitButtonEvent,
    has_action: &Vec<bool>,
    promote_on_select: bool,
) -> (response: SplitButtonResponse)
    ensures
        (*final(state), response) == spec_split_step(*old(state), event, has_action@, promote_on_select),
{
    let none = SplitButtonResponse { fire: None, open_menu: false, handled: false };
    match event {
        SplitButtonEvent::Hover(entered) => {
            match state.interaction {
                InteractionState::Pressed | InteractionState::Focused | InteractionState::Disabled => {},
                _ => {
                    state.interaction = if entered {
                        InteractionState::Hovered
                    } else {
                        InteractionState::Idle
                    };
                },
            }
            none
        },
        SplitButtonEvent::ActivateKeyDown => {
            state.interaction = InteractionState::Pressed;
            SplitButtonResponse { fire: None, open_menu: false, handled: true }
        },
        SplitButtonEvent::ActivateKeyUp => {
            if state.interaction != InteractionState::Pressed {
                return none;
            }
            let fire = default_fire_of(state.selected, has_action);
            state.interaction = InteractionState::Focused;
            SplitButtonResponse { fire, open_menu: false, handled: true }
        },
        SplitButtonEvent::ArrowDown => {
            state.menu_open = true;
            SplitButtonResponse { fire: None, open_menu: true, handled: true }
        },
        SplitButtonEvent::OtherKey => none,
        SplitButtonEvent::Focus(gained) => {
            if gained {
                if state.interaction == InteractionState::Idle {
                    state.interaction = InteractionState::Focused;
                }
            } else {
                state.interaction = InteractionState::Idle;
            }
            none
        },
        SplitButtonEvent::ChevronTap => {
            state.interaction = InteractionState::Pressed;
            state.menu_open = true;
            SplitButtonResponse { fire: None, open_menu: true, handled: true }
        },
        SplitButtonEvent::MainTap | SplitButtonEvent::AccessClick => {
            let fire = default_fire_of(state.selected, has_action);
            SplitButtonResponse { fire, open_menu: false, handled: true }
        },
        SplitButtonEvent::OtherAccessAction => none,
        SplitButtonEvent::ItemChosen(i) => {
            let fire = default_fire_of(i, has_action);
            if promote_on_select {
                state.selected = i;
            }
            SplitButtonResponse { fire, open_menu: false, handled: true }
        },
        SplitButtonEvent::MenuDismissed => {
            state.menu_open = false;
            none
        },
    }
}

/// A release of Space / Enter with no matching press (the press was
/// consumed elsewhere) fires nothing and changes nothing.
pub proof fn lemma_lone_key_up_fires_nothing(s: SplitButtonState, has_action: Seq<bool>, promote: bool)
    requires
        s.interaction != InteractionState::Pressed,
    ensures
        spec_split_step(s, SplitButtonEvent::ActivateKeyUp, has_action, promote).0 == s,
        spec_split_step(s, SplitButtonEvent::ActivateKeyUp, has_action, promote).1.fire is None,
{
}

/// A press followed by its release fires the default item's action, when
/// it has one, and leaves the button focused.
pub proof fn lemma_press_release_fires_default(s: SplitButtonState, has_action: Seq<bool>, promote: bool)
    ensures
        ({
            let (s1, _) = spec_split_step(s, SplitButtonEvent::ActivateKeyDown, has_action, promote);
            let (s2, r2) = spec_split_step(s1, SplitButtonEvent::ActivateKeyUp, has_action, promote);
            &&& r2.fire == default_fire(s.selected, has_action)
            &&& s2.interaction == InteractionState::Focused
        }),
{
}

/// Hover never overrides a press, focus or the disabled state.
pub proof fn lemma_hover_is_ambient(s: SplitButtonState, entered: bool, has_action: Seq<bool>, promote: bool)
    requires
        s.interaction == InteractionState::Pressed || s.interaction == InteractionState::Focused
            || s.interaction == InteractionState::Disabled,
    ensures
        spec_split_step(s, SplitButtonEvent::Hover(entered), has_action, promote).0 == s,
{
}

/// Whatever fires is an existing item that has an action.
pub proof fn lemma_fire_is_an_actionable_item(
    s: SplitButtonState,
    event: SplitButtonEvent,
    has_action: Seq<bool>,
    promote: bool,
)
    ensures
        spec_split_step(s, event, has_action, promote).1.fire matches Some(i) ==> i < has_action.len()
            && has_action[i as int],
{
}

/// A pick from the menu runs the picked item's own action once and, when
/// the button remembers the last pick, becomes the default, so the next
/// activation fires it; a static button keeps its default.
pub proof fn lemma_pick_becomes_default(s: SplitButtonState, i: usize, has_action: Seq<bool>)
    ensures
        spec_split_step(s, SplitButtonEvent::ItemChosen(i), has_action, true).1.fire == default_fire(i, has_action),
        spec_split_step(s, SplitButtonEvent::ItemChosen(i), has_action, false).1.fire == default_fire(i, has_action),
        spec_split_step(s, SplitButtonEvent::ItemChosen(i), has_action, false).0.selected == s.selected,
        ({
            let (s1, _) = spec_split_step(s, SplitButtonEvent::ItemChosen(i), has_action, true);
            spec_split_step(s1, SplitButtonEvent::AccessClick, has_action, true).1.fire == default_fire(
                i,
                has_action,
            )
        }),
{
}

/// The chevron and ArrowDown open the menu, and fire nothing; the chevron
/// shows the pressed state. Dismissing the menu closes it and fires
/// nothing. No other event opens the menu.
pub proof fn lemma_menu_opens_from_the_chevron_and_arrow_down(
    s: SplitButtonState,
    event: SplitButtonEvent,
    has_action: Seq<bool>,
    promote: bool,
)
    ensures
        ({
            let (s1, r) = spec_split_step(s, event, has_action, promote);
            &&& (event == SplitButtonEvent::ChevronTap || event == SplitButtonEvent::ArrowDown) ==> {
                &&& r.open_menu
                &&& s1.menu_open
                &&& r.fire is None
                &&& r.handled
                &&& s1.selected == s.selected
            }
            &&& event == SplitButtonEvent::ChevronTap ==> s1.interaction == InteractionState::Pressed
            &&& event == SplitButtonEvent::MenuDismissed ==> !s1.menu_open && r.fire is None && !r.open_menu
            &&& r.open_menu ==> (event == SplitButtonEvent::ChevronTap || event == SplitButtonEvent::ArrowDown)
        }),
{
}

} // verus!
