//! The toggle between the normal arrangement of a workspace and the emulated
//! fullscreen.
//!
//! Nothing is remembered between invocations but the backup itself: whether
//! it exists says which way a toggle goes. A failure of the emulation is
//! answered by a restore, the same that a toggle out of fullscreen runs. Every
//! other failure ends the invocation.

use crate::store::Util;
use vstd::prelude::*;

verus! {

/// Where a workspace stands.
#[derive(Clone, Copy, Debug, PartialEq, Eq, Structural)]
pub enum ToggleState {
    /// No backup exists.
    Normal,
    /// The arrangement is being saved.
    BackingUp,
    /// A backup exists: the emulation is being applied, or is in place.
    Fullscreen,
    /// The saved arrangement is being restored.
    Restoring,
}

/// What happened.
#[derive(Clone, Copy, Debug, PartialEq, Eq, Structural)]
pub enum ToggleEvent {
    /// The user asked for the toggle.
    Toggle,
    /// The last action was carried out.
    Succeeded,
    /// The last action failed.
    Failed,
}

/// What is to be done.
#[derive(Clone, Copy, Debug, PartialEq, Eq, Structural)]
pub enum ToggleAction {
    /// Save the arrangement of the workspace and the focused window.
    Save,
    /// Apply the fullscreen emulation.
    Emulate,
    /// Restore the saved arrangement.
    Restore,
    /// Nothing more: the invocation ends well.
    Stop,
    /// Nothing more: the invocation ends with the failure of the last action.
    Fail,
}

/// The state that an invocation starts in.
pub open spec fn initial_state(has_backup: bool) -> ToggleState {
    if has_backup {
        ToggleState::Fullscreen
    } else {
        ToggleState::Normal
    }
}

/// The state and the action that follow an event.
///
/// A toggle leaves `Normal` by saving and `Fullscreen` by restoring. Once the
/// arrangement is saved the emulation is applied. A save that fails ends the
/// invocation with that failure: nothing was changed, so there is nothing to
/// restore, and no backup counts as made. A failure of the emulation is
/// answered by a restore. A restore that fails leaves the backup where it is,
/// so the workspace still counts as fullscreen. An event that a state does not
/// wait for changes nothing.
pub open spec fn transition(state: ToggleState, event: ToggleEvent) -> (ToggleState, ToggleAction) {
    match (state, event) {
        (ToggleState::Normal, ToggleEvent::Toggle) => (ToggleState::BackingUp, ToggleAction::Save),
        (ToggleState::BackingUp, ToggleEvent::Succeeded) => (
            ToggleState::Fullscreen,
            ToggleAction::Emulate,
        ),
        (ToggleState::BackingUp, ToggleEvent::Failed) => (ToggleState::Normal, ToggleAction::Fail),
        (ToggleState::Fullscreen, ToggleEvent::Toggle) => (
            ToggleState::Restoring,
            ToggleAction::Restore,
        ),
        (ToggleState::Fullscreen, ToggleEvent::Failed) => (
            ToggleState::Restoring,
            ToggleAction::Restore,
        ),
        (ToggleState::Restoring, ToggleEvent::Succeeded) => (
            ToggleState::Normal,
            ToggleAction::Stop,
        ),
        (ToggleState::Restoring, ToggleEvent::Failed) => (
            ToggleState::Fullscreen,
            ToggleAction::Fail,
        ),
        (state, _) => (state, ToggleAction::Stop),
    }
}

impl ToggleState {
    /// The state that an invocation starts in, from whether a backup exists.
    pub fn initial(has_backup: bool) -> (state: ToggleState)
        ensures
            state == initial_state(has_backup),
    {
        if has_backup {
            ToggleState::Fullscreen
        } else {
            ToggleState::Normal
        }
    }
}

impl Util {
    /// One step of the toggle: the state and the action that follow `event`
    /// in `state`.
    pub fn toggle_fullscreen(state: ToggleState, event: ToggleEvent) -> (next: (
        ToggleState,
        ToggleAction,
    ))
        ensures
            next == transition(state, event),
    {
        match (state, event) {
            (ToggleState::Normal, ToggleEvent::Toggle) => (
                ToggleState::BackingUp,
                ToggleAction::Save,
            ),
            (ToggleState::BackingUp, ToggleEvent::Succeeded) => (
                ToggleState::Fullscreen,
                ToggleAction::Emulate,
            ),
            (ToggleState::BackingUp, ToggleEvent::Failed) => (
                ToggleState::Normal,
                ToggleAction::Fail,
            ),
            (ToggleState::Fullscreen, ToggleEvent::Toggle) => (
                ToggleState::Restoring,
                ToggleAction::Restore,
            ),
            (ToggleState::Fullscreen, ToggleEvent::Failed) => (
                ToggleState::Restoring,
                ToggleAction::Restore,
            ),
            (ToggleState::Restoring, ToggleEvent::Succeeded) => (
                ToggleState::Normal,
                ToggleAction::Stop,
            ),
            (ToggleState::Restoring, ToggleEvent::Failed) => (
                ToggleState::Fullscreen,
                ToggleAction::Fail,
            ),
            (state, _) => (state, ToggleAction::Stop),
        }
    }
}

/// The states and actions of an invocation: what follows the toggle of the
/// user and then each of `events`, as long as there is something to do.
pub open spec fn run(state: ToggleState, events: Seq<ToggleEvent>) -> Seq<(ToggleState, ToggleAction)>
    decreases events.len(),
{
    if events.len() == 0 {
        Seq::empty()
    } else {
        let next = transition(state, events[0]);
        seq![next] + run(next.0, events.drop_first())
    }
}

/// A toggle without a backup saves, then emulates, and ends in fullscreen.
pub proof fn lemma_toggle_on()
    ensures
        run(
            initial_state(false),
            seq![ToggleEvent::Toggle, ToggleEvent::Succeeded, ToggleEvent::Succeeded],
        ) == seq![
            (ToggleState::BackingUp, ToggleAction::Save),
            (ToggleState::Fullscreen, ToggleAction::Emulate),
            (ToggleState::Fullscreen, ToggleAction::Stop),
        ],
{
    let events = seq![ToggleEvent::Toggle, ToggleEvent::Succeeded, ToggleEvent::Succeeded];
    reveal_with_fuel(run, 4);
    assert(events.drop_first() =~= seq![ToggleEvent::Succeeded, ToggleEvent::Succeeded]);
    assert(events.drop_first().drop_first() =~= seq![ToggleEvent::Succeeded]);
    assert(events.drop_first().drop_first().drop_first() =~= Seq::<ToggleEvent>::empty());
    assert(run(initial_state(false), events) =~= seq![
        (ToggleState::BackingUp, ToggleAction::Save),
        (ToggleState::Fullscreen, ToggleAction::Emulate),
        (ToggleState::Fullscreen, ToggleAction::Stop),
    ]);
}

/// A toggle with a backup restores and ends in the normal state.
pub proof fn lemma_toggle_off()
    ensures
        run(initial_state(true), seq![ToggleEvent::Toggle, ToggleEvent::Succeeded]) == seq![
            (ToggleState::Restoring, ToggleAction::Restore),
            (ToggleState::Normal, ToggleAction::Stop),
        ],
{
    let events = seq![ToggleEvent::Toggle, ToggleEvent::Succeeded];
    reveal_with_fuel(run, 3);
    assert(events.drop_first() =~= seq![ToggleEvent::Succeeded]);
    assert(events.drop_first().drop_first() =~= Seq::<ToggleEvent>::empty());
    assert(run(initial_state(true), events) =~= seq![
        (ToggleState::Restoring, ToggleAction::Restore),
        (ToggleState::Normal, ToggleAction::Stop),
    ]);
}

/// A failure of the emulation is answered by a restore, and a restore that
/// succeeds ends in the normal state: the failure takes the same way out as a
/// toggle out of fullscreen.
pub proof fn lemma_failed_emulation_is_compensated()
    ensures
        transition(ToggleState::Fullscreen, ToggleEvent::Failed) == (
            ToggleState::Restoring,
            ToggleAction::Restore,
        ),
        transition(ToggleState::Fullscreen, ToggleEvent::Toggle) == transition(
            ToggleState::Fullscreen,
            ToggleEvent::Failed,
        ),
        transition(ToggleState::Restoring, ToggleEvent::Succeeded) == (
            ToggleState::Normal,
            ToggleAction::Stop,
        ),
{
}

/// A save that fails ends the invocation with that failure: the emulation is
/// not applied and nothing is restored.
pub proof fn lemma_failed_save_ends()
    ensures
        run(initial_state(false), seq![ToggleEvent::Toggle, ToggleEvent::Failed]) == seq![
            (ToggleState::BackingUp, ToggleAction::Save),
            (ToggleState::Normal, ToggleAction::Fail),
        ],
        forall|event: ToggleEvent|
            #![trigger transition(ToggleState::BackingUp, event)]
            transition(ToggleState::BackingUp, event).1 != ToggleAction::Restore,
{
    let events = seq![ToggleEvent::Toggle, ToggleEvent::Failed];
    reveal_with_fuel(run, 3);
    assert(events.drop_first() =~= seq![ToggleEvent::Failed]);
    assert(events.drop_first().drop_first() =~= Seq::<ToggleEvent>::empty());
    assert(run(initial_state(false), events) =~= seq![
        (ToggleState::BackingUp, ToggleAction::Save),
        (ToggleState::Normal, ToggleAction::Fail),
    ]);
}

} // verus!
