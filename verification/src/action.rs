//! What the handler asks to be carried out.

use crate::event::KeyEvent;
use crate::keymap_action::{copy_strings, strings_view};
use crate::keys::Key;
use std::time::Duration;
use vstd::prelude::*;

verus! {

/// One thing to carry out.
#[derive(Debug, PartialEq, Eq)]
pub enum Action {
    /// Send a key event.
    KeyEvent(KeyEvent),
    /// Run a command.
    Command(Vec<String>),
    /// Wait.
    Delay(Duration),
}

/// The value of an [`Action`].
#[verifier::ext_equal]
pub enum ActionView {
    KeyEvent(KeyEvent),
    Command(Seq<Seq<char>>),
    Delay(Duration),
}

impl View for Action {
    type V = ActionView;

    open spec fn view(&self) -> ActionView {
        match self {
            Action::KeyEvent(event) => ActionView::KeyEvent(*event),
            Action::Command(command) => ActionView::Command(strings_view(command@)),
            Action::Delay(delay) => ActionView::Delay(*delay),
        }
    }
}

/// The values of `actions`.
pub open spec fn output_view(actions: Seq<Action>) -> Seq<ActionView> {
    actions.map_values(|action: Action| action@)
}

/// The event of `key` with `value`.
pub open spec fn key_action(key: Key, value: i32) -> ActionView {
    ActionView::KeyEvent(KeyEvent { code: key, value })
}

/// The event of each of `keys` with `value`.
pub open spec fn key_actions(keys: Seq<Key>, value: i32) -> Seq<ActionView> {
    keys.map_values(|key: Key| key_action(key, value))
}

impl Clone for Action {
    fn clone(&self) -> (copy: Action)
        ensures
            copy@ == self@,
    {
        match self {
            Action::KeyEvent(event) => Action::KeyEvent(*event),
            Action::Command(command) => Action::Command(copy_strings(command)),
            Action::Delay(delay) => Action::Delay(*delay),
        }
    }
}

/// Copies `actions`.
pub fn copy_output(actions: &Vec<Action>) -> (copy: Vec<Action>)
    ensures
        output_view(copy@) == output_view(actions@),
{
    let mut copy: Vec<Action> = Vec::new();
    for i in 0..actions.len()
        invariant
            copy@.len() == i,
            forall|j: int| 0 <= j < i ==> #[trigger] copy@[j]@ == actions@[j]@,
    {
        copy.push(actions[i].clone());
    }
    assert(output_view(copy@) =~= output_view(actions@));
    copy
}

} // verus!
