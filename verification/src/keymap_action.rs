//! What a keymap does when one of its key presses is hit.

use crate::keys::{Key, Modifier};
use std::time::Duration;
use vstd::prelude::*;

verus! {

/// A key together with the modifiers that are held with it.
#[derive(Debug)]
pub struct KeyPress {
    pub key: Key,
    pub modifiers: Vec<Modifier>,
}

/// One line of a nested remap: what to do when `key_press` comes next.
#[derive(Debug)]
pub struct RemapRule {
    pub key_press: KeyPress,
    pub actions: Vec<KeymapAction>,
}

/// A nested remap. It stands until a key is pressed or, where there is a timeout, until the
/// timeout has passed; then `timeout_key`, or the key that set the remap up, is sent instead.
#[derive(Debug)]
pub struct Remap {
    pub remap: Vec<RemapRule>,
    pub timeout: Option<Duration>,
    pub timeout_key: Option<Key>,
}

/// One action of a keymap.
#[derive(Debug)]
pub enum KeymapAction {
    /// Send a key press.
    KeyPress(KeyPress),
    /// Wait for one more key.
    Remap(Remap),
    /// Run a command.
    Launch(Vec<String>),
    /// Switch to a mode.
    SetMode(String),
    /// Set or clear the mark.
    SetMark(bool),
    /// Send a key press, with shift while the mark is set.
    WithMark(KeyPress),
    /// Let the next key through as it is.
    EscapeNextKey(bool),
    /// From here on do not release these modifiers to emulate a key press.
    SetExtraModifiers(Vec<Key>),
}

/// The value of a [`KeyPress`].
#[verifier::ext_equal]
pub struct KeyPressView {
    pub key: Key,
    pub modifiers: Seq<Modifier>,
}

/// The value of a [`RemapRule`].
#[verifier::ext_equal]
pub struct RemapRuleView {
    pub key_press: KeyPressView,
    pub actions: Seq<KeymapActionView>,
}

/// The value of a [`Remap`].
#[verifier::ext_equal]
pub struct RemapView {
    pub remap: Seq<RemapRuleView>,
    pub timeout: Option<Duration>,
    pub timeout_key: Option<Key>,
}

/// The value of a [`KeymapAction`].
#[verifier::ext_equal]
pub enum KeymapActionView {
    KeyPress(KeyPressView),
    Remap(RemapView),
    Launch(Seq<Seq<char>>),
    SetMode(Seq<char>),
    SetMark(bool),
    WithMark(KeyPressView),
    EscapeNextKey(bool),
    SetExtraModifiers(Seq<Key>),
}

/// The texts of `strings`.
pub open spec fn strings_view(strings: Seq<String>) -> Seq<Seq<char>> {
    strings.map_values(|string: String| string@)
}

/// The values of `actions`.
pub open spec fn actions_view(actions: Seq<KeymapAction>) -> Seq<KeymapActionView>
    decreases actions,
{
    Seq::new(
        actions.len(),
        |i: int|
            if 0 <= i < actions.len() {
                actions[i].view()
            } else {
                arbitrary()
            },
    )
}

/// The values of `rules`.
pub open spec fn rules_view(rules: Seq<RemapRule>) -> Seq<RemapRuleView>
    decreases rules,
{
    Seq::new(
        rules.len(),
        |i: int|
            if 0 <= i < rules.len() {
                rules[i].view()
            } else {
                arbitrary()
            },
    )
}

impl View for KeyPress {
    type V = KeyPressView;

    open spec fn view(&self) -> KeyPressView {
        KeyPressView { key: self.key, modifiers: self.modifiers@ }
    }
}

impl RemapRule {
    /// The value of the rule.
    pub open spec fn view(&self) -> RemapRuleView
        decreases self,
    {
        RemapRuleView { key_press: self.key_press@, actions: actions_view(self.actions@) }
    }
}

impl Remap {
    /// The value of the remap.
    pub open spec fn view(&self) -> RemapView
        decreases self,
    {
        RemapView {
            remap: rules_view(self.remap@),
            timeout: self.timeout,
            timeout_key: self.timeout_key,
        }
    }
}

impl KeymapAction {
    /// The value of the action.
    pub open spec fn view(&self) -> KeymapActionView
        decreases self,
    {
        match self {
            KeymapAction::KeyPress(key_press) => KeymapActionView::KeyPress(key_press@),
            KeymapAction::Remap(remap) => KeymapActionView::Remap(remap.view()),
            KeymapAction::Launch(command) => KeymapActionView::Launch(strings_view(command@)),
            KeymapAction::SetMode(mode) => KeymapActionView::SetMode(mode@),
            KeymapAction::SetMark(set) => KeymapActionView::SetMark(*set),
            KeymapAction::WithMark(key_press) => KeymapActionView::WithMark(key_press@),
            KeymapAction::EscapeNextKey(escape) => KeymapActionView::EscapeNextKey(*escape),
            KeymapAction::SetExtraModifiers(keys) => KeymapActionView::SetExtraModifiers(keys@),
        }
    }
}

/// The value of each of `actions` is the action's own.
pub proof fn lemma_actions_view(actions: Seq<KeymapAction>)
    ensures
        actions_view(actions).len() == actions.len(),
        forall|i: int|
            0 <= i < actions.len() ==> #[trigger] actions_view(actions)[i] == actions[i].view(),
{
    assert forall|i: int| 0 <= i < actions.len() implies #[trigger] actions_view(actions)[i]
        == actions[i].view() by {
        assert(actions[i].view() == actions[i].view());
    }
}

/// The value of each of `rules` is the rule's own.
pub proof fn lemma_rules_view(rules: Seq<RemapRule>)
    ensures
        rules_view(rules).len() == rules.len(),
        forall|i: int| 0 <= i < rules.len() ==> #[trigger] rules_view(rules)[i] == rules[i].view(),
{
    assert forall|i: int| 0 <= i < rules.len() implies #[trigger] rules_view(rules)[i]
        == rules[i].view() by {
        assert(rules[i].view() == rules[i].view());
    }
}

/// Copies `strings`.
pub fn copy_strings(strings: &Vec<String>) -> (copy: Vec<String>)
    ensures
        strings_view(copy@) == strings_view(strings@),
{
    let mut copy: Vec<String> = Vec::new();
    for i in 0..strings.len()
        invariant
            copy@.len() == i,
            forall|j: int| 0 <= j < i ==> #[trigger] copy@[j]@ == strings@[j]@,
    {
        copy.push(strings[i].clone());
    }
    assert(strings_view(copy@) =~= strings_view(strings@));
    copy
}

/// Copies `actions`.
pub fn copy_actions(actions: &Vec<KeymapAction>) -> (copy: Vec<KeymapAction>)
    ensures
        actions_view(copy@) == actions_view(actions@),
    decreases actions,
{
    let mut copy: Vec<KeymapAction> = Vec::new();
    for i in 0..actions.len()
        invariant
            copy@.len() == i,
            forall|j: int| 0 <= j < i ==> #[trigger] copy@[j].view() == actions@[j].view(),
    {
        copy.push(actions[i].clone());
    }
    proof {
        lemma_actions_view(copy@);
        lemma_actions_view(actions@);
        assert(actions_view(copy@) =~= actions_view(actions@));
    }
    copy
}

/// Copies `rules`.
pub fn copy_rules(rules: &Vec<RemapRule>) -> (copy: Vec<RemapRule>)
    ensures
        rules_view(copy@) == rules_view(rules@),
    decreases rules,
{
    let mut copy: Vec<RemapRule> = Vec::new();
    for i in 0..rules.len()
        invariant
            copy@.len() == i,
            forall|j: int| 0 <= j < i ==> #[trigger] copy@[j].view() == rules@[j].view(),
    {
        copy.push(rules[i].clone());
    }
    proof {
        lemma_rules_view(copy@);
        lemma_rules_view(rules@);
        assert(rules_view(copy@) =~= rules_view(rules@));
    }
    copy
}

impl Clone for KeyPress {
    fn clone(&self) -> (copy: KeyPress)
        ensures
            copy@ == self@,
    {
        KeyPress { key: self.key, modifiers: self.modifiers.clone() }
    }
}

impl Clone for RemapRule {
    fn clone(&self) -> (copy: RemapRule)
        ensures
            copy.view() == self.view(),
        decreases self,
    {
        RemapRule { key_press: self.key_press.clone(), actions: copy_actions(&self.actions) }
    }
}

impl Clone for Remap {
    fn clone(&self) -> (copy: Remap)
        ensures
            copy.view() == self.view(),
        decreases self,
    {
        Remap {
            remap: copy_rules(&self.remap),
            timeout: self.timeout,
            timeout_key: self.timeout_key,
        }
    }
}

impl Clone for KeymapAction {
    fn clone(&self) -> (copy: KeymapAction)
        ensures
            copy.view() == self.view(),
        decreases self,
    {
        match self {
            KeymapAction::KeyPress(key_press) => KeymapAction::KeyPress(key_press.clone()),
            KeymapAction::Remap(remap) => KeymapAction::Remap(remap.clone()),
            KeymapAction::Launch(command) => KeymapAction::Launch(copy_strings(command)),
            KeymapAction::SetMode(mode) => KeymapAction::SetMode(mode.clone()),
            KeymapAction::SetMark(set) => KeymapAction::SetMark(*set),
            KeymapAction::WithMark(key_press) => KeymapAction::WithMark(key_press.clone()),
            KeymapAction::EscapeNextKey(escape) => KeymapAction::EscapeNextKey(*escape),
            KeymapAction::SetExtraModifiers(keys) => KeymapAction::SetExtraModifiers(
                keys.clone(),
            ),
        }
    }
}

} // verus!
