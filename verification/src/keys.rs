//! Key codes, the modifier keys among them, and the modifiers that a key press names.

use vstd::prelude::*;

verus! {

/// A key, by the code that evdev gives it.
pub type Key = u16;

/// The code of the left shift key.
pub open spec fn left_shift() -> Key {
    42
}

/// The code of the right shift key.
pub open spec fn right_shift() -> Key {
    54
}

/// The code of the left control key.
pub open spec fn left_control() -> Key {
    29
}

/// The code of the right control key.
pub open spec fn right_control() -> Key {
    97
}

/// The code of the left alt key.
pub open spec fn left_alt() -> Key {
    56
}

/// The code of the right alt key.
pub open spec fn right_alt() -> Key {
    100
}

/// The code of the left meta key, the one with the Windows logo.
pub open spec fn left_meta() -> Key {
    125
}

/// The code of the right meta key.
pub open spec fn right_meta() -> Key {
    126
}

/// Reads the code of `evdev::Key::KEY_LEFTSHIFT`, which evdev defines as 42.
#[verifier::external_body]
pub(crate) fn key_leftshift() -> (code: Key)
    ensures
        code == left_shift(),
{
    evdev::Key::KEY_LEFTSHIFT.code()
}

/// Reads the code of `evdev::Key::KEY_RIGHTSHIFT`, which evdev defines as 54.
#[verifier::external_body]
pub(crate) fn key_rightshift() -> (code: Key)
    ensures
        code == right_shift(),
{
    evdev::Key::KEY_RIGHTSHIFT.code()
}

/// Reads the code of `evdev::Key::KEY_LEFTCTRL`, which evdev defines as 29.
#[verifier::external_body]
pub(crate) fn key_leftctrl() -> (code: Key)
    ensures
        code == left_control(),
{
    evdev::Key::KEY_LEFTCTRL.code()
}

/// Reads the code of `evdev::Key::KEY_RIGHTCTRL`, which evdev defines as 97.
#[verifier::external_body]
pub(crate) fn key_rightctrl() -> (code: Key)
    ensures
        code == right_control(),
{
    evdev::Key::KEY_RIGHTCTRL.code()
}

/// Reads the code of `evdev::Key::KEY_LEFTALT`, which evdev defines as 56.
#[verifier::external_body]
pub(crate) fn key_leftalt() -> (code: Key)
    ensures
        code == left_alt(),
{
    evdev::Key::KEY_LEFTALT.code()
}

/// Reads the code of `evdev::Key::KEY_RIGHTALT`, which evdev defines as 100.
#[verifier::external_body]
pub(crate) fn key_rightalt() -> (code: Key)
    ensures
        code == right_alt(),
{
    evdev::Key::KEY_RIGHTALT.code()
}

/// Reads the code of `evdev::Key::KEY_LEFTMETA`, which evdev defines as 125.
#[verifier::external_body]
pub(crate) fn key_leftmeta() -> (code: Key)
    ensures
        code == left_meta(),
{
    evdev::Key::KEY_LEFTMETA.code()
}

/// Reads the code of `evdev::Key::KEY_RIGHTMETA`, which evdev defines as 126.
#[verifier::external_body]
pub(crate) fn key_rightmeta() -> (code: Key)
    ensures
        code == right_meta(),
{
    evdev::Key::KEY_RIGHTMETA.code()
}

/// Whether `key` is one of the eight keys that act as a modifier outside the remapper: shift,
/// control, alt and meta, each left and right.
pub open spec fn is_modifier_key(key: Key) -> bool {
    ||| key == left_shift()
    ||| key == right_shift()
    ||| key == left_control()
    ||| key == right_control()
    ||| key == left_alt()
    ||| key == right_alt()
    ||| key == left_meta()
    ||| key == right_meta()
}

/// Tells whether `key` acts as a modifier outside the remapper.
pub fn is_modifier(key: Key) -> (modifier: bool)
    ensures
        modifier == is_modifier_key(key),
{
    key == key_leftshift() || key == key_rightshift() || key == key_leftctrl() || key
        == key_rightctrl() || key == key_leftalt() || key == key_rightalt() || key
        == key_leftmeta() || key == key_rightmeta()
}

/// A modifier that a key press names.
///
/// The first four stand for the left and the right key alike; `Key` names one key, which may be
/// any key that the configuration declares a virtual modifier.
#[derive(Debug, Clone, Copy, PartialEq, Eq, Structural)]
pub enum Modifier {
    Shift,
    Control,
    Alt,
    Windows,
    Key(Key),
}

/// Whether holding `key` counts as holding `modifier`.
pub open spec fn covers(modifier: Modifier, key: Key) -> bool {
    match modifier {
        Modifier::Shift => key == left_shift() || key == right_shift(),
        Modifier::Control => key == left_control() || key == right_control(),
        Modifier::Alt => key == left_alt() || key == right_alt(),
        Modifier::Windows => key == left_meta() || key == right_meta(),
        Modifier::Key(named) => key == named,
    }
}

/// The key that is pressed to emulate `modifier`: the left one of the two, or the one named.
pub open spec fn emulating_key(modifier: Modifier) -> Key {
    match modifier {
        Modifier::Shift => left_shift(),
        Modifier::Control => left_control(),
        Modifier::Alt => left_alt(),
        Modifier::Windows => left_meta(),
        Modifier::Key(named) => named,
    }
}

/// Whether one of `modifiers` is covered by `key`.
pub open spec fn names_key(modifiers: Seq<Modifier>, key: Key) -> bool {
    exists|i: int| 0 <= i < modifiers.len() && covers(#[trigger] modifiers[i], key)
}

/// Whether one of the keys in `pressed` covers `modifier`.
pub open spec fn holds(pressed: Seq<Key>, modifier: Modifier) -> bool {
    exists|i: int| 0 <= i < pressed.len() && covers(modifier, #[trigger] pressed[i])
}

/// The test that a key passes when none of `modifiers` asks for it.
pub open spec fn unnamed_by(modifiers: Seq<Modifier>) -> spec_fn(Key) -> bool {
    |key: Key| !names_key(modifiers, key)
}

/// The test that a modifier passes when no key in `pressed` covers it.
pub open spec fn unheld_by(pressed: Seq<Key>) -> spec_fn(Modifier) -> bool {
    |modifier: Modifier| !holds(pressed, modifier)
}

/// The keys that are pressed to emulate `modifiers`.
pub open spec fn emulating_keys(modifiers: Seq<Modifier>) -> Seq<Key> {
    modifiers.map_values(|modifier: Modifier| emulating_key(modifier))
}

/// The keys in `pressed` that none of `modifiers` asks for.
pub open spec fn extra_keys(pressed: Seq<Key>, modifiers: Seq<Modifier>) -> Seq<Key> {
    pressed.filter(unnamed_by(modifiers))
}

/// The keys that would have to go down for `pressed` to hold each of `modifiers`.
pub open spec fn missing_keys(pressed: Seq<Key>, modifiers: Seq<Modifier>) -> Seq<Key> {
    emulating_keys(modifiers.filter(unheld_by(pressed)))
}

/// Tells whether holding `key` counts as holding `modifier`.
pub fn covered_by(modifier: &Modifier, key: Key) -> (covered: bool)
    ensures
        covered == covers(*modifier, key),
{
    match modifier {
        Modifier::Shift => key == key_leftshift() || key == key_rightshift(),
        Modifier::Control => key == key_leftctrl() || key == key_rightctrl(),
        Modifier::Alt => key == key_leftalt() || key == key_rightalt(),
        Modifier::Windows => key == key_leftmeta() || key == key_rightmeta(),
        Modifier::Key(named) => key == *named,
    }
}

/// Gives the key that is pressed to emulate `modifier`.
pub fn key_for(modifier: &Modifier) -> (key: Key)
    ensures
        key == emulating_key(*modifier),
{
    match modifier {
        Modifier::Shift => key_leftshift(),
        Modifier::Control => key_leftctrl(),
        Modifier::Alt => key_leftalt(),
        Modifier::Windows => key_leftmeta(),
        Modifier::Key(named) => *named,
    }
}

/// Tells whether one of `modifiers` is covered by `key`.
pub fn contains_modifier(modifiers: &Vec<Modifier>, key: Key) -> (contained: bool)
    ensures
        contained == names_key(modifiers@, key),
{
    for i in 0..modifiers.len()
        invariant
            forall|j: int| 0 <= j < i ==> !covers(#[trigger] modifiers@[j], key),
    {
        if covered_by(&modifiers[i], key) {
            return true;
        }
    }
    false
}

} // verus!
