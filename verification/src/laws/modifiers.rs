//! Which keys are modifiers, and how those that are held differ from those that are named.

use crate::filters::{lemma_filter_holds, lemma_none_passes};
use crate::key_set::other_than;
use crate::keys::{
    covers, emulating_key, extra_keys, holds, is_modifier_key, missing_keys, names_key, unheld_by,
    unnamed_by, Key, Modifier,
};
use crate::model::{
    fits, pressed_for, real_modifier, releasable, released_for, update_modifier, HandlerView,
};
use vstd::prelude::*;

verus! {

/// Whether `key` is the left or the right shift key.
pub open spec fn is_shift(key: Key) -> bool {
    key == 42 || key == 54
}

/// Whether `key` is the left or the right control key.
pub open spec fn is_control(key: Key) -> bool {
    key == 29 || key == 97
}

/// Whether `key` is the left or the right alt key.
pub open spec fn is_alt(key: Key) -> bool {
    key == 56 || key == 100
}

/// Whether `key` is the left or the right meta key.
pub open spec fn is_meta(key: Key) -> bool {
    key == 125 || key == 126
}

/// The real modifiers are the shift, control, alt and meta keys, by their codes. A modifier that is
/// named is covered by both keys of its kind and emulated by the left one, and a named key is
/// covered and emulated by itself.
pub proof fn law_modifier_keys(key: Key, named: Key)
    ensures
        is_modifier_key(key) == (is_shift(key) || is_control(key) || is_alt(key) || is_meta(key)),
        covers(Modifier::Shift, key) == is_shift(key),
        covers(Modifier::Control, key) == is_control(key),
        covers(Modifier::Alt, key) == is_alt(key),
        covers(Modifier::Windows, key) == is_meta(key),
        covers(Modifier::Key(named), key) == (key == named),
        emulating_key(Modifier::Shift) == 42,
        emulating_key(Modifier::Control) == 29,
        emulating_key(Modifier::Alt) == 56,
        emulating_key(Modifier::Windows) == 125,
        emulating_key(Modifier::Key(named)) == named,
{
}

/// A modifier is held if and only if some key that is down covers it, and a key is named if and
/// only if it covers some modifier that is named.
pub proof fn law_held_and_named(
    pressed: Seq<Key>,
    modifiers: Seq<Modifier>,
    modifier: Modifier,
    key: Key,
)
    ensures
        holds(pressed, modifier) == exists|down: Key| #[trigger]
            pressed.contains(down) && covers(modifier, down),
        names_key(modifiers, key) == exists|named: Modifier| #[trigger]
            modifiers.contains(named) && covers(named, key),
{
    if holds(pressed, modifier) {
        let i = choose|i: int| 0 <= i < pressed.len() && covers(modifier, #[trigger] pressed[i]);
        assert(pressed.contains(pressed[i]) && covers(modifier, pressed[i]));
    }
    if exists|down: Key| #[trigger] pressed.contains(down) && covers(modifier, down) {
        let down = choose|down: Key| #[trigger] pressed.contains(down) && covers(modifier, down);
        let i = choose|i: int| 0 <= i < pressed.len() && pressed[i] == down;
        assert(covers(modifier, pressed[i]));
    }
    if names_key(modifiers, key) {
        let i = choose|i: int| 0 <= i < modifiers.len() && covers(#[trigger] modifiers[i], key);
        assert(modifiers.contains(modifiers[i]) && covers(modifiers[i], key));
    }
    if exists|named: Modifier| #[trigger] modifiers.contains(named) && covers(named, key) {
        let named = choose|named: Modifier| #[trigger]
            modifiers.contains(named) && covers(named, key);
        let i = choose|i: int| 0 <= i < modifiers.len() && modifiers[i] == named;
        assert(covers(modifiers[i], key));
    }
}

/// Whether each of `modifiers` is held.
pub open spec fn all_are_held(pressed: Seq<Key>, modifiers: Seq<Modifier>) -> bool {
    forall|named: Modifier| #[trigger] modifiers.contains(named) ==> holds(pressed, named)
}

/// Whether each of the keys in `pressed` is named.
pub open spec fn all_are_named(pressed: Seq<Key>, modifiers: Seq<Modifier>) -> bool {
    forall|down: Key| #[trigger] pressed.contains(down) ==> names_key(modifiers, down)
}

/// Modifiers fit if and only if each one that is named is held and, where the match has to be
/// exact, each key that is held is named.
pub proof fn law_fitting_modifiers(pressed: Seq<Key>, modifiers: Seq<Modifier>, exact: bool)
    ensures
        fits(pressed, modifiers, exact) == (all_are_held(pressed, modifiers) && (exact
            ==> all_are_named(pressed, modifiers))),
{
    law_difference_of_modifiers(pressed, modifiers);
    assert(all_are_held(pressed, modifiers) == forall|i: int|
        0 <= i < modifiers.len() ==> holds(pressed, #[trigger] modifiers[i])) by {
        if all_are_held(pressed, modifiers) {
            assert forall|i: int| 0 <= i < modifiers.len() implies holds(
                pressed,
                #[trigger] modifiers[i],
            ) by {
                assert(modifiers.contains(modifiers[i]));
            }
        }
    }
    assert(all_are_named(pressed, modifiers) == forall|i: int|
        0 <= i < pressed.len() ==> names_key(modifiers, #[trigger] pressed[i])) by {
        if all_are_named(pressed, modifiers) {
            assert forall|i: int| 0 <= i < pressed.len() implies names_key(
                modifiers,
                #[trigger] pressed[i],
            ) by {
                assert(pressed.contains(pressed[i]));
            }
        }
    }
}

/// Which keys are extra and which are missing is settled key by key and modifier by modifier, in
/// their order: a key that is held is extra unless it is named, and for a modifier that is named
/// its emulating key is missing unless it is held. Of these, the real modifiers are released,
/// unless they are kept, and pressed to emulate a key press.
pub proof fn law_difference_goes_one_by_one(
    h: HandlerView,
    modifiers: Seq<Modifier>,
    modifier: Modifier,
    key: Key,
)
    ensures
        extra_keys(Seq::empty(), modifiers).len() == 0,
        missing_keys(h.modifiers, Seq::empty()).len() == 0,
        released_for(HandlerView { modifiers: Seq::empty(), ..h }, modifiers).len() == 0,
        pressed_for(h, Seq::empty()).len() == 0,
        extra_keys(h.modifiers.push(key), modifiers) == extra_keys(h.modifiers, modifiers)
            + if names_key(modifiers, key) {
            seq![]
        } else {
            seq![key]
        },
        missing_keys(h.modifiers, modifiers.push(modifier)) == missing_keys(h.modifiers, modifiers)
            + if holds(h.modifiers, modifier) {
            seq![]
        } else {
            seq![emulating_key(modifier)]
        },
        released_for(HandlerView { modifiers: h.modifiers.push(key), ..h }, modifiers)
            == released_for(h, modifiers) + if !names_key(modifiers, key) && is_modifier_key(key)
            && !h.extra_modifiers.contains(key) {
            seq![key]
        } else {
            seq![]
        },
        pressed_for(h, modifiers.push(modifier)) == pressed_for(h, modifiers) + if !holds(
            h.modifiers,
            modifier,
        ) && is_modifier_key(emulating_key(modifier)) {
            seq![emulating_key(modifier)]
        } else {
            seq![]
        },
{
    let extra = extra_keys(h.modifiers, modifiers);
    let missing = missing_keys(h.modifiers, modifiers);
    let emulating = emulating_key(modifier);
    assert(extra_keys(Seq::empty(), modifiers).len() == 0 && missing_keys(
        h.modifiers,
        Seq::empty(),
    ).len() == 0 && Seq::<Key>::empty().filter(releasable(h.extra_modifiers)).len() == 0
        && Seq::<Key>::empty().filter(real_modifier()).len() == 0) by {
        reveal(Seq::filter);
    }
    assert(extra_keys(Seq::empty(), modifiers) =~= Seq::empty());
    assert(missing_keys(h.modifiers, Seq::empty()) =~= Seq::empty());
    h.modifiers.lemma_filter_push(key, unnamed_by(modifiers));
    modifiers.lemma_filter_push(modifier, unheld_by(h.modifiers));
    assert(extra_keys(h.modifiers.push(key), modifiers) =~= if names_key(modifiers, key) {
        extra
    } else {
        extra.push(key)
    });
    assert(missing_keys(h.modifiers, modifiers.push(modifier)) =~= if holds(
        h.modifiers,
        modifier,
    ) {
        missing
    } else {
        missing.push(emulating)
    });
    extra.lemma_filter_push(key, releasable(h.extra_modifiers));
    missing.lemma_filter_push(emulating, real_modifier());
}

/// A modifier is noted as held from its press to its release: a press adds it, a release takes it
/// out, and nothing else, a repeat in particular, changes what is noted. What is noted of others
/// stays, and no key is noted twice.
pub proof fn law_noted_modifiers(h: HandlerView, key: Key, value: i32, other: Key)
    ensures
        ({
            let next = update_modifier(h, key, value);
            &&& next == HandlerView { modifiers: next.modifiers, ..h }
            &&& next.modifiers.contains(key) == if value == 1 {
                true
            } else if value == 0 {
                false
            } else {
                h.modifiers.contains(key)
            }
            &&& value != 0 && value != 1 ==> next == h
            &&& other != key ==> next.modifiers.contains(other) == h.modifiers.contains(other)
            &&& h.modifiers.no_duplicates() ==> next.modifiers.no_duplicates()
        }),
{
    let test = other_than(key);
    lemma_filter_holds(h.modifiers, test, key);
    lemma_filter_holds(h.modifiers, test, other);
    vstd::seq_lib::lemma_seq_contains_after_push(h.modifiers, key, key);
    vstd::seq_lib::lemma_seq_contains_after_push(h.modifiers, key, other);
    if h.modifiers.no_duplicates() {
        lemma_filter_no_duplicates(h.modifiers, test);
    }
}

pub(crate) proof fn lemma_filter_no_duplicates(keys: Seq<Key>, test: spec_fn(Key) -> bool)
    requires
        keys.no_duplicates(),
    ensures
        keys.filter(test).no_duplicates(),
    decreases keys.len(),
{
    reveal(Seq::filter);
    if keys.len() > 0 {
        let rest = keys.drop_last();
        lemma_filter_no_duplicates(rest, test);
        assert forall|i: int| 0 <= i < rest.filter(test).len() implies #[trigger] rest.filter(
            test,
        )[i] != keys.last() by {
            assert(rest.filter(test).contains(rest.filter(test)[i]));
            rest.lemma_filter_contains_rev(test, rest.filter(test)[i]);
        }
    }
}

/// A modifier is held if and only if a key that is down is one that it names: the left or the
/// right one for shift, control, alt and meta, and the key itself where it names a single key.
pub proof fn law_modifier_is_held_by_a_key_that_it_names(pressed: Seq<Key>, modifier: Modifier)
    ensures
        holds(pressed, modifier) == exists|key: Key|
            pressed.contains(key) && #[trigger] names_key(seq![modifier], key),
        forall|key: Key| #[trigger]
            names_key(seq![modifier], key) == covers(modifier, key),
        forall|named: Key, key: Key| #[trigger]
            names_key(seq![Modifier::Key(named)], key) == (named == key),
{
    assert forall|any: Modifier, key: Key| #[trigger]
        names_key(seq![any], key) == covers(any, key) by {
        assert(seq![any][0] == any);
    }
    if holds(pressed, modifier) {
        let i = choose|i: int| 0 <= i < pressed.len() && covers(modifier, #[trigger] pressed[i]);
        assert(pressed.contains(pressed[i]) && names_key(seq![modifier], pressed[i]));
    }
    if exists|key: Key| pressed.contains(key) && #[trigger] names_key(seq![modifier], key) {
        let key = choose|key: Key|
            pressed.contains(key) && #[trigger] names_key(seq![modifier], key);
        let i = choose|i: int| 0 <= i < pressed.len() && pressed[i] == key;
        assert(covers(modifier, pressed[i]));
    }
}

/// The keys that are extra are those that are held and not named. The keys that are missing are not
/// held, so that no key is both.
/// No key is missing if and only if every modifier that is named is held, and no key is extra if
/// and only if every key that is held is named.
pub proof fn law_difference_of_modifiers(pressed: Seq<Key>, modifiers: Seq<Modifier>)
    ensures
        forall|key: Key| #[trigger]
            extra_keys(pressed, modifiers).contains(key) == (pressed.contains(key) && !names_key(
                modifiers,
                key,
            )),
        forall|key: Key| #[trigger]
            missing_keys(pressed, modifiers).contains(key) ==> !pressed.contains(key),
        missing_keys(pressed, modifiers).len() == 0 <==> forall|i: int|
            0 <= i < modifiers.len() ==> holds(pressed, #[trigger] modifiers[i]),
        extra_keys(pressed, modifiers).len() == 0 <==> forall|i: int|
            0 <= i < pressed.len() ==> names_key(modifiers, #[trigger] pressed[i]),
{
    let extra = extra_keys(pressed, modifiers);
    let missing = missing_keys(pressed, modifiers);
    let unheld = modifiers.filter(unheld_by(pressed));
    assert forall|key: Key| #[trigger]
        extra.contains(key) == (pressed.contains(key) && !names_key(modifiers, key)) by {
        lemma_filter_holds(pressed, unnamed_by(modifiers), key);
    }
    assert forall|key: Key| #[trigger] missing.contains(key) implies !pressed.contains(key) by {
        let j = choose|j: int| 0 <= j < missing.len() && missing[j] == key;
        modifiers.lemma_filter_pred(unheld_by(pressed), j);
        assert(emulating_key(unheld[j]) == key);
        if pressed.contains(key) {
            let i = choose|i: int| 0 <= i < pressed.len() && pressed[i] == key;
            assert(covers(unheld[j], pressed[i]));
        }
    }
    if missing.len() == 0 {
        assert forall|i: int| 0 <= i < modifiers.len() implies holds(
            pressed,
            #[trigger] modifiers[i],
        ) by {
            lemma_filter_holds(modifiers, unheld_by(pressed), modifiers[i]);
            assert(modifiers.contains(modifiers[i]));
        }
    }
    if forall|i: int| 0 <= i < modifiers.len() ==> holds(pressed, #[trigger] modifiers[i]) {
        lemma_none_passes(modifiers, unheld_by(pressed));
    }
    if extra.len() == 0 {
        assert forall|i: int| 0 <= i < pressed.len() implies names_key(
            modifiers,
            #[trigger] pressed[i],
        ) by {
            lemma_filter_holds(pressed, unnamed_by(modifiers), pressed[i]);
            assert(pressed.contains(pressed[i]));
        }
    }
    if forall|i: int| 0 <= i < pressed.len() ==> names_key(modifiers, #[trigger] pressed[i]) {
        lemma_none_passes(pressed, unnamed_by(modifiers));
    }
}

} // verus!
