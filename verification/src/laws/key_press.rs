//! A key press is sent under the modifiers that it names, and leaves no trace on the others.

use crate::action::{key_action, key_actions, ActionView};
use crate::event::{KeyEvent, PRESS, RELEASE};
use crate::filters::lemma_filter_holds;
use crate::keymap_action::{KeyPressView, KeymapActionView};
use crate::keys::{
    covers, emulating_key, extra_keys, holds, is_modifier_key, missing_keys, names_key, unheld_by,
    unnamed_by, Key, Modifier,
};
use crate::laws::keymaps::hit;
use crate::laws::modifiers::{is_shift, law_held_and_named};
use crate::model::{
    dispatch_action, key_press_actions, pressed_for, real_modifier, releasable, released_for, tap,
    HandlerView,
};
use crate::outside::{AnswersView, StopView};
use vstd::prelude::*;

verus! {

/// The keys that are down outside after `actions`, where those in `down` are down before.
pub open spec fn down_after(down: Set<Key>, actions: Seq<ActionView>) -> Set<Key>
    decreases actions.len(),
{
    if actions.len() == 0 {
        down
    } else {
        let before = down_after(down, actions.drop_last());
        match actions.last() {
            ActionView::KeyEvent(event) => if event.value == PRESS {
                before.insert(event.code)
            } else if event.value == RELEASE {
                before.remove(event.code)
            } else {
                before
            },
            _ => before,
        }
    }
}

/// Whether the modifiers that are down outside are those that the handler has noted.
pub open spec fn in_step(down: Set<Key>, h: HandlerView) -> bool {
    forall|key: Key|
        is_modifier_key(key) ==> #[trigger] down.contains(key) == h.modifiers.contains(key)
}

/// What is sent for a key press before its key goes down.
pub open spec fn preparation(h: HandlerView, key_press: KeyPressView) -> Seq<ActionView> {
    key_actions(pressed_for(h, key_press.modifiers), PRESS) + key_actions(
        released_for(h, key_press.modifiers),
        RELEASE,
    )
}

proof fn lemma_down_after_add(down: Set<Key>, first: Seq<ActionView>, second: Seq<ActionView>)
    ensures
        down_after(down, first + second) == down_after(down_after(down, first), second),
    decreases second.len(),
{
    if second.len() == 0 {
        assert(first + second =~= first);
    } else {
        assert((first + second).drop_last() =~= first + second.drop_last());
        lemma_down_after_add(down, first, second.drop_last());
    }
}

proof fn lemma_down_after_keys(down: Set<Key>, keys: Seq<Key>, value: i32)
    requires
        value == PRESS || value == RELEASE,
    ensures
        forall|key: Key| #[trigger]
            down_after(down, key_actions(keys, value)).contains(key) == if keys.contains(key) {
                value == PRESS
            } else {
                down.contains(key)
            },
    decreases keys.len(),
{
    let actions = key_actions(keys, value);
    if keys.len() > 0 {
        assert(actions.drop_last() =~= key_actions(keys.drop_last(), value));
        lemma_down_after_keys(down, keys.drop_last(), value);
        let before = down_after(down, key_actions(keys.drop_last(), value));
        assert(actions.last() == key_action(keys.last(), value));
        assert forall|key: Key| #[trigger] down_after(down, actions).contains(key)
            == if keys.contains(key) {
            value == PRESS
        } else {
            down.contains(key)
        } by {
            assert(keys =~= keys.drop_last().push(keys.last()));
            vstd::seq_lib::lemma_seq_contains_after_push(keys.drop_last(), keys.last(), key);
            assert(before.contains(key) == if keys.drop_last().contains(key) {
                value == PRESS
            } else {
                down.contains(key)
            });
        }
    }
}

/// The modifiers that are released for a key press are real modifiers that are down, that the key
/// press does not name and that are not to be kept down.
pub proof fn law_released_modifiers(h: HandlerView, modifiers: Seq<Modifier>, key: Key)
    ensures
        released_for(h, modifiers).contains(key) == (is_modifier_key(key) && h.modifiers.contains(
            key,
        ) && !names_key(modifiers, key) && !h.extra_modifiers.contains(key)),
{
    lemma_filter_holds(h.modifiers, unnamed_by(modifiers), key);
    lemma_filter_holds(extra_keys(h.modifiers, modifiers), releasable(h.extra_modifiers), key);
}

/// The modifiers that are pressed for a key press are real modifiers that stand for one that the
/// key press names and that is not held.
pub proof fn law_pressed_modifiers(h: HandlerView, modifiers: Seq<Modifier>, key: Key)
    ensures
        pressed_for(h, modifiers).contains(key) == (is_modifier_key(key) && exists|i: int|
            0 <= i < modifiers.len() && !holds(h.modifiers, #[trigger] modifiers[i])
                && emulating_key(modifiers[i]) == key),
{
    let missing = missing_keys(h.modifiers, modifiers);
    let unheld = modifiers.filter(unheld_by(h.modifiers));
    lemma_filter_holds(missing, real_modifier(), key);
    if missing.contains(key) {
        let j = choose|j: int| 0 <= j < missing.len() && missing[j] == key;
        lemma_filter_holds(modifiers, unheld_by(h.modifiers), unheld[j]);
        assert(unheld.contains(unheld[j]));
        let i = choose|i: int| 0 <= i < modifiers.len() && modifiers[i] == unheld[j];
        assert(!holds(h.modifiers, modifiers[i]) && emulating_key(modifiers[i]) == key);
    }
    if exists|i: int|
        0 <= i < modifiers.len() && !holds(h.modifiers, #[trigger] modifiers[i]) && emulating_key(
            modifiers[i],
        ) == key {
        let i = choose|i: int|
            0 <= i < modifiers.len() && !holds(h.modifiers, #[trigger] modifiers[i])
                && emulating_key(modifiers[i]) == key;
        lemma_filter_holds(modifiers, unheld_by(h.modifiers), modifiers[i]);
        assert(modifiers.contains(modifiers[i]));
        let j = choose|j: int| 0 <= j < unheld.len() && unheld[j] == modifiers[i];
        assert(missing[j] == key);
    }
}

/// Virtual modifiers make no impact outside: only real modifiers are pressed or released to
/// emulate the modifiers of a key press.
pub proof fn law_only_real_modifiers_are_emulated(h: HandlerView, modifiers: Seq<Modifier>)
    ensures
        forall|key: Key| #[trigger]
            released_for(h, modifiers).contains(key) ==> is_modifier_key(key),
        forall|key: Key| #[trigger]
            pressed_for(h, modifiers).contains(key) ==> is_modifier_key(key),
{
    assert forall|key: Key| #[trigger] released_for(h, modifiers).contains(
        key,
    ) implies is_modifier_key(key) by {
        law_released_modifiers(h, modifiers, key);
    }
    assert forall|key: Key| #[trigger] pressed_for(h, modifiers).contains(
        key,
    ) implies is_modifier_key(key) by {
        law_pressed_modifiers(h, modifiers, key);
    }
}

/// No key is both released and pressed to emulate the modifiers of a key press.
proof fn lemma_pressed_is_up(h: HandlerView, modifiers: Seq<Modifier>, key: Key)
    requires
        pressed_for(h, modifiers).contains(key),
    ensures
        !h.modifiers.contains(key),
{
    law_pressed_modifiers(h, modifiers, key);
    let i = choose|i: int|
        0 <= i < modifiers.len() && !holds(h.modifiers, #[trigger] modifiers[i]) && emulating_key(
            modifiers[i],
        ) == key;
    if h.modifiers.contains(key) {
        let j = choose|j: int| 0 <= j < h.modifiers.len() && h.modifiers[j] == key;
        assert(covers(modifiers[i], h.modifiers[j]));
    }
}

/// Whether `ready` are the keys that are down under the modifiers that `modifiers` name: each real
/// one of them is down, and no other real modifier is, except those in `kept`.
pub open spec fn is_ready(ready: Set<Key>, modifiers: Seq<Modifier>, kept: Set<Key>) -> bool {
    &&& forall|i: int|
        0 <= i < modifiers.len() && is_modifier_key(emulating_key(#[trigger] modifiers[i]))
            ==> exists|key: Key| covers(modifiers[i], key) && #[trigger] ready.contains(key)
    &&& forall|key: Key|
        is_modifier_key(key) && #[trigger] ready.contains(key) ==> names_key(modifiers, key)
            || kept.contains(key)
}

proof fn lemma_preparation(h: HandlerView, key_press: KeyPressView, down: Set<Key>)
    requires
        in_step(down, h),
    ensures
        is_ready(
            down_after(down, preparation(h, key_press)),
            key_press.modifiers,
            h.extra_modifiers,
        ),
{
    let modifiers = key_press.modifiers;
    let pressed = pressed_for(h, modifiers);
    let released = released_for(h, modifiers);
    let ready = down_after(down, preparation(h, key_press));
    let half = down_after(down, key_actions(pressed, PRESS));
    lemma_down_after_add(down, key_actions(pressed, PRESS), key_actions(released, RELEASE));
    lemma_down_after_keys(down, pressed, PRESS);
    lemma_down_after_keys(half, released, RELEASE);
    assert forall|i: int|
        0 <= i < modifiers.len() && is_modifier_key(
            emulating_key(#[trigger] modifiers[i]),
        ) implies exists|key: Key| covers(modifiers[i], key) && #[trigger] ready.contains(key) by {
        if holds(h.modifiers, modifiers[i]) {
            let j = choose|j: int|
                0 <= j < h.modifiers.len() && covers(modifiers[i], #[trigger] h.modifiers[j]);
            let key = h.modifiers[j];
            assert(h.modifiers.contains(key));
            assert(names_key(modifiers, key));
            law_released_modifiers(h, modifiers, key);
            assert(half.contains(key));
            assert(ready.contains(key));
        } else {
            let key = emulating_key(modifiers[i]);
            law_pressed_modifiers(h, modifiers, key);
            assert(pressed.contains(key));
            lemma_pressed_is_up(h, modifiers, key);
            law_released_modifiers(h, modifiers, key);
            assert(half.contains(key));
            assert(ready.contains(key));
        }
    }
    assert forall|key: Key| is_modifier_key(key) && #[trigger] ready.contains(
        key,
    ) implies names_key(modifiers, key) || h.extra_modifiers.contains(key) by {
        law_released_modifiers(h, modifiers, key);
        law_pressed_modifiers(h, modifiers, key);
        assert(half.contains(key));
        if pressed.contains(key) {
            let i = choose|i: int|
                0 <= i < modifiers.len() && !holds(h.modifiers, #[trigger] modifiers[i])
                    && emulating_key(modifiers[i]) == key;
            assert(covers(modifiers[i], key));
        } else {
            assert(down.contains(key));
        }
    }
}

proof fn lemma_restored(
    h: HandlerView,
    key_press: KeyPressView,
    down: Set<Key>,
    key: Key,
)
    requires
        in_step(down, h),
        key != key_press.key,
    ensures
        down_after(down, key_press_actions(h, key_press)).contains(key) == down.contains(key),
{
    let modifiers = key_press.modifiers;
    let pressed = pressed_for(h, modifiers);
    let released = released_for(h, modifiers);
    let before = preparation(h, key_press);
    let hit = tap(key_press.key);
    let wait = seq![ActionView::Delay(h.keypress_delay)];
    let again = key_actions(released, PRESS);
    let undo = key_actions(pressed, RELEASE);

    let half = down_after(down, key_actions(pressed, PRESS));
    let ready = down_after(down, before);
    lemma_down_after_add(down, key_actions(pressed, PRESS), key_actions(released, RELEASE));
    lemma_down_after_keys(down, pressed, PRESS);
    lemma_down_after_keys(half, released, RELEASE);
    assert(ready.contains(key) == if released.contains(key) {
        false
    } else {
        half.contains(key)
    });
    assert(half.contains(key) == if pressed.contains(key) {
        true
    } else {
        down.contains(key)
    });

    let tapped = down_after(ready, hit);
    reveal_with_fuel(down_after, 3);
    assert(hit.drop_last() =~= seq![key_action(key_press.key, PRESS)]);
    assert(hit.drop_last().drop_last() =~= Seq::empty());
    assert(tapped.contains(key) == ready.contains(key));
    lemma_down_after_add(down, before, hit);

    assert(wait.drop_last() =~= Seq::empty());
    lemma_down_after_add(down, before + hit, wait);

    let back = down_after(tapped, again);
    lemma_down_after_add(down, before + hit + wait, again);
    lemma_down_after_keys(tapped, released, PRESS);
    assert(back.contains(key) == if released.contains(key) {
        true
    } else {
        tapped.contains(key)
    });

    lemma_down_after_add(down, before + hit + wait + again, undo);
    lemma_down_after_keys(back, pressed, RELEASE);
    assert(down_after(back, undo).contains(key) == if pressed.contains(key) {
        false
    } else {
        back.contains(key)
    });

    law_released_modifiers(h, modifiers, key);
    law_pressed_modifiers(h, modifiers, key);
    if pressed.contains(key) {
        lemma_pressed_is_up(h, modifiers, key);
    }
    assert(key_press_actions(h, key_press) == before + hit + wait + again + undo);
}

/// What `action`, triggered by `key`, adds to what is sent.
pub open spec fn sent_by(
    h: HandlerView,
    action: KeymapActionView,
    key: Key,
    answers: AnswersView,
) -> Seq<ActionView> {
    dispatch_action(h, action, key, answers).0.actions.skip(h.actions.len() as int)
}

/// The event of each of `keys` with `value`.
pub open spec fn all_go(keys: Seq<Key>, value: i32) -> Seq<ActionView> {
    Seq::new(keys.len(), |i: int| ActionView::KeyEvent(KeyEvent { code: keys[i], value }))
}

/// A key press sends, and does nothing else: the press of each modifier that is missing, the
/// release of each that is extra, the press and the release of its key, a delay, the press of each
/// modifier that was extra and the release of each that was missing.
pub proof fn law_key_press_is_sent(
    h: HandlerView,
    key_press: KeyPressView,
    key: Key,
    answers: AnswersView,
)
    ensures
        ({
            let missing = pressed_for(h, key_press.modifiers);
            let extra = released_for(h, key_press.modifiers);
            let sent = all_go(missing, 1) + all_go(extra, 0) + hit(Some(key_press.key)) + seq![
                ActionView::Delay(h.keypress_delay),
            ] + all_go(extra, 1) + all_go(missing, 0);
            dispatch_action(h, KeymapActionView::KeyPress(key_press), key, answers) == (
                HandlerView { actions: h.actions + sent, ..h },
                Ok::<(), StopView>(()),
            )
        }),
{
    let missing = pressed_for(h, key_press.modifiers);
    let extra = released_for(h, key_press.modifiers);
    assert(key_actions(missing, 1) =~= all_go(missing, 1));
    assert(key_actions(missing, 0) =~= all_go(missing, 0));
    assert(key_actions(extra, 1) =~= all_go(extra, 1));
    assert(key_actions(extra, 0) =~= all_go(extra, 0));
}

proof fn lemma_sent_by(h: HandlerView, key_press: KeyPressView, key: Key, answers: AnswersView)
    ensures
        sent_by(h, KeymapActionView::KeyPress(key_press), key, answers) == key_press_actions(
            h,
            key_press,
        ),
{
    let sent = key_press_actions(h, key_press);
    assert((h.actions + sent).skip(h.actions.len() as int) =~= sent);
}

/// Of what is sent for a key press, its key stands in the middle: at the point where it goes down,
/// each real modifier that the key press names is down, and no other real modifier is, except those
/// that are to be kept down. The key goes up at once, a delay follows, and all else that is sent
/// are presses and releases of real modifiers, as many before as after.
pub proof fn law_key_press_has_its_modifiers(
    h: HandlerView,
    key_press: KeyPressView,
    key: Key,
    answers: AnswersView,
    down: Set<Key>,
)
    requires
        in_step(down, h),
    ensures
        ({
            let sent = sent_by(h, KeymapActionView::KeyPress(key_press), key, answers);
            let n = (sent.len() - 3) / 2;
            &&& sent.len() == 2 * n + 3
            &&& n >= 0
            &&& sent[n] == ActionView::KeyEvent(KeyEvent { code: key_press.key, value: 1 })
            &&& sent[n + 1] == ActionView::KeyEvent(KeyEvent { code: key_press.key, value: 0 })
            &&& sent[n + 2] == ActionView::Delay(h.keypress_delay)
            &&& is_ready(
                down_after(down, sent.take(n)),
                key_press.modifiers,
                h.extra_modifiers,
            )
            &&& forall|i: int|
                0 <= i < n || n + 3 <= i < sent.len() ==> is_of_modifier(#[trigger] sent[i])
        }),
{
    lemma_sent_by(h, key_press, key, answers);
    lemma_preparation(h, key_press, down);
    let sent = sent_by(h, KeymapActionView::KeyPress(key_press), key, answers);
    let missing = pressed_for(h, key_press.modifiers);
    let extra = released_for(h, key_press.modifiers);
    let before = preparation(h, key_press);
    let n = before.len() as int;
    assert(n == missing.len() + extra.len());
    assert(sent.len() == 2 * n + 3);
    assert(sent.take(n) =~= before);
    law_only_real_modifiers_are_emulated(h, key_press.modifiers);
    assert forall|i: int| 0 <= i < n || n + 3 <= i < sent.len() implies is_of_modifier(
        #[trigger] sent[i],
    ) by {
        if i < missing.len() {
            assert(missing.contains(missing[i]));
        } else if i < n {
            assert(extra.contains(extra[i - missing.len()]));
        } else if i < n + 3 + extra.len() {
            assert(extra.contains(extra[i - n - 3]));
        } else {
            assert(missing.contains(missing[i - n - 3 - extra.len()]));
        }
    }
}

/// Whether `action` is an event of a real modifier.
pub open spec fn is_of_modifier(action: ActionView) -> bool {
    action matches ActionView::KeyEvent(event) && is_modifier_key(event.code)
}

/// What is sent for a key press leaves every key as it was but its own: the modifiers that it
/// released are down again, and those that it pressed are up again.
pub proof fn law_key_press_restores_the_modifiers(
    h: HandlerView,
    key_press: KeyPressView,
    key: Key,
    answers: AnswersView,
    down: Set<Key>,
    other: Key,
)
    requires
        in_step(down, h),
        other != key_press.key,
    ensures
        down_after(
            down,
            sent_by(h, KeymapActionView::KeyPress(key_press), key, answers),
        ).contains(other) == down.contains(other),
{
    lemma_sent_by(h, key_press, key, answers);
    lemma_restored(h, key_press, down, other);
}

/// A key press with the mark is the key press itself, with shift named in addition while the mark
/// is set and no shift key is held.
pub proof fn law_mark_adds_shift(
    h: HandlerView,
    key_press: KeyPressView,
    key: Key,
    answers: AnswersView,
)
    ensures
        dispatch_action(h, KeymapActionView::WithMark(key_press), key, answers) == dispatch_action(
            h,
            KeymapActionView::KeyPress(
                if h.mark_set && !(exists|down: Key| #[trigger]
                    h.modifiers.contains(down) && is_shift(down)) {
                    KeyPressView {
                        key: key_press.key,
                        modifiers: key_press.modifiers.push(Modifier::Shift),
                    }
                } else {
                    key_press
                },
            ),
            key,
            answers,
        ),
{
    law_held_and_named(h.modifiers, seq![], Modifier::Shift, key);
    if exists|down: Key| #[trigger] h.modifiers.contains(down) && is_shift(down) {
        let down = choose|down: Key| #[trigger] h.modifiers.contains(down) && is_shift(down);
        assert(h.modifiers.contains(down) && covers(Modifier::Shift, down));
    }
}

/// While the mark is set and no shift key is held, the key of a key press with the mark goes down
/// with a shift key down.
pub proof fn law_mark_goes_with_shift(
    h: HandlerView,
    key_press: KeyPressView,
    key: Key,
    answers: AnswersView,
    down: Set<Key>,
)
    requires
        in_step(down, h),
        h.mark_set,
        !holds(h.modifiers, Modifier::Shift),
    ensures
        ({
            let sent = sent_by(h, KeymapActionView::WithMark(key_press), key, answers);
            let n = (sent.len() - 3) / 2;
            &&& sent[n] == ActionView::KeyEvent(KeyEvent { code: key_press.key, value: 1 })
            &&& exists|shift: Key|
                is_shift(shift) && #[trigger] down_after(down, sent.take(n)).contains(shift)
        }),
{
    let modifiers = key_press.modifiers.push(Modifier::Shift);
    let marked = KeyPressView { key: key_press.key, modifiers };
    law_held_and_named(h.modifiers, seq![], Modifier::Shift, key);
    law_mark_adds_shift(h, key_press, key, answers);
    assert(sent_by(h, KeymapActionView::WithMark(key_press), key, answers) == sent_by(
        h,
        KeymapActionView::KeyPress(marked),
        key,
        answers,
    ));
    law_key_press_has_its_modifiers(h, marked, key, answers, down);
    assert(modifiers[key_press.modifiers.len() as int] == Modifier::Shift);
}

} // verus!
