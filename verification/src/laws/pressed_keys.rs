//! A key that is held stays what it was when it was pressed.

use crate::action::key_action;
use crate::config::{ConfigView, ModmapActionView};
use crate::event::{Event, KeyEvent, Span, PRESS, RELEASE, REPEAT};
use crate::keymap_action::KeymapActionView;
use crate::keys::Key;
use crate::laws::events::all_count_as_held;
use crate::laws::frame::{
    lemma_apply_keymaps, lemma_apply_modmap, lemma_dispatch_actions, lemma_find_modmap,
    lemma_key_events, lemma_modmap_only_learns, lemma_run, same_mapping,
};
use crate::model::{
    apply_keymaps, apply_modmap, dispatch_actions, find_modmap, key_events, on_event, run,
    HandlerView,
};
use crate::multi_purpose::delayed_presses;
use crate::outside::{AnswersView, StepView, StopView};
use vstd::prelude::*;

verus! {

/// An event with what it is handled with.
pub struct Input {
    pub event: Event,
    pub config: ConfigView,
    pub now: Span,
    pub answers: AnswersView,
}

/// The state after `inputs`, one after the other.
pub open spec fn after_all(h: HandlerView, inputs: Seq<Input>) -> HandlerView
    decreases inputs.len(),
{
    if inputs.len() == 0 {
        h
    } else {
        after_all(
            on_event(h, inputs[0].event, inputs[0].config, inputs[0].now, inputs[0].answers).0,
            inputs.drop_first(),
        )
    }
}

/// Whether `event` is not one of `key`.
pub open spec fn is_not_of(event: Event, key: Key) -> bool {
    event matches Event::KeyEvent(key_event) ==> key_event.code != key
}

/// What modmaps make of `value` on `key` at the start of an event.
pub open spec fn modmapped(
    h: HandlerView,
    config: ConfigView,
    key: Key,
    value: i32,
    now: Span,
    answers: AnswersView,
) -> (HandlerView, Result<Seq<(Key, i32)>, StopView>) {
    apply_modmap(
        HandlerView { application_cache: None, ..h.at_rest() },
        config,
        key,
        value,
        now,
        answers,
    )
}

/// Whether modmaps make one key event of `value` on `key`, with the same value. This is so where
/// the key is mapped to a key, to actions on press and release, or not at all.
pub open spec fn stays_single(
    h: HandlerView,
    config: ConfigView,
    key: Key,
    value: i32,
    now: Span,
    answers: AnswersView,
) -> bool {
    modmapped(h, config, key, value, now, answers).1 matches Ok(events) && events.len() == 1
        && events[0].1 == value
}

/// The key that `key` is mapped to where it stays a single one.
pub open spec fn mapped_key(
    h: HandlerView,
    config: ConfigView,
    key: Key,
    value: i32,
    now: Span,
    answers: AnswersView,
) -> Key {
    modmapped(h, config, key, value, now, answers).1->Ok_0[0].0
}

/// A press that is done is remembered, with the key that it was mapped to.
pub proof fn law_press_is_remembered(
    h: HandlerView,
    config: ConfigView,
    key: Key,
    now: Span,
    answers: AnswersView,
)
    requires
        stays_single(h, config, key, PRESS, now, answers),
        on_event(
            h,
            Event::KeyEvent(KeyEvent { code: key, value: PRESS }),
            config,
            now,
            answers,
        ).1 is Done,
    ensures
        ({
            let next = on_event(
                h,
                Event::KeyEvent(KeyEvent { code: key, value: PRESS }),
                config,
                now,
                answers,
            ).0;
            &&& next.pressed_keys.contains_key(key)
            &&& next.pressed_keys[key] == mapped_key(h, config, key, PRESS, now, answers)
        }),
{
    let start = h.at_rest();
    let event = KeyEvent { code: key, value: PRESS };
    let (next, outcome) = key_events(start, event, config, now, answers);
    lemma_key_events(start, event, config, now, answers);
    lemma_apply_keymaps(next, config, outcome->Ok_0, answers);
}

/// What is remembered of a key changes only with an event of this key.
pub proof fn law_other_events_do_not_interfere(
    h: HandlerView,
    event: Event,
    config: ConfigView,
    now: Span,
    answers: AnswersView,
    key: Key,
)
    requires
        is_not_of(event, key),
    ensures
        same_mapping(h, on_event(h, event, config, now, answers).0, key),
{
    lemma_run(h.at_rest(), event, config, now, answers);
    if event is KeyEvent {
        assert(same_mapping(
            h.at_rest(),
            run(h.at_rest(), event, config, now, answers).0,
            key,
        ));
    }
}

/// A key that is remembered is repeated and released as the key that it was mapped to when it was
/// pressed, whatever it is mapped to by now. The release goes out as it is, unless that key is a
/// virtual modifier, and is the end of it.
pub proof fn law_remembered_key_is_sent(
    h: HandlerView,
    config: ConfigView,
    key: Key,
    value: i32,
    now: Span,
    answers: AnswersView,
)
    requires
        h.pressed_keys.contains_key(key),
        value == REPEAT || value == RELEASE,
        stays_single(h, config, key, value, now, answers),
    ensures
        key_events(
            h.at_rest(),
            KeyEvent { code: key, value },
            config,
            now,
            answers,
        ).1 == Ok::<_, StopView>(seq![(h.pressed_keys[key], value)]),
        value == RELEASE && !config.virtual_modifiers.contains(h.pressed_keys[key]) ==> ({
            let (next, step) = on_event(
                h,
                Event::KeyEvent(KeyEvent { code: key, value }),
                config,
                now,
                answers,
            );
            let mapped = modmapped(h, config, key, value, now, answers).0;
            &&& !next.pressed_keys.contains_key(key)
            &&& step == StepView::Done {
                result: Ok(mapped.actions.push(key_action(h.pressed_keys[key], RELEASE))),
                modes: mapped.modes,
            }
        }),
{
    let start = h.at_rest();
    let fresh = HandlerView { application_cache: None, ..start };
    let mapped = modmapped(h, config, key, value, now, answers).0;
    lemma_apply_modmap(fresh, config, key, value, now, answers);
    let sent = h.pressed_keys[key];
    let events = seq![(sent, value)];
    let (next, outcome) = key_events(start, KeyEvent { code: key, value }, config, now, answers);
    assert(outcome == Ok::<_, StopView>(events)) by {
        assert(forall|i: int| 0 <= i < events.len() ==> (#[trigger] events[i]).1 != PRESS);
    }
    reveal_with_fuel(apply_keymaps, 2);
    assert(events.drop_first() =~= Seq::empty());
    assert(mapped.actions + seq![key_action(sent, value)] =~= mapped.actions.push(
        key_action(sent, value),
    ));
}

/// What is remembered of a key stays through any events but its own.
pub proof fn law_memory_lasts(h: HandlerView, inputs: Seq<Input>, key: Key)
    requires
        forall|i: int| 0 <= i < inputs.len() ==> is_not_of((#[trigger] inputs[i]).event, key),
    ensures
        same_mapping(h, after_all(h, inputs), key),
    decreases inputs.len(),
{
    if inputs.len() > 0 {
        let first = inputs[0];
        let next = on_event(h, first.event, first.config, first.now, first.answers).0;
        law_other_events_do_not_interfere(
            h,
            first.event,
            first.config,
            first.now,
            first.answers,
            key,
        );
        assert forall|i: int| 0 <= i < inputs.drop_first().len() implies is_not_of(
            (#[trigger] inputs.drop_first()[i]).event,
            key,
        ) by {
            assert(inputs.drop_first()[i] == inputs[i + 1]);
        }
        law_memory_lasts(next, inputs.drop_first(), key);
    }
}

/// A key that is pressed, held through any events of other keys, and released, is released as the
/// key that it was mapped to when it was pressed, even if the configuration, the application or
/// the mode has changed and it is mapped to another key by then.
pub proof fn law_held_key_keeps_its_mapping(
    h: HandlerView,
    key: Key,
    press: Input,
    between: Seq<Input>,
    release: Input,
)
    requires
        press.event == Event::KeyEvent(KeyEvent { code: key, value: PRESS }),
        release.event == Event::KeyEvent(KeyEvent { code: key, value: RELEASE }),
        forall|i: int| 0 <= i < between.len() ==> is_not_of((#[trigger] between[i]).event, key),
        stays_single(h, press.config, key, PRESS, press.now, press.answers),
        on_event(h, press.event, press.config, press.now, press.answers).1 is Done,
        ({
            let sent = mapped_key(h, press.config, key, PRESS, press.now, press.answers);
            let pressed = on_event(h, press.event, press.config, press.now, press.answers).0;
            let held = after_all(pressed, between);
            &&& stays_single(held, release.config, key, RELEASE, release.now, release.answers)
            &&& !release.config.virtual_modifiers.contains(sent)
        }),
    ensures
        ({
            let sent = mapped_key(h, press.config, key, PRESS, press.now, press.answers);
            let pressed = on_event(h, press.event, press.config, press.now, press.answers).0;
            let held = after_all(pressed, between);
            let mapped = modmapped(
                held,
                release.config,
                key,
                RELEASE,
                release.now,
                release.answers,
            ).0;
            on_event(
                held,
                release.event,
                release.config,
                release.now,
                release.answers,
            ).1 == StepView::Done {
                result: Ok(mapped.actions.push(key_action(sent, RELEASE))),
                modes: mapped.modes,
            }
        }),
{
    let pressed = on_event(h, press.event, press.config, press.now, press.answers).0;
    law_press_is_remembered(h, press.config, key, press.now, press.answers);
    law_memory_lasts(pressed, between, key);
    let held = after_all(pressed, between);
    law_remembered_key_is_sent(
        held,
        release.config,
        key,
        RELEASE,
        release.now,
        release.answers,
    );
}

/// The press and the release of a key that has hooks carry these out first, and a repeat carries out
/// none. Then the key itself follows or, where it was pressed as another one, that one. A press is
/// remembered and a release forgets it, and a press makes the multi-purpose keys count as held.
pub proof fn law_hooks_come_before_the_key(
    h: HandlerView,
    config: ConfigView,
    key: Key,
    value: i32,
    now: Span,
    answers: AnswersView,
    press: Seq<KeymapActionView>,
    release: Seq<KeymapActionView>,
)
    requires
        find_modmap(
            HandlerView { application_cache: None, ..h.at_rest() },
            config.modmap,
            key,
            answers,
        ).1 == Ok::<_, StopView>(Some(ModmapActionView::PressReleaseKey { press, release })),
    ensures
        ({
            let found = find_modmap(
                HandlerView { application_cache: None, ..h.at_rest() },
                config.modmap,
                key,
                answers,
            ).0;
            let hooks = if value == 1 {
                press
            } else if value == 0 {
                release
            } else {
                seq![]
            };
            let sent = if value != 1 && h.pressed_keys.contains_key(key) {
                h.pressed_keys[key]
            } else {
                key
            };
            let (next, events) = key_events(
                h.at_rest(),
                KeyEvent { code: key, value },
                config,
                now,
                answers,
            );
            match dispatch_actions(found, hooks, key, answers) {
                (hooked, Ok(())) => {
                    &&& next == HandlerView {
                        pressed_keys: next.pressed_keys,
                        multi_purpose_keys: next.multi_purpose_keys,
                        ..hooked
                    }
                    &&& events == Ok::<_, StopView>(
                        if value == 1 {
                            delayed_presses(h.multi_purpose_keys).push((sent, value))
                        } else {
                            seq![(sent, value)]
                        },
                    )
                    &&& next.pressed_keys == if value == 1 {
                        h.pressed_keys.insert(key, key)
                    } else if value == 0 {
                        h.pressed_keys.remove(key)
                    } else {
                        h.pressed_keys
                    }
                    &&& if value == 1 {
                        all_count_as_held(h.multi_purpose_keys, next.multi_purpose_keys)
                    } else {
                        next.multi_purpose_keys == h.multi_purpose_keys
                    }
                },
                (hooked, Err(stop)) => (next, events) == (hooked, Err::<Seq<(Key, i32)>, _>(stop)),
            }
        }),
{
    let fresh = HandlerView { application_cache: None, ..h.at_rest() };
    let found = find_modmap(fresh, config.modmap, key, answers).0;
    lemma_modmap_only_learns(fresh, config.modmap, key, answers);
    lemma_find_modmap(fresh, config.modmap, key, answers);
    let hooks = if value == PRESS {
        press
    } else if value == RELEASE {
        release
    } else {
        seq![]
    };
    lemma_dispatch_actions(found, hooks, key, answers);
    let events = seq![(key, value)];
    assert(events[0].1 == value);
    assert(delayed_presses(h.multi_purpose_keys) + events =~= delayed_presses(
        h.multi_purpose_keys,
    ).push((key, value)));
}

} // verus!
