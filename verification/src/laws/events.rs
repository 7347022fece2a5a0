//! What a key event comes to, step by step.

use crate::action::ActionView;
use crate::config::{ConfigView, ModmapActionView};
use crate::event::{Event, KeyEvent, Span, PRESS, RELEASE, REPEAT};
use crate::keys::{is_modifier_key, Key};
use crate::laws::frame::{
    in_event, lemma_apply_keymap, lemma_dispatch_actions, lemma_find_keymap, lemma_key_events,
    lemma_modmap_only_learns,
};
use crate::laws::keymaps::{application_is_known, is_first_modmap, law_first_modmap_is_taken};
use crate::laws::modifiers::law_noted_modifiers;
use crate::model::{
    apply_keymap, apply_keymaps, dispatch_actions, find_keymap, find_modmap, has_press, key_events,
    on_event, unexpected, HandlerView,
};
use crate::multi_purpose::{delayed_presses, is_delayed, state_of, MultiPurposeKeyState};
use crate::outside::{AnswersView, StepView, StopView};
use std::time::Duration;
use vstd::prelude::*;

verus! {

/// The values of key events.
pub proof fn law_values()
    ensures
        RELEASE == 0,
        PRESS == 1,
        REPEAT == 2,
{
}

/// A handler starts with nothing down, nothing pending and nothing to hand out, in its mode.
pub proof fn law_handler_starts_empty(mode: Seq<char>, keypress_delay: Duration)
    ensures
        ({
            let h = HandlerView::initial(mode, keypress_delay);
            &&& h.mode == mode
            &&& h.keypress_delay == keypress_delay
            &&& h.modifiers.len() == 0
            &&& forall|key: Key| !(#[trigger] h.extra_modifiers.contains(key))
            &&& forall|key: Key| !(#[trigger] h.pressed_keys.contains_key(key))
            &&& h.application_cache is None
            &&& h.multi_purpose_keys.len() == 0
            &&& h.override_remap is None
            &&& !h.override_remap_exact_match
            &&& h.override_timeout_key is None
            &&& !h.mark_set
            &&& !h.escape_next_key
            &&& h.actions.len() == 0
            &&& h.timer_calls == 0
            &&& h.modes.len() == 0
        }),
{
}

// Keymaps

/// A key event that goes out as it came.
pub open spec fn goes_out(h: HandlerView, key: Key, value: i32) -> HandlerView {
    HandlerView {
        actions: h.actions.push(ActionView::KeyEvent(KeyEvent { code: key, value })),
        ..h
    }
}

/// The event of a modifier changes what is noted of this modifier and nothing else: after its press
/// it is noted as held, after its release it is not, and any other event, a repeat in particular,
/// leaves what is noted as it is. A real modifier goes out as it came, and a virtual one does not
/// go out.
pub proof fn law_event_of_a_modifier(
    h: HandlerView,
    config: ConfigView,
    key: Key,
    value: i32,
    answers: AnswersView,
    other: Key,
)
    requires
        config.virtual_modifiers.contains(key) || is_modifier_key(key),
    ensures
        ({
            let (next, outcome) = apply_keymap(h, config, key, value, answers);
            let sent = if config.virtual_modifiers.contains(key) {
                h
            } else {
                goes_out(h, key, value)
            };
            &&& outcome is Ok
            &&& next == HandlerView { modifiers: next.modifiers, ..sent }
            &&& value == 1 ==> next.modifiers.contains(key)
            &&& value == 0 ==> !next.modifiers.contains(key)
            &&& value != 0 && value != 1 ==> next.modifiers == h.modifiers
            &&& other != key ==> next.modifiers.contains(other) == h.modifiers.contains(other)
            &&& h.modifiers.no_duplicates() ==> next.modifiers.no_duplicates()
        }),
{
    law_noted_modifiers(h, key, value, other);
    lemma_push(h, key, value);
}

proof fn lemma_push(h: HandlerView, key: Key, value: i32)
    ensures
        h.actions + seq![ActionView::KeyEvent(KeyEvent { code: key, value })] == h.actions.push(
            ActionView::KeyEvent(KeyEvent { code: key, value }),
        ),
{
    assert(h.actions + seq![ActionView::KeyEvent(KeyEvent { code: key, value })]
        =~= h.actions.push(ActionView::KeyEvent(KeyEvent { code: key, value })));
}

/// The event of a key that is no modifier: only a press and a repeat are looked up. One that is
/// escaped goes out as it came and uses the escape up. Otherwise it goes out as it came if there
/// are no actions for it; if there are, these are carried out in its place. Any other event goes
/// out as it came.
pub proof fn law_event_of_a_key(
    h: HandlerView,
    config: ConfigView,
    key: Key,
    value: i32,
    answers: AnswersView,
)
    requires
        !config.virtual_modifiers.contains(key),
        !is_modifier_key(key),
    ensures
        value != 1 && value != 2 ==> apply_keymap(h, config, key, value, answers) == (
            goes_out(h, key, value),
            Ok::<(), StopView>(()),
        ),
        (value == 1 || value == 2) && h.escape_next_key ==> apply_keymap(
            h,
            config,
            key,
            value,
            answers,
        ) == (
            HandlerView { escape_next_key: false, ..goes_out(h, key, value) },
            Ok::<(), StopView>(()),
        ),
        (value == 1 || value == 2) && !h.escape_next_key ==> apply_keymap(
            h,
            config,
            key,
            value,
            answers,
        ) == match find_keymap(h, config, key, answers) {
            (found, Ok(Some(actions))) => dispatch_actions(found, actions, key, answers),
            (found, Ok(None)) => (goes_out(found, key, value), Ok(())),
            (found, Err(stop)) => (found, Err(stop)),
        },
{
    lemma_push(h, key, value);
    lemma_push(find_keymap(h, config, key, answers).0, key, value);
}

/// Key events are dealt with one after the other: none of them is nothing, and some and then others
/// are the others from where the first ones got to, unless one of these was stopped.
pub proof fn law_events_go_one_after_the_other(
    h: HandlerView,
    config: ConfigView,
    first: Seq<(Key, i32)>,
    key: Key,
    value: i32,
    second: Seq<(Key, i32)>,
    answers: AnswersView,
)
    ensures
        apply_keymaps(h, config, Seq::empty(), answers) == (h, Ok::<(), StopView>(())),
        apply_keymaps(h, config, seq![(key, value)], answers) == apply_keymap(
            h,
            config,
            key,
            value,
            answers,
        ),
        apply_keymaps(h, config, first + second, answers) == match apply_keymaps(
            h,
            config,
            first,
            answers,
        ) {
            (next, Ok(())) => apply_keymaps(next, config, second, answers),
            stopped => stopped,
        },
    decreases first.len(),
{
    reveal_with_fuel(apply_keymaps, 2);
    let single = seq![(key, value)];
    assert(single[0] == (key, value));
    assert(single.drop_first() =~= Seq::empty());
    let (next, outcome) = apply_keymap(h, config, key, value, answers);
    assert(apply_keymaps(next, config, single.drop_first(), answers) == (
        next,
        Ok::<(), StopView>(()),
    ));
    assert(apply_keymaps(h, config, single, answers) == (next, outcome)) by {
        match outcome {
            Ok(unit) => {
                assert(unit == ());
                assert(apply_keymaps(h, config, single, answers).1 == Ok::<(), StopView>(()));
            },
            Err(stop) => {
                assert(apply_keymaps(h, config, single, answers).1 == Err::<(), _>(stop));
            },
        }
    }
    if first.len() == 0 {
        assert(first + second =~= second);
    } else {
        assert((first + second).drop_first() =~= first.drop_first() + second);
        let (next, outcome) = apply_keymap(h, config, first[0].0, first[0].1, answers);
        if outcome is Ok {
            law_events_go_one_after_the_other(
                next,
                config,
                first.drop_first(),
                key,
                value,
                second,
                answers,
            );
        }
    }
}

// Modmaps

/// The state in which the modmaps are searched: nothing is left of the event before, the active
/// application included.
pub open spec fn fresh(h: HandlerView) -> HandlerView {
    HandlerView { application_cache: None, timer_calls: 0, modes: Seq::empty(), ..h }
}

/// The presses that are set free by a press come in the order of the keys, one for each key whose
/// first press is delayed: the press of the key that it is when held.
pub proof fn law_delayed_presses(
    entries: Seq<(Key, MultiPurposeKeyState)>,
    key: Key,
    state: MultiPurposeKeyState,
)
    ensures
        delayed_presses(Seq::empty()).len() == 0,
        delayed_presses(entries.push((key, state))) == delayed_presses(entries)
            + if state.alone_timeout_at is Some {
            seq![(state.held, 1i32)]
        } else {
            seq![]
        },
{
    assert(delayed_presses(Seq::empty()).len() == 0) by {
        reveal(Seq::filter);
    }
    entries.lemma_filter_push((key, state), is_delayed());
    assert(delayed_presses(entries.push((key, state))) =~= delayed_presses(entries)
        + if state.alone_timeout_at is Some {
        seq![(state.held, 1i32)]
    } else {
        seq![]
    });
}

/// The state of a key is the one that is listed for it, if one is.
pub proof fn law_state_of_a_key(entries: Seq<(Key, MultiPurposeKeyState)>, key: Key)
    ensures
        match state_of(entries, key) {
            Some(state) => entries.contains((key, state)),
            None => forall|i: int| 0 <= i < entries.len() ==> (#[trigger] entries[i]).0 != key,
        },
    decreases entries.len(),
{
    if entries.len() > 0 && entries[0].0 != key {
        let rest = entries.drop_first();
        law_state_of_a_key(rest, key);
        match state_of(rest, key) {
            Some(state) => {
                let i = choose|i: int| 0 <= i < rest.len() && rest[i] == (key, state);
                assert(entries[i + 1] == (key, state));
            },
            None => {
                assert forall|i: int| 0 <= i < entries.len() implies (#[trigger] entries[i]).0
                    != key by {
                    if i > 0 {
                        assert(rest[i - 1] == entries[i]);
                    }
                }
            },
        }
    }
}

/// Whether `next` lists the keys of `entries` with the keys that they are, all counting as held.
pub open spec fn all_count_as_held(
    entries: Seq<(Key, MultiPurposeKeyState)>,
    next: Seq<(Key, MultiPurposeKeyState)>,
) -> bool {
    &&& next.len() == entries.len()
    &&& forall|i: int|
        0 <= i < entries.len() ==> {
            &&& (#[trigger] next[i]).0 == entries[i].0
            &&& next[i].1.held == entries[i].1.held
            &&& next[i].1.alone == entries[i].1.alone
            &&& next[i].1.alone_timeout_at is None
        }
}

/// A modmap that cannot be decided stops the event with what it asks for.
pub proof fn law_undecided_modmap_stops_the_event(
    h: HandlerView,
    config: ConfigView,
    event: KeyEvent,
    now: Span,
    answers: AnswersView,
)
    ensures
        find_modmap(fresh(h), config.modmap, event.code, answers).1 matches Err(stop)
            ==> key_events(h.at_rest(), event, config, now, answers).1 == Err::<
            Seq<(Key, i32)>,
            _,
        >(stop),
{
    assert(fresh(h) == (HandlerView { application_cache: None, ..h.at_rest() }));
}

/// A key that is mapped to a key, or not mapped at all, comes to one key event with the same value.
/// On a press it is that of the key that it is mapped to, which is remembered, after the presses of
/// the multi-purpose keys that this sets free; these count as held then. On anything else it is
/// that of the key that was remembered, if one was, and a release forgets it.
pub proof fn law_mapped_key_stays_one_key(
    h: HandlerView,
    config: ConfigView,
    key: Key,
    value: i32,
    now: Span,
    answers: AnswersView,
    mapped: Key,
)
    requires
        ({
            let found = find_modmap(fresh(h), config.modmap, key, answers).1;
            ||| found == Ok::<_, StopView>(Some(ModmapActionView::Key(mapped)))
            ||| found == Ok::<Option<ModmapActionView>, StopView>(None) && mapped == key
        }),
    ensures
        ({
            let (next, events) = key_events(
                h.at_rest(),
                KeyEvent { code: key, value },
                config,
                now,
                answers,
            );
            let found = find_modmap(fresh(h), config.modmap, key, answers).0;
            &&& next == HandlerView {
                pressed_keys: next.pressed_keys,
                multi_purpose_keys: next.multi_purpose_keys,
                ..found
            }
            &&& value == 1 ==> {
                &&& events == Ok::<_, StopView>(
                    delayed_presses(h.multi_purpose_keys).push((mapped, value)),
                )
                &&& next.pressed_keys == h.pressed_keys.insert(key, mapped)
                &&& all_count_as_held(h.multi_purpose_keys, next.multi_purpose_keys)
            }
            &&& value != 1 ==> {
                &&& events == Ok::<_, StopView>(
                    seq![
                        (
                            if h.pressed_keys.contains_key(key) {
                                h.pressed_keys[key]
                            } else {
                                mapped
                            },
                            value,
                        ),
                    ],
                )
                &&& next.pressed_keys == if value == 0 {
                    h.pressed_keys.remove(key)
                } else {
                    h.pressed_keys
                }
                &&& next.multi_purpose_keys == h.multi_purpose_keys
            }
        }),
{
    let start = HandlerView { application_cache: None, ..h.at_rest() };
    assert(fresh(h) == start);
    lemma_modmap_only_learns(start, config.modmap, key, answers);
    let single = seq![(mapped, value)];
    assert(single[0].1 == value);
    if value == 1 {
        assert(has_press(single));
        assert(delayed_presses(h.multi_purpose_keys) + single =~= delayed_presses(
            h.multi_purpose_keys,
        ).push((mapped, value)));
    }
}

// Events

/// A key event is turned into key events by the modmaps, and these are dealt with one after the
/// other. What is sent is handed out unless the timer failed, and then it waits. Where an answer is
/// missing, the state stays as it was.
pub proof fn law_key_event_is_handled(
    h: HandlerView,
    config: ConfigView,
    event: KeyEvent,
    now: Span,
    answers: AnswersView,
)
    ensures
        ({
            let outcome = match key_events(h.at_rest(), event, config, now, answers) {
                (mapped, Ok(events)) => apply_keymaps(mapped, config, events, answers),
                (mapped, Err(stop)) => (mapped, Err(stop)),
            };
            let left = HandlerView { timer_calls: 0, modes: Seq::empty(), ..outcome.0 };
            on_event(h, Event::KeyEvent(event), config, now, answers) == match outcome.1 {
                Ok(()) => (
                    HandlerView { actions: Seq::empty(), ..left },
                    StepView::Done { result: Ok(outcome.0.actions), modes: outcome.0.modes },
                ),
                Err(StopView::Failed(error)) => (
                    left,
                    StepView::Done { result: Err(error), modes: outcome.0.modes },
                ),
                Err(StopView::Ask(request)) => (h, StepView::Ask(request)),
            }
        }),
{
}

/// The active application is found out anew for each key event: what it was in the event before
/// makes no difference.
pub proof fn law_application_is_found_out_anew(
    h: HandlerView,
    config: ConfigView,
    event: KeyEvent,
    now: Span,
    answers: AnswersView,
    before: Option<Seq<char>>,
)
    ensures
        ({
            let other = HandlerView { application_cache: before, ..h };
            let (next, step) = on_event(h, Event::KeyEvent(event), config, now, answers);
            let (other_next, other_step) = on_event(
                other,
                Event::KeyEvent(event),
                config,
                now,
                answers,
            );
            &&& other_step == step
            &&& step is Done ==> other_next == next
        }),
{
    let other = HandlerView { application_cache: before, ..h };
    assert(HandlerView { application_cache: None, ..other.at_rest() } == HandlerView {
        application_cache: None,
        ..h.at_rest()
    });
}

/// An event is unexpected if and only if it has a value that no key has and the modmap that is
/// taken for its key maps it to a multi-purpose key. It is not while that is not decided.
pub proof fn law_unexpected_events(
    h: HandlerView,
    config: ConfigView,
    event: KeyEvent,
    answers: AnswersView,
)
    ensures
        !unexpected(h, Event::OverrideTimeout, config, answers),
        find_modmap(fresh(h), config.modmap, event.code, answers).1 is Err ==> !unexpected(
            h,
            Event::KeyEvent(event),
            config,
            answers,
        ),
        application_is_known(answers) ==> unexpected(h, Event::KeyEvent(event), config, answers)
            == (event.value != 0 && event.value != 1 && event.value != 2 && exists|i: int|
            #[trigger]
            is_first_modmap(config.modmap, event.code, answers, i)
                && config.modmap[i].remap[event.code] is MultiPurposeKey),
{
    let start = HandlerView { application_cache: None, ..h.at_rest() };
    assert(fresh(h) == start);
    if application_is_known(answers) {
        law_first_modmap_is_taken(start, config.modmap, event.code, answers);
    }
    assert forall|i: int, j: int|
        is_first_modmap(config.modmap, event.code, answers, i) && is_first_modmap(
            config.modmap,
            event.code,
            answers,
            j,
        ) implies i == j by {
        assert(!(i < j) && !(j < i));
    }
}

proof fn lemma_apply_keymaps_changes_modifiers(
    h: HandlerView,
    config: ConfigView,
    events: Seq<(Key, i32)>,
    answers: AnswersView,
    key: Key,
)
    requires
        in_event(h, answers),
        apply_keymaps(h, config, events, answers).0.modifiers.contains(key)
            != h.modifiers.contains(key),
    ensures
        events.contains((key, if h.modifiers.contains(key) { 0i32 } else { 1i32 })),
    decreases events.len(),
{
    if events.len() > 0 {
        let (event_key, value) = events[0];
        lemma_find_keymap(h, config, event_key, answers);
        let (found, outcome) = find_keymap(h, config, event_key, answers);
        if let Ok(Some(actions)) = outcome {
            lemma_dispatch_actions(found, actions, event_key, answers);
        }
        lemma_apply_keymap(h, config, event_key, value, answers);
        let (next, outcome) = apply_keymap(h, config, event_key, value, answers);
        law_noted_modifiers(h, event_key, value, key);
        if next.modifiers.contains(key) == h.modifiers.contains(key) {
            if outcome is Ok {
                let rest = events.drop_first();
                lemma_apply_keymaps_changes_modifiers(next, config, rest, answers, key);
                let wanted = (key, if h.modifiers.contains(key) { 0i32 } else { 1i32 });
                let i = choose|i: int| 0 <= i < rest.len() && rest[i] == wanted;
                assert(events[i + 1] == wanted);
            }
        } else {
            assert(events[0] == (key, if h.modifiers.contains(key) { 0i32 } else { 1i32 }));
        }
    }
}

/// A modifier is noted as held from its press to its release, through any events and actions: what
/// is noted of a key changes in an event only where the event comes to a press of this key, if it
/// was not held, or to its release, if it was.
pub proof fn law_modifiers_change_with_their_own_events(
    h: HandlerView,
    config: ConfigView,
    event: Event,
    now: Span,
    answers: AnswersView,
    key: Key,
)
    requires
        on_event(h, event, config, now, answers).0.modifiers.contains(key)
            != h.modifiers.contains(key),
    ensures
        ({
            &&& event matches Event::KeyEvent(key_event)
            &&& key_events(h.at_rest(), key_event, config, now, answers).1 matches Ok(events)
            &&& events.contains((key, if h.modifiers.contains(key) { 0i32 } else { 1i32 }))
        }),
{
    let start = h.at_rest();
    if let Event::KeyEvent(key_event) = event {
        lemma_key_events(start, key_event, config, now, answers);
        let (next, outcome) = key_events(start, key_event, config, now, answers);
        if let Ok(events) = outcome {
            lemma_apply_keymaps_changes_modifiers(next, config, events, answers, key);
        }
    }
}

} // verus!
