//! A multi-purpose key is one key when hit alone and another when held.

use crate::config::{ConfigView, ModmapActionView, MultiPurposeKey};
use crate::event::{Event, KeyEvent, Span, PRESS, RELEASE, REPEAT};
use crate::keys::Key;
use crate::laws::events::law_delayed_presses;
use crate::laws::frame::{lemma_dispatch_actions, lemma_find_modmap, lemma_modmap_only_learns};
use crate::laws::pressed_keys::{mapped_key, stays_single};
use crate::model::{find_modmap, has_press, key_events, on_event, HandlerView};
use crate::multi_purpose::{
    all_held, delayed_presses, is_delayed, not_of, replace_state, state_of, with_state,
    without_state, MultiPurposeKeyState,
};
use crate::outside::{AnswersView, StepView, StopView};
use vstd::prelude::*;

verus! {

/// Whether `key` is mapped to the multi-purpose key `action`.
pub open spec fn is_mapped_to(
    h: HandlerView,
    config: ConfigView,
    key: Key,
    answers: AnswersView,
    action: MultiPurposeKey,
) -> bool {
    find_modmap(
        HandlerView { application_cache: None, ..h.at_rest() },
        config.modmap,
        key,
        answers,
    ).1 == Ok::<_, StopView>(Some(ModmapActionView::MultiPurposeKey(action)))
}

/// Whether `key` is down and its first press is delayed.
pub open spec fn waits(entries: Seq<(Key, MultiPurposeKeyState)>, key: Key) -> bool {
    state_of(entries, key) matches Some(state) && state.alone_timeout_at is Some
}

// The list of multi-purpose keys

proof fn lemma_state_of_push(
    entries: Seq<(Key, MultiPurposeKeyState)>,
    last: (Key, MultiPurposeKeyState),
    key: Key,
)
    ensures
        state_of(entries.push(last), key) == if state_of(entries, key) is Some {
            state_of(entries, key)
        } else if last.0 == key {
            Some(last.1)
        } else {
            None
        },
    decreases entries.len(),
{
    let all = entries.push(last);
    if entries.len() == 0 {
        assert(all.drop_first() =~= Seq::empty());
        reveal_with_fuel(state_of, 2);
    } else {
        assert(all[0] == entries[0]);
        assert(all.drop_first() =~= entries.drop_first().push(last));
        lemma_state_of_push(entries.drop_first(), last, key);
    }
}

/// A key that is taken out of the list is not in it, and the others stay.
proof fn lemma_state_of_without(
    entries: Seq<(Key, MultiPurposeKeyState)>,
    key: Key,
    other: Key,
)
    ensures
        state_of(without_state(entries, key), other) == if other == key {
            None
        } else {
            state_of(entries, other)
        },
    decreases entries.len(),
{
    if entries.len() == 0 {
        reveal(Seq::filter);
    } else {
        let rest = entries.drop_last();
        assert(entries =~= rest.push(entries.last()));
        rest.lemma_filter_push(entries.last(), not_of(key));
        lemma_state_of_without(rest, key, other);
        lemma_state_of_push(rest, entries.last(), other);
        lemma_state_of_push(without_state(rest, key), entries.last(), other);
    }
}

/// A key that is noted is in the list, and the others stay.
proof fn lemma_state_of_with(
    entries: Seq<(Key, MultiPurposeKeyState)>,
    key: Key,
    state: MultiPurposeKeyState,
    other: Key,
)
    ensures
        state_of(with_state(entries, key, state), other) == if other == key {
            Some(state)
        } else {
            state_of(entries, other)
        },
{
    lemma_state_of_without(entries, key, other);
    lemma_state_of_push(without_state(entries, key), (key, state), other);
}

/// Where every key counts as held, each one does.
proof fn lemma_state_of_all_held(entries: Seq<(Key, MultiPurposeKeyState)>, key: Key)
    ensures
        state_of(all_held(entries), key) == match state_of(entries, key) {
            Some(state) => Some(state.as_held()),
            None => None,
        },
    decreases entries.len(),
{
    if entries.len() > 0 {
        assert(all_held(entries).drop_first() =~= all_held(entries.drop_first()));
        lemma_state_of_all_held(entries.drop_first(), key);
    }
}

/// A key whose first press is delayed is among those whose press is set free.
proof fn lemma_delayed_is_set_free(entries: Seq<(Key, MultiPurposeKeyState)>, key: Key)
    requires
        waits(entries, key),
    ensures
        delayed_presses(entries).contains((state_of(entries, key)->0.held, PRESS)),
    decreases entries.len(),
{
    let state = state_of(entries, key)->0;
    if entries[0].0 == key {
        entries.lemma_filter_contains(is_delayed(), 0);
        let delayed = entries.filter(is_delayed());
        let i = choose|i: int| 0 <= i < delayed.len() && delayed[i] == entries[0];
        assert(delayed_presses(entries)[i] == (state.held, PRESS));
    } else {
        let rest = entries.drop_first();
        lemma_delayed_is_set_free(rest, key);
        assert(entries =~= seq![entries[0]] + rest);
        Seq::filter_distributes_over_add(seq![entries[0]], rest, is_delayed());
        let i = choose|i: int|
            0 <= i < delayed_presses(rest).len() && delayed_presses(rest)[i] == (state.held, PRESS);
        let j = i + seq![entries[0]].filter(is_delayed()).len();
        assert(delayed_presses(entries)[j] == (state.held, PRESS));
    }
}

// Laws

/// The press of a multi-purpose key is delayed: nothing is sent for it, and the key is noted with
/// the time at which it counts as held.
pub proof fn law_press_is_delayed(
    h: HandlerView,
    config: ConfigView,
    key: Key,
    now: Span,
    answers: AnswersView,
    action: MultiPurposeKey,
)
    requires
        is_mapped_to(h, config, key, answers, action),
    ensures
        ({
            let (next, step) = on_event(
                h,
                Event::KeyEvent(KeyEvent { code: key, value: PRESS }),
                config,
                now,
                answers,
            );
            let state = MultiPurposeKeyState {
                held: action.held,
                alone: action.alone,
                alone_timeout_at: Some(
                    (now.total() + action.alone_timeout.total()) as u128,
                ),
            };
            &&& step == StepView::Done { result: Ok(h.actions), modes: Seq::empty() }
            &&& state_of(next.multi_purpose_keys, key) == Some(state)
            &&& forall|other: Key|
                other != key ==> #[trigger] state_of(next.multi_purpose_keys, other) == state_of(
                    h.multi_purpose_keys,
                    other,
                )
            &&& next == HandlerView {
                application_cache: next.application_cache,
                multi_purpose_keys: next.multi_purpose_keys,
                actions: Seq::empty(),
                timer_calls: 0,
                modes: Seq::empty(),
                ..h
            }
        }),
{
    let start = h.at_rest();
    let event = KeyEvent { code: key, value: PRESS };
    let fresh = HandlerView { application_cache: None, ..start };
    lemma_modmap_only_learns(fresh, config.modmap, key, answers);
    let state = MultiPurposeKeyState::delayed(
        action.held,
        action.alone,
        now,
        action.alone_timeout,
    );
    let next = key_events(start, event, config, now, answers).0;
    assert(next.multi_purpose_keys == with_state(h.multi_purpose_keys, key, state));
    lemma_state_of_with(h.multi_purpose_keys, key, state, key);
    assert forall|other: Key| other != key implies #[trigger] state_of(
        next.multi_purpose_keys,
        other,
    ) == state_of(h.multi_purpose_keys, other) by {
        lemma_state_of_with(h.multi_purpose_keys, key, state, other);
    }
}

proof fn lemma_replaced(
    entries: Seq<(Key, MultiPurposeKeyState)>,
    key: Key,
    state: MultiPurposeKeyState,
    other: Key,
)
    ensures
        state_of(replace_state(entries, key, state), other) == if other == key && state_of(
            entries,
            key,
        ) is Some {
            Some(state)
        } else {
            state_of(entries, other)
        },
        state.alone_timeout_at is None ==> delayed_presses(replace_state(entries, key, state))
            == delayed_presses(without_state(entries, key)),
    decreases entries.len(),
{
    if entries.len() == 0 {
        assert(replace_state(entries, key, state) =~= entries);
        reveal(Seq::filter);
        assert(without_state(entries, key) =~= entries);
    } else {
        let rest = entries.drop_last();
        let last = entries.last();
        let new_last = if last.0 == key {
            (key, state)
        } else {
            last
        };
        assert(entries =~= rest.push(last));
        assert(replace_state(entries, key, state) =~= replace_state(rest, key, state).push(
            new_last,
        ));
        lemma_replaced(rest, key, state, other);
        lemma_replaced(rest, key, state, key);
        lemma_state_of_push(rest, last, other);
        lemma_state_of_push(rest, last, key);
        lemma_state_of_push(replace_state(rest, key, state), new_last, other);
        rest.lemma_filter_push(last, not_of(key));
        law_delayed_presses(replace_state(rest, key, state), new_last.0, new_last.1);
        law_delayed_presses(without_state(rest, key), last.0, last.1);
        if state.alone_timeout_at is None && last.0 == key {
            assert(delayed_presses(replace_state(rest, key, state)) + seq![] =~= delayed_presses(
                replace_state(rest, key, state),
            ));
        }
    }
}

/// A repeat of a multi-purpose key while its press is delayed comes to nothing until its time has
/// run out. Then it comes, after the presses of other such keys that this sets free, to the press
/// of the key that it is when held, and all of them count as held. From then on it comes to repeats
/// of that key or, where the key was pressed as another one before, of that one.
pub proof fn law_repeat_waits_for_the_time(
    h: HandlerView,
    config: ConfigView,
    key: Key,
    now: Span,
    answers: AnswersView,
    action: MultiPurposeKey,
    state: MultiPurposeKeyState,
    other: Key,
)
    requires
        is_mapped_to(h, config, key, answers, action),
        state_of(h.multi_purpose_keys, key) == Some(state),
    ensures
        ({
            let (next, events) = key_events(
                h.at_rest(),
                KeyEvent { code: key, value: 2 },
                config,
                now,
                answers,
            );
            let before = state_of(h.multi_purpose_keys, other);
            let after = state_of(next.multi_purpose_keys, other);
            let found = find_modmap(
                HandlerView { application_cache: None, ..h.at_rest() },
                config.modmap,
                key,
                answers,
            ).0;
            &&& next == HandlerView {
                pressed_keys: next.pressed_keys,
                multi_purpose_keys: next.multi_purpose_keys,
                ..found
            }
            &&& next.pressed_keys == h.pressed_keys
            &&& match state.alone_timeout_at {
                Some(at) => if now.total() < at {
                    &&& events == Ok::<Seq<(Key, i32)>, StopView>(seq![])
                    &&& after == before
                } else {
                    &&& events == Ok::<_, StopView>(
                        delayed_presses(without_state(h.multi_purpose_keys, key)).push(
                            (state.held, 1i32),
                        ),
                    )
                    &&& after is Some == before is Some
                    &&& before is Some ==> after->0 == MultiPurposeKeyState {
                        alone_timeout_at: None,
                        ..before->0
                    }
                },
                None => {
                    &&& events == Ok::<_, StopView>(
                        seq![
                            (
                                if h.pressed_keys.contains_key(key) {
                                    h.pressed_keys[key]
                                } else {
                                    state.held
                                },
                                2i32,
                            ),
                        ],
                    )
                    &&& after == before
                },
            }
        }),
{
    let start = h.at_rest();
    let fresh = HandlerView { application_cache: None, ..start };
    lemma_modmap_only_learns(fresh, config.modmap, key, answers);
    let entries = h.multi_purpose_keys;
    let repeated = state.on_repeat(now);
    let left = state.after_repeat(now);
    lemma_replaced(entries, key, left, other);
    lemma_replaced(entries, key, left, key);
    lemma_state_of_all_held(replace_state(entries, key, left), other);
    if state.alone_timeout_at is Some && !state.in_time(now) {
        assert(repeated[0].1 == PRESS);
        assert(has_press(repeated));
        assert(delayed_presses(replace_state(entries, key, left)) + repeated =~= delayed_presses(
            without_state(entries, key),
        ).push((state.held, 1i32)));
    } else {
        assert(!has_press(repeated));
    }
}

/// A repeat or a release of a multi-purpose key that was not seen going down passes as it is or,
/// where the key was pressed as another one before, as that one.
pub proof fn law_unseen_press_passes(
    h: HandlerView,
    config: ConfigView,
    key: Key,
    value: i32,
    now: Span,
    answers: AnswersView,
    action: MultiPurposeKey,
)
    requires
        is_mapped_to(h, config, key, answers, action),
        state_of(h.multi_purpose_keys, key) is None,
        value == 0 || value == 2,
    ensures
        ({
            let (next, events) = key_events(
                h.at_rest(),
                KeyEvent { code: key, value },
                config,
                now,
                answers,
            );
            let found = find_modmap(
                HandlerView { application_cache: None, ..h.at_rest() },
                config.modmap,
                key,
                answers,
            ).0;
            &&& next == HandlerView {
                pressed_keys: next.pressed_keys,
                multi_purpose_keys: next.multi_purpose_keys,
                ..found
            }
            &&& events == Ok::<_, StopView>(
                seq![
                    (
                        if h.pressed_keys.contains_key(key) {
                            h.pressed_keys[key]
                        } else {
                            key
                        },
                        value,
                    ),
                ],
            )
            &&& next.multi_purpose_keys == h.multi_purpose_keys
            &&& next.pressed_keys == if value == 0 {
                h.pressed_keys.remove(key)
            } else {
                h.pressed_keys
            }
        }),
{
    let fresh = HandlerView { application_cache: None, ..h.at_rest() };
    lemma_modmap_only_learns(fresh, config.modmap, key, answers);
}

/// The release of a multi-purpose key whose press is still delayed is, after the presses of other
/// such keys that this sets free, a hit of one key: of the one that it is when hit alone if it
/// comes in time, of the one that it is when held if it does not. The release of one that counts
/// as held already is the release of the key that it is when held or, where the key was pressed as
/// another one before, of that one.
pub proof fn law_release_ends_the_delay(
    h: HandlerView,
    config: ConfigView,
    key: Key,
    now: Span,
    answers: AnswersView,
    action: MultiPurposeKey,
    state: MultiPurposeKeyState,
)
    requires
        is_mapped_to(h, config, key, answers, action),
        state_of(h.multi_purpose_keys, key) == Some(state),
    ensures
        ({
            let (next, events) = key_events(
                h.at_rest(),
                KeyEvent { code: key, value: RELEASE },
                config,
                now,
                answers,
            );
            let others = delayed_presses(without_state(h.multi_purpose_keys, key));
            let found = find_modmap(
                HandlerView { application_cache: None, ..h.at_rest() },
                config.modmap,
                key,
                answers,
            ).0;
            &&& next == HandlerView {
                pressed_keys: next.pressed_keys,
                multi_purpose_keys: next.multi_purpose_keys,
                ..found
            }
            &&& state_of(next.multi_purpose_keys, key) is None
            &&& events == Ok::<_, StopView>(
                if state.alone_timeout_at is Some && now.total() < state.alone_timeout_at->0 {
                    others + seq![(state.alone, PRESS), (state.alone, RELEASE)]
                } else if state.alone_timeout_at is Some {
                    others + seq![(state.held, PRESS), (state.held, RELEASE)]
                } else if h.pressed_keys.contains_key(key) {
                    seq![(h.pressed_keys[key], RELEASE)]
                } else {
                    seq![(state.held, RELEASE)]
                },
            )
            &&& next.pressed_keys == if state.alone_timeout_at is Some {
                h.pressed_keys
            } else {
                h.pressed_keys.remove(key)
            }
            &&& forall|other: Key|
                other != key ==> #[trigger] state_of(next.multi_purpose_keys, other) == match (
                    state_of(h.multi_purpose_keys, other),
                    state.alone_timeout_at,
                ) {
                    (Some(waiting), Some(_)) => Some(
                        MultiPurposeKeyState { alone_timeout_at: None, ..waiting },
                    ),
                    (unchanged, _) => unchanged,
                }
        }),
{
    let start = h.at_rest();
    let event = KeyEvent { code: key, value: RELEASE };
    let fresh = HandlerView { application_cache: None, ..start };
    lemma_modmap_only_learns(fresh, config.modmap, key, answers);
    let released = state.on_release(now);
    lemma_state_of_without(h.multi_purpose_keys, key, key);
    lemma_state_of_all_held(without_state(h.multi_purpose_keys, key), key);
    if state.alone_timeout_at is Some {
        assert(released[0].1 == PRESS);
        assert(has_press(released));
    } else {
        assert(!has_press(released));
    }
    let next = key_events(start, event, config, now, answers).0;
    assert forall|other: Key| other != key implies #[trigger] state_of(
        next.multi_purpose_keys,
        other,
    ) == match (state_of(h.multi_purpose_keys, other), state.alone_timeout_at) {
        (Some(waiting), Some(_)) => Some(
            MultiPurposeKeyState { alone_timeout_at: None, ..waiting },
        ),
        (unchanged, _) => unchanged,
    } by {
        lemma_state_of_without(h.multi_purpose_keys, key, other);
        lemma_state_of_all_held(without_state(h.multi_purpose_keys, key), other);
    }
}

/// A multi-purpose key that is pressed and released with nothing in between is, after the presses
/// of other such keys that this sets free, the key for when it is hit alone if it was released
/// before its time ran out, and the key for when it is held otherwise.
pub proof fn law_hit_alone_or_held(
    h: HandlerView,
    config: ConfigView,
    key: Key,
    pressed_at: Span,
    released_at: Span,
    answers: AnswersView,
    later_config: ConfigView,
    later_answers: AnswersView,
    action: MultiPurposeKey,
    later_action: MultiPurposeKey,
)
    requires
        is_mapped_to(h, config, key, answers, action),
        is_mapped_to(
            on_event(
                h,
                Event::KeyEvent(KeyEvent { code: key, value: PRESS }),
                config,
                pressed_at,
                answers,
            ).0,
            later_config,
            key,
            later_answers,
            later_action,
        ),
    ensures
        ({
            let pressed = on_event(
                h,
                Event::KeyEvent(KeyEvent { code: key, value: PRESS }),
                config,
                pressed_at,
                answers,
            ).0;
            let others = delayed_presses(without_state(pressed.multi_purpose_keys, key));
            let hit = if released_at.total() < pressed_at.total() + action.alone_timeout.total() {
                action.alone
            } else {
                action.held
            };
            key_events(
                pressed.at_rest(),
                KeyEvent { code: key, value: RELEASE },
                later_config,
                released_at,
                later_answers,
            ).1 == Ok::<_, StopView>(others + seq![(hit, PRESS), (hit, RELEASE)])
        }),
{
    law_press_is_delayed(h, config, key, pressed_at, answers, action);
    let pressed = on_event(
        h,
        Event::KeyEvent(KeyEvent { code: key, value: PRESS }),
        config,
        pressed_at,
        answers,
    ).0;
    let state = MultiPurposeKeyState::delayed(
        action.held,
        action.alone,
        pressed_at,
        action.alone_timeout,
    );
    law_release_ends_the_delay(
        pressed,
        later_config,
        key,
        released_at,
        later_answers,
        later_action,
        state,
    );
}

/// The press of another key makes the multi-purpose keys that are down count as held: the presses
/// of the keys that they are when held come before it, and none of them is delayed any more.
pub proof fn law_another_press_ends_the_delay(
    h: HandlerView,
    config: ConfigView,
    key: Key,
    now: Span,
    answers: AnswersView,
)
    requires
        stays_single(h, config, key, PRESS, now, answers),
    ensures
        ({
            let (next, events) = key_events(
                h.at_rest(),
                KeyEvent { code: key, value: PRESS },
                config,
                now,
                answers,
            );
            let pressed = (mapped_key(h, config, key, PRESS, now, answers), PRESS);
            &&& events == Ok::<_, StopView>(
                delayed_presses(h.multi_purpose_keys).push(pressed),
            )
            &&& forall|other: Key| #[trigger]
                state_of(next.multi_purpose_keys, other) == match state_of(
                    h.multi_purpose_keys,
                    other,
                ) {
                    Some(state) => Some(MultiPurposeKeyState { alone_timeout_at: None, ..state }),
                    None => None,
                }
        }),
        forall|other: Key| #[trigger]
            waits(h.multi_purpose_keys, other) ==> delayed_presses(h.multi_purpose_keys).contains(
                (state_of(h.multi_purpose_keys, other)->0.held, PRESS),
            ),
{
    let start = h.at_rest();
    let event = KeyEvent { code: key, value: PRESS };
    let fresh = HandlerView { application_cache: None, ..start };
    lemma_find_modmap(fresh, config.modmap, key, answers);
    let (found, outcome) = find_modmap(fresh, config.modmap, key, answers);
    if let Ok(Some(ModmapActionView::PressReleaseKey { press, .. })) = outcome {
        lemma_dispatch_actions(found, press, key, answers);
    }
    let pressed = (mapped_key(h, config, key, PRESS, now, answers), PRESS);
    let (next, events) = key_events(start, event, config, now, answers);
    let single = seq![pressed];
    assert(single[0].1 == PRESS);
    assert(has_press(single));
    assert(delayed_presses(h.multi_purpose_keys) + single =~= delayed_presses(
        h.multi_purpose_keys,
    ).push(pressed));
    assert forall|other: Key| #[trigger] state_of(next.multi_purpose_keys, other) == match state_of(
        h.multi_purpose_keys,
        other,
    ) {
        Some(state) => Some(state.as_held()),
        None => None,
    } by {
        lemma_state_of_all_held(h.multi_purpose_keys, other);
    }
    assert forall|other: Key| #[trigger]
        waits(h.multi_purpose_keys, other) implies delayed_presses(h.multi_purpose_keys).contains(
        (state_of(h.multi_purpose_keys, other)->0.held, PRESS),
    ) by {
        lemma_delayed_is_set_free(h.multi_purpose_keys, other);
    }
}

/// What can happen to a multi-purpose key between its press and its release.
pub enum Moment {
    /// It repeats.
    Repeat(Span),
    /// Another key is pressed.
    Interrupt,
}

/// The state of a multi-purpose key after `moments`, and the key events that came of them.
pub open spec fn life(start: MultiPurposeKeyState, moments: Seq<Moment>) -> (
    MultiPurposeKeyState,
    Seq<(Key, i32)>,
)
    decreases moments.len(),
{
    if moments.len() == 0 {
        (start, seq![])
    } else {
        let (state, events) = life(start, moments.drop_last());
        match moments.last() {
            Moment::Repeat(now) => (state.after_repeat(now), events + state.on_repeat(now)),
            Moment::Interrupt => (state.as_held(), events + state.on_force()),
        }
    }
}

/// Whether `events` are the press of `key` and then only repeats of it.
pub open spec fn is_held_down(events: Seq<(Key, i32)>, key: Key) -> bool {
    &&& events.len() > 0
    &&& events[0] == (key, PRESS)
    &&& forall|i: int| 0 < i < events.len() ==> #[trigger] events[i] == (key, REPEAT)
}

proof fn lemma_life(start: MultiPurposeKeyState, moments: Seq<Moment>)
    requires
        start.alone_timeout_at is Some,
    ensures
        ({
            let (state, events) = life(start, moments);
            &&& state.held == start.held
            &&& state.alone == start.alone
            &&& state.alone_timeout_at is Some ==> events.len() == 0
            &&& state.alone_timeout_at is None ==> is_held_down(events, start.held)
        }),
    decreases moments.len(),
{
    if moments.len() > 0 {
        lemma_life(start, moments.drop_last());
    }
}

/// From its press to its release, the state of a multi-purpose key gives the events of one key:
/// either a hit of the key for when it is hit alone, or the key for when it is held goes down, may
/// repeat, and goes up.
pub proof fn law_one_key_from_press_to_release(
    start: MultiPurposeKeyState,
    moments: Seq<Moment>,
    released_at: Span,
)
    requires
        start.alone_timeout_at is Some,
    ensures
        ({
            let (state, events) = life(start, moments);
            let all = events + state.on_release(released_at);
            ||| all == seq![(start.alone, PRESS), (start.alone, RELEASE)]
            ||| is_held_down(all.drop_last(), start.held) && all.last() == (start.held, RELEASE)
        }),
{
    lemma_life(start, moments);
    let (state, events) = life(start, moments);
    let released = state.on_release(released_at);
    let all = events + released;
    if state.alone_timeout_at is Some {
        assert(all =~= released);
        if !state.in_time(released_at) {
            assert(all.drop_last() =~= seq![(start.held, PRESS)]);
        }
    } else {
        assert(all.drop_last() =~= events);
    }
}

} // verus!
