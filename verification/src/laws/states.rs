//! What holds of the handler between any two events.

use crate::config::{ConfigView, ModmapActionView};
use crate::event::{Event, KeyEvent, Span};
use crate::key_set::other_than;
use crate::keys::{is_modifier_key, Key};
use crate::laws::frame::{
    in_event, lemma_apply_keymap, lemma_apply_keymaps, lemma_dispatch_actions, lemma_find_keymap,
    lemma_find_modmap, lemma_key_events,
};
use crate::laws::keymaps::law_modifiers_are_tracked;
use crate::laws::modifiers::lemma_filter_no_duplicates;
use crate::model::{
    apply_keymap, apply_keymaps, apply_modmap, find_keymap, find_modmap, key_events, on_event, run,
    HandlerView,
};
use crate::multi_purpose::{all_held, not_of, with_state, without_state, MultiPurposeKeyState};
use crate::outside::AnswersView;
use vstd::prelude::*;

verus! {

/// Whether no key is listed twice.
pub open spec fn distinct(entries: Seq<(Key, MultiPurposeKeyState)>) -> bool {
    forall|i: int, j: int|
        0 <= i < j < entries.len() ==> (#[trigger] entries[i]).0 != (#[trigger] entries[j]).0
}

proof fn lemma_filter_distinct(
    entries: Seq<(Key, MultiPurposeKeyState)>,
    test: spec_fn((Key, MultiPurposeKeyState)) -> bool,
)
    requires
        distinct(entries),
    ensures
        distinct(entries.filter(test)),
    decreases entries.len(),
{
    reveal(Seq::filter);
    if entries.len() > 0 {
        let rest = entries.drop_last();
        lemma_filter_distinct(rest, test);
        assert forall|i: int| 0 <= i < rest.filter(test).len() implies (#[trigger] rest.filter(
            test,
        )[i]).0 != entries.last().0 by {
            assert(rest.filter(test).contains(rest.filter(test)[i]));
            rest.lemma_filter_contains_rev(test, rest.filter(test)[i]);
            let j = choose|j: int| 0 <= j < rest.len() && rest[j] == rest.filter(test)[i];
            assert(entries[j] == rest[j]);
        }
    }
}

proof fn lemma_with_distinct(
    entries: Seq<(Key, MultiPurposeKeyState)>,
    key: Key,
    state: MultiPurposeKeyState,
)
    requires
        distinct(entries),
    ensures
        distinct(with_state(entries, key, state)),
{
    let others = without_state(entries, key);
    lemma_filter_distinct(entries, not_of(key));
    assert forall|i: int| 0 <= i < others.len() implies (#[trigger] others[i]).0 != key by {
        entries.lemma_filter_pred(not_of(key), i);
    }
}

proof fn lemma_apply_keymaps_modifiers(
    h: HandlerView,
    config: ConfigView,
    events: Seq<(Key, i32)>,
    answers: AnswersView,
)
    requires
        h.modifiers.no_duplicates(),
        in_event(h, answers),
    ensures
        apply_keymaps(h, config, events, answers).0.modifiers.no_duplicates(),
    decreases events.len(),
{
    if events.len() > 0 {
        let (key, value) = events[0];
        lemma_filter_no_duplicates(h.modifiers, other_than(key));
        lemma_find_keymap(h, config, key, answers);
        let (found, outcome) = find_keymap(h, config, key, answers);
        if let Ok(Some(actions)) = outcome {
            lemma_dispatch_actions(found, actions, key, answers);
        }
        lemma_apply_keymap(h, config, key, value, answers);
        let (next, outcome) = apply_keymap(h, config, key, value, answers);
        assert(next.modifiers.no_duplicates());
        if outcome is Ok {
            lemma_apply_keymaps_modifiers(next, config, events.drop_first(), answers);
        }
    }
}

proof fn lemma_apply_keymaps_adds_modifiers(
    h: HandlerView,
    config: ConfigView,
    events: Seq<(Key, i32)>,
    answers: AnswersView,
    key: Key,
)
    requires
        in_event(h, answers),
        apply_keymaps(h, config, events, answers).0.modifiers.contains(key),
    ensures
        h.modifiers.contains(key) || is_modifier_key(key) || config.virtual_modifiers.contains(key),
    decreases events.len(),
{
    if events.len() > 0 {
        let (event_key, value) = events[0];
        lemma_find_keymap(h, config, event_key, answers);
        let (found, outcome) = find_keymap(h, config, event_key, answers);
        if let Ok(Some(actions)) = outcome {
            lemma_dispatch_actions(found, actions, event_key, answers);
        }
        lemma_apply_keymap(h, config, event_key, value, answers);
        let (next, outcome) = apply_keymap(h, config, event_key, value, answers);
        if outcome is Ok {
            lemma_apply_keymaps_adds_modifiers(next, config, events.drop_first(), answers, key);
        }
        if next.modifiers.contains(key) && key != event_key {
            law_modifiers_are_tracked(h, event_key, key);
        }
    }
}

proof fn lemma_key_events_distinct(
    h: HandlerView,
    event: KeyEvent,
    config: ConfigView,
    now: Span,
    answers: AnswersView,
)
    requires
        distinct(h.multi_purpose_keys),
        h.timer_calls == 0,
    ensures
        distinct(key_events(h, event, config, now, answers).0.multi_purpose_keys),
{
    let fresh = HandlerView { application_cache: None, ..h };
    let key = event.code;
    lemma_find_modmap(fresh, config.modmap, key, answers);
    let (found, outcome) = find_modmap(fresh, config.modmap, key, answers);
    let (mapped, _) = apply_modmap(fresh, config, key, event.value, now, answers);
    if let Ok(Some(action)) = outcome {
        match action {
            ModmapActionView::PressReleaseKey { press, release } => {
                lemma_dispatch_actions(found, press, key, answers);
                lemma_dispatch_actions(found, release, key, answers);
                lemma_dispatch_actions(found, seq![], key, answers);
            },
            ModmapActionView::MultiPurposeKey(action) => {
                let state = MultiPurposeKeyState::delayed(
                    action.held,
                    action.alone,
                    now,
                    action.alone_timeout,
                );
                lemma_with_distinct(h.multi_purpose_keys, key, state);
                lemma_filter_distinct(h.multi_purpose_keys, not_of(key));
            },
            _ => {},
        }
    }
    assert(distinct(mapped.multi_purpose_keys));
    assert(distinct(all_held(mapped.multi_purpose_keys)));
}

/// Between any two events no modifier and no multi-purpose key is listed twice, and nothing is left
/// of the event before.
pub proof fn law_states_are_well_formed(
    h: HandlerView,
    event: Event,
    config: ConfigView,
    now: Span,
    answers: AnswersView,
)
    requires
        h.wf(),
    ensures
        on_event(h, event, config, now, answers).0.wf(),
{
    let start = h.at_rest();
    match event {
        Event::KeyEvent(key_event) => {
            lemma_key_events(start, key_event, config, now, answers);
            lemma_key_events_distinct(start, key_event, config, now, answers);
            let (next, outcome) = key_events(start, key_event, config, now, answers);
            if let Ok(events) = outcome {
                lemma_apply_keymaps_modifiers(next, config, events, answers);
                lemma_apply_keymaps(next, config, events, answers);
            }
            let left = run(start, event, config, now, answers).0;
            assert(distinct(left.multi_purpose_keys));
        },
        Event::OverrideTimeout => {
            let left = run(start, event, config, now, answers).0;
            assert(left.modifiers == h.modifiers);
            assert(left.multi_purpose_keys == h.multi_purpose_keys);
        },
    }
}

/// What an event notes as a modifier that is down is a real modifier, or one that the
/// configuration declares a virtual modifier.
pub proof fn law_modifiers_are_real_or_virtual(
    h: HandlerView,
    event: Event,
    config: ConfigView,
    now: Span,
    answers: AnswersView,
    key: Key,
)
    requires
        on_event(h, event, config, now, answers).0.modifiers.contains(key),
    ensures
        h.modifiers.contains(key) || is_modifier_key(key) || config.virtual_modifiers.contains(key),
{
    if let Event::KeyEvent(key_event) = event {
        let start = h.at_rest();
        lemma_key_events(start, key_event, config, now, answers);
        let (next, outcome) = key_events(start, key_event, config, now, answers);
        if let Ok(events) = outcome {
            if run(start, event, config, now, answers).0.modifiers.contains(key) {
                lemma_apply_keymaps_adds_modifiers(next, config, events, answers, key);
            }
        }
    }
}

} // verus!
