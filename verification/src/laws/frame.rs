//! What holds of the handler across functions and events.

use crate::action::{key_action, ActionView};
use crate::config::{
    override_table, ApplicationView, ConfigView, KeymapEntryView, ModmapActionView, ModmapView,
};
use crate::event::{Event, KeyEvent, Span, PRESS, RELEASE};
use crate::keymap_action::KeymapActionView;
use crate::keys::Key;
use crate::model::{
    apply_keymap, apply_keymaps, apply_modmap, call_timer, dispatch_action, dispatch_actions,
    entry_fits, find_in_table, find_keymap, find_modmap, flush_override, key_events, match_limit,
    name_of, on_event, remove_override, run, scan_entries, send, tap, update_modifier, HandlerView,
};
use crate::outside::{AnswersView, RequestView, StepView, StopView, TimerError};
use vstd::prelude::*;

verus! {

// What stays and what grows while actions are carried out

/// Whether a handler in `h` can get to `next` by looking for actions and carrying them out: what
/// keys are down stays, what was sent and which modes were switched to only grows, and the mode
/// is the last one that was switched to.
pub open spec fn keeps(h: HandlerView, next: HandlerView) -> bool {
    &&& next.modifiers == h.modifiers
    &&& next.pressed_keys == h.pressed_keys
    &&& next.multi_purpose_keys == h.multi_purpose_keys
    &&& grows(h, next)
}

/// Whether what was sent and which modes were switched to only grows from `h` to `next`, and the
/// mode is the last one that was switched to.
pub open spec fn grows(h: HandlerView, next: HandlerView) -> bool {
    &&& next.keypress_delay == h.keypress_delay
    &&& h.actions.is_prefix_of(next.actions)
    &&& h.modes.is_prefix_of(next.modes)
    &&& next.mode == if next.modes.len() > h.modes.len() {
        next.modes.last()
    } else {
        h.mode
    }
}

/// What holds in the middle of an event: the answers about the timer that were used all say that
/// it went well, and the application, if it is known, is the one that was answered.
pub open spec fn in_event(h: HandlerView, answers: AnswersView) -> bool {
    &&& h.timer_calls <= answers.timer.len()
    &&& forall|i: int| 0 <= i < h.timer_calls ==> (#[trigger] answers.timer[i]) is Ok
    &&& h.application_cache is Some ==> answers.application is Some && h.application_cache == Some(
        name_of(answers.application->0),
    )
}

/// Whether `request` is for an answer that is not there yet.
pub open spec fn is_new(request: RequestView, answers: AnswersView) -> bool {
    match request {
        RequestView::CurrentApplication => answers.application is None,
        RequestView::Matching(name) => {
            &&& answers.matching is None
            &&& answers.application is Some
            &&& name == name_of(answers.application->0)
        },
        _ => forall|i: int|
            0 <= i < answers.timer.len() ==> (#[trigger] answers.timer[i]) is Ok,
    }
}

/// Whether the first request about the timer that did not go well ended with `error`.
pub open spec fn is_first_failure(error: TimerError, answers: AnswersView) -> bool {
    exists|i: int|
        0 <= i < answers.timer.len() && #[trigger] answers.timer[i] == Err::<(), _>(error)
            && forall|j: int| 0 <= j < i ==> (#[trigger] answers.timer[j]) is Ok
}

/// Whether what an event came to is in order: the handler is still in the middle of the event, or
/// what it asks for is new, or the timer did fail.
pub open spec fn in_order<T>(
    outcome: (HandlerView, Result<T, StopView>),
    answers: AnswersView,
) -> bool {
    match outcome.1 {
        Ok(_) => in_event(outcome.0, answers),
        Err(StopView::Ask(request)) => is_new(request, answers),
        Err(StopView::Failed(error)) => is_first_failure(error, answers),
    }
}

/// Whether no answer was missing.
pub open spec fn answered<T>(outcome: (HandlerView, Result<T, StopView>)) -> bool {
    !(outcome.1 matches Err(StopView::Ask(_)))
}

pub(crate) proof fn lemma_grows_trans(h: HandlerView, mid: HandlerView, next: HandlerView)
    requires
        grows(h, mid),
        grows(mid, next),
    ensures
        grows(h, next),
{
    assert forall|i: int| 0 <= i < h.actions.len() implies h.actions[i] == next.actions[i] by {
        assert(h.actions[i] == mid.actions[i]);
    }
    assert forall|i: int| 0 <= i < h.modes.len() implies h.modes[i] == next.modes[i] by {
        assert(h.modes[i] == mid.modes[i]);
    }
    assert(h.actions =~= next.actions.subrange(0, h.actions.len() as int));
    assert(h.modes =~= next.modes.subrange(0, h.modes.len() as int));
    if next.modes.len() == mid.modes.len() {
        assert(next.modes =~= mid.modes);
    }
}

pub(crate) proof fn lemma_match_limit(
    h: HandlerView,
    limit: Option<ApplicationView>,
    answers: AnswersView,
)
    requires
        in_event(h, answers),
    ensures
        keeps(h, match_limit(h, limit, answers).0),
        in_order(match_limit(h, limit, answers), answers),
{
    assert(h.actions.is_prefix_of(h.actions));
    assert(h.modes.is_prefix_of(h.modes));
}

pub(crate) proof fn lemma_call_timer(h: HandlerView, request: RequestView, answers: AnswersView)
    requires
        in_event(h, answers),
        request is UnsetTimer || request is SetTimer,
    ensures
        keeps(h, call_timer(h, request, answers).0),
        in_order(call_timer(h, request, answers), answers),
{
    assert(h.actions.is_prefix_of(h.actions));
    assert(h.modes.is_prefix_of(h.modes));
    if let Err(StopView::Failed(error)) = call_timer(h, request, answers).1 {
        assert(answers.timer[h.timer_calls as int] == Err::<(), _>(error));
    }
}

pub(crate) proof fn lemma_remove_override(h: HandlerView, answers: AnswersView)
    requires
        in_event(h, answers),
    ensures
        keeps(h, remove_override(h, answers).0),
        in_order(remove_override(h, answers), answers),
{
    lemma_call_timer(h, RequestView::UnsetTimer, answers);
}

pub(crate) proof fn lemma_flush_override(
    h: HandlerView,
    pending: Option<Key>,
    answers: AnswersView,
)
    requires
        in_event(h, answers),
    ensures
        keeps(h, flush_override(h, pending, answers).0),
        in_order(flush_override(h, pending, answers), answers),
{
    let sent = match pending {
        Some(key) => send(h, tap(key)),
        None => h,
    };
    assert(h.actions.is_prefix_of(sent.actions));
    assert(h.modes.is_prefix_of(h.modes));
    lemma_remove_override(sent, answers);
    lemma_grows_trans(h, sent, remove_override(sent, answers).0);
}

pub(crate) proof fn lemma_dispatch_action(
    h: HandlerView,
    action: KeymapActionView,
    key: Key,
    answers: AnswersView,
)
    requires
        in_event(h, answers),
    ensures
        keeps(h, dispatch_action(h, action, key, answers).0),
        in_order(dispatch_action(h, action, key, answers), answers),
{
    let next = dispatch_action(h, action, key, answers).0;
    assert(h.modes.is_prefix_of(h.modes));
    assert(h.actions.is_prefix_of(h.actions));
    match action {
        KeymapActionView::Remap(remap) => {
            let set = HandlerView { override_remap: Some(override_table(remap.remap)), ..h };
            if let Some(timeout) = remap.timeout {
                lemma_call_timer(set, RequestView::UnsetTimer, answers);
                let (unset, first) = call_timer(set, RequestView::UnsetTimer, answers);
                if first is Ok {
                    lemma_call_timer(unset, RequestView::SetTimer(timeout), answers);
                    lemma_grows_trans(
                        h,
                        unset,
                        call_timer(unset, RequestView::SetTimer(timeout), answers).0,
                    );
                }
            }
        },
        _ => {
            assert(h.actions =~= next.actions.subrange(0, h.actions.len() as int));
            assert(h.modes =~= next.modes.subrange(0, h.modes.len() as int));
        },
    }
}

pub(crate) proof fn lemma_dispatch_actions(
    h: HandlerView,
    actions: Seq<KeymapActionView>,
    key: Key,
    answers: AnswersView,
)
    requires
        in_event(h, answers),
    ensures
        keeps(h, dispatch_actions(h, actions, key, answers).0),
        in_order(dispatch_actions(h, actions, key, answers), answers),
    decreases actions.len(),
{
    if actions.len() > 0 {
        lemma_dispatch_action(h, actions[0], key, answers);
        let (next, outcome) = dispatch_action(h, actions[0], key, answers);
        if outcome is Ok {
            lemma_dispatch_actions(next, actions.drop_first(), key, answers);
            lemma_grows_trans(
                h,
                next,
                dispatch_actions(next, actions.drop_first(), key, answers).0,
            );
        }
    } else {
        assert(h.modes.is_prefix_of(h.modes));
        assert(h.actions.is_prefix_of(h.actions));
    }
}

pub(crate) proof fn lemma_find_modmap(
    h: HandlerView,
    modmaps: Seq<ModmapView>,
    key: Key,
    answers: AnswersView,
)
    requires
        in_event(h, answers),
    ensures
        keeps(h, find_modmap(h, modmaps, key, answers).0),
        in_order(find_modmap(h, modmaps, key, answers), answers),
    decreases modmaps.len(),
{
    if modmaps.len() == 0 {
        assert(h.modes.is_prefix_of(h.modes));
        assert(h.actions.is_prefix_of(h.actions));
    } else if !modmaps[0].remap.contains_key(key) {
        lemma_find_modmap(h, modmaps.drop_first(), key, answers);
    } else {
        lemma_match_limit(h, modmaps[0].application, answers);
        let (next, outcome) = match_limit(h, modmaps[0].application, answers);
        if outcome matches Ok(false) {
            lemma_find_modmap(next, modmaps.drop_first(), key, answers);
            lemma_grows_trans(
                h,
                next,
                find_modmap(next, modmaps.drop_first(), key, answers).0,
            );
        }
    }
}

/// A search for what a key is mapped to at most finds out which application is active.
pub(crate) proof fn lemma_modmap_only_learns(
    h: HandlerView,
    modmaps: Seq<ModmapView>,
    key: Key,
    answers: AnswersView,
)
    ensures
        ({
            let found = find_modmap(h, modmaps, key, answers).0;
            found == HandlerView { application_cache: found.application_cache, ..h }
        }),
    decreases modmaps.len(),
{
    if modmaps.len() > 0 {
        lemma_modmap_only_learns(h, modmaps.drop_first(), key, answers);
        let next = match_limit(h, modmaps[0].application, answers).0;
        lemma_modmap_only_learns(next, modmaps.drop_first(), key, answers);
    }
}

pub(crate) proof fn lemma_scan_entries(
    h: HandlerView,
    entries: Seq<KeymapEntryView>,
    exact: bool,
    answers: AnswersView,
)
    requires
        in_event(h, answers),
    ensures
        keeps(h, scan_entries(h, entries, exact, answers).0),
        in_order(scan_entries(h, entries, exact, answers), answers),
    decreases entries.len(),
{
    if entries.len() == 0 {
        assert(h.modes.is_prefix_of(h.modes));
        assert(h.actions.is_prefix_of(h.actions));
    } else if !entry_fits(h, entries[0], exact) {
        lemma_scan_entries(h, entries.drop_first(), exact, answers);
    } else {
        lemma_match_limit(h, entries[0].application, answers);
        let (next, outcome) = match_limit(h, entries[0].application, answers);
        if outcome is Ok {
            lemma_scan_entries(next, entries.drop_first(), exact, answers);
            lemma_grows_trans(
                h,
                next,
                scan_entries(next, entries.drop_first(), exact, answers).0,
            );
        }
    }
}

pub(crate) proof fn lemma_find_in_table(
    h: HandlerView,
    table: Map<Key, Seq<KeymapEntryView>>,
    key: Key,
    answers: AnswersView,
)
    requires
        in_event(h, answers),
    ensures
        keeps(h, find_in_table(h, table, key, answers).0),
        in_order(find_in_table(h, table, key, answers), answers),
{
    if table.contains_key(key) {
        lemma_scan_entries(h, table[key], true, answers);
        let (next, outcome) = scan_entries(h, table[key], true, answers);
        if outcome matches Ok(None) {
            lemma_scan_entries(next, table[key], false, answers);
            lemma_grows_trans(h, next, scan_entries(next, table[key], false, answers).0);
        }
    } else {
        assert(h.modes.is_prefix_of(h.modes));
        assert(h.actions.is_prefix_of(h.actions));
    }
}

pub(crate) proof fn lemma_find_keymap(
    h: HandlerView,
    config: ConfigView,
    key: Key,
    answers: AnswersView,
)
    requires
        in_event(h, answers),
    ensures
        keeps(h, find_keymap(h, config, key, answers).0),
        in_order(find_keymap(h, config, key, answers), answers),
{
    match h.override_remap {
        None => {
            lemma_find_in_table(h, config.keymap_table, key, answers);
        },
        Some(table) => {
            assert(h.modes.is_prefix_of(h.modes));
            assert(h.actions.is_prefix_of(h.actions));
            let pending = h.override_timeout_key;
            lemma_remove_override(h, answers);
            let (removed, first) = if table.contains_key(key) {
                remove_override(h, answers)
            } else {
                (h, Ok(()))
            };
            if first is Ok {
                lemma_flush_override(removed, pending, answers);
                let (flushed, second) = flush_override(removed, pending, answers);
                lemma_grows_trans(h, removed, flushed);
                if second is Ok {
                    lemma_find_in_table(flushed, config.keymap_table, key, answers);
                    lemma_grows_trans(
                        h,
                        flushed,
                        find_in_table(flushed, config.keymap_table, key, answers).0,
                    );
                }
            }
        },
    }
}

pub(crate) proof fn lemma_send(h: HandlerView, actions: Seq<ActionView>)
    ensures
        keeps(h, send(h, actions)),
{
    assert(h.modes.is_prefix_of(h.modes));
    assert(h.actions =~= (h.actions + actions).subrange(0, h.actions.len() as int));
}

pub(crate) proof fn lemma_apply_keymap(
    h: HandlerView,
    config: ConfigView,
    key: Key,
    value: i32,
    answers: AnswersView,
)
    requires
        in_event(h, answers),
    ensures
        ({
            let next = apply_keymap(h, config, key, value, answers).0;
            &&& next.pressed_keys == h.pressed_keys
            &&& next.multi_purpose_keys == h.multi_purpose_keys
            &&& grows(h, next)
        }),
        in_order(apply_keymap(h, config, key, value, answers), answers),
{
    let as_it_is = seq![key_action(key, value)];
    assert(h.modes.is_prefix_of(h.modes));
    assert(h.actions.is_prefix_of(h.actions));
    let updated = update_modifier(h, key, value);
    lemma_send(updated, as_it_is);
    lemma_grows_trans(h, updated, send(updated, as_it_is));
    lemma_send(h, as_it_is);
    lemma_send(HandlerView { escape_next_key: false, ..h }, as_it_is);
    lemma_find_keymap(h, config, key, answers);
    let (found, outcome) = find_keymap(h, config, key, answers);
    match outcome {
        Ok(Some(actions)) => {
            lemma_dispatch_actions(found, actions, key, answers);
            lemma_grows_trans(h, found, dispatch_actions(found, actions, key, answers).0);
        },
        Ok(None) => {
            lemma_send(found, as_it_is);
            lemma_grows_trans(h, found, send(found, as_it_is));
        },
        Err(_) => {},
    }
}

pub(crate) proof fn lemma_apply_keymaps(
    h: HandlerView,
    config: ConfigView,
    events: Seq<(Key, i32)>,
    answers: AnswersView,
)
    requires
        in_event(h, answers),
    ensures
        ({
            let next = apply_keymaps(h, config, events, answers).0;
            &&& next.pressed_keys == h.pressed_keys
            &&& next.multi_purpose_keys == h.multi_purpose_keys
            &&& grows(h, next)
        }),
        in_order(apply_keymaps(h, config, events, answers), answers),
    decreases events.len(),
{
    if events.len() == 0 {
        assert(h.modes.is_prefix_of(h.modes));
        assert(h.actions.is_prefix_of(h.actions));
    } else {
        lemma_apply_keymap(h, config, events[0].0, events[0].1, answers);
        let (next, outcome) = apply_keymap(h, config, events[0].0, events[0].1, answers);
        if outcome is Ok {
            lemma_apply_keymaps(next, config, events.drop_first(), answers);
            lemma_grows_trans(
                h,
                next,
                apply_keymaps(next, config, events.drop_first(), answers).0,
            );
        }
    }
}

pub(crate) proof fn lemma_apply_modmap(
    h: HandlerView,
    config: ConfigView,
    key: Key,
    value: i32,
    now: Span,
    answers: AnswersView,
)
    requires
        in_event(h, answers),
    ensures
        ({
            let next = apply_modmap(h, config, key, value, now, answers).0;
            &&& next.modifiers == h.modifiers
            &&& next.pressed_keys == h.pressed_keys
            &&& grows(h, next)
        }),
        in_order(apply_modmap(h, config, key, value, now, answers), answers),
{
    lemma_find_modmap(h, config.modmap, key, answers);
    let (found, outcome) = find_modmap(h, config.modmap, key, answers);
    if let Ok(Some(ModmapActionView::PressReleaseKey { press, release })) = outcome {
        let hooks = if value == PRESS {
            press
        } else if value == RELEASE {
            release
        } else {
            seq![]
        };
        lemma_dispatch_actions(found, hooks, key, answers);
        lemma_grows_trans(h, found, dispatch_actions(found, hooks, key, answers).0);
    }
}

/// Whether `key`, if it is down, is the same as ever.
pub open spec fn same_mapping(h: HandlerView, next: HandlerView, key: Key) -> bool {
    &&& next.pressed_keys.contains_key(key) == h.pressed_keys.contains_key(key)
    &&& h.pressed_keys.contains_key(key) ==> next.pressed_keys[key] == h.pressed_keys[key]
}

pub(crate) proof fn lemma_key_events(
    h: HandlerView,
    event: KeyEvent,
    config: ConfigView,
    now: Span,
    answers: AnswersView,
)
    requires
        in_event(HandlerView { application_cache: None, ..h }, answers),
    ensures
        ({
            let next = key_events(h, event, config, now, answers).0;
            &&& next.modifiers == h.modifiers
            &&& forall|key: Key| key != event.code ==> same_mapping(h, next, key)
            &&& grows(h, next)
        }),
        in_order(key_events(h, event, config, now, answers), answers),
{
    let fresh = HandlerView { application_cache: None, ..h };
    lemma_apply_modmap(fresh, config, event.code, event.value, now, answers);
}

pub(crate) proof fn lemma_run(
    h: HandlerView,
    event: Event,
    config: ConfigView,
    now: Span,
    answers: AnswersView,
)
    requires
        h.timer_calls == 0,
    ensures
        grows(h, run(h, event, config, now, answers).0),
        event is KeyEvent ==> in_order(run(h, event, config, now, answers), answers),
        run(h, event, config, now, answers).1 matches Err(StopView::Failed(error))
            ==> is_first_failure(error, answers),
        event is OverrideTimeout ==> h.pressed_keys == run(
            h,
            event,
            config,
            now,
            answers,
        ).0.pressed_keys,
        event matches Event::KeyEvent(key_event) ==> forall|key: Key|
            key != key_event.code ==> same_mapping(
                h,
                run(h, event, config, now, answers).0,
                key,
            ),
{
    match event {
        Event::KeyEvent(key_event) => {
            lemma_key_events(h, key_event, config, now, answers);
            let (next, outcome) = key_events(h, key_event, config, now, answers);
            if let Ok(events) = outcome {
                lemma_apply_keymaps(next, config, events, answers);
                lemma_grows_trans(h, next, apply_keymaps(next, config, events, answers).0);
            }
            assert forall|key: Key| key != key_event.code implies same_mapping(
                h,
                run(h, event, config, now, answers).0,
                key,
            ) by {
                assert(same_mapping(h, next, key));
            }
        },
        Event::OverrideTimeout => {
            let sent = match h.override_timeout_key {
                Some(key) => send(h, tap(key)),
                None => h,
            };
            assert(h.modes.is_prefix_of(h.modes));
            assert(h.actions =~= sent.actions.subrange(0, h.actions.len() as int));
            if let Err(StopView::Failed(error)) = run(h, event, config, now, answers).1 {
                assert(answers.timer[0] == Err::<(), _>(error));
            }
        },
    }
}

// Laws of a single event

/// What an event asks for was not answered yet: the active application is asked for at most once,
/// which matchers match it is asked of that application and at most once, and the timer is not
/// called again after a call that failed.
pub proof fn law_requests_are_new(
    h: HandlerView,
    event: Event,
    config: ConfigView,
    now: Span,
    answers: AnswersView,
)
    ensures
        on_event(h, event, config, now, answers).1 matches StepView::Ask(request) ==> is_new(
            request,
            answers,
        ),
{
    lemma_run(h.at_rest(), event, config, now, answers);
}

/// An event fails only where the timer did, with the error of the first request about the timer
/// that did not go well.
pub proof fn law_failure_is_of_the_timer(
    h: HandlerView,
    event: Event,
    config: ConfigView,
    now: Span,
    answers: AnswersView,
)
    ensures
        on_event(h, event, config, now, answers).1 matches StepView::Done {
            result: Err(error),
            ..
        } ==> is_first_failure(error, answers),
{
    lemma_run(h.at_rest(), event, config, now, answers);
}

/// No action is lost: those that wait come first among those that are handed out or, where the
/// timer failed, among those that wait from then on. After an event that went well, none waits.
pub proof fn law_no_action_is_lost(
    h: HandlerView,
    event: Event,
    config: ConfigView,
    now: Span,
    answers: AnswersView,
)
    ensures
        ({
            let (next, step) = on_event(h, event, config, now, answers);
            match step {
                StepView::Ask(_) => next == h,
                StepView::Done { result: Ok(actions), .. } => {
                    &&& h.actions.is_prefix_of(actions)
                    &&& next.actions.len() == 0
                },
                StepView::Done { result: Err(_), .. } => h.actions.is_prefix_of(next.actions),
            }
        }),
{
    lemma_run(h.at_rest(), event, config, now, answers);
}

/// The mode after an event is the last one that was switched to on the way, if any was.
pub proof fn law_mode_is_the_last_switched_to(
    h: HandlerView,
    event: Event,
    config: ConfigView,
    now: Span,
    answers: AnswersView,
)
    ensures
        ({
            let (next, step) = on_event(h, event, config, now, answers);
            step matches StepView::Done { modes, .. } ==> next.mode == if modes.len() > 0 {
                modes.last()
            } else {
                h.mode
            }
        }),
{
    lemma_run(h.at_rest(), event, config, now, answers);
}

} // verus!
