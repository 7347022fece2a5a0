//! Answers that are added do not change what was settled without them.

use crate::config::{
    override_table, ApplicationView, ConfigView, KeymapEntryView, ModmapActionView, ModmapView,
};
use crate::event::{Event, KeyEvent, Span, PRESS, RELEASE};
use crate::keymap_action::KeymapActionView;
use crate::keys::Key;
use crate::laws::frame::answered;
use crate::model::{
    apply_keymap, apply_keymaps, apply_modmap, call_timer, dispatch_action, dispatch_actions,
    entry_fits, find_in_table, find_keymap, find_modmap, flush_override, key_events, match_limit,
    mode_fits, on_event, pick_override, remove_override, run, scan_entries, send, tap, HandlerView,
};
use crate::outside::{AnswersView, RequestView};
use vstd::prelude::*;

verus! {

pub(crate) proof fn lemma_match_limit(
    h: HandlerView,
    limit: Option<ApplicationView>,
    answers: AnswersView,
    more: AnswersView,
)
    requires
        answers.extended_by(more),
        answered(match_limit(h, limit, answers)),
    ensures
        match_limit(h, limit, more) == match_limit(h, limit, answers),
{
}

pub(crate) proof fn lemma_call_timer(
    h: HandlerView,
    request: RequestView,
    answers: AnswersView,
    more: AnswersView,
)
    requires
        answers.extended_by(more),
        answered(call_timer(h, request, answers)),
    ensures
        call_timer(h, request, more) == call_timer(h, request, answers),
{
    assert(answers.timer[h.timer_calls as int] == more.timer[h.timer_calls as int]);
}

pub(crate) proof fn lemma_remove_override(h: HandlerView, answers: AnswersView, more: AnswersView)
    requires
        answers.extended_by(more),
        answered(remove_override(h, answers)),
    ensures
        remove_override(h, more) == remove_override(h, answers),
{
    lemma_call_timer(h, RequestView::UnsetTimer, answers, more);
}

pub(crate) proof fn lemma_flush_override(
    h: HandlerView,
    pending: Option<Key>,
    answers: AnswersView,
    more: AnswersView,
)
    requires
        answers.extended_by(more),
        answered(flush_override(h, pending, answers)),
    ensures
        flush_override(h, pending, more) == flush_override(h, pending, answers),
{
    let sent = match pending {
        Some(key) => send(h, tap(key)),
        None => h,
    };
    lemma_remove_override(sent, answers, more);
}

pub(crate) proof fn lemma_dispatch_action(
    h: HandlerView,
    action: KeymapActionView,
    key: Key,
    answers: AnswersView,
    more: AnswersView,
)
    requires
        answers.extended_by(more),
        answered(dispatch_action(h, action, key, answers)),
    ensures
        dispatch_action(h, action, key, more) == dispatch_action(h, action, key, answers),
{
    if let KeymapActionView::Remap(remap) = action {
        let set = HandlerView { override_remap: Some(override_table(remap.remap)), ..h };
        if let Some(timeout) = remap.timeout {
            lemma_call_timer(set, RequestView::UnsetTimer, answers, more);
            let (unset, first) = call_timer(set, RequestView::UnsetTimer, answers);
            if first is Ok {
                lemma_call_timer(unset, RequestView::SetTimer(timeout), answers, more);
            }
        }
    }
}

pub(crate) proof fn lemma_dispatch_actions(
    h: HandlerView,
    actions: Seq<KeymapActionView>,
    key: Key,
    answers: AnswersView,
    more: AnswersView,
)
    requires
        answers.extended_by(more),
        answered(dispatch_actions(h, actions, key, answers)),
    ensures
        dispatch_actions(h, actions, key, more) == dispatch_actions(h, actions, key, answers),
    decreases actions.len(),
{
    if actions.len() > 0 {
        lemma_dispatch_action(h, actions[0], key, answers, more);
        let (next, outcome) = dispatch_action(h, actions[0], key, answers);
        if outcome is Ok {
            lemma_dispatch_actions(next, actions.drop_first(), key, answers, more);
        }
    }
}

pub(crate) proof fn lemma_find_modmap(
    h: HandlerView,
    modmaps: Seq<ModmapView>,
    key: Key,
    answers: AnswersView,
    more: AnswersView,
)
    requires
        answers.extended_by(more),
        answered(find_modmap(h, modmaps, key, answers)),
    ensures
        find_modmap(h, modmaps, key, more) == find_modmap(h, modmaps, key, answers),
    decreases modmaps.len(),
{
    if modmaps.len() == 0 {
    } else if !modmaps[0].remap.contains_key(key) {
        lemma_find_modmap(h, modmaps.drop_first(), key, answers, more);
    } else {
        lemma_match_limit(h, modmaps[0].application, answers, more);
        let (next, outcome) = match_limit(h, modmaps[0].application, answers);
        if outcome matches Ok(false) {
            lemma_find_modmap(next, modmaps.drop_first(), key, answers, more);
        }
    }
}

pub(crate) proof fn lemma_scan_entries(
    h: HandlerView,
    entries: Seq<KeymapEntryView>,
    exact: bool,
    answers: AnswersView,
    more: AnswersView,
)
    requires
        answers.extended_by(more),
        answered(scan_entries(h, entries, exact, answers)),
    ensures
        scan_entries(h, entries, exact, more) == scan_entries(h, entries, exact, answers),
    decreases entries.len(),
{
    if entries.len() == 0 {
    } else if !entry_fits(h, entries[0], exact) {
        lemma_scan_entries(h, entries.drop_first(), exact, answers, more);
    } else {
        lemma_match_limit(h, entries[0].application, answers, more);
        let (next, outcome) = match_limit(h, entries[0].application, answers);
        if let Ok(admitted) = outcome {
            if !(admitted && mode_fits(next, entries[0])) {
                lemma_scan_entries(next, entries.drop_first(), exact, answers, more);
            }
        }
    }
}

pub(crate) proof fn lemma_find_in_table(
    h: HandlerView,
    table: Map<Key, Seq<KeymapEntryView>>,
    key: Key,
    answers: AnswersView,
    more: AnswersView,
)
    requires
        answers.extended_by(more),
        answered(find_in_table(h, table, key, answers)),
    ensures
        find_in_table(h, table, key, more) == find_in_table(h, table, key, answers),
{
    if table.contains_key(key) {
        lemma_scan_entries(h, table[key], true, answers, more);
        let (next, outcome) = scan_entries(h, table[key], true, answers);
        if outcome matches Ok(None) {
            lemma_scan_entries(next, table[key], false, answers, more);
        }
    }
}

pub(crate) proof fn lemma_find_keymap(
    h: HandlerView,
    config: ConfigView,
    key: Key,
    answers: AnswersView,
    more: AnswersView,
)
    requires
        answers.extended_by(more),
        answered(find_keymap(h, config, key, answers)),
    ensures
        find_keymap(h, config, key, more) == find_keymap(h, config, key, answers),
{
    match h.override_remap {
        None => {
            lemma_find_in_table(h, config.keymap_table, key, answers, more);
        },
        Some(table) => {
            let pending = h.override_timeout_key;
            if table.contains_key(key) {
                lemma_remove_override(h, answers, more);
            }
            let (removed, first) = if table.contains_key(key) {
                remove_override(h, answers)
            } else {
                (h, Ok(()))
            };
            let picked = table.contains_key(key) && pick_override(removed, table[key]) is Some;
            if first is Ok && !picked {
                lemma_flush_override(removed, pending, answers, more);
                let (flushed, second) = flush_override(removed, pending, answers);
                if second is Ok {
                    lemma_find_in_table(flushed, config.keymap_table, key, answers, more);
                }
            }
        },
    }
}

pub(crate) proof fn lemma_apply_keymap(
    h: HandlerView,
    config: ConfigView,
    key: Key,
    value: i32,
    answers: AnswersView,
    more: AnswersView,
)
    requires
        answers.extended_by(more),
        answered(apply_keymap(h, config, key, value, answers)),
    ensures
        apply_keymap(h, config, key, value, more) == apply_keymap(h, config, key, value, answers),
{
    let (found, outcome) = find_keymap(h, config, key, answers);
    if answered((found, outcome)) {
        lemma_find_keymap(h, config, key, answers, more);
        if let Ok(Some(actions)) = outcome {
            if answered(dispatch_actions(found, actions, key, answers)) {
                lemma_dispatch_actions(found, actions, key, answers, more);
            }
        }
    }
}

pub(crate) proof fn lemma_apply_keymaps(
    h: HandlerView,
    config: ConfigView,
    events: Seq<(Key, i32)>,
    answers: AnswersView,
    more: AnswersView,
)
    requires
        answers.extended_by(more),
        answered(apply_keymaps(h, config, events, answers)),
    ensures
        apply_keymaps(h, config, events, more) == apply_keymaps(h, config, events, answers),
    decreases events.len(),
{
    if events.len() > 0 {
        lemma_apply_keymap(h, config, events[0].0, events[0].1, answers, more);
        let (next, outcome) = apply_keymap(h, config, events[0].0, events[0].1, answers);
        if outcome is Ok {
            lemma_apply_keymaps(next, config, events.drop_first(), answers, more);
        }
    }
}

pub(crate) proof fn lemma_apply_modmap(
    h: HandlerView,
    config: ConfigView,
    key: Key,
    value: i32,
    now: Span,
    answers: AnswersView,
    more: AnswersView,
)
    requires
        answers.extended_by(more),
        answered(apply_modmap(h, config, key, value, now, answers)),
    ensures
        apply_modmap(h, config, key, value, now, more) == apply_modmap(
            h,
            config,
            key,
            value,
            now,
            answers,
        ),
{
    lemma_find_modmap(h, config.modmap, key, answers, more);
    let (found, outcome) = find_modmap(h, config.modmap, key, answers);
    if let Ok(Some(ModmapActionView::PressReleaseKey { press, release })) = outcome {
        let hooks = if value == PRESS {
            press
        } else if value == RELEASE {
            release
        } else {
            seq![]
        };
        lemma_dispatch_actions(found, hooks, key, answers, more);
    }
}

pub(crate) proof fn lemma_run(
    h: HandlerView,
    event: Event,
    config: ConfigView,
    now: Span,
    answers: AnswersView,
    more: AnswersView,
)
    requires
        answers.extended_by(more),
        answered(run(h, event, config, now, answers)),
    ensures
        run(h, event, config, now, more) == run(h, event, config, now, answers),
{
    match event {
        Event::KeyEvent(key_event) => {
            let fresh = HandlerView { application_cache: None, ..h };
            lemma_apply_modmap(
                fresh,
                config,
                key_event.code,
                key_event.value,
                now,
                answers,
                more,
            );
            let (next, outcome) = key_events(h, key_event, config, now, answers);
            if let Ok(events) = outcome {
                lemma_apply_keymaps(next, config, events, answers, more);
            }
        },
        Event::OverrideTimeout => {
            lemma_flush_override(h, h.override_timeout_key, answers, more);
        },
    }
}

/// An event that is done with some answers is done in the same way with more: what was settled
/// does not depend on answers that nobody asked for.
pub proof fn law_answers_settle_an_event(
    h: HandlerView,
    event: Event,
    config: ConfigView,
    now: Span,
    answers: AnswersView,
    more: AnswersView,
)
    requires
        answers.extended_by(more),
        on_event(h, event, config, now, answers).1 is Done,
    ensures
        on_event(h, event, config, now, more) == on_event(h, event, config, now, answers),
{
    lemma_run(h.at_rest(), event, config, now, answers, more);
}

} // verus!
