//! An event whose requests are answered gets done.

use crate::config::{ConfigView, KeymapEntryView, ModmapActionView, ModmapView};
use crate::event::{Event, Span, PRESS, RELEASE};
use crate::keymap_action::KeymapActionView;
use crate::keys::Key;
use crate::laws::answers;
use crate::model::{
    apply_keymap, apply_keymaps, apply_modmap, dispatch_action, dispatch_actions, find_in_table,
    find_keymap, find_modmap, flush_override, key_events, match_limit, on_event, remove_override,
    run, scan_entries, HandlerView,
};
use crate::outside::{AnswersView, Matcher, StepView};
use vstd::prelude::*;

verus! {

/// What is known of the application.
pub struct Known {
    pub application: Option<Seq<char>>,
    pub matching: Seq<Matcher>,
}

/// The answers in which the application is `known` and `n` requests about the timer went well.
pub open spec fn all_well(known: Known, n: nat) -> AnswersView {
    AnswersView {
        application: Some(known.application),
        matching: Some(known.matching),
        timer: Seq::new(n, |i: int| Ok(())),
    }
}

proof fn lemma_more_is_well(known: Known, n: nat, m: nat)
    requires
        n <= m,
    ensures
        all_well(known, n).extended_by(all_well(known, m)),
{
    assert(all_well(known, n).timer =~= all_well(known, m).timer.subrange(0, n as int));
}

proof fn lemma_find_modmap(
    h: HandlerView,
    modmaps: Seq<ModmapView>,
    key: Key,
    known: Known,
    n: nat,
)
    ensures
        find_modmap(h, modmaps, key, all_well(known, n)).1 is Ok,
    decreases modmaps.len(),
{
    if modmaps.len() > 0 {
        lemma_find_modmap(h, modmaps.drop_first(), key, known, n);
        let next = match_limit(h, modmaps[0].application, all_well(known, n)).0;
        lemma_find_modmap(next, modmaps.drop_first(), key, known, n);
    }
}

proof fn lemma_scan_entries(
    h: HandlerView,
    entries: Seq<KeymapEntryView>,
    exact: bool,
    known: Known,
    n: nat,
)
    ensures
        scan_entries(h, entries, exact, all_well(known, n)).1 is Ok,
    decreases entries.len(),
{
    if entries.len() > 0 {
        lemma_scan_entries(h, entries.drop_first(), exact, known, n);
        let next = match_limit(h, entries[0].application, all_well(known, n)).0;
        lemma_scan_entries(next, entries.drop_first(), exact, known, n);
    }
}

proof fn lemma_find_in_table(
    h: HandlerView,
    table: Map<Key, Seq<KeymapEntryView>>,
    key: Key,
    known: Known,
    n: nat,
)
    ensures
        find_in_table(h, table, key, all_well(known, n)).1 is Ok,
{
    if table.contains_key(key) {
        lemma_scan_entries(h, table[key], true, known, n);
        let next = scan_entries(h, table[key], true, all_well(known, n)).0;
        lemma_scan_entries(next, table[key], false, known, n);
    }
}

proof fn lemma_find_keymap(h: HandlerView, config: ConfigView, key: Key, known: Known) -> (n: nat)
    ensures
        find_keymap(h, config, key, all_well(known, n)).1 is Ok,
{
    let n = h.timer_calls + 2;
    let answers = all_well(known, n);
    lemma_find_in_table(h, config.keymap_table, key, known, n);
    if let Some(table) = h.override_remap {
        let removed = if table.contains_key(key) {
            remove_override(h, answers).0
        } else {
            h
        };
        let flushed = flush_override(removed, h.override_timeout_key, answers).0;
        lemma_find_in_table(flushed, config.keymap_table, key, known, n);
    }
    n
}

proof fn lemma_dispatch_actions(
    h: HandlerView,
    actions: Seq<KeymapActionView>,
    key: Key,
    known: Known,
) -> (n: nat)
    ensures
        dispatch_actions(h, actions, key, all_well(known, n)).1 is Ok,
    decreases actions.len(),
{
    if actions.len() == 0 {
        0
    } else {
        let first = h.timer_calls + 2;
        let (next, outcome) = dispatch_action(h, actions[0], key, all_well(known, first));
        assert(outcome is Ok);
        let rest = lemma_dispatch_actions(next, actions.drop_first(), key, known);
        let n = if first < rest {
            rest
        } else {
            first
        };
        lemma_more_is_well(known, first, n);
        lemma_more_is_well(known, rest, n);
        answers::lemma_dispatch_action(
            h,
            actions[0],
            key,
            all_well(known, first),
            all_well(known, n),
        );
        answers::lemma_dispatch_actions(
            next,
            actions.drop_first(),
            key,
            all_well(known, rest),
            all_well(known, n),
        );
        n
    }
}

proof fn lemma_apply_keymap(
    h: HandlerView,
    config: ConfigView,
    key: Key,
    value: i32,
    known: Known,
) -> (n: nat)
    ensures
        apply_keymap(h, config, key, value, all_well(known, n)).1 is Ok,
{
    let first = lemma_find_keymap(h, config, key, known);
    let (found, outcome) = find_keymap(h, config, key, all_well(known, first));
    if let Ok(Some(actions)) = outcome {
        let rest = lemma_dispatch_actions(found, actions, key, known);
        let n = if first < rest {
            rest
        } else {
            first
        };
        lemma_more_is_well(known, first, n);
        lemma_more_is_well(known, rest, n);
        answers::lemma_find_keymap(
            h,
            config,
            key,
            all_well(known, first),
            all_well(known, n),
        );
        answers::lemma_dispatch_actions(
            found,
            actions,
            key,
            all_well(known, rest),
            all_well(known, n),
        );
        n
    } else {
        first
    }
}

proof fn lemma_apply_keymaps(
    h: HandlerView,
    config: ConfigView,
    events: Seq<(Key, i32)>,
    known: Known,
) -> (n: nat)
    ensures
        apply_keymaps(h, config, events, all_well(known, n)).1 is Ok,
    decreases events.len(),
{
    if events.len() == 0 {
        0
    } else {
        let (key, value) = events[0];
        let first = lemma_apply_keymap(h, config, key, value, known);
        let next = apply_keymap(h, config, key, value, all_well(known, first)).0;
        let rest = lemma_apply_keymaps(next, config, events.drop_first(), known);
        let n = if first < rest {
            rest
        } else {
            first
        };
        lemma_more_is_well(known, first, n);
        lemma_more_is_well(known, rest, n);
        answers::lemma_apply_keymap(
            h,
            config,
            key,
            value,
            all_well(known, first),
            all_well(known, n),
        );
        answers::lemma_apply_keymaps(
            next,
            config,
            events.drop_first(),
            all_well(known, rest),
            all_well(known, n),
        );
        n
    }
}

proof fn lemma_apply_modmap(
    h: HandlerView,
    config: ConfigView,
    key: Key,
    value: i32,
    now: Span,
    known: Known,
) -> (n: nat)
    ensures
        apply_modmap(h, config, key, value, now, all_well(known, n)).1 is Ok,
{
    lemma_find_modmap(h, config.modmap, key, known, 0);
    let (found, outcome) = find_modmap(h, config.modmap, key, all_well(known, 0));
    if let Ok(Some(ModmapActionView::PressReleaseKey { press, release })) = outcome {
        let hooks = if value == PRESS {
            press
        } else if value == RELEASE {
            release
        } else {
            seq![]
        };
        let n = lemma_dispatch_actions(found, hooks, key, known);
        lemma_more_is_well(known, 0, n);
        answers::lemma_find_modmap(
            h,
            config.modmap,
            key,
            all_well(known, 0),
            all_well(known, n),
        );
        n
    } else {
        0
    }
}

proof fn lemma_run(
    h: HandlerView,
    event: Event,
    config: ConfigView,
    now: Span,
    known: Known,
) -> (n: nat)
    ensures
        run(h, event, config, now, all_well(known, n)).1 is Ok,
{
    match event {
        Event::OverrideTimeout => h.timer_calls + 1,
        Event::KeyEvent(key_event) => {
            let fresh = HandlerView { application_cache: None, ..h };
            let (key, value) = (key_event.code, key_event.value);
            let first = lemma_apply_modmap(fresh, config, key, value, now, known);
            let (next, outcome) = key_events(h, key_event, config, now, all_well(known, first));
            let events = outcome->Ok_0;
            let rest = lemma_apply_keymaps(next, config, events, known);
            let n = if first < rest {
                rest
            } else {
                first
            };
            lemma_more_is_well(known, first, n);
            lemma_more_is_well(known, rest, n);
            answers::lemma_apply_modmap(
                fresh,
                config,
                key,
                value,
                now,
                all_well(known, first),
                all_well(known, n),
            );
            answers::lemma_apply_keymaps(
                next,
                config,
                events,
                all_well(known, rest),
                all_well(known, n),
            );
            n
        },
    }
}

/// The requests of an event come to an end, and success is owed: once the application is known and
/// enough requests about the timer went well, the event is done and its actions are handed out.
pub proof fn law_every_event_gets_done(
    h: HandlerView,
    event: Event,
    config: ConfigView,
    now: Span,
    known: Known,
)
    ensures
        exists|n: nat|
            (#[trigger] on_event(h, event, config, now, all_well(known, n)).1) matches StepView::Done {
                result,
                ..
            } && result is Ok,
{
    let n = lemma_run(h.at_rest(), event, config, now, known);
    let step = on_event(h, event, config, now, all_well(known, n)).1;
    assert(step is Done);
}

} // verus!
