//! What the handler does, as a function of its state, the event, the configuration, the time and
//! the answers.
//!
//! A function that can be stopped gives the state that it leaves, and either what it comes to or
//! what stopped it.

use crate::action::{key_action, key_actions, ActionView};
use crate::config::{
    override_table, ApplicationView, ConfigView, KeymapEntryView, ModmapActionView, ModmapView,
    MultiPurposeKey, OverrideEntryView,
};
use crate::event::{Event, KeyEvent, Span, PRESS, RELEASE, REPEAT};
use crate::key_set::{with_key, without_key};
use crate::keymap_action::{KeyPressView, KeymapActionView, RemapView};
use crate::keys::{extra_keys, holds, is_modifier_key, missing_keys, Key, Modifier};
use crate::multi_purpose::{
    all_held, delayed_presses, replace_state, state_of, with_state, without_state,
    MultiPurposeKeyState,
};
use crate::outside::{AnswersView, Matcher, RequestView, StepView, StopView};
use std::time::Duration;
use vstd::prelude::*;

verus! {

/// The state of the handler.
#[verifier::ext_equal]
pub struct HandlerView {
    /// The modifiers that are down, virtual ones among them, in the order in which they went down.
    pub modifiers: Seq<Key>,
    /// The modifiers that are not released to emulate a key press.
    pub extra_modifiers: Set<Key>,
    /// What was sent when each of the keys that are down was pressed.
    pub pressed_keys: Map<Key, Key>,
    /// The name of the active application, once it is known.
    pub application_cache: Option<Seq<char>>,
    /// The multi-purpose keys that are down.
    pub multi_purpose_keys: Seq<(Key, MultiPurposeKeyState)>,
    /// The table of the nested remap that stands, if one does.
    pub override_remap: Option<Map<Key, Seq<OverrideEntryView>>>,
    /// Whether a nested remap asks for exactly the modifiers that it names.
    pub override_remap_exact_match: bool,
    /// The key that is sent when the nested remap times out.
    pub override_timeout_key: Option<Key>,
    pub mode: Seq<char>,
    pub mark_set: bool,
    pub escape_next_key: bool,
    pub keypress_delay: Duration,
    /// The actions that wait to be handed out.
    pub actions: Seq<ActionView>,
    /// How many of the answers about the timer were used in this event.
    pub timer_calls: nat,
    /// The modes that were switched to in this event.
    pub modes: Seq<Seq<char>>,
}

impl HandlerView {
    /// The state in which a handler starts.
    pub open spec fn initial(mode: Seq<char>, keypress_delay: Duration) -> HandlerView {
        HandlerView {
            modifiers: Seq::empty(),
            extra_modifiers: Set::empty(),
            pressed_keys: Map::empty(),
            application_cache: None,
            multi_purpose_keys: Seq::empty(),
            override_remap: None,
            override_remap_exact_match: false,
            override_timeout_key: None,
            mode,
            mark_set: false,
            escape_next_key: false,
            keypress_delay,
            actions: Seq::empty(),
            timer_calls: 0,
            modes: Seq::empty(),
        }
    }

    /// What holds of the state between two events: no modifier and no multi-purpose key is listed
    /// twice, and nothing is left of the event before.
    pub open spec fn wf(self) -> bool {
        &&& self.modifiers.no_duplicates()
        &&& forall|i: int, j: int|
            0 <= i < j < self.multi_purpose_keys.len() ==> (#[trigger] self.multi_purpose_keys[i]).0
                != (#[trigger] self.multi_purpose_keys[j]).0
        &&& self.timer_calls == 0
        &&& self.modes == Seq::<Seq<char>>::empty()
    }

    /// The state with what belongs to a single event taken out.
    pub open spec fn at_rest(self) -> HandlerView {
        HandlerView { timer_calls: 0, modes: Seq::empty(), ..self }
    }
}

// Sending

/// `actions` are added to those that wait.
pub open spec fn send(h: HandlerView, actions: Seq<ActionView>) -> HandlerView {
    HandlerView { actions: h.actions + actions, ..h }
}

/// The press and the release of `key`.
pub open spec fn tap(key: Key) -> Seq<ActionView> {
    seq![key_action(key, PRESS), key_action(key, RELEASE)]
}

/// The test that a key passes when it has to be released to emulate a key press: it acts as a
/// modifier outside, and nothing keeps it down.
pub open spec fn releasable(kept: Set<Key>) -> spec_fn(Key) -> bool {
    |key: Key| is_modifier_key(key) && !kept.contains(key)
}

/// The test that a key passes when it acts as a modifier outside.
pub open spec fn real_modifier() -> spec_fn(Key) -> bool {
    |key: Key| is_modifier_key(key)
}

/// The modifiers that are released while a key press with `modifiers` is sent.
pub open spec fn released_for(h: HandlerView, modifiers: Seq<Modifier>) -> Seq<Key> {
    extra_keys(h.modifiers, modifiers).filter(releasable(h.extra_modifiers))
}

/// The modifiers that are pressed while a key press with `modifiers` is sent.
pub open spec fn pressed_for(h: HandlerView, modifiers: Seq<Modifier>) -> Seq<Key> {
    missing_keys(h.modifiers, modifiers).filter(real_modifier())
}

/// What is sent for `key_press`: its modifiers are emulated, its key is hit, and the modifiers
/// that were down before are brought back.
pub open spec fn key_press_actions(h: HandlerView, key_press: KeyPressView) -> Seq<ActionView> {
    let released = released_for(h, key_press.modifiers);
    let pressed = pressed_for(h, key_press.modifiers);
    key_actions(pressed, PRESS) + key_actions(released, RELEASE) + tap(key_press.key) + seq![
        ActionView::Delay(h.keypress_delay),
    ] + key_actions(released, PRESS) + key_actions(pressed, RELEASE)
}

/// `key_press` is sent.
pub open spec fn send_key_press(h: HandlerView, key_press: KeyPressView) -> HandlerView {
    send(h, key_press_actions(h, key_press))
}

/// `key_press`, with shift added while the mark is set and shift is not held.
pub open spec fn with_mark(h: HandlerView, key_press: KeyPressView) -> KeyPressView {
    if h.mark_set && !holds(h.modifiers, Modifier::Shift) {
        KeyPressView { modifiers: key_press.modifiers.push(Modifier::Shift), ..key_press }
    } else {
        key_press
    }
}

// Modifiers

/// A modifier goes down or up.
pub open spec fn update_modifier(h: HandlerView, key: Key, value: i32) -> HandlerView {
    if value == PRESS {
        HandlerView { modifiers: with_key(h.modifiers, key), ..h }
    } else if value == RELEASE {
        HandlerView { modifiers: without_key(h.modifiers, key), ..h }
    } else {
        h
    }
}

/// Whether an entry that names `modifiers` fits the modifiers in `pressed`: all that it names are
/// held and, where the match has to be exact, no others.
pub open spec fn fits(pressed: Seq<Key>, modifiers: Seq<Modifier>, exact: bool) -> bool {
    &&& missing_keys(pressed, modifiers).len() == 0
    &&& exact ==> extra_keys(pressed, modifiers).len() == 0
}

/// `actions`, between a note not to release the keys in `extra` and a note that takes this back.
pub open spec fn with_extra_modifiers(actions: Seq<KeymapActionView>, extra: Seq<Key>) -> Seq<
    KeymapActionView,
> {
    if extra.len() > 0 {
        seq![KeymapActionView::SetExtraModifiers(extra)] + actions + seq![
            KeymapActionView::SetExtraModifiers(Seq::empty()),
        ]
    } else {
        actions
    }
}

// Applications

/// The name that is matched where the active application is `current`: the empty one if none could
/// be told.
pub open spec fn name_of(current: Option<Seq<char>>) -> Seq<char> {
    match current {
        Some(name) => name,
        None => Seq::empty(),
    }
}

/// Whether one of `matchers` is among those that match.
pub open spec fn some_matches(matchers: Seq<Matcher>, matching: Seq<Matcher>) -> bool {
    exists|i: int| 0 <= i < matchers.len() && matching.contains(#[trigger] matchers[i])
}

/// Whether `application` admits the application that exactly the matchers in `matching` match.
pub open spec fn admits(application: ApplicationView, matching: Seq<Matcher>) -> bool {
    match application.only {
        Some(only) => some_matches(only, matching),
        None => match application.not {
            Some(not) => !some_matches(not, matching),
            None => false,
        },
    }
}

/// Whether the active application is admitted. Its name is found out if it is not known yet.
pub open spec fn match_application(
    h: HandlerView,
    application: ApplicationView,
    answers: AnswersView,
) -> (HandlerView, Result<bool, StopView>) {
    if h.application_cache is None && answers.application is None {
        (h, Err(StopView::Ask(RequestView::CurrentApplication)))
    } else {
        let name = match h.application_cache {
            Some(name) => name,
            None => name_of(answers.application->0),
        };
        let known = HandlerView { application_cache: Some(name), ..h };
        if application.only is None && application.not is None {
            (known, Ok(false))
        } else {
            match answers.matching {
                Some(matching) => (known, Ok(admits(application, matching))),
                None => (known, Err(StopView::Ask(RequestView::Matching(name)))),
            }
        }
    }
}

/// Like [`match_application`]; where there is no limit to applications, all are admitted.
pub open spec fn match_limit(
    h: HandlerView,
    limit: Option<ApplicationView>,
    answers: AnswersView,
) -> (HandlerView, Result<bool, StopView>) {
    match limit {
        Some(application) => match_application(h, application, answers),
        None => (h, Ok(true)),
    }
}

// The timer and nested remaps

/// The timer is set or unset as `request` says.
pub open spec fn call_timer(h: HandlerView, request: RequestView, answers: AnswersView) -> (
    HandlerView,
    Result<(), StopView>,
) {
    if h.timer_calls < answers.timer.len() {
        let called = HandlerView { timer_calls: h.timer_calls + 1, ..h };
        match answers.timer[h.timer_calls as int] {
            Ok(()) => (called, Ok(())),
            Err(error) => (called, Err(StopView::Failed(error))),
        }
    } else {
        (h, Err(StopView::Ask(request)))
    }
}

/// The nested remap is taken down.
pub open spec fn remove_override(h: HandlerView, answers: AnswersView) -> (
    HandlerView,
    Result<(), StopView>,
) {
    match call_timer(h, RequestView::UnsetTimer, answers) {
        (h, Ok(())) => (
            HandlerView { override_remap: None, override_timeout_key: None, ..h },
            Ok(()),
        ),
        (h, Err(stop)) => (h, Err(stop)),
    }
}

/// The key `pending`, if there is one, is sent, and the nested remap is taken down.
pub open spec fn flush_override(h: HandlerView, pending: Option<Key>, answers: AnswersView) -> (
    HandlerView,
    Result<(), StopView>,
) {
    remove_override(
        match pending {
            Some(key) => send(h, tap(key)),
            None => h,
        },
        answers,
    )
}

/// The nested remap is taken down, and its pending key is sent.
pub open spec fn timeout_override(h: HandlerView, answers: AnswersView) -> (
    HandlerView,
    Result<(), StopView>,
) {
    flush_override(h, h.override_timeout_key, answers)
}

/// The test that an entry of a nested remap passes when it fits the modifiers in `pressed`.
pub open spec fn override_fits(pressed: Seq<Key>, exact: bool) -> spec_fn(OverrideEntryView) -> bool {
    |entry: OverrideEntryView| fits(pressed, entry.modifiers, exact)
}

/// The actions of the first of `entries` that fits, if one does.
pub open spec fn first_override(h: HandlerView, entries: Seq<OverrideEntryView>, exact: bool) -> Option<
    Seq<KeymapActionView>,
> {
    let fitting = entries.filter(override_fits(h.modifiers, exact));
    if fitting.len() > 0 {
        Some(
            with_extra_modifiers(
                fitting[0].actions,
                extra_keys(h.modifiers, fitting[0].modifiers),
            ),
        )
    } else {
        None
    }
}

/// The actions of the entry that a nested remap picks: the first that fits exactly or, unless the
/// match has to be exact, the first that fits.
pub open spec fn pick_override(h: HandlerView, entries: Seq<OverrideEntryView>) -> Option<
    Seq<KeymapActionView>,
> {
    match first_override(h, entries, true) {
        Some(actions) => Some(actions),
        None => if h.override_remap_exact_match {
            None
        } else {
            first_override(h, entries, false)
        },
    }
}

// Actions

/// The nested remap `remap` is set up by `key`.
pub open spec fn set_override(h: HandlerView, remap: RemapView, key: Key, answers: AnswersView) -> (
    HandlerView,
    Result<(), StopView>,
) {
    let set = HandlerView { override_remap: Some(override_table(remap.remap)), ..h };
    match remap.timeout {
        None => (set, Ok(())),
        Some(timeout) => match call_timer(set, RequestView::UnsetTimer, answers) {
            (h, Err(stop)) => (h, Err(stop)),
            (h, Ok(())) => match call_timer(h, RequestView::SetTimer(timeout), answers) {
                (h, Err(stop)) => (h, Err(stop)),
                (h, Ok(())) => (
                    HandlerView {
                        override_timeout_key: Some(
                            match remap.timeout_key {
                                Some(timeout_key) => timeout_key,
                                None => key,
                            },
                        ),
                        ..h
                    },
                    Ok(()),
                ),
            },
        },
    }
}

/// `action`, which `key` triggered, is carried out.
pub open spec fn dispatch_action(
    h: HandlerView,
    action: KeymapActionView,
    key: Key,
    answers: AnswersView,
) -> (HandlerView, Result<(), StopView>) {
    match action {
        KeymapActionView::KeyPress(key_press) => (send_key_press(h, key_press), Ok(())),
        KeymapActionView::Remap(remap) => set_override(h, remap, key, answers),
        KeymapActionView::Launch(command) => (send(h, seq![ActionView::Command(command)]), Ok(())),
        KeymapActionView::SetMode(mode) => (
            HandlerView { mode, modes: h.modes.push(mode), ..h },
            Ok(()),
        ),
        KeymapActionView::SetMark(set) => (HandlerView { mark_set: set, ..h }, Ok(())),
        KeymapActionView::WithMark(key_press) => (
            send_key_press(h, with_mark(h, key_press)),
            Ok(()),
        ),
        KeymapActionView::EscapeNextKey(escape) => (
            HandlerView { escape_next_key: escape, ..h },
            Ok(()),
        ),
        KeymapActionView::SetExtraModifiers(keys) => (
            HandlerView { extra_modifiers: keys.to_set(), ..h },
            Ok(()),
        ),
    }
}

/// `actions`, which `key` triggered, are carried out one after the other.
pub open spec fn dispatch_actions(
    h: HandlerView,
    actions: Seq<KeymapActionView>,
    key: Key,
    answers: AnswersView,
) -> (HandlerView, Result<(), StopView>)
    decreases actions.len(),
{
    if actions.len() == 0 {
        (h, Ok(()))
    } else {
        match dispatch_action(h, actions[0], key, answers) {
            (h, Ok(())) => dispatch_actions(h, actions.drop_first(), key, answers),
            (h, Err(stop)) => (h, Err(stop)),
        }
    }
}

// Modmaps

/// What the first of `modmaps` that has `key`, and is not limited to other applications, maps it
/// to.
pub open spec fn find_modmap(
    h: HandlerView,
    modmaps: Seq<ModmapView>,
    key: Key,
    answers: AnswersView,
) -> (HandlerView, Result<Option<ModmapActionView>, StopView>)
    decreases modmaps.len(),
{
    if modmaps.len() == 0 {
        (h, Ok(None))
    } else if !modmaps[0].remap.contains_key(key) {
        find_modmap(h, modmaps.drop_first(), key, answers)
    } else {
        match match_limit(h, modmaps[0].application, answers) {
            (h, Err(stop)) => (h, Err(stop)),
            (h, Ok(true)) => (h, Ok(Some(modmaps[0].remap[key]))),
            (h, Ok(false)) => find_modmap(h, modmaps.drop_first(), key, answers),
        }
    }
}

/// The key events that come of `value` on `key`, which is mapped to the multi-purpose key
/// `action`.
pub open spec fn dispatch_multi_purpose(
    h: HandlerView,
    action: MultiPurposeKey,
    key: Key,
    value: i32,
    now: Span,
) -> (HandlerView, Seq<(Key, i32)>) {
    if value == PRESS {
        let state = MultiPurposeKeyState::delayed(
            action.held,
            action.alone,
            now,
            action.alone_timeout,
        );
        (
            HandlerView {
                multi_purpose_keys: with_state(h.multi_purpose_keys, key, state),
                ..h
            },
            seq![],
        )
    } else {
        match state_of(h.multi_purpose_keys, key) {
            None => (h, seq![(key, value)]),
            Some(state) => if value == REPEAT {
                (
                    HandlerView {
                        multi_purpose_keys: replace_state(
                            h.multi_purpose_keys,
                            key,
                            state.after_repeat(now),
                        ),
                        ..h
                    },
                    state.on_repeat(now),
                )
            } else {
                (
                    HandlerView {
                        multi_purpose_keys: without_state(h.multi_purpose_keys, key),
                        ..h
                    },
                    state.on_release(now),
                )
            },
        }
    }
}

/// Whether `value` is one that a multi-purpose key can deal with.
pub open spec fn is_known_value(value: i32) -> bool {
    value == PRESS || value == REPEAT || value == RELEASE
}

/// The key events that come of `value` on `key`, which is mapped to `action`.
pub open spec fn dispatch_keys(
    h: HandlerView,
    action: ModmapActionView,
    key: Key,
    value: i32,
    now: Span,
    answers: AnswersView,
) -> (HandlerView, Result<Seq<(Key, i32)>, StopView>) {
    match action {
        ModmapActionView::Key(mapped) => (h, Ok(seq![(mapped, value)])),
        ModmapActionView::MultiPurposeKey(action) => {
            let (h, events) = dispatch_multi_purpose(h, action, key, value, now);
            (h, Ok(events))
        },
        ModmapActionView::PressReleaseKey { press, release } => {
            let hooks = if value == PRESS {
                press
            } else if value == RELEASE {
                release
            } else {
                seq![]
            };
            match dispatch_actions(h, hooks, key, answers) {
                (h, Ok(())) => (h, Ok(seq![(key, value)])),
                (h, Err(stop)) => (h, Err(stop)),
            }
        },
    }
}

/// A key that is repeated or released is the one that was sent when it was pressed, even if it is
/// mapped to another one by now. This is for a key event that comes of one with the same value.
pub open spec fn maintain_pressed_keys(
    h: HandlerView,
    key: Key,
    value: i32,
    events: Seq<(Key, i32)>,
) -> (HandlerView, Seq<(Key, i32)>) {
    if events.len() != 1 || value != events[0].1 {
        (h, events)
    } else if value == PRESS {
        (HandlerView { pressed_keys: h.pressed_keys.insert(key, events[0].0), ..h }, events)
    } else {
        (
            if value == RELEASE {
                HandlerView { pressed_keys: h.pressed_keys.remove(key), ..h }
            } else {
                h
            },
            if h.pressed_keys.contains_key(key) {
                seq![(h.pressed_keys[key], value)]
            } else {
                events
            },
        )
    }
}

/// Whether one of `events` is a press.
pub open spec fn has_press(events: Seq<(Key, i32)>) -> bool {
    exists|i: int| 0 <= i < events.len() && (#[trigger] events[i]).1 == PRESS
}

/// A press makes the multi-purpose keys that are down count as held, before it is dealt with.
pub open spec fn flush_timeout_keys(h: HandlerView, events: Seq<(Key, i32)>) -> (
    HandlerView,
    Seq<(Key, i32)>,
) {
    if has_press(events) {
        (
            HandlerView { multi_purpose_keys: all_held(h.multi_purpose_keys), ..h },
            delayed_presses(h.multi_purpose_keys) + events,
        )
    } else {
        (h, events)
    }
}

// Keymaps

/// Whether `entry` is for the modifiers that are down, in a round in which the match is or is not
/// exact.
pub open spec fn entry_fits(h: HandlerView, entry: KeymapEntryView, exact: bool) -> bool {
    &&& entry.exact_match ==> exact
    &&& fits(h.modifiers, entry.modifiers, exact)
}

/// Whether `entry` is for the mode.
pub open spec fn mode_fits(h: HandlerView, entry: KeymapEntryView) -> bool {
    entry.mode matches Some(modes) ==> modes.contains(h.mode)
}

/// The actions of the first of `entries` that is for the modifiers, the application and the mode.
pub open spec fn scan_entries(
    h: HandlerView,
    entries: Seq<KeymapEntryView>,
    exact: bool,
    answers: AnswersView,
) -> (HandlerView, Result<Option<Seq<KeymapActionView>>, StopView>)
    decreases entries.len(),
{
    if entries.len() == 0 {
        (h, Ok(None))
    } else if !entry_fits(h, entries[0], exact) {
        scan_entries(h, entries.drop_first(), exact, answers)
    } else {
        match match_limit(h, entries[0].application, answers) {
            (h, Err(stop)) => (h, Err(stop)),
            (h, Ok(admitted)) => if admitted && mode_fits(h, entries[0]) {
                (
                    HandlerView { override_remap_exact_match: entries[0].exact_match, ..h },
                    Ok(
                        Some(
                            with_extra_modifiers(
                                entries[0].actions,
                                extra_keys(h.modifiers, entries[0].modifiers),
                            ),
                        ),
                    ),
                )
            } else {
                scan_entries(h, entries.drop_first(), exact, answers)
            },
        }
    }
}

/// The actions that the keymaps have for `key`: first those of an exact match are looked for.
pub open spec fn find_in_table(
    h: HandlerView,
    table: Map<Key, Seq<KeymapEntryView>>,
    key: Key,
    answers: AnswersView,
) -> (HandlerView, Result<Option<Seq<KeymapActionView>>, StopView>) {
    if !table.contains_key(key) {
        (h, Ok(None))
    } else {
        match scan_entries(h, table[key], true, answers) {
            (h, Ok(None)) => scan_entries(h, table[key], false, answers),
            (h, found) => (h, found),
        }
    }
}

/// The actions for `key`: those of the nested remap or, where that has none that fit, those of the
/// keymaps, after the pending key of the nested remap was sent. A nested remap that has the key is
/// taken down before it is looked at, and once more if nothing in it fits.
pub open spec fn find_keymap(h: HandlerView, config: ConfigView, key: Key, answers: AnswersView) -> (
    HandlerView,
    Result<Option<Seq<KeymapActionView>>, StopView>,
) {
    match h.override_remap {
        None => find_in_table(h, config.keymap_table, key, answers),
        Some(table) => {
            let pending = h.override_timeout_key;
            let (h, picked) = if table.contains_key(key) {
                match remove_override(h, answers) {
                    (h, Ok(())) => (h, Ok(pick_override(h, table[key]))),
                    (h, Err(stop)) => (h, Err(stop)),
                }
            } else {
                (h, Ok(None))
            };
            match picked {
                Err(stop) => (h, Err(stop)),
                Ok(Some(actions)) => (h, Ok(Some(actions))),
                Ok(None) => match flush_override(h, pending, answers) {
                    (h, Ok(())) => find_in_table(h, config.keymap_table, key, answers),
                    (h, Err(stop)) => (h, Err(stop)),
                },
            }
        },
    }
}

/// `value` on `key` is dealt with once modmaps have been applied.
pub open spec fn apply_keymap(
    h: HandlerView,
    config: ConfigView,
    key: Key,
    value: i32,
    answers: AnswersView,
) -> (HandlerView, Result<(), StopView>) {
    let as_it_is = seq![key_action(key, value)];
    if config.virtual_modifiers.contains(key) {
        (update_modifier(h, key, value), Ok(()))
    } else if is_modifier_key(key) {
        (send(update_modifier(h, key, value), as_it_is), Ok(()))
    } else if value != PRESS && value != REPEAT {
        (send(h, as_it_is), Ok(()))
    } else if h.escape_next_key {
        (send(HandlerView { escape_next_key: false, ..h }, as_it_is), Ok(()))
    } else {
        match find_keymap(h, config, key, answers) {
            (h, Err(stop)) => (h, Err(stop)),
            (h, Ok(None)) => (send(h, as_it_is), Ok(())),
            (h, Ok(Some(actions))) => dispatch_actions(h, actions, key, answers),
        }
    }
}

/// `events` are dealt with one after the other.
pub open spec fn apply_keymaps(
    h: HandlerView,
    config: ConfigView,
    events: Seq<(Key, i32)>,
    answers: AnswersView,
) -> (HandlerView, Result<(), StopView>)
    decreases events.len(),
{
    if events.len() == 0 {
        (h, Ok(()))
    } else {
        match apply_keymap(h, config, events[0].0, events[0].1, answers) {
            (h, Ok(())) => apply_keymaps(h, config, events.drop_first(), answers),
            (h, Err(stop)) => (h, Err(stop)),
        }
    }
}

// Events

/// The key events that `value` on `key` comes to when modmaps are applied.
pub open spec fn apply_modmap(
    h: HandlerView,
    config: ConfigView,
    key: Key,
    value: i32,
    now: Span,
    answers: AnswersView,
) -> (HandlerView, Result<Seq<(Key, i32)>, StopView>) {
    match find_modmap(h, config.modmap, key, answers) {
        (h, Err(stop)) => (h, Err(stop)),
        (h, Ok(None)) => (h, Ok(seq![(key, value)])),
        (h, Ok(Some(action))) => dispatch_keys(h, action, key, value, now, answers),
    }
}

/// The key events that `event` comes to before keymaps are looked at.
pub open spec fn key_events(
    h: HandlerView,
    event: KeyEvent,
    config: ConfigView,
    now: Span,
    answers: AnswersView,
) -> (HandlerView, Result<Seq<(Key, i32)>, StopView>) {
    let fresh = HandlerView { application_cache: None, ..h };
    match apply_modmap(fresh, config, event.code, event.value, now, answers) {
        (h, Err(stop)) => (h, Err(stop)),
        (h, Ok(events)) => {
            let (h, events) = maintain_pressed_keys(h, event.code, event.value, events);
            let (h, events) = flush_timeout_keys(h, events);
            (h, Ok(events))
        },
    }
}

/// A key event is dealt with.
pub open spec fn on_key_event(
    h: HandlerView,
    event: KeyEvent,
    config: ConfigView,
    now: Span,
    answers: AnswersView,
) -> (HandlerView, Result<(), StopView>) {
    match key_events(h, event, config, now, answers) {
        (h, Err(stop)) => (h, Err(stop)),
        (h, Ok(events)) => apply_keymaps(h, config, events, answers),
    }
}

/// What the handler gets to with `event`, and what stops it.
pub open spec fn run(
    h: HandlerView,
    event: Event,
    config: ConfigView,
    now: Span,
    answers: AnswersView,
) -> (HandlerView, Result<(), StopView>) {
    match event {
        Event::KeyEvent(key_event) => on_key_event(h, key_event, config, now, answers),
        Event::OverrideTimeout => timeout_override(h, answers),
    }
}

/// `event` is handled. Where an answer is missing, the state stays as it was. Otherwise the
/// actions are handed out, unless the timer failed: then they wait for the next event.
pub open spec fn on_event(
    h: HandlerView,
    event: Event,
    config: ConfigView,
    now: Span,
    answers: AnswersView,
) -> (HandlerView, StepView) {
    match run(h.at_rest(), event, config, now, answers) {
        (_, Err(StopView::Ask(request))) => (h, StepView::Ask(request)),
        (left, Err(StopView::Failed(error))) => (
            left.at_rest(),
            StepView::Done { result: Err(error), modes: left.modes },
        ),
        (left, Ok(())) => (
            HandlerView { actions: Seq::empty(), ..left.at_rest() },
            StepView::Done { result: Ok(left.actions), modes: left.modes },
        ),
    }
}

/// Whether `event` has a value that no key has, on a key that is mapped to a multi-purpose key.
pub open spec fn unexpected(
    h: HandlerView,
    event: Event,
    config: ConfigView,
    answers: AnswersView,
) -> bool {
    event matches Event::KeyEvent(key_event) && !is_known_value(key_event.value) && find_modmap(
        HandlerView { application_cache: None, ..h.at_rest() },
        config.modmap,
        key_event.code,
        answers,
    ).1 matches Ok(Some(ModmapActionView::MultiPurposeKey(_)))
}

} // verus!
