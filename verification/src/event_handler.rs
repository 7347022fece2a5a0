//! The event handler.

use crate::action::{copy_output, key_action, key_actions, output_view, Action, ActionView};
use crate::config::{
    application_view, build_override_table, keymap_entries_view, override_entries_view,
    override_table, override_table_view, Application, Config, KeymapEntry, ModmapAction,
    ModmapActionView, MultiPurposeKey, OverrideEntry, OverrideEntryView,
};
use crate::event::{is_pressed, Event, KeyEvent, Span, PRESS, RELEASE, REPEAT};
use crate::filters::lemma_filter_first;
use crate::key_set::KeySet;
use crate::keymap_action::{
    actions_view, copy_actions, copy_strings, lemma_actions_view, strings_view, KeyPress,
    KeymapAction, KeymapActionView,
};
use crate::keys::{
    contains_modifier, covered_by, covers, extra_keys, holds, is_modifier, key_for, missing_keys,
    unheld_by, unnamed_by, Key, Modifier,
};
use crate::laws::states::law_states_are_well_formed;
use crate::model;
use crate::model::HandlerView;
use crate::multi_purpose::{all_held, delayed_presses, MultiPurposeKeyState, MultiPurposeKeys};
use crate::outside::{stopped, Answers, Matcher, Request, Step, Stop, StopView, TimerError};
use std::collections::HashMap;
use std::time::Duration;
use vstd::prelude::*;

verus! {

/// Turns key events into actions, as a configuration says.
pub struct EventHandler {
    // Currently pressed modifier keys
    modifiers: KeySet,
    // Modifiers that are currently pressed but not in the source key press
    extra_modifiers: KeySet,
    // Make sure the original event is released even if remapping changes while holding the key
    pressed_keys: HashMap<Key, Key>,
    // The currently active application
    application_cache: Option<String>,
    // State machine for multi-purpose keys
    multi_purpose_keys: MultiPurposeKeys,
    // Current nested remaps
    override_remap: Option<HashMap<Key, Vec<OverrideEntry>>>,
    // Whether to use exact match for override remaps
    override_remap_exact_match: bool,
    // Key triggered on a timeout of nested remaps
    override_timeout_key: Option<Key>,
    // { set_mode: String }
    mode: String,
    // { set_mark: true }
    mark_set: bool,
    // { escape_next_key: true }
    escape_next_key: bool,
    // keypress_delay_ms
    keypress_delay: Duration,
    // Buffered actions to be dispatched
    actions: Vec<Action>,
    // How many of the answers about the timer were used in this event
    timer_calls: usize,
    // The modes that were switched to in this event
    modes: Vec<String>,
}

/// The value of a table of nested remaps, if there is one.
pub open spec fn table_view(table: Option<HashMap<Key, Vec<OverrideEntry>>>) -> Option<
    Map<Key, Seq<OverrideEntryView>>,
> {
    match table {
        Some(table) => Some(override_table_view(table@)),
        None => None,
    }
}

/// The text of `string`, if there is one.
pub open spec fn string_view(string: Option<String>) -> Option<Seq<char>> {
    match string {
        Some(string) => Some(string@),
        None => None,
    }
}

impl View for EventHandler {
    type V = HandlerView;

    closed spec fn view(&self) -> HandlerView {
        HandlerView {
            modifiers: self.modifiers@,
            extra_modifiers: self.extra_modifiers@.to_set(),
            pressed_keys: self.pressed_keys@,
            application_cache: string_view(self.application_cache),
            multi_purpose_keys: self.multi_purpose_keys@,
            override_remap: table_view(self.override_remap),
            override_remap_exact_match: self.override_remap_exact_match,
            override_timeout_key: self.override_timeout_key,
            mode: self.mode@,
            mark_set: self.mark_set,
            escape_next_key: self.escape_next_key,
            keypress_delay: self.keypress_delay,
            actions: output_view(self.actions@),
            timer_calls: self.timer_calls as nat,
            modes: strings_view(self.modes@),
        }
    }
}

/// Gives `actions`, between a note not to release the keys in `extra_modifiers` and a note that
/// takes this back.
pub fn with_extra_modifiers(actions: &Vec<KeymapAction>, extra_modifiers: &Vec<Key>) -> (result:
    Vec<KeymapAction>)
    ensures
        actions_view(result@) == model::with_extra_modifiers(
            actions_view(actions@),
            extra_modifiers@,
        ),
{
    let mut copy: Vec<KeymapAction> = copy_actions(actions);
    if extra_modifiers.len() > 0 {
        let mut result: Vec<KeymapAction> = Vec::new();
        let ghost copied = copy@;
        // Virtually release extra modifiers so that they won't be physically released on a key
        // press
        result.push(KeymapAction::SetExtraModifiers(extra_modifiers.clone()));
        result.append(&mut copy);
        // Resurrect the modifier status
        let nothing: Vec<Key> = Vec::new();
        result.push(KeymapAction::SetExtraModifiers(nothing));
        proof {
            lemma_actions_view(copied);
            lemma_actions_view(result@);
            assert(actions_view(result@) =~= model::with_extra_modifiers(
                actions_view(actions@),
                extra_modifiers@,
            ));
        }
        result
    } else {
        copy
    }
}

impl EventHandler {
    /// A handler that starts in `mode` and waits `keypress_delay` after each key press that it
    /// sends.
    pub fn new(mode: &str, keypress_delay: Duration) -> (handler: EventHandler)
        ensures
            handler@ == HandlerView::initial(mode@, keypress_delay),
            handler@.wf(),
    {
        let handler = EventHandler {
            modifiers: KeySet::new(),
            extra_modifiers: KeySet::new(),
            pressed_keys: HashMap::new(),
            application_cache: None,
            multi_purpose_keys: MultiPurposeKeys::new(),
            override_remap: None,
            override_remap_exact_match: false,
            override_timeout_key: None,
            mode: mode.to_owned(),
            mark_set: false,
            escape_next_key: false,
            keypress_delay,
            actions: Vec::new(),
            timer_calls: 0,
            modes: Vec::new(),
        };
        assert(handler@ =~= HandlerView::initial(mode@, keypress_delay));
        handler
    }

    fn send_action(&mut self, action: Action)
        ensures
            final(self)@ == model::send(old(self)@, seq![action@]),
    {
        self.actions.push(action);
        assert(self@ =~= model::send(old(self)@, seq![action@]));
    }

    fn send_key(&mut self, key: Key, value: i32)
        ensures
            final(self)@ == model::send(old(self)@, seq![key_action(key, value)]),
    {
        let event = KeyEvent::new_with(key, value);
        self.send_action(Action::KeyEvent(event));
    }

    fn send_keys(&mut self, keys: &Vec<Key>, value: i32)
        ensures
            final(self)@ == model::send(old(self)@, key_actions(keys@, value)),
    {
        assert(self@ =~= model::send(old(self)@, key_actions(keys@.take(0), value)));
        for i in 0..keys.len()
            invariant
                self@ == model::send(old(self)@, key_actions(keys@.take(i as int), value)),
        {
            self.send_key(keys[i], value);
            assert(keys@.take(i + 1) == keys@.take(i as int).push(keys@[i as int]));
            assert(self@ =~= model::send(old(self)@, key_actions(keys@.take(i + 1), value)));
        }
        assert(keys@.take(keys@.len() as int) == keys@);
    }

    fn run_command(&mut self, command: Vec<String>)
        ensures
            final(self)@ == model::send(
                old(self)@,
                seq![ActionView::Command(strings_view(command@))],
            ),
    {
        self.send_action(Action::Command(command));
    }

    // Modifiers

    fn match_modifier(&self, modifier: &Modifier) -> (matched: bool)
        ensures
            matched == holds(self@.modifiers, *modifier),
    {
        let keys = self.modifiers.keys();
        for i in 0..keys.len()
            invariant
                keys@ == self@.modifiers,
                forall|j: int|
                    0 <= j < i ==> !covers(*modifier, #[trigger] keys@[j]),
        {
            if covered_by(modifier, keys[i]) {
                assert(covers(*modifier, self@.modifiers[i as int]));
                return true;
            }
        }
        false
    }

    // Return (extra_modifiers, missing_modifiers)
    fn diff_modifiers(&self, modifiers: &Vec<Modifier>) -> (diff: (Vec<Key>, Vec<Key>))
        ensures
            diff.0@ == extra_keys(self@.modifiers, modifiers@),
            diff.1@ == missing_keys(self@.modifiers, modifiers@),
    {
        let keys = self.modifiers.keys();
        let mut extra_modifiers: Vec<Key> = Vec::new();
        assert(extra_modifiers@ == extra_keys(keys@.take(0), modifiers@)) by {
            reveal(Seq::filter);
        }
        for i in 0..keys.len()
            invariant
                keys@ == self@.modifiers,
                extra_modifiers@ == extra_keys(keys@.take(i as int), modifiers@),
        {
            proof {
                keys@.take(i as int).lemma_filter_push(keys@[i as int], unnamed_by(modifiers@));
                assert(keys@.take(i + 1) == keys@.take(i as int).push(keys@[i as int]));
            }
            if !contains_modifier(modifiers, keys[i]) {
                extra_modifiers.push(keys[i]);
            }
        }
        assert(keys@.take(keys@.len() as int) == keys@);

        let mut missing_modifiers: Vec<Key> = Vec::new();
        assert(missing_modifiers@ == missing_keys(self@.modifiers, modifiers@.take(0))) by {
            reveal(Seq::filter);
        }
        for i in 0..modifiers.len()
            invariant
                missing_modifiers@ == missing_keys(self@.modifiers, modifiers@.take(i as int)),
        {
            proof {
                modifiers@.take(i as int).lemma_filter_push(
                    modifiers@[i as int],
                    unheld_by(self@.modifiers),
                );
                assert(modifiers@.take(i + 1) == modifiers@.take(i as int).push(
                    modifiers@[i as int],
                ));
            }
            if !self.match_modifier(&modifiers[i]) {
                missing_modifiers.push(key_for(&modifiers[i]));
            }
            assert(missing_modifiers@ =~= missing_keys(self@.modifiers, modifiers@.take(i + 1)));
        }
        assert(modifiers@.take(modifiers@.len() as int) == modifiers@);
        (extra_modifiers, missing_modifiers)
    }

    fn update_modifier(&mut self, key: Key, value: i32)
        ensures
            final(self)@ == model::update_modifier(old(self)@, key, value),
    {
        if value == PRESS {
            self.modifiers.insert(key);
        } else if value == RELEASE {
            self.modifiers.remove(key);
        }
        assert(self@ =~= model::update_modifier(old(self)@, key, value));
    }

    // Key presses

    fn send_key_press(&mut self, key_press: &KeyPress)
        ensures
            final(self)@ == model::send_key_press(old(self)@, key_press@),
    {
        // Build extra or missing modifiers. Note that only real modifier keys are handled
        // because logical modifiers shouldn't make an impact outside the remapper.
        let (extra_modifiers, missing_modifiers) = self.diff_modifiers(&key_press.modifiers);
        let extra_modifiers = self.keep_releasable(&extra_modifiers);
        let missing_modifiers = keep_real(&missing_modifiers);

        // Emulate the modifiers of the key press
        self.send_keys(&missing_modifiers, PRESS);
        self.send_keys(&extra_modifiers, RELEASE);

        // Press the main key
        self.send_key(key_press.key, PRESS);
        self.send_key(key_press.key, RELEASE);

        self.send_action(Action::Delay(self.keypress_delay));

        // Resurrect the original modifiers
        self.send_keys(&extra_modifiers, PRESS);
        self.send_keys(&missing_modifiers, RELEASE);
        assert(self@ =~= model::send_key_press(old(self)@, key_press@));
    }

    // The keys that are real modifiers and not extra modifiers
    fn keep_releasable(&self, keys: &Vec<Key>) -> (kept: Vec<Key>)
        ensures
            kept@ == keys@.filter(model::releasable(self@.extra_modifiers)),
    {
        let ghost test = model::releasable(self@.extra_modifiers);
        let mut kept: Vec<Key> = Vec::new();
        assert(kept@ == keys@.take(0).filter(test)) by {
            reveal(Seq::filter);
        }
        for i in 0..keys.len()
            invariant
                test == model::releasable(self@.extra_modifiers),
                kept@ == keys@.take(i as int).filter(test),
        {
            proof {
                keys@.take(i as int).lemma_filter_push(keys@[i as int], test);
                assert(keys@.take(i + 1) == keys@.take(i as int).push(keys@[i as int]));
            }
            if is_modifier(keys[i]) && !self.extra_modifiers.contains(keys[i]) {
                kept.push(keys[i]);
            }
        }
        assert(keys@.take(keys@.len() as int) == keys@);
        kept
    }

    fn with_mark(&self, key_press: &KeyPress) -> (marked: KeyPress)
        ensures
            marked@ == model::with_mark(self@, key_press@),
    {
        if self.mark_set && !self.match_modifier(&Modifier::Shift) {
            let mut modifiers: Vec<Modifier> = key_press.modifiers.clone();
            modifiers.push(Modifier::Shift);
            KeyPress { key: key_press.key, modifiers }
        } else {
            key_press.clone()
        }
    }
}

/// Gives the ones of `keys` that act as a modifier outside the remapper.
fn keep_real(keys: &Vec<Key>) -> (kept: Vec<Key>)
    ensures
        kept@ == keys@.filter(model::real_modifier()),
{
    let mut kept: Vec<Key> = Vec::new();
    assert(kept@ == keys@.take(0).filter(model::real_modifier())) by {
        reveal(Seq::filter);
    }
    for i in 0..keys.len()
        invariant
            kept@ == keys@.take(i as int).filter(model::real_modifier()),
    {
        proof {
            keys@.take(i as int).lemma_filter_push(keys@[i as int], model::real_modifier());
            assert(keys@.take(i + 1) == keys@.take(i as int).push(keys@[i as int]));
        }
        if is_modifier(keys[i]) {
            kept.push(keys[i]);
        }
    }
    assert(keys@.take(keys@.len() as int) == keys@);
    kept
}

// Whether one of `matchers` is in `matching`
fn any_matches(matchers: &Vec<Matcher>, matching: &Vec<Matcher>) -> (any: bool)
    ensures
        any == model::some_matches(matchers@, matching@),
{
    for i in 0..matchers.len()
        invariant
            forall|k: int| 0 <= k < i ==> !matching@.contains(#[trigger] matchers@[k]),
    {
        for j in 0..matching.len()
            invariant
                i < matchers@.len(),
                forall|k: int| 0 <= k < j ==> matching@[k] != matchers@[i as int],
        {
            if matching[j] == matchers[i] {
                assert(matching@.contains(matchers@[i as int]));
                return true;
            }
        }
    }
    false
}

impl EventHandler {
    // Applications

    fn match_application(&mut self, application: &Application, answers: &Answers) -> (matched:
        Result<bool, Stop>)
        ensures
            (final(self)@, stopped(matched)) == model::match_application(
                old(self)@,
                application@,
                answers@,
            ),
    {
        // Lazily fill the cache
        if self.application_cache.is_none() {
            match &answers.application {
                Some(Some(name)) => self.application_cache = Some(name.clone()),
                Some(None) => self.application_cache = Some(String::new()),
                None => return Err(Stop::Ask(Request::CurrentApplication)),
            }
        }
        proof {
            let name = match old(self)@.application_cache {
                Some(name) => name,
                None => model::name_of(answers@.application->0),
            };
            assert(self@ =~= HandlerView { application_cache: Some(name), ..old(self)@ });
        }

        if application.only.is_none() && application.not.is_none() {
            return Ok(false);
        }
        match &answers.matching {
            None => {
                let name: String = match &self.application_cache {
                    Some(name) => name.clone(),
                    None => String::new(),
                };
                Err(Stop::Ask(Request::Matching(name)))
            },
            Some(matching) => {
                if let Some(only) = &application.only {
                    return Ok(any_matches(only, matching));
                }
                if let Some(not) = &application.not {
                    return Ok(!any_matches(not, matching));
                }
                Ok(false)
            },
        }
    }

    fn match_limit(&mut self, limit: &Option<Application>, answers: &Answers) -> (matched: Result<
        bool,
        Stop,
    >)
        ensures
            (final(self)@, stopped(matched)) == model::match_limit(
                old(self)@,
                application_view(*limit),
                answers@,
            ),
    {
        match limit {
            Some(application) => self.match_application(application, answers),
            None => Ok(true),
        }
    }

    // The timer and nested remaps

    fn call_timer(&mut self, request: Request, answers: &Answers) -> (called: Result<(), Stop>)
        ensures
            (final(self)@, stopped(called)) == model::call_timer(old(self)@, request@, answers@),
    {
        if self.timer_calls < answers.timer.len() {
            let answer: Result<(), TimerError> = answers.timer[self.timer_calls];
            self.timer_calls = self.timer_calls + 1;
            assert(self@ =~= HandlerView { timer_calls: old(self)@.timer_calls + 1, ..old(self)@ });
            match answer {
                Ok(()) => Ok(()),
                Err(error) => Err(Stop::Failed(error)),
            }
        } else {
            Err(Stop::Ask(request))
        }
    }

    fn remove_override(&mut self, answers: &Answers) -> (removed: Result<(), Stop>)
        ensures
            (final(self)@, stopped(removed)) == model::remove_override(old(self)@, answers@),
    {
        match self.call_timer(Request::UnsetTimer, answers) {
            Ok(()) => {
                let ghost called = self@;
                self.override_remap = None;
                self.override_timeout_key = None;
                assert(self@ =~= HandlerView {
                    override_remap: None,
                    override_timeout_key: None,
                    ..called
                });
                Ok(())
            },
            Err(stop) => Err(stop),
        }
    }

    fn flush_override(&mut self, pending: Option<Key>, answers: &Answers) -> (flushed: Result<
        (),
        Stop,
    >)
        ensures
            (final(self)@, stopped(flushed)) == model::flush_override(
                old(self)@,
                pending,
                answers@,
            ),
    {
        if let Some(key) = pending {
            self.send_key(key, PRESS);
            self.send_key(key, RELEASE);
            assert(self@ =~= model::send(old(self)@, model::tap(key)));
        }
        self.remove_override(answers)
    }

    fn timeout_override(&mut self, answers: &Answers) -> (timed_out: Result<(), Stop>)
        ensures
            (final(self)@, stopped(timed_out)) == model::timeout_override(old(self)@, answers@),
    {
        let pending: Option<Key> = self.override_timeout_key;
        self.flush_override(pending, answers)
    }
}

/// The outcome of a search for actions.
pub open spec fn found_view(found: Result<Option<Vec<KeymapAction>>, Stop>) -> Result<
    Option<Seq<KeymapActionView>>,
    StopView,
> {
    match found {
        Ok(Some(actions)) => Ok(Some(actions_view(actions@))),
        Ok(None) => Ok(None),
        Err(stop) => Err(stop@),
    }
}

/// The outcome of a search for what a key is mapped to.
pub open spec fn mapped_view(mapped: Result<Option<ModmapAction>, Stop>) -> Result<
    Option<ModmapActionView>,
    StopView,
> {
    match mapped {
        Ok(Some(action)) => Ok(Some(action@)),
        Ok(None) => Ok(None),
        Err(stop) => Err(stop@),
    }
}

/// The key events that a key event comes to.
pub open spec fn events_view(events: Result<Vec<(Key, i32)>, Stop>) -> Result<
    Seq<(Key, i32)>,
    StopView,
> {
    match events {
        Ok(events) => Ok(events@),
        Err(stop) => Err(stop@),
    }
}

impl EventHandler {
    // Actions

    fn set_extra_modifiers(&mut self, keys: &Vec<Key>)
        ensures
            final(self)@ == (HandlerView { extra_modifiers: keys@.to_set(), ..old(self)@ }),
    {
        self.extra_modifiers.clear();
        assert(self@.extra_modifiers =~= keys@.take(0).to_set());
        assert(self@ =~= HandlerView { extra_modifiers: keys@.take(0).to_set(), ..old(self)@ });
        for i in 0..keys.len()
            invariant
                self@ == (HandlerView {
                    extra_modifiers: keys@.take(i as int).to_set(),
                    ..old(self)@
                }),
        {
            let ghost before = self.extra_modifiers@;
            self.extra_modifiers.insert(keys[i]);
            proof {
                assert(keys@.take(i + 1) == keys@.take(i as int).push(keys@[i as int]));
                assert forall|key: Key| #[trigger] self.extra_modifiers@.contains(key)
                    == before.to_set().insert(keys@[i as int]).contains(key) by {
                    if self.extra_modifiers@ != before {
                        vstd::seq_lib::lemma_seq_contains_after_push(before, keys@[i as int], key);
                    }
                }
                assert forall|key: Key| #[trigger] keys@.take(i + 1).contains(key) == keys@.take(
                    i as int,
                ).to_set().insert(keys@[i as int]).contains(key) by {
                    vstd::seq_lib::lemma_seq_contains_after_push(
                        keys@.take(i as int),
                        keys@[i as int],
                        key,
                    );
                }
                assert(self.extra_modifiers@.to_set() =~= keys@.take(i + 1).to_set());
                assert(self@ =~= HandlerView {
                    extra_modifiers: keys@.take(i + 1).to_set(),
                    ..old(self)@
                });
            }
        }
        assert(keys@.take(keys@.len() as int) == keys@);
    }

    fn dispatch_action(&mut self, action: &KeymapAction, key: Key, answers: &Answers) -> (dispatched:
        Result<(), Stop>)
        ensures
            (final(self)@, stopped(dispatched)) == model::dispatch_action(
                old(self)@,
                action.view(),
                key,
                answers@,
            ),
    {
        match action {
            KeymapAction::KeyPress(key_press) => self.send_key_press(key_press),
            KeymapAction::Remap(remap) => {
                self.override_remap = Some(build_override_table(&remap.remap));
                assert(self@ =~= HandlerView {
                    override_remap: Some(override_table(remap.view().remap)),
                    ..old(self)@
                });
                if let Some(timeout) = remap.timeout {
                    if let Err(stop) = self.call_timer(Request::UnsetTimer, answers) {
                        return Err(stop);
                    }
                    if let Err(stop) = self.call_timer(Request::SetTimer(timeout), answers) {
                        return Err(stop);
                    }
                    let ghost called = self@;
                    let timeout_key: Key = match remap.timeout_key {
                        Some(timeout_key) => timeout_key,
                        None => key,
                    };
                    self.override_timeout_key = Some(timeout_key);
                    assert(self@ =~= HandlerView {
                        override_timeout_key: Some(timeout_key),
                        ..called
                    });
                }
            },
            KeymapAction::Launch(command) => self.run_command(copy_strings(command)),
            KeymapAction::SetMode(mode) => {
                self.mode = mode.clone();
                self.modes.push(mode.clone());
                assert(self@ =~= HandlerView {
                    mode: mode@,
                    modes: old(self)@.modes.push(mode@),
                    ..old(self)@
                });
            },
            KeymapAction::SetMark(set) => {
                self.mark_set = *set;
                assert(self@ =~= HandlerView { mark_set: *set, ..old(self)@ });
            },
            KeymapAction::WithMark(key_press) => {
                let marked = self.with_mark(key_press);
                self.send_key_press(&marked)
            },
            KeymapAction::EscapeNextKey(escape_next_key) => {
                self.escape_next_key = *escape_next_key;
                assert(self@ =~= HandlerView { escape_next_key: *escape_next_key, ..old(self)@ });
            },
            KeymapAction::SetExtraModifiers(keys) => self.set_extra_modifiers(keys),
        }
        Ok(())
    }

    fn dispatch_actions(&mut self, actions: &Vec<KeymapAction>, key: Key, answers: &Answers) -> (
    dispatched: Result<(), Stop>)
        ensures
            (final(self)@, stopped(dispatched)) == model::dispatch_actions(
                old(self)@,
                actions_view(actions@),
                key,
                answers@,
            ),
    {
        let ghost views = actions_view(actions@);
        proof {
            lemma_actions_view(actions@);
            assert(views.skip(0) == views);
        }
        for i in 0..actions.len()
            invariant
                views == actions_view(actions@),
                views.len() == actions@.len(),
                forall|j: int|
                    0 <= j < actions@.len() ==> #[trigger] views[j] == actions@[j].view(),
                model::dispatch_actions(old(self)@, views, key, answers@)
                    == model::dispatch_actions(self@, views.skip(i as int), key, answers@),
        {
            proof {
                assert(views.skip(i as int)[0] == views[i as int]);
                assert(views.skip(i as int).drop_first() == views.skip(i + 1));
            }
            if let Err(stop) = self.dispatch_action(&actions[i], key, answers) {
                return Err(stop);
            }
        }
        Ok(())
    }
}

/// No delayed press is set free where no key is down.
proof fn lemma_nothing_delayed(events: Seq<(Key, i32)>)
    ensures
        delayed_presses(Seq::empty()) + events == events,
        all_held(Seq::empty()) == Seq::<(Key, MultiPurposeKeyState)>::empty(),
{
    reveal(Seq::filter);
    assert(delayed_presses(Seq::empty()) =~= Seq::empty());
    assert(delayed_presses(Seq::empty()) + events =~= events);
    assert(all_held(Seq::empty()) =~= Seq::empty());
}

impl EventHandler {
    // Modmaps

    fn find_modmap(&mut self, config: &Config, key: Key, answers: &Answers) -> (found: Result<
        Option<ModmapAction>,
        Stop,
    >)
        ensures
            (final(self)@, mapped_view(found)) == model::find_modmap(
                old(self)@,
                config@.modmap,
                key,
                answers@,
            ),
    {
        let ghost views = config@.modmap;
        assert(views.skip(0) == views);
        for i in 0..config.modmap.len()
            invariant
                views == config@.modmap,
                views.len() == config.modmap@.len(),
                model::find_modmap(old(self)@, views, key, answers@) == model::find_modmap(
                    self@,
                    views.skip(i as int),
                    key,
                    answers@,
                ),
        {
            let modmap = &config.modmap[i];
            proof {
                assert(views[i as int] == modmap@);
                assert(views.skip(i as int)[0] == views[i as int]);
                assert(views.skip(i as int).drop_first() == views.skip(i + 1));
            }
            if let Some(key_action) = modmap.remap.get(&key) {
                match self.match_limit(&modmap.application, answers) {
                    Err(stop) => return Err(stop),
                    Ok(admitted) => {
                        if admitted {
                            return Ok(Some(key_action.clone()));
                        }
                    },
                }
            }
        }
        Ok(None)
    }

    fn dispatch_keys(
        &mut self,
        key_action: ModmapAction,
        key: Key,
        value: i32,
        now: Span,
        answers: &Answers,
    ) -> (dispatched: Result<Vec<(Key, i32)>, Stop>)
        requires
            key_action is MultiPurposeKey ==> model::is_known_value(value),
        ensures
            (final(self)@, events_view(dispatched)) == model::dispatch_keys(
                old(self)@,
                key_action@,
                key,
                value,
                now,
                answers@,
            ),
    {
        match key_action {
            ModmapAction::Key(modmap_key) => {
                let events: Vec<(Key, i32)> = vec![(modmap_key, value)];
                assert(events@ =~= seq![(modmap_key, value)]);
                Ok(events)
            },
            ModmapAction::MultiPurposeKey(multi_purpose_key) => Ok(
                self.dispatch_multi_purpose(multi_purpose_key, key, value, now),
            ),
            ModmapAction::PressReleaseKey(hooks) => {
                // Just hook actions, and then emit the original event
                if value == PRESS {
                    if let Err(stop) = self.dispatch_actions(&hooks.press, key, answers) {
                        return Err(stop);
                    }
                }
                if value == RELEASE {
                    if let Err(stop) = self.dispatch_actions(&hooks.release, key, answers) {
                        return Err(stop);
                    }
                }
                // Dispatch the original key as well
                let events: Vec<(Key, i32)> = vec![(key, value)];
                assert(events@ =~= seq![(key, value)]);
                Ok(events)
            },
        }
    }

    fn dispatch_multi_purpose(
        &mut self,
        action: MultiPurposeKey,
        key: Key,
        value: i32,
        now: Span,
    ) -> (events: Vec<(Key, i32)>)
        requires
            model::is_known_value(value),
        ensures
            (final(self)@, events@) == model::dispatch_multi_purpose(
                old(self)@,
                action,
                key,
                value,
                now,
            ),
    {
        if value == PRESS {
            let state = MultiPurposeKeyState::new(
                action.held,
                action.alone,
                now,
                action.alone_timeout,
            );
            self.multi_purpose_keys.insert(key, state);
            assert(self@ =~= HandlerView {
                multi_purpose_keys: self.multi_purpose_keys@,
                ..old(self)@
            });
            return vec![];  // delay the press
        }
        match self.multi_purpose_keys.get(key) {
            Some(mut state) => {
                if value == REPEAT {
                    let events = state.repeat(now);
                    self.multi_purpose_keys.replace(key, state);
                    assert(self@ =~= HandlerView {
                        multi_purpose_keys: self.multi_purpose_keys@,
                        ..old(self)@
                    });
                    events
                } else {
                    self.multi_purpose_keys.remove(key);
                    assert(self@ =~= HandlerView {
                        multi_purpose_keys: self.multi_purpose_keys@,
                        ..old(self)@
                    });
                    state.release(now)
                }
            },
            // fallthrough on state discrepancy
            None => vec![(key, value)],
        }
    }

    // Repeat/Release what's originally pressed even if remapping changes while holding it
    fn maintain_pressed_keys(&mut self, key: Key, value: i32, events: &mut Vec<(Key, i32)>)
        ensures
            (final(self)@, final(events)@) == model::maintain_pressed_keys(
                old(self)@,
                key,
                value,
                old(events)@,
            ),
    {
        // Not handling multi-purpose keys for now; too complicated
        if events.len() != 1 || value != events[0].1 {
            return;
        }
        if value == PRESS {
            self.pressed_keys.insert(key, events[0].0);
        } else {
            if let Some(original_key) = self.pressed_keys.get(&key) {
                events.set(0, (*original_key, value));
            }
            if value == RELEASE {
                self.pressed_keys.remove(&key);
            }
        }
        proof {
            let (h, kept) = model::maintain_pressed_keys(old(self)@, key, value, old(events)@);
            assert(self@ =~= h);
            assert(events@ =~= kept);
        }
    }

    fn flush_timeout_keys(&mut self, key_values: Vec<(Key, i32)>) -> (flushed: Vec<(Key, i32)>)
        ensures
            (final(self)@, flushed@) == model::flush_timeout_keys(old(self)@, key_values@),
    {
        let mut flush = false;
        for i in 0..key_values.len()
            invariant
                flush == exists|j: int| 0 <= j < i && (#[trigger] key_values@[j]).1 == PRESS,
        {
            if key_values[i].1 == PRESS {
                flush = true;
            }
        }
        if flush {
            let mut flushed: Vec<(Key, i32)> = self.multi_purpose_keys.force_held();
            let mut key_values = key_values;
            flushed.append(&mut key_values);
            assert(self@ =~= HandlerView {
                multi_purpose_keys: self.multi_purpose_keys@,
                ..old(self)@
            });
            flushed
        } else {
            key_values
        }
    }
}

// Whether `string` is one of `strings`
fn contains_string(strings: &Vec<String>, string: &String) -> (contained: bool)
    ensures
        contained == strings_view(strings@).contains(string@),
{
    let ghost views = strings_view(strings@);
    for i in 0..strings.len()
        invariant
            views == strings_view(strings@),
            forall|j: int| 0 <= j < i ==> #[trigger] views[j] != string@,
    {
        assert(views[i as int] == strings@[i as int]@);
        if strings[i] == *string {
            return true;
        }
    }
    false
}

impl EventHandler {
    // Keymaps

    fn first_override(&self, entries: &Vec<OverrideEntry>, exact_match: bool) -> (found: Option<
        Vec<KeymapAction>,
    >)
        ensures
            (match found {
                Some(actions) => Some(actions_view(actions@)),
                None => None,
            }) == model::first_override(self@, override_entries_view(entries@), exact_match),
    {
        let ghost views = override_entries_view(entries@);
        let ghost test = model::override_fits(self@.modifiers, exact_match);
        assert(views.take(0).filter(test).len() == 0) by {
            reveal(Seq::filter);
        }
        for i in 0..entries.len()
            invariant
                views == override_entries_view(entries@),
                test == model::override_fits(self@.modifiers, exact_match),
                views.take(i as int).filter(test).len() == 0,
        {
            let entry = &entries[i];
            assert(views[i as int] == entry@);
            let (extra_modifiers, missing_modifiers) = self.diff_modifiers(&entry.modifiers);
            if missing_modifiers.len() == 0 && !(exact_match && extra_modifiers.len() > 0) {
                proof {
                    lemma_filter_first(views, test, i as int);
                }
                return Some(with_extra_modifiers(&entry.actions, &extra_modifiers));
            }
            proof {
                views.take(i as int).lemma_filter_push(views[i as int], test);
                assert(views.take(i as int).push(views[i as int]) == views.take(i + 1));
            }
        }
        assert(views.take(views.len() as int) == views);
        None
    }

    fn pick_override(&self, entries: &Vec<OverrideEntry>) -> (found: Option<Vec<KeymapAction>>)
        ensures
            (match found {
                Some(actions) => Some(actions_view(actions@)),
                None => None,
            }) == model::pick_override(self@, override_entries_view(entries@)),
    {
        match self.first_override(entries, true) {
            Some(actions) => Some(actions),
            None => {
                if self.override_remap_exact_match {
                    None
                } else {
                    self.first_override(entries, false)
                }
            },
        }
    }

    fn match_mode(&self, modes: &Option<Vec<String>>) -> (matched: bool)
        ensures
            matched == match modes {
                Some(modes) => strings_view(modes@).contains(self@.mode),
                None => true,
            },
    {
        match modes {
            Some(modes) => contains_string(modes, &self.mode),
            None => true,
        }
    }

    fn scan_entries(
        &mut self,
        entries: &Vec<KeymapEntry>,
        exact_match: bool,
        answers: &Answers,
    ) -> (found: Result<Option<Vec<KeymapAction>>, Stop>)
        ensures
            (final(self)@, found_view(found)) == model::scan_entries(
                old(self)@,
                keymap_entries_view(entries@),
                exact_match,
                answers@,
            ),
    {
        let ghost views = keymap_entries_view(entries@);
        assert(views.skip(0) == views);
        for i in 0..entries.len()
            invariant
                views == keymap_entries_view(entries@),
                views.len() == entries@.len(),
                model::scan_entries(old(self)@, views, exact_match, answers@)
                    == model::scan_entries(self@, views.skip(i as int), exact_match, answers@),
        {
            let entry = &entries[i];
            proof {
                assert(views[i as int] == entry@);
                assert(views.skip(i as int)[0] == views[i as int]);
                assert(views.skip(i as int).drop_first() == views.skip(i + 1));
            }
            let (extra_modifiers, missing_modifiers) = self.diff_modifiers(&entry.modifiers);
            if !(entry.exact_match && !exact_match) && !(exact_match && extra_modifiers.len() > 0)
                && missing_modifiers.len() == 0 {
                let admitted: bool = match self.match_limit(&entry.application, answers) {
                    Err(stop) => return Err(stop),
                    Ok(admitted) => admitted,
                };
                let ghost matched = self@;
                if admitted && self.match_mode(&entry.mode) {
                    self.override_remap_exact_match = entry.exact_match;
                    assert(self@ =~= HandlerView {
                        override_remap_exact_match: entry.exact_match,
                        ..matched
                    });
                    return Ok(Some(with_extra_modifiers(&entry.actions, &extra_modifiers)));
                }
            }
        }
        Ok(None)
    }

    fn find_in_table(&mut self, config: &Config, key: Key, answers: &Answers) -> (found: Result<
        Option<Vec<KeymapAction>>,
        Stop,
    >)
        ensures
            (final(self)@, found_view(found)) == model::find_in_table(
                old(self)@,
                config@.keymap_table,
                key,
                answers@,
            ),
    {
        match config.keymap_table.get(&key) {
            None => Ok(None),
            Some(entries) => {
                match self.scan_entries(entries, true, answers) {
                    Ok(None) => self.scan_entries(entries, false, answers),
                    found => found,
                }
            },
        }
    }

    fn find_keymap(&mut self, config: &Config, key: Key, answers: &Answers) -> (found: Result<
        Option<Vec<KeymapAction>>,
        Stop,
    >)
        ensures
            (final(self)@, found_view(found)) == model::find_keymap(
                old(self)@,
                config@,
                key,
                answers@,
            ),
    {
        if let Some(override_remap) = &self.override_remap {
            let override_remap = override_remap.clone();
            let pending: Option<Key> = self.override_timeout_key;
            if let Some(entries) = override_remap.get(&key) {
                if let Err(stop) = self.remove_override(answers) {
                    return Err(stop);
                }
                if let Some(actions) = self.pick_override(entries) {
                    return Ok(Some(actions));
                }
            }
            // An override remap is set but not used. Flush the pending key.
            if let Err(stop) = self.flush_override(pending, answers) {
                return Err(stop);
            }
        }
        self.find_in_table(config, key, answers)
    }
}

impl Clone for EventHandler {
    fn clone(&self) -> (copy: EventHandler)
        ensures
            copy@ == self@,
    {
        let copy = EventHandler {
            modifiers: self.modifiers.clone(),
            extra_modifiers: self.extra_modifiers.clone(),
            pressed_keys: self.pressed_keys.clone(),
            application_cache: match &self.application_cache {
                Some(name) => Some(name.clone()),
                None => None,
            },
            multi_purpose_keys: self.multi_purpose_keys.clone(),
            override_remap: match &self.override_remap {
                Some(table) => Some(table.clone()),
                None => None,
            },
            override_remap_exact_match: self.override_remap_exact_match,
            override_timeout_key: self.override_timeout_key,
            mode: self.mode.clone(),
            mark_set: self.mark_set,
            escape_next_key: self.escape_next_key,
            keypress_delay: self.keypress_delay,
            actions: copy_output(&self.actions),
            timer_calls: self.timer_calls,
            modes: copy_strings(&self.modes),
        };
        assert(copy@ =~= self@);
        copy
    }
}

// Whether `key` is one of `keys`
fn contains_key(keys: &Vec<Key>, key: Key) -> (contained: bool)
    ensures
        contained == keys@.contains(key),
{
    for i in 0..keys.len()
        invariant
            forall|j: int| 0 <= j < i ==> keys@[j] != key,
    {
        if keys[i] == key {
            return true;
        }
    }
    false
}

impl EventHandler {
    // Events

    fn apply_keymap(&mut self, config: &Config, key: Key, value: i32, answers: &Answers) -> (applied:
        Result<(), Stop>)
        ensures
            (final(self)@, stopped(applied)) == model::apply_keymap(
                old(self)@,
                config@,
                key,
                value,
                answers@,
            ),
    {
        if contains_key(&config.virtual_modifiers, key) {
            self.update_modifier(key, value);
            return Ok(());
        } else if is_modifier(key) {
            self.update_modifier(key, value);
        } else if is_pressed(value) {
            if self.escape_next_key {
                self.escape_next_key = false;
                assert(self@ =~= HandlerView { escape_next_key: false, ..old(self)@ });
            } else {
                match self.find_keymap(config, key, answers) {
                    Err(stop) => return Err(stop),
                    Ok(Some(actions)) => return self.dispatch_actions(&actions, key, answers),
                    Ok(None) => {},
                }
            }
        }
        self.send_key(key, value);
        Ok(())
    }

    // Handle a key event
    fn on_key_event(&mut self, event: &KeyEvent, config: &Config, now: Span, answers: &Answers) -> (
    handled: Result<(), Stop>)
        requires
            !model::is_known_value(event.value) ==> !(model::find_modmap(
                HandlerView { application_cache: None, ..old(self)@ },
                config@.modmap,
                event.code,
                answers@,
            ).1 matches Ok(Some(ModmapActionView::MultiPurposeKey(_)))),
        ensures
            (final(self)@, stopped(handled)) == model::on_key_event(
                old(self)@,
                *event,
                config@,
                now,
                answers@,
            ),
    {
        self.application_cache = None;  // expire cache
        assert(self@ =~= HandlerView { application_cache: None, ..old(self)@ });
        let key: Key = event.code();

        // Apply modmap
        let mut key_values: Vec<(Key, i32)> = match self.find_modmap(config, key, answers) {
            Err(stop) => return Err(stop),
            Ok(Some(key_action)) => {
                match self.dispatch_keys(key_action, key, event.value(), now, answers) {
                    Err(stop) => return Err(stop),
                    Ok(key_values) => key_values,
                }
            },
            Ok(None) => {
                let key_values: Vec<(Key, i32)> = vec![(key, event.value())];
                assert(key_values@ =~= seq![(key, event.value)]);
                key_values
            },
        };
        self.maintain_pressed_keys(key, event.value(), &mut key_values);
        if !self.multi_purpose_keys.is_empty() {
            key_values = self.flush_timeout_keys(key_values);
        } else {
            proof {
                lemma_nothing_delayed(key_values@);
                assert(self@.multi_purpose_keys =~= Seq::empty());
                assert(self@ =~= HandlerView { multi_purpose_keys: Seq::empty(), ..self@ });
            }
        }

        // Apply keymap
        let ghost flushed = self@;
        assert(key_values@.skip(0) == key_values@);
        assert(model::on_key_event(old(self)@, *event, config@, now, answers@)
            == model::apply_keymaps(flushed, config@, key_values@, answers@));
        for i in 0..key_values.len()
            invariant
                model::on_key_event(old(self)@, *event, config@, now, answers@)
                    == model::apply_keymaps(flushed, config@, key_values@, answers@),
                model::apply_keymaps(flushed, config@, key_values@, answers@)
                    == model::apply_keymaps(
                    self@,
                    config@,
                    key_values@.skip(i as int),
                    answers@,
                ),
        {
            let (key, value) = key_values[i];
            proof {
                assert(key_values@.skip(i as int)[0] == key_values@[i as int]);
                assert(key_values@.skip(i as int).drop_first() == key_values@.skip(i + 1));
            }
            if let Err(stop) = self.apply_keymap(config, key, value, answers) {
                return Err(stop);
            }
        }
        Ok(())
    }

    fn run(&mut self, event: &Event, config: &Config, now: Span, answers: &Answers) -> (handled:
        Result<(), Stop>)
        requires
            old(self)@ == old(self)@.at_rest(),
            !model::unexpected(old(self)@, *event, config@, answers@),
        ensures
            (final(self)@, stopped(handled)) == model::run(
                old(self)@,
                *event,
                config@,
                now,
                answers@,
            ),
    {
        match event {
            Event::KeyEvent(key_event) => self.on_key_event(key_event, config, now, answers),
            Event::OverrideTimeout => self.timeout_override(answers),
        }
    }

    // Forget what belongs to a single event
    fn rest(&mut self)
        ensures
            final(self)@ == old(self)@.at_rest(),
    {
        self.timer_calls = 0;
        self.modes = Vec::new();
        assert(self@ =~= old(self)@.at_rest());
    }

    /// Tells whether `event` must not be handled: it has a value that no key has, on a key that is
    /// mapped to a multi-purpose key.
    pub fn is_unexpected(&self, event: &Event, config: &Config, answers: &Answers) -> (unexpected:
        bool)
        ensures
            unexpected == model::unexpected(self@, *event, config@, answers@),
    {
        match event {
            Event::KeyEvent(key_event) => {
                let value: i32 = key_event.value();
                if value == PRESS || value == REPEAT || value == RELEASE {
                    return false;
                }
                let mut copy = self.clone();
                copy.rest();
                copy.application_cache = None;
                assert(copy@ =~= HandlerView { application_cache: None, ..self@.at_rest() });
                match copy.find_modmap(config, key_event.code(), answers) {
                    Ok(Some(ModmapAction::MultiPurposeKey(_))) => true,
                    _ => false,
                }
            },
            Event::OverrideTimeout => false,
        }
    }

    /// Handles `event` at the time `now`, as `config` says, with the `answers` that were collected
    /// for it.
    ///
    /// Where it takes one more answer, the handler stays as it is and asks for it: the caller
    /// gets the answer, adds it to `answers` and calls again with the same event and time.
    pub fn on_event(&mut self, event: &Event, config: &Config, now: Span, answers: &Answers) -> (step:
        Step)
        requires
            !model::unexpected(old(self)@, *event, config@, answers@),
        ensures
            (final(self)@, step@) == model::on_event(old(self)@, *event, config@, now, answers@),
            step is Ask ==> final(self)@ == old(self)@,
            old(self)@.wf() ==> final(self)@.wf(),
    {
        let ghost before = self@;
        let mut handler = self.clone();
        handler.rest();
        let step = match handler.run(event, config, now, answers) {
            Err(Stop::Ask(request)) => Step::Ask(request),
            Err(Stop::Failed(error)) => {
                let mut modes: Vec<String> = Vec::new();
                std::mem::swap(&mut modes, &mut handler.modes);
                handler.rest();
                *self = handler;
                Step::Done { result: Err(error), modes }
            },
            Ok(()) => {
                let mut modes: Vec<String> = Vec::new();
                std::mem::swap(&mut modes, &mut handler.modes);
                let mut actions: Vec<Action> = Vec::new();
                std::mem::swap(&mut actions, &mut handler.actions);
                handler.rest();
                *self = handler;
                Step::Done { result: Ok(actions), modes }
            },
        };
        proof {
            let expected = model::on_event(before, *event, config@, now, answers@);
            assert(self@ == expected.0);
            if before.wf() {
                law_states_are_well_formed(before, *event, config@, now, answers@);
            }
        }
        step
    }
}

} // verus!
