use std::collections::HashMap;
use std::time::Duration;
use xremap::action::Action;
use xremap::config::{
    Application, Config, KeymapEntry, Modmap, ModmapAction, MultiPurposeKey, PressReleaseKey,
};
use xremap::event::{Event, KeyEvent, Span, PRESS, RELEASE, REPEAT};
use xremap::event_handler::EventHandler;
use xremap::keymap_action::{KeyPress, KeymapAction, Remap, RemapRule};
use xremap::keys::Modifier;
use xremap::outside::{Answers, Request, Step, TimerError};

const ESC: u16 = 1;
const LEFTCTRL: u16 = 29;
const A: u16 = 30;
const LEFTSHIFT: u16 = 42;
const B: u16 = 48;
const C: u16 = 46;
const RIGHTSHIFT: u16 = 54;
const LEFTALT: u16 = 56;
const CAPSLOCK: u16 = 58;
const MUHENKAN: u16 = 94;

fn handler() -> EventHandler {
    EventHandler::new("default", Duration::from_millis(0))
}

fn no_config() -> Config {
    Config { modmap: vec![], keymap_table: HashMap::new(), virtual_modifiers: vec![] }
}

fn key_event(code: u16, value: i32) -> Event {
    Event::KeyEvent(KeyEvent::new_with(code, value))
}

fn key(code: u16, value: i32) -> Action {
    Action::KeyEvent(KeyEvent::new_with(code, value))
}

fn delay() -> Action {
    Action::Delay(Duration::from_millis(0))
}

fn press(code: u16) -> KeymapAction {
    KeymapAction::KeyPress(KeyPress { key: code, modifiers: vec![] })
}

fn entry(modifiers: Vec<Modifier>, actions: Vec<KeymapAction>) -> KeymapEntry {
    KeymapEntry { actions, modifiers, application: None, mode: None, exact_match: false }
}

fn modmap(key: u16, action: ModmapAction) -> Modmap {
    Modmap { remap: HashMap::from([(key, action)]), application: None }
}

fn at(millis: u64) -> Span {
    Span { secs: millis / 1000, nanos: (millis % 1000) as u32 * 1_000_000 }
}

// What the outside does
struct Outside {
    application: Option<String>,
    matching: Vec<usize>,
    timer: Result<(), TimerError>,
}

fn outside() -> Outside {
    Outside { application: Some("editor".to_string()), matching: vec![], timer: Ok(()) }
}

// Handles the event, with answers from outside; gives also the requests and the modes
fn handle(
    handler: &mut EventHandler,
    event: Event,
    config: &Config,
    now: Span,
    outside: &Outside,
) -> (Result<Vec<Action>, TimerError>, Vec<Request>, Vec<String>) {
    let mut answers = Answers::new();
    let mut requests: Vec<Request> = vec![];
    loop {
        assert!(!handler.is_unexpected(&event, config, &answers));
        match handler.on_event(&event, config, now, &answers) {
            Step::Done { result, modes } => return (result, requests, modes),
            Step::Ask(request) => {
                match &request {
                    Request::CurrentApplication => {
                        answers.application = Some(outside.application.clone())
                    }
                    Request::Matching(_) => answers.matching = Some(outside.matching.clone()),
                    Request::UnsetTimer | Request::SetTimer(_) => answers.timer.push(outside.timer),
                }
                requests.push(request);
            }
        }
    }
}

fn send(handler: &mut EventHandler, code: u16, value: i32, config: &Config) -> Vec<Action> {
    handle(handler, key_event(code, value), config, at(0), &outside()).0.unwrap()
}

fn send_at(
    handler: &mut EventHandler,
    code: u16,
    value: i32,
    config: &Config,
    millis: u64,
) -> Vec<Action> {
    handle(handler, key_event(code, value), config, at(millis), &outside()).0.unwrap()
}

// Keys that pass

#[test]
fn a_plain_key_passes() {
    let mut handler = handler();
    let config = no_config();
    for value in [PRESS, REPEAT, RELEASE] {
        assert_eq!(send(&mut handler, A, value, &config), vec![key(A, value)]);
    }
    for value in [PRESS, REPEAT, RELEASE] {
        assert_eq!(send(&mut handler, LEFTCTRL, value, &config), vec![key(LEFTCTRL, value)]);
    }
}

#[test]
fn a_value_that_no_key_has_passes_on_a_plain_key() {
    let mut handler = handler();
    assert_eq!(send(&mut handler, A, 3, &no_config()), vec![key(A, 3)]);
    assert_eq!(send(&mut handler, A, -1, &no_config()), vec![key(A, -1)]);
}

#[test]
fn a_virtual_modifier_is_not_sent() {
    let mut config = no_config();
    config.virtual_modifiers.push(MUHENKAN);
    config
        .keymap_table
        .insert(A, vec![entry(vec![Modifier::Key(MUHENKAN)], vec![press(B)])]);
    let mut handler = handler();
    assert_eq!(send(&mut handler, A, PRESS, &config), vec![key(A, PRESS)]);
    assert_eq!(send(&mut handler, MUHENKAN, PRESS, &config), vec![]);
    assert_eq!(send(&mut handler, MUHENKAN, REPEAT, &config), vec![]);
    // It makes no impact outside either
    assert_eq!(
        send(&mut handler, A, PRESS, &config),
        vec![key(B, PRESS), key(B, RELEASE), delay()]
    );
    assert_eq!(send(&mut handler, MUHENKAN, RELEASE, &config), vec![]);
    assert_eq!(send(&mut handler, A, PRESS, &config), vec![key(A, PRESS)]);
}

#[test]
fn a_release_triggers_nothing() {
    let mut config = no_config();
    config.keymap_table.insert(A, vec![entry(vec![], vec![press(B)])]);
    let mut handler = handler();
    assert_eq!(send(&mut handler, A, RELEASE, &config), vec![key(A, RELEASE)]);
}

#[test]
fn a_repeat_triggers_what_a_press_does() {
    let mut config = no_config();
    config.keymap_table.insert(A, vec![entry(vec![], vec![press(B)])]);
    let mut handler = handler();
    assert_eq!(
        send(&mut handler, A, REPEAT, &config),
        vec![key(B, PRESS), key(B, RELEASE), delay()]
    );
}

#[test]
fn an_escaped_key_passes_once() {
    let mut config = no_config();
    config.keymap_table.insert(A, vec![entry(vec![], vec![press(B)])]);
    config
        .keymap_table
        .insert(C, vec![entry(vec![], vec![KeymapAction::EscapeNextKey(true)])]);
    let mut handler = handler();
    assert_eq!(send(&mut handler, C, PRESS, &config), vec![]);
    // Modifiers and releases do not use the escape up
    assert_eq!(send(&mut handler, C, RELEASE, &config), vec![key(C, RELEASE)]);
    assert_eq!(send(&mut handler, LEFTCTRL, PRESS, &config), vec![key(LEFTCTRL, PRESS)]);
    assert_eq!(send(&mut handler, LEFTCTRL, RELEASE, &config), vec![key(LEFTCTRL, RELEASE)]);
    assert_eq!(send(&mut handler, A, PRESS, &config), vec![key(A, PRESS)]);
    assert_eq!(
        send(&mut handler, A, PRESS, &config),
        vec![key(B, PRESS), key(B, RELEASE), delay()]
    );
}

// Modmaps

#[test]
fn the_first_modmap_is_taken() {
    let mut config = no_config();
    config.modmap.push(modmap(B, ModmapAction::Key(ESC)));
    config.modmap.push(modmap(CAPSLOCK, ModmapAction::Key(LEFTCTRL)));
    config.modmap.push(modmap(CAPSLOCK, ModmapAction::Key(ESC)));
    let mut handler = handler();
    assert_eq!(send(&mut handler, CAPSLOCK, PRESS, &config), vec![key(LEFTCTRL, PRESS)]);
    assert_eq!(send(&mut handler, CAPSLOCK, RELEASE, &config), vec![key(LEFTCTRL, RELEASE)]);
}

#[test]
fn a_modmap_counts_as_a_modifier() {
    let mut config = no_config();
    config.modmap.push(modmap(CAPSLOCK, ModmapAction::Key(LEFTCTRL)));
    config.keymap_table.insert(A, vec![entry(vec![Modifier::Control], vec![press(B)])]);
    let mut handler = handler();
    send(&mut handler, CAPSLOCK, PRESS, &config);
    assert_eq!(
        send(&mut handler, A, PRESS, &config),
        vec![
            key(LEFTCTRL, RELEASE),
            key(B, PRESS),
            key(B, RELEASE),
            delay(),
            key(LEFTCTRL, PRESS)
        ]
    );
}

#[test]
fn a_held_key_is_released_as_it_was_pressed() {
    let mut config = no_config();
    config.modmap.push(modmap(CAPSLOCK, ModmapAction::Key(LEFTCTRL)));
    let other = no_config();
    let mut handler = handler();
    assert_eq!(send(&mut handler, CAPSLOCK, PRESS, &config), vec![key(LEFTCTRL, PRESS)]);
    // Other keys do not interfere
    send(&mut handler, A, PRESS, &other);
    send(&mut handler, A, RELEASE, &other);
    assert_eq!(send(&mut handler, CAPSLOCK, REPEAT, &other), vec![key(LEFTCTRL, REPEAT)]);
    assert_eq!(send(&mut handler, CAPSLOCK, RELEASE, &other), vec![key(LEFTCTRL, RELEASE)]);
    // It is forgotten then
    assert_eq!(send(&mut handler, CAPSLOCK, RELEASE, &other), vec![key(CAPSLOCK, RELEASE)]);
}

#[test]
fn hooks_of_a_press_and_a_release_come_before_the_key() {
    let mut config = no_config();
    config.modmap.push(modmap(
        CAPSLOCK,
        ModmapAction::PressReleaseKey(PressReleaseKey {
            press: vec![KeymapAction::Launch(vec!["down".to_string()])],
            release: vec![KeymapAction::Launch(vec!["up".to_string(), "now".to_string()])],
        }),
    ));
    let mut handler = handler();
    assert_eq!(
        send(&mut handler, CAPSLOCK, PRESS, &config),
        vec![Action::Command(vec!["down".to_string()]), key(CAPSLOCK, PRESS)]
    );
    assert_eq!(send(&mut handler, CAPSLOCK, REPEAT, &config), vec![key(CAPSLOCK, REPEAT)]);
    assert_eq!(
        send(&mut handler, CAPSLOCK, RELEASE, &config),
        vec![
            Action::Command(vec!["up".to_string(), "now".to_string()]),
            key(CAPSLOCK, RELEASE)
        ]
    );
}

// Multi-purpose keys

fn multi_purpose() -> Config {
    let mut config = no_config();
    config.modmap.push(modmap(
        CAPSLOCK,
        ModmapAction::MultiPurposeKey(MultiPurposeKey {
            held: LEFTCTRL,
            alone: ESC,
            alone_timeout: at(1000),
        }),
    ));
    config
}

#[test]
fn a_multi_purpose_key_that_is_hit_alone() {
    let config = multi_purpose();
    let mut handler = handler();
    assert_eq!(send_at(&mut handler, CAPSLOCK, PRESS, &config, 500), vec![]);
    assert_eq!(send_at(&mut handler, CAPSLOCK, REPEAT, &config, 1400), vec![]);
    assert_eq!(
        send_at(&mut handler, CAPSLOCK, RELEASE, &config, 1499),
        vec![key(ESC, PRESS), key(ESC, RELEASE)]
    );
}

#[test]
fn a_multi_purpose_key_that_is_released_too_late() {
    let config = multi_purpose();
    let mut handler = handler();
    assert_eq!(send_at(&mut handler, CAPSLOCK, PRESS, &config, 500), vec![]);
    assert_eq!(
        send_at(&mut handler, CAPSLOCK, RELEASE, &config, 1500),
        vec![key(LEFTCTRL, PRESS), key(LEFTCTRL, RELEASE)]
    );
}

#[test]
fn a_multi_purpose_key_that_is_held() {
    let config = multi_purpose();
    let mut handler = handler();
    assert_eq!(send_at(&mut handler, CAPSLOCK, PRESS, &config, 0), vec![]);
    assert_eq!(
        send_at(&mut handler, CAPSLOCK, REPEAT, &config, 1000),
        vec![key(LEFTCTRL, PRESS)]
    );
    assert_eq!(
        send_at(&mut handler, CAPSLOCK, REPEAT, &config, 1030),
        vec![key(LEFTCTRL, REPEAT)]
    );
    assert_eq!(
        send_at(&mut handler, CAPSLOCK, RELEASE, &config, 1060),
        vec![key(LEFTCTRL, RELEASE)]
    );
}

#[test]
fn another_press_makes_a_multi_purpose_key_count_as_held() {
    let mut config = multi_purpose();
    config.keymap_table.insert(A, vec![entry(vec![Modifier::Control], vec![press(B)])]);
    let mut handler = handler();
    assert_eq!(send_at(&mut handler, CAPSLOCK, PRESS, &config, 0), vec![]);
    assert_eq!(
        send_at(&mut handler, A, PRESS, &config, 10),
        vec![
            key(LEFTCTRL, PRESS),
            key(LEFTCTRL, RELEASE),
            key(B, PRESS),
            key(B, RELEASE),
            delay(),
            key(LEFTCTRL, PRESS)
        ]
    );
    assert_eq!(
        send_at(&mut handler, CAPSLOCK, RELEASE, &config, 20),
        vec![key(LEFTCTRL, RELEASE)]
    );
}

#[test]
fn the_release_of_another_key_keeps_a_delay() {
    let config = multi_purpose();
    let mut handler = handler();
    send_at(&mut handler, A, PRESS, &config, 0);
    assert_eq!(send_at(&mut handler, CAPSLOCK, PRESS, &config, 0), vec![]);
    assert_eq!(send_at(&mut handler, A, RELEASE, &config, 10), vec![key(A, RELEASE)]);
    assert_eq!(
        send_at(&mut handler, CAPSLOCK, RELEASE, &config, 20),
        vec![key(ESC, PRESS), key(ESC, RELEASE)]
    );
}

#[test]
fn a_multi_purpose_key_that_was_not_seen_going_down_passes() {
    let config = multi_purpose();
    let mut handler = handler();
    assert_eq!(send(&mut handler, CAPSLOCK, REPEAT, &config), vec![key(CAPSLOCK, REPEAT)]);
    assert_eq!(send(&mut handler, CAPSLOCK, RELEASE, &config), vec![key(CAPSLOCK, RELEASE)]);
}

#[test]
fn a_value_that_no_key_has_is_unexpected_on_a_multi_purpose_key() {
    let config = multi_purpose();
    let handler = handler();
    let answers = Answers::new();
    assert!(handler.is_unexpected(&key_event(CAPSLOCK, 3), &config, &answers));
    assert!(handler.is_unexpected(&key_event(CAPSLOCK, -1), &config, &answers));
    assert!(!handler.is_unexpected(&key_event(CAPSLOCK, REPEAT), &config, &answers));
    assert!(!handler.is_unexpected(&key_event(A, 3), &config, &answers));
    assert!(!handler.is_unexpected(&Event::OverrideTimeout, &config, &answers));
}

// Keymaps

#[test]
fn a_key_press_has_its_modifiers_and_restores_the_others() {
    let mut config = no_config();
    config.keymap_table.insert(
        A,
        vec![entry(
            vec![Modifier::Control],
            vec![KeymapAction::KeyPress(KeyPress {
                key: B,
                modifiers: vec![Modifier::Alt, Modifier::Key(MUHENKAN)],
            })],
        )],
    );
    let mut handler = EventHandler::new("default", Duration::from_millis(12));
    send(&mut handler, LEFTCTRL, PRESS, &config);
    assert_eq!(
        send(&mut handler, A, PRESS, &config),
        vec![
            key(LEFTALT, PRESS),
            key(LEFTCTRL, RELEASE),
            key(B, PRESS),
            key(B, RELEASE),
            Action::Delay(Duration::from_millis(12)),
            key(LEFTCTRL, PRESS),
            key(LEFTALT, RELEASE)
        ]
    );
}

#[test]
fn a_modifier_that_is_held_is_not_emulated() {
    let mut config = no_config();
    config.keymap_table.insert(
        A,
        vec![entry(
            vec![Modifier::Shift],
            vec![KeymapAction::KeyPress(KeyPress { key: B, modifiers: vec![Modifier::Shift] })],
        )],
    );
    let mut handler = handler();
    send(&mut handler, RIGHTSHIFT, PRESS, &config);
    assert_eq!(
        send(&mut handler, A, PRESS, &config),
        vec![key(B, PRESS), key(B, RELEASE), delay()]
    );
}

#[test]
fn an_extra_modifier_stays_down() {
    let mut config = no_config();
    config.keymap_table.insert(A, vec![entry(vec![Modifier::Control], vec![press(B)])]);
    config.keymap_table.insert(C, vec![entry(vec![Modifier::Shift], vec![press(B)])]);
    let mut handler = handler();
    send(&mut handler, LEFTSHIFT, PRESS, &config);
    send(&mut handler, LEFTCTRL, PRESS, &config);
    assert_eq!(
        send(&mut handler, A, PRESS, &config),
        vec![
            key(LEFTCTRL, RELEASE),
            key(B, PRESS),
            key(B, RELEASE),
            delay(),
            key(LEFTCTRL, PRESS)
        ]
    );
    // This is taken back afterwards
    send(&mut handler, LEFTCTRL, RELEASE, &config);
    assert_eq!(
        send(&mut handler, C, PRESS, &config),
        vec![
            key(LEFTSHIFT, RELEASE),
            key(B, PRESS),
            key(B, RELEASE),
            delay(),
            key(LEFTSHIFT, PRESS)
        ]
    );
}

#[test]
fn an_exact_match_goes_first() {
    let mut config = no_config();
    config.keymap_table.insert(
        A,
        vec![entry(vec![], vec![press(B)]), entry(vec![Modifier::Shift], vec![press(C)])],
    );
    let mut handler = handler();
    send(&mut handler, LEFTSHIFT, PRESS, &config);
    assert_eq!(
        send(&mut handler, A, PRESS, &config),
        vec![
            key(LEFTSHIFT, RELEASE),
            key(C, PRESS),
            key(C, RELEASE),
            delay(),
            key(LEFTSHIFT, PRESS)
        ]
    );
    send(&mut handler, LEFTALT, PRESS, &config);
    // Neither is exact now: the first one that fits is taken
    assert_eq!(
        send(&mut handler, A, PRESS, &config),
        vec![key(B, PRESS), key(B, RELEASE), delay()]
    );
}

#[test]
fn an_entry_can_ask_for_an_exact_match() {
    let mut config = no_config();
    config.keymap_table.insert(
        A,
        vec![KeymapEntry {
            actions: vec![press(B)],
            modifiers: vec![],
            application: None,
            mode: None,
            exact_match: true,
        }],
    );
    let mut handler = handler();
    assert_eq!(
        send(&mut handler, A, PRESS, &config),
        vec![key(B, PRESS), key(B, RELEASE), delay()]
    );
    send(&mut handler, LEFTSHIFT, PRESS, &config);
    assert_eq!(send(&mut handler, A, PRESS, &config), vec![key(A, PRESS)]);
}

#[test]
fn an_entry_can_be_limited_to_modes() {
    let mut config = no_config();
    let mut limited = entry(vec![], vec![press(B)]);
    limited.mode = Some(vec!["insert".to_string(), "normal".to_string()]);
    config.keymap_table.insert(A, vec![limited]);
    config.keymap_table.insert(
        C,
        vec![entry(
            vec![],
            vec![
                KeymapAction::SetMode("visual".to_string()),
                KeymapAction::SetMode("normal".to_string()),
            ],
        )],
    );
    let mut handler = handler();
    assert_eq!(send(&mut handler, A, PRESS, &config), vec![key(A, PRESS)]);
    let (result, requests, modes) =
        handle(&mut handler, key_event(C, PRESS), &config, at(0), &outside());
    assert_eq!(result, Ok(vec![]));
    assert_eq!(requests, vec![]);
    assert_eq!(modes, vec!["visual".to_string(), "normal".to_string()]);
    // The mode is the last one that was switched to
    assert_eq!(
        send(&mut handler, A, PRESS, &config),
        vec![key(B, PRESS), key(B, RELEASE), delay()]
    );
}

#[test]
fn a_handler_starts_in_its_mode() {
    let mut config = no_config();
    let mut limited = entry(vec![], vec![press(B)]);
    limited.mode = Some(vec!["default".to_string()]);
    config.keymap_table.insert(A, vec![limited]);
    assert_eq!(
        send(&mut handler(), A, PRESS, &config),
        vec![key(B, PRESS), key(B, RELEASE), delay()]
    );
}

#[test]
fn the_mark_adds_shift() {
    let mut config = no_config();
    config.keymap_table.insert(
        A,
        vec![entry(
            vec![],
            vec![KeymapAction::WithMark(KeyPress { key: B, modifiers: vec![] })],
        )],
    );
    config
        .keymap_table
        .insert(C, vec![entry(vec![], vec![KeymapAction::SetMark(true)])]);
    let mut handler = handler();
    let bare = vec![key(B, PRESS), key(B, RELEASE), delay()];
    assert_eq!(send(&mut handler, A, PRESS, &config), bare);
    assert_eq!(send(&mut handler, C, PRESS, &config), vec![]);
    assert_eq!(
        send(&mut handler, A, PRESS, &config),
        vec![
            key(LEFTSHIFT, PRESS),
            key(B, PRESS),
            key(B, RELEASE),
            delay(),
            key(LEFTSHIFT, RELEASE)
        ]
    );
    // Shift is held already, as an extra modifier
    send(&mut handler, LEFTSHIFT, PRESS, &config);
    assert_eq!(send(&mut handler, A, PRESS, &config), bare);
}

#[test]
fn a_command_is_launched() {
    let mut config = no_config();
    config.keymap_table.insert(
        A,
        vec![entry(
            vec![],
            vec![KeymapAction::Launch(vec!["echo".to_string(), "hi".to_string()])],
        )],
    );
    assert_eq!(
        send(&mut handler(), A, PRESS, &config),
        vec![Action::Command(vec!["echo".to_string(), "hi".to_string()])]
    );
}

// Nested remaps

fn nested(timeout: Option<Duration>, timeout_key: Option<u16>) -> Config {
    let mut config = no_config();
    config.keymap_table.insert(
        A,
        vec![entry(
            vec![],
            vec![KeymapAction::Remap(Remap {
                remap: vec![
                    RemapRule {
                        key_press: KeyPress { key: B, modifiers: vec![] },
                        actions: vec![press(ESC)],
                    },
                    RemapRule {
                        key_press: KeyPress { key: C, modifiers: vec![Modifier::Control] },
                        actions: vec![press(ESC)],
                    },
                ],
                timeout,
                timeout_key,
            })],
        )],
    );
    config
}

#[test]
fn a_nested_remap_is_taken_and_used_up() {
    let config = nested(None, None);
    let mut handler = handler();
    let (result, requests, _) =
        handle(&mut handler, key_event(A, PRESS), &config, at(0), &outside());
    assert_eq!(result, Ok(vec![]));
    assert_eq!(requests, vec![]);
    let (result, requests, _) =
        handle(&mut handler, key_event(B, PRESS), &config, at(0), &outside());
    assert_eq!(result, Ok(vec![key(ESC, PRESS), key(ESC, RELEASE), delay()]));
    assert_eq!(requests, vec![Request::UnsetTimer]);
    assert_eq!(send(&mut handler, B, PRESS, &config), vec![key(B, PRESS)]);
}

#[test]
fn a_nested_remap_sets_the_timer() {
    let config = nested(Some(Duration::from_millis(300)), None);
    let mut handler = handler();
    let (result, requests, _) =
        handle(&mut handler, key_event(A, PRESS), &config, at(0), &outside());
    assert_eq!(result, Ok(vec![]));
    assert_eq!(
        requests,
        vec![Request::UnsetTimer, Request::SetTimer(Duration::from_millis(300))]
    );
}

#[test]
fn a_timeout_sends_the_pending_key() {
    for (timeout_key, pending) in [(None, A), (Some(C), C)] {
        let config = nested(Some(Duration::from_millis(300)), timeout_key);
        let mut handler = handler();
        send(&mut handler, A, PRESS, &config);
        let (result, requests, _) =
            handle(&mut handler, Event::OverrideTimeout, &config, at(300), &outside());
        assert_eq!(result, Ok(vec![key(pending, PRESS), key(pending, RELEASE)]));
        assert_eq!(requests, vec![Request::UnsetTimer]);
        // The nested remap is down
        assert_eq!(send(&mut handler, B, PRESS, &config), vec![key(B, PRESS)]);
    }
}

#[test]
fn a_timeout_without_a_pending_key_sends_nothing() {
    let config = no_config();
    let (result, requests, _) =
        handle(&mut handler(), Event::OverrideTimeout, &config, at(0), &outside());
    assert_eq!(result, Ok(vec![]));
    assert_eq!(requests, vec![Request::UnsetTimer]);
}

#[test]
fn an_unused_remap_sends_its_pending_key() {
    let config = nested(Some(Duration::from_millis(300)), None);
    let mut handler = handler();
    send(&mut handler, A, PRESS, &config);
    assert_eq!(
        send(&mut handler, ESC, PRESS, &config),
        vec![key(A, PRESS), key(A, RELEASE), key(ESC, PRESS)]
    );
}

#[test]
fn a_remap_that_does_not_fit_sends_its_pending_key() {
    // The rule for C asks for control
    let config = nested(Some(Duration::from_millis(300)), None);
    let mut handler = handler();
    send(&mut handler, A, PRESS, &config);
    let (result, requests, _) =
        handle(&mut handler, key_event(C, PRESS), &config, at(0), &outside());
    assert_eq!(result, Ok(vec![key(A, PRESS), key(A, RELEASE), key(C, PRESS)]));
    assert_eq!(requests, vec![Request::UnsetTimer, Request::UnsetTimer]);
    // The nested remap is down, and nothing is pending any more
    assert_eq!(send(&mut handler, B, PRESS, &config), vec![key(B, PRESS)]);
}

#[test]
fn a_remap_that_does_not_fit_exactly_sends_its_pending_key() {
    let mut config = nested(Some(Duration::from_millis(300)), Some(ESC));
    for entry in config.keymap_table.get_mut(&A).unwrap() {
        entry.exact_match = true;
    }
    config.keymap_table.insert(B, vec![entry(vec![], vec![press(C)])]);
    let mut handler = handler();
    send(&mut handler, A, PRESS, &config);
    send(&mut handler, LEFTSHIFT, PRESS, &config);
    // The keymaps are looked at then
    assert_eq!(
        send(&mut handler, B, PRESS, &config),
        vec![
            key(ESC, PRESS),
            key(ESC, RELEASE),
            key(C, PRESS),
            key(C, RELEASE),
            delay()
        ]
    );
}

#[test]
fn an_unused_remap_without_a_pending_key_sends_nothing() {
    let config = nested(None, None);
    for unused in [C, ESC] {
        let mut handler = handler();
        send(&mut handler, A, PRESS, &config);
        assert_eq!(send(&mut handler, unused, PRESS, &config), vec![key(unused, PRESS)]);
        assert_eq!(send(&mut handler, B, PRESS, &config), vec![key(B, PRESS)]);
    }
}

#[test]
fn a_timer_that_fails_keeps_a_remap_that_has_the_key() {
    let config = nested(Some(Duration::from_millis(300)), None);
    let failing = Outside {
        application: None,
        matching: vec![],
        timer: Err(TimerError { errno: 22 }),
    };
    for with_rule in [B, C] {
        let mut handler = handler();
        send(&mut handler, A, PRESS, &config);
        let (result, requests, _) =
            handle(&mut handler, key_event(with_rule, PRESS), &config, at(0), &failing);
        assert_eq!(result, Err(TimerError { errno: 22 }));
        assert_eq!(requests, vec![Request::UnsetTimer]);
        // Nothing was sent, and the pending key is still pending
        assert_eq!(
            send(&mut handler, ESC, PRESS, &config),
            vec![key(A, PRESS), key(A, RELEASE), key(ESC, PRESS)]
        );
    }
}

#[test]
fn a_timer_that_fails_keeps_a_remap_that_lacks_the_key() {
    let config = nested(Some(Duration::from_millis(300)), None);
    let mut handler = handler();
    send(&mut handler, A, PRESS, &config);
    let failing = Outside {
        application: None,
        matching: vec![],
        timer: Err(TimerError { errno: 22 }),
    };
    let (result, _, _) = handle(&mut handler, key_event(ESC, PRESS), &config, at(0), &failing);
    assert_eq!(result, Err(TimerError { errno: 22 }));
    // The pending key was sent, and the nested remap still stands
    assert_eq!(
        send(&mut handler, B, PRESS, &config),
        vec![
            key(A, PRESS),
            key(A, RELEASE),
            key(ESC, PRESS),
            key(ESC, RELEASE),
            delay()
        ]
    );
}

#[test]
fn a_second_call_of_the_timer_that_fails_finds_the_remap_down() {
    let config = nested(Some(Duration::from_millis(300)), None);
    let mut handler = handler();
    send(&mut handler, A, PRESS, &config);
    let mut answers = Answers::new();
    answers.timer.push(Ok(()));
    answers.timer.push(Err(TimerError { errno: 9 }));
    match handler.on_event(&key_event(C, PRESS), &config, at(0), &answers) {
        Step::Done { result, .. } => assert_eq!(result, Err(TimerError { errno: 9 })),
        Step::Ask(request) => panic!("{:?}", request),
    }
    // The pending key was sent once, and the nested remap does not stand any more
    assert_eq!(
        send(&mut handler, B, PRESS, &config),
        vec![key(A, PRESS), key(A, RELEASE), key(B, PRESS)]
    );
    let (result, _, _) =
        handle(&mut handler, Event::OverrideTimeout, &config, at(300), &outside());
    assert_eq!(result, Ok(vec![]));
}

#[test]
fn a_key_that_was_pressed_as_another_one_becomes_a_multi_purpose_key() {
    let mut plain = no_config();
    plain.modmap.push(modmap(CAPSLOCK, ModmapAction::Key(LEFTALT)));
    let config = multi_purpose();
    let mut handler = handler();
    assert_eq!(send_at(&mut handler, CAPSLOCK, PRESS, &plain, 0), vec![key(LEFTALT, PRESS)]);
    // Hit alone, it is what it is when hit alone
    assert_eq!(send_at(&mut handler, CAPSLOCK, PRESS, &config, 10), vec![]);
    assert_eq!(
        send_at(&mut handler, CAPSLOCK, RELEASE, &config, 20),
        vec![key(ESC, PRESS), key(ESC, RELEASE)]
    );
    // Once it counts as held, the release is that of the key that it was pressed as
    assert_eq!(send_at(&mut handler, CAPSLOCK, PRESS, &config, 30), vec![]);
    assert_eq!(
        send_at(&mut handler, B, PRESS, &config, 40),
        vec![key(LEFTCTRL, PRESS), key(B, PRESS)]
    );
    assert_eq!(
        send_at(&mut handler, CAPSLOCK, RELEASE, &config, 50),
        vec![key(LEFTALT, RELEASE)]
    );
}

#[test]
fn only_real_and_virtual_modifiers_count_as_held() {
    let mut config = no_config();
    config.keymap_table.insert(A, vec![entry(vec![Modifier::Key(MUHENKAN)], vec![press(B)])]);
    let mut handler = handler();
    // Not declared a virtual modifier
    assert_eq!(send(&mut handler, MUHENKAN, PRESS, &config), vec![key(MUHENKAN, PRESS)]);
    assert_eq!(send(&mut handler, A, PRESS, &config), vec![key(A, PRESS)]);
}

#[test]
fn a_named_shift_key_is_not_the_other_one() {
    let mut config = no_config();
    config.keymap_table.insert(A, vec![entry(vec![Modifier::Key(LEFTSHIFT)], vec![press(B)])]);
    let mut handler = handler();
    send(&mut handler, RIGHTSHIFT, PRESS, &config);
    assert_eq!(send(&mut handler, A, PRESS, &config), vec![key(A, PRESS)]);
    send(&mut handler, RIGHTSHIFT, RELEASE, &config);
    send(&mut handler, LEFTSHIFT, PRESS, &config);
    assert_eq!(
        send(&mut handler, A, PRESS, &config),
        vec![
            key(LEFTSHIFT, RELEASE),
            key(B, PRESS),
            key(B, RELEASE),
            delay(),
            key(LEFTSHIFT, PRESS)
        ]
    );
}

#[test]
fn the_difference_of_modifiers_is_emulated() {
    // Control is held and not named, shift is held and named, alt is named and not held
    let mut config = no_config();
    config.keymap_table.insert(
        A,
        vec![entry(
            vec![Modifier::Control, Modifier::Shift],
            vec![KeymapAction::KeyPress(KeyPress {
                key: B,
                modifiers: vec![Modifier::Shift, Modifier::Alt],
            })],
        )],
    );
    let mut handler = handler();
    send(&mut handler, LEFTCTRL, PRESS, &config);
    send(&mut handler, RIGHTSHIFT, PRESS, &config);
    assert_eq!(
        send(&mut handler, A, PRESS, &config),
        vec![
            key(LEFTALT, PRESS),
            key(LEFTCTRL, RELEASE),
            key(B, PRESS),
            key(B, RELEASE),
            delay(),
            key(LEFTCTRL, PRESS),
            key(LEFTALT, RELEASE)
        ]
    );
}

#[test]
fn a_nested_remap_is_matched_with_extra_modifiers_unless_exactly() {
    for exact_match in [false, true] {
        let mut config = nested(None, None);
        for entry in config.keymap_table.get_mut(&A).unwrap() {
            entry.exact_match = exact_match;
        }
        let mut handler = handler();
        send(&mut handler, A, PRESS, &config);
        send(&mut handler, LEFTSHIFT, PRESS, &config);
        let expected = if exact_match {
            vec![key(B, PRESS)]
        } else {
            vec![key(ESC, PRESS), key(ESC, RELEASE), delay()]
        };
        assert_eq!(send(&mut handler, B, PRESS, &config), expected);
    }
}

#[test]
fn a_modifier_leaves_a_nested_remap_standing() {
    let config = nested(Some(Duration::from_millis(300)), None);
    let mut handler = handler();
    send(&mut handler, A, PRESS, &config);
    assert_eq!(send(&mut handler, A, RELEASE, &config), vec![key(A, RELEASE)]);
    assert_eq!(send(&mut handler, LEFTCTRL, PRESS, &config), vec![key(LEFTCTRL, PRESS)]);
    assert_eq!(
        send(&mut handler, C, PRESS, &config),
        vec![
            key(LEFTCTRL, RELEASE),
            key(ESC, PRESS),
            key(ESC, RELEASE),
            delay(),
            key(LEFTCTRL, PRESS)
        ]
    );
}

// Applications and answers

fn limited_to(only: Option<Vec<usize>>, not: Option<Vec<usize>>) -> Config {
    let mut config = no_config();
    config.modmap.push(Modmap {
        remap: HashMap::from([(A, ModmapAction::Key(B))]),
        application: Some(Application { only, not }),
    });
    config
}

#[test]
fn a_modmap_can_be_limited_to_applications() {
    for (only, not, matching, expected) in [
        (Some(vec![0, 1]), None, vec![1], B),
        (Some(vec![0, 1]), None, vec![2], A),
        (Some(vec![]), None, vec![0], A),
        (None, Some(vec![0, 1]), vec![1], A),
        (None, Some(vec![0, 1]), vec![2], B),
        (None, Some(vec![]), vec![0], B),
        // Where both are given, `only` decides
        (Some(vec![1]), Some(vec![1]), vec![1], B),
        (None, None, vec![0], A),
    ] {
        let config = limited_to(only, not);
        let outside = Outside { application: None, matching, timer: Ok(()) };
        let (result, _, _) =
            handle(&mut handler(), key_event(A, PRESS), &config, at(0), &outside);
        assert_eq!(result, Ok(vec![key(expected, PRESS)]));
    }
}

#[test]
fn the_application_is_asked_for_once_in_an_event() {
    let mut config = limited_to(Some(vec![0]), None);
    config.modmap.push(Modmap {
        remap: HashMap::from([(A, ModmapAction::Key(C))]),
        application: Some(Application { only: Some(vec![1]), not: None }),
    });
    let mut limited = entry(vec![], vec![press(ESC)]);
    limited.application = Some(Application { only: None, not: Some(vec![0]) });
    config.keymap_table.insert(C, vec![limited]);
    let outside =
        Outside { application: Some("term".to_string()), matching: vec![1], timer: Ok(()) };
    let mut handler = handler();
    for _ in 0..2 {
        let (result, requests, _) =
            handle(&mut handler, key_event(A, PRESS), &config, at(0), &outside);
        assert_eq!(result, Ok(vec![key(ESC, PRESS), key(ESC, RELEASE), delay()]));
        assert_eq!(
            requests,
            vec![Request::CurrentApplication, Request::Matching("term".to_string())]
        );
    }
}

#[test]
fn an_application_that_cannot_be_told_has_the_empty_name() {
    let config = limited_to(Some(vec![0]), None);
    let outside = Outside { application: None, matching: vec![0], timer: Ok(()) };
    let (result, requests, _) =
        handle(&mut handler(), key_event(A, PRESS), &config, at(0), &outside);
    assert_eq!(result, Ok(vec![key(B, PRESS)]));
    assert_eq!(requests, vec![Request::CurrentApplication, Request::Matching(String::new())]);
}

#[test]
fn an_application_without_limits_is_asked_for_and_not_admitted() {
    let config = limited_to(None, None);
    let (result, requests, _) =
        handle(&mut handler(), key_event(A, PRESS), &config, at(0), &outside());
    assert_eq!(result, Ok(vec![key(A, PRESS)]));
    assert_eq!(requests, vec![Request::CurrentApplication]);
}

#[test]
fn a_question_leaves_the_handler_as_it_was() {
    let config = nested(Some(Duration::from_millis(300)), None);
    let mut handler = handler();
    let answers = Answers::new();
    for _ in 0..3 {
        let step = handler.on_event(&key_event(A, PRESS), &config, at(0), &answers);
        assert!(matches!(step, Step::Ask(Request::UnsetTimer)));
    }
    // The nested remap does not stand
    assert_eq!(send(&mut handler, B, PRESS, &config), vec![key(B, PRESS)]);
}

#[test]
fn answers_that_nobody_asked_for_change_nothing() {
    let config = no_config();
    let mut answers = Answers::new();
    answers.application = Some(Some("editor".to_string()));
    answers.matching = Some(vec![0, 1, 2]);
    answers.timer.push(Err(TimerError { errno: 22 }));
    match handler().on_event(&key_event(A, PRESS), &config, at(0), &answers) {
        Step::Done { result, modes } => {
            assert_eq!(result, Ok(vec![key(A, PRESS)]));
            assert!(modes.is_empty());
        }
        Step::Ask(request) => panic!("{:?}", request),
    }
}

#[test]
fn a_timer_that_fails_stops_the_event_and_loses_no_action() {
    let config = nested(Some(Duration::from_millis(300)), None);
    let mut handler = handler();
    send(&mut handler, A, PRESS, &config);
    let failing = Outside {
        application: None,
        matching: vec![],
        timer: Err(TimerError { errno: 22 }),
    };
    let (result, requests, _) =
        handle(&mut handler, Event::OverrideTimeout, &config, at(300), &failing);
    assert_eq!(result, Err(TimerError { errno: 22 }));
    assert_eq!(requests, vec![Request::UnsetTimer]);
    // The key that was sent waits for the next event, and the nested remap still stands
    assert_eq!(
        send(&mut handler, B, PRESS, &config),
        vec![
            key(A, PRESS),
            key(A, RELEASE),
            key(ESC, PRESS),
            key(ESC, RELEASE),
            delay()
        ]
    );
}

#[test]
fn a_timer_that_cannot_be_set_leaves_no_pending_key() {
    let config = nested(Some(Duration::from_millis(300)), None);
    let mut handler = handler();
    let mut answers = Answers::new();
    answers.timer.push(Ok(()));
    answers.timer.push(Err(TimerError { errno: 9 }));
    match handler.on_event(&key_event(A, PRESS), &config, at(0), &answers) {
        Step::Done { result, .. } => assert_eq!(result, Err(TimerError { errno: 9 })),
        Step::Ask(request) => panic!("{:?}", request),
    }
    // The nested remap stands, without a key to send
    assert_eq!(
        send(&mut handler, B, PRESS, &config),
        vec![key(ESC, PRESS), key(ESC, RELEASE), delay()]
    );
}

#[test]
fn every_event_gets_done() {
    let mut config = nested(Some(Duration::from_millis(300)), None);
    for entry in config.keymap_table.get_mut(&A).unwrap() {
        entry.application = Some(Application { only: Some(vec![0]), not: None });
    }
    let outside = Outside {
        application: Some("editor".to_string()),
        matching: vec![0],
        timer: Ok(()),
    };
    let (result, requests, _) =
        handle(&mut handler(), key_event(A, PRESS), &config, at(0), &outside);
    assert_eq!(result, Ok(vec![]));
    assert_eq!(
        requests,
        vec![
            Request::CurrentApplication,
            Request::Matching("editor".to_string()),
            Request::UnsetTimer,
            Request::SetTimer(Duration::from_millis(300))
        ]
    );
}

#[test]
fn a_modifier_is_listed_once_however_often_it_is_pressed() {
    let mut config = no_config();
    config.keymap_table.insert(A, vec![entry(vec![Modifier::Shift], vec![press(B)])]);
    let mut handler = handler();
    send(&mut handler, LEFTSHIFT, PRESS, &config);
    send(&mut handler, LEFTSHIFT, PRESS, &config);
    assert_eq!(
        send(&mut handler, A, PRESS, &config),
        vec![
            key(LEFTSHIFT, RELEASE),
            key(B, PRESS),
            key(B, RELEASE),
            delay(),
            key(LEFTSHIFT, PRESS)
        ]
    );
    send(&mut handler, LEFTSHIFT, RELEASE, &config);
    assert_eq!(send(&mut handler, A, PRESS, &config), vec![key(A, PRESS)]);
}
