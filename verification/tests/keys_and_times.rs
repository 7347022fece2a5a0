use evdev::Key as Evdev;
use std::time::Duration;
use xremap::action::{copy_output, Action};
use xremap::config::build_override_table;
use xremap::event::{is_pressed, KeyEvent, Span, PRESS, RELEASE, REPEAT};
use xremap::event_handler::with_extra_modifiers;
use xremap::key_set::KeySet;
use xremap::keymap_action::{KeyPress, KeymapAction, RemapRule};
use xremap::keys::{contains_modifier, covered_by, is_modifier, key_for, Modifier};
use xremap::multi_purpose::{MultiPurposeKeyState, MultiPurposeKeys};

fn at(millis: u64) -> Span {
    Span { secs: millis / 1000, nanos: (millis % 1000) as u32 * 1_000_000 }
}

#[test]
fn press_and_repeat_find_the_key_down() {
    assert!(is_pressed(1));
    assert!(is_pressed(2));
    assert!(!is_pressed(0));
    assert!(!is_pressed(3));
    assert!(!is_pressed(-1));
}

#[test]
fn the_eight_modifier_keys_have_their_codes() {
    for code in [42, 54, 29, 97, 56, 100, 125, 126] {
        assert!(is_modifier(code), "{}", code);
    }
    for key in [
        Evdev::KEY_LEFTSHIFT,
        Evdev::KEY_RIGHTSHIFT,
        Evdev::KEY_LEFTCTRL,
        Evdev::KEY_RIGHTCTRL,
        Evdev::KEY_LEFTALT,
        Evdev::KEY_RIGHTALT,
        Evdev::KEY_LEFTMETA,
        Evdev::KEY_RIGHTMETA,
    ] {
        assert!(is_modifier(key.code()), "{:?}", key);
    }
}

#[test]
fn no_other_code_is_a_modifier() {
    let mut found: Vec<u16> = vec![];
    for code in 0..=u16::MAX {
        if is_modifier(code) {
            found.push(code);
        }
    }
    assert_eq!(found, vec![29, 42, 54, 56, 97, 100, 125, 126]);
}

#[test]
fn a_modifier_is_covered_by_its_left_and_its_right_key() {
    for (modifier, left, right) in [
        (Modifier::Shift, 42, 54),
        (Modifier::Control, 29, 97),
        (Modifier::Alt, 56, 100),
        (Modifier::Windows, 125, 126),
    ] {
        for code in 0..200 {
            assert_eq!(covered_by(&modifier, code), code == left || code == right);
        }
        assert_eq!(key_for(&modifier), left);
    }
}

#[test]
fn a_named_key_is_covered_by_itself() {
    assert!(covered_by(&Modifier::Key(58), 58));
    assert!(!covered_by(&Modifier::Key(58), 42));
    assert_eq!(key_for(&Modifier::Key(58)), 58);
}

#[test]
fn a_list_of_modifiers_contains_the_keys_that_cover_them() {
    let modifiers = vec![Modifier::Control, Modifier::Key(30)];
    assert!(contains_modifier(&modifiers, 97));
    assert!(contains_modifier(&modifiers, 30));
    assert!(!contains_modifier(&modifiers, 42));
    assert!(!contains_modifier(&vec![], 42));
}

#[test]
fn a_set_keeps_the_order_in_which_keys_came() {
    let mut set = KeySet::new();
    set.insert(42);
    set.insert(29);
    set.insert(42);
    assert_eq!(set.keys(), &vec![42, 29]);
    set.remove(42);
    set.remove(7);
    assert!(!set.contains(42));
    assert!(set.contains(29));
    set.insert(42);
    assert_eq!(set.clone().keys(), &vec![29, 42]);
    set.clear();
    assert_eq!(set.keys(), &Vec::<u16>::new());
}

#[test]
fn a_span_counts_nanoseconds() {
    assert_eq!(Span { secs: 0, nanos: 0 }.as_nanos(), 0);
    assert_eq!(Span { secs: 2, nanos: 5 }.as_nanos(), 2_000_000_005);
    assert_eq!(
        Span { secs: u64::MAX, nanos: u32::MAX }.as_nanos(),
        u64::MAX as u128 * 1_000_000_000 + u32::MAX as u128
    );
}

#[test]
fn a_key_event_holds_its_code_and_value() {
    let event = KeyEvent::new_with(30, REPEAT);
    assert_eq!(event.code(), 30);
    assert_eq!(event.value(), 2);
}

#[test]
fn a_key_waits_until_its_time_runs_out() {
    let mut state = MultiPurposeKeyState::new(29, 1, at(1000), at(200));
    assert_eq!(state.alone_timeout_at, Some(1_200_000_000));
    assert_eq!(state.repeat(at(1199)), vec![]);
    assert_eq!(state.release(at(1199)), vec![(1, PRESS), (1, RELEASE)]);
    assert_eq!(state.release(at(1200)), vec![(29, PRESS), (29, RELEASE)]);
    assert_eq!(state.repeat(at(1200)), vec![(29, PRESS)]);
    assert_eq!(state.alone_timeout_at, None);
    assert_eq!(state.repeat(at(1201)), vec![(29, REPEAT)]);
    assert_eq!(state.release(at(1202)), vec![(29, RELEASE)]);
    assert_eq!(state.force_held(), vec![]);
}

#[test]
fn a_delay_can_be_ended_at_once() {
    let mut state = MultiPurposeKeyState::new(29, 1, at(1000), at(200));
    assert_eq!(state.force_held(), vec![(29, PRESS)]);
    assert_eq!(state.force_held(), vec![]);
    assert_eq!(state.release(at(1001)), vec![(29, RELEASE)]);
}

#[test]
fn the_list_of_multi_purpose_keys_has_one_state_for_a_key() {
    let first = MultiPurposeKeyState::new(29, 1, at(0), at(100));
    let second = MultiPurposeKeyState::new(42, 2, at(0), at(100));
    let third = MultiPurposeKeyState::new(56, 3, at(0), at(100));
    let mut keys = MultiPurposeKeys::new();
    assert!(keys.is_empty());
    keys.insert(58, first);
    keys.insert(57, second);
    keys.insert(58, third);
    assert_eq!(keys.get(58), Some(third));
    assert_eq!(keys.get(57), Some(second));
    assert_eq!(keys.get(56), None);
    keys.replace(57, first);
    assert_eq!(keys.get(57), Some(first));
    // In the order in which they went down
    assert_eq!(keys.force_held(), vec![(29, PRESS), (56, PRESS)]);
    assert_eq!(keys.force_held(), vec![]);
    keys.remove(58);
    assert_eq!(keys.get(58), None);
    keys.remove(57);
    assert!(keys.is_empty());
}

#[test]
fn actions_are_put_between_notes_about_extra_modifiers() {
    let actions = vec![KeymapAction::SetMark(true)];
    let wrapped = with_extra_modifiers(&actions, &vec![42, 29]);
    assert_eq!(
        format!("{:?}", wrapped),
        "[SetExtraModifiers([42, 29]), SetMark(true), SetExtraModifiers([])]"
    );
    let bare = with_extra_modifiers(&actions, &vec![]);
    assert_eq!(format!("{:?}", bare), "[SetMark(true)]");
}

#[test]
fn a_table_of_a_nested_remap_keeps_the_order_of_its_rules() {
    let rule = |key: u16, modifiers: Vec<Modifier>, set: bool| RemapRule {
        key_press: KeyPress { key, modifiers },
        actions: vec![KeymapAction::SetMark(set)],
    };
    let table = build_override_table(&vec![
        rule(30, vec![Modifier::Shift], true),
        rule(48, vec![], true),
        rule(30, vec![], false),
    ]);
    assert_eq!(table.len(), 2);
    assert_eq!(
        format!("{:?}", table[&30]),
        "[OverrideEntry { actions: [SetMark(true)], modifiers: [Shift] }, \
         OverrideEntry { actions: [SetMark(false)], modifiers: [] }]"
    );
    assert_eq!(table[&48].len(), 1);
    assert!(build_override_table(&vec![]).is_empty());
}

#[test]
fn actions_are_copied() {
    let actions = vec![
        Action::KeyEvent(KeyEvent::new_with(30, PRESS)),
        Action::Command(vec!["ls".to_string()]),
        Action::Delay(Duration::from_millis(7)),
    ];
    assert_eq!(copy_output(&actions), actions);
}
