//! What the actions of keymaps do.

use crate::action::ActionView;
use crate::config::{entries_for, lemma_override_table_push, override_table, OverrideEntryView};
use crate::keymap_action::{KeymapActionView, RemapRuleView, RemapView};
use crate::keys::Key;
use crate::model::{dispatch_action, dispatch_actions, with_extra_modifiers, HandlerView};
use crate::outside::{AnswersView, RequestView, StopView};
use vstd::prelude::*;

verus! {

/// Actions are carried out one after the other: none of them is nothing, and some and then others
/// are the others from where the first ones got to, unless one of these was stopped.
pub proof fn law_actions_go_one_after_the_other(
    h: HandlerView,
    first: Seq<KeymapActionView>,
    action: KeymapActionView,
    second: Seq<KeymapActionView>,
    key: Key,
    answers: AnswersView,
)
    ensures
        dispatch_actions(h, Seq::empty(), key, answers) == (h, Ok::<(), StopView>(())),
        dispatch_actions(h, seq![action], key, answers) == dispatch_action(
            h,
            action,
            key,
            answers,
        ),
        dispatch_actions(h, first + second, key, answers) == match dispatch_actions(
            h,
            first,
            key,
            answers,
        ) {
            (next, Ok(())) => dispatch_actions(next, second, key, answers),
            stopped => stopped,
        },
    decreases first.len(),
{
    reveal_with_fuel(dispatch_actions, 2);
    assert(seq![action].drop_first() =~= Seq::empty());
    if first.len() == 0 {
        assert(first + second =~= second);
    } else {
        assert((first + second).drop_first() =~= first.drop_first() + second);
        let (next, outcome) = dispatch_action(h, first[0], key, answers);
        if outcome is Ok {
            law_actions_go_one_after_the_other(
                next,
                first.drop_first(),
                action,
                second,
                key,
                answers,
            );
        }
    }
}

/// A command is handed out, a mode is switched to and told of, the mark is set or cleared, the next
/// key is escaped or not, and modifiers are kept down from then on. None of these does anything
/// else, and none needs anything from outside.
pub proof fn law_simple_actions(
    h: HandlerView,
    command: Seq<Seq<char>>,
    mode: Seq<char>,
    set: bool,
    keys: Seq<Key>,
    key: Key,
    answers: AnswersView,
)
    ensures
        dispatch_action(h, KeymapActionView::Launch(command), key, answers) == (
            HandlerView { actions: h.actions.push(ActionView::Command(command)), ..h },
            Ok::<(), StopView>(()),
        ),
        dispatch_action(h, KeymapActionView::SetMode(mode), key, answers) == (
            HandlerView { mode, modes: h.modes.push(mode), ..h },
            Ok::<(), StopView>(()),
        ),
        dispatch_action(h, KeymapActionView::SetMark(set), key, answers) == (
            HandlerView { mark_set: set, ..h },
            Ok::<(), StopView>(()),
        ),
        dispatch_action(h, KeymapActionView::EscapeNextKey(set), key, answers) == (
            HandlerView { escape_next_key: set, ..h },
            Ok::<(), StopView>(()),
        ),
        ({
            let (next, outcome) = dispatch_action(
                h,
                KeymapActionView::SetExtraModifiers(keys),
                key,
                answers,
            );
            &&& outcome is Ok
            &&& next == HandlerView { extra_modifiers: next.extra_modifiers, ..h }
            &&& forall|kept: Key| #[trigger]
                next.extra_modifiers.contains(kept) == keys.contains(kept)
        }),
{
    assert(h.actions + seq![ActionView::Command(command)] =~= h.actions.push(
        ActionView::Command(command),
    ));
}

/// Actions that were triggered with no extra modifiers held are carried out as they are.
pub proof fn law_no_extra_modifiers(actions: Seq<KeymapActionView>)
    ensures
        with_extra_modifiers(actions, Seq::empty()) == actions,
{
}

/// A nested remap without a timeout stands from then on, and the timer is left alone.
pub proof fn law_remap_without_a_timeout(
    h: HandlerView,
    remap: RemapView,
    key: Key,
    answers: AnswersView,
)
    requires
        remap.timeout is None,
    ensures
        dispatch_action(h, KeymapActionView::Remap(remap), key, answers) == (
            HandlerView { override_remap: Some(override_table(remap.remap)), ..h },
            Ok::<(), StopView>(()),
        ),
{
}

/// A nested remap with a timeout stands from then on. The timer is unset and then set to the
/// timeout; where both went well, the timeout key is pending or, if none is given, the key that set
/// the nested remap up.
pub proof fn law_remap_with_a_timeout(
    h: HandlerView,
    remap: RemapView,
    key: Key,
    answers: AnswersView,
)
    requires
        remap.timeout is Some,
    ensures
        ({
            let stands = HandlerView { override_remap: Some(override_table(remap.remap)), ..h };
            let once = HandlerView { timer_calls: h.timer_calls + 1, ..stands };
            let twice = HandlerView { timer_calls: h.timer_calls + 2, ..stands };
            let first = answers.timer[h.timer_calls as int];
            let second = answers.timer[h.timer_calls as int + 1];
            dispatch_action(h, KeymapActionView::Remap(remap), key, answers)
                == if h.timer_calls >= answers.timer.len() {
                (stands, Err::<(), _>(StopView::Ask(RequestView::UnsetTimer)))
            } else if first is Err {
                (once, Err::<(), _>(StopView::Failed(first->Err_0)))
            } else if h.timer_calls + 1 >= answers.timer.len() {
                (once, Err::<(), _>(StopView::Ask(RequestView::SetTimer(remap.timeout->0))))
            } else if second is Err {
                (twice, Err::<(), _>(StopView::Failed(second->Err_0)))
            } else {
                (
                    HandlerView {
                        override_timeout_key: Some(
                            if remap.timeout_key is Some {
                                remap.timeout_key->0
                            } else {
                                key
                            },
                        ),
                        ..twice
                    },
                    Ok::<(), StopView>(()),
                )
            }
        }),
{
}

/// The table of a nested remap has the keys that trigger its rules, and for each key the modifiers
/// and actions of its rules in their order: no rule gives the empty table, and one rule more adds
/// to its key and leaves the other keys alone.
pub proof fn law_table_of_a_nested_remap(
    rules: Seq<RemapRuleView>,
    rule: RemapRuleView,
    key: Key,
)
    ensures
        !override_table(Seq::empty()).contains_key(key),
        ({
            let before = override_table(rules);
            let after = override_table(rules.push(rule));
            let entry = OverrideEntryView {
                actions: rule.actions,
                modifiers: rule.key_press.modifiers,
            };
            if key == rule.key_press.key {
                &&& after.contains_key(key)
                &&& after[key] == if before.contains_key(key) {
                    before[key].push(entry)
                } else {
                    seq![entry]
                }
            } else {
                &&& after.contains_key(key) == before.contains_key(key)
                &&& before.contains_key(key) ==> after[key] == before[key]
            }
        }),
{
    lemma_override_table_push(rules, rule);
    reveal(Seq::filter);
    if !override_table(rules).contains_key(key) {
        assert(entries_for(rules, key) =~= Seq::empty());
    }
}

} // verus!
