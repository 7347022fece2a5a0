//! Which actions a key triggers, and which keys pass as they are.

use crate::action::{key_action, ActionView};
use crate::config::{
    entries_for, override_table, rule_entry, triggered_by, ApplicationView, ConfigView,
    KeymapEntryView, ModmapActionView, ModmapView, OverrideEntryView,
};
use crate::event::{Event, KeyEvent, Span, PRESS, RELEASE, REPEAT};
use crate::filters::{lemma_filter_first, lemma_filter_holds, lemma_none_passes};
use crate::key_set::other_than;
use crate::keymap_action::{KeymapActionView, RemapRuleView};
use crate::keys::{extra_keys, is_modifier_key, Key};
use crate::laws::applications::{is_for, law_limits_to_applications};
use crate::laws::modifiers::{all_are_held, all_are_named, law_fitting_modifiers};
use crate::model::{
    apply_keymap, apply_keymaps, dispatch_action, dispatch_actions, entry_fits, find_in_table,
    find_keymap, find_modmap, first_override, flush_override, key_events, match_limit, on_event,
    override_fits, pick_override, remove_override, scan_entries, update_modifier,
    with_extra_modifiers, HandlerView,
};
use crate::multi_purpose::delayed_presses;
use crate::outside::{AnswersView, RequestView, StepView, StopView};
use vstd::prelude::*;

verus! {

// The first that applies

/// Whether everything about the application was answered.
pub open spec fn application_is_known(answers: AnswersView) -> bool {
    answers.application is Some && answers.matching is Some
}

/// Whether `limit` admits the active application.
pub open spec fn admitted(limit: Option<ApplicationView>, answers: AnswersView) -> bool {
    is_for(limit, answers.matching->0)
}

/// Whether `entry` is for the modifiers, the application and the mode: every modifier that it names
/// is held, in a round for exact matches no other is, and one that asks for an exact match is taken
/// in no other round.
pub open spec fn applies(
    h: HandlerView,
    entry: KeymapEntryView,
    exact: bool,
    answers: AnswersView,
) -> bool {
    &&& entry.exact_match ==> exact
    &&& all_are_held(h.modifiers, entry.modifiers)
    &&& exact ==> all_are_named(h.modifiers, entry.modifiers)
    &&& admitted(entry.application, answers)
    &&& entry.mode is Some ==> entry.mode->0.contains(h.mode)
}

/// Whether `actions` are those of the first of `entries` that applies, and `exact_match` tells
/// whether that entry asks for an exact match.
pub open spec fn are_of_first(
    h: HandlerView,
    entries: Seq<KeymapEntryView>,
    exact: bool,
    answers: AnswersView,
    actions: Seq<KeymapActionView>,
    exact_match: bool,
) -> bool {
    exists|i: int| #[trigger] is_first(h, entries, exact, answers, i) && actions
        == with_extra_modifiers(
        entries[i].actions,
        extra_keys(h.modifiers, entries[i].modifiers),
    ) && exact_match == entries[i].exact_match
}

/// Whether the first of `entries` that applies is the one at `i`.
pub open spec fn is_first(
    h: HandlerView,
    entries: Seq<KeymapEntryView>,
    exact: bool,
    answers: AnswersView,
    i: int,
) -> bool {
    &&& 0 <= i < entries.len()
    &&& applies(h, entries[i], exact, answers)
    &&& forall|j: int| 0 <= j < i ==> !applies(h, #[trigger] entries[j], exact, answers)
}

/// Whether none of `entries` applies.
pub open spec fn none_applies(
    h: HandlerView,
    entries: Seq<KeymapEntryView>,
    exact: bool,
    answers: AnswersView,
) -> bool {
    forall|i: int| 0 <= i < entries.len() ==> !applies(h, #[trigger] entries[i], exact, answers)
}

/// A search among the entries of a key changes nothing but what is known of the application and
/// how exact the next nested remap has to be matched.
proof fn lemma_scan_only_learns(
    h: HandlerView,
    entries: Seq<KeymapEntryView>,
    exact: bool,
    answers: AnswersView,
)
    ensures
        ({
            let next = scan_entries(h, entries, exact, answers).0;
            next == HandlerView {
                application_cache: next.application_cache,
                override_remap_exact_match: next.override_remap_exact_match,
                ..h
            }
        }),
    decreases entries.len(),
{
    if entries.len() > 0 {
        lemma_scan_only_learns(h, entries.drop_first(), exact, answers);
        let next = match_limit(h, entries[0].application, answers).0;
        lemma_scan_only_learns(next, entries.drop_first(), exact, answers);
    }
}

proof fn lemma_scan(
    h: HandlerView,
    learned: HandlerView,
    entries: Seq<KeymapEntryView>,
    exact: bool,
    answers: AnswersView,
)
    requires
        application_is_known(answers),
        learned == (HandlerView { application_cache: learned.application_cache, ..h }),
    ensures
        match scan_entries(learned, entries, exact, answers).1 {
            Ok(Some(actions)) => are_of_first(
                h,
                entries,
                exact,
                answers,
                actions,
                scan_entries(learned, entries, exact, answers).0.override_remap_exact_match,
            ),
            Ok(None) => none_applies(h, entries, exact, answers),
            Err(_) => false,
        },
        scan_entries(learned, entries, exact, answers).1 matches Ok(None) ==> ({
            let next = scan_entries(learned, entries, exact, answers).0;
            next == HandlerView { application_cache: next.application_cache, ..h }
        }),
    decreases entries.len(),
{
    if entries.len() > 0 {
        let rest = entries.drop_first();
        law_fitting_modifiers(h.modifiers, entries[0].modifiers, exact);
        law_limits_to_applications(learned, entries[0].application, answers);
        let (next, outcome) = if entry_fits(learned, entries[0], exact) {
            match_limit(learned, entries[0].application, answers)
        } else {
            (learned, Ok(false))
        };
        assert(outcome is Ok);
        if applies(h, entries[0], exact, answers) {
            assert(is_first(h, entries, exact, answers, 0));
        } else {
            lemma_scan(h, next, rest, exact, answers);
            match scan_entries(next, rest, exact, answers).1 {
                Ok(Some(actions)) => {
                    let i = choose|i: int| #[trigger]
                        is_first(h, rest, exact, answers, i) && actions == with_extra_modifiers(
                            rest[i].actions,
                            extra_keys(h.modifiers, rest[i].modifiers),
                        ) && scan_entries(next, rest, exact, answers).0.override_remap_exact_match
                            == rest[i].exact_match;
                    assert forall|j: int| 0 <= j < i + 1 implies !applies(
                        h,
                        #[trigger] entries[j],
                        exact,
                        answers,
                    ) by {
                        if j > 0 {
                            assert(rest[j - 1] == entries[j]);
                        }
                    }
                    assert(rest[i] == entries[i + 1]);
                    assert(is_first(h, entries, exact, answers, i + 1));
                },
                _ => {
                    assert forall|j: int| 0 <= j < entries.len() implies !applies(
                        h,
                        #[trigger] entries[j],
                        exact,
                        answers,
                    ) by {
                        if j > 0 {
                            assert(rest[j - 1] == entries[j]);
                        }
                    }
                },
            }
        }
    }
}

/// Of the entries of a key, the first one that is for the modifiers, the application and the mode
/// is taken. One that names exactly the modifiers that are held goes before any that does not. A
/// nested remap that is set up by the one that is taken asks for exact matches if that one does.
pub proof fn law_first_entry_is_taken(
    h: HandlerView,
    table: Map<Key, Seq<KeymapEntryView>>,
    key: Key,
    answers: AnswersView,
)
    requires
        application_is_known(answers),
        table.contains_key(key),
    ensures
        match find_in_table(h, table, key, answers).1 {
            Ok(Some(actions)) => {
                let exact_match = find_in_table(
                    h,
                    table,
                    key,
                    answers,
                ).0.override_remap_exact_match;
                ||| are_of_first(h, table[key], true, answers, actions, exact_match)
                ||| {
                    &&& none_applies(h, table[key], true, answers)
                    &&& are_of_first(h, table[key], false, answers, actions, exact_match)
                }
            },
            Ok(None) => {
                &&& none_applies(h, table[key], true, answers)
                &&& none_applies(h, table[key], false, answers)
            },
            Err(_) => false,
        },
        ({
            let (next, outcome) = find_in_table(h, table, key, answers);
            &&& next == HandlerView {
                application_cache: next.application_cache,
                override_remap_exact_match: next.override_remap_exact_match,
                ..h
            }
            &&& outcome matches Ok(None) ==> next.override_remap_exact_match
                == h.override_remap_exact_match
        }),
{
    lemma_scan(h, h, table[key], true, answers);
    lemma_scan_only_learns(h, table[key], true, answers);
    let next = scan_entries(h, table[key], true, answers).0;
    lemma_scan_only_learns(next, table[key], false, answers);
    if scan_entries(h, table[key], true, answers).1 matches Ok(None) {
        lemma_scan(h, next, table[key], false, answers);
    }
}

/// Whether `entry` has to be decided by the active application: it is limited to applications, and
/// it is for the modifiers that are held.
pub open spec fn depends_on_application(
    h: HandlerView,
    entry: KeymapEntryView,
    exact: bool,
) -> bool {
    &&& entry.application is Some
    &&& entry.exact_match ==> exact
    &&& all_are_held(h.modifiers, entry.modifiers)
    &&& exact ==> all_are_named(h.modifiers, entry.modifiers)
}

/// A key that is not in the table has no actions there. What is asked for is the active application
/// and which matchers match it, and only where an entry depends on the application: if none does,
/// or none before one that is taken without asking, nothing is asked for.
pub proof fn law_lookup_asks_for_the_application_only(
    h: HandlerView,
    table: Map<Key, Seq<KeymapEntryView>>,
    key: Key,
    answers: AnswersView,
    n: int,
)
    ensures
        !table.contains_key(key) ==> find_in_table(h, table, key, answers) == (
            h,
            Ok::<Option<Seq<KeymapActionView>>, StopView>(None),
        ),
        (forall|i: int|
            0 <= i < table[key].len() ==> !depends_on_application(h, #[trigger] table[key][i], true)
                && !depends_on_application(h, table[key][i], false)) ==> find_in_table(
            h,
            table,
            key,
            answers,
        ).1 is Ok,
        0 <= n < table[key].len() && table[key][n].application is None && applies(
            h,
            table[key][n],
            true,
            answers,
        ) && (forall|i: int|
            0 <= i < n ==> !depends_on_application(h, #[trigger] table[key][i], true))
            ==> find_in_table(h, table, key, answers).1 is Ok,
        find_in_table(h, table, key, answers).1 matches Err(stop) ==> stop matches StopView::Ask(
            request,
        ) && (request is CurrentApplication || request is Matching),
{
    if table.contains_key(key) {
        let entries = table[key];
        lemma_scan_asks(h, h, entries, true, answers, n);
        let (next, outcome) = scan_entries(h, entries, true, answers);
        lemma_scan_only_learns(h, entries, true, answers);
        lemma_scan_asks(next, next, entries, false, answers, n);
        assert forall|entry: KeymapEntryView, exact: bool| #[trigger]
            depends_on_application(next, entry, exact) == depends_on_application(
            h,
            entry,
            exact,
        ) by {
        }
    }
}

proof fn lemma_scan_asks(
    h: HandlerView,
    learned: HandlerView,
    entries: Seq<KeymapEntryView>,
    exact: bool,
    answers: AnswersView,
    n: int,
)
    requires
        learned == (HandlerView { application_cache: learned.application_cache, ..h }),
    ensures
        (forall|i: int|
            0 <= i < entries.len() ==> !depends_on_application(h, #[trigger] entries[i], exact))
            ==> scan_entries(learned, entries, exact, answers).1 is Ok,
        0 <= n < entries.len() && entries[n].application is None && applies(
            h,
            entries[n],
            exact,
            answers,
        ) && (forall|i: int|
            0 <= i < n ==> !depends_on_application(h, #[trigger] entries[i], exact))
            ==> scan_entries(learned, entries, exact, answers).1 matches Ok(Some(_)),
        scan_entries(learned, entries, exact, answers).1 matches Err(stop)
            ==> stop matches StopView::Ask(request) && (request is CurrentApplication
            || request is Matching),
    decreases entries.len(),
{
    if entries.len() > 0 {
        let rest = entries.drop_first();
        assert forall|i: int| 0 <= i < rest.len() implies #[trigger] rest[i] == entries[i + 1] by {
        }
        law_fitting_modifiers(h.modifiers, entries[0].modifiers, exact);
        law_limits_to_applications(learned, entries[0].application, answers);
        lemma_scan_asks(h, learned, rest, exact, answers, n - 1);
        let next = match_limit(learned, entries[0].application, answers).0;
        lemma_scan_asks(h, next, rest, exact, answers, n - 1);
        let ahead = forall|i: int|
            0 <= i < n ==> !depends_on_application(h, #[trigger] entries[i], exact);
        if ahead && 0 < n < entries.len() {
            assert(!depends_on_application(h, entries[0], exact));
            assert forall|i: int| 0 <= i < n - 1 implies !depends_on_application(
                h,
                #[trigger] rest[i],
                exact,
            ) by {
                assert(rest[i] == entries[i + 1]);
            }
        }
        if forall|i: int|
            0 <= i < entries.len() ==> !depends_on_application(h, #[trigger] entries[i], exact) {
            assert(!depends_on_application(h, entries[0], exact));
        }
    }
}

/// What the modmaps ask for is the active application and which matchers match it. They ask for
/// nothing where no modmap that has the key is limited to applications, or none before one that has
/// it and is not. A search changes nothing but what is known of the application.
pub proof fn law_modmaps_ask_for_the_application_only(
    h: HandlerView,
    modmaps: Seq<ModmapView>,
    key: Key,
    answers: AnswersView,
    n: int,
)
    ensures
        (forall|i: int|
            0 <= i < modmaps.len() ==> !(#[trigger] modmaps[i]).remap.contains_key(key)
                || modmaps[i].application is None) ==> find_modmap(
            h,
            modmaps,
            key,
            answers,
        ).1 is Ok,
        0 <= n < modmaps.len() && modmaps[n].remap.contains_key(key)
            && modmaps[n].application is None && (forall|i: int|
            0 <= i < n ==> !(#[trigger] modmaps[i]).remap.contains_key(key)
                || modmaps[i].application is None) ==> find_modmap(
            h,
            modmaps,
            key,
            answers,
        ).1 is Ok,
        find_modmap(h, modmaps, key, answers).1 matches Err(stop) ==> stop matches StopView::Ask(
            request,
        ) && (request is CurrentApplication || request is Matching),
        ({
            let found = find_modmap(h, modmaps, key, answers).0;
            found == HandlerView { application_cache: found.application_cache, ..h }
        }),
    decreases modmaps.len(),
{
    if modmaps.len() > 0 {
        let rest = modmaps.drop_first();
        assert forall|i: int| 0 <= i < rest.len() implies #[trigger] rest[i] == modmaps[i + 1] by {
        }
        law_modmaps_ask_for_the_application_only(h, rest, key, answers, n - 1);
        let next = match_limit(h, modmaps[0].application, answers).0;
        law_modmaps_ask_for_the_application_only(next, rest, key, answers, n - 1);
    }
}

/// Whether the first of `modmaps` that maps `key`, for the active application, is the one at `i`.
pub open spec fn is_first_modmap(
    modmaps: Seq<ModmapView>,
    key: Key,
    answers: AnswersView,
    i: int,
) -> bool {
    &&& 0 <= i < modmaps.len()
    &&& maps(modmaps[i], key, answers)
    &&& forall|j: int| 0 <= j < i ==> !maps(#[trigger] modmaps[j], key, answers)
}

/// Whether `modmap` maps `key` for the active application.
pub open spec fn maps(modmap: ModmapView, key: Key, answers: AnswersView) -> bool {
    modmap.remap.contains_key(key) && admitted(modmap.application, answers)
}

/// Of the modmaps, the first one that maps the key and admits the active application is taken.
pub proof fn law_first_modmap_is_taken(
    h: HandlerView,
    modmaps: Seq<ModmapView>,
    key: Key,
    answers: AnswersView,
)
    requires
        application_is_known(answers),
    ensures
        match find_modmap(h, modmaps, key, answers).1 {
            Ok(Some(action)) => exists|i: int| #[trigger]
                is_first_modmap(modmaps, key, answers, i) && action == modmaps[i].remap[key],
            Ok(None) => forall|i: int|
                0 <= i < modmaps.len() ==> !maps(#[trigger] modmaps[i], key, answers),
            Err(_) => false,
        },
    decreases modmaps.len(),
{
    if modmaps.len() > 0 {
        let rest = modmaps.drop_first();
        law_limits_to_applications(h, modmaps[0].application, answers);
        let (next, outcome) = if modmaps[0].remap.contains_key(key) {
            match_limit(h, modmaps[0].application, answers)
        } else {
            (h, Ok(false))
        };
        assert(outcome is Ok);
        if maps(modmaps[0], key, answers) {
            assert(is_first_modmap(modmaps, key, answers, 0));
        } else {
            law_first_modmap_is_taken(next, rest, key, answers);
            match find_modmap(next, rest, key, answers).1 {
                Ok(Some(action)) => {
                    let i = choose|i: int| #[trigger]
                        is_first_modmap(rest, key, answers, i) && action == rest[i].remap[key];
                    assert forall|j: int| 0 <= j < i + 1 implies !maps(
                        #[trigger] modmaps[j],
                        key,
                        answers,
                    ) by {
                        if j > 0 {
                            assert(rest[j - 1] == modmaps[j]);
                        }
                    }
                    assert(rest[i] == modmaps[i + 1]);
                    assert(is_first_modmap(modmaps, key, answers, i + 1));
                },
                _ => {
                    assert forall|j: int| 0 <= j < modmaps.len() implies !maps(
                        #[trigger] modmaps[j],
                        key,
                        answers,
                    ) by {
                        if j > 0 {
                            assert(rest[j - 1] == modmaps[j]);
                        }
                    }
                },
            }
        }
    }
}

// Nested remaps

/// A key that is pressed uses up the nested remap that stands, whether it has the key or not.
pub proof fn law_nested_remap_is_used_up(
    h: HandlerView,
    config: ConfigView,
    key: Key,
    answers: AnswersView,
)
    requires
        h.override_remap is Some,
        find_keymap(h, config, key, answers).1 is Ok,
    ensures
        find_keymap(h, config, key, answers).0.override_remap is None,
        find_keymap(h, config, key, answers).0.override_timeout_key is None,
{
    let table = h.override_remap->0;
    let removed = if table.contains_key(key) {
        remove_override(h, answers).0
    } else {
        h
    };
    let flushed = flush_override(removed, h.override_timeout_key, answers).0;
    if config.keymap_table.contains_key(key) {
        let entries = config.keymap_table[key];
        lemma_scan_only_learns(flushed, entries, true, answers);
        let next = scan_entries(flushed, entries, true, answers).0;
        lemma_scan_only_learns(next, entries, false, answers);
    }
}

/// The press and the release of `pending`, if there is such a key.
pub open spec fn hit(pending: Option<Key>) -> Seq<ActionView> {
    match pending {
        Some(key) => seq![
            ActionView::KeyEvent(KeyEvent { code: key, value: 1 }),
            ActionView::KeyEvent(KeyEvent { code: key, value: 0 }),
        ],
        None => seq![],
    }
}

/// Whether none of `entries` has all its modifiers held or, where the match has to be exact, none
/// has all its modifiers held and names all that are.
pub open spec fn no_override_fits(
    pressed: Seq<Key>,
    entries: Seq<OverrideEntryView>,
    exact: bool,
) -> bool {
    forall|i: int|
        0 <= i < entries.len() ==> !(all_are_held(pressed, (#[trigger] entries[i]).modifiers) && (
        exact ==> all_are_named(pressed, entries[i].modifiers)))
}

/// Whether the nested remap that stands has nothing for `key` with the modifiers that are held.
pub open spec fn is_unused(h: HandlerView, key: Key) -> bool {
    &&& h.override_remap is Some
    &&& h.override_remap->0.contains_key(key) ==> no_override_fits(
        h.modifiers,
        h.override_remap->0[key],
        h.override_remap_exact_match,
    )
}

/// How often the timer is unset for a nested remap that is not used for `key`.
pub open spec fn unset_calls(h: HandlerView, key: Key) -> nat {
    if h.override_remap->0.contains_key(key) {
        2
    } else {
        1
    }
}

/// Nothing is picked from a nested remap that is not used.
proof fn lemma_unused(h: HandlerView, key: Key)
    requires
        is_unused(h, key),
    ensures
        h.override_remap->0.contains_key(key) ==> forall|other: HandlerView|
            other.modifiers == h.modifiers && other.override_remap_exact_match
                == h.override_remap_exact_match ==> #[trigger] pick_override(
                other,
                h.override_remap->0[key],
            ) is None,
{
    let table = h.override_remap->0;
    if table.contains_key(key) {
        assert forall|i: int| 0 <= i < table[key].len() implies !override_fits(h.modifiers, true)(
            #[trigger] table[key][i],
        ) && (h.override_remap_exact_match || !override_fits(h.modifiers, false)(
            table[key][i],
        )) by {
            law_fitting_modifiers(h.modifiers, table[key][i].modifiers, true);
            law_fitting_modifiers(h.modifiers, table[key][i].modifiers, false);
        }
        lemma_none_passes(table[key], override_fits(h.modifiers, true));
        if !h.override_remap_exact_match {
            lemma_none_passes(table[key], override_fits(h.modifiers, false));
        }
    }
}

/// Where no nested remap stands, a key is looked up in the keymaps.
pub proof fn law_lookup_without_a_nested_remap(
    h: HandlerView,
    config: ConfigView,
    key: Key,
    answers: AnswersView,
)
    requires
        h.override_remap is None,
    ensures
        find_keymap(h, config, key, answers) == find_in_table(
            h,
            config.keymap_table,
            key,
            answers,
        ),
{
}

/// A nested remap that does not have the key that is pressed, or not with the modifiers that are
/// held, is not used: its pending key, if there is one, is sent, and the key is looked up in the
/// keymaps as if there had been no nested remap. The timer is unset once, or twice where the nested
/// remap has the key.
pub proof fn law_unused_remap_sends_its_key(
    h: HandlerView,
    config: ConfigView,
    key: Key,
    answers: AnswersView,
)
    requires
        is_unused(h, key),
        h.timer_calls + unset_calls(h, key) <= answers.timer.len(),
        forall|i: int|
            h.timer_calls <= i < h.timer_calls + unset_calls(h, key) ==> (
            #[trigger] answers.timer[i]) is Ok,
    ensures
        find_keymap(h, config, key, answers) == find_in_table(
            HandlerView {
                override_remap: None,
                override_timeout_key: None,
                actions: h.actions + hit(h.override_timeout_key),
                timer_calls: h.timer_calls + unset_calls(h, key),
                ..h
            },
            config.keymap_table,
            key,
            answers,
        ),
{
    lemma_unused(h, key);
    assert(answers.timer[h.timer_calls as int] is Ok);
    if h.override_remap->0.contains_key(key) {
        assert(answers.timer[h.timer_calls as int + 1] is Ok);
    }
    if h.override_timeout_key is None {
        assert(h.actions + hit(None) =~= h.actions);
    }
}

/// A key that is pressed while a nested remap stands asks for the timer to be unset. If that fails,
/// the nested remap stays with its pending key, which is sent only if the nested remap does not
/// have the key.
pub proof fn law_nested_remap_unsets_the_timer(
    h: HandlerView,
    config: ConfigView,
    key: Key,
    answers: AnswersView,
)
    requires
        h.override_remap is Some,
    ensures
        h.timer_calls >= answers.timer.len() ==> find_keymap(h, config, key, answers).1 == Err::<
            Option<Seq<KeymapActionView>>,
            _,
        >(StopView::Ask(RequestView::UnsetTimer)),
        h.timer_calls < answers.timer.len() ==> (answers.timer[h.timer_calls as int] matches Err(
            error,
        ) ==> find_keymap(h, config, key, answers) == (
            HandlerView {
                actions: h.actions + if h.override_remap->0.contains_key(key) {
                    seq![]
                } else {
                    hit(h.override_timeout_key)
                },
                timer_calls: h.timer_calls + 1,
                ..h
            },
            Err::<Option<Seq<KeymapActionView>>, _>(StopView::Failed(error)),
        )),
{
    assert(h.actions + seq![] =~= h.actions);
    assert(h.actions + hit(None) =~= h.actions);
}

/// Where a nested remap has the key but not with the modifiers that are held, the timer is unset
/// once more after the first call went well. If that fails, the nested remap is down, and its
/// pending key is sent and not pending any more.
pub proof fn law_unused_remap_is_down_when_the_timer_fails(
    h: HandlerView,
    config: ConfigView,
    key: Key,
    answers: AnswersView,
)
    requires
        is_unused(h, key),
        h.override_remap->0.contains_key(key),
        h.timer_calls < answers.timer.len(),
        answers.timer[h.timer_calls as int] is Ok,
    ensures
        h.timer_calls + 1 >= answers.timer.len() ==> find_keymap(h, config, key, answers).1
            == Err::<Option<Seq<KeymapActionView>>, _>(StopView::Ask(RequestView::UnsetTimer)),
        h.timer_calls + 1 < answers.timer.len() ==> (answers.timer[h.timer_calls as int
            + 1] matches Err(error) ==> find_keymap(h, config, key, answers) == (
            HandlerView {
                override_remap: None,
                override_timeout_key: None,
                actions: h.actions + hit(h.override_timeout_key),
                timer_calls: h.timer_calls + 2,
                ..h
            },
            Err::<Option<Seq<KeymapActionView>>, _>(StopView::Failed(error)),
        )),
{
    lemma_unused(h, key);
    assert(h.actions + hit(None) =~= h.actions);
}

/// When the timer of a nested remap goes off, the pending key, if there is one, is sent, the timer
/// is unset, and the nested remap is taken down. If the timer fails, the nested remap stays, and
/// what was sent waits for the next event.
pub proof fn law_timeout_sends_the_pending_key(
    h: HandlerView,
    config: ConfigView,
    now: Span,
    answers: AnswersView,
)
    ensures
        ({
            let sent = h.actions + hit(h.override_timeout_key);
            let no_modes: Seq<Seq<char>> = Seq::empty();
            on_event(h, Event::OverrideTimeout, config, now, answers) == if answers.timer.len()
                == 0 {
                (h, StepView::Ask(RequestView::UnsetTimer))
            } else {
                match answers.timer[0] {
                    Ok(()) => (
                        HandlerView {
                            override_remap: None,
                            override_timeout_key: None,
                            actions: Seq::empty(),
                            timer_calls: 0,
                            modes: no_modes,
                            ..h
                        },
                        StepView::Done { result: Ok(sent), modes: no_modes },
                    ),
                    Err(error) => (
                        HandlerView { actions: sent, timer_calls: 0, modes: no_modes, ..h },
                        StepView::Done { result: Err(error), modes: no_modes },
                    ),
                }
            }
        }),
{
    assert(h.actions + hit(None) =~= h.actions);
}

/// Whether every modifier that `rule` names is held and, where the match is exact, no other is.
pub open spec fn is_met(pressed: Seq<Key>, rule: RemapRuleView, exact: bool) -> bool {
    &&& all_are_held(pressed, rule.key_press.modifiers)
    &&& exact ==> all_are_named(pressed, rule.key_press.modifiers)
}

/// Whether the rule at `i` is the first of `rules` for its key that fits the modifiers in
/// `pressed`.
pub open spec fn is_first_rule(
    pressed: Seq<Key>,
    rules: Seq<RemapRuleView>,
    i: int,
    exact: bool,
) -> bool {
    &&& 0 <= i < rules.len()
    &&& is_met(pressed, rules[i], exact)
    &&& forall|j: int|
        0 <= j < i && (#[trigger] rules[j]).key_press.key == rules[i].key_press.key ==> !is_met(
            pressed,
            rules[j],
            exact,
        )
}

/// Whether none of `rules` for `key` fits the modifiers in `pressed`.
pub open spec fn no_rule_fits(
    pressed: Seq<Key>,
    rules: Seq<RemapRuleView>,
    key: Key,
    exact: bool,
) -> bool {
    forall|j: int|
        0 <= j < rules.len() && (#[trigger] rules[j]).key_press.key == key ==> !is_met(
            pressed,
            rules[j],
            exact,
        )
}

/// No entry fits where no rule does.
proof fn lemma_no_rule(pressed: Seq<Key>, rules: Seq<RemapRuleView>, key: Key, exact: bool)
    requires
        no_rule_fits(pressed, rules, key, exact),
    ensures
        entries_for(rules, key).filter(override_fits(pressed, exact)).len() == 0,
{
    let mine = triggered_by(key);
    let kept = rules.filter(mine);
    let entries = entries_for(rules, key);
    let test = override_fits(pressed, exact);
    assert forall|q: int| 0 <= q < entries.len() implies !test(#[trigger] entries[q]) by {
        assert(kept.contains(kept[q]));
        rules.lemma_filter_contains_rev(mine, kept[q]);
        rules.lemma_filter_pred(mine, q);
        let j = choose|j: int| 0 <= j < rules.len() && rules[j] == kept[q];
        assert(rules[j].key_press.key == key);
        law_fitting_modifiers(pressed, rules[j].key_press.modifiers, exact);
    }
    lemma_none_passes(entries, test);
}

/// The entry of the first rule that fits is the first entry that does.
proof fn lemma_first_rule(h: HandlerView, rules: Seq<RemapRuleView>, i: int, exact: bool)
    requires
        is_first_rule(h.modifiers, rules, i, exact),
    ensures
        first_override(h, entries_for(rules, rules[i].key_press.key), exact) == Some(
            with_extra_modifiers(
                rules[i].actions,
                extra_keys(h.modifiers, rules[i].key_press.modifiers),
            ),
        ),
        override_table(rules).contains_key(rules[i].key_press.key),
{
    let key = rules[i].key_press.key;
    let mine = triggered_by(key);
    let test = override_fits(h.modifiers, exact);
    law_fitting_modifiers(h.modifiers, rules[i].key_press.modifiers, exact);
    let before = rules.take(i).filter(mine);
    let p = before.len() as int;
    // The entry of the rule stands behind those of the rules before it.
    rules.take(i).lemma_filter_push(rules[i], mine);
    assert(rules.take(i).push(rules[i]) == rules.take(i + 1));
    assert(rules == rules.take(i + 1) + rules.skip(i + 1));
    Seq::filter_distributes_over_add(rules.take(i + 1), rules.skip(i + 1), mine);
    assert(rules.filter(mine)[p] == rules[i]);
    let entries = entries_for(rules, key);
    assert(entries[p] == rule_entry(rules[i]));
    // None of those fits.
    assert(no_rule_fits(h.modifiers, rules.take(i), key, exact));
    lemma_no_rule(h.modifiers, rules.take(i), key, exact);
    assert(entries.take(p) =~= entries_for(rules.take(i), key));
    lemma_filter_first(entries, test, p);
}

/// A nested remap is what the next key does, and the keymaps are not looked at: of its rules for
/// the key, the actions of the first that names exactly the modifiers that are held are taken. If
/// there is none, and the nested remap was not set up by an entry that asks for exact matches,
/// those of the first whose modifiers are all held are taken. The nested remap is down then, and
/// its pending key is not sent.
pub proof fn law_nested_remap_is_taken(
    h: HandlerView,
    config: ConfigView,
    rules: Seq<RemapRuleView>,
    i: int,
    exact: bool,
    answers: AnswersView,
)
    requires
        h.override_remap == Some(override_table(rules)),
        h.timer_calls < answers.timer.len(),
        answers.timer[h.timer_calls as int] is Ok,
        is_first_rule(h.modifiers, rules, i, exact),
        !exact ==> !h.override_remap_exact_match && no_rule_fits(
            h.modifiers,
            rules,
            rules[i].key_press.key,
            true,
        ),
    ensures
        find_keymap(h, config, rules[i].key_press.key, answers) == (
            HandlerView {
                override_remap: None,
                override_timeout_key: None,
                timer_calls: h.timer_calls + 1,
                ..h
            },
            Ok::<_, StopView>(
                Some(
                    with_extra_modifiers(
                        rules[i].actions,
                        extra_keys(h.modifiers, rules[i].key_press.modifiers),
                    ),
                ),
            ),
        ),
{
    let removed = remove_override(h, answers).0;
    lemma_first_rule(removed, rules, i, exact);
    if !exact {
        lemma_no_rule(removed.modifiers, rules, rules[i].key_press.key, true);
    }
}

// Keys that pass

/// A virtual modifier is never sent: it is only noted that it is down or up.
pub proof fn law_virtual_modifier_is_not_sent(
    h: HandlerView,
    config: ConfigView,
    key: Key,
    value: i32,
    answers: AnswersView,
)
    requires
        config.virtual_modifiers.contains(key),
    ensures
        apply_keymap(h, config, key, value, answers) == (
            update_modifier(h, key, value),
            Ok::<(), StopView>(()),
        ),
        apply_keymap(h, config, key, value, answers).0.actions == h.actions,
{
}

/// A modifier is noted as down from its press to its release, and what is noted of others stays.
pub proof fn law_modifiers_are_tracked(h: HandlerView, key: Key, other: Key)
    ensures
        update_modifier(h, key, PRESS).modifiers.contains(key),
        !update_modifier(h, key, RELEASE).modifiers.contains(key),
        other != key ==> update_modifier(h, key, PRESS).modifiers.contains(other)
            == h.modifiers.contains(other),
        other != key ==> update_modifier(h, key, RELEASE).modifiers.contains(other)
            == h.modifiers.contains(other),
{
    let test = other_than(key);
    lemma_filter_holds(h.modifiers, test, key);
    lemma_filter_holds(h.modifiers, test, other);
    vstd::seq_lib::lemma_seq_contains_after_push(h.modifiers, key, key);
    vstd::seq_lib::lemma_seq_contains_after_push(h.modifiers, key, other);
}

/// The key that follows an escape goes out as it is, whatever the keymaps and the nested remap
/// have for it, and only that key: the escape is used up.
pub proof fn law_escaped_key_passes(
    h: HandlerView,
    config: ConfigView,
    key: Key,
    value: i32,
    answers: AnswersView,
)
    requires
        h.escape_next_key,
        !config.virtual_modifiers.contains(key),
        !is_modifier_key(key),
        value == PRESS || value == REPEAT,
    ensures
        apply_keymap(h, config, key, value, answers) == (
            HandlerView {
                escape_next_key: false,
                actions: h.actions + seq![key_action(key, value)],
                ..h
            },
            Ok::<(), StopView>(()),
        ),
{
}

/// A release triggers nothing in keymaps and nested remaps: it goes out as it is.
pub proof fn law_release_passes(
    h: HandlerView,
    config: ConfigView,
    key: Key,
    answers: AnswersView,
)
    requires
        !config.virtual_modifiers.contains(key),
    ensures
        ({
            let (next, outcome) = apply_keymap(h, config, key, RELEASE, answers);
            &&& outcome == Ok::<(), StopView>(())
            &&& next.actions == h.actions + seq![key_action(key, RELEASE)]
            &&& next.override_remap == h.override_remap
            &&& next.escape_next_key == h.escape_next_key
        }),
{
}

/// A key that nothing is configured for goes out as it came, where nothing is pending: no nested
/// remap stands, no multi-purpose key is down, and the key was not pressed as another one.
pub proof fn law_plain_key_passes(
    h: HandlerView,
    config: ConfigView,
    event: KeyEvent,
    now: Span,
    answers: AnswersView,
)
    requires
        forall|i: int|
            0 <= i < config.modmap.len() ==> !(#[trigger] config.modmap[i]).remap.contains_key(
                event.code,
            ),
        !config.keymap_table.contains_key(event.code),
        !config.virtual_modifiers.contains(event.code),
        h.override_remap is None,
        h.multi_purpose_keys.len() == 0,
        h.pressed_keys.contains_key(event.code) ==> h.pressed_keys[event.code] == event.code,
    ensures
        on_event(h, Event::KeyEvent(event), config, now, answers).1 == (StepView::Done {
            result: Ok(h.actions.push(key_action(event.code, event.value))),
            modes: Seq::empty(),
        }),
{
    let start = h.at_rest();
    let fresh = HandlerView { application_cache: None, ..start };
    lemma_not_mapped(fresh, config.modmap, event.code, answers);
    let single = seq![(event.code, event.value)];
    reveal(Seq::filter);
    assert(delayed_presses(h.multi_purpose_keys) + single =~= single);
    let (next, outcome) = key_events(start, event, config, now, answers);
    assert(outcome == Ok::<_, StopView>(single));
    reveal_with_fuel(apply_keymaps, 2);
    assert(single.drop_first() =~= Seq::empty());
    assert(h.actions + seq![key_action(event.code, event.value)] =~= h.actions.push(
        key_action(event.code, event.value),
    ));
}

proof fn lemma_not_mapped(
    h: HandlerView,
    modmaps: Seq<ModmapView>,
    key: Key,
    answers: AnswersView,
)
    requires
        forall|i: int|
            0 <= i < modmaps.len() ==> !(#[trigger] modmaps[i]).remap.contains_key(key),
    ensures
        find_modmap(h, modmaps, key, answers) == (
            h,
            Ok::<Option<ModmapActionView>, StopView>(None),
        ),
    decreases modmaps.len(),
{
    if modmaps.len() > 0 {
        assert forall|i: int| 0 <= i < modmaps.drop_first().len() implies !(
        #[trigger] modmaps.drop_first()[i]).remap.contains_key(key) by {
            assert(modmaps.drop_first()[i] == modmaps[i + 1]);
        }
        lemma_not_mapped(h, modmaps.drop_first(), key, answers);
    }
}

// Modifiers that are kept down

proof fn lemma_dispatch_actions_push(
    h: HandlerView,
    actions: Seq<KeymapActionView>,
    last: KeymapActionView,
    key: Key,
    answers: AnswersView,
)
    ensures
        dispatch_actions(h, actions.push(last), key, answers) == match dispatch_actions(
            h,
            actions,
            key,
            answers,
        ) {
            (next, Ok(())) => dispatch_action(next, last, key, answers),
            (next, Err(stop)) => (next, Err(stop)),
        },
    decreases actions.len(),
{
    let all = actions.push(last);
    if actions.len() == 0 {
        assert(all.drop_first() =~= Seq::empty());
        reveal_with_fuel(dispatch_actions, 2);
    } else {
        assert(all.drop_first() =~= actions.drop_first().push(last));
        let (next, outcome) = dispatch_action(h, actions[0], key, answers);
        if outcome is Ok {
            lemma_dispatch_actions_push(next, actions.drop_first(), last, key, answers);
        }
    }
}

/// Actions that were triggered with extra modifiers held are carried out with these kept down, and
/// when they are all carried out, no modifier is kept down any more.
pub proof fn law_extra_modifiers_are_taken_back(
    h: HandlerView,
    actions: Seq<KeymapActionView>,
    extra: Seq<Key>,
    key: Key,
    answers: AnswersView,
)
    requires
        extra.len() > 0,
    ensures
        ({
            let kept = HandlerView { extra_modifiers: extra.to_set(), ..h };
            let (next, outcome) = dispatch_actions(
                h,
                with_extra_modifiers(actions, extra),
                key,
                answers,
            );
            match dispatch_actions(kept, actions, key, answers) {
                (carried_out, Ok(())) => {
                    &&& outcome == Ok::<(), StopView>(())
                    &&& next == HandlerView { extra_modifiers: Set::empty(), ..carried_out }
                },
                stopped => (next, outcome) == stopped,
            }
        }),
{
    let first = KeymapActionView::SetExtraModifiers(extra);
    let last = KeymapActionView::SetExtraModifiers(Seq::empty());
    let all = with_extra_modifiers(actions, extra);
    assert(all[0] == first);
    assert(all.drop_first() =~= actions.push(last));
    let kept = HandlerView { extra_modifiers: extra.to_set(), ..h };
    lemma_dispatch_actions_push(kept, actions, last, key, answers);
    assert(Seq::<Key>::empty().to_set() =~= Set::empty());
}

} // verus!
