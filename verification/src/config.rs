//! The parts of a configuration that the handler reads.

use crate::event::Span;
use crate::keymap_action::{
    actions_view, copy_actions, lemma_rules_view, rules_view, strings_view, KeymapAction,
    KeymapActionView, RemapRule, RemapRuleView,
};
use crate::keys::{Key, Modifier};
use crate::outside::Matcher;
use std::collections::HashMap;
use vstd::prelude::*;

verus! {

/// To which applications something is limited.
#[derive(Debug)]
pub struct Application {
    /// To those that one of these matches.
    pub only: Option<Vec<Matcher>>,
    /// Where `only` is not given: to those that none of these matches.
    pub not: Option<Vec<Matcher>>,
}

/// A key that acts as `alone` when hit alone and as `held` when held.
#[derive(Debug, Clone, Copy, PartialEq, Eq, Structural)]
pub struct MultiPurposeKey {
    pub held: Key,
    pub alone: Key,
    pub alone_timeout: Span,
}

/// A key whose press and release trigger actions.
#[derive(Debug)]
pub struct PressReleaseKey {
    pub press: Vec<KeymapAction>,
    pub release: Vec<KeymapAction>,
}

/// What a key is mapped to before keymaps are looked at.
#[derive(Debug)]
pub enum ModmapAction {
    Key(Key),
    MultiPurposeKey(MultiPurposeKey),
    PressReleaseKey(PressReleaseKey),
}

/// A map from keys to what they are mapped to.
#[derive(Debug)]
pub struct Modmap {
    pub remap: HashMap<Key, ModmapAction>,
    pub application: Option<Application>,
}

/// What a keymap does on a key that is pressed with `modifiers`.
#[derive(Debug)]
pub struct KeymapEntry {
    pub actions: Vec<KeymapAction>,
    pub modifiers: Vec<Modifier>,
    pub application: Option<Application>,
    pub mode: Option<Vec<String>>,
    pub exact_match: bool,
}

/// What a nested remap does on a key that is pressed with `modifiers`.
#[derive(Debug)]
pub struct OverrideEntry {
    pub actions: Vec<KeymapAction>,
    pub modifiers: Vec<Modifier>,
}

/// A configuration.
#[derive(Debug)]
pub struct Config {
    pub modmap: Vec<Modmap>,
    pub keymap_table: HashMap<Key, Vec<KeymapEntry>>,
    pub virtual_modifiers: Vec<Key>,
}

/// The value of an [`Application`].
#[verifier::ext_equal]
pub struct ApplicationView {
    pub only: Option<Seq<Matcher>>,
    pub not: Option<Seq<Matcher>>,
}

/// The value of a [`ModmapAction`].
#[verifier::ext_equal]
pub enum ModmapActionView {
    Key(Key),
    MultiPurposeKey(MultiPurposeKey),
    PressReleaseKey { press: Seq<KeymapActionView>, release: Seq<KeymapActionView> },
}

/// The value of a [`Modmap`].
#[verifier::ext_equal]
pub struct ModmapView {
    pub remap: Map<Key, ModmapActionView>,
    pub application: Option<ApplicationView>,
}

/// The value of a [`KeymapEntry`].
#[verifier::ext_equal]
pub struct KeymapEntryView {
    pub actions: Seq<KeymapActionView>,
    pub modifiers: Seq<Modifier>,
    pub application: Option<ApplicationView>,
    pub mode: Option<Seq<Seq<char>>>,
    pub exact_match: bool,
}

/// The value of an [`OverrideEntry`].
#[verifier::ext_equal]
pub struct OverrideEntryView {
    pub actions: Seq<KeymapActionView>,
    pub modifiers: Seq<Modifier>,
}

/// The value of a [`Config`].
#[verifier::ext_equal]
pub struct ConfigView {
    pub modmap: Seq<ModmapView>,
    pub keymap_table: Map<Key, Seq<KeymapEntryView>>,
    pub virtual_modifiers: Seq<Key>,
}

impl View for Application {
    type V = ApplicationView;

    open spec fn view(&self) -> ApplicationView {
        ApplicationView {
            only: match self.only {
                Some(matchers) => Some(matchers@),
                None => None,
            },
            not: match self.not {
                Some(matchers) => Some(matchers@),
                None => None,
            },
        }
    }
}

/// The value of `application`, if there is one.
pub open spec fn application_view(application: Option<Application>) -> Option<ApplicationView> {
    match application {
        Some(application) => Some(application@),
        None => None,
    }
}

impl View for ModmapAction {
    type V = ModmapActionView;

    open spec fn view(&self) -> ModmapActionView {
        match self {
            ModmapAction::Key(key) => ModmapActionView::Key(*key),
            ModmapAction::MultiPurposeKey(key) => ModmapActionView::MultiPurposeKey(*key),
            ModmapAction::PressReleaseKey(key) => ModmapActionView::PressReleaseKey {
                press: actions_view(key.press@),
                release: actions_view(key.release@),
            },
        }
    }
}

impl View for Modmap {
    type V = ModmapView;

    open spec fn view(&self) -> ModmapView {
        ModmapView {
            remap: self.remap@.map_values(|action: ModmapAction| action@),
            application: application_view(self.application),
        }
    }
}

impl View for KeymapEntry {
    type V = KeymapEntryView;

    open spec fn view(&self) -> KeymapEntryView {
        KeymapEntryView {
            actions: actions_view(self.actions@),
            modifiers: self.modifiers@,
            application: application_view(self.application),
            mode: match self.mode {
                Some(modes) => Some(strings_view(modes@)),
                None => None,
            },
            exact_match: self.exact_match,
        }
    }
}

impl View for OverrideEntry {
    type V = OverrideEntryView;

    open spec fn view(&self) -> OverrideEntryView {
        OverrideEntryView { actions: actions_view(self.actions@), modifiers: self.modifiers@ }
    }
}

/// The values of `entries`.
pub open spec fn keymap_entries_view(entries: Seq<KeymapEntry>) -> Seq<KeymapEntryView> {
    entries.map_values(|entry: KeymapEntry| entry@)
}

/// The values of `entries`.
pub open spec fn override_entries_view(entries: Seq<OverrideEntry>) -> Seq<OverrideEntryView> {
    entries.map_values(|entry: OverrideEntry| entry@)
}

/// The value of `table`.
pub open spec fn override_table_view(table: Map<Key, Vec<OverrideEntry>>) -> Map<
    Key,
    Seq<OverrideEntryView>,
> {
    table.map_values(|entries: Vec<OverrideEntry>| override_entries_view(entries@))
}

impl View for Config {
    type V = ConfigView;

    open spec fn view(&self) -> ConfigView {
        ConfigView {
            modmap: self.modmap@.map_values(|modmap: Modmap| modmap@),
            keymap_table: self.keymap_table@.map_values(
                |entries: Vec<KeymapEntry>| keymap_entries_view(entries@),
            ),
            virtual_modifiers: self.virtual_modifiers@,
        }
    }
}

impl Clone for OverrideEntry {
    fn clone(&self) -> (copy: OverrideEntry)
        ensures
            copy@ == self@,
    {
        OverrideEntry { actions: copy_actions(&self.actions), modifiers: self.modifiers.clone() }
    }
}

impl Clone for ModmapAction {
    fn clone(&self) -> (copy: ModmapAction)
        ensures
            copy@ == self@,
    {
        match self {
            ModmapAction::Key(key) => ModmapAction::Key(*key),
            ModmapAction::MultiPurposeKey(key) => ModmapAction::MultiPurposeKey(*key),
            ModmapAction::PressReleaseKey(key) => ModmapAction::PressReleaseKey(
                PressReleaseKey {
                    press: copy_actions(&key.press),
                    release: copy_actions(&key.release),
                },
            ),
        }
    }
}

/// The test that a rule passes when `key` triggers it.
pub open spec fn triggered_by(key: Key) -> spec_fn(RemapRuleView) -> bool {
    |rule: RemapRuleView| rule.key_press.key == key
}

/// The entry that `rule` becomes in the table of its key.
pub open spec fn rule_entry(rule: RemapRuleView) -> OverrideEntryView {
    OverrideEntryView { actions: rule.actions, modifiers: rule.key_press.modifiers }
}

/// The entries for `key` that come of `rules`, in the order of the rules.
pub open spec fn entries_for(rules: Seq<RemapRuleView>, key: Key) -> Seq<OverrideEntryView> {
    rules.filter(triggered_by(key)).map_values(|rule: RemapRuleView| rule_entry(rule))
}

/// The table of a nested remap: for each key that triggers one of `rules`, their entries.
pub open spec fn override_table(rules: Seq<RemapRuleView>) -> Map<Key, Seq<OverrideEntryView>> {
    Map::new(
        |key: Key| entries_for(rules, key).len() > 0,
        |key: Key| entries_for(rules, key),
    )
}

/// One more rule adds its entry behind those of its key.
pub(crate) proof fn lemma_override_table_push(rules: Seq<RemapRuleView>, rule: RemapRuleView)
    ensures
        override_table(rules.push(rule)) == override_table(rules).insert(
            rule.key_press.key,
            entries_for(rules, rule.key_press.key).push(rule_entry(rule)),
        ),
{
    assert forall|key: Key| #[trigger] entries_for(rules.push(rule), key) == if key
        == rule.key_press.key {
        entries_for(rules, key).push(rule_entry(rule))
    } else {
        entries_for(rules, key)
    } by {
        rules.lemma_filter_push(rule, triggered_by(key));
        assert(entries_for(rules.push(rule), key) =~= if key == rule.key_press.key {
            entries_for(rules, key).push(rule_entry(rule))
        } else {
            entries_for(rules, key)
        });
    }
    assert(override_table(rules.push(rule)) =~= override_table(rules).insert(
        rule.key_press.key,
        entries_for(rules, rule.key_press.key).push(rule_entry(rule)),
    ));
}

/// Builds the table of a nested remap, keyed by the key that triggers an entry.
pub fn build_override_table(rules: &Vec<RemapRule>) -> (table: HashMap<Key, Vec<OverrideEntry>>)
    ensures
        override_table_view(table@) == override_table(rules_view(rules@)),
{
    let mut table: HashMap<Key, Vec<OverrideEntry>> = HashMap::new();
    let ghost views = rules_view(rules@);
    proof {
        lemma_rules_view(rules@);
        assert forall|key: Key| #[trigger] entries_for(views.take(0), key).len() == 0 by {
            reveal(Seq::filter);
        }
        assert(override_table_view(table@) =~= override_table(views.take(0)));
    }
    for i in 0..rules.len()
        invariant
            views == rules_view(rules@),
            views.len() == rules@.len(),
            forall|j: int| 0 <= j < rules@.len() ==> #[trigger] views[j] == rules@[j].view(),
            override_table_view(table@) == override_table(views.take(i as int)),
    {
        let rule = &rules[i];
        let ghost before = table@;
        let key: Key = rule.key_press.key;
        let mut entries: Vec<OverrideEntry> = match table.remove(&key) {
            Some(entries) => entries,
            None => Vec::new(),
        };
        proof {
            let so_far = override_table(views.take(i as int));
            assert(so_far.contains_key(key) == before.contains_key(key));
            assert(so_far.contains_key(key) == (entries_for(views.take(i as int), key).len() > 0));
            if before.contains_key(key) {
                assert(override_table_view(before)[key] == override_entries_view(before[key]@));
                assert(so_far[key] == entries_for(views.take(i as int), key));
            }
            assert(override_entries_view(entries@) =~= entries_for(views.take(i as int), key));
        }
        let ghost found = entries@;
        entries.push(
            OverrideEntry {
                actions: copy_actions(&rule.actions),
                modifiers: rule.key_press.modifiers.clone(),
            },
        );
        proof {
            assert(views[i as int] == rule.view());
            assert(override_entries_view(entries@) =~= override_entries_view(found).push(
                rule_entry(rule.view()),
            ));
            lemma_override_table_push(views.take(i as int), rule.view());
            assert(views.take(i + 1) == views.take(i as int).push(rule.view()));
        }
        table.insert(key, entries);
        assert(override_table_view(table@) =~= override_table_view(before).insert(
            key,
            override_entries_view(entries@),
        ));
    }
    assert(views.take(rules@.len() as int) == views);
    table
}

} // verus!
