//! Keys that act as one key when hit alone and as another when held.

use crate::event::{Span, PRESS, RELEASE, REPEAT};
use crate::keys::Key;
use vstd::prelude::*;

verus! {

/// The state of a multi-purpose key that is down.
#[derive(Debug, Clone, Copy, PartialEq, Eq, Structural)]
pub struct MultiPurposeKeyState {
    pub held: Key,
    pub alone: Key,
    /// The point in time, in nanoseconds, at which the key counts as held, if the first press is
    /// still delayed; `None` if the key counts as held already.
    pub alone_timeout_at: Option<u128>,
}

impl MultiPurposeKeyState {
    /// The state of a key that went down at `now` and counts as held after `alone_timeout`.
    pub open spec fn delayed(held: Key, alone: Key, now: Span, alone_timeout: Span) -> Self {
        MultiPurposeKeyState {
            held,
            alone,
            alone_timeout_at: Some((now.total() + alone_timeout.total()) as u128),
        }
    }

    /// The same key, counting as held.
    pub open spec fn as_held(self) -> Self {
        MultiPurposeKeyState { alone_timeout_at: None, ..self }
    }

    /// Whether the first press is delayed and the time for it has not run out by `now`.
    pub open spec fn in_time(self, now: Span) -> bool {
        self.alone_timeout_at matches Some(at) && now.total() < at
    }

    /// The state after the key repeats at `now`.
    pub open spec fn after_repeat(self, now: Span) -> Self {
        if self.in_time(now) {
            self
        } else {
            self.as_held()
        }
    }

    /// The key events that come of a repeat at `now`.
    pub open spec fn on_repeat(self, now: Span) -> Seq<(Key, i32)> {
        if self.in_time(now) {
            seq![]
        } else if self.alone_timeout_at is Some {
            seq![(self.held, PRESS)]
        } else {
            seq![(self.held, REPEAT)]
        }
    }

    /// The key events that come of a release at `now`.
    pub open spec fn on_release(self, now: Span) -> Seq<(Key, i32)> {
        if self.in_time(now) {
            seq![(self.alone, PRESS), (self.alone, RELEASE)]
        } else if self.alone_timeout_at is Some {
            seq![(self.held, PRESS), (self.held, RELEASE)]
        } else {
            seq![(self.held, RELEASE)]
        }
    }

    /// The key events that come of making the key count as held.
    pub open spec fn on_force(self) -> Seq<(Key, i32)> {
        if self.alone_timeout_at is Some {
            seq![(self.held, PRESS)]
        } else {
            seq![]
        }
    }

    /// The state of a key that goes down at `now` and counts as held after `alone_timeout`.
    pub fn new(held: Key, alone: Key, now: Span, alone_timeout: Span) -> (state: Self)
        ensures
            state == Self::delayed(held, alone, now, alone_timeout),
    {
        MultiPurposeKeyState {
            held,
            alone,
            alone_timeout_at: Some(now.as_nanos() + alone_timeout.as_nanos()),
        }
    }

    /// The key repeats at `now`.
    pub fn repeat(&mut self, now: Span) -> (events: Vec<(Key, i32)>)
        ensures
            *final(self) == old(self).after_repeat(now),
            events@ == old(self).on_repeat(now),
    {
        match self.alone_timeout_at {
            Some(alone_timeout_at) => {
                if now.as_nanos() < alone_timeout_at {
                    vec![]  // still delay the press
                } else {
                    self.alone_timeout_at = None;
                    vec![(self.held, PRESS)]
                }
            },
            None => vec![(self.held, REPEAT)],
        }
    }

    /// The key goes up at `now`.
    pub fn release(&self, now: Span) -> (events: Vec<(Key, i32)>)
        ensures
            events@ == self.on_release(now),
    {
        match self.alone_timeout_at {
            Some(alone_timeout_at) => {
                if now.as_nanos() < alone_timeout_at {
                    // dispatch the delayed press and this release
                    vec![(self.alone, PRESS), (self.alone, RELEASE)]
                } else {
                    // too late, dispatch the held key
                    vec![(self.held, PRESS), (self.held, RELEASE)]
                }
            },
            None => vec![(self.held, RELEASE)],
        }
    }

    /// Makes the key count as held.
    pub fn force_held(&mut self) -> (events: Vec<(Key, i32)>)
        ensures
            *final(self) == old(self).as_held(),
            events@ == old(self).on_force(),
    {
        if self.alone_timeout_at.is_some() {
            self.alone_timeout_at = None;
            vec![(self.held, PRESS)]
        } else {
            vec![]
        }
    }
}

/// The multi-purpose keys that are down, in the order in which they went down.
pub struct MultiPurposeKeys {
    entries: Vec<(Key, MultiPurposeKeyState)>,
}

/// The state of `key`, if it is in `entries`.
pub open spec fn state_of(entries: Seq<(Key, MultiPurposeKeyState)>, key: Key) -> Option<
    MultiPurposeKeyState,
>
    decreases entries.len(),
{
    if entries.len() == 0 {
        None
    } else if entries[0].0 == key {
        Some(entries[0].1)
    } else {
        state_of(entries.drop_first(), key)
    }
}

/// The test that the entry of every key but `key` passes.
pub open spec fn not_of(key: Key) -> spec_fn((Key, MultiPurposeKeyState)) -> bool {
    |entry: (Key, MultiPurposeKeyState)| entry.0 != key
}

/// `entries` without `key`.
pub open spec fn without_state(entries: Seq<(Key, MultiPurposeKeyState)>, key: Key) -> Seq<
    (Key, MultiPurposeKeyState),
> {
    entries.filter(not_of(key))
}

/// `entries` with `key` at the end, in `state`, and nowhere else.
pub open spec fn with_state(
    entries: Seq<(Key, MultiPurposeKeyState)>,
    key: Key,
    state: MultiPurposeKeyState,
) -> Seq<(Key, MultiPurposeKeyState)> {
    without_state(entries, key).push((key, state))
}

/// `entries` with the state of `key` replaced by `state`.
pub open spec fn replace_state(
    entries: Seq<(Key, MultiPurposeKeyState)>,
    key: Key,
    state: MultiPurposeKeyState,
) -> Seq<(Key, MultiPurposeKeyState)> {
    entries.map_values(
        |entry: (Key, MultiPurposeKeyState)|
            if entry.0 == key {
                (key, state)
            } else {
                entry
            },
    )
}

/// `entries` with every key counting as held.
pub open spec fn all_held(entries: Seq<(Key, MultiPurposeKeyState)>) -> Seq<
    (Key, MultiPurposeKeyState),
> {
    entries.map_values(|entry: (Key, MultiPurposeKeyState)| (entry.0, entry.1.as_held()))
}

/// The test that the entry of a key passes while its first press is delayed.
pub open spec fn is_delayed() -> spec_fn((Key, MultiPurposeKeyState)) -> bool {
    |entry: (Key, MultiPurposeKeyState)| entry.1.alone_timeout_at is Some
}

/// The presses, as held keys, of the keys in `entries` whose first press is delayed.
pub open spec fn delayed_presses(entries: Seq<(Key, MultiPurposeKeyState)>) -> Seq<(Key, i32)> {
    entries.filter(is_delayed()).map_values(
        |entry: (Key, MultiPurposeKeyState)| (entry.1.held, PRESS),
    )
}

impl View for MultiPurposeKeys {
    type V = Seq<(Key, MultiPurposeKeyState)>;

    closed spec fn view(&self) -> Seq<(Key, MultiPurposeKeyState)> {
        self.entries@
    }
}

impl MultiPurposeKeys {
    /// No key.
    pub fn new() -> (keys: MultiPurposeKeys)
        ensures
            keys@ == Seq::<(Key, MultiPurposeKeyState)>::empty(),
    {
        MultiPurposeKeys { entries: Vec::new() }
    }

    /// Tells whether no key is down.
    pub fn is_empty(&self) -> (empty: bool)
        ensures
            empty == (self@.len() == 0),
    {
        self.entries.len() == 0
    }

    /// The state of `key`, if it is down.
    pub fn get(&self, key: Key) -> (state: Option<MultiPurposeKeyState>)
        ensures
            state == state_of(self@, key),
    {
        assert(self@.skip(0) == self@);
        for i in 0..self.entries.len()
            invariant
                state_of(self@, key) == state_of(self@.skip(i as int), key),
        {
            assert(self@.skip(i as int).drop_first() == self@.skip(i + 1));
            assert(self@.skip(i as int)[0] == self.entries@[i as int]);
            if self.entries[i].0 == key {
                return Some(self.entries[i].1);
            }
        }
        None
    }

    /// Notes that `key` went down and is in `state`.
    pub fn insert(&mut self, key: Key, state: MultiPurposeKeyState)
        ensures
            final(self)@ == with_state(old(self)@, key, state),
    {
        self.remove(key);
        self.entries.push((key, state));
    }

    /// Puts `key`, if it is down, in `state`.
    pub fn replace(&mut self, key: Key, state: MultiPurposeKeyState)
        ensures
            final(self)@ == replace_state(old(self)@, key, state),
    {
        let mut entries: Vec<(Key, MultiPurposeKeyState)> = Vec::new();
        for i in 0..self.entries.len()
            invariant
                entries@ == replace_state(self.entries@.take(i as int), key, state),
        {
            assert(self.entries@.take(i + 1) == self.entries@.take(i as int).push(
                self.entries@[i as int],
            ));
            if self.entries[i].0 == key {
                entries.push((key, state));
            } else {
                entries.push(self.entries[i]);
            }
        }
        assert(self.entries@.take(self.entries@.len() as int) == self.entries@);
        self.entries = entries;
    }

    /// Notes that `key` went up.
    pub fn remove(&mut self, key: Key)
        ensures
            final(self)@ == without_state(old(self)@, key),
    {
        let mut entries: Vec<(Key, MultiPurposeKeyState)> = Vec::new();
        assert(self.entries@.take(0).filter(not_of(key)) == entries@) by {
            reveal(Seq::filter);
        }
        for i in 0..self.entries.len()
            invariant
                entries@ == self.entries@.take(i as int).filter(not_of(key)),
        {
            proof {
                self.entries@.take(i as int).lemma_filter_push(
                    self.entries@[i as int],
                    not_of(key),
                );
                assert(self.entries@.take(i + 1) == self.entries@.take(i as int).push(
                    self.entries@[i as int],
                ));
            }
            if self.entries[i].0 != key {
                entries.push(self.entries[i]);
            }
        }
        assert(self.entries@.take(self.entries@.len() as int) == self.entries@);
        self.entries = entries;
    }

    /// Makes every key count as held; gives the presses that this sets free.
    pub fn force_held(&mut self) -> (events: Vec<(Key, i32)>)
        ensures
            final(self)@ == all_held(old(self)@),
            events@ == delayed_presses(old(self)@),
    {
        let mut entries: Vec<(Key, MultiPurposeKeyState)> = Vec::new();
        let mut events: Vec<(Key, i32)> = Vec::new();
        assert(self.entries@.take(0).filter(is_delayed()) == Seq::<
            (Key, MultiPurposeKeyState),
        >::empty()) by {
            reveal(Seq::filter);
        }
        for i in 0..self.entries.len()
            invariant
                entries@ == all_held(self.entries@.take(i as int)),
                events@ == delayed_presses(self.entries@.take(i as int)),
        {
            let (key, mut state) = self.entries[i];
            proof {
                self.entries@.take(i as int).lemma_filter_push(
                    self.entries@[i as int],
                    is_delayed(),
                );
                assert(self.entries@.take(i + 1) == self.entries@.take(i as int).push(
                    self.entries@[i as int],
                ));
            }
            let mut forced: Vec<(Key, i32)> = state.force_held();
            events.append(&mut forced);
            entries.push((key, state));
        }
        assert(self.entries@.take(self.entries@.len() as int) == self.entries@);
        self.entries = entries;
        events
    }
}

impl Clone for MultiPurposeKeys {
    fn clone(&self) -> (copy: MultiPurposeKeys)
        ensures
            copy@ == self@,
    {
        let mut entries: Vec<(Key, MultiPurposeKeyState)> = Vec::new();
        for i in 0..self.entries.len()
            invariant
                entries@ == self.entries@.take(i as int),
        {
            entries.push(self.entries[i]);
        }
        MultiPurposeKeys { entries }
    }
}

} // verus!
