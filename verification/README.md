# xremap

The event handler of a key remapper: a function from key events, a configuration and the time to
the key events, commands and delays that come of them, written and verified in Verus.

- `src/event_handler.rs` is the handler. Each of its functions is proved to do what a spec function
  says: mostly the one of the same name in `src/model.rs`, and for the modifiers those in
  `src/keys.rs`.
- `src/model.rs` says what the handler does, over a mathematical state.
- `src/laws/` proves what follows of the handler as a whole: that a held key is released as it was
  pressed, that a key press leaves the modifiers as they were, that no action is lost, and others.
- `src/keys.rs`, `src/key_set.rs`, `src/event.rs`, `src/multi_purpose.rs`, `src/keymap_action.rs`,
  `src/config.rs` and `src/action.rs` are the types that it works on.
- `src/outside.rs` is how it talks to the outside. The handler touches neither the window manager
  nor the timer: where it needs one of them, it stays as it is and asks, and is called again with
  the answer.
- `app/` runs the handler: it answers the questions, sets the timer and reads the clock.

The codes of the eight modifier keys are read from `evdev`; that they are the ones that
`src/keys.rs` names is, beside Verus and its library, all that is taken without proof.
