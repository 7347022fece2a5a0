//! What the handler needs from outside to get through an event, and what it makes of it.
//!
//! The handler itself touches neither the window manager nor the timer. It is given the answers
//! that were collected for the event so far; where it needs one more, it says which.

use crate::action::{output_view, Action, ActionView};
use crate::keymap_action::strings_view;
use std::time::Duration;
use vstd::prelude::*;

verus! {

/// A matcher of application names, by its number.
pub type Matcher = usize;

/// Why the timer could not be set or unset: the error number of the system.
#[derive(Debug, Clone, Copy, PartialEq, Eq, Structural)]
pub struct TimerError {
    pub errno: i32,
}

/// Something that only the outside can do.
#[derive(Debug, PartialEq, Eq)]
pub enum Request {
    /// Find out which application is active.
    CurrentApplication,
    /// Find out which matchers match the application of this name.
    Matching(String),
    /// Disarm the timer of nested remaps.
    UnsetTimer,
    /// Arm the timer of nested remaps to go off once, after this time.
    SetTimer(Duration),
}

/// The value of a [`Request`].
#[verifier::ext_equal]
pub enum RequestView {
    CurrentApplication,
    Matching(Seq<char>),
    UnsetTimer,
    SetTimer(Duration),
}

impl View for Request {
    type V = RequestView;

    open spec fn view(&self) -> RequestView {
        match self {
            Request::CurrentApplication => RequestView::CurrentApplication,
            Request::Matching(name) => RequestView::Matching(name@),
            Request::UnsetTimer => RequestView::UnsetTimer,
            Request::SetTimer(delay) => RequestView::SetTimer(*delay),
        }
    }
}

/// The answers that were collected for one event.
#[derive(Debug)]
pub struct Answers {
    /// Which application is active, where that was asked; `Some(None)` if none could be told.
    pub application: Option<Option<String>>,
    /// Which matchers match the application, where that was asked.
    pub matching: Option<Vec<Matcher>>,
    /// How each request about the timer ended, in the order in which they were made.
    pub timer: Vec<Result<(), TimerError>>,
}

/// The value of [`Answers`].
#[verifier::ext_equal]
pub struct AnswersView {
    pub application: Option<Option<Seq<char>>>,
    pub matching: Option<Seq<Matcher>>,
    pub timer: Seq<Result<(), TimerError>>,
}

impl View for Answers {
    type V = AnswersView;

    open spec fn view(&self) -> AnswersView {
        AnswersView {
            application: match self.application {
                Some(Some(name)) => Some(Some(name@)),
                Some(None) => Some(None),
                None => None,
            },
            matching: match self.matching {
                Some(matching) => Some(matching@),
                None => None,
            },
            timer: self.timer@,
        }
    }
}

impl AnswersView {
    /// Whether `more` holds every answer that is here, and maybe others.
    pub open spec fn extended_by(self, more: AnswersView) -> bool {
        &&& self.application is Some ==> more.application == self.application
        &&& self.matching is Some ==> more.matching == self.matching
        &&& self.timer.is_prefix_of(more.timer)
    }
}

impl Answers {
    /// No answer.
    pub fn new() -> (answers: Answers)
        ensures
            answers@ == (AnswersView { application: None, matching: None, timer: Seq::empty() }),
    {
        Answers { application: None, matching: None, timer: Vec::new() }
    }
}

/// How far the handler got with an event.
#[derive(Debug)]
pub enum Step {
    /// It needs one more answer.
    Ask(Request),
    /// It is done. `modes` are the modes that were switched to on the way.
    Done { result: Result<Vec<Action>, TimerError>, modes: Vec<String> },
}

/// The value of a [`Step`].
#[verifier::ext_equal]
pub enum StepView {
    Ask(RequestView),
    Done { result: Result<Seq<ActionView>, TimerError>, modes: Seq<Seq<char>> },
}

impl View for Step {
    type V = StepView;

    open spec fn view(&self) -> StepView {
        match self {
            Step::Ask(request) => StepView::Ask(request@),
            Step::Done { result, modes } => StepView::Done {
                result: match result {
                    Ok(actions) => Ok(output_view(actions@)),
                    Err(error) => Err(*error),
                },
                modes: strings_view(modes@),
            },
        }
    }
}

/// What stops the handler in the middle of an event.
#[derive(Debug)]
pub enum Stop {
    /// It needs an answer that it does not have.
    Ask(Request),
    /// The timer could not be set or unset.
    Failed(TimerError),
}

/// The value of a [`Stop`].
#[verifier::ext_equal]
pub enum StopView {
    Ask(RequestView),
    Failed(TimerError),
}

impl View for Stop {
    type V = StopView;

    open spec fn view(&self) -> StopView {
        match self {
            Stop::Ask(request) => StopView::Ask(request@),
            Stop::Failed(error) => StopView::Failed(*error),
        }
    }
}

/// `result` with the value of what stopped it.
pub open spec fn stopped<T>(result: Result<T, Stop>) -> Result<T, StopView> {
    match result {
        Ok(value) => Ok(value),
        Err(stop) => Err(stop@),
    }
}

} // verus!
