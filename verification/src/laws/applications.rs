//! To which applications something is limited.

use crate::config::ApplicationView;
use crate::model::{admits, match_limit, HandlerView};
use crate::outside::{AnswersView, Matcher, RequestView, StopView};
use vstd::prelude::*;

verus! {

/// Whether a matcher in `matchers` is among those that match.
pub open spec fn share_a_matcher(matchers: Seq<Matcher>, matching: Seq<Matcher>) -> bool {
    exists|matcher: Matcher| #[trigger]
        matchers.contains(matcher) && matching.contains(matcher)
}

/// Whether something that is limited to `limit` is for the application that the matchers in
/// `matching` match: where there is no limit, or a matcher in `only` matches, or `only` is not given
/// and no matcher in `not` matches.
pub open spec fn is_for(limit: Option<ApplicationView>, matching: Seq<Matcher>) -> bool {
    match limit {
        None => true,
        Some(application) => match (application.only, application.not) {
            (Some(only), _) => share_a_matcher(only, matching),
            (None, Some(not)) => !share_a_matcher(not, matching),
            (None, None) => false,
        },
    }
}

/// With `only`, an application is admitted if and only if a matcher in it matches. With `not`
/// alone, it is admitted if and only if no matcher in it matches. With neither, none is.
pub proof fn law_admitted_applications(application: ApplicationView, matching: Seq<Matcher>)
    ensures
        admits(application, matching) == is_for(Some(application), matching),
{
    if let Some(only) = application.only {
        lemma_shared(only, matching);
    }
    if let Some(not) = application.not {
        lemma_shared(not, matching);
    }
}

proof fn lemma_shared(matchers: Seq<Matcher>, matching: Seq<Matcher>)
    ensures
        share_a_matcher(matchers, matching) == exists|i: int|
            0 <= i < matchers.len() && matching.contains(#[trigger] matchers[i]),
{
    if share_a_matcher(matchers, matching) {
        let matcher = choose|matcher: Matcher| #[trigger]
            matchers.contains(matcher) && matching.contains(matcher);
        let i = choose|i: int| 0 <= i < matchers.len() && matchers[i] == matcher;
        assert(matching.contains(matchers[i]));
    }
    if exists|i: int| 0 <= i < matchers.len() && matching.contains(#[trigger] matchers[i]) {
        let i = choose|i: int|
            0 <= i < matchers.len() && matching.contains(#[trigger] matchers[i]);
        assert(matchers.contains(matchers[i]));
    }
}

/// A list of matchers counts as a set: one that has the matchers of another, in any order, admits
/// through `only` what the other admits, and shuts out through `not` what the other shuts out.
pub proof fn law_matchers_count_as_a_set(
    fewer: Seq<Matcher>,
    more: Seq<Matcher>,
    matching: Seq<Matcher>,
)
    requires
        forall|matcher: Matcher| #[trigger] fewer.contains(matcher) ==> more.contains(matcher),
    ensures
        admits(ApplicationView { only: Some(fewer), not: None }, matching) ==> admits(
            ApplicationView { only: Some(more), not: None },
            matching,
        ),
        admits(ApplicationView { only: None, not: Some(more) }, matching) ==> admits(
            ApplicationView { only: None, not: Some(fewer) },
            matching,
        ),
{
    law_admitted_applications(ApplicationView { only: Some(fewer), not: None }, matching);
    law_admitted_applications(ApplicationView { only: Some(more), not: None }, matching);
    law_admitted_applications(ApplicationView { only: None, not: Some(fewer) }, matching);
    law_admitted_applications(ApplicationView { only: None, not: Some(more) }, matching);
    if share_a_matcher(fewer, matching) {
        let matcher = choose|matcher: Matcher| #[trigger]
            fewer.contains(matcher) && matching.contains(matcher);
        assert(more.contains(matcher) && matching.contains(matcher));
    }
}

/// The name of the active application: the one that is known, or the one that was answered, or the
/// empty one if none could be told.
pub open spec fn active_application(h: HandlerView, answers: AnswersView) -> Seq<char> {
    if h.application_cache is Some {
        h.application_cache->0
    } else if answers.application->0 is Some {
        answers.application->0->0
    } else {
        Seq::empty()
    }
}

/// A limit to applications is decided by the matchers that match the active application. What is
/// not known yet is asked for, the application first and of that application which matchers match.
/// The application is known from then on, and nothing else changes.
pub proof fn law_limits_to_applications(
    h: HandlerView,
    limit: Option<ApplicationView>,
    answers: AnswersView,
)
    ensures
        limit is None ==> match_limit(h, limit, answers) == (h, Ok::<bool, StopView>(true)),
        limit is Some ==> ({
            let name = active_application(h, answers);
            let known = HandlerView { application_cache: Some(name), ..h };
            let undecided = limit->0.only is Some || limit->0.not is Some;
            match_limit(h, limit, answers) == if h.application_cache is None
                && answers.application is None {
                (h, Err::<bool, _>(StopView::Ask(RequestView::CurrentApplication)))
            } else if undecided && answers.matching is None {
                (known, Err::<bool, _>(StopView::Ask(RequestView::Matching(name))))
            } else {
                (known, Ok::<_, StopView>(undecided && is_for(limit, answers.matching->0)))
            }
        }),
{
    if let Some(application) = limit {
        law_admitted_applications(application, answers.matching->0);
    }
}

} // verus!
