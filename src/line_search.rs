use vstd::prelude::*;

verus! {

/// What the caller of a backtracking line search does next.
#[derive(Clone, Copy, Debug, PartialEq, Eq, Structural)]
pub enum SearchAction {
    /// Evaluate the merit function at the current step length.
    TryStep,
    /// The trial point is accepted: return it.
    Accept,
    /// The step collapsed at a local minimum of the merit function: return
    /// the starting point.
    KeepOld,
    /// Shrink the step length: by minimising a quadratic model of the merit
    /// along the direction when `quadratic`, else a cubic one through the
    /// last two trials.
    Backtrack { quadratic: bool },
    /// No adequate step exists along the direction.
    Fail,
}

/// What one trial step length showed.
#[derive(Clone, Copy, Debug, PartialEq, Eq, Structural)]
pub struct Trial {
    /// merit(x_new) <= merit(x_old) + alpha * lambda * (g . p).
    pub sufficient_decrease: bool,
    /// The step length has fallen below the smallest meaningful one.
    pub step_negligible: bool,
    /// The merit gradient at the starting point is negligible.
    pub local_min: bool,
}

/// The decision before any trial: search only along a descent direction
/// (g . p < 0).
pub open spec fn direction_action(descent: bool) -> SearchAction {
    if descent {
        SearchAction::TryStep
    } else {
        SearchAction::Fail
    }
}

/// The decision after a trial; `first` is whether it was the full step.
pub open spec fn trial_action(first: bool, t: Trial) -> SearchAction {
    if t.sufficient_decrease {
        SearchAction::Accept
    } else if t.step_negligible {
        if t.local_min {
            SearchAction::KeepOld
        } else {
            SearchAction::Fail
        }
    } else {
        SearchAction::Backtrack { quadratic: first }
    }
}

impl SearchAction {
    /// The search ends with this action.
    pub open spec fn is_terminal(self) -> bool {
        self is Accept || self is KeepOld || self is Fail
    }
}

/// The state of one backtracking line search.
pub struct Backtracker {
    /// The next trial is the full step.
    pub first: bool,
    /// The search has ended.
    pub finished: bool,
}

impl Backtracker {
    pub fn new() -> (b: Backtracker)
        ensures
            b.first,
            !b.finished,
    {
        Backtracker { first: true, finished: false }
    }

    /// Decides whether the search can start; `descent` is whether the
    /// direction's slope along the merit gradient is negative.
    pub fn check_direction(&mut self, descent: bool) -> (a: SearchAction)
        requires
            old(self).first,
            !old(self).finished,
        ensures
            a == direction_action(descent),
            final(self).first,
            final(self).finished == a.is_terminal(),
    {
        if descent {
            SearchAction::TryStep
        } else {
            self.finished = true;
            SearchAction::Fail
        }
    }

    /// Decides after a trial step length.
    pub fn judge(&mut self, t: Trial) -> (a: SearchAction)
        requires
            !old(self).finished,
        ensures
            a == trial_action(old(self).first, t),
            a is Accept <==> t.sufficient_decrease,
            !final(self).first,
            final(self).finished == a.is_terminal(),
    {
        let a = if t.sufficient_decrease {
            SearchAction::Accept
        } else if t.step_negligible {
            if t.local_min {
                SearchAction::KeepOld
            } else {
                SearchAction::Fail
            }
        } else {
            SearchAction::Backtrack { quadratic: self.first }
        };
        self.first = false;
        self.finished = !matches!(a, SearchAction::Backtrack { .. });
        a
    }
}

/// Every step the search accepts satisfies the sufficient-decrease
/// condition, and every trial that satisfies it is accepted.
pub proof fn lemma_accept_only_on_decrease(first: bool, t: Trial)
    ensures
        trial_action(first, t) is Accept <==> t.sufficient_decrease,
        trial_action(first, t) is Accept ==> trial_action(first, t).is_terminal(),
{
}

/// The decision that a sequence of trials leads to: the first terminal
/// action, or the last backtrack if none of them ends the search.
pub open spec fn search_run(first: bool, trials: Seq<Trial>) -> SearchAction
    decreases trials.len(),
{
    if trials.len() == 0 {
        SearchAction::TryStep
    } else {
        let a = trial_action(first, trials[0]);
        if a.is_terminal() || trials.len() == 1 {
            a
        } else {
            search_run(false, trials.drop_first())
        }
    }
}

/// A trial that is rejected and lets the search go on.
pub open spec fn is_rejected(t: Trial) -> bool {
    !t.sufficient_decrease && !t.step_negligible
}

/// Along a backtracking sequence, the search accepts exactly the first trial
/// that satisfies the sufficient-decrease condition, provided every trial
/// before it was rejected without the step collapsing.
pub proof fn lemma_first_decrease_accepted(first: bool, trials: Seq<Trial>, k: int)
    requires
        0 <= k < trials.len(),
        trials[k].sufficient_decrease,
        forall|j: int| 0 <= j < k ==> is_rejected(#[trigger] trials[j]),
    ensures
        search_run(first, trials) is Accept,
        search_run(first, trials) == search_run(first, trials.take(k + 1)),
    decreases k,
{
    let pre = trials.take(k + 1);
    assert(pre[0] == trials[0]);
    if k > 0 {
        assert(is_rejected(trials[0]));
        let rest = trials.drop_first();
        assert forall|j: int| 0 <= j < k - 1 implies is_rejected(#[trigger] rest[j]) by {
            assert(rest[j] == trials[j + 1]);
        }
        lemma_first_decrease_accepted(false, rest, k - 1);
        assert(pre.drop_first() =~= rest.take(k));
    }
}

/// A search that accepts has, at its last trial, the sufficient decrease,
/// and at every trial before it, a rejection.
pub proof fn lemma_accepted_trial_decreases(first: bool, trials: Seq<Trial>)
    requires
        search_run(first, trials) is Accept,
    ensures
        exists|k: int|
            0 <= k < trials.len() && (#[trigger] trials[k]).sufficient_decrease && forall|j: int|
                0 <= j < k ==> is_rejected(#[trigger] trials[j]),
    decreases trials.len(),
{
    if trial_action(first, trials[0]) is Accept {
        assert(trials[0].sufficient_decrease);
        assert(forall|j: int| 0 <= j < 0 ==> is_rejected(#[trigger] trials[j]));
    } else {
        let rest = trials.drop_first();
        lemma_accepted_trial_decreases(false, rest);
        let k = choose|k: int|
            0 <= k < rest.len() && (#[trigger] rest[k]).sufficient_decrease && forall|j: int|
                0 <= j < k ==> is_rejected(#[trigger] rest[j]);
        assert(trials[k + 1] == rest[k]);
        assert forall|j: int| 0 <= j < k + 1 implies is_rejected(#[trigger] trials[j]) by {
            if j > 0 {
                assert(trials[j] == rest[j - 1]);
            }
        }
    }
}

} // verus!
