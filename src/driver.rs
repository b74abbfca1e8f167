use vstd::prelude::*;

verus! {

/// The most outer iterations any solver performs.
pub const MAX_ITER: u32 = 200;

/// The three ways of finding a root.
#[derive(Clone, Copy, Debug, PartialEq, Eq, Structural)]
pub enum Method {
    /// A fresh finite-difference Jacobian every iteration.
    FiniteDiff,
    /// One finite-difference Jacobian, then rank-one Broyden updates.
    Broyden,
    /// A fresh Jacobian and a backtracking line search along the Newton direction.
    LineSearch,
}

/// Why a solve failed.
#[derive(Clone, Copy, Debug, PartialEq, Eq, Structural)]
pub enum SolveError {
    /// The pseudo-inverse of the Jacobian could not be computed.
    SingularJacobian,
    /// The iteration cap was reached without convergence.
    MaxIterationsExceeded,
    /// The line search found no acceptable step.
    LineSearchFailure,
}

/// What the caller does next.
#[derive(Clone, Copy, Debug, PartialEq, Eq, Structural)]
pub enum Action {
    /// Compute another Newton step.
    Iterate,
    /// The initial guess is already a root: return it.
    ReturnGuess,
    /// The step was negligible: return the point from before that step.
    ReturnLast,
    /// Return the newest iterate.
    ReturnNew,
    /// Give up with this error.
    Fail(SolveError),
}

/// What one outer iteration produced.
#[derive(Clone, Copy, Debug, PartialEq, Eq, Structural)]
pub enum StepOutcome {
    /// The pseudo-inverse of the Jacobian failed.
    SolveFailed,
    /// The line search found no acceptable step.
    SearchFailed,
    /// A new iterate was reached. `x_converged`: the largest relative change
    /// of a component is below the step tolerance. `f_converged`: the largest
    /// residual component at the new iterate is below the accuracy target.
    Moved { x_converged: bool, f_converged: bool },
}

impl Action {
    /// The solve ends with this action.
    pub open spec fn is_terminal(self) -> bool {
        !(self is Iterate)
    }

    /// The solve ends by returning a point.
    pub open spec fn is_success(self) -> bool {
        self is ReturnGuess || self is ReturnLast || self is ReturnNew
    }
}

/// The first decision of a solve: stop at once when the residual at the
/// initial guess is already far below the accuracy target.
pub open spec fn start_action(guess_is_root: bool) -> Action {
    if guess_is_root {
        Action::ReturnGuess
    } else {
        Action::Iterate
    }
}

/// The decision after an outer iteration, `done` iterations having completed
/// before it.
///
/// The finite-difference and Broyden solvers test the step first and return
/// the point from before a negligible step; the line-search solver tests the
/// residual first and returns the newest iterate on either test.
pub open spec fn step_action(method: Method, done: nat, outcome: StepOutcome) -> Action {
    match outcome {
        StepOutcome::SolveFailed => Action::Fail(SolveError::SingularJacobian),
        StepOutcome::SearchFailed => Action::Fail(SolveError::LineSearchFailure),
        StepOutcome::Moved { x_converged, f_converged } => {
            if method == Method::LineSearch && (f_converged || x_converged) {
                Action::ReturnNew
            } else if x_converged {
                Action::ReturnLast
            } else if f_converged {
                Action::ReturnNew
            } else if done + 1 >= MAX_ITER {
                Action::Fail(SolveError::MaxIterationsExceeded)
            } else {
                Action::Iterate
            }
        },
    }
}

/// The state of one solve between outer iterations.
pub struct Driver {
    pub method: Method,
    /// Outer iterations completed so far.
    pub iterations: u32,
    /// The solve has ended.
    pub finished: bool,
}

impl Driver {
    /// A driver still running has iterations left.
    pub open spec fn well_formed(&self) -> bool {
        !self.finished ==> self.iterations < MAX_ITER
    }

    pub fn new(method: Method) -> (d: Driver)
        ensures
            d.method == method,
            d.iterations == 0,
            !d.finished,
            d.well_formed(),
    {
        Driver { method, iterations: 0, finished: false }
    }

    /// Decides from the residual at the initial guess; `guess_is_root` is
    /// whether its largest component is below a hundredth of the accuracy target.
    pub fn start(&mut self, guess_is_root: bool) -> (a: Action)
        requires
            !old(self).finished,
            old(self).iterations == 0,
        ensures
            a == start_action(guess_is_root),
            guess_is_root ==> a == Action::ReturnGuess,
            final(self).method == old(self).method,
            final(self).iterations == 0,
            final(self).finished == a.is_terminal(),
            final(self).well_formed(),
    {
        if guess_is_root {
            self.finished = true;
            Action::ReturnGuess
        } else {
            Action::Iterate
        }
    }

    /// Decides after one outer iteration.
    pub fn after_step(&mut self, outcome: StepOutcome) -> (a: Action)
        requires
            !old(self).finished,
            old(self).well_formed(),
        ensures
            a == step_action(old(self).method, old(self).iterations as nat, outcome),
            final(self).method == old(self).method,
            final(self).iterations == (if outcome is Moved {
                old(self).iterations + 1
            } else {
                old(self).iterations as int
            }),
            final(self).finished == a.is_terminal(),
            final(self).well_formed(),
    {
        let a = match outcome {
            StepOutcome::SolveFailed => Action::Fail(SolveError::SingularJacobian),
            StepOutcome::SearchFailed => Action::Fail(SolveError::LineSearchFailure),
            StepOutcome::Moved { x_converged, f_converged } => {
                self.iterations = self.iterations + 1;
                if self.method == Method::LineSearch && (f_converged || x_converged) {
                    Action::ReturnNew
                } else if x_converged {
                    Action::ReturnLast
                } else if f_converged {
                    Action::ReturnNew
                } else if self.iterations >= MAX_ITER {
                    Action::Fail(SolveError::MaxIterationsExceeded)
                } else {
                    Action::Iterate
                }
            },
        };
        self.finished = !matches!(a, Action::Iterate);
        a
    }
}

/// The decision that a sequence of iteration outcomes leads to, `done`
/// iterations having completed before the first of them: the first terminal
/// action, or `Iterate` if none of them ends the solve.
pub open spec fn run(method: Method, done: nat, outcomes: Seq<StepOutcome>) -> Action
    decreases outcomes.len(),
{
    if outcomes.len() == 0 {
        Action::Iterate
    } else {
        let a = step_action(method, done, outcomes[0]);
        if a is Iterate {
            run(method, done + 1, outcomes.drop_first())
        } else {
            a
        }
    }
}

/// An outcome that neither fails nor converges.
pub open spec fn is_unconverged(o: StepOutcome) -> bool {
    o == (StepOutcome::Moved { x_converged: false, f_converged: false })
}

/// Running a sequence is running a prefix, then, if the prefix leaves the
/// solve going, the rest.
pub proof fn lemma_run_split(method: Method, done: nat, outcomes: Seq<StepOutcome>, k: int)
    requires
        0 <= k <= outcomes.len(),
    ensures
        run(method, done, outcomes) == (if run(method, done, outcomes.take(k)) is Iterate {
            run(method, done + k as nat, outcomes.skip(k))
        } else {
            run(method, done, outcomes.take(k))
        }),
    decreases k,
{
    if k == 0 {
        assert(outcomes.skip(0) =~= outcomes);
    } else {
        let a = step_action(method, done, outcomes[0]);
        assert(outcomes.take(k)[0] == outcomes[0]);
        assert(outcomes.take(k).drop_first() =~= outcomes.drop_first().take(k - 1));
        if a is Iterate {
            lemma_run_split(method, done + 1, outcomes.drop_first(), k - 1);
            assert(outcomes.drop_first().skip(k - 1) =~= outcomes.skip(k));
        }
    }
}

/// No solve performs more than `MAX_ITER` outer iterations: whatever the
/// outcomes, the first `MAX_ITER - done` of them end the solve.
pub proof fn lemma_iteration_bound(method: Method, done: nat, outcomes: Seq<StepOutcome>)
    requires
        done < MAX_ITER,
        outcomes.len() >= MAX_ITER - done,
    ensures
        run(method, done, outcomes.take(MAX_ITER - done)).is_terminal(),
        run(method, done, outcomes) == run(method, done, outcomes.take(MAX_ITER - done)),
    decreases MAX_ITER - done,
{
    let k = MAX_ITER - done;
    let pre = outcomes.take(k);
    assert(pre[0] == outcomes[0]);
    let a = step_action(method, done, outcomes[0]);
    if a is Iterate {
        assert(done + 1 < MAX_ITER);
        lemma_iteration_bound(method, done + 1, outcomes.drop_first());
        assert(pre.drop_first() =~= outcomes.drop_first().take(k - 1));
    }
    lemma_run_split(method, done, outcomes, k);
}

/// A function that never converges, and whose Jacobian and line search never
/// fail, ends every solve with `MaxIterationsExceeded` rather than looping.
pub proof fn lemma_unconverged_fails(method: Method, done: nat, outcomes: Seq<StepOutcome>)
    requires
        done < MAX_ITER,
        outcomes.len() >= MAX_ITER - done,
        forall|k: int| 0 <= k < outcomes.len() ==> is_unconverged(#[trigger] outcomes[k]),
    ensures
        run(method, done, outcomes) == Action::Fail(SolveError::MaxIterationsExceeded),
    decreases MAX_ITER - done,
{
    assert(is_unconverged(outcomes[0]));
    if done + 1 < MAX_ITER {
        let rest = outcomes.drop_first();
        assert forall|k: int| 0 <= k < rest.len() implies is_unconverged(#[trigger] rest[k]) by {
            assert(rest[k] == outcomes[k + 1]);
        }
        lemma_unconverged_fails(method, done + 1, rest);
    }
}

/// A solve that returns after an iteration whose step was not negligible
/// returns the newest iterate, and only when its residual met the accuracy
/// target. (A negligible step ends the solve whatever the residual.)
pub proof fn lemma_root_on_success(method: Method, done: nat, f_converged: bool)
    ensures
        ({
            let a = step_action(
                method,
                done,
                StepOutcome::Moved { x_converged: false, f_converged },
            );
            a.is_success() <==> f_converged
        }),
        f_converged ==> step_action(
            method,
            done,
            StepOutcome::Moved { x_converged: false, f_converged },
        ) == Action::ReturnNew,
{
}

/// Feeds `outcomes` in order to a fresh driver that did not stop at the
/// initial guess, until one of them ends the solve. Returns the last action
/// and the number of outcomes consumed.
pub fn drive(method: Method, outcomes: &Vec<StepOutcome>) -> (r: (Action, usize))
    ensures
        r.0 == run(method, 0, outcomes@),
        r.1 <= outcomes.len(),
        r.1 <= MAX_ITER,
        r.0 is Iterate ==> r.1 == outcomes.len(),
        !(r.0 is Iterate) ==> r.1 >= 1 && r.0 == run(method, 0, outcomes@.take(r.1 as int)),
{
    let mut d = Driver::new(method);
    let mut i: usize = 0;
    while i < outcomes.len()
        invariant
            i <= outcomes.len(),
            d.method == method,
            d.well_formed(),
            !d.finished,
            d.iterations == i,
            run(method, 0, outcomes@.take(i as int)) is Iterate,
        decreases outcomes.len() - i,
    {
        let o = outcomes[i];
        let a = d.after_step(o);
        proof {
            let pre = outcomes@.take(i + 1);
            lemma_run_split(method, 0, pre, i as int);
            assert(pre.take(i as int) =~= outcomes@.take(i as int));
            assert(pre.skip(i as int) =~= seq![o]);
            assert(seq![o][0] == o);
            assert(seq![o].drop_first() =~= Seq::<StepOutcome>::empty());
            assert(run(method, i as nat + 1, Seq::<StepOutcome>::empty()) is Iterate);
            assert(run(method, i as nat, seq![o]) == a);
            assert(run(method, 0, pre) == a);
        }
        i = i + 1;
        if !matches!(a, Action::Iterate) {
            proof {
                lemma_run_split(method, 0, outcomes@, i as int);
            }
            return (a, i);
        }
    }
    proof {
        assert(outcomes@.take(i as int) =~= outcomes@);
    }
    (Action::Iterate, i)
}

} // verus!
