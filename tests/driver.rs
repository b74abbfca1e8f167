use newton_raphson::driver::{drive, Action, Driver, Method, SolveError, StepOutcome, MAX_ITER};

const METHODS: [Method; 3] = [Method::FiniteDiff, Method::Broyden, Method::LineSearch];

fn moved(x_converged: bool, f_converged: bool) -> StepOutcome {
    StepOutcome::Moved { x_converged, f_converged }
}

#[test]
fn guess_that_is_a_root_is_returned_at_once() {
    for m in METHODS {
        let mut d = Driver::new(m);
        assert_eq!(d.start(true), Action::ReturnGuess);
        assert!(d.finished);
        assert_eq!(d.iterations, 0);
    }
}

#[test]
fn guess_that_is_not_a_root_starts_iterating() {
    for m in METHODS {
        let mut d = Driver::new(m);
        assert_eq!(d.start(false), Action::Iterate);
        assert!(!d.finished);
    }
}

#[test]
fn never_converging_function_hits_the_iteration_cap() {
    let outcomes = vec![moved(false, false); 250];
    for m in METHODS {
        let (a, used) = drive(m, &outcomes);
        assert_eq!(a, Action::Fail(SolveError::MaxIterationsExceeded));
        assert_eq!(used, 200);
        assert_eq!(used, MAX_ITER as usize);
    }
}

#[test]
fn one_iteration_short_of_the_cap_keeps_going() {
    let outcomes = vec![moved(false, false); 199];
    let (a, used) = drive(Method::FiniteDiff, &outcomes);
    assert_eq!(a, Action::Iterate);
    assert_eq!(used, 199);
}

#[test]
fn no_outcomes_leave_the_solve_running() {
    let (a, used) = drive(Method::Broyden, &Vec::new());
    assert_eq!(a, Action::Iterate);
    assert_eq!(used, 0);
}

#[test]
fn small_residual_returns_the_newest_iterate() {
    for m in METHODS {
        let mut d = Driver::new(m);
        assert_eq!(d.start(false), Action::Iterate);
        assert_eq!(d.after_step(moved(false, false)), Action::Iterate);
        assert_eq!(d.iterations, 1);
        assert_eq!(d.after_step(moved(false, true)), Action::ReturnNew);
        assert_eq!(d.iterations, 2);
        assert!(d.finished);
    }
}

#[test]
fn negligible_step_returns_the_previous_point_without_line_search() {
    assert_eq!(drive(Method::FiniteDiff, &vec![moved(true, false)]), (Action::ReturnLast, 1));
    assert_eq!(drive(Method::Broyden, &vec![moved(true, true)]), (Action::ReturnLast, 1));
}

#[test]
fn negligible_step_returns_the_newest_point_with_line_search() {
    assert_eq!(drive(Method::LineSearch, &vec![moved(true, false)]), (Action::ReturnNew, 1));
}

#[test]
fn methods_agree_when_the_residual_converges() {
    let outcomes = vec![moved(false, false), moved(false, false), moved(false, true), moved(false, false)];
    for m in METHODS {
        assert_eq!(drive(m, &outcomes), (Action::ReturnNew, 3));
    }
}

#[test]
fn failed_pseudo_inverse_is_a_singular_jacobian() {
    let outcomes = vec![moved(false, false), StepOutcome::SolveFailed, moved(false, true)];
    for m in METHODS {
        assert_eq!(drive(m, &outcomes), (Action::Fail(SolveError::SingularJacobian), 2));
    }
}

#[test]
fn failed_search_is_a_line_search_failure() {
    let mut d = Driver::new(Method::LineSearch);
    assert_eq!(d.start(false), Action::Iterate);
    assert_eq!(d.after_step(StepOutcome::SearchFailed), Action::Fail(SolveError::LineSearchFailure));
    assert_eq!(d.iterations, 0);
    assert!(d.finished);
}

#[test]
fn convergence_on_the_last_allowed_iteration_succeeds() {
    let mut outcomes = vec![moved(false, false); 199];
    outcomes.push(moved(false, true));
    outcomes.push(moved(false, false));
    assert_eq!(drive(Method::Broyden, &outcomes), (Action::ReturnNew, 200));
}
