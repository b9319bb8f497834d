use moonshine::bring_up::{first_step, next_step, outcome, BringUpStep, StepResult};
use moonshine::pool::LaunchError;

fn steps(own_home: bool, results: &[StepResult]) -> Vec<BringUpStep> {
    let mut step = first_step(own_home);
    let mut seen = vec![step];
    for result in results {
        step = next_step(step, *result);
        seen.push(step);
    }
    seen
}

#[test]
fn seat_comes_up_where_all_goes_well() {
    let seen = steps(true, &[StepResult::Done; 6]);
    assert_eq!(
        seen,
        vec![
            BringUpStep::SeedLibraries,
            BringUpStep::CreateManager,
            BringUpStep::InitializeSession,
            BringUpStep::QueryPorts,
            BringUpStep::StartRtsp,
            BringUpStep::LaunchApplication,
            BringUpStep::Ready,
        ]
    );
    assert_eq!(steps(false, &[])[0], BringUpStep::CreateManager);
    assert_eq!(outcome(BringUpStep::Ready), Some(Ok(())));
    assert_eq!(outcome(BringUpStep::QueryPorts), None);
}

#[test]
fn failure_without_a_session_manager_stops_nothing() {
    assert_eq!(next_step(BringUpStep::CreateManager, StepResult::Failed), BringUpStep::Failed);
    assert_eq!(outcome(BringUpStep::Failed), Some(Err(LaunchError::Failed)));
}

#[test]
fn failure_with_an_open_session_stops_it_first() {
    for step in [
        BringUpStep::InitializeSession,
        BringUpStep::QueryPorts,
        BringUpStep::StartRtsp,
        BringUpStep::LaunchApplication,
    ] {
        for result in [StepResult::Failed, StepResult::TimedOut] {
            assert_eq!(next_step(step, result), BringUpStep::StopSession);
        }
    }
    for result in [StepResult::Done, StepResult::Failed] {
        assert_eq!(next_step(BringUpStep::StopSession, result), BringUpStep::Failed);
    }
}

#[test]
fn seeding_never_fails_a_launch() {
    assert_eq!(next_step(BringUpStep::SeedLibraries, StepResult::Failed), BringUpStep::CreateManager);
}

#[test]
fn finished_runs_stay_finished() {
    assert_eq!(next_step(BringUpStep::Ready, StepResult::Failed), BringUpStep::Ready);
    assert_eq!(next_step(BringUpStep::Failed, StepResult::Done), BringUpStep::Failed);
}

#[test]
fn seven_results_finish_any_run() {
    let kinds = [StepResult::Done, StepResult::Failed, StepResult::TimedOut];
    for own_home in [false, true] {
        for code in 0..3usize.pow(7) {
            let results: Vec<StepResult> = (0..7).map(|j| kinds[code / 3usize.pow(j) % 3]).collect();
            let seen = steps(own_home, &results);
            let counted = if own_home { &results[1..6] } else { &results[0..5] };
            let all_done = counted.iter().all(|r| *r == StepResult::Done);
            assert_eq!(outcome(seen[7]), Some(if all_done { Ok(()) } else { Err(LaunchError::Failed) }));
            let opened = seen.contains(&BringUpStep::InitializeSession);
            assert_eq!(seen.contains(&BringUpStep::StopSession), opened && !all_done);
        }
    }
}
