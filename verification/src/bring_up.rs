//! How a planned seat is brought up, step by step.
//!
//! Each step is work that the host does; its result decides on the next one.

use vstd::prelude::*;

use crate::pool::LaunchError;

verus! {

/// What is to be done next for a seat.
#[derive(Debug, Clone, Copy, PartialEq, Eq, Structural)]
pub enum BringUpStep {
    /// Register the shared Steam libraries in the seat's own HOME.
    SeedLibraries,
    /// Create the session manager.
    CreateManager,
    /// Initialize the session.
    InitializeSession,
    /// Ask which ports the streams were bound to.
    QueryPorts,
    /// Start the per-session RTSP server.
    StartRtsp,
    /// Launch compositor + application, for a bounded time.
    LaunchApplication,
    /// Tear the partially-initialized session down.
    StopSession,
    /// Nothing: the seat is up.
    Ready,
    /// Nothing: the seat could not be brought up.
    Failed,
}

/// How a step went.
#[derive(Debug, Clone, Copy, PartialEq, Eq, Structural)]
pub enum StepResult {
    Done,
    Failed,
    TimedOut,
}

/// Whether there is nothing left to do.
pub open spec fn finished(step: BringUpStep) -> bool {
    step is Ready || step is Failed
}

/// Whether there is a session manager, whose session is not yet stopped, when the step is
/// due.
pub open spec fn session_open(step: BringUpStep) -> bool {
    step is InitializeSession || step is QueryPorts || step is StartRtsp || step is LaunchApplication || step is StopSession
}

/// The step that follows one that went well.
pub open spec fn following(step: BringUpStep) -> BringUpStep {
    match step {
        BringUpStep::SeedLibraries => BringUpStep::CreateManager,
        BringUpStep::CreateManager => BringUpStep::InitializeSession,
        BringUpStep::InitializeSession => BringUpStep::QueryPorts,
        BringUpStep::QueryPorts => BringUpStep::StartRtsp,
        BringUpStep::StartRtsp => BringUpStep::LaunchApplication,
        BringUpStep::LaunchApplication => BringUpStep::Ready,
        BringUpStep::StopSession => BringUpStep::Failed,
        BringUpStep::Ready => BringUpStep::Ready,
        BringUpStep::Failed => BringUpStep::Failed,
    }
}

/// Whether the way on does not depend on how the step goes.
pub open spec fn best_effort(step: BringUpStep) -> bool {
    step is SeedLibraries || step is StopSession || finished(step)
}

/// The step that is due after `step` went as `result` says: the following one, or, where
/// it went wrong, the tear-down of an open session, or the failure at once.
pub open spec fn next(step: BringUpStep, result: StepResult) -> BringUpStep {
    if result is Done || best_effort(step) {
        following(step)
    } else if session_open(step) {
        BringUpStep::StopSession
    } else {
        BringUpStep::Failed
    }
}

/// The step that is due after all of `results`.
pub open spec fn run(start: BringUpStep, results: Seq<StepResult>) -> BringUpStep
    decreases results.len(),
{
    if results.len() == 0 {
        start
    } else {
        next(run(start, results.drop_last()), results.last())
    }
}

/// The step to begin with; libraries are seeded only into a HOME of the seat's own.
pub open spec fn first(own_home: bool) -> BringUpStep {
    if own_home {
        BringUpStep::SeedLibraries
    } else {
        BringUpStep::CreateManager
    }
}

/// The step to begin with.
pub fn first_step(own_home: bool) -> (r: BringUpStep)
    ensures
        r == first(own_home),
{
    if own_home {
        BringUpStep::SeedLibraries
    } else {
        BringUpStep::CreateManager
    }
}

/// The step that is due after `step` went as `result` says.
pub fn next_step(step: BringUpStep, result: StepResult) -> (r: BringUpStep)
    ensures
        r == next(step, result),
{
    let done = match result {
        StepResult::Done => true,
        _ => false,
    };
    match step {
        BringUpStep::SeedLibraries => BringUpStep::CreateManager,
        BringUpStep::CreateManager => if done {
            BringUpStep::InitializeSession
        } else {
            BringUpStep::Failed
        },
        BringUpStep::InitializeSession => if done {
            BringUpStep::QueryPorts
        } else {
            BringUpStep::StopSession
        },
        BringUpStep::QueryPorts => if done {
            BringUpStep::StartRtsp
        } else {
            BringUpStep::StopSession
        },
        BringUpStep::StartRtsp => if done {
            BringUpStep::LaunchApplication
        } else {
            BringUpStep::StopSession
        },
        BringUpStep::LaunchApplication => if done {
            BringUpStep::Ready
        } else {
            BringUpStep::StopSession
        },
        BringUpStep::StopSession => BringUpStep::Failed,
        BringUpStep::Ready => BringUpStep::Ready,
        BringUpStep::Failed => BringUpStep::Failed,
    }
}

/// What the launch came to, once there is nothing left to do.
pub fn outcome(step: BringUpStep) -> (r: Option<Result<(), LaunchError>>)
    ensures
        r == (if step is Ready {
            Some(Ok(()))
        } else if step is Failed {
            Some(Err(LaunchError::Failed))
        } else {
            None
        }),
{
    match step {
        BringUpStep::Ready => Some(Ok(())),
        BringUpStep::Failed => Some(Err(LaunchError::Failed)),
        _ => None,
    }
}

/// How far a step is from the end, at most.
spec fn steps_left(step: BringUpStep) -> int {
    match step {
        BringUpStep::SeedLibraries => 7,
        BringUpStep::CreateManager => 6,
        BringUpStep::InitializeSession => 5,
        BringUpStep::QueryPorts => 4,
        BringUpStep::StartRtsp => 3,
        BringUpStep::LaunchApplication => 2,
        BringUpStep::StopSession => 1,
        BringUpStep::Ready => 0,
        BringUpStep::Failed => 0,
    }
}

proof fn lemma_progress(own_home: bool, results: Seq<StepResult>)
    ensures
        steps_left(run(first(own_home), results)) == 0 || steps_left(
            run(first(own_home), results),
        ) <= 7 - results.len(),
    decreases results.len(),
{
    if results.len() > 0 {
        lemma_progress(own_home, results.drop_last());
    }
}

/// Bringing a seat up comes to an end: after seven results, whatever they are, nothing is
/// left to do.
pub proof fn law_bring_up_ends(own_home: bool, results: Seq<StepResult>)
    requires
        results.len() >= 7,
    ensures
        finished(run(first(own_home), results)),
{
    lemma_progress(own_home, results);
}

/// Once finished, a run stays as it is.
proof fn lemma_finished_stays(start: BringUpStep, results: Seq<StepResult>, i: int)
    requires
        0 <= i <= results.len(),
        finished(run(start, results.take(i))),
    ensures
        run(start, results) == run(start, results.take(i)),
    decreases results.len(),
{
    if i == results.len() {
        assert(results.take(i) =~= results);
    } else {
        assert(results.drop_last().take(i) =~= results.take(i));
        lemma_finished_stays(start, results.drop_last(), i);
    }
}

/// On any failure the partially-initialized session is torn down before returning: a run
/// that had a session manager at some point and ends in failure has stopped the session in
/// between.
pub proof fn law_open_session_is_stopped(
    own_home: bool,
    results: Seq<StepResult>,
    i: int,
) -> (k: int)
    requires
        0 <= i <= results.len(),
        session_open(run(first(own_home), results.take(i))),
        run(first(own_home), results) is Failed,
    ensures
        i <= k < results.len(),
        run(first(own_home), results.take(k)) is StopSession,
    decreases results.len(),
{
    let start = first(own_home);
    if results.len() == i {
        assert(results.take(i) =~= results);
        i
    } else {
        let before = results.drop_last();
        assert(before.take(i) =~= results.take(i));
        if run(start, before) is Failed {
            let k = law_open_session_is_stopped(own_home, before, i);
            assert(before.take(k) =~= results.take(k));
            k
        } else {
            let k = results.len() - 1;
            assert(results.take(k) =~= before);
            if !(run(start, before) is StopSession) {
                lemma_stays_open(start, before, i);
            }
            k
        }
    }
}

/// From an open session on, the session is open until the run is finished.
proof fn lemma_stays_open(start: BringUpStep, results: Seq<StepResult>, i: int)
    requires
        0 <= i <= results.len(),
        session_open(run(start, results.take(i))),
    ensures
        session_open(run(start, results)) || finished(run(start, results)),
    decreases results.len(),
{
    if i == results.len() {
        assert(results.take(i) =~= results);
    } else {
        assert(results.drop_last().take(i) =~= results.take(i));
        lemma_stays_open(start, results.drop_last(), i);
    }
}

/// A session is stopped by a failed bring-up only: a seat that is up was never told to stop.
pub proof fn law_ready_seat_was_not_stopped(own_home: bool, results: Seq<StepResult>, k: int)
    requires
        0 <= k <= results.len(),
        run(first(own_home), results) is Ready,
    ensures
        !(run(first(own_home), results.take(k)) is StopSession),
    decreases results.len(),
{
    let start = first(own_home);
    if run(start, results.take(k)) is StopSession {
        if k == results.len() {
            assert(results.take(k) =~= results);
        } else {
            assert(results.take(k + 1).drop_last() =~= results.take(k));
            lemma_finished_stays(start, results, k + 1);
        }
    }
}

/// A seat is up exactly where every step that counts went well; how the seeding of the
/// libraries went does not.
pub proof fn law_ready_iff_every_step_done(own_home: bool, results: Seq<StepResult>)
    requires
        results.len() >= 7,
    ensures
        run(first(own_home), results) is Ready <==> forall|j: int|
            counted(own_home, j) ==> #[trigger] results[j] is Done,
{
    lemma_two_ways(own_home, results, results.len() as int);
    lemma_nth(own_home, last_count(own_home));
    assert(results.take(results.len() as int) =~= results);
}

/// The number of results after which a run that goes well is finished.
pub open spec fn last_count(own_home: bool) -> int {
    if own_home {
        6
    } else {
        5
    }
}

/// Whether the result at `j` of a run that goes well is one that counts.
pub open spec fn counted(own_home: bool, j: int) -> bool {
    (if own_home {
        1int
    } else {
        0int
    }) <= j < last_count(own_home)
}

/// The step that is due after `n` results that all went well.
spec fn nth(own_home: bool, n: int) -> BringUpStep
    decreases n,
{
    if n <= 0 {
        first(own_home)
    } else {
        following(nth(own_home, n - 1))
    }
}

proof fn lemma_nth(own_home: bool, n: int)
    requires
        0 <= n <= last_count(own_home),
    ensures
        counted(own_home, n) ==> !best_effort(nth(own_home, n)),
        n == 0 && own_home ==> nth(own_home, n) is SeedLibraries,
        n == last_count(own_home) <==> nth(own_home, n) is Ready,
{
    reveal_with_fuel(nth, 8);
    if n == 0 {
    } else if n == 1 {
    } else if n == 2 {
    } else if n == 3 {
    } else if n == 4 {
    } else if n == 5 {
    } else {
    }
}

/// A run either has met a step that went wrong and is on its way to failure, or is where
/// a run stands that goes well.
proof fn lemma_two_ways(own_home: bool, results: Seq<StepResult>, n: int)
    requires
        0 <= n <= results.len(),
    ensures
        ({
            let step = run(first(own_home), results.take(n));
            let end = last_count(own_home);
            ||| {
                &&& step is StopSession || step is Failed
                &&& exists|j: int| counted(own_home, j) && j < n && !(#[trigger] results[j] is Done)
            }
            ||| {
                &&& step == nth(own_home, if n < end { n } else { end })
                &&& forall|j: int| counted(own_home, j) && j < n ==> #[trigger] results[j] is Done
            }
        }),
    decreases n,
{
    if n > 0 {
        lemma_two_ways(own_home, results, n - 1);
        assert(results.take(n).drop_last() =~= results.take(n - 1));
        let end = last_count(own_home);
        if n <= end {
            lemma_nth(own_home, n - 1);
        } else {
            lemma_nth(own_home, end);
        }
    }
}

/// The steps come in order: before the application is launched the libraries are seeded,
/// where the seat has a HOME of its own, then the manager is created, the session
/// initialized, the ports asked for and the RTSP server started, and each of the last four
/// went well.
pub proof fn law_application_is_launched_last(own_home: bool, results: Seq<StepResult>)
    requires
        run(first(own_home), results) is LaunchApplication,
    ensures
        results.len() == (if own_home {
            5int
        } else {
            4int
        }),
        ({
            let n = results.len() as int;
            &&& run(first(own_home), results.take(n - 1)) is StartRtsp
            &&& run(first(own_home), results.take(n - 2)) is QueryPorts
            &&& run(first(own_home), results.take(n - 3)) is InitializeSession
            &&& run(first(own_home), results.take(n - 4)) is CreateManager
            &&& own_home ==> run(first(own_home), results.take(n - 5)) is SeedLibraries
            &&& forall|j: int| n - 4 <= j < n ==> #[trigger] results[j] is Done
        }),
{
    let start = first(own_home);
    let n = results.len() as int;
    assert(results.take(n) =~= results);
    assert(results.drop_last() =~= results.take(n - 1));
    assert(results.take(n - 1).drop_last() =~= results.take(n - 2));
    assert(results.take(n - 2).drop_last() =~= results.take(n - 3));
    assert(results.take(n - 3).drop_last() =~= results.take(n - 4));
    assert(run(start, results.take(n - 4)) is CreateManager);
    if own_home {
        assert(results.take(n - 4).drop_last() =~= results.take(n - 5));
        assert(run(start, results.take(n - 5)) is SeedLibraries);
        if n > 5 {
            assert(results.take(n - 5).drop_last() =~= results.take(n - 6));
        }
    } else if n > 4 {
        assert(results.take(n - 4).drop_last() =~= results.take(n - 5));
        lemma_no_seeding(results.take(n - 5));
    }
}

/// Without a HOME of its own no seat comes to the seeding of libraries.
proof fn lemma_no_seeding(results: Seq<StepResult>)
    ensures
        !(run(first(false), results) is SeedLibraries),
    decreases results.len(),
{
    if results.len() > 0 {
        lemma_no_seeding(results.drop_last());
    }
}

/// A step that goes wrong, by failure or by running out of time, ends the bring-up: at once
/// where there is no session manager yet, and after stopping the session where there is one.
/// Only the seeding of libraries may go wrong.
pub proof fn law_step_that_goes_wrong(step: BringUpStep, result: StepResult)
    requires
        !(result is Done),
    ensures
        step is SeedLibraries ==> next(step, result) is CreateManager,
        step is CreateManager ==> next(step, result) is Failed,
        step is InitializeSession || step is QueryPorts || step is StartRtsp
            || step is LaunchApplication ==> next(step, result) is StopSession
            && next(next(step, result), StepResult::Done) is Failed
            && next(next(step, result), result) is Failed,
        step is Ready ==> next(step, result) is Ready,
        step is Failed ==> next(step, result) is Failed,
{
}

} // verus!
