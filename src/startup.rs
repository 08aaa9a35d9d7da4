use vstd::prelude::*;
use crate::error::LaunchError;
use crate::layout::WARMUP_MILLIS;

verus! {

/// Where the launch sequence stands.
#[derive(Clone, Copy, Debug, PartialEq, Eq, Structural)]
pub enum Phase {
    Extracting,
    CheckingBackend,
    StartingBackend,
    WarmingUp,
    StartingFrontend,
    Running,
    Finished,
    Failed,
}

/// What the outside world reports after a command was carried out.
#[derive(Clone, Copy, Debug, PartialEq, Eq, Structural)]
pub enum Event {
    ExtractionDone,
    ExtractionFailed(LaunchError),
    /// Whether the interpreter and the backend script are on disk.
    BackendFiles { interpreter: bool, script: bool },
    /// The child process started and its handle was obtained.
    Spawned,
    SpawnFailed,
    WarmupElapsed,
    FrontendExited { status: i32 },
}

/// What the launcher does next.
#[derive(Clone, Copy, Debug, PartialEq, Eq, Structural)]
pub enum Command {
    /// Run the extraction pass.
    Extract,
    /// Look for the interpreter and the backend script.
    CheckBackend,
    /// Start the backend detached, and do not keep its handle.
    SpawnBackend,
    /// Block the thread for this long.
    Pause { millis: u64 },
    /// Start the frontend attached to the console.
    SpawnFrontend,
    /// Block until the frontend exits.
    AwaitFrontend,
    /// Report the frontend's exit status; the launcher itself succeeds.
    Finish { frontend_status: i32 },
    /// Report the error; the launcher exits with a failure status.
    Abort(LaunchError),
    /// The event does not belong to this phase: nothing to do.
    Idle,
}

/// The first phase and the command it issues.
pub open spec fn initial() -> (Phase, Command) {
    (Phase::Extracting, Command::Extract)
}

pub open spec fn transition(p: Phase, ev: Event) -> (Phase, Command) {
    match (p, ev) {
        (Phase::Extracting, Event::ExtractionDone) => (Phase::CheckingBackend, Command::CheckBackend),
        (Phase::Extracting, Event::ExtractionFailed(e)) => (Phase::Failed, Command::Abort(e)),
        (Phase::CheckingBackend, Event::BackendFiles { interpreter, script }) => if interpreter
            && script {
            (Phase::StartingBackend, Command::SpawnBackend)
        } else {
            (Phase::Failed, Command::Abort(LaunchError::BackendNotFound))
        },
        (Phase::StartingBackend, Event::Spawned) => (
            Phase::WarmingUp,
            Command::Pause { millis: WARMUP_MILLIS },
        ),
        (Phase::StartingBackend, Event::SpawnFailed) => (
            Phase::Failed,
            Command::Abort(LaunchError::ProcessSpawnError),
        ),
        (Phase::WarmingUp, Event::WarmupElapsed) => (Phase::StartingFrontend, Command::SpawnFrontend),
        (Phase::StartingFrontend, Event::Spawned) => (Phase::Running, Command::AwaitFrontend),
        (Phase::StartingFrontend, Event::SpawnFailed) => (
            Phase::Failed,
            Command::Abort(LaunchError::ProcessSpawnError),
        ),
        (Phase::Running, Event::FrontendExited { status }) => (
            Phase::Finished,
            Command::Finish { frontend_status: status },
        ),
        _ => (p, Command::Idle),
    }
}

/// Starts the launch sequence.
pub fn start() -> (r: (Phase, Command))
    ensures
        r == initial(),
{
    (Phase::Extracting, Command::Extract)
}

/// One step of the launch sequence: the next phase and the command to carry out.
pub fn next(p: Phase, ev: Event) -> (r: (Phase, Command))
    ensures
        r == transition(p, ev),
{
    match (p, ev) {
        (Phase::Extracting, Event::ExtractionDone) => (Phase::CheckingBackend, Command::CheckBackend),
        (Phase::Extracting, Event::ExtractionFailed(e)) => (Phase::Failed, Command::Abort(e)),
        (Phase::CheckingBackend, Event::BackendFiles { interpreter, script }) => {
            if interpreter && script {
                (Phase::StartingBackend, Command::SpawnBackend)
            } else {
                (Phase::Failed, Command::Abort(LaunchError::BackendNotFound))
            }
        },
        (Phase::StartingBackend, Event::Spawned) => (
            Phase::WarmingUp,
            Command::Pause { millis: WARMUP_MILLIS },
        ),
        (Phase::StartingBackend, Event::SpawnFailed) => (
            Phase::Failed,
            Command::Abort(LaunchError::ProcessSpawnError),
        ),
        (Phase::WarmingUp, Event::WarmupElapsed) => (Phase::StartingFrontend, Command::SpawnFrontend),
        (Phase::StartingFrontend, Event::Spawned) => (Phase::Running, Command::AwaitFrontend),
        (Phase::StartingFrontend, Event::SpawnFailed) => (
            Phase::Failed,
            Command::Abort(LaunchError::ProcessSpawnError),
        ),
        (Phase::Running, Event::FrontendExited { status }) => (
            Phase::Finished,
            Command::Finish { frontend_status: status },
        ),
        _ => (p, Command::Idle),
    }
}

/// The phase reached and the commands issued, from the start, for a
/// sequence of reported events.
pub open spec fn run(events: Seq<Event>) -> (Phase, Seq<Command>)
    decreases events.len(),
{
    if events.len() == 0 {
        (initial().0, seq![initial().1])
    } else {
        let before = run(events.drop_last());
        let step = transition(before.0, events.last());
        (step.0, before.1.push(step.1))
    }
}

pub open spec fn issued_before(cs: Seq<Command>, c: Command, j: int) -> bool {
    exists|i: int| 0 <= i < j && cs[i] == c
}

pub open spec fn spawns_backend_then_pauses(cs: Seq<Command>, j: int) -> bool {
    exists|i: int, k: int|
        0 <= k < i < j && cs[k] == Command::SpawnBackend && cs[i] == (Command::Pause {
            millis: WARMUP_MILLIS,
        })
}

pub open spec fn spawns_anything(cs: Seq<Command>) -> bool {
    exists|i: int|
        0 <= i < cs.len() && (cs[i] == Command::SpawnBackend || cs[i] == Command::SpawnFrontend)
}

pub open spec fn startup_ordered(cs: Seq<Command>) -> bool {
    &&& forall|j: int|
        0 <= j < cs.len() && cs[j] == (Command::Pause { millis: WARMUP_MILLIS })
            ==> issued_before(cs, Command::SpawnBackend, j)
    &&& forall|j: int|
        0 <= j < cs.len() && cs[j] == Command::SpawnFrontend ==> spawns_backend_then_pauses(cs, j)
    &&& forall|j: int|
        0 <= j < cs.len() && cs[j] == Command::AwaitFrontend ==> issued_before(
            cs,
            Command::SpawnFrontend,
            j,
        )
}

proof fn lemma_run_invariant(events: Seq<Event>)
    ensures
        startup_ordered(run(events).1),
        run(events).1.len() == events.len() + 1,
        run(events).0 == Phase::StartingBackend ==> issued_before(
            run(events).1,
            Command::SpawnBackend,
            run(events).1.len() as int,
        ),
        (run(events).0 == Phase::WarmingUp || run(events).0 == Phase::StartingFrontend
            || run(events).0 == Phase::Running || run(events).0 == Phase::Finished)
            ==> spawns_backend_then_pauses(run(events).1, run(events).1.len() as int),
        (run(events).0 == Phase::StartingFrontend || run(events).0 == Phase::Running
            || run(events).0 == Phase::Finished) ==> issued_before(
            run(events).1,
            Command::SpawnFrontend,
            run(events).1.len() as int,
        ),
        (run(events).0 == Phase::Extracting || run(events).0 == Phase::CheckingBackend)
            ==> !spawns_anything(run(events).1),
        run(events).1.contains(Command::Abort(LaunchError::BackendNotFound)) ==> (run(events).0
            == Phase::Failed && !spawns_anything(run(events).1)),
    decreases events.len(),
{
    if events.len() > 0 {
        let init = events.drop_last();
        lemma_run_invariant(init);
        let (phase_before, cs0) = run(init);
        let (phase_after, c) = transition(phase_before, events.last());
        let cs1 = cs0.push(c);
        assert(run(events) == (phase_after, cs1));
        assert forall|j: int| 0 <= j < cs0.len() implies cs1[j] == cs0[j] by {}
        assert(cs1[cs0.len() as int] == c);
        lemma_push_keeps(cs0, c);
        let n = cs0.len() as int;
        if c == Command::SpawnFrontend || c == Command::SpawnBackend {
            assert(cs1[n] == c);
        }
        if c == Command::SpawnFrontend {
            assert(issued_before(cs1, Command::SpawnFrontend, n + 1));
        }
        if phase_before == Phase::StartingBackend && c == (Command::Pause { millis: WARMUP_MILLIS }) {
            let k = choose|k: int| 0 <= k < cs0.len() && cs0[k] == Command::SpawnBackend;
            assert(cs1[k] == Command::SpawnBackend);
            assert(spawns_backend_then_pauses(cs1, cs1.len() as int));
        }
        assert forall|j: int|
            0 <= j < cs1.len() && cs1[j] == (Command::Pause { millis: WARMUP_MILLIS })
                implies issued_before(cs1, Command::SpawnBackend, j) by {
            if j < n {
                assert(cs0[j] == cs1[j]);
            }
        }
        assert forall|j: int| 0 <= j < cs1.len() && cs1[j] == Command::SpawnFrontend
            implies spawns_backend_then_pauses(cs1, j) by {
            if j < n {
                assert(cs0[j] == cs1[j]);
            }
        }
        assert forall|j: int| 0 <= j < cs1.len() && cs1[j] == Command::AwaitFrontend
            implies issued_before(cs1, Command::SpawnFrontend, j) by {
            if j < n {
                assert(cs0[j] == cs1[j]);
            }
        }
        if spawns_anything(cs1) {
            let i = choose|i: int|
                0 <= i < cs1.len() && (cs1[i] == Command::SpawnBackend || cs1[i]
                    == Command::SpawnFrontend);
            if i < cs0.len() {
                assert(spawns_anything(cs0));
            }
        }
        if cs1.contains(Command::Abort(LaunchError::BackendNotFound)) {
            let i = choose|i: int|
                0 <= i < cs1.len() && cs1[i] == Command::Abort(LaunchError::BackendNotFound);
            if i < cs0.len() {
                assert(cs0.contains(Command::Abort(LaunchError::BackendNotFound)));
            }
        }
    }
}

proof fn lemma_push_keeps(cs: Seq<Command>, c: Command)
    ensures
        forall|x: Command, j: int|
            0 <= j <= cs.len() && issued_before(cs, x, j) ==> #[trigger] issued_before(
                cs.push(c),
                x,
                j,
            ),
        forall|j: int|
            0 <= j <= cs.len() && spawns_backend_then_pauses(cs, j)
                ==> #[trigger] spawns_backend_then_pauses(cs.push(c), j),
{
    let cs1 = cs.push(c);
    assert forall|x: Command, j: int|
        0 <= j <= cs.len() && issued_before(cs, x, j) implies #[trigger] issued_before(
        cs1,
        x,
        j,
    ) by {
        let i = choose|i: int| 0 <= i < j && cs[i] == x;
        assert(cs1[i] == x);
    }
    assert forall|j: int|
        0 <= j <= cs.len() && spawns_backend_then_pauses(cs, j)
            implies #[trigger] spawns_backend_then_pauses(cs1, j) by {
        let (i, k) = choose|i: int, k: int|
            0 <= k < i < j && cs[k] == Command::SpawnBackend && cs[i] == (Command::Pause {
                millis: WARMUP_MILLIS,
            });
        assert(cs1[k] == Command::SpawnBackend);
        assert(cs1[i] == (Command::Pause { millis: WARMUP_MILLIS }));
    }
}

/// Whatever the events, the backend is spawned before the warm-up pause,
/// the pause comes before the frontend is spawned, and the wait for the
/// frontend comes after it was spawned.
pub proof fn lemma_startup_order(events: Seq<Event>)
    ensures
        startup_ordered(run(events).1),
{
    lemma_run_invariant(events);
}

/// Once the interpreter or the backend script is found missing, the launch
/// fails, and no child process is spawned, neither before nor after.
pub proof fn lemma_missing_backend_fatal(events: Seq<Event>, interpreter: bool, script: bool)
    requires
        run(events).0 == Phase::CheckingBackend,
        !(interpreter && script),
    ensures
        run(events.push(Event::BackendFiles { interpreter, script })).0 == Phase::Failed,
        run(events.push(Event::BackendFiles { interpreter, script })).1.last() == Command::Abort(
            LaunchError::BackendNotFound,
        ),
        forall|more: Seq<Event>|
            !spawns_anything(
                #[trigger] run(events.push(Event::BackendFiles { interpreter, script }) + more).1,
            ),
{
    let ev = Event::BackendFiles { interpreter, script };
    let head = events.push(ev);
    assert(head.drop_last() =~= events);
    lemma_run_invariant(head);
    assert(run(head).1.last() == Command::Abort(LaunchError::BackendNotFound));
    assert(run(head).1.contains(Command::Abort(LaunchError::BackendNotFound)));
    assert forall|more: Seq<Event>| !spawns_anything(#[trigger] run(head + more).1) by {
        lemma_abort_persists(head, more);
    }
}

proof fn lemma_abort_persists(head: Seq<Event>, more: Seq<Event>)
    requires
        run(head).1.contains(Command::Abort(LaunchError::BackendNotFound)),
    ensures
        run(head + more).1.contains(Command::Abort(LaunchError::BackendNotFound)),
        !spawns_anything(run(head + more).1),
    decreases more.len(),
{
    if more.len() == 0 {
        assert(head + more =~= head);
        lemma_run_invariant(head);
    } else {
        lemma_abort_persists(head, more.drop_last());
        let all = head + more;
        assert(all.drop_last() =~= head + more.drop_last());
        let cs0 = run(head + more.drop_last()).1;
        let i = choose|i: int|
            0 <= i < cs0.len() && cs0[i] == Command::Abort(LaunchError::BackendNotFound);
        assert(run(all).1[i] == cs0[i]);
        lemma_run_invariant(all);
    }
}

} // verus!
