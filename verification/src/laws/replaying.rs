//! What a run comes to depends on what happens in it and on nothing else: not
//! on who takes its records, nor on whether anyone does.

use vstd::prelude::*;

use crate::artifacts;
use crate::driver;
use crate::driver::{Driver, DriverAction, DriverView};
use crate::effect_steps;
use crate::effect_steps::{EffectAction, EffectStage, EffectStep};
use crate::event::EventView;
use crate::handler::SchedulerHandler;
use crate::integration::ServiceView;
use crate::machine;
use crate::machine::SchedulerTerminalOutput;
use crate::manifest;
use crate::node_runner::NodeRunner;
use crate::state::StateView;
use crate::text::Text;
use crate::types;
use crate::work_steps::WorkAction;

verus! {

// ── single steps ───────────────────────────────────────────────────────────

/// Whether two things that an integration asks for are the same.
pub open spec fn same_work_action(a: WorkAction, b: WorkAction) -> bool {
    match (a, b) {
        (
            WorkAction::Report { event: e, dropped: d },
            WorkAction::Report { event: f, dropped: c },
        ) => e@ == f@ && (d is Some <==> c is Some),
        (
            WorkAction::ListChanges { workspace: w, artifact: x },
            WorkAction::ListChanges { workspace: v, artifact: y },
        ) => w == v && x@ == y@,
        (
            WorkAction::RunPlan { workspace: w, artifact: x, plan: p, changed_files: c },
            WorkAction::RunPlan { workspace: v, artifact: y, plan: q, changed_files: d },
        ) => w == v && x@ == y@ && p@ == q@ && c == d,
        (
            WorkAction::AskValidator { workspace: w, artifact: x },
            WorkAction::AskValidator { workspace: v, artifact: y },
        ) => w == v && x@ == y@,
        (
            WorkAction::Commit { workspace: w, artifact: x },
            WorkAction::Commit { workspace: v, artifact: y },
        ) => w == v && x@ == y@,
        (
            WorkAction::Record { workspace: w, integrated: x, record: r },
            WorkAction::Record { workspace: v, integrated: y, record: s },
        ) => w == v && x@ == y@ && r@ == s@,
        _ => false,
    }
}

/// Whether two things that an effect asks for are the same.
pub open spec fn same_action(a: EffectAction, b: EffectAction) -> bool {
    match (a, b) {
        (
            EffectAction::Report { event: e, dropped: d },
            EffectAction::Report { event: f, dropped: c },
        ) => e@ == f@ && (d is Some <==> c is Some),
        (
            EffectAction::PrepareAttempt { command: c, artifact: x },
            EffectAction::PrepareAttempt { command: d, artifact: y },
        ) => c@ == d@ && x@ == y@,
        (
            EffectAction::RunNode { command: c, artifact: x, work_attempt: w },
            EffectAction::RunNode { command: d, artifact: y, work_attempt: v },
        ) => {
            &&& c@ == d@
            &&& artifacts::opt_artifact(x) == artifacts::opt_artifact(y)
            &&& match (w, v) {
                (Some(w), Some(v)) => w.attempt == v.attempt && w.workspace@ == v.workspace@,
                (None, None) => true,
                _ => false,
            }
        },
        (
            EffectAction::Integrate { request: r, action: i },
            EffectAction::Integrate { request: s, action: j },
        ) => r@ == s@ && same_work_action(i, j),
        (
            EffectAction::PrepareManifest { node_id: n, tasks: t, team: o, artifact: x },
            EffectAction::PrepareManifest { node_id: m, tasks: u, team: p, artifact: y },
        ) => n@ == m@ && types::task_views(t@) == types::task_views(u@) && o@ == p@ && x@ == y@,
        (
            EffectAction::RecordTasks { node_id: n, artifact: x, workspace: w, records: r },
            EffectAction::RecordTasks { node_id: m, artifact: y, workspace: v, records: s },
        ) => n@ == m@ && x@ == y@ && w == v && manifest::record_views(r@) == manifest::record_views(
            s@,
        ),
        _ => false,
    }
}

/// A step of an effect is determined by the service and by what came of the
/// step before it: the service after it, and what it asks for next.
pub proof fn law_effect_steps_are_determined(
    before: ServiceView,
    stage: EffectStage,
    a: EffectStep,
    after_a: ServiceView,
    b: EffectStep,
    after_b: ServiceView,
)
    requires
        effect_steps::is_step(before, stage, a, after_a),
        effect_steps::is_step(before, stage, b, after_b),
    ensures
        after_a == after_b,
        same_action(a.action, b.action),
{
    match stage {
        EffectStage::Emitted(effect) => {},
        EffectStage::Integrating { request, stage } => {},
        _ => {},
    }
}

// ── runs ───────────────────────────────────────────────────────────────────

/// A run at some time: the scheduler's side of it, and the handler's.
pub struct RunView {
    pub driver: DriverView,
    pub service: ServiceView,
}

/// The value of a run at some time.
pub open spec fn run_view<R: NodeRunner>(driver: Driver, handler: SchedulerHandler<R>) -> RunView {
    RunView { driver: driver@, service: handler.integration@ }
}

/// What happens in a run.
pub enum Happening {
    /// An event is delivered, with ids for new nodes.
    Delivered { event: EventView, ids: Seq<Text> },
    /// The run is asked what to do next.
    Asked,
    /// An effect takes a step.
    Stepped { stage: EffectStage },
}

/// Whether a run changes that way when that happens.
pub open spec fn moves(before: RunView, happening: Happening, after: RunView) -> bool {
    match happening {
        Happening::Delivered { event, ids } => {
            &&& after.driver == driver::delivered(before.driver, event, ids)
            &&& after.service == before.service
        },
        Happening::Asked => {
            &&& exists|action: DriverAction| #[trigger]
                driver::is_next(before.driver, action, after.driver)
            &&& after.service == before.service
        },
        Happening::Stepped { stage } => {
            &&& exists|step: EffectStep| #[trigger]
                effect_steps::is_step(before.service, stage, step, after.service)
            &&& after.driver == before.driver
        },
    }
}

/// A run from its start on, and what happened between each time and the next.
pub open spec fn is_run(times: Seq<RunView>, happenings: Seq<Happening>) -> bool {
    &&& times.len() == happenings.len() + 1
    &&& forall|i: int|
        0 <= i < happenings.len() ==> moves(times[i], #[trigger] happenings[i], times[i + 1])
}

/// What a run comes to is fixed by what happens in it: two runs that start
/// alike and in which the same things happen are the same at every time.
pub proof fn law_runs_are_replayed(
    a: Seq<RunView>,
    b: Seq<RunView>,
    happenings: Seq<Happening>,
    n: int,
)
    requires
        is_run(a, happenings),
        is_run(b, happenings),
        a[0] == b[0],
        0 <= n < a.len(),
    ensures
        a[n] == b[n],
    decreases n,
{
    if n > 0 {
        law_runs_are_replayed(a, b, happenings, n - 1);
        let before = a[n - 1];
        assert(moves(before, happenings[n - 1], a[n]));
        assert(moves(before, happenings[n - 1], b[n]));
        if let Happening::Stepped { stage } = happenings[n - 1] {
            let x = choose|step: EffectStep| #[trigger]
                effect_steps::is_step(before.service, stage, step, a[n].service);
            let y = choose|step: EffectStep| #[trigger]
                effect_steps::is_step(before.service, stage, step, b[n].service);
            law_effect_steps_are_determined(
                before.service,
                stage,
                x,
                a[n].service,
                y,
                b[n].service,
            );
        }
    }
}

/// Whether two outputs are the same.
pub open spec fn same_output(a: SchedulerTerminalOutput, b: SchedulerTerminalOutput) -> bool {
    match (a, b) {
        (
            SchedulerTerminalOutput::Complete { graph: g, recovery_summary: r },
            SchedulerTerminalOutput::Complete { graph: h, recovery_summary: s },
        ) => g@ == h@ && r == s,
        (
            SchedulerTerminalOutput::Failed { graph: g, reason: r },
            SchedulerTerminalOutput::Failed { graph: h, reason: s },
        ) => g@ == h@ && r@ == s@,
        _ => false,
    }
}

/// The output of a run is fixed by the state it ends in.
pub proof fn law_outputs_are_determined(
    s: StateView,
    a: SchedulerTerminalOutput,
    b: SchedulerTerminalOutput,
)
    requires
        machine::is_output_of(a, s),
        machine::is_output_of(b, s),
    ensures
        same_output(a, b),
{
}

/// A world in which runs take place: what happens next, given the run so far.
/// The runner, version control, the validator and the ids of new nodes are
/// all in it. A run takes place in it if everything happens as it says.
pub open spec fn takes_place(
    world: spec_fn(Seq<RunView>) -> Happening,
    times: Seq<RunView>,
    happenings: Seq<Happening>,
) -> bool {
    &&& is_run(times, happenings)
    &&& forall|i: int|
        0 <= i < happenings.len() ==> #[trigger] happenings[i] == world(times.take(i + 1))
}

/// Who takes the records of a run changes nothing. Two runs of the same state
/// with handlers that differ in their sinks alone, in a world that answers the
/// same requests in the same way, go the same way: the same things happen in
/// them, the state, the artifact and the verdict are the same at every time,
/// and so is the output.
pub proof fn law_sinks_change_nothing<R: NodeRunner>(
    driver: Driver,
    first: SchedulerHandler<R>,
    second: SchedulerHandler<R>,
    world: spec_fn(Seq<RunView>) -> Happening,
    a: Seq<RunView>,
    happened_a: Seq<Happening>,
    b: Seq<RunView>,
    happened_b: Seq<Happening>,
    n: int,
)
    requires
        first.integration == second.integration,
        takes_place(world, a, happened_a),
        takes_place(world, b, happened_b),
        a[0] == run_view(driver, first),
        b[0] == run_view(driver, second),
        0 <= n < a.len(),
        n < b.len(),
    ensures
        a.take(n + 1) == b.take(n + 1),
        happened_a.take(n) == happened_b.take(n),
        forall|x: SchedulerTerminalOutput, y: SchedulerTerminalOutput|
            machine::is_output_of(x, a[n].driver.state) && machine::is_output_of(
                y,
                b[n].driver.state,
            ) ==> same_output(x, y),
    decreases n,
{
    if n == 0 {
        assert(a.take(1) =~= b.take(1));
        assert(happened_a.take(0) =~= happened_b.take(0));
    } else {
        law_sinks_change_nothing(driver, first, second, world, a, happened_a, b, happened_b, n - 1);
        assert(happened_a[n - 1] == world(a.take(n)));
        assert(happened_b[n - 1] == world(b.take(n)));
        assert(happened_a.take(n) =~= happened_a.take(n - 1).push(happened_a[n - 1]));
        assert(happened_b.take(n) =~= happened_b.take(n - 1).push(happened_b[n - 1]));
        let x = a.take(n + 1);
        let y = b.take(n + 1);
        let happened = happened_a.take(n);
        assert(a.take(n)[0] == a[0] && b.take(n)[0] == b[0]);
        assert forall|i: int| 0 <= i < n implies moves(x[i], #[trigger] happened[i], x[i + 1]) by {
            assert(moves(a[i], happened_a[i], a[i + 1]));
        }
        assert forall|i: int| 0 <= i < n implies moves(y[i], #[trigger] happened[i], y[i + 1]) by {
            assert(happened[i] == happened_b.take(n)[i]);
            assert(moves(b[i], happened_b[i], b[i + 1]));
        }
        law_runs_are_replayed(x, y, happened, n);
        assert(x =~= y) by {
            assert forall|i: int| 0 <= i < n + 1 implies x[i] == y[i] by {
                law_runs_are_replayed(x, y, happened, i);
            }
        }
        assert(a[n] == x[n] && b[n] == y[n]);
    }
    assert(a.take(n + 1)[n] == a[n]);
    assert(b.take(n + 1)[n] == b[n]);
}

} // verus!
