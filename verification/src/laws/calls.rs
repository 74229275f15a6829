//! What single calls give, told by their arguments alone.

use vstd::prelude::*;

use crate::artifacts::Artifact;
use crate::checkpoint;
use crate::checkpoint::CheckpointDue;
use crate::cli;
use crate::cli::TraceFilter;
use crate::dispatch;
use crate::dispatch::RunNodeDispatch;
use crate::driver;
use crate::driver::{Delivery, Driver, DriverAction};
use crate::effect::SchedulerEffect;
use crate::event::{EventView, SchedulerEvent};
use crate::graph;
use crate::graph::{NodeId, NodeKind, RunGraph};
use crate::handler::{HandlerStep, SchedulerHandler};
use crate::integration;
use crate::integration::Dropped;
use crate::laws::values;
use crate::machine;
use crate::machine::{RunRequest, SchedulerMachine, SchedulerTerminalOutput};
use crate::manifest;
use crate::manifest::TaskRecord;
use crate::mutations;
use crate::node_ids;
use crate::node_runner::{NodeRunRequest, NodeRunResult, NodeRunner};
use crate::progress;
use crate::queries;
use crate::state;
use crate::state::{SchedulerState, Transition};
use crate::teams;
use crate::teams::RunConfig;
use crate::telemetry;
use crate::telemetry::{TelemetryEventView, TelemetryRecord};
use crate::text;
use crate::text::Text;
use crate::triggers;
use crate::types;
use crate::types::NodeRequest;
use crate::workspace_changes;
use crate::workspace_changes::CommandOutput;

verus! {

/// What is recorded of a dropped attempt: the node, the attempt, what it
/// started from, what it had changed, and why it was dropped.
pub proof fn law_dropped_attempts_are_recorded(
    dropped: Dropped,
    changed_files: Vec<String>,
    git_diff: String,
    record: TelemetryRecord,
)
    requires
        call_ensures(integration::attempt_evidence, (dropped, changed_files, git_diff), record),
    ensures
        record@.event matches TelemetryEventView::WorkAttemptDiscarded {
            attempt_id,
            node_id,
            attempt,
            base_commit,
            changed_files: files,
            git_diff: diff,
            reason,
        } && attempt_id == dropped.node_id.0@ + ":"@ + text::decimal(dropped.attempt as nat)
            && node_id == dropped.node_id.0@ && attempt == dropped.attempt && base_commit
            == dropped.workspace.base_commit@ && values::same_texts(changed_files@, files) && diff
            == git_diff@ && reason == dropped.reason@,
{
}

/// What is recorded of a checkpoint: how many nodes there are, and how many
/// are completed.
pub proof fn law_checkpoints_are_recorded(due: CheckpointDue, record: TelemetryRecord)
    requires
        call_ensures(checkpoint::saved_record, (&due,), record),
    ensures
        record@.source == "Checkpoint"@,
        record@.event == (TelemetryEventView::CheckpointSaved {
            node_count: due.node_count,
            completed_count: due.completed_count,
        }),
{
}

/// States and events are recorded as they are rendered, by the machine.
pub proof fn law_states_and_events_are_recorded(
    rendered: String,
    started: TelemetryRecord,
    entered: TelemetryRecord,
    received: TelemetryRecord,
)
    requires
        call_ensures(telemetry::started_record, (), started),
        call_ensures(telemetry::state_record, (rendered,), entered),
        call_ensures(telemetry::event_record, (rendered,), received),
    ensures
        started@.source == "SchedulerMachine"@,
        started@.event is MachineStarted,
        entered@.source == "SchedulerMachine"@,
        entered@.event matches TelemetryEventView::StateEntered { state, .. } && state == rendered@,
        received@.source == "SchedulerMachine"@,
        received@.event matches TelemetryEventView::EventReceived { event, .. } && event
            == rendered@,
{
}

/// A dispatch that panicked without saying anything is told apart from one
/// that said something; either halts the run and names its node.
pub proof fn law_panics_are_told(
    node_id: NodeId,
    message: Option<String>,
    event: SchedulerEvent,
)
    requires
        call_ensures(driver::dispatch_panicked, (node_id, message), event),
    ensures
        event@ matches EventView::NodeFailed { node_id: n, failure } && n == node_id.0@
            && failure.kind is DispatchPanic && failure.recovery is Terminal && failure.message
            == "node dispatch thread panicked: "@ + match message {
            Some(m) => m@,
            None => "non-string panic payload"@,
        },
{
}

/// A dispatch is announced with the node and its kind.
pub proof fn law_dispatches_are_announced(node_id: NodeId, kind: NodeKind, line: String)
    requires
        call_ensures(dispatch::dispatch_line, (&node_id, kind), line),
    ensures
        line@ == "[scheduler] dispatch "@ + node_ids::short_text(node_id.0@) + match kind {
            NodeKind::Plan => " Plan"@,
            NodeKind::Work => " Work"@,
        },
{
    reveal_strlit(" Plan");
    reveal_strlit(" Work");
    reveal_strlit(" ");
    reveal_strlit("Plan");
    reveal_strlit("Work");
    assert(" "@ + "Plan"@ =~= " Plan"@);
    assert(" "@ + "Work"@ =~= " Work"@);
    let start = "[scheduler] dispatch "@ + node_ids::short_text(node_id.0@);
    assert(start + " "@ + "Plan"@ =~= start + (" "@ + "Plan"@));
    assert(start + " "@ + "Work"@ =~= start + (" "@ + "Work"@));
}

/// Of the filters for a trace, prompts go before failures, and failures before
/// the summary.
pub proof fn law_filters_have_an_order(
    summary: bool,
    prompts: bool,
    failures: bool,
    filter: TraceFilter,
)
    requires
        call_ensures(cli::trace_filter, (summary, prompts, failures), filter),
    ensures
        filter is Prompts == prompts,
        filter is Failures == (failures && !prompts),
        filter is Summary == (summary && !prompts && !failures),
        filter is Default == !(summary || prompts || failures),
{
}

/// A path is untracked where its listing ran and failed.
pub proof fn law_untracked_paths_fail_to_list(output: Option<CommandOutput>, untracked: bool)
    requires
        call_ensures(workspace_changes::is_untracked, (&output,), untracked),
    ensures
        untracked == (output is Some && !output->0.success),
{
}

/// Everything but a tick is progress.
pub proof fn law_all_but_ticks_is_progress(event: SchedulerEvent, is_progress: bool)
    requires
        call_ensures(progress::is_progress_event, (&event,), is_progress),
    ensures
        is_progress == !(event is Start),
{
}

/// A node may be split while a plan below it would not nest too deep; where it
/// would, the depth and the limit are told.
pub proof fn law_splits_stay_within_the_depth(depth: usize, result: Result<(), String>)
    requires
        depth < usize::MAX,
        call_ensures(mutations::validate_split_depth, (depth,), result),
    ensures
        match result {
            Ok(_) => depth + 1 <= 10,
            Err(message) => depth + 1 > 10 && message@
                == "plan depth limit exceeded: requested depth "@ + text::decimal(
                (depth + 1) as nat,
            ) + "; limit is "@ + text::decimal(10),
        },
{
}

/// The ids that are derived from a seed count up from it.
pub proof fn law_derived_ids_count_up(seed: u128, counter: u64)
    ensures
        node_ids::derived_bits(seed, 0) == seed,
        counter < u64::MAX && node_ids::derived_bits(seed, counter) < u128::MAX
            ==> node_ids::derived_bits(seed, (counter + 1) as u64) == node_ids::derived_bits(
            seed,
            counter,
        ) + 1,
{
}

/// A step of a handler announces what came and does what the machine does; a
/// checkpoint is due after it, except after a tick.
pub proof fn law_handlers_tell_of_each_step<R: NodeRunner>(
    handler: SchedulerHandler<R>,
    state: SchedulerState,
    event: SchedulerEvent,
    step: HandlerStep,
)
    requires
        call_ensures(SchedulerHandler::<R>::transition, (&handler, state, event), step),
    ensures
        values::same_texts(step.progress@, progress::lines_for(event@)),
        event is Start ==> step.checkpoint is None,
        handler.checkpoint.dir is None ==> step.checkpoint is None,
        !(event is Start) && handler.checkpoint.dir is Some && (step.transition.state is Active
            || step.transition.state is Waiting) ==> step.checkpoint is Some,
        step.transition.state is Complete || step.transition.state is Failed
            ==> step.checkpoint is None,
{
}

/// Work on an artifact needs a workspace, nothing else does.
pub proof fn law_work_on_artifacts_needs_workspaces<R: NodeRunner>(
    handler: SchedulerHandler<R>,
    command: RunNodeDispatch,
    needed: bool,
)
    requires
        call_ensures(SchedulerHandler::<R>::needs_workspace, (&handler, &command), needed),
    ensures
        needed == (command.kind is Work && handler.integration@.artifact is Some),
{
}

/// A handler that is given a place for checkpoints has it, and keeps
/// everything else.
pub proof fn law_handlers_keep_what_they_have<R: NodeRunner>(
    handler: SchedulerHandler<R>,
    dir: String,
    with_dir: SchedulerHandler<R>,
)
    requires
        call_ensures(SchedulerHandler::<R>::with_checkpoint_dir, (handler, dir), with_dir),
    ensures
        with_dir.checkpoint.dir == Some(dir),
        with_dir.integration@ == handler.integration@,
        with_dir.telemetry == handler.telemetry,
        with_dir.runner == handler.runner,
{
}

/// The machine takes the step that the laws speak of, and nothing is added to
/// it or taken from it.
pub proof fn law_the_machine_takes_its_step(
    state: SchedulerState,
    event: SchedulerEvent,
    ids: Vec<NodeId>,
    t: Transition<SchedulerState, SchedulerEffect>,
)
    requires
        call_ensures(
            SchedulerMachine::transition_with_ids,
            (&SchedulerMachine, state, event, ids),
            t,
        ),
    ensures
        ({
            let next = machine::next_step(state@, event@, ids@.map_values(|id: NodeId| id.0@));
            &&& t.state@ == next.state
            &&& t.effects@.len() == next.effects.len()
            &&& forall|k: int|
                0 <= k < next.effects.len() ==> (#[trigger] t.effects@[k])@ == next.effects[k]
        }),
{
    assert(graph::id_texts(ids@) =~= ids@.map_values(|id: NodeId| id.0@));
    let next = machine::next_step(state@, event@, graph::id_texts(ids@));
    assert(state::step_view(t).effects.len() == next.effects.len());
    assert forall|k: int| 0 <= k < next.effects.len() implies (#[trigger] t.effects@[k])@
        == next.effects[k] by {
        assert(state::step_view(t).effects[k] == t.effects@[k]@);
    }
}

/// A run that is over has an output, and no other has one.
pub proof fn law_only_ended_runs_have_outputs(
    state: SchedulerState,
    output: Option<SchedulerTerminalOutput>,
)
    requires
        call_ensures(SchedulerMachine::output, (&SchedulerMachine, &state), output),
    ensures
        match (state, output) {
            (
                SchedulerState::Complete { graph },
                Some(SchedulerTerminalOutput::Complete { graph: g, .. }),
            ) => g@ == graph@,
            (
                SchedulerState::Failed { graph, reason },
                Some(SchedulerTerminalOutput::Failed { graph: g, reason: r }),
            ) => g@ == graph@ && r@ == reason@,
            (SchedulerState::Active { .. }, None) => true,
            (SchedulerState::Waiting { .. }, None) => true,
            _ => false,
        },
{
}

/// A run starts with what was requested, under the policy it is given, and
/// with nothing pending.
pub proof fn law_runs_start_as_requested(
    request: RunRequest,
    run_config: RunConfig,
    id: NodeId,
    state: SchedulerState,
    d: Driver,
)
    requires
        call_ensures(SchedulerMachine::initial_state_with_id, (request, run_config, id), state),
        call_ensures(Driver::new, (state,), d),
    ensures
        state@ == machine::initial(request.objective@, run_config@, id.0@),
        d@.state == state@,
        d@.pending.len() == 0,
{
}

/// A delivery to a run is a delivery to its machine.
pub proof fn law_deliveries_reach_the_machine(
    d: Driver,
    event: SchedulerEvent,
    ids: Vec<NodeId>,
    after: Driver,
)
    requires
        call_ensures(Driver::deliver_with_ids, (d, event, ids), after),
    ensures
        after@.state == machine::next_step(
            d@.state,
            event@,
            ids@.map_values(|id: NodeId| id.0@),
        ).state,
        after@ == driver::delivered(d@, event@, ids@.map_values(|id: NodeId| id.0@)),
{
    assert(graph::id_texts(ids@) =~= ids@.map_values(|id: NodeId| id.0@));
}

/// Teams that are asked to act are asked as the laws on triggers say.
pub proof fn law_teams_are_asked_so(
    graph: RunGraph,
    anchor: NodeId,
    run_config: RunConfig,
    m: Vec<TaskRecord>,
    ids: Vec<NodeId>,
    spawns: Result<Vec<NodeRequest>, String>,
    grown: Result<RunGraph, String>,
)
    requires
        call_ensures(triggers::plan_team_spawns, (&graph, &run_config, &m), spawns),
        call_ensures(
            machine::apply_team_triggers_with_ids,
            (graph, &anchor, &run_config, &m, &ids),
            grown,
        ),
    ensures
        match (
            spawns,
            triggers::triggered(graph@, run_config@, m@.map_values(|r: TaskRecord| r@)),
        ) {
            (Ok(a), Ok(b)) => a@.len() == b.len() && forall|i: int|
                0 <= i < b.len() ==> (#[trigger] a@[i])@ == b[i],
            (Err(a), Err(b)) => a@ == b,
            _ => false,
        },
        match (
            grown,
            machine::with_triggered(
                graph@,
                anchor.0@,
                run_config@,
                m@.map_values(|r: TaskRecord| r@),
                ids@.map_values(|id: NodeId| id.0@),
            ),
        ) {
            (Ok(a), Ok(b)) => a@ == b,
            (Err(a), Err(b)) => a@ == b,
            _ => false,
        },
{
    let rows = m@.map_values(|r: TaskRecord| r@);
    assert(manifest::record_views(m@) =~= rows);
    assert(graph::id_texts(ids@) =~= ids@.map_values(|id: NodeId| id.0@));
    if let Ok(a) = spawns {
        if let Ok(b) = triggers::triggered(graph@, run_config@, rows) {
            assert(types::request_views(a@) == b);
            assert forall|i: int| 0 <= i < b.len() implies (#[trigger] a@[i])@ == b[i] by {
                assert(types::request_views(a@)[i] == a@[i]@);
            }
        }
    }
}

/// Changed files, diffs, labels, addresses and records are what the laws on
/// them speak of.
pub proof fn law_answers_are_as_told(
    output: Option<CommandOutput>,
    paths: Vec<String>,
    diff: String,
    path: String,
    new_diff: String,
    more: Vec<String>,
    whole: String,
)
    requires
        call_ensures(workspace_changes::changed_paths, (&output,), paths),
        call_ensures(workspace_changes::git_diff, (output,), diff),
        call_ensures(workspace_changes::untracked_file_diff, (&path, output), new_diff),
        call_ensures(workspace_changes::workspace_diff, (diff, &more), whole),
    ensures
        values::same_texts(paths@, workspace_changes::paths_of(output)),
        diff@ == workspace_changes::tracked_diff(output),
        new_diff@ == workspace_changes::new_file_diff(path@, output),
        whole@ == workspace_changes::with_diffs(diff@, more@.map_values(|s: String| s@)),
{
    assert(text::texts(more@) =~= more@.map_values(|s: String| s@));
    assert forall|i: int| 0 <= i < paths@.len() implies (#[trigger] paths@[i])@
        == workspace_changes::paths_of(output)[i] by {
        assert(text::texts(paths@)[i] == paths@[i]@);
    }
}

/// A runner is given the request that the laws on dispatches speak of, and
/// what it returns is told as those laws say. Effects are recorded as they say
/// too, and nodes are labelled so.
pub proof fn law_dispatches_are_as_told(
    command: RunNodeDispatch,
    artifact: Option<Artifact>,
    request: NodeRunRequest,
    node_id: NodeId,
    result: NodeRunResult,
    event: SchedulerEvent,
    effect: SchedulerEffect,
    rendered: String,
    record: TelemetryRecord,
    role: Option<String>,
    label: String,
    host: Option<String>,
    port: Option<u16>,
    address: String,
)
    requires
        call_ensures(dispatch::make_run_request, (command, &artifact, None), request),
        call_ensures(dispatch::node_result_event, (node_id, result), event),
        call_ensures(telemetry::effect_record, (&effect, rendered), record),
        call_ensures(dispatch::progress_label, (&command.kind, &node_id, &role), label),
        call_ensures(cli::ssh_address, (&host, port), address),
    ensures
        request@ == dispatch::run_request(
            command@,
            match artifact {
                Some(a) => Some(a@),
                None => None,
            },
            None,
        ),
        event@ == dispatch::result_event(node_id.0@, result@),
        record@ == telemetry::emitted(effect@, rendered@),
        label@ == dispatch::label(
            command.kind,
            node_id.0@,
            match role {
                Some(r) => Some(r@),
                None => None,
            },
        ),
        address@ == cli::address(
            match host {
                Some(h) => Some(h@),
                None => None,
            },
            port,
        ),
{
}

/// A run whose ids are minted takes the steps that it takes with those ids.
pub proof fn law_minted_ids_are_ids_like_others<R: NodeRunner>(
    request: RunRequest,
    run_config: RunConfig,
    first: SchedulerState,
    d: Driver,
    handler: SchedulerHandler<R>,
    event: SchedulerEvent,
    delivery: Delivery,
)
    requires
        call_ensures(SchedulerMachine::initial_state, (request, run_config), first),
        call_ensures(Driver::deliver::<R>, (d, &handler, event), delivery),
    ensures
        exists|id: Text| first@ == #[trigger] machine::initial(request.objective@, run_config@, id),
        exists|ids: Seq<Text>|
            delivery.driver@ == #[trigger] driver::delivered(d@, event@, ids) && ids.len()
                == machine::ids_needed(d@.state, event@),
        values::same_texts(delivery.progress@, progress::lines_for(event@)),
        delivery.checkpoint is Some == (!(event is Start) && handler.checkpoint.dir is Some && (
        delivery.driver.state is Active || delivery.driver.state is Waiting)),
{
    assert forall|i: int| 0 <= i < delivery.progress@.len() implies (
    #[trigger] delivery.progress@[i])@ == progress::lines_for(event@)[i] by {
        assert(text::texts(delivery.progress@)[i] == delivery.progress@[i]@);
    }
}

/// What a run does next is what the laws on runs say, the nodes it reports as
/// ready are those that the laws name, and a tick is what starts it.
pub proof fn law_runs_go_on_as_told(
    d: Driver,
    next: (DriverAction, Driver),
    g: RunGraph,
    ready: Vec<NodeId>,
    start: SchedulerEvent,
)
    requires
        call_ensures(Driver::next, (d,), next),
        call_ensures(SchedulerMachine::find_ready, (&g,), ready),
        call_ensures(SchedulerMachine::start_event, (&SchedulerMachine,), start),
    ensures
        driver::is_next(d@, next.0, next.1@),
        ready@.len() == queries::ready_ids(g@).len(),
        forall|i: int|
            0 <= i < ready@.len() ==> (#[trigger] ready@[i]).0@ == queries::ready_ids(g@)[i],
        start is Start,
{
    assert forall|i: int| 0 <= i < ready@.len() implies (#[trigger] ready@[i]).0@
        == queries::ready_ids(g@)[i] by {
        assert(graph::id_texts(ready@)[i] == ready@[i]@);
    }
}

/// Without a policy of its own a run has a strong tier, no teams, and one node
/// in flight at a time.
pub proof fn law_the_plain_policy(config: RunConfig, cap: usize)
    requires
        call_ensures(RunConfig::default, (), config),
        call_ensures(teams::default_dispatch_cap, (), cap),
    ensures
        config@.has_strong_tier,
        config@.teams.len() == 0,
        config@.terminal_teams.len() == 0,
        config@.dispatch_cap == 1,
        cap == 1,
{
}

} // verus!
