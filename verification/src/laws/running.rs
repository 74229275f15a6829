//! How runs start, are driven, and are told of.

use vstd::prelude::*;

use crate::checkpoint;
use crate::driver;
use crate::driver::{DriverAction, DriverView};
use crate::effect::EffectView;
use crate::event::EventView;
use crate::graph::NodeView;
use crate::laws::results;
use crate::machine;
use crate::machine::{RecoverySummary, SchedulerTerminalOutput};
use crate::node_ids;
use crate::progress;
use crate::queries;
use crate::search;
use crate::state::StateView;
use crate::teams::{ConfigView, TeamView};
use crate::telemetry;
use crate::telemetry::TelemetryEventView;
use crate::text::Text;
use crate::types::RecoveryView;

verus! {

// ── starting ───────────────────────────────────────────────────────────────

/// The team at `t` is the first that acts at the start.
pub open spec fn starts_first(teams: Seq<TeamView>, t: int) -> bool {
    &&& 0 <= t < teams.len()
    &&& teams[t].trigger is Start
    &&& forall|s: int| 0 <= s < t ==> !((#[trigger] teams[s]).trigger is Start)
}

/// A run starts with one pending node, a plan of what it is to accomplish at
/// the cheap tier, that waits for nothing. It belongs to the first team that
/// acts at the start, if there is one.
pub proof fn law_runs_start_with_one_plan(objective: Text, config: ConfigView, id: Text)
    ensures
        ({
            let first = machine::initial(objective, config, id);
            &&& first matches StateView::Active { graph, run_config } && run_config == config
                && graph.len() == 1 && {
                let n = graph[0];
                &&& n.id == id
                &&& n.kind is Plan
                &&& n.objective == objective
                &&& n.status is Pending
                &&& n.attempt == 0
                &&& n.plan_depth == 0
                &&& n.model_tier is Cheap
                &&& n.origin is Root
                &&& n.task_id is None
                &&& n.worker_role is None
                &&& n.summary is None
                &&& n.validation_plan is None
                &&& n.retry_feedback is None
                &&& n.dependencies.len() == 0
                &&& n.target_files.len() == 0
                &&& n.required_validation_targets.len() == 0
                &&& forall|t: int| #[trigger]
                    starts_first(config.teams, t) ==> n.team == config.teams[t].name && n.adapter
                        == config.teams[t].adapter && n.northstar == config.teams[t].northstar
                &&& (forall|t: int|
                    0 <= t < config.teams.len() ==> !((#[trigger] config.teams[t]).trigger
                        is Start)) ==> n.team.len() == 0 && n.adapter.len() == 0
                    && n.northstar.len() == 0
            }
        }),
{
    let check = machine::start_check(config.teams);
    search::lemma_first_some_none(config.teams.len(), check);
    if machine::start_team(config.teams) is Some {
        let t = search::lemma_first_some_found(config.teams.len(), check);
        assert forall|s: int| #[trigger] starts_first(config.teams, s) implies s == t by {
            if s < t {
                assert(check(s) is None);
            } else if t < s {
                assert(!(config.teams[t].trigger is Start));
            }
        }
        assert(config.teams[t].trigger is Start);
    } else {
        assert forall|s: int| !(#[trigger] starts_first(config.teams, s)) by {
            if starts_first(config.teams, s) {
                assert(check(s) is None);
            }
        }
    }
}

// ── driving ────────────────────────────────────────────────────────────────

/// A delivery takes the step of the machine and puts its effects behind those
/// that are pending; a run that ends takes up no more.
pub proof fn law_deliveries_queue_effects(d: DriverView, event: EventView, ids: Seq<Text>)
    ensures
        ({
            let next = machine::next_step(d.state, event, ids);
            let after = driver::delivered(d, event, ids);
            let ended = next.state is Complete || next.state is Failed;
            &&& after.state == next.state
            &&& after.pending.len() == d.pending.len() + if ended {
                0
            } else {
                next.effects.len()
            }
            &&& forall|k: int| 0 <= k < d.pending.len() ==> #[trigger] after.pending[k]
                == d.pending[k]
            &&& !ended ==> forall|k: int|
                0 <= k < next.effects.len() ==> after.pending[d.pending.len() + k]
                    == #[trigger] next.effects[k]
        }),
{
}

/// What a run does next: it finishes when it has ended, performs the first
/// effect that is pending, and with none pending ticks while it is active and
/// waits for a result otherwise.
pub proof fn law_runs_are_driven_so(before: DriverView, action: DriverAction, after: DriverView)
    requires
        driver::is_next(before, action, after),
    ensures
        after.state == before.state,
        match before.state {
            StateView::Complete { graph } => after == before && (
            action matches DriverAction::Finish(output)
                && output matches SchedulerTerminalOutput::Complete { graph: g, .. } && g@
                == graph),
            StateView::Failed { graph, reason } => after == before && (
            action matches DriverAction::Finish(output)
                && output matches SchedulerTerminalOutput::Failed { graph: g, reason: r } && g@
                == graph && r@ == reason),
            _ => if before.pending.len() > 0 {
                &&& action matches DriverAction::Perform(effect) && effect@ == before.pending[0]
                &&& after.pending.len() == before.pending.len() - 1
                &&& forall|k: int|
                    0 <= k < after.pending.len() ==> #[trigger] after.pending[k]
                        == before.pending[k + 1]
            } else {
                &&& after == before
                &&& action is Tick <==> before.state is Active
                &&& action is Await <==> before.state is Waiting
            },
        },
{
}

/// A dispatch that panicked is a failure of its node that halts the run and
/// says what it panicked with.
pub proof fn law_panics_halt_the_run(node_id: Text, message: Text)
    ensures
        driver::panic_event(node_id, message) matches EventView::NodeFailed {
            node_id: n,
            failure,
        } && n == node_id && failure.kind is DispatchPanic && failure.recovery == (
        RecoveryView::Terminal { message: failure.message }) && failure.message.len()
            >= message.len() && failure.message.skip(failure.message.len() - message.len())
            == message,
{
    let told = "node dispatch thread panicked: "@ + message;
    assert(told.skip(told.len() - message.len()) =~= message);
}

// ── telling ────────────────────────────────────────────────────────────────

/// How many nodes satisfy something.
pub open spec fn count(g: Seq<NodeView>, p: spec_fn(NodeView) -> bool) -> nat
    decreases g.len(),
{
    if g.len() == 0 {
        0
    } else {
        count(g.drop_last(), p) + if p(g.last()) {
            1nat
        } else {
            0nat
        }
    }
}

proof fn lemma_count(g: Seq<NodeView>, p: spec_fn(NodeView) -> bool)
    ensures
        g.filter(p).len() == count(g, p),
    decreases g.len(),
{
    reveal(Seq::filter);
    if g.len() > 0 {
        lemma_count(g.drop_last(), p);
    }
}

/// The summary of a run counts the nodes that retries, elevations and splits
/// made, and says whether there are any.
pub proof fn law_summaries_count_recoveries(summary: RecoverySummary, g: Seq<NodeView>)
    requires
        machine::summarizes(summary, g),
    ensures
        summary.retry_count == count(g, |n: NodeView| n.origin is Retry),
        summary.elevate_count == count(g, |n: NodeView| n.origin is ElevateModel),
        summary.split_count == count(g, |n: NodeView| n.origin is Split),
        summary.recovered == exists|i: int|
            0 <= i < g.len() && ((#[trigger] g[i]).origin is Retry || g[i].origin is ElevateModel
                || g[i].origin is Split),
{
    let retry = |n: NodeView| n.origin is Retry;
    let elevate = |n: NodeView| n.origin is ElevateModel;
    let split = |n: NodeView| n.origin is Split;
    lemma_count(g, retry);
    lemma_count(g, elevate);
    lemma_count(g, split);
    lemma_some_counts(g, retry);
    lemma_some_counts(g, elevate);
    lemma_some_counts(g, split);
    if summary.recovered {
        if count(g, retry) > 0 {
            let i = choose|i: int| 0 <= i < g.len() && retry(#[trigger] g[i]);
            assert(g[i].origin is Retry);
        } else if count(g, elevate) > 0 {
            let i = choose|i: int| 0 <= i < g.len() && elevate(#[trigger] g[i]);
            assert(g[i].origin is ElevateModel);
        } else {
            let i = choose|i: int| 0 <= i < g.len() && split(#[trigger] g[i]);
            assert(g[i].origin is Split);
        }
    }
    if exists|i: int|
        0 <= i < g.len() && ((#[trigger] g[i]).origin is Retry || g[i].origin is ElevateModel
            || g[i].origin is Split) {
        let i = choose|i: int|
            0 <= i < g.len() && ((#[trigger] g[i]).origin is Retry || g[i].origin is ElevateModel
                || g[i].origin is Split);
        assert(retry(g[i]) || elevate(g[i]) || split(g[i]));
    }
}

proof fn lemma_some_counts(g: Seq<NodeView>, p: spec_fn(NodeView) -> bool)
    ensures
        (count(g, p) > 0) == exists|i: int| 0 <= i < g.len() && p(#[trigger] g[i]),
    decreases g.len(),
{
    if g.len() > 0 {
        let front = g.drop_last();
        lemma_some_counts(front, p);
        if count(front, p) > 0 {
            let i = choose|i: int| 0 <= i < front.len() && p(#[trigger] front[i]);
            assert(p(g[i]));
        }
        if exists|i: int| 0 <= i < g.len() && p(#[trigger] g[i]) {
            let i = choose|i: int| 0 <= i < g.len() && p(#[trigger] g[i]);
            if i < g.len() - 1 {
                assert(p(front[i]));
            }
        }
    }
}

/// A checkpoint is due while a run goes on and checkpoints go somewhere; it
/// counts the nodes and those that are completed.
pub proof fn law_checkpoints_are_due_while_runs_go_on(dir: Option<Text>, s: StateView)
    ensures
        match (dir, s) {
            (Some(d), StateView::Active { graph, .. }) => checkpoint::due(dir, s) matches Some(c)
                && c.dir == d && c.node_count == graph.len() && c.completed_count == count(
                graph,
                |n: NodeView| n.status is Completed,
            ),
            (Some(d), StateView::Waiting { graph, .. }) => checkpoint::due(dir, s) matches Some(c)
                && c.dir == d && c.node_count == graph.len() && c.completed_count == count(
                graph,
                |n: NodeView| n.status is Completed,
            ),
            _ => checkpoint::due(dir, s) is None,
        },
{
    let completed = |n: NodeView| n.status is Completed;
    match s {
        StateView::Active { graph, .. } => {
            lemma_count(graph, completed);
        },
        StateView::Waiting { graph, .. } => {
            lemma_count(graph, completed);
        },
        _ => {},
    }
}

/// The record of an effect names the machine and the effect, and where the
/// effect is an attempt at a node, the node and the attempt.
pub proof fn law_records_name_the_attempt(effect: EffectView, rendered: Text)
    ensures
        ({
            let record = telemetry::emitted(effect, rendered);
            &&& record.source == "SchedulerMachine"@
            &&& record.event == (TelemetryEventView::EffectEmitted {
                machine: "SchedulerMachine"@,
                effect: rendered,
            })
            &&& match effect {
                EffectView::RunNode { node_id, attempt, .. } => record.node_id == Some(node_id)
                    && record.attempt == Some(attempt),
                EffectView::IntegrateWork { node_id, attempt, .. } => record.node_id == Some(
                    node_id,
                ) && record.attempt == Some(attempt),
                EffectView::IntegratePlannerTasks { .. } => record.node_id is None
                    && record.attempt is None,
            }
        }),
{
}

/// Every result is announced, and each line names its node; a failure is
/// announced with its recovery on a second line. A tick is not announced.
pub proof fn law_results_are_announced(event: EventView)
    ensures
        progress::lines_for(event).len() == if event is Start {
            0
        } else if event is NodeFailed {
            2int
        } else {
            1
        },
        forall|i: int|
            0 <= i < progress::lines_for(event).len() ==> ends_with(
                #[trigger] progress::lines_for(event)[i],
                node_ids::short_text(results::subject(event)),
            ),
{
    let id = node_ids::short_text(results::subject(event));
    let lines = progress::lines_for(event);
    assert forall|i: int| 0 <= i < lines.len() implies ends_with(#[trigger] lines[i], id) by {
        assert(lines[i].skip(lines[i].len() - id.len()) =~= id);
    }
}

/// The text ends with the other.
pub open spec fn ends_with(s: Text, end: Text) -> bool {
    s.len() >= end.len() && s.skip(s.len() - end.len()) == end
}

/// The nodes with a status are counted one for one.
pub proof fn law_completed_nodes_are_counted(g: Seq<NodeView>)
    ensures
        queries::completed_count(g) == count(g, |n: NodeView| n.status is Completed),
{
    lemma_count(g, |n: NodeView| n.status is Completed);
}

} // verus!
