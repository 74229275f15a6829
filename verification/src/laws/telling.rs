//! What is looked up, named and told of graphs, nodes and commands.

use vstd::prelude::*;

use crate::cli;
use crate::dispatch;
use crate::event::EventView;
use crate::failure;
use crate::failure::{ExhaustedAction, ReasonView};
use crate::graph::{NodeKind, NodeStatus, NodeView};
use crate::integration;
use crate::invariants;
use crate::laws::plain;
use crate::laws::results;
use crate::laws::ticks;
use crate::laws::wording;
use crate::machine;
use crate::manifest;
use crate::manifest::TaskRecordView;
use crate::mutations;
use crate::node_ids;
use crate::node_runner;
use crate::node_runner::RunResultView;
use crate::progress;
use crate::queries;
use crate::search;
use crate::state::StateView;
use crate::teams::{ConfigView, TeamView};
use crate::text;
use crate::text::Text;
use crate::triggers;
use crate::types::{RecoveryView, RequestView};
use crate::validation;
use crate::workspace_changes;
use crate::workspace_changes::CommandOutput;

verus! {

// ── looking up ─────────────────────────────────────────────────────────────

/// A node is found by its id, the first that carries it; where none does,
/// nothing is found.
pub proof fn law_the_first_node_of_an_id_is_found(g: Seq<NodeView>, id: Text)
    ensures
        forall|i: int| #[trigger] plain::is_first(g, id, i) ==> queries::lookup(g, id) == Some(g[i]),
        queries::lookup(g, id) is Some == plain::known(g, id),
{
    assert forall|i: int| #[trigger] plain::is_first(g, id, i) implies queries::lookup(g, id)
        == Some(g[i]) by {
        assert(queries::first_at(g, id, i));
        queries::lemma_lookup_at(g, id, i);
    }
    queries::lemma_lookup_some(g, id);
    plain::lemma_words(g);
}

/// The active nodes are those in flight, all of them and in order.
pub proof fn law_active_nodes_are_those_in_flight(g: Seq<NodeView>) -> (at: Seq<int>)
    ensures
        at.len() == queries::active(g).len(),
        forall|p: int|
            0 <= p < at.len() ==> 0 <= #[trigger] at[p] < g.len() && plain::is_in_flight(g[at[p]])
                && queries::active(g)[p] == g[at[p]],
        forall|p: int, q: int| 0 <= p < q < at.len() ==> #[trigger] at[p] < #[trigger] at[q],
        forall|i: int|
            0 <= i < g.len() && plain::is_in_flight(#[trigger] g[i]) ==> at.contains(i),
{
    let pred = |n: NodeView| queries::is_active(n);
    let at = plain::lemma_kept(g, pred);
    assert forall|p: int| 0 <= p < at.len() implies 0 <= #[trigger] at[p] < g.len()
        && plain::is_in_flight(g[at[p]]) && queries::active(g)[p] == g[at[p]] by {
        assert(pred(g[at[p]]));
    }
    assert forall|i: int|
        0 <= i < g.len() && plain::is_in_flight(#[trigger] g[i]) implies at.contains(i) by {
        assert(pred(g[i]));
    }
    at
}

/// An event names the node it is about.
pub proof fn law_events_name_their_node(event: EventView)
    ensures
        machine::node_of(event) == results::subject(event),
{
}

// ── messages ───────────────────────────────────────────────────────────────

proof fn lemma_part(a: Text, part: Text, b: Text)
    ensures
        text::occurs_in(part, a + part + b),
{
    let whole = a + part + b;
    assert(whole.subrange(a.len() as int, a.len() as int + part.len() as int) =~= part);
    assert(text::occurs_at(part, whole, a.len() as int));
}

/// A graph that is not whole is told by an id that is wrong: one that two
/// nodes carry, or one that a node names and none carries.
pub proof fn law_broken_graphs_are_told_by_an_id(g: Seq<NodeView>)
    ensures
        invariants::graph_violation(g) matches Some(message) ==> exists|id: Text|
            #[trigger] text::occurs_in(id, message) && ((exists|i: int, j: int|
                0 <= i < j < g.len() && (#[trigger] g[i]).id == id && (#[trigger] g[j]).id == id)
                || (!plain::known(g, id) && exists|i: int|
                0 <= i < g.len() && ((#[trigger] g[i]).dependencies.contains(id)
                    || !plain::source_known(g, g[i].origin)))),
{
    plain::lemma_words(g);
    let dup = invariants::duplicate_check(g);
    let dep = invariants::dependencies_check(g);
    let org = invariants::origin_check(g);
    if invariants::graph_violation(g) is Some {
        let message = invariants::graph_violation(g)->0;
        if search::first_some(g.len(), dup) is Some {
            let j = search::lemma_first_some_found(g.len(), dup);
            let i = choose|i: int| 0 <= i < g.take(j).len() && (#[trigger] g.take(j)[i]).id
                == g[j].id;
            assert(g.take(j)[i] == g[i]);
            let lead = "duplicate node id: "@;
            assert(message =~= lead + g[j].id + Seq::<char>::empty());
            lemma_part(lead, g[j].id, Seq::empty());
            assert(text::occurs_in(g[j].id, message));
        } else if search::first_some(g.len(), dep) is Some {
            let i = search::lemma_first_some_found(g.len(), dep);
            let inner = invariants::dependency_check(g, g[i]);
            let k = search::lemma_first_some_found(g[i].dependencies.len(), inner);
            let id = g[i].dependencies[k];
            let lead = "missing dependency: node "@ + g[i].id + " depends on unknown id "@;
            assert(message =~= lead + id + Seq::<char>::empty());
            lemma_part(lead, id, Seq::empty());
            assert(text::occurs_in(id, message));
            assert(g[i].dependencies.contains(id));
        } else {
            let i = search::lemma_first_some_found(g.len(), org);
            let (source, action) = invariants::origin_source(g[i].origin)->0;
            let lead = "missing origin source: node "@ + g[i].id + " has "@ + action + " source "@;
            assert(message =~= lead + source + Seq::<char>::empty());
            lemma_part(lead, source, Seq::empty());
            assert(text::occurs_in(source, message));
            assert(!plain::source_known(g, g[i].origin));
        }
    }
}

/// A plan that refers to nothing known is told by the reference, quoted.
pub proof fn law_unknown_references_are_quoted(g: Seq<NodeView>, children: Seq<RequestView>)
    ensures
        invariants::plan_violation(g, children) matches Some(message) ==> exists|c: int, k: int|
            0 <= c < children.len() && 0 <= k < children[c].dependencies.len() && text::occurs_in(
                invariants::debug_quoted(#[trigger] children[c].dependencies[k]),
                message,
            ) && !plain::known(g, children[c].dependencies[k]) && forall|s: int|
                0 <= s < children.len() ==> (#[trigger] children[s]).id
                    != children[c].dependencies[k],
{
    plain::lemma_words(g);
    let check = invariants::child_check(g, children);
    if invariants::plan_violation(g, children) is Some {
        let c = search::lemma_first_some_found(children.len(), check);
        let d = children[c].dependencies;
        let inner = invariants::reference_check(g, children, d);
        let k = search::lemma_first_some_found(d.len(), inner);
        let quoted = invariants::debug_quoted(d[k]);
        lemma_quoted(quoted);
        assert(!invariants::names_sibling(children, d[k]));
        assert(text::occurs_in(
            invariants::debug_quoted(children[c].dependencies[k]),
            invariants::plan_violation(g, children)->0,
        ));
    }
}

proof fn lemma_quoted(quoted: Text)
    ensures
        text::occurs_in(quoted, invariants::unknown_reference(quoted)),
{
    let lead = "plan output references unknown node id: "@;
    assert(invariants::unknown_reference(quoted) =~= lead + quoted + Seq::<char>::empty());
    lemma_part(lead, quoted, Seq::empty());
}

/// A run that cannot complete for want of a required file is told by the file
/// and by the work that requires it.
pub proof fn law_missing_files_are_named(g: Seq<NodeView>)
    ensures
        invariants::missing_tests(g) matches Some(message) ==> exists|i: int, k: int|
            0 <= i < g.len() && g[i].kind is Work && g[i].status is Completed && 0 <= k
                < g[i].required_validation_targets.len() && text::occurs_in(
                #[trigger] g[i].required_validation_targets[k],
                message,
            ) && text::occurs_in(g[i].id, message),
{
    let check = invariants::tests_check(g);
    if invariants::missing_tests(g) is Some {
        let message = invariants::missing_tests(g)->0;
        let i = search::lemma_first_some_found(g.len(), check);
        let inner = invariants::required_check(g, g[i]);
        let k = search::lemma_first_some_found(g[i].required_validation_targets.len(), inner);
        let file = g[i].required_validation_targets[k];
        let a = "required test target '"@;
        let b = "' for node "@;
        let c = " was not completed"@;
        assert(message =~= a + file + (b + g[i].id + c));
        lemma_part(a, file, b + g[i].id + c);
        assert(message =~= (a + file + b) + g[i].id + c);
        lemma_part(a + file + b, g[i].id, c);
        assert(text::occurs_in(g[i].required_validation_targets[k], message));
    }
}

/// A result for a node that is not in flight is told by what came and for
/// which node.
pub proof fn law_stray_results_are_named(g: Seq<NodeView>, slots: nat, id: Text, label: Text)
    requires
        0 < plain::in_flight(g) <= slots,
    ensures
        match invariants::delivery_violation(g, slots, id, label) {
            Some(message) => text::occurs_in(id, message) && text::occurs_in(label, message) && !(
            exists|i: int|
                0 <= i < g.len() && plain::is_in_flight(#[trigger] g[i]) && g[i].id == id),
            None => exists|i: int|
                0 <= i < g.len() && plain::is_in_flight(#[trigger] g[i]) && g[i].id == id,
        },
{
    let ids = queries::ids_of(queries::active(g));
    let at = law_active_nodes_are_those_in_flight(g);
    plain::lemma_in_flight(g);
    if ids.contains(id) {
        let p = choose|p: int| 0 <= p < ids.len() && ids[p] == id;
        assert(g[at[p]].id == id);
    } else {
        assert forall|i: int|
            0 <= i < g.len() && plain::is_in_flight(#[trigger] g[i]) implies g[i].id != id by {
            let p = choose|p: int| 0 <= p < at.len() && at[p] == i;
            assert(ids[p] == g[i].id);
        }
        let message = invariants::delivery_violation(g, slots, id, label)->0;
        let none: Text = Seq::empty();
        let between = if ids.len() == 1 {
            " for node "@ + ids[0] + " but received "@
        } else {
            " for one of nodes "@ + text::join(ids, ", "@) + " but received "@
        };
        assert(message =~= "expected "@ + label + (between + id));
        lemma_part("expected "@, label, between + id);
        assert(message =~= ("expected "@ + label + between) + id + none);
        lemma_part("expected "@ + label + between, id, none);
    }
}

/// Statuses, kinds, recoveries and exhausted actions are called what they are.
pub proof fn law_names_say_what_is_named(
    status: NodeStatus,
    kind: NodeKind,
    recovery: RecoveryView,
    action: ExhaustedAction,
)
    ensures
        status is Pending <==> invariants::status_name(status) == "Pending"@,
        status is Running <==> invariants::status_name(status) == "Running"@,
        status is Integrating <==> invariants::status_name(status) == "Integrating"@,
        status is Completed <==> invariants::status_name(status) == "Completed"@,
        status is Failed <==> invariants::status_name(status) == "Failed"@,
        status is Cancelled <==> invariants::status_name(status) == "Cancelled"@,
        kind is Plan <==> invariants::kind_name(kind) == "Plan"@,
        kind is Work <==> invariants::kind_name(kind) == "Work"@,
        recovery is Retry <==> progress::recovery_name(recovery) == "Retry"@,
        recovery is Split <==> progress::recovery_name(recovery) == "Split"@,
        recovery is ElevateModel <==> progress::recovery_name(recovery) == "ElevateModel"@,
        recovery is Terminal <==> progress::recovery_name(recovery) == "Terminal"@,
        action is Retry <==> failure::action_name(action) == "Retry"@,
        action is Split <==> failure::action_name(action) == "Split"@,
        action is ElevateModel <==> failure::action_name(action) == "ElevateModel"@,
{
    reveal_strlit("Pending");
    reveal_strlit("Running");
    reveal_strlit("Integrating");
    reveal_strlit("Completed");
    reveal_strlit("Failed");
    reveal_strlit("Cancelled");
    reveal_strlit("Plan");
    reveal_strlit("Work");
    reveal_strlit("Retry");
    reveal_strlit("Split");
    reveal_strlit("ElevateModel");
    reveal_strlit("Terminal");
    assert("Pending"@[0] == 'P' && "Plan"@[0] == 'P' && "Work"@[0] == 'W');
    assert("Running"@[0] == 'R' && "Integrating"@[0] == 'I' && "Completed"@[1] == 'o');
    assert("Failed"@[0] == 'F' && "Cancelled"@[1] == 'a' && "Cancelled"@[0] == 'C');
    assert("Completed"@[0] == 'C' && "Retry"@[0] == 'R' && "Split"@[0] == 'S');
    assert("ElevateModel"@[0] == 'E' && "Terminal"@[0] == 'T');
}

/// What is announced of a result: whether it came of a runner or of
/// integration, whether it failed, and with which recovery.
pub proof fn law_announcements_say_what_happened(event: EventView)
    ensures
        ({
            let lines = progress::lines_for(event);
            let name = node_ids::short_text(results::subject(event));
            match event {
                EventView::Start => lines.len() == 0,
                EventView::NodeFailed { failure, .. } => lines[0] == "[scheduler] failed "@ + name
                    && text::occurs_in(progress::recovery_name(failure.recovery), lines[1]),
                EventView::PlanAccepted { .. } => lines[0] == "[scheduler] returned "@ + name,
                EventView::WorkAccepted { .. } => lines[0] == "[scheduler] returned "@ + name,
                EventView::IntegrationSucceeded { .. } => lines[0] == "[integration] complete "@
                    + name,
                EventView::PlannerTasksIntegrated { .. } => lines[0] == "[integration] complete "@
                    + name,
                _ => lines[0] == "[integration] failed "@ + name,
            }
        }),
{
    if let EventView::NodeFailed { failure, node_id } = event {
        let name = node_ids::short_text(node_id);
        let word = progress::recovery_name(failure.recovery);
        assert(progress::lines_for(event)[1] =~= "[scheduler] recovery "@ + word + (" "@ + name));
        lemma_part("[scheduler] recovery "@, word, " "@ + name);
    }
}

/// A result of a node that is not running is told by the node and by where the
/// node is.
pub proof fn law_early_returns_are_told_by_the_node(g: Seq<NodeView>, id: Text, i: int)
    requires
        plain::is_first(g, id, i),
    ensures
        invariants::return_violation(g, id) matches Some(message) ==> text::occurs_in(id, message)
            && text::occurs_in(invariants::status_name(g[i].status), message),
{
    law_the_first_node_of_an_id_is_found(g, id);
    if let Some(message) = invariants::return_violation(g, id) {
        lemma_two_parts(
            message,
            "protocol violation: NodeReturned for node "@,
            id,
            " expected Running but found "@,
            invariants::status_name(g[i].status),
            Seq::empty(),
        );
    }
}

/// An integration of a node of another kind, or of one that is not being
/// integrated, is told by the node, by what the node is, and by what came.
pub proof fn law_misfits_are_told_by_the_node(
    g: Seq<NodeView>,
    id: Text,
    wanted: NodeKind,
    event: Text,
    i: int,
)
    requires
        plain::is_first(g, id, i),
    ensures
        invariants::integration_violation(g, id, wanted, event) matches Some(message)
            ==> text::occurs_in(id, message) && text::occurs_in(event, message)
            && text::occurs_in(
            if g[i].kind != wanted {
                invariants::kind_name(g[i].kind)
            } else {
                invariants::status_name(g[i].status)
            },
            message,
        ),
{
    law_the_first_node_of_an_id_is_found(g, id);
    if let Some(message) = invariants::integration_violation(g, id, wanted, event) {
        let (found, between, tail) = if g[i].kind != wanted {
            (
                invariants::kind_name(g[i].kind),
                " is "@,
                " requires a "@ + invariants::kind_name(wanted) + " node"@,
            )
        } else {
            (invariants::status_name(g[i].status), " has status "@, " requires Integrating"@)
        };
        let rest = " but "@ + event + tail;
        assert(message =~= "node "@ + id + between + found + rest);
        lemma_two_parts(message, "node "@, id, between, found, rest);
        let front = "node "@ + id + between + found + " but "@;
        assert(message =~= front + event + tail);
        lemma_part(front, event, tail);
    }
}

/// Both of two parts of a text occur in it.
proof fn lemma_two_parts(whole: Text, a: Text, first: Text, b: Text, second: Text, c: Text)
    requires
        whole =~= a + first + b + second + c,
    ensures
        text::occurs_in(first, whole),
        text::occurs_in(second, whole),
{
    assert(whole =~= a + first + (b + second + c));
    lemma_part(a, first, b + second + c);
    assert(whole =~= (a + first + b) + second + c);
    lemma_part(a + first + b, second, c);
}

/// A result for a node that is nowhere is told by its id.
pub proof fn law_unknown_nodes_are_told(
    g: Seq<NodeView>,
    id: Text,
    wanted: NodeKind,
    event: Text,
)
    requires
        !plain::known(g, id),
    ensures
        invariants::return_violation(g, id) matches Some(message) && text::occurs_in(id, message),
        invariants::integration_violation(g, id, wanted, event) matches Some(message)
            && text::occurs_in(id, message),
{
    law_the_first_node_of_an_id_is_found(g, id);
    lemma_part("node "@, id, " not found in graph"@);
}

/// A tick without room is told by the first node that is in flight.
pub proof fn law_ticks_without_room_are_told(g: Seq<NodeView>, config: ConfigView, ids: Seq<Text>)
    requires
        plain::is_whole(g),
        plain::in_flight(g) >= plain::room(config),
    ensures
        ticks::tick(g, config, ids).state matches StateView::Failed {
            reason: ReasonView::ProtocolViolation(detail),
            ..
        } && exists|i: int|
            0 <= i < g.len() && plain::is_in_flight(#[trigger] g[i]) && text::occurs_in(
                g[i].id,
                detail,
            ) && forall|j: int| 0 <= j < i ==> !plain::is_in_flight(#[trigger] g[j]),
{
    ticks::law_ticks_turn_out_so(g, config, ids);
    plain::lemma_whole(g);
    plain::lemma_in_flight(g);
    let at = law_active_nodes_are_those_in_flight(g);
    let n = g[at[0]];
    let status = invariants::status_name(n.status);
    lemma_part("invalid running state: node "@, n.id, " is "@ + status);
    assert("invalid running state: node "@ + n.id + " is "@ + status
        =~= "invalid running state: node "@ + n.id + (" is "@ + status));
    assert forall|j: int| 0 <= j < at[0] implies !plain::is_in_flight(#[trigger] g[j]) by {
        if plain::is_in_flight(g[j]) {
            let p = choose|p: int| 0 <= p < at.len() && at[p] == j;
            assert(p == 0 || at[0] < at[p]);
        }
    }
}

/// A deadlock over a dependency that no node carries is told by the node that
/// waits and by what it waits for.
pub proof fn law_deadlocks_name_what_is_missing(g: Seq<NodeView>, i: int, k: int)
    requires
        0 <= i < g.len(),
        g[i].status is Pending,
        0 <= k < g[i].dependencies.len(),
        !plain::known(g, g[i].dependencies[k]),
    ensures
        exists|j: int, l: int|
            0 <= j < g.len() && g[j].status is Pending && 0 <= l < g[j].dependencies.len()
                && !plain::known(g, #[trigger] g[j].dependencies[l]) && text::occurs_in(
                g[j].id,
                invariants::deadlock_message(g),
            ) && text::occurs_in(g[j].dependencies[l], invariants::deadlock_message(g)),
{
    plain::lemma_words(g);
    let check = invariants::pending_check(g);
    search::lemma_first_some_none(g.len(), check);
    search::lemma_first_some_none(g[i].dependencies.len(), invariants::blocked_check(g, g[i]));
    assert(invariants::blocked_check(g, g[i])(k) is Some);
    assert(check(i) is Some);
    let j = search::lemma_first_some_found(g.len(), check);
    let inner = invariants::blocked_check(g, g[j]);
    let l = search::lemma_first_some_found(g[j].dependencies.len(), inner);
    let id = g[j].dependencies[l];
    let message = invariants::deadlock_message(g);
    let a = "pending node "@;
    let b = " has missing dependency "@;
    let none: Text = Seq::empty();
    assert(message =~= a + g[j].id + (b + id));
    lemma_part(a, g[j].id, b + id);
    assert(message =~= (a + g[j].id + b) + id + none);
    lemma_part(a + g[j].id + b, id, none);
    assert(!plain::known(g, g[j].dependencies[l]));
}

/// A plan that nests too deep is told by its depth and the limit.
pub proof fn law_depths_are_told(parent_depth: usize, children: Seq<RequestView>)
    requires
        parent_depth < usize::MAX,
    ensures
        match mutations::depth_violation(parent_depth, children) {
            Some(message) => exists|c: int|
                0 <= c < children.len() && results::nested(
                    parent_depth,
                    (#[trigger] children[c]).kind,
                ) > 10 && text::occurs_in(
                    text::decimal(results::nested(parent_depth, children[c].kind) as nat),
                    message,
                ) && text::occurs_in(text::decimal(10), message),
            None => forall|c: int|
                0 <= c < children.len() ==> results::nested(
                    parent_depth,
                    (#[trigger] children[c]).kind,
                ) <= 10,
        },
{
    let check = mutations::depth_check(parent_depth, children);
    search::lemma_first_some_none(children.len(), check);
    if mutations::depth_violation(parent_depth, children) is Some {
        let c = search::lemma_first_some_found(children.len(), check);
        let d = text::decimal(results::nested(parent_depth, children[c].kind) as nat);
        let limit = text::decimal(10);
        let a = "plan depth limit exceeded: requested depth "@;
        let b = "; limit is "@;
        let none: Text = Seq::empty();
        let message = mutations::depth_violation(parent_depth, children)->0;
        assert(message =~= a + d + (b + limit));
        lemma_part(a, d, b + limit);
        assert(message =~= (a + d + b) + limit + none);
        lemma_part(a + d + b, limit, none);
    } else {
        assert forall|c: int| 0 <= c < children.len() implies results::nested(
            parent_depth,
            (#[trigger] children[c]).kind,
        ) <= 10 by {
            assert(check(c) is None);
        }
    }
}

/// Files that cannot be told are told by the team and the task, and by the
/// file where there is one.
pub proof fn law_missing_targets_are_told(team: TeamView, row: TaskRecordView)
    ensures
        triggers::task_files(team, row) matches Err(message) ==> text::occurs_in(
            team.name,
            message,
        ) && text::occurs_in(row.id, message) && (manifest::field_value(
            row.task_kv,
            "file_path"@,
        ) matches Some(path) ==> text::occurs_in(path, message)),
{
    if let Err(message) = triggers::task_files(team, row) {
        let a = "team '"@;
        match manifest::field_value(row.task_kv, "file_path"@) {
            None => {
                let b = "': task "@;
                let c = " records no file_path"@;
                assert(message =~= a + team.name + (b + row.id + c));
                lemma_part(a, team.name, b + row.id + c);
                assert(message =~= (a + team.name + b) + row.id + c);
                lemma_part(a + team.name + b, row.id, c);
            },
            Some(path) => {
                let b = "': no validation-target derivation applies to '"@;
                let c = "' (task "@;
                assert(message =~= a + team.name + (b + path + c + row.id + ")"@));
                lemma_part(a, team.name, b + path + c + row.id + ")"@);
                assert(message =~= (a + team.name + b) + path + (c + row.id + ")"@));
                lemma_part(a + team.name + b, path, c + row.id + ")"@);
                assert(message =~= (a + team.name + b + path + c) + row.id + ")"@);
                lemma_part(a + team.name + b + path + c, row.id, ")"@);
            },
        }
    }
}

/// The reason of a failed run names what it is about: the node and its
/// attempts, the limit, the team and its tasks, or what was found.
pub proof fn law_reasons_name_what_they_are_about(reason: ReasonView)
    ensures
        ({
            let message = failure::reason_message(reason);
            match reason {
                ReasonView::GraphInvariantViolation(detail) => message == detail,
                ReasonView::ProtocolViolation(detail) => text::occurs_in(detail, message),
                ReasonView::Deadlock(detail) => message == detail,
                ReasonView::AttemptsExhausted { node_id, max_attempts, .. } => text::occurs_in(
                    node_id,
                    message,
                ) && text::occurs_in(text::decimal(max_attempts as nat), message),
                ReasonView::NoHigherModelTierAvailable { node_id, max_attempts } =>
                    text::occurs_in(node_id, message) && text::occurs_in(
                    text::decimal(max_attempts as nat),
                    message,
                ),
                ReasonView::GraphCapacityExceeded { limit } => text::occurs_in(
                    text::decimal(limit as nat),
                    message,
                ),
                ReasonView::PlanDepthExceeded { limit } => text::occurs_in(
                    text::decimal(limit as nat),
                    message,
                ),
                ReasonView::TerminalRecovery { terminal_message, failure_message } =>
                    text::occurs_in(terminal_message, message) && text::occurs_in(
                    failure_message,
                    message,
                ),
                ReasonView::RequiredTestTargetsMissing(detail) => message == detail,
                ReasonView::TargetDerivationFailed(detail) => message == detail,
                ReasonView::TerminalTeamIncomplete { team, task_ids } => text::occurs_in(
                    team,
                    message,
                ) && text::occurs_in(text::join(task_ids, ", "@), message),
            }
        }),
{
    let message = failure::reason_message(reason);
    let none: Text = Seq::empty();
    match reason {
        ReasonView::ProtocolViolation(detail) => {
            assert(message =~= "protocol violation: "@ + detail + none);
            lemma_part("protocol violation: "@, detail, none);
        },
        ReasonView::AttemptsExhausted { node_id, max_attempts, recovery_action } => {
            let n = text::decimal(max_attempts as nat);
            let tail = " attempts ("@ + failure::action_name(recovery_action) + ")"@;
            assert(message =~= "node "@ + node_id + (" exhausted all "@ + n + tail));
            lemma_part("node "@, node_id, " exhausted all "@ + n + tail);
            assert(message =~= ("node "@ + node_id + " exhausted all "@) + n + tail);
            lemma_part("node "@ + node_id + " exhausted all "@, n, tail);
        },
        ReasonView::NoHigherModelTierAvailable { node_id, max_attempts } => {
            let n = text::decimal(max_attempts as nat);
            let tail = " attempts; no higher model tier available"@;
            assert(message =~= "node "@ + node_id + (" exhausted all "@ + n + tail));
            lemma_part("node "@, node_id, " exhausted all "@ + n + tail);
            assert(message =~= ("node "@ + node_id + " exhausted all "@) + n + tail);
            lemma_part("node "@ + node_id + " exhausted all "@, n, tail);
        },
        ReasonView::GraphCapacityExceeded { limit } => {
            let n = text::decimal(limit as nat);
            assert(message =~= "graph size limit exceeded; limit is "@ + n + none);
            lemma_part("graph size limit exceeded; limit is "@, n, none);
        },
        ReasonView::PlanDepthExceeded { limit } => {
            let n = text::decimal(limit as nat);
            assert(message =~= "plan depth limit exceeded; limit is "@ + n + none);
            lemma_part("plan depth limit exceeded; limit is "@, n, none);
        },
        ReasonView::TerminalRecovery { terminal_message, failure_message } => {
            wording::law_terminal_failures_are_told_whole(terminal_message, failure_message);
        },
        ReasonView::TerminalTeamIncomplete { team, task_ids } => {
            let tasks = text::join(task_ids, ", "@);
            let lead = "terminal team '"@;
            let between = "' has not completed tasks: "@;
            assert(message =~= lead + team + (between + tasks));
            lemma_part(lead, team, between + tasks);
            assert(message =~= (lead + team + between) + tasks + none);
            lemma_part(lead + team + between, tasks, none);
        },
        _ => {},
    }
}

/// The label of a node names it, and a worker's names its role.
pub proof fn law_labels_name_nodes_and_roles(kind: NodeKind, id: Text, role: Text)
    ensures
        text::occurs_in(node_ids::short_text(id), dispatch::label(kind, id, None)),
        text::occurs_in(node_ids::short_text(id), dispatch::label(kind, id, Some(role))),
        text::occurs_in(role, dispatch::label(NodeKind::Work, id, Some(role))),
        dispatch::label(NodeKind::Plan, id, Some(role)) == dispatch::label(NodeKind::Plan, id, None),
{
    let short = node_ids::short_text(id);
    lemma_part("[planner "@, short, "]"@);
    lemma_part("[worker "@, short, "]"@);
    let whole = dispatch::label(NodeKind::Work, id, Some(role));
    assert(whole =~= "[worker "@ + short + ("/"@ + role + "]"@));
    lemma_part("[worker "@, short, "/"@ + role + "]"@);
    assert(whole =~= ("[worker "@ + short + "/"@) + role + "]"@);
    lemma_part("[worker "@ + short + "/"@, role, "]"@);
}

/// An instance is reached at its host and port once it has both.
pub proof fn law_addresses_need_host_and_port(host: Option<Text>, port: Option<u16>)
    ensures
        match (host, port) {
            (Some(h), Some(p)) => cli::address(host, port) == h + ":"@ + text::decimal(p as nat),
            _ => cli::address(host, port) == "not ready"@,
        },
{
}

/// The id of an attempt tells the node and the attempt.
pub proof fn law_attempts_are_told_apart(node_id: Text, first: u32, second: u32)
    ensures
        text::occurs_in(node_id, integration::attempt_text(node_id, first)),
        integration::attempt_text(node_id, first) == integration::attempt_text(node_id, second)
            ==> first == second,
{
    let a = integration::attempt_text(node_id, first);
    let b = integration::attempt_text(node_id, second);
    let n = text::decimal(first as nat);
    let m = text::decimal(second as nat);
    assert(a =~= Seq::<char>::empty() + node_id + (":"@ + n));
    lemma_part(Seq::empty(), node_id, ":"@ + n);
    if a == b {
        let lead = (node_id + ":"@).len() as int;
        assert(a.skip(lead) =~= n);
        assert(b.skip(lead) =~= m);
        wording::law_numbers_are_written_in_digits(first as nat);
        wording::law_numbers_are_written_in_digits(second as nat);
    }
}

/// The runner for dry runs fails what asks for a failure, plans nothing for
/// plans, and accepts other work.
pub proof fn law_dry_runs_do_as_they_are_told(kind: NodeKind, objective: Text)
    ensures
        match node_runner::static_result(kind, objective) {
            RunResultView::Failed(failure) => text::occurs_in("fail"@, objective)
                && failure.recovery is Terminal,
            RunResultView::PlanAccepted { children, tasks } => !text::occurs_in(
                "fail"@,
                objective,
            ) && kind is Plan && children.len() == 0 && tasks.len() == 0,
            RunResultView::WorkAccepted { .. } => !text::occurs_in("fail"@, objective)
                && kind is Work,
        },
{
}

// ── commands ───────────────────────────────────────────────────────────────

proof fn lemma_named(lines: Seq<Text>, k: int) -> (at: Seq<int>)
    requires
        0 <= k <= lines.len(),
    ensures
        at.len() == workspace_changes::status_paths(lines, k).len(),
        forall|p: int|
            0 <= p < at.len() ==> 0 <= #[trigger] at[p] < k && workspace_changes::status_path(
                lines[at[p]],
            ) == Some(workspace_changes::status_paths(lines, k)[p]),
        forall|p: int, q: int| 0 <= p < q < at.len() ==> #[trigger] at[p] < #[trigger] at[q],
        forall|i: int|
            0 <= i < k && workspace_changes::status_path(#[trigger] lines[i]) is Some
                ==> at.contains(i),
    decreases k,
{
    if k == 0 {
        Seq::empty()
    } else {
        let before = lemma_named(lines, k - 1);
        if workspace_changes::status_path(lines[k - 1]) is Some {
            let at = before.push(k - 1);
            assert forall|i: int|
                0 <= i < k && workspace_changes::status_path(
                    #[trigger] lines[i],
                ) is Some implies at.contains(i) by {
                if i < k - 1 {
                    let p = choose|p: int| 0 <= p < before.len() && before[p] == i;
                    assert(at[p] == i);
                } else {
                    assert(at[before.len() as int] == i);
                }
            }
            at
        } else {
            before
        }
    }
}

/// A command that failed or could not be run names no changed files. One that
/// succeeded names those of its lines, in order: a line that names a file is
/// never passed over, and no other file is named.
pub proof fn law_changed_files_are_those_listed(output: CommandOutput) -> (at: Seq<int>)
    ensures
        workspace_changes::paths_of(None).len() == 0,
        !output.success ==> workspace_changes::paths_of(Some(output)).len() == 0,
        output.success ==> {
            let lines = text::lines(output.stdout@);
            let paths = workspace_changes::paths_of(Some(output));
            &&& at.len() == paths.len()
            &&& forall|p: int|
                0 <= p < at.len() ==> 0 <= #[trigger] at[p] < lines.len()
                    && workspace_changes::status_path(lines[at[p]]) == Some(paths[p])
            &&& forall|p: int, q: int|
                0 <= p < q < at.len() ==> #[trigger] at[p] < #[trigger] at[q]
            &&& forall|i: int|
                0 <= i < lines.len() && workspace_changes::status_path(
                    #[trigger] lines[i],
                ) is Some ==> at.contains(i)
        },
{
    let lines = text::lines(output.stdout@);
    lemma_named(lines, lines.len() as int)
}

proof fn lemma_encoded(a: Text, b: Text)
    ensures
        vstd::utf8::encode_utf8(a + b) == vstd::utf8::encode_utf8(a) + vstd::utf8::encode_utf8(b),
    decreases a.len(),
{
    if a.len() == 0 {
        assert(a + b =~= b);
        assert(vstd::utf8::encode_utf8(a) + vstd::utf8::encode_utf8(b)
            =~= vstd::utf8::encode_utf8(b));
    } else {
        lemma_encoded(a.drop_first(), b);
        assert((a + b).drop_first() =~= a.drop_first() + b);
        assert((a + b)[0] == a[0]);
        assert(vstd::utf8::encode_utf8(a + b) =~= vstd::utf8::encode_utf8(a)
            + vstd::utf8::encode_utf8(b));
    }
}

proof fn lemma_boundary(a: Text, b: Text)
    ensures
        vstd::utf8::is_char_boundary(
            vstd::utf8::encode_utf8(a + b),
            vstd::utf8::encode_utf8(a).len() as int,
        ),
    decreases a.len(),
{
    let bytes = vstd::utf8::encode_utf8(a + b);
    vstd::utf8::encode_utf8_valid_utf8(a + b);
    if a.len() > 0 {
        lemma_encoded(a, b);
        lemma_boundary(a.drop_first(), b);
        vstd::utf8::encode_utf8_first_scalar(a + b);
        assert((a + b).drop_first() =~= a.drop_first() + b);
        assert((a + b)[0] == a[0]);
        assert(vstd::utf8::pop_first_scalar(bytes) =~= vstd::utf8::encode_utf8(
            a.drop_first() + b,
        ));
    }
}

/// Texts that start with plain characters are cut behind them as one would
/// expect.
proof fn lemma_cut(a: Text, b: Text)
    requires
        vstd::utf8::is_ascii_chars(a),
    ensures
        ({
            let bytes = vstd::utf8::encode_utf8(a + b);
            &&& vstd::utf8::is_char_boundary(bytes, a.len() as int)
            &&& vstd::utf8::decode_utf8(bytes.subrange(0, a.len() as int)) == a
            &&& vstd::utf8::decode_utf8(bytes.subrange(a.len() as int, bytes.len() as int)) == b
        }),
{
    let bytes = vstd::utf8::encode_utf8(a + b);
    vstd::utf8::is_ascii_chars_encode_utf8(a);
    lemma_encoded(a, b);
    lemma_boundary(a, b);
    assert(bytes.subrange(0, a.len() as int) =~= vstd::utf8::encode_utf8(a));
    assert(bytes.subrange(a.len() as int, bytes.len() as int) =~= vstd::utf8::encode_utf8(b));
    vstd::utf8::encode_utf8_decode_utf8(a);
    vstd::utf8::encode_utf8_decode_utf8(b);
}

/// A status line names the path behind its three columns, without the white
/// space around it, if there is one.
pub proof fn law_status_lines_name_a_path(columns: Text, rest: Text)
    requires
        columns.len() == 3,
        vstd::utf8::is_ascii_chars(columns),
    ensures
        workspace_changes::status_path(columns + rest) == if wording::says_something(rest) {
            Some(text::trim(rest))
        } else {
            None
        },
{
    lemma_cut(columns, rest);
    wording::lemma_says(rest);
}

/// An id is shortened to its first eight characters.
pub proof fn law_ids_are_shortened_to_eight_characters(start: Text, rest: Text)
    requires
        start.len() == 8,
        vstd::utf8::is_ascii_chars(start),
    ensures
        node_ids::short_text(start + rest) == start,
{
    lemma_cut(start, rest);
}

/// A diff is what the command printed, or tells why there is none. Files that
/// are not tracked differ, so their command does not succeed; only errors
/// without output tell of a failure.
pub proof fn law_diffs_are_what_was_printed(path: Text, output: CommandOutput)
    ensures
        output.success ==> workspace_changes::tracked_diff(Some(output)) == output.stdout@,
        !output.success ==> text::occurs_in(
            text::trim(output.stderr@),
            workspace_changes::tracked_diff(Some(output)),
        ),
        output.stdout@.len() > 0 || output.success || output.stderr@.len() == 0
            ==> workspace_changes::new_file_diff(path, Some(output)) == output.stdout@,
        output.stdout@.len() == 0 && !output.success && output.stderr@.len() > 0
            ==> text::occurs_in(path, workspace_changes::new_file_diff(path, Some(output)))
            && text::occurs_in(
            text::trim(output.stderr@),
            workspace_changes::new_file_diff(path, Some(output)),
        ),
        text::occurs_in(path, workspace_changes::new_file_diff(path, None)),
{
    let said = text::trim(output.stderr@);
    lemma_part("(failed to collect git diff: "@, said, ")"@);
    let lead = "(failed to collect untracked diff for "@;
    lemma_part(lead, path, ")\n"@);
    let whole = lead + path + ": "@ + said + ")\n"@;
    assert(whole =~= lead + path + (": "@ + said + ")\n"@));
    lemma_part(lead, path, ": "@ + said + ")\n"@);
    lemma_part(lead + path + ": "@, said, ")\n"@);
}

// ── places in output ───────────────────────────────────────────────────────

/// The first place that output names is that of its first line that names one.
pub proof fn law_the_first_place_is_told(shown: Text)
    ensures
        match validation::first_location(shown) {
            Some(place) => exists|i: int|
                0 <= i < text::lines(shown).len() && validation::location_in(
                    #[trigger] text::lines(shown)[i],
                ) == Some(place) && forall|j: int|
                    0 <= j < i ==> validation::location_in(#[trigger] text::lines(shown)[j])
                        is None,
            None => forall|j: int|
                0 <= j < text::lines(shown).len() ==> validation::location_in(
                    #[trigger] text::lines(shown)[j],
                ) is None,
        },
{
    let lines = text::lines(shown);
    let check = validation::location_check(lines);
    search::lemma_first_some_none(lines.len(), check);
    if validation::first_location(shown) is Some {
        let i = search::lemma_first_some_found(lines.len(), check);
        assert forall|j: int| 0 <= j < i implies validation::location_in(#[trigger] lines[j])
            is None by {
            assert(check(j) is None);
        }
        assert(validation::location_in(lines[i]) == check(i));
    } else {
        assert forall|j: int| 0 <= j < lines.len() implies validation::location_in(
            #[trigger] lines[j],
        ) is None by {
            assert(check(j) is None);
        }
    }
}

/// A summary is told by its first line; one that says nothing is told as
/// empty.
pub proof fn law_summaries_are_told_by_their_first_line(s: Text)
    ensures
        !wording::says_something(s) ==> validation::in_one_line(s) == "(empty)"@,
        wording::says_something(s) ==> text::lines(text::trim(s)).len() > 0
            && validation::in_one_line(s) == text::trim(text::lines(text::trim(s))[0]),
{
    wording::lemma_says(s);
    let t = text::trim(s);
    if t.len() > 0 {
        search::lemma_first_some_none(t.len(), text::newline_check(t));
        if text::first_newline(t) is Some {
            let p = search::lemma_first_some_found(t.len(), text::newline_check(t));
        }
    }
}

} // verus!
