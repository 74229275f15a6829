//! Team triggers: what is requested, and that nothing is requested twice.

use vstd::prelude::*;

use crate::graph::NodeView;
use crate::machine;
use crate::manifest::TaskRecordView;
use crate::mutations;
use crate::queries;
use crate::teams::{ConfigView, TeamView};
use crate::text::Text;
use crate::triggers;
use crate::triggers::DecisionView;
use crate::types::RequestView;

verus! {

/// Requests for teams depend on nothing.
pub proof fn lemma_requests_depend_on_nothing(
    g: Seq<NodeView>,
    config: ConfigView,
    m: Seq<TaskRecordView>,
    k: int,
)
    ensures
        triggers::requests_upto(g, config, m, k) matches Ok(requests) ==> forall|i: int|
            0 <= i < requests.len() ==> (#[trigger] requests[i]).dependencies.len() == 0,
    decreases k,
{
    if k > 0 {
        lemma_requests_depend_on_nothing(g, config, m, k - 1);
        if let Ok(earlier) = triggers::requests_upto(g, config, m, k - 1) {
            let team = config.teams[k - 1];
            if let DecisionView::ForTasks(ids) = triggers::decision(team.trigger, team.name, m) {
                lemma_task_requests(g, earlier, team, config.terminal_teams, m, ids);
            }
            if let Ok(more) = triggers::team_requests(
                g,
                earlier,
                team,
                config.terminal_teams,
                m,
            ) {
                let requests = earlier + more;
                assert forall|i: int| 0 <= i < requests.len() implies (
                #[trigger] requests[i]).dependencies.len() == 0 by {
                    if i < earlier.len() {
                        assert(requests[i] == earlier[i]);
                    } else {
                        assert(requests[i] == more[i - earlier.len()]);
                    }
                }
            }
        }
    }
}

/// The request is one for a task of `ids` that is declared, whose
/// dependencies are met and for which the team has no node and no request.
pub open spec fn justified(
    g: Seq<NodeView>,
    requests: Seq<RequestView>,
    team: TeamView,
    terminal_teams: Seq<Text>,
    m: Seq<TaskRecordView>,
    ids: Seq<Text>,
    r: RequestView,
) -> bool {
    &&& r.team == team.name
    &&& r.dependencies.len() == 0
    &&& r.task_id matches Some(task) && ids.contains(task) && !triggers::is_requested(
        g,
        requests,
        team.name,
        Some(task),
    ) && (triggers::declared(m, task) matches Some(row) && triggers::dependencies_met(
        m,
        terminal_teams,
        row,
    ))
}

proof fn lemma_task_requests(
    g: Seq<NodeView>,
    requests: Seq<RequestView>,
    team: TeamView,
    terminal_teams: Seq<Text>,
    m: Seq<TaskRecordView>,
    ids: Seq<Text>,
)
    ensures
        triggers::task_requests(g, requests, team, terminal_teams, m, ids) matches Ok(out) ==> {
            forall|i: int|
                0 <= i < out.len() ==> justified(
                    g,
                    requests,
                    team,
                    terminal_teams,
                    m,
                    ids,
                    #[trigger] out[i],
                )
        },
    decreases ids.len(),
{
    if ids.len() > 0 {
        let part = ids.drop_last();
        lemma_task_requests(g, requests, team, terminal_teams, m, part);
        if let Ok(out) = triggers::task_requests(g, requests, team, terminal_teams, m, ids) {
            let earlier = triggers::task_requests(g, requests, team, terminal_teams, m, part)->Ok_0;
            assert forall|i: int| 0 <= i < out.len() implies justified(
                g,
                requests,
                team,
                terminal_teams,
                m,
                ids,
                #[trigger] out[i],
            ) by {
                assert(ids.contains(ids.last())) by {
                    assert(ids[ids.len() - 1] == ids.last());
                }
                if i < earlier.len() {
                    assert(out[i] == earlier[i]);
                    let task = earlier[i].task_id->0;
                    let x = choose|x: int| 0 <= x < part.len() && part[x] == task;
                    assert(ids[x] == task);
                }
            }
        }
    }
}

/// Different tasks of one team are requested at most once each.
proof fn lemma_task_requests_distinct(
    g: Seq<NodeView>,
    requests: Seq<RequestView>,
    team: TeamView,
    terminal_teams: Seq<Text>,
    m: Seq<TaskRecordView>,
    ids: Seq<Text>,
)
    requires
        ids.no_duplicates(),
    ensures
        triggers::task_requests(g, requests, team, terminal_teams, m, ids) matches Ok(out) ==> {
            forall|i: int, j: int|
                0 <= i < out.len() && 0 <= j < out.len() && i != j ==> (
                #[trigger] out[i]).task_id != (#[trigger] out[j]).task_id
        },
    decreases ids.len(),
{
    if ids.len() > 0 {
        let part = ids.drop_last();
        lemma_task_requests_distinct(g, requests, team, terminal_teams, m, part);
        lemma_task_requests(g, requests, team, terminal_teams, m, part);
        if let Ok(out) = triggers::task_requests(g, requests, team, terminal_teams, m, ids) {
            let earlier = triggers::task_requests(g, requests, team, terminal_teams, m, part)->Ok_0;
            assert forall|i: int, j: int|
                0 <= i < out.len() && 0 <= j < out.len() && i != j implies (
            #[trigger] out[i]).task_id != (#[trigger] out[j]).task_id by {
                let low = if i < j {
                    i
                } else {
                    j
                };
                if i < earlier.len() && j < earlier.len() {
                    assert(out[i] == earlier[i] && out[j] == earlier[j]);
                } else {
                    assert(out[low] == earlier[low]);
                    let task = earlier[low].task_id->0;
                    assert(part.contains(task));
                    let x = choose|x: int| 0 <= x < part.len() && part[x] == task;
                    assert(ids[x] == task);
                    assert(ids[x] != ids[ids.len() - 1]);
                }
            }
        }
    }
}

proof fn lemma_open_tasks(m: Seq<TaskRecordView>, after: Seq<Text>, team: Text, k: int)
    requires
        k <= m.len(),
    ensures
        triggers::open_tasks(m, after, team, k).no_duplicates(),
        forall|task: Text| #[trigger]
            triggers::open_tasks(m, after, team, k).contains(task) ==> triggers::completed_by_all(
                m,
                task,
                after,
            ) && !triggers::completed_by(m, task, team),
    decreases k,
{
    if k > 0 {
        lemma_open_tasks(m, after, team, k - 1);
        let earlier = triggers::open_tasks(m, after, team, k - 1);
        let all = triggers::open_tasks(m, after, team, k);
        assert forall|task: Text| #[trigger] all.contains(task) implies triggers::completed_by_all(
            m,
            task,
            after,
        ) && !triggers::completed_by(m, task, team) by {
            if !earlier.contains(task) {
                assert(all == earlier.push(m[k - 1].id));
                let x = choose|x: int| 0 <= x < all.len() && all[x] == task;
                if x < earlier.len() {
                    assert(earlier[x] == task);
                }
            }
        }
    }
}

// ── nothing twice ──────────────────────────────────────────────────────────

/// The requests name no pair of team and task twice, nor one that a node not
/// yet failed stands for.
pub open spec fn no_repeats(g: Seq<NodeView>, requests: Seq<RequestView>) -> bool {
    &&& forall|i: int|
        0 <= i < requests.len() ==> !queries::has_team_node(
            g,
            (#[trigger] requests[i]).team,
            requests[i].task_id,
        )
    &&& forall|i: int, j: int|
        0 <= i < requests.len() && 0 <= j < requests.len() && i != j ==> (
        #[trigger] requests[i]).team != (#[trigger] requests[j]).team || requests[i].task_id
            != requests[j].task_id
}

proof fn lemma_no_repeats(
    g: Seq<NodeView>,
    config: ConfigView,
    m: Seq<TaskRecordView>,
    k: int,
)
    requires
        k <= config.teams.len(),
    ensures
        triggers::requests_upto(g, config, m, k) matches Ok(requests) ==> no_repeats(g, requests),
    decreases k,
{
    if k > 0 {
        lemma_no_repeats(g, config, m, k - 1);
        if let Ok(requests) = triggers::requests_upto(g, config, m, k) {
            let earlier = triggers::requests_upto(g, config, m, k - 1)->Ok_0;
            let team = config.teams[k - 1];
            let more = triggers::team_requests(
                g,
                earlier,
                team,
                config.terminal_teams,
                m,
            )->Ok_0;
            lemma_team_requests(g, earlier, team, config.terminal_teams, m);
            assert(requests == earlier + more);
            assert forall|i: int| 0 <= i < requests.len() implies !queries::has_team_node(
                g,
                (#[trigger] requests[i]).team,
                requests[i].task_id,
            ) by {
                if i < earlier.len() {
                    assert(requests[i] == earlier[i]);
                } else {
                    assert(requests[i] == more[i - earlier.len()]);
                }
            }
            assert forall|i: int, j: int|
                0 <= i < requests.len() && 0 <= j < requests.len() && i != j implies (
            #[trigger] requests[i]).team != (#[trigger] requests[j]).team || requests[i].task_id
                != requests[j].task_id by {
                let n = earlier.len();
                if i < n && j < n {
                    assert(requests[i] == earlier[i] && requests[j] == earlier[j]);
                } else if i < n {
                    assert(requests[i] == earlier[i] && requests[j] == more[j - n]);
                } else if j < n {
                    assert(requests[j] == earlier[j] && requests[i] == more[i - n]);
                } else {
                    assert(requests[i] == more[i - n] && requests[j] == more[j - n]);
                }
            }
        }
    }
}

/// The requests for one team are its own, new, and different from each other.
proof fn lemma_team_requests(
    g: Seq<NodeView>,
    earlier: Seq<RequestView>,
    team: TeamView,
    terminal_teams: Seq<Text>,
    m: Seq<TaskRecordView>,
)
    ensures
        triggers::team_requests(g, earlier, team, terminal_teams, m) matches Ok(more) ==> {
            &&& forall|i: int|
                0 <= i < more.len() ==> (#[trigger] more[i]).team == team.name
                    && !triggers::is_requested(g, earlier, team.name, more[i].task_id)
            &&& forall|i: int, j: int|
                0 <= i < more.len() && 0 <= j < more.len() && i != j ==> (
                #[trigger] more[i]).task_id != (#[trigger] more[j]).task_id
        },
{
    match triggers::decision(team.trigger, team.name, m) {
        DecisionView::RunOnce { .. } => {},
        DecisionView::ForTasks(ids) => {
            if let crate::teams::TriggerView::AfterTeams(after) = team.trigger {
                lemma_open_tasks(m, after, team.name, m.len() as int);
            }
            lemma_task_requests(g, earlier, team, terminal_teams, m, ids);
            lemma_task_requests_distinct(g, earlier, team, terminal_teams, m, ids);
        },
    }
}

/// Triggers never request a pair of team and task twice, nor one that a node
/// not yet failed stands for.
pub proof fn law_triggers_never_repeat(
    g: Seq<NodeView>,
    config: ConfigView,
    m: Seq<TaskRecordView>,
    requests: Seq<RequestView>,
)
    requires
        triggers::triggered(g, config, m) == Ok::<Seq<RequestView>, Text>(requests),
    ensures
        no_repeats(g, requests),
{
    lemma_no_repeats(g, config, m, config.teams.len() as int);
}

/// Every request for a task is one that is due: the task is declared,
/// everything it depends on was completed by every terminal team, and the
/// team has not completed it.
pub proof fn law_triggered_tasks_are_due(
    g: Seq<NodeView>,
    config: ConfigView,
    m: Seq<TaskRecordView>,
    requests: Seq<RequestView>,
    i: int,
    task: Text,
)
    requires
        triggers::triggered(g, config, m) == Ok::<Seq<RequestView>, Text>(requests),
        0 <= i < requests.len(),
        requests[i].task_id == Some(task),
    ensures
        triggers::declared(m, task) matches Some(row) && triggers::dependencies_met(
            m,
            config.terminal_teams,
            row,
        ),
        !triggers::completed_by(m, task, requests[i].team),
{
    lemma_tasks_are_due(g, config, m, config.teams.len() as int, i);
}

proof fn lemma_tasks_are_due(
    g: Seq<NodeView>,
    config: ConfigView,
    m: Seq<TaskRecordView>,
    k: int,
    i: int,
)
    requires
        triggers::requests_upto(g, config, m, k) is Ok,
        0 <= i < triggers::requests_upto(g, config, m, k)->Ok_0.len(),
        k <= config.teams.len(),
    ensures
        ({
            let r = triggers::requests_upto(g, config, m, k)->Ok_0[i];
            r.task_id matches Some(task) ==> (triggers::declared(m, task) matches Some(row)
                && triggers::dependencies_met(m, config.terminal_teams, row))
                && !triggers::completed_by(m, task, r.team)
        }),
    decreases k,
{
    if k > 0 {
        let requests = triggers::requests_upto(g, config, m, k)->Ok_0;
        let earlier = triggers::requests_upto(g, config, m, k - 1)->Ok_0;
        let team = config.teams[k - 1];
        let more = triggers::team_requests(g, earlier, team, config.terminal_teams, m)->Ok_0;
        assert(requests == earlier + more);
        if i < earlier.len() {
            assert(requests[i] == earlier[i]);
            lemma_tasks_are_due(g, config, m, k - 1, i);
        } else {
            assert(requests[i] == more[i - earlier.len()]);
            match team.trigger {
                crate::teams::TriggerView::Start => {},
                crate::teams::TriggerView::AfterTeams(after) => {
                    let ids = triggers::open_tasks(m, after, team.name, m.len() as int);
                    lemma_open_tasks(m, after, team.name, m.len() as int);
                    lemma_task_requests(g, earlier, team, config.terminal_teams, m, ids);
                    let r = more[i - earlier.len()];
                    assert(justified(g, earlier, team, config.terminal_teams, m, ids, r));
                },
            }
        }
    }
}

// ── once is enough ─────────────────────────────────────────────────────────

/// Every node of `g` is in `h`, for the same team and task, and none has
/// failed since. Otherwise `h` may be further on.
pub open spec fn still_stands(g: Seq<NodeView>, h: Seq<NodeView>) -> bool {
    &&& g.len() <= h.len()
    &&& forall|i: int|
        0 <= i < g.len() ==> (#[trigger] h[i]).team == g[i].team && h[i].task_id == g[i].task_id
            && (g[i].status !is Failed ==> h[i].status !is Failed)
}

/// A node that has not failed stands for each of the requests.
pub open spec fn covers(g: Seq<NodeView>, requests: Seq<RequestView>) -> bool {
    forall|i: int|
        0 <= i < requests.len() ==> queries::has_team_node(
            g,
            (#[trigger] requests[i]).team,
            requests[i].task_id,
        )
}

proof fn lemma_requested_is_covered(
    g: Seq<NodeView>,
    h: Seq<NodeView>,
    requests: Seq<RequestView>,
    team: Text,
    task: Option<Text>,
)
    requires
        still_stands(g, h),
        covers(h, requests),
        triggers::is_requested(g, requests, team, task),
    ensures
        queries::has_team_node(h, team, task),
{
    if queries::has_team_node(g, team, task) {
        let i = choose|i: int|
            0 <= i < g.len() && (#[trigger] g[i]).team == team && g[i].task_id == task
                && g[i].status !is Failed;
        assert(h[i].team == g[i].team);
    }
}

proof fn lemma_covered_tasks(
    g: Seq<NodeView>,
    h: Seq<NodeView>,
    requests: Seq<RequestView>,
    team: TeamView,
    terminal_teams: Seq<Text>,
    m: Seq<TaskRecordView>,
    ids: Seq<Text>,
)
    requires
        still_stands(g, h),
        covers(h, requests),
        triggers::task_requests(g, requests, team, terminal_teams, m, ids) matches Ok(more)
            && covers(h, more),
    ensures
        triggers::task_requests(h, Seq::empty(), team, terminal_teams, m, ids) == Ok::<
            Seq<RequestView>,
            Text,
        >(Seq::empty()),
    decreases ids.len(),
{
    if ids.len() > 0 {
        let part = ids.drop_last();
        let more = triggers::task_requests(g, requests, team, terminal_teams, m, ids)->Ok_0;
        let earlier = triggers::task_requests(g, requests, team, terminal_teams, m, part)->Ok_0;
        assert(covers(h, earlier)) by {
            assert forall|i: int| 0 <= i < earlier.len() implies queries::has_team_node(
                h,
                (#[trigger] earlier[i]).team,
                earlier[i].task_id,
            ) by {
                assert(more[i] == earlier[i]);
            }
        }
        lemma_covered_tasks(g, h, requests, team, terminal_teams, m, part);
        let task = Some(ids.last());
        if let Some(row) = triggers::declared(m, ids.last()) {
            if triggers::dependencies_met(m, terminal_teams, row) {
                if triggers::is_requested(g, requests, team.name, task) {
                    lemma_requested_is_covered(g, h, requests, team.name, task);
                } else {
                    let r = more[more.len() - 1];
                    assert(r.team == team.name && r.task_id == task);
                }
                assert(triggers::is_requested(h, Seq::empty(), team.name, task));
            }
        }
    }
}

proof fn lemma_covered_teams(
    g: Seq<NodeView>,
    h: Seq<NodeView>,
    config: ConfigView,
    m: Seq<TaskRecordView>,
    k: int,
)
    requires
        still_stands(g, h),
        triggers::requests_upto(g, config, m, k) matches Ok(requests) && covers(h, requests),
    ensures
        triggers::requests_upto(h, config, m, k) == Ok::<Seq<RequestView>, Text>(Seq::empty()),
    decreases k,
{
    if k > 0 {
        let requests = triggers::requests_upto(g, config, m, k)->Ok_0;
        let earlier = triggers::requests_upto(g, config, m, k - 1)->Ok_0;
        let team = config.teams[k - 1];
        let more = triggers::team_requests(g, earlier, team, config.terminal_teams, m)->Ok_0;
        assert(requests == earlier + more);
        assert(covers(h, earlier)) by {
            assert forall|i: int| 0 <= i < earlier.len() implies queries::has_team_node(
                h,
                (#[trigger] earlier[i]).team,
                earlier[i].task_id,
            ) by {
                assert(requests[i] == earlier[i]);
            }
        }
        assert(covers(h, more)) by {
            assert forall|i: int| 0 <= i < more.len() implies queries::has_team_node(
                h,
                (#[trigger] more[i]).team,
                more[i].task_id,
            ) by {
                assert(requests[earlier.len() + i] == more[i]);
            }
        }
        lemma_covered_teams(g, h, config, m, k - 1);
        match triggers::decision(team.trigger, team.name, m) {
            DecisionView::RunOnce { should_run } => {
                if should_run {
                    if triggers::is_requested(g, earlier, team.name, None) {
                        lemma_requested_is_covered(g, h, earlier, team.name, None);
                    } else {
                        assert(more[0].team == team.name && more[0].task_id is None);
                    }
                    assert(triggers::is_requested(h, Seq::empty(), team.name, None));
                }
            },
            DecisionView::ForTasks(ids) => {
                lemma_covered_tasks(g, h, earlier, team, config.terminal_teams, m, ids);
            },
        }
        assert(Seq::<RequestView>::empty() + Seq::<RequestView>::empty() =~= Seq::<
            RequestView,
        >::empty());
    }
}

/// While what was requested is in flight, nothing is requested again: the same
/// manifest requests nothing of a graph in which the requested nodes stand,
/// however far they have come, unless they failed.
pub proof fn law_nothing_in_flight_is_requested(
    g: Seq<NodeView>,
    config: ConfigView,
    m: Seq<TaskRecordView>,
    requests: Seq<RequestView>,
    depth: usize,
    ids: Seq<Text>,
    h: Seq<NodeView>,
)
    requires
        triggers::triggered(g, config, m) == Ok::<Seq<RequestView>, Text>(requests),
        still_stands(g + mutations::spawned_nodes(depth, requests, ids), h),
    ensures
        triggers::triggered(h, config, m) == Ok::<Seq<RequestView>, Text>(Seq::empty()),
{
    let more = mutations::spawned_nodes(depth, requests, ids);
    let grown = g + more;
    assert(covers(h, requests)) by {
        assert forall|i: int| 0 <= i < requests.len() implies queries::has_team_node(
            h,
            (#[trigger] requests[i]).team,
            requests[i].task_id,
        ) by {
            assert(grown[g.len() + i] == more[i]);
            assert(h[g.len() + i].team == more[i].team);
        }
    }
    assert(still_stands(g, h)) by {
        assert forall|i: int| 0 <= i < g.len() implies (#[trigger] h[i]).team == g[i].team
            && h[i].task_id == g[i].task_id && (g[i].status !is Failed ==> h[i].status
            !is Failed) by {
            assert(grown[i] == g[i]);
        }
    }
    lemma_covered_teams(g, h, config, m, config.teams.len() as int);
}

/// Evaluating the triggers again changes nothing: once the requested nodes
/// are in the graph, the same manifest requests no more.
pub proof fn law_triggers_fire_once(
    g: Seq<NodeView>,
    config: ConfigView,
    m: Seq<TaskRecordView>,
    requests: Seq<RequestView>,
    depth: usize,
    ids: Seq<Text>,
)
    requires
        triggers::triggered(g, config, m) == Ok::<Seq<RequestView>, Text>(requests),
    ensures
        triggers::triggered(g + mutations::spawned_nodes(depth, requests, ids), config, m) == Ok::<
            Seq<RequestView>,
            Text,
        >(Seq::empty()),
{
    let grown = g + mutations::spawned_nodes(depth, requests, ids);
    law_nothing_in_flight_is_requested(g, config, m, requests, depth, ids, grown);
}

/// Applying the triggers again changes nothing: while the nodes that the first
/// time added are in the graph, the same manifest adds no second ones.
pub proof fn law_triggers_apply_once(
    g: Seq<NodeView>,
    anchor: Text,
    config: ConfigView,
    m: Seq<TaskRecordView>,
    ids: Seq<Text>,
    h: Seq<NodeView>,
    more_ids: Seq<Text>,
)
    requires
        machine::with_triggered(g, anchor, config, m, ids) == Ok::<Seq<NodeView>, Text>(h),
    ensures
        machine::with_triggered(h, anchor, config, m, more_ids) == Ok::<Seq<NodeView>, Text>(h),
        machine::trigger_ids(h, config, m) == 0,
{
    let depth = queries::lookup(g, anchor)->0.plan_depth;
    let requests = triggers::triggered(g, config, m)->Ok_0;
    law_triggers_fire_once(g, config, m, requests, depth, ids);
    assert(h + mutations::spawned_nodes(
        queries::lookup(h, anchor)->0.plan_depth,
        Seq::<RequestView>::empty(),
        more_ids,
    ) =~= h);
}

} // verus!
