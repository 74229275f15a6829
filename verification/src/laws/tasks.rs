//! Which teams act on which tasks, said of the rows of the manifest
//! themselves.

use vstd::prelude::*;

use crate::graph::NodeView;
use crate::language;
use crate::manifest;
use crate::manifest::{TaskFieldView, TaskRecordView};
use crate::queries;
use crate::search;
use crate::teams::{ConfigView, TeamView, TriggerView};
use crate::text::Text;
use crate::triggers;
use crate::triggers::DecisionView;
use crate::types::RequestView;

verus! {

// ── rows ───────────────────────────────────────────────────────────────────

/// The team has a row for the task.
pub open spec fn has_row(m: Seq<TaskRecordView>, task: Text, team: Text) -> bool {
    exists|r: int| 0 <= r < m.len() && (#[trigger] m[r]).id == task && m[r].team == Some(team)
}

/// The row at `r` is the first of the task: the one that declares it.
pub open spec fn declares(m: Seq<TaskRecordView>, task: Text, r: int) -> bool {
    &&& 0 <= r < m.len()
    &&& m[r].id == task
    &&& forall|q: int| 0 <= q < r ==> (#[trigger] m[q]).id != task
}

/// The row at `r` is the first of the task that a team has.
pub open spec fn opens(m: Seq<TaskRecordView>, task: Text, r: int) -> bool {
    &&& 0 <= r < m.len()
    &&& m[r].id == task
    &&& m[r].team is Some
    &&& forall|q: int| 0 <= q < r ==> !((#[trigger] m[q]).id == task && m[q].team is Some)
}

/// The team, which follows the teams of `after`, has the task before it: some
/// team has a row for it, each of those has one, and it has none itself.
pub open spec fn has_before_it(
    m: Seq<TaskRecordView>,
    after: Seq<Text>,
    team: Text,
    task: Text,
) -> bool {
    &&& exists|r: int| 0 <= r < m.len() && (#[trigger] m[r]).id == task && m[r].team is Some
    &&& forall|a: int| 0 <= a < after.len() ==> has_row(m, task, #[trigger] after[a])
    &&& !has_row(m, task, team)
}

/// Every terminal team has a row for everything that the row at `r` depends
/// on.
pub open spec fn is_unblocked(m: Seq<TaskRecordView>, terminal_teams: Seq<Text>, r: int) -> bool {
    forall|d: int, t: int|
        0 <= d < m[r].depends_on.len() && 0 <= t < terminal_teams.len() ==> has_row(
            m,
            #[trigger] m[r].depends_on[d],
            #[trigger] terminal_teams[t],
        )
}

/// A node of the team for the task is in the graph and has not failed.
pub open spec fn is_taken(g: Seq<NodeView>, team: Text, task: Option<Text>) -> bool {
    exists|i: int|
        0 <= i < g.len() && (#[trigger] g[i]).team == team && g[i].task_id == task && !(
        g[i].status is Failed)
}

/// The row names the file.
pub open spec fn names_file(row: TaskRecordView, path: Text) -> bool {
    exists|f: int|
        0 <= f < row.task_kv.len() && (#[trigger] row.task_kv[f]).key == "file_path"@
            && row.task_kv[f].value == path && forall|e: int|
            0 <= e < f ==> (#[trigger] row.task_kv[e]).key != "file_path"@
}

/// The files of a task: a team that writes validating files writes the one
/// for the task's file and requires that; another writes the task's file and
/// requires the one that validates it, if there is one.
pub open spec fn are_files(
    team: TeamView,
    row: TaskRecordView,
    targets: Seq<Text>,
    required: Seq<Text>,
) -> bool {
    exists|path: Text|
        #[trigger] names_file(row, path) && match language::validation_target(
            team.language_plugins,
            path,
        ) {
            Some(validating) => if team.derives_target {
                targets == seq![validating] && required == seq![path]
            } else {
                targets == seq![path] && required == seq![validating]
            },
            None => !team.derives_target && targets == seq![path] && required.len() == 0,
        }
}

/// Nobody can tell the files of a task: its row names none, or the team writes
/// validating files and there is none for it.
pub open spec fn has_no_files(team: TeamView, row: TaskRecordView) -> bool {
    (forall|path: Text| !(#[trigger] names_file(row, path))) || (team.derives_target && exists|
        path: Text,
    |
        #[trigger] names_file(row, path) && language::validation_target(
            team.language_plugins,
            path,
        ) is None)
}

/// The team may act on the task now: it has it before it, the task is
/// declared in the row at `r`, and that row is unblocked.
pub open spec fn may_act(
    m: Seq<TaskRecordView>,
    terminal_teams: Seq<Text>,
    team: TeamView,
    task: Text,
    r: int,
) -> bool {
    &&& team.trigger matches TriggerView::AfterTeams(after) && has_before_it(
        m,
        after,
        team.name,
        task,
    )
    &&& declares(m, task, r)
    &&& is_unblocked(m, terminal_teams, r)
}

/// The request asks for a node of the team that does what the row declares.
pub open spec fn asks_for_task(q: RequestView, team: TeamView, row: TaskRecordView) -> bool {
    &&& q.team == team.name
    &&& q.task_id == Some(row.id)
    &&& q.kind == team.kind
    &&& q.adapter == team.adapter
    &&& q.northstar == team.northstar
    &&& q.worker_role == team.worker_role
    &&& q.objective == row.objective
    &&& are_files(team, row, q.target_files, q.required_validation_targets)
    &&& q.dependencies.len() == 0
    &&& q.validation_plan is None
}

/// The objective of the first node that was there from the start; nothing if
/// there is none.
pub open spec fn is_run_objective(g: Seq<NodeView>, objective: Text) -> bool {
    ||| exists|i: int|
        0 <= i < g.len() && (#[trigger] g[i]).origin is Root && g[i].objective == objective
            && forall|j: int| 0 <= j < i ==> !((#[trigger] g[j]).origin is Root)
    ||| objective.len() == 0 && forall|j: int|
        0 <= j < g.len() ==> !((#[trigger] g[j]).origin is Root)
}

/// The request asks for a node of the team for the run as a whole.
pub open spec fn asks_for_run(q: RequestView, team: TeamView, g: Seq<NodeView>) -> bool {
    &&& q.team == team.name
    &&& q.task_id is None
    &&& q.kind == team.kind
    &&& q.adapter == team.adapter
    &&& q.northstar == team.northstar
    &&& q.worker_role == team.worker_role
    &&& is_run_objective(g, q.objective)
    &&& q.target_files.len() == 0
    &&& q.required_validation_targets.len() == 0
    &&& q.dependencies.len() == 0
    &&& q.validation_plan is None
}

/// A team that acts at the start has not acted: no row is its own.
pub open spec fn has_not_acted(m: Seq<TaskRecordView>, team: Text) -> bool {
    forall|r: int| 0 <= r < m.len() ==> (#[trigger] m[r]).team != Some(team)
}

// ── the parts ──────────────────────────────────────────────────────────────

proof fn lemma_rows(m: Seq<TaskRecordView>)
    ensures
        forall|task: Text, team: Text| #[trigger]
            triggers::completed_by(m, task, team) == has_row(m, task, team),
{
    assert forall|task: Text, team: Text| #[trigger]
        triggers::completed_by(m, task, team) == has_row(m, task, team) by {
        if has_row(m, task, team) {
            let r = choose|r: int|
                0 <= r < m.len() && (#[trigger] m[r]).id == task && m[r].team == Some(team);
            assert(m[r].id == task);
        }
    }
}

proof fn lemma_field(fields: Seq<TaskFieldView>, key: Text)
    ensures
        match manifest::field_value(fields, key) {
            Some(value) => exists|f: int|
                0 <= f < fields.len() && (#[trigger] fields[f]).key == key && fields[f].value
                    == value && forall|e: int| 0 <= e < f ==> (#[trigger] fields[e]).key != key,
            None => forall|e: int| 0 <= e < fields.len() ==> (#[trigger] fields[e]).key != key,
        },
    decreases fields.len(),
{
    if fields.len() > 0 {
        let rest = fields.drop_first();
        lemma_field(rest, key);
        if fields[0].key == key {
            assert(fields[0].value == manifest::field_value(fields, key)->0);
        } else if manifest::field_value(rest, key) is Some {
            let f = choose|f: int|
                0 <= f < rest.len() && (#[trigger] rest[f]).key == key && rest[f].value
                    == manifest::field_value(rest, key)->0 && forall|e: int|
                    0 <= e < f ==> (#[trigger] rest[e]).key != key;
            assert(fields[f + 1].key == key);
            assert forall|e: int| 0 <= e < f + 1 implies (#[trigger] fields[e]).key != key by {
                if e > 0 {
                    assert(rest[e - 1].key != key);
                }
            }
        } else {
            assert forall|e: int| 0 <= e < fields.len() implies (#[trigger] fields[e]).key
                != key by {
                if e > 0 {
                    assert(rest[e - 1].key != key);
                }
            }
        }
    }
}

proof fn lemma_files(team: TeamView, row: TaskRecordView)
    ensures
        match triggers::task_files(team, row) {
            Ok((targets, required)) => are_files(team, row, targets, required) && !has_no_files(
                team,
                row,
            ),
            Err(_) => has_no_files(team, row),
        },
{
    lemma_field(row.task_kv, "file_path"@);
    match manifest::field_value(row.task_kv, "file_path"@) {
        Some(path) => {
            assert(names_file(row, path));
            assert forall|other: Text| #[trigger] names_file(row, other) implies other == path by {
                let f = choose|f: int|
                    0 <= f < row.task_kv.len() && (#[trigger] row.task_kv[f]).key == "file_path"@
                        && row.task_kv[f].value == path && forall|e: int|
                        0 <= e < f ==> (#[trigger] row.task_kv[e]).key != "file_path"@;
                let h = choose|f: int|
                    0 <= f < row.task_kv.len() && (#[trigger] row.task_kv[f]).key == "file_path"@
                        && row.task_kv[f].value == other && forall|e: int|
                        0 <= e < f ==> (#[trigger] row.task_kv[e]).key != "file_path"@;
                if f < h {
                    assert(row.task_kv[f].key != "file_path"@);
                } else if h < f {
                    assert(row.task_kv[h].key != "file_path"@);
                }
            }
        },
        None => {
            assert forall|path: Text| !(#[trigger] names_file(row, path)) by {
                if names_file(row, path) {
                    let f = choose|f: int|
                        0 <= f < row.task_kv.len() && (#[trigger] row.task_kv[f]).key
                            == "file_path"@ && row.task_kv[f].value == path && forall|e: int|
                            0 <= e < f ==> (#[trigger] row.task_kv[e]).key != "file_path"@;
                    assert(row.task_kv[f].key != "file_path"@);
                }
            }
        },
    }
}

proof fn lemma_declared(m: Seq<TaskRecordView>, task: Text)
    ensures
        match triggers::declared(m, task) {
            Some(row) => exists|r: int| #[trigger] declares(m, task, r) && m[r] == row,
            None => forall|r: int| !(#[trigger] declares(m, task, r)),
        },
        forall|r: int| #[trigger] declares(m, task, r) ==> triggers::declared(m, task) == Some(m[r]),
{
    let check = triggers::row_check(m, task);
    search::lemma_first_some_none(m.len(), check);
    if triggers::declared(m, task) is Some {
        let r = search::lemma_first_some_found(m.len(), check);
        assert forall|q: int| 0 <= q < r implies (#[trigger] m[q]).id != task by {
            assert(check(q) is None);
        }
        assert(declares(m, task, r));
        assert forall|s: int| #[trigger] declares(m, task, s) implies s == r by {
            if s < r {
                assert(m[s].id != task);
            } else if r < s {
                assert(m[r].id != task);
            }
        }
    } else {
        assert forall|r: int| !(#[trigger] declares(m, task, r)) by {
            if declares(m, task, r) {
                assert(check(r) is None);
            }
        }
    }
}

proof fn lemma_unblocked(m: Seq<TaskRecordView>, terminal_teams: Seq<Text>, r: int)
    ensures
        triggers::dependencies_met(m, terminal_teams, m[r]) == is_unblocked(m, terminal_teams, r),
{
    lemma_rows(m);
    if is_unblocked(m, terminal_teams, r) {
        assert forall|d: int| 0 <= d < m[r].depends_on.len() implies triggers::completed_by_all(
            m,
            #[trigger] m[r].depends_on[d],
            terminal_teams,
        ) by {
            assert forall|t: int| 0 <= t < terminal_teams.len() implies triggers::completed_by(
                m,
                m[r].depends_on[d],
                #[trigger] terminal_teams[t],
            ) by {
                assert(has_row(m, m[r].depends_on[d], terminal_teams[t]));
            }
        }
    }
    if triggers::dependencies_met(m, terminal_teams, m[r]) {
        assert forall|d: int, t: int|
            0 <= d < m[r].depends_on.len() && 0 <= t < terminal_teams.len() implies has_row(
            m,
            #[trigger] m[r].depends_on[d],
            #[trigger] terminal_teams[t],
        ) by {
            assert(triggers::completed_by_all(m, m[r].depends_on[d], terminal_teams));
            assert(triggers::completed_by(m, m[r].depends_on[d], terminal_teams[t]));
        }
    }
}

proof fn lemma_before(m: Seq<TaskRecordView>, after: Seq<Text>, team: Text, task: Text)
    ensures
        has_before_it(m, after, team, task) == ((exists|r: int|
            0 <= r < m.len() && (#[trigger] m[r]).id == task && m[r].team is Some)
            && triggers::completed_by_all(m, task, after) && !triggers::completed_by(
            m,
            task,
            team,
        )),
{
    lemma_rows(m);
    if triggers::completed_by_all(m, task, after) {
        assert forall|a: int| 0 <= a < after.len() implies has_row(m, task, #[trigger] after[a]) by {
            assert(triggers::completed_by(m, task, after[a]));
        }
    }
    if forall|a: int| 0 <= a < after.len() ==> has_row(m, task, #[trigger] after[a]) {
        assert forall|a: int| 0 <= a < after.len() implies triggers::completed_by(
            m,
            task,
            #[trigger] after[a],
        ) by {
            assert(has_row(m, task, after[a]));
        }
    }
}

proof fn lemma_open(m: Seq<TaskRecordView>, after: Seq<Text>, team: Text, k: int) -> (at: Seq<int>)
    requires
        0 <= k <= m.len(),
    ensures
        at.len() == triggers::open_tasks(m, after, team, k).len(),
        forall|p: int|
            0 <= p < at.len() ==> #[trigger] at[p] < k && opens(
                m,
                triggers::open_tasks(m, after, team, k)[p],
                at[p],
            ) && has_before_it(m, after, team, triggers::open_tasks(m, after, team, k)[p]),
        forall|p: int, q: int| 0 <= p < q < at.len() ==> #[trigger] at[p] < #[trigger] at[q],
        forall|r: int|
            0 <= r < k && (#[trigger] m[r]).team is Some && has_before_it(m, after, team, m[r].id)
                ==> triggers::open_tasks(m, after, team, k).contains(m[r].id),
    decreases k,
{
    if k == 0 {
        Seq::empty()
    } else {
        let front = lemma_open(m, after, team, k - 1);
        let earlier = triggers::open_tasks(m, after, team, k - 1);
        let all = triggers::open_tasks(m, after, team, k);
        let row = m[k - 1];
        lemma_before(m, after, team, row.id);
        let taken = row.team is Some && !earlier.contains(row.id) && has_before_it(
            m,
            after,
            team,
            row.id,
        );
        let at = if taken {
            front.push(k - 1)
        } else {
            front
        };
        if taken {
            assert(m[k - 1].id == row.id);
            assert forall|q: int| 0 <= q < k - 1 implies !((#[trigger] m[q]).id == row.id
                && m[q].team is Some) by {
                if m[q].id == row.id && m[q].team is Some {
                    assert(earlier.contains(m[q].id));
                }
            }
            assert(opens(m, row.id, k - 1));
            assert(all == earlier.push(row.id));
        } else {
            assert(all == earlier);
        }
        assert forall|p: int| 0 <= p < at.len() implies #[trigger] at[p] < k && opens(
            m,
            all[p],
            at[p],
        ) && has_before_it(m, after, team, all[p]) by {
            if p < front.len() {
                assert(front[p] < k - 1);
                assert(all[p] == earlier[p]);
            }
        }
        assert forall|r: int|
            0 <= r < k && (#[trigger] m[r]).team is Some && has_before_it(
                m,
                after,
                team,
                m[r].id,
            ) implies all.contains(m[r].id) by {
            if r < k - 1 {
                assert(earlier.contains(m[r].id));
                let p = choose|p: int| 0 <= p < earlier.len() && earlier[p] == m[r].id;
                assert(all[p] == m[r].id);
            } else if earlier.contains(row.id) {
                let p = choose|p: int| 0 <= p < earlier.len() && earlier[p] == row.id;
                assert(all[p] == row.id);
            } else {
                assert(all[all.len() - 1] == row.id);
            }
        }
        assert forall|p: int, q: int| 0 <= p < q < at.len() implies #[trigger] at[p]
            < #[trigger] at[q] by {
            assert(front[p] < k - 1);
            if q < front.len() {
                assert(front[p] < front[q]);
            }
        }
        at
    }
}

proof fn lemma_taken(g: Seq<NodeView>)
    ensures
        forall|team: Text, task: Option<Text>| #[trigger]
            queries::has_team_node(g, team, task) == is_taken(g, team, task),
{
    assert forall|team: Text, task: Option<Text>| #[trigger]
        queries::has_team_node(g, team, task) == is_taken(g, team, task) by {
        if is_taken(g, team, task) {
            let i = choose|i: int|
                0 <= i < g.len() && (#[trigger] g[i]).team == team && g[i].task_id == task && !(
                g[i].status is Failed);
            assert(g[i].team == team);
        }
    }
}

// ── what a team decides ────────────────────────────────────────────────────

/// A team that acts at the start acts until it has a row.
pub proof fn law_start_teams_act_until_they_have_a_row(team: Text, m: Seq<TaskRecordView>)
    ensures
        triggers::decision(TriggerView::Start, team, m) == (DecisionView::RunOnce {
            should_run: has_not_acted(m, team),
        }),
{
    if triggers::has_completion(m, team) {
        let i = choose|i: int| 0 <= i < m.len() && (#[trigger] m[i]).team == Some(team);
        assert(m[i].team == Some(team));
    } else {
        assert(has_not_acted(m, team));
    }
}

/// A team that follows others acts on exactly the tasks it has before it, each
/// once, in the order in which the manifest opens them.
pub proof fn law_following_teams_act_on_what_is_before_them(
    after: Seq<Text>,
    team: Text,
    m: Seq<TaskRecordView>,
) -> (at: Seq<int>)
    ensures
        triggers::decision(TriggerView::AfterTeams(after), team, m) matches DecisionView::ForTasks(
            tasks,
        ) && at.len() == tasks.len() && (forall|p: int|
            0 <= p < tasks.len() ==> opens(m, #[trigger] tasks[p], at[p])) && (forall|
            p: int,
            q: int,
        |
            0 <= p < q < at.len() ==> #[trigger] at[p] < #[trigger] at[q]) && (forall|task: Text|
            #[trigger] tasks.contains(task) == has_before_it(m, after, team, task)),
{
    let at = lemma_open(m, after, team, m.len() as int);
    let tasks = triggers::open_tasks(m, after, team, m.len() as int);
    assert forall|p: int| 0 <= p < tasks.len() implies opens(m, #[trigger] tasks[p], at[p]) by {
        assert(at[p] < m.len());
    }
    assert forall|task: Text| #[trigger] tasks.contains(task) == has_before_it(
        m,
        after,
        team,
        task,
    ) by {
        if tasks.contains(task) {
            let p = choose|p: int| 0 <= p < tasks.len() && tasks[p] == task;
            assert(at[p] < m.len());
        }
        if has_before_it(m, after, team, task) {
            let r = choose|r: int|
                0 <= r < m.len() && (#[trigger] m[r]).id == task && m[r].team is Some;
            assert(tasks.contains(m[r].id));
        }
    }
    at
}

// ── what is requested ──────────────────────────────────────────────────────

/// The request is one for the team that is called for.
pub open spec fn is_called_for(
    g: Seq<NodeView>,
    terminal_teams: Seq<Text>,
    m: Seq<TaskRecordView>,
    team: TeamView,
    q: RequestView,
) -> bool {
    &&& !is_taken(g, team.name, q.task_id)
    &&& match team.trigger {
        TriggerView::Start => asks_for_run(q, team, g) && has_not_acted(m, team.name),
        TriggerView::AfterTeams(_) => exists|r: int|
            0 <= r < m.len() && asks_for_task(q, team, #[trigger] m[r]) && may_act(
                m,
                terminal_teams,
                team,
                m[r].id,
                r,
            ),
    }
}

/// A team asks for the pair of itself and the task.
pub open spec fn is_asked(requests: Seq<RequestView>, team: Text, task: Option<Text>) -> bool {
    exists|x: int|
        0 <= x < requests.len() && (#[trigger] requests[x]).team == team && requests[x].task_id
            == task
}

/// The request asks for a task that is called for.
pub open spec fn answers_task(
    g: Seq<NodeView>,
    team: TeamView,
    terminal_teams: Seq<Text>,
    m: Seq<TaskRecordView>,
    q: RequestView,
    task: Text,
) -> bool {
    &&& !is_taken(g, team.name, Some(task))
    &&& exists|r: int|
        #[trigger] declares(m, task, r) && is_unblocked(m, terminal_teams, r) && asks_for_task(
            q,
            team,
            m[r],
        )
}

/// The task, if nothing is against it, is asked for.
pub open spec fn is_heeded(
    g: Seq<NodeView>,
    requests: Seq<RequestView>,
    team: TeamView,
    terminal_teams: Seq<Text>,
    m: Seq<TaskRecordView>,
    more: Seq<RequestView>,
    task: Text,
) -> bool {
    forall|r: int|
        #[trigger] declares(m, task, r) && is_unblocked(m, terminal_teams, r) && !is_taken(
            g,
            team.name,
            Some(task),
        ) && !is_asked(requests, team.name, Some(task)) ==> is_asked(more, team.name, Some(task))
            && !has_no_files(team, m[r])
}

/// The task is called for, and nobody can tell its files.
pub open spec fn is_beyond(
    g: Seq<NodeView>,
    team: TeamView,
    terminal_teams: Seq<Text>,
    m: Seq<TaskRecordView>,
    task: Text,
) -> bool {
    &&& !is_taken(g, team.name, Some(task))
    &&& exists|r: int|
        #[trigger] declares(m, task, r) && is_unblocked(m, terminal_teams, r) && has_no_files(
            team,
            m[r],
        )
}

proof fn lemma_tasks(
    g: Seq<NodeView>,
    requests: Seq<RequestView>,
    team: TeamView,
    terminal_teams: Seq<Text>,
    m: Seq<TaskRecordView>,
    ids: Seq<Text>,
) -> (at: Seq<int>)
    ensures
        match triggers::task_requests(g, requests, team, terminal_teams, m, ids) {
            Ok(more) => {
                &&& at.len() == more.len()
                &&& forall|x: int|
                    0 <= x < at.len() ==> 0 <= #[trigger] at[x] < ids.len() && answers_task(
                        g,
                        team,
                        terminal_teams,
                        m,
                        more[x],
                        ids[at[x]],
                    )
                &&& forall|x: int, y: int|
                    0 <= x < y < at.len() ==> #[trigger] at[x] < #[trigger] at[y]
                &&& forall|p: int|
                    0 <= p < ids.len() ==> is_heeded(
                        g,
                        requests,
                        team,
                        terminal_teams,
                        m,
                        more,
                        #[trigger] ids[p],
                    )
            },
            Err(_) => exists|p: int|
                0 <= p < ids.len() && is_beyond(g, team, terminal_teams, m, #[trigger] ids[p]),
        },
    decreases ids.len(),
{
    if ids.len() == 0 {
        Seq::empty()
    } else {
        let part = ids.drop_last();
        let front = lemma_tasks(g, requests, team, terminal_teams, m, part);
        let task = ids.last();
        let all = triggers::task_requests(g, requests, team, terminal_teams, m, ids);
        match triggers::task_requests(g, requests, team, terminal_teams, m, part) {
            Err(_) => {
                let p = choose|p: int|
                    0 <= p < part.len() && is_beyond(
                        g,
                        team,
                        terminal_teams,
                        m,
                        #[trigger] part[p],
                    );
                assert(ids[p] == part[p]);
                front
            },
            Ok(earlier) => {
                lemma_declared(m, task);
                lemma_taken(g);
                let asked = triggers::is_requested(g, requests, team.name, Some(task));
                assert(asked == (is_taken(g, team.name, Some(task)) || is_asked(
                    requests,
                    team.name,
                    Some(task),
                )));
                assert(ids[ids.len() - 1] == task);
                let (more, at) = match triggers::declared(m, task) {
                    None => (earlier, front),
                    Some(row) => {
                        let r = choose|r: int| #[trigger] declares(m, task, r) && m[r] == row;
                        assert forall|s: int| #[trigger] declares(m, task, s) implies s == r by {
                            if s < r {
                                assert(m[s].id != task);
                            } else if r < s {
                                assert(m[r].id != task);
                            }
                        }
                        lemma_unblocked(m, terminal_teams, r);
                        lemma_files(team, row);
                        if !is_unblocked(m, terminal_teams, r) || asked {
                            (earlier, front)
                        } else {
                            match triggers::task_files(team, row) {
                                Err(_) => {
                                    assert(is_beyond(
                                        g,
                                        team,
                                        terminal_teams,
                                        m,
                                        ids[ids.len() - 1],
                                    ));
                                    (earlier, front)
                                },
                                Ok((targets, required)) => {
                                    let q = triggers::team_request(
                                        team,
                                        Some(task),
                                        row.objective,
                                        targets,
                                        required,
                                    );
                                    assert(asks_for_task(q, team, m[r]));
                                    assert(answers_task(g, team, terminal_teams, m, q, task));
                                    (earlier.push(q), front.push(ids.len() - 1))
                                },
                            }
                        }
                    },
                };
                if all is Ok {
                    assert(more == all->Ok_0);
                    assert forall|x: int| 0 <= x < at.len() implies 0 <= #[trigger] at[x]
                        < ids.len() && answers_task(
                        g,
                        team,
                        terminal_teams,
                        m,
                        more[x],
                        ids[at[x]],
                    ) by {
                        if x < front.len() {
                            assert(front[x] < part.len());
                            assert(part[front[x]] == ids[front[x]]);
                            assert(more[x] == earlier[x]);
                        }
                    }
                    assert forall|p: int| 0 <= p < ids.len() implies is_heeded(
                        g,
                        requests,
                        team,
                        terminal_teams,
                        m,
                        more,
                        #[trigger] ids[p],
                    ) by {
                        if p < part.len() {
                            assert(part[p] == ids[p]);
                            if is_asked(earlier, team.name, Some(ids[p])) {
                                let x = choose|x: int|
                                    0 <= x < earlier.len() && (#[trigger] earlier[x]).team
                                        == team.name && earlier[x].task_id == Some(ids[p]);
                                assert(more[x] == earlier[x]);
                            }
                        } else if more.len() > earlier.len() {
                            assert(more[more.len() - 1].team == team.name);
                        }
                    }
                    assert forall|x: int, y: int| 0 <= x < y < at.len() implies #[trigger] at[x]
                        < #[trigger] at[y] by {
                        assert(front[x] < part.len());
                        if y < front.len() {
                            assert(front[x] < front[y]);
                        }
                    }
                }
                at
            },
        }
    }
}

proof fn lemma_objective(g: Seq<NodeView>)
    ensures
        is_run_objective(g, triggers::run_objective(g)),
{
    let check = triggers::root_check(g);
    search::lemma_first_some_none(g.len(), check);
    if search::first_some(g.len(), check) is Some {
        let i = search::lemma_first_some_found(g.len(), check);
        assert forall|j: int| 0 <= j < i implies !((#[trigger] g[j]).origin is Root) by {
            assert(check(j) is None);
        }
        assert(g[i].origin is Root);
    } else {
        assert forall|j: int| 0 <= j < g.len() implies !((#[trigger] g[j]).origin is Root) by {
            assert(check(j) is None);
        }
    }
}

/// What one team asks for, after other teams have asked.
proof fn lemma_team(
    g: Seq<NodeView>,
    requests: Seq<RequestView>,
    team: TeamView,
    terminal_teams: Seq<Text>,
    m: Seq<TaskRecordView>,
) -> (opened: Seq<int>)
    ensures
        match triggers::team_requests(g, requests, team, terminal_teams, m) {
            Ok(more) => {
                &&& opened.len() == more.len()
                &&& forall|x: int|
                    0 <= x < more.len() ==> is_called_for(
                        g,
                        terminal_teams,
                        m,
                        team,
                        #[trigger] more[x],
                    )
                &&& forall|x: int|
                    0 <= x < opened.len() ==> 0 <= #[trigger] opened[x] && match more[x].task_id {
                        Some(task) => opens(m, task, opened[x]),
                        None => more.len() == 1,
                    }
                &&& forall|x: int, y: int|
                    0 <= x < y < opened.len() ==> #[trigger] opened[x] < #[trigger] opened[y]
                &&& team.trigger is Start && has_not_acted(m, team.name) && !is_taken(
                    g,
                    team.name,
                    None,
                ) && !is_asked(requests, team.name, None) ==> is_asked(more, team.name, None)
                &&& forall|task: Text, r: int|
                    #[trigger] may_act(m, terminal_teams, team, task, r) && !is_taken(
                        g,
                        team.name,
                        Some(task),
                    ) && !is_asked(requests, team.name, Some(task)) ==> is_asked(
                        more,
                        team.name,
                        Some(task),
                    ) && !has_no_files(team, m[r])
            },
            Err(_) => exists|task: Text, r: int|
                #[trigger] may_act(m, terminal_teams, team, task, r) && !is_taken(
                    g,
                    team.name,
                    Some(task),
                ) && has_no_files(team, m[r]),
        },
{
    lemma_taken(g);
    match team.trigger {
        TriggerView::Start => {
            law_start_teams_act_until_they_have_a_row(team.name, m);
            lemma_objective(g);
            let more = triggers::team_requests(g, requests, team, terminal_teams, m)->Ok_0;
            if more.len() == 1 {
                assert(asks_for_run(more[0], team, g));
                seq![0int]
            } else {
                Seq::empty()
            }
        },
        TriggerView::AfterTeams(after) => {
            let rows = law_following_teams_act_on_what_is_before_them(after, team.name, m);
            let tasks = triggers::open_tasks(m, after, team.name, m.len() as int);
            let at = lemma_tasks(g, requests, team, terminal_teams, m, tasks);
            match triggers::task_requests(g, requests, team, terminal_teams, m, tasks) {
                Err(_) => {
                    let p = choose|p: int|
                        0 <= p < tasks.len() && is_beyond(
                            g,
                            team,
                            terminal_teams,
                            m,
                            #[trigger] tasks[p],
                        );
                    let task = tasks[p];
                    assert(tasks.contains(task));
                    let r = choose|r: int|
                        #[trigger] declares(m, task, r) && is_unblocked(m, terminal_teams, r)
                            && has_no_files(team, m[r]);
                    assert(may_act(m, terminal_teams, team, task, r));
                    Seq::empty()
                },
                Ok(more) => {
                    let opened = Seq::new(at.len(), |x: int| rows[at[x]]);
                    assert forall|x: int| 0 <= x < more.len() implies is_called_for(
                        g,
                        terminal_teams,
                        m,
                        team,
                        #[trigger] more[x],
                    ) && opens(m, more[x].task_id->0, rows[at[x]]) && more[x].task_id is Some by {
                        let task = tasks[at[x]];
                        assert(tasks.contains(task));
                        assert(answers_task(g, team, terminal_teams, m, more[x], task));
                        let r = choose|r: int|
                            #[trigger] declares(m, task, r) && is_unblocked(m, terminal_teams, r)
                                && asks_for_task(more[x], team, m[r]);
                        assert(may_act(m, terminal_teams, team, m[r].id, r));
                        assert(opens(m, tasks[at[x]], rows[at[x]]));
                    }
                    assert forall|x: int| 0 <= x < opened.len() implies 0 <= #[trigger] opened[x]
                        && match more[x].task_id {
                        Some(task) => opens(m, task, opened[x]),
                        None => more.len() == 1,
                    } by {
                        assert(is_called_for(g, terminal_teams, m, team, more[x]));
                    }
                    assert forall|x: int, y: int| 0 <= x < y < opened.len() implies
                        #[trigger] opened[x] < #[trigger] opened[y] by {
                        assert(at[x] < at[y]);
                        assert(rows[at[x]] < rows[at[y]]);
                    }
                    assert forall|task: Text, r: int|
                        #[trigger] may_act(m, terminal_teams, team, task, r) && !is_taken(
                            g,
                            team.name,
                            Some(task),
                        ) && !is_asked(requests, team.name, Some(task)) implies is_asked(
                        more,
                        team.name,
                        Some(task),
                    ) && !has_no_files(team, m[r]) by {
                        assert(tasks.contains(task));
                        let p = choose|p: int| 0 <= p < tasks.len() && tasks[p] == task;
                        assert(is_heeded(
                            g,
                            requests,
                            team,
                            terminal_teams,
                            m,
                            more,
                            tasks[p],
                        ));
                        assert(declares(m, task, r));
                    }
                    opened
                },
            }
        },
    }
}

/// No two teams have the same name.
pub open spec fn distinct_teams(teams: Seq<TeamView>) -> bool {
    forall|s: int, t: int|
        0 <= s < teams.len() && 0 <= t < teams.len() && s != t ==> (#[trigger] teams[s]).name != (
        #[trigger] teams[t]).name
}

/// What the first `k` teams ask for. `of` tells which team asks, and `opened`
/// where the task is opened.
pub open spec fn are_asked(
    g: Seq<NodeView>,
    config: ConfigView,
    m: Seq<TaskRecordView>,
    k: int,
    requests: Seq<RequestView>,
    of: Seq<int>,
    opened: Seq<int>,
) -> bool {
    &&& of.len() == requests.len()
    &&& opened.len() == requests.len()
    // Whatever is asked for is called for.
    &&& forall|x: int|
        0 <= x < requests.len() ==> 0 <= of[x] < k && is_called_for(
            g,
            config.terminal_teams,
            m,
            config.teams[of[x]],
            #[trigger] requests[x],
        ) && (requests[x].task_id matches Some(task) ==> opens(m, task, opened[x]))
    // Teams ask in their order, and each in the order in which tasks are opened.
    &&& forall|x: int, y: int|
        0 <= x < y < of.len() ==> #[trigger] of[x] <= #[trigger] of[y] && (of[x] == of[y]
            ==> opened[x] < opened[y])
    // Whatever is called for is asked for.
    &&& forall|t: int|
        0 <= t < k && (#[trigger] config.teams[t]).trigger is Start && has_not_acted(
            m,
            config.teams[t].name,
        ) && !is_taken(g, config.teams[t].name, None) ==> is_asked(
            requests,
            config.teams[t].name,
            None,
        )
    &&& forall|t: int, task: Text, r: int|
        0 <= t < k && #[trigger] may_act(m, config.terminal_teams, config.teams[t], task, r)
            && !is_taken(g, config.teams[t].name, Some(task)) ==> is_asked(
            requests,
            config.teams[t].name,
            Some(task),
        ) && (distinct_teams(config.teams) ==> !has_no_files(config.teams[t], m[r]))
}

proof fn lemma_teams(
    g: Seq<NodeView>,
    config: ConfigView,
    m: Seq<TaskRecordView>,
    k: int,
) -> (w: (Seq<int>, Seq<int>))
    requires
        0 <= k <= config.teams.len(),
    ensures
        match triggers::requests_upto(g, config, m, k) {
            Ok(requests) => are_asked(g, config, m, k, requests, w.0, w.1),
            Err(_) => exists|t: int, task: Text, r: int|
                0 <= t < k && #[trigger] may_act(
                    m,
                    config.terminal_teams,
                    config.teams[t],
                    task,
                    r,
                ) && !is_taken(g, config.teams[t].name, Some(task)) && has_no_files(
                    config.teams[t],
                    m[r],
                ),
        },
    decreases k,
{
    if k == 0 {
        (Seq::empty(), Seq::empty())
    } else {
        let (of, opened) = lemma_teams(g, config, m, k - 1);
        match triggers::requests_upto(g, config, m, k - 1) {
            Err(_) => (of, opened),
            Ok(earlier) => {
                let team = config.teams[k - 1];
                let more_opened = lemma_team(g, earlier, team, config.terminal_teams, m);
                match triggers::team_requests(g, earlier, team, config.terminal_teams, m) {
                    Err(_) => {
                        let (task, r) = choose|task: Text, r: int|
                            #[trigger] may_act(m, config.terminal_teams, team, task, r)
                                && !is_taken(g, team.name, Some(task)) && has_no_files(team, m[r]);
                        assert(may_act(m, config.terminal_teams, config.teams[k - 1], task, r));
                        (of, opened)
                    },
                    Ok(more) => {
                        let all = earlier + more;
                        let w0 = of + Seq::new(more.len(), |x: int| k - 1);
                        let w1 = opened + more_opened;
                        lemma_teams_grow(g, config, m, k, earlier, more, of, opened, more_opened);
                        (w0, w1)
                    },
                }
            },
        }
    }
}

proof fn lemma_teams_grow(
    g: Seq<NodeView>,
    config: ConfigView,
    m: Seq<TaskRecordView>,
    k: int,
    earlier: Seq<RequestView>,
    more: Seq<RequestView>,
    of: Seq<int>,
    opened: Seq<int>,
    more_opened: Seq<int>,
)
    requires
        0 < k <= config.teams.len(),
        are_asked(g, config, m, k - 1, earlier, of, opened),
        triggers::team_requests(g, earlier, config.teams[k - 1], config.terminal_teams, m) == Ok::<
            Seq<RequestView>,
            Text,
        >(more),
        more_opened.len() == more.len(),
        forall|x: int|
            0 <= x < more.len() ==> is_called_for(
                g,
                config.terminal_teams,
                m,
                config.teams[k - 1],
                #[trigger] more[x],
            ),
        forall|x: int|
            0 <= x < more_opened.len() ==> 0 <= #[trigger] more_opened[x] && match more[x].task_id {
                Some(task) => opens(m, task, more_opened[x]),
                None => more.len() == 1,
            },
        forall|x: int, y: int|
            0 <= x < y < more_opened.len() ==> #[trigger] more_opened[x]
                < #[trigger] more_opened[y],
        config.teams[k - 1].trigger is Start && has_not_acted(m, config.teams[k - 1].name)
            && !is_taken(g, config.teams[k - 1].name, None) && !is_asked(
            earlier,
            config.teams[k - 1].name,
            None,
        ) ==> is_asked(more, config.teams[k - 1].name, None),
        forall|task: Text, r: int|
            #[trigger] may_act(m, config.terminal_teams, config.teams[k - 1], task, r) && !is_taken(
                g,
                config.teams[k - 1].name,
                Some(task),
            ) && !is_asked(earlier, config.teams[k - 1].name, Some(task)) ==> is_asked(
                more,
                config.teams[k - 1].name,
                Some(task),
            ) && !has_no_files(config.teams[k - 1], m[r]),
    ensures
        are_asked(
            g,
            config,
            m,
            k,
            earlier + more,
            of + Seq::new(more.len(), |x: int| k - 1),
            opened + more_opened,
        ),
{
    let all = earlier + more;
    let w0 = of + Seq::new(more.len(), |x: int| k - 1);
    let w1 = opened + more_opened;
    let n = earlier.len() as int;
    let team = config.teams[k - 1];
    assert forall|name: Text, task: Option<Text>|
        is_asked(earlier, name, task) || is_asked(more, name, task) implies #[trigger] is_asked(
        all,
        name,
        task,
    ) by {
        if is_asked(earlier, name, task) {
            let x = choose|x: int|
                0 <= x < earlier.len() && (#[trigger] earlier[x]).team == name && earlier[x].task_id
                    == task;
            assert(all[x] == earlier[x]);
        } else {
            let x = choose|x: int|
                0 <= x < more.len() && (#[trigger] more[x]).team == name && more[x].task_id == task;
            assert(all[n + x] == more[x]);
        }
    }
    assert forall|x: int| 0 <= x < all.len() implies 0 <= w0[x] < k && is_called_for(
        g,
        config.terminal_teams,
        m,
        config.teams[w0[x]],
        #[trigger] all[x],
    ) && (all[x].task_id matches Some(task) ==> opens(m, task, w1[x])) by {
        if x < n {
            assert(all[x] == earlier[x]);
        } else {
            assert(all[x] == more[x - n]);
            assert(w1[x] == more_opened[x - n]);
        }
    }
    assert forall|x: int, y: int| 0 <= x < y < w0.len() implies #[trigger] w0[x]
        <= #[trigger] w0[y] && (w0[x] == w0[y] ==> w1[x] < w1[y]) by {
        if x < n {
            assert(is_called_for(
                g,
                config.terminal_teams,
                m,
                config.teams[of[x]],
                earlier[x],
            ));
        }
        if y < n {
            assert(of[x] <= of[y]);
        } else if x >= n {
            assert(more_opened[x - n] < more_opened[y - n]);
        }
    }
    assert forall|t: int, task: Text, r: int|
        0 <= t < k && #[trigger] may_act(m, config.terminal_teams, config.teams[t], task, r)
            && !is_taken(g, config.teams[t].name, Some(task)) implies is_asked(
        all,
        config.teams[t].name,
        Some(task),
    ) && (distinct_teams(config.teams) ==> !has_no_files(config.teams[t], m[r])) by {
        if t == k - 1 && is_asked(earlier, team.name, Some(task)) {
            let x = choose|x: int|
                0 <= x < earlier.len() && (#[trigger] earlier[x]).team == team.name
                    && earlier[x].task_id == Some(task);
            assert(is_called_for(
                g,
                config.terminal_teams,
                m,
                config.teams[of[x]],
                earlier[x],
            ));
            assert(config.teams[of[x]].name == team.name);
        }
    }
}

/// Teams ask for exactly what is called for, in order. A team that acts at the
/// start asks once for the run as a whole. One that follows others asks for
/// each task that it has before it, as its first row declares it, as soon as
/// every terminal team has a row for everything that row depends on. None asks
/// for what a node that has not failed already stands for.
pub proof fn law_teams_ask_for_what_is_called_for(
    g: Seq<NodeView>,
    config: ConfigView,
    m: Seq<TaskRecordView>,
    requests: Seq<RequestView>,
) -> (w: (Seq<int>, Seq<int>))
    requires
        triggers::triggered(g, config, m) == Ok::<Seq<RequestView>, Text>(requests),
    ensures
        are_asked(g, config, m, config.teams.len() as int, requests, w.0, w.1),
{
    lemma_teams(g, config, m, config.teams.len() as int)
}

/// A task waits for what it depends on: for every request for a task, every
/// terminal team has a row for every task that its first row depends on.
pub proof fn law_tasks_wait_for_all_they_depend_on(
    g: Seq<NodeView>,
    config: ConfigView,
    m: Seq<TaskRecordView>,
    requests: Seq<RequestView>,
    x: int,
    task: Text,
    r: int,
    d: int,
    t: int,
)
    requires
        triggers::triggered(g, config, m) == Ok::<Seq<RequestView>, Text>(requests),
        0 <= x < requests.len(),
        requests[x].task_id == Some(task),
        declares(m, task, r),
        0 <= d < m[r].depends_on.len(),
        0 <= t < config.terminal_teams.len(),
    ensures
        exists|q: int|
            0 <= q < m.len() && (#[trigger] m[q]).id == m[r].depends_on[d] && m[q].team == Some(
                config.terminal_teams[t],
            ),
{
    let (of, opened) = lemma_teams(g, config, m, config.teams.len() as int);
    let team = config.teams[of[x]];
    assert(is_called_for(g, config.terminal_teams, m, team, requests[x]));
    let s = choose|s: int|
        0 <= s < m.len() && asks_for_task(requests[x], team, #[trigger] m[s]) && may_act(
            m,
            config.terminal_teams,
            team,
            m[s].id,
            s,
        );
    assert(declares(m, task, s));
    if s < r {
        assert(m[s].id != task);
    } else if r < s {
        assert(m[r].id != task);
    }
    assert(has_row(m, m[r].depends_on[d], config.terminal_teams[t]));
}

/// Teams fail to ask only over files: some team may act on a task, and nobody
/// can tell its files. Where teams have names of their own, they then always
/// fail.
pub proof fn law_teams_fail_over_files_alone(
    g: Seq<NodeView>,
    config: ConfigView,
    m: Seq<TaskRecordView>,
)
    ensures
        triggers::triggered(g, config, m) is Err ==> exists|t: int, task: Text, r: int|
            0 <= t < config.teams.len() && #[trigger] may_act(
                m,
                config.terminal_teams,
                config.teams[t],
                task,
                r,
            ) && !is_taken(g, config.teams[t].name, Some(task)) && has_no_files(
                config.teams[t],
                m[r],
            ),
        distinct_teams(config.teams) && triggers::triggered(g, config, m) is Ok ==> forall|
            t: int,
            task: Text,
            r: int,
        |
            0 <= t < config.teams.len() && #[trigger] may_act(
                m,
                config.terminal_teams,
                config.teams[t],
                task,
                r,
            ) && !is_taken(g, config.teams[t].name, Some(task)) ==> !has_no_files(
                config.teams[t],
                m[r],
            ),
{
    let w = lemma_teams(g, config, m, config.teams.len() as int);
}

// ── terminal teams ─────────────────────────────────────────────────────────

/// The first team of that name.
pub open spec fn is_named(teams: Seq<TeamView>, name: Text, t: int) -> bool {
    &&& 0 <= t < teams.len()
    &&& teams[t].name == name
    &&& forall|s: int| 0 <= s < t ==> (#[trigger] teams[s]).name != name
}

/// The team of that name still has the task before it.
pub open spec fn is_left(
    teams: Seq<TeamView>,
    m: Seq<TaskRecordView>,
    name: Text,
    task: Text,
) -> bool {
    exists|t: int|
        #[trigger] is_named(teams, name, t) && (teams[t].trigger matches TriggerView::AfterTeams(
            after,
        ) && has_before_it(m, after, name, task))
}

proof fn lemma_named(teams: Seq<TeamView>, name: Text)
    ensures
        match triggers::team_named(teams, name) {
            Some(team) => exists|t: int| #[trigger] is_named(teams, name, t) && teams[t] == team,
            None => forall|t: int| !(#[trigger] is_named(teams, name, t)),
        },
        forall|s: int, t: int|
            #[trigger] is_named(teams, name, s) && #[trigger] is_named(teams, name, t) ==> s == t,
{
    let check = triggers::name_check(teams, name);
    search::lemma_first_some_none(teams.len(), check);
    assert forall|s: int, t: int|
        #[trigger] is_named(teams, name, s) && #[trigger] is_named(teams, name, t) implies s == t by {
        if s < t {
            assert(teams[s].name != name);
        } else if t < s {
            assert(teams[t].name != name);
        }
    }
    if triggers::team_named(teams, name) is Some {
        let t = search::lemma_first_some_found(teams.len(), check);
        assert forall|s: int| 0 <= s < t implies (#[trigger] teams[s]).name != name by {
            assert(check(s) is None);
        }
        assert(is_named(teams, name, t));
    } else {
        assert forall|t: int| !(#[trigger] is_named(teams, name, t)) by {
            if is_named(teams, name, t) {
                assert(check(t) is None);
            }
        }
    }
}

/// The tasks of a list stand in the order in which the manifest opens them.
pub open spec fn in_opening_order(m: Seq<TaskRecordView>, tasks: Seq<Text>) -> bool {
    forall|p: int, q: int, a: int, b: int|
        0 <= p < q < tasks.len() && #[trigger] opens(m, tasks[p], a) && #[trigger] opens(
            m,
            tasks[q],
            b,
        ) ==> a < b
}

/// What a terminal team has left is told exactly: the first one that has a
/// task before it, and all the tasks it has before it, in the order in which
/// they were opened; nothing, if none has any.
pub proof fn law_what_is_left_is_told(config: ConfigView, m: Seq<TaskRecordView>)
    ensures
        match triggers::incomplete_terminal_team(config, m) {
            Some((name, tasks)) => {
                &&& tasks.len() > 0
                &&& exists|x: int|
                    0 <= x < config.terminal_teams.len() && #[trigger] config.terminal_teams[x]
                        == name && forall|y: int, task: Text|
                        0 <= y < x ==> !(#[trigger] is_left(
                            config.teams,
                            m,
                            config.terminal_teams[y],
                            task,
                        ))
                &&& forall|task: Text|
                    #[trigger] tasks.contains(task) == is_left(config.teams, m, name, task)
                &&& in_opening_order(m, tasks)
            },
            None => forall|x: int, task: Text|
                0 <= x < config.terminal_teams.len() ==> !(#[trigger] is_left(
                    config.teams,
                    m,
                    config.terminal_teams[x],
                    task,
                )),
        },
{
    let check = triggers::terminal_check(config, m);
    search::lemma_first_some_none(config.terminal_teams.len(), check);
    assert forall|x: int|
        0 <= x < config.terminal_teams.len() && #[trigger] check(x) is None implies forall|
        task: Text,
    |
        !(#[trigger] is_left(config.teams, m, config.terminal_teams[x], task)) by {
        lemma_left(config, m, x);
    }
    if triggers::incomplete_terminal_team(config, m) is Some {
        let x = search::lemma_first_some_found(config.terminal_teams.len(), check);
        lemma_left(config, m, x);
        assert forall|y: int, task: Text| 0 <= y < x implies !(#[trigger] is_left(
            config.teams,
            m,
            config.terminal_teams[y],
            task,
        )) by {
            assert(check(y) is None);
        }
        let (name, tasks) = triggers::incomplete_terminal_team(config, m)->0;
        assert(config.terminal_teams[x] == name);
    } else {
        assert forall|x: int, task: Text| 0 <= x < config.terminal_teams.len() implies !(
        #[trigger] is_left(config.teams, m, config.terminal_teams[x], task)) by {
            assert(check(x) is None);
        }
    }
}

proof fn lemma_left(config: ConfigView, m: Seq<TaskRecordView>, x: int)
    requires
        0 <= x < config.terminal_teams.len(),
    ensures
        match triggers::terminal_check(config, m)(x) {
            Some((name, tasks)) => {
                &&& name == config.terminal_teams[x]
                &&& tasks.len() > 0
                &&& forall|task: Text|
                    #[trigger] tasks.contains(task) == is_left(config.teams, m, name, task)
                &&& in_opening_order(m, tasks)
            },
            None => forall|task: Text|
                !(#[trigger] is_left(config.teams, m, config.terminal_teams[x], task)),
        },
{
    let name = config.terminal_teams[x];
    lemma_named(config.teams, name);
    if let Some(team) = triggers::team_named(config.teams, name) {
        let t = choose|t: int| #[trigger] is_named(config.teams, name, t) && config.teams[t] == team;
        if let TriggerView::AfterTeams(after) = team.trigger {
            let at = law_following_teams_act_on_what_is_before_them(after, team.name, m);
            let tasks = triggers::open_tasks(m, after, team.name, m.len() as int);
            assert forall|task: Text| #[trigger] is_left(config.teams, m, name, task)
                == has_before_it(m, after, name, task) by {
                if has_before_it(m, after, name, task) {
                    assert(is_named(config.teams, name, t));
                }
            }
            assert forall|task: Text| #[trigger] tasks.contains(task) == is_left(
                config.teams,
                m,
                name,
                task,
            ) by {}
            if tasks.len() == 0 {
                assert forall|task: Text| !(#[trigger] is_left(
                    config.teams,
                    m,
                    name,
                    task,
                )) by {
                    assert(!tasks.contains(task));
                }
            }
            assert(in_opening_order(m, tasks)) by {
                assert forall|p: int, q: int, a: int, b: int|
                    0 <= p < q < tasks.len() && #[trigger] opens(m, tasks[p], a)
                        && #[trigger] opens(m, tasks[q], b) implies a < b by {
                    assert(opens(m, tasks[p], at[p]));
                    assert(opens(m, tasks[q], at[q]));
                    lemma_one_opening(m, tasks[p], a, at[p]);
                    lemma_one_opening(m, tasks[q], b, at[q]);
                    assert(at[p] < at[q]);
                }
            }
        }
    }
}

proof fn lemma_one_opening(m: Seq<TaskRecordView>, task: Text, a: int, b: int)
    requires
        opens(m, task, a),
        opens(m, task, b),
    ensures
        a == b,
{
    if a < b {
        assert(!(m[a].id == task && m[a].team is Some));
    } else if b < a {
        assert(!(m[b].id == task && m[b].team is Some));
    }
}

} // verus!
