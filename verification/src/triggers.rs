//! Team triggers: which teams should act on the current task manifest, and
//! the nodes that are requested for them.
//!
//! Triggers are evaluated after every integration. A pair of team and task
//! that a node not yet failed stands for is never requested again.

use vstd::prelude::*;

use crate::graph::{NodeId, NodeOrigin, NodeView, RunGraph};
use crate::language;
use crate::language::derive_validation_target;
use crate::manifest;
use crate::manifest::{find_field, TaskRecord, TaskRecordView};
use crate::queries;
use crate::search;
use crate::teams::{ConfigView, RunConfig, TeamConfig, TeamView, Trigger, TriggerView};
use crate::text;
use crate::text::{contains_text, copy_opt_text, same_opt_text, Text};
use crate::types;
use crate::types::{NodeRequest, RequestView};

verus! {

// ── decisions ──────────────────────────────────────────────────────────────

/// The manifest has a row for the task from the team.
pub open spec fn completed_by(m: Seq<TaskRecordView>, task: Text, team: Text) -> bool {
    exists|i: int| 0 <= i < m.len() && (#[trigger] m[i]).id == task && m[i].team == Some(team)
}

/// The manifest has a row from the team.
pub open spec fn has_completion(m: Seq<TaskRecordView>, team: Text) -> bool {
    exists|i: int| 0 <= i < m.len() && (#[trigger] m[i]).team == Some(team)
}

/// Each of the teams has completed the task.
pub open spec fn completed_by_all(m: Seq<TaskRecordView>, task: Text, teams: Seq<Text>) -> bool {
    forall|t: int| 0 <= t < teams.len() ==> completed_by(m, task, #[trigger] teams[t])
}

/// The tasks among the first `k` rows that `after` have all completed and
/// `team` has not, in order of first appearance.
pub open spec fn open_tasks(
    m: Seq<TaskRecordView>,
    after: Seq<Text>,
    team: Text,
    k: int,
) -> Seq<Text>
    decreases k,
{
    if k <= 0 {
        Seq::empty()
    } else {
        let earlier = open_tasks(m, after, team, k - 1);
        let row = m[k - 1];
        if row.team is Some && !earlier.contains(row.id) && completed_by_all(m, row.id, after)
            && !completed_by(m, row.id, team) {
            earlier.push(row.id)
        } else {
            earlier
        }
    }
}

/// Whether, and for which tasks, a team should act.
pub enum DecisionView {
    RunOnce { should_run: bool },
    ForTasks(Seq<Text>),
}

/// A `Start` team acts once, until it has completed something. A team that
/// follows others acts on every task that they have completed and it has not.
pub open spec fn decision(trigger: TriggerView, team: Text, m: Seq<TaskRecordView>) -> DecisionView {
    match trigger {
        TriggerView::Start => DecisionView::RunOnce { should_run: !has_completion(m, team) },
        TriggerView::AfterTeams(after) => DecisionView::ForTasks(
            open_tasks(m, after, team, m.len() as int),
        ),
    }
}

/// Whether, and for which tasks, a team should act.
#[derive(Debug, PartialEq)]
pub enum TriggerDecision {
    /// Once, for the run as a whole.
    RunOnce {
        /// Whether it still should.
        should_run: bool,
    },
    /// For each of these tasks.
    ForTasks(Vec<String>),
}

impl View for TriggerDecision {
    type V = DecisionView;

    open spec fn view(&self) -> DecisionView {
        match self {
            TriggerDecision::RunOnce { should_run } => DecisionView::RunOnce {
                should_run: *should_run,
            },
            TriggerDecision::ForTasks(ids) => DecisionView::ForTasks(text::texts(ids@)),
        }
    }
}

fn is_completed_by(m: &Vec<TaskRecord>, task: &String, team: &String) -> (found: bool)
    ensures
        found == completed_by(manifest::record_views(m@), task@, team@),
{
    let ghost views = manifest::record_views(m@);
    let mut i: usize = 0;
    while i < m.len()
        invariant
            i <= m.len(),
            views == manifest::record_views(m@),
            forall|j: int|
                0 <= j < i ==> !((#[trigger] views[j]).id == task@ && views[j].team == Some(team@)),
        decreases m.len() - i,
    {
        assert(views[i as int] == m@[i as int]@);
        if m[i].id == *task {
            if let Some(t) = &m[i].team {
                if *t == *team {
                    return true;
                }
            }
        }
        i += 1;
    }
    false
}

fn has_any_completion(m: &Vec<TaskRecord>, team: &String) -> (found: bool)
    ensures
        found == has_completion(manifest::record_views(m@), team@),
{
    let ghost views = manifest::record_views(m@);
    let mut i: usize = 0;
    while i < m.len()
        invariant
            i <= m.len(),
            views == manifest::record_views(m@),
            forall|j: int| 0 <= j < i ==> (#[trigger] views[j]).team != Some(team@),
        decreases m.len() - i,
    {
        assert(views[i as int] == m@[i as int]@);
        if let Some(t) = &m[i].team {
            if *t == *team {
                return true;
            }
        }
        i += 1;
    }
    false
}

fn is_completed_by_all(m: &Vec<TaskRecord>, task: &String, teams: &Vec<String>) -> (all: bool)
    ensures
        all == completed_by_all(manifest::record_views(m@), task@, text::texts(teams@)),
{
    let mut i: usize = 0;
    while i < teams.len()
        invariant
            i <= teams.len(),
            forall|j: int|
                0 <= j < i ==> completed_by(
                    manifest::record_views(m@),
                    task@,
                    #[trigger] text::texts(teams@)[j],
                ),
        decreases teams.len() - i,
    {
        assert(text::texts(teams@)[i as int] == teams@[i as int]@);
        if !is_completed_by(m, task, &teams[i]) {
            return false;
        }
        i += 1;
    }
    true
}

fn find_open_tasks(m: &Vec<TaskRecord>, after: &Vec<String>, team: &String) -> (ids: Vec<String>)
    ensures
        text::texts(ids@) == open_tasks(
            manifest::record_views(m@),
            text::texts(after@),
            team@,
            m@.len() as int,
        ),
{
    let ghost views = manifest::record_views(m@);
    let mut ids: Vec<String> = Vec::new();
    let mut i: usize = 0;
    assert(text::texts(ids@) =~= Seq::<Text>::empty());
    while i < m.len()
        invariant
            i <= m.len(),
            views == manifest::record_views(m@),
            text::texts(ids@) == open_tasks(views, text::texts(after@), team@, i as int),
        decreases m.len() - i,
    {
        assert(views[i as int] == m@[i as int]@);
        let row = &m[i];
        if row.team.is_some() && !contains_text(&ids, &row.id) && is_completed_by_all(
            m,
            &row.id,
            after,
        ) && !is_completed_by(m, &row.id, team) {
            let ghost earlier = text::texts(ids@);
            ids.push(row.id.clone());
            assert(text::texts(ids@) =~= earlier.push(row.id@));
        }
        i += 1;
    }
    ids
}

/// Decides whether, and for which tasks, a team should act.
pub fn evaluate_trigger(trigger: &Trigger, team: &String, m: &Vec<TaskRecord>) -> (out:
    TriggerDecision)
    ensures
        out@ == decision(trigger@, team@, manifest::record_views(m@)),
{
    match trigger {
        Trigger::Start => TriggerDecision::RunOnce { should_run: !has_any_completion(m, team) },
        Trigger::AfterTeams(after) => TriggerDecision::ForTasks(find_open_tasks(m, after, team)),
    }
}

// ── gating ─────────────────────────────────────────────────────────────────

/// The row at a position, if it is of the task.
pub open spec fn row_check(m: Seq<TaskRecordView>, task: Text) -> spec_fn(int) -> Option<
    TaskRecordView,
> {
    |i: int|
        if m[i].id == task {
            Some(m[i])
        } else {
            None
        }
}

/// The first row of the task: the planner's declaration of it.
pub open spec fn declared(m: Seq<TaskRecordView>, task: Text) -> Option<TaskRecordView> {
    search::first_some(m.len(), row_check(m, task))
}

/// Everything the declared task depends on was completed by every terminal
/// team.
pub open spec fn dependencies_met(
    m: Seq<TaskRecordView>,
    terminal_teams: Seq<Text>,
    row: TaskRecordView,
) -> bool {
    forall|d: int|
        0 <= d < row.depends_on.len() ==> completed_by_all(
            m,
            #[trigger] row.depends_on[d],
            terminal_teams,
        )
}

fn find_declared<'a>(m: &'a Vec<TaskRecord>, task: &String) -> (row: Option<&'a TaskRecord>)
    ensures
        match row {
            Some(r) => declared(manifest::record_views(m@), task@) == Some(r@),
            None => declared(manifest::record_views(m@), task@) is None,
        },
{
    let ghost views = manifest::record_views(m@);
    let mut i: usize = 0;
    while i < m.len()
        invariant
            i <= m.len(),
            views == manifest::record_views(m@),
            search::first_some(i as nat, row_check(views, task@)) is None,
        decreases m.len() - i,
    {
        assert(views[i as int] == m@[i as int]@);
        if m[i].id == *task {
            proof {
                search::lemma_first_some_extends(
                    (i + 1) as nat,
                    views.len(),
                    row_check(views, task@),
                );
            }
            return Some(&m[i]);
        }
        i += 1;
    }
    None
}

fn are_dependencies_met(m: &Vec<TaskRecord>, terminal_teams: &Vec<String>, row: &TaskRecord) -> (met:
    bool)
    ensures
        met == dependencies_met(
            manifest::record_views(m@),
            text::texts(terminal_teams@),
            row@,
        ),
{
    let mut i: usize = 0;
    while i < row.depends_on.len()
        invariant
            i <= row.depends_on.len(),
            forall|d: int|
                0 <= d < i ==> completed_by_all(
                    manifest::record_views(m@),
                    #[trigger] row@.depends_on[d],
                    text::texts(terminal_teams@),
                ),
        decreases row.depends_on.len() - i,
    {
        assert(row@.depends_on[i as int] == row.depends_on@[i as int]@);
        if !is_completed_by_all(m, &row.depends_on[i], terminal_teams) {
            return false;
        }
        i += 1;
    }
    true
}

// ── requests ───────────────────────────────────────────────────────────────

/// A node for the pair stands in the graph, not failed, or is requested.
pub open spec fn is_requested(
    g: Seq<NodeView>,
    requests: Seq<RequestView>,
    team: Text,
    task: Option<Text>,
) -> bool {
    queries::has_team_node(g, team, task) || exists|i: int|
        0 <= i < requests.len() && (#[trigger] requests[i]).team == team && requests[i].task_id
            == task
}

/// The objective of the node at a position, if it is a root.
pub open spec fn root_check(g: Seq<NodeView>) -> spec_fn(int) -> Option<Text> {
    |i: int|
        if g[i].origin is Root {
            Some(g[i].objective)
        } else {
            None
        }
}

/// The objective that the run was started with.
pub open spec fn run_objective(g: Seq<NodeView>) -> Text {
    match search::first_some(g.len(), root_check(g)) {
        Some(objective) => objective,
        None => Seq::empty(),
    }
}

/// A request for a node of the team.
pub open spec fn team_request(
    team: TeamView,
    task: Option<Text>,
    objective: Text,
    target_files: Seq<Text>,
    required: Seq<Text>,
) -> RequestView {
    RequestView {
        id: Seq::empty(),
        kind: team.kind,
        team: team.name,
        task_id: task,
        adapter: team.adapter,
        northstar: team.northstar,
        worker_role: team.worker_role,
        objective,
        target_files,
        required_validation_targets: required,
        dependencies: Seq::empty(),
        validation_plan: None,
    }
}

/// The files a team works on for a declared task, and those it requires to be
/// validated: the task's file and the file that validates it, in the order
/// that suits the team. A team that writes the validating file needs one.
pub open spec fn task_files(team: TeamView, row: TaskRecordView) -> Result<
    (Seq<Text>, Seq<Text>),
    Text,
> {
    match manifest::field_value(row.task_kv, "file_path"@) {
        None => Err("team '"@ + team.name + "': task "@ + row.id + " records no file_path"@),
        Some(path) => match language::validation_target(team.language_plugins, path) {
            Some(derived) => if team.derives_target {
                Ok((seq![derived], seq![path]))
            } else {
                Ok((seq![path], seq![derived]))
            },
            None => if team.derives_target {
                Err(
                    "team '"@ + team.name + "': no validation-target derivation applies to '"@
                        + path + "' (task "@ + row.id + ")"@,
                )
            } else {
                Ok((seq![path], Seq::empty()))
            },
        },
    }
}

/// The requests for the first tasks of `ids`, after `requests` were made:
/// one for each task whose dependencies are met and that is not requested.
pub open spec fn task_requests(
    g: Seq<NodeView>,
    requests: Seq<RequestView>,
    team: TeamView,
    terminal_teams: Seq<Text>,
    m: Seq<TaskRecordView>,
    ids: Seq<Text>,
) -> Result<Seq<RequestView>, Text>
    decreases ids.len(),
{
    if ids.len() == 0 {
        Ok(Seq::empty())
    } else {
        match task_requests(g, requests, team, terminal_teams, m, ids.drop_last()) {
            Err(message) => Err(message),
            Ok(earlier) => match declared(m, ids.last()) {
                None => Ok(earlier),
                Some(row) => if !dependencies_met(m, terminal_teams, row) || is_requested(
                    g,
                    requests,
                    team.name,
                    Some(ids.last()),
                ) {
                    Ok(earlier)
                } else {
                    match task_files(team, row) {
                        Err(message) => Err(message),
                        Ok((target_files, required)) => Ok(
                            earlier.push(
                                team_request(
                                    team,
                                    Some(ids.last()),
                                    row.objective,
                                    target_files,
                                    required,
                                ),
                            ),
                        ),
                    }
                },
            },
        }
    }
}

/// The requests for one team, after `requests` were made for earlier ones.
pub open spec fn team_requests(
    g: Seq<NodeView>,
    requests: Seq<RequestView>,
    team: TeamView,
    terminal_teams: Seq<Text>,
    m: Seq<TaskRecordView>,
) -> Result<Seq<RequestView>, Text> {
    match decision(team.trigger, team.name, m) {
        DecisionView::RunOnce { should_run } => if should_run && !is_requested(
            g,
            requests,
            team.name,
            None,
        ) {
            Ok(seq![team_request(team, None, run_objective(g), Seq::empty(), Seq::empty())])
        } else {
            Ok(Seq::empty())
        },
        DecisionView::ForTasks(ids) => task_requests(g, requests, team, terminal_teams, m, ids),
    }
}

/// The requests for the first `k` teams, in order.
pub open spec fn requests_upto(
    g: Seq<NodeView>,
    config: ConfigView,
    m: Seq<TaskRecordView>,
    k: int,
) -> Result<Seq<RequestView>, Text>
    decreases k,
{
    if k <= 0 {
        Ok(Seq::empty())
    } else {
        match requests_upto(g, config, m, k - 1) {
            Err(message) => Err(message),
            Ok(earlier) => match team_requests(
                g,
                earlier,
                config.teams[k - 1],
                config.terminal_teams,
                m,
            ) {
                Err(message) => Err(message),
                Ok(more) => Ok(earlier + more),
            },
        }
    }
}

/// All requests that the triggers make of the graph and manifest, or why the
/// files of one cannot be derived.
pub open spec fn triggered(g: Seq<NodeView>, config: ConfigView, m: Seq<TaskRecordView>) -> Result<
    Seq<RequestView>,
    Text,
> {
    requests_upto(g, config, m, config.teams.len() as int)
}

/// The value of a list of requests or of an error message.
pub open spec fn requests_result(r: Result<Vec<NodeRequest>, String>) -> Result<
    Seq<RequestView>,
    Text,
> {
    match r {
        Ok(requests) => Ok(types::request_views(requests@)),
        Err(message) => Err(message@),
    }
}

fn is_pair_requested(
    graph: &RunGraph,
    requests: &Vec<NodeRequest>,
    team: &String,
    task: &Option<String>,
) -> (found: bool)
    ensures
        found == is_requested(
            graph@,
            types::request_views(requests@),
            team@,
            text::opt_text(*task),
        ),
{
    if graph.has_active_team_node(team, task) {
        return true;
    }
    let ghost views = types::request_views(requests@);
    let mut i: usize = 0;
    while i < requests.len()
        invariant
            i <= requests.len(),
            views == types::request_views(requests@),
            forall|j: int|
                0 <= j < i ==> !((#[trigger] views[j]).team == team@ && views[j].task_id
                    == text::opt_text(*task)),
        decreases requests.len() - i,
    {
        assert(views[i as int] == requests@[i as int]@);
        if requests[i].team == *team && same_opt_text(&requests[i].task_id, task) {
            return true;
        }
        i += 1;
    }
    false
}

/// The objective that the run was started with.
pub fn root_objective(graph: &RunGraph) -> (objective: String)
    ensures
        objective@ == run_objective(graph@),
{
    let mut i: usize = 0;
    while i < graph.nodes.len()
        invariant
            i <= graph.nodes.len(),
            search::first_some(i as nat, root_check(graph@)) is None,
        decreases graph.nodes.len() - i,
    {
        assert(graph@[i as int] == graph.nodes@[i as int]@);
        match &graph.nodes[i].origin {
            NodeOrigin::Root => {
                proof {
                    search::lemma_first_some_extends(
                        (i + 1) as nat,
                        graph@.len(),
                        root_check(graph@),
                    );
                }
                return graph.nodes[i].objective.clone();
            },
            _ => {},
        }
        i += 1;
    }
    String::new()
}

fn make_request(
    team: &TeamConfig,
    task: Option<String>,
    objective: String,
    target_files: Vec<String>,
    required: Vec<String>,
) -> (request: NodeRequest)
    ensures
        request@ == team_request(
            team@,
            text::opt_text(task),
            objective@,
            text::texts(target_files@),
            text::texts(required@),
        ),
{
    let request = NodeRequest {
        id: NodeId(String::new()),
        kind: team.kind,
        team: team.name.clone(),
        task_id: task,
        adapter: team.adapter.clone(),
        northstar: team.northstar.clone(),
        worker_role: copy_opt_text(&team.worker_role),
        objective,
        target_files,
        required_validation_targets: required,
        dependencies: vec![],
        validation_plan: None,
    };
    assert(request@.dependencies =~= Seq::<Text>::empty());
    request
}

/// The files a team works on for a declared task, and those it requires to be
/// validated.
pub fn task_target_files(team: &TeamConfig, row: &TaskRecord) -> (files: Result<
    (Vec<String>, Vec<String>),
    String,
>)
    ensures
        match files {
            Ok(f) => task_files(team@, row@) == Ok::<(Seq<Text>, Seq<Text>), Text>(
                (text::texts(f.0@), text::texts(f.1@)),
            ),
            Err(message) => task_files(team@, row@) == Err::<(Seq<Text>, Seq<Text>), Text>(
                message@,
            ),
        },
{
    let key = "file_path".to_string();
    match find_field(&row.task_kv, &key) {
        None => {
            let mut message = "team '".to_string();
            message.append(team.name.as_str());
            message.append("': task ");
            message.append(row.id.as_str());
            message.append(" records no file_path");
            Err(message)
        },
        Some(path) => {
            match derive_validation_target(&team.language_plugins, path.as_str()) {
                Some(derived) => {
                    if team.derives_target {
                        let files = (vec![derived], vec![path.clone()]);
                        assert(text::texts(files.0@) =~= seq![derived@]);
                        assert(text::texts(files.1@) =~= seq![path@]);
                        Ok(files)
                    } else {
                        let files = (vec![path.clone()], vec![derived]);
                        assert(text::texts(files.0@) =~= seq![path@]);
                        assert(text::texts(files.1@) =~= seq![derived@]);
                        Ok(files)
                    }
                },
                None => {
                    if team.derives_target {
                        let mut message = "team '".to_string();
                        message.append(team.name.as_str());
                        message.append("': no validation-target derivation applies to '");
                        message.append(path.as_str());
                        message.append("' (task ");
                        message.append(row.id.as_str());
                        message.append(")");
                        Err(message)
                    } else {
                        let files: (Vec<String>, Vec<String>) = (vec![path.clone()], vec![]);
                        assert(text::texts(files.0@) =~= seq![path@]);
                        assert(text::texts(files.1@) =~= Seq::<Text>::empty());
                        Ok(files)
                    }
                },
            }
        },
    }
}

fn spawn_for_tasks(
    graph: &RunGraph,
    requests: &Vec<NodeRequest>,
    team: &TeamConfig,
    terminal_teams: &Vec<String>,
    m: &Vec<TaskRecord>,
    ids: &Vec<String>,
) -> (out: Result<Vec<NodeRequest>, String>)
    ensures
        requests_result(out) == task_requests(
            graph@,
            types::request_views(requests@),
            team@,
            text::texts(terminal_teams@),
            manifest::record_views(m@),
            text::texts(ids@),
        ),
{
    let ghost views = types::request_views(requests@);
    let ghost rows = manifest::record_views(m@);
    let ghost all = text::texts(ids@);
    let ghost terminal = text::texts(terminal_teams@);
    let mut out: Vec<NodeRequest> = Vec::new();
    let mut i: usize = 0;
    proof {
        assert(all.take(0) =~= Seq::<Text>::empty());
        assert(types::request_views(out@) =~= Seq::<RequestView>::empty());
    }
    while i < ids.len()
        invariant
            i <= ids.len(),
            views == types::request_views(requests@),
            rows == manifest::record_views(m@),
            all == text::texts(ids@),
            terminal == text::texts(terminal_teams@),
            task_requests(graph@, views, team@, terminal, rows, all.take(i as int)) == Ok::<
                Seq<RequestView>,
                Text,
            >(types::request_views(out@)),
        decreases ids.len() - i,
    {
        let ghost part = all.take(i + 1);
        proof {
            assert(part.drop_last() =~= all.take(i as int));
            assert(part.last() == ids@[i as int]@);
        }
        let id = &ids[i];
        if let Some(row) = find_declared(m, id) {
            let task: Option<String> = Some(id.clone());
            if are_dependencies_met(m, terminal_teams, row) && !is_pair_requested(
                graph,
                requests,
                &team.name,
                &task,
            ) {
                match task_target_files(team, row) {
                    Err(message) => {
                        proof {
                            lemma_task_requests_error(
                                graph@,
                                views,
                                team@,
                                terminal,
                                rows,
                                all,
                                i + 1,
                            );
                        }
                        return Err(message);
                    },
                    Ok(files) => {
                        let ghost earlier = types::request_views(out@);
                        let request = make_request(
                            team,
                            task,
                            row.objective.clone(),
                            files.0,
                            files.1,
                        );
                        out.push(request);
                        assert(types::request_views(out@) =~= earlier.push(request@));
                    },
                }
            }
        }
        i += 1;
    }
    assert(all.take(all.len() as int) =~= all);
    Ok(out)
}

proof fn lemma_task_requests_error(
    g: Seq<NodeView>,
    requests: Seq<RequestView>,
    team: TeamView,
    terminal_teams: Seq<Text>,
    m: Seq<TaskRecordView>,
    ids: Seq<Text>,
    k: int,
)
    requires
        0 <= k <= ids.len(),
        task_requests(g, requests, team, terminal_teams, m, ids.take(k)) is Err,
    ensures
        task_requests(g, requests, team, terminal_teams, m, ids) == task_requests(
            g,
            requests,
            team,
            terminal_teams,
            m,
            ids.take(k),
        ),
    decreases ids.len(),
{
    if k < ids.len() {
        assert(ids.drop_last().take(k) =~= ids.take(k));
        lemma_task_requests_error(g, requests, team, terminal_teams, m, ids.drop_last(), k);
    } else {
        assert(ids.take(k) =~= ids);
    }
}

proof fn lemma_requests_error(
    g: Seq<NodeView>,
    config: ConfigView,
    m: Seq<TaskRecordView>,
    k: int,
    n: int,
)
    requires
        0 <= k <= n,
        requests_upto(g, config, m, k) is Err,
    ensures
        requests_upto(g, config, m, n) == requests_upto(g, config, m, k),
    decreases n,
{
    if k < n {
        lemma_requests_error(g, config, m, k, n - 1);
    }
}

fn spawn_run_once(
    graph: &RunGraph,
    requests: &Vec<NodeRequest>,
    team: &TeamConfig,
    should_run: bool,
) -> (out: Vec<NodeRequest>)
    ensures
        types::request_views(out@) == (if should_run && !is_requested(
            graph@,
            types::request_views(requests@),
            team@.name,
            None,
        ) {
            seq![
                team_request(team@, None, run_objective(graph@), Seq::empty(), Seq::empty()),
            ]
        } else {
            Seq::empty()
        }),
{
    if !should_run || is_pair_requested(graph, requests, &team.name, &None) {
        let out: Vec<NodeRequest> = vec![];
        assert(types::request_views(out@) =~= Seq::<RequestView>::empty());
        return out;
    }
    let no_targets: Vec<String> = vec![];
    let no_required: Vec<String> = vec![];
    assert(text::texts(no_targets@) =~= Seq::<Text>::empty());
    assert(text::texts(no_required@) =~= Seq::<Text>::empty());
    let request = make_request(team, None, root_objective(graph), no_targets, no_required);
    let out = vec![request];
    assert(types::request_views(out@) =~= seq![request@]);
    out
}

/// Evaluates every team's trigger and collects the nodes to request, or says
/// why the files of one cannot be derived.
pub fn plan_team_spawns(graph: &RunGraph, run_config: &RunConfig, m: &Vec<TaskRecord>) -> (out:
    Result<Vec<NodeRequest>, String>)
    ensures
        requests_result(out) == triggered(graph@, run_config@, manifest::record_views(m@)),
{
    let ghost rows = manifest::record_views(m@);
    let mut out: Vec<NodeRequest> = Vec::new();
    let mut i: usize = 0;
    assert(types::request_views(out@) =~= Seq::<RequestView>::empty());
    while i < run_config.teams.len()
        invariant
            i <= run_config.teams.len(),
            rows == manifest::record_views(m@),
            requests_upto(graph@, run_config@, rows, i as int) == Ok::<Seq<RequestView>, Text>(
                types::request_views(out@),
            ),
        decreases run_config.teams.len() - i,
    {
        let team = &run_config.teams[i];
        assert(run_config@.teams[i as int] == team@);
        let ghost earlier = types::request_views(out@);
        match evaluate_trigger(&team.trigger, &team.name, m) {
            TriggerDecision::RunOnce { should_run } => {
                let mut more = spawn_run_once(graph, &out, team, should_run);
                let ghost added = types::request_views(more@);
                out.append(&mut more);
                assert(types::request_views(out@) =~= earlier + added);
            },
            TriggerDecision::ForTasks(ids) => {
                match spawn_for_tasks(graph, &out, team, &run_config.terminal_teams, m, &ids) {
                    Err(message) => {
                        proof {
                            lemma_requests_error(
                                graph@,
                                run_config@,
                                rows,
                                i + 1,
                                run_config@.teams.len() as int,
                            );
                        }
                        return Err(message);
                    },
                    Ok(mut more) => {
                        let ghost added = types::request_views(more@);
                        out.append(&mut more);
                        assert(types::request_views(out@) =~= earlier + added);
                    },
                }
            },
        }
        i += 1;
    }
    Ok(out)
}

// ── terminal teams ─────────────────────────────────────────────────────────

/// The team at a position, if it has the name.
pub open spec fn name_check(teams: Seq<TeamView>, name: Text) -> spec_fn(int) -> Option<TeamView> {
    |i: int|
        if teams[i].name == name {
            Some(teams[i])
        } else {
            None
        }
}

/// The first team of that name.
pub open spec fn team_named(teams: Seq<TeamView>, name: Text) -> Option<TeamView> {
    search::first_some(teams.len(), name_check(teams, name))
}

/// The tasks that a team still has to act on, if there are any.
pub open spec fn unfinished(team: TeamView, m: Seq<TaskRecordView>) -> Option<Seq<Text>> {
    match decision(team.trigger, team.name, m) {
        DecisionView::ForTasks(ids) => if ids.len() > 0 {
            Some(ids)
        } else {
            None
        },
        DecisionView::RunOnce { .. } => None,
    }
}

/// The terminal team at a position, with the tasks it still has to act on.
pub open spec fn terminal_check(config: ConfigView, m: Seq<TaskRecordView>) -> spec_fn(
    int,
) -> Option<(Text, Seq<Text>)> {
    |i: int|
        match team_named(config.teams, config.terminal_teams[i]) {
            Some(team) => match unfinished(team, m) {
                Some(ids) => Some((team.name, ids)),
                None => None,
            },
            None => None,
        }
}

/// The first terminal team that still has tasks to act on, with those tasks.
pub open spec fn incomplete_terminal_team(config: ConfigView, m: Seq<TaskRecordView>) -> Option<
    (Text, Seq<Text>),
> {
    search::first_some(config.terminal_teams.len(), terminal_check(config, m))
}

fn find_team<'a>(teams: &'a Vec<TeamConfig>, name: &String) -> (found: Option<&'a TeamConfig>)
    ensures
        match found {
            Some(t) => team_named(teams@.map_values(|t: TeamConfig| t@), name@) == Some(t@),
            None => team_named(teams@.map_values(|t: TeamConfig| t@), name@) is None,
        },
{
    let ghost views = teams@.map_values(|t: TeamConfig| t@);
    let mut i: usize = 0;
    while i < teams.len()
        invariant
            i <= teams.len(),
            views == teams@.map_values(|t: TeamConfig| t@),
            search::first_some(i as nat, name_check(views, name@)) is None,
        decreases teams.len() - i,
    {
        assert(views[i as int] == teams@[i as int]@);
        if teams[i].name == *name {
            proof {
                search::lemma_first_some_extends(
                    (i + 1) as nat,
                    views.len(),
                    name_check(views, name@),
                );
            }
            return Some(&teams[i]);
        }
        i += 1;
    }
    None
}

/// The first terminal team that still has tasks to act on, with those tasks.
pub fn find_incomplete_terminal_team(run_config: &RunConfig, m: &Vec<TaskRecord>) -> (found: Option<
    (String, Vec<String>),
>)
    ensures
        match found {
            Some(f) => incomplete_terminal_team(run_config@, manifest::record_views(m@)) == Some(
                (f.0@, text::texts(f.1@)),
            ),
            None => incomplete_terminal_team(run_config@, manifest::record_views(m@)) is None,
        },
{
    let ghost rows = manifest::record_views(m@);
    let ghost check = terminal_check(run_config@, rows);
    let mut i: usize = 0;
    while i < run_config.terminal_teams.len()
        invariant
            i <= run_config.terminal_teams.len(),
            rows == manifest::record_views(m@),
            check == terminal_check(run_config@, rows),
            search::first_some(i as nat, check) is None,
        decreases run_config.terminal_teams.len() - i,
    {
        assert(run_config@.terminal_teams[i as int] == run_config.terminal_teams@[i as int]@);
        if let Some(team) = find_team(&run_config.teams, &run_config.terminal_teams[i]) {
            match evaluate_trigger(&team.trigger, &team.name, m) {
                TriggerDecision::ForTasks(ids) => {
                    if ids.len() > 0 {
                        proof {
                            search::lemma_first_some_extends(
                                (i + 1) as nat,
                                run_config@.terminal_teams.len(),
                                check,
                            );
                        }
                        return Some((team.name.clone(), ids));
                    }
                },
                TriggerDecision::RunOnce { .. } => {},
            }
        }
        i += 1;
    }
    None
}

} // verus!
