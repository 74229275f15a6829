//! Team triggers.

use forge_scheduler::graph::{ModelTier, Node, NodeId, NodeKind, NodeOrigin, NodeStatus, RunGraph};
use forge_scheduler::machine::apply_team_triggers;
use forge_scheduler::manifest::{TaskField, TaskRecord};
use forge_scheduler::teams::{LanguageSpec, RunConfig, TeamConfig, Trigger, ValidationTargetRule};

fn kind_for(trigger: &Trigger) -> NodeKind {
    match trigger {
        Trigger::Start => NodeKind::Plan,
        Trigger::AfterTeams(_) => NodeKind::Work,
    }
}

fn team(name: &str, trigger: Trigger) -> TeamConfig {
    TeamConfig {
        name: name.to_string(),
        northstar: String::new(),
        adapter: String::new(),
        kind: kind_for(&trigger),
        trigger,
        language_plugins: vec![],
        language: String::new(),
        derives_target: false,
        worker_role: None,
    }
}

fn rust_language_plugins() -> Vec<LanguageSpec> {
    vec![LanguageSpec {
        extensions: vec!["rs".to_string()],
        validation_targets: vec![ValidationTargetRule {
            pattern: "{stem}.rs".to_string(),
            target: "{stem}_test.rs".to_string(),
        }],
    }]
}

fn python_language_plugins() -> Vec<LanguageSpec> {
    vec![LanguageSpec {
        extensions: vec!["py".to_string()],
        validation_targets: vec![ValidationTargetRule {
            pattern: "{stem}.py".to_string(),
            target: "tests/test_{stem}.py".to_string(),
        }],
    }]
}

fn team_direct(
    name: &str,
    trigger: Trigger,
    language_plugins: Vec<LanguageSpec>,
) -> TeamConfig {
    TeamConfig {
        language_plugins,
        ..team(name, trigger)
    }
}

fn team_deriving(
    name: &str,
    trigger: Trigger,
    language_plugins: Vec<LanguageSpec>,
) -> TeamConfig {
    TeamConfig {
        derives_target: true,
        language_plugins,
        ..team(name, trigger)
    }
}

fn team_with_adapter(name: &str, trigger: Trigger, adapter: &str, northstar: &str) -> TeamConfig {
    TeamConfig {
        name: name.to_string(),
        northstar: northstar.to_string(),
        adapter: adapter.to_string(),
        kind: kind_for(&trigger),
        trigger,
        language_plugins: vec![],
        language: String::new(),
        derives_target: false,
        worker_role: None,
    }
}

fn record(id: &str, objective: &str, team: &str) -> TaskRecord {
    TaskRecord {
        id: id.to_string(),
        objective: objective.to_string(),
        commit: String::new(),
        completed_at: String::new(),
        team: Some(team.to_string()),
        task_kv: vec![],
        depends_on: vec![],
    }
}

fn named_record(id: &str, objective: &str, team: &str, name: &str) -> TaskRecord {
    let mut r = record(id, objective, team);
    r.task_kv.push(TaskField {
        key: "name".to_string(),
        value: name.to_string(),
    });
    r
}

fn record_with_file_path(
    id: &str,
    objective: &str,
    team: &str,
    name: &str,
    file_path: &str,
) -> TaskRecord {
    let mut r = named_record(id, objective, team, name);
    r.task_kv.push(TaskField {
        key: "file_path".to_string(),
        value: file_path.to_string(),
    });
    r
}

fn record_with_file_path_and_deps(
    id: &str,
    objective: &str,
    team: &str,
    name: &str,
    file_path: &str,
    depends_on: Vec<&str>,
) -> TaskRecord {
    TaskRecord {
        depends_on: depends_on.into_iter().map(String::from).collect(),
        ..record_with_file_path(id, objective, team, name, file_path)
    }
}

fn root_node() -> Node {
    Node {
        id: NodeId("root".to_string()),
        kind: NodeKind::Plan,
        team: String::new(),
        task_id: None,
        adapter: String::new(),
        northstar: String::new(),
        worker_role: None,
        objective: "build a fibonacci program".to_string(),
        target_files: vec![],
        required_validation_targets: vec![],
        dependencies: vec![],
        status: NodeStatus::Completed,
        attempt: 0,
        plan_depth: 0,
        model_tier: ModelTier::Cheap,
        summary: None,
        origin: NodeOrigin::Root,
        validation_plan: None,
        retry_feedback: None,
    }
}

fn run_config(teams: Vec<TeamConfig>) -> RunConfig {
    RunConfig {
        has_strong_tier: true,
        teams,
        terminal_teams: vec![],
        dispatch_cap: 1,
    }
}

fn run_config_with_terminal_teams(teams: Vec<TeamConfig>, terminal_teams: Vec<&str>) -> RunConfig {
    RunConfig {
        has_strong_tier: true,
        teams,
        terminal_teams: terminal_teams.into_iter().map(String::from).collect(),
        dispatch_cap: 1,
    }
}

#[test]
fn run_once_spawns_initial_plan_node() {
    let graph = RunGraph {
        nodes: vec![root_node()],
    };
    let config = run_config(vec![team("planner", Trigger::Start)]);
    let graph = apply_team_triggers(graph, &NodeId("root".to_string()), &config, &vec![])
        .expect("team triggers must apply cleanly");

    let spawned: Vec<&Node> = graph.nodes.iter().filter(|n| n.team == "planner").collect();
    assert_eq!(spawned.len(), 1, "exactly one node spawned for the team");
    assert_eq!(spawned[0].kind, NodeKind::Plan);
    assert_eq!(spawned[0].objective, "build a fibonacci program");
    assert_eq!(spawned[0].task_id, None);
}

#[test]
fn run_once_spawns_node_with_teams_declared_kind_not_inferred_from_trigger() {
    let graph = RunGraph {
        nodes: vec![root_node()],
    };
    let config = run_config(vec![TeamConfig {
        kind: NodeKind::Work,
        ..team("planner", Trigger::Start)
    }]);
    let graph = apply_team_triggers(graph, &NodeId("root".to_string()), &config, &vec![])
        .expect("team triggers must apply cleanly");

    let spawned: Vec<&Node> = graph.nodes.iter().filter(|n| n.team == "planner").collect();
    assert_eq!(spawned.len(), 1);
    assert_eq!(spawned[0].kind, NodeKind::Work);
}

#[test]
fn run_once_spawns_node_with_team_adapter_and_northstar() {
    let graph = RunGraph {
        nodes: vec![root_node()],
    };
    let config = run_config(vec![team_with_adapter(
        "planner",
        Trigger::Start,
        "adapters/planner.yaml",
        "northstars/planner.md",
    )]);
    let graph = apply_team_triggers(graph, &NodeId("root".to_string()), &config, &vec![])
        .expect("team triggers must apply cleanly");

    let spawned: Vec<&Node> = graph.nodes.iter().filter(|n| n.team == "planner").collect();
    assert_eq!(spawned.len(), 1);
    assert_eq!(spawned[0].adapter, "adapters/planner.yaml");
    assert_eq!(spawned[0].northstar, "northstars/planner.md");
}

#[test]
fn run_once_does_not_duplicate_while_node_in_flight() {
    let graph = RunGraph {
        nodes: vec![root_node()],
    };
    let config = run_config(vec![team("planner", Trigger::Start)]);
    let graph = apply_team_triggers(graph, &NodeId("root".to_string()), &config, &vec![])
        .expect("team triggers must apply cleanly");
    assert_eq!(
        graph.nodes.iter().filter(|n| n.team == "planner").count(),
        1
    );

    let graph = apply_team_triggers(graph, &NodeId("root".to_string()), &config, &vec![])
        .expect("team triggers must apply cleanly");
    assert_eq!(
        graph.nodes.iter().filter(|n| n.team == "planner").count(),
        1,
        "must not spawn a duplicate while the first node is still in flight"
    );
}

#[test]
fn run_once_does_not_spawn_after_manifest_row_recorded() {
    let graph = RunGraph {
        nodes: vec![root_node()],
    };
    let config = run_config(vec![team("planner", Trigger::Start)]);
    let manifest = vec![record("t1", "do a thing", "planner")];
    let graph = apply_team_triggers(graph, &NodeId("root".to_string()), &config, &manifest)
        .expect("team triggers must apply cleanly");

    assert_eq!(
        graph.nodes.iter().filter(|n| n.team == "planner").count(),
        0
    );
}

#[test]
fn root_lineage_task_attributed_to_start_team_does_not_restart() {
    let graph = RunGraph {
        nodes: vec![Node {
            team: "planner".to_string(),
            adapter: "adapters/planner.yaml".to_string(),
            northstar: "northstars/planner.md".to_string(),
            ..root_node()
        }],
    };
    let config = run_config(vec![team_with_adapter(
        "planner",
        Trigger::Start,
        "adapters/planner.yaml",
        "northstars/planner.md",
    )]);
    let manifest = vec![named_record(
        "root-t1",
        "decompose the objective",
        "planner",
        "root_t1",
    )];
    let graph = apply_team_triggers(graph, &NodeId("root".to_string()), &config, &manifest)
        .expect("team triggers must apply cleanly");

    let planner_nodes: Vec<&Node> = graph.nodes.iter().filter(|n| n.team == "planner").collect();
    assert_eq!(
        planner_nodes.len(),
        1,
        "the root node's own decomposition already satisfies the planner team's start \
         trigger; a second Plan node must not be spawned, discarding completed work; \
         graph: {graph:#?}"
    );
    assert_eq!(
        planner_nodes[0].id,
        NodeId("root".to_string()),
        "the sole planner-team node must be the root node itself, not a duplicate spawn; \
         graph: {graph:#?}"
    );
}

#[test]
fn implement_after_teams_planner_fires_off_root_lineage_task() {
    let graph = RunGraph {
        nodes: vec![Node {
            team: "planner".to_string(),
            adapter: "adapters/planner.yaml".to_string(),
            northstar: "northstars/planner.md".to_string(),
            ..root_node()
        }],
    };
    let config = run_config(vec![
        team_with_adapter(
            "planner",
            Trigger::Start,
            "adapters/planner.yaml",
            "northstars/planner.md",
        ),
        team_direct(
            "implement",
            Trigger::AfterTeams(vec!["planner".to_string()]),
            vec![],
        ),
    ]);
    let manifest = vec![record_with_file_path(
        "root-t1",
        "implement fibonacci(n: int)",
        "planner",
        "fibonacci",
        "src/fibonacci.rs",
    )];
    let graph = apply_team_triggers(graph, &NodeId("root".to_string()), &config, &manifest)
        .expect("team triggers must apply cleanly");

    let planner_nodes: Vec<&Node> = graph.nodes.iter().filter(|n| n.team == "planner").collect();
    assert_eq!(
        planner_nodes.len(),
        1,
        "planner's own start trigger must not also re-fire in this same evaluation; \
         graph: {graph:#?}"
    );
    let implement_nodes: Vec<&Node> = graph
        .nodes
        .iter()
        .filter(|n| n.team == "implement")
        .collect();
    assert_eq!(
        implement_nodes.len(),
        1,
        "implement's after_teams(planner) trigger must fire off the root-lineage task; \
         graph: {graph:#?}"
    );
    assert_eq!(implement_nodes[0].kind, NodeKind::Work);
    assert_eq!(implement_nodes[0].task_id, Some("root-t1".to_string()));
    assert_eq!(implement_nodes[0].objective, "implement fibonacci(n: int)");
}

#[test]
fn for_tasks_spawns_work_node_with_original_objective() {
    let graph = RunGraph {
        nodes: vec![root_node()],
    };
    let config = run_config(vec![team_direct(
        "implement",
        Trigger::AfterTeams(vec!["planner".to_string()]),
        vec![],
    )]);
    let manifest = vec![record_with_file_path(
        "t1",
        "implement fibonacci(n: int)",
        "planner",
        "fibonacci",
        "src/fibonacci.rs",
    )];
    let graph = apply_team_triggers(graph, &NodeId("root".to_string()), &config, &manifest)
        .expect("team triggers must apply cleanly");

    let spawned: Vec<&Node> = graph
        .nodes
        .iter()
        .filter(|n| n.team == "implement")
        .collect();
    assert_eq!(spawned.len(), 1);
    assert_eq!(spawned[0].kind, NodeKind::Work);
    assert_eq!(spawned[0].task_id, Some("t1".to_string()));
    assert_eq!(spawned[0].objective, "implement fibonacci(n: int)");
}

#[test]
fn for_tasks_spawns_node_with_teams_declared_kind_not_inferred_from_trigger() {
    let graph = RunGraph {
        nodes: vec![root_node()],
    };
    let config = run_config(vec![TeamConfig {
        kind: NodeKind::Plan,
        ..team_direct(
            "implement",
            Trigger::AfterTeams(vec!["planner".to_string()]),
            vec![],
        )
    }]);
    let manifest = vec![record_with_file_path(
        "t1",
        "implement fibonacci(n: int)",
        "planner",
        "fibonacci",
        "src/fibonacci.rs",
    )];
    let graph = apply_team_triggers(graph, &NodeId("root".to_string()), &config, &manifest)
        .expect("team triggers must apply cleanly");

    let spawned: Vec<&Node> = graph
        .nodes
        .iter()
        .filter(|n| n.team == "implement")
        .collect();
    assert_eq!(spawned.len(), 1);
    assert_eq!(spawned[0].kind, NodeKind::Plan);
}

#[test]
fn for_tasks_spawns_node_with_target_files_from_file_path_directly() {
    let graph = RunGraph {
        nodes: vec![root_node()],
    };
    let config = run_config(vec![team_direct(
        "implement",
        Trigger::AfterTeams(vec!["planner".to_string()]),
        vec![],
    )]);
    let manifest = vec![record_with_file_path(
        "t1",
        "implement fibonacci(n: int)",
        "planner",
        "fibonacci",
        "src/fibonacci.rs",
    )];
    let graph = apply_team_triggers(graph, &NodeId("root".to_string()), &config, &manifest)
        .expect("team triggers must apply cleanly");

    let spawned: Vec<&Node> = graph
        .nodes
        .iter()
        .filter(|n| n.team == "implement")
        .collect();
    assert_eq!(spawned.len(), 1);
    assert_eq!(
        spawned[0].target_files,
        vec!["src/fibonacci.rs".to_string()]
    );
}

#[test]
fn for_tasks_fails_when_deriving_team_has_no_matching_language_plugin() {
    let graph = RunGraph {
        nodes: vec![root_node()],
    };
    let config = run_config(vec![team_deriving(
        "create_test",
        Trigger::AfterTeams(vec!["planner".to_string()]),
        vec![],
    )]);
    let manifest = vec![record_with_file_path(
        "t1",
        "implement fibonacci(n: int)",
        "planner",
        "fibonacci",
        "src/fibonacci.rs",
    )];
    let err = apply_team_triggers(graph, &NodeId("root".to_string()), &config, &manifest)
        .expect_err("no language plugin matches file_path's extension, so derivation must fail");
    assert!(
        err.contains("no validation-target derivation applies"),
        "error must name the cause: {err}"
    );
}

#[test]
fn for_tasks_spawns_node_with_team_adapter_and_northstar() {
    let graph = RunGraph {
        nodes: vec![root_node()],
    };
    let config = run_config(vec![team_with_adapter(
        "implement",
        Trigger::AfterTeams(vec!["planner".to_string()]),
        "adapters/implement.yaml",
        "northstars/implement.md",
    )]);
    let manifest = vec![record_with_file_path(
        "t1",
        "implement fibonacci(n: int)",
        "planner",
        "fibonacci",
        "src/fibonacci.rs",
    )];
    let graph = apply_team_triggers(graph, &NodeId("root".to_string()), &config, &manifest)
        .expect("team triggers must apply cleanly");

    let spawned: Vec<&Node> = graph
        .nodes
        .iter()
        .filter(|n| n.team == "implement")
        .collect();
    assert_eq!(spawned.len(), 1);
    assert_eq!(spawned[0].adapter, "adapters/implement.yaml");
    assert_eq!(spawned[0].northstar, "northstars/implement.md");
}

#[test]
fn for_tasks_does_not_duplicate_while_node_in_flight() {
    let graph = RunGraph {
        nodes: vec![root_node()],
    };
    let config = run_config(vec![team_direct(
        "implement",
        Trigger::AfterTeams(vec!["planner".to_string()]),
        vec![],
    )]);
    let manifest = vec![record_with_file_path(
        "t1",
        "implement fibonacci(n: int)",
        "planner",
        "fibonacci",
        "src/fibonacci.rs",
    )];
    let graph = apply_team_triggers(graph, &NodeId("root".to_string()), &config, &manifest)
        .expect("team triggers must apply cleanly");
    assert_eq!(
        graph.nodes.iter().filter(|n| n.team == "implement").count(),
        1
    );

    let graph = apply_team_triggers(graph, &NodeId("root".to_string()), &config, &manifest)
        .expect("team triggers must apply cleanly");
    assert_eq!(
        graph.nodes.iter().filter(|n| n.team == "implement").count(),
        1,
        "must not spawn a duplicate while the first node is still in flight"
    );
}

#[test]
fn for_tasks_excludes_ids_already_recorded_by_the_team() {
    let graph = RunGraph {
        nodes: vec![root_node()],
    };
    let config = run_config(vec![team(
        "implement",
        Trigger::AfterTeams(vec!["planner".to_string()]),
    )]);
    let manifest = vec![
        record("t1", "implement fibonacci(n: int)", "planner"),
        record("t1", "implemented fibonacci", "implement"),
    ];
    let graph = apply_team_triggers(graph, &NodeId("root".to_string()), &config, &manifest)
        .expect("team triggers must apply cleanly");

    assert_eq!(
        graph.nodes.iter().filter(|n| n.team == "implement").count(),
        0
    );
}

#[test]
fn for_tasks_respawns_after_prior_attempt_failed() {
    let mut graph = RunGraph {
        nodes: vec![root_node()],
    };
    graph.nodes.push(Node {
        id: NodeId("failed-attempt".to_string()),
        kind: NodeKind::Work,
        team: "implement".to_string(),
        task_id: Some("t1".to_string()),
        adapter: String::new(),
        northstar: String::new(),
        worker_role: None,
        objective: "implement fibonacci(n: int)".to_string(),
        target_files: vec![],
        required_validation_targets: vec![],
        dependencies: vec![],
        status: NodeStatus::Failed,
        attempt: 3,
        plan_depth: 0,
        model_tier: ModelTier::Strong,
        summary: None,
        origin: NodeOrigin::Root,
        validation_plan: None,
        retry_feedback: None,
    });

    let config = run_config(vec![team_direct(
        "implement",
        Trigger::AfterTeams(vec!["planner".to_string()]),
        vec![],
    )]);
    let manifest = vec![record_with_file_path(
        "t1",
        "implement fibonacci(n: int)",
        "planner",
        "fibonacci",
        "src/fibonacci.rs",
    )];
    let graph = apply_team_triggers(graph, &NodeId("root".to_string()), &config, &manifest)
        .expect("team triggers must apply cleanly");

    let pending: Vec<&Node> = graph
        .nodes
        .iter()
        .filter(|n| n.team == "implement" && n.status == NodeStatus::Pending)
        .collect();
    assert_eq!(pending.len(), 1, "a new attempt must be spawned");
}

#[test]
fn for_tasks_does_not_spawn_when_dependency_unsatisfied() {
    let graph = RunGraph {
        nodes: vec![root_node()],
    };
    let config = run_config_with_terminal_teams(
        vec![team_direct(
            "implement",
            Trigger::AfterTeams(vec!["planner".to_string()]),
            vec![],
        )],
        vec!["implement"],
    );
    let manifest = vec![
        record_with_file_path(
            "t1",
            "implement fibonacci(n: int)",
            "planner",
            "fibonacci",
            "src/fibonacci.rs",
        ),
        record_with_file_path_and_deps(
            "t2",
            "implement factorial(n: int)",
            "planner",
            "factorial",
            "src/factorial.rs",
            vec!["t1"],
        ),
    ];
    let graph = apply_team_triggers(graph, &NodeId("root".to_string()), &config, &manifest)
        .expect("team triggers must apply cleanly");

    let spawned_ids: Vec<Option<String>> = graph
        .nodes
        .iter()
        .filter(|n| n.team == "implement")
        .map(|n| n.task_id.clone())
        .collect();
    assert_eq!(
        spawned_ids,
        vec![Some("t1".to_string())],
        "t2 must not spawn while its dependency t1 has no completion from the terminal team"
    );
}

#[test]
fn for_tasks_spawns_once_all_terminal_teams_complete_dependency() {
    let graph = RunGraph {
        nodes: vec![root_node()],
    };
    let config = run_config_with_terminal_teams(
        vec![team_direct(
            "implement",
            Trigger::AfterTeams(vec!["planner".to_string()]),
            vec![],
        )],
        vec!["implement"],
    );
    let manifest = vec![
        record_with_file_path(
            "t1",
            "implement fibonacci(n: int)",
            "planner",
            "fibonacci",
            "src/fibonacci.rs",
        ),
        record("t1", "implemented fibonacci", "implement"),
        record_with_file_path_and_deps(
            "t2",
            "implement factorial(n: int)",
            "planner",
            "factorial",
            "src/factorial.rs",
            vec!["t1"],
        ),
    ];
    let graph = apply_team_triggers(graph, &NodeId("root".to_string()), &config, &manifest)
        .expect("team triggers must apply cleanly");

    let spawned_ids: Vec<Option<String>> = graph
        .nodes
        .iter()
        .filter(|n| n.team == "implement")
        .map(|n| n.task_id.clone())
        .collect();
    assert_eq!(
        spawned_ids,
        vec![Some("t2".to_string())],
        "t2 must spawn once its dependency t1 has a completion from every terminal team"
    );
}

#[test]
fn for_tasks_unaffected_when_no_depends_on() {
    let graph = RunGraph {
        nodes: vec![root_node()],
    };
    let config = run_config_with_terminal_teams(
        vec![team_direct(
            "implement",
            Trigger::AfterTeams(vec!["planner".to_string()]),
            vec![],
        )],
        vec!["implement"],
    );
    let manifest = vec![record_with_file_path(
        "t1",
        "implement fibonacci(n: int)",
        "planner",
        "fibonacci",
        "src/fibonacci.rs",
    )];
    let graph = apply_team_triggers(graph, &NodeId("root".to_string()), &config, &manifest)
        .expect("team triggers must apply cleanly");

    let spawned: Vec<&Node> = graph
        .nodes
        .iter()
        .filter(|n| n.team == "implement")
        .collect();
    assert_eq!(spawned.len(), 1);
    assert_eq!(spawned[0].task_id, Some("t1".to_string()));
}

#[test]
fn for_tasks_spawns_node_with_required_validation_targets_derived_from_file_path() {
    let graph = RunGraph {
        nodes: vec![root_node()],
    };
    let config = run_config(vec![team_direct(
        "implement",
        Trigger::AfterTeams(vec!["planner".to_string()]),
        rust_language_plugins(),
    )]);
    let manifest = vec![record_with_file_path(
        "t1",
        "implement fibonacci(n: int)",
        "planner",
        "fibonacci",
        "src/fibonacci.rs",
    )];
    let graph = apply_team_triggers(graph, &NodeId("root".to_string()), &config, &manifest)
        .expect("team triggers must apply cleanly");

    let spawned: Vec<&Node> = graph
        .nodes
        .iter()
        .filter(|n| n.team == "implement")
        .collect();
    assert_eq!(spawned.len(), 1);
    assert_eq!(
        spawned[0].target_files,
        vec!["src/fibonacci.rs".to_string()]
    );
    assert_eq!(
        spawned[0].required_validation_targets,
        vec!["src/fibonacci_test.rs".to_string()],
        "must be the derived test target for the same file_path"
    );
}

#[test]
fn for_tasks_spawned_node_required_validation_target_is_enforced_by_the_gate() {
    let graph = RunGraph {
        nodes: vec![root_node()],
    };
    let config = run_config(vec![team_direct(
        "implement",
        Trigger::AfterTeams(vec!["planner".to_string()]),
        rust_language_plugins(),
    )]);
    let manifest = vec![record_with_file_path(
        "t1",
        "implement fibonacci(n: int)",
        "planner",
        "fibonacci",
        "src/fibonacci.rs",
    )];
    let mut graph = apply_team_triggers(graph, &NodeId("root".to_string()), &config, &manifest)
        .expect("team triggers must apply cleanly");

    let spawned_id = graph
        .nodes
        .iter()
        .find(|n| n.team == "implement")
        .expect("a node must have spawned")
        .id
        .clone();
    graph = graph.mark_node(&spawned_id, NodeStatus::Completed);

    let err = graph
        .validate_required_tests_completed()
        .expect_err("the derived required validation target has no completed node yet");
    assert!(
        err.contains("src/fibonacci_test.rs"),
        "failure must name the missing required validation target; got: {err}"
    );

    graph.nodes.push(Node {
        id: NodeId("tests".to_string()),
        kind: NodeKind::Work,
        team: "implement".to_string(),
        task_id: None,
        adapter: String::new(),
        northstar: String::new(),
        worker_role: None,
        objective: "write tests".to_string(),
        target_files: vec!["src/fibonacci_test.rs".to_string()],
        required_validation_targets: vec![],
        dependencies: vec![],
        status: NodeStatus::Completed,
        attempt: 0,
        plan_depth: 0,
        model_tier: ModelTier::Cheap,
        summary: None,
        origin: NodeOrigin::Root,
        validation_plan: None,
        retry_feedback: None,
    });
    graph
        .validate_required_tests_completed()
        .expect("the required validation target is now completed by another node");
}

#[test]
fn for_tasks_spawned_node_carries_its_teams_adapter_declared_worker_role() {
    for (adapter_file, team_name, expected_role) in [
        ("create_test.yaml", "create_test", "tester"),
        ("implement.yaml", "implement", "implementer"),
        ("pass_tests.yaml", "pass_tests", "pass_tests"),
    ] {
        let graph = RunGraph {
            nodes: vec![root_node()],
        };
        let config = run_config(vec![TeamConfig {
            adapter: adapter_file.to_string(),
            worker_role: Some(expected_role.to_string()),
            ..team_direct(
                team_name,
                Trigger::AfterTeams(vec!["planner".to_string()]),
                python_language_plugins(),
            )
        }]);
        let manifest = vec![record_with_file_path(
            "t1",
            "implement fibonacci(n: int)",
            "planner",
            "fibonacci",
            "main.py",
        )];
        let graph = apply_team_triggers(graph, &NodeId("root".to_string()), &config, &manifest)
            .expect("team triggers must apply cleanly");

        let spawned: Vec<&Node> = graph.nodes.iter().filter(|n| n.team == team_name).collect();
        assert_eq!(spawned.len(), 1, "{adapter_file}: exactly one node spawned");
        assert_eq!(
            spawned[0].worker_role,
            Some(expected_role.to_string()),
            "{adapter_file}: spawned node must carry its team's adapter-declared worker role"
        );
    }
}

#[test]
fn implement_and_create_test_derive_matching_targets_from_the_same_file_path() {
    let graph = RunGraph {
        nodes: vec![root_node()],
    };
    let config = run_config(vec![
        team_direct(
            "implement",
            Trigger::AfterTeams(vec!["planner".to_string()]),
            python_language_plugins(),
        ),
        team_deriving(
            "create_test",
            Trigger::AfterTeams(vec!["planner".to_string()]),
            python_language_plugins(),
        ),
    ]);
    let manifest = vec![record_with_file_path(
        "t1",
        "A Python program in main.py that implements a Fibonacci number generator.",
        "planner",
        "fibonacci",
        "main.py",
    )];
    let graph = apply_team_triggers(graph, &NodeId("root".to_string()), &config, &manifest)
        .expect("team triggers must apply cleanly");

    let implement_node = graph
        .nodes
        .iter()
        .find(|n| n.team == "implement")
        .expect("implement must have spawned a node");
    let create_test_node = graph
        .nodes
        .iter()
        .find(|n| n.team == "create_test")
        .expect("create_test must have spawned a node");

    assert_eq!(implement_node.target_files, vec!["main.py".to_string()]);
    assert_eq!(
        create_test_node.target_files,
        vec!["tests/test_main.py".to_string()]
    );

    assert_eq!(
        implement_node.required_validation_targets, create_test_node.target_files,
        "implement's required validation target must match create_test's actual target"
    );
    assert_eq!(
        create_test_node.required_validation_targets, implement_node.target_files,
        "create_test's required validation target must match implement's actual target"
    );
}
