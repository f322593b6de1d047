use clawden::swarm::{SwarmCoordinator, SwarmMember, SwarmRole, SwarmTaskStatus};

fn member(agent_id: &str, role: SwarmRole) -> SwarmMember {
    SwarmMember { agent_id: agent_id.to_string(), role }
}

#[test]
fn create_team_and_fan_out() {
    let mut coord = SwarmCoordinator::new();
    coord.create_team(
        "alpha-team".to_string(),
        vec![
            SwarmMember {
                agent_id: "agent-1".to_string(),
                role: SwarmRole::Leader,
            },
            SwarmMember {
                agent_id: "agent-2".to_string(),
                role: SwarmRole::Worker,
            },
        ],
    );

    let subtasks = coord
        .fan_out(
            "alpha-team",
            "parent task",
            vec!["sub-1".to_string(), "sub-2".to_string()],
        )
        .unwrap();
    assert_eq!(subtasks.len(), 2);
    assert_eq!(subtasks[0].status, SwarmTaskStatus::Pending);
}

#[test]
fn fan_out_completion_tracking() {
    let mut coord = SwarmCoordinator::new();
    coord.create_team(
        "team".to_string(),
        vec![SwarmMember {
            agent_id: "agent-1".to_string(),
            role: SwarmRole::Leader,
        }],
    );

    coord
        .fan_out("team", "root", vec!["sub".to_string()])
        .unwrap();

    let parent_id = "swarm-task-0";
    assert!(!coord.is_fan_out_complete(parent_id));

    coord.complete_task("swarm-task-1").unwrap();
    assert!(coord.is_fan_out_complete(parent_id));
}

#[test]
fn fan_out_round_robin_over_leader_and_workers() {
    let mut coord = SwarmCoordinator::new();
    coord.create_team(
        "t".to_string(),
        vec![
            member("lead", SwarmRole::Leader),
            member("w1", SwarmRole::Worker),
            member("rev", SwarmRole::Reviewer),
            member("w2", SwarmRole::Worker),
        ],
    );
    let children = coord
        .fan_out(
            "t",
            "root",
            vec!["a".to_string(), "b".to_string(), "c".to_string(), "d".to_string()],
        )
        .unwrap();
    let assigned: Vec<&str> = children.iter().map(|t| t.assigned_to.as_str()).collect();
    assert_eq!(assigned, vec!["lead", "w1", "w2", "lead"]);
    let ids: Vec<&str> = children.iter().map(|t| t.id.as_str()).collect();
    assert_eq!(ids, vec!["swarm-task-1", "swarm-task-2", "swarm-task-3", "swarm-task-4"]);
    for child in &children {
        assert_eq!(child.status, SwarmTaskStatus::Pending);
        assert_eq!(child.parent_task.as_deref(), Some("swarm-task-0"));
    }
    let all = coord.list_tasks(None);
    assert_eq!(all.len(), 5);
    assert_eq!(all[0].id, "swarm-task-0");
    assert_eq!(all[0].parent_task, None);
    assert_eq!(all[0].description, "root");
    assert_eq!(all[0].assigned_to, "lead");
    assert_eq!(all[0].status, SwarmTaskStatus::InProgress);
}

#[test]
fn fan_out_one_leader_two_workers_three_subtasks() {
    let mut coord = SwarmCoordinator::new();
    coord.create_team(
        "t".to_string(),
        vec![
            member("w0", SwarmRole::Worker),
            member("lead", SwarmRole::Leader),
            member("w1", SwarmRole::Worker),
        ],
    );
    let children = coord
        .fan_out("t", "root", vec!["a".to_string(), "b".to_string(), "c".to_string()])
        .unwrap();
    assert_eq!(children.len(), 3);
    let assigned: Vec<&str> = children.iter().map(|t| t.assigned_to.as_str()).collect();
    assert_eq!(assigned, vec!["w0", "lead", "w1"]);
    let parents = coord.list_tasks(None);
    assert_eq!(parents.len(), 4);
    assert_eq!(parents[0].assigned_to, "lead");
    assert_eq!(parents[0].status, SwarmTaskStatus::InProgress);
}

#[test]
fn fan_out_without_leader_gives_parent_to_first_worker() {
    let mut coord = SwarmCoordinator::new();
    coord.create_team(
        "t".to_string(),
        vec![member("rev", SwarmRole::Reviewer), member("w1", SwarmRole::Worker)],
    );
    coord.fan_out("t", "root", vec!["a".to_string()]).unwrap();
    let all = coord.list_tasks(None);
    assert_eq!(all[0].assigned_to, "w1");
    assert_eq!(all[1].assigned_to, "w1");
}

#[test]
fn fan_out_without_workers_fails_and_creates_nothing() {
    let mut coord = SwarmCoordinator::new();
    coord.create_team(
        "r".to_string(),
        vec![member("r1", SwarmRole::Reviewer), member("r2", SwarmRole::Reviewer)],
    );
    let err = coord.fan_out("r", "root", vec!["a".to_string()]).unwrap_err();
    assert_eq!(err, "team has no workers");
    assert_eq!(coord.list_tasks(None).len(), 0);
}

#[test]
fn fan_out_unknown_team_fails() {
    let mut coord = SwarmCoordinator::new();
    let err = coord.fan_out("ghost", "root", vec![]).unwrap_err();
    assert_eq!(err, "team 'ghost' not found");
    assert_eq!(coord.list_tasks(None).len(), 0);
}

#[test]
fn fan_out_without_subtasks_is_never_complete() {
    let mut coord = SwarmCoordinator::new();
    coord.create_team("t".to_string(), vec![member("lead", SwarmRole::Leader)]);
    let children = coord.fan_out("t", "root", vec![]).unwrap();
    assert_eq!(children.len(), 0);
    assert!(!coord.is_fan_out_complete("swarm-task-0"));
    coord.complete_task("swarm-task-0").unwrap();
    assert!(!coord.is_fan_out_complete("swarm-task-0"));
}

#[test]
fn fan_out_complete_only_after_every_child() {
    let mut coord = SwarmCoordinator::new();
    coord.create_team("t".to_string(), vec![member("lead", SwarmRole::Leader)]);
    coord
        .fan_out("t", "root", vec!["a".to_string(), "b".to_string()])
        .unwrap();
    assert!(!coord.is_fan_out_complete("swarm-task-0"));
    coord.complete_task("swarm-task-1").unwrap();
    assert!(!coord.is_fan_out_complete("swarm-task-0"));
    coord.complete_task("swarm-task-2").unwrap();
    assert!(coord.is_fan_out_complete("swarm-task-0"));
}

#[test]
fn task_numbers_continue_over_fan_outs() {
    let mut coord = SwarmCoordinator::new();
    coord.create_team("t".to_string(), vec![member("lead", SwarmRole::Leader)]);
    for _ in 0..4 {
        coord
            .fan_out("t", "root", vec!["a".to_string(), "b".to_string()])
            .unwrap();
    }
    let all = coord.list_tasks(None);
    assert_eq!(all.len(), 12);
    assert_eq!(all[10].id, "swarm-task-10");
    assert_eq!(all[11].id, "swarm-task-11");
    assert_eq!(all[11].parent_task.as_deref(), Some("swarm-task-9"));
    let second = coord.list_tasks(Some("swarm-task-3"));
    assert_eq!(second.len(), 2);
    assert_eq!(second[0].id, "swarm-task-4");
}

#[test]
fn complete_unknown_task_fails() {
    let mut coord = SwarmCoordinator::new();
    let err = coord.complete_task("swarm-task-7").unwrap_err();
    assert_eq!(err, "task 'swarm-task-7' not found");
}

#[test]
fn duplicate_team_names_first_wins() {
    let mut coord = SwarmCoordinator::new();
    coord.create_team("t".to_string(), vec![member("first", SwarmRole::Worker)]);
    coord.create_team("t".to_string(), vec![member("second", SwarmRole::Worker)]);
    assert_eq!(coord.list_teams().len(), 2);
    let children = coord.fan_out("t", "root", vec!["a".to_string()]).unwrap();
    assert_eq!(children[0].assigned_to, "first");
}
