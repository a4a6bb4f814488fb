use swarm_ops::models::{AgentConfig, Finding, FindingCategory, Severity, SwarmTask, TaskStatus, TaskType};
use swarm_ops::swarm::state::SwarmState;

#[test]
fn test_insert_and_get_task() {
    let mut state = SwarmState::new();
    let task = SwarmTask::new(TaskType::LogAnalysis, "data".into(), vec![]);
    let id = task.id.clone();
    state.insert_task(task);
    let got = state.get_task(&id).unwrap();
    assert_eq!(got.data, "data");
}

#[test]
fn test_list_tasks() {
    let mut state = SwarmState::new();
    state.insert_task(SwarmTask::new(TaskType::LogAnalysis, "a".into(), vec![]));
    state.insert_task(SwarmTask::new(TaskType::HealthCheck, "b".into(), vec![]));
    assert_eq!(state.list_tasks().len(), 2);
}

#[test]
fn test_register_and_list_agents() {
    let mut state = SwarmState::new();
    let agent = AgentConfig::new("Test".into(), "log_analyzer".into(), vec!["logs".into()]);
    state.register_agent(agent);
    assert_eq!(state.list_agents().len(), 1);
}

#[test]
fn test_insert_and_get_findings_by_agent() {
    let mut state = SwarmState::new();
    let f = Finding::new(
        Severity::High,
        FindingCategory::ErrorPattern,
        "test".into(),
        "evidence".into(),
        900000,
        "agent-1".into(),
    );
    state.insert_finding(f);
    let findings = state.get_findings_by_agent("agent-1");
    assert_eq!(findings.len(), 1);
    assert_eq!(findings[0].agent_id, "agent-1");
}

#[test]
fn update_replaces_task_with_same_id() {
    let mut state = SwarmState::default();
    let mut task = SwarmTask::new(TaskType::Incident, "x".into(), vec![]);
    let id = task.id.clone();
    state.insert_task(task.clone());
    task.status = TaskStatus::Completed;
    state.update_task(task);
    assert_eq!(state.list_tasks().len(), 1);
    assert_eq!(state.get_task(&id).unwrap().status, TaskStatus::Completed);
    assert!(state.get_task("missing").is_none());
}

#[test]
fn findings_by_ids_keep_request_order_and_skip_unknown() {
    let mut state = SwarmState::new();
    let a = Finding::new(Severity::Low, FindingCategory::Trend, "a".into(), "e".into(), 1, "x".into());
    let b = Finding::new(Severity::Low, FindingCategory::Trend, "b".into(), "e".into(), 1, "y".into());
    let (ida, idb) = (a.id.clone(), b.id.clone());
    state.insert_finding(a);
    state.insert_finding(b);
    let got = state.get_findings_by_ids(&[idb.clone(), "nope".to_string(), ida.clone()]);
    assert_eq!(got.len(), 2);
    assert_eq!(got[0].id, idb);
    assert_eq!(got[1].id, ida);
    assert_eq!(state.list_findings().len(), 2);
    assert!(state.get_findings_by_agent("z").is_empty());
}

#[test]
fn get_agent_after_register() {
    let mut state = SwarmState::new();
    let agent = AgentConfig::new("n".into(), "t".into(), vec![]);
    let id = agent.id.clone();
    state.register_agent(agent);
    let got = state.get_agent(&id).unwrap();
    assert_eq!(got.name, "n");
    assert!(got.enabled);
}
