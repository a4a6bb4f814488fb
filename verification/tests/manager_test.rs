use swarm_ops::models::{AgentError, Finding, FindingCategory, Severity, SwarmTask, TaskStatus, TaskType};
use swarm_ops::swarm::manager::{begin_task, collect_findings, finish_task, SwarmManager, WorkerInfo};
use swarm_ops::swarm::state::SwarmState;

fn worker(name: &str, caps: Vec<&str>) -> WorkerInfo {
    WorkerInfo {
        name: name.to_string(),
        capabilities: caps.into_iter().map(|s| s.to_string()).collect(),
    }
}

#[test]
fn test_register_and_list_workers() {
    let mut mgr = SwarmManager::new();
    mgr.register_worker(worker("test_agent", vec!["log"]));
    assert_eq!(mgr.worker_names().len(), 1);
}

#[test]
fn test_swarm_manager_empty_workers() {
    let manager = SwarmManager::new();
    assert!(manager.worker_names().is_empty());
}

#[test]
fn test_swarm_manager_register_multiple() {
    let mut mgr = SwarmManager::new();
    mgr.register_worker(worker("w1", vec!["log"]));
    mgr.register_worker(worker("w2", vec!["health"]));
    mgr.register_worker(worker("w3", vec!["incident"]));
    assert_eq!(mgr.worker_names().len(), 3);
}

#[test]
fn test_execute_task_collects_findings() {
    let mut state = SwarmState::new();
    let mut mgr = SwarmManager::new();
    mgr.register_worker(worker("stub", vec!["log"]));
    let finding = Finding::new(
        Severity::High,
        FindingCategory::ErrorPattern,
        "Error found".into(),
        "line 42".into(),
        900000,
        "stub".into(),
    );
    let mut task = SwarmTask::new(TaskType::LogAnalysis, "log data here".into(), vec!["stub".into()]);
    begin_task(&mut state, &mut task);
    assert_eq!(mgr.select_workers(&task), vec!["stub".to_string()]);
    let all = collect_findings(vec![Ok(vec![finding])]);
    let results = finish_task(&mut state, &mut task, all);
    assert!(!results.is_empty());
    assert_eq!(task.status, TaskStatus::Completed);
}

#[test]
fn test_execute_task_parallel_workers() {
    let mut state = SwarmState::new();
    let f1 = Finding::new(Severity::High, FindingCategory::ErrorPattern, "Error".into(), "ev1".into(), 800000, "a1".into());
    let f2 = Finding::new(Severity::Medium, FindingCategory::MetricSpike, "Spike".into(), "ev2".into(), 600000, "a2".into());
    let mut task = SwarmTask::new(TaskType::LogAnalysis, "data".into(), vec!["a1".into(), "a2".into()]);
    begin_task(&mut state, &mut task);
    let all = collect_findings(vec![Ok(vec![f1]), Ok(vec![f2])]);
    let results = finish_task(&mut state, &mut task, all);
    assert_eq!(results.len(), 2);
}

#[test]
fn test_workers_for_task_type() {
    let mut mgr = SwarmManager::new();
    mgr.register_worker(worker("la", vec!["log_analysis"]));
    mgr.register_worker(worker("hc", vec!["health_check"]));
    let task = SwarmTask::new(TaskType::LogAnalysis, "d".into(), vec![]);
    assert_eq!(mgr.select_workers(&task), vec!["la".to_string()]);
}

#[test]
fn test_swarm_task_lifecycle() {
    let mut state = SwarmState::new();
    let finding = Finding::new(Severity::Medium, FindingCategory::ErrorPattern, "test finding".into(), "ev".into(), 700000, "w1".into());
    let mut task = SwarmTask::new(TaskType::LogAnalysis, "logs".into(), vec!["w1".into()]);
    let task_id = task.id.clone();
    assert_eq!(task.status, TaskStatus::Pending);
    begin_task(&mut state, &mut task);
    assert_eq!(state.get_task(&task_id).unwrap().status, TaskStatus::Running);
    let results = finish_task(&mut state, &mut task, collect_findings(vec![Ok(vec![finding])]));
    assert_eq!(task.status, TaskStatus::Completed);
    assert!(!results.is_empty());
    let stored = state.get_task(&task_id).unwrap();
    assert_eq!(stored.status, TaskStatus::Completed);
    assert!(stored.completed_at.is_some());
}

#[test]
fn test_swarm_findings_stored_in_state() {
    let mut state = SwarmState::new();
    let finding = Finding::new(Severity::High, FindingCategory::ServiceOutage, "outage".into(), "ev".into(), 900000, "w1".into());
    let mut task = SwarmTask::new(TaskType::HealthCheck, "data".into(), vec!["w1".into()]);
    begin_task(&mut state, &mut task);
    finish_task(&mut state, &mut task, collect_findings(vec![Ok(vec![finding])]));
    assert!(!state.list_findings().is_empty());
    assert_eq!(state.list_consensus().len(), 1);
}

#[test]
fn failed_workers_contribute_nothing() {
    let f = Finding::new(Severity::Low, FindingCategory::Trend, "t".into(), "e".into(), 1, "a".into());
    let all = collect_findings(vec![
        Err(AgentError::AnalysisFailed("intentional failure".into())),
        Ok(vec![f]),
        Ok(vec![]),
    ]);
    assert_eq!(all.len(), 1);
    assert_eq!(all[0].agent_id, "a");
}

#[test]
fn requested_workers_keep_order_and_skip_unknown() {
    let mut mgr = SwarmManager::new();
    mgr.register_worker(worker("a", vec!["x"]));
    mgr.register_worker(worker("b", vec!["y"]));
    mgr.register_worker(worker("a", vec!["LOG parsing"]));
    assert_eq!(mgr.worker_names(), vec!["a".to_string(), "b".to_string()]);
    let task = SwarmTask::new(TaskType::Incident, "d".into(), vec!["b".into(), "zz".into(), "a".into()]);
    assert_eq!(mgr.select_workers(&task), vec!["b".to_string(), "a".to_string()]);
    let task = SwarmTask::new(TaskType::LogAnalysis, "d".into(), vec![]);
    assert_eq!(mgr.select_workers(&task), vec!["a".to_string()]);
}
