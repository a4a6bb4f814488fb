use swarm_ops::agents::health_checker::HealthChecker;
use swarm_ops::agents::incident_responder::IncidentResponder;
use swarm_ops::agents::log_analyzer::LogAnalyzer;
use swarm_ops::agents::metrics_agent::MetricsAgent;
use swarm_ops::models::{
    AnalyzeRequest, ConsensusRequest, RegisterAgentRequest, TaskStatus, TaskType,
};
use swarm_ops::routes::{get_task, prepare_analysis, register_agent, stats, trigger_consensus};
use swarm_ops::swarm::manager::{begin_task, collect_findings, finish_task, SwarmManager, WorkerInfo};
use swarm_ops::swarm::state::SwarmState;

#[test]
fn test_stats_endpoint() {
    let state = SwarmState::new();
    assert_eq!(stats(&state).total_tasks, 0);
}

#[test]
fn test_list_tasks_empty() {
    let state = SwarmState::new();
    assert!(state.list_tasks().is_empty());
}

#[test]
fn test_get_task_not_found() {
    let state = SwarmState::new();
    let r = get_task(&state, "nonexistent").unwrap_err();
    assert_eq!(r.status_code(), 404);
}

#[test]
fn test_register_agent() {
    let mut state = SwarmState::new();
    let req = RegisterAgentRequest {
        name: "TestAgent".into(),
        agent_type: "log_analyzer".into(),
        capabilities: vec!["log_analysis".into()],
    };
    let id = register_agent(&mut state, req).unwrap();
    assert_eq!(state.get_agent(&id).unwrap().agent_type, "log_analyzer");
}

#[test]
fn test_register_agent_empty_name() {
    let mut state = SwarmState::new();
    let req = RegisterAgentRequest {
        name: "".into(),
        agent_type: "log_analyzer".into(),
        capabilities: vec![],
    };
    assert_eq!(register_agent(&mut state, req).unwrap_err().status_code(), 400);
}

#[test]
fn test_swarm_analyze_empty_data() {
    let req = AnalyzeRequest {
        data: "".into(),
        task_type: TaskType::LogAnalysis,
        agents: vec!["log_analyzer".into()],
    };
    assert_eq!(prepare_analysis(req).unwrap_err().status_code(), 400);
}

#[test]
fn test_swarm_analyze_success() {
    let mut state = SwarmState::new();
    let req = AnalyzeRequest {
        data: "ERROR NullPointer at line 42\nERROR NullPointer at line 43\nFATAL OOM".into(),
        task_type: TaskType::LogAnalysis,
        agents: vec!["log_analyzer".into()],
    };
    let mut task = prepare_analysis(req).unwrap();

    let log = LogAnalyzer::new(());
    let mut manager = SwarmManager::new();
    manager.register_worker(WorkerInfo { name: log.name().into(), capabilities: log.capabilities() });
    let health = HealthChecker::new(());
    manager.register_worker(WorkerInfo { name: health.name().into(), capabilities: health.capabilities() });
    let incident = IncidentResponder::new(());
    manager.register_worker(WorkerInfo { name: incident.name().into(), capabilities: incident.capabilities() });
    let metrics = MetricsAgent::new(());
    manager.register_worker(WorkerInfo { name: metrics.name().into(), capabilities: metrics.capabilities() });

    begin_task(&mut state, &mut task);
    assert_eq!(manager.select_workers(&task), vec!["log_analyzer".to_string()]);

    let (errors, lines) = log.error_line_stats(&task.data);
    let density = format!("Error density: {:.1}%", errors as f64 / lines.max(1) as f64 * 100.0);
    let local = log.heuristic_analyze(&task.data, &density);
    let answered = log.with_claude_response(local, Ok("mock analysis".to_string()));
    let results = finish_task(&mut state, &mut task, collect_findings(vec![Ok(answered)]));

    assert!(!results.is_empty());
    assert_eq!(task.status, TaskStatus::Completed);
    assert_eq!(get_task(&state, &task.id).unwrap().status, TaskStatus::Completed);
}

#[test]
fn test_consensus_empty_ids() {
    let mut state = SwarmState::new();
    let req = ConsensusRequest { finding_ids: vec![] };
    assert_eq!(trigger_consensus(&mut state, &req).unwrap_err().status_code(), 400);
}

#[test]
fn test_consensus_nonexistent_ids() {
    let mut state = SwarmState::new();
    let req = ConsensusRequest { finding_ids: vec!["no-such-id".into()] };
    assert_eq!(trigger_consensus(&mut state, &req).unwrap_err().status_code(), 404);
}

#[test]
fn test_agent_findings_empty() {
    let state = SwarmState::new();
    assert!(state.get_findings_by_agent("some-agent").is_empty());
}

#[test]
fn test_list_agents_empty() {
    let state = SwarmState::new();
    assert!(state.list_agents().is_empty());
}
