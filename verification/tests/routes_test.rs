use swarm_ops::models::{
    AnalyzeRequest, ClaudeContentBlock, ClaudeRequest, ClaudeResponse, ConsensusRequest,
    ErrorResponse, Finding, FindingCategory, RegisterAgentRequest, Severity, TaskStatus, TaskType,
    AgentError, MAX_TOKENS,
};
use swarm_ops::routes::{get_task, prepare_analysis, register_agent, stats, trigger_consensus};
use swarm_ops::swarm::state::SwarmState;

#[test]
fn analyze_refuses_empty_data() {
    let req = AnalyzeRequest { data: String::new(), task_type: TaskType::LogAnalysis, agents: vec!["log_analyzer".into()] };
    let r = prepare_analysis(req).unwrap_err();
    assert_eq!(r.status_code(), 400);
    let body = r.into_body();
    assert!(!body.success);
    assert_eq!(body.error, "data must not be empty");
}

#[test]
fn analyze_accepts_data() {
    let req = AnalyzeRequest { data: "ERROR x".into(), task_type: TaskType::Incident, agents: vec![] };
    let t = prepare_analysis(req).unwrap();
    assert_eq!(t.status, TaskStatus::Pending);
    assert_eq!(t.task_type, TaskType::Incident);
    assert_eq!(t.id.len(), 36);
}

#[test]
fn get_missing_task_is_not_found() {
    let state = SwarmState::new();
    let r = get_task(&state, "nonexistent").unwrap_err();
    assert_eq!(r.status_code(), 404);
    assert_eq!(r.into_body().error, "task not found");
}

#[test]
fn register_agent_and_refuse_empty_name() {
    let mut state = SwarmState::new();
    let ok = register_agent(&mut state, RegisterAgentRequest {
        name: "TestAgent".into(),
        agent_type: "log_analyzer".into(),
        capabilities: vec!["log_analysis".into()],
    })
    .unwrap();
    assert_eq!(state.get_agent(&ok).unwrap().name, "TestAgent");
    let err = register_agent(&mut state, RegisterAgentRequest {
        name: "".into(),
        agent_type: "log_analyzer".into(),
        capabilities: vec![],
    })
    .unwrap_err();
    assert_eq!(err.status_code(), 400);
    assert_eq!(state.list_agents().len(), 1);
}

#[test]
fn consensus_refusals_and_success() {
    let mut state = SwarmState::new();
    let e = trigger_consensus(&mut state, &ConsensusRequest { finding_ids: vec![] }).unwrap_err();
    assert_eq!(e.status_code(), 400);
    assert_eq!(e.into_body().error, "finding_ids must not be empty");
    let e = trigger_consensus(&mut state, &ConsensusRequest { finding_ids: vec!["no-such-id".into()] }).unwrap_err();
    assert_eq!(e.status_code(), 404);
    assert_eq!(e.into_body().error, "no findings found for given IDs");
    let f = Finding::new(Severity::High, FindingCategory::ErrorPattern, "boom".into(), "ev".into(), 500000, "a".into());
    let id = f.id.clone();
    state.insert_finding(f);
    let r = trigger_consensus(&mut state, &ConsensusRequest { finding_ids: vec![id] }).unwrap();
    assert_eq!(r.total_input_findings, 1);
    assert_eq!(r.total_merged_findings, 1);
    assert_eq!(state.list_consensus().len(), 1);
}

#[test]
fn stats_count_everything() {
    let mut state = SwarmState::new();
    let s = stats(&state);
    assert_eq!(s.total_tasks, 0);
    assert_eq!(s.consensus_rate, 0);
    assert!(s.tasks_by_status.is_empty());
    state.insert_task(swarm_ops::models::SwarmTask::new(TaskType::LogAnalysis, "a".into(), vec![]));
    let mut done = swarm_ops::models::SwarmTask::new(TaskType::LogAnalysis, "b".into(), vec![]);
    done.status = TaskStatus::Completed;
    state.insert_task(done);
    let s = stats(&state);
    assert_eq!(s.total_tasks, 2);
    assert_eq!(s.tasks_by_status, vec![("pending".to_string(), 1), ("completed".to_string(), 1)]);
}

#[test]
fn error_response_and_agent_error_messages() {
    let e = ErrorResponse::new("bad");
    assert!(!e.success);
    assert_eq!(e.error, "bad");
    assert_eq!(AgentError::AnalysisFailed("x".into()).message(), "Analysis failed: x");
    assert_eq!(AgentError::ClaudeApiError("y".into()).message(), "Model API error: y");
    assert_eq!(AgentError::InvalidInput("z".into()).message(), "Invalid input: z");
}

#[test]
fn claude_response_text_concatenates_text_blocks() {
    let r = ClaudeResponse {
        id: "msg".into(),
        content: vec![
            ClaudeContentBlock { block_type: "text".into(), text: Some("Hello, ".into()) },
            ClaudeContentBlock { block_type: "tool_use".into(), text: None },
            ClaudeContentBlock { block_type: "text".into(), text: Some("world".into()) },
        ],
    };
    assert_eq!(r.text(), "Hello, world");
}

#[test]
fn claude_request_for_prompt() {
    let r = ClaudeRequest::for_prompt("m", "sys", "user text");
    assert_eq!(r.model, "m");
    assert_eq!(r.max_tokens, MAX_TOKENS);
    assert_eq!(r.messages.len(), 1);
    assert_eq!(r.messages[0].role, "user");
    assert_eq!(r.messages[0].content, "sys\n\nuser text");
}
