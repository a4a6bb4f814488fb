use swarm_ops::agents::health_checker::HealthChecker;
use swarm_ops::agents::incident_responder::IncidentResponder;
use swarm_ops::agents::log_analyzer::LogAnalyzer;
use swarm_ops::agents::metrics_agent::MetricsAgent;
use swarm_ops::models::{AgentError, Finding, FindingCategory, Severity};

/// What a log analyzer reports when the model answers `response`.
fn log_findings(response: &str, input: &str) -> Vec<Finding> {
    let agent = LogAnalyzer::new(());
    let (errors, lines) = agent.error_line_stats(input);
    let density = format!(
        "Error density: {:.1}%",
        errors as f64 / lines.max(1) as f64 * 100.0
    );
    let local = agent.heuristic_analyze(input, &density);
    agent.with_claude_response(local, Ok(response.to_string()))
}

fn health_findings(response: &str, input: &str) -> Vec<Finding> {
    let agent = HealthChecker::new(());
    let local = agent.heuristic_analyze(input);
    agent.with_claude_response(local, Ok(response.to_string()))
}

fn incident_findings(response: &str, input: &str) -> Vec<Finding> {
    let agent = IncidentResponder::new(());
    let local = agent.heuristic_analyze(input);
    agent.with_claude_response(local, Ok(response.to_string()))
}

fn metrics_findings(response: &str, input: &str) -> Vec<Finding> {
    let agent = MetricsAgent::new(());
    let local = agent.keyword_analyze(input);
    agent.with_claude_response(local, Ok(response.to_string()))
}

// ── HealthChecker ───────────────────────────────────────────────────

#[test]
fn test_detects_outage() {
    let findings = health_findings("ok", "Service payment-api is DOWN. Host unreachable.");
    assert!(findings
        .iter()
        .any(|f| f.category == FindingCategory::ServiceOutage));
}

#[test]
fn test_detects_oom() {
    let findings = health_findings("ok", "Container killed: Out of memory (OOM)");
    assert!(findings
        .iter()
        .any(|f| f.category == FindingCategory::ResourceExhaustion));
}

#[test]
fn test_healthy_input() {
    let findings = health_findings("all clear", "All services healthy. Response time 45ms.");
    assert!(findings.iter().all(|f| f.severity != Severity::Critical));
}

#[test]
fn test_health_checker_timeout() {
    let findings = health_findings("analysis", "timeout timeout timeout timeout timeout");
    assert!(findings
        .iter()
        .any(|f| f.category == FindingCategory::PerformanceDegradation));
}

#[test]
fn test_health_checker_disk_full() {
    let findings = health_findings("ok", "Alert: no space left on device /dev/sda1");
    assert!(findings
        .iter()
        .any(|f| f.category == FindingCategory::ResourceExhaustion));
}

#[test]
fn health_outage_counts_every_indicator() {
    let agent = HealthChecker::new(());
    let findings = agent.heuristic_analyze("db DOWN, cache down, api unreachable, queue unavailable");
    assert_eq!(findings.len(), 1);
    assert_eq!(findings[0].description, "Service outage detected: 4 down indicators");
    assert_eq!(
        findings[0].evidence,
        "Keywords: down/unreachable/unavailable (count: 4)"
    );
    assert_eq!(findings[0].severity, Severity::Critical);
    assert_eq!(findings[0].confidence, 900000);
    assert_eq!(findings[0].agent_id, "health_checker");
}

#[test]
fn health_few_timeouts_are_medium() {
    let agent = HealthChecker::new(());
    let findings = agent.heuristic_analyze("request timed out; another timeout");
    assert_eq!(findings.len(), 1);
    assert_eq!(findings[0].description, "Timeout events detected: 2");
    assert_eq!(findings[0].severity, Severity::Medium);
}

#[test]
fn health_degradation_and_cpu() {
    let agent = HealthChecker::new(());
    let findings = agent.heuristic_analyze("slow slow degraded; CPU at 100%");
    assert_eq!(findings.len(), 2);
    assert_eq!(
        findings[0].description,
        "Service degradation pattern: 3 degradation indicators"
    );
    assert_eq!(findings[1].description, "High CPU utilization detected");
}

#[test]
fn health_summary_needs_a_non_empty_answer() {
    let agent = HealthChecker::new(());
    let with_text = agent.with_claude_response(Vec::new(), Ok("summary".to_string()));
    assert_eq!(with_text.len(), 1);
    assert_eq!(with_text[0].severity, Severity::Info);
    assert_eq!(with_text[0].evidence, "summary");
    assert_eq!(with_text[0].description, "AI-assisted health analysis summary");
    let empty = agent.with_claude_response(Vec::new(), Ok(String::new()));
    assert!(empty.is_empty());
    let failed = agent.with_claude_response(
        Vec::new(),
        Err(AgentError::ClaudeApiError("down".to_string())),
    );
    assert!(failed.is_empty());
}

#[test]
fn health_capabilities_and_name() {
    let agent = HealthChecker::new(());
    assert_eq!(agent.name(), "health_checker");
    assert!(agent.capabilities().contains(&"health_check".to_string()));
}

// ── IncidentResponder ───────────────────────────────────────────────

#[test]
fn test_detects_p1_incident() {
    let findings = incident_findings("ok", "P1 Critical Incident: payment service unresponsive");
    assert!(findings.iter().any(|f| f.severity == Severity::Critical));
}

#[test]
fn test_detects_bad_deploy() {
    let findings = incident_findings(
        "ok",
        "Deploy v2.3.1 completed. Error rate spiked. Multiple failures observed.",
    );
    assert!(findings
        .iter()
        .any(|f| f.category == FindingCategory::ConfigurationDrift));
}

#[test]
fn test_detects_cascading_failure() {
    let findings = incident_findings(
        "ok",
        "API gateway failure. DB connection pool exhausted. Cache down.",
    );
    assert!(findings
        .iter()
        .any(|f| f.description.contains("Cascading failure")));
}

#[test]
fn test_normal_operations() {
    let findings = incident_findings("ok", "All systems nominal. No incidents.");
    assert!(findings.iter().all(|f| f.severity != Severity::Critical));
}

#[test]
fn test_incident_responder_rollback_detection() {
    let findings = incident_findings("ok", "Deploy v3.0 pushed. Error spike. Rollback initiated.");
    assert!(findings
        .iter()
        .any(|f| f.description.contains("Rollback") || f.description.contains("deploy")));
}

#[test]
fn incident_cascading_lists_services_in_order() {
    let agent = IncidentResponder::new(());
    let findings = agent.heuristic_analyze("API gateway failure. DB connection pool exhausted. Cache down.");
    let cascade = findings
        .iter()
        .find(|f| f.description.starts_with("Cascading"))
        .unwrap();
    assert_eq!(cascade.description, "Cascading failure pattern: 4 services affected");
    assert_eq!(cascade.evidence, "Affected services: api, db, cache, gateway");
    assert_eq!(cascade.confidence, 880000);
}

#[test]
fn incident_rollback_finding_text() {
    let agent = IncidentResponder::new(());
    let findings = agent.heuristic_analyze("release failed with error, revert started");
    assert_eq!(findings.len(), 2);
    assert_eq!(
        findings[1].description,
        "Rollback detected \u{2014} deployment may have been reverted"
    );
    assert_eq!(findings[1].severity, Severity::Info);
}

#[test]
fn incident_config_change() {
    let agent = IncidentResponder::new(());
    let findings = agent.heuristic_analyze("Config change applied, then outage");
    assert_eq!(findings.len(), 1);
    assert_eq!(findings[0].confidence, 820000);
    assert_eq!(findings[0].category, FindingCategory::ConfigurationDrift);
}

// ── LogAnalyzer ─────────────────────────────────────────────────────

#[test]
fn test_detects_fatal() {
    let findings = log_findings("ok", "2024-01-01 FATAL OutOfMemory\n2024-01-01 INFO started");
    assert!(findings.iter().any(|f| f.severity == Severity::Critical));
}

#[test]
fn test_detects_high_error_rate() {
    let input = (0..10)
        .map(|i| format!("ERROR service failed attempt {}", i))
        .collect::<Vec<_>>()
        .join("\n");
    let findings = log_findings("analysis", &input);
    assert!(findings.iter().any(|f| f.severity == Severity::High));
}

#[test]
fn test_clean_logs_no_critical() {
    let findings = log_findings("all good", "INFO started\nINFO healthy\nINFO ok");
    assert!(findings.iter().all(|f| f.severity != Severity::Critical));
}

#[test]
fn log_analyzer_test_capabilities() {
    let agent = LogAnalyzer::new(());
    assert!(agent.capabilities().contains(&"log_analysis".to_string()));
}

#[test]
fn test_log_analyzer_error_cluster() {
    let findings = log_findings(
        "summary",
        "ERROR auth failed\nERROR auth failed\nERROR auth failed\nINFO ok",
    );
    assert!(findings
        .iter()
        .any(|f| f.description.contains("error") || f.description.contains("cluster")));
}

#[test]
fn log_cluster_and_counts_exact() {
    let agent = LogAnalyzer::new(());
    let input = "ERROR auth failed\nERROR auth failed\r\nERROR auth failed\nINFO ok\n";
    let findings = agent.heuristic_analyze(input, "unused");
    assert_eq!(findings.len(), 2);
    assert_eq!(findings[0].description, "Found 3 error entries in logs");
    assert_eq!(findings[1].description, "Repeated error cluster (3 occurrences)");
    assert_eq!(findings[1].evidence, "Pattern prefix: error auth failed");
}

#[test]
fn log_fatal_evidence_takes_three_lines() {
    let agent = LogAnalyzer::new(());
    let input = "FATAL a\nfatal b\nFaTaL c\nFATAL d";
    let findings = agent.heuristic_analyze(input, "unused");
    assert_eq!(findings[0].description, "Detected 4 fatal log entries");
    assert_eq!(findings[0].evidence, "Lines containing FATAL: FATAL a | fatal b | FaTaL c");
}

#[test]
fn log_high_error_rate_uses_density() {
    let agent = LogAnalyzer::new(());
    let input = "error\nerror x\nerror y\nerror z\nerror w\nerror v\nok";
    let (errors, lines) = agent.error_line_stats(input);
    assert_eq!((errors, lines), (6, 7));
    let findings = agent.heuristic_analyze(input, "Error density: 85.7%");
    assert_eq!(findings[0].description, "High error rate detected: 6 errors in 7 lines");
    assert_eq!(findings[0].evidence, "Error density: 85.7%");
}

#[test]
fn log_many_warnings() {
    let agent = LogAnalyzer::new(());
    let input = vec!["WARN disk"; 11].join("\n");
    let findings = agent.heuristic_analyze(&input, "unused");
    assert_eq!(findings.len(), 1);
    assert_eq!(findings[0].description, "Elevated warning count: 11 warnings");
    assert_eq!(findings[0].category, FindingCategory::AnomalousBehavior);
}

// ── MetricsAgent ────────────────────────────────────────────────────

#[test]
fn test_detects_spike_keyword() {
    let findings = metrics_findings("ok", "CPU spike observed at 14:00 UTC");
    assert!(findings
        .iter()
        .any(|f| f.category == FindingCategory::MetricSpike));
}

#[test]
fn metrics_agent_test_capabilities() {
    let agent = MetricsAgent::new(());
    assert!(agent.capabilities().contains(&"metrics_analysis".to_string()));
}

#[test]
fn test_metrics_agent_drop_keyword() {
    let findings = metrics_findings("ok", "Revenue drop observed Q3");
    assert!(findings
        .iter()
        .any(|f| f.category == FindingCategory::MetricDrop));
}

#[test]
fn metrics_number_tokens() {
    let tokens = MetricsAgent::<()>::extract_number_tokens("cpu 45.2 mem 78 disk 92.1");
    assert_eq!(tokens, vec!["45.2", "78", "92.1"]);
    let tokens = MetricsAgent::<()>::extract_number_tokens("at 14:00, -3 then 1.2.3");
    assert_eq!(tokens, vec!["14", "00", "-3", "1.2.3"]);
}

#[test]
fn test_extract_numbers() {
    let nums: Vec<f64> = MetricsAgent::<()>::extract_number_tokens("cpu 45.2 mem 78 disk 92.1")
        .iter()
        .filter_map(|t| t.parse::<f64>().ok())
        .collect();
    assert_eq!(nums, vec![45.2, 78.0, 92.1]);
}

#[test]
fn metrics_trend_keyword() {
    let agent = MetricsAgent::new(());
    let findings = agent.keyword_analyze("latency increasing");
    assert_eq!(findings.len(), 1);
    assert_eq!(findings[0].category, FindingCategory::Trend);
    assert_eq!(findings[0].confidence, 650000);
}
