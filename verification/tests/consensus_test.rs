use swarm_ops::models::{Finding, FindingCategory, Severity, CONFIDENCE_SCALE};
use swarm_ops::swarm::consensus::ConsensusEngine;

/// A fraction as the library's fixed-point confidence.
fn ppm(x: f64) -> u32 {
    (x * CONFIDENCE_SCALE as f64).round() as u32
}

/// A fixed-point confidence as a fraction.
fn frac(c: u32) -> f64 {
    c as f64 / CONFIDENCE_SCALE as f64
}

fn make(sev: Severity, cat: FindingCategory, desc: &str, conf: f64, agent: &str) -> Finding {
    Finding::new(sev, cat, desc.into(), "ev".into(), ppm(conf), agent.into())
}

fn make_finding(
    severity: Severity,
    category: FindingCategory,
    desc: &str,
    confidence: f64,
    agent: &str,
) -> Finding {
    Finding::new(
        severity,
        category,
        desc.to_string(),
        "ev".to_string(),
        ppm(confidence),
        agent.to_string(),
    )
}

#[test]
fn test_consensus_no_findings() {
    let result = ConsensusEngine::run(&[]);
    assert_eq!(result.total_input_findings, 0);
    assert_eq!(result.total_merged_findings, 0);
    assert_eq!(frac(result.agreement_rate), 0.0);
}

#[test]
fn test_consensus_unique_findings_pass_through() {
    let findings = vec![
        make_finding(Severity::High, FindingCategory::ErrorPattern, "Error A", 0.8, "a1"),
        make_finding(Severity::Low, FindingCategory::MetricSpike, "Spike B", 0.6, "a2"),
    ];
    let result = ConsensusEngine::run(&findings);
    assert_eq!(result.total_merged_findings, 2);
}

#[test]
fn test_consensus_merges_overlapping() {
    let findings = vec![
        make_finding(
            Severity::High,
            FindingCategory::ErrorPattern,
            "NullPointerException in auth service module",
            0.8,
            "agent-1",
        ),
        make_finding(
            Severity::Medium,
            FindingCategory::ErrorPattern,
            "NullPointerException in auth service module",
            0.6,
            "agent-2",
        ),
    ];
    let result = ConsensusEngine::run(&findings);
    assert_eq!(result.total_merged_findings, 1);
    let merged = &result.merged_findings[0];
    assert!((frac(merged.confidence) - 0.7).abs() < 0.01);
    assert_eq!(merged.severity, Severity::High);
}

#[test]
fn test_consensus_sorted_by_severity_then_confidence() {
    let findings = vec![
        make_finding(Severity::Low, FindingCategory::Trend, "trend", 0.9, "a"),
        make_finding(Severity::Critical, FindingCategory::ServiceOutage, "outage", 0.5, "b"),
        make_finding(Severity::High, FindingCategory::ErrorPattern, "err", 0.7, "c"),
    ];
    let result = ConsensusEngine::run(&findings);
    assert_eq!(result.merged_findings[0].severity, Severity::Critical);
    assert_eq!(result.merged_findings[1].severity, Severity::High);
    assert_eq!(result.merged_findings[2].severity, Severity::Low);
}

#[test]
fn test_consensus_agreement_rate() {
    let findings = vec![
        make_finding(
            Severity::High,
            FindingCategory::ErrorPattern,
            "same error pattern found in logs",
            0.8,
            "a1",
        ),
        make_finding(
            Severity::High,
            FindingCategory::ErrorPattern,
            "same error pattern found in logs",
            0.7,
            "a2",
        ),
        make_finding(Severity::Low, FindingCategory::Trend, "unique", 0.5, "a3"),
    ];
    let result = ConsensusEngine::run(&findings);
    assert_eq!(result.total_input_findings, 3);
    assert_eq!(result.total_merged_findings, 2);
    assert!((frac(result.agreement_rate) - 1.0 / 3.0).abs() < 0.01);
}

#[test]
fn test_similar_substring() {
    assert!(ConsensusEngine::similar("Error in auth", "Error in auth service"));
}

#[test]
fn test_not_similar() {
    assert!(!ConsensusEngine::similar("Error A", "Spike B"));
}

#[test]
fn test_empty_consensus() {
    let r = ConsensusEngine::run(&[]);
    assert_eq!(r.total_input_findings, 0);
    assert_eq!(r.total_merged_findings, 0);
}

#[test]
fn test_all_unique_findings() {
    let findings = vec![
        make(Severity::High, FindingCategory::ErrorPattern, "err A", 0.9, "a1"),
        make(Severity::Low, FindingCategory::MetricSpike, "spike B", 0.6, "a2"),
        make(Severity::Medium, FindingCategory::Trend, "trend C", 0.7, "a3"),
    ];
    let r = ConsensusEngine::run(&findings);
    assert_eq!(r.total_merged_findings, 3);
    assert_eq!(frac(r.agreement_rate), 0.0);
}

#[test]
fn test_merge_identical_findings() {
    let findings = vec![
        make(
            Severity::High,
            FindingCategory::ErrorPattern,
            "NullPointerException in auth module",
            0.8,
            "a1",
        ),
        make(
            Severity::Medium,
            FindingCategory::ErrorPattern,
            "NullPointerException in auth module",
            0.6,
            "a2",
        ),
    ];
    let r = ConsensusEngine::run(&findings);
    assert_eq!(r.total_merged_findings, 1);
    let merged = &r.merged_findings[0];
    assert!((frac(merged.confidence) - 0.7).abs() < 0.01);
    assert_eq!(merged.severity, Severity::High);
}

#[test]
fn test_merge_three_way() {
    let findings = vec![
        make(
            Severity::High,
            FindingCategory::ErrorPattern,
            "timeout in payment service handler",
            0.9,
            "a1",
        ),
        make(
            Severity::High,
            FindingCategory::ErrorPattern,
            "timeout in payment service handler",
            0.8,
            "a2",
        ),
        make(
            Severity::Medium,
            FindingCategory::ErrorPattern,
            "timeout in payment service handler",
            0.7,
            "a3",
        ),
    ];
    let r = ConsensusEngine::run(&findings);
    assert_eq!(r.total_merged_findings, 1);
    assert!((frac(r.merged_findings[0].confidence) - 0.8).abs() < 0.01);
}

#[test]
fn test_severity_ordering_in_output() {
    let findings = vec![
        make(Severity::Low, FindingCategory::Trend, "trend", 0.5, "a"),
        make(Severity::Critical, FindingCategory::ServiceOutage, "outage", 0.9, "b"),
        make(Severity::High, FindingCategory::ErrorPattern, "error", 0.7, "c"),
        make(Severity::Info, FindingCategory::AnomalousBehavior, "anomaly", 0.4, "d"),
    ];
    let r = ConsensusEngine::run(&findings);
    assert_eq!(r.merged_findings[0].severity, Severity::Critical);
    assert_eq!(r.merged_findings[1].severity, Severity::High);
    assert_eq!(r.merged_findings[2].severity, Severity::Low);
    assert_eq!(r.merged_findings[3].severity, Severity::Info);
}

#[test]
fn test_confidence_clamped() {
    let f = Finding::new(
        Severity::High,
        FindingCategory::ErrorPattern,
        "test".into(),
        "ev".into(),
        ppm(1.5),
        "a".into(),
    );
    assert!((frac(f.confidence) - 1.0).abs() < f64::EPSILON);
}

// ── Further cases ───────────────────────────────────────────────────

#[test]
fn merged_finding_joins_evidence_and_agents() {
    let a = Finding::new(
        Severity::Medium,
        FindingCategory::ErrorPattern,
        "Disk error on node 7".into(),
        "line 1".into(),
        ppm(0.5),
        "x".into(),
    );
    let b = Finding::new(
        Severity::Critical,
        FindingCategory::ErrorPattern,
        "disk error".into(),
        "line 2".into(),
        ppm(0.9),
        "y".into(),
    );
    let r = ConsensusEngine::run(&[a, b]);
    assert_eq!(r.total_merged_findings, 1);
    let m = &r.merged_findings[0];
    assert_eq!(m.description, "Disk error on node 7");
    assert_eq!(m.evidence, "line 1 | line 2");
    assert_eq!(m.agent_id, "x+y");
    assert_eq!(m.severity, Severity::Critical);
    assert_eq!(m.confidence, 700000);
    assert_eq!(r.agreement_rate, 500000);
}

#[test]
fn different_categories_never_merge() {
    let findings = vec![
        make(Severity::High, FindingCategory::ErrorPattern, "same text", 0.8, "a"),
        make(Severity::High, FindingCategory::Trend, "same text", 0.8, "b"),
    ];
    let r = ConsensusEngine::run(&findings);
    assert_eq!(r.total_merged_findings, 2);
    assert_eq!(r.agreement_rate, 0);
}

#[test]
fn long_common_prefix_is_similar() {
    assert!(ConsensusEngine::similar(
        "connection refused by upstream A",
        "Connection refused by upstream B"
    ));
    assert!(!ConsensusEngine::similar("short prefix one", "short prefix two"));
}

#[test]
fn similarity_is_symmetric() {
    assert_eq!(
        ConsensusEngine::similar("Error in auth", "Error in auth service"),
        ConsensusEngine::similar("Error in auth service", "Error in auth")
    );
    assert!(ConsensusEngine::similar("anything", "anything"));
}

#[test]
fn equal_severity_sorted_by_descending_confidence() {
    let findings = vec![
        make(Severity::High, FindingCategory::ErrorPattern, "first", 0.5, "a"),
        make(Severity::High, FindingCategory::Trend, "second", 0.9, "b"),
        make(Severity::High, FindingCategory::MetricDrop, "third", 0.7, "c"),
    ];
    let r = ConsensusEngine::run(&findings);
    assert_eq!(r.merged_findings[0].confidence, ppm(0.9));
    assert_eq!(r.merged_findings[1].confidence, ppm(0.7));
    assert_eq!(r.merged_findings[2].confidence, ppm(0.5));
}

#[test]
fn cluster_members_are_compared_with_the_first() {
    // "b" is similar to neither "a" nor "c" by itself; "c" contains "a".
    let findings = vec![
        make(Severity::Low, FindingCategory::ErrorPattern, "timeout", 0.4, "1"),
        make(Severity::Low, FindingCategory::ErrorPattern, "refused", 0.4, "2"),
        make(Severity::Low, FindingCategory::ErrorPattern, "gateway timeout", 0.4, "3"),
    ];
    let r = ConsensusEngine::run(&findings);
    assert_eq!(r.total_merged_findings, 2);
    assert_eq!(r.merged_findings[0].agent_id, "1+3");
    assert_eq!(r.merged_findings[1].agent_id, "2");
}

#[test]
fn categories_are_kept_and_never_multiplied() {
    let findings = vec![
        make(Severity::High, FindingCategory::ErrorPattern, "Error in auth", 0.8, "a"),
        make(Severity::Medium, FindingCategory::ErrorPattern, "Error in auth service", 0.6, "b"),
        make(Severity::Low, FindingCategory::ErrorPattern, "Disk almost full", 0.5, "c"),
        make(Severity::High, FindingCategory::MetricSpike, "CPU spike", 0.9, "d"),
    ];
    let r = ConsensusEngine::run(&findings);
    let count = |c: FindingCategory| r.merged_findings.iter().filter(|f| f.category == c).count();
    assert_eq!(count(FindingCategory::ErrorPattern), 2);
    assert_eq!(count(FindingCategory::MetricSpike), 1);
    assert_eq!(count(FindingCategory::Trend), 0);
    assert!(r.merged_findings.iter().all(|f| f.id.len() == 36 && f.confidence <= CONFIDENCE_SCALE));
    assert!(r.agreement_rate < CONFIDENCE_SCALE);
}
