//! Checks service status patterns and identifies degradation.
use vstd::prelude::*;

use super::{
    add_summary, all_from, finding_if, guarded, kind_count, kind_of, lemma_guarded_from, lemma_guarded_kind,
    owned, push_finding, response_view, with_count, with_summary,
};
use crate::models::{
    contents, finding_content, string_views, AgentError, Finding, FindingCategory, FindingContent,
    Severity,
};
use crate::text::{
    chars_of, contains, contains_str, count_matches, count_str, decimal, lemma_count_matches_bound,
    lowercase, to_lowercase,
};

verus! {

/// Occurrences of the words for an unreachable service.
pub open spec fn down_count(lower: Seq<char>) -> nat {
    count_matches(lower, "down"@) + count_matches(lower, "unreachable"@) + count_matches(lower, "unavailable"@)
}

/// Occurrences of the words for a timeout.
pub open spec fn timeout_count(lower: Seq<char>) -> nat {
    count_matches(lower, "timeout"@) + count_matches(lower, "timed out"@)
}

/// Occurrences of the words for a slow service.
pub open spec fn degraded_count(lower: Seq<char>) -> nat {
    count_matches(lower, "degraded"@) + count_matches(lower, "slow"@) + count_matches(lower, "high latency"@)
}

/// A finding of the health checker.
pub open spec fn health_finding(
    severity: Severity,
    category: FindingCategory,
    description: Seq<char>,
    evidence: Seq<char>,
    confidence: nat,
) -> FindingContent {
    finding_content(severity, category, description, evidence, confidence, "health_checker"@)
}

/// The health checker's findings on lower-cased health data.
pub open spec fn health_findings(lower: Seq<char>) -> Seq<FindingContent> {
    let d = down_count(lower);
    let t = timeout_count(lower);
    let g = degraded_count(lower);
    finding_if(
        d > 0,
        health_finding(
            Severity::Critical,
            FindingCategory::ServiceOutage,
            "Service outage detected: "@ + decimal(d) + " down indicators"@,
            "Keywords: down/unreachable/unavailable (count: "@ + decimal(d) + ")"@,
            900000,
        ),
    ) + (if t > 3 {
        seq![
            health_finding(
                Severity::High,
                FindingCategory::PerformanceDegradation,
                "Excessive timeouts: "@ + decimal(t) + " timeout events"@,
                "Repeated timeouts indicate connectivity or performance issues"@,
                850000,
            ),
        ]
    } else {
        finding_if(
            t > 0,
            health_finding(
                Severity::Medium,
                FindingCategory::PerformanceDegradation,
                "Timeout events detected: "@ + decimal(t) + ""@,
                "Occasional timeouts observed"@,
                650000,
            ),
        )
    }) + finding_if(
        g > 2,
        health_finding(
            Severity::High,
            FindingCategory::PerformanceDegradation,
            "Service degradation pattern: "@ + decimal(g) + " degradation indicators"@,
            "Multiple slow/degraded/high-latency references"@,
            800000,
        ),
    ) + finding_if(
        contains(lower, "out of memory"@) || contains(lower, "oom"@),
        health_finding(
            Severity::Critical,
            FindingCategory::ResourceExhaustion,
            "Out of memory condition detected"@,
            "OOM or out-of-memory keyword found"@,
            920000,
        ),
    ) + finding_if(
        contains(lower, "disk full"@) || contains(lower, "no space left"@),
        health_finding(
            Severity::Critical,
            FindingCategory::ResourceExhaustion,
            "Disk space exhaustion detected"@,
            "Disk full / no space left keyword found"@,
            930000,
        ),
    ) + finding_if(
        contains(lower, "cpu"@) && (contains(lower, "100%"@) || contains(lower, "high cpu"@)),
        health_finding(
            Severity::High,
            FindingCategory::ResourceExhaustion,
            "High CPU utilization detected"@,
            "CPU 100% or high CPU keyword"@,
            800000,
        ),
    )
}

/// The numbers of outage, timeout and degradation words in lower-cased
/// health data.
fn health_counts(lower: &[char]) -> (r: (usize, usize, usize))
    ensures
        r.0 == down_count(lower@),
        r.1 == timeout_count(lower@),
        r.2 == degraded_count(lower@),
{
    let ghost l = lower@;
    proof {
        reveal_strlit("down");
        reveal_strlit("unreachable");
        reveal_strlit("unavailable");
        reveal_strlit("timeout");
        reveal_strlit("timed out");
        reveal_strlit("degraded");
        reveal_strlit("slow");
        reveal_strlit("high latency");
        lemma_count_matches_bound(l, "down"@);
        lemma_count_matches_bound(l, "unreachable"@);
        lemma_count_matches_bound(l, "unavailable"@);
        lemma_count_matches_bound(l, "timeout"@);
        lemma_count_matches_bound(l, "timed out"@);
        lemma_count_matches_bound(l, "degraded"@);
        lemma_count_matches_bound(l, "slow"@);
        lemma_count_matches_bound(l, "high latency"@);
    }
    let n = lower.len();
    assert(n == l.len());
    let d1 = count_str(lower, "down");
    let d2 = count_str(lower, "unreachable");
    let d3 = count_str(lower, "unavailable");
    assert("down"@.len() == 4 && "unreachable"@.len() == 11 && "unavailable"@.len() == 11);
    assert(d1 * 4 <= n && d2 * 11 <= n && d3 * 11 <= n);
    assert(d1 + d2 + d3 <= l.len());
    let d = d1 + d2 + d3;
    let t1 = count_str(lower, "timeout");
    let t2 = count_str(lower, "timed out");
    assert("timeout"@.len() == 7 && "timed out"@.len() == 9);
    assert(t1 * 7 <= n && t2 * 9 <= n);
    assert(t1 + t2 <= l.len());
    let t = t1 + t2;
    let g1 = count_str(lower, "degraded");
    let g2 = count_str(lower, "slow");
    let g3 = count_str(lower, "high latency");
    assert("degraded"@.len() == 8 && "slow"@.len() == 4 && "high latency"@.len() == 12);
    assert(g1 * 8 <= n && g2 * 4 <= n && g3 * 12 <= n);
    assert(g1 + g2 + g3 <= l.len());
    let g = g1 + g2 + g3;
    (d, t, g)
}

/// Checks service status patterns and identifies degradation, with the help
/// of a model client.
pub struct HealthChecker<C> {
    claude: C,
}

impl<C> HealthChecker<C> {
    /// The model client of this agent.
    pub closed spec fn client(&self) -> C {
        self.claude
    }

    /// A health checker that asks `client` for a summary.
    pub fn new(claude: C) -> (h: Self)
        ensures
            h.client() == claude,
    {
        HealthChecker { claude }
    }

    /// The model client of this agent.
    pub fn claude(&self) -> (c: &C)
        ensures
            *c == self.client(),
    {
        &self.claude
    }

    /// The agent's name.
    pub fn name(&self) -> (n: &'static str)
        ensures
            n@ == "health_checker"@,
    {
        "health_checker"
    }

    /// What the agent can do.
    pub fn capabilities(&self) -> (c: Vec<String>)
        ensures
            string_views(c@) == seq!["health_check"@, "service_monitoring"@, "resource_monitoring"@],
    {
        let mut c = Vec::new();
        c.push(owned("health_check"));
        c.push(owned("service_monitoring"));
        c.push(owned("resource_monitoring"));
        assert(string_views(c@) =~= seq!["health_check"@, "service_monitoring"@, "resource_monitoring"@]);
        c
    }

    /// The instruction sent to the model with the health data.
    pub fn system_prompt(&self) -> (p: &'static str)
        ensures
            p@ == "You are a service health expert. Analyze the following health data and \
                identify any degradation, outages, or resource issues. Respond briefly."@,
    {
        "You are a service health expert. Analyze the following health data and \
         identify any degradation, outages, or resource issues. Respond briefly."
    }

    /// The findings on already lower-cased health data.
    #[verifier::spinoff_prover]
    pub fn assess_lowered(lower: &[char]) -> (out: Vec<Finding>)
        ensures
            contents(out@) == health_findings(lower@),
    {
        let ghost l = lower@;
        let (d, t, g) = health_counts(lower);
        let agent = "health_checker";
        let mut out: Vec<Finding> = Vec::new();
        let ghost p1 = finding_if(
            d > 0,
            health_finding(
                Severity::Critical,
                FindingCategory::ServiceOutage,
                "Service outage detected: "@ + decimal(d as nat) + " down indicators"@,
                "Keywords: down/unreachable/unavailable (count: "@ + decimal(d as nat) + ")"@,
                900000,
            ),
        );
        if d > 0 {
            push_finding(
                &mut out,
                Severity::Critical,
                FindingCategory::ServiceOutage,
                with_count("Service outage detected: ", d, " down indicators"),
                with_count("Keywords: down/unreachable/unavailable (count: ", d, ")"),
                900000,
                agent,
            );
        }
        assert(contents(out@) =~= p1);
        let ghost c1 = contents(out@);
        if t > 3 {
            push_finding(
                &mut out,
                Severity::High,
                FindingCategory::PerformanceDegradation,
                with_count("Excessive timeouts: ", t, " timeout events"),
                owned("Repeated timeouts indicate connectivity or performance issues"),
                850000,
                agent,
            );
        } else if t > 0 {
            push_finding(
                &mut out,
                Severity::Medium,
                FindingCategory::PerformanceDegradation,
                with_count("Timeout events detected: ", t, ""),
                owned("Occasional timeouts observed"),
                650000,
                agent,
            );
        }
        let ghost p2 = if t > 3 {
            seq![
                health_finding(
                    Severity::High,
                    FindingCategory::PerformanceDegradation,
                    "Excessive timeouts: "@ + decimal(t as nat) + " timeout events"@,
                    "Repeated timeouts indicate connectivity or performance issues"@,
                    850000,
                ),
            ]
        } else {
            finding_if(
                t > 0,
                health_finding(
                    Severity::Medium,
                    FindingCategory::PerformanceDegradation,
                    "Timeout events detected: "@ + decimal(t as nat) + ""@,
                    "Occasional timeouts observed"@,
                    650000,
                ),
            )
        };
        assert(contents(out@) =~= c1 + p2);
        let ghost c2 = contents(out@);
        if g > 2 {
            push_finding(
                &mut out,
                Severity::High,
                FindingCategory::PerformanceDegradation,
                with_count("Service degradation pattern: ", g, " degradation indicators"),
                owned("Multiple slow/degraded/high-latency references"),
                800000,
                agent,
            );
        }
        let ghost p3 = finding_if(
            g > 2,
            health_finding(
                Severity::High,
                FindingCategory::PerformanceDegradation,
                "Service degradation pattern: "@ + decimal(g as nat) + " degradation indicators"@,
                "Multiple slow/degraded/high-latency references"@,
                800000,
            ),
        );
        assert(contents(out@) =~= c2 + p3);
        let ghost c3 = contents(out@);
        let oom = contains_str(lower, "out of memory") || contains_str(lower, "oom");
        if oom {
            push_finding(
                &mut out,
                Severity::Critical,
                FindingCategory::ResourceExhaustion,
                owned("Out of memory condition detected"),
                owned("OOM or out-of-memory keyword found"),
                920000,
                agent,
            );
        }
        let ghost p4 = finding_if(
            contains(l, "out of memory"@) || contains(l, "oom"@),
            health_finding(
                Severity::Critical,
                FindingCategory::ResourceExhaustion,
                "Out of memory condition detected"@,
                "OOM or out-of-memory keyword found"@,
                920000,
            ),
        );
        assert(contents(out@) =~= c3 + p4);
        let ghost c4 = contents(out@);
        let disk = contains_str(lower, "disk full") || contains_str(lower, "no space left");
        if disk {
            push_finding(
                &mut out,
                Severity::Critical,
                FindingCategory::ResourceExhaustion,
                owned("Disk space exhaustion detected"),
                owned("Disk full / no space left keyword found"),
                930000,
                agent,
            );
        }
        let ghost p5 = finding_if(
            contains(l, "disk full"@) || contains(l, "no space left"@),
            health_finding(
                Severity::Critical,
                FindingCategory::ResourceExhaustion,
                "Disk space exhaustion detected"@,
                "Disk full / no space left keyword found"@,
                930000,
            ),
        );
        assert(contents(out@) =~= c4 + p5);
        let ghost c5 = contents(out@);
        let cpu = contains_str(lower, "cpu") && (contains_str(lower, "100%") || contains_str(lower, "high cpu"));
        if cpu {
            push_finding(
                &mut out,
                Severity::High,
                FindingCategory::ResourceExhaustion,
                owned("High CPU utilization detected"),
                owned("CPU 100% or high CPU keyword"),
                800000,
                agent,
            );
        }
        let ghost p6 = finding_if(
            contains(l, "cpu"@) && (contains(l, "100%"@) || contains(l, "high cpu"@)),
            health_finding(
                Severity::High,
                FindingCategory::ResourceExhaustion,
                "High CPU utilization detected"@,
                "CPU 100% or high CPU keyword"@,
                800000,
            ),
        );
        assert(contents(out@) =~= c5 + p6);
        assert(contents(out@) =~= health_findings(l));
        out
    }

    /// The local findings on health data, before any model summary.
    pub fn heuristic_analyze(&self, input: &str) -> (out: Vec<Finding>)
        ensures
            contents(out@) == health_findings(lowercase(input@)),
    {
        let lower = to_lowercase(input);
        let chars = chars_of(lower.as_str());
        Self::assess_lowered(&chars)
    }

    /// The findings once the model has answered: a non-empty answer adds an
    /// informational health summary.
    pub fn with_claude_response(
        &self,
        findings: Vec<Finding>,
        response: Result<String, AgentError>,
    ) -> (out: Vec<Finding>)
        ensures
            contents(out@) == with_summary(
                contents(findings@),
                response_view(response),
                FindingCategory::PerformanceDegradation,
                "AI-assisted health analysis summary"@,
                "health_checker"@,
            ),
    {
        add_summary(
            findings,
            response,
            FindingCategory::PerformanceDegradation,
            "AI-assisted health analysis summary",
            "health_checker",
        )
    }
}

// ── Laws ────────────────────────────────────────────────────────────

/// The seven possible findings of the health checker, in report order.
spec fn health_parts(lower: Seq<char>) -> Seq<FindingContent> {
    let d = down_count(lower);
    let t = timeout_count(lower);
    let g = degraded_count(lower);
    seq![
        health_finding(
            Severity::Critical,
            FindingCategory::ServiceOutage,
            "Service outage detected: "@ + decimal(d) + " down indicators"@,
            "Keywords: down/unreachable/unavailable (count: "@ + decimal(d) + ")"@,
            900000,
        ),
        health_finding(
            Severity::High,
            FindingCategory::PerformanceDegradation,
            "Excessive timeouts: "@ + decimal(t) + " timeout events"@,
            "Repeated timeouts indicate connectivity or performance issues"@,
            850000,
        ),
        health_finding(
            Severity::Medium,
            FindingCategory::PerformanceDegradation,
            "Timeout events detected: "@ + decimal(t) + ""@,
            "Occasional timeouts observed"@,
            650000,
        ),
        health_finding(
            Severity::High,
            FindingCategory::PerformanceDegradation,
            "Service degradation pattern: "@ + decimal(g) + " degradation indicators"@,
            "Multiple slow/degraded/high-latency references"@,
            800000,
        ),
        health_finding(
            Severity::Critical,
            FindingCategory::ResourceExhaustion,
            "Out of memory condition detected"@,
            "OOM or out-of-memory keyword found"@,
            920000,
        ),
        health_finding(
            Severity::Critical,
            FindingCategory::ResourceExhaustion,
            "Disk space exhaustion detected"@,
            "Disk full / no space left keyword found"@,
            930000,
        ),
        health_finding(
            Severity::High,
            FindingCategory::ResourceExhaustion,
            "High CPU utilization detected"@,
            "CPU 100% or high CPU keyword"@,
            800000,
        ),
    ]
}

/// When each of the seven findings is reported.
spec fn health_conditions(lower: Seq<char>) -> Seq<bool> {
    let t = timeout_count(lower);
    seq![
        down_count(lower) > 0,
        t > 3,
        0 < t <= 3,
        degraded_count(lower) > 2,
        contains(lower, "out of memory"@) || contains(lower, "oom"@),
        contains(lower, "disk full"@) || contains(lower, "no space left"@),
        contains(lower, "cpu"@) && (contains(lower, "100%"@) || contains(lower, "high cpu"@)),
    ]
}

proof fn lemma_health_guarded(lower: Seq<char>)
    ensures
        health_findings(lower) == guarded(health_parts(lower), health_conditions(lower), 7),
        forall|a: int, b: int| 0 <= a < 7 && 0 <= b < 7 && a != b
            ==> kind_of(#[trigger] health_parts(lower)[a]) != kind_of(#[trigger] health_parts(lower)[b]),
        forall|i: int| 0 <= i < 7 ==> (#[trigger] health_parts(lower)[i]).agent_id == "health_checker"@,
{
    let ps = health_parts(lower);
    let cs = health_conditions(lower);
    let t = timeout_count(lower);
    assert(guarded(ps, cs, 0) == Seq::<FindingContent>::empty());
    assert(guarded(ps, cs, 1) =~= finding_if(cs[0], ps[0]));
    assert(guarded(ps, cs, 2) == guarded(ps, cs, 1) + finding_if(cs[1], ps[1]));
    assert(guarded(ps, cs, 3) == guarded(ps, cs, 2) + finding_if(cs[2], ps[2]));
    assert(guarded(ps, cs, 4) == guarded(ps, cs, 3) + finding_if(cs[3], ps[3]));
    assert(guarded(ps, cs, 5) == guarded(ps, cs, 4) + finding_if(cs[4], ps[4]));
    assert(guarded(ps, cs, 6) == guarded(ps, cs, 5) + finding_if(cs[5], ps[5]));
    assert(guarded(ps, cs, 7) == guarded(ps, cs, 6) + finding_if(cs[6], ps[6]));
    let timeouts = if t > 3 { seq![ps[1]] } else { finding_if(t > 0, ps[2]) };
    assert(timeouts =~= finding_if(cs[1], ps[1]) + finding_if(cs[2], ps[2]));
    assert(health_findings(lower) =~= finding_if(cs[0], ps[0]) + timeouts + finding_if(cs[3], ps[3])
        + finding_if(cs[4], ps[4]) + finding_if(cs[5], ps[5]) + finding_if(cs[6], ps[6]));
}

/// The health checker reports, each at most once and all from the health
/// checker:
/// - an outage exactly when "down", "unreachable" or "unavailable" occurs;
/// - excessive timeouts exactly when "timeout" and "timed out" occur more
///   than three times together, and occasional timeouts when one to three;
/// - degradation exactly when "degraded", "slow" and "high latency" occur
///   more than twice together;
/// - out of memory exactly when "out of memory" or "oom" occurs;
/// - disk exhaustion exactly when "disk full" or "no space left" occurs;
/// - high CPU exactly when "cpu" occurs with "100%" or "high cpu".
pub proof fn law_health_keywords(lower: Seq<char>)
    ensures
        ({
            let r = health_findings(lower);
            let d = count_matches(lower, "down"@) + count_matches(lower, "unreachable"@) + count_matches(lower, "unavailable"@);
            let t = count_matches(lower, "timeout"@) + count_matches(lower, "timed out"@);
            let g = count_matches(lower, "degraded"@) + count_matches(lower, "slow"@) + count_matches(lower, "high latency"@);
            &&& kind_count(r, Severity::Critical, FindingCategory::ServiceOutage, 900000) == if d > 0 { 1nat } else { 0nat }
            &&& kind_count(r, Severity::High, FindingCategory::PerformanceDegradation, 850000) == if t > 3 { 1nat } else { 0nat }
            &&& kind_count(r, Severity::Medium, FindingCategory::PerformanceDegradation, 650000)
                == if 0 < t <= 3 { 1nat } else { 0nat }
            &&& kind_count(r, Severity::High, FindingCategory::PerformanceDegradation, 800000) == if g > 2 { 1nat } else { 0nat }
            &&& kind_count(r, Severity::Critical, FindingCategory::ResourceExhaustion, 920000)
                == if contains(lower, "out of memory"@) || contains(lower, "oom"@) { 1nat } else { 0nat }
            &&& kind_count(r, Severity::Critical, FindingCategory::ResourceExhaustion, 930000)
                == if contains(lower, "disk full"@) || contains(lower, "no space left"@) { 1nat } else { 0nat }
            &&& kind_count(r, Severity::High, FindingCategory::ResourceExhaustion, 800000)
                == if contains(lower, "cpu"@) && (contains(lower, "100%"@) || contains(lower, "high cpu"@)) { 1nat } else { 0nat }
            &&& contains(lower, "disk full"@) ==> r.contains(health_finding(
                Severity::Critical,
                FindingCategory::ResourceExhaustion,
                "Disk space exhaustion detected"@,
                "Disk full / no space left keyword found"@,
                930000,
            ))
            &&& all_from(r, "health_checker"@)
        }),
{
    let ps = health_parts(lower);
    let cs = health_conditions(lower);
    lemma_health_guarded(lower);
    lemma_guarded_kind(ps, cs, 7, 0);
    lemma_guarded_kind(ps, cs, 7, 1);
    lemma_guarded_kind(ps, cs, 7, 2);
    lemma_guarded_kind(ps, cs, 7, 3);
    lemma_guarded_kind(ps, cs, 7, 4);
    lemma_guarded_kind(ps, cs, 7, 5);
    lemma_guarded_kind(ps, cs, 7, 6);
    lemma_guarded_from(ps, cs, 7, "health_checker"@);
}

} // verus!
