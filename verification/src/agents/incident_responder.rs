//! Correlates events, suggests a root cause, and recommends actions.
use vstd::prelude::*;

use super::{
    add_summary, all_from, finding_if, kind_count, lemma_kind_count_add, lemma_kind_count_if, owned,
    push_finding, response_view, with_count, with_summary,
};
use crate::models::{
    contents, finding_content, string_views, AgentError, Finding, FindingCategory, FindingContent,
    Severity,
};
use crate::text::{
    chars_of, contains, contains_str, decimal, join, join_chars, lowercase, string_of, to_lowercase,
};

verus! {

/// The markers of a first-priority incident.
pub open spec fn has_p1(lower: Seq<char>) -> bool {
    contains(lower, "p1"@) || contains(lower, "sev1"@) || contains(lower, "critical incident"@)
}

/// The markers of a second-priority incident.
pub open spec fn has_p2(lower: Seq<char>) -> bool {
    contains(lower, "p2"@) || contains(lower, "sev2"@) || contains(lower, "major incident"@)
}

/// A rollback is mentioned.
pub open spec fn has_rollback(lower: Seq<char>) -> bool {
    contains(lower, "rollback"@) || contains(lower, "revert"@)
}

/// A deployment is mentioned.
pub open spec fn has_deploy(lower: Seq<char>) -> bool {
    contains(lower, "deploy"@) || contains(lower, "release"@) || contains(lower, "push"@)
}

/// A configuration change is mentioned.
pub open spec fn has_config_change(lower: Seq<char>) -> bool {
    contains(lower, "config change"@) || contains(lower, "configuration update"@)
}

/// Errors that may follow a deployment are mentioned.
pub open spec fn deploy_trouble(lower: Seq<char>) -> bool {
    contains(lower, "error"@) || contains(lower, "failure"@) || contains(lower, "crash"@)
}

/// Errors that may follow a configuration change are mentioned.
pub open spec fn config_trouble(lower: Seq<char>) -> bool {
    contains(lower, "error"@) || contains(lower, "outage"@) || contains(lower, "failure"@)
}

/// `name` when the text mentions it.
pub open spec fn named_if(lower: Seq<char>, name: Seq<char>) -> Seq<Seq<char>> {
    if contains(lower, name) {
        seq![name]
    } else {
        Seq::empty()
    }
}

/// The services, among api, db, cache, queue, worker and gateway, that the
/// text mentions, when it also mentions a failure or an outage.
pub open spec fn affected_services(lower: Seq<char>) -> Seq<Seq<char>> {
    if contains(lower, "fail"@) || contains(lower, "down"@) {
        named_if(lower, "api"@) + named_if(lower, "db"@) + named_if(lower, "cache"@) + named_if(
            lower,
            "queue"@,
        ) + named_if(lower, "worker"@) + named_if(lower, "gateway"@)
    } else {
        Seq::empty()
    }
}

/// A finding of the incident responder.
pub open spec fn incident_finding(
    severity: Severity,
    category: FindingCategory,
    description: Seq<char>,
    evidence: Seq<char>,
    confidence: nat,
) -> FindingContent {
    finding_content(severity, category, description, evidence, confidence, "incident_responder"@)
}

/// The incident responder's findings on lower-cased event data.
pub open spec fn incident_findings(lower: Seq<char>) -> Seq<FindingContent> {
    let bad_deploy = has_deploy(lower) && deploy_trouble(lower);
    let services = affected_services(lower);
    finding_if(
        has_p1(lower),
        incident_finding(
            Severity::Critical,
            FindingCategory::ServiceOutage,
            "P1/SEV1 critical incident identified"@,
            "Input contains P1/SEV1/critical incident markers"@,
            950000,
        ),
    ) + finding_if(
        has_p2(lower),
        incident_finding(
            Severity::High,
            FindingCategory::ServiceOutage,
            "P2/SEV2 major incident identified"@,
            "Input contains P2/SEV2/major incident markers"@,
            850000,
        ),
    ) + finding_if(
        bad_deploy,
        incident_finding(
            Severity::High,
            FindingCategory::ConfigurationDrift,
            "Potential bad deployment: errors correlate with recent deploy/release"@,
            "Deploy/release event followed by errors or failures"@,
            800000,
        ),
    ) + finding_if(
        bad_deploy && has_rollback(lower),
        incident_finding(
            Severity::Info,
            FindingCategory::ConfigurationDrift,
            "Rollback detected \u{2014} deployment may have been reverted"@,
            "Rollback/revert keyword found alongside deploy"@,
            900000,
        ),
    ) + finding_if(
        has_config_change(lower) && config_trouble(lower),
        incident_finding(
            Severity::High,
            FindingCategory::ConfigurationDrift,
            "Configuration change correlated with errors/outage"@,
            "Config change event near error/failure events"@,
            820000,
        ),
    ) + finding_if(
        services.len() >= 2,
        incident_finding(
            Severity::Critical,
            FindingCategory::ServiceOutage,
            "Cascading failure pattern: "@ + decimal(services.len()) + " services affected"@,
            "Affected services: "@ + join(services, ", "@),
            880000,
        ),
    )
}

/// Appends `name` when the text mentions it.
fn add_if_named(lower: &[char], name: &str, out: &mut Vec<Vec<char>>)
    ensures
        final(out)@.len() <= old(out)@.len() + 1,
        final(out)@.map_values(|v: Vec<char>| v@) == old(out)@.map_values(|v: Vec<char>| v@) + named_if(lower@, name@),
{
    let ghost before = out@.map_values(|v: Vec<char>| v@);
    if contains_str(lower, name) {
        out.push(chars_of(name));
        assert(out@.map_values(|v: Vec<char>| v@) =~= before + seq![name@]);
    } else {
        assert(out@.map_values(|v: Vec<char>| v@) =~= before + Seq::<Seq<char>>::empty());
    }
}

/// The affected services named in lower-cased event data.
fn affected_services_exec(lower: &[char]) -> (out: Vec<Vec<char>>)
    ensures
        out@.map_values(|v: Vec<char>| v@) == affected_services(lower@),
        out@.len() <= 6,
{
    let mut out: Vec<Vec<char>> = Vec::new();
    if contains_str(lower, "fail") || contains_str(lower, "down") {
        add_if_named(lower, "api", &mut out);
        add_if_named(lower, "db", &mut out);
        add_if_named(lower, "cache", &mut out);
        add_if_named(lower, "queue", &mut out);
        add_if_named(lower, "worker", &mut out);
        add_if_named(lower, "gateway", &mut out);
        assert(out@.map_values(|v: Vec<char>| v@) =~= affected_services(lower@));
    } else {
        assert(out@.map_values(|v: Vec<char>| v@) =~= affected_services(lower@));
    }
    out
}

/// Correlates events, suggests a root cause and recommends actions, with
/// the help of a model client.
pub struct IncidentResponder<C> {
    claude: C,
}

impl<C> IncidentResponder<C> {
    /// The model client of this agent.
    pub closed spec fn client(&self) -> C {
        self.claude
    }

    /// An incident responder that asks `client` for a summary.
    pub fn new(claude: C) -> (r: Self)
        ensures
            r.client() == claude,
    {
        IncidentResponder { claude }
    }

    /// The model client of this agent.
    pub fn claude(&self) -> (c: &C)
        ensures
            *c == self.client(),
    {
        &self.claude
    }

    /// The agent's name.
    pub fn name(&self) -> (n: &'static str)
        ensures
            n@ == "incident_responder"@,
    {
        "incident_responder"
    }

    /// What the agent can do.
    pub fn capabilities(&self) -> (c: Vec<String>)
        ensures
            string_views(c@) == seq!["incident_response"@, "root_cause_analysis"@, "event_correlation"@],
    {
        let mut c = Vec::new();
        c.push(owned("incident_response"));
        c.push(owned("root_cause_analysis"));
        c.push(owned("event_correlation"));
        assert(string_views(c@) =~= seq!["incident_response"@, "root_cause_analysis"@, "event_correlation"@]);
        c
    }

    /// The instruction sent to the model with the events.
    pub fn system_prompt(&self) -> (p: &'static str)
        ensures
            p@ == "You are an incident response expert. Correlate the following events, \
                suggest a root cause, and recommend immediate actions. Respond briefly."@,
    {
        "You are an incident response expert. Correlate the following events, \
         suggest a root cause, and recommend immediate actions. Respond briefly."
    }

    /// The findings on already lower-cased event data.
    #[verifier::spinoff_prover]
    pub fn assess_lowered(lower: &[char]) -> (out: Vec<Finding>)
        ensures
            contents(out@) == incident_findings(lower@),
    {
        let ghost l = lower@;
        let agent = "incident_responder";
        let p1 = contains_str(lower, "p1") || contains_str(lower, "sev1") || contains_str(lower, "critical incident");
        let p2 = contains_str(lower, "p2") || contains_str(lower, "sev2") || contains_str(lower, "major incident");
        let rollback = contains_str(lower, "rollback") || contains_str(lower, "revert");
        let deploy = contains_str(lower, "deploy") || contains_str(lower, "release") || contains_str(lower, "push");
        let config = contains_str(lower, "config change") || contains_str(lower, "configuration update");
        let deploy_bad = contains_str(lower, "error") || contains_str(lower, "failure") || contains_str(lower, "crash");
        let config_bad = contains_str(lower, "error") || contains_str(lower, "outage") || contains_str(lower, "failure");
        let services = affected_services_exec(lower);
        let ghost sv = affected_services(l);
        assert(services@.map_values(|p: Vec<char>| p@) =~= sv);
        assert(services@.len() == sv.len());
        let mut out: Vec<Finding> = Vec::new();
        if p1 {
            push_finding(
                &mut out,
                Severity::Critical,
                FindingCategory::ServiceOutage,
                owned("P1/SEV1 critical incident identified"),
                owned("Input contains P1/SEV1/critical incident markers"),
                950000,
                agent,
            );
        }
        let ghost c1 = contents(out@);
        assert(c1 =~= finding_if(
            has_p1(l),
            incident_finding(
                Severity::Critical,
                FindingCategory::ServiceOutage,
                "P1/SEV1 critical incident identified"@,
                "Input contains P1/SEV1/critical incident markers"@,
                950000,
            ),
        ));
        if p2 {
            push_finding(
                &mut out,
                Severity::High,
                FindingCategory::ServiceOutage,
                owned("P2/SEV2 major incident identified"),
                owned("Input contains P2/SEV2/major incident markers"),
                850000,
                agent,
            );
        }
        let ghost c2 = contents(out@);
        assert(c2 =~= c1 + finding_if(
            has_p2(l),
            incident_finding(
                Severity::High,
                FindingCategory::ServiceOutage,
                "P2/SEV2 major incident identified"@,
                "Input contains P2/SEV2/major incident markers"@,
                850000,
            ),
        ));
        if deploy && deploy_bad {
            push_finding(
                &mut out,
                Severity::High,
                FindingCategory::ConfigurationDrift,
                owned("Potential bad deployment: errors correlate with recent deploy/release"),
                owned("Deploy/release event followed by errors or failures"),
                800000,
                agent,
            );
        }
        let ghost c3 = contents(out@);
        assert(c3 =~= c2 + finding_if(
            has_deploy(l) && deploy_trouble(l),
            incident_finding(
                Severity::High,
                FindingCategory::ConfigurationDrift,
                "Potential bad deployment: errors correlate with recent deploy/release"@,
                "Deploy/release event followed by errors or failures"@,
                800000,
            ),
        ));
        if deploy && deploy_bad && rollback {
            push_finding(
                &mut out,
                Severity::Info,
                FindingCategory::ConfigurationDrift,
                owned("Rollback detected \u{2014} deployment may have been reverted"),
                owned("Rollback/revert keyword found alongside deploy"),
                900000,
                agent,
            );
        }
        let ghost c4 = contents(out@);
        assert(c4 =~= c3 + finding_if(
            has_deploy(l) && deploy_trouble(l) && has_rollback(l),
            incident_finding(
                Severity::Info,
                FindingCategory::ConfigurationDrift,
                "Rollback detected \u{2014} deployment may have been reverted"@,
                "Rollback/revert keyword found alongside deploy"@,
                900000,
            ),
        ));
        if config && config_bad {
            push_finding(
                &mut out,
                Severity::High,
                FindingCategory::ConfigurationDrift,
                owned("Configuration change correlated with errors/outage"),
                owned("Config change event near error/failure events"),
                820000,
                agent,
            );
        }
        let ghost c5 = contents(out@);
        assert(c5 =~= c4 + finding_if(
            has_config_change(l) && config_trouble(l),
            incident_finding(
                Severity::High,
                FindingCategory::ConfigurationDrift,
                "Configuration change correlated with errors/outage"@,
                "Config change event near error/failure events"@,
                820000,
            ),
        ));
        if services.len() >= 2 {
            let sep = chars_of(", ");
            let mut ev = chars_of("Affected services: ");
            let joined = join_chars(&services, &sep);
            ev.extend_from_slice(&joined);
            assert(joined@ == join(sv, ", "@));
            assert(ev@ == "Affected services: "@ + join(sv, ", "@));
            push_finding(
                &mut out,
                Severity::Critical,
                FindingCategory::ServiceOutage,
                with_count("Cascading failure pattern: ", services.len(), " services affected"),
                string_of(&ev),
                880000,
                agent,
            );
        }
        let ghost c6 = contents(out@);
        assert(c6 =~= c5 + finding_if(
            sv.len() >= 2,
            incident_finding(
                Severity::Critical,
                FindingCategory::ServiceOutage,
                "Cascading failure pattern: "@ + decimal(sv.len()) + " services affected"@,
                "Affected services: "@ + join(sv, ", "@),
                880000,
            ),
        ));
        assert(c6 =~= incident_findings(l));
        out
    }

    /// The local findings on event data, before any model summary.
    pub fn heuristic_analyze(&self, input: &str) -> (out: Vec<Finding>)
        ensures
            contents(out@) == incident_findings(lowercase(input@)),
    {
        let lower = to_lowercase(input);
        let chars = chars_of(lower.as_str());
        Self::assess_lowered(&chars)
    }

    /// The findings once the model has answered: a non-empty answer adds an
    /// informational incident summary.
    pub fn with_claude_response(
        &self,
        findings: Vec<Finding>,
        response: Result<String, AgentError>,
    ) -> (out: Vec<Finding>)
        ensures
            contents(out@) == with_summary(
                contents(findings@),
                response_view(response),
                FindingCategory::AnomalousBehavior,
                "AI-assisted incident analysis summary"@,
                "incident_responder"@,
            ),
    {
        add_summary(
            findings,
            response,
            FindingCategory::AnomalousBehavior,
            "AI-assisted incident analysis summary",
            "incident_responder",
        )
    }
}

// ── Laws ────────────────────────────────────────────────────────────

/// The six possible findings of the incident responder, in report order.
spec fn incident_parts(lower: Seq<char>) -> Seq<FindingContent> {
    let services = affected_services(lower);
    seq![
        incident_finding(
            Severity::Critical,
            FindingCategory::ServiceOutage,
            "P1/SEV1 critical incident identified"@,
            "Input contains P1/SEV1/critical incident markers"@,
            950000,
        ),
        incident_finding(
            Severity::High,
            FindingCategory::ServiceOutage,
            "P2/SEV2 major incident identified"@,
            "Input contains P2/SEV2/major incident markers"@,
            850000,
        ),
        incident_finding(
            Severity::High,
            FindingCategory::ConfigurationDrift,
            "Potential bad deployment: errors correlate with recent deploy/release"@,
            "Deploy/release event followed by errors or failures"@,
            800000,
        ),
        incident_finding(
            Severity::Info,
            FindingCategory::ConfigurationDrift,
            "Rollback detected \u{2014} deployment may have been reverted"@,
            "Rollback/revert keyword found alongside deploy"@,
            900000,
        ),
        incident_finding(
            Severity::High,
            FindingCategory::ConfigurationDrift,
            "Configuration change correlated with errors/outage"@,
            "Config change event near error/failure events"@,
            820000,
        ),
        incident_finding(
            Severity::Critical,
            FindingCategory::ServiceOutage,
            "Cascading failure pattern: "@ + decimal(services.len()) + " services affected"@,
            "Affected services: "@ + join(services, ", "@),
            880000,
        ),
    ]
}

/// When each of the six findings is reported.
spec fn incident_conditions(lower: Seq<char>) -> Seq<bool> {
    let bad_deploy = has_deploy(lower) && deploy_trouble(lower);
    seq![
        has_p1(lower),
        has_p2(lower),
        bad_deploy,
        bad_deploy && has_rollback(lower),
        has_config_change(lower) && config_trouble(lower),
        affected_services(lower).len() >= 2,
    ]
}

/// The incident findings count each kind once per part of that kind that
/// is reported.
proof fn lemma_incident_kind_count(lower: Seq<char>, severity: Severity, category: FindingCategory, confidence: nat)
    ensures
        kind_count(incident_findings(lower), severity, category, confidence) == {
            let ps = incident_parts(lower);
            let cs = incident_conditions(lower);
            kind_count(finding_if(cs[0], ps[0]), severity, category, confidence)
                + kind_count(finding_if(cs[1], ps[1]), severity, category, confidence)
                + kind_count(finding_if(cs[2], ps[2]), severity, category, confidence)
                + kind_count(finding_if(cs[3], ps[3]), severity, category, confidence)
                + kind_count(finding_if(cs[4], ps[4]), severity, category, confidence)
                + kind_count(finding_if(cs[5], ps[5]), severity, category, confidence)
        },
{
    let ps = incident_parts(lower);
    let cs = incident_conditions(lower);
    let p0 = finding_if(cs[0], ps[0]);
    let p1 = finding_if(cs[1], ps[1]);
    let p2 = finding_if(cs[2], ps[2]);
    let p3 = finding_if(cs[3], ps[3]);
    let p4 = finding_if(cs[4], ps[4]);
    let p5 = finding_if(cs[5], ps[5]);
    assert(incident_findings(lower) == p0 + p1 + p2 + p3 + p4 + p5);
    lemma_kind_count_add(p0, p1, severity, category, confidence);
    lemma_kind_count_add(p0 + p1, p2, severity, category, confidence);
    lemma_kind_count_add(p0 + p1 + p2, p3, severity, category, confidence);
    lemma_kind_count_add(p0 + p1 + p2 + p3, p4, severity, category, confidence);
    lemma_kind_count_add(p0 + p1 + p2 + p3 + p4, p5, severity, category, confidence);
}

/// The kind of each of the six findings.
spec fn incident_kind(k: int) -> (Severity, FindingCategory, nat) {
    if k == 0 {
        (Severity::Critical, FindingCategory::ServiceOutage, 950000nat)
    } else if k == 1 {
        (Severity::High, FindingCategory::ServiceOutage, 850000nat)
    } else if k == 2 {
        (Severity::High, FindingCategory::ConfigurationDrift, 800000nat)
    } else if k == 3 {
        (Severity::Info, FindingCategory::ConfigurationDrift, 900000nat)
    } else if k == 4 {
        (Severity::High, FindingCategory::ConfigurationDrift, 820000nat)
    } else {
        (Severity::Critical, FindingCategory::ServiceOutage, 880000nat)
    }
}

/// The finding of each kind is there once exactly when its condition holds.
#[verifier::spinoff_prover]
proof fn lemma_incident_one_kind(lower: Seq<char>, k: int)
    requires
        0 <= k < 6,
    ensures
        kind_count(incident_findings(lower), incident_kind(k).0, incident_kind(k).1, incident_kind(k).2)
            == if incident_conditions(lower)[k] { 1nat } else { 0nat },
{
    let ps = incident_parts(lower);
    let cs = incident_conditions(lower);
    let (sv, ct, cf) = incident_kind(k);
    lemma_incident_kind_count(lower, sv, ct, cf);
    lemma_kind_count_if(cs[0], ps[0], sv, ct, cf);
    lemma_kind_count_if(cs[1], ps[1], sv, ct, cf);
    lemma_kind_count_if(cs[2], ps[2], sv, ct, cf);
    lemma_kind_count_if(cs[3], ps[3], sv, ct, cf);
    lemma_kind_count_if(cs[4], ps[4], sv, ct, cf);
    lemma_kind_count_if(cs[5], ps[5], sv, ct, cf);
}

/// Every incident finding comes from the incident responder.
#[verifier::spinoff_prover]
proof fn lemma_incident_agent(lower: Seq<char>)
    ensures
        all_from(incident_findings(lower), "incident_responder"@),
{
    let ps = incident_parts(lower);
    let cs = incident_conditions(lower);
    let r = incident_findings(lower);
    let p0 = finding_if(cs[0], ps[0]);
    let p1 = finding_if(cs[1], ps[1]);
    let p2 = finding_if(cs[2], ps[2]);
    let p3 = finding_if(cs[3], ps[3]);
    let p4 = finding_if(cs[4], ps[4]);
    let p5 = finding_if(cs[5], ps[5]);
    assert(r == p0 + p1 + p2 + p3 + p4 + p5);
    let s2 = p0 + p1;
    let s3 = s2 + p2;
    let s4 = s3 + p3;
    let s5 = s4 + p4;
    assert forall|i: int| 0 <= i < r.len() implies (#[trigger] r[i]).agent_id == "incident_responder"@ by {
        if i >= s5.len() {
            assert(r[i] == p5[i - s5.len()]);
        } else if i >= s4.len() {
            assert(r[i] == s5[i] && s5[i] == p4[i - s4.len()]);
        } else if i >= s3.len() {
            assert(r[i] == s5[i] && s5[i] == s4[i] && s4[i] == p3[i - s3.len()]);
        } else if i >= s2.len() {
            assert(r[i] == s5[i] && s5[i] == s4[i] && s4[i] == s3[i] && s3[i] == p2[i - s2.len()]);
        } else if i >= p0.len() {
            assert(r[i] == s5[i] && s5[i] == s4[i] && s4[i] == s3[i] && s3[i] == s2[i] && s2[i] == p1[i - p0.len()]);
        } else {
            assert(r[i] == s5[i] && s5[i] == s4[i] && s4[i] == s3[i] && s3[i] == s2[i] && s2[i] == p0[i]);
        }
    }
}

/// The incident responder reports each of its findings exactly when its
/// keywords are present, and each at most once: a P1 outage for P1/SEV1 or
/// "critical incident", a P2 outage for P2/SEV2 or "major incident", a bad
/// deployment for a deploy with errors, a rollback for that and a rollback
/// or revert, a configuration change with errors or an outage, and a
/// cascading failure when two or more services are affected; all of them
/// from the incident responder.
pub proof fn law_incident_finding_kinds(lower: Seq<char>)
    ensures
        ({
            let r = incident_findings(lower);
            let bad_deploy = has_deploy(lower) && deploy_trouble(lower);
            &&& kind_count(r, Severity::Critical, FindingCategory::ServiceOutage, 950000) == if has_p1(lower) { 1nat } else { 0nat }
            &&& kind_count(r, Severity::High, FindingCategory::ServiceOutage, 850000) == if has_p2(lower) { 1nat } else { 0nat }
            &&& kind_count(r, Severity::High, FindingCategory::ConfigurationDrift, 800000) == if bad_deploy { 1nat } else { 0nat }
            &&& kind_count(r, Severity::Info, FindingCategory::ConfigurationDrift, 900000)
                == if bad_deploy && has_rollback(lower) { 1nat } else { 0nat }
            &&& kind_count(r, Severity::High, FindingCategory::ConfigurationDrift, 820000)
                == if has_config_change(lower) && config_trouble(lower) { 1nat } else { 0nat }
            &&& kind_count(r, Severity::Critical, FindingCategory::ServiceOutage, 880000)
                == if affected_services(lower).len() >= 2 { 1nat } else { 0nat }
            &&& all_from(r, "incident_responder"@)
        }),
{
    lemma_incident_one_kind(lower, 0);
    lemma_incident_one_kind(lower, 1);
    lemma_incident_one_kind(lower, 2);
    lemma_incident_one_kind(lower, 3);
    lemma_incident_one_kind(lower, 4);
    lemma_incident_one_kind(lower, 5);
    lemma_incident_agent(lower);
}

/// One when the text mentions `name`, zero otherwise.
pub open spec fn mention(lower: Seq<char>, name: Seq<char>) -> nat {
    if contains(lower, name) { 1nat } else { 0nat }
}

/// The incident responder reports, each at most once:
/// - a P1 outage exactly when the text mentions "p1", "sev1" or "critical
///   incident";
/// - a P2 outage exactly when it mentions "p2", "sev2" or "major incident";
/// - a bad deployment exactly when it mentions "deploy", "release" or
///   "push" together with "error", "failure" or "crash";
/// - a rollback exactly when, besides, it mentions "rollback" or "revert";
/// - a configuration change exactly when it mentions "config change" or
///   "configuration update" together with "error", "outage" or "failure";
/// - a cascading failure exactly when it mentions "fail" or "down" and at
///   least two of api, db, cache, queue, worker and gateway.
pub proof fn law_incident_keywords(lower: Seq<char>)
    ensures
        ({
            let r = incident_findings(lower);
            let deploy = (contains(lower, "deploy"@) || contains(lower, "release"@) || contains(lower, "push"@))
                && (contains(lower, "error"@) || contains(lower, "failure"@) || contains(lower, "crash"@));
            let named = mention(lower, "api"@) + mention(lower, "db"@) + mention(lower, "cache"@)
                + mention(lower, "queue"@) + mention(lower, "worker"@) + mention(lower, "gateway"@);
            &&& kind_count(r, Severity::Critical, FindingCategory::ServiceOutage, 950000)
                == if contains(lower, "p1"@) || contains(lower, "sev1"@) || contains(lower, "critical incident"@) { 1nat } else { 0nat }
            &&& kind_count(r, Severity::High, FindingCategory::ServiceOutage, 850000)
                == if contains(lower, "p2"@) || contains(lower, "sev2"@) || contains(lower, "major incident"@) { 1nat } else { 0nat }
            &&& kind_count(r, Severity::High, FindingCategory::ConfigurationDrift, 800000) == if deploy { 1nat } else { 0nat }
            &&& kind_count(r, Severity::Info, FindingCategory::ConfigurationDrift, 900000)
                == if deploy && (contains(lower, "rollback"@) || contains(lower, "revert"@)) { 1nat } else { 0nat }
            &&& kind_count(r, Severity::High, FindingCategory::ConfigurationDrift, 820000)
                == if (contains(lower, "config change"@) || contains(lower, "configuration update"@))
                    && (contains(lower, "error"@) || contains(lower, "outage"@) || contains(lower, "failure"@)) { 1nat } else { 0nat }
            &&& kind_count(r, Severity::Critical, FindingCategory::ServiceOutage, 880000)
                == if (contains(lower, "fail"@) || contains(lower, "down"@)) && named >= 2 { 1nat } else { 0nat }
            &&& contains(lower, "sev1"@) ==> r.contains(incident_finding(
                Severity::Critical,
                FindingCategory::ServiceOutage,
                "P1/SEV1 critical incident identified"@,
                "Input contains P1/SEV1/critical incident markers"@,
                950000,
            ))
        }),
{
    law_incident_finding_kinds(lower);
    let named = mention(lower, "api"@) + mention(lower, "db"@) + mention(lower, "cache"@)
        + mention(lower, "queue"@) + mention(lower, "worker"@) + mention(lower, "gateway"@);
    assert(affected_services(lower).len() == if contains(lower, "fail"@) || contains(lower, "down"@) { named } else { 0 });
    if contains(lower, "sev1"@) {
        let r = incident_findings(lower);
        let ps = incident_parts(lower);
        let cs = incident_conditions(lower);
        assert(r == finding_if(cs[0], ps[0]) + finding_if(cs[1], ps[1]) + finding_if(cs[2], ps[2])
            + finding_if(cs[3], ps[3]) + finding_if(cs[4], ps[4]) + finding_if(cs[5], ps[5]));
        assert(r[0] == ps[0]);
    }
}

} // verus!
