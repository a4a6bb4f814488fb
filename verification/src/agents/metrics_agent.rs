//! Analyzes numerical patterns: detects spikes and drops and identifies
//! trends.
use vstd::prelude::*;

use super::{
    add_summary, all_from, finding_if, guarded, kind_count, kind_of, lemma_guarded_from, lemma_guarded_kind,
    owned, push_finding, response_view, with_summary,
};
use crate::models::{
    contents, finding_content, string_views, AgentError, Finding, FindingCategory, FindingContent,
    Severity,
};
use crate::text::{chars_of, contains, contains_str, lowercase, string_of, to_lowercase};

verus! {

/// A character that may belong to a number: a digit, a point or a minus.
pub open spec fn is_number_char(c: char) -> bool {
    ('0' <= c && c <= '9') || c == '.' || c == '-'
}

/// The maximal runs of number characters of `s`, in order: the candidates
/// for numbers.
pub open spec fn number_tokens(s: Seq<char>) -> Seq<Seq<char>>
    decreases s.len(),
{
    if s.len() == 0 {
        Seq::empty()
    } else {
        let t = number_tokens(s.drop_last());
        let c = s.last();
        if !is_number_char(c) {
            t
        } else if s.len() >= 2 && is_number_char(s[s.len() - 2]) {
            t.update(t.len() - 1, t.last().push(c))
        } else {
            t.push(seq![c])
        }
    }
}

/// A finding of the metrics agent.
pub open spec fn metrics_finding(
    severity: Severity,
    category: FindingCategory,
    description: Seq<char>,
    evidence: Seq<char>,
    confidence: nat,
) -> FindingContent {
    finding_content(severity, category, description, evidence, confidence, "metrics_agent"@)
}

/// The metrics agent's findings from the words of lower-cased metrics data.
pub open spec fn metrics_keyword_findings(lower: Seq<char>) -> Seq<FindingContent> {
    finding_if(
        contains(lower, "spike"@) || contains(lower, "surge"@),
        metrics_finding(
            Severity::High,
            FindingCategory::MetricSpike,
            "Metric spike detected in data"@,
            "Spike/surge keyword found"@,
            800000,
        ),
    ) + finding_if(
        contains(lower, "drop"@) || contains(lower, "plummet"@) || contains(lower, "crash"@),
        metrics_finding(
            Severity::High,
            FindingCategory::MetricDrop,
            "Metric drop detected in data"@,
            "Drop/plummet/crash keyword found"@,
            800000,
        ),
    ) + finding_if(
        contains(lower, "trend"@) || contains(lower, "increasing"@) || contains(lower, "decreasing"@),
        metrics_finding(
            Severity::Medium,
            FindingCategory::Trend,
            "Trend pattern detected in metrics"@,
            "Trend/increasing/decreasing keyword found"@,
            650000,
        ),
    )
}

/// Whether `c` may belong to a number.
fn number_char(c: char) -> (b: bool)
    ensures
        b == is_number_char(c),
{
    (c >= '0' && c <= '9') || c == '.' || c == '-'
}

/// Analyzes numerical patterns, with the help of a model client.
pub struct MetricsAgent<C> {
    claude: C,
}

impl<C> MetricsAgent<C> {
    /// The model client of this agent.
    pub closed spec fn client(&self) -> C {
        self.claude
    }

    /// A metrics agent that asks `client` for a summary.
    pub fn new(claude: C) -> (m: Self)
        ensures
            m.client() == claude,
    {
        MetricsAgent { claude }
    }

    /// The model client of this agent.
    pub fn claude(&self) -> (c: &C)
        ensures
            *c == self.client(),
    {
        &self.claude
    }

    /// The agent's name.
    pub fn name(&self) -> (n: &'static str)
        ensures
            n@ == "metrics_agent"@,
    {
        "metrics_agent"
    }

    /// What the agent can do.
    pub fn capabilities(&self) -> (c: Vec<String>)
        ensures
            string_views(c@) == seq!["metrics_analysis"@, "spike_detection"@, "trend_analysis"@],
    {
        let mut c = Vec::new();
        c.push(owned("metrics_analysis"));
        c.push(owned("spike_detection"));
        c.push(owned("trend_analysis"));
        assert(string_views(c@) =~= seq!["metrics_analysis"@, "spike_detection"@, "trend_analysis"@]);
        c
    }

    /// The instruction sent to the model with the metrics.
    pub fn system_prompt(&self) -> (p: &'static str)
        ensures
            p@ == "You are a metrics analysis expert. Analyze the following metrics data, \
                detect spikes, drops, or trends. Respond briefly."@,
    {
        "You are a metrics analysis expert. Analyze the following metrics data, \
         detect spikes, drops, or trends. Respond briefly."
    }

    /// The candidates for numbers in the input: its maximal runs of digits,
    /// points and minus signs, in order.
    pub fn extract_number_tokens(input: &str) -> (tokens: Vec<String>)
        ensures
            string_views(tokens@) == number_tokens(input@),
    {
        let s = chars_of(input);
        let mut runs: Vec<Vec<char>> = Vec::new();
        let mut i: usize = 0;
        while i < s.len()
            invariant
                i <= s@.len(),
                s@ == input@,
                runs@.map_values(|r: Vec<char>| r@) == number_tokens(s@.take(i as int)),
                i > 0 && is_number_char(s@[i - 1]) ==> runs@.len() > 0,
            decreases s.len() - i,
        {
            let c = s[i];
            let ghost prev = runs@.map_values(|r: Vec<char>| r@);
            assert(s@.take(i + 1).drop_last() =~= s@.take(i as int));
            assert(s@.take(i + 1).last() == c);
            if number_char(c) {
                if i > 0 && number_char(s[i - 1]) {
                    assert(s@.take(i + 1)[i - 1] == s@[i - 1]);
                    let mut last = runs.pop().unwrap();
                    last.push(c);
                    runs.push(last);
                    assert(runs@.map_values(|r: Vec<char>| r@) =~= prev.update(prev.len() - 1, prev.last().push(c)));
                } else {
                    let mut run = Vec::new();
                    run.push(c);
                    runs.push(run);
                    assert(runs@.map_values(|r: Vec<char>| r@) =~= prev.push(seq![c]));
                }
            }
            i = i + 1;
        }
        assert(s@.take(s@.len() as int) =~= s@);
        let mut tokens: Vec<String> = Vec::new();
        let mut k: usize = 0;
        while k < runs.len()
            invariant
                k <= runs@.len(),
                string_views(tokens@) == runs@.map_values(|r: Vec<char>| r@).take(k as int),
            decreases runs.len() - k,
        {
            let t = string_of(&runs[k]);
            let ghost before = tokens@;
            tokens.push(t);
            assert(string_views(tokens@) =~= string_views(before).push(t@));
            assert(runs@.map_values(|r: Vec<char>| r@).take(k + 1) =~= runs@.map_values(|r: Vec<char>| r@).take(k as int).push(runs@[k as int]@));
            k = k + 1;
        }
        assert(runs@.map_values(|r: Vec<char>| r@).take(runs@.len() as int) =~= runs@.map_values(|r: Vec<char>| r@));
        tokens
    }

    /// The findings from the words of already lower-cased metrics data.
    pub fn assess_lowered(lower: &[char]) -> (out: Vec<Finding>)
        ensures
            contents(out@) == metrics_keyword_findings(lower@),
    {
        let ghost l = lower@;
        let agent = "metrics_agent";
        let mut out: Vec<Finding> = Vec::new();
        if contains_str(lower, "spike") || contains_str(lower, "surge") {
            push_finding(
                &mut out,
                Severity::High,
                FindingCategory::MetricSpike,
                owned("Metric spike detected in data"),
                owned("Spike/surge keyword found"),
                800000,
                agent,
            );
        }
        let ghost c1 = contents(out@);
        assert(c1 =~= finding_if(
            contains(l, "spike"@) || contains(l, "surge"@),
            metrics_finding(
                Severity::High,
                FindingCategory::MetricSpike,
                "Metric spike detected in data"@,
                "Spike/surge keyword found"@,
                800000,
            ),
        ));
        if contains_str(lower, "drop") || contains_str(lower, "plummet") || contains_str(lower, "crash") {
            push_finding(
                &mut out,
                Severity::High,
                FindingCategory::MetricDrop,
                owned("Metric drop detected in data"),
                owned("Drop/plummet/crash keyword found"),
                800000,
                agent,
            );
        }
        let ghost c2 = contents(out@);
        assert(c2 =~= c1 + finding_if(
            contains(l, "drop"@) || contains(l, "plummet"@) || contains(l, "crash"@),
            metrics_finding(
                Severity::High,
                FindingCategory::MetricDrop,
                "Metric drop detected in data"@,
                "Drop/plummet/crash keyword found"@,
                800000,
            ),
        ));
        if contains_str(lower, "trend") || contains_str(lower, "increasing") || contains_str(lower, "decreasing") {
            push_finding(
                &mut out,
                Severity::Medium,
                FindingCategory::Trend,
                owned("Trend pattern detected in metrics"),
                owned("Trend/increasing/decreasing keyword found"),
                650000,
                agent,
            );
        }
        assert(contents(out@) =~= c2 + finding_if(
            contains(l, "trend"@) || contains(l, "increasing"@) || contains(l, "decreasing"@),
            metrics_finding(
                Severity::Medium,
                FindingCategory::Trend,
                "Trend pattern detected in metrics"@,
                "Trend/increasing/decreasing keyword found"@,
                650000,
            ),
        ));
        out
    }

    /// The findings from the words of metrics data; the statistics over its
    /// numbers are computed by the caller from `extract_number_tokens`.
    pub fn keyword_analyze(&self, input: &str) -> (out: Vec<Finding>)
        ensures
            contents(out@) == metrics_keyword_findings(lowercase(input@)),
    {
        let lower = to_lowercase(input);
        let chars = chars_of(lower.as_str());
        Self::assess_lowered(&chars)
    }

    /// The findings once the model has answered: a non-empty answer adds an
    /// informational metrics summary.
    pub fn with_claude_response(
        &self,
        findings: Vec<Finding>,
        response: Result<String, AgentError>,
    ) -> (out: Vec<Finding>)
        ensures
            contents(out@) == with_summary(
                contents(findings@),
                response_view(response),
                FindingCategory::Trend,
                "AI-assisted metrics analysis summary"@,
                "metrics_agent"@,
            ),
    {
        add_summary(
            findings,
            response,
            FindingCategory::Trend,
            "AI-assisted metrics analysis summary",
            "metrics_agent",
        )
    }
}

// ── Laws ────────────────────────────────────────────────────────────

/// The three keyword findings of the metrics agent, in report order.
spec fn metrics_parts() -> Seq<FindingContent> {
    seq![
        metrics_finding(
            Severity::High,
            FindingCategory::MetricSpike,
            "Metric spike detected in data"@,
            "Spike/surge keyword found"@,
            800000,
        ),
        metrics_finding(
            Severity::High,
            FindingCategory::MetricDrop,
            "Metric drop detected in data"@,
            "Drop/plummet/crash keyword found"@,
            800000,
        ),
        metrics_finding(
            Severity::Medium,
            FindingCategory::Trend,
            "Trend pattern detected in metrics"@,
            "Trend/increasing/decreasing keyword found"@,
            650000,
        ),
    ]
}

/// When each keyword finding is reported.
spec fn metrics_conditions(lower: Seq<char>) -> Seq<bool> {
    seq![
        contains(lower, "spike"@) || contains(lower, "surge"@),
        contains(lower, "drop"@) || contains(lower, "plummet"@) || contains(lower, "crash"@),
        contains(lower, "trend"@) || contains(lower, "increasing"@) || contains(lower, "decreasing"@),
    ]
}

proof fn lemma_metrics_guarded(lower: Seq<char>)
    ensures
        metrics_keyword_findings(lower) == guarded(metrics_parts(), metrics_conditions(lower), 3),
        forall|a: int, b: int| 0 <= a < 3 && 0 <= b < 3 && a != b
            ==> kind_of(#[trigger] metrics_parts()[a]) != kind_of(#[trigger] metrics_parts()[b]),
        forall|i: int| 0 <= i < 3 ==> (#[trigger] metrics_parts()[i]).agent_id == "metrics_agent"@,
{
    let ps = metrics_parts();
    let cs = metrics_conditions(lower);
    assert(guarded(ps, cs, 0) == Seq::<FindingContent>::empty());
    assert(guarded(ps, cs, 1) == guarded(ps, cs, 0) + finding_if(cs[0], ps[0]));
    assert(guarded(ps, cs, 2) == guarded(ps, cs, 1) + finding_if(cs[1], ps[1]));
    assert(guarded(ps, cs, 3) == guarded(ps, cs, 2) + finding_if(cs[2], ps[2]));
    assert(guarded(ps, cs, 1) =~= finding_if(cs[0], ps[0]));
}

/// The metrics agent reports a spike exactly when the text mentions "spike"
/// or "surge", a drop exactly when it mentions "drop", "plummet" or
/// "crash", and a trend exactly when it mentions "trend", "increasing" or
/// "decreasing"; each at most once, all from the metrics agent.
pub proof fn law_metrics_keywords(lower: Seq<char>)
    ensures
        kind_count(metrics_keyword_findings(lower), Severity::High, FindingCategory::MetricSpike, 800000)
            == if contains(lower, "spike"@) || contains(lower, "surge"@) { 1nat } else { 0nat },
        kind_count(metrics_keyword_findings(lower), Severity::High, FindingCategory::MetricDrop, 800000)
            == if contains(lower, "drop"@) || contains(lower, "plummet"@) || contains(lower, "crash"@) { 1nat } else { 0nat },
        kind_count(metrics_keyword_findings(lower), Severity::Medium, FindingCategory::Trend, 650000)
            == if contains(lower, "trend"@) || contains(lower, "increasing"@) || contains(lower, "decreasing"@) { 1nat } else { 0nat },
        all_from(metrics_keyword_findings(lower), "metrics_agent"@),
{
    let ps = metrics_parts();
    let cs = metrics_conditions(lower);
    lemma_metrics_guarded(lower);
    lemma_guarded_kind(ps, cs, 3, 0);
    lemma_guarded_kind(ps, cs, 3, 1);
    lemma_guarded_kind(ps, cs, 3, 2);
    lemma_guarded_from(ps, cs, 3, "metrics_agent"@);
}

} // verus!
