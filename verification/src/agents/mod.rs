//! The worker agents' local analyses, and what each makes of the optional
//! answer of the Messages API.
use vstd::prelude::*;

use crate::models::{
    contents, finding_content, AgentError, Finding, FindingCategory, FindingContent, Severity,
};
use crate::text::{decimal, decimal_chars};

pub mod health_checker;
pub mod incident_responder;
pub mod log_analyzer;
pub mod metrics_agent;


verus! {

/// One finding when `c` holds, none otherwise.
pub open spec fn finding_if(c: bool, f: FindingContent) -> Seq<FindingContent> {
    if c {
        seq![f]
    } else {
        Seq::empty()
    }
}

/// How many of the findings have this severity, category and confidence:
/// the kind of a finding, which tells the analyses' findings apart.
pub open spec fn kind_count(r: Seq<FindingContent>, severity: Severity, category: FindingCategory, confidence: nat) -> nat
    decreases r.len(),
{
    if r.len() == 0 {
        0
    } else {
        kind_count(r.drop_last(), severity, category, confidence) + if r.last().severity == severity
            && r.last().category == category && r.last().confidence == confidence {
            1nat
        } else {
            0nat
        }
    }
}

/// Kinds are counted part by part.
pub proof fn lemma_kind_count_add(a: Seq<FindingContent>, b: Seq<FindingContent>, severity: Severity, category: FindingCategory, confidence: nat)
    ensures
        kind_count(a + b, severity, category, confidence)
            == kind_count(a, severity, category, confidence) + kind_count(b, severity, category, confidence),
    decreases b.len(),
{
    if b.len() == 0 {
        assert(a + b =~= a);
    } else {
        lemma_kind_count_add(a, b.drop_last(), severity, category, confidence);
        assert((a + b).drop_last() =~= a + b.drop_last());
        assert((a + b).last() == b.last());
    }
}

/// A finding that may be there counts once when it is there and has the kind.
pub proof fn lemma_kind_count_if(c: bool, f: FindingContent, severity: Severity, category: FindingCategory, confidence: nat)
    ensures
        kind_count(finding_if(c, f), severity, category, confidence) == if c && f.severity == severity
            && f.category == category && f.confidence == confidence { 1nat } else { 0nat },
{
    let r = finding_if(c, f);
    if c {
        assert(r.drop_last() =~= Seq::<FindingContent>::empty());
        assert(r.last() == f);
        assert(kind_count(r.drop_last(), severity, category, confidence) == 0);
    } else {
        assert(r.len() == 0);
    }
}

/// A kind that none of the findings has is counted zero times.
pub proof fn lemma_kind_count_none(r: Seq<FindingContent>, severity: Severity, category: FindingCategory, confidence: nat)
    requires
        forall|i: int| 0 <= i < r.len() ==> !((#[trigger] r[i]).severity == severity && r[i].category == category
            && r[i].confidence == confidence),
    ensures
        kind_count(r, severity, category, confidence) == 0,
    decreases r.len(),
{
    if r.len() > 0 {
        let init = r.drop_last();
        assert forall|i: int| 0 <= i < init.len() implies !((#[trigger] init[i]).severity == severity
            && init[i].category == category && init[i].confidence == confidence) by {
            assert(init[i] == r[i]);
        }
        lemma_kind_count_none(init, severity, category, confidence);
        assert(r.last() == r[r.len() - 1]);
    }
}

/// Kinds are counted part by part, over four parts.
pub proof fn lemma_kind_count_add4(
    a: Seq<FindingContent>,
    b: Seq<FindingContent>,
    c: Seq<FindingContent>,
    d: Seq<FindingContent>,
    severity: Severity,
    category: FindingCategory,
    confidence: nat,
)
    ensures
        kind_count(a + b + c + d, severity, category, confidence) == kind_count(a, severity, category, confidence)
            + kind_count(b, severity, category, confidence) + kind_count(c, severity, category, confidence)
            + kind_count(d, severity, category, confidence),
{
    lemma_kind_count_add(a, b, severity, category, confidence);
    lemma_kind_count_add(a + b, c, severity, category, confidence);
    lemma_kind_count_add(a + b + c, d, severity, category, confidence);
}

/// The kind of a finding: its severity, category and confidence.
pub open spec fn kind_of(f: FindingContent) -> (Severity, FindingCategory, nat) {
    (f.severity, f.category, f.confidence)
}

/// The first `n` candidate findings, each kept when its condition holds.
pub open spec fn guarded(ps: Seq<FindingContent>, cs: Seq<bool>, n: nat) -> Seq<FindingContent>
    decreases n,
{
    if n == 0 {
        Seq::empty()
    } else {
        guarded(ps, cs, (n - 1) as nat) + finding_if(cs[n - 1], ps[n - 1])
    }
}

/// A kind that none of the first `n` candidates has is never counted.
proof fn lemma_guarded_absent(ps: Seq<FindingContent>, cs: Seq<bool>, n: nat, k: (Severity, FindingCategory, nat))
    requires
        forall|i: int| 0 <= i < n ==> kind_of(#[trigger] ps[i]) != k,
    ensures
        kind_count(guarded(ps, cs, n), k.0, k.1, k.2) == 0,
    decreases n,
{
    if n > 0 {
        lemma_guarded_absent(ps, cs, (n - 1) as nat, k);
        lemma_kind_count_add(guarded(ps, cs, (n - 1) as nat), finding_if(cs[n - 1], ps[n - 1]), k.0, k.1, k.2);
        lemma_kind_count_if(cs[n - 1], ps[n - 1], k.0, k.1, k.2);
        assert(kind_of(ps[n - 1]) != k);
    }
}

/// Among candidates of distinct kinds, the kind of the `j`-th is counted
/// once when its condition holds and not at all otherwise; a candidate whose
/// condition holds is there.
pub proof fn lemma_guarded_kind(ps: Seq<FindingContent>, cs: Seq<bool>, n: nat, j: int)
    requires
        0 <= j < n,
        forall|a: int, b: int| 0 <= a < n && 0 <= b < n && a != b ==> kind_of(#[trigger] ps[a]) != kind_of(#[trigger] ps[b]),
    ensures
        kind_count(guarded(ps, cs, n), ps[j].severity, ps[j].category, ps[j].confidence) == if cs[j] { 1nat } else { 0nat },
        cs[j] ==> guarded(ps, cs, n).contains(ps[j]),
    decreases n,
{
    let k = kind_of(ps[j]);
    let g0 = guarded(ps, cs, (n - 1) as nat);
    let last = finding_if(cs[n - 1], ps[n - 1]);
    lemma_kind_count_add(g0, last, k.0, k.1, k.2);
    lemma_kind_count_if(cs[n - 1], ps[n - 1], k.0, k.1, k.2);
    if j < n - 1 {
        assert forall|a: int, b: int| 0 <= a < n - 1 && 0 <= b < n - 1 && a != b
            implies kind_of(#[trigger] ps[a]) != kind_of(#[trigger] ps[b]) by {}
        lemma_guarded_kind(ps, cs, (n - 1) as nat, j);
        assert(kind_of(ps[n - 1]) != k);
        if cs[j] {
            let i = choose|i: int| 0 <= i < g0.len() && g0[i] == ps[j];
            assert((g0 + last)[i] == g0[i]);
        }
    } else {
        lemma_guarded_absent(ps, cs, (n - 1) as nat, k);
        if cs[j] {
            assert((g0 + last)[g0.len() as int] == ps[j]);
        }
    }
}

/// Candidates that all come from one agent give findings from that agent.
pub proof fn lemma_guarded_from(ps: Seq<FindingContent>, cs: Seq<bool>, n: nat, agent: Seq<char>)
    requires
        forall|i: int| 0 <= i < n ==> (#[trigger] ps[i]).agent_id == agent,
    ensures
        all_from(guarded(ps, cs, n), agent),
    decreases n,
{
    if n > 0 {
        lemma_guarded_from(ps, cs, (n - 1) as nat, agent);
        let g0 = guarded(ps, cs, (n - 1) as nat);
        let last = finding_if(cs[n - 1], ps[n - 1]);
        assert forall|i: int| 0 <= i < (g0 + last).len() implies (#[trigger] (g0 + last)[i]).agent_id == agent by {
            if i < g0.len() {
                assert((g0 + last)[i] == g0[i]);
            } else {
                assert((g0 + last)[i] == last[i - g0.len()]);
            }
        }
    }
}

/// The findings that all come from one agent.
pub open spec fn all_from(r: Seq<FindingContent>, agent: Seq<char>) -> bool {
    forall|i: int| 0 <= i < r.len() ==> (#[trigger] r[i]).agent_id == agent
}

/// The confidence of every AI-assisted summary: 0.70.
pub const SUMMARY_CONFIDENCE: u32 = 700000;

/// The findings after the model's answer: an informational summary holding a
/// non-empty answer is added; an error or an empty answer adds nothing.
pub open spec fn with_summary(
    findings: Seq<FindingContent>,
    response: Result<Seq<char>, ()>,
    category: FindingCategory,
    description: Seq<char>,
    agent: Seq<char>,
) -> Seq<FindingContent> {
    match response {
        Ok(r) => findings + finding_if(
            r.len() > 0,
            finding_content(
                Severity::Info,
                category,
                description,
                r,
                SUMMARY_CONFIDENCE as nat,
                agent,
            ),
        ),
        Err(_) => findings,
    }
}

/// The characters of an answer, or its failure.
pub open spec fn response_view(response: Result<String, AgentError>) -> Result<Seq<char>, ()> {
    match response {
        Ok(r) => Ok(r@),
        Err(_) => Err(()),
    }
}

/// A string holding the characters of `s`.
pub fn owned(s: &str) -> (r: String)
    ensures
        r@ == s@,
{
    s.to_owned()
}

/// `prefix`, then `n` in decimal, then `suffix`.
pub fn with_count(prefix: &str, n: usize, suffix: &str) -> (r: String)
    ensures
        r@ == prefix@ + decimal(n as nat) + suffix@,
{
    let mut v = crate::text::chars_of(prefix);
    let d = decimal_chars(n);
    let t = crate::text::chars_of(suffix);
    v.extend_from_slice(&d);
    v.extend_from_slice(&t);
    crate::text::string_of(&v)
}

/// Appends a new finding with these parts.
pub fn push_finding(
    out: &mut Vec<Finding>,
    severity: Severity,
    category: FindingCategory,
    description: String,
    evidence: String,
    confidence: u32,
    agent: &str,
)
    ensures
        contents(final(out)@) == contents(old(out)@).push(
            finding_content(severity, category, description@, evidence@, confidence as nat, agent@),
        ),
{
    let f = Finding::new(severity, category, description, evidence, confidence, owned(agent));
    let ghost before = out@;
    out.push(f);
    assert(contents(out@) =~= contents(before).push(f.content()));
}

/// Adds the informational summary of a non-empty model's answer to the
/// findings; an error or an empty answer leaves them as they are.
pub fn add_summary(
    findings: Vec<Finding>,
    response: Result<String, AgentError>,
    category: FindingCategory,
    description: &str,
    agent: &str,
) -> (out: Vec<Finding>)
    ensures
        contents(out@) == with_summary(
            contents(findings@),
            response_view(response),
            category,
            description@,
            agent@,
        ),
{
    let mut out = findings;
    match response {
        Ok(r) => {
            if !r.as_str().is_empty() {
                push_finding(
                    &mut out,
                    Severity::Info,
                    category,
                    owned(description),
                    r,
                    SUMMARY_CONFIDENCE,
                    agent,
                );
            } else {
                assert(contents(out@) =~= contents(out@) + Seq::<FindingContent>::empty());
            }
        },
        Err(_) => {},
    }
    out
}

} // verus!
