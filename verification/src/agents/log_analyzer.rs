//! Parses log patterns, detects anomalies, and identifies error clusters.
use vstd::prelude::*;

use super::{
    add_summary, all_from, finding_if, kind_count, lemma_kind_count_add4, lemma_kind_count_if,
    lemma_kind_count_none, owned, push_finding, response_view, with_count, with_summary,
};
use crate::models::{
    contents, finding_content, string_views, AgentError, Finding, FindingCategory, FindingContent,
    Severity,
};
use crate::text::{
    chars_eq, chars_of, contains, contains_str, copy_chars, decimal, decimal_chars, join,
    join_chars, lines, lowercase, prefix_chars, split_lines, string_of, to_lowercase,
};

verus! {

/// How many of the first `n` lines contain `p`.
pub open spec fn count_containing(ls: Seq<Seq<char>>, p: Seq<char>, n: nat) -> nat
    decreases n,
{
    if n == 0 {
        0
    } else {
        count_containing(ls, p, (n - 1) as nat) + if contains(ls[n - 1], p) {
            1nat
        } else {
            0nat
        }
    }
}

/// The first three of the first `n` lines whose lower-cased form mentions
/// "fatal", as written.
pub open spec fn fatal_samples(ls: Seq<Seq<char>>, lowered: Seq<Seq<char>>, n: nat) -> Seq<Seq<char>>
    decreases n,
{
    if n == 0 {
        Seq::empty()
    } else {
        let prev = fatal_samples(ls, lowered, (n - 1) as nat);
        if contains(lowered[n - 1], "fatal"@) && prev.len() < 3 {
            prev.push(ls[n - 1])
        } else {
            prev
        }
    }
}

/// A lower-cased line that reports an error or an exception.
pub open spec fn is_error_line(l: Seq<char>) -> bool {
    contains(l, "error"@) || contains(l, "exception"@)
}

/// The first 50 characters of a line, or the whole line when shorter.
pub open spec fn prefix50(l: Seq<char>) -> Seq<char> {
    if l.len() <= 50 {
        l
    } else {
        l.take(50)
    }
}

/// The pattern keys of the error lines among the first `n` lower-cased
/// lines: their first 50 characters.
pub open spec fn pattern_keys(lowered: Seq<Seq<char>>, n: nat) -> Seq<Seq<char>>
    decreases n,
{
    if n == 0 {
        Seq::empty()
    } else {
        pattern_keys(lowered, (n - 1) as nat) + if is_error_line(lowered[n - 1]) {
            seq![prefix50(lowered[n - 1])]
        } else {
            Seq::empty()
        }
    }
}

/// The distinct keys among the first `n`, in order of first appearance.
pub open spec fn distinct_keys(keys: Seq<Seq<char>>, n: nat) -> Seq<Seq<char>>
    decreases n,
{
    if n == 0 {
        Seq::empty()
    } else {
        let d = distinct_keys(keys, (n - 1) as nat);
        if d.contains(keys[n - 1]) {
            d
        } else {
            d.push(keys[n - 1])
        }
    }
}

/// How often `k` occurs among `keys`.
pub open spec fn occurrences(keys: Seq<Seq<char>>, k: Seq<char>) -> nat
    decreases keys.len(),
{
    if keys.len() == 0 {
        0
    } else {
        occurrences(keys.drop_last(), k) + if keys.last() == k {
            1nat
        } else {
            0nat
        }
    }
}

/// A finding of the log analyzer.
pub open spec fn log_finding(
    severity: Severity,
    category: FindingCategory,
    description: Seq<char>,
    evidence: Seq<char>,
    confidence: nat,
) -> FindingContent {
    finding_content(severity, category, description, evidence, confidence, "log_analyzer"@)
}

/// The cluster finding of a key: how often it occurs and the key itself.
#[verifier::opaque]
pub open spec fn cluster_finding(keys: Seq<Seq<char>>, k: Seq<char>) -> FindingContent {
    log_finding(
        Severity::High,
        FindingCategory::ErrorPattern,
        "Repeated error cluster ("@ + decimal(occurrences(keys, k)) + " occurrences)"@,
        "Pattern prefix: "@ + k,
        800000,
    )
}

/// One finding per distinct key that occurs at least three times.
pub open spec fn cluster_findings(keys: Seq<Seq<char>>, ds: Seq<Seq<char>>) -> Seq<FindingContent>
    decreases ds.len(),
{
    if ds.len() == 0 {
        Seq::empty()
    } else {
        let k = ds.last();
        cluster_findings(keys, ds.drop_last()) + finding_if(occurrences(keys, k) >= 3, cluster_finding(keys, k))
    }
}

/// The log analyzer's findings on log lines and their lower-cased forms;
/// `density` is the rendered share of error lines, the evidence of a high
/// error rate.
pub open spec fn log_findings(ls: Seq<Seq<char>>, lowered: Seq<Seq<char>>, density: Seq<char>) -> Seq<FindingContent> {
    let n = ls.len();
    let e = count_containing(lowered, "error"@, n);
    let w = count_containing(lowered, "warn"@, n);
    let f = count_containing(lowered, "fatal"@, n);
    let keys = pattern_keys(lowered, n);
    finding_if(
        f > 0,
        log_finding(
            Severity::Critical,
            FindingCategory::ErrorPattern,
            "Detected "@ + decimal(f) + " fatal log entries"@,
            "Lines containing FATAL: "@ + join(fatal_samples(ls, lowered, n), " | "@),
            950000,
        ),
    ) + (if e > 5 {
        seq![
            log_finding(
                Severity::High,
                FindingCategory::ErrorPattern,
                "High error rate detected: "@ + decimal(e) + " errors in "@ + decimal(n) + " lines"@,
                density,
                850000,
            ),
        ]
    } else {
        finding_if(
            e > 0,
            log_finding(
                Severity::Medium,
                FindingCategory::ErrorPattern,
                "Found "@ + decimal(e) + " error entries in logs"@,
                "Error entries present"@,
                750000,
            ),
        )
    }) + finding_if(
        w > 10,
        log_finding(
            Severity::Medium,
            FindingCategory::AnomalousBehavior,
            "Elevated warning count: "@ + decimal(w) + " warnings"@,
            "High warning frequency may indicate degrading service"@,
            700000,
        ),
    ) + cluster_findings(keys, distinct_keys(keys, keys.len()))
}

/// The lower-cased form of each line.
pub open spec fn lowered_lines(ls: Seq<Seq<char>>) -> Seq<Seq<char>> {
    ls.map_values(|l: Seq<char>| lowercase(l))
}

/// The characters of each vector.
pub open spec fn views(v: Seq<Vec<char>>) -> Seq<Seq<char>> {
    v.map_values(|x: Vec<char>| x@)
}

// ── Lemmas ──────────────────────────────────────────────────────────

proof fn lemma_count_containing_le(ls: Seq<Seq<char>>, p: Seq<char>, n: nat)
    ensures
        count_containing(ls, p, n) <= n,
    decreases n,
{
    if n > 0 {
        lemma_count_containing_le(ls, p, (n - 1) as nat);
    }
}

proof fn lemma_occurrences_absent(keys: Seq<Seq<char>>, k: Seq<char>)
    requires
        forall|m: int| 0 <= m < keys.len() ==> keys[m] != k,
    ensures
        occurrences(keys, k) == 0,
    decreases keys.len(),
{
    if keys.len() > 0 {
        lemma_occurrences_absent(keys.drop_last(), k);
    }
}

proof fn lemma_occurrences_le(keys: Seq<Seq<char>>, k: Seq<char>)
    ensures
        occurrences(keys, k) <= keys.len(),
    decreases keys.len(),
{
    if keys.len() > 0 {
        lemma_occurrences_le(keys.drop_last(), k);
    }
}

// ── Executable parts ────────────────────────────────────────────────

/// How many lines contain "error", "warn" and "fatal", and the first three
/// fatal lines as written.
fn line_stats(ls: &Vec<Vec<char>>, lowered: &Vec<Vec<char>>) -> (r: (usize, usize, usize, Vec<Vec<char>>))
    requires
        lowered@.len() == ls@.len(),
    ensures
        r.0 == count_containing(views(lowered@), "error"@, ls@.len() as nat),
        r.1 == count_containing(views(lowered@), "warn"@, ls@.len() as nat),
        r.2 == count_containing(views(lowered@), "fatal"@, ls@.len() as nat),
        views(r.3@) == fatal_samples(views(ls@), views(lowered@), ls@.len() as nat),
{
    let ghost lv = views(lowered@);
    let ghost lsv = views(ls@);
    let mut e: usize = 0;
    let mut w: usize = 0;
    let mut f: usize = 0;
    let mut samples: Vec<Vec<char>> = Vec::new();
    let mut i: usize = 0;
    while i < ls.len()
        invariant
            i <= ls@.len(),
            lowered@.len() == ls@.len(),
            lv == views(lowered@),
            lsv == views(ls@),
            e == count_containing(lv, "error"@, i as nat),
            w == count_containing(lv, "warn"@, i as nat),
            f == count_containing(lv, "fatal"@, i as nat),
            e <= i && w <= i && f <= i,
            views(samples@) == fatal_samples(lsv, lv, i as nat),
            samples@.len() <= 3,
        decreases ls.len() - i,
    {
        let low = &lowered[i];
        assert(low@ == lv[i as int]);
        if contains_str(low, "error") {
            e = e + 1;
        }
        if contains_str(low, "warn") {
            w = w + 1;
        }
        if contains_str(low, "fatal") {
            f = f + 1;
            if samples.len() < 3 {
                let ghost before = views(samples@);
                samples.push(copy_chars(&ls[i]));
                assert(views(samples@) =~= before.push(lsv[i as int]));
            }
        }
        i = i + 1;
    }
    (e, w, f, samples)
}

/// The pattern keys of the error lines among lower-cased lines.
fn pattern_keys_exec(lowered: &Vec<Vec<char>>) -> (keys: Vec<Vec<char>>)
    ensures
        views(keys@) == pattern_keys(views(lowered@), lowered@.len() as nat),
{
    let ghost lv = views(lowered@);
    let mut keys: Vec<Vec<char>> = Vec::new();
    let mut i: usize = 0;
    while i < lowered.len()
        invariant
            i <= lowered@.len(),
            lv == views(lowered@),
            views(keys@) == pattern_keys(lv, i as nat),
        decreases lowered.len() - i,
    {
        let low = &lowered[i];
        assert(low@ == lv[i as int]);
        let ghost before = views(keys@);
        if contains_str(low, "error") || contains_str(low, "exception") {
            keys.push(prefix_chars(low, 50));
            assert(views(keys@) =~= before + seq![prefix50(lv[i as int])]);
        } else {
            assert(views(keys@) =~= before + Seq::<Seq<char>>::empty());
        }
        i = i + 1;
    }
    keys
}

/// The distinct keys in order of first appearance, each with its number of
/// occurrences.
fn key_counts(keys: &Vec<Vec<char>>) -> (r: (Vec<Vec<char>>, Vec<usize>))
    ensures
        views(r.0@) == distinct_keys(views(keys@), keys@.len() as nat),
        r.1@.len() == r.0@.len(),
        forall|j: int| 0 <= j < r.1@.len() ==> r.1@[j] == occurrences(views(keys@), views(r.0@)[j]),
{
    let ghost kv = views(keys@);
    let mut ds: Vec<Vec<char>> = Vec::new();
    let mut cnt: Vec<usize> = Vec::new();
    let mut i: usize = 0;
    while i < keys.len()
        invariant
            i <= keys@.len(),
            kv == views(keys@),
            views(ds@) == distinct_keys(kv, i as nat),
            cnt@.len() == ds@.len(),
            forall|j: int| 0 <= j < cnt@.len() ==> cnt@[j] == occurrences(kv.take(i as int), views(ds@)[j]),
            forall|m: int| 0 <= m < i ==> views(ds@).contains(kv[m]),
            forall|j: int| 0 <= j < cnt@.len() ==> cnt@[j] <= i,
        decreases keys.len() - i,
    {
        let key = &keys[i];
        assert(key@ == kv[i as int]);
        let ghost dv = views(ds@);
        assert(kv.take(i + 1).drop_last() =~= kv.take(i as int));
        assert(kv.take(i + 1).last() == kv[i as int]);
        let mut j: usize = 0;
        while j < ds.len() && !chars_eq(&ds[j], key)
            invariant
                j <= ds@.len(),
                dv == views(ds@),
                key@ == kv[i as int],
                forall|m: int| 0 <= m < j ==> dv[m] != key@,
            decreases ds.len() - j,
        {
            j = j + 1;
        }
        if j < ds.len() {
            assert(dv[j as int] == key@);
            assert(dv.contains(key@));
            let c = cnt[j];
            proof {
                lemma_occurrences_le(kv.take(i as int), dv[j as int]);
            }
            cnt.set(j, c + 1);
            assert forall|t: int| 0 <= t < cnt@.len() implies cnt@[t] == occurrences(kv.take(i + 1), views(ds@)[t]) by {
                assert(occurrences(kv.take(i + 1), dv[t]) == occurrences(kv.take(i as int), dv[t]) + if kv[i as int] == dv[t] { 1nat } else { 0nat });
                if t != j {
                    assert(dv[t] != dv[j as int]) by {
                        lemma_distinct_keys_distinct(kv, i as nat);
                    }
                }
            }
        } else {
            assert(!dv.contains(key@));
            assert forall|m: int| 0 <= m < i implies kv.take(i as int)[m] != key@ by {
                assert(dv.contains(kv[m]));
            }
            proof {
                lemma_occurrences_absent(kv.take(i as int), key@);
            }
            ds.push(copy_chars(key));
            cnt.push(1);
            assert(views(ds@) =~= dv.push(key@));
            assert forall|t: int| 0 <= t < cnt@.len() implies cnt@[t] == occurrences(kv.take(i + 1), views(ds@)[t]) by {
                assert(occurrences(kv.take(i + 1), views(ds@)[t]) == occurrences(kv.take(i as int), views(ds@)[t]) + if kv[i as int] == views(ds@)[t] { 1nat } else { 0nat });
                if t < dv.len() {
                    assert(views(ds@)[t] == dv[t]);
                    assert(dv[t] != key@);
                }
            }
        }
        assert forall|m: int| 0 <= m < i + 1 implies views(ds@).contains(kv[m]) by {
            if m < i {
                let q = choose|q: int| 0 <= q < dv.len() && dv[q] == kv[m];
                assert(views(ds@)[q] == dv[q]);
            } else {
                if j < ds.len() {
                    assert(views(ds@)[j as int] == kv[m]);
                } else {
                    assert(views(ds@)[dv.len() as int] == kv[m]);
                }
            }
        }
        i = i + 1;
    }
    assert(kv.take(keys@.len() as int) =~= kv);
    (ds, cnt)
}

/// The distinct keys hold no key twice.
proof fn lemma_distinct_keys_distinct(keys: Seq<Seq<char>>, n: nat)
    ensures
        forall|a: int, b: int| 0 <= a < b < distinct_keys(keys, n).len()
            ==> distinct_keys(keys, n)[a] != distinct_keys(keys, n)[b],
    decreases n,
{
    if n > 0 {
        lemma_distinct_keys_distinct(keys, (n - 1) as nat);
        let d = distinct_keys(keys, (n - 1) as nat);
        if !d.contains(keys[n - 1]) {
            let r = d.push(keys[n - 1]);
            assert forall|a: int, b: int| 0 <= a < b < r.len() implies r[a] != r[b] by {
                if b == d.len() {
                    assert(r[a] == d[a]);
                    if r[a] == r[b] {
                        assert(d.contains(keys[n - 1]));
                    }
                } else {
                    assert(r[a] == d[a] && r[b] == d[b]);
                }
            }
        }
    }
}

/// One finding per distinct key counted at least three times.
fn cluster_findings_exec(
    out: &mut Vec<Finding>,
    ghost_keys: Ghost<Seq<Seq<char>>>,
    ds: &Vec<Vec<char>>,
    cnt: &Vec<usize>,
)
    requires
        cnt@.len() == ds@.len(),
        forall|j: int| 0 <= j < cnt@.len() ==> cnt@[j] == occurrences(ghost_keys@, views(ds@)[j]),
    ensures
        contents(final(out)@) == contents(old(out)@) + cluster_findings(ghost_keys@, views(ds@)),
{
    let ghost start = contents(out@);
    let ghost dv = views(ds@);
    let ghost keys = ghost_keys@;
    let mut j: usize = 0;
    while j < ds.len()
        invariant
            j <= ds@.len(),
            cnt@.len() == ds@.len(),
            dv == views(ds@),
            keys == ghost_keys@,
            forall|t: int| 0 <= t < cnt@.len() ==> cnt@[t] == occurrences(keys, dv[t]),
            contents(out@) == start + cluster_findings(keys, dv.take(j as int)),
        decreases ds.len() - j,
    {
        proof {
            reveal(cluster_finding);
        }
        assert(dv.take(j + 1).drop_last() =~= dv.take(j as int));
        assert(dv.take(j + 1).last() == dv[j as int]);
        let c = cnt[j];
        let ghost before = contents(out@);
        let ghost k = dv[j as int];
        assert(c == occurrences(keys, k));
        assert(cluster_findings(keys, dv.take(j + 1)) == cluster_findings(keys, dv.take(j as int)) + finding_if(
            occurrences(keys, k) >= 3,
            log_finding(
                Severity::High,
                FindingCategory::ErrorPattern,
                "Repeated error cluster ("@ + decimal(occurrences(keys, k)) + " occurrences)"@,
                "Pattern prefix: "@ + k,
                800000,
            ),
        ));
        if c >= 3 {
            let mut ev = chars_of("Pattern prefix: ");
            ev.extend_from_slice(&ds[j]);
            assert(ev@ == "Pattern prefix: "@ + k);
            push_finding(
                out,
                Severity::High,
                FindingCategory::ErrorPattern,
                with_count("Repeated error cluster (", c, " occurrences)"),
                string_of(&ev),
                800000,
                "log_analyzer",
            );
        }
        assert(contents(out@) =~= start + cluster_findings(keys, dv.take(j + 1)));
        j = j + 1;
    }
    assert(dv.take(ds@.len() as int) =~= dv);
}

/// Parses log patterns, detects anomalies and identifies error clusters,
/// with the help of a model client.
pub struct LogAnalyzer<C> {
    claude: C,
}

impl<C> LogAnalyzer<C> {
    /// The model client of this agent.
    pub closed spec fn client(&self) -> C {
        self.claude
    }

    /// A log analyzer that asks `client` for a summary.
    pub fn new(claude: C) -> (a: Self)
        ensures
            a.client() == claude,
    {
        LogAnalyzer { claude }
    }

    /// The model client of this agent.
    pub fn claude(&self) -> (c: &C)
        ensures
            *c == self.client(),
    {
        &self.claude
    }

    /// The agent's name.
    pub fn name(&self) -> (n: &'static str)
        ensures
            n@ == "log_analyzer"@,
    {
        "log_analyzer"
    }

    /// What the agent can do.
    pub fn capabilities(&self) -> (c: Vec<String>)
        ensures
            string_views(c@) == seq!["log_analysis"@, "error_detection"@, "anomaly_detection"@],
    {
        let mut c = Vec::new();
        c.push(owned("log_analysis"));
        c.push(owned("error_detection"));
        c.push(owned("anomaly_detection"));
        assert(string_views(c@) =~= seq!["log_analysis"@, "error_detection"@, "anomaly_detection"@]);
        c
    }

    /// The instruction sent to the model with the logs.
    pub fn system_prompt(&self) -> (p: &'static str)
        ensures
            p@ == "You are a log analysis expert. Analyze the following logs and identify \
                any error patterns, anomalies, or clusters. Respond with a brief summary."@,
    {
        "You are a log analysis expert. Analyze the following logs and identify \
         any error patterns, anomalies, or clusters. Respond with a brief summary."
    }

    /// The findings on log lines and their lower-cased forms; `error_density`
    /// becomes the evidence of a high error rate.
    #[verifier::spinoff_prover]
    pub fn assess_lines(ls: &Vec<Vec<char>>, lowered: &Vec<Vec<char>>, error_density: &str) -> (out: Vec<Finding>)
        requires
            lowered@.len() == ls@.len(),
        ensures
            contents(out@) == log_findings(views(ls@), views(lowered@), error_density@),
    {
        let ghost lsv = views(ls@);
        let ghost lv = views(lowered@);
        let n = ls.len();
        assert(lsv.len() == n);
        let (e, w, f, samples) = line_stats(ls, lowered);
        let keys = pattern_keys_exec(lowered);
        let (ds, cnt) = key_counts(&keys);
        let agent = "log_analyzer";
        let mut out: Vec<Finding> = Vec::new();
        if f > 0 {
            let sep = chars_of(" | ");
            let joined = join_chars(&samples, &sep);
            let mut ev = chars_of("Lines containing FATAL: ");
            ev.extend_from_slice(&joined);
            assert(samples@.map_values(|p: Vec<char>| p@) =~= views(samples@));
            assert(joined@ == join(fatal_samples(lsv, lv, n as nat), " | "@));
            assert(ev@ == "Lines containing FATAL: "@ + join(fatal_samples(lsv, lv, n as nat), " | "@));
            push_finding(
                &mut out,
                Severity::Critical,
                FindingCategory::ErrorPattern,
                with_count("Detected ", f, " fatal log entries"),
                string_of(&ev),
                950000,
                agent,
            );
        }
        let ghost c1 = contents(out@);
        assert(c1 =~= finding_if(
            f > 0,
            log_finding(
                Severity::Critical,
                FindingCategory::ErrorPattern,
                "Detected "@ + decimal(f as nat) + " fatal log entries"@,
                "Lines containing FATAL: "@ + join(fatal_samples(lsv, lv, n as nat), " | "@),
                950000,
            ),
        ));
        if e > 5 {
            let mut d = chars_of("High error rate detected: ");
            let ec = decimal_chars(e);
            let mid = chars_of(" errors in ");
            let nc = decimal_chars(n);
            let tail = chars_of(" lines");
            d.extend_from_slice(&ec);
            d.extend_from_slice(&mid);
            d.extend_from_slice(&nc);
            d.extend_from_slice(&tail);
            assert(d@ =~= "High error rate detected: "@ + decimal(e as nat) + " errors in "@ + decimal(n as nat) + " lines"@);
            push_finding(
                &mut out,
                Severity::High,
                FindingCategory::ErrorPattern,
                string_of(&d),
                owned(error_density),
                850000,
                agent,
            );
        } else if e > 0 {
            push_finding(
                &mut out,
                Severity::Medium,
                FindingCategory::ErrorPattern,
                with_count("Found ", e, " error entries in logs"),
                owned("Error entries present"),
                750000,
                agent,
            );
        }
        let ghost c2 = contents(out@);
        assert(c2 =~= c1 + (if e > 5 {
            seq![
                log_finding(
                    Severity::High,
                    FindingCategory::ErrorPattern,
                    "High error rate detected: "@ + decimal(e as nat) + " errors in "@ + decimal(n as nat) + " lines"@,
                    error_density@,
                    850000,
                ),
            ]
        } else {
            finding_if(
                e > 0,
                log_finding(
                    Severity::Medium,
                    FindingCategory::ErrorPattern,
                    "Found "@ + decimal(e as nat) + " error entries in logs"@,
                    "Error entries present"@,
                    750000,
                ),
            )
        }));
        if w > 10 {
            push_finding(
                &mut out,
                Severity::Medium,
                FindingCategory::AnomalousBehavior,
                with_count("Elevated warning count: ", w, " warnings"),
                owned("High warning frequency may indicate degrading service"),
                700000,
                agent,
            );
        }
        let ghost c3 = contents(out@);
        assert(c3 =~= c2 + finding_if(
            w > 10,
            log_finding(
                Severity::Medium,
                FindingCategory::AnomalousBehavior,
                "Elevated warning count: "@ + decimal(w as nat) + " warnings"@,
                "High warning frequency may indicate degrading service"@,
                700000,
            ),
        ));
        cluster_findings_exec(&mut out, Ghost(views(keys@)), &ds, &cnt);
        assert(contents(out@) =~= log_findings(lsv, lv, error_density@));
        out
    }

    /// The lines of the input with their lower-cased forms.
    fn split_and_lower(input: &str) -> (r: (Vec<Vec<char>>, Vec<Vec<char>>))
        ensures
            views(r.0@) == lines(input@),
            views(r.1@) == lowered_lines(lines(input@)),
            r.0@.len() == r.1@.len(),
    {
        let chars = chars_of(input);
        let ls = split_lines(&chars);
        assert(views(ls@) == ls@.map_values(|l: Vec<char>| l@));
        let ghost lsv = views(ls@);
        let mut lowered: Vec<Vec<char>> = Vec::new();
        let mut i: usize = 0;
        while i < ls.len()
            invariant
                i <= ls@.len(),
                lsv == views(ls@),
                views(lowered@) == lowered_lines(lsv).take(i as int),
            decreases ls.len() - i,
        {
            let line = string_of(&ls[i]);
            let low = to_lowercase(line.as_str());
            let lc = chars_of(low.as_str());
            let ghost before = views(lowered@);
            lowered.push(lc);
            assert(views(lowered@) =~= before.push(lowercase(lsv[i as int])));
            assert(lowered_lines(lsv).take(i + 1) =~= lowered_lines(lsv).take(i as int).push(lowercase(lsv[i as int])));
            i = i + 1;
        }
        assert(lowered_lines(lsv).take(ls@.len() as int) =~= lowered_lines(lsv));
        (ls, lowered)
    }

    /// How many lines mention an error, and how many lines there are: what
    /// the error density of a high error rate is computed from.
    pub fn error_line_stats(&self, input: &str) -> (r: (usize, usize))
        ensures
            r.0 == count_containing(lowered_lines(lines(input@)), "error"@, lines(input@).len()),
            r.1 == lines(input@).len(),
    {
        let (ls, lowered) = Self::split_and_lower(input);
        let (e, _w, _f, _s) = line_stats(&ls, &lowered);
        (e, ls.len())
    }

    /// The local findings on logs, before any model summary; `error_density`
    /// becomes the evidence of a high error rate.
    pub fn heuristic_analyze(&self, input: &str, error_density: &str) -> (out: Vec<Finding>)
        ensures
            contents(out@) == log_findings(lines(input@), lowered_lines(lines(input@)), error_density@),
    {
        let (ls, lowered) = Self::split_and_lower(input);
        Self::assess_lines(&ls, &lowered, error_density)
    }

    /// The findings once the model has answered: a non-empty answer adds an
    /// informational log summary.
    pub fn with_claude_response(
        &self,
        findings: Vec<Finding>,
        response: Result<String, AgentError>,
    ) -> (out: Vec<Finding>)
        ensures
            contents(out@) == with_summary(
                contents(findings@),
                response_view(response),
                FindingCategory::AnomalousBehavior,
                "AI-assisted log analysis summary"@,
                "log_analyzer"@,
            ),
    {
        add_summary(
            findings,
            response,
            FindingCategory::AnomalousBehavior,
            "AI-assisted log analysis summary",
            "log_analyzer",
        )
    }
}

// ── Laws ────────────────────────────────────────────────────────────

/// Every cluster finding is a high error pattern of 0.80 from the log
/// analyzer.
proof fn lemma_cluster_findings_kind(keys: Seq<Seq<char>>, ds: Seq<Seq<char>>)
    ensures
        forall|i: int| 0 <= i < cluster_findings(keys, ds).len() ==> {
            let x = #[trigger] cluster_findings(keys, ds)[i];
            &&& x.severity == Severity::High
            &&& x.category == FindingCategory::ErrorPattern
            &&& x.confidence == 800000
            &&& x.agent_id == "log_analyzer"@
        },
    decreases ds.len(),
{
    reveal(cluster_finding);
    if ds.len() > 0 {
        lemma_cluster_findings_kind(keys, ds.drop_last());
        let a = cluster_findings(keys, ds.drop_last());
        let k = ds.last();
        let b = finding_if(occurrences(keys, k) >= 3, cluster_finding(keys, k));
        assert(cluster_findings(keys, ds) == a + b);
        assert forall|i: int| 0 <= i < (a + b).len() implies {
            let x = #[trigger] (a + b)[i];
            &&& x.severity == Severity::High
            &&& x.category == FindingCategory::ErrorPattern
            &&& x.confidence == 800000
            &&& x.agent_id == "log_analyzer"@
        } by {
            if i < a.len() {
                assert((a + b)[i] == a[i]);
            } else {
                assert((a + b)[i] == b[i - a.len()]);
            }
        }
    }
}

/// The evidence of a key's cluster finding names the key.
proof fn lemma_cluster_finding_evidence(keys: Seq<Seq<char>>, k: Seq<char>)
    ensures
        cluster_finding(keys, k).evidence == "Pattern prefix: "@ + k,
{
    reveal(cluster_finding);
}

/// The same text after the same prefix is the same text.
proof fn lemma_prefix_cancel(p: Seq<char>, a: Seq<char>, b: Seq<char>)
    requires
        p + a == p + b,
    ensures
        a == b,
{
    assert(a =~= (p + a).subrange(p.len() as int, (p + a).len() as int));
    assert(b =~= (p + b).subrange(p.len() as int, (p + b).len() as int));
}

/// The distinct keys hold each key once, and exactly the keys that occur.
proof fn lemma_distinct_keys(keys: Seq<Seq<char>>, n: nat)
    requires
        n <= keys.len(),
    ensures
        distinct_keys(keys, n).no_duplicates(),
        forall|k: Seq<char>| distinct_keys(keys, n).contains(k) <==> exists|m: int| 0 <= m < n && keys[m] == k,
    decreases n,
{
    if n > 0 {
        lemma_distinct_keys(keys, (n - 1) as nat);
        let d = distinct_keys(keys, (n - 1) as nat);
        let x = keys[n - 1];
        assert forall|k: Seq<char>| distinct_keys(keys, n).contains(k) <==> exists|m: int| 0 <= m < n && keys[m] == k by {
            if distinct_keys(keys, n).contains(k) {
                if d.contains(k) {
                    let m = choose|m: int| 0 <= m < n - 1 && keys[m] == k;
                    assert(0 <= m < n && keys[m] == k);
                } else {
                    let i = choose|i: int| 0 <= i < d.push(x).len() && d.push(x)[i] == k;
                    assert(i == d.len());
                    assert(keys[n - 1] == k);
                }
            }
            if exists|m: int| 0 <= m < n && keys[m] == k {
                let m = choose|m: int| 0 <= m < n && keys[m] == k;
                if m < n - 1 {
                    assert(d.contains(k));
                    if !d.contains(x) {
                        assert(d.push(x)[d.push(x).len() - 1] == x);
                        let i = choose|i: int| 0 <= i < d.len() && d[i] == k;
                        assert(d.push(x)[i] == k);
                    }
                } else {
                    if !d.contains(x) {
                        assert(d.push(x)[d.len() as int] == x);
                    }
                }
            }
        }
    } else {
        assert forall|k: Seq<char>| distinct_keys(keys, n).contains(k) <==> exists|m: int| 0 <= m < n && keys[m] == k by {
            assert(distinct_keys(keys, n).len() == 0);
        }
    }
}

/// A key that occurs is one of the keys.
proof fn lemma_occurs_in(keys: Seq<Seq<char>>, k: Seq<char>)
    requires
        occurrences(keys, k) > 0,
    ensures
        exists|m: int| 0 <= m < keys.len() && keys[m] == k,
{
    if !exists|m: int| 0 <= m < keys.len() && keys[m] == k {
        lemma_occurrences_absent(keys, k);
    }
}

/// `x` is the cluster finding of one of the keys `ds` that occurs at least
/// three times.
pub open spec fn from_frequent_key(keys: Seq<Seq<char>>, ds: Seq<Seq<char>>, x: FindingContent) -> bool {
    exists|j: int| 0 <= j < ds.len() && occurrences(keys, ds[j]) >= 3 && x == cluster_finding(keys, #[trigger] ds[j])
}

/// Each cluster finding over some keys comes from one of them that occurs at
/// least three times.
proof fn lemma_cluster_findings_sound(keys: Seq<Seq<char>>, ds: Seq<Seq<char>>)
    ensures
        forall|i: int| 0 <= i < cluster_findings(keys, ds).len()
            ==> from_frequent_key(keys, ds, #[trigger] cluster_findings(keys, ds)[i]),
    decreases ds.len(),
{
    if ds.len() > 0 {
        let init = ds.drop_last();
        let k = ds.last();
        lemma_cluster_findings_sound(keys, init);
        let a = cluster_findings(keys, init);
        let b = finding_if(occurrences(keys, k) >= 3, cluster_finding(keys, k));
        let r = cluster_findings(keys, ds);
        assert(r == a + b);
        assert forall|i: int| 0 <= i < r.len() implies from_frequent_key(keys, ds, #[trigger] r[i]) by {
            if i < a.len() {
                assert(r[i] == a[i]);
                assert(from_frequent_key(keys, init, a[i]));
                let j = choose|j: int| 0 <= j < init.len() && occurrences(keys, init[j]) >= 3
                    && a[i] == cluster_finding(keys, #[trigger] init[j]);
                assert(ds[j] == init[j]);
            } else {
                assert(r[i] == b[i - a.len()]);
                assert(ds[ds.len() - 1] == k);
            }
        }
    }
}

/// Each key of `ds` that occurs at least three times has its cluster
/// finding.
proof fn lemma_cluster_findings_complete(keys: Seq<Seq<char>>, ds: Seq<Seq<char>>, j: int)
    requires
        0 <= j < ds.len(),
        occurrences(keys, ds[j]) >= 3,
    ensures
        cluster_findings(keys, ds).contains(cluster_finding(keys, ds[j])),
    decreases ds.len(),
{
    let init = ds.drop_last();
    let k = ds.last();
    let a = cluster_findings(keys, init);
    let b = finding_if(occurrences(keys, k) >= 3, cluster_finding(keys, k));
    let r = cluster_findings(keys, ds);
    assert(r == a + b);
    if j < init.len() {
        assert(ds[j] == init[j]);
        lemma_cluster_findings_complete(keys, init, j);
        let i = choose|i: int| 0 <= i < a.len() && a[i] == cluster_finding(keys, init[j]);
        assert(r[i] == a[i]);
    } else {
        assert(r[a.len() as int] == b[0]);
    }
}

/// Over keys without repeats, no two cluster findings share their evidence.
proof fn lemma_cluster_findings_distinct(keys: Seq<Seq<char>>, ds: Seq<Seq<char>>)
    requires
        ds.no_duplicates(),
    ensures
        forall|i1: int, i2: int|
            0 <= i1 < cluster_findings(keys, ds).len() && 0 <= i2 < cluster_findings(keys, ds).len() && i1 != i2
                ==> (#[trigger] cluster_findings(keys, ds)[i1]).evidence != (#[trigger] cluster_findings(keys, ds)[i2]).evidence,
    decreases ds.len(),
{
    if ds.len() > 0 {
        let init = ds.drop_last();
        let k = ds.last();
        assert(init.no_duplicates()) by {
            assert forall|x: int, y: int| 0 <= x < init.len() && 0 <= y < init.len() && x != y implies init[x] != init[y] by {
                assert(init[x] == ds[x] && init[y] == ds[y]);
            }
        }
        lemma_cluster_findings_distinct(keys, init);
        lemma_cluster_findings_sound(keys, init);
        let a = cluster_findings(keys, init);
        let b = finding_if(occurrences(keys, k) >= 3, cluster_finding(keys, k));
        let r = cluster_findings(keys, ds);
        assert(r == a + b);
        assert forall|i1: int, i2: int| 0 <= i1 < r.len() && 0 <= i2 < r.len() && i1 != i2
            implies (#[trigger] r[i1]).evidence != (#[trigger] r[i2]).evidence by {
            if i1 < a.len() && i2 < a.len() {
                assert(r[i1] == a[i1] && r[i2] == a[i2]);
            } else if i1 >= a.len() && i2 >= a.len() {
                assert(b.len() <= 1);
            } else {
                let ia = if i1 < a.len() { i1 } else { i2 };
                let ib = if i1 < a.len() { i2 } else { i1 };
                assert(r[ia] == a[ia]);
                assert(r[ib] == cluster_finding(keys, k));
                assert(from_frequent_key(keys, init, a[ia]));
                let j = choose|j: int| 0 <= j < init.len() && occurrences(keys, init[j]) >= 3
                    && a[ia] == cluster_finding(keys, #[trigger] init[j]);
                assert(init[j] == ds[j]);
                assert(ds[j] != ds[ds.len() - 1]);
                lemma_cluster_finding_evidence(keys, init[j]);
                lemma_cluster_finding_evidence(keys, k);
                if r[ia].evidence == r[ib].evidence {
                    lemma_prefix_cancel("Pattern prefix: "@, init[j], k);
                }
            }
        }
    }
}

/// Each error pattern key seen at least three times gets exactly one
/// cluster finding, carrying its count and the key; no other key gets one.
pub proof fn law_log_cluster_findings(keys: Seq<Seq<char>>)
    ensures
        forall|k: Seq<char>| occurrences(keys, k) >= 3
            ==> cluster_findings(keys, distinct_keys(keys, keys.len())).contains(#[trigger] cluster_finding(keys, k)),
        forall|i: int| 0 <= i < cluster_findings(keys, distinct_keys(keys, keys.len())).len()
            ==> from_frequent_key(keys, distinct_keys(keys, keys.len()), #[trigger] cluster_findings(keys, distinct_keys(keys, keys.len()))[i]),
        forall|i1: int, i2: int|
            0 <= i1 < cluster_findings(keys, distinct_keys(keys, keys.len())).len()
            && 0 <= i2 < cluster_findings(keys, distinct_keys(keys, keys.len())).len()
            && (#[trigger] cluster_findings(keys, distinct_keys(keys, keys.len()))[i1]).evidence
                == (#[trigger] cluster_findings(keys, distinct_keys(keys, keys.len()))[i2]).evidence ==> i1 == i2,
{
    let ds = distinct_keys(keys, keys.len());
    lemma_distinct_keys(keys, keys.len());
    lemma_cluster_findings_sound(keys, ds);
    lemma_cluster_findings_distinct(keys, ds);
    assert forall|k: Seq<char>| occurrences(keys, k) >= 3
        implies cluster_findings(keys, ds).contains(#[trigger] cluster_finding(keys, k)) by {
        lemma_occurs_in(keys, k);
        assert(ds.contains(k));
        let j = choose|j: int| 0 <= j < ds.len() && ds[j] == k;
        lemma_cluster_findings_complete(keys, ds, j);
    }
}

/// In a log analysis, each error pattern key (the first 50 characters of a
/// lower-cased line that mentions "error" or "exception") seen on at least
/// three lines has exactly one cluster finding, carrying its count and the
/// key; every finding of the cluster kind is one of these.
pub proof fn law_log_analysis_clusters(ls: Seq<Seq<char>>, lowered: Seq<Seq<char>>, density: Seq<char>)
    ensures
        ({
            let r = log_findings(ls, lowered, density);
            let keys = pattern_keys(lowered, ls.len());
            let ds = distinct_keys(keys, keys.len());
            &&& forall|k: Seq<char>| occurrences(keys, k) >= 3 ==> r.contains(#[trigger] cluster_finding(keys, k))
            &&& forall|i: int| 0 <= i < r.len() && (#[trigger] r[i]).severity == Severity::High
                && r[i].category == FindingCategory::ErrorPattern && r[i].confidence == 800000
                ==> from_frequent_key(keys, ds, r[i])
            &&& forall|i1: int, i2: int| 0 <= i1 < r.len() && 0 <= i2 < r.len()
                && (#[trigger] r[i1]).confidence == 800000 && (#[trigger] r[i2]).confidence == 800000
                && r[i1].severity == Severity::High && r[i2].severity == Severity::High
                && r[i1].evidence == r[i2].evidence ==> i1 == i2
        }),
{
    let n = ls.len();
    let e = count_containing(lowered, "error"@, n);
    let w = count_containing(lowered, "warn"@, n);
    let f = count_containing(lowered, "fatal"@, n);
    let keys = pattern_keys(lowered, n);
    let ds = distinct_keys(keys, keys.len());
    let r = log_findings(ls, lowered, density);
    let d = cluster_findings(keys, ds);
    law_log_cluster_findings(keys);
    lemma_cluster_findings_kind(keys, ds);
    // The findings before the clusters are of other kinds.
    let pre_len = r.len() - d.len();
    assert(r.len() >= d.len());
    assert forall|i: int| 0 <= i < pre_len implies !((#[trigger] r[i]).severity == Severity::High
        && r[i].confidence == 800000) by {
        assert(r == log_findings(ls, lowered, density));
    }
    assert forall|j: int| 0 <= j < d.len() implies #[trigger] r[pre_len + j] == d[j] by {}
    assert forall|k: Seq<char>| occurrences(keys, k) >= 3 implies r.contains(#[trigger] cluster_finding(keys, k)) by {
        let j = choose|j: int| 0 <= j < d.len() && d[j] == cluster_finding(keys, k);
        assert(r[pre_len + j] == d[j]);
    }
    assert forall|i: int| 0 <= i < r.len() && (#[trigger] r[i]).severity == Severity::High
        && r[i].category == FindingCategory::ErrorPattern && r[i].confidence == 800000
        implies from_frequent_key(keys, ds, r[i]) by {
        assert(r[pre_len + (i - pre_len)] == d[i - pre_len]);
    }
    assert forall|i1: int, i2: int| 0 <= i1 < r.len() && 0 <= i2 < r.len()
        && (#[trigger] r[i1]).confidence == 800000 && (#[trigger] r[i2]).confidence == 800000
        && r[i1].severity == Severity::High && r[i2].severity == Severity::High
        && r[i1].evidence == r[i2].evidence implies i1 == i2 by {
        assert(r[pre_len + (i1 - pre_len)] == d[i1 - pre_len]);
        assert(r[pre_len + (i2 - pre_len)] == d[i2 - pre_len]);
    }
}

/// The first 50 characters of a line, written out.
pub open spec fn first_fifty(l: Seq<char>) -> Seq<char> {
    l.subrange(0, if l.len() <= 50 { l.len() as int } else { 50 })
}

/// Occurrences are counted part by part.
proof fn lemma_occurrences_add(a: Seq<Seq<char>>, b: Seq<Seq<char>>, k: Seq<char>)
    ensures
        occurrences(a + b, k) == occurrences(a, k) + occurrences(b, k),
    decreases b.len(),
{
    if b.len() == 0 {
        assert(a + b =~= a);
    } else {
        lemma_occurrences_add(a, b.drop_last(), k);
        assert((a + b).drop_last() =~= a + b.drop_last());
    }
}

/// A lower-cased line that mentions "error" or "exception" gives a pattern
/// key: its first 50 characters.
pub proof fn law_error_lines_are_keyed(lowered: Seq<Seq<char>>, n: nat, i: int)
    requires
        0 <= i < n,
        contains(lowered[i], "error"@) || contains(lowered[i], "exception"@),
    ensures
        pattern_keys(lowered, n).contains(first_fifty(lowered[i])),
    decreases n,
{
    let prev = pattern_keys(lowered, (n - 1) as nat);
    let l = lowered[n - 1];
    let tail = if is_error_line(l) { seq![prefix50(l)] } else { Seq::<Seq<char>>::empty() };
    assert(pattern_keys(lowered, n) == prev + tail);
    if i < n - 1 {
        law_error_lines_are_keyed(lowered, (n - 1) as nat, i);
        let p = choose|p: int| 0 <= p < prev.len() && prev[p] == first_fifty(lowered[i]);
        assert((prev + tail)[p] == prev[p]);
    } else {
        assert(prefix50(l) =~= first_fifty(l));
        assert((prev + tail)[prev.len() as int] == prefix50(l));
    }
}

/// How many of the lines `i`, `j`, `k` come before line `n`.
spec fn among_first(n: nat, i: int, j: int, k: int) -> nat {
    (if i < n { 1nat } else { 0nat }) + (if j < n { 1nat } else { 0nat }) + (if k < n { 1nat } else { 0nat })
}

proof fn lemma_key_occurrences(lowered: Seq<Seq<char>>, n: nat, i: int, j: int, k: int, key: Seq<char>)
    requires
        0 <= i < j,
        j < k,
        forall|m: int| (m == i || m == j || m == k) ==> (contains(#[trigger] lowered[m], "error"@)
            || contains(lowered[m], "exception"@)) && first_fifty(lowered[m]) == key,
    ensures
        occurrences(pattern_keys(lowered, n), key) >= among_first(n, i, j, k),
    decreases n,
{
    if n > 0 {
        lemma_key_occurrences(lowered, (n - 1) as nat, i, j, k, key);
        let prev = pattern_keys(lowered, (n - 1) as nat);
        let l = lowered[n - 1];
        let tail = if is_error_line(l) { seq![prefix50(l)] } else { Seq::<Seq<char>>::empty() };
        assert(pattern_keys(lowered, n) == prev + tail);
        lemma_occurrences_add(prev, tail, key);
        if n - 1 == i || n - 1 == j || n - 1 == k {
            let m = n - 1;
            assert((contains(lowered[m], "error"@) || contains(lowered[m], "exception"@))
                && first_fifty(lowered[m]) == key);
            assert(is_error_line(l));
            assert(prefix50(l) =~= first_fifty(l));
            assert(tail =~= seq![key]);
            assert(tail.drop_last() =~= Seq::<Seq<char>>::empty());
            assert(occurrences(tail.drop_last(), key) == 0);
            assert(tail.last() == key);
            assert(occurrences(tail, key) == 1);
        }
    }
}

/// Three lines whose lower-cased forms mention "error" or "exception" and
/// share their first 50 characters make a repeated error cluster: the
/// analysis reports the cluster finding of that prefix.
pub proof fn law_three_alike_error_lines_cluster(
    ls: Seq<Seq<char>>,
    lowered: Seq<Seq<char>>,
    density: Seq<char>,
    i: int,
    j: int,
    k: int,
)
    requires
        0 <= i < j,
        j < k < ls.len(),
        forall|m: int| (m == i || m == j || m == k) ==> (contains(#[trigger] lowered[m], "error"@)
            || contains(lowered[m], "exception"@)) && first_fifty(lowered[m]) == first_fifty(lowered[i]),
    ensures
        occurrences(pattern_keys(lowered, ls.len()), first_fifty(lowered[i])) >= 3,
        log_findings(ls, lowered, density).contains(
            cluster_finding(pattern_keys(lowered, ls.len()), first_fifty(lowered[i])),
        ),
{
    lemma_key_occurrences(lowered, ls.len(), i, j, k, first_fifty(lowered[i]));
    law_log_analysis_clusters(ls, lowered, density);
}

/// The count of lines that mention `p` is the number of lines, among the
/// first `n`, that mention it.
pub proof fn law_count_containing_counts_lines(ls: Seq<Seq<char>>, p: Seq<char>, n: nat)
    requires
        n <= ls.len(),
    ensures
        count_containing(ls, p, n) == ls.take(n as int).filter(|l: Seq<char>| contains(l, p)).len(),
    decreases n,
{
    reveal(Seq::filter);
    if n > 0 {
        law_count_containing_counts_lines(ls, p, (n - 1) as nat);
        assert(ls.take(n as int).drop_last() =~= ls.take(n - 1));
        assert(ls.take(n as int).last() == ls[n - 1]);
    } else {
        assert(ls.take(0) =~= Seq::<Seq<char>>::empty());
    }
}

/// The log analyzer reports a fatal finding exactly when some line mentions
/// "fatal", a high error rate exactly when more than five lines mention
/// "error", a few errors exactly when one to five do, and elevated warnings
/// exactly when more than ten lines mention "warn"; each at most once, all
/// from the log analyzer, and nothing at all for no lines.
pub proof fn law_log_finding_kinds(ls: Seq<Seq<char>>, lowered: Seq<Seq<char>>, density: Seq<char>)
    ensures
        ({
            let r = log_findings(ls, lowered, density);
            let n = ls.len();
            let e = count_containing(lowered, "error"@, n);
            let w = count_containing(lowered, "warn"@, n);
            let f = count_containing(lowered, "fatal"@, n);
            &&& kind_count(r, Severity::Critical, FindingCategory::ErrorPattern, 950000) == if f > 0 { 1nat } else { 0nat }
            &&& kind_count(r, Severity::High, FindingCategory::ErrorPattern, 850000) == if e > 5 { 1nat } else { 0nat }
            &&& kind_count(r, Severity::Medium, FindingCategory::ErrorPattern, 750000) == if 0 < e <= 5 { 1nat } else { 0nat }
            &&& kind_count(r, Severity::Medium, FindingCategory::AnomalousBehavior, 700000) == if w > 10 { 1nat } else { 0nat }
            &&& f > 0 ==> r[0] == log_finding(
                Severity::Critical,
                FindingCategory::ErrorPattern,
                "Detected "@ + decimal(f) + " fatal log entries"@,
                "Lines containing FATAL: "@ + join(fatal_samples(ls, lowered, n), " | "@),
                950000,
            )
            &&& e > 5 ==> r.contains(log_finding(
                Severity::High,
                FindingCategory::ErrorPattern,
                "High error rate detected: "@ + decimal(e) + " errors in "@ + decimal(n) + " lines"@,
                density,
                850000,
            ))
            &&& 0 < e <= 5 ==> r.contains(log_finding(
                Severity::Medium,
                FindingCategory::ErrorPattern,
                "Found "@ + decimal(e) + " error entries in logs"@,
                "Error entries present"@,
                750000,
            ))
            &&& w > 10 ==> r.contains(log_finding(
                Severity::Medium,
                FindingCategory::AnomalousBehavior,
                "Elevated warning count: "@ + decimal(w) + " warnings"@,
                "High warning frequency may indicate degrading service"@,
                700000,
            ))
            &&& all_from(r, "log_analyzer"@)
            &&& n == 0 ==> r.len() == 0
        }),
{
    let n = ls.len();
    let e = count_containing(lowered, "error"@, n);
    let w = count_containing(lowered, "warn"@, n);
    let f = count_containing(lowered, "fatal"@, n);
    let keys = pattern_keys(lowered, n);
    let ds = distinct_keys(keys, keys.len());
    let fatal = log_finding(
        Severity::Critical,
        FindingCategory::ErrorPattern,
        "Detected "@ + decimal(f) + " fatal log entries"@,
        "Lines containing FATAL: "@ + join(fatal_samples(ls, lowered, n), " | "@),
        950000,
    );
    let high = log_finding(
        Severity::High,
        FindingCategory::ErrorPattern,
        "High error rate detected: "@ + decimal(e) + " errors in "@ + decimal(n) + " lines"@,
        density,
        850000,
    );
    let found = log_finding(
        Severity::Medium,
        FindingCategory::ErrorPattern,
        "Found "@ + decimal(e) + " error entries in logs"@,
        "Error entries present"@,
        750000,
    );
    let warn = log_finding(
        Severity::Medium,
        FindingCategory::AnomalousBehavior,
        "Elevated warning count: "@ + decimal(w) + " warnings"@,
        "High warning frequency may indicate degrading service"@,
        700000,
    );
    let a = finding_if(f > 0, fatal);
    let b = if e > 5 { seq![high] } else { finding_if(e > 0, found) };
    let c = finding_if(w > 10, warn);
    let d = cluster_findings(keys, ds);
    let r = log_findings(ls, lowered, density);
    assert(r == a + b + c + d);
    lemma_cluster_findings_kind(keys, ds);
    lemma_kind_count_add4(a, b, c, d, Severity::Critical, FindingCategory::ErrorPattern, 950000);
    lemma_kind_count_add4(a, b, c, d, Severity::High, FindingCategory::ErrorPattern, 850000);
    lemma_kind_count_add4(a, b, c, d, Severity::Medium, FindingCategory::ErrorPattern, 750000);
    lemma_kind_count_add4(a, b, c, d, Severity::Medium, FindingCategory::AnomalousBehavior, 700000);
    lemma_kind_count_none(d, Severity::Critical, FindingCategory::ErrorPattern, 950000);
    lemma_kind_count_none(d, Severity::High, FindingCategory::ErrorPattern, 850000);
    lemma_kind_count_none(d, Severity::Medium, FindingCategory::ErrorPattern, 750000);
    lemma_kind_count_none(d, Severity::Medium, FindingCategory::AnomalousBehavior, 700000);
    lemma_kind_count_if(f > 0, fatal, Severity::Critical, FindingCategory::ErrorPattern, 950000);
    lemma_kind_count_if(f > 0, fatal, Severity::High, FindingCategory::ErrorPattern, 850000);
    lemma_kind_count_if(f > 0, fatal, Severity::Medium, FindingCategory::ErrorPattern, 750000);
    lemma_kind_count_if(f > 0, fatal, Severity::Medium, FindingCategory::AnomalousBehavior, 700000);
    lemma_kind_count_if(w > 10, warn, Severity::Critical, FindingCategory::ErrorPattern, 950000);
    lemma_kind_count_if(w > 10, warn, Severity::High, FindingCategory::ErrorPattern, 850000);
    lemma_kind_count_if(w > 10, warn, Severity::Medium, FindingCategory::ErrorPattern, 750000);
    lemma_kind_count_if(w > 10, warn, Severity::Medium, FindingCategory::AnomalousBehavior, 700000);
    if e > 5 {
        lemma_kind_count_if(true, high, Severity::Critical, FindingCategory::ErrorPattern, 950000);
        lemma_kind_count_if(true, high, Severity::High, FindingCategory::ErrorPattern, 850000);
        lemma_kind_count_if(true, high, Severity::Medium, FindingCategory::ErrorPattern, 750000);
        lemma_kind_count_if(true, high, Severity::Medium, FindingCategory::AnomalousBehavior, 700000);
        assert(b == finding_if(true, high));
        assert(r[a.len() as int] == high);
    } else {
        lemma_kind_count_if(e > 0, found, Severity::Critical, FindingCategory::ErrorPattern, 950000);
        lemma_kind_count_if(e > 0, found, Severity::High, FindingCategory::ErrorPattern, 850000);
        lemma_kind_count_if(e > 0, found, Severity::Medium, FindingCategory::ErrorPattern, 750000);
        lemma_kind_count_if(e > 0, found, Severity::Medium, FindingCategory::AnomalousBehavior, 700000);
        if e > 0 {
            assert(r[a.len() as int] == found);
        }
    }
    if w > 10 {
        assert(r[(a.len() + b.len()) as int] == warn);
    }
    assert forall|i: int| 0 <= i < r.len() implies (#[trigger] r[i]).agent_id == "log_analyzer"@ by {
        if i < a.len() {
            assert(r[i] == a[i]);
        } else if i < a.len() + b.len() {
            assert(r[i] == b[i - a.len()]);
        } else if i < a.len() + b.len() + c.len() {
            assert(r[i] == c[i - a.len() - b.len()]);
        } else {
            assert(r[i] == d[i - a.len() - b.len() - c.len()]);
        }
    }
    if n == 0 {
        assert(keys.len() == 0);
        assert(ds.len() == 0);
    }
}

} // verus!
